//! Terms and literals read back as the values that they were made from.

use vstd::prelude::*;

use crate::acorn_type::{ModuleId, TypeV, SKOLEM};
use crate::acorn_value::{apply, value_type, BinaryOp, ValueV};
use crate::claims::law_closed_claims_quantify;
use crate::clause::{clause_of, max_quantifiers, ClauseV};
use crate::denormalize::{
    atom_value, denormalized, disjunction, literal_heads, literal_value, term_value, term_values,
    variable_types,
};
use crate::literal::LiteralV;
use crate::model::{are_of, is_true, meaning, ModelV};
use crate::normalizer::{
    applied_term, clauses_for, comparison_literal, constant_term, has_tautology, literal_for,
    literals_for, skolem_name, skolem_number, termed, termed_all, typed_atom, NormalizerV,
};
use crate::term::{true_term, Atom, TermV, TypeId};

verus! {

/// Whether a value is made of variables, constants without type parameters and applications.
pub open spec fn is_simple(v: ValueV) -> bool
    decreases v,
{
    match v {
        ValueV::Variable(_, _) => true,
        ValueV::Bool(b) => b,
        ValueV::Constant(_, _, _, ps) => ps.len() == 0,
        ValueV::Application(f, args) => !(*f is Bool) && is_simple(*f) && are_simple(args),
        _ => false,
    }
}

/// Whether this holds of each of some values.
pub open spec fn are_simple(vs: Seq<ValueV>) -> bool
    decreases vs,
{
    forall|i: int| 0 <= i < vs.len() ==> is_simple(#[trigger] vs[i])
}

/// A value where what is applied to arguments and then to more is applied to all of them at once.
pub open spec fn joined_value(v: ValueV) -> ValueV
    decreases v,
{
    match v {
        ValueV::Application(f, args) => match joined_value(*f) {
            ValueV::Application(g, first) => ValueV::Application(g, first + joined_values(args)),
            g => apply(g, joined_values(args)),
        },
        _ => v,
    }
}

/// Each of some values, joined.
pub open spec fn joined_values(vs: Seq<ValueV>) -> Seq<ValueV>
    decreases vs,
{
    Seq::new(
        vs.len(),
        |i: int|
            if 0 <= i < vs.len() {
                joined_value(vs[i])
            } else {
                ValueV::Bool(false)
            },
    )
}

/// Whether a normalizer knows what another knows, under the same numbers.
pub open spec fn extends(m: NormalizerV, k: NormalizerV) -> bool {
    &&& m.skolem_types == k.skolem_types
    &&& m.types.types.len() <= k.types.types.len()
    &&& forall|i: int|
        0 <= i < m.types.types.len() ==> k.types.types[i] == #[trigger] m.types.types[i]
    &&& m.constants.len() <= k.constants.len()
    &&& forall|i: int| 0 <= i < m.constants.len() ==> k.constants[i] == #[trigger] m.constants[i]
}

proof fn lemma_value_kept(m: NormalizerV, k: NormalizerV, t: TermV)
    requires
        extends(m, k),
        term_value(m, t) is Some,
    ensures
        term_value(k, t) == term_value(m, t),
    decreases t, 0nat,
{
    assert(k.types.types[t.head_type as int] == m.types.types[t.head_type as int]);
    match t.head {
        Atom::GlobalConstant(i) => {
            assert(i < m.constants.len());
            assert(k.constants[i as int] == m.constants[i as int]);
        },
        _ => {},
    }
    lemma_values_kept(m, k, t.args, t.args.len());
}

proof fn lemma_values_kept(m: NormalizerV, k: NormalizerV, ts: Seq<TermV>, n: nat)
    requires
        extends(m, k),
        term_values(m, ts, n) is Some,
        n <= ts.len(),
    ensures
        term_values(k, ts, n) == term_values(m, ts, n),
    decreases ts, n,
{
    if n > 0 {
        lemma_values_kept(m, k, ts, (n - 1) as nat);
        lemma_value_kept(m, k, ts[n - 1]);
    }
}

proof fn lemma_typed(m: NormalizerV, t: TypeV, a: Atom)
    requires
        m.wf(),
    ensures
        ({
            let (k, x) = typed_atom(m, t, a);
            &&& k.wf()
            &&& extends(m, k)
            &&& k.constants == m.constants
            &&& x is Some ==> {
                &&& x->0.head == a
                &&& x->0.args.len() == 0
                &&& x->0.head_type == x->0.term_type
                &&& x->0.term_type < k.types.types.len()
                &&& k.types.types[x->0.term_type as int] == t
            }
        }),
{
    let (k, x) = typed_atom(m, t, a);
    if m.types.has_room(t) {
        let types = m.types.with_type(t);
        if !m.types.types.contains(t) {
            assert(types.types[m.types.types.len() as int] == t);
        }
        assert(types.types.contains(t));
        let i = types.types.index_of(t);
        assert(0 <= i < types.types.len() && types.types[i] == t);
        assert(i as TypeId == i);
    }
}

proof fn lemma_skolem_number(n: nat, name: Seq<char>)
    ensures
        match skolem_number(n, name) {
            Some(k) => name == skolem_name(k),
            None => true,
        },
    decreases n,
{
    if n > 0 && name != skolem_name((n - 1) as nat) {
        lemma_skolem_number((n - 1) as nat, name);
    }
}

proof fn lemma_constant(m: NormalizerV, module: ModuleId, name: Seq<char>, t: TypeV)
    requires
        m.wf(),
    ensures
        ({
            let (k, x) = constant_term(m, module, name, t);
            &&& k.wf()
            &&& extends(m, k)
            &&& x is Some ==> term_value(k, x->0) == Some(
                ValueV::Constant(module, name, t, Seq::empty()),
            ) && k.types.types[x->0.term_type as int] == t && x->0.args.len() == 0
                && x->0.term_type < k.types.types.len()
        }),
{
    let (k, x) = constant_term(m, module, name, t);
    if module == SKOLEM {
        lemma_skolem_number(m.skolem_types.len(), name);
        if let Some(n) = skolem_number(m.skolem_types.len(), name) {
            lemma_typed(m, t, Atom::Synthetic(n as u16));
        }
    } else if m.constants.contains((module, name)) {
        let i = m.constants.index_of((module, name));
        assert(0 <= i < m.constants.len() && m.constants[i] == (module, name));
        lemma_typed(m, t, Atom::GlobalConstant(i as u16));
    } else if m.constants.len() <= u16::MAX {
        let more = NormalizerV { constants: m.constants.push((module, name)), ..m };
        assert(more.constants.no_duplicates());
        lemma_typed(more, t, Atom::GlobalConstant(m.constants.len() as u16));
        assert(more.constants[m.constants.len() as int] == (module, name));
        assert forall|i: int| 0 <= i < m.constants.len() implies k.constants[i]
            == #[trigger] m.constants[i] by {
            assert(more.constants[i] == m.constants[i]);
        }
    }
    if x is Some {
        assert(term_values(k, x->0.args, 0) == Some(Seq::<ValueV>::empty()));
    }
}

proof fn lemma_extends_more(a: NormalizerV, b: NormalizerV, c: NormalizerV)
    requires
        extends(a, b),
        extends(b, c),
    ensures
        extends(a, c),
{
    assert forall|i: int| 0 <= i < a.types.types.len() implies c.types.types[i]
        == #[trigger] a.types.types[i] by {
        assert(b.types.types[i] == a.types.types[i]);
    }
    assert forall|i: int| 0 <= i < a.constants.len() implies c.constants[i]
        == #[trigger] a.constants[i] by {
        assert(b.constants[i] == a.constants[i]);
    }
}

/// A term reads back as the value that it was made from, with all arguments of a function at
/// once. Its type is the value's, and numbers that were given before are kept.
pub proof fn law_terms_read_back(m: NormalizerV, v: ValueV)
    requires
        m.wf(),
        is_simple(v),
    ensures
        ({
            let (k, t) = termed(m, v);
            &&& k.wf()
            &&& extends(m, k)
            &&& t is Some ==> {
                &&& term_value(k, t->0) == Some(joined_value(v))
                &&& t->0.term_type < k.types.types.len()
                &&& k.types.types[t->0.term_type as int] == value_type(v)
                &&& t->0.head is True ==> v == ValueV::Bool(true)
            }
        }),
    decreases v, 0nat,
{
    match v {
        ValueV::Variable(i, t) => {
            lemma_typed(m, t, Atom::Variable(i));
            let (k, x) = termed(m, v);
            if x is Some {
                assert(term_values(k, x->0.args, 0) == Some(Seq::<ValueV>::empty()));
            }
        },
        ValueV::Bool(_) => {
            assert(term_values(m, true_term().args, 0) == Some(Seq::<ValueV>::empty()));
        },
        ValueV::Constant(module, name, t, ps) => {
            assert(ps =~= Seq::empty());
            lemma_constant(m, module, name, t);
        },
        ValueV::Application(f, args) => {
            law_terms_read_back(m, *f);
            let (after_head, head) = termed(m, *f);
            if let Some(h) = head {
                let (after_args, terms) = termed_all(after_head, args, args.len());
                assert(are_simple(args));
                lemma_terms_read_back(after_head, args, args.len());
                lemma_extends_more(m, after_head, after_args);
                if let Some(ts) = terms {
                    let (k, t) = applied_term(after_args, h, ts, value_type(v));
                    lemma_typed(after_args, value_type(v), h.head);
                    lemma_extends_more(m, after_args, k);
                    lemma_extends_more(after_head, after_args, k);
                    if t is Some {
                        let x = t->0;
                        lemma_value_kept(after_head, k, h);
                        lemma_values_kept(after_args, k, ts, ts.len());
                        let first = term_values(k, h.args, h.args.len())->0;
                        let more = term_values(k, ts, ts.len())->0;
                        lemma_term_values_len(k, h.args, h.args.len());
                        lemma_joined_terms(k, h.args, ts, ts.len());
                        assert(joined_values(args).take(args.len() as int) =~= joined_values(args));
                        assert(more == joined_values(args));
                        assert(x.args == h.args + ts);
                        let atom = atom_value(k, h.head, k.types.types[h.head_type as int])->0;
                        assert(joined_value(*f) == apply(atom, first));
                        assert(!(atom is Application));
                        assert(term_value(k, x) == Some(apply(atom, first + more)));
                        if first.len() == 0 {
                            assert(first + more =~= more);
                        }
                    }
                }
            }
        },
        _ => {},
    }
}

proof fn lemma_term_values_len(m: NormalizerV, ts: Seq<TermV>, n: nat)
    requires
        n <= ts.len(),
        term_values(m, ts, n) is Some,
    ensures
        term_values(m, ts, n)->0.len() == n,
    decreases n,
{
    if n > 0 {
        lemma_term_values_len(m, ts, (n - 1) as nat);
    }
}

proof fn lemma_terms_read_back(m: NormalizerV, vs: Seq<ValueV>, n: nat)
    requires
        m.wf(),
        are_simple(vs),
        n <= vs.len(),
    ensures
        ({
            let (k, ts) = termed_all(m, vs, n);
            &&& k.wf()
            &&& extends(m, k)
            &&& ts is Some ==> ts->0.len() == n && term_values(k, ts->0, n) == Some(
                joined_values(vs).take(n as int),
            )
        }),
    decreases vs, n,
{
    if n > 0 {
        let p = (n - 1) as nat;
        lemma_terms_read_back(m, vs, p);
        let (k1, before) = termed_all(m, vs, p);
        if let Some(ts) = before {
            law_terms_read_back(k1, vs[p as int]);
            let (k2, t) = termed(k1, vs[p as int]);
            lemma_extends_more(m, k1, k2);
            if let Some(x) = t {
                let all = ts.push(x);
                assert(termed_all(m, vs, n) == (k2, Some(all)));
                lemma_values_kept(k1, k2, ts, p);
                lemma_prefix_values(k2, ts, all, p);
                assert(all[p as int] == x);
                assert(term_values(k2, all, p) == Some(joined_values(vs).take(p as int)));
                assert(joined_values(vs).take(n as int) =~= joined_values(vs).take(p as int).push(
                    joined_value(vs[p as int]),
                ));
            }
        }
    } else {
        assert(joined_values(vs).take(0) =~= Seq::<ValueV>::empty());
    }
}

proof fn lemma_prefix_values(m: NormalizerV, a: Seq<TermV>, b: Seq<TermV>, n: nat)
    requires
        n <= a.len() <= b.len(),
        forall|i: int| 0 <= i < n ==> a[i] == #[trigger] b[i],
    ensures
        term_values(m, a, n) == term_values(m, b, n),
    decreases n,
{
    if n > 0 {
        lemma_prefix_values(m, a, b, (n - 1) as nat);
        assert(a[n - 1] == b[n - 1]);
    }
}

proof fn lemma_joined_terms(m: NormalizerV, a: Seq<TermV>, b: Seq<TermV>, n: nat)
    requires
        n <= b.len(),
        term_values(m, a, a.len()) is Some,
        term_values(m, b, n) is Some,
    ensures
        term_values(m, a + b, a.len() + n) == Some(
            term_values(m, a, a.len())->0 + term_values(m, b, n)->0,
        ),
    decreases n,
{
    let first = term_values(m, a, a.len())->0;
    if n > 0 {
        let p = (n - 1) as nat;
        lemma_joined_terms(m, a, b, p);
        assert((a + b)[a.len() + n - 1] == b[p as int]);
        let before = term_values(m, b, p)->0;
        let x = term_value(m, b[p as int])->0;
        assert((first + before).push(x) =~= first + before.push(x));
    } else {
        lemma_prefix_values(m, a, a + b, a.len());
        assert(first + Seq::<ValueV>::empty() =~= first);
    }
}

/// The proposition that a literal was made from, with all arguments of functions at once.
pub open spec fn joined_claim(v: ValueV) -> ValueV {
    match v {
        ValueV::Binary(op, l, r) => ValueV::Binary(
            op,
            Box::new(joined_value(*l)),
            Box::new(joined_value(*r)),
        ),
        ValueV::Not(x) => ValueV::Not(Box::new(joined_value(*x))),
        _ => joined_value(v),
    }
}

/// Whether a proposition compares simple values of the same type, or is one or the negation of
/// one.
pub open spec fn is_simple_claim(v: ValueV) -> bool {
    match v {
        ValueV::Binary(op, l, r) => (op is Equals || op is NotEquals) && is_simple(*l)
            && is_simple(*r) && value_type(joined_value(*l)) == value_type(joined_value(*r)),
        ValueV::Not(x) => is_simple(*x),
        _ => is_simple(v),
    }
}

/// A literal reads back as a proposition that holds exactly where the one that it was made from
/// does.
pub proof fn law_literals_read_back(k: NormalizerV, v: ValueV, m: ModelV, st: Seq<int>)
    requires
        k.wf(),
        literal_for(k, v).1 is Some,
        is_simple_claim(v),
    ensures
        ({
            let (after, l) = literal_for(k, v);
            let w = literal_value(after, l->0);
            &&& after.wf()
            &&& extends(k, after)
            &&& w is Some
            &&& is_true(w->0, m, st) == is_true(joined_claim(v), m, st)
        }),
{
    reveal_with_fuel(meaning, 2);
    match v {
        ValueV::Binary(BinaryOp::Equals, l, r) => lemma_comparison(k, true, *l, *r, m, st),
        ValueV::Binary(BinaryOp::NotEquals, l, r) => lemma_comparison(k, false, *l, *r, m, st),
        ValueV::Not(x) => lemma_truth(k, false, *x, m, st),
        _ => lemma_truth(k, true, v, m, st),
    }
}

proof fn lemma_comparison(
    k: NormalizerV,
    positive: bool,
    l: ValueV,
    r: ValueV,
    m: ModelV,
    st: Seq<int>,
)
    requires
        k.wf(),
        is_simple(l),
        is_simple(r),
        comparison_literal(k, positive, l, r).1 is Some,
        value_type(joined_value(l)) == value_type(joined_value(r)),
    ensures
        ({
            let (after, x) = comparison_literal(k, positive, l, r);
            let w = literal_value(after, x->0);
            let op = if positive {
                BinaryOp::Equals
            } else {
                BinaryOp::NotEquals
            };
            &&& after.wf()
            &&& extends(k, after)
            &&& w is Some
            &&& is_true(w->0, m, st) == is_true(
                ValueV::Binary(op, Box::new(joined_value(l)), Box::new(joined_value(r))),
                m,
                st,
            )
        }),
{
    law_terms_read_back(k, l);
    let (after_left, left) = termed(k, l);
    law_terms_read_back(after_left, r);
    let (after, right) = termed(after_left, r);
    lemma_extends_more(k, after_left, after);
    lemma_value_kept(after_left, after, left->0);
    let a = joined_value(l);
    let b = joined_value(r);
    assert(term_value(after, left->0) == Some(a));
    assert(term_value(after, right->0) == Some(b));
    reveal_with_fuel(meaning, 2);
}

proof fn lemma_truth(k: NormalizerV, positive: bool, x: ValueV, m: ModelV, st: Seq<int>)
    requires
        k.wf(),
        is_simple(x),
        comparison_literal(k, positive, x, ValueV::Bool(true)).1 is Some,
    ensures
        ({
            let (after, l) = comparison_literal(k, positive, x, ValueV::Bool(true));
            let w = literal_value(after, l->0);
            &&& after.wf()
            &&& extends(k, after)
            &&& w is Some
            &&& is_true(w->0, m, st) == (is_true(joined_value(x), m, st) == positive)
        }),
{
    let yes = ValueV::Bool(true);
    law_terms_read_back(k, x);
    let (after_left, left) = termed(k, x);
    law_terms_read_back(after_left, yes);
    let (after, right) = termed(after_left, yes);
    lemma_extends_more(k, after_left, after);
    lemma_value_kept(after_left, after, left->0);
    let a = joined_value(x);
    assert(term_value(after, left->0) == Some(a));
    assert(term_value(after, right->0) == Some(yes));
    reveal_with_fuel(meaning, 2);
}

/// Whether a literal reads back as a proposition that holds exactly where another does.
pub open spec fn reads_as(
    k: NormalizerV,
    l: LiteralV,
    v: ValueV,
    m: ModelV,
    st: Seq<int>,
) -> bool {
    match literal_value(k, l) {
        Some(w) => is_true(w, m, st) == is_true(joined_claim(v), m, st),
        None => false,
    }
}

/// Whether some literals read back as some propositions, one for one.
pub open spec fn all_read_as(
    k: NormalizerV,
    ls: Seq<LiteralV>,
    vs: Seq<ValueV>,
    m: ModelV,
    st: Seq<int>,
) -> bool {
    ls.len() == vs.len() && forall|i: int|
        0 <= i < ls.len() ==> reads_as(k, #[trigger] ls[i], vs[i], m, st)
}

proof fn lemma_read_later(
    k: NormalizerV,
    after: NormalizerV,
    ls: Seq<LiteralV>,
    vs: Seq<ValueV>,
    m: ModelV,
    st: Seq<int>,
)
    requires
        all_read_as(k, ls, vs, m, st),
        extends(k, after),
    ensures
        all_read_as(after, ls, vs, m, st),
{
    assert forall|i: int| 0 <= i < ls.len() implies reads_as(
        after,
        #[trigger] ls[i],
        vs[i],
        m,
        st,
    ) by {
        assert(reads_as(k, ls[i], vs[i], m, st));
        lemma_value_kept(k, after, ls[i].left);
        lemma_value_kept(k, after, ls[i].right);
    }
}

proof fn lemma_literals(
    k: NormalizerV,
    vs: Seq<ValueV>,
    n: nat,
    m: ModelV,
    st: Seq<int>,
)
    requires
        k.wf(),
        n <= vs.len(),
        literals_for(k, vs, n).1 is Some,
        forall|i: int| 0 <= i < vs.len() ==> is_simple_claim(#[trigger] vs[i]),
    ensures
        ({
            let (after, ls) = literals_for(k, vs, n);
            &&& after.wf()
            &&& extends(k, after)
            &&& all_read_as(after, ls->0, vs.take(n as int), m, st)
        }),
    decreases n,
{
    if n > 0 {
        let p = (n - 1) as nat;
        lemma_literals(k, vs, p, m, st);
        let (before, first) = literals_for(k, vs, p);
        law_literals_read_back(before, vs[p as int], m, st);
        let (after, l) = literal_for(before, vs[p as int]);
        lemma_extends_more(k, before, after);
        lemma_read_later(before, after, first->0, vs.take(p as int), m, st);
        let ls = first->0.push(l->0);
        assert forall|i: int| 0 <= i < ls.len() implies reads_as(
            after,
            #[trigger] ls[i],
            vs.take(n as int)[i],
            m,
            st,
        ) by {
            if i < p {
                assert(first->0[i] == ls[i]);
                assert(vs.take(p as int)[i] == vs[i]);
            }
        }
    }
}

/// Whether a list of values is said by some clauses: by the clause of literals that read back as
/// the values, or by nothing where one of these literals always holds.
pub open spec fn is_said(
    k: NormalizerV,
    vs: Seq<ValueV>,
    cs: Seq<ClauseV>,
    m: ModelV,
    st: Seq<int>,
) -> bool {
    exists|ls: Seq<LiteralV>| #[trigger]
        all_read_as(k, ls, vs, m, st) && (has_tautology(ls) || cs.contains(clause_of(ls)))
}

/// Each list of values is said by the clauses that are made from the lists.
pub proof fn law_every_list_is_said(
    k: NormalizerV,
    lists: Seq<Seq<ValueV>>,
    n: nat,
    m: ModelV,
    st: Seq<int>,
)
    requires
        k.wf(),
        n <= lists.len(),
        clauses_for(k, lists, n).1 is Some,
        forall|i: int, j: int|
            0 <= i < lists.len() && 0 <= j < lists[i].len() ==> is_simple_claim(
                #[trigger] lists[i][j],
            ),
    ensures
        ({
            let (after, cs) = clauses_for(k, lists, n);
            &&& after.wf()
            &&& extends(k, after)
            &&& forall|i: int| 0 <= i < n ==> is_said(after, #[trigger] lists[i], cs->0, m, st)
            &&& cs->0.len() <= n
        }),
    decreases n,
{
    if n > 0 {
        let p = (n - 1) as nat;
        law_every_list_is_said(k, lists, p, m, st);
        let (before, first) = clauses_for(k, lists, p);
        let vs = lists[p as int];
        lemma_literals(before, vs, vs.len(), m, st);
        let (after, literals) = literals_for(before, vs, vs.len());
        let ls = literals->0;
        lemma_extends_more(k, before, after);
        assert(vs.take(vs.len() as int) =~= vs);
        let cs = clauses_for(k, lists, n).1->0;
        assert forall|i: int| 0 <= i < n implies is_said(after, #[trigger] lists[i], cs, m, st) by {
            if i < p {
                assert(is_said(before, lists[i], first->0, m, st));
                let old_ls = choose|x: Seq<LiteralV>| #[trigger]
                    all_read_as(before, x, lists[i], m, st) && (has_tautology(x)
                        || first->0.contains(clause_of(x)));
                lemma_read_later(before, after, old_ls, lists[i], m, st);
                if first->0.contains(clause_of(old_ls)) {
                    let j = choose|j: int|
                        0 <= j < first->0.len() && first->0[j] == clause_of(old_ls);
                    assert(cs[j] == clause_of(old_ls));
                }
            } else {
                assert(all_read_as(after, ls, vs, m, st));
                if !has_tautology(ls) {
                    assert(cs[first->0.len() as int] == clause_of(ls));
                }
            }
        }
    }
}

/// Whether one of the first `n` literals reads back as a proposition that holds.
pub open spec fn one_reads_as_true(
    k: NormalizerV,
    ls: Seq<LiteralV>,
    n: nat,
    m: ModelV,
    st: Seq<int>,
) -> bool {
    exists|i: int|
        0 <= i < n && i < ls.len() && is_true(literal_value(k, #[trigger] ls[i])->0, m, st)
}

proof fn lemma_disjunction(k: NormalizerV, ls: Seq<LiteralV>, n: nat, m: ModelV, st: Seq<int>)
    requires
        n <= ls.len(),
        disjunction(k, ls, n) is Some,
    ensures
        is_true(disjunction(k, ls, n)->0, m, st) == one_reads_as_true(k, ls, n, m, st),
    decreases n,
{
    if n == 1 {
        assert(is_true(literal_value(k, ls[0])->0, m, st) == one_reads_as_true(k, ls, 1, m, st));
    } else if n > 1 {
        let p = (n - 1) as nat;
        lemma_disjunction(k, ls, p, m, st);
        let a = disjunction(k, ls, p)->0;
        let b = literal_value(k, ls[p as int])->0;
        assert(is_true(ValueV::Binary(BinaryOp::Or, Box::new(a), Box::new(b)), m, st) == (is_true(
            a,
            m,
            st,
        ) || is_true(b, m, st)));
        if one_reads_as_true(k, ls, n, m, st) && !is_true(b, m, st) {
            let i = choose|i: int|
                0 <= i < n && i < ls.len() && is_true(
                    literal_value(k, #[trigger] ls[i])->0,
                    m,
                    st,
                );
            assert(i < p);
        }
        if one_reads_as_true(k, ls, p, m, st) {
            let i = choose|i: int|
                0 <= i < p && i < ls.len() && is_true(
                    literal_value(k, #[trigger] ls[i])->0,
                    m,
                    st,
                );
            assert(0 <= i < n);
        }
    }
}

/// A clause that is turned back into a proposition says that for all elements for its variables
/// one of its literals holds.
pub proof fn law_clauses_read_back_as_what_they_say(
    k: NormalizerV,
    c: ClauseV,
    m: ModelV,
) -> (types: Seq<TypeV>)
    requires
        denormalized(k, c) is Some,
    ensures
        types.len() == max_quantifiers(c.literals, c.literals.len()),
        is_true(denormalized(k, c)->0, m, Seq::empty()) <==> forall|xs: Seq<int>| #[trigger]
            are_of(m, types, xs) ==> one_reads_as_true(k, c.literals, c.literals.len(), m, xs),
{
    let ls = c.literals;
    let hs = literal_heads(ls, ls.len());
    let n = max_quantifiers(ls, ls.len()) as nat;
    let types = variable_types(k, hs, n)->0;
    lemma_variable_types_len(k, hs, n);
    let v = disjunction(k, ls, ls.len())->0;
    let start = Seq::<int>::empty();
    law_closed_claims_quantify(types, v, m, start);
    assert forall|xs: Seq<int>| #[trigger] are_of(m, types, xs) implies is_true(
        v,
        m,
        start + xs,
    ) == one_reads_as_true(k, ls, ls.len(), m, xs) by {
        assert(start + xs =~= xs);
        lemma_disjunction(k, ls, ls.len(), m, xs);
    }
    types
}

proof fn lemma_variable_types_len(k: NormalizerV, hs: Seq<(Atom, TypeId)>, n: nat)
    requires
        variable_types(k, hs, n) is Some,
    ensures
        variable_types(k, hs, n)->0.len() == n,
    decreases n,
{
    if n > 0 {
        lemma_variable_types_len(k, hs, (n - 1) as nat);
    }
}

} // verus!
