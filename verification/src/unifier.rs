//! Unification of terms, and matching of a term with a more general one.

use vstd::prelude::*;

use crate::table::{Key, Table};
use crate::term::{
    atomic, check_term, has_atom, has_atom_all, is_var, is_variable, lemma_term_view, only, Atom,
    Exactly, Term, TermV,
};
use crate::text::views;

verus! {

/// What is put for a variable.
pub type BindingV = (Atom, TermV);

/// Two terms that are to be the same.
pub type EquationV = (TermV, TermV);

/// A term with another one put for a variable. Where the variable has arguments, they follow those
/// of the other term.
pub open spec fn replaced(t: TermV, x: Atom, u: TermV) -> TermV
    decreases t,
{
    let args = replaced_all(t.args, x, u);
    if t.head == x {
        TermV { term_type: t.term_type, head_type: u.head_type, head: u.head, args: u.args + args }
    } else {
        TermV { args, ..t }
    }
}

/// A list of terms with another one put for a variable in each.
pub open spec fn replaced_all(ts: Seq<TermV>, x: Atom, u: TermV) -> Seq<TermV>
    decreases ts,
{
    Seq::new(
        ts.len(),
        |i: int|
            if 0 <= i < ts.len() {
                replaced(ts[i], x, u)
            } else {
                arbitrary()
            },
    )
}

/// A term with the first `n` of some bindings put in, one after the other.
pub open spec fn applied(t: TermV, s: Seq<BindingV>, n: nat) -> TermV
    decreases n,
{
    if n == 0 || n > s.len() {
        t
    } else {
        replaced(applied(t, s, (n - 1) as nat), s[n - 1].0, s[n - 1].1)
    }
}

/// A term with bindings put in.
pub open spec fn instance(t: TermV, s: Seq<BindingV>) -> TermV {
    applied(t, s, s.len())
}

/// A size for terms: taking an application apart makes it less.
pub open spec fn size(t: TermV) -> nat
    decreases t, 0nat,
{
    if t.args.len() == 0 {
        1
    } else {
        2 + size_all(t.args, t.args.len())
    }
}

/// The size of the first `n` terms.
pub open spec fn size_all(ts: Seq<TermV>, n: nat) -> nat
    decreases ts, n,
{
    if n == 0 || n > ts.len() {
        0
    } else {
        size_all(ts, (n - 1) as nat) + size(ts[n - 1])
    }
}

/// The size of equations, by their left sides.
pub open spec fn eqs_size(eqs: Seq<EquationV>) -> nat
    decreases eqs.len(),
{
    if eqs.len() == 0 {
        0
    } else {
        eqs_size(eqs.drop_last()) + size(eqs.last().0)
    }
}

/// Whether an atom occurs in a term.
pub open spec fn mentions(t: TermV, v: Atom) -> bool {
    has_atom(t, only(v))
}

/// Whether an atom occurs in equations.
pub open spec fn eqs_mention(eqs: Seq<EquationV>, v: Atom) -> bool {
    exists|i: int|
        0 <= i < eqs.len() && (mentions((#[trigger] eqs[i]).0, v) || mentions(eqs[i].1, v))
}

/// The variable with a number among all variables.
pub open spec fn var_at(k: nat) -> Atom {
    if k < 65536 {
        Atom::Variable(k as u16)
    } else {
        Atom::Partner((k - 65536) as u16)
    }
}

/// How many of the first `n` variables occur in equations.
pub open spec fn eqs_vars(eqs: Seq<EquationV>, n: nat) -> nat
    decreases n,
{
    if n == 0 {
        0
    } else {
        eqs_vars(eqs, (n - 1) as nat) + if eqs_mention(eqs, var_at((n - 1) as nat)) {
            1nat
        } else {
            0
        }
    }
}

/// The number of all variables there are.
pub open spec fn all_vars() -> nat {
    131072
}

/// Equations with a term put for a variable.
pub open spec fn replaced_eqs(eqs: Seq<EquationV>, x: Atom, u: TermV) -> Seq<EquationV> {
    Seq::new(eqs.len(), |i: int| (replaced(eqs[i].0, x, u), replaced(eqs[i].1, x, u)))
}

/// The head of a term on its own.
pub open spec fn head_term(t: TermV) -> TermV {
    atomic(t.head_type, t.head)
}

/// The equations between the heads and the arguments of two terms.
pub open spec fn parts(a: TermV, b: TermV) -> Seq<EquationV> {
    Seq::new(
        (a.args.len() + 1) as nat,
        |i: int|
            if i == 0 {
                (head_term(a), head_term(b))
            } else {
                (a.args[i - 1], b.args[i - 1])
            },
    )
}

/// Whether a term is just a variable.
pub open spec fn is_var_term(t: TermV) -> bool {
    t.args.len() == 0 && is_var(t.head)
}

/// What has to be put for variables so that the two sides of each equation become the same, found
/// by eliminating one variable after the other. There is no result where terms clash, or where a
/// variable would have to be a part of itself. The last equation is looked at first.
pub open spec fn unified(eqs: Seq<EquationV>) -> Option<Seq<BindingV>>
    decreases eqs_vars(eqs, all_vars()), eqs_size(eqs), eqs.len(),
{
    if eqs.len() == 0 {
        Some(Seq::empty())
    } else {
        let (a, b) = eqs.last();
        let rest = eqs.drop_last();
        proof {
            lemma_measure(eqs);
        }
        if a.term_type != b.term_type {
            None
        } else if a == b {
            unified(rest)
        } else if is_var_term(a) {
            if mentions(b, a.head) {
                None
            } else {
                match unified(replaced_eqs(rest, a.head, b)) {
                    None => None,
                    Some(s) => Some(seq![(a.head, b)] + s),
                }
            }
        } else if is_var_term(b) {
            if mentions(a, b.head) {
                None
            } else {
                match unified(replaced_eqs(rest, b.head, a)) {
                    None => None,
                    Some(s) => Some(seq![(b.head, a)] + s),
                }
            }
        } else if a.args.len() == 0 || a.args.len() != b.args.len() || a.head_type != b.head_type {
            None
        } else {
            unified(rest + parts(a, b))
        }
    }
}

proof fn lemma_has_atom_all(ts: Seq<TermV>, f: spec_fn(Atom) -> bool, n: nat)
    requires
        n <= ts.len(),
    ensures
        has_atom_all(ts, f, n) <==> exists|i: int| 0 <= i < n && has_atom(#[trigger] ts[i], f),
    decreases n,
{
    if n > 0 {
        lemma_has_atom_all(ts, f, (n - 1) as nat);
        if has_atom_all(ts, f, (n - 1) as nat) {
            let i = choose|i: int| 0 <= i < n - 1 && has_atom(#[trigger] ts[i], f);
            assert(0 <= i < n && has_atom(ts[i], f));
        }
        if has_atom(ts[n - 1], f) {
            assert(0 <= n - 1 < n && has_atom(ts[n - 1], f));
        }
    }
}

/// What occurs after a replacement occurred before it, or in what was put in.
proof fn lemma_replaced_mentions(t: TermV, x: Atom, u: TermV, v: Atom)
    requires
        mentions(replaced(t, x, u), v),
    ensures
        mentions(u, v) || (v != x && mentions(t, v)),
    decreases t,
{
    let r = replaced(t, x, u);
    let f = only(v);
    lemma_has_atom_all(r.args, f, r.args.len());
    lemma_has_atom_all(t.args, f, t.args.len());
    lemma_has_atom_all(u.args, f, u.args.len());
    if f(r.head) {
        if t.head == x {
            assert(mentions(u, v));
        } else {
            assert(f(t.head));
        }
    } else {
        let i = choose|i: int| 0 <= i < r.args.len() && has_atom(#[trigger] r.args[i], f);
        let k = if t.head == x {
            u.args.len()
        } else {
            0
        };
        if i < k {
            assert(r.args[i] == u.args[i]);
            assert(has_atom(u.args[i], f));
        } else {
            assert(r.args[i] == replaced(t.args[i - k], x, u));
            lemma_replaced_mentions(t.args[i - k], x, u, v);
            if !mentions(u, v) {
                assert(has_atom(t.args[i - k], f));
            }
        }
    }
}

/// A replacement of what does not occur changes nothing.
proof fn lemma_replaced_same(t: TermV, x: Atom, u: TermV)
    requires
        !mentions(t, x),
    ensures
        replaced(t, x, u) == t,
    decreases t,
{
    let f = only(x);
    lemma_has_atom_all(t.args, f, t.args.len());
    assert(f(t.head) == (t.head == x));
    assert forall|i: int| 0 <= i < t.args.len() implies #[trigger] replaced_all(t.args, x, u)[i]
        == t.args[i] by {
        assert(!has_atom(t.args[i], f));
        lemma_replaced_same(t.args[i], x, u);
    }
    assert(replaced_all(t.args, x, u) =~= t.args);
}

proof fn lemma_eqs_vars_le(a: Seq<EquationV>, b: Seq<EquationV>, n: nat)
    requires
        forall|v: Atom| is_var(v) && eqs_mention(a, v) ==> #[trigger] eqs_mention(b, v),
    ensures
        eqs_vars(a, n) <= eqs_vars(b, n),
    decreases n,
{
    if n > 0 {
        lemma_eqs_vars_le(a, b, (n - 1) as nat);
    }
}

proof fn lemma_eqs_vars_less(a: Seq<EquationV>, b: Seq<EquationV>, k: nat, n: nat)
    requires
        k < n,
        forall|v: Atom| is_var(v) && eqs_mention(a, v) ==> #[trigger] eqs_mention(b, v),
        !eqs_mention(a, var_at(k)),
        eqs_mention(b, var_at(k)),
    ensures
        eqs_vars(a, n) < eqs_vars(b, n),
    decreases n,
{
    if k < n - 1 {
        lemma_eqs_vars_less(a, b, k, (n - 1) as nat);
    } else {
        lemma_eqs_vars_le(a, b, (n - 1) as nat);
    }
}

/// The number of a variable among all variables.
spec fn var_number(v: Atom) -> nat {
    match v {
        Atom::Variable(i) => i as nat,
        Atom::Partner(i) => (65536 + i) as nat,
        _ => 0,
    }
}

/// Putting a term for a variable that is not in it leaves fewer variables.
proof fn lemma_bind_measure(eqs: Seq<EquationV>, x: Atom, u: TermV)
    requires
        is_var(x),
        !mentions(u, x),
        eqs.len() > 0,
        eqs_mention(eqs, x),
        forall|v: Atom| mentions(u, v) ==> #[trigger] eqs_mention(eqs, v),
    ensures
        eqs_vars(replaced_eqs(eqs.drop_last(), x, u), all_vars()) < eqs_vars(eqs, all_vars()),
{
    let rest = eqs.drop_last();
    let r = replaced_eqs(rest, x, u);
    assert forall|v: Atom| is_var(v) && eqs_mention(r, v) implies #[trigger] eqs_mention(eqs, v) by {
        let i = choose|i: int|
            0 <= i < r.len() && (mentions((#[trigger] r[i]).0, v) || mentions(r[i].1, v));
        if mentions(r[i].0, v) {
            lemma_replaced_mentions(rest[i].0, x, u, v);
        } else {
            lemma_replaced_mentions(rest[i].1, x, u, v);
        }
        if !mentions(u, v) {
            assert(eqs[i] == rest[i]);
        }
    }
    if eqs_mention(r, x) {
        let i = choose|i: int|
            0 <= i < r.len() && (mentions((#[trigger] r[i]).0, x) || mentions(r[i].1, x));
        if mentions(r[i].0, x) {
            lemma_replaced_mentions(rest[i].0, x, u, x);
        } else {
            lemma_replaced_mentions(rest[i].1, x, u, x);
        }
    }
    let k = var_number(x);
    assert(var_at(k) == x);
    lemma_eqs_vars_less(r, eqs, k, all_vars());
}

proof fn lemma_size_positive(t: TermV)
    ensures
        size(t) >= 1,
{
}

proof fn lemma_eqs_size_concat(a: Seq<EquationV>, b: Seq<EquationV>)
    ensures
        eqs_size(a + b) == eqs_size(a) + eqs_size(b),
    decreases b.len(),
{
    if b.len() == 0 {
        assert(a + b =~= a);
    } else {
        assert((a + b).drop_last() =~= a + b.drop_last());
        lemma_eqs_size_concat(a, b.drop_last());
    }
}

proof fn lemma_parts_size(a: TermV, b: TermV, n: nat)
    requires
        n <= a.args.len(),
    ensures
        eqs_size(parts(a, b).take((n + 1) as int)) == 1 + size_all(a.args, n),
    decreases n,
{
    let p = parts(a, b).take((n + 1) as int);
    if n == 0 {
        assert(p.drop_last() =~= Seq::<EquationV>::empty());
        assert(p.last() == (head_term(a), head_term(b)));
        assert(size(head_term(a)) == 1);
        assert(eqs_size(p.drop_last()) == 0);
        assert(eqs_size(p) == 1);
    } else {
        assert(p.drop_last() =~= parts(a, b).take(n as int));
        lemma_parts_size(a, b, (n - 1) as nat);
        assert(p.last().0 == a.args[n - 1]);
    }
}

/// What a part of a term mentions, the term mentions.
proof fn lemma_parts_mention(a: TermV, b: TermV, v: Atom)
    requires
        a.args.len() == b.args.len(),
        eqs_mention(parts(a, b), v),
    ensures
        mentions(a, v) || mentions(b, v),
{
    let p = parts(a, b);
    let f = only(v);
    lemma_has_atom_all(a.args, f, a.args.len());
    lemma_has_atom_all(b.args, f, b.args.len());
    let i = choose|i: int|
        0 <= i < p.len() && (mentions((#[trigger] p[i]).0, v) || mentions(p[i].1, v));
    if i == 0 {
        assert(p[0] == (head_term(a), head_term(b)));
    } else {
        assert(p[i] == (a.args[i - 1], b.args[i - 1]));
        if mentions(p[i].0, v) {
            assert(has_atom(a.args[i - 1], f));
        } else {
            assert(has_atom(b.args[i - 1], f));
        }
    }
}

/// Each step of a unification makes the equations smaller.
pub proof fn lemma_measure(eqs: Seq<EquationV>)
    requires
        eqs.len() > 0,
    ensures
        ({
            let (a, b) = eqs.last();
            let rest = eqs.drop_last();
            &&& eqs_vars(rest, all_vars()) <= eqs_vars(eqs, all_vars())
            &&& eqs_size(rest) < eqs_size(eqs)
            &&& is_var_term(a) && !mentions(b, a.head) ==> eqs_vars(
                replaced_eqs(rest, a.head, b),
                all_vars(),
            ) < eqs_vars(eqs, all_vars())
            &&& is_var_term(b) && !mentions(a, b.head) ==> eqs_vars(
                replaced_eqs(rest, b.head, a),
                all_vars(),
            ) < eqs_vars(eqs, all_vars())
            &&& a.args.len() > 0 && a.args.len() == b.args.len() ==> eqs_vars(
                rest + parts(a, b),
                all_vars(),
            ) <= eqs_vars(eqs, all_vars()) && eqs_size(rest + parts(a, b)) < eqs_size(eqs)
        }),
{
    let (a, b) = eqs.last();
    let rest = eqs.drop_last();
    let n = eqs.len() - 1;
    assert(eqs[n] == (a, b));
    assert forall|v: Atom| is_var(v) && eqs_mention(rest, v) implies #[trigger] eqs_mention(
        eqs,
        v,
    ) by {
        let i = choose|i: int|
            0 <= i < rest.len() && (mentions((#[trigger] rest[i]).0, v) || mentions(rest[i].1, v));
        assert(eqs[i] == rest[i]);
    }
    lemma_eqs_vars_le(rest, eqs, all_vars());
    lemma_size_positive(a);
    assert forall|v: Atom| mentions(a, v) || mentions(b, v) implies #[trigger] eqs_mention(
        eqs,
        v,
    ) by {
        assert(mentions(eqs[n].0, v) || mentions(eqs[n].1, v));
    }
    if is_var_term(a) && !mentions(b, a.head) {
        assert(only(a.head)(a.head));
        assert(mentions(a, a.head));
        lemma_bind_measure(eqs, a.head, b);
    }
    if is_var_term(b) && !mentions(a, b.head) {
        assert(only(b.head)(b.head));
        assert(mentions(b, b.head));
        lemma_bind_measure(eqs, b.head, a);
    }
    if a.args.len() > 0 && a.args.len() == b.args.len() {
        let p = parts(a, b);
        let next = rest + p;
        assert forall|v: Atom| is_var(v) && eqs_mention(next, v) implies #[trigger] eqs_mention(
            eqs,
            v,
        ) by {
            let i = choose|i: int|
                0 <= i < next.len() && (mentions((#[trigger] next[i]).0, v) || mentions(
                    next[i].1,
                    v,
                ));
            if i < rest.len() {
                assert(next[i] == rest[i]);
                assert(eqs[i] == rest[i]);
            } else {
                assert(next[i] == p[i - rest.len()]);
                lemma_parts_mention(a, b, v);
            }
        }
        lemma_eqs_vars_le(next, eqs, all_vars());
        lemma_eqs_size_concat(rest, p);
        lemma_parts_size(a, b, a.args.len());
        assert(p.take((a.args.len() + 1) as int) =~= p);
    }
}


/// Putting a first binding in, then others, is putting all of them in.
proof fn lemma_applied_first(t: TermV, b: BindingV, s: Seq<BindingV>, n: nat)
    requires
        n <= s.len(),
    ensures
        applied(t, seq![b] + s, n + 1) == applied(replaced(t, b.0, b.1), s, n),
    decreases n,
{
    let all = seq![b] + s;
    if n == 0 {
        assert(applied(t, all, 0) == t);
        assert(all[0] == b);
        assert(applied(t, all, 1) == replaced(applied(t, all, 0), b.0, b.1));
    } else {
        lemma_applied_first(t, b, s, (n - 1) as nat);
        assert(all[n as int] == s[n - 1]);
    }
}

/// A term put together from what became of its head and its arguments.
pub open spec fn composed(term_type: u16, h: TermV, args: Seq<TermV>) -> TermV {
    TermV { term_type, head_type: h.head_type, head: h.head, args: h.args + args }
}

/// The terms of a list, each with bindings put in.
pub open spec fn applied_all(ts: Seq<TermV>, s: Seq<BindingV>, n: nat) -> Seq<TermV> {
    Seq::new(ts.len(), |i: int| applied(ts[i], s, n))
}

/// Bindings go into the head and into each argument.
proof fn lemma_applied_parts(t: TermV, s: Seq<BindingV>, n: nat)
    requires
        n <= s.len(),
    ensures
        applied(t, s, n) == composed(
            t.term_type,
            applied(head_term(t), s, n),
            applied_all(t.args, s, n),
        ),
    decreases n,
{
    if n == 0 {
        assert(applied_all(t.args, s, 0) =~= t.args);
        assert(head_term(t).args + t.args =~= t.args);
    } else {
        lemma_applied_parts(t, s, (n - 1) as nat);
        let x = s[n - 1].0;
        let u = s[n - 1].1;
        let h = applied(head_term(t), s, (n - 1) as nat);
        let before = applied_all(t.args, s, (n - 1) as nat);
        let after = applied_all(t.args, s, n);
        assert(replaced_all(before, x, u) =~= after);
        assert(replaced_all(h.args + before, x, u) =~= replaced_all(h.args, x, u) + after);
        if h.head == x {
            assert(u.args + (replaced_all(h.args, x, u) + after) =~= (u.args + replaced_all(
                h.args,
                x,
                u,
            )) + after);
        }
    }
}

/// Where a unification succeeds, the two sides of each equation become the same.
pub proof fn law_unified_terms_are_same(eqs: Seq<EquationV>)
    requires
        unified(eqs) is Some,
    ensures
        forall|i: int|
            0 <= i < eqs.len() ==> instance((#[trigger] eqs[i]).0, unified(eqs)->0) == instance(
                eqs[i].1,
                unified(eqs)->0,
            ),
    decreases eqs_vars(eqs, all_vars()), eqs_size(eqs), eqs.len(),
{
    if eqs.len() > 0 {
        let (a, b) = eqs.last();
        let rest = eqs.drop_last();
        lemma_measure(eqs);
        let s = unified(eqs)->0;
        let n = s.len();
        assert(a.term_type == b.term_type);
        if a == b {
            law_unified_terms_are_same(rest);
            assert forall|i: int| 0 <= i < eqs.len() implies instance((#[trigger] eqs[i]).0, s)
                == instance(eqs[i].1, s) by {
                if i < rest.len() {
                    assert(eqs[i] == rest[i]);
                }
            }
        } else if is_var_term(a) {
            lemma_bound_same(eqs, a, b, s);
        } else if is_var_term(b) {
            lemma_bound_same(eqs, b, a, s);
        } else {
            let p = parts(a, b);
            let next = rest + p;
            law_unified_terms_are_same(next);
            assert forall|i: int| 0 <= i < eqs.len() implies instance((#[trigger] eqs[i]).0, s)
                == instance(eqs[i].1, s) by {
                if i < rest.len() {
                    assert(eqs[i] == rest[i]);
                    assert(next[i] == rest[i]);
                } else {
                    let k = rest.len() as int;
                    assert(next[k] == p[0]);
                    assert(p[0] == (head_term(a), head_term(b)));
                    lemma_applied_parts(a, s, n);
                    lemma_applied_parts(b, s, n);
                    assert forall|j: int| 0 <= j < a.args.len() implies applied(
                        a.args[j],
                        s,
                        n,
                    ) == applied(b.args[j], s, n) by {
                        assert(next[k + 1 + j] == p[1 + j]);
                        assert(p[1 + j] == (a.args[j], b.args[j]));
                    }
                    assert(applied_all(a.args, s, n) =~= applied_all(b.args, s, n));
                }
            }
        }
    }
}

proof fn lemma_bound_same(eqs: Seq<EquationV>, x: TermV, u: TermV, s: Seq<BindingV>)
    requires
        eqs.len() > 0,
        eqs.last() == (x, u) || eqs.last() == (u, x),
        x.term_type == u.term_type,
        is_var_term(x),
        !mentions(u, x.head),
        unified(replaced_eqs(eqs.drop_last(), x.head, u)) is Some,
        s == seq![(x.head, u)] + unified(replaced_eqs(eqs.drop_last(), x.head, u))->0,
    ensures
        forall|i: int|
            0 <= i < eqs.len() ==> instance((#[trigger] eqs[i]).0, s) == instance(eqs[i].1, s),
    decreases
            eqs_vars(replaced_eqs(eqs.drop_last(), x.head, u), all_vars()),
            eqs_size(replaced_eqs(eqs.drop_last(), x.head, u)),
            eqs.len(),
{
    let rest = eqs.drop_last();
    let next = replaced_eqs(rest, x.head, u);
    let more = unified(next)->0;
    law_unified_terms_are_same(next);
    lemma_replaced_same(u, x.head, u);
    assert(replaced_all(x.args, x.head, u) =~= Seq::<TermV>::empty());
    assert(u.args + replaced_all(x.args, x.head, u) =~= u.args);
    assert(replaced(x, x.head, u) == u);
    assert forall|i: int| 0 <= i < eqs.len() implies instance((#[trigger] eqs[i]).0, s)
        == instance(eqs[i].1, s) by {
        lemma_applied_first(eqs[i].0, (x.head, u), more, more.len());
        lemma_applied_first(eqs[i].1, (x.head, u), more, more.len());
        if i < rest.len() {
            assert(eqs[i] == rest[i]);
            assert(next[i] == (replaced(rest[i].0, x.head, u), replaced(rest[i].1, x.head, u)));
            assert(instance(next[i].0, more) == instance(next[i].1, more));
        }
    }
}

fn replace_all(v: &Vec<Term>, x: Atom, u: &Term) -> (r: Vec<Term>)
    ensures
        views(r@) == replaced_all(views(v@), x, u@),
    decreases v,
{
    let mut out: Vec<Term> = Vec::new();
    let mut i: usize = 0;
    while i < v.len()
        invariant
            i <= v.len(),
            out.len() == i,
            forall|k: int| 0 <= k < i ==> (#[trigger] out@[k])@ == replaced(v@[k]@, x, u@),
        decreases v.len() - i,
    {
        assert(decreases_to!(v => v@[i as int]));
        out.push(replace(&v[i], x, u));
        i = i + 1;
    }
    assert(views(out@) =~= replaced_all(views(v@), x, u@));
    out
}

/// Puts a term for a variable.
pub fn replace(t: &Term, x: Atom, u: &Term) -> (r: Term)
    ensures
        r@ == replaced(t@, x, u@),
    decreases t,
{
    broadcast use lemma_term_view;
    let mut rest = replace_all(&t.args, x, u);
    if t.head == x {
        let head = u.clone();
        let mut args = head.args;
        let ghost a = args@;
        let ghost b = rest@;
        args.append(&mut rest);
        assert(views(a + b) =~= views(a) + views(b));
        Term { term_type: t.term_type, head_type: u.head_type, head: u.head, args }
    } else {
        Term { term_type: t.term_type, head_type: t.head_type, head: t.head, args: rest }
    }
}

fn is_variable_term(t: &Term) -> (r: bool)
    ensures
        r == is_var_term(t@),
{
    broadcast use lemma_term_view;
    t.args.len() == 0 && is_variable(t.head)
}

fn replace_eqs(eqs: &Vec<(Term, Term)>, x: Atom, u: &Term) -> (r: Vec<(Term, Term)>)
    ensures
        views(r@) == replaced_eqs(views(eqs@), x, u@),
{
    let mut out: Vec<(Term, Term)> = Vec::new();
    let mut i: usize = 0;
    while i < eqs.len()
        invariant
            i <= eqs.len(),
            out.len() == i,
            forall|k: int|
                0 <= k < i ==> (#[trigger] out@[k])@ == replaced_eqs(views(eqs@), x, u@)[k],
        decreases eqs.len() - i,
    {
        assert(views(eqs@)[i as int] == (eqs@[i as int].0@, eqs@[i as int].1@));
        out.push((replace(&eqs[i].0, x, u), replace(&eqs[i].1, x, u)));
        i = i + 1;
    }
    assert(views(out@) =~= replaced_eqs(views(eqs@), x, u@));
    out
}

fn push_parts(eqs: &mut Vec<(Term, Term)>, a: &Term, b: &Term)
    requires
        a@.args.len() == b@.args.len(),
    ensures
        views(final(eqs)@) == views(old(eqs)@) + parts(a@, b@),
{
    broadcast use {lemma_term_view, crate::text::group_views};
    let ghost p = parts(a@, b@);
    let ghost start = views(old(eqs)@);
    eqs.push((Term::atom(a.head_type, a.head), Term::atom(b.head_type, b.head)));
    assert(views(eqs@) =~= start + p.take(1));
    let mut i: usize = 0;
    while i < a.args.len()
        invariant
            i <= a.args.len() == b.args.len(),
            p == parts(a@, b@),
            start == views(old(eqs)@),
            a@.args == views(a.args@),
            b@.args == views(b.args@),
            views(eqs@) == start + p.take(i + 1),
        decreases a.args.len() - i,
    {
        broadcast use crate::text::group_views;
        let ghost before = eqs@;
        eqs.push((a.args[i].clone(), b.args[i].clone()));
        assert(p[i + 1] == (a.args@[i as int]@, b.args@[i as int]@));
        assert(views(eqs@) =~= start + p.take(i + 2));
        i = i + 1;
    }
    assert(p.take(i + 1) =~= p);
}

/// Finds what has to be put for variables so that the two sides of each equation become the same.
pub fn unify_all(equations: Vec<(Term, Term)>) -> (r: Option<Vec<(Atom, Term)>>)
    ensures
        match r {
            Some(s) => unified(views(equations@)) == Some(views(s@)),
            None => unified(views(equations@)) is None,
        },
{
    broadcast use crate::text::group_views;
    let ghost all = views(equations@);
    let mut eqs = equations;
    let mut out: Vec<(Atom, Term)> = Vec::new();
    proof {
        if unified(all) is Some {
            assert(views(out@) + unified(all)->0 =~= unified(all)->0);
        }
    }
    loop
        invariant
            all == views(equations@),
            match unified(views(eqs@)) {
                Some(s) => unified(all) == Some(views(out@) + s),
                None => unified(all) is None,
            },
        decreases
                eqs_vars(views(eqs@), all_vars()),
                eqs_size(views(eqs@)),
                eqs.len(),
    {
        broadcast use {lemma_term_view, crate::text::group_views};
        let ghost ev = views(eqs@);
        let ghost done = views(out@);
        let (a, b) = match eqs.pop() {
            None => {
                assert(views(out@) + Seq::<BindingV>::empty() =~= views(out@));
                return Some(out);
            },
            Some(e) => e,
        };
        proof {
            assert(ev.last() == (a@, b@));
            assert(views(eqs@) =~= ev.drop_last());
            lemma_measure(ev);
        }
        if a.term_type != b.term_type {
            return None;
        }
        if a.same(&b) {
            continue;
        }
        if is_variable_term(&a) {
            if check_term(&b, &Exactly(a.head)) {
                return None;
            }
            let head = a.head;
            eqs = replace_eqs(&eqs, head, &b);
            out.push((head, b));
            proof {
                assert(views(out@) == done.push((head, b@)));
                if let Some(s) = unified(views(eqs@)) {
                    assert(done + (seq![(head, b@)] + s) =~= done.push((head, b@)) + s);
                }
            }
        } else if is_variable_term(&b) {
            if check_term(&a, &Exactly(b.head)) {
                return None;
            }
            let head = b.head;
            eqs = replace_eqs(&eqs, head, &a);
            out.push((head, a));
            proof {
                assert(views(out@) == done.push((head, a@)));
                if let Some(s) = unified(views(eqs@)) {
                    assert(done + (seq![(head, a@)] + s) =~= done.push((head, a@)) + s);
                }
            }
        } else {
            if a.args.len() == 0 || a.args.len() != b.args.len() || a.head_type != b.head_type {
                return None;
            }
            push_parts(&mut eqs, &a, &b);
        }
    }
}

/// Puts bindings in, one after the other.
pub fn apply(t: &Term, s: &Vec<(Atom, Term)>) -> (r: Term)
    ensures
        r@ == instance(t@, views(s@)),
{
    let mut out = t.clone();
    let mut i: usize = 0;
    while i < s.len()
        invariant
            i <= s.len(),
            out@ == applied(t@, views(s@), i as nat),
        decreases s.len() - i,
    {
        assert(views(s@)[i as int] == (s@[i as int].0, s@[i as int].1@));
        out = replace(&out, s[i].0, &s[i].1);
        i = i + 1;
    }
    out
}

/// A term whose variables are those of the other clause.
pub open spec fn partnered(t: TermV) -> TermV
    decreases t,
{
    TermV {
        head: match t.head {
            Atom::Variable(i) => Atom::Partner(i),
            h => h,
        },
        args: partnered_all(t.args),
        ..t
    }
}

/// Terms whose variables are those of the other clause.
pub open spec fn partnered_all(ts: Seq<TermV>) -> Seq<TermV>
    decreases ts,
{
    Seq::new(
        ts.len(),
        |i: int|
            if 0 <= i < ts.len() {
                partnered(ts[i])
            } else {
                arbitrary()
            },
    )
}

fn partner_all(v: &Vec<Term>) -> (r: Vec<Term>)
    ensures
        views(r@) == partnered_all(views(v@)),
    decreases v,
{
    let mut out: Vec<Term> = Vec::new();
    let mut i: usize = 0;
    while i < v.len()
        invariant
            i <= v.len(),
            out.len() == i,
            forall|k: int| 0 <= k < i ==> (#[trigger] out@[k])@ == partnered(v@[k]@),
        decreases v.len() - i,
    {
        assert(decreases_to!(v => v@[i as int]));
        out.push(partner(&v[i]));
        i = i + 1;
    }
    assert(views(out@) =~= partnered_all(views(v@)));
    out
}

/// Makes the variables of a term those of the other clause.
pub fn partner(t: &Term) -> (r: Term)
    ensures
        r@ == partnered(t@),
    decreases t,
{
    broadcast use lemma_term_view;
    let head = match t.head {
        Atom::Variable(i) => Atom::Partner(i),
        h => h,
    };
    Term { term_type: t.term_type, head_type: t.head_type, head, args: partner_all(&t.args) }
}

/// What the variables of a general term stand for in a special one, where `m` says what some of
/// them stand for already.
pub open spec fn matched(g: TermV, t: TermV, m: Map<Atom, TermV>) -> Option<Map<Atom, TermV>>
    decreases g, 0nat,
{
    if g.term_type != t.term_type {
        None
    } else if is_var_term(g) {
        matched_var(g.head, t, m)
    } else if g.args.len() != t.args.len() || g.head_type != t.head_type {
        None
    } else {
        match (if is_var(g.head) {
            matched_var(g.head, head_term(t), m)
        } else if g.head == t.head {
            Some(m)
        } else {
            None
        }) {
            None => None,
            Some(m1) => matched_all(g.args, t.args, m1, g.args.len()),
        }
    }
}

/// What variables stand for, where one stands for a given term.
pub open spec fn matched_var(x: Atom, t: TermV, m: Map<Atom, TermV>) -> Option<Map<Atom, TermV>> {
    if m.dom().contains(x) {
        if m[x] == t {
            Some(m)
        } else {
            None
        }
    } else {
        Some(m.insert(x, t))
    }
}

/// Matches the first `n` terms of two lists.
pub open spec fn matched_all(gs: Seq<TermV>, ts: Seq<TermV>, m: Map<Atom, TermV>, n: nat) -> Option<
    Map<Atom, TermV>,
>
    decreases gs, n,
{
    if n == 0 || n > gs.len() {
        Some(m)
    } else {
        match matched_all(gs, ts, m, (n - 1) as nat) {
            None => None,
            Some(m1) => matched(gs[n - 1], ts[n - 1], m1),
        }
    }
}

proof fn lemma_matched_fail(
    gs: Seq<TermV>,
    ts: Seq<TermV>,
    m: Map<Atom, TermV>,
    i: nat,
    n: nat,
)
    requires
        i <= n <= gs.len(),
        matched_all(gs, ts, m, i) is None,
    ensures
        matched_all(gs, ts, m, n) is None,
    decreases n,
{
    if i < n {
        lemma_matched_fail(gs, ts, m, i, (n - 1) as nat);
    }
}

fn match_var(x: Atom, t: Term, m: &mut Table<Atom, Term>) -> (r: bool)
    ensures
        match matched_var(x, t@, old(m)@) {
            Some(m1) => r && final(m)@ == m1,
            None => !r,
        },
{
    if let Some(u) = m.get(&x) {
        return u.same(&t);
    }
    m.insert(x, t);
    true
}

fn match_all(gs: &Vec<Term>, ts: &Vec<Term>, m: &mut Table<Atom, Term>) -> (r: bool)
    requires
        gs.len() == ts.len(),
    ensures
        match matched_all(views(gs@), views(ts@), old(m)@, gs@.len()) {
            Some(m1) => r && final(m)@ == m1,
            None => !r,
        },
    decreases gs,
{
    let ghost gv = views(gs@);
    let ghost tv = views(ts@);
    let mut i: usize = 0;
    while i < gs.len()
        invariant
            i <= gs.len() == ts.len(),
            gv == views(gs@),
            tv == views(ts@),
            matched_all(gv, tv, old(m)@, i as nat) == Some(m@),
        decreases gs.len() - i,
    {
        assert(decreases_to!(gs => gs@[i as int]));
        assert(gv[i as int] == gs@[i as int]@ && tv[i as int] == ts@[i as int]@);
        if !match_terms(&gs[i], &ts[i], m) {
            proof {
                lemma_matched_fail(gv, tv, old(m)@, (i + 1) as nat, gv.len());
            }
            return false;
        }
        i = i + 1;
    }
    true
}

/// Finds what the variables of a general term stand for in a special one.
pub fn match_terms(g: &Term, t: &Term, m: &mut Table<Atom, Term>) -> (r: bool)
    ensures
        match matched(g@, t@, old(m)@) {
            Some(m1) => r && final(m)@ == m1,
            None => !r,
        },
    decreases g,
{
    broadcast use lemma_term_view;
    if g.term_type != t.term_type {
        return false;
    }
    if is_variable_term(g) {
        return match_var(g.head, t.clone(), m);
    }
    if g.args.len() != t.args.len() || g.head_type != t.head_type {
        return false;
    }
    if is_variable(g.head) {
        if !match_var(g.head, Term::atom(t.head_type, t.head), m) {
            return false;
        }
    } else if g.head != t.head {
        return false;
    }
    match_all(&g.args, &t.args, m)
}

/// A term with all that variables stand for put in at once.
pub open spec fn filled(t: TermV, m: Map<Atom, TermV>) -> TermV
    decreases t,
{
    let args = filled_all(t.args, m);
    if m.dom().contains(t.head) {
        composed(t.term_type, m[t.head], args)
    } else {
        TermV { args, ..t }
    }
}

/// Terms with all that variables stand for put in.
pub open spec fn filled_all(ts: Seq<TermV>, m: Map<Atom, TermV>) -> Seq<TermV>
    decreases ts,
{
    Seq::new(
        ts.len(),
        |i: int|
            if 0 <= i < ts.len() {
                filled(ts[i], m)
            } else {
                arbitrary()
            },
    )
}

fn fill_all(v: &Vec<Term>, m: &Table<Atom, Term>) -> (r: Vec<Term>)
    ensures
        views(r@) == filled_all(views(v@), m@),
    decreases v,
{
    let mut out: Vec<Term> = Vec::new();
    let mut i: usize = 0;
    while i < v.len()
        invariant
            i <= v.len(),
            out.len() == i,
            forall|k: int| 0 <= k < i ==> (#[trigger] out@[k])@ == filled(v@[k]@, m@),
        decreases v.len() - i,
    {
        assert(decreases_to!(v => v@[i as int]));
        out.push(fill(&v[i], m));
        i = i + 1;
    }
    assert(views(out@) =~= filled_all(views(v@), m@));
    out
}

/// Puts in all that variables stand for.
pub fn fill(t: &Term, m: &Table<Atom, Term>) -> (r: Term)
    ensures
        r@ == filled(t@, m@),
    decreases t,
{
    broadcast use lemma_term_view;
    let mut rest = fill_all(&t.args, m);
    match m.get(&t.head) {
        Some(u) => {
            let head = u.clone();
            let mut args = head.args;
            let ghost a = args@;
            let ghost b = rest@;
            args.append(&mut rest);
            assert(views(a + b) =~= views(a) + views(b));
            Term { term_type: t.term_type, head_type: u.head_type, head: u.head, args }
        },
        None => Term { term_type: t.term_type, head_type: t.head_type, head: t.head, args: rest },
    }
}

/// Whether all that is known in one is known in the other too.
pub open spec fn extends(m: Map<Atom, TermV>, more: Map<Atom, TermV>) -> bool {
    forall|k: Atom| #[trigger] m.dom().contains(k) ==> more.dom().contains(k) && more[k] == m[k]
}

/// What a match adds does not change what was known.
pub proof fn lemma_matched_extends(g: TermV, t: TermV, m: Map<Atom, TermV>)
    requires
        matched(g, t, m) is Some,
    ensures
        extends(m, matched(g, t, m)->0),
    decreases g, 0nat,
{
    if g.term_type == t.term_type && !is_var_term(g) {
        let m1 = if is_var(g.head) {
            matched_var(g.head, head_term(t), m)->0
        } else {
            m
        };
        lemma_matched_all_extends(g.args, t.args, m1, g.args.len());
        let m2 = matched(g, t, m)->0;
        assert forall|k: Atom| #[trigger] m.dom().contains(k) implies m2.dom().contains(k) && m2[k]
            == m[k] by {
            assert(m1.dom().contains(k) && m1[k] == m[k]);
        }
    }
}

proof fn lemma_matched_all_extends(gs: Seq<TermV>, ts: Seq<TermV>, m: Map<Atom, TermV>, n: nat)
    requires
        n <= gs.len(),
        matched_all(gs, ts, m, n) is Some,
    ensures
        extends(m, matched_all(gs, ts, m, n)->0),
    decreases gs, n,
{
    if n > 0 {
        lemma_matched_all_extends(gs, ts, m, (n - 1) as nat);
        let m1 = matched_all(gs, ts, m, (n - 1) as nat)->0;
        lemma_matched_extends(gs[n - 1], ts[n - 1], m1);
    }
}

/// Where a general term matches a special one, putting in what its variables stand for makes it
/// the special one. This stays so when more is known of other variables. Constants stand only for
/// themselves.
pub proof fn law_matched_terms_are_instances(
    g: TermV,
    t: TermV,
    m: Map<Atom, TermV>,
    more: Map<Atom, TermV>,
)
    requires
        matched(g, t, m) is Some,
        extends(matched(g, t, m)->0, more),
        forall|a: Atom| #[trigger] more.dom().contains(a) ==> is_var(a),
    ensures
        filled(g, more) == t,
    decreases g, 0nat,
{
    let m2 = matched(g, t, m)->0;
    if is_var_term(g) {
        assert(m2.dom().contains(g.head) && m2[g.head] == t);
        assert(more.dom().contains(g.head) && more[g.head] == t);
        assert(filled_all(g.args, more) =~= Seq::<TermV>::empty());
        assert(t.args + filled_all(g.args, more) =~= t.args);
    } else {
        let m1 = if is_var(g.head) {
            matched_var(g.head, head_term(t), m)->0
        } else {
            m
        };
        lemma_matched_all_instances(g.args, t.args, m1, more, g.args.len());
        assert(filled_all(g.args, more) =~= t.args);
        if is_var(g.head) {
            lemma_matched_all_extends(g.args, t.args, m1, g.args.len());
            assert(m1.dom().contains(g.head) && m1[g.head] == head_term(t));
            assert(m2.dom().contains(g.head) && m2[g.head] == head_term(t));
            assert(more.dom().contains(g.head) && more[g.head] == head_term(t));
            assert(head_term(t).args + filled_all(g.args, more) =~= t.args);
        } else {
            assert(!more.dom().contains(g.head));
        }
    }
}

proof fn lemma_matched_all_instances(
    gs: Seq<TermV>,
    ts: Seq<TermV>,
    m: Map<Atom, TermV>,
    more: Map<Atom, TermV>,
    n: nat,
)
    requires
        gs.len() == ts.len(),
        n <= gs.len(),
        matched_all(gs, ts, m, n) is Some,
        extends(matched_all(gs, ts, m, n)->0, more),
        forall|a: Atom| #[trigger] more.dom().contains(a) ==> is_var(a),
    ensures
        forall|i: int| 0 <= i < n ==> filled(#[trigger] gs[i], more) == ts[i],
    decreases gs, n,
{
    if n > 0 {
        let m1 = matched_all(gs, ts, m, (n - 1) as nat)->0;
        let m2 = matched_all(gs, ts, m, n)->0;
        lemma_matched_extends(gs[n - 1], ts[n - 1], m1);
        assert(extends(m1, more)) by {
            assert forall|k: Atom| #[trigger] m1.dom().contains(k) implies more.dom().contains(k)
                && m1[k] == more[k] by {
                assert(m2.dom().contains(k) && m2[k] == m1[k]);
            }
        }
        lemma_matched_all_instances(gs, ts, m, more, (n - 1) as nat);
        law_matched_terms_are_instances(gs[n - 1], ts[n - 1], m1, more);
    }
}

} // verus!
