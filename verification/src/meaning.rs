//! What terms, literals and clauses mean: a model says what each constant stands for and how values
//! are applied, and a clause holds in it where it holds for all values of the variables.

use vstd::prelude::*;

use crate::clause::{
    arranged, clause_of, distinct, law_clause_keeps_possible_literals, place_of, renumbered,
    renumbered_all, renumbered_literal, var_names,
};
use crate::literal::{oriented, LiteralV};
use crate::term::{has_atom, has_atom_all, is_var, Atom, TermV};
use crate::unifier::{
    all_vars, applied, eqs_size, eqs_vars, filled, filled_all, instance, is_var_term,
    lemma_measure, partnered, partnered_all, parts, replaced, replaced_all, replaced_eqs, unified,
    BindingV, EquationV,
};

verus! {

/// How a value is applied to others.
pub type Apply = spec_fn(int, Seq<int>) -> int;

/// What atoms stand for.
pub type Assignment = spec_fn(Atom) -> int;

/// Whether it does not matter if arguments come all at once or some after the others.
pub open spec fn is_application(p: Apply) -> bool {
    &&& forall|f: int| #[trigger] p(f, Seq::<int>::empty()) == f
    &&& forall|f: int, a: Seq<int>, b: Seq<int>| #[trigger] p(p(f, a), b) == p(f, a + b)
}

/// Whether constants stand for the same. Variables need not.
pub open spec fn agree(h: Assignment, w: Assignment) -> bool {
    forall|a: Atom| !is_var(a) ==> #[trigger] h(a) == #[trigger] w(a)
}

/// The value of a term.
pub open spec fn value(p: Apply, h: Assignment, t: TermV) -> int
    decreases t,
{
    p(h(t.head), values(p, h, t.args))
}

/// The values of some terms.
pub open spec fn values(p: Apply, h: Assignment, ts: Seq<TermV>) -> Seq<int>
    decreases ts,
{
    Seq::new(
        ts.len(),
        |i: int|
            if 0 <= i < ts.len() {
                value(p, h, ts[i])
            } else {
                arbitrary()
            },
    )
}

/// Whether a literal holds.
pub open spec fn holds(p: Apply, h: Assignment, l: LiteralV) -> bool {
    (value(p, h, l.left) == value(p, h, l.right)) == l.positive
}

/// Whether some literal holds.
pub open spec fn holds_any(p: Apply, h: Assignment, ls: Seq<LiteralV>) -> bool {
    exists|i: int| 0 <= i < ls.len() && holds(p, h, #[trigger] ls[i])
}

/// Whether for all values of the variables some literal holds.
pub open spec fn valid(p: Apply, h: Assignment, ls: Seq<LiteralV>) -> bool {
    forall|w: Assignment| agree(h, w) ==> #[trigger] holds_any(p, w, ls)
}

/// An assignment where an atom stands for something else.
pub open spec fn put(h: Assignment, x: Atom, v: int) -> Assignment {
    |a: Atom|
        if a == x {
            v
        } else {
            h(a)
        }
}

/// An assignment where variables stand for what the first `n` bindings say.
pub open spec fn bound(p: Apply, h: Assignment, s: Seq<BindingV>, n: nat) -> Assignment
    decreases n,
{
    if n == 0 || n > s.len() {
        h
    } else {
        bound(p, put(h, s[n - 1].0, value(p, h, s[n - 1].1)), s, (n - 1) as nat)
    }
}

/// Whether bindings are for variables alone.
pub open spec fn binds_vars(s: Seq<BindingV>) -> bool {
    forall|i: int| 0 <= i < s.len() ==> is_var(#[trigger] s[i].0)
}

proof fn lemma_replaced(p: Apply, h: Assignment, t: TermV, x: Atom, u: TermV)
    requires
        is_application(p),
    ensures
        value(p, h, replaced(t, x, u)) == value(p, put(h, x, value(p, h, u)), t),
    decreases t,
{
    let w = put(h, x, value(p, h, u));
    let args = replaced_all(t.args, x, u);
    assert forall|i: int| 0 <= i < t.args.len() implies value(p, h, #[trigger] args[i]) == value(
        p,
        w,
        t.args[i],
    ) by {
        lemma_replaced(p, h, t.args[i], x, u);
    }
    assert(values(p, h, args) =~= values(p, w, t.args));
    if t.head == x {
        assert(values(p, h, u.args + args) =~= values(p, h, u.args) + values(p, h, args));
    }
}

proof fn lemma_applied(p: Apply, h: Assignment, t: TermV, s: Seq<BindingV>, n: nat)
    requires
        is_application(p),
        n <= s.len(),
    ensures
        value(p, h, applied(t, s, n)) == value(p, bound(p, h, s, n), t),
    decreases n,
{
    if n > 0 {
        let (x, u) = s[n - 1];
        let before = applied(t, s, (n - 1) as nat);
        lemma_replaced(p, h, before, x, u);
        lemma_applied(p, put(h, x, value(p, h, u)), t, s, (n - 1) as nat);
    }
}

proof fn lemma_bound_agrees(p: Apply, h: Assignment, s: Seq<BindingV>, n: nat)
    requires
        binds_vars(s),
        n <= s.len(),
    ensures
        agree(h, bound(p, h, s, n)),
    decreases n,
{
    if n > 0 {
        let g = put(h, s[n - 1].0, value(p, h, s[n - 1].1));
        lemma_bound_agrees(p, g, s, (n - 1) as nat);
        let w = bound(p, h, s, n);
        assert forall|a: Atom| !is_var(a) implies #[trigger] h(a) == #[trigger] w(a) by {
            assert(is_var(s[n - 1].0));
            assert(g(a) == w(a));
        }
    }
}

proof fn lemma_unified_binds_vars(eqs: Seq<EquationV>)
    requires
        unified(eqs) is Some,
    ensures
        binds_vars(unified(eqs)->0),
    decreases eqs_vars(eqs, all_vars()), eqs_size(eqs), eqs.len(),
{
    if eqs.len() > 0 {
        let (a, b) = eqs.last();
        let rest = eqs.drop_last();
        lemma_measure(eqs);
        if a == b {
            lemma_unified_binds_vars(rest);
        } else if is_var_term(a) {
            lemma_unified_binds_vars(replaced_eqs(rest, a.head, b));
        } else if is_var_term(b) {
            lemma_unified_binds_vars(replaced_eqs(rest, b.head, a));
        } else {
            lemma_unified_binds_vars(rest + parts(a, b));
        }
    }
}

/// Where bindings come from a unification, a term with them put in has the value of the term where
/// variables stand for what the bindings say.
pub proof fn lemma_instance(
    p: Apply,
    h: Assignment,
    t: TermV,
    eqs: Seq<EquationV>,
)
    requires
        is_application(p),
        unified(eqs) is Some,
    ensures
        ({
            let s = unified(eqs)->0;
            let w = bound(p, h, s, s.len());
            &&& agree(h, w)
            &&& value(p, h, instance(t, s)) == value(p, w, t)
        }),
{
    let s = unified(eqs)->0;
    lemma_unified_binds_vars(eqs);
    lemma_bound_agrees(p, h, s, s.len());
    lemma_applied(p, h, t, s, s.len());
}

/// An assignment where variables stand for what those of the other clause stand for.
pub open spec fn swapped(h: Assignment) -> Assignment {
    |a: Atom|
        match a {
            Atom::Variable(i) => h(Atom::Partner(i)),
            _ => h(a),
        }
}

pub proof fn lemma_partnered(p: Apply, h: Assignment, t: TermV)
    ensures
        value(p, h, partnered(t)) == value(p, swapped(h), t),
        agree(h, swapped(h)),
    decreases t,
{
    let args = partnered_all(t.args);
    assert forall|i: int| 0 <= i < t.args.len() implies value(p, h, #[trigger] args[i]) == value(
        p,
        swapped(h),
        t.args[i],
    ) by {
        lemma_partnered(p, h, t.args[i]);
    }
    assert(values(p, h, args) =~= values(p, swapped(h), t.args));
}

/// An assignment where variables stand for what those with their new numbers stand for.
pub open spec fn named(h: Assignment, names: Seq<Atom>) -> Assignment {
    |a: Atom|
        if is_var(a) {
            h(Atom::Variable(place_of(names, a, 0) as u16))
        } else {
            h(a)
        }
}

proof fn lemma_renumbered(p: Apply, h: Assignment, t: TermV, names: Seq<Atom>)
    ensures
        value(p, h, renumbered(t, names)) == value(p, named(h, names), t),
    decreases t,
{
    let args = renumbered_all(t.args, names);
    assert forall|i: int| 0 <= i < t.args.len() implies value(p, h, #[trigger] args[i]) == value(
        p,
        named(h, names),
        t.args[i],
    ) by {
        lemma_renumbered(p, h, t.args[i], names);
    }
    assert(values(p, h, args) =~= values(p, named(h, names), t.args));
}

/// An assignment where variables stand for what a map says.
pub open spec fn mapped(p: Apply, h: Assignment, m: Map<Atom, TermV>) -> Assignment {
    |a: Atom|
        if m.dom().contains(a) {
            value(p, h, m[a])
        } else {
            h(a)
        }
}

pub proof fn lemma_filled(p: Apply, h: Assignment, t: TermV, m: Map<Atom, TermV>)
    requires
        is_application(p),
    ensures
        value(p, h, filled(t, m)) == value(p, mapped(p, h, m), t),
    decreases t,
{
    let w = mapped(p, h, m);
    let args = filled_all(t.args, m);
    assert forall|i: int| 0 <= i < t.args.len() implies value(p, h, #[trigger] args[i]) == value(
        p,
        w,
        t.args[i],
    ) by {
        lemma_filled(p, h, t.args[i], m);
    }
    assert(values(p, h, args) =~= values(p, w, t.args));
    if m.dom().contains(t.head) {
        let u = m[t.head];
        assert(values(p, h, u.args + args) =~= values(p, h, u.args) + values(p, h, args));
    }
}

/// The value of a term without variables is the same whatever variables stand for.
pub proof fn lemma_concrete(
    p: Apply,
    h: Assignment,
    w: Assignment,
    t: TermV,
    f: spec_fn(Atom) -> bool,
)
    requires
        agree(h, w),
        forall|a: Atom| #[trigger] is_var(a) ==> f(a),
        !has_atom(t, f),
    ensures
        value(p, h, t) == value(p, w, t),
    decreases t, 0nat,
{
    lemma_concrete_all(p, h, w, t.args, f, t.args.len());
    assert(values(p, h, t.args) =~= values(p, w, t.args));
    assert(!is_var(t.head));
    assert(h(t.head) == w(t.head));
}

proof fn lemma_concrete_all(
    p: Apply,
    h: Assignment,
    w: Assignment,
    ts: Seq<TermV>,
    f: spec_fn(Atom) -> bool,
    n: nat,
)
    requires
        n <= ts.len(),
        agree(h, w),
        forall|a: Atom| #[trigger] is_var(a) ==> f(a),
        !has_atom_all(ts, f, n),
    ensures
        forall|i: int| 0 <= i < n ==> value(p, h, #[trigger] ts[i]) == value(p, w, ts[i]),
    decreases ts, n,
{
    if n > 0 {
        lemma_concrete_all(p, h, w, ts, f, (n - 1) as nat);
        lemma_concrete(p, h, w, ts[n - 1], f);
    }
}

/// Orienting a literal does not change whether it holds.
pub proof fn lemma_oriented(p: Apply, h: Assignment, positive: bool, a: TermV, b: TermV)
    ensures
        holds(p, h, oriented(positive, a, b).0) == ((value(p, h, a) == value(p, h, b)) == positive),
{
}

/// Whatever holds of some literals holds of their clause.
pub proof fn law_clauses_keep_their_meaning(p: Apply, h: Assignment, ls: Seq<LiteralV>)
    requires
        valid(p, h, ls),
    ensures
        valid(p, h, clause_of(ls).literals),
{
    reveal(clause_of);
    let kept = distinct(arranged(ls), arranged(ls).len());
    let names = var_names(kept, kept.len());
    law_clause_keeps_possible_literals(ls);
    let out = clause_of(ls).literals;
    assert forall|w: Assignment| agree(h, w) implies #[trigger] holds_any(p, w, out) by {
        let g = named(w, names);
        assert(agree(h, g)) by {
            assert forall|a: Atom| !is_var(a) implies #[trigger] h(a) == #[trigger] g(a) by {
                assert(h(a) == w(a));
            }
        }
        assert(holds_any(p, g, ls));
        let i = choose|i: int| 0 <= i < ls.len() && holds(p, g, #[trigger] ls[i]);
        assert(ls.contains(ls[i]));
        assert(kept.contains(ls[i]));
        let k = choose|k: int| 0 <= k < kept.len() && kept[k] == ls[i];
        lemma_renumbered(p, w, kept[k].left, names);
        lemma_renumbered(p, w, kept[k].right, names);
        assert(out[k] == renumbered_literal(kept[k], names));
        assert(holds(p, w, out[k]));
    }
}

} // verus!
