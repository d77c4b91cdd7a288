//! The rules of inference are sound: what they give holds wherever what they were given holds.

use vstd::prelude::*;

use crate::active_set::{
    ef_step, ef_terms, factored_rest, fe_step, only_difference, position, resolved,
    resolved_literals, sides,
};
use crate::clause::{
    bound_literal, bound_others, clause_of, first_positive, resolutions, ResolvedV,
};
use crate::literal::{oriented, replaced_at, rewritten, LiteralV};
use crate::meaning::{
    agree, bound, holds, holds_any, is_application, law_clauses_keep_their_meaning, lemma_concrete,
    lemma_instance, lemma_oriented, lemma_partnered, swapped, valid, value, values, Apply,
    Assignment,
};
use crate::proof_step::{rewrite_step, StepV};
use crate::term::{is_var, Atom, TermV};
use crate::unifier::{
    instance, law_unified_terms_are_same, partnered, unified, BindingV, EquationV,
};

verus! {

/// What agrees with the same agrees.
pub proof fn lemma_agree(h: Assignment, w: Assignment, g: Assignment)
    requires
        agree(h, w),
        agree(w, g),
    ensures
        agree(h, g),
{
    assert forall|a: Atom| !is_var(a) implies #[trigger] h(a) == #[trigger] g(a) by {
        assert(h(a) == w(a));
        assert(w(a) == g(a));
    }
}

/// All literals before the first positive one are negative.
pub proof fn lemma_first_positive(ls: Seq<LiteralV>, i: nat, k: int)
    requires
        i <= k < first_positive(ls, i),
    ensures
        k < ls.len() ==> !ls[k].positive,
    decreases ls.len() - i,
{
    if i < ls.len() && !ls[i as int].positive && i < k {
        lemma_first_positive(ls, i + 1, k);
    }
}

/// A literal with bindings put in holds where the literal does for what the bindings say.
proof fn lemma_bound_literal(p: Apply, h: Assignment, l: LiteralV, eqs: Seq<EquationV>)
    requires
        is_application(p),
        unified(eqs) is Some,
    ensures
        ({
            let s = unified(eqs)->0;
            holds(p, h, bound_literal(l, s).0) == holds(p, bound(p, h, s, s.len()), l)
        }),
{
    let s = unified(eqs)->0;
    lemma_instance(p, h, l.left, eqs);
    lemma_instance(p, h, l.right, eqs);
    lemma_oriented(p, h, l.positive, instance(l.left, s), instance(l.right, s));
}

proof fn lemma_bound_others(ls: Seq<LiteralV>, s: Seq<BindingV>, k: int, n: nat, j: int)
    requires
        0 <= j < n <= ls.len(),
        j != k,
    ensures
        bound_others(ls, s, k, n).0.contains(bound_literal(ls[j], s).0),
    decreases n,
{
    let l = bound_literal(ls[j], s).0;
    let all = bound_others(ls, s, k, n).0;
    if j == n - 1 {
        assert(all[all.len() - 1] == l);
    } else {
        lemma_bound_others(ls, s, k, (n - 1) as nat, j);
        let before = bound_others(ls, s, k, (n - 1) as nat).0;
        let i = choose|i: int| 0 <= i < before.len() && before[i] == l;
        assert(all[i] == l);
    }
}

/// What is left of a clause when an inequality between terms is resolved away that can be made the
/// same follows from the clause.
proof fn lemma_resolved_away(p: Apply, h: Assignment, ls: Seq<LiteralV>, k: int)
    requires
        is_application(p),
        valid(p, h, ls),
        0 <= k < ls.len(),
        !ls[k].positive,
        unified(seq![(ls[k].left, ls[k].right)]) is Some,
    ensures
        valid(
            p,
            h,
            bound_others(ls, unified(seq![(ls[k].left, ls[k].right)])->0, k, ls.len()).0,
        ),
{
    let eqs = seq![(ls[k].left, ls[k].right)];
    let s = unified(eqs)->0;
    let rest = bound_others(ls, s, k, ls.len()).0;
    law_unified_terms_are_same(eqs);
    assert(eqs[0] == (ls[k].left, ls[k].right));
    assert forall|w: Assignment| agree(h, w) implies #[trigger] holds_any(p, w, rest) by {
        let g = bound(p, w, s, s.len());
        lemma_instance(p, w, ls[k].left, eqs);
        lemma_instance(p, w, ls[k].right, eqs);
        lemma_agree(h, w, g);
        assert(holds_any(p, g, ls));
        let j = choose|j: int| 0 <= j < ls.len() && holds(p, g, #[trigger] ls[j]);
        assert(j != k);
        lemma_bound_literal(p, w, ls[j], eqs);
        lemma_bound_others(ls, s, k, ls.len(), j);
        let l = bound_literal(ls[j], s).0;
        let i = choose|i: int| 0 <= i < rest.len() && rest[i] == l;
        assert(holds(p, w, rest[i]));
    }
}

/// Equality resolution is sound: what is left of a clause follows from the clause.
pub proof fn law_equality_resolution_is_sound(
    p: Apply,
    h: Assignment,
    ls: Seq<LiteralV>,
    n: nat,
    r: ResolvedV,
)
    requires
        is_application(p),
        valid(p, h, ls),
        resolutions(ls, n).contains(r),
    ensures
        valid(p, h, clause_of(r.1).literals),
    decreases n,
{
    let all = resolutions(ls, n);
    let before = resolutions(ls, (n - 1) as nat);
    let i = choose|i: int| 0 <= i < all.len() && all[i] == r;
    if i < before.len() {
        assert(before[i] == r);
        law_equality_resolution_is_sound(p, h, ls, (n - 1) as nat, r);
    } else {
        lemma_first_positive(ls, 0, n - 1);
        lemma_resolved_away(p, h, ls, n - 1);
        law_clauses_keep_their_meaning(p, h, r.1);
    }
}

proof fn lemma_position(ls: Seq<LiteralV>, l: LiteralV, i: nat)
    ensures
        position(ls, l, i) < ls.len() ==> ls[position(ls, l, i) as int] == l,
    decreases ls.len() - i,
{
    if i < ls.len() && ls[i as int] != l {
        lemma_position(ls, l, i + 1);
    }
}

spec fn resolved_literal(l: LiteralV, s: Seq<BindingV>) -> LiteralV {
    oriented(l.positive, instance(partnered(l.left), s), instance(partnered(l.right), s)).0
}

proof fn lemma_resolved_literals(
    ls: Seq<LiteralV>,
    s: Seq<BindingV>,
    k: int,
    id: usize,
    flipped: bool,
    n: nat,
    j: int,
)
    requires
        0 <= j < n <= ls.len(),
        j != k,
    ensures
        resolved_literals(ls, s, k, id, flipped, n).0.contains(resolved_literal(ls[j], s)),
    decreases n,
{
    let l = resolved_literal(ls[j], s);
    let all = resolved_literals(ls, s, k, id, flipped, n).0;
    if j == n - 1 {
        assert(all[all.len() - 1] == l);
    } else {
        lemma_resolved_literals(ls, s, k, id, flipped, (n - 1) as nat, j);
        let before = resolved_literals(ls, s, k, id, flipped, (n - 1) as nat).0;
        let i = choose|i: int| 0 <= i < before.len() && before[i] == l;
        assert(all[i] == l);
    }
}

/// Resolution is sound: where two literals of opposite sign are resolved, the result follows from
/// both clauses.
pub proof fn law_resolution_is_sound(
    p: Apply,
    h: Assignment,
    short_id: usize,
    short: StepV,
    short_index: int,
    long_id: usize,
    long: StepV,
    long_index: int,
    flipped: bool,
)
    requires
        is_application(p),
        valid(p, h, short.clause.literals),
        valid(p, h, long.clause.literals),
        0 <= short_index < short.clause.literals.len(),
        0 <= long_index < long.clause.literals.len(),
        short.clause.literals[short_index].positive != long.clause.literals[long_index].positive,
        resolved(short_id, short, short_index, long_id, long, long_index, flipped) is Some,
    ensures
        valid(
            p,
            h,
            resolved(
                short_id,
                short,
                short_index,
                long_id,
                long,
                long_index,
                flipped,
            )->0.clause.literals,
        ),
{
    let ss = short.clause.literals;
    let ls = long.clause.literals;
    let x = ss[short_index];
    let (a, b) = if flipped {
        (ls[long_index].right, ls[long_index].left)
    } else {
        (ls[long_index].left, ls[long_index].right)
    };
    let eqs = seq![(x.right, partnered(b)), (x.left, partnered(a))];
    let s = unified(eqs)->0;
    let out = resolved_literals(ls, s, long_index, short_id, flipped, ls.len()).0;
    law_unified_terms_are_same(eqs);
    assert(eqs[0] == (x.right, partnered(b)));
    assert(eqs[1] == (x.left, partnered(a)));
    assert forall|w: Assignment| agree(h, w) implies #[trigger] holds_any(p, w, out) by {
        let g = bound(p, w, s, s.len());
        let q = swapped(g);
        lemma_instance(p, w, x.left, eqs);
        lemma_instance(p, w, x.right, eqs);
        lemma_instance(p, w, partnered(a), eqs);
        lemma_instance(p, w, partnered(b), eqs);
        lemma_partnered(p, g, a);
        lemma_partnered(p, g, b);
        lemma_agree(h, w, g);
        lemma_agree(h, g, q);
        assert(holds_any(p, g, ss));
        assert(holds_any(p, q, ls));
        let i = choose|i: int| 0 <= i < ss.len() && holds(p, g, #[trigger] ss[i]);
        let m = choose|m: int| 0 <= m < ls.len() && holds(p, q, #[trigger] ls[m]);
        let j = if m != long_index {
            m
        } else {
            assert(i != short_index);
            let f = |c: Atom| is_var(c);
            let k = position(ls, ss[i], 0);
            assert(!ss[i].has(f) && k < ls.len() && k != long_index);
            lemma_position(ls, ss[i], 0);
            lemma_concrete(p, g, q, ss[i].left, f);
            lemma_concrete(p, g, q, ss[i].right, f);
            k as int
        };
        assert(holds(p, q, ls[j]));
        lemma_partnered(p, g, ls[j].left);
        lemma_partnered(p, g, ls[j].right);
        lemma_instance(p, w, partnered(ls[j].left), eqs);
        lemma_instance(p, w, partnered(ls[j].right), eqs);
        lemma_resolved_literals(ls, s, long_index, short_id, flipped, ls.len(), j);
        let l = resolved_literal(ls[j], s);
        lemma_oriented(
            p,
            w,
            ls[j].positive,
            instance(partnered(ls[j].left), s),
            instance(partnered(ls[j].right), s),
        );
        let c = choose|c: int| 0 <= c < out.len() && out[c] == l;
        assert(holds(p, w, out[c]));
    }
    law_clauses_keep_their_meaning(p, h, out);
}

proof fn lemma_only_difference(a: Seq<TermV>, b: Seq<TermV>, j: nat, found: Option<usize>, i: int)
    requires
        a.len() == b.len(),
        a.len() <= usize::MAX,
        j <= i < a.len(),
        only_difference(a, b, j, found) is Some,
        only_difference(a, b, j, found)->0 != i,
    ensures
        a[i] == b[i],
    decreases a.len() - j,
{
    if a[j as int] == b[j as int] {
        if j < i {
            lemma_only_difference(a, b, j + 1, found, i);
        }
    } else {
        lemma_only_found(a, b, j + 1, j as usize);
        if j < i {
            lemma_only_difference(a, b, j + 1, Some(j as usize), i);
        }
    }
}

proof fn lemma_only_found(a: Seq<TermV>, b: Seq<TermV>, j: nat, k: usize)
    ensures
        only_difference(a, b, j, Some(k)) is Some ==> only_difference(a, b, j, Some(k)) == Some(k),
    decreases a.len() - j,
{
    if j < a.len() && a[j as int] == b[j as int] {
        lemma_only_found(a, b, j + 1, k);
    }
}

/// Function elimination is sound: where values of a function differ, the arguments differ.
pub proof fn law_function_elimination_is_sound(
    p: Apply,
    h: Assignment,
    id: usize,
    step: StepV,
    i: int,
)
    requires
        valid(p, h, step.clause.literals),
        0 <= i < step.clause.literals.len(),
        !step.clause.literals[i].positive,
        step.clause.literals[i].left.args.len() <= usize::MAX,
        fe_step(id, step, i) is Some,
    ensures
        valid(p, h, fe_step(id, step, i)->0.clause.literals),
{
    let ls = step.clause.literals;
    let l = ls[i];
    let a = l.left.args;
    let b = l.right.args;
    let j = only_difference(a, b, 0, None)->0 as int;
    let out = ls.update(i, oriented(false, a[j], b[j]).0);
    assert forall|w: Assignment| agree(h, w) implies #[trigger] holds_any(p, w, out) by {
        assert(holds_any(p, w, ls));
        let m = choose|m: int| 0 <= m < ls.len() && holds(p, w, #[trigger] ls[m]);
        if m == i {
            lemma_oriented(p, w, false, a[j], b[j]);
            if value(p, w, a[j]) == value(p, w, b[j]) {
                assert forall|k: int| 0 <= k < a.len() implies value(p, w, #[trigger] a[k])
                    == value(p, w, b[k]) by {
                    if k != j {
                        lemma_only_difference(a, b, 0, None, k);
                    }
                }
                assert(values(p, w, a) =~= values(p, w, b));
            }
        }
        assert(holds(p, w, out[m]));
    }
    law_clauses_keep_their_meaning(p, h, out);
}

proof fn lemma_factored_rest(ls: Seq<LiteralV>, s: Seq<BindingV>, k: int, n: nat, j: int)
    requires
        0 < j < n <= ls.len(),
        j != k,
    ensures
        factored_rest(ls, s, k, n).contains(bound_literal(ls[j], s).0),
    decreases n,
{
    let l = bound_literal(ls[j], s).0;
    let all = factored_rest(ls, s, k, n);
    if j == n - 1 {
        assert(all[all.len() - 1] == l);
    } else {
        lemma_factored_rest(ls, s, k, (n - 1) as nat, j);
        let before = factored_rest(ls, s, k, (n - 1) as nat);
        let i = choose|i: int| 0 <= i < before.len() && before[i] == l;
        assert(all[i] == l);
    }
}

/// Equality factoring is sound: what comes of two equalities of a clause follows from the clause.
pub proof fn law_equality_factoring_is_sound(
    p: Apply,
    h: Assignment,
    id: usize,
    step: StepV,
    k: int,
    st_forwards: bool,
    uv_forwards: bool,
)
    requires
        is_application(p),
        valid(p, h, step.clause.literals),
        0 < k < step.clause.literals.len(),
        step.clause.literals[0].positive,
        step.clause.literals[k].positive,
        ef_step(id, step, k, st_forwards, uv_forwards) is Some,
    ensures
        valid(p, h, ef_step(id, step, k, st_forwards, uv_forwards)->0.clause.literals),
{
    let ls = step.clause.literals;
    let st = sides(ls[0], st_forwards);
    let uv = sides(ls[k], uv_forwards);
    let eqs = seq![(st.0, uv.0)];
    let s = unified(eqs)->0;
    let tv = oriented(false, instance(st.1, s), instance(uv.1, s)).0;
    let same = oriented(true, instance(uv.0, s), instance(uv.1, s)).0;
    let rest = factored_rest(ls, s, k, ls.len());
    let out = seq![tv, same] + rest;
    assert(ef_terms(id, step, k, st, uv)->0.clause == clause_of(out));
    law_unified_terms_are_same(eqs);
    assert(eqs[0] == (st.0, uv.0));
    assert forall|w: Assignment| agree(h, w) implies #[trigger] holds_any(p, w, out) by {
        let g = bound(p, w, s, s.len());
        lemma_instance(p, w, st.0, eqs);
        lemma_instance(p, w, st.1, eqs);
        lemma_instance(p, w, uv.0, eqs);
        lemma_instance(p, w, uv.1, eqs);
        lemma_agree(h, w, g);
        assert(holds_any(p, g, ls));
        lemma_oriented(p, w, false, instance(st.1, s), instance(uv.1, s));
        lemma_oriented(p, w, true, instance(uv.0, s), instance(uv.1, s));
        let j = choose|j: int| 0 <= j < ls.len() && holds(p, g, #[trigger] ls[j]);
        assert(out[0] == tv && out[1] == same);
        if j == 0 || j == k {
            assert(holds(p, w, out[0]) || holds(p, w, out[1]));
        } else {
            lemma_bound_literal(p, w, ls[j], eqs);
            lemma_factored_rest(ls, s, k, ls.len(), j);
            let l = bound_literal(ls[j], s).0;
            let i = choose|i: int| 0 <= i < rest.len() && rest[i] == l;
            assert(out[i + 2] == l);
            assert(holds(p, w, out[i + 2]));
        }
    }
    law_clauses_keep_their_meaning(p, h, out);
}

/// The subterm at the end of a path.
pub open spec fn subterm_at(t: TermV, path: Seq<usize>) -> Option<TermV>
    decreases path.len(),
{
    if path.len() == 0 {
        Some(t)
    } else if path[0] >= t.args.len() {
        None
    } else {
        subterm_at(t.args[path[0] as int], path.skip(1))
    }
}

/// A side of a literal.
pub open spec fn side(l: LiteralV, left: bool) -> TermV {
    if left {
        l.left
    } else {
        l.right
    }
}

proof fn lemma_replaced_at(p: Apply, h: Assignment, t: TermV, path: Seq<usize>, u: TermV)
    requires
        subterm_at(t, path) is Some,
        value(p, h, subterm_at(t, path)->0) == value(p, h, u),
    ensures
        value(p, h, replaced_at(t, path, u)) == value(p, h, t),
    decreases path.len(),
{
    if path.len() > 0 {
        let k = path[0] as int;
        lemma_replaced_at(p, h, t.args[k], path.skip(1), u);
        let args = t.args.update(k, replaced_at(t.args[k], path.skip(1), u));
        assert(values(p, h, args) =~= values(p, h, t.args));
    }
}

/// Whether two terms have the same value for all values of the variables.
pub open spec fn equal_always(p: Apply, h: Assignment, a: TermV, b: TermV) -> bool {
    forall|w: Assignment| agree(h, w) ==> #[trigger] value(p, w, a) == value(p, w, b)
}

/// Rewriting is sound: where a subterm of a literal is the same as another term, the literal with
/// the other term in its place follows.
pub proof fn law_rewriting_is_sound(
    p: Apply,
    h: Assignment,
    pattern_id: usize,
    pattern: StepV,
    target_id: usize,
    target: StepV,
    left: bool,
    path: Seq<usize>,
    forwards: bool,
    u: TermV,
)
    requires
        valid(p, h, target.clause.literals),
        target.clause.literals.len() == 1,
        subterm_at(side(target.clause.literals[0], left), path) is Some,
        equal_always(p, h, subterm_at(side(target.clause.literals[0], left), path)->0, u),
    ensures
        valid(
            p,
            h,
            rewrite_step(
                pattern_id,
                pattern,
                target_id,
                target,
                left,
                path,
                forwards,
                u,
            ).clause.literals,
        ),
{
    let ls = target.clause.literals;
    let l = ls[0];
    let out = seq![rewritten(l, left, path, u).0];
    assert forall|w: Assignment| agree(h, w) implies #[trigger] holds_any(p, w, out) by {
        assert(holds_any(p, w, ls));
        let t = subterm_at(side(l, left), path)->0;
        assert(value(p, w, t) == value(p, w, u));
        lemma_replaced_at(p, w, side(l, left), path, u);
        if left {
            lemma_oriented(p, w, l.positive, replaced_at(l.left, path, u), l.right);
        } else {
            lemma_oriented(p, w, l.positive, l.left, replaced_at(l.right, path, u));
        }
        assert(holds(p, w, out[0]));
    }
    law_clauses_keep_their_meaning(p, h, out);
}

} // verus!
