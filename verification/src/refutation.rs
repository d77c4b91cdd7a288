//! Reasoning with an active set is sound: all that is found holds wherever the activated clauses
//! hold.

use vstd::prelude::*;

use crate::active_set::{
    activated, activated_literal, all_resolutions, ef_step, ef_steps, equality_factorings,
    equality_resolutions, er_steps, factored_rest, fe_step, fe_steps, location_rewrites,
    only_difference, pattern_rewrites, place_rewrites, resolved, resolved_literals, rewrite_edge,
    rewrite_edges, rewrites_of, rewritten_from, rewritten_pattern, rewritten_place,
    rewritten_places, rewritten_subterm, rewritten_subterms, rewritten_target, sides,
    subterm_place, target_resolutions, targets_for, with_step, with_subterm, with_targets, ActiveV,
    LocationV, ResolutionTarget, RewriteV, SubtermV,
};
use crate::clause::{
    arranged, clause_of, distinct, first_positive, is_ordered, law_literals_are_in_order,
    resolutions, ResolvedV, TaggedV,
};
use crate::literal::{literal_order, oriented, subterms, subterms_all, LiteralV, PlaceV};
use crate::meaning::{
    agree, bound, holds, holds_any, is_application, lemma_concrete, lemma_filled, lemma_instance,
    lemma_partnered, mapped, swapped, valid, value, Apply, Assignment,
};
use crate::proof_step::{rewrite_step, small_step, StepV};
use crate::soundness::{
    equal_always, law_equality_factoring_is_sound, law_equality_resolution_is_sound,
    law_function_elimination_is_sound, law_resolution_is_sound, law_rewriting_is_sound,
    lemma_agree, lemma_first_positive, side, subterm_at,
};
use crate::term::{has_atom, has_atom_all, is_var, small_term, Atom, Comparison, TermV};
use crate::term_graph::EdgeV;
use crate::unifier::{
    filled, instance, is_var_term, law_matched_terms_are_instances, law_unified_terms_are_same,
    matched, matched_all, matched_var, partnered, unified,
};

verus! {

/// Whether negative literals come before positive ones.
pub open spec fn signed(ls: Seq<LiteralV>) -> bool {
    forall|i: int, j: int|
        0 <= i <= j < ls.len() && (#[trigger] ls[i]).positive ==> (#[trigger] ls[j]).positive
}

proof fn lemma_distinct_signed(ps: Seq<TaggedV>, n: nat)
    requires
        is_ordered(ps),
        n <= ps.len(),
    ensures
        signed(distinct(ps, n)),
        n > 0 ==> distinct(ps, n).len() > 0 && distinct(ps, n).last() == ps[n - 1].0,
    decreases n,
{
    if n > 0 {
        lemma_distinct_signed(ps, (n - 1) as nat);
        if n > 1 {
            reveal(literal_order);
            assert(literal_order(ps[n - 2].0, ps[n - 1].0) != Comparison::Greater);
        }
        let before = distinct(ps, (n - 1) as nat);
        let all = distinct(ps, n);
        assert forall|i: int, j: int|
            0 <= i <= j < all.len() && (#[trigger] all[i]).positive implies (
        #[trigger] all[j]).positive by {
            if j < before.len() {
                assert(before[i].positive && before[j] == all[j]);
            } else if i < before.len() {
                assert(before[i].positive);
                assert(before[before.len() - 1].positive);
            }
        }
    }
}

/// The negative literals of a clause come before the positive ones.
pub proof fn law_negative_literals_come_first(ls: Seq<LiteralV>)
    ensures
        signed(clause_of(ls).literals),
{
    reveal(clause_of);
    let ps = arranged(ls);
    let kept = distinct(ps, ps.len());
    let out = clause_of(ls).literals;
    law_literals_are_in_order(ls);
    lemma_distinct_signed(ps, ps.len());
    assert forall|i: int, j: int|
        0 <= i <= j < out.len() && (#[trigger] out[i]).positive implies (
    #[trigger] out[j]).positive by {
        assert(kept[i].positive && kept[j].positive == out[j].positive);
    }
}

/// Whether the clause of a step holds.
pub open spec fn good_step(p: Apply, h: Assignment, s: StepV) -> bool {
    valid(p, h, s.clause.literals) && signed(s.clause.literals)
}

/// Whether the clauses of all steps hold.
pub open spec fn good_steps(p: Apply, h: Assignment, ss: Seq<StepV>) -> bool {
    forall|i: int| 0 <= i < ss.len() ==> good_step(p, h, #[trigger] ss[i])
}

/// Looks for variables.
pub open spec fn any_var() -> spec_fn(Atom) -> bool {
    |a: Atom| is_var(a)
}

/// Whether a term has no variables.
pub open spec fn concrete(t: TermV) -> bool {
    !has_atom(t, any_var())
}

/// Whether a location is one where a step with one literal has a term.
pub open spec fn good_location(steps: Seq<StepV>, loc: LocationV, t: TermV) -> bool {
    &&& loc.target_id < steps.len()
    &&& steps[loc.target_id as int].clause.literals.len() == 1
    &&& subterm_at(side(steps[loc.target_id as int].clause.literals[0], loc.left), loc.path)
        == Some(t)
}

/// Whether all that is known of a subterm holds.
pub open spec fn good_subterm(p: Apply, h: Assignment, steps: Seq<StepV>, s: SubtermV) -> bool {
    &&& concrete(s.term)
    &&& good_rewrites(p, h, s.term, s.rewrites)
    &&& forall|i: int|
        0 <= i < s.locations.len() ==> good_location(steps, #[trigger] s.locations[i], s.term)
}

/// Whether a term is the same as all that it is rewritten to.
pub open spec fn good_rewrites(p: Apply, h: Assignment, t: TermV, rs: Seq<RewriteV>) -> bool {
    forall|i: int| 0 <= i < rs.len() ==> equal_always(p, h, t, (#[trigger] rs[i]).term)
}

/// Whether an equality or inequality between terms holds.
pub open spec fn good_edge(p: Apply, h: Assignment, e: EdgeV) -> bool {
    if e.equal {
        equal_always(p, h, e.left, e.right)
    } else {
        value(p, h, e.left) != value(p, h, e.right)
    }
}

/// Whether targets are literals of one sign.
pub open spec fn good_targets(
    steps: Seq<StepV>,
    targets: Seq<ResolutionTarget>,
    positive: bool,
) -> bool {
    forall|i: int|
        0 <= i < targets.len() ==> {
            let t = #[trigger] targets[i];
            let ls = steps[t.step_index as int].clause.literals;
            t.step_index < steps.len() && t.literal_index < ls.len()
                && ls[t.literal_index as int].positive == positive
        }
}

/// Whether all literals with ids hold.
pub open spec fn good_literals(p: Apply, h: Assignment, ls: Seq<(LiteralV, usize)>) -> bool {
    forall|i: int| 0 <= i < ls.len() ==> valid(p, h, seq![(#[trigger] ls[i]).0])
}

/// Whether all patterns are equalities that hold.
pub open spec fn good_patterns(p: Apply, h: Assignment, ls: Seq<(LiteralV, usize)>) -> bool {
    good_literals(p, h, ls) && forall|i: int|
        0 <= i < ls.len() ==> (#[trigger] ls[i]).0.positive
}

/// Whether all that an active set knows holds. The locations are among steps that the set has or
/// is about to get.
pub open spec fn sound(p: Apply, h: Assignment, a: ActiveV, steps: Seq<StepV>) -> bool {
    &&& a.steps.len() <= steps.len()
    &&& a.steps == steps.take(a.steps.len() as int)
    &&& good_steps(p, h, steps)
    &&& good_literals(p, h, a.literal_set)
    &&& good_targets(a.steps, a.positive_targets, true)
    &&& good_targets(a.steps, a.negative_targets, false)
    &&& good_patterns(p, h, a.patterns)
    &&& forall|k: int|
        0 <= k < a.subterms.len() ==> good_subterm(p, h, steps, #[trigger] a.subterms[k])
    &&& forall|k: int| 0 <= k < a.graph.len() ==> good_edge(p, h, #[trigger] a.graph[k])
}

/// Whether a map is for variables alone.
pub open spec fn maps_vars(m: Map<Atom, TermV>) -> bool {
    forall|a: Atom| #[trigger] m.dom().contains(a) ==> is_var(a)
}

/// A match says something of variables alone.
pub proof fn lemma_matched_vars(g: TermV, t: TermV, m: Map<Atom, TermV>)
    requires
        maps_vars(m),
        matched(g, t, m) is Some,
    ensures
        maps_vars(matched(g, t, m)->0),
    decreases g, 0nat,
{
    if !is_var_term(g) {
        let m1 = if is_var(g.head) {
            matched_var(g.head, crate::unifier::head_term(t), m)->0
        } else {
            m
        };
        assert(maps_vars(m1));
        lemma_matched_all_vars(g.args, t.args, m1, g.args.len());
    }
}

proof fn lemma_matched_all_vars(gs: Seq<TermV>, ts: Seq<TermV>, m: Map<Atom, TermV>, n: nat)
    requires
        n <= gs.len(),
        maps_vars(m),
        matched_all(gs, ts, m, n) is Some,
    ensures
        maps_vars(matched_all(gs, ts, m, n)->0),
    decreases gs, n,
{
    if n > 0 {
        lemma_matched_all_vars(gs, ts, m, (n - 1) as nat);
        lemma_matched_vars(gs[n - 1], ts[n - 1], matched_all(gs, ts, m, (n - 1) as nat)->0);
    }
}

/// What a map says of variables does not change constants.
pub proof fn lemma_mapped_agrees(
    p: Apply,
    h: Assignment,
    w: Assignment,
    m: Map<Atom, TermV>,
)
    requires
        agree(h, w),
        maps_vars(m),
    ensures
        agree(h, mapped(p, w, m)),
{
    let g = mapped(p, w, m);
    assert forall|a: Atom| !is_var(a) implies #[trigger] h(a) == #[trigger] g(a) by {
        assert(!m.dom().contains(a));
        assert(h(a) == w(a));
    }
}

/// A literal that holds on its own holds for all values of the variables.
pub proof fn lemma_single(p: Apply, h: Assignment, w: Assignment, l: LiteralV)
    requires
        valid(p, h, seq![l]),
        agree(h, w),
    ensures
        holds(p, w, l),
{
    assert(holds_any(p, w, seq![l]));
    let ls = seq![l];
    let i = choose|i: int| 0 <= i < ls.len() && holds(p, w, #[trigger] ls[i]);
    assert(ls[i] == l);
}

/// What a term is rewritten to by an equality is the same as the term.
proof fn lemma_pattern(
    p: Apply,
    h: Assignment,
    l: LiteralV,
    from: TermV,
    to: TermV,
    t: TermV,
)
    requires
        is_application(p),
        valid(p, h, seq![l]),
        l.positive,
        from == l.left && to == l.right || from == l.right && to == l.left,
        matched(from, t, Map::empty()) is Some,
    ensures
        equal_always(p, h, t, filled(to, matched(from, t, Map::empty())->0)),
{
    let m = matched(from, t, Map::empty())->0;
    lemma_matched_vars(from, t, Map::empty());
    law_matched_terms_are_instances(from, t, Map::empty(), m);
    assert forall|w: Assignment| agree(h, w) implies #[trigger] value(p, w, t) == value(
        p,
        w,
        filled(to, m),
    ) by {
        lemma_mapped_agrees(p, h, w, m);
        lemma_filled(p, w, from, m);
        lemma_filled(p, w, to, m);
        lemma_single(p, h, mapped(p, w, m), l);
    }
}

proof fn lemma_rewrites_of(
    p: Apply,
    h: Assignment,
    ps: Seq<(LiteralV, usize)>,
    t: TermV,
    n: nat,
)
    requires
        is_application(p),
        good_patterns(p, h, ps),
        n <= ps.len(),
    ensures
        good_rewrites(p, h, t, rewrites_of(ps, t, n)),
    decreases n,
{
    if n > 0 {
        lemma_rewrites_of(p, h, ps, t, (n - 1) as nat);
        let l = ps[n - 1].0;
        if matched(l.left, t, Map::empty()) is Some {
            lemma_pattern(p, h, l, l.left, l.right, t);
        }
        if matched(l.right, t, Map::empty()) is Some {
            lemma_pattern(p, h, l, l.right, l.left, t);
        }
        assert(good_rewrites(p, h, t, pattern_rewrites(ps[n - 1], t)));
    }
}

proof fn lemma_rewrite_edge(
    p: Apply,
    h: Assignment,
    t: TermV,
    r: RewriteV,
    inspiration_id: Option<usize>,
)
    requires
        equal_always(p, h, t, r.term),
    ensures
        good_edge(p, h, rewrite_edge(t, r, inspiration_id)),
{
    let e = rewrite_edge(t, r, inspiration_id);
    assert forall|w: Assignment| agree(h, w) implies #[trigger] value(p, w, e.left) == value(
        p,
        w,
        e.right,
    ) by {
        assert(value(p, w, t) == value(p, w, r.term));
    }
}

proof fn lemma_with_subterm(
    p: Apply,
    h: Assignment,
    a: ActiveV,
    steps: Seq<StepV>,
    t: TermV,
    target_id: usize,
)
    requires
        is_application(p),
        sound(p, h, a, steps),
        concrete(t),
    ensures
        sound(p, h, with_subterm(a, t, target_id), steps),
{
    if subterm_place(a.subterms, t, 0) >= a.subterms.len() {
        let rs = rewrites_of(a.patterns, t, a.patterns.len());
        lemma_rewrites_of(p, h, a.patterns, t, a.patterns.len());
        let edges = rewrite_edges(t, rs, target_id);
        assert forall|k: int| 0 <= k < edges.len() implies good_edge(p, h, #[trigger] edges[k]) by {
            lemma_rewrite_edge(p, h, t, rs[k], Some(target_id));
        }
    }
}

proof fn lemma_subterm_place(s: Seq<SubtermV>, t: TermV, i: nat)
    requires
        i <= s.len(),
    ensures
        subterm_place(s, t, i) <= s.len(),
        subterm_place(s, t, i) < s.len() ==> s[subterm_place(s, t, i) as int].term == t,
    decreases s.len() - i,
{
    if i < s.len() && s[i as int].term != t {
        lemma_subterm_place(s, t, i + 1);
    }
}

proof fn lemma_subterm_pushed(s: Seq<SubtermV>, x: SubtermV, i: nat)
    requires
        i <= s.len(),
        subterm_place(s, x.term, i) >= s.len(),
    ensures
        subterm_place(s.push(x), x.term, i) == s.len(),
    decreases s.len() - i,
{
    if i < s.len() {
        lemma_subterm_pushed(s, x, i + 1);
    }
}

proof fn lemma_place_rewrites(
    p: Apply,
    h: Assignment,
    a: ActiveV,
    target_id: usize,
    target: StepV,
    left: bool,
    path: Seq<usize>,
    t: TermV,
    rs: Seq<RewriteV>,
    n: nat,
)
    requires
        good_step(p, h, target),
        target.clause.literals.len() == 1,
        subterm_at(side(target.clause.literals[0], left), path) == Some(t),
        good_rewrites(p, h, t, rs),
        n <= rs.len(),
    ensures
        good_steps(p, h, place_rewrites(a, target_id, target, left, path, rs, n)),
    decreases n,
{
    if n > 0 {
        lemma_place_rewrites(p, h, a, target_id, target, left, path, t, rs, (n - 1) as nat);
        let r = rs[n - 1];
        let pattern = a.steps[r.pattern_id as int];
        lemma_rewrite_step(
            p,
            h,
            r.pattern_id,
            pattern,
            target_id,
            target,
            left,
            path,
            r.forwards,
            r.term,
        );
    }
}

proof fn lemma_rewrite_step(
    p: Apply,
    h: Assignment,
    pattern_id: usize,
    pattern: StepV,
    target_id: usize,
    target: StepV,
    left: bool,
    path: Seq<usize>,
    forwards: bool,
    u: TermV,
)
    requires
        good_step(p, h, target),
        target.clause.literals.len() == 1,
        subterm_at(side(target.clause.literals[0], left), path) is Some,
        equal_always(p, h, subterm_at(side(target.clause.literals[0], left), path)->0, u),
    ensures
        good_step(
            p,
            h,
            rewrite_step(pattern_id, pattern, target_id, target, left, path, forwards, u),
        ),
{
    law_rewriting_is_sound(
        p,
        h,
        pattern_id,
        pattern,
        target_id,
        target,
        left,
        path,
        forwards,
        u,
    );
    law_negative_literals_come_first(
        seq![crate::literal::rewritten(target.clause.literals[0], left, path, u).0],
    );
}

/// Whether places are those of subterms without variables.
spec fn good_places(t: TermV, places: Seq<PlaceV>) -> bool {
    forall|i: int|
        0 <= i < places.len() ==> subterm_at(t, (#[trigger] places[i]).0) == Some(places[i].1)
            && concrete(places[i].1)
}

proof fn lemma_subterm_pushed_path(t: TermV, path: Seq<usize>, k: usize)
    requires
        subterm_at(t, path) is Some,
        k < subterm_at(t, path)->0.args.len(),
    ensures
        subterm_at(t, path.push(k)) == Some(subterm_at(t, path)->0.args[k as int]),
    decreases path.len(),
{
    if path.len() == 0 {
        assert(path.push(k).skip(1) =~= Seq::<usize>::empty());
        assert(subterm_at(t.args[k as int], Seq::<usize>::empty()) == Some(t.args[k as int]));
    } else {
        lemma_subterm_pushed_path(t.args[path[0] as int], path.skip(1), k);
        assert(path.push(k).skip(1) =~= path.skip(1).push(k));
    }
}

proof fn lemma_subterms(t: TermV, prefix: Seq<usize>, u: TermV)
    requires
        subterm_at(t, prefix) == Some(u),
        concrete(u),
        small_term(u),
    ensures
        good_places(t, subterms(u, prefix)),
    decreases u, 0nat,
{
    if !(u.head is True) {
        lemma_subterms_all(t, prefix, u, u.args, u.args.len());
    }
}

proof fn lemma_subterms_all(t: TermV, prefix: Seq<usize>, u: TermV, ts: Seq<TermV>, n: nat)
    requires
        subterm_at(t, prefix) == Some(u),
        ts == u.args,
        n <= ts.len() <= usize::MAX,
        !has_atom_all(ts, any_var(), n),
        crate::term::small_terms(ts),
    ensures
        good_places(t, subterms_all(ts, prefix, n)),
    decreases ts, n,
{
    if n > 0 {
        lemma_subterms_all(t, prefix, u, ts, (n - 1) as nat);
        let k = (n - 1) as usize;
        lemma_subterm_pushed_path(t, prefix, k);
        assert(small_term(ts[n - 1]));
        lemma_subterms(t, prefix.push(k), ts[n - 1]);
    }
}

/// What comes of a place in a target holds.
proof fn lemma_rewritten_place(
    p: Apply,
    h: Assignment,
    a: ActiveV,
    steps: Seq<StepV>,
    target_id: usize,
    left: bool,
    place: PlaceV,
)
    requires
        is_application(p),
        sound(p, h, a, steps),
        good_location(steps, LocationV { target_id, left, path: place.0 }, place.1),
        concrete(place.1),
    ensures
        ({
            let (b, found) = rewritten_place(a, target_id, steps[target_id as int], left, place);
            sound(p, h, b, steps) && good_steps(p, h, found) && b.steps == a.steps
                && b.patterns == a.patterns
        }),
{
    let target = steps[target_id as int];
    let b = with_subterm(a, place.1, target_id);
    lemma_with_subterm(p, h, a, steps, place.1, target_id);
    let k = subterm_place(b.subterms, place.1, 0) as int;
    lemma_subterm_place(a.subterms, place.1, 0);
    lemma_subterm_place(b.subterms, place.1, 0);
    if subterm_place(a.subterms, place.1, 0) >= a.subterms.len() {
        lemma_subterm_pushed(a.subterms, b.subterms.last(), 0);
        assert(b.subterms =~= a.subterms.push(b.subterms.last()));
    }
    assert(0 <= k < b.subterms.len());
    let info = b.subterms[k];
    assert(info.term == place.1);
    lemma_place_rewrites(
        p,
        h,
        b,
        target_id,
        target,
        left,
        place.0,
        place.1,
        info.rewrites,
        info.rewrites.len(),
    );
    let loc = LocationV { target_id, left, path: place.0 };
    let more = SubtermV { locations: info.locations.push(loc), ..info };
    assert(good_subterm(p, h, steps, info));
    assert(good_subterm(p, h, steps, more));
    let c = rewritten_place(a, target_id, target, left, place).0;
    assert(c.subterms == b.subterms.update(k, more));
    assert forall|i: int| 0 <= i < c.subterms.len() implies good_subterm(
        p,
        h,
        steps,
        #[trigger] c.subterms[i],
    ) by {
        if i != k {
            assert(c.subterms[i] == b.subterms[i]);
        }
    }
}

proof fn lemma_rewritten_places(
    p: Apply,
    h: Assignment,
    a: ActiveV,
    steps: Seq<StepV>,
    target_id: usize,
    left: bool,
    places: Seq<PlaceV>,
    n: nat,
)
    requires
        is_application(p),
        sound(p, h, a, steps),
        target_id < steps.len(),
        steps[target_id as int].clause.literals.len() == 1,
        good_places(side(steps[target_id as int].clause.literals[0], left), places),
        n <= places.len(),
    ensures
        ({
            let (b, found) = rewritten_places(
                a,
                target_id,
                steps[target_id as int],
                left,
                places,
                n,
            );
            sound(p, h, b, steps) && good_steps(p, h, found) && b.steps == a.steps
                && b.patterns == a.patterns
        }),
    decreases n,
{
    if n > 0 {
        lemma_rewritten_places(p, h, a, steps, target_id, left, places, (n - 1) as nat);
        let target = steps[target_id as int];
        let b = rewritten_places(a, target_id, target, left, places, (n - 1) as nat).0;
        lemma_rewritten_place(p, h, b, steps, target_id, left, places[n - 1]);
    }
}

/// What comes of a literal as a target for rewriting holds.
proof fn lemma_rewritten_target(
    p: Apply,
    h: Assignment,
    a: ActiveV,
    steps: Seq<StepV>,
    target_id: usize,
)
    requires
        is_application(p),
        sound(p, h, a, steps),
        target_id < steps.len(),
        steps[target_id as int].clause.literals.len() == 1,
        small_step(steps[target_id as int]),
        concrete(steps[target_id as int].clause.literals[0].left),
        concrete(steps[target_id as int].clause.literals[0].right),
    ensures
        ({
            let (b, found) = rewritten_target(a, target_id, steps[target_id as int]);
            sound(p, h, b, steps) && good_steps(p, h, found) && b.steps == a.steps
                && b.patterns == a.patterns
        }),
{
    let target = steps[target_id as int];
    let l = target.clause.literals[0];
    let left_places = subterms(l.left, Seq::empty());
    let right_places = subterms(l.right, Seq::empty());
    lemma_subterms(l.left, Seq::empty(), l.left);
    lemma_subterms(l.right, Seq::empty(), l.right);
    lemma_rewritten_places(p, h, a, steps, target_id, true, left_places, left_places.len());
    let b = rewritten_places(a, target_id, target, true, left_places, left_places.len()).0;
    lemma_rewritten_places(p, h, b, steps, target_id, false, right_places, right_places.len());
}

/// What a subterm is rewritten to, where an equality can be made to fit, is the same as the subterm.
proof fn lemma_unified_pattern(
    p: Apply,
    h: Assignment,
    l: LiteralV,
    s: TermV,
    t: TermV,
    u: TermV,
)
    requires
        is_application(p),
        valid(p, h, seq![l]),
        l.positive,
        s == l.left && t == l.right || s == l.right && t == l.left,
        concrete(u),
        unified(seq![(s, partnered(u))]) is Some,
    ensures
        equal_always(p, h, u, instance(t, unified(seq![(s, partnered(u))])->0)),
{
    let eqs = seq![(s, partnered(u))];
    let b = unified(eqs)->0;
    law_unified_terms_are_same(eqs);
    assert(eqs[0] == (s, partnered(u)));
    assert forall|w: Assignment| agree(h, w) implies #[trigger] value(p, w, u) == value(
        p,
        w,
        instance(t, b),
    ) by {
        let g = bound(p, w, b, b.len());
        lemma_instance(p, w, s, eqs);
        lemma_instance(p, w, t, eqs);
        lemma_instance(p, w, partnered(u), eqs);
        lemma_partnered(p, g, u);
        lemma_agree(h, w, g);
        lemma_agree(w, g, swapped(g));
        lemma_concrete(p, w, swapped(g), u, any_var());
        lemma_single(p, h, g, l);
    }
}

proof fn lemma_location_rewrites(
    p: Apply,
    h: Assignment,
    a: ActiveV,
    steps: Seq<StepV>,
    pattern_id: usize,
    pattern: StepV,
    t: TermV,
    locs: Seq<LocationV>,
    forwards: bool,
    u: TermV,
    n: nat,
)
    requires
        sound(p, h, a, steps),
        forall|i: int| 0 <= i < locs.len() ==> good_location(steps, #[trigger] locs[i], t),
        equal_always(p, h, t, u),
        n <= locs.len(),
    ensures
        good_steps(p, h, location_rewrites(a, pattern_id, pattern, locs, forwards, u, n)),
    decreases n,
{
    if n > 0 {
        lemma_location_rewrites(
            p,
            h,
            a,
            steps,
            pattern_id,
            pattern,
            t,
            locs,
            forwards,
            u,
            (n - 1) as nat,
        );
        let loc = locs[n - 1];
        if loc.target_id < a.steps.len() {
            assert(a.steps[loc.target_id as int] == steps[loc.target_id as int]);
            lemma_rewrite_step(
                p,
                h,
                pattern_id,
                pattern,
                loc.target_id,
                steps[loc.target_id as int],
                loc.left,
                loc.path,
                forwards,
                u,
            );
        }
    }
}

/// Whether all that is known after reasoning holds, and all that was found.
spec fn good_found(
    p: Apply,
    h: Assignment,
    a: ActiveV,
    steps: Seq<StepV>,
    r: (ActiveV, Seq<StepV>),
) -> bool {
    &&& sound(p, h, r.0, steps)
    &&& good_steps(p, h, r.1)
    &&& r.0.steps == a.steps
    &&& r.0.subterms.len() == a.subterms.len()
    &&& r.0.patterns == a.patterns
}

proof fn lemma_rewritten_subterm(
    p: Apply,
    h: Assignment,
    a: ActiveV,
    steps: Seq<StepV>,
    pattern_id: usize,
    pattern: StepV,
    l: LiteralV,
    forwards: bool,
    s: TermV,
    t: TermV,
    k: int,
)
    requires
        is_application(p),
        sound(p, h, a, steps),
        valid(p, h, seq![l]),
        l.positive,
        s == l.left && t == l.right || s == l.right && t == l.left,
        0 <= k < a.subterms.len(),
    ensures
        good_found(
            p,
            h,
            a,
            steps,
            rewritten_subterm(a, pattern_id, pattern, forwards, s, t, k),
        ),
{
    let info = a.subterms[k];
    assert(good_subterm(p, h, steps, info));
    let eqs = seq![(s, partnered(info.term))];
    if unified(eqs) is Some {
        let r = RewriteV { pattern_id, forwards, term: instance(t, unified(eqs)->0) };
        lemma_unified_pattern(p, h, l, s, t, info.term);
        lemma_rewrite_edge(p, h, info.term, r, Some(info.inspiration_id));
        lemma_location_rewrites(
            p,
            h,
            a,
            steps,
            pattern_id,
            pattern,
            info.term,
            info.locations,
            forwards,
            r.term,
            info.locations.len(),
        );
        let more = SubtermV { rewrites: info.rewrites.push(r), ..info };
        assert(good_subterm(p, h, steps, more));
        let b = rewritten_subterm(a, pattern_id, pattern, forwards, s, t, k).0;
        assert(b.subterms == a.subterms.update(k, more));
        assert forall|i: int| 0 <= i < b.subterms.len() implies good_subterm(
            p,
            h,
            steps,
            #[trigger] b.subterms[i],
        ) by {
            if i != k {
                assert(b.subterms[i] == a.subterms[i]);
            }
        }
    }
}

proof fn lemma_rewritten_subterms(
    p: Apply,
    h: Assignment,
    a: ActiveV,
    steps: Seq<StepV>,
    pattern_id: usize,
    pattern: StepV,
    l: LiteralV,
    forwards: bool,
    s: TermV,
    t: TermV,
    n: nat,
)
    requires
        is_application(p),
        sound(p, h, a, steps),
        valid(p, h, seq![l]),
        l.positive,
        s == l.left && t == l.right || s == l.right && t == l.left,
        n <= a.subterms.len(),
    ensures
        good_found(
            p,
            h,
            a,
            steps,
            rewritten_subterms(a, pattern_id, pattern, forwards, s, t, n),
        ),
    decreases n,
{
    if n > 0 {
        lemma_rewritten_subterms(
            p,
            h,
            a,
            steps,
            pattern_id,
            pattern,
            l,
            forwards,
            s,
            t,
            (n - 1) as nat,
        );
        let b = rewritten_subterms(a, pattern_id, pattern, forwards, s, t, (n - 1) as nat).0;
        lemma_rewritten_subterm(p, h, b, steps, pattern_id, pattern, l, forwards, s, t, n - 1);
    }
}

/// What comes of a literal as a pattern for rewriting holds.
proof fn lemma_rewritten_pattern(
    p: Apply,
    h: Assignment,
    a: ActiveV,
    steps: Seq<StepV>,
    pattern_id: usize,
    pattern: StepV,
)
    requires
        is_application(p),
        sound(p, h, a, steps),
        pattern.clause.literals.len() == 1,
        valid(p, h, pattern.clause.literals),
        pattern.clause.literals[0].positive,
    ensures
        good_found(p, h, a, steps, rewritten_pattern(a, pattern_id, pattern)),
{
    let l = pattern.clause.literals[0];
    assert(pattern.clause.literals =~= seq![l]);
    let n = a.subterms.len();
    lemma_rewritten_subterms(p, h, a, steps, pattern_id, pattern, l, true, l.left, l.right, n);
    let b = rewritten_from(a, pattern_id, pattern, true, l.left, l.right).0;
    lemma_rewritten_subterms(p, h, b, steps, pattern_id, pattern, l, false, l.right, l.left, n);
}

/// What comes of a literal that is activated holds.
proof fn lemma_activated_literal(
    p: Apply,
    h: Assignment,
    a: ActiveV,
    steps: Seq<StepV>,
    step: StepV,
)
    requires
        is_application(p),
        sound(p, h, a, steps),
        a.steps.len() <= usize::MAX,
        steps == a.steps.push(step),
        step.clause.literals.len() == 1,
        small_step(step),
    ensures
        ({
            let (b, found) = activated_literal(a, step);
            sound(p, h, b, steps) && good_steps(p, h, found) && b.steps == a.steps
        }),
{
    let id = a.steps.len() as usize;
    let l = step.clause.literals[0];
    assert(steps[id as int] == step);
    assert(good_step(p, h, step));
    assert(step.clause.literals =~= seq![l]);
    let edge = EdgeV {
        left: l.left,
        right: l.right,
        pattern_id: id,
        inspiration_id: None,
        equal: l.positive,
    };
    let c = ActiveV { graph: a.graph.push(edge), ..a };
    let b = if l.has(|x: Atom| is_var(x)) {
        a
    } else {
        assert(concrete(l.left) && concrete(l.right));
        if l.positive {
            assert forall|w: Assignment| agree(h, w) implies #[trigger] value(p, w, l.left)
                == value(p, w, l.right) by {
                lemma_single(p, h, w, l);
            }
        } else {
            lemma_single(p, h, h, l);
        }
        assert(good_edge(p, h, edge));
        assert(sound(p, h, c, steps));
        lemma_rewritten_target(p, h, c, steps, id);
        rewritten_target(c, id, step).0
    };
    assert(sound(p, h, b, steps));
    if l.positive && !(step.rule is Rewrite) {
        lemma_rewritten_pattern(p, h, b, steps, id, step);
    }
}

/// What an active set knows still holds when it is about to get one more step.
proof fn lemma_about_to_get(p: Apply, h: Assignment, a: ActiveV, step: StepV)
    requires
        sound(p, h, a, a.steps),
        good_step(p, h, step),
    ensures
        sound(p, h, a, a.steps.push(step)),
{
    let steps = a.steps.push(step);
    assert(a.steps =~= steps.take(a.steps.len() as int));
    assert forall|k: int| 0 <= k < a.subterms.len() implies good_subterm(
        p,
        h,
        steps,
        #[trigger] a.subterms[k],
    ) by {
        let s = a.subterms[k];
        assert(good_subterm(p, h, a.steps, s));
        assert forall|i: int| 0 <= i < s.locations.len() implies good_location(
            steps,
            #[trigger] s.locations[i],
            s.term,
        ) by {
            assert(good_location(a.steps, s.locations[i], s.term));
        }
    }
}

proof fn lemma_with_targets(a: ActiveV, step: StepV, n: nat)
    requires
        good_targets(a.steps, a.positive_targets, true),
        good_targets(a.steps, a.negative_targets, false),
        a.steps.len() <= usize::MAX,
        n <= step.clause.literals.len() <= usize::MAX,
    ensures
        ({
            let b = with_targets(a, a.steps.len() as usize, step.clause.literals, n);
            let steps = a.steps.push(step);
            &&& good_targets(steps, b.positive_targets, true)
            &&& good_targets(steps, b.negative_targets, false)
            &&& b == ActiveV {
                positive_targets: b.positive_targets,
                negative_targets: b.negative_targets,
                ..a
            }
        }),
    decreases n,
{
    let steps = a.steps.push(step);
    if n == 0 {
        assert forall|i: int| 0 <= i < a.positive_targets.len() implies (
        #[trigger] a.positive_targets[i]).step_index < a.steps.len() by {}
        assert forall|i: int| 0 <= i < a.negative_targets.len() implies (
        #[trigger] a.negative_targets[i]).step_index < a.steps.len() by {}
        assert forall|i: int| 0 <= i < a.steps.len() implies steps[i] == #[trigger] a.steps[i] by {}
    } else {
        lemma_with_targets(a, step, (n - 1) as nat);
        assert(steps[a.steps.len() as int] == step);
    }
}

proof fn lemma_er_steps(
    p: Apply,
    h: Assignment,
    id: usize,
    step: StepV,
    rs: Seq<ResolvedV>,
    n: nat,
)
    requires
        is_application(p),
        valid(p, h, step.clause.literals),
        rs == resolutions(step.clause.literals, step.clause.literals.len()),
        n <= rs.len(),
    ensures
        good_steps(p, h, er_steps(id, step, rs, n)),
    decreases n,
{
    if n > 0 {
        lemma_er_steps(p, h, id, step, rs, (n - 1) as nat);
        let ls = step.clause.literals;
        let r = rs[n - 1];
        assert(rs.contains(r));
        law_equality_resolution_is_sound(p, h, ls, ls.len(), r);
        law_negative_literals_come_first(r.1);
    }
}

proof fn lemma_fe_steps(p: Apply, h: Assignment, id: usize, step: StepV, n: nat)
    requires
        valid(p, h, step.clause.literals),
        small_step(step),
        n <= step.clause.literals.len(),
    ensures
        good_steps(p, h, fe_steps(id, step, n)),
    decreases n,
{
    if n > 0 {
        lemma_fe_steps(p, h, id, step, (n - 1) as nat);
        let ls = step.clause.literals;
        if first_positive(ls, 0) >= n && fe_step(id, step, n - 1) is Some {
            lemma_first_positive(ls, 0, n - 1);
            assert(small_term(ls[n - 1].left));
            law_function_elimination_is_sound(p, h, id, step, n - 1);
            let a = ls[n - 1].left.args;
            let b = ls[n - 1].right.args;
            let j = only_difference(a, b, 0, None)->0 as int;
            law_negative_literals_come_first(ls.update(n - 1, oriented(false, a[j], b[j]).0));
        }
    }
}

proof fn lemma_ef_step(
    p: Apply,
    h: Assignment,
    id: usize,
    step: StepV,
    k: int,
    st_forwards: bool,
    uv_forwards: bool,
)
    requires
        is_application(p),
        good_step(p, h, step),
        0 < k < step.clause.literals.len(),
        step.clause.literals[0].positive,
        ef_step(id, step, k, st_forwards, uv_forwards) is Some,
    ensures
        good_step(p, h, ef_step(id, step, k, st_forwards, uv_forwards)->0),
{
    let ls = step.clause.literals;
    assert(ls[k].positive);
    law_equality_factoring_is_sound(p, h, id, step, k, st_forwards, uv_forwards);
    let st = sides(ls[0], st_forwards);
    let uv = sides(ls[k], uv_forwards);
    let b = unified(seq![(st.0, uv.0)])->0;
    let tv = oriented(false, instance(st.1, b), instance(uv.1, b)).0;
    let same = oriented(true, instance(uv.0, b), instance(uv.1, b)).0;
    law_negative_literals_come_first(seq![tv, same] + factored_rest(ls, b, k, ls.len()));
}

proof fn lemma_ef_steps(
    p: Apply,
    h: Assignment,
    id: usize,
    step: StepV,
    st_forwards: bool,
    n: nat,
)
    requires
        is_application(p),
        good_step(p, h, step),
        step.clause.literals.len() > 0,
        step.clause.literals[0].positive,
        n <= step.clause.literals.len(),
    ensures
        good_steps(p, h, ef_steps(id, step, st_forwards, n)),
    decreases n,
{
    if n > 1 {
        lemma_ef_steps(p, h, id, step, st_forwards, (n - 1) as nat);
        if ef_step(id, step, n - 1, st_forwards, true) is Some {
            lemma_ef_step(p, h, id, step, n - 1, st_forwards, true);
        }
        if ef_step(id, step, n - 1, st_forwards, false) is Some {
            lemma_ef_step(p, h, id, step, n - 1, st_forwards, false);
        }
    }
}

proof fn lemma_resolved(
    p: Apply,
    h: Assignment,
    short_id: usize,
    short: StepV,
    short_index: int,
    long_id: usize,
    long: StepV,
    long_index: int,
    flipped: bool,
)
    requires
        is_application(p),
        good_step(p, h, short),
        good_step(p, h, long),
        0 <= short_index < short.clause.literals.len(),
        0 <= long_index < long.clause.literals.len(),
        short.clause.literals[short_index].positive != long.clause.literals[long_index].positive,
    ensures
        match resolved(short_id, short, short_index, long_id, long, long_index, flipped) {
            Some(r) => good_step(p, h, r),
            None => true,
        },
{
    if resolved(short_id, short, short_index, long_id, long, long_index, flipped) is Some {
        law_resolution_is_sound(
            p,
            h,
            short_id,
            short,
            short_index,
            long_id,
            long,
            long_index,
            flipped,
        );
        let ss = short.clause.literals;
        let ls = long.clause.literals;
        let (a, b) = if flipped {
            (ls[long_index].right, ls[long_index].left)
        } else {
            (ls[long_index].left, ls[long_index].right)
        };
        let s = unified(
            seq![
                (ss[short_index].right, partnered(b)),
                (ss[short_index].left, partnered(a)),
            ],
        )->0;
        law_negative_literals_come_first(
            resolved_literals(ls, s, long_index, short_id, flipped, ls.len()).0,
        );
    }
}

proof fn lemma_target_resolutions(
    p: Apply,
    h: Assignment,
    a: ActiveV,
    step: StepV,
    i: int,
    targets: Seq<ResolutionTarget>,
    n: nat,
)
    requires
        is_application(p),
        good_steps(p, h, a.steps),
        good_step(p, h, step),
        0 <= i < step.clause.literals.len(),
        good_targets(a.steps, targets, !step.clause.literals[i].positive),
        n <= targets.len(),
    ensures
        good_steps(p, h, target_resolutions(a, step, i, targets, n)),
    decreases n,
{
    if n > 0 {
        lemma_target_resolutions(p, h, a, step, i, targets, (n - 1) as nat);
        let t = targets[n - 1];
        let other = a.steps[t.step_index as int];
        let k = t.literal_index as int;
        let id = a.steps.len() as usize;
        assert(good_step(p, h, other));
        lemma_resolved(p, h, id, step, i, t.step_index, other, k, !t.left);
        lemma_resolved(p, h, t.step_index, other, k, id, step, i, !t.left);
    }
}

proof fn lemma_all_resolutions(p: Apply, h: Assignment, a: ActiveV, step: StepV, n: nat)
    requires
        is_application(p),
        sound(p, h, a, a.steps),
        good_step(p, h, step),
        n <= step.clause.literals.len(),
    ensures
        good_steps(p, h, all_resolutions(a, step, n)),
    decreases n,
{
    if n > 0 {
        lemma_all_resolutions(p, h, a, step, (n - 1) as nat);
        let targets = targets_for(a, step.clause.literals[n - 1]);
        lemma_target_resolutions(p, h, a, step, n - 1, targets, targets.len());
    }
}

/// Activation is sound: where all that an active set knows holds, and a step too, all that is
/// found from them holds, and all that the set then knows.
pub proof fn law_activation_is_sound(p: Apply, h: Assignment, a: ActiveV, step: StepV)
    requires
        is_application(p),
        sound(p, h, a, a.steps),
        good_step(p, h, step),
        a.steps.len() <= usize::MAX,
        small_step(step),
    ensures
        ({
            let (b, found) = activated(a, step);
            sound(p, h, b, b.steps) && good_steps(p, h, found)
        }),
{
    let id = a.steps.len() as usize;
    let ls = step.clause.literals;
    let steps = a.steps.push(step);
    lemma_about_to_get(p, h, a, step);
    let b = if ls.len() == 1 {
        lemma_activated_literal(p, h, a, steps, step);
        activated_literal(a, step).0
    } else {
        a
    };
    let rs = resolutions(ls, ls.len());
    lemma_er_steps(p, h, id, step, rs, rs.len());
    lemma_fe_steps(p, h, id, step, ls.len());
    if ls.len() > 0 && ls[0].positive {
        lemma_ef_steps(p, h, id, step, true, ls.len());
        lemma_ef_steps(p, h, id, step, false, ls.len());
    }
    lemma_all_resolutions(p, h, a, step, ls.len());
    assert(good_steps(p, h, equality_resolutions(id, step)));
    assert(good_steps(p, h, equality_factorings(id, step)));
    assert(good_steps(p, h, activated(a, step).1));
    lemma_with_targets(b, step, ls.len());
    let c = with_step(b, step);
    assert(c.steps == steps);
    assert(c.steps =~= steps.take(c.steps.len() as int));
}

} // verus!
