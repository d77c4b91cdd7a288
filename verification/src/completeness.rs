//! No inference that the rules allow is missed.

use vstd::prelude::*;

use crate::active_set::{
    activated, all_resolutions, ef_step, ef_steps, er_step, er_steps, equality_factorings,
    equality_resolutions, fe_step, fe_steps, target_resolution, target_resolutions, targets_for,
    with_some, with_targets, ActiveV, ResolutionTarget,
};
use crate::clause::{first_positive, resolutions, ResolvedV};
use crate::literal::LiteralV;
use crate::proof_step::StepV;
use crate::unifier::unified;

verus! {

proof fn lemma_kept<T>(s: Seq<T>, x: Option<T>, y: T)
    ensures
        s.contains(y) ==> with_some(s, x).contains(y),
        x == Some(y) ==> with_some(s, x).contains(y),
{
    if s.contains(y) {
        let i = choose|i: int| 0 <= i < s.len() && s[i] == y;
        assert(with_some(s, x)[i] == y);
    }
    if x == Some(y) {
        assert(with_some(s, x)[s.len() as int] == y);
    }
}

proof fn lemma_joined<T>(s: Seq<T>, t: Seq<T>, y: T)
    ensures
        s.contains(y) ==> (s + t).contains(y),
        t.contains(y) ==> (s + t).contains(y),
{
    if s.contains(y) {
        let i = choose|i: int| 0 <= i < s.len() && s[i] == y;
        assert((s + t)[i] == y);
    }
    if t.contains(y) {
        let i = choose|i: int| 0 <= i < t.len() && t[i] == y;
        assert((s + t)[s.len() + i] == y);
    }
}

proof fn lemma_target(
    a: ActiveV,
    step: StepV,
    i: int,
    targets: Seq<ResolutionTarget>,
    n: nat,
    j: int,
    s: StepV,
)
    requires
        0 <= j < n <= targets.len(),
        target_resolution(a, step, i, targets[j]) == Some(s),
    ensures
        target_resolutions(a, step, i, targets, n).contains(s),
    decreases n,
{
    let before = target_resolutions(a, step, i, targets, (n - 1) as nat);
    lemma_kept(before, target_resolution(a, step, i, targets[n - 1]), s);
    if j < n - 1 {
        lemma_target(a, step, i, targets, (n - 1) as nat, j, s);
    }
}

proof fn lemma_resolution(a: ActiveV, step: StepV, n: nat, i: int, j: int, s: StepV)
    requires
        0 <= i < n <= step.clause.literals.len(),
        0 <= j < targets_for(a, step.clause.literals[i]).len(),
        target_resolution(a, step, i, targets_for(a, step.clause.literals[i])[j]) == Some(s),
    ensures
        all_resolutions(a, step, n).contains(s),
    decreases n,
{
    let targets = targets_for(a, step.clause.literals[n - 1]);
    lemma_joined(
        all_resolutions(a, step, (n - 1) as nat),
        target_resolutions(a, step, n - 1, targets, targets.len()),
        s,
    );
    if i < n - 1 {
        lemma_resolution(a, step, (n - 1) as nat, i, j, s);
    } else {
        lemma_target(a, step, i, targets, targets.len(), j, s);
    }
}

proof fn lemma_er(id: usize, step: StepV, rs: Seq<ResolvedV>, n: nat, j: int, s: StepV)
    requires
        0 <= j < n <= rs.len(),
        er_step(id, step, rs[j]) == Some(s),
    ensures
        er_steps(id, step, rs, n).contains(s),
    decreases n,
{
    lemma_kept(er_steps(id, step, rs, (n - 1) as nat), er_step(id, step, rs[n - 1]), s);
    if j < n - 1 {
        lemma_er(id, step, rs, (n - 1) as nat, j, s);
    }
}

/// Each inequality before the first equality between terms that can be made the same has its way
/// to be resolved away.
pub proof fn law_every_inequality_is_tried(ls: Seq<LiteralV>, n: nat, i: int) -> (j: int)
    requires
        0 <= i < n <= ls.len(),
        n <= first_positive(ls, 0),
        unified(seq![(ls[i].left, ls[i].right)]) is Some,
    ensures
        0 <= j < resolutions(ls, n).len(),
        resolutions(ls, n)[j].0 == i as usize,
    decreases n,
{
    if i < n - 1 {
        let j = law_every_inequality_is_tried(ls, (n - 1) as nat, i);
        assert(resolutions(ls, n)[j] == resolutions(ls, (n - 1) as nat)[j]);
        j
    } else {
        resolutions(ls, (n - 1) as nat).len() as int
    }
}

proof fn lemma_fe(id: usize, step: StepV, n: nat, i: int, s: StepV)
    requires
        0 <= i < n <= step.clause.literals.len(),
        i < first_positive(step.clause.literals, 0),
        fe_step(id, step, i) == Some(s),
    ensures
        fe_steps(id, step, n).contains(s),
    decreases n,
{
    lemma_kept(fe_steps(id, step, (n - 1) as nat), fe_step(id, step, n - 1), s);
    if i < n - 1 {
        lemma_fe(id, step, (n - 1) as nat, i, s);
    }
}

#[verifier::rlimit(60)]
proof fn lemma_ef(id: usize, step: StepV, st: bool, n: nat, k: int, uv: bool, s: StepV)
    requires
        1 <= k < n <= step.clause.literals.len(),
        ef_step(id, step, k, st, uv) == Some(s),
    ensures
        ef_steps(id, step, st, n).contains(s),
    decreases n,
{
    let before = ef_steps(id, step, st, (n - 1) as nat);
    let one = ef_step(id, step, n - 1, st, true);
    let two = ef_step(id, step, n - 1, st, false);
    lemma_kept(before, one, s);
    lemma_kept(with_some(before, one), two, s);
    assert(ef_steps(id, step, st, n) == with_some(with_some(before, one), two));
    if k < n - 1 {
        lemma_ef(id, step, st, (n - 1) as nat, k, uv, s);
    } else if uv {
        assert(one == Some(s));
    } else {
        assert(two == Some(s));
    }
}

/// When a step is activated, nothing is missed that can be inferred from it alone, or by
/// resolution from it and an active step: each literal is tried with each target of the opposite
/// sign, each inequality is tried to be resolved away and to lose its function, and the first
/// literal, where it is an equality, is factored with each other one in all four ways.
pub proof fn law_no_inference_is_missed(a: ActiveV, step: StepV)
    ensures
        ({
            let ls = step.clause.literals;
            let id = a.steps.len() as usize;
            let found = activated(a, step).1;
            &&& forall|i: int, j: int, s: StepV|
                #![trigger
                    target_resolution(a, step, i, targets_for(a, ls[i])[j]),
                    found.contains(s)]
                0 <= i < ls.len() && 0 <= j < targets_for(a, ls[i]).len() && target_resolution(
                    a,
                    step,
                    i,
                    targets_for(a, ls[i])[j],
                ) == Some(s) ==> found.contains(s)
            &&& forall|j: int, s: StepV|
                #![trigger er_step(id, step, resolutions(ls, ls.len())[j]), found.contains(s)]
                0 <= j < resolutions(ls, ls.len()).len() && er_step(
                    id,
                    step,
                    resolutions(ls, ls.len())[j],
                ) == Some(s) ==> found.contains(s)
            &&& forall|i: int, s: StepV|
                #![trigger fe_step(id, step, i), found.contains(s)]
                0 <= i < first_positive(ls, 0) && i < ls.len() && fe_step(id, step, i) == Some(s)
                    ==> found.contains(s)
            &&& forall|k: int, st: bool, uv: bool, s: StepV|
                #![trigger ef_step(id, step, k, st, uv), found.contains(s)]
                1 <= k < ls.len() && ls[0].positive && ef_step(id, step, k, st, uv) == Some(s)
                    ==> found.contains(s)
        }),
{
    let ls = step.clause.literals;
    let id = a.steps.len() as usize;
    let found = activated(a, step).1;
    let er = equality_resolutions(id, step);
    let ef = equality_factorings(id, step);
    let fe = fe_steps(id, step, ls.len());
    let re = all_resolutions(a, step, ls.len());
    assert forall|s: StepV|
        er.contains(s) || ef.contains(s) || fe.contains(s) || re.contains(s) implies #[trigger]
    found.contains(s) by {
        lemma_joined(er, ef, s);
        lemma_joined(er + ef, fe, s);
        lemma_joined(er + ef + fe, re, s);
        let more = found.skip((er + ef + fe + re).len() as int);
        assert(found =~= (er + ef + fe + re) + more);
        lemma_joined(er + ef + fe + re, more, s);
    }
    assert forall|i: int, j: int, s: StepV|
        #![trigger target_resolution(a, step, i, targets_for(a, ls[i])[j]), found.contains(s)]
        0 <= i < ls.len() && 0 <= j < targets_for(a, ls[i]).len() && target_resolution(
            a,
            step,
            i,
            targets_for(a, ls[i])[j],
        ) == Some(s) implies found.contains(s) by {
        lemma_resolution(a, step, ls.len(), i, j, s);
    }
    assert forall|j: int, s: StepV|
        #![trigger er_step(id, step, resolutions(ls, ls.len())[j]), found.contains(s)]
        0 <= j < resolutions(ls, ls.len()).len() && er_step(
            id,
            step,
            resolutions(ls, ls.len())[j],
        ) == Some(s) implies found.contains(s) by {
        let rs = resolutions(ls, ls.len());
        lemma_er(id, step, rs, rs.len(), j, s);
    }
    assert forall|i: int, s: StepV|
        #![trigger fe_step(id, step, i), found.contains(s)]
        0 <= i < first_positive(ls, 0) && i < ls.len() && fe_step(id, step, i) == Some(
            s,
        ) implies found.contains(s) by {
        lemma_fe(id, step, ls.len(), i, s);
    }
    assert forall|k: int, st: bool, uv: bool, s: StepV|
        #![trigger ef_step(id, step, k, st, uv), found.contains(s)]
        1 <= k < ls.len() && ls[0].positive && ef_step(id, step, k, st, uv) == Some(
            s,
        ) implies found.contains(s) by {
        lemma_ef(id, step, st, ls.len(), k, uv, s);
        lemma_joined(
            ef_steps(id, step, true, ls.len()),
            ef_steps(id, step, false, ls.len()),
            s,
        );
    }
}

/// Whether what was a target stays one.
pub open spec fn keeps_targets(a: ActiveV, b: ActiveV) -> bool {
    &&& forall|t: ResolutionTarget| #[trigger]
        a.positive_targets.contains(t) ==> b.positive_targets.contains(t)
    &&& forall|t: ResolutionTarget| #[trigger]
        a.negative_targets.contains(t) ==> b.negative_targets.contains(t)
}

proof fn lemma_pushed(s: Seq<ResolutionTarget>, x: ResolutionTarget, y: ResolutionTarget)
    ensures
        forall|t: ResolutionTarget| #[trigger] s.contains(t) ==> s.push(x).push(y).contains(t),
        s.push(x).push(y).contains(x),
        s.push(x).push(y).contains(y),
{
    let r = s.push(x).push(y);
    assert forall|t: ResolutionTarget| #[trigger] s.contains(t) implies r.contains(t) by {
        let i = choose|i: int| 0 <= i < s.len() && s[i] == t;
        assert(r[i] == t);
    }
    assert(r[s.len() as int] == x);
    assert(r[r.len() - 1] == y);
}

/// Whether a literal of a step is, from one side, among the targets of its sign.
pub open spec fn is_target(a: ActiveV, id: usize, ls: Seq<LiteralV>, i: int, left: bool) -> bool {
    let t = ResolutionTarget { step_index: id, literal_index: i as usize, left };
    if ls[i].positive {
        a.positive_targets.contains(t)
    } else {
        a.negative_targets.contains(t)
    }
}

/// Each literal of a step that becomes active is, from both sides, a target for later steps, among
/// the targets of its sign; and what was a target before stays one.
pub proof fn law_every_literal_becomes_a_target(
    a: ActiveV,
    id: usize,
    ls: Seq<LiteralV>,
    n: nat,
)
    requires
        n <= ls.len(),
    ensures
        keeps_targets(a, with_targets(a, id, ls, n)),
        forall|i: int, left: bool|
            0 <= i < n ==> #[trigger] is_target(with_targets(a, id, ls, n), id, ls, i, left),
    decreases n,
{
    if n > 0 {
        let b = with_targets(a, id, ls, (n - 1) as nat);
        let c = with_targets(a, id, ls, n);
        law_every_literal_becomes_a_target(a, id, ls, (n - 1) as nat);
        let x = ResolutionTarget { step_index: id, literal_index: (n - 1) as usize, left: true };
        let y = ResolutionTarget { step_index: id, literal_index: (n - 1) as usize, left: false };
        lemma_pushed(b.positive_targets, x, y);
        lemma_pushed(b.negative_targets, x, y);
        assert(keeps_targets(b, c));
        assert forall|i: int, left: bool| 0 <= i < n implies #[trigger] is_target(
            c,
            id,
            ls,
            i,
            left,
        ) by {
            if i < n - 1 {
                assert(is_target(b, id, ls, i, left));
            } else if left {
                assert(x.left);
            } else {
                assert(!y.left);
            }
        }
    }
}

} // verus!
