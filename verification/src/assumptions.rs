//! What a prover is given for a goal.

use vstd::prelude::*;

use crate::acorn_value::ValueV;
use crate::clause::ClauseV;
use crate::environment::{GoalContextV, GoalV};
use crate::goals::law_refuting_the_negation_proves_the_goal;
use crate::model::{is_true, ModelV};
use crate::normalizer::normalized;
use crate::passive_set::PassiveV;
use crate::proof_step::{StepV, Truthiness};
use crate::proposition::PropositionV;
use crate::prover::{
    assuming_all, assumption_steps, in_context, negated_goal, refutation, NormalizedGoalV, ProverV,
};

verus! {

/// Whether a prover has all the steps that another has, in the same order, before others.
pub open spec fn keeps_steps(p: ProverV, q: ProverV) -> bool {
    &&& p.passive.steps.len() <= q.passive.steps.len()
    &&& forall|i: int|
        0 <= i < p.passive.steps.len() ==> #[trigger] q.passive.steps[i] == p.passive.steps[i]
    &&& p.error is Some ==> q.error is Some
}

proof fn lemma_keeps(a: ProverV, b: ProverV, c: ProverV)
    requires
        keeps_steps(a, b),
        keeps_steps(b, c),
    ensures
        keeps_steps(a, c),
{
    assert forall|i: int| 0 <= i < a.passive.steps.len() implies #[trigger] c.passive.steps[i]
        == a.passive.steps[i] by {
        assert(b.passive.steps[i] == a.passive.steps[i]);
    }
}

proof fn lemma_with_all(s: PassiveV, more: Seq<StepV>, n: nat)
    requires
        n <= more.len(),
    ensures
        s.with_all(more, n).steps == s.steps + more.take(n as int),
    decreases n,
{
    if n > 0 {
        lemma_with_all(s, more, (n - 1) as nat);
        assert(s.with_all(more, n).steps =~= s.steps + more.take(n as int));
    } else {
        assert(s.steps + more.take(0) =~= s.steps);
    }
}

/// Whether a clause is among the steps of a prover, with a truthiness.
pub open spec fn has_clause(q: ProverV, c: ClauseV, t: Truthiness) -> bool {
    exists|j: int|
        0 <= j < q.passive.steps.len() && (#[trigger] q.passive.steps[j]).clause == c
            && q.passive.steps[j].truthiness == t
}

/// Whether each clause of a proposition is among the steps of a prover, as an assumption with a
/// truthiness; the clauses are those that it has for some normalizer.
pub open spec fn is_assumed(q: ProverV, before: ProverV, f: PropositionV, t: Truthiness) -> bool {
    match normalized(before.normalizer, f.value).1 {
        Some(cs) => forall|i: int| 0 <= i < cs.len() ==> has_clause(q, #[trigger] cs[i], t),
        None => q.error is Some,
    }
}

proof fn lemma_assuming(p: ProverV, f: PropositionV, t: Truthiness)
    ensures
        keeps_steps(p, p.assuming(f, t)),
        is_assumed(p.assuming(f, t), p, f, t),
{
    let q = p.assuming(f, t);
    if let Some(cs) = normalized(p.normalizer, f.value).1 {
        let steps = assumption_steps(f, t, cs);
        lemma_with_all(p.passive, steps, steps.len());
        assert(steps.take(steps.len() as int) =~= steps);
        assert(q.passive.steps == p.passive.steps + steps);
        assert forall|i: int| 0 <= i < cs.len() implies has_clause(q, #[trigger] cs[i], t) by {
            let j = p.passive.steps.len() + i;
            assert(q.passive.steps[j] == steps[i]);
        }
    }
}

proof fn lemma_assumed_later(
    q: ProverV,
    r: ProverV,
    before: ProverV,
    f: PropositionV,
    t: Truthiness,
)
    requires
        is_assumed(q, before, f, t),
        keeps_steps(q, r),
    ensures
        is_assumed(r, before, f, t),
{
    if let Some(cs) = normalized(before.normalizer, f.value).1 {
        assert forall|i: int| 0 <= i < cs.len() implies has_clause(r, #[trigger] cs[i], t) by {
            assert(has_clause(q, cs[i], t));
            let j = choose|j: int|
                0 <= j < q.passive.steps.len() && (#[trigger] q.passive.steps[j]).clause == cs[i]
                    && q.passive.steps[j].truthiness == t;
            assert(r.passive.steps[j] == q.passive.steps[j]);
        }
    }
}

proof fn lemma_assuming_all(p: ProverV, fs: Seq<PropositionV>, t: Truthiness, n: nat)
    requires
        n <= fs.len(),
    ensures
        keeps_steps(p, assuming_all(p, fs, t, n)),
        forall|i: int|
            0 <= i < n ==> is_assumed(
                assuming_all(p, fs, t, n),
                assuming_all(p, fs, t, i as nat),
                #[trigger] fs[i],
                t,
            ),
    decreases n,
{
    if n > 0 {
        let k = (n - 1) as nat;
        let q = assuming_all(p, fs, t, k);
        let r = assuming_all(p, fs, t, n);
        lemma_assuming_all(p, fs, t, k);
        lemma_assuming(q, fs[k as int], t);
        lemma_keeps(p, q, r);
        assert forall|i: int| 0 <= i < n implies is_assumed(
            r,
            assuming_all(p, fs, t, i as nat),
            #[trigger] fs[i],
            t,
        ) by {
            if i < k {
                lemma_assumed_later(q, r, assuming_all(p, fs, t, i as nat), fs[i], t);
            }
        }
    }
}

/// The prover with the facts from the top level.
pub open spec fn with_globals(p: ProverV, c: GoalContextV, n: nat) -> ProverV {
    assuming_all(p, c.global_facts, Truthiness::Factual, n)
}

/// Every fact in the context of a goal is assumed: those from the top level as facts, those from
/// the blocks around the goal as hypotheses. None is left out, and none changes place.
pub proof fn law_all_facts_are_assumed(p: ProverV, c: GoalContextV)
    ensures
        keeps_steps(p, in_context(p, c)),
        forall|i: int|
            0 <= i < c.global_facts.len() ==> is_assumed(
                in_context(p, c),
                with_globals(p, c, i as nat),
                #[trigger] c.global_facts[i],
                Truthiness::Factual,
            ),
        forall|i: int|
            0 <= i < c.local_facts.len() ==> is_assumed(
                in_context(p, c),
                assuming_all(
                    with_globals(p, c, c.global_facts.len()),
                    c.local_facts,
                    Truthiness::Hypothetical,
                    i as nat,
                ),
                #[trigger] c.local_facts[i],
                Truthiness::Hypothetical,
            ),
{
    let g = with_globals(p, c, c.global_facts.len());
    let l = assuming_all(g, c.local_facts, Truthiness::Hypothetical, c.local_facts.len());
    let q = in_context(p, c);
    lemma_assuming_all(p, c.global_facts, Truthiness::Factual, c.global_facts.len());
    lemma_assuming_all(g, c.local_facts, Truthiness::Hypothetical, c.local_facts.len());
    lemma_goal(l, c.goal, c.includes_explicit_false);
    lemma_keeps(g, l, q);
    lemma_keeps(p, g, q);
    assert forall|i: int| 0 <= i < c.global_facts.len() implies is_assumed(
        q,
        with_globals(p, c, i as nat),
        #[trigger] c.global_facts[i],
        Truthiness::Factual,
    ) by {
        lemma_assumed_later(
            g,
            q,
            with_globals(p, c, i as nat),
            c.global_facts[i],
            Truthiness::Factual,
        );
    }
    assert forall|i: int| 0 <= i < c.local_facts.len() implies is_assumed(
        q,
        assuming_all(g, c.local_facts, Truthiness::Hypothetical, i as nat),
        #[trigger] c.local_facts[i],
        Truthiness::Hypothetical,
    ) by {
        lemma_assumed_later(
            l,
            q,
            assuming_all(g, c.local_facts, Truthiness::Hypothetical, i as nat),
            c.local_facts[i],
            Truthiness::Hypothetical,
        );
    }
}

proof fn lemma_goal(p: ProverV, goal: GoalV, okay: bool)
    ensures
        keeps_steps(p, p.with_goal(goal, okay)),
{
    if let GoalV::Prove(prop) = goal {
        let (hypo, counter) = negated_goal(prop.value);
        let assumed = match hypo {
            Some(h) => p.assuming(
                PropositionV { value: h, ..prop },
                Truthiness::Hypothetical,
            ),
            None => p,
        };
        if let Some(h) = hypo {
            lemma_assuming(p, PropositionV { value: h, ..prop }, Truthiness::Hypothetical);
        }
        let against = refutation(prop, counter);
        lemma_assuming(assumed, against, Truthiness::Counterfactual);
        lemma_keeps(p, assumed, assumed.assuming(against, Truthiness::Counterfactual));
    }
}

/// For a goal to prove, its hypothesis is assumed as such and the opposite of its conclusion
/// against the facts: together they say that the goal does not hold.
pub proof fn law_goals_are_assumed_not_to_hold(
    p: ProverV,
    goal: PropositionV,
    okay: bool,
    m: ModelV,
    st: Seq<int>,
) -> (r: (ValueV, ValueV, ProverV))
    ensures
        ({
            let (hypothesis, counter, between) = r;
            let q = p.with_goal(GoalV::Prove(goal), okay);
            &&& is_true(goal.value, m, st) <==> !(is_true(hypothesis, m, st) && is_true(
                counter,
                m,
                st,
            ))
            &&& hypothesis == ValueV::Bool(true) || is_assumed(
                q,
                p,
                PropositionV { value: hypothesis, ..goal },
                Truthiness::Hypothetical,
            )
            &&& exists|f: PropositionV|
                f.value == counter && #[trigger] is_assumed(
                    q,
                    between,
                    f,
                    Truthiness::Counterfactual,
                )
            &&& q.goal == Some(NormalizedGoalV::ProveNegated(counter, okay))
        }),
{
    let (hypo, counter) = negated_goal(goal.value);
    law_refuting_the_negation_proves_the_goal(goal.value, m, st);
    let q = p.with_goal(GoalV::Prove(goal), okay);
    let against = refutation(goal, counter);
    match hypo {
        Some(h) => {
            let f = PropositionV { value: h, ..goal };
            let between = p.assuming(f, Truthiness::Hypothetical);
            let last = between.assuming(against, Truthiness::Counterfactual);
            lemma_assuming(p, f, Truthiness::Hypothetical);
            lemma_assuming(between, against, Truthiness::Counterfactual);
            lemma_assumed_later(between, last, p, f, Truthiness::Hypothetical);
            assert(keeps_steps(last, q));
            lemma_assumed_later(last, q, p, f, Truthiness::Hypothetical);
            lemma_assumed_later(last, q, between, against, Truthiness::Counterfactual);
            assert(against.value == counter);
            (h, counter, between)
        },
        None => {
            let last = p.assuming(against, Truthiness::Counterfactual);
            lemma_assuming(p, against, Truthiness::Counterfactual);
            assert(keeps_steps(last, q));
            lemma_assumed_later(last, q, p, against, Truthiness::Counterfactual);
            assert(against.value == counter);
            (ValueV::Bool(true), counter, p)
        },
    }
}

} // verus!
