//! The verdict of a search is sound: where all that is assumed can hold together, no contradiction
//! is found.

use vstd::prelude::*;

use crate::active_set::{
    activated, evaluated, filtered, generalization, is_instance, simplified, ActiveV,
};
use crate::acorn_value::ValueV;
use crate::literal::LiteralV;
use crate::logic::{cnf, dequantified, expanded, negation_inside};
use crate::meaning::{
    agree, holds, holds_any, is_application, law_clauses_keep_their_meaning, lemma_filled, mapped,
    valid, value, Apply, Assignment,
};
use crate::normalizer::{
    clauses_for, literals_for, normalized, skolemized, NormalizerV, EXPANSION_LIMIT,
};
use crate::passive_set::{
    law_best_is_not_beaten, lemma_opposite_step, opposite, opposite_step, shortened, unchanged,
    PassiveV,
};
use crate::proof_step::{small_step, StepV, Truthiness};
use crate::proposition::PropositionV;
use crate::prover::{
    all_in_range, assumption_steps, explored, goes_on, in_range, is_search, settled, OutcomeV,
    ProverV,
};
use crate::refutation::{
    good_edge, good_literals, good_step, good_steps, law_activation_is_sound,
    law_negative_literals_come_first, lemma_mapped_agrees, lemma_matched_vars, lemma_single,
    signed, sound,
};
use crate::term::TermV;
use crate::term_graph::{contradicts, leads, EdgeV};
use crate::unifier::{law_matched_terms_are_instances, lemma_matched_extends, matched};

verus! {

/// An instance of a literal that holds has equal sides just if the literal is an equality.
proof fn lemma_instance_literal(
    p: Apply,
    h: Assignment,
    w: Assignment,
    g: LiteralV,
    l: LiteralV,
    flipped: bool,
)
    requires
        is_application(p),
        valid(p, h, seq![g]),
        agree(h, w),
        is_instance(g, l, flipped),
    ensures
        (value(p, w, l.left) == value(p, w, l.right)) == g.positive,
{
    let (a, b) = if flipped {
        (l.right, l.left)
    } else {
        (l.left, l.right)
    };
    let m1 = matched(g.left, a, Map::empty())->0;
    let m = matched(g.right, b, m1)->0;
    lemma_matched_vars(g.left, a, Map::empty());
    lemma_matched_vars(g.right, b, m1);
    lemma_matched_extends(g.right, b, m1);
    law_matched_terms_are_instances(g.left, a, Map::empty(), m);
    law_matched_terms_are_instances(g.right, b, m1, m);
    lemma_filled(p, w, g.left, m);
    lemma_filled(p, w, g.right, m);
    lemma_mapped_agrees(p, h, w, m);
    lemma_single(p, h, mapped(p, w, m), g);
}

proof fn lemma_generalization(
    p: Apply,
    h: Assignment,
    w: Assignment,
    s: Seq<(LiteralV, usize)>,
    l: LiteralV,
    i: nat,
)
    requires
        is_application(p),
        good_literals(p, h, s),
        agree(h, w),
    ensures
        generalization(s, l, i) matches Some(r) ==> (value(p, w, l.left) == value(p, w, l.right))
            == r.0,
    decreases s.len() - i,
{
    if i < s.len() {
        let g = s[i as int].0;
        assert(valid(p, h, seq![g]));
        if is_instance(g, l, false) {
            lemma_instance_literal(p, h, w, g, l, false);
        } else if is_instance(g, l, true) {
            lemma_instance_literal(p, h, w, g, l, true);
        } else {
            lemma_generalization(p, h, w, s, l, i + 1);
        }
    }
}

proof fn lemma_filtered(
    p: Apply,
    h: Assignment,
    w: Assignment,
    a: ActiveV,
    ls: Seq<LiteralV>,
    n: nat,
    k: int,
)
    requires
        is_application(p),
        good_literals(p, h, a.literal_set),
        agree(h, w),
        0 <= k < n <= ls.len(),
        holds(p, w, ls[k]),
        filtered(a, ls, n) is Some,
    ensures
        holds_any(p, w, filtered(a, ls, n)->0.literals),
    decreases n,
{
    let l = ls[n - 1];
    let before = filtered(a, ls, (n - 1) as nat)->0.literals;
    let all = filtered(a, ls, n)->0.literals;
    lemma_generalization(p, h, w, a.literal_set, l, 0);
    if k == n - 1 {
        assert(evaluated(a, l) is None);
        assert(all[all.len() - 1] == l);
    } else {
        lemma_filtered(p, h, w, a, ls, (n - 1) as nat, k);
        let i = choose|i: int| 0 <= i < before.len() && holds(p, w, #[trigger] before[i]);
        assert(all[i] == before[i]);
    }
}

/// Simplification is sound: what is left of a clause holds where the clause holds and all that was
/// used to make it shorter.
pub proof fn law_simplification_is_sound(p: Apply, h: Assignment, a: ActiveV, step: StepV)
    requires
        is_application(p),
        good_literals(p, h, a.literal_set),
        good_step(p, h, step),
        simplified(a, step) is Some,
    ensures
        good_step(p, h, simplified(a, step)->0),
{
    let ls = step.clause.literals;
    let out = filtered(a, ls, ls.len())->0.literals;
    if out.len() != ls.len() {
        assert forall|w: Assignment| agree(h, w) implies #[trigger] holds_any(p, w, out) by {
            assert(holds_any(p, w, ls));
            let k = choose|k: int| 0 <= k < ls.len() && holds(p, w, #[trigger] ls[k]);
            lemma_filtered(p, h, w, a, ls, ls.len(), k);
        }
        law_clauses_keep_their_meaning(p, h, out);
        law_negative_literals_come_first(out);
    }
}

/// Whether all that waits holds.
pub open spec fn good_passive(p: Apply, h: Assignment, v: PassiveV) -> bool {
    good_steps(p, h, v.steps) && v.contradiction is None
}

/// Two clauses that say the opposite of each other do not both hold.
proof fn lemma_not_opposite(p: Apply, h: Assignment, a: StepV, b: StepV)
    requires
        good_step(p, h, a),
        good_step(p, h, b),
    ensures
        !opposite(a, b),
{
    if opposite(a, b) {
        let x = a.clause.literals;
        let y = b.clause.literals;
        assert(x =~= seq![x[0]] && y =~= seq![y[0]]);
        lemma_single(p, h, h, x[0]);
        lemma_single(p, h, h, y[0]);
    }
}

proof fn lemma_with(p: Apply, h: Assignment, v: PassiveV, s: StepV)
    requires
        good_passive(p, h, v),
        good_step(p, h, s),
    ensures
        good_passive(p, h, v.with(s)),
{
    lemma_opposite_step(v.steps, s, 0);
    if let Some(k) = opposite_step(v.steps, s, 0) {
        lemma_not_opposite(p, h, v.steps[k], s);
    }
}

proof fn lemma_with_all(p: Apply, h: Assignment, v: PassiveV, more: Seq<StepV>, n: nat)
    requires
        good_passive(p, h, v),
        good_steps(p, h, more),
        n <= more.len(),
    ensures
        good_passive(p, h, v.with_all(more, n)),
    decreases n,
{
    if n > 0 {
        lemma_with_all(p, h, v, more, (n - 1) as nat);
        lemma_with(p, h, v.with_all(more, (n - 1) as nat), more[n - 1]);
    }
}

proof fn lemma_simplified_steps(p: Apply, h: Assignment, a: ActiveV, steps: Seq<StepV>, n: nat)
    requires
        is_application(p),
        good_literals(p, h, a.literal_set),
        good_steps(p, h, steps),
        n <= steps.len(),
    ensures
        good_steps(p, h, unchanged(a, steps, n)),
        good_steps(p, h, shortened(a, steps, n)),
    decreases n,
{
    if n > 0 {
        lemma_simplified_steps(p, h, a, steps, (n - 1) as nat);
        if simplified(a, steps[n - 1]) is Some {
            law_simplification_is_sound(p, h, a, steps[n - 1]);
        }
    }
}

proof fn lemma_simplified_passive(p: Apply, h: Assignment, v: PassiveV, a: ActiveV)
    requires
        is_application(p),
        good_literals(p, h, a.literal_set),
        good_passive(p, h, v),
    ensures
        good_passive(p, h, v.simplified(a)),
{
    let n = v.steps.len();
    lemma_simplified_steps(p, h, a, v.steps, n);
    let shorter = shortened(a, v.steps, n);
    let same = PassiveV { steps: unchanged(a, v.steps, n), ..v };
    lemma_with_all(p, h, same, shorter, shorter.len());
}

/// A clause without literals does not hold.
proof fn lemma_not_impossible(p: Apply, h: Assignment, s: StepV)
    requires
        good_step(p, h, s),
    ensures
        !s.clause.is_impossible(),
{
    assert(agree(h, h));
    assert(holds_any(p, h, s.clause.literals));
}

proof fn lemma_settled(p: Apply, h: Assignment, a: ActiveV, found: Seq<StepV>, n: nat)
    requires
        is_application(p),
        good_literals(p, h, a.literal_set),
        good_steps(p, h, found),
        n <= found.len(),
    ensures
        good_steps(p, h, settled(a, found, n).0),
        settled(a, found, n).1 is None,
    decreases n,
{
    if n > 0 {
        lemma_settled(p, h, a, found, (n - 1) as nat);
        let step = found[n - 1];
        lemma_not_impossible(p, h, step);
        if simplified(a, step) is Some {
            law_simplification_is_sound(p, h, a, step);
            lemma_not_impossible(p, h, simplified(a, step)->0);
        }
    }
}

proof fn lemma_leads(p: Apply, h: Assignment, edges: Seq<EdgeV>, chain: Seq<usize>, t: TermV, n: nat)
    requires
        forall|k: int| 0 <= k < edges.len() ==> good_edge(p, h, #[trigger] edges[k]),
        n <= chain.len(),
    ensures
        leads(edges, chain, t, n) matches Some(u) ==> value(p, h, t) == value(p, h, u),
    decreases n,
{
    if n > 0 {
        lemma_leads(p, h, edges, chain, t, (n - 1) as nat);
        if chain[n - 1] < edges.len() {
            let e = edges[chain[n - 1] as int];
            assert(good_edge(p, h, e));
            assert(agree(h, h));
            if e.equal {
                assert(value(p, h, e.left) == value(p, h, e.right));
            }
        }
    }
}

/// Equalities that hold do not refute an inequality that holds.
pub proof fn law_no_refuted_inequality(
    p: Apply,
    h: Assignment,
    edges: Seq<EdgeV>,
    inequality: int,
    chain: Seq<usize>,
)
    requires
        forall|k: int| 0 <= k < edges.len() ==> good_edge(p, h, #[trigger] edges[k]),
    ensures
        !contradicts(edges, inequality, chain),
{
    if contradicts(edges, inequality, chain) {
        assert(good_edge(p, h, edges[inequality]));
        lemma_leads(p, h, edges, chain, edges[inequality].left, chain.len());
    }
}

/// Whether all that a prover knows holds, and it has found no contradiction.
pub open spec fn good_prover(p: Apply, h: Assignment, s: ProverV) -> bool {
    &&& sound(p, h, s.active, s.active.steps)
    &&& good_passive(p, h, s.passive)
    &&& s.final_step is None
}

proof fn lemma_explored(p: Apply, h: Assignment, s: ProverV, step: StepV)
    requires
        is_application(p),
        good_prover(p, h, s),
        good_step(p, h, step),
        s.active.steps.len() <= usize::MAX,
        small_step(step),
    ensures
        good_prover(p, h, explored(s, step)),
{
    law_activation_is_sound(p, h, s.active, step);
    let (active, found) = activated(s.active, step);
    lemma_simplified_passive(p, h, s.passive, active);
    let passive = if step.clause.literals.len() == 1 {
        s.passive.simplified(active)
    } else {
        s.passive
    };
    lemma_settled(p, h, active, found, found.len());
    let kept = settled(active, found, found.len()).0;
    lemma_with_all(p, h, passive, kept, kept.len());
}

/// A turn of a search is sound: where all that a prover knows holds, all that it knows after the
/// turn holds, and it has found no contradiction.
pub proof fn law_turns_are_sound(
    p: Apply,
    h: Assignment,
    s: ProverV,
    q: ProverV,
    finished: bool,
)
    requires
        is_application(p),
        in_range(s),
        good_prover(p, h, s),
        s.advances(q, finished),
    ensures
        good_prover(p, h, q),
{
    let n = s.passive.steps.len();
    if n > 0 {
        law_best_is_not_beaten(s.passive.steps, n, 0);
        let step = s.next_step();
        lemma_not_impossible(p, h, step);
        let t = s.taken();
        assert(good_prover(p, h, t));
        lemma_explored(p, h, t, step);
        let after = explored(t, step);
        if finished {
            let (inequality, chain) = choose|inequality: int, chain: Seq<usize>| #[trigger]
                contradicts(after.active.graph, inequality, chain);
            law_no_refuted_inequality(p, h, after.active.graph, inequality, chain);
        }
    }
}

proof fn lemma_goes_on(
    p: Apply,
    h: Assignment,
    states: Seq<ProverV>,
    limit: i32,
    shallow_only: bool,
    n: int,
)
    requires
        is_application(p),
        0 <= n < states.len(),
        goes_on(states, limit, shallow_only),
        all_in_range(states),
        good_prover(p, h, states[0]),
    ensures
        good_prover(p, h, states[n]),
    decreases n,
{
    if n > 0 {
        lemma_goes_on(p, h, states, limit, shallow_only, n - 1);
        let before = states[n - 1];
        let here = states[n];
        assert(before.advances(here, false));
        law_turns_are_sound(p, h, before, here, false);
    }
}

/// The search is sound: where there is a model in which all that a prover knows at the start
/// holds, a search ends without a contradiction. So where it does find one, what it started with
/// cannot all hold.
pub proof fn law_searches_are_sound(
    p: Apply,
    h: Assignment,
    states: Seq<ProverV>,
    start: ProverV,
    end: ProverV,
    limit: i32,
    turns: u64,
    shallow_only: bool,
    outcome: OutcomeV,
)
    requires
        is_application(p),
        good_prover(p, h, start),
        is_search(states, start, end, limit, turns, shallow_only, outcome),
    ensures
        good_prover(p, h, end),
        end.final_step is None,
        outcome != OutcomeV::Success,
        outcome != OutcomeV::Inconsistent,
{
    if start.error is None {
        let n = states.len() - 1;
        if goes_on(states, limit, shallow_only) {
            lemma_goes_on(p, h, states, limit, shallow_only, n);
        }
        if goes_on(states.drop_last(), limit, shallow_only) && n > 0 {
            let firsts = states.drop_last();
            lemma_goes_on(p, h, firsts, limit, shallow_only, n - 1);
            let before = states[n - 1];
            assert(firsts[n - 1] == before);
            if before.advances(end, true) {
                law_turns_are_sound(p, h, before, end, true);
            }
            if before.advances(end, false) {
                law_turns_are_sound(p, h, before, end, false);
            }
        }
    }
}

/// A new prover knows nothing that could fail to hold.
pub proof fn law_new_provers_are_good(p: Apply, h: Assignment, s: ProverV)
    requires
        s.active == ActiveV::initial(),
        s.passive.steps.len() == 0,
        s.passive.contradiction is None,
        s.final_step is None,
    ensures
        good_prover(p, h, s),
{
    assert(s.active.steps =~= s.active.steps.take(0));
}

proof fn lemma_normalized_signed(m: NormalizerV, lists: Seq<Seq<ValueV>>, n: nat)
    requires
        n <= lists.len(),
    ensures
        clauses_for(m, lists, n).1 matches Some(cs) ==> forall|i: int|
            0 <= i < cs.len() ==> signed((#[trigger] cs[i]).literals),
    decreases n,
{
    if n > 0 {
        lemma_normalized_signed(m, lists, (n - 1) as nat);
        let (after, before) = clauses_for(m, lists, (n - 1) as nat);
        if before is Some {
            let ls = literals_for(after, lists[n - 1], lists[n - 1].len()).1;
            if ls is Some {
                law_negative_literals_come_first(ls->0);
            }
        }
    }
}

/// Assuming a proposition keeps all good in every model where the clauses of the proposition hold.
pub proof fn law_assumptions_stay_good(
    p: Apply,
    h: Assignment,
    s: ProverV,
    fact: PropositionV,
    t: Truthiness,
)
    requires
        good_prover(p, h, s),
        normalized(s.normalizer, fact.value).1 matches Some(cs) ==> forall|i: int|
            0 <= i < cs.len() ==> valid(p, h, (#[trigger] cs[i]).literals),
    ensures
        good_prover(p, h, s.assuming(fact, t)),
{
    let clauses = normalized(s.normalizer, fact.value).1;
    if clauses is Some {
        let cs = clauses->0;
        let inside = negation_inside(expanded(fact.value, 0, EXPANSION_LIMIT)->0, false);
        let (made, universal) = skolemized(s.normalizer.skolem_types, Seq::empty(), inside);
        let lists = cnf(dequantified(Seq::empty(), universal).1);
        let m = NormalizerV { skolem_types: made, ..s.normalizer };
        lemma_normalized_signed(m, lists, lists.len());
        let steps = assumption_steps(fact, t, cs);
        assert forall|i: int| 0 <= i < steps.len() implies good_step(p, h, #[trigger] steps[i]) by {
            assert(steps[i].clause == cs[i]);
        }
        lemma_with_all(p, h, s.passive, steps, steps.len());
    }
}

} // verus!
