//! The search for contradictions.

use vstd::prelude::*;

use crate::acorn_value::{negated, value_text, AcornValue, BinaryOp, ValueV};
use crate::active_set::{activated, simplified, ActiveSet, ActiveV};
use crate::binding_map::opt_view;
use crate::clause::{clause_of, trace_of, Clause, ClauseV};
use crate::environment::{Goal, GoalContext, GoalContextV, GoalV};
use crate::fact::{Fact, PotentialValue};
use crate::literal::{oriented, Literal};
use crate::normalizer::{normalized, termed, Normalizer, NormalizerV};
use crate::passive_set::{best, PassiveSet, PassiveV};
use crate::proof_step::{
    combined, contradiction_step, gathered, id_steps, larger, small_step, specialization_step,
    unmoved, ProofStep, RuleV, StepV, Truthiness,
};
use crate::proposition::{Proposition, PropositionV};
use crate::source::{SourceTypeV, SourceV};
use crate::table::{holds, Duplicate};
use crate::term::{Term, TermV};
use crate::term_graph::{apart, contradicts, EdgeV, TermGraphContradiction};
use crate::text::views;

verus! {

broadcast use {crate::text::group_views, crate::acorn_value::lemma_application_view};

/// What the prover is to do, once it is in the form that it works with.
#[derive(Debug)]
pub enum NormalizedGoal {
    /// The value expresses the negation of the goal we are trying to prove. The flag indicates
    /// whether inconsistencies are okay. Ie, if we find a contradiction, is that a success?
    ProveNegated(AcornValue, bool),
    /// The term we are solving for.
    Solve(Term),
}

/// The model of a normalized goal.
pub enum NormalizedGoalV {
    ProveNegated(ValueV, bool),
    Solve(TermV),
}

impl View for NormalizedGoal {
    type V = NormalizedGoalV;

    open spec fn view(&self) -> NormalizedGoalV {
        match self {
            NormalizedGoal::ProveNegated(v, b) => NormalizedGoalV::ProveNegated(v@, *b),
            NormalizedGoal::Solve(t) => NormalizedGoalV::Solve(t@),
        }
    }
}

/// The outcome of a prover operation.
#[derive(Debug, PartialEq, Eq)]
pub enum Outcome {
    /// We proved it.
    Success,
    /// We tried every possibility and couldn't prove it.
    Exhausted,
    /// We found a contradiction just in our initial assumptions.
    Inconsistent,
    /// The prover was explicitly stopped.
    Interrupted,
    /// We hit a limit on how long to go on.
    Timeout,
    /// We hit some deterministic limit.
    Constrained,
    /// We found a problem in the code that needs to be fixed by the user.
    Error(String),
}

/// The model of an outcome.
pub enum OutcomeV {
    Success,
    Exhausted,
    Inconsistent,
    Interrupted,
    Timeout,
    Constrained,
    Error(Seq<char>),
}

impl View for Outcome {
    type V = OutcomeV;

    open spec fn view(&self) -> OutcomeV {
        match self {
            Outcome::Success => OutcomeV::Success,
            Outcome::Exhausted => OutcomeV::Exhausted,
            Outcome::Inconsistent => OutcomeV::Inconsistent,
            Outcome::Interrupted => OutcomeV::Interrupted,
            Outcome::Timeout => OutcomeV::Timeout,
            Outcome::Constrained => OutcomeV::Constrained,
            Outcome::Error(s) => OutcomeV::Error(s@),
        }
    }
}

impl OutcomeV {
    /// How an outcome is written.
    pub open spec fn text(self) -> Seq<char> {
        match self {
            OutcomeV::Success => "Success"@,
            OutcomeV::Exhausted => "Exhausted"@,
            OutcomeV::Inconsistent => "Inconsistent"@,
            OutcomeV::Interrupted => "Interrupted"@,
            OutcomeV::Timeout => "Timeout"@,
            OutcomeV::Constrained => "Constrained"@,
            OutcomeV::Error(s) => "Error: "@ + s,
        }
    }
}

impl Outcome {
    /// Writes the outcome.
    pub fn to_text(&self) -> (r: String)
        ensures
            r@ == self@.text(),
    {
        match self {
            Outcome::Success => "Success".to_owned(),
            Outcome::Exhausted => "Exhausted".to_owned(),
            Outcome::Inconsistent => "Inconsistent".to_owned(),
            Outcome::Interrupted => "Interrupted".to_owned(),
            Outcome::Timeout => "Timeout".to_owned(),
            Outcome::Constrained => "Constrained".to_owned(),
            Outcome::Error(s) => {
                let mut out = "Error: ".to_owned();
                out.append(s.as_str());
                out
            },
        }
    }
}

/// The activation limit to use for verification mode.
pub const VERIFICATION_LIMIT: i32 = 2000;

/// The activation limit for searches that are done a little at a time.
pub const PARTIAL_LIMIT: i32 = 5000;

/// The activation limit for fast searches.
pub const QUICK_LIMIT: i32 = 500;

/// A search for a contradiction.
pub struct Prover {
    // The normalizer is used when we are turning the facts and goals from the environment into
    // clauses that we can use internally.
    pub(crate) normalizer: Normalizer,
    // The "active" clauses are the ones we use for reasoning.
    pub(crate) active_set: ActiveSet,
    // The "passive" clauses are a queue of pending clauses that we will add to the active clauses
    // in the future.
    pub(crate) passive_set: PassiveSet,
    // The last step of the proof search that leads to a contradiction. If we haven't finished the
    // search, this is None.
    pub(crate) final_step: Option<ProofStep>,
    // Clauses that we never activated, but we did use to find a contradiction.
    pub(crate) useful_passive: Vec<ProofStep>,
    // This error gets set when there is a problem during the construction of the prover.
    pub(crate) error: Option<String>,
    // Number of proof steps activated, not counting Factual ones.
    pub(crate) nonfactual_activations: i32,
    // The goal of the prover. If this is None, the goal hasn't been set yet.
    pub(crate) goal: Option<NormalizedGoal>,
}

/// The model of a prover.
#[verifier::ext_equal]
pub struct ProverV {
    pub normalizer: NormalizerV,
    pub active: ActiveV,
    pub passive: PassiveV,
    pub final_step: Option<StepV>,
    pub useful_passive: Seq<StepV>,
    pub error: Option<Seq<char>>,
    pub nonfactual_activations: i32,
    pub goal: Option<NormalizedGoalV>,
}

impl View for Prover {
    type V = ProverV;

    closed spec fn view(&self) -> ProverV {
        ProverV {
            normalizer: self.normalizer@,
            active: self.active_set@,
            passive: self.passive_set@,
            final_step: opt_view(self.final_step),
            useful_passive: views(self.useful_passive@),
            error: opt_view(self.error),
            nonfactual_activations: self.nonfactual_activations,
            goal: opt_view(self.goal),
        }
    }
}

/// The parts of the model of a prover.
pub(crate) proof fn lemma_prover_view(p: Prover)
    ensures
        p@.normalizer == p.normalizer@,
        p@.active == p.active_set@,
        p@.passive == p.passive_set@,
        p@.final_step == opt_view(p.final_step),
        p@.useful_passive == views(p.useful_passive@),
        p@.error == opt_view(p.error),
        p@.nonfactual_activations == p.nonfactual_activations,
        p@.goal == opt_view(p.goal),
{
}

/// A goal split in what may be assumed and what is to be refuted: of an implication, the premise
/// is assumed.
pub open spec fn negated_goal(v: ValueV) -> (Option<ValueV>, ValueV) {
    match v {
        ValueV::Binary(BinaryOp::Implies, l, r) => (Some(*l), negated(*r)),
        _ => (None, negated(v)),
    }
}

/// An assumption.
pub open spec fn assumption_step(p: PropositionV, t: Truthiness, clause: ClauseV) -> StepV {
    StepV {
        clause,
        truthiness: t,
        rule: RuleV::Assumption {
            source: p.source,
            defined_atom: None,
            literals: clause.literals,
        },
        simplification_rules: Seq::empty(),
        proof_size: 0,
        depth: 0,
        printable: false,
        traces: Some(unmoved(clause.literals.len())),
    }
}

/// The assumptions that some clauses are.
pub open spec fn assumption_steps(p: PropositionV, t: Truthiness, cs: Seq<ClauseV>) -> Seq<StepV> {
    Seq::new(cs.len(), |i: int| assumption_step(p, t, cs[i]))
}

/// The proposition of a goal with a value to refute.
pub open spec fn refutation(p: PropositionV, counter: ValueV) -> PropositionV {
    PropositionV {
        value: counter,
        source: SourceV { source_type: SourceTypeV::NegatedGoal, importable: false, ..p.source },
    }
}

/// What the first `n` generated steps come to: those to keep, and a contradiction where there is
/// one. What follows a contradiction is not looked at.
pub open spec fn settled(a: ActiveV, found: Seq<StepV>, n: nat) -> (Seq<StepV>, Option<StepV>)
    decreases n,
{
    if n == 0 || n > found.len() {
        (Seq::empty(), None)
    } else {
        let (kept, end) = settled(a, found, (n - 1) as nat);
        let step = found[n - 1];
        if end is Some {
            (kept, end)
        } else if step.clause.is_impossible() {
            (kept, Some(step))
        } else if step.automatic_reject() {
            (kept, None)
        } else {
            match simplified(a, step) {
                Some(s) => if s.clause.is_impossible() {
                    (kept, Some(s))
                } else {
                    (kept.push(s), None)
                },
                None => (kept, None),
            }
        }
    }
}

proof fn lemma_settled_ends(a: ActiveV, found: Seq<StepV>, k: nat, n: nat)
    requires
        k <= n <= found.len(),
        settled(a, found, k).1 is Some,
    ensures
        settled(a, found, n) == settled(a, found, k),
    decreases n,
{
    if k < n {
        lemma_settled_ends(a, found, k, (n - 1) as nat);
    }
}

/// The place for an id in a list of ids that get larger.
pub open spec fn place_for(s: Seq<usize>, x: usize, i: nat) -> nat
    decreases s.len() - i,
{
    if i >= s.len() || s[i as int] >= x {
        i
    } else {
        place_for(s, x, i + 1)
    }
}

/// A list of ids that get larger, with one more, unless it is there.
pub open spec fn with_id(s: Seq<usize>, x: usize) -> Seq<usize> {
    let i = place_for(s, x, 0);
    if i < s.len() && s[i as int] == x {
        s
    } else {
        s.insert(i as int, x)
    }
}

/// The first `n` ids, from the smallest to the largest, each once.
pub open spec fn sorted_ids(s: Seq<usize>, n: nat) -> Seq<usize>
    decreases n,
{
    if n == 0 || n > s.len() {
        Seq::empty()
    } else {
        with_id(sorted_ids(s, (n - 1) as nat), s[n - 1])
    }
}

/// Whether ids get larger.
pub open spec fn increasing(s: Seq<usize>) -> bool {
    forall|i: int, j: int| 0 <= i < j < s.len() ==> (#[trigger] s[i]) < (#[trigger] s[j])
}

proof fn lemma_place_for(s: Seq<usize>, x: usize, i: nat)
    requires
        increasing(s),
        i <= s.len(),
        forall|k: int| 0 <= k < i ==> (#[trigger] s[k]) < x,
    ensures
        i <= place_for(s, x, i) <= s.len(),
        forall|k: int| 0 <= k < place_for(s, x, i) ==> (#[trigger] s[k]) < x,
        forall|k: int| place_for(s, x, i) <= k < s.len() ==> (#[trigger] s[k]) >= x,
    decreases s.len() - i,
{
    if i < s.len() && s[i as int] < x {
        lemma_place_for(s, x, i + 1);
    }
}

proof fn lemma_with_id(s: Seq<usize>, x: usize)
    requires
        increasing(s),
    ensures
        increasing(with_id(s, x)),
        forall|y: usize| #[trigger] with_id(s, x).contains(y) <==> s.contains(y) || y == x,
{
    lemma_place_for(s, x, 0);
    let i = place_for(s, x, 0) as int;
    let r = with_id(s, x);
    if i < s.len() && s[i] == x {
    } else {
        assert(r == s.insert(i, x));
        assert(r[i] == x);
        assert forall|y: usize| s.contains(y) implies #[trigger] r.contains(y) by {
            let k = choose|k: int| 0 <= k < s.len() && s[k] == y;
            if k < i {
                assert(r[k] == y);
            } else {
                assert(r[k + 1] == y);
            }
        }
        assert forall|y: usize| #[trigger] r.contains(y) implies s.contains(y) || y == x by {
            let k = choose|k: int| 0 <= k < r.len() && r[k] == y;
            if k < i {
                assert(s[k] == y);
            } else if k > i {
                assert(s[k - 1] == y);
            }
        }
    }
}

/// Sorting ids leaves each of them exactly once, from the smallest to the largest.
pub proof fn law_sorted_ids(s: Seq<usize>, n: nat)
    requires
        n <= s.len(),
    ensures
        increasing(sorted_ids(s, n)),
        forall|y: usize| #[trigger] sorted_ids(s, n).contains(y) <==> s.take(n as int).contains(y),
    decreases n,
{
    if n > 0 {
        law_sorted_ids(s, (n - 1) as nat);
        let before = sorted_ids(s, (n - 1) as nat);
        lemma_with_id(before, s[n - 1]);
        assert forall|y: usize| #[trigger] sorted_ids(s, n).contains(y) <==> s.take(
            n as int,
        ).contains(y) by {
            let whole = s.take(n as int);
            let part = s.take(n - 1);
            if whole.contains(y) && y != s[n - 1] {
                let k = choose|k: int| 0 <= k < whole.len() && whole[k] == y;
                assert(part[k] == y);
            }
            if part.contains(y) {
                let k = choose|k: int| 0 <= k < part.len() && part[k] == y;
                assert(whole[k] == y);
            }
            assert(whole[n - 1] == s[n - 1]);
        }
    }
}

/// Puts an id into a list of ids that get larger.
pub fn insert_id(v: &mut Vec<usize>, x: usize)
    ensures
        final(v)@ == with_id(old(v)@, x),
{
    let mut i: usize = 0;
    while i < v.len() && v[i] < x
        invariant
            i <= v.len(),
            v@ == old(v)@,
            place_for(v@, x, 0) == place_for(v@, x, i as nat),
        decreases v.len() - i,
    {
        i = i + 1;
    }
    if i < v.len() && v[i] == x {
        return;
    }
    v.insert(i, x);
}

/// Sorts ids and leaves each of them once.
pub fn sort_ids(ids: &Vec<usize>) -> (r: Vec<usize>)
    ensures
        r@ == sorted_ids(ids@, ids@.len()),
{
    let mut out: Vec<usize> = Vec::new();
    let mut i: usize = 0;
    while i < ids.len()
        invariant
            i <= ids.len(),
            out@ == sorted_ids(ids@, i as nat),
        decreases ids.len() - i,
    {
        insert_id(&mut out, ids[i]);
        i = i + 1;
    }
    out
}

/// What the first equalities of a chain come to.
pub struct ReportV {
    pub active_ids: Seq<usize>,
    pub passive: Seq<StepV>,
    pub passive_ids: Seq<u32>,
    pub clauses: Seq<ClauseV>,
    pub truthiness: Truthiness,
    pub depth: u32,
}

/// A report with one more equality. An instance of a pattern gets a step of its own, unless there
/// is one already. (An equality always comes from an active step.)
pub open spec fn report_edge(r: ReportV, steps: Seq<StepV>, e: EdgeV) -> ReportV {
    if e.pattern_id >= steps.len() {
        r
    } else {
        let pattern = steps[e.pattern_id as int];
        let truthiness = combined(r.truthiness, pattern.truthiness);
        match e.inspiration_id {
            None => ReportV {
                active_ids: r.active_ids.push(e.pattern_id),
                truthiness,
                depth: larger(r.depth, pattern.depth),
                ..r
            },
            Some(inspiration) => {
                let literals = seq![oriented(true, e.left, e.right).0];
                let clause = clause_of(literals);
                if r.clauses.contains(clause) {
                    ReportV { truthiness, ..r }
                } else {
                    let step = specialization_step(
                        e.pattern_id,
                        inspiration,
                        pattern,
                        clause,
                        trace_of(literals),
                    );
                    ReportV {
                        active_ids: r.active_ids,
                        passive: r.passive.push(step),
                        passive_ids: r.passive_ids.push(r.passive.len() as u32),
                        clauses: r.clauses.push(clause),
                        truthiness,
                        depth: larger(r.depth, step.depth),
                    }
                }
            },
        }
    }
}

/// The report on the first `n` equalities of a chain.
pub open spec fn report_chain(
    start: ReportV,
    steps: Seq<StepV>,
    edges: Seq<EdgeV>,
    chain: Seq<usize>,
    n: nat,
) -> ReportV
    decreases n,
{
    if n == 0 || n > chain.len() {
        start
    } else {
        let before = report_chain(start, steps, edges, chain, (n - 1) as nat);
        if chain[n - 1] < edges.len() {
            report_edge(before, steps, edges[chain[n - 1] as int])
        } else {
            before
        }
    }
}

/// The prover after a chain of equalities refuted an inequality.
pub open spec fn reported(p: ProverV, inequality: int, chain: Seq<usize>) -> ProverV {
    let id = p.active.graph[inequality].pattern_id;
    let start = ReportV {
        active_ids: Seq::empty(),
        passive: p.useful_passive,
        passive_ids: Seq::empty(),
        clauses: Seq::empty(),
        truthiness: if id < p.active.steps.len() {
            p.active.steps[id as int].truthiness
        } else {
            Truthiness::Factual
        },
        depth: 0,
    };
    let r = report_chain(start, p.active.steps, p.active.graph, chain, chain.len());
    ProverV {
        useful_passive: r.passive,
        final_step: Some(
            contradiction_step(
                RuleV::MultipleRewrite {
                    inequality_id: id,
                    active_ids: sorted_ids(r.active_ids, r.active_ids.len()),
                    passive_ids: r.passive_ids,
                },
                r.truthiness,
                r.depth,
                0,
            ),
        ),
        ..p
    }
}

/// Steps that are not to be printed.
pub open spec fn unprinted(s: Seq<StepV>) -> Seq<StepV> {
    Seq::new(s.len(), |i: int| StepV { printable: false, ..s[i] })
}

/// Whether no inequality is refuted by equalities.
pub open spec fn consistent(edges: Seq<EdgeV>) -> bool {
    forall|i: int|
        0 <= i < edges.len() && !(#[trigger] edges[i]).equal ==> apart(
            edges,
            edges[i].left,
            edges[i].right,
        )
}

/// What activating a step leads to, before contradictions between equalities are looked for.
pub open spec fn explored(p: ProverV, step: StepV) -> ProverV {
    let (active, found) = activated(p.active, step);
    let passive = if step.clause.literals.len() == 1 {
        p.passive.simplified(active)
    } else {
        p.passive
    };
    let (kept, end) = settled(active, found, found.len());
    match end {
        Some(s) => ProverV { active, passive, final_step: Some(s), ..p },
        None => ProverV { active, passive: passive.with_all(kept, kept.len()), ..p },
    }
}

/// Whether activating a step can lead from one state to another, and whether the search is then
/// finished.
pub open spec fn activates(p: ProverV, step: StepV, q: ProverV, finished: bool) -> bool {
    let after = explored(p, step);
    if after.final_step is Some {
        finished && q == after
    } else if finished {
        exists|inequality: int, chain: Seq<usize>| #[trigger]
            contradicts(after.active.graph, inequality, chain) && q == reported(
                after,
                inequality,
                chain,
            )
    } else {
        q == after && consistent(after.active.graph)
    }
}

impl ProverV {
    /// What holds between any two operations.
    pub open spec fn wf(self) -> bool {
        self.normalizer.wf() && (self.final_step is None ==> self.useful_passive.len() == 0)
    }

    /// The prover after it took the next step from the queue.
    pub open spec fn taken(self) -> ProverV {
        let step = self.next_step();
        ProverV {
            passive: self.passive.popped(),
            nonfactual_activations: if step.truthiness != Truthiness::Factual
                && self.nonfactual_activations < i32::MAX {
                (self.nonfactual_activations + 1) as i32
            } else {
                self.nonfactual_activations
            },
            ..self
        }
    }

    /// The step that is next in the queue.
    pub open spec fn next_step(self) -> StepV {
        self.passive.steps[best(self.passive.steps, self.passive.steps.len())]
    }

    /// The prover with a proposition added.
    pub open spec fn assuming(self, p: PropositionV, t: Truthiness) -> ProverV {
        let (normalizer, clauses) = normalized(self.normalizer, p.value);
        match clauses {
            Some(cs) => {
                let steps = assumption_steps(p, t, cs);
                ProverV {
                    normalizer,
                    passive: self.passive.with_all(steps, steps.len()),
                    ..self
                }
            },
            None => ProverV {
                normalizer,
                error: Some("could not normalize: "@ + value_text(p.value, 0)),
                ..self
            },
        }
    }

    /// The prover with a goal.
    pub open spec fn with_goal(self, goal: GoalV, inconsistency_okay: bool) -> ProverV {
        match goal {
            GoalV::Prove(p) => {
                let (hypo, counter) = negated_goal(p.value);
                let assumed = match hypo {
                    Some(h) => self.assuming(
                        PropositionV { value: h, ..p },
                        Truthiness::Hypothetical,
                    ),
                    None => self,
                };
                let refuting = assumed.assuming(
                    refutation(p, counter),
                    Truthiness::Counterfactual,
                );
                ProverV {
                    goal: Some(NormalizedGoalV::ProveNegated(counter, inconsistency_okay)),
                    ..refuting
                }
            },
            GoalV::Solve(v, _) => {
                let (normalizer, term) = termed(self.normalizer, v);
                match term {
                    Some(t) => ProverV {
                        normalizer,
                        goal: Some(NormalizedGoalV::Solve(t)),
                        ..self
                    },
                    None => ProverV {
                        normalizer,
                        error: Some("could not solve for: "@ + value_text(v, 0)),
                        ..self
                    },
                }
            },
        }
    }

    /// Whether one turn of the search can lead from one state to another, and whether the search
    /// is then finished.
    pub open spec fn advances(self, q: ProverV, finished: bool) -> bool {
        if self.final_step is Some {
            finished && q == self
        } else if self.passive.contradiction is Some {
            let (a, b) = self.passive.contradiction->0;
            let both = unprinted(seq![a, b]);
            let (t, d, s) = gathered(both, 2);
            finished && q == (ProverV {
                useful_passive: both,
                final_step: Some(contradiction_step(RuleV::PassiveContradiction(2), t, d, s)),
                ..self
            })
        } else if self.passive.steps.len() == 0 {
            finished && q == self
        } else if self.next_step().clause.is_impossible() {
            finished && q == (ProverV { final_step: Some(self.next_step()), ..self.taken() })
        } else {
            activates(self.taken(), self.next_step(), q, finished)
        }
    }

    /// What a finished search has found.
    pub open spec fn verdict(self) -> OutcomeV {
        match self.final_step {
            Some(s) => if s.truthiness == Truthiness::Counterfactual || (self.goal matches Some(
                NormalizedGoalV::ProveNegated(_, true),
            )) {
                OutcomeV::Success
            } else {
                OutcomeV::Inconsistent
            },
            None => OutcomeV::Exhausted,
        }
    }

    /// Why an unfinished search stops: it was told to, it has done as much as it may, or the time
    /// is over.
    pub open spec fn stop_reason(self, stopped: bool, limit: i32, timed_out: bool) -> Option<
        OutcomeV,
    > {
        if stopped {
            Some(OutcomeV::Interrupted)
        } else if self.nonfactual_activations >= limit {
            Some(OutcomeV::Constrained)
        } else if timed_out {
            Some(OutcomeV::Timeout)
        } else {
            None
        }
    }
}

fn max_of(a: u32, b: u32) -> (r: u32)
    ensures
        r == larger(a, b),
{
    if a >= b {
        a
    } else {
        b
    }
}

/// Splits a goal in what may be assumed and what is to be refuted.
pub fn negate_goal(v: &AcornValue) -> (r: (Option<AcornValue>, AcornValue))
    ensures
        (opt_view(r.0), r.1@) == negated_goal(v@),
{
    match v {
        AcornValue::Binary(BinaryOp::Implies, l, r) => (
            Some((**l).duplicate()),
            (**r).duplicate().negate(),
        ),
        _ => (None, v.duplicate().negate()),
    }
}

/// Makes assumptions of clauses.
fn assume_clauses(p: &Proposition, t: Truthiness, clauses: Vec<Clause>) -> (r: Vec<ProofStep>)
    ensures
        views(r@) == assumption_steps(p@, t, views(clauses@)),
{
    let mut out: Vec<ProofStep> = Vec::new();
    let mut i: usize = 0;
    while i < clauses.len()
        invariant
            i <= clauses.len(),
            out.len() == i,
            forall|k: int|
                0 <= k < i ==> (#[trigger] out@[k])@ == assumption_step(p@, t, clauses@[k]@),
        decreases clauses.len() - i,
    {
        let mut step = ProofStep::assumption(p, clauses[i].duplicate(), None);
        step.truthiness = t;
        out.push(step);
        i = i + 1;
    }
    assert(views(out@) =~= assumption_steps(p@, t, views(clauses@)));
    out
}

impl Prover {
    /// A prover without facts and without a goal.
    pub fn new() -> (r: Prover)
        ensures
            r@.wf(),
            r@.normalizer == NormalizerV::initial(),
            r@.active == ActiveV::initial(),
            r@.passive == (PassiveV {
                steps: Seq::empty(),
                all_shallow: true,
                contradiction: None,
            }),
            r@.final_step is None,
            r@.useful_passive.len() == 0,
            r@.error is None,
            r@.nonfactual_activations == 0,
            r@.goal is None,
    {
        Prover {
            normalizer: Normalizer::new(),
            active_set: ActiveSet::new(),
            passive_set: PassiveSet::new(),
            final_step: None,
            useful_passive: Vec::new(),
            error: None,
            nonfactual_activations: 0,
            goal: None,
        }
    }

    /// Adds a proposition.
    pub fn add_proposition(&mut self, proposition: &Proposition, truthiness: Truthiness)
        requires
            old(self)@.wf(),
        ensures
            final(self)@.wf(),
            final(self)@ == old(self)@.assuming(proposition@, truthiness),
    {
        match self.normalizer.normalize(proposition.value.duplicate()) {
            Some(clauses) => {
                let steps = assume_clauses(proposition, truthiness, clauses);
                self.passive_set.push_batch(steps);
            },
            None => {
                let mut message = "could not normalize: ".to_owned();
                message.append(proposition.value.to_text().as_str());
                self.error = Some(message);
            },
        }
    }

    /// Adds a fact. That a class is an instance of a typeclass needs no clause.
    pub fn add_fact(&mut self, fact: &Fact)
        requires
            old(self)@.wf(),
        ensures
            final(self)@.wf(),
            match *fact {
                Fact::Proposition(p) => final(self)@ == old(self)@.assuming(
                    p@,
                    p@.source.truthiness(),
                ),
                Fact::Instance(_, _, _) => final(self)@ == old(self)@,
                Fact::Definition(PotentialValue::Resolved(c), d, s) => final(self)@ == old(
                    self,
                )@.assuming(
                    (PropositionV {
                        value: ValueV::Binary(BinaryOp::Equals, Box::new(c@), Box::new(d@)),
                        source: s@,
                    }),
                    s@.truthiness(),
                ),
                Fact::Definition(PotentialValue::Unresolved(_, n), _, _) => final(self)@ == (
                ProverV { error: Some("could not normalize: "@ + n@), ..old(self)@ }),
            },
    {
        match fact {
            Fact::Proposition(p) => {
                self.add_proposition(p, p.source.truthiness());
            },
            Fact::Instance(_, _, _) => {},
            Fact::Definition(PotentialValue::Resolved(c), d, s) => {
                let value = AcornValue::Binary(
                    BinaryOp::Equals,
                    Box::new(c.duplicate()),
                    Box::new(d.duplicate()),
                );
                let proposition = Proposition::monomorphic(value, s.clone());
                self.add_proposition(&proposition, s.truthiness());
            },
            Fact::Definition(PotentialValue::Unresolved(_, n), _, _) => {
                let mut message = "could not normalize: ".to_owned();
                message.append(n.as_str());
                self.error = Some(message);
                assert(self@ =~= (ProverV {
                    error: Some("could not normalize: "@ + n@),
                    ..old(self)@
                }));
            },
        }
    }

    /// Sets the goal. To prove a proposition, its negation is added as a counterfactual
    /// assumption.
    pub fn set_goal(&mut self, goal: &Goal, inconsistency_okay: bool)
        requires
            old(self)@.wf(),
            old(self)@.goal is None,
        ensures
            final(self)@.wf(),
            final(self)@ == old(self)@.with_goal(goal@, inconsistency_okay),
    {
        match goal {
            Goal::Prove(prop) => {
                let (hypo, counter) = negate_goal(&prop.value);
                if let Some(h) = hypo {
                    self.add_proposition(&prop.with_value(h), Truthiness::Hypothetical);
                }
                self.add_proposition(
                    &prop.with_negated_goal(counter.duplicate()),
                    Truthiness::Counterfactual,
                );
                let ghost refuting = self@;
                self.goal = Some(NormalizedGoal::ProveNegated(counter, inconsistency_okay));
                assert(self@ =~= (ProverV {
                    goal: Some(NormalizedGoalV::ProveNegated(counter@, inconsistency_okay)),
                    ..refuting
                }));
            },
            Goal::Solve(value, _) => match self.normalizer.term_from_value(value) {
                Some(term) => {
                    self.goal = Some(NormalizedGoal::Solve(term));
                },
                None => {
                    let mut message = "could not solve for: ".to_owned();
                    message.append(value.to_text().as_str());
                    self.error = Some(message);
                },
            },
        }
    }

    /// Adds what is known where a goal stands, and the goal.
    pub fn add_context(&mut self, context: &GoalContext)
        requires
            old(self)@.wf(),
            old(self)@.goal is None,
        ensures
            final(self)@.wf(),
            final(self)@ == in_context(old(self)@, context@),
    {
        self.add_propositions(&context.global_facts, Truthiness::Factual);
        self.add_propositions(&context.local_facts, Truthiness::Hypothetical);
        self.set_goal(&context.goal, context.includes_explicit_false);
    }

    fn add_propositions(&mut self, ps: &Vec<Proposition>, t: Truthiness)
        requires
            old(self)@.wf(),
        ensures
            final(self)@.wf(),
            final(self)@ == assuming_all(old(self)@, views(ps@), t, ps@.len()),
            final(self)@.goal == old(self)@.goal,
    {
        let ghost start = self@;
        let mut i: usize = 0;
        while i < ps.len()
            invariant
                i <= ps.len(),
                start == old(self)@,
                self@.wf(),
                self@.goal == start.goal,
                self@ == assuming_all(start, views(ps@), t, i as nat),
            decreases ps.len() - i,
        {
            assert(views(ps@)[i as int] == ps@[i as int]@);
            self.add_proposition(&ps[i], t);
            i = i + 1;
        }
    }

    /// How many clauses are active.
    pub fn num_activated(&self) -> (r: usize)
        ensures
            r == self@.active.steps.len(),
    {
        self.active_set.len()
    }

    /// All active steps, with their ids.
    pub fn iter_active_steps(&self) -> (r: Vec<(usize, &ProofStep)>)
        ensures
            id_steps(r@) == Seq::new(
                self@.active.steps.len(),
                |i: int| (i as usize, self@.active.steps[i]),
            ),
    {
        self.active_set.iter_steps()
    }

    /// How many clauses are pending.
    pub fn num_passive(&self) -> (r: usize)
        ensures
            r == self@.passive.steps.len(),
    {
        self.passive_set.len()
    }

    fn report_term_graph_contradiction(&mut self, contradiction: TermGraphContradiction)
        requires
            contradicts(
                old(self)@.active.graph,
                contradiction.inequality as int,
                contradiction.chain@,
            ),
        ensures
            final(self)@ == reported(
                old(self)@,
                contradiction.inequality as int,
                contradiction.chain@,
            ),
    {
        let ghost p = self@;
        let ghost steps = p.active.steps;
        let ghost edges = p.active.graph;
        let mut active_ids: Vec<usize> = Vec::new();
        let mut passive_ids: Vec<u32> = Vec::new();
        let mut clauses: Vec<Clause> = Vec::new();
        let mut depth: u32 = 0;
        let graph = self.active_set.get_graph();
        assert(edges[contradiction.inequality as int]
            == graph.edges@[contradiction.inequality as int]@);
        let inequality_id = graph.edges[contradiction.inequality].pattern_id;
        let mut truthiness = if self.active_set.has_step(inequality_id) {
            self.active_set.get_step(inequality_id).truthiness
        } else {
            Truthiness::Factual
        };
        assert(views(clauses@) =~= Seq::<ClauseV>::empty());
        let ghost start = ReportV {
            active_ids: active_ids@,
            passive: p.useful_passive,
            passive_ids: passive_ids@,
            clauses: views(clauses@),
            truthiness,
            depth,
        };
        let mut k: usize = 0;
        while k < contradiction.chain.len()
            invariant
                k <= contradiction.chain.len(),
                steps == p.active.steps,
                edges == p.active.graph,
                self@ == (ProverV { useful_passive: self@.useful_passive, ..p }),
                report_chain(start, steps, edges, contradiction.chain@, k as nat) == (ReportV {
                    active_ids: active_ids@,
                    passive: self@.useful_passive,
                    passive_ids: passive_ids@,
                    clauses: views(clauses@),
                    truthiness,
                    depth,
                }),
            decreases contradiction.chain.len() - k,
        {
            let index = contradiction.chain[k];
            let graph = self.active_set.get_graph();
            assert(edges.len() == graph.edges@.len());
            if index < graph.edges.len() {
                assert(edges[index as int] == graph.edges@[index as int]@);
                let edge = &graph.edges[index];
                if self.active_set.has_step(edge.pattern_id) {
                    let pattern_step = self.active_set.get_step(edge.pattern_id);
                    truthiness = truthiness.combine(pattern_step.truthiness);
                    // Check whether we need to explicitly add a specialized clause to the proof.
                    match edge.inspiration_id {
                        None => {
                            // No extra specialized clause needed
                            active_ids.push(edge.pattern_id);
                            depth = max_of(depth, pattern_step.depth);
                        },
                        Some(inspiration_id) => {
                            // Create a new proof step, without activating it, to express the
                            // specific equality used by this rewrite.
                            let mut literals: Vec<Literal> = Vec::new();
                            literals.push(
                                Literal::equals(edge.left.duplicate(), edge.right.duplicate()),
                            );
                            assert(views(literals@) =~= seq![oriented(
                                true,
                                edge@.left,
                                edge@.right,
                            ).0]);
                            let (clause, trace) = Clause::normalize_with_trace(literals);
                            if !holds(&clauses, &clause) {
                                let step = ProofStep::specialization(
                                    edge.pattern_id,
                                    inspiration_id,
                                    pattern_step,
                                    clause.duplicate(),
                                    trace,
                                );
                                depth = max_of(depth, step.depth);
                                clauses.push(clause);
                                passive_ids.push(self.useful_passive.len() as u32);
                                self.useful_passive.push(step);
                            }
                        },
                    }
                }
            }
            k = k + 1;
        }
        let sorted = sort_ids(&active_ids);
        let step = ProofStep::multiple_rewrite(
            inequality_id,
            sorted,
            passive_ids,
            truthiness,
            depth,
        );
        self.final_step = Some(step);
        assert(self@ =~= reported(p, contradiction.inequality as int, contradiction.chain@));
    }

    fn report_passive_contradiction(&mut self, passive_steps: Vec<ProofStep>)
        requires
            old(self)@.useful_passive.len() == 0,
        ensures
            ({
                let all = unprinted(views(passive_steps@));
                let (t, d, s) = gathered(all, all.len());
                final(self)@ == (ProverV {
                    useful_passive: all,
                    final_step: Some(
                        contradiction_step(
                            RuleV::PassiveContradiction(all.len() as u32),
                            t,
                            d,
                            s,
                        ),
                    ),
                    ..old(self)@
                })
            }),
    {
        let ghost p = self@;
        let ghost pv = views(passive_steps@);
        let mut i: usize = 0;
        while i < passive_steps.len()
            invariant
                i <= passive_steps.len(),
                p == old(self)@,
                pv == views(passive_steps@),
                self@ == (ProverV { useful_passive: unprinted(pv).take(i as int), ..p }),
            decreases passive_steps.len() - i,
        {
            let mut step = passive_steps[i].duplicate();
            step.printable = false;
            let ghost before = self.useful_passive@;
            self.useful_passive.push(step);
            assert(views(self.useful_passive@) =~= views(before).push(step@));
            assert(unprinted(pv).take(i + 1) =~= unprinted(pv).take(i as int).push(step@));
            i = i + 1;
        }
        assert(unprinted(pv).take(pv.len() as int) =~= unprinted(pv));
        self.final_step = Some(ProofStep::passive_contradiction(&self.useful_passive));
    }

    // Generates new passive clauses, simplifying appropriately, and adds them to the passive set.
    //
    // This does two forms of simplification. It simplifies all existing passive clauses based on
    // the newly activated clause, and simplifies the new passive clauses based on all existing
    // active clauses.
    //
    // Returns whether the prover finished.
    fn activate(&mut self, activated_step: ProofStep) -> (r: bool)
        requires
            old(self)@.wf(),
            old(self)@.final_step is None,
        ensures
            final(self)@.wf(),
            r ==> final(self)@.final_step is Some,
            !r ==> final(self)@.final_step is None,
            activates(old(self)@, activated_step@, final(self)@, r),
    {
        let ghost p = self@;
        let ghost sv = activated_step@;
        let short = activated_step.clause.literals.len() == 1;
        let (_, generated) = self.active_set.activate(activated_step);
        let ghost active = self.active_set@;
        let ghost found = views(generated@);
        assert((active, found) == activated(p.active, sv));
        if short {
            self.passive_set.simplify(&self.active_set);
        }
        let ghost passive = self.passive_set@;
        let ghost middle = self@;
        let mut new_steps: Vec<ProofStep> = Vec::new();
        assert(views(new_steps@) =~= Seq::<StepV>::empty());
        let mut i: usize = 0;
        while i < generated.len()
            invariant
                i <= generated.len(),
                found == views(generated@),
                active == self.active_set@,
                self@ == middle,
                middle == (ProverV { active, passive, ..p }),
                p == old(self)@,
                p.wf(),
                p.final_step is None,
                (active, found) == activated(p.active, sv),
                sv == activated_step@,
                passive == (if sv.clause.literals.len() == 1 {
                    p.passive.simplified(active)
                } else {
                    p.passive
                }),
                settled(active, found, i as nat) == (views(new_steps@), None::<StepV>),
            decreases generated.len() - i,
        {
            let step = generated[i].duplicate();
            assert(found[i as int] == step@);
            if step.finishes_proof() {
                proof {
                    lemma_settled_ends(active, found, (i + 1) as nat, found.len());
                }
                self.final_step = Some(step);
                assert(self@ =~= explored(p, sv));
                return true;
            }
            if !step.automatic_reject() {
                if let Some(simple_step) = self.active_set.simplify(step) {
                    if simple_step.clause.is_impossible() {
                        proof {
                            lemma_settled_ends(active, found, (i + 1) as nat, found.len());
                        }
                        self.final_step = Some(simple_step);
                        assert(self@ =~= explored(p, sv));
                        return true;
                    }
                    new_steps.push(simple_step);
                }
            }
            i = i + 1;
        }
        self.passive_set.push_batch(new_steps);
        assert(self@ =~= explored(p, sv));
        // Sometimes we find a bunch of contradictions at once. It doesn't really matter what we
        // pick, so we guess which is most likely to be aesthetically pleasing. First regular
        // contradictions (in the loop above), then term graph.
        if let Some(contradiction) = self.active_set.get_graph().get_contradiction() {
            let ghost inequality = contradiction.inequality as int;
            let ghost chain = contradiction.chain@;
            assert(contradicts(explored(p, sv).active.graph, inequality, chain));
            self.report_term_graph_contradiction(contradiction);
            return true;
        }
        false
    }

    /// Activates the next clause from the queue, unless we're already done. Returns whether the
    /// prover finished.
    pub fn activate_next(&mut self) -> (r: bool)
        requires
            old(self)@.wf(),
        ensures
            final(self)@.wf(),
            old(self)@.advances(final(self)@, r),
            !r ==> final(self)@.final_step is None,
    {
        let ghost p = self@;
        if self.final_step.is_some() {
            return true;
        }
        if let Some(passive_steps) = self.passive_set.get_contradiction() {
            self.report_passive_contradiction(passive_steps);
            return true;
        }
        let step = match self.passive_set.pop() {
            Some(step) => step,
            None => {
                // We're out of clauses to process, so we can't make any more progress.
                return true;
            },
        };
        if step.truthiness != Truthiness::Factual && self.nonfactual_activations < i32::MAX {
            self.nonfactual_activations = self.nonfactual_activations + 1;
        }
        assert(self@ =~= p.taken());
        if step.clause.is_impossible() {
            self.final_step = Some(step);
            assert(self@ =~= (ProverV { final_step: Some(p.next_step()), ..p.taken() }));
            return true;
        }
        self.activate(step)
    }

    /// What a finished search has found.
    pub fn outcome(&self) -> (r: Outcome)
        ensures
            r@ == self@.verdict(),
    {
        if let Some(final_step) = &self.final_step {
            if final_step.truthiness == Truthiness::Counterfactual {
                // The normal success case
                return Outcome::Success;
            }
            if let Some(NormalizedGoal::ProveNegated(_, true)) = &self.goal {
                // We found an inconsistency in our assumptions, but it's okay
                return Outcome::Success;
            }
            // We found an inconsistency and it's not okay
            return Outcome::Inconsistent;
        }
        Outcome::Exhausted
    }

    /// The problem that there was while facts were added.
    pub fn find_error(&self) -> (r: Option<Outcome>)
        ensures
            match r {
                Some(o) => self@.error matches Some(e) && o@ == OutcomeV::Error(e),
                None => self@.error is None,
            },
    {
        match &self.error {
            Some(s) => Some(Outcome::Error(s.clone())),
            None => None,
        }
    }

    /// One turn of the search. There is an outcome where the search is over.
    pub fn search_step(&mut self, shallow_only: bool) -> (r: Option<Outcome>)
        requires
            old(self)@.wf(),
        ensures
            final(self)@.wf(),
            if shallow_only && !old(self)@.passive.all_shallow {
                final(self)@ == old(self)@ && (r matches Some(o) && o@ == OutcomeV::Exhausted)
            } else {
                &&& old(self)@.advances(final(self)@, r is Some)
                &&& r matches Some(o) ==> o@ == final(self)@.verdict()
            },
    {
        if shallow_only && !self.passive_set.is_all_shallow() {
            return Some(Outcome::Exhausted);
        }
        if self.activate_next() {
            // The prover terminated. Determine which outcome that is.
            return Some(self.outcome());
        }
        None
    }

    /// Why an unfinished search stops.
    pub fn check_limits(&self, stopped: bool, activation_limit: i32, timed_out: bool) -> (r: Option<
        Outcome,
    >)
        ensures
            opt_view(r) == self@.stop_reason(stopped, activation_limit, timed_out),
    {
        if stopped {
            Some(Outcome::Interrupted)
        } else if self.nonfactual_activations >= activation_limit {
            Some(Outcome::Constrained)
        } else if timed_out {
            Some(Outcome::Timeout)
        } else {
            None
        }
    }

    /// Searches for a contradiction, for at most a number of turns.
    ///
    /// The prover stops when it hits a constraint: activating `activation_limit` nonfactual
    /// clauses, taking all the turns, or activating all shallow steps, if `shallow_only` is set.
    pub fn search_for_contradiction(
        &mut self,
        activation_limit: i32,
        turns: u64,
        shallow_only: bool,
    ) -> (r: Outcome)
        requires
            old(self)@.wf(),
        ensures
            final(self)@.wf(),
            exists|states: Seq<ProverV>| #[trigger]
                is_search(
                    states,
                    old(self)@,
                    final(self)@,
                    activation_limit,
                    turns,
                    shallow_only,
                    r@,
                ),
    {
        let ghost start = self@;
        let ghost mut states: Seq<ProverV> = seq![start];
        proof {
            lemma_in_range(*self);
        }
        if let Some(outcome) = self.find_error() {
            assert(is_search(
                states,
                start,
                self@,
                activation_limit,
                turns,
                shallow_only,
                outcome@,
            ));
            return outcome;
        }
        let mut turn: u64 = 0;
        while turn < turns
            invariant
                turn <= turns,
                self@.wf(),
                start == old(self)@,
                start.error is None,
                states.len() == turn + 1,
                states[0] == start,
                states.last() == self@,
                goes_on(states, activation_limit, shallow_only),
                all_in_range(states),
            decreases turns - turn,
        {
            let ghost before = self@;
            if let Some(outcome) = self.search_step(shallow_only) {
                proof {
                    if shallow_only && !before.passive.all_shallow {
                        assert(is_search(
                            states,
                            start,
                            self@,
                            activation_limit,
                            turns,
                            shallow_only,
                            outcome@,
                        ));
                    } else {
                        let all = states.push(self@);
                        lemma_in_range(*self);
                        assert(all.drop_last() =~= states);
                        assert(all[0] == start);
                        assert(is_search(
                            all,
                            start,
                            self@,
                            activation_limit,
                            turns,
                            shallow_only,
                            outcome@,
                        ));
                    }
                }
                return outcome;
            }
            let ghost all = states.push(self@);
            proof {
                lemma_in_range(*self);
            }
            if let Some(outcome) = self.check_limits(false, activation_limit, false) {
                proof {
                    assert(all.drop_last() =~= states);
                    assert(all[0] == start);
                    assert(is_search(
                        all,
                        start,
                        self@,
                        activation_limit,
                        turns,
                        shallow_only,
                        outcome@,
                    ));
                }
                return outcome;
            }
            proof {
                assert forall|i: int, j: int|
                    0 <= i && j == i + 1 && j < all.len() implies turn_taken(
                    #[trigger] all[i],
                    #[trigger] all[j],
                    activation_limit,
                    shallow_only,
                ) by {
                    if j < states.len() {
                        assert(all[i] == states[i]);
                        assert(all[j] == states[j]);
                    } else {
                        assert(all[i] == before);
                        assert(all[j] == self@);
                    }
                }
                states = all;
            }
            turn = turn + 1;
        }
        let outcome = Outcome::Timeout;
        assert(out_of_turns(states, activation_limit, turns, shallow_only, outcome@));
        assert(is_search(
            states,
            start,
            self@,
            activation_limit,
            turns,
            shallow_only,
            outcome@,
        ));
        outcome
    }

    /// Search in verification mode to see if this goal can be easily proven.
    pub fn verification_search(&mut self, turns: u64) -> (r: Outcome)
        requires
            old(self)@.wf(),
        ensures
            final(self)@.wf(),
            exists|states: Seq<ProverV>| #[trigger]
                is_search(
                    states,
                    old(self)@,
                    final(self)@,
                    VERIFICATION_LIMIT,
                    turns,
                    false,
                    r@,
                ),
    {
        self.search_for_contradiction(VERIFICATION_LIMIT, turns, false)
    }

    /// Searches for a little while. Designed to be called multiple times in succession.
    pub fn partial_search(&mut self, turns: u64) -> (r: Outcome)
        requires
            old(self)@.wf(),
        ensures
            final(self)@.wf(),
            exists|states: Seq<ProverV>| #[trigger]
                is_search(states, old(self)@, final(self)@, PARTIAL_LIMIT, turns, false, r@),
    {
        self.search_for_contradiction(PARTIAL_LIMIT, turns, false)
    }

    /// A fast search.
    pub fn quick_search(&mut self, turns: u64) -> (r: Outcome)
        requires
            old(self)@.wf(),
        ensures
            final(self)@.wf(),
            exists|states: Seq<ProverV>| #[trigger]
                is_search(states, old(self)@, final(self)@, QUICK_LIMIT, turns, false, r@),
    {
        self.search_for_contradiction(QUICK_LIMIT, turns, false)
    }

    /// A fast search that only uses shallow steps.
    pub fn quick_shallow_search(&mut self, turns: u64) -> (r: Outcome)
        requires
            old(self)@.wf(),
        ensures
            final(self)@.wf(),
            exists|states: Seq<ProverV>| #[trigger]
                is_search(states, old(self)@, final(self)@, QUICK_LIMIT, turns, true, r@),
    {
        self.search_for_contradiction(QUICK_LIMIT, turns, true)
    }
}

/// Whether the numbers of steps, literals and arguments are machine numbers.
pub open spec fn in_range(p: ProverV) -> bool {
    &&& p.active.steps.len() <= usize::MAX
    &&& forall|i: int|
        0 <= i < p.passive.steps.len() ==> small_step(#[trigger] p.passive.steps[i])
}

/// Whether this holds of all states.
pub open spec fn all_in_range(states: Seq<ProverV>) -> bool {
    forall|i: int| 0 <= i < states.len() ==> in_range(#[trigger] states[i])
}

/// The numbers of steps, literals and arguments are machine numbers.
pub proof fn lemma_in_range(p: Prover)
    ensures
        in_range(p@),
{
    p.active_set.lemma_len();
    p.passive_set.lemma_small();
}

/// Whether the search takes one turn from a state to another and is not over.
pub open spec fn turn_taken(p: ProverV, q: ProverV, limit: i32, shallow_only: bool) -> bool {
    &&& !(shallow_only && !p.passive.all_shallow)
    &&& p.advances(q, false)
    &&& q.stop_reason(false, limit, false) is None
}

/// Whether each state follows from the one before by a turn of a search that is not over.
pub open spec fn goes_on(states: Seq<ProverV>, limit: i32, shallow_only: bool) -> bool {
    forall|i: int, j: int|
        0 <= i && j == i + 1 && j < states.len() ==> turn_taken(
            #[trigger] states[i],
            #[trigger] states[j],
            limit,
            shallow_only,
        )
}

/// Whether a search goes through some states, from the first to the last, and ends with an
/// outcome.
pub open spec fn is_search(
    states: Seq<ProverV>,
    start: ProverV,
    end: ProverV,
    limit: i32,
    turns: u64,
    shallow_only: bool,
    outcome: OutcomeV,
) -> bool {
    &&& states.len() > 0
    &&& states[0] == start
    &&& states.last() == end
    &&& all_in_range(states)
    &&& if start.error is Some {
        states.len() == 1 && outcome == OutcomeV::Error(start.error->0)
    } else {
        ||| out_of_turns(states, limit, turns, shallow_only, outcome)
        ||| out_of_shallow_steps(states, limit, turns, shallow_only, outcome)
        ||| ends_with(states, limit, turns, shallow_only, outcome)
    }
}

/// Whether a search took all its turns without coming to an end.
pub open spec fn out_of_turns(
    states: Seq<ProverV>,
    limit: i32,
    turns: u64,
    shallow_only: bool,
    outcome: OutcomeV,
) -> bool {
    &&& goes_on(states, limit, shallow_only)
    &&& states.len() == turns + 1
    &&& outcome == OutcomeV::Timeout
}

/// Whether a search for shallow steps only came to one that is not shallow.
pub open spec fn out_of_shallow_steps(
    states: Seq<ProverV>,
    limit: i32,
    turns: u64,
    shallow_only: bool,
    outcome: OutcomeV,
) -> bool {
    &&& goes_on(states, limit, shallow_only)
    &&& states.len() <= turns
    &&& shallow_only && !states.last().passive.all_shallow
    &&& outcome == OutcomeV::Exhausted
}

/// Whether the last turn of a search finished it, or made it hit the limit.
pub open spec fn ends_with(
    states: Seq<ProverV>,
    limit: i32,
    turns: u64,
    shallow_only: bool,
    outcome: OutcomeV,
) -> bool {
    let before = states[states.len() - 2];
    let end = states.last();
    &&& 2 <= states.len() <= turns + 1
    &&& goes_on(states.drop_last(), limit, shallow_only)
    &&& !(shallow_only && !before.passive.all_shallow)
    &&& {
        ||| before.advances(end, true) && outcome == end.verdict()
        ||| before.advances(end, false) && end.stop_reason(false, limit, false) == Some(outcome)
    }
}

/// The prover with the first `n` of some propositions added.
pub open spec fn assuming_all(p: ProverV, ps: Seq<PropositionV>, t: Truthiness, n: nat) -> ProverV
    decreases n,
{
    if n == 0 || n > ps.len() {
        p
    } else {
        assuming_all(p, ps, t, (n - 1) as nat).assuming(ps[n - 1], t)
    }
}

/// The prover with all that a goal stands in: facts from the top level are facts, those from the
/// blocks around the goal are hypotheses.
pub open spec fn in_context(p: ProverV, c: GoalContextV) -> ProverV {
    let globals = assuming_all(p, c.global_facts, Truthiness::Factual, c.global_facts.len());
    let locals = assuming_all(
        globals,
        c.local_facts,
        Truthiness::Hypothetical,
        c.local_facts.len(),
    );
    locals.with_goal(c.goal, c.includes_explicit_false)
}

/// A search that is not over has not activated as many nonfactual clauses as it may.
pub proof fn law_searches_stay_below_the_limit(
    states: Seq<ProverV>,
    limit: i32,
    shallow_only: bool,
    i: int,
)
    requires
        goes_on(states, limit, shallow_only),
        0 < i < states.len(),
    ensures
        states[i].nonfactual_activations < limit,
{
    let before = states[i - 1];
    let here = states[i];
    assert(turn_taken(before, here, limit, shallow_only));
}

/// A goal counts as proved only where the search ended with a contradiction that depends on the
/// negated goal, or where inconsistencies are okay.
pub proof fn law_success_needs_a_contradiction(p: ProverV)
    ensures
        p.verdict() == OutcomeV::Success ==> (p.final_step matches Some(s) && (s.truthiness
            == Truthiness::Counterfactual || p.goal matches Some(
            NormalizedGoalV::ProveNegated(_, true),
        ))),
{
}

} // verus!
