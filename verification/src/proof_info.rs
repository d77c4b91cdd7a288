//! Proofs that a search has found, and what there is to say about them.

use vstd::prelude::*;

use crate::acorn_type::ModuleId;
use crate::acorn_value::{AcornValue, ValueV};
use crate::active_set::{consequences, is_upstream, lemma_upstream_more, upstream};
use crate::binding_map::{opt_view, BindingMap, BindingMapV};
use crate::clause::{Clause, ClauseV};
use crate::denormalize::clause_code;
use crate::normalizer::NormalizerV;
use crate::proof_step::{active_steps, passive_steps, ProofStep, ProofStepId, Rule, RuleV, StepV};
use crate::prover::{
    increasing, law_sorted_ids, lemma_prover_view, sort_ids, NormalizedGoal, NormalizedGoalV, Prover, ProverV,
    VERIFICATION_LIMIT,
};
use crate::table::{holds, Duplicate};
use crate::text::views;
use crate::token::Range;

verus! {

broadcast use crate::text::group_views;

/// How hard a proof was to find.
#[derive(Clone, Copy, Debug, PartialEq, Eq, Structural)]
pub enum Difficulty {
    Simple,
    Intermediate,
    /// Verification mode won't find this proof, so we definitely need a shorter one.
    Complicated,
}

/// How many activations a simple proof takes at most.
pub const SIMPLE_LIMIT: i32 = 500;

/// How hard a proof with so many activations was to find.
pub open spec fn difficulty_of(activations: i32) -> Difficulty {
    if activations > VERIFICATION_LIMIT {
        Difficulty::Complicated
    } else if activations > SIMPLE_LIMIT {
        Difficulty::Intermediate
    } else {
        Difficulty::Simple
    }
}

/// A proof, exactly how it was found.
#[derive(Debug)]
pub struct Proof {
    /// The negation of what is proved.
    pub negated_goal: AcornValue,
    pub difficulty: Difficulty,
    /// All steps: active ones in the order of their ids, then passive ones, then the final step.
    pub all_steps: Vec<(ProofStepId, ProofStep)>,
}

/// The model of a proof.
#[verifier::ext_equal]
pub struct ProofV {
    pub negated_goal: ValueV,
    pub difficulty: Difficulty,
    pub all_steps: Seq<(ProofStepId, StepV)>,
}

/// The models of steps with their ids.
pub open spec fn named_steps(s: Seq<(ProofStepId, ProofStep)>) -> Seq<(ProofStepId, StepV)> {
    Seq::new(s.len(), |i: int| (s[i].0, s[i].1@))
}

impl View for Proof {
    type V = ProofV;

    open spec fn view(&self) -> ProofV {
        ProofV {
            negated_goal: self.negated_goal@,
            difficulty: self.difficulty,
            all_steps: named_steps(self.all_steps@),
        }
    }
}

/// Whether an active step was used for the final step, or for a passive step that was used.
pub open spec fn is_useful(p: ProverV, inspired: bool, id: usize) -> bool {
    ||| p.final_step is Some && is_upstream(
        p.active.steps,
        p.final_step->0.active_dependencies(inspired),
        inspired,
        id,
    )
    ||| exists|k: int|
        0 <= k < p.useful_passive.len() && is_upstream(
            p.active.steps,
            (#[trigger] p.useful_passive[k]).active_dependencies(inspired),
            inspired,
            id,
        )
}

/// All steps of a proof, where the ids of the active ones are given.
pub open spec fn steps_of(p: ProverV, ids: Seq<usize>) -> Seq<(ProofStepId, StepV)> {
    Seq::new(
        ids.len(),
        |i: int| (ProofStepId::Active(ids[i]), p.active.steps[ids[i] as int]),
    ) + Seq::new(
        p.useful_passive.len(),
        |i: int| (ProofStepId::Passive(i as u32), p.useful_passive[i]),
    ) + seq![(ProofStepId::Final, p.final_step->0)]
}

/// Whether ids are exactly those of the useful active steps, from the smallest to the largest.
pub open spec fn are_useful(p: ProverV, inspired: bool, ids: Seq<usize>) -> bool {
    increasing(ids) && forall|id: usize| #[trigger]
        ids.contains(id) <==> is_useful(p, inspired, id)
}

/// Whether a proof is the one that a prover has found.
pub open spec fn is_proof(p: ProverV, inspired: bool, pf: ProofV) -> bool {
    &&& p.final_step is Some
    &&& p.goal matches Some(NormalizedGoalV::ProveNegated(v, _)) && pf.negated_goal == v
    &&& pf.difficulty == difficulty_of(p.nonfactual_activations)
    &&& exists|ids: Seq<usize>| #[trigger]
        are_useful(p, inspired, ids) && pf.all_steps == steps_of(p, ids)
}

/// Whether ids contain with an active step what it depends on.
spec fn is_complete(steps: Seq<StepV>, inspired: bool, ids: Seq<usize>) -> bool {
    forall|id: usize, d: usize|
        ids.contains(id) && #[trigger] steps[id as int].active_dependencies(inspired).contains(d)
            && d < steps.len() ==> ids.contains(d)
}

proof fn lemma_path_inside(
    steps: Seq<StepV>,
    inspired: bool,
    ids: Seq<usize>,
    path: Seq<usize>,
    k: nat,
)
    requires
        is_complete(steps, inspired, ids),
        k < path.len(),
        ids.contains(path[0]),
        forall|i: int| 0 <= i < path.len() ==> #[trigger] path[i] < steps.len(),
        forall|i: int, j: int|
            0 <= i && j == i + 1 && j < path.len() ==> steps[(#[trigger] path[i])
                as int].active_dependencies(inspired).contains(#[trigger] path[j]),
    ensures
        ids.contains(path[k as int]),
    decreases k,
{
    if k > 0 {
        lemma_path_inside(steps, inspired, ids, path, (k - 1) as nat);
        let before = path[k - 1];
        let here = path[k as int];
        assert(steps[before as int].active_dependencies(inspired).contains(here));
    }
}

proof fn lemma_upstream_inside(
    steps: Seq<StepV>,
    roots: Seq<usize>,
    inspired: bool,
    ids: Seq<usize>,
    id: usize,
)
    requires
        is_complete(steps, inspired, ids),
        forall|r: usize| #[trigger] roots.contains(r) && r < steps.len() ==> ids.contains(r),
        is_upstream(steps, roots, inspired, id),
    ensures
        ids.contains(id),
{
    let path = choose|path: Seq<usize>| #[trigger] upstream(steps, roots, inspired, id, path);
    assert(path[0] < steps.len());
    lemma_path_inside(steps, inspired, ids, path, (path.len() - 1) as nat);
}

/// Names with labels.
pub open spec fn labelled(label: Seq<char>, ids: Seq<ProofStepId>) -> Seq<(Seq<char>, ProofStepId)> {
    Seq::new(ids.len(), |i: int| (label, ids[i]))
}

/// What a step depends on by its rule, with a description of each.
pub open spec fn described_premises(r: RuleV) -> Seq<(Seq<char>, ProofStepId)> {
    match r {
        RuleV::Assumption { .. } => Seq::empty(),
        RuleV::Resolution(i) => seq![
            ("long resolver"@, ProofStepId::Active(i.long_id)),
            ("short resolver"@, ProofStepId::Active(i.short_id)),
        ],
        RuleV::Rewrite { pattern_id, target_id, .. } => seq![
            ("target"@, ProofStepId::Active(target_id)),
            ("pattern"@, ProofStepId::Active(pattern_id)),
        ],
        RuleV::EqualityFactoring { id, .. } => seq![("source"@, ProofStepId::Active(id))],
        RuleV::EqualityResolution { id, .. } => seq![("source"@, ProofStepId::Active(id))],
        RuleV::FunctionElimination { id, .. } => seq![("source"@, ProofStepId::Active(id))],
        RuleV::Specialization(i) => seq![("pattern"@, ProofStepId::Active(i.pattern_id))],
        RuleV::MultipleRewrite { inequality_id, active_ids, passive_ids } => seq![
            ("inequality"@, ProofStepId::Active(inequality_id)),
        ] + labelled("equality"@, active_steps(active_ids)) + labelled(
            "specialization"@,
            passive_steps(passive_ids),
        ),
        RuleV::PassiveContradiction(n) => labelled(
            "clause"@,
            Seq::new(n as nat, |i: int| ProofStepId::Passive(i as u32)),
        ),
    }
}

/// What a step depends on, with a description of each.
pub open spec fn described(s: StepV) -> Seq<(Seq<char>, ProofStepId)> {
    described_premises(s.rule) + labelled("simplification"@, active_steps(s.simplification_rules))
}

/// The ids in a list of descriptions.
pub open spec fn described_ids(s: Seq<(Seq<char>, ProofStepId)>) -> Seq<ProofStepId> {
    Seq::new(s.len(), |i: int| s[i].1)
}

/// A step is described by what it depends on: each dependency is there, and nothing else.
pub proof fn law_descriptions_are_dependencies(s: StepV, id: ProofStepId)
    ensures
        described_ids(described(s)).contains(id) <==> s.dependencies().contains(id),
{
    let premises = crate::proof_step::premises_of(s.rule);
    let more = active_steps(s.simplification_rules);
    let first = described_ids(described_premises(s.rule));
    assert(described_ids(described(s)) =~= first + more);
    assert(first.contains(id) <==> premises.contains(id)) by {
        match s.rule {
            RuleV::Resolution(i) => {
                assert(first[0] == premises[1] && first[1] == premises[0]);
            },
            RuleV::Rewrite { pattern_id, target_id, .. } => {
                assert(first[0] == premises[1] && first[1] == premises[0]);
            },
            _ => {
                assert(first =~= premises);
            },
        }
    }
    assert forall|a: Seq<ProofStepId>| #[trigger] (a + more).contains(id) <==> a.contains(id)
        || more.contains(id) by {
        if a.contains(id) {
            let k = choose|k: int| 0 <= k < a.len() && a[k] == id;
            assert((a + more)[k] == id);
        }
        if more.contains(id) {
            let k = choose|k: int| 0 <= k < more.len() && more[k] == id;
            assert((a + more)[a.len() + k] == id);
        }
    }
    assert((first + more).contains(id) <==> (premises + more).contains(id));
}

/// The models of descriptions.
pub open spec fn descriptions(s: Seq<(String, ProofStepId)>) -> Seq<(Seq<char>, ProofStepId)> {
    Seq::new(s.len(), |i: int| (s[i].0@, s[i].1))
}

fn push_description(out: &mut Vec<(String, ProofStepId)>, label: &str, id: ProofStepId)
    ensures
        descriptions(final(out)@) == descriptions(old(out)@).push((label@, id)),
{
    let ghost before = out@;
    out.push((label.to_owned(), id));
    assert(descriptions(out@) =~= descriptions(before).push((label@, id)));
}

fn push_active(out: &mut Vec<(String, ProofStepId)>, label: &str, ids: &Vec<usize>)
    ensures
        descriptions(final(out)@) == descriptions(old(out)@) + labelled(label@, active_steps(ids@)),
{
    let ghost start = descriptions(out@);
    let ghost all = labelled(label@, active_steps(ids@));
    let mut i: usize = 0;
    assert(start + all.take(0) =~= start);
    while i < ids.len()
        invariant
            i <= ids.len(),
            all == labelled(label@, active_steps(ids@)),
            descriptions(out@) == start + all.take(i as int),
        decreases ids.len() - i,
    {
        push_description(out, label, ProofStepId::Active(ids[i]));
        assert(start + all.take(i + 1) =~= (start + all.take(i as int)).push(all[i as int]));
        i = i + 1;
    }
    assert(all.take(all.len() as int) =~= all);
}

fn push_passive(out: &mut Vec<(String, ProofStepId)>, label: &str, ids: &Vec<u32>)
    ensures
        descriptions(final(out)@) == descriptions(old(out)@) + labelled(label@, passive_steps(ids@)),
{
    let ghost start = descriptions(out@);
    let ghost all = labelled(label@, passive_steps(ids@));
    let mut i: usize = 0;
    assert(start + all.take(0) =~= start);
    while i < ids.len()
        invariant
            i <= ids.len(),
            all == labelled(label@, passive_steps(ids@)),
            descriptions(out@) == start + all.take(i as int),
        decreases ids.len() - i,
    {
        push_description(out, label, ProofStepId::Passive(ids[i]));
        assert(start + all.take(i + 1) =~= (start + all.take(i as int)).push(all[i as int]));
        i = i + 1;
    }
    assert(all.take(all.len() as int) =~= all);
}

fn push_numbers(out: &mut Vec<(String, ProofStepId)>, label: &str, n: u32)
    ensures
        descriptions(final(out)@) == descriptions(old(out)@) + labelled(
            label@,
            Seq::new(n as nat, |i: int| ProofStepId::Passive(i as u32)),
        ),
{
    let ghost start = descriptions(out@);
    let ghost all = labelled(label@, Seq::new(n as nat, |i: int| ProofStepId::Passive(i as u32)));
    let mut i: u32 = 0;
    assert(start + all.take(0) =~= start);
    while i < n
        invariant
            i <= n,
            all == labelled(label@, Seq::new(n as nat, |i: int| ProofStepId::Passive(i as u32))),
            descriptions(out@) == start + all.take(i as int),
        decreases n - i,
    {
        push_description(out, label, ProofStepId::Passive(i));
        assert(start + all.take(i + 1) =~= (start + all.take(i as int)).push(all[i as int]));
        i = i + 1;
    }
    assert(all.take(all.len() as int) =~= all);
}

/// A description and an id for every clause that a step depends on.
pub fn descriptive_dependencies(step: &ProofStep) -> (r: Vec<(String, ProofStepId)>)
    ensures
        descriptions(r@) == described(step@),
{
    let mut out: Vec<(String, ProofStepId)> = Vec::new();
    let ghost none = Seq::<(Seq<char>, ProofStepId)>::empty();
    assert(descriptions(out@) =~= none);
    match &step.rule {
        Rule::Assumption(_) => {},
        Rule::Resolution(info) => {
            push_description(&mut out, "long resolver", ProofStepId::Active(info.long_id));
            push_description(&mut out, "short resolver", ProofStepId::Active(info.short_id));
        },
        Rule::Rewrite(info) => {
            push_description(&mut out, "target", ProofStepId::Active(info.target_id));
            push_description(&mut out, "pattern", ProofStepId::Active(info.pattern_id));
        },
        Rule::EqualityFactoring(info) => {
            push_description(&mut out, "source", ProofStepId::Active(info.id));
        },
        Rule::EqualityResolution(info) => {
            push_description(&mut out, "source", ProofStepId::Active(info.id));
        },
        Rule::FunctionElimination(info) => {
            push_description(&mut out, "source", ProofStepId::Active(info.id));
        },
        Rule::Specialization(info) => {
            push_description(&mut out, "pattern", ProofStepId::Active(info.pattern_id));
        },
        Rule::MultipleRewrite(info) => {
            push_description(&mut out, "inequality", ProofStepId::Active(info.inequality_id));
            push_active(&mut out, "equality", &info.active_ids);
            push_passive(&mut out, "specialization", &info.passive_ids);
        },
        Rule::PassiveContradiction(n) => {
            push_numbers(&mut out, "clause", *n);
        },
    }
    assert(descriptions(out@) =~= described_premises(step@.rule));
    push_active(&mut out, "simplification", &step.simplification_rules);
    out
}

/// Information about a clause.
#[derive(Debug)]
pub struct ClauseInfo {
    /// The clause. A contradiction has no text.
    pub text: Option<String>,
    /// We only take active ids, because the others have no external meaning.
    pub id: Option<usize>,
}

/// The model of information about a clause.
pub struct ClauseInfoV {
    pub text: Option<Seq<char>>,
    pub id: Option<usize>,
}

impl View for ClauseInfo {
    type V = ClauseInfoV;

    open spec fn view(&self) -> ClauseInfoV {
        ClauseInfoV { text: opt_view(self.text), id: self.id }
    }
}

/// Information about a step.
#[derive(Debug)]
pub struct ProofStepInfo {
    pub clause: ClauseInfo,
    /// What the step depends on, each with a description.
    pub premises: Vec<(String, ClauseInfo)>,
    /// The rule that gave the step, in words.
    pub rule: String,
    /// Where an assumption comes from.
    pub location: Option<(ModuleId, Range)>,
    pub depth: u32,
}

/// The model of information about a step.
#[verifier::ext_equal]
pub struct ProofStepInfoV {
    pub clause: ClauseInfoV,
    pub premises: Seq<(Seq<char>, ClauseInfoV)>,
    pub rule: Seq<char>,
    pub location: Option<(ModuleId, Range)>,
    pub depth: u32,
}

/// The models of premises.
pub open spec fn premises_view(s: Seq<(String, ClauseInfo)>) -> Seq<(Seq<char>, ClauseInfoV)> {
    Seq::new(s.len(), |i: int| (s[i].0@, s[i].1@))
}

impl View for ProofStepInfo {
    type V = ProofStepInfoV;

    open spec fn view(&self) -> ProofStepInfoV {
        ProofStepInfoV {
            clause: self.clause@,
            premises: premises_view(self.premises@),
            rule: self.rule@,
            location: self.location,
            depth: self.depth,
        }
    }
}

/// Information about a clause and what follows from it.
#[derive(Debug)]
pub struct InfoResult {
    /// The step that proved the clause.
    pub step: ProofStepInfo,
    /// Some of the steps that depend on it.
    pub consequences: Vec<ProofStepInfo>,
    /// How many steps depend on it.
    pub num_consequences: usize,
}

/// How many consequences are listed at most.
pub const INFO_LIMIT: usize = 100;

/// Information about a clause.
pub open spec fn clause_info(
    m: NormalizerV,
    b: BindingMapV,
    id: Option<usize>,
    c: ClauseV,
) -> ClauseInfoV {
    ClauseInfoV {
        text: if c.is_impossible() {
            None
        } else {
            Some(clause_code(m, b, c))
        },
        id,
    }
}

/// The rule of a step, in words, and where it comes from.
pub open spec fn rule_info(r: RuleV) -> (Seq<char>, Option<(ModuleId, Range)>) {
    match r {
        RuleV::Assumption { source, .. } => (
            source.description(),
            Some((source.module, source.range)),
        ),
        RuleV::Resolution(_) => ("resolution"@, None),
        RuleV::Rewrite { .. } => ("rewrite"@, None),
        RuleV::EqualityFactoring { .. } => ("equality factoring"@, None),
        RuleV::EqualityResolution { .. } => ("equality resolution"@, None),
        RuleV::FunctionElimination { .. } => ("function elimination"@, None),
        RuleV::Specialization(_) => ("specialization"@, None),
        RuleV::MultipleRewrite { .. } => ("multiple rewrite"@, None),
        RuleV::PassiveContradiction(_) => ("passive contradiction"@, None),
    }
}

/// The active id of a step.
pub open spec fn active_id_of(id: ProofStepId) -> Option<usize> {
    match id {
        ProofStepId::Active(i) => Some(i),
        _ => None,
    }
}

impl ProverV {
    /// The clause with an id.
    pub open spec fn clause_at(self, id: ProofStepId) -> Option<ClauseV> {
        match id {
            ProofStepId::Active(i) => if i < self.active.steps.len() {
                Some(self.active.steps[i as int].clause)
            } else {
                None
            },
            ProofStepId::Passive(i) => if i < self.useful_passive.len() {
                Some(self.useful_passive[i as int].clause)
            } else {
                None
            },
            ProofStepId::Final => match self.final_step {
                Some(s) => Some(s.clause),
                None => None,
            },
        }
    }

    /// Information about the first `n` of some dependencies.
    pub open spec fn premise_infos(
        self,
        b: BindingMapV,
        ds: Seq<(Seq<char>, ProofStepId)>,
        n: nat,
    ) -> Option<
        Seq<(Seq<char>, ClauseInfoV)>,
    >
        decreases n,
    {
        if n == 0 || n > ds.len() {
            Some(Seq::empty())
        } else {
            match (self.premise_infos(b, ds, (n - 1) as nat), self.clause_at(ds[n - 1].1)) {
                (Some(before), Some(c)) => Some(
                    before.push(
                        (
                            ds[n - 1].0,
                            clause_info(self.normalizer, b, active_id_of(ds[n - 1].1), c),
                        ),
                    ),
                ),
                _ => None,
            }
        }
    }

    /// Information about a step, where all clauses that it depends on are known.
    pub open spec fn step_info(self, b: BindingMapV, id: Option<usize>, s: StepV) -> Option<
        ProofStepInfoV,
    > {
        match self.premise_infos(b, described(s), described(s).len()) {
            Some(premises) => Some(
                ProofStepInfoV {
                    clause: clause_info(self.normalizer, b, id, s.clause),
                    premises,
                    rule: rule_info(s.rule).0,
                    location: rule_info(s.rule).1,
                    depth: s.depth,
                },
            ),
            None => None,
        }
    }

    /// The steps that depend on an active step: the final one, then active ones, then passive
    /// ones.
    pub open spec fn dependents(self, id: usize) -> Seq<(Option<usize>, StepV)> {
        let last = if self.final_step is Some && self.final_step->0.dependencies().contains(
            ProofStepId::Active(id),
        ) {
            seq![(None::<usize>, self.final_step->0)]
        } else {
            Seq::empty()
        };
        let active = consequences(self.active.steps, id, self.active.steps.len());
        let passive = consequences(self.passive.steps, id, self.passive.steps.len());
        last + Seq::new(
            active.len(),
            |i: int| (Some(active[i]), self.active.steps[active[i] as int]),
        ) + Seq::new(passive.len(), |i: int| (None::<usize>, self.passive.steps[passive[i] as int]))
    }

    /// Information about the first `n` of some steps.
    pub open spec fn step_infos(
        self,
        b: BindingMapV,
        ss: Seq<(Option<usize>, StepV)>,
        n: nat,
    ) -> Option<
        Seq<ProofStepInfoV>,
    >
        decreases n,
    {
        if n == 0 || n > ss.len() {
            Some(Seq::empty())
        } else {
            match (
                self.step_infos(b, ss, (n - 1) as nat),
                self.step_info(b, ss[n - 1].0, ss[n - 1].1),
            ) {
                (Some(before), Some(s)) => Some(before.push(s)),
                _ => None,
            }
        }
    }

    /// How many consequences are listed.
    pub open spec fn listed(self, id: usize) -> nat {
        if self.dependents(id).len() < INFO_LIMIT {
            self.dependents(id).len()
        } else {
            INFO_LIMIT as nat
        }
    }
}

proof fn lemma_premise_infos_fail(
    p: ProverV,
    b: BindingMapV,
    ds: Seq<(Seq<char>, ProofStepId)>,
    k: nat,
    n: nat,
)
    requires
        k <= n <= ds.len(),
        p.premise_infos(b, ds, k) is None,
    ensures
        p.premise_infos(b, ds, n) is None,
    decreases n,
{
    if k < n {
        lemma_premise_infos_fail(p, b, ds, k, (n - 1) as nat);
    }
}

proof fn lemma_step_infos_fail(
    p: ProverV,
    b: BindingMapV,
    ss: Seq<(Option<usize>, StepV)>,
    k: nat,
    n: nat,
)
    requires
        k <= n <= ss.len(),
        p.step_infos(b, ss, k) is None,
    ensures
        p.step_infos(b, ss, n) is None,
    decreases n,
{
    if k < n {
        lemma_step_infos_fail(p, b, ss, k, (n - 1) as nat);
    }
}

proof fn lemma_consequences(steps: Seq<StepV>, id: usize, n: nat)
    requires
        n <= steps.len() <= usize::MAX,
    ensures
        forall|i: int|
            0 <= i < consequences(steps, id, n).len() ==> (#[trigger] consequences(steps, id, n)[i])
                < n,
        consequences(steps, id, n).len() <= n,
    decreases n,
{
    if n > 0 {
        lemma_consequences(steps, id, (n - 1) as nat);
    }
}

/// The models of references to steps.
pub open spec fn refs_view(s: Seq<(Option<usize>, &ProofStep)>) -> Seq<(Option<usize>, StepV)> {
    Seq::new(s.len(), |i: int| (s[i].0, s[i].1@))
}

/// The facts that a proof uses: a list of names with one more, unless it is there.
pub open spec fn with_name(names: Seq<(ModuleId, Seq<char>)>, x: (ModuleId, Seq<char>)) -> Seq<
    (ModuleId, Seq<char>),
> {
    if names.contains(x) {
        names
    } else {
        names.push(x)
    }
}

/// The name of the fact that a step assumes. Facts that cannot be imported are local ones that
/// don't count.
pub open spec fn assumed_name(s: StepV) -> Option<(ModuleId, Seq<char>)> {
    match s.rule {
        RuleV::Assumption { source, .. } => if source.importable && source.name() is Some {
            Some((source.module, source.name()->0))
        } else {
            None
        },
        _ => None,
    }
}

/// Names with those of the facts that the first `n` steps assume.
pub open spec fn with_names(
    names: Seq<(ModuleId, Seq<char>)>,
    steps: Seq<(ProofStepId, StepV)>,
    n: nat,
) -> Seq<(ModuleId, Seq<char>)>
    decreases n,
{
    if n == 0 || n > steps.len() {
        names
    } else {
        let before = with_names(names, steps, (n - 1) as nat);
        match assumed_name(steps[n - 1].1) {
            Some(x) => with_name(before, x),
            None => before,
        }
    }
}

impl Prover {
    /// Gets a proof, if we have one. It does not do any simplification of the proof, it's just
    /// exactly how we found it. We always take all of the steps that are mathematically necessary
    /// for the proof. The flag determines whether we also take the "inspiration" steps, which the
    /// prover used to find the proof, but are not needed for the proof to be valid.
    pub fn get_uncondensed_proof(&self, include_inspiration: bool) -> (r: Option<Proof>)
        ensures
            match r {
                Some(pf) => is_proof(self@, include_inspiration, pf@),
                None => !(self@.final_step is Some && self@.goal matches Some(
                    NormalizedGoalV::ProveNegated(_, _),
                )),
            },
    {
        proof {
            lemma_prover_view(*self);
        }
        let ghost p = self@;
        let ghost steps = p.active.steps;
        let final_step = match &self.final_step {
            Some(step) => step,
            None => {
                return None;
            },
        };
        let negated_goal = match &self.goal {
            Some(NormalizedGoal::ProveNegated(negated_goal, _)) => negated_goal,
            _ => {
                return None;
            },
        };
        let ids = self.find_useful(final_step, include_inspiration);
        let difficulty = if self.nonfactual_activations > VERIFICATION_LIMIT {
            Difficulty::Complicated
        } else if self.nonfactual_activations > SIMPLE_LIMIT {
            // Arbitrary heuristic
            Difficulty::Intermediate
        } else {
            Difficulty::Simple
        };
        let mut all_steps: Vec<(ProofStepId, ProofStep)> = Vec::new();
        let ghost whole = steps_of(p, ids@);
        let mut i: usize = 0;
        while i < ids.len()
            invariant
                i <= ids.len(),
                p == self@,
                p.active == self.active_set@,
                whole == steps_of(p, ids@),
                are_useful(p, include_inspiration, ids@),
                forall|id: usize| #[trigger] ids@.contains(id) ==> id < p.active.steps.len(),
                named_steps(all_steps@) =~= whole.take(i as int),
            decreases ids.len() - i,
        {
            let ghost before = all_steps@;
            assert(ids@.contains(ids@[i as int]));
            let step = self.active_set.get_step(ids[i]);
            all_steps.push((ProofStepId::Active(ids[i]), step.duplicate()));
            assert(whole[i as int] == (
                ProofStepId::Active(ids@[i as int]),
                p.active.steps[ids@[i as int] as int],
            ));
            assert(named_steps(all_steps@) =~= named_steps(before).push(whole[i as int]));
            assert(whole.take(i + 1) =~= whole.take(i as int).push(whole[i as int]));
            i = i + 1;
        }
        let n = ids.len();
        let mut k: usize = 0;
        while k < self.useful_passive.len()
            invariant
                k <= self.useful_passive.len(),
                n == ids.len(),
                p == self@,
                p.useful_passive == views(self.useful_passive@),
                whole == steps_of(p, ids@),
                named_steps(all_steps@) =~= whole.take(n + k),
            decreases self.useful_passive.len() - k,
        {
            let ghost before = all_steps@;
            let step = &self.useful_passive[k];
            all_steps.push((ProofStepId::Passive(k as u32), step.duplicate()));
            assert(whole[n + k] == (ProofStepId::Passive(k as u32), p.useful_passive[k as int]));
            assert(named_steps(all_steps@) =~= named_steps(before).push(whole[n + k]));
            assert(whole.take(n + k + 1) =~= whole.take(n + k).push(whole[n + k]));
            k = k + 1;
        }
        let ghost before = all_steps@;
        all_steps.push((ProofStepId::Final, final_step.duplicate()));
        proof {
            assert(named_steps(all_steps@) =~= named_steps(before).push(
                (ProofStepId::Final, final_step@),
            ));
            assert(named_steps(all_steps@) =~= whole);
            assert(are_useful(p, include_inspiration, ids@));
        }
        Some(Proof { negated_goal: negated_goal.duplicate(), difficulty, all_steps })
    }

    // The ids of the active steps that a proof uses.
    fn find_useful(&self, final_step: &ProofStep, inspired: bool) -> (r: Vec<usize>)
        requires
            self@.final_step == Some(final_step@),
        ensures
            are_useful(self@, inspired, r@),
            forall|id: usize| #[trigger] r@.contains(id) ==> id < self@.active.steps.len(),
    {
        proof {
            lemma_prover_view(*self);
        }
        let ghost p = self@;
        let ghost steps = p.active.steps;
        let ghost roots = final_step@.active_dependencies(inspired);
        let mut found: Vec<usize> = Vec::new();
        self.active_set.find_upstream(final_step, inspired, &mut found);
        assert(is_complete(steps, inspired, found@));
        let mut k: usize = 0;
        while k < self.useful_passive.len()
            invariant
                k <= self.useful_passive.len(),
                p == self@,
                p.active == self.active_set@,
                p.useful_passive == views(self.useful_passive@),
                p.final_step == Some(final_step@),
                steps == p.active.steps,
                roots == final_step@.active_dependencies(inspired),
                is_complete(steps, inspired, found@),
                forall|id: usize| #[trigger]
                    found@.contains(id) ==> id < steps.len() && is_useful(p, inspired, id),
                forall|id: usize| #[trigger]
                    roots.contains(id) && id < steps.len() ==> found@.contains(id),
                forall|j: int, id: usize|
                    0 <= j < k && #[trigger] p.useful_passive[j].active_dependencies(
                        inspired,
                    ).contains(id) && id < steps.len() ==> found@.contains(id),
            decreases self.useful_passive.len() - k,
        {
            let ghost before = found@;
            let step = &self.useful_passive[k];
            assert(p.useful_passive[k as int] == step@);
            self.active_set.find_upstream(step, inspired, &mut found);
            proof {
                assert forall|id: usize, d: usize|
                    found@.contains(id) && #[trigger] steps[id as int].active_dependencies(
                        inspired,
                    ).contains(d) && d < steps.len() implies found@.contains(d) by {
                    if before.contains(id) {
                        assert(before.contains(d));
                    }
                }
                assert forall|id: usize| #[trigger] found@.contains(id) implies id < steps.len()
                    && is_useful(p, inspired, id) by {
                    if !before.contains(id) {
                        assert(is_upstream(
                            steps,
                            p.useful_passive[k as int].active_dependencies(inspired),
                            inspired,
                            id,
                        ));
                    }
                }
            }
            k = k + 1;
        }
        let sorted = sort_ids(&found);
        proof {
            law_sorted_ids(found@, found@.len());
            assert(found@.take(found@.len() as int) =~= found@);
            assert forall|id: usize| is_useful(p, inspired, id) implies #[trigger] sorted@.contains(
                id,
            ) by {
                if is_upstream(steps, roots, inspired, id) {
                    lemma_upstream_inside(steps, roots, inspired, found@, id);
                } else {
                    let j = choose|j: int|
                        0 <= j < p.useful_passive.len() && is_upstream(
                            p.active.steps,
                            (#[trigger] p.useful_passive[j]).active_dependencies(inspired),
                            inspired,
                            id,
                        );
                    let more = p.useful_passive[j].active_dependencies(inspired);
                    lemma_upstream_inside(steps, more, inspired, found@, id);
                }
            }
        }
        sorted
    }

    /// Gets the qualified name of every fact that was used in the proof. This takes in the
    /// "inspiration" facts that were used to find the proof but are not mathematically necessary
    /// for the proof to be valid.
    pub fn get_useful_fact_names(&self, names: &mut Vec<(ModuleId, String)>)
        ensures
            (self@.final_step is Some && self@.goal matches Some(
                NormalizedGoalV::ProveNegated(_, _),
            )) ==> exists|pf: ProofV| #[trigger]
                is_proof(self@, true, pf) && views(final(names)@) == with_names(
                    views(old(names)@),
                    pf.all_steps,
                    pf.all_steps.len(),
                ),
            !(self@.final_step is Some && self@.goal matches Some(
                NormalizedGoalV::ProveNegated(_, _),
            )) ==> final(names)@ == old(names)@,
    {
        let pf = match self.get_uncondensed_proof(true) {
            Some(pf) => pf,
            None => {
                return;
            },
        };
        let ghost start = views(names@);
        let ghost steps = pf@.all_steps;
        let mut i: usize = 0;
        while i < pf.all_steps.len()
            invariant
                i <= pf.all_steps.len(),
                steps == named_steps(pf.all_steps@),
                views(names@) == with_names(start, steps, i as nat),
            decreases pf.all_steps.len() - i,
        {
            assert(steps[i as int] == (
                pf.all_steps@[i as int].0,
                pf.all_steps@[i as int].1@,
            ));
            if let Rule::Assumption(info) = &pf.all_steps[i].1.rule {
                // Non-importable facts are local ones that don't count.
                if info.source.importable {
                    if let Some(name) = info.source.qualified_fact_name() {
                        if !holds(names, &name) {
                            names.push(name);
                        }
                    }
                }
            }
            i = i + 1;
        }
        assert(is_proof(self@, true, pf@));
    }

    /// The clause with an id.
    pub fn get_clause(&self, id: ProofStepId) -> (r: Option<&Clause>)
        ensures
            match r {
                Some(c) => self@.clause_at(id) == Some(c@),
                None => self@.clause_at(id) is None,
            },
    {
        proof {
            lemma_prover_view(*self);
        }
        match id {
            ProofStepId::Active(i) => if self.active_set.has_step(i) {
                Some(self.active_set.get_clause(i))
            } else {
                None
            },
            ProofStepId::Passive(i) => {
                assert(self@.useful_passive.len() == self.useful_passive@.len());
                if (i as usize) < self.useful_passive.len() {
                    assert(self@.useful_passive[i as int] == self.useful_passive@[i as int]@);
                    Some(&self.useful_passive[i as usize].clause)
                } else {
                    None
                }
            },
            ProofStepId::Final => match &self.final_step {
                Some(s) => Some(&s.clause),
                None => None,
            },
        }
    }

    /// Information about a clause.
    pub fn to_clause_info(
        &self,
        bindings: &BindingMap,
        id: Option<usize>,
        clause: &Clause,
    ) -> (r: ClauseInfo)
        ensures
            r@ == clause_info(self@.normalizer, bindings@, id, clause@),
    {
        proof {
            lemma_prover_view(*self);
        }
        let text = if clause.is_impossible() {
            None
        } else {
            Some(self.normalizer.clause_to_code(bindings, clause))
        };
        ClauseInfo { text, id }
    }

    /// Information about a step, where all clauses that it depends on are known.
    pub fn to_proof_step_info(
        &self,
        bindings: &BindingMap,
        active_id: Option<usize>,
        step: &ProofStep,
    ) -> (r: Option<ProofStepInfo>)
        ensures
            opt_view(r) == self@.step_info(bindings@, active_id, step@),
    {
        let ghost p = self@;
        let ghost b = bindings@;
        let clause = self.to_clause_info(bindings, active_id, &step.clause);
        let dependencies = descriptive_dependencies(step);
        let ghost ds = described(step@);
        let mut premises: Vec<(String, ClauseInfo)> = Vec::new();
        assert(premises_view(premises@) =~= Seq::<(Seq<char>, ClauseInfoV)>::empty());
        let mut i: usize = 0;
        while i < dependencies.len()
            invariant
                i <= dependencies.len(),
                p == self@,
                b == bindings@,
                ds == descriptions(dependencies@),
                ds == described(step@),
                p.premise_infos(b, ds, i as nat) == Some(premises_view(premises@)),
            decreases dependencies.len() - i,
        {
            let id = dependencies[i].1;
            assert(ds[i as int] == (dependencies@[i as int].0@, id));
            let ghost before = premises@;
            match self.get_clause(id) {
                Some(c) => {
                    let info = self.to_clause_info(bindings, id.active_id(), c);
                    premises.push((dependencies[i].0.clone(), info));
                    assert(premises_view(premises@) =~= premises_view(before).push(
                        (ds[i as int].0, info@),
                    ));
                },
                None => {
                    proof {
                        lemma_premise_infos_fail(p, b, ds, (i + 1) as nat, ds.len());
                    }
                    return None;
                },
            }
            i = i + 1;
        }
        let (rule, location) = match &step.rule {
            Rule::Assumption(info) => (
                info.source.description(),
                Some((info.source.module, info.source.range)),
            ),
            Rule::Resolution(_) => ("resolution".to_owned(), None),
            Rule::Rewrite(_) => ("rewrite".to_owned(), None),
            Rule::EqualityFactoring(_) => ("equality factoring".to_owned(), None),
            Rule::EqualityResolution(_) => ("equality resolution".to_owned(), None),
            Rule::FunctionElimination(_) => ("function elimination".to_owned(), None),
            Rule::Specialization(_) => ("specialization".to_owned(), None),
            Rule::MultipleRewrite(_) => ("multiple rewrite".to_owned(), None),
            Rule::PassiveContradiction(_) => ("passive contradiction".to_owned(), None),
        };
        Some(ProofStepInfo { clause, premises, rule, location, depth: step.depth })
    }

    fn infos(
        &self,
        bindings: &BindingMap,
        steps: &Vec<(Option<usize>, &ProofStep)>,
        n: usize,
    ) -> (r: Option<Vec<ProofStepInfo>>)
        requires
            n <= steps.len(),
        ensures
            match r {
                Some(v) => self@.step_infos(bindings@, refs_view(steps@), n as nat) == Some(views(v@)),
                None => self@.step_infos(bindings@, refs_view(steps@), n as nat) is None,
            },
    {
        let ghost p = self@;
        let ghost b = bindings@;
        let ghost ss = refs_view(steps@);
        let mut out: Vec<ProofStepInfo> = Vec::new();
        assert(views(out@) =~= Seq::<ProofStepInfoV>::empty());
        let mut i: usize = 0;
        while i < n
            invariant
                i <= n <= steps.len(),
                p == self@,
                b == bindings@,
                ss == refs_view(steps@),
                p.step_infos(b, ss, i as nat) == Some(views(out@)),
            decreases n - i,
        {
            assert(ss[i as int] == (steps@[i as int].0, steps@[i as int].1@));
            match self.to_proof_step_info(bindings, steps[i].0, steps[i].1) {
                Some(info) => {
                    out.push(info);
                },
                None => {
                    proof {
                        lemma_step_infos_fail(p, b, ss, (i + 1) as nat, n as nat);
                    }
                    return None;
                },
            }
            i = i + 1;
        }
        Some(out)
    }

    /// Information about the steps of a proof.
    pub fn to_proof_info(&self, bindings: &BindingMap, pf: &Proof) -> (r: Option<
        Vec<ProofStepInfo>,
    >)
        ensures
            match r {
                Some(v) => self@.step_infos(
                    bindings@,
                    numbered(pf@.all_steps),
                    pf@.all_steps.len(),
                ) == Some(views(v@)),
                None => self@.step_infos(
                    bindings@,
                    numbered(pf@.all_steps),
                    pf@.all_steps.len(),
                ) is None,
            },
    {
        let mut steps: Vec<(Option<usize>, &ProofStep)> = Vec::new();
        let mut i: usize = 0;
        while i < pf.all_steps.len()
            invariant
                i <= pf.all_steps.len(),
                steps.len() == i,
                forall|k: int|
                    0 <= k < i ==> #[trigger] steps@[k].0 == active_id_of(pf.all_steps@[k].0)
                        && steps@[k].1@ == pf.all_steps@[k].1@,
            decreases pf.all_steps.len() - i,
        {
            steps.push((pf.all_steps[i].0.active_id(), &pf.all_steps[i].1));
            i = i + 1;
        }
        assert(refs_view(steps@) =~= numbered(pf@.all_steps));
        self.infos(bindings, &steps, steps.len())
    }

    /// Generates information about a clause. Returns None if we don't have any information about
    /// this clause.
    pub fn info_result(&self, bindings: &BindingMap, id: usize) -> (r: Option<InfoResult>)
        ensures
            match r {
                Some(info) => {
                    &&& id < self@.active.steps.len()
                    &&& self@.step_info(bindings@, Some(id), self@.active.steps[id as int]) == Some(
                        info.step@,
                    )
                    &&& self@.step_infos(bindings@, self@.dependents(id), self@.listed(id)) == Some(
                        views(info.consequences@),
                    )
                    &&& info.num_consequences == self@.dependents(id).len()
                },
                None => id >= self@.active.steps.len() || self@.step_info(
                    bindings@,
                    Some(id),
                    self@.active.steps[id as int],
                ) is None || self@.step_infos(bindings@, self@.dependents(id), self@.listed(id)) is None,
            },
    {
        proof {
            lemma_prover_view(*self);
        }
        let ghost p = self@;
        // Information for the step that proved this clause
        if !self.active_set.has_step(id) {
            return None;
        }
        let step = match self.to_proof_step_info(bindings, Some(id), self.active_set.get_step(id)) {
            Some(step) => step,
            None => {
                return None;
            },
        };
        let steps = self.find_dependents(id);
        let n = if steps.len() < INFO_LIMIT {
            steps.len()
        } else {
            INFO_LIMIT
        };
        assert(refs_view(steps@).len() == steps@.len());
        match self.infos(bindings, &steps, n) {
            Some(consequences) => Some(
                InfoResult { step, consequences, num_consequences: steps.len() },
            ),
            None => None,
        }
    }

    fn find_dependents(&self, id: usize) -> (r: Vec<(Option<usize>, &ProofStep)>)
        ensures
            refs_view(r@) == self@.dependents(id),
    {
        proof {
            lemma_prover_view(*self);
        }
        let ghost p = self@;
        let mut steps: Vec<(Option<usize>, &ProofStep)> = Vec::new();
        // Check if the final step is a consequence of this clause
        if let Some(final_step) = &self.final_step {
            if final_step.depends_on_active(id) {
                steps.push((None, final_step));
            }
        }
        let ghost last = refs_view(steps@);
        // Check the active set for consequences
        let active = self.active_set.find_consequences(id);
        let ghost from_active = Seq::new(
            active@.len(),
            |i: int| (Some(active@[i]), p.active.steps[active@[i] as int]),
        );
        let mut i: usize = 0;
        assert(last + from_active.take(0) =~= last);
        while i < active.len()
            invariant
                i <= active.len(),
                p == self@,
                p.active == self.active_set@,
                active@ == consequences(p.active.steps, id, p.active.steps.len()),
                from_active == Seq::new(
                    active@.len(),
                    |i: int| (Some(active@[i]), p.active.steps[active@[i] as int]),
                ),
                refs_view(steps@) == last + from_active.take(i as int),
            decreases active.len() - i,
        {
            proof {
                self.active_set.lemma_len();
                lemma_consequences(p.active.steps, id, p.active.steps.len());
            }
            let ghost before = steps@;
            steps.push((Some(active[i]), self.active_set.get_step(active[i])));
            assert(refs_view(steps@) =~= refs_view(before).push(from_active[i as int]));
            assert(last + from_active.take(i + 1) =~= (last + from_active.take(i as int)).push(
                from_active[i as int],
            ));
            i = i + 1;
        }
        assert(from_active.take(from_active.len() as int) =~= from_active);
        // Check the passive set for consequences
        let passive = self.passive_set.find_consequences(id);
        let ghost start = last + from_active;
        let ghost from_passive = Seq::new(
            passive@.len(),
            |i: int| (None::<usize>, p.passive.steps[passive@[i] as int]),
        );
        let mut k: usize = 0;
        assert(start + from_passive.take(0) =~= start);
        while k < passive.len()
            invariant
                k <= passive.len(),
                p == self@,
                p.passive == self.passive_set@,
                passive@ == consequences(p.passive.steps, id, p.passive.steps.len()),
                from_passive == Seq::new(
                    passive@.len(),
                    |i: int| (None::<usize>, p.passive.steps[passive@[i] as int]),
                ),
                refs_view(steps@) == start + from_passive.take(k as int),
            decreases passive.len() - k,
        {
            proof {
                self.passive_set.lemma_len();
                lemma_consequences(p.passive.steps, id, p.passive.steps.len());
            }
            let ghost before = steps@;
            steps.push((None, self.passive_set.get_step(passive[k])));
            assert(refs_view(steps@) =~= refs_view(before).push(from_passive[k as int]));
            assert(start + from_passive.take(k + 1) =~= (start + from_passive.take(k as int)).push(
                from_passive[k as int],
            ));
            k = k + 1;
        }
        assert(from_passive.take(from_passive.len() as int) =~= from_passive);
        proof {
            assert(refs_view(steps@) =~= p.dependents(id));
        }
        steps
    }
}

/// The steps of a proof with their active ids.
pub open spec fn numbered(s: Seq<(ProofStepId, StepV)>) -> Seq<(Option<usize>, StepV)> {
    Seq::new(s.len(), |i: int| (active_id_of(s[i].0), s[i].1))
}

/// A proof holds with each active step the active steps that this one depends on.
pub proof fn law_proofs_are_complete(
    p: ProverV,
    inspired: bool,
    pf: ProofV,
    id: usize,
    d: usize,
)
    requires
        is_proof(p, inspired, pf),
        pf.all_steps.contains((ProofStepId::Active(id), p.active.steps[id as int])),
        id < p.active.steps.len(),
        d < p.active.steps.len(),
        p.active.steps[id as int].active_dependencies(inspired).contains(d),
    ensures
        pf.all_steps.contains((ProofStepId::Active(d), p.active.steps[d as int])),
{
    let steps = p.active.steps;
    let ids = choose|ids: Seq<usize>| #[trigger]
        are_useful(p, inspired, ids) && pf.all_steps == steps_of(p, ids);
    let all = steps_of(p, ids);
    let k = choose|k: int|
        0 <= k < all.len() && all[k] == (ProofStepId::Active(id), steps[id as int]);
    assert(k < ids.len() && ids[k] == id);
    assert(ids.contains(id));
    if is_upstream(steps, p.final_step->0.active_dependencies(inspired), inspired, id) {
        lemma_upstream_more(
            steps,
            p.final_step->0.active_dependencies(inspired),
            inspired,
            id,
            d,
        );
    } else {
        let j = choose|j: int|
            0 <= j < p.useful_passive.len() && is_upstream(
                p.active.steps,
                (#[trigger] p.useful_passive[j]).active_dependencies(inspired),
                inspired,
                id,
            );
        lemma_upstream_more(
            steps,
            p.useful_passive[j].active_dependencies(inspired),
            inspired,
            id,
            d,
        );
    }
    assert(is_useful(p, inspired, d));
    assert(ids.contains(d));
    let m = choose|m: int| 0 <= m < ids.len() && ids[m] == d;
    assert(all[m] == (ProofStepId::Active(d), steps[d as int]));
}

} // verus!
