//! Proof steps: clauses, with how each was found.

use vstd::prelude::*;

use crate::clause::{clause_of, trace_of, Clause, ClauseV, LiteralTrace};
use crate::literal::{copy_path, literal_kbo, rewritten, Literal, LiteralV};
use crate::notation::literals_of;
use crate::proposition::Proposition;
use crate::source::{no_range, Source, SourceType, SourceTypeV, SourceV};
use crate::table::{duplicate_all, Duplicate};
use crate::term::{
    capped, capped_sum, lemma_small_term, small_term, Atom, Comparison, Term, TermV,
};
use crate::text::views;

verus! {

/// The different sorts of proof steps.
#[derive(Clone, Copy, Debug, PartialEq, Eq, Structural)]
pub enum ProofStepId {
    /// A proof step that was activated and exists in the active set.
    Active(usize),
    /// A proof step that was never activated, but was used to find a contradiction.
    Passive(u32),
    /// The final step of a proof. No active id because it never gets inserted into the active set.
    Final,
}

impl ProofStepId {
    /// The id in the active set.
    pub fn active_id(&self) -> (r: Option<usize>)
        ensures
            r == (match *self {
                ProofStepId::Active(id) => Some(id),
                _ => None,
            }),
    {
        match self {
            ProofStepId::Active(id) => Some(*id),
            _ => None,
        }
    }
}

/// The "truthiness" categorizes the different types of true statements, relative to a proof.
#[derive(Clone, Copy, Debug, PartialEq, Eq, Structural)]
pub enum Truthiness {
    /// A "factual" truth is true globally, regardless of this particular proof.
    Factual,
    /// A "hypothetical" truth is something that we are assuming true in the context of this proof.
    /// For example, we might assume that a and b are nonzero, and then prove that a * b != 0.
    Hypothetical,
    /// When we want to prove a goal G, we tell the prover that !G is true, and search for
    /// contradictions. A "counterfactual" truth is this negated goal, or something derived from
    /// it, that we expect to lead to a contradiction.
    Counterfactual,
}

impl View for Truthiness {
    type V = Truthiness;

    open spec fn view(&self) -> Truthiness {
        *self
    }
}

/// How far something is from being true: the "most untruthy" is the largest.
pub open spec fn untruth(t: Truthiness) -> nat {
    match t {
        Truthiness::Factual => 0,
        Truthiness::Hypothetical => 1,
        Truthiness::Counterfactual => 2,
    }
}

/// The "most untruthy" of two.
pub open spec fn combined(a: Truthiness, b: Truthiness) -> Truthiness {
    if untruth(a) >= untruth(b) {
        a
    } else {
        b
    }
}

/// Truthinesses can be combined in any order and any number of times: only the most untruthy
/// counts.
pub proof fn law_combine(a: Truthiness, b: Truthiness, c: Truthiness)
    ensures
        combined(a, b) == combined(b, a),
        combined(a, combined(b, c)) == combined(combined(a, b), c),
        combined(a, a) == a,
        combined(a, Truthiness::Factual) == a,
        combined(a, Truthiness::Counterfactual) == Truthiness::Counterfactual,
{
}

impl Truthiness {
    /// When combining truthinesses, the result is the "most untruthy" of the two.
    pub fn combine(&self, other: Truthiness) -> (r: Truthiness)
        ensures
            r == combined(*self, other),
    {
        match (*self, other) {
            (Truthiness::Counterfactual, _) => Truthiness::Counterfactual,
            (_, Truthiness::Counterfactual) => Truthiness::Counterfactual,
            (Truthiness::Hypothetical, _) => Truthiness::Hypothetical,
            (_, Truthiness::Hypothetical) => Truthiness::Hypothetical,
            (Truthiness::Factual, Truthiness::Factual) => Truthiness::Factual,
        }
    }
}

impl SourceV {
    /// How true what comes from here is: the negated goal is counterfactual, what is inside a
    /// block is hypothetical, and the rest is factual.
    pub open spec fn truthiness(self) -> Truthiness {
        match self.source_type {
            SourceTypeV::NegatedGoal => Truthiness::Counterfactual,
            _ => if self.depth == 0 {
                Truthiness::Factual
            } else {
                Truthiness::Hypothetical
            },
        }
    }
}

impl Source {
    /// How true what comes from here is.
    pub fn truthiness(&self) -> (r: Truthiness)
        ensures
            r == self@.truthiness(),
    {
        match self.source_type {
            SourceType::NegatedGoal => Truthiness::Counterfactual,
            _ => if self.depth == 0 {
                Truthiness::Factual
            } else {
                Truthiness::Hypothetical
            },
        }
    }
}

/// Information about a resolution inference.
#[derive(Clone, Copy, Debug, PartialEq, Eq, Structural)]
pub struct ResolutionInfo {
    /// Which clauses were used as the sources. The short clause has no more literals than the long
    /// one.
    pub short_id: usize,
    /// The long clause will usually have more than one literal. It can have just one literal if
    /// we're finding a contradiction.
    pub long_id: usize,
}

/// Information about a specialization.
#[derive(Clone, Copy, Debug, PartialEq, Eq, Structural)]
pub struct SpecializationInfo {
    /// The specialization is taking the pattern and substituting in particular values.
    pub pattern_id: usize,
    /// The inspiration isn't mathematically necessary for the specialization to be true, but we
    /// used it to decide which substitutions to make.
    pub inspiration_id: usize,
}

/// Information about a rewrite inference. Rewrites have two parts, the "pattern" that determines
/// what gets rewritten into what, and the "target" which contains the subterm that gets rewritten.
/// Both of these parts are single-literal clauses.
#[derive(Debug)]
pub struct RewriteInfo {
    /// Which clauses were used as the sources.
    pub pattern_id: usize,
    pub target_id: usize,
    /// Whether we rewrite the term on the left of the target literal. (As opposed to the right.)
    pub target_left: bool,
    /// The path within the target term that we rewrite.
    pub path: Vec<usize>,
    /// Whether this is a forwards or backwards rewrite. A forwards rewrite rewrites the left side
    /// of the pattern into the right.
    pub forwards: bool,
    /// The single-clause literal initially created by the rewrite. This is usually redundant, but
    /// not always, because the output clause can get simplified.
    pub rewritten: Clause,
    /// Whether the literal was flipped during normalization.
    pub flipped: bool,
}

/// Information about a contradiction found by rewriting one side of an inequality into the other.
#[derive(Debug)]
pub struct MultipleRewriteInfo {
    /// The id of the inequality clause.
    pub inequality_id: usize,
    /// The ids of active clauses used in the rewrite chain.
    pub active_ids: Vec<usize>,
    /// The ids of passive clauses used in the rewrite chain.
    pub passive_ids: Vec<u32>,
}

/// Information about an assumption.
#[derive(Debug)]
pub struct AssumptionInfo {
    /// The source of the assumption.
    pub source: Source,
    /// If this assumption is the definition of a particular atom, this is the atom.
    pub defined_atom: Option<Atom>,
    /// The literals of the assumption before any simplification.
    pub literals: Vec<Literal>,
}

/// Information about what happens to a term during equality factoring.
#[derive(Clone, Copy, Debug, PartialEq, Eq, Structural)]
pub struct EFTermTrace {
    /// Which literal it goes to.
    pub index: usize,
    /// Whether it goes to the left of that literal.
    pub left: bool,
}

/// Information about what happens to a literal during equality factoring.
#[derive(Clone, Copy, Debug, PartialEq, Eq, Structural)]
pub struct EFLiteralTrace {
    pub left: EFTermTrace,
    pub right: EFTermTrace,
}

impl View for EFLiteralTrace {
    type V = EFLiteralTrace;

    open spec fn view(&self) -> EFLiteralTrace {
        *self
    }
}

impl Duplicate for EFLiteralTrace {
    fn duplicate(&self) -> (r: Self) {
        *self
    }
}

/// The trace of a literal that goes to two places, the other way round where it is flipped.
pub open spec fn ef_trace(left: EFTermTrace, right: EFTermTrace, flipped: bool) -> EFLiteralTrace {
    if flipped {
        EFLiteralTrace { left: right, right: left }
    } else {
        EFLiteralTrace { left, right }
    }
}

/// The trace of a literal that goes to one of the output.
pub open spec fn ef_trace_to(index: usize, flipped: bool) -> EFLiteralTrace {
    ef_trace(
        EFTermTrace { index, left: true },
        EFTermTrace { index, left: false },
        flipped,
    )
}

impl EFLiteralTrace {
    /// Trace a literal that goes to one of the output.
    pub fn to_index(index: usize, flipped: bool) -> (r: EFLiteralTrace)
        ensures
            r == ef_trace_to(index, flipped),
    {
        EFLiteralTrace::to_out(
            EFTermTrace { index, left: true },
            EFTermTrace { index, left: false },
            flipped,
        )
    }

    /// Trace a literal that goes to a provided output. Flip the input if flipped is provided.
    pub fn to_out(left: EFTermTrace, right: EFTermTrace, flipped: bool) -> (r: EFLiteralTrace)
        ensures
            r == ef_trace(left, right, flipped),
    {
        if flipped {
            EFLiteralTrace::new(right, left)
        } else {
            EFLiteralTrace::new(left, right)
        }
    }

    /// A trace for each side.
    pub fn new(left: EFTermTrace, right: EFTermTrace) -> (r: EFLiteralTrace)
        ensures
            r == (EFLiteralTrace { left, right }),
    {
        EFLiteralTrace { left, right }
    }
}

/// Information about an equality factoring inference.
#[derive(Debug)]
pub struct EqualityFactoringInfo {
    /// The id of the clause that was factored.
    pub id: usize,
    /// The literals that we got immediately after factoring.
    pub literals: Vec<Literal>,
    /// Tracks where the literals of the input clause went.
    pub ef_trace: Vec<EFLiteralTrace>,
}

/// Information about an equality resolution inference.
#[derive(Debug)]
pub struct EqualityResolutionInfo {
    /// The id of the clause that was resolved.
    pub id: usize,
    /// Which literal in the input clause got resolved away.
    pub index: usize,
    /// The literals that we got immediately after resolution.
    pub literals: Vec<Literal>,
    /// Parallel to literals. Tracks whether they were flipped or not.
    pub flipped: Vec<bool>,
}

/// Information about a function elimination inference.
#[derive(Debug)]
pub struct FunctionEliminationInfo {
    /// The id of the clause that had a function eliminated.
    pub id: usize,
    /// The literal that was eliminated.
    pub index: usize,
    /// The literals that we got immediately after function elimination.
    pub literals: Vec<Literal>,
    /// Whether the function-eliminated literal was flipped.
    pub flipped: bool,
    /// The argument to the eliminated function that we kept.
    pub arg: usize,
}

/// The rules that can generate new clauses, along with the clause ids used to generate.
#[derive(Debug)]
pub enum Rule {
    Assumption(AssumptionInfo),
    /// Rules based on multiple source clauses.
    Resolution(ResolutionInfo),
    Rewrite(RewriteInfo),
    Specialization(SpecializationInfo),
    /// Rules with only one source clause.
    EqualityFactoring(EqualityFactoringInfo),
    EqualityResolution(EqualityResolutionInfo),
    FunctionElimination(FunctionEliminationInfo),
    /// A contradiction found by repeatedly rewriting identical terms.
    MultipleRewrite(MultipleRewriteInfo),
    /// A contradiction between a number of passive clauses.
    PassiveContradiction(u32),
}

/// The model of a rule.
#[allow(inconsistent_fields)]
pub enum RuleV {
    Assumption { source: SourceV, defined_atom: Option<Atom>, literals: Seq<LiteralV> },
    Resolution(ResolutionInfo),
    Rewrite {
        pattern_id: usize,
        target_id: usize,
        target_left: bool,
        path: Seq<usize>,
        forwards: bool,
        rewritten: ClauseV,
        flipped: bool,
    },
    Specialization(SpecializationInfo),
    EqualityFactoring { id: usize, literals: Seq<LiteralV>, ef_trace: Seq<EFLiteralTrace> },
    EqualityResolution { id: usize, index: usize, literals: Seq<LiteralV>, flips: Seq<bool> },
    FunctionElimination {
        id: usize,
        index: usize,
        literals: Seq<LiteralV>,
        flipped: bool,
        arg: usize,
    },
    MultipleRewrite { inequality_id: usize, active_ids: Seq<usize>, passive_ids: Seq<u32> },
    PassiveContradiction(u32),
}

impl View for Rule {
    type V = RuleV;

    open spec fn view(&self) -> RuleV {
        match self {
            Rule::Assumption(i) => RuleV::Assumption {
                source: i.source@,
                defined_atom: i.defined_atom,
                literals: views(i.literals@),
            },
            Rule::Resolution(i) => RuleV::Resolution(*i),
            Rule::Rewrite(i) => RuleV::Rewrite {
                pattern_id: i.pattern_id,
                target_id: i.target_id,
                target_left: i.target_left,
                path: i.path@,
                forwards: i.forwards,
                rewritten: i.rewritten@,
                flipped: i.flipped,
            },
            Rule::Specialization(i) => RuleV::Specialization(*i),
            Rule::EqualityFactoring(i) => RuleV::EqualityFactoring {
                id: i.id,
                literals: views(i.literals@),
                ef_trace: i.ef_trace@,
            },
            Rule::EqualityResolution(i) => RuleV::EqualityResolution {
                id: i.id,
                index: i.index,
                literals: views(i.literals@),
                flips: i.flipped@,
            },
            Rule::FunctionElimination(i) => RuleV::FunctionElimination {
                id: i.id,
                index: i.index,
                literals: views(i.literals@),
                flipped: i.flipped,
                arg: i.arg,
            },
            Rule::MultipleRewrite(i) => RuleV::MultipleRewrite {
                inequality_id: i.inequality_id,
                active_ids: i.active_ids@,
                passive_ids: i.passive_ids@,
            },
            Rule::PassiveContradiction(n) => RuleV::PassiveContradiction(*n),
        }
    }
}

/// The active ids as ids of steps.
pub open spec fn active_steps(ids: Seq<usize>) -> Seq<ProofStepId> {
    Seq::new(ids.len(), |i: int| ProofStepId::Active(ids[i]))
}

/// The passive ids as ids of steps.
pub open spec fn passive_steps(ids: Seq<u32>) -> Seq<ProofStepId> {
    Seq::new(ids.len(), |i: int| ProofStepId::Passive(ids[i]))
}

/// The ids of the clauses that a rule mathematically depends on.
pub open spec fn premises_of(r: RuleV) -> Seq<ProofStepId> {
    match r {
        RuleV::Assumption { .. } => Seq::empty(),
        RuleV::Resolution(i) => seq![
            ProofStepId::Active(i.short_id),
            ProofStepId::Active(i.long_id),
        ],
        RuleV::Rewrite { pattern_id, target_id, .. } => seq![
            ProofStepId::Active(pattern_id),
            ProofStepId::Active(target_id),
        ],
        RuleV::EqualityFactoring { id, .. } => seq![ProofStepId::Active(id)],
        RuleV::EqualityResolution { id, .. } => seq![ProofStepId::Active(id)],
        RuleV::FunctionElimination { id, .. } => seq![ProofStepId::Active(id)],
        RuleV::Specialization(i) => seq![ProofStepId::Active(i.pattern_id)],
        RuleV::MultipleRewrite { inequality_id, active_ids, passive_ids } => seq![
            ProofStepId::Active(inequality_id),
        ] + active_steps(active_ids) + passive_steps(passive_ids),
        RuleV::PassiveContradiction(n) => Seq::new(
            n as nat,
            |i: int| ProofStepId::Passive(i as u32),
        ),
    }
}

/// A human-readable name for a rule.
pub open spec fn rule_name(r: RuleV) -> Seq<char> {
    match r {
        RuleV::Assumption { .. } => "Assumption"@,
        RuleV::Resolution(_) => "Resolution"@,
        RuleV::Rewrite { .. } => "Rewrite"@,
        RuleV::EqualityFactoring { .. } => "Equality Factoring"@,
        RuleV::EqualityResolution { .. } => "Equality Resolution"@,
        RuleV::FunctionElimination { .. } => "Function Elimination"@,
        RuleV::Specialization(_) => "Specialization"@,
        RuleV::MultipleRewrite { .. } => "Multiple Rewrite"@,
        RuleV::PassiveContradiction(_) => "Passive Contradiction"@,
    }
}

fn copy_ids(p: &Vec<u32>) -> (r: Vec<u32>)
    ensures
        r@ == p@,
{
    let mut out: Vec<u32> = Vec::new();
    let mut i: usize = 0;
    while i < p.len()
        invariant
            i <= p.len(),
            out@ == p@.take(i as int),
        decreases p.len() - i,
    {
        out.push(p[i]);
        assert(out@ =~= p@.take(i + 1));
        i = i + 1;
    }
    assert(p@.take(i as int) =~= p@);
    out
}

pub(crate) fn copy_flags(p: &Vec<bool>) -> (r: Vec<bool>)
    ensures
        r@ == p@,
{
    let mut out: Vec<bool> = Vec::new();
    let mut i: usize = 0;
    while i < p.len()
        invariant
            i <= p.len(),
            out@ == p@.take(i as int),
        decreases p.len() - i,
    {
        out.push(p[i]);
        assert(out@ =~= p@.take(i + 1));
        i = i + 1;
    }
    assert(p@.take(i as int) =~= p@);
    out
}

pub(crate) fn copy_traces(p: &Vec<LiteralTrace>) -> (r: Vec<LiteralTrace>)
    ensures
        r@ == p@,
{
    let mut out: Vec<LiteralTrace> = Vec::new();
    let mut i: usize = 0;
    while i < p.len()
        invariant
            i <= p.len(),
            out@ == p@.take(i as int),
        decreases p.len() - i,
    {
        out.push(p[i]);
        assert(out@ =~= p@.take(i + 1));
        i = i + 1;
    }
    assert(p@.take(i as int) =~= p@);
    out
}

fn copy_ef_traces(p: &Vec<EFLiteralTrace>) -> (r: Vec<EFLiteralTrace>)
    ensures
        r@ == p@,
{
    let mut out: Vec<EFLiteralTrace> = Vec::new();
    let mut i: usize = 0;
    while i < p.len()
        invariant
            i <= p.len(),
            out@ == p@.take(i as int),
        decreases p.len() - i,
    {
        out.push(p[i]);
        assert(out@ =~= p@.take(i + 1));
        i = i + 1;
    }
    assert(p@.take(i as int) =~= p@);
    out
}

impl Duplicate for Rule {
    fn duplicate(&self) -> (r: Self) {
        match self {
            Rule::Assumption(i) => Rule::Assumption(
                AssumptionInfo {
                    source: i.source.clone(),
                    defined_atom: i.defined_atom,
                    literals: duplicate_all(&i.literals),
                },
            ),
            Rule::Resolution(i) => Rule::Resolution(*i),
            Rule::Rewrite(i) => Rule::Rewrite(
                RewriteInfo {
                    pattern_id: i.pattern_id,
                    target_id: i.target_id,
                    target_left: i.target_left,
                    path: copy_path(&i.path),
                    forwards: i.forwards,
                    rewritten: i.rewritten.clone(),
                    flipped: i.flipped,
                },
            ),
            Rule::Specialization(i) => Rule::Specialization(*i),
            Rule::EqualityFactoring(i) => Rule::EqualityFactoring(
                EqualityFactoringInfo {
                    id: i.id,
                    literals: duplicate_all(&i.literals),
                    ef_trace: copy_ef_traces(&i.ef_trace),
                },
            ),
            Rule::EqualityResolution(i) => Rule::EqualityResolution(
                EqualityResolutionInfo {
                    id: i.id,
                    index: i.index,
                    literals: duplicate_all(&i.literals),
                    flipped: copy_flags(&i.flipped),
                },
            ),
            Rule::FunctionElimination(i) => Rule::FunctionElimination(
                FunctionEliminationInfo {
                    id: i.id,
                    index: i.index,
                    literals: duplicate_all(&i.literals),
                    flipped: i.flipped,
                    arg: i.arg,
                },
            ),
            Rule::MultipleRewrite(i) => Rule::MultipleRewrite(
                MultipleRewriteInfo {
                    inequality_id: i.inequality_id,
                    active_ids: copy_path(&i.active_ids),
                    passive_ids: copy_ids(&i.passive_ids),
                },
            ),
            Rule::PassiveContradiction(n) => Rule::PassiveContradiction(*n),
        }
    }
}

fn one_id(id: usize) -> (r: Vec<ProofStepId>)
    ensures
        r@ == seq![ProofStepId::Active(id)],
{
    let mut out: Vec<ProofStepId> = Vec::new();
    out.push(ProofStepId::Active(id));
    assert(out@ =~= seq![ProofStepId::Active(id)]);
    out
}

impl Rule {
    /// The ids of the clauses that this rule mathematically depends on.
    pub fn premises(&self) -> (r: Vec<ProofStepId>)
        ensures
            r@ == premises_of(self@),
    {
        match self {
            Rule::Assumption(_) => Vec::new(),
            Rule::Resolution(info) => {
                let mut out = one_id(info.short_id);
                out.push(ProofStepId::Active(info.long_id));
                assert(out@ =~= premises_of(self@));
                out
            },
            Rule::Rewrite(info) => {
                let mut out = one_id(info.pattern_id);
                out.push(ProofStepId::Active(info.target_id));
                assert(out@ =~= premises_of(self@));
                out
            },
            Rule::EqualityFactoring(info) => one_id(info.id),
            Rule::EqualityResolution(info) => one_id(info.id),
            Rule::FunctionElimination(info) => one_id(info.id),
            Rule::Specialization(info) => one_id(info.pattern_id),
            Rule::MultipleRewrite(info) => {
                let mut out = one_id(info.inequality_id);
                push_active(&mut out, &info.active_ids);
                let mut i: usize = 0;
                let ghost start = out@;
                while i < info.passive_ids.len()
                    invariant
                        i <= info.passive_ids.len(),
                        out@ == start + passive_steps(info.passive_ids@).take(i as int),
                    decreases info.passive_ids.len() - i,
                {
                    out.push(ProofStepId::Passive(info.passive_ids[i]));
                    assert(out@ =~= start + passive_steps(info.passive_ids@).take(i + 1));
                    i = i + 1;
                }
                assert(out@ =~= premises_of(self@));
                out
            },
            Rule::PassiveContradiction(n) => {
                let mut out: Vec<ProofStepId> = Vec::new();
                let mut i: u32 = 0;
                while i < *n
                    invariant
                        i <= *n,
                        out.len() == i,
                        forall|k: int|
                            0 <= k < i ==> #[trigger] out@[k] == ProofStepId::Passive(k as u32),
                    decreases *n - i,
                {
                    out.push(ProofStepId::Passive(i));
                    i = i + 1;
                }
                assert(out@ =~= premises_of(self@));
                out
            },
        }
    }

    /// A human-readable name for this rule.
    pub fn name(&self) -> (r: &str)
        ensures
            r@ == rule_name(self@),
    {
        match self {
            Rule::Assumption(_) => "Assumption",
            Rule::Resolution(_) => "Resolution",
            Rule::Rewrite(_) => "Rewrite",
            Rule::EqualityFactoring(_) => "Equality Factoring",
            Rule::EqualityResolution(_) => "Equality Resolution",
            Rule::FunctionElimination(_) => "Function Elimination",
            Rule::Specialization(_) => "Specialization",
            Rule::MultipleRewrite(_) => "Multiple Rewrite",
            Rule::PassiveContradiction(_) => "Passive Contradiction",
        }
    }

    /// Whether this is a rewrite.
    pub fn is_rewrite(&self) -> (r: bool)
        ensures
            r == (self@ is Rewrite),
    {
        match self {
            Rule::Rewrite(_) => true,
            _ => false,
        }
    }

    /// Whether this is an assumption.
    pub fn is_assumption(&self) -> (r: bool)
        ensures
            r == (self@ is Assumption),
    {
        match self {
            Rule::Assumption(_) => true,
            _ => false,
        }
    }

    /// Whether this assumes that the goal does not hold.
    pub fn is_negated_goal(&self) -> (r: bool)
        ensures
            r == (match self@ {
                RuleV::Assumption { source, .. } => source.source_type is NegatedGoal,
                _ => false,
            }),
    {
        match self {
            Rule::Assumption(info) => match info.source.source_type {
                SourceType::NegatedGoal => true,
                _ => false,
            },
            _ => false,
        }
    }
}

fn push_active(out: &mut Vec<ProofStepId>, ids: &Vec<usize>)
    ensures
        final(out)@ == old(out)@ + active_steps(ids@),
{
    let ghost start = out@;
    let mut i: usize = 0;
    while i < ids.len()
        invariant
            i <= ids.len(),
            out@ == start + active_steps(ids@).take(i as int),
        decreases ids.len() - i,
    {
        out.push(ProofStepId::Active(ids[i]));
        assert(out@ =~= start + active_steps(ids@).take(i + 1));
        i = i + 1;
    }
    assert(out@ =~= start + active_steps(ids@));
}

/// A clause, plus a bunch of information we keep about how it was found.
#[derive(Debug)]
pub struct ProofStep {
    /// The proof step is primarily defined by a clause that it proves. Semantically, this clause
    /// is implied by the input clauses (activated and existing).
    pub clause: Clause,
    /// Whether this clause is the normal sort of true, or just something we're hypothesizing for
    /// the sake of the proof.
    pub truthiness: Truthiness,
    /// How this clause was generated.
    pub rule: Rule,
    /// Clauses that we used for additional simplification.
    pub simplification_rules: Vec<usize>,
    /// The number of proof steps that this proof step depends on. The size counts this proof step
    /// itself, but does not count assumptions and definitions. So the size for any assumption or
    /// definition is zero. This does not deduplicate among different branches, so it may be an
    /// overestimate. It stays at the largest number.
    pub proof_size: u32,
    /// Not every proof step counts toward depth. When we use a new long clause to resolve against,
    /// that counts toward depth, because it roughly corresponds to "using a theorem". When we use
    /// a rewrite backwards, increasing KBO, that also counts toward depth.
    pub depth: u32,
    /// A printable proof step is one that we are willing to turn into a line of code in a proof.
    /// Unprintable proof steps are things like halfway resolved theorems, or expressions that use
    /// anonymous skolem variables.
    pub printable: bool,
    /// Information about this step that will let us reconstruct the variable mappings.
    pub traces: Option<Vec<LiteralTrace>>,
}

/// The model of a proof step.
pub struct StepV {
    pub clause: ClauseV,
    pub truthiness: Truthiness,
    pub rule: RuleV,
    pub simplification_rules: Seq<usize>,
    pub proof_size: u32,
    pub depth: u32,
    pub printable: bool,
    pub traces: Option<Seq<LiteralTrace>>,
}

/// The view of traces that may be missing.
pub open spec fn traces_view(t: Option<Vec<LiteralTrace>>) -> Option<Seq<LiteralTrace>> {
    match t {
        Some(v) => Some(v@),
        None => None,
    }
}

impl View for ProofStep {
    type V = StepV;

    open spec fn view(&self) -> StepV {
        StepV {
            clause: self.clause@,
            truthiness: self.truthiness,
            rule: self.rule@,
            simplification_rules: self.simplification_rules@,
            proof_size: self.proof_size,
            depth: self.depth,
            printable: self.printable,
            traces: traces_view(self.traces),
        }
    }
}

impl Duplicate for ProofStep {
    fn duplicate(&self) -> (r: Self) {
        ProofStep {
            clause: self.clause.clone(),
            truthiness: self.truthiness,
            rule: self.rule.duplicate(),
            simplification_rules: copy_path(&self.simplification_rules),
            proof_size: self.proof_size,
            depth: self.depth,
            printable: self.printable,
            traces: match &self.traces {
                Some(t) => Some(copy_traces(t)),
                None => None,
            },
        }
    }
}

/// Traces of literals that stay where they are.
pub open spec fn unmoved(n: nat) -> Seq<LiteralTrace> {
    Seq::new(n, |i: int| LiteralTrace::Output { index: i as usize, flipped: false })
}

/// Whether the numbers of literals and arguments of a step are machine numbers.
pub open spec fn small_step(s: StepV) -> bool {
    let ls = s.clause.literals;
    &&& ls.len() <= usize::MAX
    &&& forall|i: int|
        0 <= i < ls.len() ==> small_term((#[trigger] ls[i]).left) && small_term(ls[i].right)
}

/// The numbers of literals and arguments of a step are machine numbers.
pub proof fn lemma_small_step(s: ProofStep)
    ensures
        small_step(s@),
{
    let v = s.clause.literals;
    let ls = s@.clause.literals;
    assert(v.len() == v@.len());
    assert forall|i: int| 0 <= i < ls.len() implies small_term((#[trigger] ls[i]).left)
        && small_term(ls[i].right) by {
        assert(ls[i] == v@[i]@);
        lemma_small_term(v@[i].left);
        lemma_small_term(v@[i].right);
    }
}

/// A step that is a direct implication of a single activated step.
pub open spec fn direct_step(
    s: StepV,
    rule: RuleV,
    clause: ClauseV,
    traces: Seq<LiteralTrace>,
) -> StepV {
    StepV {
        clause,
        truthiness: s.truthiness,
        rule,
        simplification_rules: Seq::empty(),
        proof_size: capped(s.proof_size, 1),
        depth: s.depth,
        printable: clause.is_printable(),
        traces: Some(traces),
    }
}

/// A step that puts particular values into a pattern.
pub open spec fn specialization_step(
    pattern_id: usize,
    inspiration_id: usize,
    s: StepV,
    clause: ClauseV,
    traces: Seq<LiteralTrace>,
) -> StepV {
    StepV {
        clause,
        truthiness: s.truthiness,
        rule: RuleV::Specialization(SpecializationInfo { pattern_id, inspiration_id }),
        simplification_rules: Seq::empty(),
        proof_size: capped(s.proof_size, 1),
        depth: s.depth,
        printable: true,
        traces: Some(traces),
    }
}

/// The depth of a resolution. Using a new long clause adds to it, going on with one does not, nor
/// does a simplification.
pub open spec fn resolution_depth(long: StepV, short: StepV, clause: ClauseV) -> u32 {
    if long.depth <= short.depth {
        if long.clause.contains(clause) {
            short.depth
        } else {
            capped(short.depth, 1)
        }
    } else {
        long.depth
    }
}

/// A step that resolves two others.
pub open spec fn resolution_step(
    long_id: usize,
    long: StepV,
    short_id: usize,
    short: StepV,
    clause: ClauseV,
    traces: Option<Seq<LiteralTrace>>,
) -> StepV {
    StepV {
        clause,
        truthiness: combined(short.truthiness, long.truthiness),
        rule: RuleV::Resolution(ResolutionInfo { short_id, long_id }),
        simplification_rules: Seq::empty(),
        proof_size: capped(capped(short.proof_size, long.proof_size), 1),
        depth: resolution_depth(long, short, clause),
        printable: clause.is_printable(),
        traces,
    }
}

/// A step with the first `n` of some others used for simplification, with its clause as it was.
pub open spec fn simplified_by(s: StepV, short: Seq<(usize, StepV)>, n: nat) -> StepV
    decreases n,
{
    if n == 0 || n > short.len() {
        s
    } else {
        let before = simplified_by(s, short, (n - 1) as nat);
        let (id, other) = short[n - 1];
        StepV {
            truthiness: combined(before.truthiness, other.truthiness),
            simplification_rules: before.simplification_rules.push(id),
            proof_size: capped(before.proof_size, other.proof_size),
            depth: if other.depth > before.depth {
                other.depth
            } else {
                before.depth
            },
            ..before
        }
    }
}

/// A step after simplification.
pub open spec fn simplified_step(
    s: StepV,
    short: Seq<(usize, StepV)>,
    clause: ClauseV,
    traces: Option<Seq<LiteralTrace>>,
) -> StepV {
    StepV {
        clause,
        printable: clause.is_printable(),
        traces,
        ..simplified_by(s, short, short.len())
    }
}

/// The larger of two numbers.
pub open spec fn larger(a: u32, b: u32) -> u32 {
    if a >= b {
        a
    } else {
        b
    }
}

/// A step that rewrites a subterm of a target. Only what makes the literal smaller does not add to
/// the depth.
pub open spec fn rewrite_step(
    pattern_id: usize,
    pattern: StepV,
    target_id: usize,
    target: StepV,
    target_left: bool,
    path: Seq<usize>,
    forwards: bool,
    new_subterm: TermV,
) -> StepV {
    let old_literal = target.clause.literals[0];
    let (literal, flipped) = rewritten(old_literal, target_left, path, new_subterm);
    let clause = clause_of(seq![literal]);
    let deep = larger(pattern.depth, target.depth);
    StepV {
        clause,
        truthiness: combined(pattern.truthiness, target.truthiness),
        rule: RuleV::Rewrite {
            pattern_id,
            target_id,
            target_left,
            path,
            forwards,
            rewritten: clause,
            flipped,
        },
        simplification_rules: Seq::empty(),
        proof_size: capped(capped(pattern.proof_size, target.proof_size), 1),
        depth: if literal_kbo(literal, old_literal) == Comparison::Less {
            deep
        } else {
            capped(deep, 1)
        },
        printable: clause.is_printable(),
        traces: Some(trace_of(seq![literal])),
    }
}

/// What the first `n` of some steps come to together.
pub open spec fn gathered(s: Seq<StepV>, n: nat) -> (Truthiness, u32, u32)
    decreases n,
{
    if n == 0 || n > s.len() {
        (Truthiness::Factual, 0, 0)
    } else {
        let (t, d, p) = gathered(s, (n - 1) as nat);
        (
            combined(t, s[n - 1].truthiness),
            larger(d, s[n - 1].depth),
            capped(p, s[n - 1].proof_size),
        )
    }
}

/// A step whose clause never holds.
pub open spec fn contradiction_step(
    rule: RuleV,
    truthiness: Truthiness,
    depth: u32,
    proof_size: u32,
) -> StepV {
    StepV {
        clause: ClauseV { literals: Seq::empty() },
        truthiness,
        rule,
        simplification_rules: Seq::empty(),
        proof_size,
        depth,
        printable: true,
        traces: None,
    }
}

impl StepV {
    /// The ids of the other clauses that this clause depends on.
    pub open spec fn dependencies(self) -> Seq<ProofStepId> {
        premises_of(self.rule) + active_steps(self.simplification_rules)
    }

    /// The ids in the active set of the clauses that this clause depends on, perhaps with the one
    /// that inspired it.
    pub open spec fn active_dependencies(self, include_inspiration: bool) -> Seq<usize> {
        let ids = actives(self.dependencies(), self.dependencies().len());
        match self.rule {
            RuleV::Specialization(i) => if include_inspiration {
                ids.push(i.inspiration_id)
            } else {
                ids
            },
            _ => ids,
        }
    }

    /// Whether the step should not be kept: only one step of deduction is done with global facts,
    /// and nothing goes very deep.
    pub open spec fn automatic_reject(self) -> bool {
        self.truthiness == Truthiness::Factual && self.proof_size > 2 || self.depth >= 30
    }
}

/// The active ids among the first `n` ids.
pub open spec fn actives(ids: Seq<ProofStepId>, n: nat) -> Seq<usize>
    decreases n,
{
    if n == 0 || n > ids.len() {
        Seq::empty()
    } else {
        let before = actives(ids, (n - 1) as nat);
        match ids[n - 1] {
            ProofStepId::Active(i) => before.push(i),
            _ => before,
        }
    }
}

/// A step with made-up heuristic data.
pub open spec fn mock_step(clause: ClauseV) -> StepV {
    StepV {
        clause,
        truthiness: Truthiness::Factual,
        rule: RuleV::Assumption {
            source: SourceV {
                module: 0,
                range: no_range(),
                source_type: SourceTypeV::Anonymous,
                importable: true,
                depth: 0,
            },
            defined_atom: None,
            literals: clause.literals,
        },
        simplification_rules: Seq::empty(),
        proof_size: 0,
        depth: 0,
        printable: true,
        traces: None,
    }
}

/// Steps with their ids.
pub open spec fn id_steps(s: Seq<(usize, &ProofStep)>) -> Seq<(usize, StepV)> {
    Seq::new(s.len(), |i: int| (s[i].0, s[i].1@))
}

fn empty_ids() -> (r: Vec<usize>)
    ensures
        r@ == Seq::<usize>::empty(),
{
    Vec::new()
}

impl ProofStep {
    /// An assumption that is not dependent on any other steps. Assumptions are always depth zero.
    pub fn assumption(proposition: &Proposition, clause: Clause, defined_atom: Option<Atom>) -> (r:
        ProofStep)
        ensures
            r@ == (StepV {
                clause: clause@,
                truthiness: proposition@.source.truthiness(),
                rule: RuleV::Assumption {
                    source: proposition@.source,
                    defined_atom,
                    literals: clause@.literals,
                },
                simplification_rules: Seq::empty(),
                proof_size: 0,
                depth: 0,
                printable: false,
                traces: Some(unmoved(clause@.literals.len())),
            }),
    {
        let literals = duplicate_all(&clause.literals);
        // Create traces to indicate that no literals have been moved around
        let mut traces: Vec<LiteralTrace> = Vec::new();
        let mut i: usize = 0;
        while i < clause.literals.len()
            invariant
                i <= clause.literals.len(),
                traces.len() == i,
                forall|k: int|
                    0 <= k < i ==> #[trigger] traces@[k] == (LiteralTrace::Output {
                        index: k as usize,
                        flipped: false,
                    }),
            decreases clause.literals.len() - i,
        {
            traces.push(LiteralTrace::Output { index: i, flipped: false });
            i = i + 1;
        }
        assert(traces@ =~= unmoved(clause@.literals.len()));
        ProofStep {
            truthiness: proposition.source.truthiness(),
            rule: Rule::Assumption(
                AssumptionInfo { source: proposition.source.clone(), defined_atom, literals },
            ),
            clause,
            simplification_rules: empty_ids(),
            proof_size: 0,
            depth: 0,
            printable: false,
            traces: Some(traces),
        }
    }

    /// A direct implication of a single activated step, not requiring any other clauses.
    pub fn direct(
        activated_step: &ProofStep,
        rule: Rule,
        clause: Clause,
        literal_traces: Vec<LiteralTrace>,
    ) -> (r: ProofStep)
        ensures
            r@ == direct_step(activated_step@, rule@, clause@, literal_traces@),
    {
        // Direct implication does not add to depth.
        let printable = clause.is_printable();
        ProofStep {
            clause,
            truthiness: activated_step.truthiness,
            rule,
            simplification_rules: empty_ids(),
            proof_size: capped_sum(activated_step.proof_size, 1),
            depth: activated_step.depth,
            printable,
            traces: Some(literal_traces),
        }
    }

    /// A specialization of a general pattern.
    pub fn specialization(
        pattern_id: usize,
        inspiration_id: usize,
        pattern_step: &ProofStep,
        clause: Clause,
        traces: Vec<LiteralTrace>,
    ) -> (r: ProofStep)
        ensures
            r@ == specialization_step(
                pattern_id,
                inspiration_id,
                pattern_step@,
                clause@,
                traces@,
            ),
    {
        ProofStep {
            clause,
            truthiness: pattern_step.truthiness,
            rule: Rule::Specialization(SpecializationInfo { pattern_id, inspiration_id }),
            simplification_rules: empty_ids(),
            proof_size: capped_sum(pattern_step.proof_size, 1),
            depth: pattern_step.depth,
            printable: true,
            traces: Some(traces),
        }
    }

    /// A step via resolution.
    pub fn resolution(
        long_id: usize,
        long_step: &ProofStep,
        short_id: usize,
        short_step: &ProofStep,
        clause: Clause,
        traces: Option<Vec<LiteralTrace>>,
    ) -> (r: ProofStep)
        ensures
            r@ == resolution_step(
                long_id,
                long_step@,
                short_id,
                short_step@,
                clause@,
                traces_view(traces),
            ),
    {
        let depth = if long_step.depth <= short_step.depth {
            if long_step.clause.contains(&clause) {
                // This is just a simplification
                short_step.depth
            } else {
                // This resolution is a new "theorem" that we are using.
                // So we need to add one to depth.
                capped_sum(short_step.depth, 1)
            }
        } else {
            // This resolution is essentially continuing to resolve a theorem
            // statement that we have already fetched.
            long_step.depth
        };
        let printable = clause.is_printable();
        ProofStep {
            clause,
            truthiness: short_step.truthiness.combine(long_step.truthiness),
            rule: Rule::Resolution(ResolutionInfo { short_id, long_id }),
            simplification_rules: empty_ids(),
            proof_size: capped_sum(
                capped_sum(short_step.proof_size, long_step.proof_size),
                1,
            ),
            depth,
            printable,
            traces,
        }
    }

    /// A replacement for a step that has extra simplification rules. The long step doesn't have an
    /// id because it isn't activated.
    pub fn simplified(
        long_step: ProofStep,
        short_steps: &Vec<(usize, &ProofStep)>,
        clause: Clause,
        traces: Option<Vec<LiteralTrace>>,
    ) -> (r: ProofStep)
        ensures
            r@ == simplified_step(
                long_step@,
                id_steps(short_steps@),
                clause@,
                traces_view(traces),
            ),
    {
        let ghost sv = id_steps(short_steps@);
        let mut truthiness = long_step.truthiness;
        let mut simplification_rules = copy_path(&long_step.simplification_rules);
        let mut proof_size = long_step.proof_size;
        let mut depth = long_step.depth;
        let mut i: usize = 0;
        while i < short_steps.len()
            invariant
                i <= short_steps.len(),
                sv == id_steps(short_steps@),
                simplified_by(long_step@, sv, i as nat) == (StepV {
                    truthiness,
                    simplification_rules: simplification_rules@,
                    proof_size,
                    depth,
                    ..long_step@
                }),
            decreases short_steps.len() - i,
        {
            let (short_id, short_step) = short_steps[i];
            assert(sv[i as int] == (short_id, short_step@));
            truthiness = truthiness.combine(short_step.truthiness);
            simplification_rules.push(short_id);
            proof_size = capped_sum(proof_size, short_step.proof_size);
            if short_step.depth > depth {
                depth = short_step.depth;
            }
            i = i + 1;
        }
        let printable = clause.is_printable();
        ProofStep {
            clause,
            truthiness,
            rule: long_step.rule,
            simplification_rules,
            proof_size,
            depth,
            printable,
            traces,
        }
    }

    /// A step via rewriting. We are replacing a subterm of the target literal with a new subterm.
    /// The target step is always a single literal. A "forwards" rewrite goes left-to-right in the
    /// pattern. The trace captures everything that happens after the rewrite.
    pub fn rewrite(
        pattern_id: usize,
        pattern_step: &ProofStep,
        target_id: usize,
        target_step: &ProofStep,
        target_left: bool,
        path: &Vec<usize>,
        forwards: bool,
        new_subterm: &Term,
    ) -> (r: ProofStep)
        requires
            target_step@.clause.literals.len() == 1,
        ensures
            r@ == rewrite_step(
                pattern_id,
                pattern_step@,
                target_id,
                target_step@,
                target_left,
                path@,
                forwards,
                new_subterm@,
            ),
    {
        let target_literal = &target_step.clause.literals[0];
        assert(target_step@.clause.literals[0] == target_literal@);
        let (new_literal, flipped) = target_literal.replace_at_path(
            target_left,
            path,
            new_subterm,
        );
        let simplifying = new_literal.extended_kbo(target_literal) == Comparison::Less;
        let mut literals: Vec<Literal> = Vec::new();
        literals.push(new_literal);
        assert(views(literals@) =~= seq![new_literal@]);
        let (clause, traces) = Clause::normalize_with_trace(literals);
        let deep = if pattern_step.depth >= target_step.depth {
            pattern_step.depth
        } else {
            target_step.depth
        };
        let depth = if simplifying {
            deep
        } else {
            capped_sum(deep, 1)
        };
        let printable = clause.is_printable();
        let rule = Rule::Rewrite(
            RewriteInfo {
                pattern_id,
                target_id,
                target_left,
                path: copy_path(path),
                forwards,
                rewritten: clause.clone(),
                flipped,
            },
        );
        ProofStep {
            clause,
            truthiness: pattern_step.truthiness.combine(target_step.truthiness),
            rule,
            simplification_rules: empty_ids(),
            proof_size: capped_sum(
                capped_sum(pattern_step.proof_size, target_step.proof_size),
                1,
            ),
            depth,
            printable,
            traces: Some(traces),
        }
    }

    /// A contradiction via a series of rewrites.
    pub fn multiple_rewrite(
        inequality_id: usize,
        active_ids: Vec<usize>,
        passive_ids: Vec<u32>,
        truthiness: Truthiness,
        depth: u32,
    ) -> (r: ProofStep)
        ensures
            r@ == contradiction_step(
                RuleV::MultipleRewrite {
                    inequality_id,
                    active_ids: active_ids@,
                    passive_ids: passive_ids@,
                },
                truthiness,
                depth,
                0,
            ),
    {
        // The proof size is wrong but we don't use it for a contradiction.
        let clause = Clause::impossible();
        assert(clause@.literals =~= Seq::<LiteralV>::empty());
        ProofStep {
            clause,
            truthiness,
            rule: Rule::MultipleRewrite(
                MultipleRewriteInfo { inequality_id, active_ids, passive_ids },
            ),
            simplification_rules: empty_ids(),
            proof_size: 0,
            depth,
            printable: true,
            traces: None,
        }
    }

    /// A contradiction between passive steps. Assumes the provided steps are indexed by passive
    /// id, and that we use all of them.
    pub fn passive_contradiction(passive_steps: &Vec<ProofStep>) -> (r: ProofStep)
        ensures
            r@ == ({
                let (t, d, p) = gathered(views(passive_steps@), passive_steps@.len());
                contradiction_step(
                    RuleV::PassiveContradiction(passive_steps@.len() as u32),
                    t,
                    d,
                    p,
                )
            }),
    {
        let ghost sv = views(passive_steps@);
        let mut truthiness = Truthiness::Factual;
        let mut depth: u32 = 0;
        let mut proof_size: u32 = 0;
        let mut i: usize = 0;
        while i < passive_steps.len()
            invariant
                i <= passive_steps.len(),
                sv == views(passive_steps@),
                (truthiness, depth, proof_size) == gathered(sv, i as nat),
            decreases passive_steps.len() - i,
        {
            let step = &passive_steps[i];
            assert(sv[i as int] == step@);
            truthiness = truthiness.combine(step.truthiness);
            if step.depth > depth {
                depth = step.depth;
            }
            proof_size = capped_sum(proof_size, step.proof_size);
            i = i + 1;
        }
        let clause = Clause::impossible();
        assert(clause@.literals =~= Seq::<LiteralV>::empty());
        ProofStep {
            clause,
            truthiness,
            rule: Rule::PassiveContradiction(passive_steps.len() as u32),
            simplification_rules: empty_ids(),
            proof_size,
            depth,
            printable: true,
            traces: None,
        }
    }

    /// A step with made-up heuristic data, for a text.
    pub fn mock(s: &str) -> (r: ProofStep)
        requires
            literals_of(s@) is Some,
        ensures
            r@ == mock_step(clause_of(literals_of(s@)->0)),
    {
        ProofStep::mock_from_clause(Clause::parse(s))
    }

    /// A step with made-up heuristic data, for a clause.
    pub fn mock_from_clause(clause: Clause) -> (r: ProofStep)
        ensures
            r@ == mock_step(clause@),
    {
        let literals = duplicate_all(&clause.literals);
        ProofStep {
            clause,
            truthiness: Truthiness::Factual,
            rule: Rule::Assumption(
                AssumptionInfo { source: Source::mock(), defined_atom: None, literals },
            ),
            simplification_rules: empty_ids(),
            proof_size: 0,
            depth: 0,
            printable: true,
            traces: None,
        }
    }

    /// The ids of the other clauses that this clause depends on.
    pub fn dependencies(&self) -> (r: Vec<ProofStepId>)
        ensures
            r@ == self@.dependencies(),
    {
        let mut answer = self.rule.premises();
        push_active(&mut answer, &self.simplification_rules);
        answer
    }

    /// The ids in the active set that this step depends on. `include_inspiration` is whether we
    /// should add the inspiration clause to the dependencies.
    pub fn active_dependencies(&self, include_inspiration: bool) -> (r: Vec<usize>)
        ensures
            r@ == self@.active_dependencies(include_inspiration),
    {
        let ids = self.dependencies();
        let mut answer: Vec<usize> = Vec::new();
        let mut i: usize = 0;
        while i < ids.len()
            invariant
                i <= ids.len(),
                answer@ == actives(ids@, i as nat),
            decreases ids.len() - i,
        {
            if let ProofStepId::Active(id) = ids[i] {
                answer.push(id);
            }
            i = i + 1;
        }
        if include_inspiration {
            if let Rule::Specialization(info) = &self.rule {
                answer.push(info.inspiration_id);
            }
        }
        answer
    }

    /// Whether this step depends on an active one.
    pub fn depends_on_active(&self, id: usize) -> (r: bool)
        ensures
            r == self@.dependencies().contains(ProofStepId::Active(id)),
    {
        let ids = self.dependencies();
        let mut i: usize = 0;
        while i < ids.len()
            invariant
                i <= ids.len(),
                ids@ == self@.dependencies(),
                forall|k: int| 0 <= k < i ==> ids@[k] != ProofStepId::Active(id),
            decreases ids.len() - i,
        {
            if ids[i] == ProofStepId::Active(id) {
                return true;
            }
            i = i + 1;
        }
        false
    }

    /// Whether this is the last step of the proof.
    pub fn finishes_proof(&self) -> (r: bool)
        ensures
            r == self@.clause.is_impossible(),
    {
        self.clause.is_impossible()
    }

    /// Whether the step should not be kept.
    pub fn automatic_reject(&self) -> (r: bool)
        ensures
            r == self@.automatic_reject(),
    {
        // We have to strictly limit deduction that happens between two library facts, because
        // the plan is for the library to grow very large.
        if self.truthiness == Truthiness::Factual && self.proof_size > 2 {
            // Only do one step of deduction with global facts.
            return true;
        }
        // In some degenerate cases going very deep can crash the prover.
        self.depth >= 30
    }
}

} // verus!
