//! The active set: the clauses that are used for reasoning, and what follows from them.

use vstd::prelude::*;

use crate::binding_map::opt_view;
use crate::clause::{
    bind_literal, bound_literal, clause_of, composed_traces, resolutions, resolved_view, trace_of,
    one_equation, Clause, ClauseV, LiteralTrace, ResolvedV,
};
use crate::literal::{
    copy_path, oriented, places_view, rewritable_subterms, subterms, Literal, LiteralV, PlaceV,
};
use crate::proof_step::{
    copy_traces, direct_step, ef_trace, ef_trace_to, id_steps, resolution_step, rewrite_step,
    simplified_step, EFLiteralTrace, EFTermTrace, EqualityFactoringInfo, EqualityResolutionInfo,
    FunctionEliminationInfo, ProofStep, ProofStepId, Rule, RuleV, StepV, Truthiness,
};
use crate::table::{duplicate_all, holds, Key, Table};
use crate::term::{is_var, lemma_term_view, Atom, Term, TermV};
use crate::term_graph::{EdgeV, TermGraph};
use crate::text::views;
use crate::unifier::{
    apply, fill, filled, instance, match_terms, matched, partner, partnered, unified, unify_all,
    BindingV,
};

verus! {

/// A literal that we could do resolution with.
#[derive(Clone, Copy, Debug, PartialEq, Eq, Structural)]
pub struct ResolutionTarget {
    /// Which proof step the resolution target is in.
    pub step_index: usize,
    /// Which literal within the clause the resolution target is in.
    pub literal_index: usize,
    /// Whether we start with the left term of the literal. (As opposed to the right term.)
    pub left: bool,
}

/// Something that a term can be rewritten to.
#[derive(Debug)]
pub struct Rewrite {
    /// The step that allows it.
    pub pattern_id: usize,
    /// Whether the pattern is used from left to right.
    pub forwards: bool,
    pub term: Term,
}

/// The model of a rewrite.
#[verifier::ext_equal]
pub struct RewriteV {
    pub pattern_id: usize,
    pub forwards: bool,
    pub term: TermV,
}

impl View for Rewrite {
    type V = RewriteV;

    open spec fn view(&self) -> RewriteV {
        RewriteV { pattern_id: self.pattern_id, forwards: self.forwards, term: self.term@ }
    }
}

/// Somewhere that a subterm exists among the activated clauses. Subterm locations always refer to
/// concrete single-literal clauses.
#[derive(Debug)]
pub struct SubtermLocation {
    /// Which proof step the subterm is in. The literal can be either positive or negative.
    pub target_id: usize,
    /// Whether the subterm is in the left term of the literal. (As opposed to the right one.)
    pub left: bool,
    /// This is the path from the root term to the subterm. An empty path means the root, so the
    /// whole term is the relevant subterm.
    pub path: Vec<usize>,
}

/// The model of a location.
#[verifier::ext_equal]
pub struct LocationV {
    pub target_id: usize,
    pub left: bool,
    pub path: Seq<usize>,
}

impl View for SubtermLocation {
    type V = LocationV;

    open spec fn view(&self) -> LocationV {
        LocationV { target_id: self.target_id, left: self.left, path: self.path@ }
    }
}

/// Information about a subterm that appears in an activated concrete literal.
#[derive(Debug)]
pub struct SubtermInfo {
    /// The subterm itself.
    pub term: Term,
    /// Where the subterm occurs, in activated concrete literals.
    pub locations: Vec<SubtermLocation>,
    /// The possible terms that this subterm can be rewritten to. Note that this contains
    /// duplicates.
    pub rewrites: Vec<Rewrite>,
    /// The inspiration id for a subterm is the first activated concrete proof step that contains
    /// it.
    pub inspiration_id: usize,
}

/// The model of what is known of a subterm.
#[verifier::ext_equal]
pub struct SubtermV {
    pub term: TermV,
    pub locations: Seq<LocationV>,
    pub rewrites: Seq<RewriteV>,
    pub inspiration_id: usize,
}

impl View for SubtermInfo {
    type V = SubtermV;

    open spec fn view(&self) -> SubtermV {
        SubtermV {
            term: self.term@,
            locations: views(self.locations@),
            rewrites: views(self.rewrites@),
            inspiration_id: self.inspiration_id,
        }
    }
}

/// The ActiveSet stores a bunch of clauses. Given a new clause, it can be determined what can be
/// concluded given that clause and one clause from the active set.
pub struct ActiveSet {
    /// The steps, by their ids.
    steps: Vec<ProofStep>,
    /// The long clauses (ie more than one literal) that we have proven.
    long_clauses: Vec<Clause>,
    /// The short clauses (ie just one literal) that we have proven, with the ids of their steps.
    literal_set: Vec<(Literal, usize)>,
    /// All the positive literals that we can do resolution with.
    positive_res_targets: Vec<ResolutionTarget>,
    /// All the negative literals that we can do resolution with.
    negative_res_targets: Vec<ResolutionTarget>,
    /// Equalities and inequalities between terms.
    graph: TermGraph,
    /// Information about every subterm that appears in an activated concrete literal, except
    /// "true".
    subterms: Vec<SubtermInfo>,
    /// The equalities that can be used to rewrite, with the ids of their steps.
    patterns: Vec<(Literal, usize)>,
}

/// The model of an active set.
#[verifier::ext_equal]
pub struct ActiveV {
    pub steps: Seq<StepV>,
    pub long_clauses: Seq<ClauseV>,
    pub literal_set: Seq<(LiteralV, usize)>,
    pub positive_targets: Seq<ResolutionTarget>,
    pub negative_targets: Seq<ResolutionTarget>,
    pub graph: Seq<EdgeV>,
    pub subterms: Seq<SubtermV>,
    pub patterns: Seq<(LiteralV, usize)>,
}

impl ActiveV {
    /// An active set without steps.
    pub open spec fn initial() -> ActiveV {
        ActiveV {
            steps: Seq::empty(),
            long_clauses: Seq::empty(),
            literal_set: Seq::empty(),
            positive_targets: Seq::empty(),
            negative_targets: Seq::empty(),
            graph: Seq::empty(),
            subterms: Seq::empty(),
            patterns: Seq::empty(),
        }
    }
}

/// The models of literals with ids.
pub open spec fn literal_ids(s: Seq<(Literal, usize)>) -> Seq<(LiteralV, usize)> {
    Seq::new(s.len(), |i: int| (s[i].0@, s[i].1))
}

impl View for ActiveSet {
    type V = ActiveV;

    closed spec fn view(&self) -> ActiveV {
        ActiveV {
            steps: views(self.steps@),
            long_clauses: views(self.long_clauses@),
            literal_set: literal_ids(self.literal_set@),
            positive_targets: self.positive_res_targets@,
            negative_targets: self.negative_res_targets@,
            graph: self.graph@,
            subterms: views(self.subterms@),
            patterns: literal_ids(self.patterns@),
        }
    }
}

/// The first place of a literal in a list, from `i` on.
pub open spec fn position(ls: Seq<LiteralV>, l: LiteralV, i: nat) -> nat
    decreases ls.len() - i,
{
    if i >= ls.len() || ls[i as int] == l {
        i
    } else {
        position(ls, l, i + 1)
    }
}

/// Whether the literals of a short clause but one are among those of the long clause, have no
/// variables, and do not stand where the long clause is resolved.
pub open spec fn rest_matches(
    short: Seq<LiteralV>,
    short_index: int,
    long: Seq<LiteralV>,
    long_index: int,
) -> bool {
    forall|i: int|
        0 <= i < short.len() && i != short_index ==> {
            let k = position(long, #[trigger] short[i], 0);
            !short[i].has(|a: Atom| is_var(a)) && k < long.len() && k != long_index
        }
}

/// The first `n` literals of a long clause after a resolution, and what became of them.
pub open spec fn resolved_literals(
    long: Seq<LiteralV>,
    s: Seq<BindingV>,
    long_index: int,
    short_id: usize,
    flipped: bool,
    n: nat,
) -> (Seq<LiteralV>, Seq<LiteralTrace>)
    decreases n,
{
    if n == 0 || n > long.len() {
        (Seq::empty(), Seq::empty())
    } else {
        let (ls, ts) = resolved_literals(long, s, long_index, short_id, flipped, (n - 1) as nat);
        if n - 1 == long_index {
            (ls, ts.push(LiteralTrace::Eliminated { step: short_id, flipped }))
        } else {
            let (l, f) = oriented(
                long[n - 1].positive,
                instance(partnered(long[n - 1].left), s),
                instance(partnered(long[n - 1].right), s),
            );
            (
                ls.push(l),
                ts.push(LiteralTrace::Output { index: ls.len() as usize, flipped: f }),
            )
        }
    }
}

/// What comes of resolving a literal of a short clause with one of a long clause. When flipped,
/// the left side of one is made the same as the right side of the other.
pub open spec fn resolved(
    short_id: usize,
    short: StepV,
    short_index: int,
    long_id: usize,
    long: StepV,
    long_index: int,
    flipped: bool,
) -> Option<StepV> {
    let ss = short.clause.literals;
    let ls = long.clause.literals;
    if ss.len() > 1 && (ss.len() != 2 || ls.len() != 2) {
        None
    } else if !rest_matches(ss, short_index, ls, long_index) {
        None
    } else {
        let (a, b) = if flipped {
            (ls[long_index].right, ls[long_index].left)
        } else {
            (ls[long_index].left, ls[long_index].right)
        };
        match unified(
            seq![
                (ss[short_index].right, partnered(b)),
                (ss[short_index].left, partnered(a)),
            ],
        ) {
            None => None,
            Some(s) => {
                let (literals, trace) = resolved_literals(
                    ls,
                    s,
                    long_index,
                    short_id,
                    flipped,
                    ls.len(),
                );
                Some(
                    resolution_step(
                        long_id,
                        long,
                        short_id,
                        short,
                        clause_of(literals),
                        Some(composed_traces(trace, trace_of(literals))),
                    ),
                )
            },
        }
    }
}

/// What comes of resolving a positive literal of one step with a negative literal of another. We
/// need only the simplest form with two long clauses: concluding from "A or B" and "not A or B"
/// that "B" is true.
pub open spec fn resolution(
    pos_id: usize,
    pos: StepV,
    pos_index: int,
    neg_id: usize,
    neg: StepV,
    neg_index: int,
    flipped: bool,
) -> Option<StepV> {
    if pos.clause.literals.len() < neg.clause.literals.len() {
        resolved(pos_id, pos, pos_index, neg_id, neg, neg_index, flipped)
    } else {
        resolved(neg_id, neg, neg_index, pos_id, pos, pos_index, flipped)
    }
}

/// Whether two steps are both facts that have nothing to do with the goal. Nothing is concluded
/// from two of those.
pub open spec fn both_factual(a: StepV, b: StepV) -> bool {
    a.truthiness == Truthiness::Factual && b.truthiness == Truthiness::Factual
}

/// What comes of resolving literal `i` of a new step with a target.
pub open spec fn target_resolution(
    a: ActiveV,
    new_step: StepV,
    i: int,
    t: ResolutionTarget,
) -> Option<StepV> {
    let new_literal = new_step.clause.literals[i];
    if t.step_index >= a.steps.len() {
        None
    } else {
        let old_step = a.steps[t.step_index as int];
        if t.literal_index >= old_step.clause.literals.len() || both_factual(new_step, old_step) {
            None
        } else if new_literal.positive {
            resolution(
                a.steps.len() as usize,
                new_step,
                i,
                t.step_index,
                old_step,
                t.literal_index as int,
                !t.left,
            )
        } else {
            resolution(
                t.step_index,
                old_step,
                t.literal_index as int,
                a.steps.len() as usize,
                new_step,
                i,
                !t.left,
            )
        }
    }
}

/// A list with one more element, if there is one.
pub open spec fn with_some<T>(s: Seq<T>, x: Option<T>) -> Seq<T> {
    match x {
        Some(x) => s.push(x),
        None => s,
    }
}

/// The resolutions of literal `i` of a new step with the first `n` targets.
pub open spec fn target_resolutions(
    a: ActiveV,
    new_step: StepV,
    i: int,
    targets: Seq<ResolutionTarget>,
    n: nat,
) -> Seq<StepV>
    decreases n,
{
    if n == 0 || n > targets.len() {
        Seq::empty()
    } else {
        with_some(
            target_resolutions(a, new_step, i, targets, (n - 1) as nat),
            target_resolution(a, new_step, i, targets[n - 1]),
        )
    }
}

/// The targets for a literal: those of the opposite sign.
pub open spec fn targets_for(a: ActiveV, l: LiteralV) -> Seq<ResolutionTarget> {
    if l.positive {
        a.negative_targets
    } else {
        a.positive_targets
    }
}

/// All resolutions of the first `n` literals of a new step.
pub open spec fn all_resolutions(a: ActiveV, new_step: StepV, n: nat) -> Seq<StepV>
    decreases n,
{
    if n == 0 || n > new_step.clause.literals.len() {
        Seq::empty()
    } else {
        let targets = targets_for(a, new_step.clause.literals[n - 1]);
        all_resolutions(a, new_step, (n - 1) as nat) + target_resolutions(
            a,
            new_step,
            n - 1,
            targets,
            targets.len(),
        )
    }
}

/// The ways to rewrite a term by an equality, from left to right and from right to left. Nothing
/// is rewritten from "true".
pub open spec fn pattern_rewrites(p: (LiteralV, usize), t: TermV) -> Seq<RewriteV> {
    let forwards = match matched(p.0.left, t, Map::empty()) {
        Some(m) => if p.0.left.head is True {
            Seq::empty()
        } else {
            seq![RewriteV { pattern_id: p.1, forwards: true, term: filled(p.0.right, m) }]
        },
        None => Seq::empty(),
    };
    match matched(p.0.right, t, Map::empty()) {
        Some(m) => if p.0.right.head is True {
            forwards
        } else {
            forwards.push(
                RewriteV { pattern_id: p.1, forwards: false, term: filled(p.0.left, m) },
            )
        },
        None => forwards,
    }
}

/// The ways to rewrite a term by the first `n` patterns.
pub open spec fn rewrites_of(ps: Seq<(LiteralV, usize)>, t: TermV, n: nat) -> Seq<RewriteV>
    decreases n,
{
    if n == 0 || n > ps.len() {
        Seq::empty()
    } else {
        rewrites_of(ps, t, (n - 1) as nat) + pattern_rewrites(ps[n - 1], t)
    }
}

/// An equality between a term and what it is rewritten to, with the sides of the pattern.
pub open spec fn rewrite_edge(t: TermV, r: RewriteV, inspiration_id: Option<usize>) -> EdgeV {
    EdgeV {
        left: if r.forwards {
            t
        } else {
            r.term
        },
        right: if r.forwards {
            r.term
        } else {
            t
        },
        pattern_id: r.pattern_id,
        inspiration_id,
        equal: true,
    }
}

/// Equalities for rewrites.
pub open spec fn rewrite_edges(t: TermV, rs: Seq<RewriteV>, inspiration_id: usize) -> Seq<EdgeV> {
    Seq::new(rs.len(), |i: int| rewrite_edge(t, rs[i], Some(inspiration_id)))
}

/// The first place of a term among the known subterms, from `i` on.
pub open spec fn subterm_place(s: Seq<SubtermV>, t: TermV, i: nat) -> nat
    decreases s.len() - i,
{
    if i >= s.len() || s[i as int].term == t {
        i
    } else {
        subterm_place(s, t, i + 1)
    }
}

/// The active set with what is known of a subterm. For one that was never seen before, all the
/// ways to rewrite it are found.
pub open spec fn with_subterm(a: ActiveV, t: TermV, target_id: usize) -> ActiveV {
    if subterm_place(a.subterms, t, 0) < a.subterms.len() {
        a
    } else {
        let rewrites = rewrites_of(a.patterns, t, a.patterns.len());
        ActiveV {
            graph: a.graph + rewrite_edges(t, rewrites, target_id),
            subterms: a.subterms.push(
                SubtermV {
                    term: t,
                    locations: Seq::empty(),
                    rewrites,
                    inspiration_id: target_id,
                },
            ),
            ..a
        }
    }
}

/// What comes of rewriting a place in a target, if that is to be done: a literal is not rewritten
/// with itself.
pub open spec fn place_rewrite(
    a: ActiveV,
    target_id: usize,
    target: StepV,
    left: bool,
    path: Seq<usize>,
    r: RewriteV,
) -> Option<StepV> {
    if target_id == r.pattern_id || r.pattern_id >= a.steps.len() || both_factual(
        target,
        a.steps[r.pattern_id as int],
    ) {
        None
    } else {
        Some(
            rewrite_step(
                r.pattern_id,
                a.steps[r.pattern_id as int],
                target_id,
                target,
                left,
                path,
                r.forwards,
                r.term,
            ),
        )
    }
}

/// What comes of rewriting a place in a target in the first `n` ways.
pub open spec fn place_rewrites(
    a: ActiveV,
    target_id: usize,
    target: StepV,
    left: bool,
    path: Seq<usize>,
    rs: Seq<RewriteV>,
    n: nat,
) -> Seq<StepV>
    decreases n,
{
    if n == 0 || n > rs.len() {
        Seq::empty()
    } else {
        with_some(
            place_rewrites(a, target_id, target, left, path, rs, (n - 1) as nat),
            place_rewrite(a, target_id, target, left, path, rs[n - 1]),
        )
    }
}

/// An active set and the steps that were found.
pub type FoundV = (ActiveV, Seq<StepV>);

/// What comes of a place in a target: its rewrites, and that it is known.
pub open spec fn rewritten_place(
    a: ActiveV,
    target_id: usize,
    target: StepV,
    left: bool,
    place: PlaceV,
) -> FoundV {
    let b = with_subterm(a, place.1, target_id);
    let k = subterm_place(b.subterms, place.1, 0) as int;
    let info = b.subterms[k];
    let found = place_rewrites(
        b,
        target_id,
        target,
        left,
        place.0,
        info.rewrites,
        info.rewrites.len(),
    );
    (
        ActiveV {
            subterms: b.subterms.update(
                k,
                SubtermV {
                    locations: info.locations.push(
                        LocationV { target_id, left, path: place.0 },
                    ),
                    ..info
                },
            ),
            ..b
        },
        found,
    )
}

/// What comes of the first `n` places in a side of a target.
pub open spec fn rewritten_places(
    a: ActiveV,
    target_id: usize,
    target: StepV,
    left: bool,
    places: Seq<PlaceV>,
    n: nat,
) -> FoundV
    decreases n,
{
    if n == 0 || n > places.len() {
        (a, Seq::empty())
    } else {
        let (b, before) = rewritten_places(a, target_id, target, left, places, (n - 1) as nat);
        let (c, more) = rewritten_place(b, target_id, target, left, places[n - 1]);
        (c, before + more)
    }
}

/// What comes of a literal as a target for rewriting: first its left side, then its right side.
pub open spec fn rewritten_target(a: ActiveV, target_id: usize, target: StepV) -> FoundV {
    let l = target.clause.literals[0];
    let left_places = subterms(l.left, Seq::empty());
    let right_places = subterms(l.right, Seq::empty());
    let (b, first) = rewritten_places(
        a,
        target_id,
        target,
        true,
        left_places,
        left_places.len(),
    );
    let (c, second) = rewritten_places(
        b,
        target_id,
        target,
        false,
        right_places,
        right_places.len(),
    );
    (c, first + second)
}

/// What comes of rewriting one location of a subterm with a pattern.
pub open spec fn location_rewrite(
    a: ActiveV,
    pattern_id: usize,
    pattern: StepV,
    loc: LocationV,
    forwards: bool,
    u: TermV,
) -> Option<StepV> {
    if loc.target_id == pattern_id || loc.target_id >= a.steps.len()
        || a.steps[loc.target_id as int].clause.literals.len() != 1 || both_factual(
        pattern,
        a.steps[loc.target_id as int],
    ) {
        None
    } else {
        Some(
            rewrite_step(
                pattern_id,
                pattern,
                loc.target_id,
                a.steps[loc.target_id as int],
                loc.left,
                loc.path,
                forwards,
                u,
            ),
        )
    }
}

/// What comes of rewriting the first `n` locations of a subterm with a pattern.
pub open spec fn location_rewrites(
    a: ActiveV,
    pattern_id: usize,
    pattern: StepV,
    locs: Seq<LocationV>,
    forwards: bool,
    u: TermV,
    n: nat,
) -> Seq<StepV>
    decreases n,
{
    if n == 0 || n > locs.len() {
        Seq::empty()
    } else {
        with_some(
            location_rewrites(a, pattern_id, pattern, locs, forwards, u, (n - 1) as nat),
            location_rewrite(a, pattern_id, pattern, locs[n - 1], forwards, u),
        )
    }
}

/// What comes of rewriting subterm `k` from `s` to `t`.
pub open spec fn rewritten_subterm(
    a: ActiveV,
    pattern_id: usize,
    pattern: StepV,
    forwards: bool,
    s: TermV,
    t: TermV,
    k: int,
) -> FoundV {
    let info = a.subterms[k];
    match unified(seq![(s, partnered(info.term))]) {
        None => (a, Seq::empty()),
        Some(b) => {
            let r = RewriteV { pattern_id, forwards, term: instance(t, b) };
            (
                ActiveV {
                    graph: a.graph.push(
                        rewrite_edge(info.term, r, Some(info.inspiration_id)),
                    ),
                    subterms: a.subterms.update(
                        k,
                        SubtermV { rewrites: info.rewrites.push(r), ..info },
                    ),
                    ..a
                },
                location_rewrites(
                    a,
                    pattern_id,
                    pattern,
                    info.locations,
                    forwards,
                    r.term,
                    info.locations.len(),
                ),
            )
        },
    }
}

/// What comes of rewriting the first `n` subterms from `s` to `t`.
pub open spec fn rewritten_subterms(
    a: ActiveV,
    pattern_id: usize,
    pattern: StepV,
    forwards: bool,
    s: TermV,
    t: TermV,
    n: nat,
) -> FoundV
    decreases n,
{
    if n == 0 || n > a.subterms.len() {
        (a, Seq::empty())
    } else {
        let (b, before) = rewritten_subterms(
            a,
            pattern_id,
            pattern,
            forwards,
            s,
            t,
            (n - 1) as nat,
        );
        let (c, more) = rewritten_subterm(b, pattern_id, pattern, forwards, s, t, n - 1);
        (c, before + more)
    }
}

/// What comes of rewriting everything from `s` to `t`, unless that is rewriting from "true".
pub open spec fn rewritten_from(
    a: ActiveV,
    pattern_id: usize,
    pattern: StepV,
    forwards: bool,
    s: TermV,
    t: TermV,
) -> FoundV {
    if s.head is True {
        (a, Seq::empty())
    } else {
        rewritten_subterms(a, pattern_id, pattern, forwards, s, t, a.subterms.len())
    }
}

/// What comes of a literal as a pattern for rewriting: first forwards, then backwards.
pub open spec fn rewritten_pattern(a: ActiveV, pattern_id: usize, pattern: StepV) -> FoundV {
    let l = pattern.clause.literals[0];
    let (b, first) = rewritten_from(a, pattern_id, pattern, true, l.left, l.right);
    let (c, second) = rewritten_from(b, pattern_id, pattern, false, l.right, l.left);
    (c, first + second)
}

/// The step for one way to resolve away an inequality, unless it always holds.
pub open spec fn er_step(id: usize, step: StepV, r: ResolvedV) -> Option<StepV> {
    let clause = clause_of(r.1);
    if clause.is_tautology() {
        None
    } else {
        Some(
            direct_step(
                step,
                RuleV::EqualityResolution { id, index: r.0, literals: r.1, flips: r.2 },
                clause,
                trace_of(r.1),
            ),
        )
    }
}

/// The steps for the first `n` ways to resolve away an inequality.
pub open spec fn er_steps(id: usize, step: StepV, rs: Seq<ResolvedV>, n: nat) -> Seq<StepV>
    decreases n,
{
    if n == 0 || n > rs.len() {
        Seq::empty()
    } else {
        with_some(er_steps(id, step, rs, (n - 1) as nat), er_step(id, step, rs[n - 1]))
    }
}

/// What comes of the equality resolution rule.
pub open spec fn equality_resolutions(id: usize, step: StepV) -> Seq<StepV> {
    let rs = resolutions(step.clause.literals, step.clause.literals.len());
    er_steps(id, step, rs, rs.len())
}

/// The only place from the `j`th on where two lists of terms differ, if there is just one. `found`
/// is one before that.
pub open spec fn only_difference(
    a: Seq<TermV>,
    b: Seq<TermV>,
    j: nat,
    found: Option<usize>,
) -> Option<usize>
    decreases a.len() - j,
{
    if j >= a.len() {
        found
    } else if a[j as int] == b[j as int] {
        only_difference(a, b, j + 1, found)
    } else if found is Some {
        None
    } else {
        only_difference(a, b, j + 1, Some(j as usize))
    }
}

/// The step that takes the functions away from literal `i`, if it is an inequality between the
/// same function of different arguments, and just one of them differs.
pub open spec fn fe_step(id: usize, step: StepV, i: int) -> Option<StepV> {
    let l = step.clause.literals[i];
    if l.left.head != l.right.head || l.left.args.len() != l.right.args.len() {
        None
    } else {
        match only_difference(l.left.args, l.right.args, 0, None) {
            None => None,
            Some(j) => {
                let (new_literal, flipped) = oriented(
                    false,
                    l.left.args[j as int],
                    l.right.args[j as int],
                );
                let literals = step.clause.literals.update(i, new_literal);
                Some(
                    direct_step(
                        step,
                        RuleV::FunctionElimination {
                            id,
                            index: i as usize,
                            literals,
                            flipped,
                            arg: j,
                        },
                        clause_of(literals),
                        trace_of(literals),
                    ),
                )
            },
        }
    }
}

/// What comes of the function elimination rule for the first `n` literals. Negative literals come
/// before positive ones, so it ends with the first positive one.
pub open spec fn fe_steps(id: usize, step: StepV, n: nat) -> Seq<StepV>
    decreases n,
{
    if n == 0 || n > step.clause.literals.len() {
        Seq::empty()
    } else {
        let before = fe_steps(id, step, (n - 1) as nat);
        if crate::clause::first_positive(step.clause.literals, 0) < n {
            before
        } else {
            with_some(before, fe_step(id, step, n - 1))
        }
    }
}

/// The literals and their traces after the first two of a factoring: the first `n` of a clause but
/// the first and the `k`th.
pub open spec fn factored_rest(ls: Seq<LiteralV>, s: Seq<BindingV>, k: int, n: nat) -> Seq<
    LiteralV,
>
    decreases n,
{
    if n <= 1 || n > ls.len() {
        Seq::empty()
    } else {
        let before = factored_rest(ls, s, k, (n - 1) as nat);
        if n - 1 == k {
            before
        } else {
            before.push(bound_literal(ls[n - 1], s).0)
        }
    }
}

/// Where the first `n` literals of a clause went in a factoring of the first and the `k`th.
pub open spec fn factored_trace(
    ls: Seq<LiteralV>,
    s: Seq<BindingV>,
    k: int,
    first: EFLiteralTrace,
    kth: EFLiteralTrace,
    n: nat,
) -> Seq<EFLiteralTrace>
    decreases n,
{
    if n == 0 || n > ls.len() {
        Seq::empty()
    } else {
        let before = factored_trace(ls, s, k, first, kth, (n - 1) as nat);
        if n == 1 {
            before.push(first)
        } else if n - 1 == k {
            before.push(kth)
        } else {
            before.push(
                ef_trace_to(
                    (2 + factored_rest(ls, s, k, (n - 1) as nat).len()) as usize,
                    bound_literal(ls[n - 1], s).1,
                ),
            )
        }
    }
}

/// The step that factors the first literal, "s = t", and the `k`th, "u = v". Given
/// "s = t or u = v or R", where s and u can be made the same, it says "t != v or u = v or R".
pub open spec fn ef_terms(
    id: usize,
    step: StepV,
    k: int,
    st: (TermV, TermV, bool),
    uv: (TermV, TermV, bool),
) -> Option<StepV> {
    let ls = step.clause.literals;
    match unified(seq![(st.0, uv.0)]) {
        None => None,
        Some(b) => {
            let (tv, tv_flip) = oriented(false, instance(st.1, b), instance(uv.1, b));
            let (uv_literal, uv_flip) = oriented(true, instance(uv.0, b), instance(uv.1, b));
            let literals = seq![tv, uv_literal] + factored_rest(ls, b, k, ls.len());
            let u_out = EFTermTrace { index: 1, left: !uv_flip };
            let v_out = EFTermTrace { index: 1, left: uv_flip };
            let t_out = EFTermTrace { index: 0, left: !tv_flip };
            Some(
                direct_step(
                    step,
                    RuleV::EqualityFactoring {
                        id,
                        literals,
                        ef_trace: factored_trace(
                            ls,
                            b,
                            k,
                            ef_trace(u_out, t_out, !st.2),
                            ef_trace(u_out, v_out, !uv.2),
                            ls.len(),
                        ),
                    },
                    clause_of(literals),
                    trace_of(literals),
                ),
            )
        },
    }
}

/// The sides of a literal, seen one way or the other.
pub open spec fn sides(l: LiteralV, forwards: bool) -> (TermV, TermV, bool) {
    if forwards {
        (l.left, l.right, forwards)
    } else {
        (l.right, l.left, forwards)
    }
}

/// The step that factors the first literal and the `k`th, each seen one way.
pub open spec fn ef_step(
    id: usize,
    step: StepV,
    k: int,
    st_forwards: bool,
    uv_forwards: bool,
) -> Option<StepV> {
    let ls = step.clause.literals;
    ef_terms(id, step, k, sides(ls[0], st_forwards), sides(ls[k], uv_forwards))
}

/// The factorings of the first literal, seen one way, with those before the `n`th.
pub open spec fn ef_steps(id: usize, step: StepV, st_forwards: bool, n: nat) -> Seq<StepV>
    decreases n,
{
    if n <= 1 || n > step.clause.literals.len() {
        Seq::empty()
    } else {
        with_some(
            with_some(
                ef_steps(id, step, st_forwards, (n - 1) as nat),
                ef_step(id, step, n - 1, st_forwards, true),
            ),
            ef_step(id, step, n - 1, st_forwards, false),
        )
    }
}

/// What comes of the equality factoring rule. The first literal has to be an equality.
pub open spec fn equality_factorings(id: usize, step: StepV) -> Seq<StepV> {
    let ls = step.clause.literals;
    if ls.len() == 0 || !ls[0].positive {
        Seq::empty()
    } else {
        ef_steps(id, step, true, ls.len()) + ef_steps(id, step, false, ls.len())
    }
}

/// Whether a literal is an instance of another, as it is written.
pub open spec fn is_instance(g: LiteralV, l: LiteralV, flipped: bool) -> bool {
    let (a, b) = if flipped {
        (l.right, l.left)
    } else {
        (l.left, l.right)
    };
    match matched(g.left, a, Map::empty()) {
        None => false,
        Some(m) => matched(g.right, b, m) is Some,
    }
}

/// The first literal from the `i`th on that a literal is an instance of, up to its sign: the sign,
/// the id, and whether the sides are exchanged.
pub open spec fn generalization(s: Seq<(LiteralV, usize)>, l: LiteralV, i: nat) -> Option<
    (bool, usize, bool),
>
    decreases s.len() - i,
{
    if i >= s.len() {
        None
    } else if is_instance(s[i as int].0, l, false) {
        Some((s[i as int].0.positive, s[i as int].1, false))
    } else if is_instance(s[i as int].0, l, true) {
        Some((s[i as int].0.positive, s[i as int].1, true))
    } else {
        generalization(s, l, i + 1)
    }
}

/// Whether a literal is known to hold or not, and why.
pub open spec fn evaluated(a: ActiveV, l: LiteralV) -> Option<(bool, LiteralTrace)> {
    if l.left == l.right {
        Some((l.positive, LiteralTrace::Impossible))
    } else {
        match generalization(a.literal_set, l, 0) {
            Some((positive, step, flipped)) => Some(
                (positive == l.positive, LiteralTrace::Eliminated { step, flipped }),
            ),
            None => None,
        }
    }
}

/// What is left of a clause: literals, what became of the others, and the steps that were used.
pub struct FilteredV {
    pub literals: Seq<LiteralV>,
    pub trace: Seq<LiteralTrace>,
    pub rules: Seq<(usize, StepV)>,
}

/// What is left of the first `n` literals. There is nothing to keep where one is known to hold.
pub open spec fn filtered(a: ActiveV, ls: Seq<LiteralV>, n: nat) -> Option<FilteredV>
    decreases n,
{
    if n == 0 || n > ls.len() {
        Some(FilteredV { literals: Seq::empty(), trace: Seq::empty(), rules: Seq::empty() })
    } else {
        match filtered(a, ls, (n - 1) as nat) {
            None => None,
            Some(f) => match evaluated(a, ls[n - 1]) {
                Some((true, _)) => None,
                Some((false, trace)) => Some(
                    FilteredV {
                        trace: f.trace.push(trace),
                        rules: match trace {
                            LiteralTrace::Eliminated { step, .. } => if step < a.steps.len() {
                                f.rules.push((step, a.steps[step as int]))
                            } else {
                                f.rules
                            },
                            _ => f.rules,
                        },
                        ..f
                    },
                ),
                None => Some(
                    FilteredV {
                        literals: f.literals.push(ls[n - 1]),
                        trace: f.trace.push(
                            LiteralTrace::Output {
                                index: f.literals.len() as usize,
                                flipped: false,
                            },
                        ),
                        ..f
                    },
                ),
            },
        }
    }
}

/// Whether this is a clause of more than one literal that was proven already.
pub open spec fn is_known_long(a: ActiveV, c: ClauseV) -> bool {
    c.literals.len() > 1 && a.long_clauses.contains(c)
}

/// A step, simplified by what is known. There is none where it says nothing new.
pub open spec fn simplified(a: ActiveV, step: StepV) -> Option<StepV> {
    if step.clause.is_tautology() || is_known_long(a, step.clause) {
        None
    } else {
        match filtered(a, step.clause.literals, step.clause.literals.len()) {
            None => None,
            Some(f) => if f.literals.len() == step.clause.literals.len() {
                Some(step)
            } else {
                let clause = clause_of(f.literals);
                let traces = match step.traces {
                    Some(t) => Some(
                        composed_traces(composed_traces(t, f.trace), trace_of(f.literals)),
                    ),
                    None => None,
                };
                if clause.is_tautology() || is_known_long(a, clause) {
                    None
                } else {
                    Some(simplified_step(step, f.rules, clause, traces))
                }
            },
        }
    }
}

/// The active set with targets for the first `n` literals of a clause.
pub open spec fn with_targets(a: ActiveV, id: usize, ls: Seq<LiteralV>, n: nat) -> ActiveV
    decreases n,
{
    if n == 0 || n > ls.len() {
        a
    } else {
        let b = with_targets(a, id, ls, (n - 1) as nat);
        let left = ResolutionTarget {
            step_index: id,
            literal_index: (n - 1) as usize,
            left: true,
        };
        let right = ResolutionTarget {
            step_index: id,
            literal_index: (n - 1) as usize,
            left: false,
        };
        if ls[n - 1].positive {
            ActiveV { positive_targets: b.positive_targets.push(left).push(right), ..b }
        } else {
            ActiveV { negative_targets: b.negative_targets.push(left).push(right), ..b }
        }
    }
}

/// The active set with one more step.
pub open spec fn with_step(a: ActiveV, step: StepV) -> ActiveV {
    let ls = step.clause.literals;
    let b = with_targets(a, a.steps.len() as usize, ls, ls.len());
    ActiveV {
        steps: b.steps.push(step),
        long_clauses: if ls.len() > 1 {
            b.long_clauses.push(step.clause)
        } else {
            b.long_clauses
        },
        ..b
    }
}

/// What comes of a literal that is activated: a concrete one can be rewritten, and an equality that
/// does not come from rewriting can be used to rewrite.
pub open spec fn activated_literal(a: ActiveV, step: StepV) -> FoundV {
    let id = a.steps.len() as usize;
    let l = step.clause.literals[0];
    let (b, first) = if l.has(|x: Atom| is_var(x)) {
        (a, Seq::empty())
    } else {
        rewritten_target(
            ActiveV {
                graph: a.graph.push(
                    EdgeV {
                        left: l.left,
                        right: l.right,
                        pattern_id: id,
                        inspiration_id: None,
                        equal: l.positive,
                    },
                ),
                ..a
            },
            id,
            step,
        )
    };
    let (c, second) = if l.positive && !(step.rule is Rewrite) {
        let (d, found) = rewritten_pattern(b, id, step);
        (ActiveV { patterns: d.patterns.push((l, id)), ..d }, found)
    } else {
        (b, Seq::empty())
    };
    (ActiveV { literal_set: c.literal_set.push((l, id)), ..c }, first + second)
}

/// What comes of a step that is activated: all the inferences that can be made from it and at most
/// one other clause, and the set with this step in it.
pub open spec fn activated(a: ActiveV, step: StepV) -> FoundV {
    let id = a.steps.len() as usize;
    let alone = equality_resolutions(id, step) + equality_factorings(id, step) + fe_steps(
        id,
        step,
        step.clause.literals.len(),
    ) + all_resolutions(a, step, step.clause.literals.len());
    let (b, more) = if step.clause.literals.len() == 1 {
        activated_literal(a, step)
    } else {
        (a, Seq::empty())
    };
    (with_step(b, step), alone + more)
}

/// Whether an id can be reached from some others by going from steps to what they depend on.
pub open spec fn upstream(
    steps: Seq<StepV>,
    roots: Seq<usize>,
    inspired: bool,
    id: usize,
    path: Seq<usize>,
) -> bool {
    &&& path.len() > 0
    &&& roots.contains(path[0])
    &&& path.last() == id
    &&& forall|i: int| 0 <= i < path.len() ==> #[trigger] path[i] < steps.len()
    &&& forall|i: int, j: int|
        0 <= i && j == i + 1 && j < path.len() ==> steps[(#[trigger] path[i])
            as int].active_dependencies(inspired).contains(#[trigger] path[j])
}

/// Whether some path leads from the given ids to this one.
pub open spec fn is_upstream(steps: Seq<StepV>, roots: Seq<usize>, inspired: bool, id: usize) -> bool {
    exists|path: Seq<usize>| #[trigger] upstream(steps, roots, inspired, id, path)
}

fn find_position(ls: &Vec<Literal>, l: &Literal) -> (r: usize)
    ensures
        r == position(views(ls@), l@, 0),
{
    let ghost lv = views(ls@);
    let mut i: usize = 0;
    while i < ls.len() && !ls[i].same(l)
        invariant
            i <= ls.len(),
            lv == views(ls@),
            position(lv, l@, 0) == position(lv, l@, i as nat),
        decreases ls.len() - i,
    {
        assert(lv[i as int] == ls@[i as int]@);
        i = i + 1;
    }
    proof {
        if i < ls.len() {
            assert(lv[i as int] == ls@[i as int]@);
        }
    }
    i
}

fn check_rest(
    short: &Vec<Literal>,
    short_index: usize,
    long: &Vec<Literal>,
    long_index: usize,
) -> (r: bool)
    ensures
        r == rest_matches(views(short@), short_index as int, views(long@), long_index as int),
{
    let ghost sv = views(short@);
    let ghost lv = views(long@);
    let mut i: usize = 0;
    while i < short.len()
        invariant
            i <= short.len(),
            sv == views(short@),
            lv == views(long@),
            forall|k: int|
                0 <= k < i && k != short_index ==> {
                    let p = position(lv, #[trigger] sv[k], 0);
                    !sv[k].has(|a: Atom| is_var(a)) && p < lv.len() && p != long_index
                },
        decreases short.len() - i,
    {
        assert(sv[i as int] == short@[i as int]@);
        if i != short_index {
            let k = find_position(long, &short[i]);
            if short[i].has_any_variable() || k >= long.len() || k == long_index {
                return false;
            }
        }
        i = i + 1;
    }
    true
}

fn resolve_literals(
    long: &Vec<Literal>,
    s: &Vec<(Atom, Term)>,
    long_index: usize,
    short_id: usize,
    flipped: bool,
) -> (r: (Vec<Literal>, Vec<LiteralTrace>))
    ensures
        (views(r.0@), r.1@) == resolved_literals(
            views(long@),
            views(s@),
            long_index as int,
            short_id,
            flipped,
            long@.len(),
        ),
{
    broadcast use crate::text::group_views;
    let ghost lv = views(long@);
    let ghost bv = views(s@);
    let mut literals: Vec<Literal> = Vec::new();
    let mut trace: Vec<LiteralTrace> = Vec::new();
    let mut i: usize = 0;
    while i < long.len()
        invariant
            i <= long.len(),
            lv == views(long@),
            bv == views(s@),
            (views(literals@), trace@) == resolved_literals(
                lv,
                bv,
                long_index as int,
                short_id,
                flipped,
                i as nat,
            ),
        decreases long.len() - i,
    {
        broadcast use crate::text::group_views;
        assert(lv[i as int] == long@[i as int]@);
        if i == long_index {
            trace.push(LiteralTrace::Eliminated { step: short_id, flipped });
        } else {
            let literal = &long[i];
            let left = apply(&partner(&literal.left), s);
            let right = apply(&partner(&literal.right), s);
            let (new_literal, new_flip) = Literal::new_with_flip(literal.positive, left, right);
            trace.push(LiteralTrace::Output { index: literals.len(), flipped: new_flip });
            literals.push(new_literal);
        }
        i = i + 1;
    }
    (literals, trace)
}

fn two_equations(a: &Term, b: Term, c: &Term, d: Term) -> (r: Vec<(Term, Term)>)
    ensures
        views(r@) == seq![(a@, b@), (c@, d@)],
{
    let mut out: Vec<(Term, Term)> = Vec::new();
    let ghost bv = b@;
    let ghost dv = d@;
    out.push((a.clone(), b));
    out.push((c.clone(), d));
    assert(views(out@) =~= seq![(a@, bv), (c@, dv)]);
    out
}

// Resolves a literal of a short clause with one of a long clause.
fn resolve(
    short_id: usize,
    short_step: &ProofStep,
    short_index: usize,
    long_id: usize,
    long_step: &ProofStep,
    long_index: usize,
    flipped: bool,
) -> (r: Option<ProofStep>)
    requires
        short_index < short_step@.clause.literals.len(),
        long_index < long_step@.clause.literals.len(),
    ensures
        opt_view(r) == resolved(
            short_id,
            short_step@,
            short_index as int,
            long_id,
            long_step@,
            long_index as int,
            flipped,
        ),
{
    let short_clause = &short_step.clause;
    let long_clause = &long_step.clause;
    // Do some heuristic filtering before trying unification, because unification is expensive.
    // We need only the simplest form of two-long-clause resolution.
    // Concluding from "A or B" and "not A or B" that "B" is true.
    // So let's allow that case, and return None otherwise.
    if short_clause.len() > 1 && (short_clause.len() != 2 || long_clause.len() != 2) {
        return None;
    }
    // Check the non-matching short literal.
    if !check_rest(&short_clause.literals, short_index, &long_clause.literals, long_index) {
        return None;
    }
    // Heuristics done. Let's unify. The variables of the long clause are the partner's.
    let short_literal = &short_clause.literals[short_index];
    let long_literal = &long_clause.literals[long_index];
    assert(short_step@.clause.literals[short_index as int] == short_literal@);
    assert(long_step@.clause.literals[long_index as int] == long_literal@);
    let (long_a, long_b) = if flipped {
        (&long_literal.right, &long_literal.left)
    } else {
        (&long_literal.left, &long_literal.right)
    };
    let equations = two_equations(
        &short_literal.right,
        partner(long_b),
        &short_literal.left,
        partner(long_a),
    );
    match unify_all(equations) {
        None => None,
        Some(unifier) => {
            let (literals, incremental_trace) = resolve_literals(
                &long_clause.literals,
                &unifier,
                long_index,
                short_id,
                flipped,
            );
            // Gather the output data
            let (clause, traces) = Clause::new_with_trace(literals, incremental_trace);
            Some(
                ProofStep::resolution(
                    long_id,
                    long_step,
                    short_id,
                    short_step,
                    clause,
                    Some(traces),
                ),
            )
        },
    }
}

fn find_difference(a: &Vec<Term>, b: &Vec<Term>) -> (r: Option<usize>)
    requires
        a.len() == b.len(),
    ensures
        r == only_difference(views(a@), views(b@), 0, None),
        r matches Some(j) ==> j < a.len(),
{
    let ghost av = views(a@);
    let ghost bv = views(b@);
    let mut found: Option<usize> = None;
    let mut j: usize = 0;
    while j < a.len()
        invariant
            j <= a.len() == b.len(),
            av == views(a@),
            bv == views(b@),
            found matches Some(k) ==> k < a.len(),
            only_difference(av, bv, 0, None) == only_difference(av, bv, j as nat, found),
        decreases a.len() - j,
    {
        assert(av[j as int] == a@[j as int]@ && bv[j as int] == b@[j as int]@);
        if !a[j].same(&b[j]) {
            if found.is_some() {
                return None;
            }
            found = Some(j);
        }
        j = j + 1;
    }
    found
}

fn eliminate_function(id: usize, step: &ProofStep, i: usize) -> (r: Option<ProofStep>)
    requires
        i < step@.clause.literals.len(),
    ensures
        opt_view(r) == fe_step(id, step@, i as int),
{
    broadcast use lemma_term_view;
    let target = &step.clause.literals[i];
    assert(step@.clause.literals[i as int] == target@);
    if target.left.head != target.right.head {
        return None;
    }
    if target.left.args.len() != target.right.args.len() {
        return None;
    }
    // We can do function elimination when precisely one of the arguments is different.
    match find_difference(&target.left.args, &target.right.args) {
        None => None,
        Some(j) => {
            let mut literals = duplicate_all(&step.clause.literals);
            let ghost before = views(literals@);
            let (new_literal, flipped) = Literal::new_with_flip(
                false,
                target.left.args[j].clone(),
                target.right.args[j].clone(),
            );
            let ghost lit = new_literal@;
            literals.set(i, new_literal);
            assert(views(literals@) =~= before.update(i as int, lit));
            let info = FunctionEliminationInfo {
                id,
                index: i,
                literals: duplicate_all(&literals),
                flipped,
                arg: j,
            };
            let (clause, traces) = Clause::normalize_with_trace(literals);
            Some(ProofStep::direct(step, Rule::FunctionElimination(info), clause, traces))
        },
    }
}

fn factor_rest(
    ls: &Vec<Literal>,
    s: &Vec<(Atom, Term)>,
    k: usize,
    out: &mut Vec<Literal>,
    first: EFLiteralTrace,
    kth: EFLiteralTrace,
) -> (r: Vec<EFLiteralTrace>)
    requires
        old(out)@.len() == 2,
        0 < k < ls.len(),
    ensures
        views(final(out)@) == views(old(out)@) + factored_rest(
            views(ls@),
            views(s@),
            k as int,
            ls@.len(),
        ),
        r@ == factored_trace(views(ls@), views(s@), k as int, first, kth, ls@.len()),
{
    broadcast use crate::text::group_views;
    let ghost lv = views(ls@);
    let ghost bv = views(s@);
    let ghost start = views(out@);
    let mut trace: Vec<EFLiteralTrace> = Vec::new();
    trace.push(first);
    assert(trace@ =~= seq![first]);
    assert(factored_trace(lv, bv, k as int, first, kth, 0) =~= Seq::<EFLiteralTrace>::empty());
    assert(factored_trace(lv, bv, k as int, first, kth, 1) =~= seq![first]);
    assert(start + Seq::<LiteralV>::empty() =~= start);
    let mut j: usize = 1;
    while j < ls.len()
        invariant
            1 <= j <= ls.len(),
            0 < k < ls.len(),
            start.len() == 2,
            lv == views(ls@),
            bv == views(s@),
            views(out@) == start + factored_rest(lv, bv, k as int, j as nat),
            trace@ == factored_trace(lv, bv, k as int, first, kth, j as nat),
        decreases ls.len() - j,
    {
        broadcast use crate::text::group_views;
        assert(lv[j as int] == ls@[j as int]@);
        if j == k {
            trace.push(kth);
        } else {
            let (l, flip) = bind_literal(&ls[j], s);
            assert(views(out@).len() == out@.len());
            assert(out.len() == 2 + factored_rest(lv, bv, k as int, j as nat).len());
            trace.push(EFLiteralTrace::to_index(out.len(), flip));
            let ghost before = views(out@);
            let ghost lit = l@;
            out.push(l);
            assert(views(out@) =~= start + factored_rest(lv, bv, k as int, (j + 1) as nat));
        }
        j = j + 1;
    }
    trace
}

fn factor_terms(
    id: usize,
    step: &ProofStep,
    k: usize,
    st: (&Term, &Term, bool),
    uv: (&Term, &Term, bool),
) -> (r: Option<ProofStep>)
    requires
        0 < k < step@.clause.literals.len(),
    ensures
        opt_view(r) == ef_terms(
            id,
            step@,
            k as int,
            (st.0@, st.1@, st.2),
            (uv.0@, uv.1@, uv.2),
        ),
{
    match unify_all(one_equation(st.0, uv.0)) {
        None => None,
        Some(b) => {
            let (tv, tv_flip) = Literal::new_with_flip(false, apply(st.1, &b), apply(uv.1, &b));
            let (uv_literal, uv_flip) = Literal::new_with_flip(
                true,
                apply(uv.0, &b),
                apply(uv.1, &b),
            );
            let ghost tvv = tv@;
            let ghost uvv = uv_literal@;
            let mut literals: Vec<Literal> = Vec::new();
            literals.push(tv);
            literals.push(uv_literal);
            assert(views(literals@) =~= seq![tvv, uvv]);
            let u_out = EFTermTrace { index: 1, left: !uv_flip };
            let v_out = EFTermTrace { index: 1, left: uv_flip };
            let t_out = EFTermTrace { index: 0, left: !tv_flip };
            let trace = factor_rest(
                &step.clause.literals,
                &b,
                k,
                &mut literals,
                EFLiteralTrace::to_out(u_out, t_out, !st.2),
                EFLiteralTrace::to_out(u_out, v_out, !uv.2),
            );
            let info = EqualityFactoringInfo {
                id,
                literals: duplicate_all(&literals),
                ef_trace: trace,
            };
            let (clause, traces) = Clause::normalize_with_trace(literals);
            Some(ProofStep::direct(step, Rule::EqualityFactoring(info), clause, traces))
        },
    }
}

fn get_sides(l: &Literal, forwards: bool) -> (r: (&Term, &Term, bool))
    ensures
        (r.0@, r.1@, r.2) == sides(l@, forwards),
{
    if forwards {
        (&l.left, &l.right, forwards)
    } else {
        (&l.right, &l.left, forwards)
    }
}

fn factor(id: usize, step: &ProofStep, k: usize, st_forwards: bool, uv_forwards: bool) -> (r: Option<
    ProofStep,
>)
    requires
        0 < k < step@.clause.literals.len(),
    ensures
        opt_view(r) == ef_step(id, step@, k as int, st_forwards, uv_forwards),
{
    let ls = &step.clause.literals;
    assert(step@.clause.literals[0] == ls@[0]@);
    assert(step@.clause.literals[k as int] == ls@[k as int]@);
    factor_terms(id, step, k, get_sides(&ls[0], st_forwards), get_sides(&ls[k], uv_forwards))
}

fn push_some(out: &mut Vec<ProofStep>, x: Option<ProofStep>)
    ensures
        views(final(out)@) == with_some(views(old(out)@), opt_view(x)),
{
    broadcast use crate::text::group_views;
    if let Some(x) = x {
        out.push(x);
    }
}

fn push_factorings(id: usize, step: &ProofStep, st_forwards: bool, out: &mut Vec<ProofStep>)
    ensures
        views(final(out)@) == views(old(out)@) + ef_steps(
            id,
            step@,
            st_forwards,
            step@.clause.literals.len(),
        ),
{
    let ghost start = views(out@);
    let n = step.clause.literals.len();
    assert(start + Seq::<StepV>::empty() =~= start);
    let mut k: usize = 1;
    while k < n
        invariant
            1 <= k,
            n == step@.clause.literals.len(),
            k <= n || n == 0,
            views(out@) == start + ef_steps(id, step@, st_forwards, k as nat),
        decreases n - k,
    {
        let ghost before = views(out@);
        push_some(out, factor(id, step, k, st_forwards, true));
        push_some(out, factor(id, step, k, st_forwards, false));
        assert(views(out@) =~= start + ef_steps(id, step@, st_forwards, (k + 1) as nat));
        k = k + 1;
    }
}

fn match_rewrite(from: &Term, to: &Term, t: &Term) -> (r: Option<Term>)
    ensures
        opt_view(r) == (match matched(from@, t@, Map::empty()) {
            Some(m) => if from@.head is True {
                None
            } else {
                Some(filled(to@, m))
            },
            None => None,
        }),
{
    let mut m: Table<Atom, Term> = Table::new();
    if !match_terms(from, t, &mut m) {
        return None;
    }
    if from.is_true() {
        return None;
    }
    Some(fill(to, &m))
}

fn get_rewrites(ps: &Vec<(Literal, usize)>, t: &Term) -> (r: Vec<Rewrite>)
    ensures
        views(r@) == rewrites_of(literal_ids(ps@), t@, ps@.len()),
{
    broadcast use crate::text::group_views;
    let ghost pv = literal_ids(ps@);
    let mut out: Vec<Rewrite> = Vec::new();
    let mut i: usize = 0;
    while i < ps.len()
        invariant
            i <= ps.len(),
            pv == literal_ids(ps@),
            views(out@) == rewrites_of(pv, t@, i as nat),
        decreases ps.len() - i,
    {
        broadcast use crate::text::group_views;
        let (literal, id) = (&ps[i].0, ps[i].1);
        assert(pv[i as int] == (literal@, id));
        let ghost before = views(out@);
        if let Some(term) = match_rewrite(&literal.left, &literal.right, t) {
            out.push(Rewrite { pattern_id: id, forwards: true, term });
        }
        if let Some(term) = match_rewrite(&literal.right, &literal.left, t) {
            out.push(Rewrite { pattern_id: id, forwards: false, term });
        }
        assert(views(out@) =~= before + pattern_rewrites(pv[i as int], t@));
        i = i + 1;
    }
    out
}

fn find_subterm(s: &Vec<SubtermInfo>, t: &Term) -> (r: usize)
    ensures
        r == subterm_place(views(s@), t@, 0),
        r <= s.len(),
{
    let ghost sv = views(s@);
    let mut i: usize = 0;
    while i < s.len() && !s[i].term.same(t)
        invariant
            i <= s.len(),
            sv == views(s@),
            subterm_place(sv, t@, 0) == subterm_place(sv, t@, i as nat),
        decreases s.len() - i,
    {
        assert(sv[i as int] == s@[i as int]@);
        i = i + 1;
    }
    proof {
        if i < s.len() {
            assert(sv[i as int] == s@[i as int]@);
        }
    }
    i
}

proof fn lemma_new_subterm(s: Seq<SubtermV>, t: TermV, x: SubtermV, i: nat)
    requires
        i <= s.len(),
        subterm_place(s, t, i) >= s.len(),
        x.term == t,
    ensures
        subterm_place(s.push(x), t, i) == s.len(),
    decreases s.len() - i,
{
    if i < s.len() {
        assert(s.push(x)[i as int] == s[i as int]);
        lemma_new_subterm(s, t, x, i + 1);
    }
}

/// Whether a literal is an instance of another.
fn check_instance(g: &Literal, l: &Literal, flipped: bool) -> (r: bool)
    ensures
        r == is_instance(g@, l@, flipped),
{
    let (a, b) = if flipped {
        (&l.right, &l.left)
    } else {
        (&l.left, &l.right)
    };
    let mut m: Table<Atom, Term> = Table::new();
    if !match_terms(&g.left, a, &mut m) {
        return false;
    }
    match_terms(&g.right, b, &mut m)
}

proof fn lemma_fe_end(id: usize, step: StepV, i: nat, n: nat)
    requires
        i <= n <= step.clause.literals.len(),
        i == step.clause.literals.len() || crate::clause::first_positive(
            step.clause.literals,
            0,
        ) <= i,
    ensures
        fe_steps(id, step, n) == fe_steps(id, step, i),
    decreases n,
{
    if i < n {
        lemma_fe_end(id, step, i, (n - 1) as nat);
    }
}

impl ActiveSet {
    /// A set without clauses.
    pub fn new() -> (r: ActiveSet)
        ensures
            r@ == ActiveV::initial(),
    {
        let r = ActiveSet {
            steps: Vec::new(),
            long_clauses: Vec::new(),
            literal_set: Vec::new(),
            positive_res_targets: Vec::new(),
            negative_res_targets: Vec::new(),
            graph: TermGraph::new(),
            subterms: Vec::new(),
            patterns: Vec::new(),
        };
        assert(r@.steps =~= Seq::<StepV>::empty());
        assert(r@.long_clauses =~= Seq::<ClauseV>::empty());
        assert(r@.literal_set =~= Seq::<(LiteralV, usize)>::empty());
        assert(r@.subterms =~= Seq::<SubtermV>::empty());
        assert(r@.patterns =~= Seq::<(LiteralV, usize)>::empty());
        r
    }

    /// The number of steps.
    pub fn len(&self) -> (r: usize)
        ensures
            r == self@.steps.len(),
    {
        self.steps.len()
    }

    /// The id that the next step gets.
    pub fn next_id(&self) -> (r: usize)
        ensures
            r == self@.steps.len(),
    {
        self.steps.len()
    }

    /// Whether there is a step with this id.
    pub fn has_step(&self, index: usize) -> (r: bool)
        ensures
            r == (index < self@.steps.len()),
    {
        index < self.steps.len()
    }

    /// The step with an id.
    pub fn get_step(&self, index: usize) -> (r: &ProofStep)
        requires
            index < self@.steps.len(),
        ensures
            r@ == self@.steps[index as int],
    {
        &self.steps[index]
    }

    /// The clause of the step with an id.
    pub fn get_clause(&self, index: usize) -> (r: &Clause)
        requires
            index < self@.steps.len(),
        ensures
            r@ == self@.steps[index as int].clause,
    {
        &self.steps[index].clause
    }

    /// All steps, with their ids.
    pub fn iter_steps(&self) -> (r: Vec<(usize, &ProofStep)>)
        ensures
            id_steps(r@) == Seq::new(
                self@.steps.len(),
                |i: int| (i as usize, self@.steps[i]),
            ),
    {
        let mut out: Vec<(usize, &ProofStep)> = Vec::new();
        let mut i: usize = 0;
        while i < self.steps.len()
            invariant
                i <= self.steps.len(),
                out.len() == i,
                forall|k: int|
                    0 <= k < i ==> #[trigger] out@[k].0 == k && out@[k].1@ == self@.steps[k],
            decreases self.steps.len() - i,
        {
            assert(self@.steps[i as int] == self.steps@[i as int]@);
            out.push((i, &self.steps[i]));
            i = i + 1;
        }
        assert(id_steps(out@) =~= Seq::new(
            self@.steps.len(),
            |i: int| (i as usize, self@.steps[i]),
        ));
        out
    }

    /// All clauses, in the order of their ids.
    pub fn iter_clauses(&self) -> (r: Vec<&Clause>)
        ensures
            r@.len() == self@.steps.len(),
            forall|i: int| 0 <= i < r@.len() ==> (#[trigger] r@[i])@ == self@.steps[i].clause,
    {
        let mut out: Vec<&Clause> = Vec::new();
        let mut i: usize = 0;
        while i < self.steps.len()
            invariant
                i <= self.steps.len(),
                out.len() == i,
                forall|k: int| 0 <= k < i ==> (#[trigger] out@[k])@ == self@.steps[k].clause,
            decreases self.steps.len() - i,
        {
            assert(self@.steps[i as int] == self.steps@[i as int]@);
            out.push(&self.steps[i].clause);
            i = i + 1;
        }
        out
    }

    /// Ids are machine numbers.
    pub proof fn lemma_len(&self)
        ensures
            self@.steps.len() <= usize::MAX,
    {
        assert(self@.steps.len() == self.steps.len());
    }

    /// The equalities and inequalities between terms.
    pub fn get_graph(&self) -> (r: &TermGraph)
        ensures
            r@ == self@.graph,
    {
        &self.graph
    }

    fn is_known_long_clause(&self, clause: &Clause) -> (r: bool)
        ensures
            r == is_known_long(self@, clause@),
    {
        clause.literals.len() > 1 && holds(&self.long_clauses, clause)
    }

    /// Tries to do a resolution from two clauses. This works when two literals can be unified in
    /// such a way that they contradict each other.
    ///
    /// There are two ways that A = B and C != D can contradict. When u(A) = u(C) and u(B) = u(D),
    /// that is "not flipped". When u(A) = u(D) and u(B) = u(C), that is "flipped".
    ///
    /// To do resolution, one of the literals must be positive, and the other must be negative.
    fn try_resolution(
        &self,
        pos_id: usize,
        pos_step: &ProofStep,
        pos_index: usize,
        neg_id: usize,
        neg_step: &ProofStep,
        neg_index: usize,
        flipped: bool,
    ) -> (r: Option<ProofStep>)
        requires
            pos_index < pos_step@.clause.literals.len(),
            neg_index < neg_step@.clause.literals.len(),
        ensures
            opt_view(r) == resolution(
                pos_id,
                pos_step@,
                pos_index as int,
                neg_id,
                neg_step@,
                neg_index as int,
                flipped,
            ),
    {
        // Figure out which of the positive and negative clauses are long and short.
        if pos_step.clause.len() < neg_step.clause.len() {
            resolve(pos_id, pos_step, pos_index, neg_id, neg_step, neg_index, flipped)
        } else {
            resolve(neg_id, neg_step, neg_index, pos_id, pos_step, pos_index, flipped)
        }
    }

    fn resolve_with_target(&self, new_step: &ProofStep, i: usize, target: ResolutionTarget) -> (r:
        Option<ProofStep>)
        requires
            i < new_step@.clause.literals.len(),
        ensures
            opt_view(r) == target_resolution(self@, new_step@, i as int, target),
    {
        let new_step_id = self.next_id();
        assert(new_step@.clause.literals[i as int] == new_step.clause.literals@[i as int]@);
        if !self.has_step(target.step_index) {
            return None;
        }
        let old_step = self.get_step(target.step_index);
        if target.literal_index >= old_step.clause.len() {
            return None;
        }
        if new_step.truthiness == Truthiness::Factual && old_step.truthiness
            == Truthiness::Factual {
            // No global-global resolution
            return None;
        }
        let flipped = !target.left;
        if new_step.clause.literals[i].positive {
            self.try_resolution(
                new_step_id,
                new_step,
                i,
                target.step_index,
                old_step,
                target.literal_index,
                flipped,
            )
        } else {
            self.try_resolution(
                target.step_index,
                old_step,
                target.literal_index,
                new_step_id,
                new_step,
                i,
                flipped,
            )
        }
    }

    /// Finds all resolutions that can be done with a given proof step. The "new clause" is the one
    /// that is being activated, and the "old clause" is the existing one.
    pub fn find_resolutions(&self, new_step: &ProofStep, output: &mut Vec<ProofStep>)
        ensures
            views(final(output)@) == views(old(output)@) + all_resolutions(
                self@,
                new_step@,
                new_step@.clause.literals.len(),
            ),
    {
        let ghost start = views(output@);
        let ghost lv = new_step@.clause.literals;
        assert(start + Seq::<StepV>::empty() =~= start);
        let mut i: usize = 0;
        while i < new_step.clause.literals.len()
            invariant
                i <= new_step.clause.literals.len(),
                lv == views(new_step.clause.literals@),
                lv == new_step@.clause.literals,
                views(output@) == start + all_resolutions(self@, new_step@, i as nat),
            decreases new_step.clause.literals.len() - i,
        {
            let ghost middle = views(output@);
            assert(lv[i as int] == new_step.clause.literals@[i as int]@);
            let targets = if new_step.clause.literals[i].positive {
                &self.negative_res_targets
            } else {
                &self.positive_res_targets
            };
            assert(targets@ == targets_for(self@, lv[i as int]));
            assert(middle + Seq::<StepV>::empty() =~= middle);
            let mut j: usize = 0;
            while j < targets.len()
                invariant
                    i < new_step@.clause.literals.len(),
                    j <= targets.len(),
                    views(output@) == middle + target_resolutions(
                        self@,
                        new_step@,
                        i as int,
                        targets@,
                        j as nat,
                    ),
                decreases targets.len() - j,
            {
                let ghost before = views(output@);
                let found = self.resolve_with_target(new_step, i, targets[j]);
                push_some(output, found);
                assert(views(output@) =~= middle + target_resolutions(
                    self@,
                    new_step@,
                    i as int,
                    targets@,
                    (j + 1) as nat,
                ));
                j = j + 1;
            }
            assert(views(output@) =~= start + all_resolutions(self@, new_step@, (i + 1) as nat));
            i = i + 1;
        }
    }

    // Makes sure that a subterm is known, and gives its place.
    fn add_subterm(&mut self, term: &Term, target_id: usize) -> (r: usize)
        ensures
            final(self)@ == with_subterm(old(self)@, term@, target_id),
            r == subterm_place(final(self)@.subterms, term@, 0),
            r < final(self)@.subterms.len(),
    {
        broadcast use crate::text::group_views;
        let k = find_subterm(&self.subterms, term);
        if k < self.subterms.len() {
            // We already have data for this subterm.
            return k;
        }
        // We've never seen this subterm before.
        // We need to find all the possible rewrites for it.
        let rewrites = get_rewrites(&self.patterns, term);
        // Add these rewrites to the term graph
        let ghost rv = views(rewrites@);
        let ghost graph = self.graph@;
        let ghost edges = rewrite_edges(term@, rv, target_id);
        assert(graph + edges.take(0) =~= graph);
        let mut i: usize = 0;
        while i < rewrites.len()
            invariant
                i <= rewrites.len(),
                rv == views(rewrites@),
                edges == rewrite_edges(term@, rv, target_id),
                self.graph@ == graph + edges.take(i as int),
                self.steps@ == old(self).steps@,
                self.long_clauses@ == old(self).long_clauses@,
                self.literal_set@ == old(self).literal_set@,
                self.positive_res_targets@ == old(self).positive_res_targets@,
                self.negative_res_targets@ == old(self).negative_res_targets@,
                self.subterms@ == old(self).subterms@,
                self.patterns@ == old(self).patterns@,
            decreases rewrites.len() - i,
        {
            let rewrite = &rewrites[i];
            assert(rv[i as int] == rewrite@);
            self.add_to_term_graph(
                rewrite.pattern_id,
                Some(target_id),
                term,
                &rewrite.term,
                rewrite.forwards,
                true,
            );
            assert(self.graph@ =~= graph + edges.take(i + 1));
            i = i + 1;
        }
        assert(edges.take(i as int) =~= edges);
        // Populate the subterm info.
        let none: Vec<SubtermLocation> = Vec::new();
        assert(views(none@) =~= Seq::<LocationV>::empty());
        let info = SubtermInfo {
            term: term.clone(),
            locations: none,
            rewrites,
            inspiration_id: target_id,
        };
        proof {
            lemma_new_subterm(views(self.subterms@), term@, info@, 0);
        }
        self.subterms.push(info);
        k
    }

    // term1 and term2 are specializations of pattern_id.
    // If forwards, the pattern is term1 = term2. Otherwise, it is term2 = term1.
    fn add_to_term_graph(
        &mut self,
        pattern_id: usize,
        inspiration_id: Option<usize>,
        term1: &Term,
        term2: &Term,
        forwards: bool,
        equal: bool,
    )
        requires
            !equal ==> inspiration_id is None,
        ensures
            final(self).graph@ == old(self).graph@.push(
                EdgeV {
                    left: if forwards {
                        term1@
                    } else {
                        term2@
                    },
                    right: if forwards {
                        term2@
                    } else {
                        term1@
                    },
                    pattern_id,
                    inspiration_id,
                    equal,
                },
            ),
            final(self).steps == old(self).steps,
            final(self).long_clauses == old(self).long_clauses,
            final(self).literal_set == old(self).literal_set,
            final(self).positive_res_targets == old(self).positive_res_targets,
            final(self).negative_res_targets == old(self).negative_res_targets,
            final(self).subterms == old(self).subterms,
            final(self).patterns == old(self).patterns,
    {
        let (left, right) = if forwards {
            (term1.clone(), term2.clone())
        } else {
            (term2.clone(), term1.clone())
        };
        if equal {
            self.graph.set_terms_equal(left, right, pattern_id, inspiration_id);
        } else {
            self.graph.set_terms_not_equal(left, right, pattern_id);
        }
    }

    // Applies all the ways to rewrite a place in a target.
    fn push_place_rewrites(
        &self,
        target_id: usize,
        target_step: &ProofStep,
        left: bool,
        path: &Vec<usize>,
        k: usize,
        output: &mut Vec<ProofStep>,
    )
        requires
            target_step@.clause.literals.len() == 1,
            k < self@.subterms.len(),
        ensures
            views(final(output)@) == views(old(output)@) + place_rewrites(
                self@,
                target_id,
                target_step@,
                left,
                path@,
                self@.subterms[k as int].rewrites,
                self@.subterms[k as int].rewrites.len(),
            ),
    {
        let ghost start = views(output@);
        let rewrites = &self.subterms[k].rewrites;
        let ghost rv = views(rewrites@);
        assert(self@.subterms[k as int] == self.subterms@[k as int]@);
        assert(start + Seq::<StepV>::empty() =~= start);
        let mut i: usize = 0;
        while i < rewrites.len()
            invariant
                i <= rewrites.len(),
                rv == views(rewrites@),
                target_step@.clause.literals.len() == 1,
                views(output@) == start + place_rewrites(
                    self@,
                    target_id,
                    target_step@,
                    left,
                    path@,
                    rv,
                    i as nat,
                ),
            decreases rewrites.len() - i,
        {
            let rewrite = &rewrites[i];
            assert(rv[i as int] == rewrite@);
            let found = if target_id == rewrite.pattern_id || !self.has_step(rewrite.pattern_id) {
                // Don't rewrite a literal with itself
                None
            } else {
                let pattern_step = self.get_step(rewrite.pattern_id);
                if target_step.truthiness == Truthiness::Factual && pattern_step.truthiness
                    == Truthiness::Factual {
                    // No global-global rewriting
                    None
                } else {
                    Some(
                        ProofStep::rewrite(
                            rewrite.pattern_id,
                            pattern_step,
                            target_id,
                            target_step,
                            left,
                            path,
                            rewrite.forwards,
                            &rewrite.term,
                        ),
                    )
                }
            };
            assert(opt_view(found) == place_rewrite(
                self@,
                target_id,
                target_step@,
                left,
                path@,
                rv[i as int],
            ));
            push_some(output, found);
            assert(views(output@) =~= start + place_rewrites(
                self@,
                target_id,
                target_step@,
                left,
                path@,
                rv,
                (i + 1) as nat,
            ));
            i = i + 1;
        }
    }

    fn rewrite_place(
        &mut self,
        target_id: usize,
        target_step: &ProofStep,
        left: bool,
        path: Vec<usize>,
        term: &Term,
        output: &mut Vec<ProofStep>,
    )
        requires
            target_step@.clause.literals.len() == 1,
        ensures
            ({
                let (a, found) = rewritten_place(
                    old(self)@,
                    target_id,
                    target_step@,
                    left,
                    (path@, term@),
                );
                &&& final(self)@ == a
                &&& views(final(output)@) == views(old(output)@) + found
            }),
    {
        broadcast use crate::text::group_views;
        let k = self.add_subterm(term, target_id);
        let ghost middle = self@;
        self.push_place_rewrites(target_id, target_step, left, &path, k, output);
        // Record the location of this subterm.
        assert(middle.subterms[k as int] == self.subterms@[k as int]@);
        let ghost before = self.subterms@;
        let info = &mut self.subterms[k];
        info.locations.push(SubtermLocation { target_id, left, path });
        proof {
            assert(views(self.subterms@) =~= views(before).update(
                k as int,
                self.subterms@[k as int]@,
            ));
        }
    }

    fn rewrite_side(
        &mut self,
        target_id: usize,
        target_step: &ProofStep,
        left: bool,
        u: &Term,
        output: &mut Vec<ProofStep>,
    )
        requires
            target_step@.clause.literals.len() == 1,
        ensures
            ({
                let places = subterms(u@, Seq::empty());
                let (a, found) = rewritten_places(
                    old(self)@,
                    target_id,
                    target_step@,
                    left,
                    places,
                    places.len(),
                );
                &&& final(self)@ == a
                &&& views(final(output)@) == views(old(output)@) + found
            }),
    {
        let places = rewritable_subterms(u);
        let ghost pv = places_view(places@);
        let ghost start = views(output@);
        assert(start + Seq::<StepV>::empty() =~= start);
        let mut i: usize = 0;
        while i < places.len()
            invariant
                i <= places.len(),
                pv == places_view(places@),
                target_step@.clause.literals.len() == 1,
                ({
                    let (a, found) = rewritten_places(
                        old(self)@,
                        target_id,
                        target_step@,
                        left,
                        pv,
                        i as nat,
                    );
                    &&& self@ == a
                    &&& views(output@) == start + found
                }),
            decreases places.len() - i,
        {
            assert(pv[i as int] == (places@[i as int].0@, places@[i as int].1@));
            let path = copy_path(&places[i].0);
            self.rewrite_place(target_id, target_step, left, path, &places[i].1, output);
            assert(views(output@) =~= start + rewritten_places(
                old(self)@,
                target_id,
                target_step@,
                left,
                pv,
                (i + 1) as nat,
            ).1);
            i = i + 1;
        }
    }

    /// Look for ways to rewrite a literal that is not yet in the active set. The literal must be
    /// concrete. The naming convention is that we use the pattern s->t to rewrite u in u ?= v.
    pub fn activate_rewrite_target(
        &mut self,
        target_id: usize,
        target_step: &ProofStep,
        output: &mut Vec<ProofStep>,
    )
        requires
            target_step@.clause.literals.len() == 1,
        ensures
            ({
                let (a, found) = rewritten_target(old(self)@, target_id, target_step@);
                &&& final(self)@ == a
                &&& views(final(output)@) == views(old(output)@) + found
            }),
    {
        let target_literal = &target_step.clause.literals[0];
        assert(target_step@.clause.literals[0] == target_literal@);
        let ghost start = views(output@);
        self.rewrite_side(target_id, target_step, true, &target_literal.left, output);
        let ghost middle = views(output@);
        self.rewrite_side(target_id, target_step, false, &target_literal.right, output);
        assert(views(output@) =~= start + rewritten_target(
            old(self)@,
            target_id,
            target_step@,
        ).1);
    }

    // Rewrites all locations of a subterm.
    fn push_location_rewrites(
        &self,
        pattern_id: usize,
        pattern_step: &ProofStep,
        k: usize,
        forwards: bool,
        u: &Term,
        output: &mut Vec<ProofStep>,
    )
        requires
            k < self@.subterms.len(),
        ensures
            views(final(output)@) == views(old(output)@) + location_rewrites(
                self@,
                pattern_id,
                pattern_step@,
                self@.subterms[k as int].locations,
                forwards,
                u@,
                self@.subterms[k as int].locations.len(),
            ),
    {
        let ghost start = views(output@);
        let locations = &self.subterms[k].locations;
        let ghost lv = views(locations@);
        assert(self@.subterms[k as int] == self.subterms@[k as int]@);
        assert(start + Seq::<StepV>::empty() =~= start);
        let mut i: usize = 0;
        while i < locations.len()
            invariant
                i <= locations.len(),
                lv == views(locations@),
                views(output@) == start + location_rewrites(
                    self@,
                    pattern_id,
                    pattern_step@,
                    lv,
                    forwards,
                    u@,
                    i as nat,
                ),
            decreases locations.len() - i,
        {
            let location = &locations[i];
            assert(lv[i as int] == location@);
            let target_id = location.target_id;
            let found = if target_id == pattern_id || !self.has_step(target_id) {
                // Don't rewrite a literal with itself
                None
            } else {
                let target_step = self.get_step(target_id);
                if target_step.clause.len() != 1 || (pattern_step.truthiness
                    == Truthiness::Factual && target_step.truthiness == Truthiness::Factual) {
                    // No global-global rewriting
                    None
                } else {
                    Some(
                        ProofStep::rewrite(
                            pattern_id,
                            pattern_step,
                            target_id,
                            target_step,
                            location.left,
                            &location.path,
                            forwards,
                            u,
                        ),
                    )
                }
            };
            assert(opt_view(found) == location_rewrite(
                self@,
                pattern_id,
                pattern_step@,
                lv[i as int],
                forwards,
                u@,
            ));
            push_some(output, found);
            assert(views(output@) =~= start + location_rewrites(
                self@,
                pattern_id,
                pattern_step@,
                lv,
                forwards,
                u@,
                (i + 1) as nat,
            ));
            i = i + 1;
        }
    }

    fn rewrite_subterm(
        &mut self,
        pattern_id: usize,
        pattern_step: &ProofStep,
        forwards: bool,
        s: &Term,
        t: &Term,
        k: usize,
        output: &mut Vec<ProofStep>,
    )
        requires
            k < old(self)@.subterms.len(),
        ensures
            ({
                let (a, found) = rewritten_subterm(
                    old(self)@,
                    pattern_id,
                    pattern_step@,
                    forwards,
                    s@,
                    t@,
                    k as int,
                );
                &&& final(self)@ == a
                &&& views(final(output)@) == views(old(output)@) + found
            }),
            final(self)@.subterms.len() == old(self)@.subterms.len(),
    {
        broadcast use crate::text::group_views;
        let ghost start = views(output@);
        assert(start + Seq::<StepV>::empty() =~= start);
        assert(self@.subterms[k as int] == self.subterms@[k as int]@);
        let subterm = self.subterms[k].term.clone();
        let unifier = match unify_all(one_equation(s, &partner(&subterm))) {
            None => {
                return;
            },
            Some(u) => u,
        };
        let new_subterm = apply(t, &unifier);
        self.push_location_rewrites(pattern_id, pattern_step, k, forwards, &new_subterm, output);
        // Add this rewrite to the term graph.
        let inspiration_id = self.subterms[k].inspiration_id;
        self.add_to_term_graph(
            pattern_id,
            Some(inspiration_id),
            &subterm,
            &new_subterm,
            forwards,
            true,
        );
        let ghost before = self.subterms@;
        let info = &mut self.subterms[k];
        info.rewrites.push(Rewrite { pattern_id, forwards, term: new_subterm });
        proof {
            assert(views(self.subterms@) =~= views(before).update(
                k as int,
                self.subterms@[k as int]@,
            ));
        }
    }

    fn rewrite_from(
        &mut self,
        pattern_id: usize,
        pattern_step: &ProofStep,
        forwards: bool,
        s: &Term,
        t: &Term,
        output: &mut Vec<ProofStep>,
    )
        ensures
            ({
                let (a, found) = rewritten_from(
                    old(self)@,
                    pattern_id,
                    pattern_step@,
                    forwards,
                    s@,
                    t@,
                );
                &&& final(self)@ == a
                &&& views(final(output)@) == views(old(output)@) + found
            }),
    {
        let ghost start = views(output@);
        assert(start + Seq::<StepV>::empty() =~= start);
        if s.is_true() {
            // Don't rewrite from "true"
            return;
        }
        // Look for existing subterms that match s
        let n = self.subterms.len();
        let mut k: usize = 0;
        while k < n
            invariant
                k <= n,
                n == old(self)@.subterms.len(),
                self@.subterms.len() == n,
                ({
                    let (a, found) = rewritten_subterms(
                        old(self)@,
                        pattern_id,
                        pattern_step@,
                        forwards,
                        s@,
                        t@,
                        k as nat,
                    );
                    &&& self@ == a
                    &&& views(output@) == start + found
                }),
            decreases n - k,
        {
            self.rewrite_subterm(pattern_id, pattern_step, forwards, s, t, k, output);
            assert(views(output@) =~= start + rewritten_subterms(
                old(self)@,
                pattern_id,
                pattern_step@,
                forwards,
                s@,
                t@,
                (k + 1) as nat,
            ).1);
            k = k + 1;
        }
    }

    /// When we have a new rewrite pattern, find everything that we can rewrite with it. The naming
    /// convention is that we use the pattern s->t to rewrite u in u ?= v.
    pub fn activate_rewrite_pattern(
        &mut self,
        pattern_id: usize,
        pattern_step: &ProofStep,
        output: &mut Vec<ProofStep>,
    )
        requires
            pattern_step@.clause.literals.len() == 1,
            pattern_step@.clause.literals[0].positive,
        ensures
            ({
                let (a, found) = rewritten_pattern(old(self)@, pattern_id, pattern_step@);
                &&& final(self)@ == a
                &&& views(final(output)@) == views(old(output)@) + found
            }),
    {
        let literal = &pattern_step.clause.literals[0];
        assert(pattern_step@.clause.literals[0] == literal@);
        let ghost start = views(output@);
        self.rewrite_from(pattern_id, pattern_step, true, &literal.left, &literal.right, output);
        let ghost middle = views(output@);
        self.rewrite_from(pattern_id, pattern_step, false, &literal.right, &literal.left, output);
        assert(views(output@) =~= start + rewritten_pattern(
            old(self)@,
            pattern_id,
            pattern_step@,
        ).1);
    }

    /// Tries to do inference using the equality resolution (ER) rule. Specifically, when one
    /// literal is of the form u != v then if we can unify u and v, we can eliminate this literal
    /// from the clause.
    pub fn equality_resolution(activated_id: usize, activated_step: &ProofStep) -> (r: Vec<
        ProofStep,
    >)
        ensures
            views(r@) == equality_resolutions(activated_id, activated_step@),
    {
        let found = activated_step.clause.find_equality_resolutions();
        let ghost fv = resolved_view(found@);
        let mut answer: Vec<ProofStep> = Vec::new();
        assert(views(answer@) =~= Seq::<StepV>::empty());
        let mut i: usize = 0;
        while i < found.len()
            invariant
                i <= found.len(),
                fv == resolved_view(found@),
                views(answer@) == er_steps(activated_id, activated_step@, fv, i as nat),
            decreases found.len() - i,
        {
            let (index, literals, flipped) = (found[i].0, &found[i].1, &found[i].2);
            assert(fv[i as int] == (index, views(literals@), flipped@));
            let (clause, traces) = Clause::normalize_with_trace(duplicate_all(literals));
            // Check if normalization resulted in a tautology
            let step = if clause.is_tautology() {
                None
            } else {
                let info = EqualityResolutionInfo {
                    id: activated_id,
                    index,
                    literals: duplicate_all(literals),
                    flipped: crate::proof_step::copy_flags(flipped),
                };
                Some(
                    ProofStep::direct(
                        activated_step,
                        Rule::EqualityResolution(info),
                        clause,
                        traces,
                    ),
                )
            };
            push_some(&mut answer, step);
            i = i + 1;
        }
        answer
    }

    /// Tries to do inference using the function elimination (FE) rule. When
    /// f(a, b, d) != f(a, c, d), that implies that b != c. We can run this operation on any
    /// negative literal in the clause.
    pub fn function_elimination(activated_id: usize, activated_step: &ProofStep) -> (r: Vec<
        ProofStep,
    >)
        ensures
            views(r@) == fe_steps(
                activated_id,
                activated_step@,
                activated_step@.clause.literals.len(),
            ),
    {
        let ghost lv = activated_step@.clause.literals;
        let literals = &activated_step.clause.literals;
        let mut answer: Vec<ProofStep> = Vec::new();
        assert(views(answer@) =~= Seq::<StepV>::empty());
        let mut i: usize = 0;
        while i < literals.len() && !literals[i].positive
            invariant
                i <= literals.len(),
                lv == views(literals@),
                lv == activated_step@.clause.literals,
                crate::clause::first_positive(lv, 0) == crate::clause::first_positive(
                    lv,
                    i as nat,
                ),
                views(answer@) == fe_steps(activated_id, activated_step@, i as nat),
            decreases literals.len() - i,
        {
            assert(lv[i as int] == literals@[i as int]@);
            proof {
                crate::clause::lemma_first_positive(lv, (i + 1) as nat);
            }
            // Check if we can eliminate the functions from the ith literal.
            let step = eliminate_function(activated_id, activated_step, i);
            push_some(&mut answer, step);
            i = i + 1;
        }
        proof {
            if i < literals.len() {
                assert(lv[i as int] == literals@[i as int]@);
            }
            // Negative literals come before positive ones so we're done
            lemma_fe_end(activated_id, activated_step@, i as nat, lv.len());
        }
        answer
    }

    /// Tries to do inference using the equality factoring (EF) rule.
    ///
    /// Given: s = t | u = v | R, if we can unify s and u, we can rewrite it to:
    /// t != v | u = v | R. "s = t" must be the first literal, but "u = v" can be any of them.
    pub fn equality_factoring(activated_id: usize, activated_step: &ProofStep) -> (r: Vec<
        ProofStep,
    >)
        ensures
            views(r@) == equality_factorings(activated_id, activated_step@),
    {
        let mut answer: Vec<ProofStep> = Vec::new();
        assert(views(answer@) =~= Seq::<StepV>::empty());
        if activated_step.clause.literals.len() == 0 {
            return answer;
        }
        assert(activated_step@.clause.literals[0] == activated_step.clause.literals@[0]@);
        if !activated_step.clause.literals[0].positive {
            return answer;
        }
        push_factorings(activated_id, activated_step, true, &mut answer);
        push_factorings(activated_id, activated_step, false, &mut answer);
        assert(views(answer@) =~= equality_factorings(activated_id, activated_step@));
        answer
    }

    fn find_generalization(&self, literal: &Literal) -> (r: Option<(bool, usize, bool)>)
        ensures
            r == generalization(self@.literal_set, literal@, 0),
    {
        let ghost sv = self@.literal_set;
        let mut i: usize = 0;
        while i < self.literal_set.len()
            invariant
                i <= self.literal_set.len(),
                sv == literal_ids(self.literal_set@),
                sv == self@.literal_set,
                generalization(sv, literal@, 0) == generalization(sv, literal@, i as nat),
            decreases self.literal_set.len() - i,
        {
            let (general, id) = (&self.literal_set[i].0, self.literal_set[i].1);
            assert(sv[i as int] == (general@, id));
            if check_instance(general, literal, false) {
                return Some((general.positive, id, false));
            }
            if check_instance(general, literal, true) {
                return Some((general.positive, id, true));
            }
            i = i + 1;
        }
        None
    }

    /// Gives (value, trace) when this literal's value is known due to some existing clause. The
    /// trace is either Eliminated, if the literal matched an existing one, or Impossible, if the
    /// literal is self-evident.
    fn evaluate_literal(&self, literal: &Literal) -> (r: Option<(bool, LiteralTrace)>)
        ensures
            r == evaluated(self@, literal@),
    {
        if literal.left.same(&literal.right) {
            return Some((literal.positive, LiteralTrace::Impossible));
        }
        match self.find_generalization(literal) {
            Some((positive, step, flipped)) => Some(
                (positive == literal.positive, LiteralTrace::Eliminated { step, flipped }),
            ),
            None => None,
        }
    }

    // Filters out any literals that are known to be true or false.
    fn filter_literals(&self, ls: &Vec<Literal>) -> (r: Option<
        (Vec<Literal>, Vec<LiteralTrace>, Vec<(usize, &ProofStep)>),
    >)
        ensures
            match r {
                Some((literals, trace, rules)) => filtered(self@, views(ls@), ls@.len()) == Some(
                    FilteredV {
                        literals: views(literals@),
                        trace: trace@,
                        rules: id_steps(rules@),
                    },
                ),
                None => filtered(self@, views(ls@), ls@.len()) is None,
            },
    {
        broadcast use crate::text::group_views;
        let ghost lv = views(ls@);
        let mut literals: Vec<Literal> = Vec::new();
        let mut trace: Vec<LiteralTrace> = Vec::new();
        let mut rules: Vec<(usize, &ProofStep)> = Vec::new();
        assert(id_steps(rules@) =~= Seq::<(usize, StepV)>::empty());
        let mut i: usize = 0;
        while i < ls.len()
            invariant
                i <= ls.len(),
                lv == views(ls@),
                filtered(self@, lv, i as nat) == Some(
                    FilteredV {
                        literals: views(literals@),
                        trace: trace@,
                        rules: id_steps(rules@),
                    },
                ),
            decreases ls.len() - i,
        {
            broadcast use crate::text::group_views;
            assert(lv[i as int] == ls@[i as int]@);
            match self.evaluate_literal(&ls[i]) {
                Some((true, _)) => {
                    // This literal is already known to be true.
                    // Thus, the whole clause is a tautology.
                    proof {
                        lemma_filtered_none(self@, lv, (i + 1) as nat, lv.len());
                    }
                    return None;
                },
                Some((false, t)) => {
                    // This literal is already known to be false.
                    // Thus, we can just omit it from the disjunction.
                    if let Some(id) = t.step_id() {
                        if self.has_step(id) {
                            let ghost before = rules@;
                            let step = self.get_step(id);
                            rules.push((id, step));
                            assert(id_steps(rules@) =~= id_steps(before).push(
                                (id, self@.steps[id as int]),
                            ));
                        }
                    }
                    trace.push(t);
                },
                None => {
                    trace.push(
                        LiteralTrace::Output { index: literals.len(), flipped: false },
                    );
                    literals.push(ls[i].clone());
                },
            }
            i = i + 1;
        }
        Some((literals, trace, rules))
    }

    /// Simplifies the clause based on both structural rules and the active set. If the result is
    /// redundant given what's already known, return None. Specializations are allowed, though,
    /// even if they're redundant. If the result is an impossibility, return an empty clause.
    pub fn simplify(&self, step: ProofStep) -> (r: Option<ProofStep>)
        ensures
            opt_view(r) == simplified(self@, step@),
    {
        if step.clause.is_tautology() {
            return None;
        }
        if self.is_known_long_clause(&step.clause) {
            return None;
        }
        let (literals, trace, rules) = match self.filter_literals(&step.clause.literals) {
            None => {
                return None;
            },
            Some(x) => x,
        };
        if literals.len() == step.clause.literals.len() {
            // This proof step hasn't changed.
            return Some(step);
        }
        let base = match &step.traces {
            Some(t) => Some(copy_traces(t)),
            None => None,
        };
        let (clause, traces) = Clause::new_composing_traces(literals, base, &trace);
        if clause.is_tautology() {
            return None;
        }
        if self.is_known_long_clause(&clause) {
            return None;
        }
        Some(ProofStep::simplified(step, &rules, clause, traces))
    }

    fn add_resolution_targets(&mut self, step_index: usize, literal_index: usize, positive: bool)
        ensures
            final(self)@ == ({
                let left = ResolutionTarget { step_index, literal_index, left: true };
                let right = ResolutionTarget { step_index, literal_index, left: false };
                if positive {
                    ActiveV {
                        positive_targets: old(self)@.positive_targets.push(left).push(right),
                        ..old(self)@
                    }
                } else {
                    ActiveV {
                        negative_targets: old(self)@.negative_targets.push(left).push(right),
                        ..old(self)@
                    }
                }
            }),
    {
        let left = ResolutionTarget { step_index, literal_index, left: true };
        let right = ResolutionTarget { step_index, literal_index, left: false };
        if positive {
            self.positive_res_targets.push(left);
            self.positive_res_targets.push(right);
        } else {
            self.negative_res_targets.push(left);
            self.negative_res_targets.push(right);
        }
    }

    /// Indexes a clause so that it becomes available for future proof step generation. Gives its
    /// id.
    fn insert(&mut self, step: ProofStep) -> (r: usize)
        ensures
            final(self)@ == with_step(old(self)@, step@),
            r == old(self)@.steps.len(),
    {
        broadcast use crate::text::group_views;
        let step_index = self.next_id();
        let ghost lv = step@.clause.literals;
        // Add resolution targets for the new clause.
        let mut i: usize = 0;
        while i < step.clause.literals.len()
            invariant
                i <= step.clause.literals.len(),
                lv == views(step.clause.literals@),
                step_index == old(self)@.steps.len(),
                self@ == with_targets(old(self)@, step_index, lv, i as nat),
            decreases step.clause.literals.len() - i,
        {
            assert(lv[i as int] == step.clause.literals@[i as int]@);
            let positive = step.clause.literals[i].positive;
            self.add_resolution_targets(step_index, i, positive);
            i = i + 1;
        }
        // Store long clauses here. Short clauses will be kept in the literal set.
        if step.clause.literals.len() > 1 {
            self.long_clauses.push(step.clause.clone());
        }
        self.steps.push(step);
        step_index
    }

    /// Inference that is specific to literals.
    fn activate_literal(&mut self, activated_step: &ProofStep, output: &mut Vec<ProofStep>)
        requires
            activated_step@.clause.literals.len() == 1,
        ensures
            ({
                let (a, found) = activated_literal(old(self)@, activated_step@);
                &&& final(self)@ == a
                &&& views(final(output)@) == views(old(output)@) + found
            }),
    {
        let ghost start = views(output@);
        let activated_id = self.next_id();
        let literal = &activated_step.clause.literals[0];
        assert(activated_step@.clause.literals[0] == literal@);
        // Using the literal as a rewrite target.
        if !literal.has_any_variable() {
            // Add this to the term graph.
            self.add_to_term_graph(
                activated_id,
                None,
                &literal.left,
                &literal.right,
                true,
                literal.positive,
            );
            // The activated step could be rewritten immediately.
            self.activate_rewrite_target(activated_id, activated_step, output);
        } else {
            assert(start + Seq::<StepV>::empty() =~= start);
        }
        let ghost middle = views(output@);
        // Using the literal as a rewrite pattern.
        if literal.positive && !activated_step.rule.is_rewrite() {
            // The activated step could be used as a rewrite pattern immediately.
            self.activate_rewrite_pattern(activated_id, activated_step, output);
            // Index it so that it can be used as a rewrite pattern in the future.
            let ghost before = self.patterns@;
            self.patterns.push((literal.clone(), activated_id));
            assert(literal_ids(self.patterns@) =~= literal_ids(before).push(
                (literal@, activated_id),
            ));
        } else {
            assert(middle + Seq::<StepV>::empty() =~= middle);
        }
        let ghost before = self.literal_set@;
        self.literal_set.push((literal.clone(), activated_id));
        assert(literal_ids(self.literal_set@) =~= literal_ids(before).push(
            (literal@, activated_id),
        ));
        assert(views(output@) =~= start + activated_literal(old(self)@, activated_step@).1);
    }

    /// Generate all the inferences that can be made from a given clause, plus some existing
    /// clause. This function does not simplify the inferences, or use the inferences to simplify
    /// anything else. The prover will do all forms of simplification separately. After generation,
    /// this clause is added to the active set. Gives the id of the new clause, and the generated
    /// steps.
    pub fn activate(&mut self, activated_step: ProofStep) -> (r: (usize, Vec<ProofStep>))
        ensures
            ({
                let (a, found) = activated(old(self)@, activated_step@);
                &&& final(self)@ == a
                &&& views(r.1@) == found
            }),
            r.0 == old(self)@.steps.len(),
    {
        let activated_id = self.next_id();
        // Unification-based inferences don't need to be done on specialization, because
        // they can operate directly on the general form.
        let mut output = ActiveSet::equality_resolution(activated_id, &activated_step);
        let mut factorings = ActiveSet::equality_factoring(activated_id, &activated_step);
        let mut eliminations = ActiveSet::function_elimination(activated_id, &activated_step);
        let ghost a = output@;
        let ghost b = factorings@;
        let ghost c = eliminations@;
        output.append(&mut factorings);
        output.append(&mut eliminations);
        assert(views(a + b + c) =~= views(a) + views(b) + views(c));
        self.find_resolutions(&activated_step, &mut output);
        let ghost alone = views(output@);
        if activated_step.clause.len() == 1 {
            self.activate_literal(&activated_step, &mut output);
        } else {
            assert(alone + Seq::<StepV>::empty() =~= alone);
        }
        let id = self.insert(activated_step);
        (activated_id, output)
    }
}

proof fn lemma_filtered_none(a: ActiveV, ls: Seq<LiteralV>, i: nat, n: nat)
    requires
        i <= n <= ls.len(),
        filtered(a, ls, i) is None,
    ensures
        filtered(a, ls, n) is None,
    decreases n,
{
    if i < n {
        lemma_filtered_none(a, ls, i, (n - 1) as nat);
    }
}

fn holds_id(v: &Vec<usize>, id: usize) -> (r: bool)
    ensures
        r == v@.contains(id),
{
    let mut i: usize = 0;
    while i < v.len()
        invariant
            i <= v.len(),
            forall|k: int| 0 <= k < i ==> v@[k] != id,
        decreases v.len() - i,
    {
        if v[i] == id {
            return true;
        }
        i = i + 1;
    }
    false
}

/// How many of the first `n` ids are not in a list.
spec fn missing(v: Seq<usize>, n: nat) -> nat
    decreases n,
{
    if n == 0 {
        0
    } else {
        missing(v, (n - 1) as nat) + if v.contains((n - 1) as usize) {
            0nat
        } else {
            1
        }
    }
}

proof fn lemma_missing(v: Seq<usize>, id: usize, n: nat)
    requires
        !v.contains(id),
        n <= usize::MAX,
    ensures
        missing(v.push(id), n) == missing(v, n) - if id < n {
            1int
        } else {
            0
        },
    decreases n,
{
    assert(v.push(id)[v.len() as int] == id);
    assert forall|k: usize| v.push(id).contains(k) <==> v.contains(k) || k == id by {
        if v.contains(k) {
            let i = choose|i: int| 0 <= i < v.len() && v[i] == k;
            assert(v.push(id)[i] == k);
        }
    }
    if n > 0 {
        lemma_missing(v, id, (n - 1) as nat);
    }
}

pub(crate) proof fn lemma_upstream_more(
    steps: Seq<StepV>,
    roots: Seq<usize>,
    inspired: bool,
    id: usize,
    d: usize,
)
    requires
        is_upstream(steps, roots, inspired, id),
        id < steps.len(),
        steps[id as int].active_dependencies(inspired).contains(d),
        d < steps.len(),
    ensures
        is_upstream(steps, roots, inspired, d),
{
    let path = choose|path: Seq<usize>| #[trigger] upstream(steps, roots, inspired, id, path);
    let longer = path.push(d);
    assert(longer[0] == path[0]);
    assert forall|i: int| 0 <= i < longer.len() implies #[trigger] longer[i] < steps.len() by {
        if i < path.len() {
            assert(longer[i] == path[i]);
        }
    }
    assert forall|i: int, j: int| 0 <= i && j == i + 1 && j < longer.len() implies steps[(
    #[trigger] longer[i]) as int].active_dependencies(inspired).contains(
        #[trigger] longer[j],
    ) by {
        assert(longer[i] == path[i]);
        if j < path.len() {
            assert(longer[j] == path[j]);
        }
    }
    assert(upstream(steps, roots, inspired, d, longer));
}

/// Whether what is left to do covers what is still missing: each id that is needed is in the
/// output or still pending.
spec fn covered(needed: Seq<usize>, output: Seq<usize>, pending: Seq<usize>, n: nat) -> bool {
    forall|d: usize| #[trigger]
        needed.contains(d) && d < n ==> output.contains(d) || pending.contains(d)
}

impl ActiveSet {
    /// Find the index of all clauses used to prove the provided step. The ids are added to those
    /// that are given, which are not looked at again.
    pub fn find_upstream(
        &self,
        step: &ProofStep,
        include_inspiration: bool,
        output: &mut Vec<usize>,
    )
        ensures
            forall|id: usize| #[trigger]
                old(output)@.contains(id) ==> final(output)@.contains(id),
            forall|id: usize| #[trigger]
                final(output)@.contains(id) ==> old(output)@.contains(id) || id < self@.steps.len()
                    && is_upstream(
                    self@.steps,
                    step@.active_dependencies(include_inspiration),
                    include_inspiration,
                    id,
                ),
            forall|id: usize| #[trigger]
                step@.active_dependencies(include_inspiration).contains(id) && id
                    < self@.steps.len() ==> final(output)@.contains(id),
            forall|id: usize, d: usize|
                final(output)@.contains(id) && !old(output)@.contains(id)
                    && #[trigger] self@.steps[id as int].active_dependencies(
                    include_inspiration,
                ).contains(d) && d < self@.steps.len() ==> final(output)@.contains(d),
    {
        let ghost roots = step@.active_dependencies(include_inspiration);
        let ghost steps = self@.steps;
        let n = self.steps.len();
        let mut pending = step.active_dependencies(include_inspiration);
        proof {
            assert forall|k: int| 0 <= k < pending.len() && #[trigger] pending@[k] < n implies is_upstream(
                steps,
                roots,
                include_inspiration,
                pending@[k],
            ) by {
                let path = seq![pending@[k]];
                assert(roots.contains(path[0]));
                assert(upstream(steps, roots, include_inspiration, pending@[k], path));
            }
            assert(covered(roots, output@, pending@, n as nat));
        }
        while pending.len() > 0
            invariant
                n == self.steps.len() == steps.len(),
                steps == self@.steps,
                roots == step@.active_dependencies(include_inspiration),
                forall|k: int|
                    0 <= k < pending.len() && #[trigger] pending@[k] < n ==> is_upstream(
                        steps,
                        roots,
                        include_inspiration,
                        pending@[k],
                    ),
                forall|id: usize| #[trigger] old(output)@.contains(id) ==> output@.contains(id),
                forall|id: usize| #[trigger]
                    output@.contains(id) ==> old(output)@.contains(id) || id < n && is_upstream(
                        steps,
                        roots,
                        include_inspiration,
                        id,
                    ),
                covered(roots, output@, pending@, n as nat),
                forall|id: usize| #[trigger]
                    output@.contains(id) && !old(output)@.contains(id) ==> covered(
                        steps[id as int].active_dependencies(include_inspiration),
                        output@,
                        pending@,
                        n as nat,
                    ),
            ensures
                pending@.len() == 0,
            decreases missing(output@, n as nat), pending.len(),
        {
            let ghost all_pending = pending@;
            let ghost before = output@;
            let id = match pending.pop() {
                Some(id) => id,
                None => {
                    break;
                },
            };
            proof {
                assert(all_pending == pending@.push(id));
            }
            if id >= n || holds_id(output, id) {
                proof {
                    lemma_still_covered(roots, before, all_pending, before, pending@, id, n as nat);
                    assert forall|k: usize| #[trigger]
                        output@.contains(k) && !old(output)@.contains(k) implies covered(
                        steps[k as int].active_dependencies(include_inspiration),
                        output@,
                        pending@,
                        n as nat,
                    ) by {
                        lemma_still_covered(
                            steps[k as int].active_dependencies(include_inspiration),
                            before,
                            all_pending,
                            before,
                            pending@,
                            id,
                            n as nat,
                        );
                    }
                }
                continue;
            }
            proof {
                assert(is_upstream(steps, roots, include_inspiration, all_pending.last()));
                lemma_missing(output@, id, n as nat);
            }
            output.push(id);
            let step_here = self.get_step(id);
            let mut more = step_here.active_dependencies(include_inspiration);
            let ghost deps = more@;
            let ghost rest = pending@;
            pending.append(&mut more);
            proof {
                assert(pending@ == rest + deps);
                assert(output@[before.len() as int] == id);
                assert forall|k: usize| before.contains(k) implies #[trigger] output@.contains(
                    k,
                ) by {
                    let i = choose|i: int| 0 <= i < before.len() && before[i] == k;
                    assert(output@[i] == k);
                }
                assert forall|k: usize| #[trigger] output@.contains(k) implies before.contains(k)
                    || k == id by {
                    let i = choose|i: int| 0 <= i < output@.len() && output@[i] == k;
                    if i < before.len() {
                        assert(before[i] == k);
                    }
                }
                assert forall|k: usize| deps.contains(k) implies #[trigger] pending@.contains(k) by {
                    let i = choose|i: int| 0 <= i < deps.len() && deps[i] == k;
                    assert(pending@[rest.len() + i] == k);
                }
                assert forall|k: int| 0 <= k < pending.len() && #[trigger] pending@[k]
                    < n implies is_upstream(steps, roots, include_inspiration, pending@[k]) by {
                    if k < rest.len() {
                        assert(pending@[k] == all_pending[k]);
                    } else {
                        assert(pending@[k] == deps[k - rest.len()]);
                        lemma_upstream_more(steps, roots, include_inspiration, id, pending@[k]);
                    }
                }
                lemma_still_covered(roots, before, all_pending, output@, pending@, id, n as nat);
                assert forall|k: usize| #[trigger]
                    output@.contains(k) && !old(output)@.contains(k) implies covered(
                    steps[k as int].active_dependencies(include_inspiration),
                    output@,
                    pending@,
                    n as nat,
                ) by {
                    if before.contains(k) {
                        lemma_still_covered(
                            steps[k as int].active_dependencies(include_inspiration),
                            before,
                            all_pending,
                            output@,
                            pending@,
                            id,
                            n as nat,
                        );
                    }
                }
            }
        }
    }

    /// The ids of all proof steps that depend on this id.
    pub fn find_consequences(&self, id: usize) -> (r: Vec<usize>)
        ensures
            r@ == consequences(self@.steps, id, self@.steps.len()),
    {
        let mut out: Vec<usize> = Vec::new();
        let mut i: usize = 0;
        while i < self.steps.len()
            invariant
                i <= self.steps.len(),
                out@ == consequences(self@.steps, id, i as nat),
            decreases self.steps.len() - i,
        {
            assert(self@.steps[i as int] == self.steps@[i as int]@);
            if self.steps[i].depends_on_active(id) {
                out.push(i);
            }
            i = i + 1;
        }
        out
    }
}

/// The ids of those of the first `n` steps that depend on an id.
pub open spec fn consequences(steps: Seq<StepV>, id: usize, n: nat) -> Seq<usize>
    decreases n,
{
    if n == 0 || n > steps.len() {
        Seq::empty()
    } else {
        let before = consequences(steps, id, (n - 1) as nat);
        if steps[n - 1].dependencies().contains(ProofStepId::Active(id)) {
            before.push((n - 1) as usize)
        } else {
            before
        }
    }
}

/// What was covered stays so where an id moves from what is pending to the output, or was there.
proof fn lemma_still_covered(
    needed: Seq<usize>,
    before: Seq<usize>,
    all_pending: Seq<usize>,
    output: Seq<usize>,
    pending: Seq<usize>,
    id: usize,
    n: nat,
)
    requires
        covered(needed, before, all_pending, n),
        all_pending.len() > 0,
        all_pending.last() == id,
        all_pending.drop_last().is_prefix_of(pending),
        forall|k: usize| before.contains(k) ==> #[trigger] output.contains(k),
        id >= n || output.contains(id),
    ensures
        covered(needed, output, pending, n),
{
    assert forall|d: usize| #[trigger] needed.contains(d) && d < n implies output.contains(d)
        || pending.contains(d) by {
        if !before.contains(d) {
            let i = choose|i: int| 0 <= i < all_pending.len() && all_pending[i] == d;
            if i < all_pending.len() - 1 {
                assert(all_pending.drop_last()[i] == d);
                assert(pending[i] == d);
            }
        } else {
            assert(output.contains(d));
        }
    }
}

} // verus!
