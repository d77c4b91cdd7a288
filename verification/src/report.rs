//! What a prover has to say, in lines of text.

use vstd::prelude::*;

use crate::acorn_value::value_text;
use crate::clause::clause_text;
use crate::proof_info::{
    described, descriptions, descriptive_dependencies, named_steps, Proof, ProofV,
};
use crate::proof_step::{rule_name, ProofStep, ProofStepId, RuleV, StepV};
use crate::prover::{lemma_prover_view, NormalizedGoal, NormalizedGoalV, Prover, ProverV};
use crate::term::term_text;
use crate::text::{chars_of, decimal, decimal_text, views};

verus! {

broadcast use crate::text::group_views;

/// Whether a text occurs in another, from a place on.
pub open spec fn occurs_from(s: Seq<char>, part: Seq<char>, i: nat) -> bool
    decreases s.len() + 1 - i,
{
    if i + part.len() > s.len() {
        false
    } else {
        s.subrange(i as int, (i + part.len()) as int) == part || occurs_from(s, part, i + 1)
    }
}

/// Tests whether a text occurs in another.
pub fn contains_text(s: &str, part: &str) -> (r: bool)
    ensures
        r == occurs_from(s@, part@, 0),
{
    let a = chars_of(s);
    let b = chars_of(part);
    let mut i: usize = 0;
    while b.len() <= a.len() - i
        invariant
            a@ == s@,
            b@ == part@,
            i <= a.len(),
            occurs_from(s@, part@, 0) == occurs_from(s@, part@, i as nat),
        decreases a.len() - i,
    {
        let mut k: usize = 0;
        while k < b.len() && a[i + k] == b[k]
            invariant
                k <= b.len(),
                i + b.len() <= a.len(),
                forall|j: int| 0 <= j < k ==> a@[i + j] == b@[j],
            decreases b.len() - k,
        {
            k = k + 1;
        }
        if k == b.len() {
            assert(s@.subrange(i as int, (i + part@.len()) as int) =~= part@);
            return true;
        }
        assert(s@.subrange(i as int, (i + part@.len()) as int)[k as int] != part@[k as int]);
        i = i + 1;
    }
    false
}

/// The text that lines are looked up by: none takes all lines.
pub open spec fn matches_text(s: Seq<char>, part: Option<Seq<char>>) -> bool {
    match part {
        Some(p) => occurs_from(s, p, 0),
        None => true,
    }
}

/// The clauses of the first `n` steps that a text occurs in.
pub open spec fn matching(steps: Seq<StepV>, part: Option<Seq<char>>, n: nat) -> Seq<Seq<char>>
    decreases n,
{
    if n == 0 || n > steps.len() {
        Seq::empty()
    } else {
        let before = matching(steps, part, (n - 1) as nat);
        let line = clause_text(steps[n - 1].clause);
        if matches_text(line, part) {
            before.push(line)
        } else {
            before
        }
    }
}

/// What is said of the goal.
pub open spec fn goal_text(goal: Option<NormalizedGoalV>) -> Seq<char> {
    match goal {
        Some(NormalizedGoalV::ProveNegated(v, _)) => "goal: disprove "@ + value_text(v, 0),
        Some(NormalizedGoalV::Solve(t)) => "goal: solve for "@ + term_text(t),
        None => "no goal set"@,
    }
}

/// What is said of the clauses that match.
pub open spec fn summary_text(count: nat, kind: Seq<char>, part: Option<Seq<char>>) -> Seq<char> {
    match part {
        Some(p) => decimal_text(count) + " "@ + kind + " clauses matched "@ + p,
        None => decimal_text(count) + " clauses total in the "@ + kind + " set"@,
    }
}

/// How many passive clauses are shown at most.
pub const PASSIVE_LINES: usize = 500;

/// The view of a text that may be missing.
pub open spec fn part_view(part: Option<&str>) -> Option<Seq<char>> {
    match part {
        Some(p) => Some(p@),
        None => None,
    }
}

/// How a step is announced.
pub open spec fn step_headline(preface: Seq<char>, s: StepV) -> Seq<char> {
    "\n"@ + preface + rule_name(s.rule) + " generated (depth "@ + decimal_text(s.depth as nat)
        + "):\n    "@ + clause_text(s.clause)
}

/// What is said of a clause that a step depends on.
pub open spec fn dependency_text(p: ProverV, description: Seq<char>, id: ProofStepId) -> Seq<char> {
    let clause = match p.clause_at(id) {
        Some(c) => clause_text(c),
        None => "<unknown>"@,
    };
    match id {
        ProofStepId::Active(i) => "  using "@ + description + " "@ + decimal_text(i as nat)
            + ":\n    "@ + clause,
        ProofStepId::Passive(_) => "  using "@ + description + ":\n    "@ + clause,
        ProofStepId::Final => "  <unexpected dependency on final proof step>"@,
    }
}

/// What is said of a step.
pub open spec fn step_lines(p: ProverV, preface: Seq<char>, s: StepV) -> Seq<Seq<char>> {
    seq![step_headline(preface, s)] + Seq::new(
        described(s).len(),
        |i: int| dependency_text(p, described(s)[i].0, described(s)[i].1),
    )
}

/// Whether a rule is the assumption that the goal does not hold.
pub open spec fn negates_goal(r: RuleV) -> bool {
    match r {
        RuleV::Assumption { source, .. } => source.source_type is NegatedGoal,
        _ => false,
    }
}

/// What comes before the name of a rule.
pub open spec fn preface_text(id: ProofStepId, s: StepV) -> Seq<char> {
    match id {
        ProofStepId::Active(i) => if negates_goal(s.rule) {
            "clause "@ + decimal_text(i as nat) + " (negating goal): "@
        } else {
            "clause "@ + decimal_text(i as nat) + ": "@
        },
        ProofStepId::Passive(_) => Seq::empty(),
        ProofStepId::Final => "final step: "@,
    }
}

/// What is said of the first `n` steps of a proof.
pub open spec fn all_step_lines(p: ProverV, steps: Seq<(ProofStepId, StepV)>, n: nat) -> Seq<
    Seq<char>,
>
    decreases n,
{
    if n == 0 || n > steps.len() {
        Seq::empty()
    } else {
        let (id, s) = steps[n - 1];
        all_step_lines(p, steps, (n - 1) as nat) + step_lines(p, preface_text(id, s), s)
    }
}

/// What is said of a proof.
pub open spec fn proof_lines(p: ProverV, found: ProofV) -> Seq<Seq<char>> {
    seq![
        "in total, we activated "@ + decimal_text(p.active.steps.len()) + " proof steps."@,
        "non-factual activations: "@ + integer_text(p.nonfactual_activations as int),
        "the proof uses "@ + decimal_text(found.all_steps.len()) + " steps:"@,
    ] + all_step_lines(p, found.all_steps, found.all_steps.len())
}

/// How a number is written.
pub open spec fn integer_text(n: int) -> Seq<char> {
    if n < 0 {
        "-"@ + decimal_text((-n) as nat)
    } else {
        decimal_text(n as nat)
    }
}

fn write_integer(n: i32) -> (r: String)
    ensures
        r@ == integer_text(n as int),
{
    if n < 0 {
        let mut out = "-".to_owned();
        out.append(decimal((-(n as i64)) as u64).as_str());
        out
    } else {
        decimal(n as u64)
    }
}

fn concat3(a: &str, b: &str, c: &str) -> (r: String)
    ensures
        r@ == a@ + b@ + c@,
{
    let mut out = a.to_owned();
    out.append(b);
    out.append(c);
    out
}

fn write_summary(count: usize, kind: &str, part: Option<&str>) -> (r: String)
    ensures
        r@ == summary_text(count as nat, kind@, part_view(part)),
{
    let mut out = decimal(count as u64);
    match part {
        Some(p) => {
            out.append(" ");
            out.append(kind);
            out.append(" clauses matched ");
            out.append(p);
        },
        None => {
            out.append(" clauses total in the ");
            out.append(kind);
            out.append(" set");
        },
    }
    out
}

fn check_match(line: &str, part: Option<&str>) -> (r: bool)
    ensures
        r == matches_text(line@, part_view(part)),
{
    match part {
        Some(p) => contains_text(line, p),
        None => true,
    }
}

impl Prover {
    /// The goal, and how many clauses there are.
    pub fn stats_lines(&self) -> (r: Vec<String>)
        ensures
            views(r@) == seq![
                goal_text(self@.goal),
                decimal_text(self@.active.steps.len()) + " clauses in the active set"@,
                decimal_text(self@.passive.steps.len()) + " clauses in the passive set"@,
            ],
    {
        proof {
            lemma_prover_view(*self);
        }
        let goal = match &self.goal {
            Some(NormalizedGoal::ProveNegated(v, _)) => {
                let mut out = "goal: disprove ".to_owned();
                out.append(v.to_text().as_str());
                out
            },
            Some(NormalizedGoal::Solve(t)) => {
                let mut out = "goal: solve for ".to_owned();
                out.append(t.to_text().as_str());
                out
            },
            None => "no goal set".to_owned(),
        };
        let mut active = decimal(self.active_set.len() as u64);
        active.append(" clauses in the active set");
        let mut passive = decimal(self.passive_set.len() as u64);
        passive.append(" clauses in the passive set");
        let mut out: Vec<String> = Vec::new();
        out.push(goal);
        out.push(active);
        out.push(passive);
        assert(views(out@) =~= seq![
            goal_text(self@.goal),
            decimal_text(self@.active.steps.len()) + " clauses in the active set"@,
            decimal_text(self@.passive.steps.len()) + " clauses in the passive set"@,
        ]);
        out
    }

    fn matching_active(&self, part: Option<&str>) -> (r: Vec<String>)
        ensures
            views(r@) == matching(
                self@.active.steps,
                part_view(part),
                self@.active.steps.len(),
            ),
    {
        proof {
            lemma_prover_view(*self);
        }
        let mut out: Vec<String> = Vec::new();
        assert(views(out@) =~= Seq::<Seq<char>>::empty());
        let mut i: usize = 0;
        while i < self.active_set.len()
            invariant
                i <= self@.active.steps.len(),
                self@.active == self.active_set@,
                views(out@) == matching(self@.active.steps, part_view(part), i as nat),
            decreases self@.active.steps.len() - i,
        {
            let line = self.active_set.get_clause(i).to_text();
            if check_match(line.as_str(), part) {
                out.push(line);
            }
            i = i + 1;
        }
        out
    }

    /// The entire active set, or those clauses of it that a text occurs in.
    pub fn active_lines(&self, part: Option<&str>) -> (r: Vec<String>)
        ensures
            ({
                let lines = matching(
                    self@.active.steps,
                    part_view(part),
                    self@.active.steps.len(),
                );
                views(r@) == lines.push(summary_text(lines.len(), "active"@, part_view(part)))
            }),
    {
        let mut out = self.matching_active(part);
        let n = out.len();
        out.push(write_summary(n, "active", part));
        out
    }

    /// The first passive clauses, or those of them that a text occurs in.
    pub fn passive_lines(&self, part: Option<&str>) -> (r: Vec<String>)
        ensures
            ({
                let steps = self@.passive.steps;
                let shown = if steps.len() < PASSIVE_LINES {
                    steps.len()
                } else {
                    PASSIVE_LINES as nat
                };
                let lines = matching(steps, part_view(part), shown);
                views(r@) == match part {
                    Some(p) => lines.push(
                        summary_text(lines.len(), "passive"@, part_view(part)),
                    ),
                    None => (if steps.len() > lines.len() {
                        lines.push(
                            "  ...omitting "@ + decimal_text((steps.len() - lines.len()) as nat)
                                + " more"@,
                        )
                    } else {
                        lines
                    }).push(summary_text(steps.len(), "passive"@, None)),
                }
            }),
    {
        proof {
            lemma_prover_view(*self);
        }
        let total = self.passive_set.len();
        let shown = if total < PASSIVE_LINES {
            total
        } else {
            PASSIVE_LINES
        };
        let mut out: Vec<String> = Vec::new();
        assert(views(out@) =~= Seq::<Seq<char>>::empty());
        let mut i: usize = 0;
        while i < shown
            invariant
                i <= shown <= self@.passive.steps.len(),
                self@.passive == self.passive_set@,
                out.len() <= i,
                views(out@) == matching(self@.passive.steps, part_view(part), i as nat),
            decreases shown - i,
        {
            let line = self.passive_set.get_step(i).clause.to_text();
            if check_match(line.as_str(), part) {
                out.push(line);
            }
            i = i + 1;
        }
        let n = out.len();
        assert(views(out@).len() == n);
        match part {
            Some(_) => {
                out.push(write_summary(n, "passive", part));
            },
            None => {
                if total > n {
                    out.push(
                        concat3("  ...omitting ", decimal((total - n) as u64).as_str(), " more"),
                    );
                }
                out.push(write_summary(total, "passive", None));
            },
        }
        out
    }

    /// The active clauses that a text occurs in.
    pub fn term_info_lines(&self, part: &str) -> (r: Vec<String>)
        ensures
            ({
                let lines = matching(self@.active.steps, Some(part@), self@.active.steps.len());
                let plural = if lines.len() == 1 {
                    ""@
                } else {
                    "s"@
                };
                views(r@) == lines.push(
                    decimal_text(lines.len()) + " clause"@ + plural + " matched"@,
                )
            }),
    {
        let mut out = self.matching_active(Some(part));
        assert(views(out@).len() == out.len());
        let mut line = decimal(out.len() as u64);
        line.append(" clause");
        line.append(
            if out.len() == 1 {
                ""
            } else {
                "s"
            },
        );
        line.append(" matched");
        out.push(line);
        out
    }

    fn write_dependency(&self, description: &str, id: ProofStepId) -> (r: String)
        ensures
            r@ == dependency_text(self@, description@, id),
    {
        let clause = match self.get_clause(id) {
            Some(c) => c.to_text(),
            None => "<unknown>".to_owned(),
        };
        match id {
            ProofStepId::Active(i) => {
                let mut out = "  using ".to_owned();
                out.append(description);
                out.append(" ");
                out.append(decimal(i as u64).as_str());
                out.append(":\n    ");
                out.append(clause.as_str());
                out
            },
            ProofStepId::Passive(_) => {
                let mut out = "  using ".to_owned();
                out.append(description);
                out.append(":\n    ");
                out.append(clause.as_str());
                out
            },
            ProofStepId::Final => "  <unexpected dependency on final proof step>".to_owned(),
        }
    }

    fn push_step_lines(&self, preface: &str, step: &ProofStep, out: &mut Vec<String>)
        ensures
            views(final(out)@) == views(old(out)@) + step_lines(self@, preface@, step@),
    {
        let ghost start = views(out@);
        let ghost whole = step_lines(self@, preface@, step@);
        let mut line = "\n".to_owned();
        line.append(preface);
        line.append(step.rule.name());
        line.append(" generated (depth ");
        line.append(decimal(step.depth as u64).as_str());
        line.append("):\n    ");
        line.append(step.clause.to_text().as_str());
        out.push(line);
        let dependencies = descriptive_dependencies(step);
        let ghost ds = described(step@);
        assert(start + whole.take(1) =~= start.push(whole[0]));
        let mut i: usize = 0;
        while i < dependencies.len()
            invariant
                i <= dependencies.len(),
                ds == described(step@),
                ds == descriptions(dependencies@),
                whole == step_lines(self@, preface@, step@),
                views(out@) == start + whole.take(i + 1),
            decreases dependencies.len() - i,
        {
            assert(ds[i as int] == (dependencies@[i as int].0@, dependencies@[i as int].1));
            let text = self.write_dependency(dependencies[i].0.as_str(), dependencies[i].1);
            assert(whole[i + 1] == text@);
            out.push(text);
            assert(start + whole.take(i + 2) =~= (start + whole.take(i + 1)).push(whole[i + 1]));
            i = i + 1;
        }
        assert(whole.take(whole.len() as int) =~= whole);
    }

    /// What there is to say of a proof.
    pub fn proof_lines(&self, found: &Proof) -> (r: Vec<String>)
        ensures
            views(r@) == proof_lines(self@, found@),
    {
        proof {
            lemma_prover_view(*self);
        }
        let ghost steps = found@.all_steps;
        let mut out: Vec<String> = Vec::new();
        out.push(
            concat3(
                "in total, we activated ",
                decimal(self.active_set.len() as u64).as_str(),
                " proof steps.",
            ),
        );
        let mut second = "non-factual activations: ".to_owned();
        second.append(write_integer(self.nonfactual_activations).as_str());
        out.push(second);
        out.push(
            concat3(
                "the proof uses ",
                decimal(found.all_steps.len() as u64).as_str(),
                " steps:",
            ),
        );
        let ghost head = views(out@);
        let mut i: usize = 0;
        assert(head + Seq::<Seq<char>>::empty() =~= head);
        while i < found.all_steps.len()
            invariant
                i <= found.all_steps.len(),
                steps == named_steps(found.all_steps@),
                views(out@) == head + all_step_lines(self@, steps, i as nat),
            decreases found.all_steps.len() - i,
        {
            let id = found.all_steps[i].0;
            let step = &found.all_steps[i].1;
            assert(steps[i as int] == (id, step@));
            let preface = match id {
                ProofStepId::Active(k) => if step.rule.is_negated_goal() {
                    concat3("clause ", decimal(k as u64).as_str(), " (negating goal): ")
                } else {
                    concat3("clause ", decimal(k as u64).as_str(), ": ")
                },
                ProofStepId::Passive(_) => String::new(),
                ProofStepId::Final => "final step: ".to_owned(),
            };
            assert(preface@ =~= preface_text(id, step@));
            self.push_step_lines(preface.as_str(), step, &mut out);
            assert((head + all_step_lines(self@, steps, i as nat)) + step_lines(
                self@,
                preface@,
                step@,
            ) =~= head + all_step_lines(self@, steps, (i + 1) as nat));
            i = i + 1;
        }
        assert(views(out@) =~= proof_lines(self@, found@));
        out
    }
}

} // verus!
