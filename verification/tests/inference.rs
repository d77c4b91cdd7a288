//! The inference rules, on clauses in short notation.

use acorn::active_set::ActiveSet;
use acorn::clause::{Clause, LiteralTrace};
use acorn::literal::Literal;
use acorn::proof_step::{ProofStep, ProofStepId, Rule, Truthiness};
use acorn::table::{Key, Table};
use acorn::term::{Atom, Comparison, Term, BOOL};
use acorn::term_graph::TermGraph;
use acorn::unifier;

#[test]
fn test_activate_rewrite_pattern() {
    // Create an active set that knows c0(c3) = c2
    let mut set = ActiveSet::new();
    let mut step = ProofStep::mock("c0(c3) = c2");
    step.truthiness = Truthiness::Hypothetical;
    set.activate(step);

    // We should be able replace c1 with c3 in "c0(c3) = c2"
    let pattern_step = ProofStep::mock("c1 = c3");
    let mut result = vec![];
    set.activate_rewrite_pattern(1, &pattern_step, &mut result);

    assert_eq!(result.len(), 1);
    let expected = Clause::new(vec![Literal::equals(
        Term::parse("c0(c1)"),
        Term::parse("c2"),
    )]);
    assert!(result[0].clause.same(&expected));
}

#[test]
fn test_activate_rewrite_target() {
    // Create an active set that knows c1 = c3
    let mut set = ActiveSet::new();
    let step = ProofStep::mock("c1 = c3");
    set.activate(step);

    // We want to use c0(c3) = c2 to get c0(c1) = c2.
    let mut target_step = ProofStep::mock("c0(c3) = c2");
    target_step.truthiness = Truthiness::Hypothetical;
    let mut result = vec![];
    set.activate_rewrite_target(1, &target_step, &mut result);
    assert_eq!(result.len(), 1);
}

#[test]
fn test_equality_resolution() {
    let old_clause = Clause::new(vec![
        Literal::not_equals(Term::parse("x0"), Term::parse("c0")),
        Literal::equals(Term::parse("x0"), Term::parse("c1")),
    ]);
    let mock_step = ProofStep::mock_from_clause(old_clause);
    let proof_steps = ActiveSet::equality_resolution(0, &mock_step);
    assert_eq!(proof_steps.len(), 1);
    assert!(proof_steps[0].clause.len() == 1);
    assert_eq!(proof_steps[0].clause.to_text(), "c1 = c0");
}

#[test]
fn test_mutually_recursive_equality_resolution() {
    // This is a bug we ran into. It shouldn't work
    let clause = Clause::parse("c0(x0, c0(x1, c1(x2))) != c0(c0(x2, x1), x0)");
    let mock_step = ProofStep::mock_from_clause(clause);
    assert!(ActiveSet::equality_resolution(0, &mock_step).is_empty());
}

#[test]
fn test_equality_factoring_basic() {
    let old_clause = Clause::new(vec![
        Literal::equals(Term::parse("x0"), Term::parse("c0")),
        Literal::equals(Term::parse("x1"), Term::parse("c0")),
    ]);
    let mock_step = ProofStep::mock_from_clause(old_clause);
    let proof_steps = ActiveSet::equality_factoring(0, &mock_step);
    let expected = Clause::parse("c0 = x0");
    for ps in &proof_steps {
        if ps.clause.same(&expected) {
            return;
        }
    }
    panic!("Did not find expected clause");
}

#[test]
fn test_matching_entire_literal() {
    let mut set = ActiveSet::new();
    let mut step = ProofStep::mock("not c2(c0(c0(x0))) or c1(x0) != x0");
    step.truthiness = Truthiness::Factual;
    set.activate(step);
    let mut step = ProofStep::mock("c1(c3) = c3");
    step.truthiness = Truthiness::Counterfactual;
    let (_, new_clauses) = set.activate(step);
    assert_eq!(new_clauses.len(), 1);
    assert_eq!(new_clauses[0].clause.to_text(), "not c2(c0(c0(c3)))");
}

#[test]
fn test_equality_factoring_variable_numbering() {
    // This is a bug we ran into
    let mut set = ActiveSet::new();

    // Nonreflexive rule of less-than
    let step = ProofStep::mock("not c1(x0, x0)");
    set.activate(step);

    // Trichotomy
    let clause = Clause::parse("c1(x0, x1) or c1(x1, x0) or x0 = x1");
    let mock_step = ProofStep::mock_from_clause(clause);
    let output = ActiveSet::equality_factoring(0, &mock_step);
    assert_eq!(output[0].clause.to_text(), "c1(x0, x0) or x0 = x0");
}

#[test]
fn test_self_referential_resolution() {
    // This is a bug we ran into. These things should not unify
    let mut set = ActiveSet::new();
    set.activate(ProofStep::mock("g2(x0, x0) = g0"));
    let mut step = ProofStep::mock("g2(g2(g1(c0, x0), x0), g2(x1, x1)) != g0");
    step.truthiness = Truthiness::Counterfactual;
    let mut results = vec![];
    set.find_resolutions(&step, &mut results);
    assert_eq!(results.len(), 0);
}

#[test]
fn test_clause_is_rewrite_rule() {
    assert!(Clause::parse("c0(x0) = x0").is_rewrite_rule());
    assert!(Clause::parse("c0(x0, x0) = x0").is_rewrite_rule());
    assert!(!Clause::parse("c0(x0, x0) != x0").is_rewrite_rule());
    assert!(!Clause::parse("c0(x0, x1) = c0(x1, x0)").is_rewrite_rule());
}

#[test]
fn clauses_are_sorted_and_drop_what_cannot_hold() {
    let clause = Clause::new(vec![
        Literal::equals(Term::parse("c1"), Term::parse("c0")),
        Literal::not_equals(Term::parse("c2"), Term::parse("c2")),
        Literal::equals(Term::parse("c1"), Term::parse("c0")),
        Literal::not_equals(Term::parse("c3"), Term::parse("c0")),
    ]);
    assert_eq!(clause.len(), 2);
    assert_eq!(clause.to_text(), "c3 != c0 or c1 = c0");
    assert_eq!(clause.num_positive_literals(), 1);
    assert_eq!(clause.atom_count(), 4);
    assert!(!clause.is_tautology());
    assert!(!clause.has_any_variable());
    assert!(clause.has_local_constant());
}

#[test]
fn an_empty_clause_is_impossible() {
    assert!(Clause::impossible().is_impossible());
    assert_eq!(Clause::impossible().to_text(), "<empty>");
    assert!(Clause::new(vec![Literal::not_equals(Term::parse("c0"), Term::parse("c0"))]).is_impossible());
}

#[test]
fn traces_follow_the_literals() {
    let (clause, trace) = Clause::normalize_with_trace(vec![
        Literal::equals(Term::parse("c1"), Term::parse("c0")),
        Literal::not_equals(Term::parse("c2"), Term::parse("c2")),
        Literal::not_equals(Term::parse("c3"), Term::parse("c0")),
    ]);
    assert_eq!(clause.len(), 2);
    assert_eq!(
        trace,
        vec![
            LiteralTrace::Output { index: 1, flipped: false },
            LiteralTrace::Impossible,
            LiteralTrace::Output { index: 0, flipped: false },
        ]
    );
}

#[test]
fn tautologies_are_recognized() {
    assert!(Clause::parse("c0 = c0 or c1").is_tautology());
    assert!(Clause::parse("not c1 or c1").is_tautology());
    assert!(!Clause::parse("not c1 or c2").is_tautology());
}

#[test]
fn terms_are_ordered() {
    let small = Term::parse("c0");
    let large = Term::parse("c1(c0)");
    assert_eq!(large.kbo(&small), Comparison::Greater);
    assert_eq!(small.extended_kbo(&large), Comparison::Less);
    assert_eq!(large.extended_kbo(&large), Comparison::Equal);
    let a = Term::parse("c0(x0)");
    let b = Term::parse("c0(x1)");
    assert_eq!(a.kbo(&b), Comparison::Equal);
    assert!(a.extended_kbo(&b) != Comparison::Equal);
}

#[test]
fn terms_can_be_unified() {
    let a = Term::parse("c0(x0, c1)");
    let b = Term::parse("c0(c2, x1)");
    let s = unifier::unify_all(vec![(Term::parse("c0(x0, c1)"), Term::parse("c0(c2, x1)"))]);
    let s = s.unwrap();
    assert_eq!(unifier::apply(&a, &s).to_text(), "c0(c2, c1)");
    assert!(unifier::apply(&a, &s).same(&unifier::apply(&b, &s)));
}

#[test]
fn a_variable_is_not_unified_with_what_it_occurs_in() {
    assert!(unifier::unify_all(vec![(Term::parse("x0"), Term::parse("c0(x0)"))]).is_none());
    assert!(unifier::unify_all(vec![(Term::parse("c0"), Term::parse("c1"))]).is_none());
}

#[test]
fn terms_can_be_matched() {
    let general = Term::parse("c0(x0, x0)");
    let special = Term::parse("c0(c1(c2), c1(c2))");
    let mut table: Table<Atom, Term> = Table::new();
    assert!(unifier::match_terms(&general, &special, &mut table));
    assert!(unifier::fill(&general, &table).same(&special));
    let mut other: Table<Atom, Term> = Table::new();
    assert!(!unifier::match_terms(&general, &Term::parse("c0(c1, c2)"), &mut other));
}

#[test]
fn truthiness_combines_to_the_least_true() {
    let f = Truthiness::Factual;
    let h = Truthiness::Hypothetical;
    let c = Truthiness::Counterfactual;
    assert_eq!(f.combine(f), f);
    assert_eq!(f.combine(h), h);
    assert_eq!(h.combine(c), c);
    assert_eq!(c.combine(f), c);
}

#[test]
fn only_one_step_of_deduction_is_done_with_facts() {
    let mut step = ProofStep::mock("c0 = c1");
    assert!(!step.automatic_reject());
    step.proof_size = 3;
    assert!(step.automatic_reject());
    step.truthiness = Truthiness::Hypothetical;
    assert!(!step.automatic_reject());
    step.depth = 30;
    assert!(step.automatic_reject());
}

#[test]
fn contradictions_are_found_along_equalities() {
    let mut graph = TermGraph { edges: vec![] };
    graph.set_terms_equal(Term::parse("c0"), Term::parse("c1"), 0, None);
    graph.set_terms_equal(Term::parse("c1"), Term::parse("c2"), 1, None);
    assert!(graph.get_contradiction().is_none());
    graph.set_terms_not_equal(Term::parse("c0"), Term::parse("c2"), 2);
    let found = graph.get_contradiction().unwrap();
    assert_eq!(found.inequality, 2);
    assert_eq!(found.chain, vec![0, 1]);
}

#[test]
fn upstream_steps_and_consequences() {
    let mut set = ActiveSet::new();
    let mut first = ProofStep::mock("not c2(x0) or c1(x0)");
    first.truthiness = Truthiness::Factual;
    set.activate(first);
    let mut second = ProofStep::mock("c2(c3)");
    second.truthiness = Truthiness::Counterfactual;
    let (id, found) = set.activate(second);
    assert_eq!(id, 1);
    assert_eq!(found.len(), 1);
    assert_eq!(found[0].clause.to_text(), "c1(c3)");
    assert!(matches!(found[0].rule, Rule::Resolution(_)));
    assert!(found[0].dependencies().contains(&ProofStepId::Active(0)));
    let mut ids = vec![];
    set.find_upstream(&found[0], false, &mut ids);
    ids.sort();
    assert_eq!(ids, vec![0, 1]);
    let mut steps = found;
    set.activate(steps.remove(0));
    assert_eq!(set.find_consequences(0), vec![2]);
    assert_eq!(set.find_consequences(2), Vec::<usize>::new());
    assert_eq!(set.iter_steps().len(), 3);
    assert_eq!(set.iter_clauses()[1].to_text(), "c2(c3)");
}

#[test]
fn known_literals_simplify_clauses() {
    let mut set = ActiveSet::new();
    set.activate(ProofStep::mock("c1(c0)"));
    let simple = set.simplify(ProofStep::mock("not c1(c0) or c2(c0)")).unwrap();
    assert_eq!(simple.clause.to_text(), "c2(c0)");
    assert_eq!(simple.simplification_rules, vec![0]);
    assert!(set.simplify(ProofStep::mock("c1(c0) or c2(c0)")).is_none());
}

#[test]
fn the_true_term_prints() {
    assert_eq!(Term::new_true().to_text(), "true");
    assert_eq!(Term::atom(BOOL, Atom::GlobalConstant(4)).to_text(), "g4");
    assert_eq!(Term::atom(BOOL, Atom::Synthetic(2)).to_text(), "s2");
    assert_eq!(Term::atom(BOOL, Atom::Monomorph(3)).to_text(), "m3");
}
