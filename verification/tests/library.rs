//! Types, normal forms, searches, caches and the command line.

use acorn::acorn_type::{AcornType, FIRST_NORMAL, SKOLEM};
use acorn::acorn_value::{AcornValue, BinaryOp};
use acorn::binding_map::{BindingMap, Stack};
use acorn::build_cache::{path_for_name, BuildCache, ModuleDescriptor};
use acorn::clause::Clause;
use acorn::command::{
    internal_line, log_line, search_message, Command, Flags, Target, Verifier, VerifierMode,
};
use acorn::compilation::Error;
use acorn::environment::Environment;
use acorn::expression::{Expression, Stop};
use acorn::fact::{ConstantInstance, Fact, PotentialValue};
use acorn::line_map::{LineMap, LineType};
use acorn::logic;
use acorn::names::{Class, LocalName, Typeclass};
use acorn::normalizer::Normalizer;
use acorn::passive_set::PassiveSet;
use acorn::project::Project;
use acorn::proof_info::Difficulty;
use acorn::proof_step::{ProofStep, ProofStepId, Truthiness};
use acorn::prover::{sort_ids, Outcome, Prover};
use acorn::report::contains_text;
use acorn::source::Source;
use acorn::statement::Statement;
use acorn::term::{BOOL, EMPTY};
use acorn::text::decimal;
use acorn::token::{Position, Range, Token, TokenIter, TokenType};
use acorn::type_map::TypeMap;

const TURNS: u64 = 2000;

fn environment(input: &str) -> Environment {
    let mut env = Environment::new_test();
    if let Err(e) = env.add(input) {
        panic!("error in:\n{}\n{}", input, e.to_text());
    }
    env
}

fn prover_for(input: &str, goal: &str) -> (Environment, Prover) {
    let env = environment(input);
    let context = match env.get_goal_context_by_name(goal) {
        Some(c) => c,
        None => panic!("no goal {}", goal),
    };
    let mut prover = Prover::new();
    prover.add_context(&context);
    (env, prover)
}

fn prove(input: &str, goal: &str) -> Outcome {
    let (_, mut prover) = prover_for(input, goal);
    prover.verification_search(TURNS)
}

fn no_range() -> Range {
    let start = Position { line: 0, character: 0 };
    Range { start, end: start }
}

#[test]
fn test_type_map_defaults() {
    let map = TypeMap::new();
    assert_eq!(map.get_type(EMPTY), &AcornType::Empty);
    assert_eq!(map.get_type(BOOL), &AcornType::Bool);
}

#[test]
fn test_env_types() {
    let b = BindingMap::new(FIRST_NORMAL);
    assert!(b.assert_type_ok("bool"));
    assert!(b.assert_type_ok("bool -> bool"));
    assert!(b.assert_type_ok("bool -> (bool -> bool)"));
    assert!(b.assert_type_ok("(bool -> bool) -> (bool -> bool)"));
    assert!(b.assert_type_ok("(bool, bool) -> bool"));
    assert!(b.assert_type_bad("bool, bool -> bool"));
    assert!(b.assert_type_bad("(bool, bool)"));
}

fn check(norm: &mut Normalizer, env: &Environment, name: &str, expected: &[&str]) {
    let claim = env.get_theorem_claim(name).unwrap();
    let clauses = norm.normalize(claim).unwrap();
    let actual: Vec<String> = clauses.iter().map(|c| c.to_text()).collect();
    assert_eq!(actual, expected);
}

#[test]
fn test_tautology_elimination() {
    let mut env = Environment::new_test();
    let mut norm = Normalizer::new();
    env.add("type Nat: axiom").unwrap();
    env.add("theorem one(n: Nat): n = n").unwrap();
    check(&mut norm, &env, "one", &[]);

    env.add("theorem two(n: Nat): n = n | n != n").unwrap();
    check(&mut norm, &env, "two", &[]);
}

#[test]
fn types_keep_their_numbers() {
    let mut map = TypeMap::new();
    let nat = AcornType::Data(1, "Nat".to_string());
    let id = map.add_type(&nat);
    assert_eq!(id, 2);
    assert_eq!(map.add_type(&AcornType::Bool), BOOL);
    assert_eq!(map.add_type(&AcornType::Data(1, "Int".to_string())), 3);
    assert_eq!(map.add_type(&nat), 2);
    assert_eq!(map.get_type(2), &nat);
}

#[test]
fn instances_keep_their_numbers() {
    let mut map = TypeMap::new();
    let first = ConstantInstance {
        module_id: 1,
        name: "nil".to_string(),
        params: vec![AcornType::Bool],
        instance_type: AcornType::Data(1, "List".to_string()),
    };
    let second = ConstantInstance {
        module_id: 1,
        name: "nil".to_string(),
        params: vec![AcornType::Data(1, "Nat".to_string())],
        instance_type: AcornType::Data(1, "List".to_string()),
    };
    assert_eq!(map.term_from_monomorph(&first).to_text(), "m0");
    assert_eq!(map.term_from_monomorph(&second).to_text(), "m1");
    assert_eq!(map.term_from_monomorph(&first).to_text(), "m0");
    assert_eq!(map.num_monomorphs(), 2);
    assert_eq!(map.get_monomorph(1).params, second.params);
}

#[test]
fn implications_become_clauses() {
    let mut env = Environment::new_test();
    let mut norm = Normalizer::new();
    env.add("type Nat: axiom").unwrap();
    env.add("let zero: Nat = axiom").unwrap();
    env.add("let suc: Nat -> Nat = axiom").unwrap();
    env.add("axiom suc_injective(x: Nat, y: Nat): suc(x) = suc(y) -> x = y").unwrap();
    check(&mut norm, &env, "suc_injective", &["g0(x0) != g0(x1) or x0 = x1"]);
    env.add("axiom suc_neq_zero(x: Nat): suc(x) != zero").unwrap();
    check(&mut norm, &env, "suc_neq_zero", &["g1 != g0(x0)"]);
}

#[test]
fn skolem_functions_take_the_stack() {
    let mut env = Environment::new_test();
    let mut norm = Normalizer::new();
    env.add("type Nat: axiom").unwrap();
    env.add("let p: (Nat, Nat) -> Bool = axiom").unwrap();
    env.add("axiom some(x: Nat) { exists(y: Nat) { p(x, y) } }").unwrap();
    check(&mut norm, &env, "some", &["g0(x0, s0(x0))"]);
    env.add("axiom each { exists(y: Nat) { forall(x: Nat) { p(x, y) } } }").unwrap();
    check(&mut norm, &env, "each", &["g0(x0, s1)"]);
}

#[test]
fn skolemize_replaces_existential_quantifiers() {
    let nat = AcornType::Data(1, "Nat".to_string());
    let mut norm = Normalizer::new();
    let value = AcornValue::Exists(
        vec![AcornType::Data(1, "Nat".to_string())],
        Box::new(AcornValue::Binary(
            BinaryOp::Equals,
            Box::new(AcornValue::Variable(1, AcornType::Data(1, "Nat".to_string()))),
            Box::new(AcornValue::Variable(0, AcornType::Data(1, "Nat".to_string()))),
        )),
    );
    let stack = vec![nat];
    let result = norm.skolemize(&stack, value);
    match result {
        AcornValue::Binary(BinaryOp::Equals, left, right) => {
            match *left {
                AcornValue::Application(app) => {
                    match &*app.function {
                        AcornValue::Constant(module, name, _, _) => {
                            assert_eq!(*module, SKOLEM);
                            assert_eq!(name, "s0");
                        }
                        v => panic!("unexpected {:?}", v),
                    }
                    assert_eq!(app.args.len(), 1);
                }
                v => panic!("unexpected {:?}", v),
            }
            assert!(matches!(*right, AcornValue::Variable(0, _)));
        }
        v => panic!("unexpected {:?}", v),
    }
}

#[test]
fn negations_go_inwards() {
    let a = || AcornValue::Constant(1, "a".to_string(), AcornType::Bool, vec![]);
    let b = || AcornValue::Constant(1, "b".to_string(), AcornType::Bool, vec![]);
    let implies = AcornValue::Binary(BinaryOp::Implies, Box::new(a()), Box::new(b()));
    let negated = AcornValue::Not(Box::new(implies));
    assert_eq!(logic::move_negation_inwards(&negated, false).to_text(), "(a and not b)");
    assert_eq!(logic::move_negation_inwards(&negated, true).to_text(), "(not a or b)");
    let same = AcornValue::Binary(BinaryOp::Equals, Box::new(a()), Box::new(b()));
    assert_eq!(
        logic::move_negation_inwards(&same, false).to_text(),
        "((not a or b) and (a or not b))"
    );
}

#[test]
fn cnf_distributes() {
    let c = |s: &str| AcornValue::Constant(1, s.to_string(), AcornType::Bool, vec![]);
    let and = AcornValue::Binary(BinaryOp::And, Box::new(c("a")), Box::new(c("b")));
    let or = AcornValue::Binary(BinaryOp::Or, Box::new(and), Box::new(c("c")));
    let lists = logic::into_cnf(&or);
    let texts: Vec<Vec<String>> =
        lists.iter().map(|l| l.iter().map(|v| v.to_text()).collect()).collect();
    assert_eq!(texts, vec![vec!["a", "c"], vec!["b", "c"]]);
    assert!(logic::into_cnf(&AcornValue::Bool(true)).is_empty());
    assert_eq!(logic::into_cnf(&AcornValue::Bool(false)).len(), 1);
}

#[test]
fn functions_are_expanded() {
    let function = AcornValue::Lambda(
        vec![AcornType::Bool],
        Box::new(AcornValue::Not(Box::new(AcornValue::Variable(0, AcornType::Bool)))),
    );
    let c = AcornValue::Constant(1, "c".to_string(), AcornType::Bool, vec![]);
    let applied = AcornValue::new_apply(function, vec![c]);
    assert_eq!(logic::expand(&applied, 0, 10).unwrap().to_text(), "not c");
    assert!(logic::expand(&applied, 0, 0).is_none());
}

#[test]
fn clauses_can_be_turned_back() {
    let mut env = Environment::new_test();
    let mut norm = Normalizer::new();
    env.add("type Nat: axiom").unwrap();
    env.add("let f: Nat -> Nat = axiom").unwrap();
    env.add("axiom idempotent(x: Nat) { f(f(x)) = f(x) }").unwrap();
    let claim = env.get_theorem_claim("idempotent").unwrap();
    let clauses = norm.normalize(claim).unwrap();
    assert_eq!(clauses.len(), 1);
    let value = norm.denormalize(&clauses[0]).unwrap();
    assert_eq!(value.to_text(), "forall(x0: Nat) { (f(f(x0)) = f(x0)) }");
    assert_eq!(
        norm.clause_to_code(&env.bindings, &clauses[0]),
        "forall(x0: Nat) { f(f(x0)) = f(x0) }"
    );
}

const MODUS_PONENS: &str = "
let a: Bool = axiom
let b: Bool = axiom
axiom first { a }
axiom second { a -> b }
theorem goal { b }
";

#[test]
fn a_simple_goal_is_proved() {
    let (env, mut prover) = prover_for(MODUS_PONENS, "goal");
    let outcome = prover.verification_search(TURNS);
    assert_eq!(outcome.to_text(), "Success");
    let found = prover.get_uncondensed_proof(false).unwrap();
    assert_eq!(found.difficulty, Difficulty::Simple);
    assert_eq!(found.all_steps.last().unwrap().0, ProofStepId::Final);
    assert!(found.all_steps.last().unwrap().1.clause.is_impossible());
    let infos = prover.to_proof_info(&env.bindings, &found).unwrap();
    assert_eq!(infos.len(), found.all_steps.len());
    assert!(infos.last().unwrap().clause.text.is_none());
    let lines = prover.proof_lines(&found);
    assert!(lines[0].starts_with("in total, we activated "));
    assert_eq!(lines[2], format!("the proof uses {} steps:", found.all_steps.len()));
    let mut names = vec![];
    prover.get_useful_fact_names(&mut names);
    assert!(names.contains(&(FIRST_NORMAL, "second".to_string())));
    let info = prover.info_result(&env.bindings, 0).unwrap();
    assert_eq!(info.num_consequences, info.consequences.len());
    assert!(prover.info_result(&env.bindings, 1000).is_none());
}

#[test]
fn a_goal_that_does_not_follow_is_exhausted() {
    let text = "
        let a: Bool = axiom
        let b: Bool = axiom
        axiom first { a }
        theorem goal { b }
        ";
    assert_eq!(prove(text, "goal"), Outcome::Exhausted);
}

#[test]
fn contradictory_axioms_are_inconsistent() {
    let text = "
        let a: Bool = axiom
        let b: Bool = axiom
        axiom first { a }
        axiom second { not a }
        theorem goal { b }
        ";
    assert_eq!(prove(text, "goal"), Outcome::Inconsistent);
}

#[test]
fn equalities_are_used_to_rewrite() {
    let text = "
        type Nat: axiom
        let zero: Nat = axiom
        let f: Nat -> Nat = axiom
        axiom fixed(x: Nat) { f(x) = x }
        theorem goal { f(f(zero)) = zero }
        ";
    assert_eq!(prove(text, "goal"), Outcome::Success);
}

#[test]
fn an_existential_goal_is_proved() {
    let text = "
        type Nat: axiom
        let zero: Nat = axiom
        let p: Nat -> Bool = axiom
        axiom holds { p(zero) }
        theorem goal { exists(x: Nat) { p(x) } }
        ";
    assert_eq!(prove(text, "goal"), Outcome::Success);
}

#[test]
fn searches_stop_at_limits() {
    let (_, mut prover) = prover_for(MODUS_PONENS, "goal");
    assert_eq!(prover.search_for_contradiction(2000, 0, false), Outcome::Timeout);
    assert_eq!(prover.check_limits(true, 2000, true), Some(Outcome::Interrupted));
    assert_eq!(prover.check_limits(false, 0, true), Some(Outcome::Constrained));
    assert_eq!(prover.check_limits(false, 2000, true), Some(Outcome::Timeout));
    assert_eq!(prover.check_limits(false, 2000, false), None);
    assert_eq!(prover.search_for_contradiction(-1, 10, false), Outcome::Constrained);
}

#[test]
fn quick_and_partial_searches_succeed() {
    assert_eq!(prover_for(MODUS_PONENS, "goal").1.quick_search(TURNS), Outcome::Success);
    assert_eq!(prover_for(MODUS_PONENS, "goal").1.quick_shallow_search(TURNS), Outcome::Success);
    assert_eq!(prover_for(MODUS_PONENS, "goal").1.partial_search(TURNS), Outcome::Success);
}

#[test]
fn what_cannot_be_normalized_is_an_error() {
    let mut prover = Prover::new();
    let generic = Fact::Definition(
        PotentialValue::Unresolved(1, "map".to_string()),
        AcornValue::Bool(true),
        Source::mock(),
    );
    prover.add_fact(&generic);
    assert_eq!(
        prover.verification_search(TURNS).to_text(),
        "Error: could not normalize: map"
    );
}

#[test]
fn definitions_are_facts() {
    let c = AcornValue::Constant(1, "c".to_string(), AcornType::Bool, vec![]);
    let mut prover = Prover::new();
    prover.add_fact(&Fact::Definition(
        PotentialValue::Resolved(c),
        AcornValue::Bool(true),
        Source::mock(),
    ));
    assert_eq!(prover.num_passive(), 1);
    assert_eq!(prover.num_activated(), 0);
    assert!(!prover.activate_next());
    assert_eq!(prover.num_activated(), 1);
    assert_eq!(prover.iter_active_steps()[0].1.clause.to_text(), "g0");
    assert_eq!(prover.active_lines(Some("g0")), vec!["g0", "1 active clauses matched g0"]);
    assert_eq!(prover.active_lines(Some("g1")), vec!["0 active clauses matched g1"]);
    assert_eq!(prover.active_lines(None), vec!["g0", "1 clauses total in the active set"]);
    assert_eq!(prover.term_info_lines("g"), vec!["g0", "1 clause matched"]);
    assert_eq!(prover.passive_lines(None), vec!["0 clauses total in the passive set"]);
    assert_eq!(
        prover.stats_lines(),
        vec!["no goal set", "1 clauses in the active set", "0 clauses in the passive set"]
    );
}

#[test]
fn outcomes_have_texts() {
    assert_eq!(Outcome::Exhausted.to_text(), "Exhausted");
    assert_eq!(Outcome::Inconsistent.to_text(), "Inconsistent");
    assert_eq!(Outcome::Interrupted.to_text(), "Interrupted");
    assert_eq!(Outcome::Timeout.to_text(), "Timeout");
    assert_eq!(Outcome::Constrained.to_text(), "Constrained");
    assert_eq!(Outcome::Error("bad".to_string()).to_text(), "Error: bad");
}

#[test]
fn facts_come_first_in_the_queue() {
    let mut set = PassiveSet::new();
    let mut first = ProofStep::mock("c0(c1) = c2");
    first.truthiness = Truthiness::Counterfactual;
    set.push(first);
    set.push(ProofStep::mock("c0(c1, c2, c3) = c4"));
    set.push(ProofStep::mock("c5 = c6"));
    assert_eq!(set.len(), 3);
    assert_eq!(set.pop().unwrap().clause.to_text(), "c6 = c5");
    assert_eq!(set.pop().unwrap().clause.to_text(), "c0(c1, c2, c3) = c4");
    assert_eq!(set.pop().unwrap().truthiness, Truthiness::Counterfactual);
    assert!(set.pop().is_none());
}

#[test]
fn opposite_passive_steps_contradict() {
    let mut set = PassiveSet::new();
    set.push_batch(vec![ProofStep::mock("c0(c1)"), ProofStep::mock("c2 = c3")]);
    assert!(set.get_contradiction().is_none());
    set.push(ProofStep::mock("not c0(c1)"));
    assert_eq!(set.get_contradiction().unwrap().len(), 2);
}

#[test]
fn ids_are_sorted_once_each() {
    assert_eq!(sort_ids(&vec![5, 2, 9, 2, 5]), vec![2, 5, 9]);
    assert_eq!(sort_ids(&vec![]), Vec::<usize>::new());
}

#[test]
fn caches_give_back_what_they_hold() {
    let mut cache = BuildCache::new(Some("build".to_string()), true);
    let foo = ModuleDescriptor::Name("foo.bar".to_string());
    let file = ModuleDescriptor::File("foo.bar".to_string());
    assert_eq!(cache.get(&foo), None);
    assert_eq!(cache.len(), 0);
    let path = cache.save_needed(&foo, "hash: 1").unwrap();
    assert_eq!(path.directories, vec!["foo"]);
    assert_eq!(path.file, "bar.yaml");
    assert_eq!(cache.insert(&foo, "hash: 1".to_string(), Ok(())), Ok(()));
    assert_eq!(cache.get(&foo), Some("hash: 1".to_string()));
    assert!(cache.save_needed(&foo, "hash: 1").is_none());
    assert!(cache.save_needed(&foo, "hash: 2").is_some());
    assert_eq!(
        cache.insert(&foo, "hash: 2".to_string(), Err("disk full".to_string())),
        Err("disk full".to_string())
    );
    assert_eq!(cache.get(&foo), Some("hash: 1".to_string()));
    assert_eq!(cache.insert(&file, "hash: 3".to_string(), Ok(())), Ok(()));
    assert!(cache.save_needed(&file, "hash: 4").is_none());
    assert_eq!(cache.insert(&ModuleDescriptor::Anonymous, "hash: 5".to_string(), Ok(())), Ok(()));
    assert_eq!(cache.get(&file), Some("hash: 3".to_string()));
    assert_eq!(cache.get(&foo), Some("hash: 1".to_string()));
    assert_eq!(cache.len(), 3);
    assert_eq!(cache.insert(&foo, "hash: 6".to_string(), Ok(())), Ok(()));
    assert_eq!(cache.len(), 3);
}

#[test]
fn caches_that_may_not_be_written_are_not_saved() {
    let foo = ModuleDescriptor::Name("foo".to_string());
    assert!(BuildCache::new(Some("build".to_string()), false).save_needed(&foo, "x").is_none());
    assert!(BuildCache::new(None, true).save_needed(&foo, "x").is_none());
    assert!(BuildCache::new(Some("build".to_string()), true).save_needed(&foo, "x").is_some());
}

#[test]
fn module_names_become_paths() {
    let path = path_for_name("a.b.c");
    assert_eq!(path.directories, vec!["a", "b"]);
    assert_eq!(path.file, "c.yaml");
    let path = path_for_name("nat");
    assert!(path.directories.is_empty());
    assert_eq!(path.file, "nat.yaml");
    assert_eq!(path_for_name("").file, ".yaml");
}

fn flags() -> Flags {
    Flags {
        version: false,
        workspace_root: None,
        extension_root: None,
        target: None,
        dataset: false,
        full: false,
        filtered: false,
    }
}

#[test]
fn the_command_line_is_understood() {
    let mut f = flags();
    f.version = true;
    assert!(matches!(f.command(), Command::ShowVersion));
    let mut f = flags();
    f.extension_root = Some("ext".to_string());
    f.workspace_root = Some("ws".to_string());
    match f.command() {
        Command::Serve { workspace_root, extension_root } => {
            assert_eq!(workspace_root, Some("ws".to_string()));
            assert_eq!(extension_root, "ext");
        }
        c => panic!("unexpected {:?}", c),
    }
    let mut f = flags();
    f.workspace_root = Some("ws".to_string());
    match f.command() {
        Command::Fail(s) => {
            assert_eq!(s, "--workspace-root is only relevant in language server mode.")
        }
        c => panic!("unexpected {:?}", c),
    }
    let mut f = flags();
    f.full = true;
    f.filtered = true;
    match f.command() {
        Command::Fail(s) => assert_eq!(s, "--full and --filtered are incompatible."),
        c => panic!("unexpected {:?}", c),
    }
    let mut f = flags();
    f.filtered = true;
    match f.command() {
        Command::Verify(v) => {
            assert!(v.use_cache());
            assert!(!v.check_hashes());
            assert_eq!(v.final_warning(0), None);
            assert!(v.final_warning(1).is_some());
        }
        c => panic!("unexpected {:?}", c),
    }
}

#[test]
fn targets_are_files_or_modules() {
    let full = Verifier::new(VerifierMode::Full, Some("nat.ac".to_string()), true);
    assert!(!full.use_cache());
    assert!(full.check_hashes());
    assert!(full.creates_dataset());
    assert_eq!(full.final_warning(1), None);
    match full.target() {
        Target::File(s) => assert_eq!(s, "nat.ac"),
        t => panic!("unexpected {:?}", t),
    }
    assert_eq!(full.target().missing_message(), "File not found: nat.ac");
    let standard = Verifier::new(VerifierMode::Standard, Some("ac".to_string()), false);
    assert_eq!(standard.target().missing_message(), "Module not found: ac");
    assert!(matches!(Verifier::new(VerifierMode::Standard, None, false).target(), Target::All));
}

#[test]
fn lines_are_logged_from_one() {
    assert_eq!(log_line("nat", Some(4), "oops"), "nat, line 5: oops");
    assert_eq!(log_line("nat", None, "oops"), "oops");
    assert_eq!(internal_line(1), Some(0));
    assert_eq!(internal_line(0), None);
}

#[test]
fn searches_are_reported() {
    assert_eq!(search_message(&Outcome::Success, 3), ("success!".to_string(), false));
    assert_eq!(search_message(&Outcome::Timeout, 3), ("activated 3 steps".to_string(), true));
    assert_eq!(search_message(&Outcome::Inconsistent, 0).0, "Found inconsistency!");
    assert_eq!(search_message(&Outcome::Exhausted, 0).0, "All possibilities have been exhausted.");
    assert_eq!(search_message(&Outcome::Interrupted, 0).0, "Interrupted.");
    assert_eq!(search_message(&Outcome::Constrained, 0).0, "Constrained.");
    assert_eq!(search_message(&Outcome::Error("x".to_string()), 0).0, "Error: x");
}

#[test]
fn sources_describe_themselves() {
    let range = no_range();
    let theorem = Source::theorem(false, 1, range, 0, Some("foo".to_string()));
    assert_eq!(theorem.description(), "the 'foo' theorem");
    assert_eq!(theorem.qualified_fact_name(), Some((1, "foo".to_string())));
    let unnamed = Source::theorem(true, 1, range, 0, None);
    assert_eq!(unnamed.description(), "an anonymous axiom");
    assert!(unnamed.is_axiom());
    assert_eq!(Source::premise(1, range, 1).description(), "an assumed premise");
    assert_eq!(Source::premise(1, range, 1).name(), None);
    assert_eq!(Source::anonymous(1, range, 0).description(), "line 1");
    assert_eq!(Source::negated_goal(1, range, 0).truthiness(), Truthiness::Counterfactual);
    assert_eq!(Source::premise(1, range, 1).truthiness(), Truthiness::Hypothetical);
    assert_eq!(Source::mock().truthiness(), Truthiness::Factual);
}

#[test]
fn facts_have_texts() {
    let fact = Fact::proposition(AcornValue::Bool(true), Source::mock());
    assert_eq!(fact.to_text(), "prop: true");
    assert!(!fact.is_instance());
    let instance = Fact::Instance(
        Class { module_id: 1, name: "Int".to_string() },
        Typeclass { module_id: 1, name: "Ring".to_string() },
        Source::mock(),
    );
    assert_eq!(instance.to_text(), "Int is an instance of Ring");
    let open = Fact::Definition(
        PotentialValue::Unresolved(3, "foo".to_string()),
        AcornValue::Bool(true),
        Source::mock(),
    );
    assert_eq!(open.to_text(), "definition: Unresolved(3, \"foo\")");
    let defined = Fact::Definition(
        PotentialValue::Resolved(AcornValue::Bool(true)),
        AcornValue::Bool(true),
        Source::mock(),
    );
    assert_eq!(defined.to_text(), "definition: Resolved(Bool(true))");
    assert!(instance.is_instance());
}

#[test]
fn a_constant_can_be_another_name() {
    let c = AcornValue::Constant(1, "Int.add".to_string(), AcornType::Bool, vec![]);
    let d = AcornValue::Constant(2, "plus".to_string(), AcornType::Bool, vec![]);
    let fact = Fact::Definition(PotentialValue::Resolved(c), d, Source::mock());
    let (instance, name, t) = fact.as_instance_alias().unwrap();
    assert_eq!(instance.name, "Int.add");
    assert_eq!(name.module_id, 2);
    assert_eq!(name.local_name, LocalName::Unqualified("plus".to_string()));
    assert_eq!(t, AcornType::Bool);
}

#[test]
fn local_names_have_texts() {
    assert_eq!(LocalName::Unqualified("foo".to_string()).to_text(), "foo");
    assert_eq!(LocalName::Attribute("Nat".to_string(), "add".to_string()).to_text(), "Nat.add");
    let ring = Typeclass { module_id: 1, name: "Ring".to_string() };
    assert_eq!(
        LocalName::Instance(ring, "add".to_string(), "Int".to_string()).to_text(),
        "Int.Ring.add"
    );
}

#[test]
fn lines_keep_their_types() {
    let mut lines = LineMap::new(0);
    lines.add_line_types(LineType::Node(0), 1, 2);
    lines.add_line_types(LineType::Other, 2, 4);
    assert_eq!(lines.get_line_type(0), Some(LineType::Empty));
    assert_eq!(lines.get_line_type(2), Some(LineType::Node(0)));
    assert_eq!(lines.get_line_type(4), Some(LineType::Other));
    assert_eq!(lines.get_line_type(5), None);
    assert_eq!(lines.next_line(), 5);
    assert!(!lines.covers_line(5));
}

#[test]
fn errors_point_at_tokens() {
    let tokens = Token::scan("let a: Bool");
    let e = Error::at(&tokens[1], "bad name");
    assert_eq!(e.to_text(), "bad name:\nlet a: Bool\n    ^\n");
    assert_eq!(e.range().start, Position { line: 0, character: 4 });
    assert_eq!(e.range().end, Position { line: 0, character: 5 });
    assert_eq!(tokens[0].text(), "let");
    assert!(Token::is_valid_variable_name("foo"));
    assert!(!Token::is_valid_variable_name("Foo"));
    assert!(Token::is_valid_type_name("Foo"));
}

#[test]
fn the_longest_token_wins() {
    let types: Vec<TokenType> = Token::scan("a <-> b -> c != d").iter().map(|t| t.token_type).collect();
    assert!(types.contains(&TokenType::LeftRightArrow));
    assert!(types.contains(&TokenType::RightArrow));
    assert!(types.contains(&TokenType::NotEquals));
}

#[test]
fn goals_are_found_by_their_lines() {
    let env = environment("let a: Bool = axiom\naxiom first { a }\ntheorem goal { a }\n");
    assert_eq!(env.goal_paths(), vec![vec![2]]);
    assert_eq!(env.get_path_for_line(2), Ok(vec![2]));
    assert!(env.get_path_for_line(0).is_err());
    assert!(env.covers_line(1));
    assert!(!env.covers_line(100));
    assert_eq!(env.get_facts().len(), 3);
    assert!(env.get_theorem_context("goal").is_some());
    assert!(env.get_theorem_context("other").is_none());
    assert!(env.check_lines());
    for path in env.goal_paths() {
        assert!(env.get_goal_context(&path).is_ok());
    }
}

#[test]
fn modules_can_be_imported() {
    let mut project = Project::new_mock();
    let mut other = Environment::new(FIRST_NORMAL + 1);
    other.add("type Nat: axiom\nlet zero: Nat = axiom").unwrap();
    project.add_module("nat", FIRST_NORMAL + 1, Some(other.bindings));
    let mut env = Environment::new_test();
    assert!(env.add_tokens(&project, Token::scan("from nat import Nat, zero\nlet a: Nat = zero")).is_ok());
    assert!(env.bindings.expect_type("a", "Nat"));
    assert!(env.add_tokens(&project, Token::scan("import missing")).is_err());
}

#[test]
fn texts_are_looked_up() {
    assert!(contains_text("abcabd", "abd"));
    assert!(contains_text("abc", ""));
    assert!(!contains_text("ab", "abc"));
    assert!(!contains_text("abab", "ba "));
    assert_eq!(decimal(0), "0");
    assert_eq!(decimal(1203), "1203");
}

#[test]
fn clauses_read_both_ways_of_writing_or() {
    assert_eq!(Clause::parse("not c0 or c1").to_text(), "not c0 or c1");
    assert_eq!(Clause::parse("not c0 | c1").to_text(), "not c0 or c1");
}

const NATURAL: &str = r#"
    type Nat: axiom
    let zero: Nat = axiom
    let suc: Nat -> Nat = axiom
    axiom injective(x: Nat, y: Nat) { suc(x) = suc(y) -> x = y }
    axiom different(x: Nat) { suc(x) != zero }
"#;

#[test]
fn what_has_a_model_is_not_refuted() {
    let goal = "theorem goal { suc(suc(zero)) = suc(zero) }";
    let outcome = prove(&format!("{}{}", NATURAL, goal), "goal");
    assert!(outcome != Outcome::Success && outcome != Outcome::Inconsistent);
    // With one more fact there is no model.
    let few = "axiom few(x: Nat) { x = zero or x = suc(zero) }\n";
    let outcome = prove(&format!("{}{}{}", NATURAL, few, goal), "goal");
    assert!(outcome == Outcome::Success || outcome == Outcome::Inconsistent);
}

#[test]
fn operators_can_be_reasoned_with() {
    let input = r#"
        type Nat: axiom
        class Nat {
            define add(self, other: Nat) -> Nat { axiom }
        }
        axiom comm(a: Nat, b: Nat) { a + b = b + a }
        theorem goal(a: Nat, b: Nat, c: Nat) { (a + b) + c = c.add(b + a) }
    "#;
    assert_eq!(prove(input, "goal"), Outcome::Success);
}

#[test]
fn test_bool_formulas() {
    let mut env = Environment::new_test();
    let mut norm = Normalizer::new();
    env.add("theorem one(a: Bool): a -> a | (a | a)").unwrap();
    let one = norm.normalize(env.get_theorem_claim("one").unwrap()).unwrap();
    assert_eq!(one.len(), 1);

    env.add("theorem two(a: Bool): a -> a & (a & a)").unwrap();
    let two = norm.normalize(env.get_theorem_claim("two").unwrap()).unwrap();
    assert_eq!(two.len(), 3);
    for clause in one.iter().chain(two.iter()) {
        assert_eq!(clause.to_text(), "not x0 or x0");
    }
}

#[test]
fn clauses_are_sets_of_literals() {
    let text = |s: &str| Clause::parse(s).to_text();
    assert_eq!(text("c0 = c1 or c2 != c3"), text("c2 != c3 or c0 = c1"));
    assert_eq!(text("c0 = c1 or c0 = c1 or c2 != c3"), text("c0 = c1 or c2 != c3"));
}

#[test]
fn types_read_back() {
    let mut env = environment("type Nat: axiom");
    assert!(env.bindings.assert_type_ok("Nat"));
    assert!(env.bindings.assert_type_ok("Nat -> Bool"));
    assert!(env.bindings.assert_type_ok("(Nat -> Bool, Nat, (Nat, Bool) -> Nat) -> Bool"));
    env.add("type Fun: Nat -> Bool").unwrap();
    assert!(env.bindings.assert_type_ok("(Fun, Nat) -> Fun"));
}

#[test]
fn bound_names_come_back_in_order() {
    let env = environment("type Nat: axiom");
    let mut tokens = TokenIter::new(Token::scan("(z: Nat, a: Bool, m: Nat)"));
    let stop = Stop::on(TokenType::NewLine);
    let (expression, _) = Expression::parse(&mut tokens, false, stop).unwrap();
    let declarations = expression.flatten_list(false).unwrap();
    let mut stack = Stack::new();
    let (names, _) =
        env.bindings.bind_args(&mut stack, &Project::new_mock(), &declarations).unwrap();
    assert_eq!(names, vec!["z", "a", "m"]);
    assert_eq!(stack.names(), vec!["z", "a", "m"]);
}

#[test]
fn goals_inside_a_block_come_first() {
    let env = environment(
        r#"
        let p: Bool = axiom
        theorem first { p } by {
            p = p
            p or not p
        }
        theorem second { p = p }
        "#,
    );
    let paths = env.goal_paths();
    let place = |path: &Vec<usize>| paths.iter().position(|p| p == path).unwrap();
    for (i, path) in paths.iter().enumerate() {
        for (j, other) in paths.iter().enumerate() {
            assert_eq!(i == j, path == other);
        }
        if path.len() > 1 {
            assert!(i < place(&path[..1].to_vec()));
        }
        assert!(env.get_goal_context(path).is_ok());
    }
    assert_eq!(paths.iter().filter(|p| p.len() == 2).count(), 2);
}

#[test]
fn tokens_that_start_no_statement_stay() {
    let mut tokens = TokenIter::new(Token::scan("\n\nelse { qux(x) }"));
    assert!(Statement::parse(&mut tokens, false).is_err());
    assert_eq!(tokens.peek_type(), Some(TokenType::Else));
    let mut tokens = TokenIter::new(Token::scan("if p {\n    q\n}\nlet a: Bool = p"));
    assert!(Statement::parse(&mut tokens, false).unwrap().0.is_some());
    assert_eq!(tokens.peek_type(), Some(TokenType::NewLine));
    assert_eq!(tokens.peek_past_newlines(), Some(TokenType::Let));
}
