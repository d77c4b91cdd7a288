//! Building environments from text.

use acorn::environment::Environment;
use acorn::expression::{Expression, Stop};
use acorn::project::Project;
use acorn::statement::Statement;
use acorn::token::{Token, TokenIter, TokenType};

fn add(env: &mut Environment, input: &str) {
    if let Err(e) = env.add(input) {
        panic!("error in:\n{}\n{}", input, e.to_text());
    }
}

// Expects the given line to be bad
fn bad(env: &mut Environment, input: &str) {
    if let Ok(Some(statement)) = Statement::parse_str(input) {
        assert!(
            env.add_statement(&Project::new_mock(), &statement).is_err(),
            "expected error in: {}",
            input
        );
    }
}

// Check that the given name actually does have this type in the environment.
fn expect_type(env: &Environment, name: &str, type_string: &str) {
    assert!(
        env.bindings.expect_type(name, type_string),
        "{} does not have the type {}",
        name,
        type_string
    );
}

// Check that the given name is defined to be this value
fn expect_def(env: &Environment, name: &str, value_string: &str) {
    let env_value = match env.bindings.get_definition(name) {
        Some(t) => t,
        None => panic!("{} not found in environment", name),
    };
    assert_eq!(env_value.to_text(), value_string);
}

// Assert that these two names are defined to equal the same thing
fn assert_def_eq(env: &Environment, name1: &str, name2: &str) {
    let def1 = env.bindings.get_definition(name1).unwrap();
    let def2 = env.bindings.get_definition(name2).unwrap();
    assert_eq!(def1, def2);
}

// Assert that these two names are defined to be different things
fn assert_def_ne(env: &Environment, name1: &str, name2: &str) {
    let def1 = env.bindings.get_definition(name1).unwrap();
    let def2 = env.bindings.get_definition(name2).unwrap();
    assert_ne!(def1, def2);
}

// Check that the code for the value of this code is the same code.
fn expect_good_code(env: &Environment, input: &str) {
    let mut tokens = TokenIter::new(Token::scan(input));
    let (expression, _) =
        Expression::parse(&mut tokens, true, Stop::on(TokenType::NewLine)).unwrap();
    let value = match env.bindings.evaluate_value(&Project::new_mock(), &expression, None) {
        Ok(v) => v,
        Err(e) => panic!("error in: {}\n{}", input, e.to_text()),
    };
    match env.bindings.value_to_code(&value) {
        Ok(code) => assert_eq!(code, input),
        Err(_) => panic!("no code for: {}", input),
    }
}

#[test]
fn test_fn_equality() {
    let mut env = Environment::new_test();
    add(&mut env, "define idb1(x: Bool) -> Bool { x }");
    expect_type(&env, "idb1", "Bool -> Bool");
    add(&mut env, "define idb2(y: Bool) -> Bool { y }");
    expect_type(&env, "idb2", "Bool -> Bool");
    assert_def_eq(&env, "idb1", "idb2");

    add(&mut env, "type Nat: axiom");
    add(&mut env, "define idn1(x: Nat) -> Nat { x }");
    expect_type(&env, "idn1", "Nat -> Nat");
    assert_def_ne(&env, "idb1", "idn1");
}

#[test]
fn test_forall_equality() {
    let mut env = Environment::new_test();
    add(&mut env, "let bsym1: Bool = forall(x: Bool) { x = x }");
    expect_type(&env, "bsym1", "Bool");
    add(&mut env, "let bsym2: Bool = forall(y: Bool) { y = y }");
    expect_type(&env, "bsym2", "Bool");
    assert_def_eq(&env, "bsym1", "bsym2");

    add(&mut env, "type Nat: axiom");
    add(&mut env, "let nsym1: Bool = forall(x: Nat) { x = x }");
    expect_type(&env, "nsym1", "Bool");
    assert_def_ne(&env, "bsym1", "nsym1");
}

#[test]
fn test_exists_equality() {
    let mut env = Environment::new_test();
    add(&mut env, "let bex1: Bool = exists(x: Bool) { x = x }");
    add(&mut env, "let bex2: Bool = exists(y: Bool) { y = y }");
    assert_def_eq(&env, "bex1", "bex2");

    add(&mut env, "type Nat: axiom");
    add(&mut env, "let nex1: Bool = exists(x: Nat) { x = x }");
    assert_def_ne(&env, "bex1", "nex1");
}

#[test]
fn test_arg_binding() {
    let mut env = Environment::new_test();
    bad(&mut env, "define qux(x: Bool, x: Bool) -> Bool { x }");
    assert!(!env.bindings.has_identifier("x"));
    add(&mut env, "define qux(x: Bool, y: Bool) -> Bool { x }");
    expect_type(&env, "qux", "(Bool, Bool) -> Bool");

    bad(&mut env, "theorem foo(x: Bool, x: Bool) { x }");
    assert!(!env.bindings.has_identifier("x"));
    add(&mut env, "theorem foo(x: Bool, y: Bool) { x }");
    expect_type(&env, "foo", "(Bool, Bool) -> Bool");

    bad(&mut env, "let bar: Bool = forall(x: Bool, x: Bool) { x = x }");
    assert!(!env.bindings.has_identifier("x"));
    add(&mut env, "let bar: Bool = forall(x: Bool, y: Bool) { x = x }");

    bad(&mut env, "let baz: Bool = exists(x: Bool, x: Bool) { x = x }");
    assert!(!env.bindings.has_identifier("x"));
    add(&mut env, "let baz: Bool = exists(x: Bool, y: Bool) { x = x }");
}

#[test]
fn test_no_double_grouped_arg_list() {
    let mut env = Environment::new_test();
    add(&mut env, "define foo(x: Bool, y: Bool) -> Bool { x }");
    add(&mut env, "let b: Bool = axiom");
    bad(&mut env, "foo((b, b))");
}

#[test]
fn test_argless_theorem() {
    let mut env = Environment::new_test();
    add(&mut env, "let b: Bool = axiom");
    add(&mut env, "theorem foo { b or not b }");
    expect_def(&env, "foo", "(b or not b)");
}

#[test]
fn test_forall_value() {
    let mut env = Environment::new_test();
    add(&mut env, "let p: Bool = forall(x: Bool) { x or not x }");
    expect_def(&env, "p", "forall(x0: Bool) { (x0 or not x0) }");
}

#[test]
fn test_inline_function_value() {
    let mut env = Environment::new_test();
    add(&mut env, "define ander(a: Bool) -> (Bool -> Bool) { function(b: Bool) { a and b } }");
    expect_def(&env, "ander",
        "function(x0: Bool) { function(x1: Bool) { (x0 and x1) } }",
    );
}

#[test]
fn test_empty_if_block() {
    let mut env = Environment::new_test();
    add(&mut env, "let b: Bool = axiom");
    add(&mut env, "if b {}");
}

#[test]
fn test_empty_forall_statement() {
    // Allowed as statement but not as an expression.
    let mut env = Environment::new_test();
    add(&mut env, "forall(b: Bool) {}");
}

#[test]
fn test_nat_ac_piecewise() {
    let mut env = Environment::new_test();
    add(&mut env, "type Nat: axiom");
    add(&mut env, "let zero: Nat = axiom");
    add(&mut env, "let suc: Nat -> Nat = axiom");
    add(&mut env, "let one: Nat = suc(zero)");
    expect_def(&env, "one", "suc(zero)");

    add(&mut env, "axiom suc_injective(x: Nat, y: Nat) { suc(x) = suc(y) -> x = y }");
    expect_type(&env, "suc_injective", "(Nat, Nat) -> Bool");
    expect_def(&env, "suc_injective",
        "function(x0: Nat, x1: Nat) { ((suc(x0) = suc(x1)) -> (x0 = x1)) }",
    );

    add(&mut env, "axiom suc_neq_zero(x: Nat) { suc(x) != zero }");
    expect_def(&env, "suc_neq_zero", "function(x0: Nat) { (suc(x0) != zero) }");

    assert!(env.bindings.has_type_name("Nat"));
    assert!(!env.bindings.has_identifier("Nat"));

    assert!(!env.bindings.has_type_name("zero"));
    assert!(env.bindings.has_identifier("zero"));

    assert!(!env.bindings.has_type_name("one"));
    assert!(env.bindings.has_identifier("one"));

    assert!(!env.bindings.has_type_name("suc"));
    assert!(env.bindings.has_identifier("suc"));

    assert!(!env.bindings.has_type_name("foo"));
    assert!(!env.bindings.has_identifier("foo"));

    add(&mut env, "axiom induction(f: Nat -> Bool, n: Nat) {
        f(zero) and forall(k: Nat) { f(k) -> f(suc(k)) } -> f(n) }",
    );
    expect_def(&env, "induction", "function(x0: Nat -> Bool, x1: Nat) { ((x0(zero) and forall(x2: Nat) { (x0(x2) -> x0(suc(x2))) }) -> x0(x1)) }");

    add(&mut env, "define recursion(f: Nat -> Nat, a: Nat, n: Nat) -> Nat { axiom }");
    expect_type(&env, "recursion", "(Nat -> Nat, Nat, Nat) -> Nat");

    add(&mut env, "axiom recursion_base(f: Nat -> Nat, a: Nat) { recursion(f, a, zero) = a }");
    add(&mut env, "axiom recursion_step(f: Nat -> Nat, a: Nat, n: Nat) {
        recursion(f, a, suc(n)) = f(recursion(f, a, n)) }",
    );

    add(&mut env, "define add(a: Nat, b: Nat) -> Nat { recursion(suc, a, b) }");
    expect_type(&env, "add", "(Nat, Nat) -> Nat");

    add(&mut env, "theorem add_zero_right(a: Nat) { add(a, zero) = a }");
    add(&mut env, "theorem add_zero_left(a: Nat) { add(zero, a) = a }");
    add(&mut env, "theorem add_suc_right(a: Nat, b: Nat) { add(a, suc(b)) = suc(add(a, b)) }");
    add(&mut env, "theorem add_suc_left(a: Nat, b: Nat) { add(suc(a), b) = suc(add(a, b)) }");
    add(&mut env, "theorem add_comm(a: Nat, b: Nat) { add(a, b) = add(b, a) }");
    add(&mut env, "theorem add_assoc(a: Nat, b: Nat, c: Nat) { add(add(a, b), c) = add(a, add(b, c)) }",
    );
    add(&mut env, "theorem not_suc_eq_zero(x: Nat) { not (suc(x) = zero) }");
}

#[test]
fn test_nat_ac_together() {
    let mut env = Environment::new_test();
    add(
        &mut env,
        r#"
// The axioms of Peano arithmetic.
        
type Nat: axiom

let zero: Nat = axiom

let suc: Nat -> Nat = axiom
let one: Nat = suc(zero)

axiom suc_injective(x: Nat, y: Nat) { suc(x) = suc(y) -> x = y }

axiom suc_neq_zero(x: Nat) { suc(x) != zero }

axiom induction(f: Nat -> Bool) { f(zero) and forall(k: Nat) { f(k) -> f(suc(k)) } -> forall(n: Nat) { f(n) } }

// The old version. In the modern codebase these are parametric.
define recursion(f: Nat -> Nat, a: Nat, n: Nat) -> Nat { axiom }
axiom recursion_base(f: Nat -> Nat, a: Nat) { recursion(f, a, zero) = a }
axiom recursion_step(f: Nat -> Nat, a: Nat, n: Nat) { recursion(f, a, suc(n)) = f(recursion(f, a, n)) }

define add(a: Nat, b: Nat) -> Nat { recursion(suc, a, b) }

// Now let's have some theorems.

theorem add_zero_right(a: Nat) { add(a, zero) = a }

theorem add_zero_left(a: Nat) { add(zero, a) = a }

theorem add_suc_right(a: Nat, b: Nat) { add(a, suc(b)) = suc(add(a, b)) }

theorem add_suc_left(a: Nat, b: Nat) { add(suc(a), b) = suc(add(a, b)) }

theorem add_comm(a: Nat, b: Nat) { add(a, b) = add(b, a) }

theorem add_assoc(a: Nat, b: Nat, c: Nat) { add(add(a, b), c) = add(a, add(b, c)) }
"#,
    );
}

#[test]
fn test_names_in_subenvs() {
    let mut env = Environment::new_test();
    add(
        &mut env,
        r#"
            type Nat: axiom
            theorem foo(a: Nat, b: Nat) { a = b } by {
                let c: Nat = a
                define d(e: Nat) -> Bool { foo(e, b) }
            }
            "#,
    );
    assert!(env.check_lines());
}

#[test]
fn test_forall_subenv() {
    let mut env = Environment::new_test();
    add(
        &mut env,
        r#"
            type Nat: axiom
            forall(x: Nat) {
                x = x
            }
            "#,
    );
}

#[test]
fn test_if_subenv() {
    let mut env = Environment::new_test();
    add(
        &mut env,
        r#"
            type Nat: axiom
            let zero: Nat = axiom
            if zero = zero {
                zero = zero
            }
            "#,
    )
}

#[test]
fn test_let_satisfy_exports_names() {
    let mut env = Environment::new_test();
    add(
        &mut env,
        r#"
            type Nat: axiom
            define foo(x: Nat) -> Bool { axiom }
            theorem goal { true } by {
                let z: Nat satisfy { foo(z) }
                foo(z)
            }
        "#,
    );
}

#[test]
fn test_environment_with_function_satisfy() {
    let mut env = Environment::new_test();
    add(
        &mut env,
        r#"
            type Nat: axiom
            let flip(a: Bool) -> b: Bool satisfy {
                a != b
            }
        "#,
    );
}

#[test]
fn test_if_block_ending_with_exists() {
    let mut env = Environment::new_test();
    add(
        &mut env,
        r#"
            let a: Bool = axiom
            theorem goal { a } by {
                if a {
                    exists(b: Bool) { b = b }
                }
            }
            "#,
    );
    for path in env.goal_paths() {
        env.get_goal_context(&path).unwrap();
    }
}

#[test]
fn test_forall_block_ending_with_exists() {
    let mut env = Environment::new_test();
    add(
        &mut env,
        r#"
            let a: Bool = axiom
            theorem goal { a } by {
                forall(b: Bool) {
                    exists(c: Bool) { c = c }
                }
            }
            "#,
    );
    for path in env.goal_paths() {
        env.get_goal_context(&path).unwrap();
    }
}

#[test]
fn test_structure_new_definition() {
    let mut env = Environment::new_test();
    add(
        &mut env,
        r#"
        structure BoolPair {
            first: Bool
            second: Bool
        }
        theorem goal(p: BoolPair) {
            p = BoolPair.new(BoolPair.first(p), BoolPair.second(p))
        }
        "#,
    );
}

#[test]
fn test_structure_cant_contain_itself() {
    // If you want a type to contain itself, it has to be inductive, not a structure.
    let mut env = Environment::new_test();
    bad(
        &mut env,
        r#"
        structure InfiniteBools {
            head: Bool
            tail: InfiniteBools
        }
        "#,
    );
}

#[test]
fn test_inductive_new_definition() {
    let mut env = Environment::new_test();
    add(
        &mut env,
        r#"
        inductive Nat {
            zero
            suc(Nat)
        }
        theorem goal(n: Nat) {
            n = Nat.zero or exists(k: Nat) { n = Nat.suc(k) }
        }
        "#,
    );
}

#[test]
fn test_inductive_statements_must_have_base_case() {
    let mut env = Environment::new_test();
    bad(
        &mut env,
        r#"
        inductive Nat {
            suc(Nat)
        }"#,
    );
}

#[test]
fn test_no_russell_paradox() {
    let mut env = Environment::new_test();
    bad(
        &mut env,
        r#"
        structure NaiveSet {
            set: NaiveSet -> Bool 
        }
        "#,
    );
}

#[test]
fn test_parametric_types_required_in_function_args() {
    let mut env = Environment::new_test();
    bad(&mut env, "define foo<T>(a: Bool) -> Bool { a }");
}

#[test]
fn test_parametric_types_required_in_theorem_args() {
    let mut env = Environment::new_test();
    bad(&mut env, "theorem foo<T>(a: Bool) { a or not a }");
}

#[test]
fn test_template_typechecking() {
    let mut env = Environment::new_test();
    add(&mut env, "type Nat: axiom");
    add(&mut env, "let zero: Nat = axiom");
    add(&mut env, "define eq<T>(a: T, b: T) -> Bool { a = b }");
    add(&mut env, "theorem t1 { eq(zero, zero) }");
    add(&mut env, "theorem t2 { eq(zero = zero, zero = zero) }");
    add(&mut env, "theorem t3 { eq(zero = zero, eq(zero, zero)) }");
    bad(&mut env, "theorem t4 { eq(zero, zero = zero) }");
    bad(&mut env, "theorem t5 { zero = eq(zero, zero) }");
}

#[test]
fn test_type_params_cleaned_up() {
    let mut env = Environment::new_test();
    add(&mut env, "define foo<T>(a: T) -> Bool { axiom }");
    assert!(env.bindings.get_type_for_name("T").is_none());
}

#[test]
fn test_if_condition_must_be_bool() {
    let mut env = Environment::new_test();
    add(&mut env, "type Nat: axiom");
    add(&mut env, "let zero: Nat = axiom");
    add(&mut env, "let b: Bool = axiom");
    add(&mut env, "if b { zero = zero }");
    bad(&mut env, "if zero { zero = zero }");
}

#[test]
fn test_reusing_type_name_as_var_name() {
    let mut env = Environment::new_test();
    add(&mut env, "type Nat: axiom");
    bad(&mut env, "let Nat: Bool = axiom");
}

#[test]
fn test_reusing_var_name_as_type_name() {
    let mut env = Environment::new_test();
    add(&mut env, "let x: Bool = axiom");
    bad(&mut env, "type x: axiom");
}

#[test]
fn test_reusing_type_name_as_fn_name() {
    let mut env = Environment::new_test();
    add(&mut env, "type Nat: axiom");
    bad(&mut env, "define Nat(x: Bool) -> Bool { x }");
}

#[test]
fn test_reusing_type_name_as_theorem_name() {
    let mut env = Environment::new_test();
    add(&mut env, "type Nat: axiom");
    bad(&mut env, "theorem Nat(x: Bool): x = x");
}

#[test]
fn test_reusing_type_name_as_exists_arg() {
    let mut env = Environment::new_test();
    add(&mut env, "type Nat: axiom");
    bad(&mut env, "let b: Bool = exists(x: Bool, Nat: Bool) { x = x }");
}

#[test]
fn test_reusing_type_name_as_forall_arg() {
    let mut env = Environment::new_test();
    add(&mut env, "type Nat: axiom");
    bad(&mut env, "let b: Bool = forall(x: Bool, Nat: Bool) { x = x }");
}

#[test]
fn test_reusing_type_name_as_lambda_arg() {
    let mut env = Environment::new_test();
    add(&mut env, "type Nat: axiom");
    bad(&mut env, "let f: (bool, bool) -> Bool = function(x: Bool, Nat: Bool) { x = x }");
}

#[test]
fn test_parsing_true_false_keywords() {
    let mut env = Environment::new_test();
    add(&mut env, "let b: Bool = true or false");
}

#[test]
fn test_nothing_after_explicit_false() {
    let mut env = Environment::new_test();
    add(&mut env, "let b: Bool = axiom");
    bad(
        &mut env,
        r#"
            if b = not b {
                false
                b
            }
        "#,
    );
}

#[test]
fn test_condition_must_be_valid() {
    let mut env = Environment::new_test();
    bad(
        &mut env,
        r#"
            if a {
            }
        "#,
    );
}

#[test]
fn test_inline_function_in_forall_block() {
    let mut env = Environment::new_test();
    add(&mut env, "type Nat: axiom");
    add(&mut env, "let zero: Nat = axiom");
    add(&mut env, "let suc: Nat -> Nat = axiom");
    add(
        &mut env,
        r#"
            axiom induction(f: Nat -> Bool) {
                f(zero) and forall(k: Nat) { f(k) -> f(suc(k)) } -> forall(n: Nat) { f(n) }
            }
            "#,
    );
    add(
        &mut env,
        r#"
            forall(f: (Nat, Bool) -> Bool) {
                induction(function(x: Nat) { f(x, true) })
            }
        "#,
    );
}

#[test]
fn test_structs_must_be_capitalized() {
    let mut env = Environment::new_test();
    bad(
        &mut env,
        r#"
            struct foo {
                bar: Bool
            }
        "#,
    );
}

#[test]
fn test_axiomatic_types_must_be_capitalized() {
    let mut env = Environment::new_test();
    bad(&mut env, "type foo: axiom");
}

#[test]
fn test_functional_definition_typechecking() {
    let mut env = Environment::new_test();
    add(&mut env, "type Nat: axiom");
    bad(&mut env, "define foo(f: Nat -> Nat) -> Bool { function(x: Nat) { true } }");
}

#[test]
fn test_partial_application() {
    let mut env = Environment::new_test();
    add(&mut env, "type Nat: axiom");
    add(&mut env, "let zero: Nat = axiom");
    add(&mut env, "define add3(a: Nat, b: Nat, c: Nat) -> Nat { axiom }");
    add(&mut env, "let add0: (Nat, Nat) -> Nat = add3(zero)");
    add(&mut env, "let add00: Nat -> Nat = add3(zero, zero)");
    add(&mut env, "let add00_alt: Nat -> Nat = add0(zero)");
}

#[test]
fn test_else_on_new_line() {
    // This is ugly but it should work.
    let mut env = Environment::new_test();
    add(
        &mut env,
        r#"
        let b: Bool = axiom
        if b {
            b
        }
        else {
            not b
        }
        "#,
    );
}

#[test]
fn test_arg_names_lowercased() {
    let mut env = Environment::new_test();
    bad(&mut env, "let f: Bool -> Bool = function(A: Bool) { true }");
    add(&mut env, "let f: Bool -> Bool = function(a: Bool) { true }");
    bad(&mut env, "forall(A: Bool) { true }");
    add(&mut env, "forall(a: Bool) { true }");
    bad(&mut env, "define foo(X: Bool) -> Bool { true }");
    add(&mut env, "define foo(x: Bool) -> Bool { true }");
    bad(&mut env, "theorem bar(X: Bool) { true }");
    add(&mut env, "theorem bar(x: Bool) { true }");
}

#[test]
fn test_undefined_class_name() {
    let mut env = Environment::new_test();
    bad(&mut env, "class Foo {}");
}

#[test]
fn test_class_variables() {
    let mut env = Environment::new_test();
    add(
        &mut env,
        r#"
            type Nat: axiom
            class Nat {
                let zero: Nat = axiom
                let 1: Nat = axiom
            }

            axiom zero_neq_one(x: Nat) { Nat.zero = Nat.1 }
        "#,
    );

    // Class variables shouldn't get bound at module scope
    bad(&mut env, "let alsozero: Nat = zero");
}

#[test]
fn test_instance_methods() {
    let mut env = Environment::new_test();
    add(
        &mut env,
        r#"
            type Nat: axiom
            class Nat {
                define add(self, other: Nat) -> Nat { axiom }
            }
        "#,
    );
}

#[test]
fn test_no_methods_on_type_aliases() {
    let mut env = Environment::new_test();
    add(&mut env, "type Nat: axiom");
    add(&mut env, "type NatFn: Nat -> Nat");
    bad(&mut env, "class NatFn {}");
}

#[test]
fn test_first_arg_must_be_self() {
    let mut env = Environment::new_test();
    add(&mut env, "type Nat: axiom");
    bad(
        &mut env,
        r#"
            class Nat {
                define add(a: Nat, b: Nat) -> Nat { axiom }
            }
            "#,
    );
}

#[test]
fn test_no_self_variables() {
    let mut env = Environment::new_test();
    add(&mut env, "type Nat: axiom");
    bad(&mut env, "let foo: Bool = exists(self) { true }");
    bad(&mut env, "let foo: Bool = forall(self) { true }");
    bad(&mut env, "let self: Nat = axiom");
}

#[test]
fn test_no_self_args_outside_class() {
    let mut env = Environment::new_test();
    add(&mut env, "type Nat: axiom");
    bad(&mut env, "define foo(self) -> Bool { true }");
}

#[test]
fn test_no_self_as_forall_arg() {
    let mut env = Environment::new_test();
    add(&mut env, "type Nat: axiom");
    bad(&mut env, "forall(self) { true }");
}

#[test]
fn test_no_self_as_exists_arg() {
    let mut env = Environment::new_test();
    add(&mut env, "type Nat: axiom");
    bad(&mut env, "exists(self) { true }");
}

#[test]
fn test_no_self_as_lambda_arg() {
    let mut env = Environment::new_test();
    add(&mut env, "type Nat: axiom");
    bad(&mut env, "let f: Nat -> Bool = lambda(self) { true }");
}

#[test]
fn test_self_must_have_correct_type() {
    let mut env = Environment::new_test();
    add(&mut env, "type Nat: axiom");
    bad(
        &mut env,
        r#"
            class Nat {
                define add(self: Bool, other: Nat) -> Nat { axiom }
            }
        "#,
    );
}

#[test]
fn test_no_dot_new() {
    let mut env = Environment::new_test();
    add(
        &mut env,
        r#"
            type Nat: axiom
            structure NatPair {
                first: Nat
                second: Nat
            }
        "#,
    );
    bad(&mut env, "theorem goal(p: NatPair): p.new = p.new");
}

#[test]
fn test_no_defining_new() {
    let mut env = Environment::new_test();
    add(&mut env, "type Nat: axiom");
    bad(
        &mut env,
        r#"
            class Nat {
                define new(self: Bool, other: Nat) -> Bool { true }
            }
        "#,
    );
}

#[test]
fn test_no_using_methods_with_mismatched_self() {
    let mut env = Environment::new_test();
    add(
        &mut env,
        r#"
            type Nat: axiom
            let zero: Nat = axiom
            class Nat {
                let foo: Bool -> Bool = function(b: Bool) { b }
            }
        "#,
    );
    bad(&mut env, "theorem goal: zero.foo(true)");
}

#[test]
fn test_no_magic_names_for_constants() {
    let mut env = Environment::new_test();
    add(&mut env, "type Nat: axiom");
    bad(
        &mut env,
        r#"
            class Nat {
                let add: Nat = axiom
            }
        "#,
    );
}

#[test]
fn test_no_magic_names_for_struct_fields() {
    let mut env = Environment::new_test();
    bad(
        &mut env,
        r#"
            struct MyStruct {
                add: Bool
            }
        "#,
    );
}

#[test]
fn test_numerals_statement() {
    let mut env = Environment::new_test();
    add(&mut env, "type Foo: axiom");
    add(&mut env, "numerals Foo");
    bad(&mut env, "numerals Bar");
    bad(&mut env, "numerals Bool");
    bad(&mut env, "numerals Foo -> Foo");
}

#[test]
fn test_no_defining_top_level_numbers() {
    let mut env = Environment::new_test();
    add(&mut env, "type Nat: axiom");
    bad(&mut env, "let 0: Nat = axiom");
}

#[test]
fn test_no_top_level_numbers_without_a_numerals() {
    let mut env = Environment::new_test();
    bad(&mut env, "let foo: Bool = (0 = 0)");
}

#[test]
fn test_digits_must_be_correct_type() {
    let mut env = Environment::new_test();
    add(&mut env, "type Nat: axiom");
    bad(
        &mut env,
        r#"
            class Nat {
                let 1: Bool = axiom
            }
        "#,
    );
}

#[test]
fn test_read_must_have_correct_args() {
    let mut env = Environment::new_test();
    add(&mut env, "type Nat: axiom");
    bad(
        &mut env,
        r#"
            class Nat {
                let 1: Nat = axiom
                define suc(self) -> Nat: axiom
                define read(self, digit: Bool) -> Nat: Nat.1
            }
        "#,
    );
}

#[test]
fn test_read_must_return_correct_type() {
    let mut env = Environment::new_test();
    add(&mut env, "type Nat: axiom");
    bad(
        &mut env,
        r#"
            class Nat {
                let 1: Nat = axiom
                define suc(self) -> Nat: axiom
                define read(self, digit: Nat) -> Bool: true
            }
        "#,
    );
}

#[test]
fn test_root_level_solve() {
    let mut env = Environment::new_test();
    add(
        &mut env,
        r#"
            let b: Bool = true or false
            solve b by {
                b = true
            }
            "#,
    );
}

#[test]
fn test_nested_solve() {
    let mut env = Environment::new_test();
    add(
        &mut env,
        r#"
            let b: Bool = true or false
            if b or b {
                solve b by {
                    b = true
                }
            }
            "#,
    );
}

#[test]
fn test_infix_solve() {
    let mut env = Environment::new_test();
    add(
        &mut env,
        r#"
            let b: Bool = true or false
            solve b or b by {
                b or b = b
            }
            "#,
    );
}

#[test]
fn test_solve_block_has_a_goal_path() {
    let mut env = Environment::new_test();
    add(
        &mut env,
        r#"
            let b: Bool = true or false
            solve b by {
            }
            "#,
    );
    let goal_paths = env.goal_paths();
    assert_eq!(goal_paths.len(), 1);
}

#[test]
fn test_basic_problem_statement() {
    let mut env = Environment::new_test();
    add(
        &mut env,
        r#"
            problem {
                let b: Bool = true or false
                solve b by {
                }
            }
            "#,
    );
}

#[test]
fn test_inductive_constructor_can_be_member() {
    let mut env = Environment::new_test();
    add(
        &mut env,
        r#"
    inductive Nat {
        zero
        suc(Nat)
    }
    theorem goal(n: Nat) {
        n = Nat.zero or exists(k: Nat) { n = k.suc }
    }
    "#,
    );
}

#[test]
fn test_using_member_function() {
    let mut env = Environment::new_test();
    add(
        &mut env,
        r#"
        type Nat: axiom
        class Nat {
            define add(self, other: Nat) -> Nat { axiom }
        }
        theorem goal(a: Nat, b: Nat) {
            a.add(b) = b.add(a)
        }
    "#,
    );
}

#[test]
fn test_infix_add() {
    let mut env = Environment::new_test();
    add(
        &mut env,
        r#"
        type Nat: axiom
        class Nat {
            define add(self, other: Nat) -> Nat { axiom }
        }
        theorem goal(a: Nat, b: Nat) { a + b = b + a }
    "#,
    );
}

#[test]
fn test_infix_sub() {
    let mut env = Environment::new_test();
    add(
        &mut env,
        r#"
        type Nat: axiom
        class Nat {
            define sub(self, other: Nat) -> Nat { axiom }
        }
        theorem goal(a: Nat, b: Nat) { a - b = b - a }
    "#,
    );
}

#[test]
fn test_infix_mul() {
    let mut env = Environment::new_test();
    add(
        &mut env,
        r#"
        type Nat: axiom
        class Nat {
            define mul(self, other: Nat) -> Nat { axiom }
        }
        theorem goal(a: Nat, b: Nat) { a * b = b * a }
    "#,
    );
}

#[test]
fn test_infix_div() {
    let mut env = Environment::new_test();
    add(
        &mut env,
        r#"
        type Nat: axiom
        class Nat {
            define div(self, other: Nat) -> Nat { axiom }
        }
        theorem goal(a: Nat, b: Nat) { a / b = b / a }
    "#,
    );
}

#[test]
fn test_infix_mod() {
    let mut env = Environment::new_test();
    add(
        &mut env,
        r#"
        type Nat: axiom
        class Nat {
            define mod(self, other: Nat) -> Nat { axiom }
        }
        theorem goal(a: Nat, b: Nat) { a % b = b % a }
    "#,
    );
}

#[test]
fn test_infix_lt() {
    let mut env = Environment::new_test();
    add(
        &mut env,
        r#"
        type Nat: axiom
        class Nat {
            define lt(self, other: Nat) -> Bool { axiom }
        }
        theorem goal(a: Nat, b: Nat) { a < b = b < a }
    "#,
    );
}

#[test]
fn test_infix_gt() {
    let mut env = Environment::new_test();
    add(
        &mut env,
        r#"
        type Nat: axiom
        class Nat {
            define gt(self, other: Nat) -> Bool { axiom }
        }
        theorem goal(a: Nat, b: Nat) { a > b = b > a }
    "#,
    );
}

#[test]
fn test_infix_lte() {
    let mut env = Environment::new_test();
    add(
        &mut env,
        r#"
        type Nat: axiom
        class Nat {
            define lte(self, other: Nat) -> Bool { axiom }
        }
        theorem goal(a: Nat, b: Nat) { a <= b = b <= a }
    "#,
    );
}

#[test]
fn test_infix_gte() {
    let mut env = Environment::new_test();
    add(
        &mut env,
        r#"
        type Nat: axiom
        class Nat {
            define gte(self, other: Nat) -> Bool { axiom }
        }
        theorem goal(a: Nat, b: Nat) { a >= b = b >= a }
    "#,
    );
}

#[test]
fn test_infix_codegen() {
    let mut env = Environment::new_test();
    add(
        &mut env,
        r#"
        type Nat: axiom
        class Nat {
            define add(self, other: Nat) -> Nat { axiom }
            define sub(self, other: Nat) -> Nat { axiom }
            define mul(self, other: Nat) -> Nat { axiom }
            define div(self, other: Nat) -> Nat { axiom }
            define mod(self, other: Nat) -> Nat { axiom }
            define lt(self, other: Nat) -> Bool { axiom }
            define gt(self, other: Nat) -> Bool { axiom }
            define lte(self, other: Nat) -> Bool { axiom }
            define gte(self, other: Nat) -> Bool { axiom }
            define suc(self) -> Nat { axiom }
            define foo(self, other: Nat) -> Nat { axiom }
            let 0: Nat = axiom
            let 1: Nat = axiom
        }
        numerals Nat
    "#,
    );
    expect_good_code(&env, "0 + 1");
    expect_good_code(&env, "0 - 1");
    expect_good_code(&env, "0 * 1");
    expect_good_code(&env, "0 / 1");
    expect_good_code(&env, "0 % 1");
    expect_good_code(&env, "0 < 1");
    expect_good_code(&env, "0 > 1");
    expect_good_code(&env, "0 <= 1");
    expect_good_code(&env, "0 >= 1");
    expect_good_code(&env, "0 + 0 * 0");
    expect_good_code(&env, "(0 + 0) * 0");
    expect_good_code(&env, "0 + 0 + 0");
    expect_good_code(&env, "1 - (1 - 1)");
    expect_good_code(&env, "(0 + 1).suc = 1 + 1");
    expect_good_code(&env, "1 + 1 * 1");
    expect_good_code(&env, "0.suc = 1");
    expect_good_code(&env, "0.foo(1)");
}

#[test]
fn test_multi_digit_unary() {
    let mut env = Environment::new_test();
    add(&mut env, "type Unary: axiom");
    add(
        &mut env,
        r#"
        class Unary {
            let 1: Unary = axiom 
            define suc(self) -> Unary { axiom }
            define read(self, digit: Unary) -> Unary { self.suc }
        }
    "#,
    );
    add(&mut env, "numerals Unary");
    add(&mut env, "let two: Unary = 11");
}

#[test]
fn test_numeric_literal_codegen() {
    let mut env = Environment::new_test();
    add(
        &mut env,
        r#"
        type Nat: axiom
        class Nat {
            let 0: Nat = axiom
            define suc(self) -> Nat { axiom }
            let 1: Nat = Nat.0.suc
            let 2: Nat = Nat.1.suc
            let 3: Nat = Nat.2.suc
            let 4: Nat = Nat.3.suc
            let 5: Nat = Nat.4.suc
            let 6: Nat = Nat.5.suc
            let 7: Nat = Nat.6.suc
            let 8: Nat = Nat.7.suc
            let 9: Nat = Nat.8.suc
            let 10: Nat = Nat.9.suc
            define read(self, other: Nat) -> Nat { axiom }
            define add(self, other: Nat) -> Nat { axiom }
        }
        numerals Nat
    "#,
    );
    expect_good_code(&env, "7");
    expect_good_code(&env, "10");
    expect_good_code(&env, "12");
    expect_good_code(&env, "123 + 456");
}

#[test]
fn test_non_default_numeric_literals() {
    let mut env = Environment::new_test();
    add(
        &mut env,
        r#"
        type Nat: axiom
        class Nat {
            let 0: Nat = axiom
            define suc(self) -> Nat { axiom }
            let 1: Nat = Nat.0.suc
            let 2: Nat = Nat.1.suc
            let 3: Nat = Nat.2.suc
            let 4: Nat = Nat.3.suc
            let 5: Nat = Nat.4.suc
            let 6: Nat = Nat.5.suc
            let 7: Nat = Nat.6.suc
            let 8: Nat = Nat.7.suc
            let 9: Nat = Nat.8.suc
            let 10: Nat = Nat.9.suc
            define read(self, other: Nat) -> Nat { axiom }
            define add(self, other: Nat) -> Nat { axiom }
        }
    "#,
    );
    expect_good_code(&env, "Nat.7");
    expect_good_code(&env, "Nat.10");
    expect_good_code(&env, "Nat.12");
    expect_good_code(&env, "Nat.123 + Nat.456");
}

#[test]
fn members_of_values_take_the_value_first() {
    let mut env = Environment::new_test();
    add(
        &mut env,
        r#"
        type Nat: axiom
        class Nat {
            define add(self, other: Nat) -> Nat { axiom }
            define flag(self) -> Bool { axiom }
            let 0: Nat = axiom
        }
        let zero: Nat = Nat.0
        let inf: Nat = zero + zero
        let dot: Nat -> Nat = zero.add
        "#,
    );
    expect_def(&env, "inf", "Nat.add(zero, zero)");
    expect_def(&env, "dot", "Nat.add(zero)");
    // There is no such member, and the operands have to fit.
    bad(&mut env, "let two: Nat = zero * zero");
    bad(&mut env, "let three: Nat = zero + true");
    bad(&mut env, "let four: Nat = zero.flag");
    bad(&mut env, "let five: Nat = missing.flag");
    bad(&mut env, "let six: Bool = true.flag");
    // Numerals need a type, and digits need a name.
    bad(&mut env, "let seven: Nat = 0");
    bad(&mut env, "let eight: Nat = Nat.00");
    add(&mut env, "numerals Nat");
    add(&mut env, "let nine: Nat = 0");
    expect_def(&env, "nine", "Nat.0");
    bad(&mut env, "let ten: Nat = 7");
    expect_good_code(&env, "0 + zero");
    expect_good_code(&env, "zero.add(0).flag");
}

#[test]
fn quantifiers_are_typechecked() {
    let mut env = Environment::new_test();
    add(&mut env, "type Nat: axiom");
    bad(&mut env, "let a: Nat = forall(x: Bool) { x }");
    bad(&mut env, "let b: Nat = exists(x: Bool) { x }");
    bad(&mut env, "let c: Nat = if true { forall(x: Bool) { x } } else { false }");
    add(&mut env, "let d: Bool = forall(x: Bool) { x }");
    add(&mut env, "let f: Bool = exists(x: Bool) { x }");
}
