//! Reading statements, and writing them again.

use acorn::statement::Statement;

fn should_parse(input: &str) -> Statement {
    match Statement::parse_str(input) {
        Ok(Some(statement)) => statement,
        Ok(None) => panic!("no statement in {}", input),
        Err(e) => panic!("failed to parse {}: {}", input, e.to_text()),
    }
}

fn ok(input: &str) {
    let statement = should_parse(input);
    assert_eq!(input, statement.to_text());
}

// Expects an error parsing the input into a statement, but not a lex error
fn fail(input: &str) {
    if Statement::parse_str(input).is_ok() {
        panic!("statement parsed okay but we expected error:\n{}\n", input);
    }
}

#[test]
fn test_definition_statements() {
    ok("let a: int = x + 2");
    ok("let f: int -> bool = compose(g, h)");
    ok("let f: int -> int = x -> x + 1");
    ok("let g: (int, int, int) -> bool = swap(h)");
    ok("define or(p: bool, q: bool) -> bool: (!p -> q)");
    ok("define and(p: bool, q: bool) -> bool: !(p -> !q)");
    ok("define iff(p: bool, q: bool) -> bool: (p -> q) & (q -> p)");
}

#[test]
fn test_theorem_statements() {
    ok("axiom simplification: p -> (q -> p)");
    ok("axiom distribution: (p -> (q -> r)) -> ((p -> q) -> (p -> r))");
    ok("axiom contraposition: (!p -> !q) -> (q -> p)");
    ok("axiom modus_ponens(p, p -> q): q");
    ok("theorem and_comm: p & q <-> q & p");
    ok("theorem and_assoc: (p & q) & r <-> p & (q & r)");
    ok("theorem or_comm: p | q <-> q | p");
    ok("theorem or_assoc: (p | q) | r <-> p | (q | r)");
    ok("theorem suc_gt_zero(x: nat): suc(x) > 0");
}

#[test]
fn test_prop_statements() {
    ok("theorem goal: true by {\n    p -> p\n}");
}

#[test]
fn test_forall_statements() {
    ok("forall(x: Nat) {\n    f(x) -> f(suc(x))\n}");
}

#[test]
fn test_forall_value_in_statement() {
    ok("let p: bool = forall(b: bool) { b | !b }");
}

#[test]
fn test_nat_ac_statements() {
    ok("type Nat: axiom");
    ok("let suc: Nat -> Nat = axiom");
    ok("axiom suc_injective(x: Nat, y: Nat): suc(x) = suc(y) -> x = y");
    ok("axiom suc_neq_zero(x: Nat): suc(x) != 0");
    ok("axiom induction(f: Nat -> bool, n: Nat): f(0) & forall(k: Nat) { f(k) -> f(suc(k)) } -> f(n)");
    ok("define recursion(f: Nat -> Nat, a: Nat, n: Nat) -> Nat: axiom");
    ok("axiom recursion_base(f: Nat -> Nat, a: Nat): recursion(f, a, 0) = a");
    ok("axiom recursion_step(f: Nat -> Nat, a: Nat, n: Nat): recursion(f, a, suc(n)) = f(recursion(f, a, n))");
    ok("define add(x: Nat, y: Nat) -> Nat: recursion(suc, x, y)");
    ok("theorem add_zero_right(a: Nat): add(a, 0) = a");
    ok("theorem add_zero_left(a: Nat): add(0, a) = a");
    ok("theorem add_suc_right(a: Nat, b: Nat): add(a, suc(b)) = suc(add(a, b))");
    ok("theorem add_suc_left(a: Nat, b: Nat): add(suc(a), b) = suc(add(a, b))");
    ok("theorem add_comm(a: Nat, b: Nat): add(a, b) = add(b, a)");
    ok("theorem add_assoc(a: Nat, b: Nat, c: Nat): add(a, add(b, c)) = add(add(a, b), c)");
}

#[test]
fn test_multiline_at_colon() {
    Statement::parse_str("type Nat:\n  axiom").unwrap();
    Statement::parse_str("theorem foo(b: Bool):\nb | !b").unwrap();
}

#[test]
fn test_block_parsing() {
    ok("theorem foo: bar by {\n    baz\n}");
    fail("foo {\n    bar\n}");
}

#[test]
fn test_by_on_next_line() {
    let statement = should_parse("theorem foo: bar\nby {\n    baz\n}");
    let expected = "theorem foo: bar by {\n    baz\n}";
    assert_eq!(expected, statement.to_text());
}

#[test]
fn test_statement_errors() {
    fail("+ + +");
    fail("let p: Bool =");
    fail("let p: Bool = (");
    fail("let p: Bool = (x + 2");
    fail("let p: Bool = x + 2)");
}

#[test]
fn test_declared_variable_names_lowercased() {
    ok("let p: Bool = true");
    fail("let P: Bool = true");
}

#[test]
fn test_defined_variable_names_lowercased() {
    ok("define foo(x: Bool) -> Bool: true");
    fail("define Foo(x: Bool) -> Bool: true");
}

#[test]
fn test_theorem_names_lowercased() {
    ok("theorem foo: true");
    fail("theorem Foo: true");
}

#[test]
fn test_struct_names_titlecased() {
    ok("struct Foo {\n    bar: Nat\n}");
    fail("struct foo {\n    bar: Nat\n}");
}

#[test]
fn test_type_names_titlecased() {
    ok("type Foo: axiom");
    fail("type foo: axiom");
}

#[test]
fn test_only_declarations_in_signatures() {
    fail("theorem foo(x: int, x > 0): x + 1 > 0");
}

#[test]
fn test_single_line_forall() {
    should_parse("forall(x: Nat) { f(x) -> f(suc(x)) }");
}

#[test]
fn test_exists_statement() {
    ok("exists(x: Nat) {\n    x > 0\n}");
}

#[test]
fn test_single_line_exists_statement() {
    should_parse("exists(x: Nat) { x > 0 }");
}

#[test]
fn test_if_statement() {
    ok("if x > 1 {\n    x > 0\n}");
}

#[test]
fn test_struct_statement() {
    ok("struct NatPair {\n    first: Nat\n    second: Nat\n}");
}

#[test]
fn test_no_empty_structs() {
    fail("struct Foo {}");
}

#[test]
fn test_struct_fields_need_newlines() {
    fail("struct Foo { bar: Nat }");
}

#[test]
fn test_parametric_theorem() {
    ok("axiom recursion_base<T>(f: T -> T, a: T): recursion(f, a, 0) = a");
}

#[test]
fn test_parametric_definition() {
    ok("define recursion<T>(f: T -> T, a: T, n: Nat) -> Nat: axiom");
}

#[test]
fn test_import_statement() {
    ok("import foo.bar.baz");
}

#[test]
fn test_if_else_statement() {
    ok("if foo(x) {\n    bar(x)\n} else {\n    qux(x)\n}");
}

#[test]
fn test_no_lone_else_statement() {
    fail("else { qux(x) }");
}

#[test]
fn test_class_statement() {
    ok("class Foo {\n    let blorp: Foo = axiom\n    let 0: Foo = axiom\n}");
}

#[test]
fn test_from_statement() {
    ok("from foo import bar");
    ok("from foo.bar import baz");
    ok("from foo.bar.qux import baz, zip");
    fail("from foo");
}

#[test]
fn test_solve_statement() {
    ok("solve x by {\n    x = 2\n}");
}
