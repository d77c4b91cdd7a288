//! Statements with a block, and what each statement does to an environment.

use vstd::prelude::*;

use crate::acorn_type::{functional, AcornType, AtomId, TypeV};
use crate::acorn_value::{
    apply, bound, forall_of, lambda, negated, value_type, AcornValue, BinaryOp, ValueV,
};
use crate::binding_map::{eval_declaration, opt_view, text3, BindingMapV};
use crate::block::{block_start, last_claim, solution, BlockParams, BlockParamsV};
use crate::compilation::{Error, ErrorV};
use crate::datatypes::{binary, new_binary, new_vars, vars};
use crate::declare::{
    class_step, default_step, define_step, done, failed, import_step, let_step, met,
    new_reserved, prop_step, reserved, satisfy_step, subvalue_in, type_step, value_in, Step,
};
use crate::environment::{lemma_block_view, lemma_env_view, Block, BlockV, EnvV, Environment, GoalV};
use crate::expression::{
    expr_last_token, expr_premise, expr_range, expr_token, ExprV, Expression,
};
use crate::line_map::LineType;
use crate::project::{Project, ProjectV};
use crate::proposition::{Proposition, PropositionV};
use crate::statement::{
    lemma_body_view, lemma_statement_ends, lemma_statement_view, next_statement, Body, BodyV, ForAllStatement, FunctionSatisfyStatement, IfStatement, InfoV,
    SolveStatement, Statement, StatementInfo, StatementV, TheoremStatement,
};
use crate::table::{duplicate_all, Key};
use crate::text::{same_text, views};
use crate::token::{text_tokens, Range, Token, TokenIter, TokenV};
use crate::typedef::{inductive_step, struct_step};

verus! {

/// Names with their types.
pub open spec fn pairs(names: Seq<Seq<char>>, types: Seq<TypeV>) -> Seq<(Seq<char>, TypeV)> {
    Seq::new(names.len(), |i: int| (names[i], types[i]))
}

/// What comes of a block: nothing but an error if there is one in it.
pub open spec fn block_result(
    step: Step,
    type_params: Seq<Seq<char>>,
    args: Seq<(Seq<char>, TypeV)>,
    goal: Option<GoalV>,
) -> Result<BlockV, ErrorV> {
    match step.1 {
        Err(e) => Err(e),
        Ok(_) => Ok(BlockV { type_params, args, goal, env: step.0 }),
    }
}

/// A new block with a body.
pub open spec fn block_of(
    env: EnvV,
    p: ProjectV,
    type_params: Seq<Seq<char>>,
    args: Seq<(Seq<char>, TypeV)>,
    params: BlockParamsV,
    first_line: u32,
    body: BodyV,
) -> Result<BlockV, ErrorV>
    decreases body, 1int,
{
    match block_start(env, p, type_params, args, params, first_line, false) {
        Err(e) => Err(e),
        Ok((sub, goal)) => block_result(
            body_step(sub, p, first_line, body),
            type_params,
            args,
            goal,
        ),
    }
}

/// A new block. Without a body it has no statements in it, and all lines are opening.
pub open spec fn new_block(
    env: EnvV,
    p: ProjectV,
    type_params: Seq<Seq<char>>,
    args: Seq<(Seq<char>, TypeV)>,
    params: BlockParamsV,
    first_line: u32,
    last_line: u32,
    body: Option<BodyV>,
) -> Result<BlockV, ErrorV>
    decreases body, 1int,
{
    match body {
        Some(b) => block_of(env, p, type_params, args, params, first_line, b),
        None => match block_start(env, p, type_params, args, params, first_line, true) {
            Err(e) => Err(e),
            Ok((sub, goal)) => Ok(
                BlockV {
                    type_params,
                    args,
                    goal,
                    env: sub.with_lines(LineType::Opening, first_line, last_line),
                },
            ),
        },
    }
}

/// What the body of a block does to its environment.
pub open spec fn body_step(env: EnvV, p: ProjectV, first_line: u32, body: BodyV) -> Step
    decreases body, 0int,
{
    let step = statements_step(
        env.with_lines(LineType::Opening, first_line, body.left_brace.line_number),
        p,
        body.statements,
        body.statements.len(),
    );
    match step.1 {
        Err(_) => step,
        Ok(_) => done(
            step.0.with_lines(
                LineType::Closing,
                body.right_brace.line_number,
                body.right_brace.line_number,
            ),
        ),
    }
}

/// What the first `n` statements of a list do.
pub open spec fn statements_step(env: EnvV, p: ProjectV, ss: Seq<StatementV>, n: nat) -> Step
    decreases ss, n,
{
    if n == 0 || n > ss.len() {
        done(env)
    } else {
        let before = statements_step(env, p, ss, (n - 1) as nat);
        match before.1 {
            Err(_) => before,
            Ok(_) => statement_step(before.0, p, ss[n - 1]),
        }
    }
}

/// The premise of a claim with where it stands, and the rest of the claim.
pub open spec fn split_claim(v: ValueV, claim: ExprV) -> (Option<(ValueV, Range)>, ValueV) {
    match v {
        ValueV::Binary(BinaryOp::Implies, left, right) => (
            Some(
                (
                    *left,
                    match expr_premise(claim) {
                        Some(e) => expr_range(e),
                        None => expr_range(claim),
                    },
                ),
            ),
            *right,
        ),
        _ => (None, v),
    }
}

/// The environment with a theorem, once its block is there.
pub open spec fn with_theorem_node(
    env: EnvV,
    p: ProjectV,
    s: StatementV,
    axiomatic: bool,
    name: Seq<char>,
    range: Range,
    external: ValueV,
    block: Option<BlockV>,
) -> EnvV {
    let env1 = env.with_node(
        p,
        axiomatic,
        PropositionV::theorem(axiomatic, external, env.module_id, range, Some(name)),
        block,
    ).with_prop_lines(env.nodes.len(), s);
    env1.with_bindings(env1.bindings.with_theorem(name))
}

/// What a theorem does. Outside it is used in "forall" form; its name stands for the "lambda"
/// form.
#[verifier::opaque]
pub open spec fn theorem_step(
    env: EnvV,
    p: ProjectV,
    s: StatementV,
    axiomatic: bool,
    name: Seq<char>,
    type_params: Seq<TokenV>,
    args: Seq<ExprV>,
    claim: ExprV,
    body: Option<BodyV>,
) -> Step
    decreases body, 2int,
{
    if env.bindings.in_use(name) {
        failed(
            env,
            ErrorV::at(
                s.first_token,
                "theorem name '"@ + name + "' already defined in this scope"@,
            ),
        )
    } else {
        let range = Range {
            start: s.first_token.start_pos(),
            end: expr_last_token(claim).end_pos(),
        };
        let env1 = env.with_range(name, range);
        match subvalue_in(env1, p, type_params, args, None, claim) {
            Err(e) => failed(env1, e),
            Ok(sub) => match sub.value {
                None => failed(env1, ErrorV::at(s.first_token, "theorems must have values"@)),
                Some(v) => {
                    let f = lambda(sub.arg_types, v);
                    let external = forall_of(sub.arg_types, v);
                    let env2 = env1.with_bindings(
                        env.bindings.with_constant(name, sub.type_params, value_type(f), Some(f)),
                    );
                    if axiomatic {
                        done(
                            with_theorem_node(
                                env2,
                                p,
                                s,
                                axiomatic,
                                name,
                                range,
                                external,
                                None,
                            ),
                        )
                    } else {
                        let (premise, goal) = split_claim(v, claim);
                        match new_block(
                            env2,
                            p,
                            sub.type_params,
                            pairs(sub.arg_names, sub.arg_types),
                            BlockParamsV::Theorem(name, premise, goal),
                            s.first_token.line_number,
                            s.last_token.line_number,
                            body,
                        ) {
                            Err(e) => failed(env2, e),
                            Ok(b) => done(
                                with_theorem_node(
                                    env2,
                                    p,
                                    s,
                                    axiomatic,
                                    name,
                                    range,
                                    external,
                                    Some(b),
                                ),
                            ),
                        }
                    }
                },
            },
        }
    }
}

/// The names and types of the first `n` quantifiers.
pub open spec fn quantified(b: BindingMapV, p: ProjectV, es: Seq<ExprV>, n: nat) -> Result<
    Seq<(Seq<char>, TypeV)>,
    ErrorV,
>
    decreases n,
{
    if n == 0 || n > es.len() {
        Ok(Seq::empty())
    } else {
        match quantified(b, p, es, (n - 1) as nat) {
            Err(e) => Err(e),
            Ok(args) => match eval_declaration(b, p, es[n - 1]) {
                Err(e) => Err(e),
                Ok(arg) => Ok(args.push(arg)),
            },
        }
    }
}

/// What a block with new variables does. One without statements does nothing.
#[verifier::opaque]
pub open spec fn forall_step(
    env: EnvV,
    p: ProjectV,
    s: StatementV,
    quantifiers: Seq<ExprV>,
    body: BodyV,
) -> Step
    decreases body, 2int,
{
    if body.statements.len() == 0 {
        done(env)
    } else {
        match quantified(env.bindings, p, quantifiers, quantifiers.len()) {
            Err(e) => failed(env, e),
            Ok(args) => match block_of(
                env,
                p,
                Seq::empty(),
                args,
                BlockParamsV::ForAll,
                s.first_token.line_number,
                body,
            ) {
                Err(e) => failed(env, e),
                Ok(b) => match last_claim(b, env, body.right_brace) {
                    Err(e) => failed(env, e),
                    Ok((claim, range)) => done(
                        env.with_node(
                            p,
                            false,
                            PropositionV::anonymous(claim, env.module_id, range),
                            Some(b),
                        ).with_prop_lines(env.nodes.len(), s),
                    ),
                },
            },
        }
    }
}

/// The environment with the block of one branch of a conditional, and its last claim. `if_claim`
/// is the claim of the other branch, if this is the second one: where both claim the same, that is
/// claimed without the condition, and no claim is given back.
#[verifier::opaque]
pub open spec fn branch_result(
    env: EnvV,
    p: ProjectV,
    condition: ValueV,
    first_line: u32,
    right_brace: TokenV,
    if_claim: Option<ValueV>,
    block: Result<BlockV, ErrorV>,
) -> (EnvV, Result<Option<ValueV>, ErrorV>) {
    match block {
        Err(e) => (env, Err(e)),
        Ok(b) => match last_claim(b, env, right_brace) {
            Err(e) => (env, Err(e)),
            Ok((claim, claim_range)) => {
                let matching = if_claim == Some(claim);
                let external = if matching {
                    claim
                } else {
                    binary(BinaryOp::Implies, condition, claim)
                };
                (
                    env.with_node(
                        p,
                        false,
                        PropositionV::anonymous(external, env.module_id, claim_range),
                        Some(b),
                    ).with_lines(
                        LineType::Node(env.nodes.len() as usize),
                        first_line,
                        right_brace.line_number,
                    ),
                    Ok(
                        if matching {
                            None
                        } else {
                            Some(claim)
                        },
                    ),
                )
            },
        },
    }
}

/// What one branch of a conditional does. One without statements does nothing.
pub open spec fn conditional_step(
    env: EnvV,
    p: ProjectV,
    condition: ValueV,
    range: Range,
    first_line: u32,
    body: BodyV,
    if_claim: Option<ValueV>,
) -> (EnvV, Result<Option<ValueV>, ErrorV>)
    decreases body, 2int,
{
    if body.statements.len() == 0 {
        (env, Ok(None))
    } else {
        branch_result(
            env,
            p,
            condition,
            first_line,
            body.right_brace,
            if_claim,
            block_of(
                env,
                p,
                Seq::empty(),
                Seq::empty(),
                BlockParamsV::Conditional(condition, range),
                first_line,
                body,
            ),
        )
    }
}

/// What an if statement does.
#[verifier::opaque]
pub open spec fn if_step(env: EnvV, p: ProjectV, s: StatementV) -> Step
    decreases s, 7int,
{
    match s.statement {
        InfoV::If { condition, body, else_body, .. } => match value_in(
            env,
            p,
            condition,
            Some(TypeV::Bool),
        ) {
            Err(e) => failed(env, e),
            Ok(v) => {
                let step = conditional_step(
                    env,
                    p,
                    v,
                    expr_range(condition),
                    s.first_token.line_number,
                    body,
                    None,
                );
                match (step.1, else_body) {
                    (Err(e), _) => failed(step.0, e),
                    (Ok(_), None) => done(step.0),
                    (Ok(if_claim), Some(b)) => {
                        let second = conditional_step(
                            step.0,
                            p,
                            negated(v),
                            expr_range(condition),
                            b.left_brace.line_number,
                            b,
                            if_claim,
                        );
                        match second.1 {
                            Err(e) => failed(second.0, e),
                            Ok(_) => done(second.0),
                        }
                    },
                }
            },
        },
        _ => done(env),
    }
}

/// The condition that defines a function, outside its block: the function's value is put for the
/// last variable.
pub open spec fn satisfied_by(constant: ValueV, arg_types: Seq<TypeV>, condition: ValueV) -> ValueV {
    let n = arg_types.len() as u16;
    ValueV::ForAll(
        arg_types,
        Box::new(bound(condition, n, n, seq![apply(constant, vars(arg_types, 0))])),
    )
}

/// What the introduction of a function by a condition does.
#[verifier::opaque]
pub open spec fn function_step(
    env: EnvV,
    p: ProjectV,
    s: StatementV,
    name: Seq<char>,
    name_token: TokenV,
    declarations: Seq<ExprV>,
    satisfy_token: TokenV,
    condition: ExprV,
    body: Option<BodyV>,
) -> Step
    decreases body, 2int,
{
    if name == "new"@ || name == "self"@ {
        failed(env, reserved(name_token, name))
    } else if env.bindings.in_use(name) {
        failed(
            env,
            ErrorV::at(
                s.first_token,
                "function name '"@ + name + "' already defined in this scope"@,
            ),
        )
    } else {
        let range = Range { start: s.first_token.start_pos(), end: satisfy_token.end_pos() };
        let env1 = env.with_range(name, range);
        match subvalue_in(env1, p, Seq::empty(), declarations, None, condition) {
            Err(e) => failed(env1, e),
            Ok(sub) => match sub.value {
                None => failed(env1, ErrorV::at(s.first_token, "missing condition"@)),
                Some(v) => if value_type(v) != TypeV::Bool {
                    failed(
                        env1,
                        ErrorV::at(expr_token(condition), "condition must be a boolean"@),
                    )
                } else if sub.arg_names.len() == 0 || sub.arg_types.len() == 0 {
                    failed(
                        env1,
                        ErrorV::at(s.first_token, "expected a declaration of the value"@),
                    )
                } else {
                    let names = sub.arg_names.drop_last();
                    let types = sub.arg_types.drop_last();
                    let return_type = sub.arg_types.last();
                    match new_block(
                        env1,
                        p,
                        Seq::empty(),
                        pairs(names, types),
                        BlockParamsV::FunctionSatisfy(v, return_type, expr_range(condition)),
                        s.first_token.line_number,
                        s.last_token.line_number,
                        body,
                    ) {
                        Err(e) => failed(env1, e),
                        Ok(b) => {
                            let t = functional(types, return_type);
                            let f = ValueV::Constant(env.module_id, name, t, Seq::empty());
                            let env2 = env1.with_bindings(
                                env.bindings.with_constant(name, Seq::empty(), t, None),
                            );
                            done(
                                env2.with_node(
                                    p,
                                    false,
                                    PropositionV::constant_definition(
                                        satisfied_by(f, types, v),
                                        env.module_id,
                                        range,
                                        f,
                                        name,
                                    ),
                                    Some(b),
                                ).with_prop_lines(env.nodes.len(), s),
                            )
                        },
                    }
                },
            },
        }
    }
}

/// What a solve block does. The solution is claimed outside, if there is one.
#[verifier::opaque]
pub open spec fn solve_step(env: EnvV, p: ProjectV, s: StatementV, target: ExprV, body: BodyV) -> Step
    decreases body, 2int,
{
    match value_in(env, p, target, None) {
        Err(e) => failed(env, e),
        Ok(v) => {
            let range = Range {
                start: s.first_token.start_pos(),
                end: expr_last_token(target).end_pos(),
            };
            match block_of(
                env,
                p,
                Seq::empty(),
                Seq::empty(),
                BlockParamsV::Solve(v, range),
                s.first_token.line_number,
                body,
            ) {
                Err(e) => failed(env, e),
                Ok(b) => {
                    let (claim, claim_range, block) = match solution(b, env, v) {
                        Some((claim, claim_range)) => (
                            claim,
                            claim_range,
                            BlockV { goal: None, ..b },
                        ),
                        None => (ValueV::Bool(true), s.range(), b),
                    };
                    done(
                        env.with_node(
                            p,
                            false,
                            PropositionV::anonymous(claim, env.module_id, claim_range),
                            Some(block),
                        ).with_prop_lines(env.nodes.len(), s),
                    )
                },
            }
        },
    }
}

/// What a problem block does. Nothing is claimed outside.
#[verifier::opaque]
pub open spec fn problem_step(env: EnvV, p: ProjectV, s: StatementV, body: BodyV) -> Step
    decreases body, 2int,
{
    match block_of(
        env,
        p,
        Seq::empty(),
        Seq::empty(),
        BlockParamsV::Problem,
        s.first_token.line_number,
        body,
    ) {
        Err(e) => failed(env, e),
        Ok(b) => done(
            env.with_node(
                p,
                false,
                PropositionV::anonymous(ValueV::Bool(true), env.module_id, s.range()),
                Some(b),
            ).with_prop_lines(env.nodes.len(), s),
        ),
    }
}

/// What a statement does. Nothing can follow a plain "false".
pub open spec fn statement_step(env: EnvV, p: ProjectV, s: StatementV) -> Step
    decreases s, 9int,
{
    if env.includes_explicit_false {
        failed(
            env,
            ErrorV::at(
                s.first_token,
                "an explicit 'false' may not be followed by other statements"@,
            ),
        )
    } else {
        kind_step(env, p, s)
    }
}

/// What each kind of statement does.
#[verifier::opaque]
pub open spec fn kind_step(env: EnvV, p: ProjectV, s: StatementV) -> Step
    decreases s, 8int,
{
    match s.statement {
        InfoV::Type { name, type_expr } => type_step(
            env.with_other_lines(s),
            p,
            name,
            type_expr,
        ),
        InfoV::Let { name, name_token, type_expr, value } => let_step(
            env.with_other_lines(s),
            p,
            None,
            name,
            name_token,
            type_expr,
            value,
            s.range(),
        ),
        InfoV::Define { name, name_token, type_params, args, return_type, return_value } =>
        define_step(
            env.with_other_lines(s),
            p,
            None,
            name,
            name_token,
            type_params,
            args,
            return_type,
            return_value,
            s.range(),
        ),
        InfoV::Theorem { axiomatic, name, type_params, args, claim, body } => theorem_step(
            env,
            p,
            s,
            axiomatic,
            name,
            type_params,
            args,
            claim,
            body,
        ),
        InfoV::Prop { claim } => prop_step(env, p, s, claim),
        InfoV::ForAll { quantifiers, body } => forall_step(env, p, s, quantifiers, body),
        InfoV::If { .. } => if_step(env, p, s),
        InfoV::Exists { quantifiers, claim } => satisfy_step(env, p, s, quantifiers, claim),
        InfoV::VariableSatisfy { declarations, condition } => satisfy_step(
            env,
            p,
            s,
            declarations,
            condition,
        ),
        InfoV::FunctionSatisfy {
            name,
            name_token,
            declarations,
            satisfy_token,
            condition,
            body,
        } => function_step(
            env,
            p,
            s,
            name,
            name_token,
            declarations,
            satisfy_token,
            condition,
            body,
        ),
        InfoV::Struct { name, name_token, fields } => struct_step(
            env.with_other_lines(s),
            p,
            s,
            name,
            name_token,
            fields,
        ),
        InfoV::Inductive { name, name_token, constructors } => inductive_step(
            env.with_other_lines(s),
            p,
            s,
            name,
            name_token,
            constructors,
        ),
        InfoV::Import { components, names } => import_step(
            env.with_other_lines(s),
            p,
            s,
            components,
            names,
        ),
        InfoV::Class { name, name_token, body } => class_step(
            env.with_other_lines(s),
            p,
            name,
            name_token,
            body.statements,
        ),
        InfoV::Default { type_expr } => default_step(env.with_other_lines(s), p, type_expr),
        InfoV::Solve { target, body } => solve_step(env, p, s, target, body),
        InfoV::Problem { body } => problem_step(env, p, s, body),
    }
}

/// What the statements that tokens from `pos` on make up do.
pub open spec fn tokens_step(env: EnvV, p: ProjectV, ts: Seq<TokenV>, pos: int) -> Step
    decreases ts.len() - pos,
{
    match next_statement(ts, pos) {
        Err(e) => failed(env, e),
        Ok((None, _)) => done(env),
        Ok((Some(s), q)) => {
            let step = statement_step(env, p, s);
            match step.1 {
                Err(_) => step,
                Ok(_) => if pos < q <= ts.len() {
                    tokens_step(step.0, p, ts, q)
                } else {
                    step
                },
            }
        },
    }
}

proof fn lemma_statement_kind(env: EnvV, p: ProjectV, s: StatementV)
    requires
        !env.includes_explicit_false,
    ensures
        statement_step(env, p, s) == kind_step(env, p, s),
{
    reveal_with_fuel(kind_step, 1);
}

proof fn lemma_kind_theorem(env: EnvV, p: ProjectV, s: StatementV)
    requires
        s.statement is Theorem,
    ensures
        kind_step(env, p, s) == (match s.statement {
            InfoV::Theorem { axiomatic, name, type_params, args, claim, body } => theorem_step(env, p, s, axiomatic, name, type_params, args, claim, body),
            _ => done(env),
        }),
{
    reveal_with_fuel(kind_step, 1);
    reveal_with_fuel(theorem_step, 1);
}

proof fn lemma_kind_forall(env: EnvV, p: ProjectV, s: StatementV)
    requires
        s.statement is ForAll,
    ensures
        kind_step(env, p, s) == (match s.statement {
            InfoV::ForAll { quantifiers, body } => forall_step(env, p, s, quantifiers, body),
            _ => done(env),
        }),
{
    reveal_with_fuel(kind_step, 1);
    reveal_with_fuel(forall_step, 1);
}

proof fn lemma_kind_function(env: EnvV, p: ProjectV, s: StatementV)
    requires
        s.statement is FunctionSatisfy,
    ensures
        kind_step(env, p, s) == (match s.statement {
            InfoV::FunctionSatisfy { name, name_token, declarations, satisfy_token, condition, body } => function_step(env, p, s, name, name_token, declarations, satisfy_token, condition, body),
            _ => done(env),
        }),
{
    reveal_with_fuel(kind_step, 1);
    reveal_with_fuel(function_step, 1);
}

proof fn lemma_kind_solve(env: EnvV, p: ProjectV, s: StatementV)
    requires
        s.statement is Solve,
    ensures
        kind_step(env, p, s) == (match s.statement {
            InfoV::Solve { target, body } => solve_step(env, p, s, target, body),
            _ => done(env),
        }),
{
    reveal_with_fuel(kind_step, 1);
    reveal_with_fuel(solve_step, 1);
}

proof fn lemma_kind_problem(env: EnvV, p: ProjectV, s: StatementV)
    requires
        s.statement is Problem,
    ensures
        kind_step(env, p, s) == (match s.statement {
            InfoV::Problem { body } => problem_step(env, p, s, body),
            _ => done(env),
        }),
{
    reveal_with_fuel(kind_step, 1);
    reveal_with_fuel(problem_step, 1);
}

proof fn lemma_kind_if(env: EnvV, p: ProjectV, s: StatementV)
    requires
        s.statement is If,
    ensures
        kind_step(env, p, s) == if_step(env, p, s),
{
    reveal_with_fuel(kind_step, 1);
    reveal_with_fuel(if_step, 1);
}

/// Whether a statement of this kind has a block with an environment of its own.
pub open spec fn has_block(info: StatementInfo) -> bool {
    info is Theorem || info is ForAll || info is If || info is FunctionSatisfy || info is Solve
        || info is Problem
}

proof fn lemma_body_views(b: Option<Body>)
    ensures
        opt_view(b) == (match b {
            Some(b) => Some(crate::statement::body_view(b)),
            None => None,
        }),
{
    if b is Some {
        lemma_body_view(b->0);
    }
}

proof fn lemma_statements_fail(env: EnvV, p: ProjectV, ss: Seq<StatementV>, i: nat, n: nat)
    requires
        i <= n <= ss.len(),
        statements_step(env, p, ss, i).1 is Err,
    ensures
        statements_step(env, p, ss, n) == statements_step(env, p, ss, i),
    decreases n,
{
    if i < n {
        lemma_statements_fail(env, p, ss, i, (n - 1) as nat);
    }
}

proof fn lemma_quantified_fail(b: BindingMapV, p: ProjectV, es: Seq<ExprV>, i: nat, n: nat)
    requires
        i <= n <= es.len(),
        quantified(b, p, es, i) is Err,
    ensures
        quantified(b, p, es, n) == quantified(b, p, es, i),
    decreases n,
{
    if i < n {
        lemma_quantified_fail(b, p, es, i, (n - 1) as nat);
    }
}

fn make_pairs(names: &Vec<String>, types: &Vec<AcornType>) -> (r: Vec<(String, AcornType)>)
    requires
        names.len() <= types.len(),
    ensures
        views(r@) == pairs(views(names@), views(types@)),
{
    let ghost expected = pairs(views(names@), views(types@));
    let mut out: Vec<(String, AcornType)> = Vec::new();
    let mut i: usize = 0;
    while i < names.len()
        invariant
            i <= names.len() <= types.len(),
            out.len() == i,
            expected == pairs(views(names@), views(types@)),
            forall|k: int| 0 <= k < i ==> (#[trigger] out@[k])@ == expected[k],
        decreases names.len() - i,
    {
        out.push((names[i].clone(), types[i].clone()));
        assert(out@[i as int]@ == (names@[i as int]@, types@[i as int]@));
        i = i + 1;
    }
    assert(views(out@) =~= expected);
    out
}

/// The view of a premise with where it stands.
pub open spec fn premise_view(p: Option<(AcornValue, Range)>) -> Option<(ValueV, Range)> {
    match p {
        Some((v, r)) => Some((v@, r)),
        None => None,
    }
}

fn split(v: &AcornValue, claim: &Expression) -> (r: (Option<(AcornValue, Range)>, AcornValue))
    ensures
        (premise_view(r.0), r.1@) == split_claim(v@, claim@),
{
    broadcast use crate::acorn_value::lemma_application_view;
    match v {
        AcornValue::Binary(BinaryOp::Implies, left, right) => {
            let range = match claim.premise() {
                Some(e) => e.range(),
                None => claim.range(),
            };
            (Some(((**left).clone(), range)), (**right).clone())
        },
        _ => (None, v.clone()),
    }
}

/// The view of what came of a block.
pub open spec fn block_met(expected: Result<BlockV, ErrorV>, r: Result<Block, Error>) -> bool {
    match r {
        Ok(b) => expected == Ok::<BlockV, ErrorV>(b@),
        Err(e) => expected == Err::<BlockV, ErrorV>(e@),
    }
}

/// The view of a body that may be missing.
pub open spec fn opt_body(b: Option<&Body>) -> Option<BodyV> {
    match b {
        Some(b) => Some(b@),
        None => None,
    }
}

impl Environment {
    // Creates a new block with a subenvironment by copying this environment and adding some stuff.
    //
    // The types in args must be generic when type params are provided.
    fn block_with_body(
        &self,
        project: &Project,
        type_params: Vec<String>,
        args: Vec<(String, AcornType)>,
        params: BlockParams,
        first_line: u32,
        body: &Body,
    ) -> (r: Result<Block, Error>)
        ensures
            block_met(
                block_of(
                    self@,
                    project@,
                    views(type_params@),
                    views(args@),
                    params@,
                    first_line,
                    body@,
                ),
                r,
            ),
        decreases body, 1int,
    {
        let (mut subenv, goal) = match self.start_block(
            project,
            &type_params,
            &args,
            params,
            first_line,
            false,
        ) {
            Err(e) => {
                return Err(e);
            },
            Ok(x) => x,
        };
        if let Err(e) = subenv.add_body(project, first_line, body) {
            return Err(e);
        }
        let block = Block { type_params, args, goal, env: subenv };
        proof {
            lemma_block_view(block);
        }
        Ok(block)
    }

    // Creates a new block. If no body is provided, the block has no statements in it.
    fn new_block(
        &self,
        project: &Project,
        type_params: Vec<String>,
        args: Vec<(String, AcornType)>,
        params: BlockParams,
        first_line: u32,
        last_line: u32,
        body: Option<&Body>,
    ) -> (r: Result<Block, Error>)
        ensures
            block_met(
                new_block(
                    self@,
                    project@,
                    views(type_params@),
                    views(args@),
                    params@,
                    first_line,
                    last_line,
                    opt_body(body),
                ),
                r,
            ),
        decreases body, 1int,
    {
        match body {
            Some(b) => self.block_with_body(project, type_params, args, params, first_line, b),
            None => {
                let (mut subenv, goal) = match self.start_block(
                    project,
                    &type_params,
                    &args,
                    params,
                    first_line,
                    true,
                ) {
                    Err(e) => {
                        return Err(e);
                    },
                    Ok(x) => x,
                };
                // The subenv is an implicit block, so consider all the lines to be "opening".
                subenv.add_line_types(LineType::Opening, first_line, last_line);
                let block = Block { type_params, args, goal, env: subenv };
                proof {
                    lemma_block_view(block);
                }
                Ok(block)
            },
        }
    }

    fn add_body(&mut self, project: &Project, first_line: u32, body: &Body) -> (r: Result<(), Error>)
        ensures
            met(body_step(old(self)@, project@, first_line, body@), final(self)@, r),
        decreases body, 0int,
    {
        proof {
            lemma_body_view(*body);
        }
        self.add_line_types(LineType::Opening, first_line, body.left_brace.line_number);
        if let Err(e) = self.add_statements(project, &body.statements) {
            return Err(e);
        }
        self.add_line_types(
            LineType::Closing,
            body.right_brace.line_number,
            body.right_brace.line_number,
        );
        Ok(())
    }

    fn add_statements(&mut self, project: &Project, statements: &Vec<Statement>) -> (r: Result<
        (),
        Error,
    >)
        ensures
            met(
                statements_step(
                    old(self)@,
                    project@,
                    views(statements@),
                    statements@.len(),
                ),
                final(self)@,
                r,
            ),
        decreases statements, 0int,
    {
        let ghost sv = views(statements@);
        let mut i: usize = 0;
        while i < statements.len()
            invariant
                i <= statements.len(),
                sv == views(statements@),
                sv.len() == statements.len(),
                statements_step(old(self)@, project@, sv, i as nat) == done(self@),
            decreases statements.len() - i,
        {
            let s = &statements[i];
            assert(sv[i as int] == s@);
            assert(decreases_to!(statements => statements@[i as int]));
            if let Err(e) = self.add_statement(project, s) {
                proof {
                    lemma_statements_fail(
                        old(self)@,
                        project@,
                        sv,
                        (i + 1) as nat,
                        sv.len(),
                    );
                }
                return Err(e);
            }
            i = i + 1;
        }
        Ok(())
    }

    fn add_theorem_statement(
        &mut self,
        project: &Project,
        statement: &Statement,
        ts: &TheoremStatement,
    ) -> (r: Result<(), Error>)
        ensures
            met(
                theorem_step(
                    old(self)@,
                    project@,
                    statement@,
                    ts.axiomatic,
                    ts.name@,
                    views(ts.type_params@),
                    views(ts.args@),
                    ts.claim@,
                    opt_view(ts.body),
                ),
                final(self)@,
                r,
            ),
        decreases ts, 2int,
    {
        broadcast use lemma_statement_ends;
        reveal_with_fuel(theorem_step, 1);
        proof {
            lemma_env_view(*self);
        }
        let module = self.module_id;
        let name = ts.name.as_str();
        if self.is_name_in_use(name) {
            return Err(
                Error::at(
                    &statement.first_token,
                    text3("theorem name '", name, "' already defined in this scope").as_str(),
                ),
            );
        }
        // Figure out the range for this theorem definition.
        // It's smaller than the whole theorem statement because it doesn't
        // include the proof block.
        let range = Range {
            start: statement.first_token.start_pos(),
            end: ts.claim.last_token().end_pos(),
        };
        self.set_definition_range(name, range);
        let evaluated = self.evaluate_under(
            project,
            &ts.type_params,
            &ts.args,
            None,
            &ts.claim,
        );
        let sub = match evaluated {
            Err(e) => {
                return Err(e);
            },
            Ok(sub) => sub,
        };
        let unbound_claim = match sub.value {
            None => {
                return Err(Error::at(&statement.first_token, "theorems must have values"));
            },
            Some(v) => v,
        };
        let block_args = make_pairs(&sub.arg_names, &sub.arg_types);
        // Externally we use the theorem in unnamed, "forall" form
        let external_claim = AcornValue::new_forall(
            duplicate_all(&sub.arg_types),
            unbound_claim.clone(),
        );
        let (premise, goal) = split(&unbound_claim, &ts.claim);
        // We define the theorem using "lambda" form.
        // The definition happens here, in the outside environment, because the
        // theorem is usable by name in this environment.
        let lambda_claim = AcornValue::new_lambda(sub.arg_types, unbound_claim);
        let theorem_type = lambda_claim.get_type();
        self.declare(name, duplicate_all(&sub.type_params), theorem_type, Some(lambda_claim));
        let block = if ts.axiomatic {
            None
        } else {
            let body = match &ts.body {
                Some(b) => Some(b),
                None => None,
            };
            let params = BlockParams::Theorem(ts.name.clone(), premise, goal);
            match self.new_block(
                project,
                sub.type_params,
                block_args,
                params,
                statement.first_line(),
                statement.last_line(),
                body,
            ) {
                Err(e) => {
                    return Err(e);
                },
                Ok(b) => Some(b),
            }
        };
        let prop = Proposition::theorem(
            ts.axiomatic,
            external_claim,
            module,
            range,
            Some(ts.name.clone()),
        );
        let index = self.add_node(project, ts.axiomatic, prop, block);
        self.add_prop_lines(index, statement);
        proof {
            lemma_env_view(*self);
        }
        self.bindings.mark_as_theorem(name);
        proof {
            lemma_env_view(*self);
        }
        Ok(())
    }

    fn find_quantified(&self, project: &Project, quantifiers: &Vec<Expression>) -> (r: Result<
        Vec<(String, AcornType)>,
        Error,
    >)
        ensures
            match r {
                Ok(args) => quantified(
                    self@.bindings,
                    project@,
                    views(quantifiers@),
                    quantifiers@.len(),
                ) == Ok::<Seq<(Seq<char>, TypeV)>, ErrorV>(views(args@)),
                Err(e) => quantified(
                    self@.bindings,
                    project@,
                    views(quantifiers@),
                    quantifiers@.len(),
                ) == Err::<Seq<(Seq<char>, TypeV)>, ErrorV>(e@),
            },
    {
        broadcast use crate::text::group_views;
        proof {
            lemma_env_view(*self);
        }
        let ghost qv = views(quantifiers@);
        let ghost b = self@.bindings;
        let mut args: Vec<(String, AcornType)> = Vec::new();
        let mut i: usize = 0;
        while i < quantifiers.len()
            invariant
                i <= quantifiers.len(),
                qv == views(quantifiers@),
                b == self.bindings@,
                b == self@.bindings,
                quantified(b, project@, qv, i as nat) == Ok::<Seq<(Seq<char>, TypeV)>, ErrorV>(
                    views(args@),
                ),
            decreases quantifiers.len() - i,
        {
            broadcast use crate::text::group_views;
            assert(qv[i as int] == quantifiers@[i as int]@);
            match self.bindings.parse_declaration(project, &quantifiers[i]) {
                Err(e) => {
                    proof {
                        lemma_quantified_fail(b, project@, qv, (i + 1) as nat, qv.len());
                    }
                    return Err(e);
                },
                Ok((name, t)) => {
                    args.push((name, t));
                },
            }
            i = i + 1;
        }
        Ok(args)
    }

    fn add_forall_statement(
        &mut self,
        project: &Project,
        statement: &Statement,
        fas: &ForAllStatement,
    ) -> (r: Result<(), Error>)
        ensures
            met(
                forall_step(
                    old(self)@,
                    project@,
                    statement@,
                    views(fas.quantifiers@),
                    fas.body@,
                ),
                final(self)@,
                r,
            ),
        decreases fas, 2int,
    {
        proof {
            lemma_body_view(fas.body);
        }
        broadcast use lemma_statement_ends;
        reveal_with_fuel(forall_step, 1);
        if fas.body.statements.len() == 0 {
            // ForAll statements with an empty body can just be ignored
            return Ok(());
        }
        proof {
            lemma_env_view(*self);
        }
        let args = match self.find_quantified(project, &fas.quantifiers) {
            Err(e) => {
                return Err(e);
            },
            Ok(args) => args,
        };
        let none: Vec<String> = Vec::new();
        assert(views(none@) =~= Seq::<Seq<char>>::empty());
        let block = match self.block_with_body(
            project,
            none,
            args,
            BlockParams::ForAll,
            statement.first_line(),
            &fas.body,
        ) {
            Err(e) => {
                return Err(e);
            },
            Ok(b) => b,
        };
        let (outer_claim, range) = match block.export_last_claim(self, &fas.body.right_brace) {
            Err(e) => {
                return Err(e);
            },
            Ok(x) => x,
        };
        let prop = Proposition::anonymous(outer_claim, self.module_id, range);
        let index = self.add_node(project, false, prop, Some(block));
        self.add_prop_lines(index, statement);
        Ok(())
    }

    // Adds a conditional block to the environment.
    // Takes the condition, the range to associate with the condition, the first line of
    // the conditional block, and finally the body itself.
    // If this is an "else" block, we pass in the claim from the "if" part of the block.
    // This way, if the claim is the same, we can simplify by combining them when exported.
    // Returns the last claim in the block, if we didn't have an if-claim to match against.
    fn add_conditional(
        &mut self,
        project: &Project,
        condition: AcornValue,
        range: Range,
        first_line: u32,
        body: &Body,
        if_claim: Option<AcornValue>,
    ) -> (r: Result<Option<AcornValue>, Error>)
        ensures
            ({
                let step = conditional_step(
                    old(self)@,
                    project@,
                    condition@,
                    range,
                    first_line,
                    body@,
                    opt_view(if_claim),
                );
                &&& final(self)@ == step.0
                &&& match r {
                    Ok(c) => step.1 == Ok::<Option<ValueV>, ErrorV>(opt_view(c)),
                    Err(e) => step.1 == Err::<Option<ValueV>, ErrorV>(e@),
                }
            }),
        decreases body, 2int,
    {
        reveal(branch_result);
        proof {
            lemma_body_view(*body);
        }
        proof {
            lemma_env_view(*self);
        }
        if body.statements.len() == 0 {
            // Conditional blocks with an empty body can just be ignored
            return Ok(None);
        }
        let none: Vec<String> = Vec::new();
        assert(views(none@) =~= Seq::<Seq<char>>::empty());
        let no_args: Vec<(String, AcornType)> = Vec::new();
        assert(views(no_args@) =~= Seq::<(Seq<char>, TypeV)>::empty());
        let block = match self.block_with_body(
            project,
            none,
            no_args,
            BlockParams::Conditional(condition.clone(), range),
            first_line,
            body,
        ) {
            Err(e) => {
                return Err(e);
            },
            Ok(b) => b,
        };
        let (outer_claim, claim_range) = match block.export_last_claim(self, &body.right_brace) {
            Err(e) => {
                return Err(e);
            },
            Ok(x) => x,
        };
        let matching_branches = match &if_claim {
            Some(c) => c.same(&outer_claim),
            None => false,
        };
        let (external_claim, last_claim) = if matching_branches {
            (outer_claim, None)
        } else {
            (new_binary(BinaryOp::Implies, condition, outer_claim.clone()), Some(outer_claim))
        };
        let prop = Proposition::anonymous(external_claim, self.module_id, claim_range);
        let index = self.add_node(project, false, prop, Some(block));
        self.add_line_types(LineType::Node(index), first_line, body.right_brace.line_number);
        Ok(last_claim)
    }

    fn add_if_statement(&mut self, project: &Project, statement: &Statement, is: &IfStatement) -> (r:
        Result<(), Error>)
        requires
            statement.statement == StatementInfo::If(*is),
        ensures
            met(if_step(old(self)@, project@, statement@), final(self)@, r),
        decreases is, 3int,
    {
        proof {
            lemma_statement_view(*statement);
            lemma_body_view(is.body);
        }
        broadcast use lemma_statement_ends;
        reveal_with_fuel(if_step, 1);
        proof {
            lemma_env_view(*self);
        }
        let condition = match self.evaluate(
            project,
            &is.condition,
            Some(&AcornType::Bool),
        ) {
            Err(e) => {
                return Err(e);
            },
            Ok(v) => v,
        };
        let range = is.condition.range();
        let if_claim = match self.add_conditional(
            project,
            condition.clone(),
            range,
            statement.first_line(),
            &is.body,
            None,
        ) {
            Err(e) => {
                return Err(e);
            },
            Ok(c) => c,
        };
        if let Some(else_body) = &is.else_body {
            proof {
                lemma_body_view(*else_body);
            }
            if let Err(e) = self.add_conditional(
                project,
                condition.negate(),
                range,
                else_body.left_brace.line_number,
                else_body,
                if_claim,
            ) {
                return Err(e);
            }
        }
        Ok(())
    }

    fn add_function_satisfy_statement(
        &mut self,
        project: &Project,
        statement: &Statement,
        fss: &FunctionSatisfyStatement,
    ) -> (r: Result<(), Error>)
        ensures
            met(
                function_step(
                    old(self)@,
                    project@,
                    statement@,
                    fss.name@,
                    fss.name_token@,
                    views(fss.declarations@),
                    fss.satisfy_token@,
                    fss.condition@,
                    opt_view(fss.body),
                ),
                final(self)@,
                r,
            ),
        decreases fss, 2int,
    {
        broadcast use lemma_statement_ends;
        reveal_with_fuel(function_step, 1);
        proof {
            lemma_env_view(*self);
        }
        let module = self.module_id;
        let name = fss.name.as_str();
        if same_text(name, "new") || same_text(name, "self") {
            return Err(new_reserved(&fss.name_token, name));
        }
        if self.is_name_in_use(name) {
            return Err(
                Error::at(
                    &statement.first_token,
                    text3("function name '", name, "' already defined in this scope").as_str(),
                ),
            );
        }
        // Figure out the range for this function definition.
        // It's smaller than the whole function statement because it doesn't
        // include the proof block.
        let definition_range = Range {
            start: statement.first_token.start_pos(),
            end: fss.satisfy_token.end_pos(),
        };
        self.set_definition_range(name, definition_range);
        let no_tokens: Vec<Token> = Vec::new();
        assert(views(no_tokens@) =~= Seq::<TokenV>::empty());
        let evaluated = self.evaluate_under(
            project,
            &no_tokens,
            &fss.declarations,
            None,
            &fss.condition,
        );
        let sub = match evaluated {
            Err(e) => {
                return Err(e);
            },
            Ok(sub) => sub,
        };
        let unbound_condition = match sub.value {
            None => {
                return Err(Error::at(&statement.first_token, "missing condition"));
            },
            Some(v) => v,
        };
        if !unbound_condition.get_type().same(&AcornType::Bool) {
            return Err(Error::at(fss.condition.token(), "condition must be a boolean"));
        }
        // The return variable shouldn't become a block arg, because we're trying to
        // prove its existence.
        let mut arg_names = sub.arg_names;
        let mut arg_types = sub.arg_types;
        let ghost all_names = arg_names@;
        let ghost all_types = arg_types@;
        let return_type = match (arg_names.pop(), arg_types.pop()) {
            (Some(_), Some(t)) => t,
            _ => {
                return Err(
                    Error::at(&statement.first_token, "expected a declaration of the value"),
                );
            },
        };
        proof {
            assert(views(arg_names@) =~= views(all_names).drop_last());
            assert(views(arg_types@) =~= views(all_types).drop_last());
            assert(return_type@ == views(all_types).last());
        }
        let block_args = make_pairs(&arg_names, &arg_types);
        let body = match &fss.body {
            Some(b) => Some(b),
            None => None,
        };
        let none: Vec<String> = Vec::new();
        assert(views(none@) =~= Seq::<Seq<char>>::empty());
        let params = BlockParams::FunctionSatisfy(
            unbound_condition.clone(),
            return_type.clone(),
            fss.condition.range(),
        );
        let block = match self.new_block(
            project,
            none,
            block_args,
            params,
            statement.first_line(),
            statement.last_line(),
            body,
        ) {
            Err(e) => {
                return Err(e);
            },
            Ok(b) => b,
        };
        // We define this function not with an equality, but via the condition.
        let function_type = AcornType::new_functional(duplicate_all(&arg_types), return_type);
        let no_params: Vec<String> = Vec::new();
        assert(views(no_params@) =~= Seq::<Seq<char>>::empty());
        self.declare(name, no_params, function_type.clone(), None);
        let constant = new_plain_constant(module, name, function_type.clone());
        let external = make_satisfied(&constant, arg_types, &unbound_condition);
        let prop = Proposition::constant_definition(
            external,
            module,
            definition_range,
            constant,
            name,
        );
        let index = self.add_node(project, false, prop, Some(block));
        self.add_prop_lines(index, statement);
        Ok(())
    }

    fn add_solve_statement(
        &mut self,
        project: &Project,
        statement: &Statement,
        ss: &SolveStatement,
    ) -> (r: Result<(), Error>)
        ensures
            met(
                solve_step(old(self)@, project@, statement@, ss.target@, ss.body@),
                final(self)@,
                r,
            ),
        decreases ss, 2int,
    {
        broadcast use lemma_statement_ends;
        reveal_with_fuel(solve_step, 1);
        proof {
            lemma_env_view(*self);
        }
        let target = match self.evaluate(project, &ss.target, None) {
            Err(e) => {
                return Err(e);
            },
            Ok(v) => v,
        };
        let solve_range = Range {
            start: statement.first_token.start_pos(),
            end: ss.target.last_token().end_pos(),
        };
        let none: Vec<String> = Vec::new();
        assert(views(none@) =~= Seq::<Seq<char>>::empty());
        let no_args: Vec<(String, AcornType)> = Vec::new();
        assert(views(no_args@) =~= Seq::<(Seq<char>, TypeV)>::empty());
        let block = match self.block_with_body(
            project,
            none,
            no_args,
            BlockParams::Solve(target.clone(), solve_range),
            statement.first_line(),
            &ss.body,
        ) {
            Err(e) => {
                return Err(e);
            },
            Ok(b) => b,
        };
        let (prop, block) = match block.solves(self, &target) {
            Some((outer_claim, claim_range)) => {
                proof {
                    lemma_block_view(block);
                }
                let solved = Block {
                    type_params: block.type_params,
                    args: block.args,
                    goal: None,
                    env: block.env,
                };
                proof {
                    lemma_block_view(solved);
                    assert(solved@ == (BlockV { goal: None, ..block@ }));
                }
                (Proposition::anonymous(outer_claim, self.module_id, claim_range), solved)
            },
            None => {
                // The block doesn't contain a solution.
                // So, it has no claim that can be exported. It doesn't really make sense
                // to export whatever the last proposition is.
                // A lot of code expects something, though, so put a vacuous "true" in here.
                let prop = Proposition::anonymous(
                    AcornValue::Bool(true),
                    self.module_id,
                    statement.range(),
                );
                (prop, block)
            },
        };
        let index = self.add_node(project, false, prop, Some(block));
        self.add_prop_lines(index, statement);
        Ok(())
    }

    fn add_problem(&mut self, project: &Project, statement: &Statement, body: &Body) -> (r: Result<
        (),
        Error,
    >)
        ensures
            met(
                problem_step(old(self)@, project@, statement@, body@),
                final(self)@,
                r,
            ),
        decreases body, 2int,
    {
        broadcast use lemma_statement_ends;
        reveal_with_fuel(problem_step, 1);
        proof {
            lemma_env_view(*self);
        }
        let none: Vec<String> = Vec::new();
        assert(views(none@) =~= Seq::<Seq<char>>::empty());
        let no_args: Vec<(String, AcornType)> = Vec::new();
        assert(views(no_args@) =~= Seq::<(Seq<char>, TypeV)>::empty());
        let block = match self.block_with_body(
            project,
            none,
            no_args,
            BlockParams::Problem,
            statement.first_line(),
            body,
        ) {
            Err(e) => {
                return Err(e);
            },
            Ok(b) => b,
        };
        // It would be nice to not have to make a vacuous "true" proposition here.
        let vacuous = Proposition::anonymous(
            AcornValue::Bool(true),
            self.module_id,
            statement.range(),
        );
        let index = self.add_node(project, false, vacuous, Some(block));
        self.add_prop_lines(index, statement);
        Ok(())
    }

    // Adds a statement that has no block.
    fn add_plain_statement(&mut self, project: &Project, statement: &Statement) -> (r: Result<
        (),
        Error,
    >)
        requires
            !has_block(statement.statement),
        ensures
            met(kind_step(old(self)@, project@, statement@), final(self)@, r),
    {
        reveal_with_fuel(kind_step, 1);
        proof {
            lemma_statement_view(*statement);
        }
        match &statement.statement {
            StatementInfo::Type(ts) => {
                self.add_other_lines(statement);
                self.add_type_statement(project, ts)
            },
            StatementInfo::Let(ls) => {
                self.add_other_lines(statement);
                self.add_let_statement(project, None, ls, statement.range())
            },
            StatementInfo::Define(ds) => {
                self.add_other_lines(statement);
                self.add_define_statement(project, None, ds, statement.range())
            },
            StatementInfo::Prop(ps) => self.add_prop_statement(project, statement, ps),
            StatementInfo::Exists(es) => self.add_satisfied(
                project,
                statement,
                &es.quantifiers,
                &es.claim,
            ),
            StatementInfo::VariableSatisfy(vss) => self.add_satisfied(
                project,
                statement,
                &vss.declarations,
                &vss.condition,
            ),
            StatementInfo::Struct(ss) => {
                self.add_other_lines(statement);
                self.add_struct_statement(project, statement, ss)
            },
            StatementInfo::Inductive(is) => {
                self.add_other_lines(statement);
                self.add_inductive_statement(project, statement, is)
            },
            StatementInfo::Import(is) => {
                self.add_other_lines(statement);
                self.add_import_statement(project, statement, is)
            },
            StatementInfo::Class(cs) => {
                self.add_other_lines(statement);
                proof {
                    lemma_body_view(cs.body);
                }
                self.add_class_statement(project, cs)
            },
            StatementInfo::Default(ds) => {
                self.add_other_lines(statement);
                self.add_default_statement(project, ds)
            },
            _ => Ok(()),
        }
    }

    /// Adds a statement to the environment. If the statement has a body, this call creates a
    /// sub-environment and adds the body to that sub-environment.
    pub fn add_statement(&mut self, project: &Project, statement: &Statement) -> (r: Result<
        (),
        Error,
    >)
        ensures
            met(statement_step(old(self)@, project@, statement@), final(self)@, r),
        decreases statement, 9int,
    {
        broadcast use lemma_statement_ends;
        proof {
            lemma_env_view(*self);
        }
        if self.includes_explicit_false {
            return Err(
                Error::at(
                    &statement.first_token,
                    "an explicit 'false' may not be followed by other statements",
                ),
            );
        }
        proof {
            lemma_statement_kind(self@, project@, statement@);
        }
        self.add_kind(project, statement)
    }

    fn add_kind(&mut self, project: &Project, statement: &Statement) -> (r: Result<(), Error>)
        ensures
            met(kind_step(old(self)@, project@, statement@), final(self)@, r),
        decreases statement, 8int,
    {
        proof {
            lemma_statement_view(*statement);
        }
        match &statement.statement {
            StatementInfo::Theorem(ts) => {
                proof {
                    lemma_kind_theorem(self@, project@, statement@);
                    lemma_body_views(ts.body);
                }
                self.add_theorem_statement(project, statement, ts)
            },
            StatementInfo::ForAll(fas) => {
                proof {
                    lemma_kind_forall(self@, project@, statement@);
                    lemma_body_view(fas.body);
                }
                self.add_forall_statement(project, statement, fas)
            },
            StatementInfo::If(is) => {
                proof {
                    lemma_kind_if(self@, project@, statement@);
                }
                self.add_if_statement(project, statement, is)
            },
            StatementInfo::FunctionSatisfy(fss) => {
                proof {
                    lemma_kind_function(self@, project@, statement@);
                    lemma_body_views(fss.body);
                }
                self.add_function_satisfy_statement(project, statement, fss)
            },
            StatementInfo::Solve(ss) => {
                proof {
                    lemma_kind_solve(self@, project@, statement@);
                    lemma_body_view(ss.body);
                }
                self.add_solve_statement(project, statement, ss)
            },
            StatementInfo::Problem(body) => {
                proof {
                    lemma_kind_problem(self@, project@, statement@);
                    lemma_body_view(*body);
                }
                self.add_problem(project, statement, body)
            },
            _ => self.add_plain_statement(project, statement),
        }
    }

    /// Adds a possibly multi-line text to the environment.
    pub fn add(&mut self, input: &str) -> (r: Result<(), Error>)
        requires
            input@.len() < u32::MAX,
        ensures
            met(
                tokens_step(
                    old(self)@,
                    ProjectV::empty(),
                    text_tokens(input@, 0, 0),
                    0,
                ),
                final(self)@,
                r,
            ),
    {
        let tokens = Token::scan(input);
        self.add_tokens(&Project::new_mock(), tokens)
    }

    /// Parses these tokens and adds them to the environment.
    pub fn add_tokens(&mut self, project: &Project, tokens: Vec<Token>) -> (r: Result<(), Error>)
        ensures
            met(
                tokens_step(old(self)@, project@, views(tokens@), 0),
                final(self)@,
                r,
            ),
    {
        let ghost ts = views(tokens@);
        let mut iter = TokenIter::new(tokens);
        loop
            invariant
                iter.all() == ts,
                ts == views(tokens@),
                tokens_step(old(self)@, project@, ts, 0) == tokens_step(
                    self@,
                    project@,
                    ts,
                    iter.pos(),
                ),
            decreases ts.len() - iter.pos(),
        {
            match Statement::parse_next(&mut iter) {
                Err(e) => {
                    return Err(e);
                },
                Ok(None) => {
                    return Ok(());
                },
                Ok(Some(statement)) => {
                    if let Err(e) = self.add_statement(project, &statement) {
                        return Err(e);
                    }
                },
            }
        }
    }
}

fn new_plain_constant(module: crate::acorn_type::ModuleId, name: &str, t: AcornType) -> (r:
    AcornValue)
    ensures
        r@ == ValueV::Constant(module, name@, t@, Seq::empty()),
{
    let none: Vec<String> = Vec::new();
    assert(views(none@) =~= Seq::<Seq<char>>::empty());
    AcornValue::Constant(module, name.to_owned(), t, none)
}

fn make_satisfied(constant: &AcornValue, arg_types: Vec<AcornType>, condition: &AcornValue) -> (r:
    AcornValue)
    ensures
        r@ == satisfied_by(constant@, views(arg_types@), condition@),
{
    let term = AcornValue::new_apply(constant.clone(), new_vars(&arg_types, 0));
    let n = arg_types.len() as AtomId;
    let mut terms: Vec<AcornValue> = Vec::new();
    terms.push(term);
    assert(views(terms@) =~= seq![term@]);
    let return_bound = condition.bind_values(n, n, &terms);
    AcornValue::ForAll(arg_types, Box::new(return_bound))
}

} // verus!
