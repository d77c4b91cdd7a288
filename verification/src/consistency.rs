//! Every line of a block is known to the environment of the block.

use vstd::prelude::*;

use crate::acorn_type::{functional, ModuleId, TypeV};
use crate::acorn_value::{lambda, negated, value_type, ValueV};
use crate::binding_map::BindingMapV;
use crate::block::{block_start, with_identity, BlockParamsV};
use crate::declare::{
    class_step, default_step, define_step, import_step, let_step, member_step, members_step,
    names_step, prop_step, satisfy_step, subvalue_in, type_step, value_in,
};
use crate::datatypes::canonical_form;
use crate::elaborate::{
    block_of, branch_result, conditional_step, forall_step, function_step, if_step, kind_step,
    new_block, pairs, problem_step, quantified, solve_step, split_claim, statement_step,
    statements_step, theorem_step, tokens_step,
};
use crate::environment::{
    countable, line_consistent, lines_consistent, nodes_consistent, BlockV, EnvV, NodeV,
};
use crate::expression::{expr_last_token, expr_range, parse_expr, ExprV, Stop};
use crate::line_map::LineType;
use crate::project::ProjectV;
use crate::proposition::PropositionV;
use crate::statement::{
    is_keyword, next_statement, parse_arg_list, parse_args, parse_block, parse_body, parse_braced,
    parse_class, parse_condition, parse_default, parse_define, parse_exists, parse_forall,
    parse_from, parse_function_satisfy, parse_if, parse_import, parse_inductive, parse_keyword,
    parse_let, parse_proof, parse_solve, parse_statement, parse_struct, parse_theorem,
    parse_type, stop_on, BodyV, InfoV, StatementV,
};
use crate::token::{
    after_newlines, expect_token, expect_type, Range, TokenType, TokenV,
};
use crate::typedef::{
    constructor_types, inductive_step, member_fns, struct_step, with_confusions,
    with_confusions_of, with_inductive_claims, with_injections, with_member_equations, with_type_claim,
};

verus! {

/// Whether a line belongs to a node that is there, and is covered by its block if it has one.
pub open spec fn line_settled(env: EnvV, line: int) -> bool {
    match env.lines.at(line) {
        Some(LineType::Node(i)) => i < env.nodes.len() && match env.nodes[i as int].block {
            Some(b) => b.env.lines.at(line) is Some,
            None => true,
        },
        _ => true,
    }
}

/// Whether all lines are settled, at every depth where nodes can be numbered.
pub open spec fn well_lined(env: EnvV) -> bool
    decreases env,
{
    &&& env.nodes.len() <= usize::MAX ==> forall|line: int| #[trigger] line_settled(env, line)
    &&& blocks_well_lined(env.nodes)
}

/// The same inside the blocks of nodes.
pub open spec fn blocks_well_lined(nodes: Seq<NodeV>) -> bool
    decreases nodes,
{
    forall|k: int|
        0 <= k < nodes.len() ==> match (#[trigger] nodes[k]).block {
            Some(b) => well_lined(b.env),
            None => true,
        }
}

/// Whether an environment that starts at a line is well lined.
#[verifier::opaque]
pub open spec fn good_from(start: u32, env: EnvV) -> bool {
    env.lines.first_line == start && well_lined(env)
}

/// Whether a block is well lined and covers the lines from `first` to `last`.
pub open spec fn covers_lines(b: BlockV, first: u32, last: u32) -> bool {
    well_lined(b.env) && b.env.lines.first_line <= first && last < b.env.lines.next_line()
}

proof fn lemma_same_lines(start: u32, a: EnvV, b: EnvV)
    requires
        good_from(start, a),
        a.nodes == b.nodes,
        a.lines == b.lines,
    ensures
        good_from(start, b),
{
    reveal(good_from);
    assert forall|line: int| a.nodes.len() <= usize::MAX implies #[trigger] line_settled(b, line) by {
        assert(line_settled(a, line));
    }
}

broadcast proof fn lemma_bindings(start: u32, env: EnvV, b: BindingMapV)
    requires
        good_from(start, env),
    ensures
        #[trigger] good_from(start, env.with_bindings(b)),
{
    lemma_same_lines(start, env, env.with_bindings(b));
}

broadcast proof fn lemma_range(start: u32, env: EnvV, name: Seq<char>, range: Range)
    requires
        good_from(start, env),
    ensures
        #[trigger] good_from(start, env.with_range(name, range)),
{
    lemma_same_lines(start, env, env.with_range(name, range));
}

proof fn lemma_any_node(
    start: u32,
    env: EnvV,
    p: ProjectV,
    structural: bool,
    prop: PropositionV,
    block: Option<BlockV>,
)
    requires
        good_from(start, env),
        block matches Some(b) ==> well_lined(b.env),
    ensures
        good_from(start, env.with_node(p, structural, prop, block)),
{
    reveal(good_from);
    let next = env.with_node(p, structural, prop, block);
    assert forall|k: int| 0 <= k < next.nodes.len() implies match (#[trigger] next.nodes[k]).block {
        Some(b) => well_lined(b.env),
        None => true,
    } by {
        if k < env.nodes.len() {
            assert(next.nodes[k] == env.nodes[k]);
        }
    }
    assert forall|line: int| next.nodes.len() <= usize::MAX implies #[trigger] line_settled(
        next,
        line,
    ) by {
        assert(line_settled(env, line));
        if let Some(LineType::Node(i)) = env.lines.at(line) {
            assert(next.nodes[i as int] == env.nodes[i as int]);
        }
    }
}

broadcast proof fn lemma_node(
    start: u32,
    env: EnvV,
    p: ProjectV,
    structural: bool,
    prop: PropositionV,
)
    requires
        good_from(start, env),
    ensures
        #[trigger] good_from(start, env.with_node(p, structural, prop, None)),
{
    lemma_any_node(start, env, p, structural, prop, None);
}

broadcast proof fn lemma_lines(start: u32, env: EnvV, t: LineType, first: u32, last: u32)
    requires
        good_from(start, env),
        !(t is Node),
    ensures
        #[trigger] good_from(start, env.with_lines(t, first, last)),
{
    reveal(good_from);
    let next = env.with_lines(t, first, last);
    assert forall|line: int| next.nodes.len() <= usize::MAX implies #[trigger] line_settled(
        next,
        line,
    ) by {
        assert(line_settled(env, line));
    }
}

/// A node and the lines that belong to it.
proof fn lemma_node_lines(
    start: u32,
    env: EnvV,
    p: ProjectV,
    structural: bool,
    prop: PropositionV,
    block: Option<BlockV>,
    first: u32,
    last: u32,
)
    requires
        good_from(start, env),
        block matches Some(b) ==> covers_lines(b, first, last),
    ensures
        good_from(
            start,
            env.with_node(p, structural, prop, block).with_lines(
                LineType::Node(env.nodes.len() as usize),
                first,
                last,
            ),
        ),
{
    lemma_any_node(start, env, p, structural, prop, block);
    reveal(good_from);
    let mid = env.with_node(p, structural, prop, block);
    let next = mid.with_lines(LineType::Node(env.nodes.len() as usize), first, last);
    assert forall|line: int| next.nodes.len() <= usize::MAX implies #[trigger] line_settled(
        next,
        line,
    ) by {
        assert(line_settled(mid, line));
        assert(mid.nodes[env.nodes.len() as int].block == block);
    }
}

broadcast group group_lines {
    lemma_bindings,
    lemma_range,
    lemma_node,
    lemma_lines,
}

proof fn lemma_identity(start: u32, env: EnvV, p: ProjectV, name: Seq<char>)
    requires
        good_from(start, env),
    ensures
        good_from(start, with_identity(env, p, name)),
{
    broadcast use group_lines;

}

proof fn lemma_let(
    start: u32,
    env: EnvV,
    p: ProjectV,
    class: Option<Seq<char>>,
    name: Seq<char>,
    name_token: TokenV,
    type_expr: ExprV,
    value: ExprV,
    range: Range,
)
    requires
        good_from(start, env),
    ensures
        good_from(start, let_step(env, p, class, name, name_token, type_expr, value, range).0),
{
    reveal(let_step);
    assert forall|b: BindingMapV, full: Seq<char>| good_from(
        start,
        #[trigger] with_identity(env.with_bindings(b).with_range(full, range), p, full),
    ) by {
        broadcast use group_lines;

        lemma_identity(start, env.with_bindings(b).with_range(full, range), p, full);
    }
}

proof fn lemma_define(
    start: u32,
    env: EnvV,
    p: ProjectV,
    class: Option<Seq<char>>,
    name: Seq<char>,
    name_token: TokenV,
    type_params: Seq<TokenV>,
    args: Seq<ExprV>,
    return_type: ExprV,
    return_value: ExprV,
    range: Range,
)
    requires
        good_from(start, env),
    ensures
        good_from(
            start,
            define_step(
                env,
                p,
                class,
                name,
                name_token,
                type_params,
                args,
                return_type,
                return_value,
                range,
            ).0,
        ),
{
    reveal(define_step);
    assert forall|b: BindingMapV, full: Seq<char>| good_from(
        start,
        #[trigger] with_identity(env.with_bindings(b).with_range(full, range), p, full),
    ) by {
        broadcast use group_lines;

        lemma_identity(start, env.with_bindings(b).with_range(full, range), p, full);
    }
}

proof fn lemma_names(
    start: u32,
    env: EnvV,
    p: ProjectV,
    module: ModuleId,
    names: Seq<TokenV>,
    range: Range,
    n: nat,
)
    requires
        good_from(start, env),
    ensures
        good_from(start, names_step(env, p, module, names, range, n).0),
    decreases n,
{
    broadcast use group_lines;

    if n > 0 && n <= names.len() {
        lemma_names(start, env, p, module, names, range, (n - 1) as nat);
        let before = names_step(env, p, module, names, range, (n - 1) as nat).0;
        let name = names[n - 1].text;
        assert forall|b: BindingMapV| good_from(
            start,
            #[trigger] with_identity(before.with_bindings(b).with_range(name, range), p, name),
        ) by {
            lemma_identity(start, before.with_bindings(b).with_range(name, range), p, name);
        }
    }
}

proof fn lemma_members(
    start: u32,
    env: EnvV,
    p: ProjectV,
    class: Seq<char>,
    ss: Seq<StatementV>,
    n: nat,
)
    requires
        good_from(start, env),
    ensures
        good_from(start, members_step(env, p, class, ss, n).0),
    decreases n,
{
    if n > 0 && n <= ss.len() {
        lemma_members(start, env, p, class, ss, (n - 1) as nat);
        reveal(member_step);
        let before = members_step(env, p, class, ss, (n - 1) as nat).0;
        let s = ss[n - 1];
        match s.statement {
            InfoV::Let { name, name_token, type_expr, value } => {
                lemma_let(
                    start,
                    before,
                    p,
                    Some(class),
                    name,
                    name_token,
                    type_expr,
                    value,
                    s.range(),
                );
            },
            InfoV::Define { name, name_token, type_params, args, return_type, return_value } => {
                lemma_define(
                    start,
                    before,
                    p,
                    Some(class),
                    name,
                    name_token,
                    type_params,
                    args,
                    return_type,
                    return_value,
                    s.range(),
                );
            },
            _ => {},
        }
    }
}

proof fn lemma_satisfy(
    start: u32,
    env: EnvV,
    p: ProjectV,
    s: StatementV,
    declarations: Seq<ExprV>,
    condition: ExprV,
)
    requires
        good_from(start, env),
    ensures
        good_from(start, satisfy_step(env, p, s, declarations, condition).0),
{
    broadcast use group_lines;

    reveal(satisfy_step);
    assert forall|prop: PropositionV| good_from(
        start,
        #[trigger] env.with_node(p, false, prop, None).with_prop_lines(env.nodes.len(), s),
    ) by {
        lemma_node_lines(
            start,
            env,
            p,
            false,
            prop,
            None,
            s.first_token.line_number,
            s.last_token.line_number,
        );
    }
}

proof fn lemma_prop(start: u32, env: EnvV, p: ProjectV, s: StatementV, claim: ExprV)
    requires
        good_from(start, env),
    ensures
        good_from(start, prop_step(env, p, s, claim).0),
{
    reveal(prop_step);
    assert forall|explicit: bool, prop: PropositionV| good_from(
        start,
        #[trigger] (EnvV { includes_explicit_false: explicit, ..env }).with_node(
            p,
            false,
            prop,
            None,
        ).with_prop_lines(env.nodes.len(), s),
    ) by {
        let same = EnvV { includes_explicit_false: explicit, ..env };
        lemma_same_lines(start, env, same);
        lemma_node_lines(
            start,
            same,
            p,
            false,
            prop,
            None,
            s.first_token.line_number,
            s.last_token.line_number,
        );
    }
}

proof fn lemma_equations(
    start: u32,
    env: EnvV,
    p: ProjectV,
    name: Seq<char>,
    fields: Seq<(TokenV, ExprV)>,
    types: Seq<TypeV>,
    new_fn: ValueV,
    getters: Seq<ValueV>,
    n: nat,
)
    requires
        good_from(start, env),
    ensures
        good_from(
            start,
            with_member_equations(env, p, name, fields, types, new_fn, getters, n),
        ),
    decreases n,
{
    broadcast use group_lines;

    if n > 0 && n <= fields.len() {
        lemma_equations(start, env, p, name, fields, types, new_fn, getters, (n - 1) as nat);
    }
}

proof fn lemma_struct(
    start: u32,
    env: EnvV,
    p: ProjectV,
    s: StatementV,
    name: Seq<char>,
    name_token: TokenV,
    fields: Seq<(TokenV, ExprV)>,
)
    requires
        good_from(start, env),
    ensures
        good_from(start, struct_step(env, p, s, name, name_token, fields).0),
{
    reveal(struct_step);
    assert forall|
        b: BindingMapV,
        prop: PropositionV,
        types: Seq<TypeV>,
        new_fn: ValueV,
        getters: Seq<ValueV>,
    |
        good_from(
            start,
            #[trigger] with_member_equations(
                env.with_bindings(b).with_node(p, true, prop, None),
                p,
                name,
                fields,
                types,
                new_fn,
                getters,
                fields.len(),
            ),
        ) by {
        broadcast use group_lines;

        lemma_equations(
            start,
            env.with_bindings(b).with_node(p, true, prop, None),
            p,
            name,
            fields,
            types,
            new_fn,
            getters,
            fields.len(),
        );
    }
}

proof fn lemma_confusions_of(
    start: u32,
    env: EnvV,
    p: ProjectV,
    range: Range,
    name: Seq<char>,
    tokens: Seq<TokenV>,
    fns: Seq<ValueV>,
    lists: Seq<Seq<TypeV>>,
    k: int,
    n: nat,
)
    requires
        good_from(start, env),
    ensures
        good_from(start, with_confusions_of(env, p, range, name, tokens, fns, lists, k, n)),
    decreases n,
{
    broadcast use group_lines;

    if n > 0 {
        lemma_confusions_of(start, env, p, range, name, tokens, fns, lists, k, (n - 1) as nat);
    }
}

proof fn lemma_confusions(
    start: u32,
    env: EnvV,
    p: ProjectV,
    range: Range,
    name: Seq<char>,
    tokens: Seq<TokenV>,
    fns: Seq<ValueV>,
    lists: Seq<Seq<TypeV>>,
    n: nat,
)
    requires
        good_from(start, env),
    ensures
        good_from(start, with_confusions(env, p, range, name, tokens, fns, lists, n)),
    decreases n,
{
    if n > 0 {
        lemma_confusions(start, env, p, range, name, tokens, fns, lists, (n - 1) as nat);
        let before = with_confusions(env, p, range, name, tokens, fns, lists, (n - 1) as nat);
        lemma_confusions_of(
            start,
            before,
            p,
            range,
            name,
            tokens,
            fns,
            lists,
            n - 1,
            (n - 1) as nat,
        );
    }
}

proof fn lemma_injections(
    start: u32,
    env: EnvV,
    p: ProjectV,
    range: Range,
    name: Seq<char>,
    tokens: Seq<TokenV>,
    fns: Seq<ValueV>,
    lists: Seq<Seq<TypeV>>,
    n: nat,
)
    requires
        good_from(start, env),
    ensures
        good_from(start, with_injections(env, p, range, name, tokens, fns, lists, n)),
    decreases n,
{
    broadcast use group_lines;

    if n > 0 {
        lemma_injections(start, env, p, range, name, tokens, fns, lists, (n - 1) as nat);
    }
}

proof fn lemma_claims(
    start: u32,
    env: EnvV,
    p: ProjectV,
    s: StatementV,
    name: Seq<char>,
    name_token: TokenV,
    tokens: Seq<TokenV>,
    lists: Seq<Seq<TypeV>>,
)
    requires
        good_from(start, env),
    ensures
        good_from(start, with_inductive_claims(env, p, s, name, name_token, tokens, lists)),
{
    broadcast use group_lines;

    let module = env.bindings.module;
    let t = TypeV::Data(module, name);
    let fns = member_fns(module, name, tokens, constructor_types(t, lists));
    let range = Range { start: s.first_token.start_pos(), end: name_token.end_pos() };
    lemma_confusions(start, env, p, range, name, tokens, fns, lists, tokens.len());
    let env1 = with_confusions(env, p, range, name, tokens, fns, lists, tokens.len());
    let env2 = with_type_claim(env1, p, range, name, "new"@, canonical_form(t, fns, lists));
    lemma_injections(start, env2, p, range, name, tokens, fns, lists, tokens.len());
}

proof fn lemma_inductive(
    start: u32,
    env: EnvV,
    p: ProjectV,
    s: StatementV,
    name: Seq<char>,
    name_token: TokenV,
    cs: Seq<(TokenV, Option<ExprV>)>,
)
    requires
        good_from(start, env),
    ensures
        good_from(start, inductive_step(env, p, s, name, name_token, cs).0),
{
    reveal(inductive_step);
    assert forall|b: BindingMapV| good_from(start, #[trigger] env.with_bindings(b)) by {
        broadcast use group_lines;

    }
    assert forall|b: BindingMapV, c: BindingMapV, tokens: Seq<TokenV>, lists: Seq<Seq<TypeV>>|
        good_from(
            start,
            #[trigger] with_inductive_claims(
                env.with_bindings(b).with_bindings(c),
                p,
                s,
                name,
                name_token,
                tokens,
                lists,
            ),
        ) by {
        broadcast use group_lines;

        lemma_claims(
            start,
            env.with_bindings(b).with_bindings(c),
            p,
            s,
            name,
            name_token,
            tokens,
            lists,
        );
    }
}

proof fn lemma_plain_kinds(start: u32, env: EnvV, p: ProjectV, s: StatementV)
    requires
        good_from(start, env),
        !has_body(s),
    ensures
        good_from(start, kind_step(env, p, s).0),
{
    broadcast use group_lines;

    reveal_with_fuel(kind_step, 1);
    let other = env.with_other_lines(s);
    assert(good_from(start, other));
    match s.statement {
        InfoV::Type { name, type_expr } => {
            reveal(type_step);
        },
        InfoV::Let { name, name_token, type_expr, value } => {
            lemma_let(start, other, p, None, name, name_token, type_expr, value, s.range());
        },
        InfoV::Define { name, name_token, type_params, args, return_type, return_value } => {
            lemma_define(
                start,
                other,
                p,
                None,
                name,
                name_token,
                type_params,
                args,
                return_type,
                return_value,
                s.range(),
            );
        },
        InfoV::Prop { claim } => {
            lemma_prop(start, env, p, s, claim);
        },
        InfoV::Exists { quantifiers, claim } => {
            lemma_satisfy(start, env, p, s, quantifiers, claim);
        },
        InfoV::VariableSatisfy { declarations, condition } => {
            lemma_satisfy(start, env, p, s, declarations, condition);
        },
        InfoV::Struct { name, name_token, fields } => {
            lemma_struct(start, other, p, s, name, name_token, fields);
        },
        InfoV::Inductive { name, name_token, constructors } => {
            lemma_inductive(start, other, p, s, name, name_token, constructors);
        },
        InfoV::Import { components, names } => {
            reveal(import_step);
            assert forall|b: BindingMapV, module: ModuleId| good_from(
                start,
                #[trigger] names_step(
                    other.with_bindings(b),
                    p,
                    module,
                    names,
                    s.range(),
                    names.len(),
                ).0,
            ) by {
                lemma_names(
                    start,
                    other.with_bindings(b),
                    p,
                    module,
                    names,
                    s.range(),
                    names.len(),
                );
            }
        },
        InfoV::Class { name, name_token, body } => {
            reveal(class_step);
            lemma_members(start, other, p, name, body.statements, body.statements.len());
        },
        InfoV::Default { type_expr } => {
            reveal(default_step);
        },
        _ => {},
    }
}

/// Whether a statement can have a block.
pub open spec fn has_body(s: StatementV) -> bool {
    s.statement is Theorem || s.statement is ForAll || s.statement is If
        || s.statement is FunctionSatisfy || s.statement is Solve || s.statement is Problem
}

/// Whether a statement ends with its block, and so do those in the block.
pub open spec fn ends_with_block(s: StatementV) -> bool
    decreases s, 0nat,
{
    let last = s.last_token.line_number;
    match s.statement {
        InfoV::Theorem { body, .. } => match body {
            Some(b) => last <= b.right_brace.line_number && all_end(b.statements, b.statements.len()),
            None => true,
        },
        InfoV::FunctionSatisfy { body, .. } => match body {
            Some(b) => last <= b.right_brace.line_number && all_end(b.statements, b.statements.len()),
            None => true,
        },
        InfoV::ForAll { body, .. } => last <= body.right_brace.line_number && all_end(
            body.statements,
            body.statements.len(),
        ),
        InfoV::Solve { body, .. } => last <= body.right_brace.line_number && all_end(
            body.statements,
            body.statements.len(),
        ),
        InfoV::Problem { body } => last <= body.right_brace.line_number && all_end(
            body.statements,
            body.statements.len(),
        ),
        InfoV::If { body, else_body, .. } => all_end(body.statements, body.statements.len())
            && match else_body {
            Some(b) => all_end(b.statements, b.statements.len()),
            None => true,
        },
        _ => true,
    }
}

/// Whether the first `n` statements end with their blocks.
pub open spec fn all_end(ss: Seq<StatementV>, n: nat) -> bool
    decreases ss, n,
{
    n == 0 || n > ss.len() || all_end(ss, (n - 1) as nat) && ends_with_block(ss[n - 1])
}

proof fn lemma_block_start(
    env: EnvV,
    p: ProjectV,
    type_params: Seq<Seq<char>>,
    args: Seq<(Seq<char>, TypeV)>,
    params: BlockParamsV,
    first_line: u32,
    implicit: bool,
)
    ensures
        block_start(env, p, type_params, args, params, first_line, implicit) matches Ok((sub, _))
            ==> good_from(first_line, sub),
{
    broadcast use group_lines;

    reveal(block_start);
    assert forall|sub: EnvV|
        sub.nodes.len() == 0 && sub.lines.types.len() == 0 && sub.lines.first_line
            == first_line implies #[trigger] good_from(first_line, sub) by {
        reveal(good_from);
    }
    assert forall|sub: EnvV, name: Seq<char>| good_from(first_line, sub) implies good_from(
        first_line,
        #[trigger] with_identity(sub, p, name),
    ) by {
        lemma_identity(first_line, sub, p, name);
    }
}

/// A block covers the lines from its first one to its last one.
proof fn lemma_block_of(
    env: EnvV,
    p: ProjectV,
    type_params: Seq<Seq<char>>,
    args: Seq<(Seq<char>, TypeV)>,
    params: BlockParamsV,
    first_line: u32,
    body: BodyV,
)
    requires
        all_end(body.statements, body.statements.len()),
    ensures
        block_of(env, p, type_params, args, params, first_line, body) matches Ok(b) ==> covers_lines(
            b,
            first_line,
            body.right_brace.line_number,
        ),
    decreases body, 1int,
{
    broadcast use group_lines;

    lemma_block_start(env, p, type_params, args, params, first_line, false);
    if let Ok((sub, goal)) = block_start(env, p, type_params, args, params, first_line, false) {
        let open = sub.with_lines(LineType::Opening, first_line, body.left_brace.line_number);
        let n = body.statements.len();
        lemma_statements(first_line, open, p, body.statements, n);
        let inside = statements_step(open, p, body.statements, n).0;
        let last = body.right_brace.line_number;
        assert(good_from(first_line, inside.with_lines(LineType::Closing, last, last)));
        reveal(good_from);
    }
}

proof fn lemma_new_block(
    env: EnvV,
    p: ProjectV,
    type_params: Seq<Seq<char>>,
    args: Seq<(Seq<char>, TypeV)>,
    params: BlockParamsV,
    first_line: u32,
    last_line: u32,
    body: Option<BodyV>,
)
    requires
        body matches Some(b) ==> all_end(b.statements, b.statements.len()) && last_line
            <= b.right_brace.line_number,
    ensures
        new_block(
            env,
            p,
            type_params,
            args,
            params,
            first_line,
            last_line,
            body,
        ) matches Ok(b) ==> covers_lines(b, first_line, last_line),
    decreases body, 1int,
{
    match body {
        Some(b) => {
            lemma_block_of(env, p, type_params, args, params, first_line, b);
        },
        None => {
            broadcast use group_lines;

            lemma_block_start(env, p, type_params, args, params, first_line, true);
            if let Ok((sub, goal)) = block_start(
                env,
                p,
                type_params,
                args,
                params,
                first_line,
                true,
            ) {
                let inside = sub.with_lines(LineType::Opening, first_line, last_line);
                assert(good_from(first_line, inside));
                reveal(good_from);
            }
        },
    }
}

proof fn lemma_statements(start: u32, env: EnvV, p: ProjectV, ss: Seq<StatementV>, n: nat)
    requires
        good_from(start, env),
        all_end(ss, n),
    ensures
        good_from(start, statements_step(env, p, ss, n).0),
    decreases ss, n,
{
    if n > 0 && n <= ss.len() {
        lemma_statements(start, env, p, ss, (n - 1) as nat);
        let before = statements_step(env, p, ss, (n - 1) as nat);
        if before.1 is Ok {
            lemma_statement(start, before.0, p, ss[n - 1]);
            assert(statements_step(env, p, ss, n) == statement_step(before.0, p, ss[n - 1]));
        }
    }
}

proof fn lemma_statement(start: u32, env: EnvV, p: ProjectV, s: StatementV)
    requires
        good_from(start, env),
        ends_with_block(s),
    ensures
        good_from(start, statement_step(env, p, s).0),
    decreases s, 9int,
{
    if !env.includes_explicit_false {
        assert(statement_step(env, p, s) == kind_step(env, p, s)) by {
            reveal_with_fuel(kind_step, 1);
        }
        if has_body(s) {
            lemma_kind(start, env, p, s);
        } else {
            lemma_plain_kinds(start, env, p, s);
        }
    }
}

proof fn lemma_kind(start: u32, env: EnvV, p: ProjectV, s: StatementV)
    requires
        good_from(start, env),
        ends_with_block(s),
        has_body(s),
    ensures
        good_from(start, kind_step(env, p, s).0),
    decreases s, 8int,
{
    reveal_with_fuel(kind_step, 1);
    match s.statement {
        InfoV::Theorem { axiomatic, name, type_params, args, claim, body } => {
            lemma_theorem(start, env, p, s, axiomatic, name, type_params, args, claim, body);
            reveal_with_fuel(theorem_step, 1);
        },
        InfoV::ForAll { quantifiers, body } => {
            lemma_forall(start, env, p, s, quantifiers, body);
            reveal_with_fuel(forall_step, 1);
        },
        InfoV::If { condition, body, else_body, .. } => {
            lemma_if(start, env, p, s);
            reveal_with_fuel(if_step, 1);
        },
        InfoV::FunctionSatisfy {
            name,
            name_token,
            declarations,
            satisfy_token,
            condition,
            body,
        } => {
            lemma_function(
                start,
                env,
                p,
                s,
                name,
                name_token,
                declarations,
                satisfy_token,
                condition,
                body,
            );
            reveal_with_fuel(function_step, 1);
        },
        InfoV::Solve { target, body } => {
            lemma_solve(start, env, p, s, target, body);
            reveal_with_fuel(solve_step, 1);
        },
        InfoV::Problem { body } => {
            lemma_problem(start, env, p, s, body);
            reveal_with_fuel(problem_step, 1);
        },
        _ => {},
    }
}

proof fn lemma_statement_node(
    start: u32,
    env: EnvV,
    p: ProjectV,
    s: StatementV,
    structural: bool,
    block: Option<BlockV>,
)
    requires
        good_from(start, env),
        block matches Some(b) ==> covers_lines(
            b,
            s.first_token.line_number,
            s.last_token.line_number,
        ),
    ensures
        forall|prop: PropositionV|
            good_from(
                start,
                #[trigger] env.with_node(p, structural, prop, block).with_prop_lines(
                    env.nodes.len(),
                    s,
                ),
            ),
{
    assert forall|prop: PropositionV| good_from(
        start,
        #[trigger] env.with_node(p, structural, prop, block).with_prop_lines(env.nodes.len(), s),
    ) by {
        lemma_node_lines(
            start,
            env,
            p,
            structural,
            prop,
            block,
            s.first_token.line_number,
            s.last_token.line_number,
        );
    }
}

proof fn lemma_theorem(
    start: u32,
    env: EnvV,
    p: ProjectV,
    s: StatementV,
    axiomatic: bool,
    name: Seq<char>,
    type_params: Seq<TokenV>,
    args: Seq<ExprV>,
    claim: ExprV,
    body: Option<BodyV>,
)
    requires
        good_from(start, env),
        body matches Some(b) ==> all_end(b.statements, b.statements.len())
            && s.last_token.line_number <= b.right_brace.line_number,
    ensures
        good_from(
            start,
            theorem_step(env, p, s, axiomatic, name, type_params, args, claim, body).0,
        ),
    decreases body, 2int,
{
    broadcast use group_lines;

    reveal_with_fuel(theorem_step, 1);
    let range = Range { start: s.first_token.start_pos(), end: expr_last_token(claim).end_pos() };
    let env1 = env.with_range(name, range);
    assert(good_from(start, env1));
    if let Ok(sub) = subvalue_in(env1, p, type_params, args, None, claim) {
        if let Some(v) = sub.value {
            let f = lambda(sub.arg_types, v);
            let env2 = env1.with_bindings(
                env.bindings.with_constant(name, sub.type_params, value_type(f), Some(f)),
            );
            assert(good_from(start, env2));
            lemma_statement_node(start, env2, p, s, axiomatic, None);
            let (premise, goal) = split_claim(v, claim);
            let params = BlockParamsV::Theorem(name, premise, goal);
            let first = s.first_token.line_number;
            let last = s.last_token.line_number;
            let pairs = pairs(sub.arg_names, sub.arg_types);
            lemma_new_block(env2, p, sub.type_params, pairs, params, first, last, body);
            if let Ok(b) = new_block(env2, p, sub.type_params, pairs, params, first, last, body) {
                lemma_statement_node(start, env2, p, s, axiomatic, Some(b));
            }
        }
    }
}

proof fn lemma_forall(
    start: u32,
    env: EnvV,
    p: ProjectV,
    s: StatementV,
    quantifiers: Seq<ExprV>,
    body: BodyV,
)
    requires
        good_from(start, env),
        all_end(body.statements, body.statements.len()),
        s.last_token.line_number <= body.right_brace.line_number,
    ensures
        good_from(start, forall_step(env, p, s, quantifiers, body).0),
    decreases body, 2int,
{
    reveal_with_fuel(forall_step, 1);
    if let Ok(args) = quantified(env.bindings, p, quantifiers, quantifiers.len()) {
        let first = s.first_token.line_number;
        let none = Seq::<Seq<char>>::empty();
        lemma_block_of(env, p, none, args, BlockParamsV::ForAll, first, body);
        if let Ok(b) = block_of(env, p, none, args, BlockParamsV::ForAll, first, body) {
            lemma_statement_node(start, env, p, s, false, Some(b));
        }
    }
}

proof fn lemma_conditional(
    start: u32,
    env: EnvV,
    p: ProjectV,
    condition: ValueV,
    range: Range,
    first_line: u32,
    body: BodyV,
    if_claim: Option<ValueV>,
)
    requires
        good_from(start, env),
        all_end(body.statements, body.statements.len()),
    ensures
        good_from(
            start,
            conditional_step(env, p, condition, range, first_line, body, if_claim).0,
        ),
    decreases body, 2int,
{
    reveal(branch_result);
    let none = Seq::<Seq<char>>::empty();
    let no_args = Seq::<(Seq<char>, TypeV)>::empty();
    let params = BlockParamsV::Conditional(condition, range);
    lemma_block_of(env, p, none, no_args, params, first_line, body);
    if let Ok(b) = block_of(env, p, none, no_args, params, first_line, body) {
        let last = body.right_brace.line_number;
        assert forall|prop: PropositionV| good_from(
            start,
            #[trigger] env.with_node(p, false, prop, Some(b)).with_lines(
                LineType::Node(env.nodes.len() as usize),
                first_line,
                last,
            ),
        ) by {
            lemma_node_lines(start, env, p, false, prop, Some(b), first_line, last);
        }
    }
}

proof fn lemma_if(start: u32, env: EnvV, p: ProjectV, s: StatementV)
    requires
        good_from(start, env),
        ends_with_block(s),
        s.statement is If,
    ensures
        good_from(start, if_step(env, p, s).0),
    decreases s, 7int,
{
    reveal_with_fuel(if_step, 1);
    if let InfoV::If { condition, body, else_body, .. } = s.statement {
        if let Ok(v) = value_in(env, p, condition, Some(TypeV::Bool)) {
            let range = expr_range(condition);
            let first = s.first_token.line_number;
            lemma_conditional(start, env, p, v, range, first, body, None);
            let step = conditional_step(env, p, v, range, first, body, None);
            if let (Ok(claim), Some(b)) = (step.1, else_body) {
                let line = b.left_brace.line_number;
                lemma_conditional(start, step.0, p, negated(v), range, line, b, claim);
            }
        }
    }
}

proof fn lemma_function(
    start: u32,
    env: EnvV,
    p: ProjectV,
    s: StatementV,
    name: Seq<char>,
    name_token: TokenV,
    declarations: Seq<ExprV>,
    satisfy_token: TokenV,
    condition: ExprV,
    body: Option<BodyV>,
)
    requires
        good_from(start, env),
        body matches Some(b) ==> all_end(b.statements, b.statements.len())
            && s.last_token.line_number <= b.right_brace.line_number,
    ensures
        good_from(
            start,
            function_step(
                env,
                p,
                s,
                name,
                name_token,
                declarations,
                satisfy_token,
                condition,
                body,
            ).0,
        ),
    decreases body, 2int,
{
    broadcast use group_lines;

    reveal_with_fuel(function_step, 1);
    let range = Range { start: s.first_token.start_pos(), end: satisfy_token.end_pos() };
    let env1 = env.with_range(name, range);
    assert(good_from(start, env1));
    if let Ok(sub) = subvalue_in(env1, p, Seq::empty(), declarations, None, condition) {
        if let Some(v) = sub.value {
            let types = sub.arg_types.drop_last();
            let ret = sub.arg_types.last();
            let params = BlockParamsV::FunctionSatisfy(v, ret, expr_range(condition));
            let first = s.first_token.line_number;
            let last = s.last_token.line_number;
            let pairs = pairs(sub.arg_names.drop_last(), types);
            let none = Seq::<Seq<char>>::empty();
            lemma_new_block(env1, p, none, pairs, params, first, last, body);
            if let Ok(b) = new_block(env1, p, none, pairs, params, first, last, body) {
                let env2 = env1.with_bindings(
                    env.bindings.with_constant(name, Seq::empty(), functional(types, ret), None),
                );
                assert(good_from(start, env2));
                lemma_statement_node(start, env2, p, s, false, Some(b));
            }
        }
    }
}

proof fn lemma_solve(
    start: u32,
    env: EnvV,
    p: ProjectV,
    s: StatementV,
    target: ExprV,
    body: BodyV,
)
    requires
        good_from(start, env),
        all_end(body.statements, body.statements.len()),
        s.last_token.line_number <= body.right_brace.line_number,
    ensures
        good_from(start, solve_step(env, p, s, target, body).0),
    decreases body, 2int,
{
    reveal_with_fuel(solve_step, 1);
    if let Ok(v) = value_in(env, p, target, None) {
        let range = Range {
            start: s.first_token.start_pos(),
            end: expr_last_token(target).end_pos(),
        };
        let none = Seq::<Seq<char>>::empty();
        let no_args = Seq::<(Seq<char>, TypeV)>::empty();
        let params = BlockParamsV::Solve(v, range);
        let first = s.first_token.line_number;
        lemma_block_of(env, p, none, no_args, params, first, body);
        if let Ok(b) = block_of(env, p, none, no_args, params, first, body) {
            lemma_statement_node(start, env, p, s, false, Some(b));
            lemma_statement_node(start, env, p, s, false, Some(BlockV { goal: None, ..b }));
        }
    }
}

proof fn lemma_problem(start: u32, env: EnvV, p: ProjectV, s: StatementV, body: BodyV)
    requires
        good_from(start, env),
        all_end(body.statements, body.statements.len()),
        s.last_token.line_number <= body.right_brace.line_number,
    ensures
        good_from(start, problem_step(env, p, s, body).0),
    decreases body, 2int,
{
    reveal_with_fuel(problem_step, 1);
    let none = Seq::<Seq<char>>::empty();
    let no_args = Seq::<(Seq<char>, TypeV)>::empty();
    let first = s.first_token.line_number;
    lemma_block_of(env, p, none, no_args, BlockParamsV::Problem, first, body);
    if let Ok(b) = block_of(env, p, none, no_args, BlockParamsV::Problem, first, body) {
        lemma_statement_node(start, env, p, s, false, Some(b));
    }
}

/// Where nodes can be numbered, lines that are settled are consistent.
pub proof fn lemma_well_lined(env: EnvV)
    requires
        well_lined(env),
        countable(env.nodes),
    ensures
        lines_consistent(env),
    decreases env,
{
    assert forall|line: int| #[trigger] line_consistent(env, line) by {
        assert(line_settled(env, line));
    }
    lemma_blocks_well_lined(env.nodes);
}

proof fn lemma_blocks_well_lined(nodes: Seq<NodeV>)
    requires
        blocks_well_lined(nodes),
        countable(nodes),
    ensures
        nodes_consistent(nodes),
    decreases nodes,
{
    assert forall|k: int| 0 <= k < nodes.len() implies match (#[trigger] nodes[k]).block {
        Some(b) => lines_consistent(b.env),
        None => true,
    } by {
        if let Some(b) = nodes[k].block {
            lemma_well_lined(b.env);
        }
    }
}

/// A new environment has no lines that could be inconsistent.
pub proof fn law_new_environments_are_well_lined(env: EnvV)
    requires
        env.nodes.len() == 0,
        env.lines.types.len() == 0,
    ensures
        well_lined(env),
{
}

/// Adding a statement that ends with its block keeps lines consistent, whether or not it can be
/// added.
pub proof fn law_statements_keep_lines_consistent(env: EnvV, p: ProjectV, s: StatementV)
    requires
        well_lined(env),
        ends_with_block(s),
    ensures
        well_lined(statement_step(env, p, s).0),
        countable(statement_step(env, p, s).0.nodes) ==> lines_consistent(
            statement_step(env, p, s).0,
        ),
{
    let start = env.lines.first_line;
    assert(good_from(start, env)) by {
        reveal(good_from);
    }
    lemma_statement(start, env, p, s);
    reveal(good_from);
    let next = statement_step(env, p, s).0;
    if countable(next.nodes) {
        lemma_well_lined(next);
    }
}

proof fn lemma_all_end(ss: Seq<StatementV>, more: Seq<StatementV>, n: nat)
    requires
        all_end(ss, n),
        n <= ss.len() <= more.len(),
        forall|i: int| 0 <= i < n ==> ss[i] == more[i],
    ensures
        all_end(more, n),
    decreases n,
{
    if n > 0 {
        lemma_all_end(ss, more, (n - 1) as nat);
    }
}

proof fn lemma_parsed_block(ts: Seq<TokenV>, pos: int, acc: Seq<StatementV>)
    requires
        all_end(acc, acc.len()),
    ensures
        parse_block(ts, pos, acc) matches Ok((ss, _, _)) ==> all_end(ss, ss.len()),
    decreases ts.len() - pos, 1int,
{
    lemma_parsed_statement(ts, pos, true);
    if let Ok((Some(s), brace, p)) = parse_statement(ts, pos, true) {
        let more = acc.push(s);
        lemma_all_end(acc, more, acc.len());
        assert(all_end(more, more.len()));
        if brace is None && pos < p <= ts.len() {
            lemma_parsed_block(ts, p, more);
        }
    }
}

proof fn lemma_parsed_body(ts: Seq<TokenV>, pos: int, left_brace: TokenV)
    ensures
        parse_body(ts, pos, left_brace) matches Ok((b, _)) ==> all_end(
            b.statements,
            b.statements.len(),
        ),
    decreases ts.len() - pos, 2int,
{
    lemma_parsed_block(ts, pos, Seq::empty());
}

proof fn lemma_parsed_braces(ts: Seq<TokenV>, pos: int)
    ensures
        parse_braced(ts, pos) matches Ok((b, _)) ==> all_end(b.statements, b.statements.len()),
    decreases ts.len() - pos, 3int,
{
    if let Ok((left_brace, p)) = expect_type(ts, pos, TokenType::LeftBrace) {
        lemma_parsed_body(ts, p, left_brace);
    }
}

proof fn lemma_parsed_proof(ts: Seq<TokenV>, pos: int, end: TokenV)
    ensures
        parse_proof(ts, pos, end) matches Ok((Some(b), last, _)) ==> all_end(
            b.statements,
            b.statements.len(),
        ) && last == b.right_brace,
    decreases ts.len() - pos, 4int,
{
    lemma_parsed_braces(ts, pos);
    if 0 <= pos < ts.len() {
        lemma_parsed_braces(ts, pos + 1);
    }
}

proof fn lemma_parsed_theorem(ts: Seq<TokenV>, pos: int, keyword: TokenV, axiomatic: bool)
    ensures
        parse_theorem(ts, pos, keyword, axiomatic) matches Ok((s, _)) ==> ends_with_block(s),
    decreases ts.len() - pos, 5int,
{
    if let Ok((_, p1)) = expect_type(ts, pos, TokenType::Identifier) {
        let terminator = Stop { first: TokenType::Colon, second: TokenType::LeftBrace };
        if let Ok((_, _, opening, p2)) = parse_args(ts, p1, terminator) {
            let stop = if opening.token_type == TokenType::LeftBrace {
                stop_on(TokenType::RightBrace)
            } else {
                Stop { first: TokenType::NewLine, second: TokenType::By }
            };
            if let Ok((_, end, p3)) = parse_expr(ts, after_newlines(ts, p2), true, stop) {
                if pos < p3 <= ts.len() {
                    lemma_parsed_proof(ts, p3, end);
                }
            }
        }
    }
}

proof fn lemma_parsed_function(ts: Seq<TokenV>, pos: int, keyword: TokenV, name_token: TokenV)
    ensures
        parse_function_satisfy(ts, pos, keyword, name_token) matches Ok((s, _)) ==> ends_with_block(
            s,
        ),
    decreases ts.len() - pos, 5int,
{
    let arrow = stop_on(TokenType::RightArrow);
    if let Ok((_, _, p1)) = parse_arg_list(ts, pos, arrow, Seq::empty()) {
        if let Ok((_, _, p2)) = parse_expr(ts, p1, false, stop_on(TokenType::Satisfy)) {
            if let Ok((_, brace, p3)) = parse_condition(ts, p2) {
                if pos < p3 <= ts.len() {
                    lemma_parsed_proof(ts, p3, brace);
                }
            }
        }
    }
}

proof fn lemma_parsed_if(ts: Seq<TokenV>, pos: int, keyword: TokenV)
    ensures
        parse_if(ts, pos, keyword) matches Ok((s, _)) ==> ends_with_block(s),
    decreases ts.len() - pos, 4int,
{
    if let Ok((_, left_brace, p1)) = parse_expr(ts, pos, true, stop_on(TokenType::LeftBrace)) {
        if pos < p1 <= ts.len() {
            lemma_parsed_body(ts, p1, left_brace);
            if let Ok((_, p2)) = parse_body(ts, p1, left_brace) {
                let p = after_newlines(ts, p2);
                if pos < p2 <= p < ts.len() {
                    lemma_parsed_braces(ts, p + 1);
                }
            }
        }
    }
}

proof fn lemma_parsed_forall(ts: Seq<TokenV>, pos: int, keyword: TokenV)
    ensures
        parse_forall(ts, pos, keyword) matches Ok((s, _)) ==> ends_with_block(s),
    decreases ts.len() - pos, 4int,
{
    if let Ok((_, _, left_brace, p)) = parse_args(ts, pos, stop_on(TokenType::LeftBrace)) {
        if pos < p <= ts.len() {
            lemma_parsed_body(ts, p, left_brace);
        }
    }
}

proof fn lemma_parsed_solve(ts: Seq<TokenV>, pos: int, keyword: TokenV)
    ensures
        parse_solve(ts, pos, keyword) matches Ok((s, _)) ==> ends_with_block(s),
    decreases ts.len() - pos, 4int,
{
    if let Ok((_, _, p)) = parse_expr(ts, pos, true, stop_on(TokenType::By)) {
        if pos < p <= ts.len() {
            lemma_parsed_braces(ts, p);
        }
    }
}

proof fn lemma_parsed_let(ts: Seq<TokenV>, pos: int, keyword: TokenV)
    ensures
        parse_let(ts, pos, keyword) matches Ok((s, _)) ==> ends_with_block(s),
    decreases ts.len() - pos, 6int,
{
    if let Ok((name_token, p)) = expect_token(ts, pos) {
        if p < ts.len() {
            lemma_parsed_function(ts, p + 1, keyword, name_token);
        }
    }
}

/// Statements of the other kinds have no block that they could end with.
proof fn lemma_parsed_plain(ts: Seq<TokenV>, pos: int, t: TokenV)
    ensures
        parse_define(ts, pos, t) matches Ok((s, _)) ==> !has_body(s),
        parse_type(ts, pos, t) matches Ok((s, _)) ==> !has_body(s),
        parse_exists(ts, pos, t) matches Ok((s, _)) ==> !has_body(s),
        parse_struct(ts, pos, t) matches Ok((s, _)) ==> !has_body(s),
        parse_import(ts, pos, t) matches Ok((s, _)) ==> !has_body(s),
        parse_class(ts, pos, t) matches Ok((s, _)) ==> !has_body(s),
        parse_default(ts, pos, t) matches Ok((s, _)) ==> !has_body(s),
        parse_from(ts, pos, t) matches Ok((s, _)) ==> !has_body(s),
        parse_inductive(ts, pos, t) matches Ok((s, _)) ==> !has_body(s),
{
}

#[verifier::spinoff_prover]
#[verifier::rlimit(60)]
proof fn lemma_parsed_keyword(ts: Seq<TokenV>, pos: int, t: TokenV)
    requires
        is_keyword(t.token_type),
    ensures
        parse_keyword(ts, pos, t) matches Ok((s, _)) ==> ends_with_block(s),
    decreases ts.len() - pos, 7int,
{
    match t.token_type {
        TokenType::Let => {
            lemma_parsed_let(ts, pos, t);
        },
        TokenType::Axiom => {
            lemma_parsed_theorem(ts, pos, t, true);
        },
        TokenType::Theorem => {
            lemma_parsed_theorem(ts, pos, t, false);
        },
        TokenType::ForAll => {
            lemma_parsed_forall(ts, pos, t);
        },
        TokenType::If => {
            lemma_parsed_if(ts, pos, t);
        },
        TokenType::Problem => {
            lemma_parsed_braces(ts, pos);
        },
        TokenType::Solve => {
            lemma_parsed_solve(ts, pos, t);
        },
        _ => {
            lemma_parsed_plain(ts, pos, t);
        },
    }
}

proof fn lemma_parsed_statement(ts: Seq<TokenV>, pos: int, in_block: bool)
    ensures
        parse_statement(ts, pos, in_block) matches Ok((Some(s), _, _)) ==> ends_with_block(s),
    decreases ts.len() - pos, 0int,
{
    let p = after_newlines(ts, pos);
    if pos <= p < ts.len() && is_keyword(ts[p].token_type) {
        lemma_parsed_keyword(ts, p + 1, ts[p]);
    }
}

/// Every statement that is read ends with its block.
pub proof fn law_parsed_statements_end_with_their_block(ts: Seq<TokenV>, pos: int)
    ensures
        next_statement(ts, pos) matches Ok((Some(s), _)) ==> ends_with_block(s),
{
    reveal(next_statement);
    lemma_parsed_statement(ts, pos, false);
}

/// Adding the statements that tokens make up keeps lines consistent, whether or not all of them
/// can be added.
pub proof fn law_tokens_keep_lines_consistent(env: EnvV, p: ProjectV, ts: Seq<TokenV>, pos: int)
    requires
        well_lined(env),
    ensures
        well_lined(tokens_step(env, p, ts, pos).0),
        countable(tokens_step(env, p, ts, pos).0.nodes) ==> lines_consistent(
            tokens_step(env, p, ts, pos).0,
        ),
    decreases ts.len() - pos,
{
    law_parsed_statements_end_with_their_block(ts, pos);
    if let Ok((Some(s), q)) = next_statement(ts, pos) {
        law_statements_keep_lines_consistent(env, p, s);
        if pos < q <= ts.len() {
            law_tokens_keep_lines_consistent(statement_step(env, p, s).0, p, ts, q);
        }
    }
    let last = tokens_step(env, p, ts, pos).0;
    assert(well_lined(last));
    if countable(last.nodes) {
        lemma_well_lined(last);
    }
}

} // verus!
