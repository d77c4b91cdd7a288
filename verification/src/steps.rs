//! What statements claim, and what they leave to be proved.

use vstd::prelude::*;

use crate::acorn_type::{functional, TypeV};
use crate::acorn_value::{constant_of, forall_of, lambda, value_type, ValueV};
use crate::binding_map::{
    eval_declarations, eval_subvalue, eval_type, eval_value, pushed_all, StackV,
};
use crate::block::{
    block_start, expanded, exported, identity_claim, last_claim, own_params, BlockParamsV,
};
use crate::claims::law_closed_claims_quantify;
use crate::compilation::ErrorV;
use crate::declare::{
    define_step, let_step, member_args, prop_step, satisfy_step, scoped_name, subvalue_in,
    with_constants,
};
use crate::elaborate::{
    forall_step, function_step, new_block, pairs, quantified, satisfied_by, split_claim,
    theorem_step,
};
use crate::environment::EnvV;
use crate::expression::{expr_last_token, expr_range, expr_token, ExprV};
use crate::model::{are_of, is_true, lemma_quantified, ModelV};
use crate::project::ProjectV;
use crate::statement::{BodyV, StatementV};
use crate::token::{Range, TokenType, TokenV};

verus! {

/// Whether an environment has one node more than another, after the same nodes.
pub open spec fn adds_one(env: EnvV, after: EnvV) -> bool {
    after.nodes.len() == env.nodes.len() + 1 && after.nodes.drop_last() == env.nodes
}

/// A proposition as a statement is claimed, and has to be proved.
pub proof fn law_propositions_have_to_be_proved(
    env: EnvV,
    p: ProjectV,
    s: StatementV,
    claim: ExprV,
)
    requires
        prop_step(env, p, s, claim).1 is Ok,
    ensures
        ({
            let after = prop_step(env, p, s, claim).0;
            let v = eval_value(env.bindings, p, Map::empty(), claim, Some(TypeV::Bool)).0;
            &&& v is Ok
            &&& adds_one(env, after)
            &&& !after.nodes.last().structural
            &&& after.nodes.last().block is None
            &&& after.nodes.last().claim.value == expanded(env.bindings, p, v->Ok_0)
            &&& after.bindings == env.bindings
        }),
{
    reveal(prop_step);
    let after = prop_step(env, p, s, claim).0;
    assert(after.nodes.drop_last() =~= env.nodes);
}

/// A theorem claims that what it says holds for all its arguments. An assumption needs no proof;
/// another theorem has a block, where what is left to prove is the goal for what it says.
pub proof fn law_theorems_hold_for_all_arguments(
    env: EnvV,
    p: ProjectV,
    s: StatementV,
    axiomatic: bool,
    name: Seq<char>,
    type_params: Seq<TokenV>,
    args: Seq<ExprV>,
    claim: ExprV,
    body: Option<BodyV>,
    m: ModelV,
) -> (claimed: ValueV)
    requires
        theorem_step(env, p, s, axiomatic, name, type_params, args, claim, body).1 is Ok,
    ensures
        ({
            let after = theorem_step(
                env, p, s, axiomatic, name, type_params, args, claim, body,
            ).0;
            let range = Range {
                start: s.first_token.start_pos(),
                end: expr_last_token(claim).end_pos(),
            };
            let sub = subvalue_in(env.with_range(name, range), p, type_params, args, None, claim);
            let node = after.nodes.last();
            &&& sub is Ok
            &&& sub->Ok_0.value is Some
            &&& adds_one(env, after)
            &&& node.structural == axiomatic
            &&& (node.block is None) == axiomatic
            &&& after.bindings.is_theorem(name)
            &&& exists|inside: EnvV|
                inside.nodes == env.nodes && node.claim.value == #[trigger] expanded(
                    inside.bindings,
                    p,
                    claimed,
                ) && (!axiomatic ==> exists|first: u32, implicit: bool|
                    (#[trigger] block_start(
                        inside,
                        p,
                        sub->Ok_0.type_params,
                        pairs(sub->Ok_0.arg_names, sub->Ok_0.arg_types),
                        BlockParamsV::Theorem(
                            name,
                            split_claim(sub->Ok_0.value->0, claim).0,
                            split_claim(sub->Ok_0.value->0, claim).1,
                        ),
                        first,
                        implicit,
                    )) is Ok && node.block->0.goal == block_start(
                        inside,
                        p,
                        sub->Ok_0.type_params,
                        pairs(sub->Ok_0.arg_names, sub->Ok_0.arg_types),
                        BlockParamsV::Theorem(
                            name,
                            split_claim(sub->Ok_0.value->0, claim).0,
                            split_claim(sub->Ok_0.value->0, claim).1,
                        ),
                        first,
                        implicit,
                    )->Ok_0.1)
            &&& is_true(claimed, m, Seq::empty()) <==> forall|xs: Seq<int>| #[trigger]
                are_of(m, sub->Ok_0.arg_types, xs) ==> is_true(sub->Ok_0.value->0, m, xs)
        }),
{
    reveal(theorem_step);
    let after = theorem_step(env, p, s, axiomatic, name, type_params, args, claim, body).0;
    let range = Range { start: s.first_token.start_pos(), end: expr_last_token(claim).end_pos() };
    let env1 = env.with_range(name, range);
    let sub = subvalue_in(env1, p, type_params, args, None, claim)->Ok_0;
    let v = sub.value->0;
    let f = lambda(sub.arg_types, v);
    let claimed = forall_of(sub.arg_types, v);
    let start = Seq::<int>::empty();
    law_closed_claims_quantify(sub.arg_types, v, m, start);
    assert forall|xs: Seq<int>| #[trigger] are_of(m, sub.arg_types, xs) implies start + xs
        == xs by {
        assert(start + xs =~= xs);
    }
    let inside = env1.with_bindings(
        env.bindings.with_constant(name, sub.type_params, value_type(f), Some(f)),
    );
    assert(inside.nodes == env.nodes);
    assert(after.nodes.drop_last() =~= env.nodes);
    assert(after.nodes.last().claim.value == expanded(inside.bindings, p, claimed));
    if !axiomatic {
        let (premise, goal) = split_claim(v, claim);
        let b = new_block(
            inside,
            p,
            sub.type_params,
            pairs(sub.arg_names, sub.arg_types),
            BlockParamsV::Theorem(name, premise, goal),
            s.first_token.line_number,
            s.last_token.line_number,
            body,
        );
        assert(b is Ok && after.nodes.last().block == Some(b->Ok_0));
        let first = s.first_token.line_number;
        let implicit = body is None;
        assert(block_start(
            inside,
            p,
            sub.type_params,
            pairs(sub.arg_names, sub.arg_types),
            BlockParamsV::Theorem(name, premise, goal),
            first,
            implicit,
        ) is Ok);
    }
    claimed
}

/// A block for all values of some variables leaves its claim to be proved inside.
pub proof fn law_forall_blocks_have_to_be_proved(
    env: EnvV,
    p: ProjectV,
    s: StatementV,
    quantifiers: Seq<ExprV>,
    body: BodyV,
)
    requires
        forall_step(env, p, s, quantifiers, body).1 is Ok,
        body.statements.len() > 0,
    ensures
        ({
            let after = forall_step(env, p, s, quantifiers, body).0;
            let node = after.nodes.last();
            let args = quantified(env.bindings, p, quantifiers, quantifiers.len());
            &&& args is Ok
            &&& adds_one(env, after)
            &&& !node.structural
            &&& node.block is Some
            &&& node.block->0.args == args->Ok_0
            &&& node.block->0.env.nodes.len() > 0
            &&& node.claim.value == expanded(
                env.bindings,
                p,
                exported(
                    node.block->0,
                    env,
                    node.block->0.env.nodes.last().claim.value,
                ),
            )
        }),
{
    reveal(forall_step);
    reveal(last_claim);
    let after = forall_step(env, p, s, quantifiers, body).0;
    assert(after.nodes.drop_last() =~= env.nodes);
}

/// Values that are chosen for a condition: that there are any has to be proved, and then the
/// condition is given.
pub proof fn law_chosen_values_need_a_proof(
    env: EnvV,
    p: ProjectV,
    s: StatementV,
    declarations: Seq<ExprV>,
    condition: ExprV,
    m: ModelV,
) -> (claimed: ValueV)
    requires
        satisfy_step(env, p, s, declarations, condition).1 is Ok,
    ensures
        ({
            let after = satisfy_step(env, p, s, declarations, condition).0;
            let n = env.nodes.len() as int;
            let declared = eval_declarations(env.bindings, p, declarations, declarations.len());
            let (names, types) = declared->Ok_0;
            let general = eval_value(
                env.bindings,
                p,
                pushed_all(StackV::empty(), names, types, 0),
                condition,
                Some(TypeV::Bool),
            ).0;
            let specific = eval_value(
                after.bindings,
                p,
                Map::empty(),
                condition,
                Some(TypeV::Bool),
            ).0;
            &&& declared is Ok
            &&& general is Ok
            &&& specific is Ok
            &&& after.nodes.len() == n + 2
            &&& after.nodes.take(n) == env.nodes
            &&& !after.nodes[n].structural
            &&& after.nodes[n].claim.value == expanded(env.bindings, p, claimed)
            &&& is_true(claimed, m, Seq::empty()) <==> exists|xs: Seq<int>| #[trigger]
                are_of(m, types, xs) && is_true(general->Ok_0, m, xs)
            &&& after.nodes[n + 1].structural
            &&& after.nodes[n + 1].claim.value == expanded(after.bindings, p, specific->Ok_0)
            &&& after.bindings == with_constants(env.bindings, names, types, names.len())
        }),
{
    reveal(satisfy_step);
    let after = satisfy_step(env, p, s, declarations, condition).0;
    let (names, types) = eval_declarations(
        env.bindings,
        p,
        declarations,
        declarations.len(),
    )->Ok_0;
    let general = eval_value(
        env.bindings,
        p,
        pushed_all(StackV::empty(), names, types, 0),
        condition,
        Some(TypeV::Bool),
    ).0->Ok_0;
    let start = Seq::<int>::empty();
    lemma_quantified(types, general, m, start);
    assert forall|xs: Seq<int>| #[trigger] are_of(m, types, xs) implies start + xs == xs by {
        assert(start + xs =~= xs);
    }
    assert(after.nodes.take(env.nodes.len() as int) =~= env.nodes);
    ValueV::Exists(types, Box::new(general))
}

/// A function that is given by a condition: that there is a value for all arguments has to be
/// proved in its block, and outside it is claimed that the function satisfies the condition.
pub proof fn law_functions_need_a_proof(
    env: EnvV,
    p: ProjectV,
    s: StatementV,
    name: Seq<char>,
    name_token: TokenV,
    declarations: Seq<ExprV>,
    satisfy_token: TokenV,
    condition: ExprV,
    body: Option<BodyV>,
)
    requires
        function_step(
            env, p, s, name, name_token, declarations, satisfy_token, condition, body,
        ).1 is Ok,
    ensures
        ({
            let after = function_step(
                env, p, s, name, name_token, declarations, satisfy_token, condition, body,
            ).0;
            let range = Range { start: s.first_token.start_pos(), end: satisfy_token.end_pos() };
            let env1 = env.with_range(name, range);
            let sub = subvalue_in(env1, p, Seq::empty(), declarations, None, condition);
            let node = after.nodes.last();
            let types = sub->Ok_0.arg_types.drop_last();
            let last = sub->Ok_0.arg_types.last();
            let v = sub->Ok_0.value->0;
            let f = ValueV::Constant(
                env.module_id,
                name,
                functional(types, last),
                Seq::empty(),
            );
            &&& sub is Ok
            &&& sub->Ok_0.value is Some
            &&& value_type(v) == TypeV::Bool
            &&& adds_one(env, after)
            &&& !node.structural
            &&& node.block is Some
            &&& node.claim.value == expanded(after.bindings, p, satisfied_by(f, types, v))
            &&& exists|first: u32, implicit: bool|
                (#[trigger] block_start(
                    env1,
                    p,
                    Seq::empty(),
                    pairs(sub->Ok_0.arg_names.drop_last(), types),
                    BlockParamsV::FunctionSatisfy(v, last, expr_range(condition)),
                    first,
                    implicit,
                )) is Ok && node.block->0.goal == block_start(
                    env1,
                    p,
                    Seq::empty(),
                    pairs(sub->Ok_0.arg_names.drop_last(), types),
                    BlockParamsV::FunctionSatisfy(v, last, expr_range(condition)),
                    first,
                    implicit,
                )->Ok_0.1
        }),
{
    reveal(function_step);
    let after = function_step(
        env, p, s, name, name_token, declarations, satisfy_token, condition, body,
    ).0;
    let range = Range { start: s.first_token.start_pos(), end: satisfy_token.end_pos() };
    let env1 = env.with_range(name, range);
    let sub = subvalue_in(env1, p, Seq::empty(), declarations, None, condition)->Ok_0;
    assert(after.nodes.drop_last() =~= env.nodes);
    let types = sub.arg_types.drop_last();
    let last = sub.arg_types.last();
    let first = s.first_token.line_number;
    let implicit = body is None;
    assert(block_start(
        env1,
        p,
        Seq::empty(),
        pairs(sub.arg_names.drop_last(), types),
        BlockParamsV::FunctionSatisfy(sub.value->0, last, expr_range(condition)),
        first,
        implicit,
    ) is Ok);
}

/// A constant that is defined by a "let" is claimed, without proof, to be what it is defined as.
pub proof fn law_lets_are_what_they_are_defined_as(
    env: EnvV,
    p: ProjectV,
    class: Option<Seq<char>>,
    name: Seq<char>,
    name_token: TokenV,
    type_expr: ExprV,
    value: ExprV,
    range: Range,
) -> (definition: ValueV)
    requires
        let_step(env, p, class, name, name_token, type_expr, value, range).1 is Ok,
    ensures
        ({
            let after = let_step(env, p, class, name, name_token, type_expr, value, range).0;
            let full = scoped_name(class, name);
            let t = eval_type(env.bindings, p, type_expr);
            let v = eval_value(env.bindings, p, Map::empty(), value, Some(t->Ok_0)).0;
            &&& t is Ok
            &&& adds_one(env, after)
            &&& after.nodes.last().structural
            &&& after.nodes.last().block is None
            &&& after.nodes.last().claim.value == expanded(
                after.bindings,
                p,
                identity_claim(
                    ValueV::Constant(env.module_id, full, t->Ok_0, Seq::empty()),
                    definition,
                ),
            )
            &&& after.bindings.definition(full) == Some(definition)
            &&& expr_token(value).token_type != TokenType::Axiom ==> v
                == Ok::<ValueV, ErrorV>(definition)
        }),
{
    reveal(let_step);
    let after = let_step(env, p, class, name, name_token, type_expr, value, range).0;
    let full = scoped_name(class, name);
    let t = eval_type(env.bindings, p, type_expr)->Ok_0;
    let definition = after.bindings.definition(full)->0;
    assert(after.nodes.drop_last() =~= env.nodes);
    assert(own_params(Seq::empty()) =~= Seq::empty());
    definition
}

/// A function that is defined is claimed, without proof, to give what it is defined to give.
pub proof fn law_defined_functions_give_what_they_are_defined_to_give(
    env: EnvV,
    p: ProjectV,
    class: Option<Seq<char>>,
    name: Seq<char>,
    name_token: TokenV,
    type_params: Seq<TokenV>,
    args: Seq<ExprV>,
    return_type: ExprV,
    return_value: ExprV,
    range: Range,
)
    requires
        define_step(
            env, p, class, name, name_token, type_params, args, return_type, return_value, range,
        ).1 is Ok,
    ensures
        ({
            let after = define_step(
                env, p, class, name, name_token, type_params, args, return_type, return_value,
                range,
            ).0;
            let full = scoped_name(class, name);
            let sub = eval_subvalue(
                env.bindings,
                p,
                type_params,
                member_args(class, args),
                Some(return_type),
                return_value,
            );
            &&& sub is Ok
            &&& match sub->Ok_0.value {
                Some(v) => {
                    let f = lambda(sub->Ok_0.arg_types, v);
                    &&& adds_one(env, after)
                    &&& after.nodes.last().structural
                    &&& after.nodes.last().block is None
                    &&& after.nodes.last().claim.value == expanded(
                        after.bindings,
                        p,
                        identity_claim(
                            constant_of(
                                env.module_id,
                                full,
                                value_type(f),
                                own_params(sub->Ok_0.type_params),
                            ),
                            f,
                        ),
                    )
                },
                None => after.nodes == env.nodes,
            }
        }),
{
    reveal(define_step);
    let after = define_step(
        env, p, class, name, name_token, type_params, args, return_type, return_value, range,
    ).0;
    if after.nodes.len() > env.nodes.len() {
        assert(after.nodes.drop_last() =~= env.nodes);
    }
}

} // verus!
