//! What blocks prove, and what is claimed outside them, against what values mean.

use vstd::prelude::*;

use crate::acorn_type::{functional, specialized, AtomId, ModuleId, TypeV};
use crate::acorn_value::{
    apply, bound, constant_of, deeper, edited, edited_all, shifted, negated, specialized_value,
    value_type, BindV, BinaryOp, DefineV, ValueV,
};
use crate::block::{
    arg_values, block_params, block_start, expanded, exported, identity_claim, last_claim, seconds,
    theorem_definitions, theorem_goal, BlockParamsV,
};
use crate::claims::law_closed_claims_quantify;
use crate::compilation::ErrorV;
use crate::datatypes::{binary, vars};
use crate::declare::value_in;
use crate::elaborate::{
    block_of, branch_result, conditional_step, if_step, satisfied_by, split_claim,
};
use crate::environment::{BlockV, EnvV, GoalV};
use crate::expression::{expr_range, ExprV};
use crate::model::{
    are_of, for_all, for_some, function_of, is_true, lemma_quantified, meaning, meanings, truth,
    ModelV,
};
use crate::project::ProjectV;
use crate::proposition::PropositionV;
use crate::prover::negated_goal;
use crate::statement::{InfoV, StatementV};
use crate::substitution::{
    are_proper, are_scoped, can_replace, inserted, is_scoped, law_binding_puts_values_for_variables,
    law_negated_is_the_opposite, law_shifting_keeps_the_meaning,
};
use crate::token::{empty_token, Range, TokenV};

verus! {

/// Whether defined names mean in an interpretation what they are defined as.
pub open spec fn meets(m: ModelV, defs: spec_fn(ModuleId, Seq<char>) -> Option<ValueV>) -> bool {
    &&& forall|module: ModuleId, name: Seq<char>, t: TypeV, ps: Seq<Seq<char>>|
        defs(module, name) is Some ==> #[trigger] (m.constant)(module, name, t, ps) == meaning(
            defs(module, name)->0,
            m,
            Seq::empty(),
        )
    &&& forall|module: ModuleId, name: Seq<char>, t: TypeV, ps: Seq<(Seq<char>, TypeV)>|
        defs(module, name) is Some ==> #[trigger] (m.specialized)(module, name, t, ps) == meaning(
            specialized_value(defs(module, name)->0, ps),
            m,
            Seq::empty(),
        )
}

/// Whether a definition can stand in place of a name of a type.
pub open spec fn defines(d: ValueV, t: TypeV, limit: int) -> bool {
    is_scoped(d, Seq::empty(), limit) && value_type(d) == t
}

/// Whether names in a value have the types of their definitions.
pub open spec fn fits(
    v: ValueV,
    defs: spec_fn(ModuleId, Seq<char>) -> Option<ValueV>,
    limit: int,
) -> bool
    decreases v,
{
    match v {
        ValueV::Constant(module, name, t, _) => match defs(module, name) {
            Some(d) => defines(d, t, limit),
            None => true,
        },
        ValueV::Specialized(module, name, t, ps) => match defs(module, name) {
            Some(d) => defines(specialized_value(d, ps), specialized(t, ps), limit),
            None => true,
        },
        ValueV::Application(f, args) => fits(*f, defs, limit) && all_fit(args, defs, limit),
        ValueV::Lambda(_, b) => fits(*b, defs, limit),
        ValueV::ForAll(_, b) => fits(*b, defs, limit),
        ValueV::Exists(_, b) => fits(*b, defs, limit),
        ValueV::Binary(_, l, r) => fits(*l, defs, limit) && fits(*r, defs, limit),
        ValueV::Not(x) => fits(*x, defs, limit),
        ValueV::IfThenElse(c, a, b) => fits(*c, defs, limit) && fits(*a, defs, limit) && fits(
            *b,
            defs,
            limit,
        ),
        _ => true,
    }
}

/// Whether this holds of each of some values.
pub open spec fn all_fit(
    vs: Seq<ValueV>,
    defs: spec_fn(ModuleId, Seq<char>) -> Option<ValueV>,
    limit: int,
) -> bool
    decreases vs,
{
    forall|i: int| 0 <= i < vs.len() ==> fits(#[trigger] vs[i], defs, limit)
}

/// Putting in definitions for names keeps what a value means, wherever the names mean what they
/// are defined as.
pub proof fn law_definitions_keep_the_meaning(
    v: ValueV,
    ts: Seq<TypeV>,
    limit: int,
    defs: spec_fn(ModuleId, Seq<char>) -> Option<ValueV>,
    defs_limit: int,
    m: ModelV,
    st: Seq<int>,
)
    requires
        meets(m, defs),
        fits(v, defs, defs_limit),
        is_scoped(v, ts, limit),
        limit + defs_limit <= AtomId::MAX,
        0 <= defs_limit,
        st.len() == ts.len(),
    ensures
        meaning(edited(v, ts.len() as AtomId, DefineV { definitions: defs }), m, st) == meaning(
            v,
            m,
            st,
        ),
        value_type(edited(v, ts.len() as AtomId, DefineV { definitions: defs })) == value_type(v),
    decreases v, 0nat,
{
    let e = DefineV { definitions: defs };
    let depth = ts.len() as AtomId;
    let w = edited(v, depth, e);
    match v {
        ValueV::Constant(module, name, t, ps) => {
            if let Some(d) = defs(module, name) {
                lemma_definition(d, defs_limit, limit, ts, m, st);
                assert((m.constant)(module, name, t, ps) == meaning(d, m, Seq::empty()));
            }
        },
        ValueV::Specialized(module, name, t, ps) => {
            if let Some(d) = defs(module, name) {
                lemma_definition(specialized_value(d, ps), defs_limit, limit, ts, m, st);
                assert((m.specialized)(module, name, t, ps) == meaning(
                    specialized_value(d, ps),
                    m,
                    Seq::empty(),
                ));
            }
        },
        ValueV::Application(f, args) => {
            law_definitions_keep_the_meaning(*f, ts, limit, defs, defs_limit, m, st);
            let changed = edited_all(args, depth, e);
            assert(all_fit(args, defs, defs_limit) && are_scoped(args, ts, limit));
            assert forall|i: int| 0 <= i < args.len() implies meaning(#[trigger] changed[i], m, st)
                == meaning(args[i], m, st) by {
                law_definitions_keep_the_meaning(args[i], ts, limit, defs, defs_limit, m, st);
            }
            assert(meanings(changed, m, st) =~= meanings(args, m, st));
        },
        ValueV::Lambda(xs, b) => {
            lemma_definitions_body(xs, *b, ts, limit, defs, defs_limit, m, st);
        },
        ValueV::ForAll(xs, b) => {
            lemma_definitions_body(xs, *b, ts, limit, defs, defs_limit, m, st);
            let c = edited(*b, deeper(depth, xs.len()), e);
            assert(meaning(w, m, st) == truth(for_all(xs, c, m, st)));
            assert(meaning(v, m, st) == truth(for_all(xs, *b, m, st)));
        },
        ValueV::Exists(xs, b) => {
            lemma_definitions_body(xs, *b, ts, limit, defs, defs_limit, m, st);
            let c = edited(*b, deeper(depth, xs.len()), e);
            assert(meaning(w, m, st) == truth(for_some(xs, c, m, st)));
            assert(meaning(v, m, st) == truth(for_some(xs, *b, m, st)));
        },
        ValueV::Binary(_, l, r) => {
            law_definitions_keep_the_meaning(*l, ts, limit, defs, defs_limit, m, st);
            law_definitions_keep_the_meaning(*r, ts, limit, defs, defs_limit, m, st);
        },
        ValueV::Not(x) => {
            law_definitions_keep_the_meaning(*x, ts, limit, defs, defs_limit, m, st);
        },
        ValueV::IfThenElse(c, a, b) => {
            law_definitions_keep_the_meaning(*c, ts, limit, defs, defs_limit, m, st);
            law_definitions_keep_the_meaning(*a, ts, limit, defs, defs_limit, m, st);
            law_definitions_keep_the_meaning(*b, ts, limit, defs, defs_limit, m, st);
        },
        _ => {},
    }
}

proof fn lemma_definition(
    d: ValueV,
    limit: int,
    stack_limit: int,
    ts: Seq<TypeV>,
    m: ModelV,
    st: Seq<int>,
)
    requires
        is_scoped(d, Seq::empty(), limit),
        ts.len() <= stack_limit,
        stack_limit + limit <= AtomId::MAX,
        0 <= limit,
        st.len() == ts.len(),
    ensures
        meaning(shifted(d, 0, ts.len() as AtomId), m, st) == meaning(d, m, Seq::empty()),
        value_type(shifted(d, 0, ts.len() as AtomId)) == value_type(d),
{
    let none = Seq::<int>::empty();
    law_shifting_keeps_the_meaning(
        d,
        0,
        Seq::empty(),
        limit,
        0,
        ts.len() as AtomId,
        m,
        none,
        st,
        ts,
    );
    assert(inserted(none, 0, st) =~= st);
}

proof fn lemma_definitions_body(
    xs: Seq<TypeV>,
    b: ValueV,
    ts: Seq<TypeV>,
    limit: int,
    defs: spec_fn(ModuleId, Seq<char>) -> Option<ValueV>,
    defs_limit: int,
    m: ModelV,
    st: Seq<int>,
)
    requires
        meets(m, defs),
        fits(b, defs, defs_limit),
        is_scoped(b, ts + xs, limit),
        limit + defs_limit <= AtomId::MAX,
        0 <= defs_limit,
        st.len() == ts.len(),
    ensures
        ({
            let c = edited(
                b,
                deeper(ts.len() as AtomId, xs.len()),
                DefineV { definitions: defs },
            );
            &&& function_of(xs, c, m, st) == function_of(xs, b, m, st)
            &&& for_all(xs, c, m, st) == for_all(xs, b, m, st)
            &&& for_some(xs, c, m, st) == for_some(xs, b, m, st)
            &&& value_type(c) == value_type(b)
        }),
    decreases b, 1nat,
{
    let d = deeper(ts.len() as AtomId, xs.len());
    let c = edited(b, d, DefineV { definitions: defs });
    assert(is_scoped(b, ts + xs, limit) ==> (ts + xs).len() <= limit);
    assert(xs.len() as u16 == xs.len());
    assert(d == (ts + xs).len() as AtomId);
    assert forall|ys: Seq<int>| ys.len() == xs.len() implies #[trigger] meaning(c, m, st + ys)
        == meaning(b, m, st + ys) by {
        law_definitions_keep_the_meaning(b, ts + xs, limit, defs, defs_limit, m, st + ys);
    }
    let some = Seq::new(xs.len(), |i: int| 0int);
    law_definitions_keep_the_meaning(b, ts + xs, limit, defs, defs_limit, m, st + some);
    assert forall|ys: Seq<int>| #[trigger]
        function_of(xs, c, m, st)(ys) == function_of(xs, b, m, st)(ys) by {
        if are_of(m, xs, ys) {
            assert(meaning(c, m, st + ys) == meaning(b, m, st + ys));
        }
    }
    assert(function_of(xs, c, m, st) =~= function_of(xs, b, m, st));
    assert forall|ys: Seq<int>| #[trigger] are_of(m, xs, ys) implies meaning(c, m, st + ys)
        == meaning(b, m, st + ys) by {}
}

/// A node that is added claims what it is given, wherever the names of theorems mean what the
/// theorems claim.
pub proof fn law_nodes_claim_what_they_are_given(
    env: EnvV,
    p: ProjectV,
    structural: bool,
    prop: PropositionV,
    block: Option<BlockV>,
    limit: int,
    defs_limit: int,
    m: ModelV,
)
    requires
        meets(m, theorem_definitions(env.bindings, p)),
        fits(prop.value, theorem_definitions(env.bindings, p), defs_limit),
        is_scoped(prop.value, Seq::empty(), limit),
        limit + defs_limit <= AtomId::MAX,
        0 <= defs_limit,
    ensures
        is_true(
            env.with_node(p, structural, prop, block).nodes.last().claim.value,
            m,
            Seq::empty(),
        ) == is_true(prop.value, m, Seq::empty()),
        env.with_node(p, structural, prop, block).nodes.drop_last() == env.nodes,
        env.with_node(p, structural, prop, block).nodes.last().block == block,
{
    law_definitions_keep_the_meaning(
        prop.value,
        Seq::empty(),
        limit,
        theorem_definitions(env.bindings, p),
        defs_limit,
        m,
        Seq::empty(),
    );
    assert(env.with_node(p, structural, prop, block).nodes.drop_last() =~= env.nodes);
}

/// What a value says where values stand for all its variables.
proof fn lemma_closed(
    v: ValueV,
    ts: Seq<TypeV>,
    limit: int,
    values: Seq<ValueV>,
    values_limit: int,
    m: ModelV,
)
    requires
        is_scoped(v, ts, limit),
        can_replace(values, ts, Seq::empty(), values_limit),
        limit + values_limit <= AtomId::MAX,
    ensures
        meaning(bound(v, 0, 0, values), m, Seq::empty()) == meaning(
            v,
            m,
            meanings(values, m, Seq::empty()),
        ),
        value_type(bound(v, 0, 0, values)) == value_type(v),
        is_scoped(bound(v, 0, 0, values), Seq::empty(), limit + values_limit),
{
    let none = Seq::<TypeV>::empty();
    let start = Seq::<int>::empty();
    assert(none + ts + none =~= ts);
    assert(none + none =~= none);
    law_binding_puts_values_for_variables(
        v,
        none,
        ts,
        none,
        limit,
        values,
        values_limit,
        m,
        start,
        start,
    );
    assert(start + start =~= start);
    assert(start + meanings(values, m, start) + start =~= meanings(values, m, start));
}

/// To prove a theorem, it is enough to prove the goal of its block from the premise there: with
/// the arguments of the block for the variables, the goal follows from the premise exactly where
/// the claim of the theorem holds. The premise is a node of the block, and the only one after the
/// theorem's identity.
pub proof fn law_theorem_blocks_prove_the_claim(
    env: EnvV,
    p: ProjectV,
    args: Seq<(Seq<char>, TypeV)>,
    name: Seq<char>,
    v: ValueV,
    claim: ExprV,
    first_line: u32,
    implicit: bool,
    limit: int,
    values_limit: int,
    m: ModelV,
) -> (premise: ValueV)
    requires
        ({
            let (given, goal) = split_claim(v, claim);
            let start = block_start(
                env,
                p,
                Seq::empty(),
                args,
                BlockParamsV::Theorem(name, given, goal),
                first_line,
                implicit,
            );
            &&& start is Ok
            &&& can_replace(
                arg_values(start->Ok_0.0.bindings, args),
                seconds(args),
                Seq::empty(),
                values_limit,
            )
            &&& env.bindings.identifier_types.dom().contains(name)
            &&& is_true(
                apply(
                    constant_of(
                        env.module_id,
                        name,
                        env.bindings.identifier_types[name],
                        Seq::empty(),
                    ),
                    arg_values(start->Ok_0.0.bindings, args),
                ),
                m,
                Seq::empty(),
            ) == is_true(
                v,
                m,
                meanings(arg_values(start->Ok_0.0.bindings, args), m, Seq::empty()),
            )
        }),
        is_scoped(v, seconds(args), limit),
        limit + values_limit <= AtomId::MAX,
    ensures
        ({
            let (given, goal) = split_claim(v, claim);
            let (sub, proved) = block_start(
                env,
                p,
                Seq::empty(),
                args,
                BlockParamsV::Theorem(name, given, goal),
                first_line,
                implicit,
            )->Ok_0;
            let xs = meanings(arg_values(sub.bindings, args), m, Seq::empty());
            let start = Seq::<int>::empty();
            &&& match proved {
                Some(GoalV::Prove(prop)) => (is_true(premise, m, start) ==> is_true(
                    prop.value,
                    m,
                    start,
                )) <==> is_true(v, m, xs),
                _ => false,
            }
            &&& match v {
                ValueV::Binary(BinaryOp::Implies, l, _) => {
                    &&& sub.nodes.len() > 0
                    &&& sub.nodes.last().structural
                    &&& sub.nodes.last().claim.value == expanded(sub.bindings, p, premise)
                    &&& is_true(premise, m, start) == is_true(*l, m, xs)
                },
                _ => sub.nodes.len() <= 1 && premise == ValueV::Bool(true),
            }
        }),
{
    reveal(block_start);
    let (given, goal) = split_claim(v, claim);
    let none = Seq::<Seq<char>>::empty();
    let (sub, proved) = block_start(
        env,
        p,
        none,
        args,
        BlockParamsV::Theorem(name, given, goal),
        first_line,
        implicit,
    )->Ok_0;
    let values = arg_values(sub.bindings, args);
    let ts = seconds(args);
    let start = Seq::<int>::empty();
    lemma_closed(goal, ts, limit, values, values_limit, m);
    let pairs = block_params(env.bindings.module, none);
    assert(pairs =~= Seq::<(Seq<char>, TypeV)>::empty());
    let whole = theorem_goal(env, name, pairs, values, goal);
    match proved {
        Some(GoalV::Prove(prop)) => {
            assert(prop.value == whole);
        },
        _ => {
            assert(false);
        },
    }
    match v {
        ValueV::Binary(BinaryOp::Implies, l, r) => {
            lemma_closed(*l, ts, limit, values, values_limit, m);
            let premise = bound(*l, 0, 0, values);
            assert(sub.nodes.len() > 0);
            assert(sub.nodes.last().claim.value == expanded(sub.bindings, p, premise));
            assert(is_true(whole, m, start) == (is_true(v, m, meanings(values, m, start))
                || is_true(goal, m, meanings(values, m, start))));
            premise
        },
        _ => {
            assert(is_true(whole, m, start) == (is_true(v, m, meanings(values, m, start))
                || is_true(goal, m, meanings(values, m, start))));
            ValueV::Bool(true)
        },
    }
}

/// To refute a proposition is to find that its hypothesis and the negation of its goal do not
/// hold together.
pub proof fn law_refuting_the_negation_proves_the_goal(v: ValueV, m: ModelV, st: Seq<int>)
    ensures
        ({
            let (hypothesis, counter) = negated_goal(v);
            is_true(v, m, st) <==> !((hypothesis is Some ==> is_true(hypothesis->0, m, st))
                && is_true(counter, m, st))
        }),
{
    match v {
        ValueV::Binary(BinaryOp::Implies, l, r) => {
            law_negated_is_the_opposite(*r, m, st);
        },
        _ => {
            law_negated_is_the_opposite(v, m, st);
        },
    }
}

/// Whether values are constants.
pub open spec fn are_constants(values: Seq<ValueV>) -> bool {
    forall|i: int|
        0 <= i < values.len() ==> (#[trigger] values[i] is Constant || values[i] is Specialized)
}

/// Constants are the same at every depth.
proof fn lemma_depth_free(v: ValueV, a: AtomId, b: AtomId, e: BindV)
    requires
        are_constants(e.values),
    ensures
        edited(v, a, e) == edited(v, b, e),
    decreases v,
{
    match v {
        ValueV::Application(f, args) => {
            lemma_depth_free(*f, a, b, e);
            let x = edited_all(args, a, e);
            let y = edited_all(args, b, e);
            assert forall|i: int| 0 <= i < args.len() implies #[trigger] x[i] == y[i] by {
                lemma_depth_free(args[i], a, b, e);
            }
            assert(x =~= y);
        },
        ValueV::Lambda(ts, x) => {
            lemma_depth_free(*x, deeper(a, ts.len()), deeper(b, ts.len()), e);
        },
        ValueV::ForAll(ts, x) => {
            lemma_depth_free(*x, deeper(a, ts.len()), deeper(b, ts.len()), e);
        },
        ValueV::Exists(ts, x) => {
            lemma_depth_free(*x, deeper(a, ts.len()), deeper(b, ts.len()), e);
        },
        ValueV::Binary(_, l, r) => {
            lemma_depth_free(*l, a, b, e);
            lemma_depth_free(*r, a, b, e);
        },
        ValueV::Not(x) => lemma_depth_free(*x, a, b, e),
        ValueV::IfThenElse(c, x, y) => {
            lemma_depth_free(*c, a, b, e);
            lemma_depth_free(*x, a, b, e);
            lemma_depth_free(*y, a, b, e);
        },
        ValueV::Variable(i, _) => {
            if e.first <= i && i - e.first < e.values.len() {
                assert(e.values[i - e.first] is Constant || e.values[i - e.first] is Specialized);
            }
        },
        _ => {},
    }
}

/// The goal of the block for a function that is given by a condition: there is a value for which
/// the condition holds, where the arguments are those of the block.
pub proof fn law_function_blocks_prove_that_there_is_a_value(
    env: EnvV,
    p: ProjectV,
    args: Seq<(Seq<char>, TypeV)>,
    condition: ValueV,
    return_type: TypeV,
    range: Range,
    first_line: u32,
    implicit: bool,
    limit: int,
    values_limit: int,
    m: ModelV,
)
    requires
        ({
            let start = block_start(
                env,
                p,
                Seq::empty(),
                args,
                BlockParamsV::FunctionSatisfy(condition, return_type, range),
                first_line,
                implicit,
            );
            &&& start is Ok
            &&& are_constants(arg_values(start->Ok_0.0.bindings, args))
            &&& can_replace(
                arg_values(start->Ok_0.0.bindings, args),
                seconds(args),
                Seq::empty(),
                values_limit,
            )
        }),
        is_scoped(condition, seconds(args) + seq![return_type], limit),
        limit + values_limit <= AtomId::MAX,
    ensures
        ({
            let (sub, proved) = block_start(
                env,
                p,
                Seq::empty(),
                args,
                BlockParamsV::FunctionSatisfy(condition, return_type, range),
                first_line,
                implicit,
            )->Ok_0;
            let xs = meanings(arg_values(sub.bindings, args), m, Seq::empty());
            &&& sub.nodes.len() == 0
            &&& match proved {
                Some(GoalV::Prove(prop)) => is_true(prop.value, m, Seq::empty()) <==> exists|
                    y: Seq<int>,
                | #[trigger]
                    are_of(m, seq![return_type], y) && is_true(condition, m, xs + y),
                _ => false,
            }
        }),
{
    reveal(block_start);
    let (sub, proved) = block_start(
        env,
        p,
        Seq::empty(),
        args,
        BlockParamsV::FunctionSatisfy(condition, return_type, range),
        first_line,
        implicit,
    )->Ok_0;
    let values = arg_values(sub.bindings, args);
    let ts = seconds(args);
    let last = seq![return_type];
    let start = Seq::<int>::empty();
    let xs = meanings(values, m, start);
    let w = bound(condition, 0, 0, values);
    let none = Seq::<TypeV>::empty();
    lemma_depth_free(condition, 0, 1, BindV { first: 0, values });
    law_closed_claims_quantify(last, w, m, start);
    assert(none + ts + last =~= ts + last);
    assert forall|y: Seq<int>| #[trigger] are_of(m, last, y) implies is_true(w, m, start + y)
        == is_true(condition, m, xs + y) by {
        law_binding_puts_values_for_variables(
            condition,
            none,
            ts,
            last,
            limit,
            values,
            values_limit,
            m,
            start,
            y,
        );
        assert(start + xs + y =~= xs + y);
    }
}

/// What a function is for some arguments; without arguments, itself.
pub open spec fn value_at(f: ValueV, m: ModelV, xs: Seq<int>) -> int {
    if xs.len() == 0 {
        meaning(f, m, xs)
    } else {
        (m.apply)(meaning(f, m, xs), xs)
    }
}

proof fn lemma_vars(ts: Seq<TypeV>, m: ModelV, xs: Seq<int>)
    requires
        ts.len() == xs.len(),
        ts.len() <= AtomId::MAX,
    ensures
        meanings(vars(ts, 0), m, xs) == xs,
        are_scoped(vars(ts, 0), ts, ts.len() as int),
{
    let vs = vars(ts, 0);
    assert forall|i: int| 0 <= i < vs.len() implies meaning(#[trigger] vs[i], m, xs) == xs[i]
        && is_scoped(vs[i], ts, ts.len() as int) by {}
    assert(meanings(vs, m, xs) =~= xs);
}

/// Outside its block, a function that is given by a condition is claimed to satisfy it for all
/// arguments.
pub proof fn law_functions_satisfy_their_condition(
    module: ModuleId,
    name: Seq<char>,
    ts: Seq<TypeV>,
    return_type: TypeV,
    condition: ValueV,
    limit: int,
    m: ModelV,
)
    requires
        are_proper(seq![return_type]),
        is_scoped(condition, ts + seq![return_type], limit),
        limit <= AtomId::MAX,
    ensures
        ({
            let f = ValueV::Constant(module, name, functional(ts, return_type), Seq::empty());
            is_true(satisfied_by(f, ts, condition), m, Seq::empty()) <==> forall|xs: Seq<int>|
             #[trigger]
                are_of(m, ts, xs) ==> is_true(condition, m, xs + seq![value_at(f, m, xs)])
        }),
{
    let f = ValueV::Constant(module, name, functional(ts, return_type), Seq::empty());
    let value = apply(f, vars(ts, 0));
    let values = seq![value];
    let last = seq![return_type];
    let n = ts.len() as AtomId;
    let none = Seq::<TypeV>::empty();
    let start = Seq::<int>::empty();
    let w = bound(condition, n, n, values);
    assert(return_type == last[0]);
    assert((ts + last).len() <= limit);
    assert(are_proper(last));
    match return_type {
        TypeV::Function(more, _) => {
            assert(match last[0] {
                TypeV::Function(a, _) => a.len() > 0,
                _ => true,
            });
            assert((ts + more).skip(ts.len() as int) =~= more);
        },
        _ => {},
    }
    reveal_with_fuel(value_type, 2);
    let some = Seq::new(ts.len(), |i: int| 0int);
    lemma_vars(ts, m, some);
    assert(is_scoped(f, ts, ts.len() as int));
    assert(is_scoped(value, ts, ts.len() as int));
    assert(value_type(value) == return_type);
    assert(can_replace(values, last, ts, ts.len() as int));
    lemma_quantified(ts, w, m, start);
    assert(ts + last + none =~= ts + last);
    assert forall|xs: Seq<int>| #[trigger] are_of(m, ts, xs) implies is_true(w, m, start + xs)
        == is_true(condition, m, xs + seq![value_at(f, m, xs)]) by {
        lemma_vars(ts, m, xs);
        law_binding_puts_values_for_variables(
            condition,
            ts,
            last,
            none,
            limit,
            values,
            ts.len() as int,
            m,
            xs,
            start,
        );
        assert(meaning(value, m, xs) == value_at(f, m, xs));
        assert(meanings(values, m, xs) =~= seq![value_at(f, m, xs)]);
        assert(xs + start =~= start + xs);
        assert(xs + meanings(values, m, xs) + start =~= xs + seq![value_at(f, m, xs)]);
    }
}

/// Whether elements are the same, or, as propositions, hold together.
pub open spec fn are_same(t: TypeV, a: int, b: int) -> bool {
    if t is Bool {
        (a == 1) == (b == 1)
    } else {
        a == b
    }
}

/// The identity of a defined constant says that it is what it is defined as: for a function, that
/// for all arguments it gives what the definition gives.
pub proof fn law_identities_say_what_constants_are(c: ValueV, d: ValueV, m: ModelV)
    requires
        c is Constant || c is Specialized,
        match d {
            ValueV::Lambda(ts, _) => 0 < ts.len() <= AtomId::MAX,
            _ => true,
        },
    ensures
        is_true(identity_claim(c, d), m, Seq::empty()) <==> match d {
            ValueV::Lambda(ts, b) => forall|xs: Seq<int>| #[trigger]
                are_of(m, ts, xs) ==> are_same(
                    value_type(ValueV::Application(Box::new(c), vars(ts, 0))),
                    value_at(c, m, xs),
                    meaning(*b, m, xs),
                ),
            _ => are_same(
                value_type(c),
                meaning(c, m, Seq::empty()),
                meaning(d, m, Seq::empty()),
            ),
        },
{
    let start = Seq::<int>::empty();
    match d {
        ValueV::Lambda(ts, b) => {
            let left = ValueV::Application(Box::new(c), vars(ts, 0));
            let w = binary(BinaryOp::Equals, left, *b);
            lemma_quantified(ts, w, m, start);
            assert forall|xs: Seq<int>| #[trigger] are_of(m, ts, xs) implies is_true(
                w,
                m,
                start + xs,
            ) == are_same(value_type(left), value_at(c, m, xs), meaning(*b, m, xs)) by {
                assert(start + xs =~= xs);
                lemma_vars(ts, m, xs);
                assert(meaning(left, m, xs) == (m.apply)(
                    meaning(c, m, xs),
                    meanings(vars(ts, 0), m, xs),
                ));
                assert(meaning(w, m, xs) == truth(
                    are_same(value_type(left), meaning(left, m, xs), meaning(*b, m, xs)),
                ));
            }
            assert(identity_claim(c, d) == ValueV::ForAll(ts, Box::new(w)));
        },
        _ => {
            assert(meaning(identity_claim(c, d), m, start) == truth(
                are_same(value_type(c), meaning(c, m, start), meaning(d, m, start)),
            ));
        },
    }
}

/// Inside a conditional block the condition is given, and nothing has to be proved.
pub proof fn law_conditional_blocks_are_given_the_condition(
    env: EnvV,
    p: ProjectV,
    condition: ValueV,
    range: Range,
    first_line: u32,
    implicit: bool,
)
    ensures
        ({
            let start = block_start(
                env,
                p,
                Seq::empty(),
                Seq::empty(),
                BlockParamsV::Conditional(condition, range),
                first_line,
                implicit,
            );
            &&& start is Ok
            &&& start->Ok_0.1 is None
            &&& start->Ok_0.0.nodes.len() == 1
            &&& start->Ok_0.0.nodes[0].structural
            &&& start->Ok_0.0.nodes[0].claim.value == expanded(env.bindings, p, condition)
        }),
{
    reveal(block_start);
}

/// Outside, a conditional block claims that its last claim follows from the condition, or, where
/// the block for the opposite condition claims the same, that it holds.
pub proof fn law_branches_claim_what_follows(
    env: EnvV,
    p: ProjectV,
    condition: ValueV,
    first_line: u32,
    right_brace: TokenV,
    if_claim: Option<ValueV>,
    block: BlockV,
    m: ModelV,
    st: Seq<int>,
) -> (claimed: ValueV)
    requires
        last_claim(block, env, right_brace) is Ok,
    ensures
        ({
            let claim = last_claim(block, env, right_brace)->Ok_0.0;
            let (after, told) = branch_result(
                env,
                p,
                condition,
                first_line,
                right_brace,
                if_claim,
                Ok(block),
            );
            &&& after.nodes.drop_last() == env.nodes
            &&& after.nodes.last().claim.value == expanded(env.bindings, p, claimed)
            &&& after.nodes.last().block == Some(block)
            &&& !after.nodes.last().structural
            &&& if_claim != Some(claim) ==> (is_true(claimed, m, st) <==> (is_true(
                condition,
                m,
                st,
            ) ==> is_true(claim, m, st)))
            &&& if_claim == Some(claim) ==> (is_true(claimed, m, st) <==> is_true(claim, m, st))
            &&& if_claim != Some(claim) ==> told == Ok::<Option<ValueV>, ErrorV>(Some(claim))
        }),
{
    reveal(branch_result);
    let claim = last_claim(block, env, right_brace)->Ok_0.0;
    let claimed = if if_claim == Some(claim) {
        claim
    } else {
        binary(BinaryOp::Implies, condition, claim)
    };
    let after = branch_result(
        env,
        p,
        condition,
        first_line,
        right_brace,
        if_claim,
        Ok(block),
    ).0;
    assert(after.nodes.drop_last() =~= env.nodes);
    claimed
}

/// The two blocks of a conditional have opposite conditions, and what is claimed outside follows
/// from what they claim under their conditions.
pub proof fn law_conditionals_have_opposite_branches(
    env: EnvV,
    p: ProjectV,
    s: StatementV,
    condition: ValueV,
    m: ModelV,
    st: Seq<int>,
) -> (claims: (ValueV, ValueV))
    requires
        if_step(env, p, s).1 is Ok,
        match s.statement {
            InfoV::If { condition: e, body, else_body: Some(b), .. } => body.statements.len() > 0
                && b.statements.len() > 0 && value_in(env, p, e, Some(TypeV::Bool)) == Ok::<
                ValueV,
                ErrorV,
            >(condition),
            _ => false,
        },
    ensures
        ({
            let after = if_step(env, p, s).0;
            let n = env.nodes.len() as int;
            &&& after.nodes.len() == n + 2
            &&& after.nodes.take(n) == env.nodes
            &&& after.nodes[n].block is Some && after.nodes[n + 1].block is Some
            &&& after.nodes[n].claim.value == expanded(env.bindings, p, claims.0)
            &&& after.nodes[n + 1].claim.value == expanded(env.bindings, p, claims.1)
            &&& match (
                last_claim(after.nodes[n].block->0, env, empty_token()),
                last_claim(after.nodes[n + 1].block->0, env, empty_token()),
            ) {
                (Ok((yes, _)), Ok((no, _))) => {
                    let c = is_true(condition, m, st);
                    &&& is_true(claims.0, m, st) <==> (c ==> is_true(yes, m, st))
                    &&& (c ==> is_true(yes, m, st)) && (!c ==> is_true(no, m, st)) ==> is_true(
                        claims.1,
                        m,
                        st,
                    )
                    &&& is_true(claims.1, m, st) ==> (!c ==> is_true(no, m, st))
                },
                _ => false,
            }
        }),
{
    reveal(if_step);
    reveal(branch_result);
    reveal(last_claim);
    reveal(exported);
    law_negated_is_the_opposite(condition, m, st);
    match s.statement {
        InfoV::If { condition: e, body, else_body: Some(b), .. } => {
            let step = conditional_step(
                env,
                p,
                condition,
                expr_range(e),
                s.first_token.line_number,
                body,
                None,
            );
            let first = step.0;
            let n = env.nodes.len() as int;
            let no = negated(condition);
            let if_claim = step.1->Ok_0;
            let second = conditional_step(
                first,
                p,
                no,
                expr_range(e),
                b.left_brace.line_number,
                b,
                if_claim,
            );
            let first_block = block_of(
                env,
                p,
                Seq::empty(),
                Seq::empty(),
                BlockParamsV::Conditional(condition, expr_range(e)),
                s.first_token.line_number,
                body,
            );
            let second_block = block_of(
                first,
                p,
                Seq::empty(),
                Seq::empty(),
                BlockParamsV::Conditional(no, expr_range(e)),
                b.left_brace.line_number,
                b,
            );
            assert(first_block is Ok && second_block is Ok);
            let x = law_branches_claim_what_follows(
                env,
                p,
                condition,
                s.first_token.line_number,
                body.right_brace,
                None,
                first_block->Ok_0,
                m,
                st,
            );
            let y = law_branches_claim_what_follows(
                first,
                p,
                no,
                b.left_brace.line_number,
                b.right_brace,
                if_claim,
                second_block->Ok_0,
                m,
                st,
            );
            assert(first.bindings == env.bindings && first.module_id == env.module_id);
            let last = second_block->Ok_0.env.nodes.last().claim.value;
            assert(exported(second_block->Ok_0, first, last) == exported(
                second_block->Ok_0,
                env,
                last,
            ));
            let after = if_step(env, p, s).0;
            assert(after == second.0);
            assert(after.nodes.drop_last() == first.nodes);
            assert(first.nodes.drop_last() == env.nodes);
            assert(after.nodes[n] == first.nodes[n]) by {
                assert(after.nodes.drop_last()[n] == first.nodes[n]);
            }
            assert(first.nodes.last() == first.nodes[n]);
            assert(after.nodes.take(n) =~= env.nodes) by {
                assert forall|i: int| 0 <= i < n implies after.nodes[i] == env.nodes[i] by {
                    assert(after.nodes.drop_last()[i] == first.nodes[i]);
                    assert(first.nodes.drop_last()[i] == env.nodes[i]);
                }
            }
            (x, y)
        },
        _ => (condition, condition),
    }
}

} // verus!
