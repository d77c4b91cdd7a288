//! Functions that are applied to their arguments, replaced by what they give.

use vstd::prelude::*;

use crate::acorn_type::{applied_type, functional, specialized, AtomId, ModuleId, TypeV};
use crate::acorn_value::{
    apply, bound, deeper, edited, edited_all, value_type, BindV, Shift, ValueV,
};
use crate::logic::{expanded, expanded_all};
use crate::model::{
    are_of, for_all, for_some, function_of, meaning, meanings, truth, ModelV,
};
use crate::normal_form::lemma_join;
use crate::substitution::{
    are_proper, are_scoped, can_replace, is_scoped, law_binding_puts_values_for_variables,
    law_shifting_keeps_the_meaning, lemma_scoped_more,
};
use crate::witnesses::has_functions;

verus! {

/// Whether functions in a value are applied to arguments of the right types.
pub open spec fn is_well_typed(v: ValueV) -> bool
    decreases v,
{
    match v {
        ValueV::Application(f, args) => is_well_typed(*f) && are_well_typed(args) && takes(
            value_type(*f),
            args,
        ),
        ValueV::Lambda(ts, b) => ts.len() > 0 && are_proper(seq![value_type(*b)])
            && is_well_typed(*b),
        ValueV::ForAll(_, b) => is_well_typed(*b),
        ValueV::Exists(_, b) => is_well_typed(*b),
        ValueV::Binary(_, l, r) => is_well_typed(*l) && is_well_typed(*r),
        ValueV::Not(x) => is_well_typed(*x),
        ValueV::IfThenElse(c, a, b) => is_well_typed(*c) && is_well_typed(*a) && is_well_typed(*b)
            && value_type(*a) == value_type(*b),
        _ => true,
    }
}

/// Whether this holds of each of some values.
pub open spec fn are_well_typed(vs: Seq<ValueV>) -> bool
    decreases vs,
{
    forall|i: int| 0 <= i < vs.len() ==> is_well_typed(#[trigger] vs[i])
}

/// Whether a function of a type takes some arguments, and there are any.
pub open spec fn takes(t: TypeV, args: Seq<ValueV>) -> bool {
    match t {
        TypeV::Function(ts, _) => 0 < args.len() <= ts.len() && forall|i: int|
            0 <= i < args.len() ==> value_type(#[trigger] args[i]) == ts[i],
        _ => false,
    }
}

/// Whether what constants and functions stand for is of their types.
pub open spec fn is_closed(m: ModelV) -> bool {
    &&& (m.domain)(TypeV::Bool, 0) && (m.domain)(TypeV::Bool, 1)
    &&& forall|module: ModuleId, name: Seq<char>, t: TypeV, ps: Seq<Seq<char>>|
        (m.domain)(t, #[trigger] (m.constant)(module, name, t, ps))
    &&& forall|module: ModuleId, name: Seq<char>, t: TypeV, ps: Seq<(Seq<char>, TypeV)>|
        (m.domain)(specialized(t, ps), #[trigger] (m.specialized)(module, name, t, ps))
    &&& forall|args: Seq<TypeV>, ret: TypeV, f: int, xs: Seq<int>|
        #![trigger
            (m.domain)(TypeV::Function(args, Box::new(ret)), f),
            are_of(m, args.take(xs.len() as int), xs)]
        xs.len() <= args.len() && (m.domain)(TypeV::Function(args, Box::new(ret)), f) && are_of(
            m,
            args.take(xs.len() as int),
            xs,
        ) ==> (m.domain)(applied_type(args, ret, xs.len() as int), (m.apply)(f, xs))
    &&& forall|ts: Seq<TypeV>, t: TypeV, f: spec_fn(Seq<int>) -> int|
        gives(m, ts, t, f) ==> (m.domain)(#[trigger] functional(ts, t), #[trigger] (m.function)(
            ts,
            f,
        ))
}

/// Whether a function gives elements of a type for elements of some types.
pub open spec fn gives(
    m: ModelV,
    ts: Seq<TypeV>,
    t: TypeV,
    f: spec_fn(Seq<int>) -> int,
) -> bool {
    forall|xs: Seq<int>| #[trigger] are_of(m, ts, xs) ==> (m.domain)(t, f(xs))
}

/// Whether it does not matter if arguments come at once or one after the other.
pub open spec fn takes_arguments_in_turn(m: ModelV) -> bool {
    forall|f: int, xs: Seq<int>, ys: Seq<int>|
        xs.len() > 0 && ys.len() > 0 ==> #[trigger] (m.apply)((m.apply)(f, xs), ys) == (m.apply)(
            f,
            xs + ys,
        )
}

/// Whether an interpretation has all functions, and what it has is of the right types.
#[verifier::opaque]
pub open spec fn is_full(m: ModelV) -> bool {
    is_closed(m) && has_functions(m) && takes_arguments_in_turn(m)
}

/// What a value of a type means is an element of this type.
pub proof fn law_values_are_elements_of_their_types(
    v: ValueV,
    ts: Seq<TypeV>,
    limit: int,
    m: ModelV,
    st: Seq<int>,
)
    requires
        is_closed(m),
        is_well_typed(v),
        is_scoped(v, ts, limit),
        are_of(m, ts, st),
    ensures
        (m.domain)(value_type(v), meaning(v, m, st)),
    decreases v,
{
    match v {
        ValueV::Variable(i, t) => {
            assert((m.domain)(ts[i as int], st[i as int]));
        },
        ValueV::Constant(module, name, t, ps) => {
            assert((m.domain)(t, (m.constant)(module, name, t, ps)));
        },
        ValueV::Specialized(module, name, t, ps) => {
            assert((m.domain)(specialized(t, ps), (m.specialized)(module, name, t, ps)));
        },
        ValueV::Application(f, args) => {
            law_values_are_elements_of_their_types(*f, ts, limit, m, st);
            lemma_arguments(args, ts, limit, m, st);
            match value_type(*f) {
                TypeV::Function(arg_types, ret) => {
                    let xs = meanings(args, m, st);
                    let first = arg_types.take(xs.len() as int);
                    assert forall|i: int| 0 <= i < first.len() implies (m.domain)(
                        #[trigger] first[i],
                        #[trigger] xs[i],
                    ) by {
                        assert(value_type(args[i]) == arg_types[i]);
                        assert((m.domain)(value_type(args[i]), meaning(args[i], m, st)));
                    }
                    assert(are_of(m, arg_types.take(xs.len() as int), xs));
                    assert((m.domain)(
                        TypeV::Function(arg_types, Box::new(*ret)),
                        meaning(*f, m, st),
                    ));
                },
                _ => {},
            }
        },
        ValueV::Lambda(xs, b) => {
            let f = function_of(xs, *b, m, st);
            assert forall|ys: Seq<int>| #[trigger] are_of(m, xs, ys) implies (m.domain)(
                value_type(*b),
                f(ys),
            ) by {
                lemma_join(m, ts, xs, st, ys);
                law_values_are_elements_of_their_types(*b, ts + xs, limit, m, st + ys);
                assert(f(ys) == meaning(*b, m, st + ys));
            }
            assert(gives(m, xs, value_type(*b), f));
            assert((m.domain)(functional(xs, value_type(*b)), (m.function)(xs, f)));
        },
        ValueV::IfThenElse(c, a, b) => {
            law_values_are_elements_of_their_types(*a, ts, limit, m, st);
            law_values_are_elements_of_their_types(*b, ts, limit, m, st);
        },
        _ => {},
    }
}

proof fn lemma_arguments(
    args: Seq<ValueV>,
    ts: Seq<TypeV>,
    limit: int,
    m: ModelV,
    st: Seq<int>,
)
    requires
        is_closed(m),
        are_well_typed(args),
        are_scoped(args, ts, limit),
        are_of(m, ts, st),
    ensures
        forall|i: int|
            0 <= i < args.len() ==> (m.domain)(
                value_type(#[trigger] args[i]),
                meaning(args[i], m, st),
            ),
    decreases args,
{
    assert forall|i: int| 0 <= i < args.len() implies (m.domain)(
        value_type(#[trigger] args[i]),
        meaning(args[i], m, st),
    ) by {
        law_values_are_elements_of_their_types(args[i], ts, limit, m, st);
    }
}

/// Making room on the stack keeps a value well typed.
proof fn lemma_shifted_typed(
    v: ValueV,
    depth: AtomId,
    ts: Seq<TypeV>,
    limit: int,
    index: AtomId,
    increment: AtomId,
)
    requires
        is_well_typed(v),
        is_scoped(v, ts, limit),
        limit + increment <= AtomId::MAX,
        index <= ts.len(),
    ensures
        is_well_typed(edited(v, depth, Shift { index, increment })),
        value_type(edited(v, depth, Shift { index, increment })) == value_type(v),
    decreases v,
{
    let e = Shift { index, increment };
    law_shifting_keeps_the_meaning(
        v,
        depth,
        ts,
        limit,
        index,
        increment,
        arbitrary(),
        Seq::new(ts.len(), |i: int| 0int),
        Seq::new(increment as nat, |i: int| 0int),
        Seq::new(increment as nat, |i: int| TypeV::Bool),
    );
    match v {
        ValueV::Application(f, args) => {
            lemma_shifted_typed(*f, depth, ts, limit, index, increment);
            let changed = edited_all(args, depth, e);
            assert(are_well_typed(args) && are_scoped(args, ts, limit));
            assert forall|i: int| 0 <= i < args.len() implies is_well_typed(#[trigger] changed[i])
                && value_type(changed[i]) == value_type(args[i]) by {
                lemma_shifted_typed(args[i], depth, ts, limit, index, increment);
            }
            assert(are_well_typed(changed));
            assert(takes(value_type(*f), changed));
        },
        ValueV::Lambda(xs, b) => {
            lemma_shifted_typed(*b, deeper(depth, xs.len()), ts + xs, limit, index, increment);
        },
        ValueV::ForAll(xs, b) => {
            lemma_shifted_typed(*b, deeper(depth, xs.len()), ts + xs, limit, index, increment);
        },
        ValueV::Exists(xs, b) => {
            lemma_shifted_typed(*b, deeper(depth, xs.len()), ts + xs, limit, index, increment);
        },
        ValueV::Binary(_, l, r) => {
            lemma_shifted_typed(*l, depth, ts, limit, index, increment);
            lemma_shifted_typed(*r, depth, ts, limit, index, increment);
        },
        ValueV::Not(x) => lemma_shifted_typed(*x, depth, ts, limit, index, increment),
        ValueV::IfThenElse(c, a, b) => {
            lemma_shifted_typed(*c, depth, ts, limit, index, increment);
            lemma_shifted_typed(*a, depth, ts, limit, index, increment);
            lemma_shifted_typed(*b, depth, ts, limit, index, increment);
        },
        _ => {},
    }
}

/// Putting well typed values for variables keeps a value well typed.
proof fn lemma_bound_typed(
    v: ValueV,
    outer: Seq<TypeV>,
    replaced: Seq<TypeV>,
    inner: Seq<TypeV>,
    limit: int,
    values: Seq<ValueV>,
    values_limit: int,
)
    requires
        is_well_typed(v),
        are_well_typed(values),
        is_scoped(v, outer + replaced + inner, limit),
        can_replace(values, replaced, outer, values_limit),
        limit + values_limit - outer.len() <= AtomId::MAX,
    ensures
        ({
            let w = bound(
                v,
                outer.len() as AtomId,
                (outer.len() + inner.len()) as AtomId,
                values,
            );
            is_well_typed(w) && value_type(w) == value_type(v)
        }),
    decreases v,
{
    let first = outer.len() as AtomId;
    let depth = (outer.len() + inner.len()) as AtomId;
    let e = BindV { first, values };
    law_binding_puts_values_for_variables(
        v,
        outer,
        replaced,
        inner,
        limit,
        values,
        values_limit,
        arbitrary(),
        Seq::new(outer.len(), |i: int| 0int),
        Seq::new(inner.len(), |i: int| 0int),
    );
    match v {
        ValueV::Variable(i, _) => {
            if first <= i && i - first < values.len() {
                assert(depth.wrapping_sub(first) == inner.len() as AtomId);
                lemma_shifted_typed(
                    values[i - first],
                    0,
                    outer,
                    values_limit,
                    first,
                    inner.len() as AtomId,
                );
            }
        },
        ValueV::Application(f, args) => {
            lemma_bound_typed(*f, outer, replaced, inner, limit, values, values_limit);
            let changed = edited_all(args, depth, e);
            assert(are_well_typed(args) && are_scoped(args, outer + replaced + inner, limit));
            assert forall|i: int| 0 <= i < args.len() implies is_well_typed(#[trigger] changed[i])
                && value_type(changed[i]) == value_type(args[i]) by {
                lemma_bound_typed(args[i], outer, replaced, inner, limit, values, values_limit);
            }
            assert(are_well_typed(changed));
            assert(takes(value_type(*f), changed));
        },
        ValueV::Lambda(xs, b) => {
            lemma_bound_typed_body(xs, *b, outer, replaced, inner, limit, values, values_limit);
            lemma_bound_typed(*b, outer, replaced, inner + xs, limit, values, values_limit);
        },
        ValueV::ForAll(xs, b) => {
            lemma_bound_typed_body(xs, *b, outer, replaced, inner, limit, values, values_limit);
            lemma_bound_typed(*b, outer, replaced, inner + xs, limit, values, values_limit);
        },
        ValueV::Exists(xs, b) => {
            lemma_bound_typed_body(xs, *b, outer, replaced, inner, limit, values, values_limit);
            lemma_bound_typed(*b, outer, replaced, inner + xs, limit, values, values_limit);
        },
        ValueV::Binary(_, l, r) => {
            lemma_bound_typed(*l, outer, replaced, inner, limit, values, values_limit);
            lemma_bound_typed(*r, outer, replaced, inner, limit, values, values_limit);
        },
        ValueV::Not(x) => {
            lemma_bound_typed(*x, outer, replaced, inner, limit, values, values_limit);
        },
        ValueV::IfThenElse(c, a, b) => {
            lemma_bound_typed(*c, outer, replaced, inner, limit, values, values_limit);
            lemma_bound_typed(*a, outer, replaced, inner, limit, values, values_limit);
            lemma_bound_typed(*b, outer, replaced, inner, limit, values, values_limit);
        },
        _ => {},
    }
}

proof fn lemma_bound_typed_body(
    xs: Seq<TypeV>,
    b: ValueV,
    outer: Seq<TypeV>,
    replaced: Seq<TypeV>,
    inner: Seq<TypeV>,
    limit: int,
    values: Seq<ValueV>,
    values_limit: int,
)
    requires
        is_scoped(b, outer + replaced + inner + xs, limit),
        can_replace(values, replaced, outer, values_limit),
        limit + values_limit - outer.len() <= AtomId::MAX,
    ensures
        is_scoped(b, outer + replaced + (inner + xs), limit),
        deeper((outer.len() + inner.len()) as AtomId, xs.len()) == (outer.len() + (inner
            + xs).len()) as AtomId,
{
    assert(outer + replaced + inner + xs =~= outer + replaced + (inner + xs));
    assert((outer + replaced + (inner + xs)).len() <= limit);
    assert(xs.len() as u16 == xs.len());
}

/// A limit that is doubled with each step.
pub open spec fn grown(limit: int, fuel: u64) -> int
    decreases fuel,
{
    if fuel == 0 {
        limit
    } else {
        grown(2 * limit, (fuel - 1) as u64)
    }
}

proof fn lemma_grown(limit: int, fuel: u64)
    requires
        0 <= limit,
    ensures
        limit <= grown(limit, fuel),
        fuel > 0 ==> 2 * limit <= grown(limit, fuel),
    decreases fuel,
{
    if fuel > 0 {
        lemma_grown(2 * limit, (fuel - 1) as u64);
    }
}

proof fn lemma_each_expanded(vs: Seq<ValueV>, depth: AtomId, fuel: u64, n: nat)
    requires
        n <= vs.len(),
        expanded_all(vs, depth, fuel, n) is Some,
    ensures
        expanded_all(vs, depth, fuel, n)->0.len() == n,
        forall|i: int|
            0 <= i < n ==> expanded(#[trigger] vs[i], depth, fuel) == Some(
                expanded_all(vs, depth, fuel, n)->0[i],
            ),
    decreases n,
{
    if n > 0 {
        lemma_each_expanded(vs, depth, fuel, (n - 1) as nat);
    }
}

/// Replacing functions that are applied to all their arguments by what they give keeps the type
/// of a value.
pub proof fn law_expansion_keeps_the_type(v: ValueV, ts: Seq<TypeV>, limit: int, fuel: u64)
    requires
        is_well_typed(v),
        is_scoped(v, ts, limit),
        grown(limit, fuel) <= AtomId::MAX,
        expanded(v, ts.len() as AtomId, fuel) is Some,
    ensures
        value_type(expanded(v, ts.len() as AtomId, fuel)->0) == value_type(v),
    decreases fuel, v,
{
    let depth = ts.len() as AtomId;
    match v {
        ValueV::Application(f, args) => match *f {
            ValueV::Lambda(xs, body) if xs.len() <= args.len() => {
                lemma_step_types(xs, *body, args, ts, limit, fuel);
                law_expansion_keeps_the_type(
                    apply(
                        bound(*body, depth, depth, args.take(xs.len() as int)),
                        args.skip(xs.len() as int),
                    ),
                    ts,
                    2 * limit,
                    (fuel - 1) as u64,
                );
            },
            _ => {
                law_expansion_keeps_the_type(*f, ts, limit, fuel);
                lemma_each_expanded(args, depth, fuel, args.len());
            },
        },
        ValueV::Lambda(xs, b) => {
            lemma_deeper(xs, *b, ts, limit, fuel);
            law_expansion_keeps_the_type(*b, ts + xs, limit, fuel);
        },
        ValueV::IfThenElse(_, a, _) => law_expansion_keeps_the_type(*a, ts, limit, fuel),
        _ => {},
    }
}

proof fn lemma_deeper(xs: Seq<TypeV>, b: ValueV, ts: Seq<TypeV>, limit: int, fuel: u64)
    requires
        is_scoped(b, ts + xs, limit),
        grown(limit, fuel) <= AtomId::MAX,
    ensures
        deeper(ts.len() as AtomId, xs.len()) == (ts + xs).len() as AtomId,
{
    assert((ts + xs).len() <= limit);
    lemma_grown(limit, fuel);
    assert(xs.len() as u16 == xs.len());
}

/// Replacing functions that are applied to all their arguments by what they give keeps what a
/// value means.
pub proof fn law_expansion_keeps_the_meaning(
    v: ValueV,
    ts: Seq<TypeV>,
    limit: int,
    fuel: u64,
    m: ModelV,
    st: Seq<int>,
)
    requires
        is_full(m),
        is_well_typed(v),
        is_scoped(v, ts, limit),
        grown(limit, fuel) <= AtomId::MAX,
        are_of(m, ts, st),
        expanded(v, ts.len() as AtomId, fuel) is Some,
    ensures
        meaning(expanded(v, ts.len() as AtomId, fuel)->0, m, st) == meaning(v, m, st),
    decreases fuel, v, 2nat,
{
    let depth = ts.len() as AtomId;
    let w = expanded(v, depth, fuel)->0;
    match v {
        ValueV::Application(f, args) => {
            lemma_expanded_application(*f, args, ts, limit, fuel, m, st);
        },
        ValueV::Lambda(xs, b) => {
            lemma_expanded_body(xs, *b, ts, limit, fuel, m, st);
        },
        ValueV::ForAll(xs, b) => {
            let c = expanded(*b, deeper(depth, xs.len()), fuel)->0;
            lemma_expanded_body(xs, *b, ts, limit, fuel, m, st);
            assert(w == ValueV::ForAll(xs, Box::new(c)));
            assert(meaning(w, m, st) == truth(for_all(xs, c, m, st)));
            assert(meaning(v, m, st) == truth(for_all(xs, *b, m, st)));
        },
        ValueV::Exists(xs, b) => {
            let c = expanded(*b, deeper(depth, xs.len()), fuel)->0;
            lemma_expanded_body(xs, *b, ts, limit, fuel, m, st);
            assert(w == ValueV::Exists(xs, Box::new(c)));
            assert(meaning(w, m, st) == truth(for_some(xs, c, m, st)));
            assert(meaning(v, m, st) == truth(for_some(xs, *b, m, st)));
        },
        ValueV::Binary(op, l, r) => {
            let x = expanded(*l, depth, fuel)->0;
            let y = expanded(*r, depth, fuel)->0;
            assert(w == ValueV::Binary(op, Box::new(x), Box::new(y)));
            law_expansion_keeps_the_meaning(*l, ts, limit, fuel, m, st);
            law_expansion_keeps_the_meaning(*r, ts, limit, fuel, m, st);
            law_expansion_keeps_the_type(*l, ts, limit, fuel);
        },
        ValueV::Not(x) => law_expansion_keeps_the_meaning(*x, ts, limit, fuel, m, st),
        ValueV::IfThenElse(c, a, b) => {
            law_expansion_keeps_the_meaning(*c, ts, limit, fuel, m, st);
            law_expansion_keeps_the_meaning(*a, ts, limit, fuel, m, st);
            law_expansion_keeps_the_meaning(*b, ts, limit, fuel, m, st);
        },
        _ => {},
    }
}

proof fn lemma_expanded_application(
    f: ValueV,
    args: Seq<ValueV>,
    ts: Seq<TypeV>,
    limit: int,
    fuel: u64,
    m: ModelV,
    st: Seq<int>,
)
    requires
        is_full(m),
        is_well_typed(ValueV::Application(Box::new(f), args)),
        is_scoped(ValueV::Application(Box::new(f), args), ts, limit),
        grown(limit, fuel) <= AtomId::MAX,
        are_of(m, ts, st),
        expanded(ValueV::Application(Box::new(f), args), ts.len() as AtomId, fuel) is Some,
    ensures
        ({
            let v = ValueV::Application(Box::new(f), args);
            let w = expanded(v, ts.len() as AtomId, fuel)->0;
            meaning(w, m, st) == meaning(v, m, st)
        }),
    decreases fuel, ValueV::Application(Box::new(f), args), 1nat,
{
    let v = ValueV::Application(Box::new(f), args);
    let depth = ts.len() as AtomId;
    match f {
        ValueV::Lambda(xs, body) if xs.len() <= args.len() => {
            let first = args.take(xs.len() as int);
            let rest = args.skip(xs.len() as int);
            let next = apply(bound(*body, depth, depth, first), rest);
            assert(fuel > 0);
            assert(expanded(v, depth, fuel) == expanded(next, depth, (fuel - 1) as u64));
            lemma_step_types(xs, *body, args, ts, limit, fuel);
            lemma_step(xs, *body, args, ts, limit, fuel, m, st);
            law_expansion_keeps_the_meaning(next, ts, 2 * limit, (fuel - 1) as u64, m, st);
        },
        _ => {
            assert(decreases_to!(v => args));
            let g = expanded(f, depth, fuel)->0;
            let changed = expanded_all(args, depth, fuel, args.len())->0;
            assert(expanded(v, depth, fuel) == Some(
                ValueV::Application(Box::new(g), changed),
            ));
            law_expansion_keeps_the_meaning(f, ts, limit, fuel, m, st);
            lemma_each_expanded(args, depth, fuel, args.len());
            assert(are_well_typed(args) && are_scoped(args, ts, limit));
            assert forall|i: int| 0 <= i < args.len() implies meaning(#[trigger] changed[i], m, st)
                == meaning(args[i], m, st) by {
                assert(expanded(args[i], depth, fuel) == Some(changed[i]));
                law_expansion_keeps_the_meaning(args[i], ts, limit, fuel, m, st);
            }
            assert(meanings(changed, m, st) =~= meanings(args, m, st));
        },
    }
}

/// One step, for types: the arguments are put for the variables of the function.
proof fn lemma_step_types(
    xs: Seq<TypeV>,
    body: ValueV,
    args: Seq<ValueV>,
    ts: Seq<TypeV>,
    limit: int,
    fuel: u64,
)
    requires
        xs.len() <= args.len(),
        fuel > 0,
        ({
            let v = ValueV::Application(
                Box::new(ValueV::Lambda(xs, Box::new(body))),
                args,
            );
            is_well_typed(v) && is_scoped(v, ts, limit)
        }),
        grown(limit, fuel) <= AtomId::MAX,
    ensures
        ({
            let v = ValueV::Application(
                Box::new(ValueV::Lambda(xs, Box::new(body))),
                args,
            );
            let depth = ts.len() as AtomId;
            let first = args.take(xs.len() as int);
            let next = apply(bound(body, depth, depth, first), args.skip(xs.len() as int));
            &&& value_type(next) == value_type(v)
            &&& is_well_typed(next)
            &&& is_scoped(next, ts, 2 * limit)
            &&& can_replace(first, xs, ts, limit)
            &&& 2 * limit <= AtomId::MAX
        }),
{
    let f = ValueV::Lambda(xs, Box::new(body));
    let v = ValueV::Application(Box::new(f), args);
    let depth = ts.len() as AtomId;
    let n = xs.len() as int;
    let first = args.take(n);
    let rest = args.skip(n);
    let inside = bound(body, depth, depth, first);
    let next = apply(inside, rest);
    let none = Seq::<TypeV>::empty();
    let t = value_type(body);
    assert(is_well_typed(f) && are_well_typed(args) && takes(value_type(f), args));
    assert(is_scoped(f, ts, limit) && are_scoped(args, ts, limit));
    assert(value_type(f) == functional(xs, t));
    lemma_grown(limit, fuel);
    let all = match value_type(f) {
        TypeV::Function(a, _) => a,
        _ => xs,
    };
    assert(all.take(n) =~= xs);
    assert forall|i: int| 0 <= i < first.len() implies is_scoped(#[trigger] first[i], ts, limit)
        && value_type(first[i]) == xs[i] && is_well_typed(first[i]) by {
        assert(first[i] == args[i]);
        assert(value_type(args[i]) == all[i]);
        assert(all.take(n)[i] == all[i]);
    }
    assert(are_well_typed(first));
    assert(can_replace(first, xs, ts, limit));
    assert(ts + xs + none =~= ts + xs);
    assert(ts + none =~= ts);
    law_binding_puts_values_for_variables(
        body,
        ts,
        xs,
        none,
        limit,
        first,
        limit,
        arbitrary(),
        Seq::new(ts.len(), |i: int| 0int),
        Seq::empty(),
    );
    lemma_bound_typed(body, ts, xs, none, limit, first, limit);
    lemma_scoped_more(inside, ts, limit + limit - ts.len(), 2 * limit);
    if rest.len() == 0 {
        assert(next == inside);
        match t {
            TypeV::Function(more, last) => {
                assert(are_proper(seq![t]));
                assert(seq![t][0] == t);
                assert((xs + more).skip(n) =~= more);
            },
            _ => {},
        }
        assert(value_type(v) == t);
    } else {
        assert forall|i: int| 0 <= i < rest.len() implies is_scoped(
            #[trigger] rest[i],
            ts,
            2 * limit,
        ) && is_well_typed(rest[i]) by {
            assert(rest[i] == args[n + i]);
            lemma_scoped_more(rest[i], ts, limit, 2 * limit);
        }
        assert(are_scoped(rest, ts, 2 * limit));
        assert(are_well_typed(rest));
        match t {
            TypeV::Function(more, last) => {
                assert(all == xs + more);
                assert forall|i: int| 0 <= i < rest.len() implies value_type(#[trigger] rest[i])
                    == more[i] by {
                    assert(rest[i] == args[n + i]);
                    assert(value_type(args[n + i]) == all[n + i]);
                }
                assert(takes(value_type(inside), rest));
                assert((xs + more).skip(args.len() as int) =~= more.skip(rest.len() as int));
            },
            _ => {
                assert(all == xs);
            },
        }
    }
}

/// One step, for what values mean.
proof fn lemma_step(
    xs: Seq<TypeV>,
    body: ValueV,
    args: Seq<ValueV>,
    ts: Seq<TypeV>,
    limit: int,
    fuel: u64,
    m: ModelV,
    st: Seq<int>,
)
    requires
        is_full(m),
        xs.len() <= args.len(),
        fuel > 0,
        ({
            let v = ValueV::Application(
                Box::new(ValueV::Lambda(xs, Box::new(body))),
                args,
            );
            is_well_typed(v) && is_scoped(v, ts, limit)
        }),
        grown(limit, fuel) <= AtomId::MAX,
        are_of(m, ts, st),
    ensures
        ({
            let v = ValueV::Application(
                Box::new(ValueV::Lambda(xs, Box::new(body))),
                args,
            );
            let depth = ts.len() as AtomId;
            let next = apply(
                bound(body, depth, depth, args.take(xs.len() as int)),
                args.skip(xs.len() as int),
            );
            meaning(next, m, st) == meaning(v, m, st)
        }),
{
    reveal(is_full);
    let f = ValueV::Lambda(xs, Box::new(body));
    let v = ValueV::Application(Box::new(f), args);
    let depth = ts.len() as AtomId;
    let n = xs.len() as int;
    let first = args.take(n);
    let rest = args.skip(n);
    let inside = bound(body, depth, depth, first);
    let next = apply(inside, rest);
    let none = Seq::<TypeV>::empty();
    let start = Seq::<int>::empty();
    lemma_step_types(xs, body, args, ts, limit, fuel);
    assert(is_well_typed(f) && are_well_typed(args));
    assert(is_scoped(f, ts, limit) && are_scoped(args, ts, limit));
    assert(ts + xs + none =~= ts + xs);
    assert(ts + none =~= ts);
    law_binding_puts_values_for_variables(body, ts, xs, none, limit, first, limit, m, st, start);
    let a = meanings(first, m, st);
    assert(st + start =~= st);
    assert(st + a + start =~= st + a);
    assert(meaning(inside, m, st) == meaning(body, m, st + a));
    lemma_arguments(args, ts, limit, m, st);
    assert forall|i: int| 0 <= i < xs.len() implies (m.domain)(
        #[trigger] xs[i],
        #[trigger] a[i],
    ) by {
        assert(first[i] == args[i]);
        assert(value_type(first[i]) == xs[i]);
        assert((m.domain)(value_type(args[i]), meaning(args[i], m, st)));
    }
    assert(are_of(m, xs, a));
    let g = function_of(xs, body, m, st);
    assert((m.apply)((m.function)(xs, g), a) == g(a));
    assert(g(a) == meaning(body, m, st + a));
    assert(meaning(f, m, st) == (m.function)(xs, g));
    assert(meaning(v, m, st) == (m.apply)(meaning(f, m, st), meanings(args, m, st)));
    if rest.len() == 0 {
        assert(first =~= args);
    } else {
        let b = meanings(rest, m, st);
        assert(meanings(args, m, st) =~= a + b);
        assert((m.apply)((m.apply)((m.function)(xs, g), a), b) == (m.apply)(
            (m.function)(xs, g),
            a + b,
        ));
        assert(meaning(next, m, st) == (m.apply)(meaning(inside, m, st), b));
    }
}

proof fn lemma_expanded_body(
    xs: Seq<TypeV>,
    b: ValueV,
    ts: Seq<TypeV>,
    limit: int,
    fuel: u64,
    m: ModelV,
    st: Seq<int>,
)
    requires
        is_full(m),
        is_well_typed(b),
        is_scoped(b, ts + xs, limit),
        grown(limit, fuel) <= AtomId::MAX,
        are_of(m, ts, st),
        expanded(b, deeper(ts.len() as AtomId, xs.len()), fuel) is Some,
    ensures
        ({
            let c = expanded(b, deeper(ts.len() as AtomId, xs.len()), fuel)->0;
            &&& function_of(xs, c, m, st) == function_of(xs, b, m, st)
            &&& for_all(xs, c, m, st) == for_all(xs, b, m, st)
            &&& for_some(xs, c, m, st) == for_some(xs, b, m, st)
        }),
    decreases fuel, b, 3nat,
{
    let d = deeper(ts.len() as AtomId, xs.len());
    let c = expanded(b, d, fuel)->0;
    lemma_deeper(xs, b, ts, limit, fuel);
    assert forall|ys: Seq<int>| #[trigger] are_of(m, xs, ys) implies meaning(c, m, st + ys)
        == meaning(b, m, st + ys) by {
        lemma_join(m, ts, xs, st, ys);
        law_expansion_keeps_the_meaning(b, ts + xs, limit, fuel, m, st + ys);
    }
    assert forall|ys: Seq<int>| #[trigger]
        function_of(xs, c, m, st)(ys) == function_of(xs, b, m, st)(ys) by {
        if are_of(m, xs, ys) {
            assert(meaning(c, m, st + ys) == meaning(b, m, st + ys));
        }
    }
    assert(function_of(xs, c, m, st) =~= function_of(xs, b, m, st));
}

/// What can be expanded in some steps is expanded to the same with more of them left.
pub proof fn law_more_fuel_changes_nothing(v: ValueV, depth: AtomId, fuel: u64, more: u64)
    requires
        expanded(v, depth, fuel) is Some,
        fuel <= more,
    ensures
        expanded(v, depth, more) == expanded(v, depth, fuel),
    decreases fuel, v, 0nat,
{
    match v {
        ValueV::Application(f, args) => {
            match *f {
                ValueV::Lambda(xs, body) if xs.len() <= args.len() => {
                    law_more_fuel_changes_nothing(
                        apply(
                            bound(*body, depth, depth, args.take(xs.len() as int)),
                            args.skip(xs.len() as int),
                        ),
                        depth,
                        (fuel - 1) as u64,
                        (more - 1) as u64,
                    );
                },
                _ => {
                    law_more_fuel_changes_nothing(*f, depth, fuel, more);
                    lemma_more_fuel(args, depth, fuel, more, args.len());
                },
            }
        },
        ValueV::Lambda(xs, b) => {
            law_more_fuel_changes_nothing(*b, deeper(depth, xs.len()), fuel, more);
        },
        ValueV::ForAll(xs, b) => {
            law_more_fuel_changes_nothing(*b, deeper(depth, xs.len()), fuel, more);
        },
        ValueV::Exists(xs, b) => {
            law_more_fuel_changes_nothing(*b, deeper(depth, xs.len()), fuel, more);
        },
        ValueV::Binary(_, l, r) => {
            law_more_fuel_changes_nothing(*l, depth, fuel, more);
            law_more_fuel_changes_nothing(*r, depth, fuel, more);
        },
        ValueV::Not(x) => law_more_fuel_changes_nothing(*x, depth, fuel, more),
        ValueV::IfThenElse(c, a, b) => {
            law_more_fuel_changes_nothing(*c, depth, fuel, more);
            law_more_fuel_changes_nothing(*a, depth, fuel, more);
            law_more_fuel_changes_nothing(*b, depth, fuel, more);
        },
        _ => {},
    }
}

proof fn lemma_more_fuel(vs: Seq<ValueV>, depth: AtomId, fuel: u64, more: u64, n: nat)
    requires
        n <= vs.len(),
        expanded_all(vs, depth, fuel, n) is Some,
        fuel <= more,
    ensures
        expanded_all(vs, depth, more, n) == expanded_all(vs, depth, fuel, n),
    decreases fuel, vs, n,
{
    if n > 0 {
        lemma_more_fuel(vs, depth, fuel, more, (n - 1) as nat);
        law_more_fuel_changes_nothing(vs[n - 1], depth, fuel, more);
    }
}

} // verus!
