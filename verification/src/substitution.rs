//! Making room on the stack and putting values for variables, against what values mean.

use vstd::prelude::*;

use crate::acorn_type::{AtomId, TypeV};
use crate::acorn_value::{
    bound, deeper, edited, edited_all, negated, value_type, BindV, Shift, ValueV,
};
use crate::model::{
    are_of, for_all, for_some, function_of, is_true, meaning, meanings, truth, ModelV,
};

verus! {

/// Whether function types among some types have arguments.
pub open spec fn are_proper(ts: Seq<TypeV>) -> bool {
    forall|i: int|
        0 <= i < ts.len() ==> match #[trigger] ts[i] {
            TypeV::Function(args, _) => args.len() > 0,
            _ => true,
        }
}

/// Whether the variables of a value are those on a stack of variables of the given types, and no
/// stack inside it is larger than the limit.
pub open spec fn is_scoped(v: ValueV, ts: Seq<TypeV>, limit: int) -> bool
    decreases v,
{
    ts.len() <= limit && match v {
        ValueV::Variable(i, t) => i < ts.len() && t == ts[i as int],
        ValueV::Application(f, args) => is_scoped(*f, ts, limit) && are_scoped(args, ts, limit),
        ValueV::Lambda(more, b) => are_proper(more) && is_scoped(*b, ts + more, limit),
        ValueV::ForAll(more, b) => are_proper(more) && is_scoped(*b, ts + more, limit),
        ValueV::Exists(more, b) => are_proper(more) && is_scoped(*b, ts + more, limit),
        ValueV::Binary(_, l, r) => is_scoped(*l, ts, limit) && is_scoped(*r, ts, limit),
        ValueV::Not(x) => is_scoped(*x, ts, limit),
        ValueV::IfThenElse(c, a, b) => is_scoped(*c, ts, limit) && is_scoped(*a, ts, limit)
            && is_scoped(*b, ts, limit),
        _ => true,
    }
}

/// Whether this holds of each of some values.
pub open spec fn are_scoped(vs: Seq<ValueV>, ts: Seq<TypeV>, limit: int) -> bool
    decreases vs,
{
    forall|i: int| 0 <= i < vs.len() ==> is_scoped(#[trigger] vs[i], ts, limit)
}

/// The negation of a value holds where the value does not.
pub proof fn law_negated_is_the_opposite(v: ValueV, m: ModelV, st: Seq<int>)
    ensures
        is_true(negated(v), m, st) == !is_true(v, m, st),
{
    reveal_with_fuel(meaning, 2);
}

/// A stack with some more elements from an index on.
pub open spec fn inserted<A>(s: Seq<A>, index: int, more: Seq<A>) -> Seq<A> {
    s.take(index) + more + s.skip(index)
}

/// Making room on the stack keeps what a value means: it does not depend on the elements that
/// are new on the stack.
pub proof fn law_shifting_keeps_the_meaning(
    v: ValueV,
    depth: AtomId,
    ts: Seq<TypeV>,
    limit: int,
    index: AtomId,
    increment: AtomId,
    m: ModelV,
    st: Seq<int>,
    more: Seq<int>,
    more_types: Seq<TypeV>,
)
    requires
        is_scoped(v, ts, limit),
        limit + increment <= AtomId::MAX,
        index <= ts.len(),
        st.len() == ts.len(),
        more.len() == increment,
        more_types.len() == increment,
    ensures
        meaning(edited(v, depth, Shift { index, increment }), m, inserted(st, index as int, more))
            == meaning(v, m, st),
        value_type(edited(v, depth, Shift { index, increment })) == value_type(v),
        is_scoped(
            edited(v, depth, Shift { index, increment }),
            inserted(ts, index as int, more_types),
            limit + increment,
        ),
    decreases v, 0nat,
{
    let e = Shift { index, increment };
    let w = edited(v, depth, e);
    let s2 = inserted(st, index as int, more);
    let t2 = inserted(ts, index as int, more_types);
    match v {
        ValueV::Variable(i, t) => {
            if i < index {
                assert(s2[i as int] == st[i as int]);
                assert(t2[i as int] == ts[i as int]);
            } else {
                assert(s2[i + increment] == st[i as int]);
                assert(t2[i + increment] == ts[i as int]);
            }
        },
        ValueV::Application(f, args) => {
            law_shifting_keeps_the_meaning(
                *f, depth, ts, limit, index, increment, m, st, more, more_types,
            );
            let changed = edited_all(args, depth, e);
            assert(are_scoped(args, ts, limit));
            assert forall|i: int| 0 <= i < args.len() implies meaning(
                #[trigger] changed[i],
                m,
                s2,
            ) == meaning(args[i], m, st) && is_scoped(changed[i], t2, limit + increment) by {
                law_shifting_keeps_the_meaning(
                    args[i], depth, ts, limit, index, increment, m, st, more, more_types,
                );
            }
            assert(meanings(changed, m, s2) =~= meanings(args, m, st));
            assert(are_scoped(changed, t2, limit + increment));
        },
        ValueV::Lambda(xs, b) => {
            lemma_shift_body(
                xs, *b, deeper(depth, xs.len()), ts, limit, index, increment, m, st, more,
                more_types,
            );
        },
        ValueV::ForAll(xs, b) => {
            let d = deeper(depth, xs.len());
            lemma_shift_body(
                xs, *b, d, ts, limit, index, increment, m, st, more, more_types,
            );
            assert(meaning(v, m, st) == truth(for_all(xs, *b, m, st)));
            assert(meaning(w, m, s2) == truth(
                for_all(xs, edited(*b, d, e), m, s2),
            ));
        },
        ValueV::Exists(xs, b) => {
            let d = deeper(depth, xs.len());
            lemma_shift_body(
                xs, *b, d, ts, limit, index, increment, m, st, more, more_types,
            );
            assert(meaning(v, m, st) == truth(for_some(xs, *b, m, st)));
            assert(meaning(w, m, s2) == truth(
                for_some(xs, edited(*b, d, e), m, s2),
            ));
        },
        ValueV::Binary(op, l, r) => {
            law_shifting_keeps_the_meaning(
                *l, depth, ts, limit, index, increment, m, st, more, more_types,
            );
            law_shifting_keeps_the_meaning(
                *r, depth, ts, limit, index, increment, m, st, more, more_types,
            );
        },
        ValueV::Not(x) => {
            law_shifting_keeps_the_meaning(
                *x, depth, ts, limit, index, increment, m, st, more, more_types,
            );
        },
        ValueV::IfThenElse(c, a, b) => {
            law_shifting_keeps_the_meaning(
                *c, depth, ts, limit, index, increment, m, st, more, more_types,
            );
            law_shifting_keeps_the_meaning(
                *a, depth, ts, limit, index, increment, m, st, more, more_types,
            );
            law_shifting_keeps_the_meaning(
                *b, depth, ts, limit, index, increment, m, st, more, more_types,
            );
        },
        _ => {},
    }
}

/// The same of what stands under a binder.
proof fn lemma_shift_body(
    xs: Seq<TypeV>,
    b: ValueV,
    d: AtomId,
    ts: Seq<TypeV>,
    limit: int,
    index: AtomId,
    increment: AtomId,
    m: ModelV,
    st: Seq<int>,
    more: Seq<int>,
    more_types: Seq<TypeV>,
)
    requires
        is_scoped(b, ts + xs, limit),
        limit + increment <= AtomId::MAX,
        index <= ts.len(),
        st.len() == ts.len(),
        more.len() == increment,
        more_types.len() == increment,
    ensures
        function_of(
            xs,
            edited(b, d, Shift { index, increment }),
            m,
            inserted(st, index as int, more),
        ) == function_of(xs, b, m, st),
        for_all(
            xs,
            edited(b, d, Shift { index, increment }),
            m,
            inserted(st, index as int, more),
        ) == for_all(xs, b, m, st),
        for_some(
            xs,
            edited(b, d, Shift { index, increment }),
            m,
            inserted(st, index as int, more),
        ) == for_some(xs, b, m, st),
        value_type(edited(b, d, Shift { index, increment })) == value_type(b),
        is_scoped(
            edited(b, d, Shift { index, increment }),
            inserted(ts, index as int, more_types) + xs,
            limit + increment,
        ),
    decreases b, 1nat,
{
    let c = edited(b, d, Shift { index, increment });
    let s2 = inserted(st, index as int, more);
    let some = Seq::new(xs.len(), |i: int| 0int);
    assert forall|ys: Seq<int>| ys.len() == xs.len() implies #[trigger] meaning(c, m, s2 + ys)
        == meaning(b, m, st + ys) by {
        law_shifting_keeps_the_meaning(
            b, d, ts + xs, limit, index, increment, m, st + ys, more, more_types,
        );
        assert(inserted(st + ys, index as int, more) =~= s2 + ys);
    }
    law_shifting_keeps_the_meaning(
        b, d, ts + xs, limit, index, increment, m, st + some, more, more_types,
    );
    assert(inserted(ts + xs, index as int, more_types) =~= inserted(ts, index as int, more_types)
        + xs);
    assert forall|ys: Seq<int>| #[trigger]
        function_of(xs, c, m, s2)(ys) == function_of(xs, b, m, st)(ys) by {
        if are_of(m, xs, ys) {
            assert(meaning(c, m, s2 + ys) == meaning(b, m, st + ys));
        }
    }
    assert(function_of(xs, c, m, s2) =~= function_of(xs, b, m, st));
    assert forall|ys: Seq<int>| #[trigger] are_of(m, xs, ys) implies meaning(c, m, s2 + ys)
        == meaning(b, m, st + ys) by {}
}

pub proof fn lemma_scoped_more(v: ValueV, ts: Seq<TypeV>, limit: int, larger: int)
    requires
        is_scoped(v, ts, limit),
        limit <= larger,
    ensures
        is_scoped(v, ts, larger),
    decreases v,
{
    match v {
        ValueV::Application(f, args) => {
            lemma_scoped_more(*f, ts, limit, larger);
            assert(are_scoped(args, ts, limit));
            assert forall|i: int| 0 <= i < args.len() implies is_scoped(
                #[trigger] args[i],
                ts,
                larger,
            ) by {
                lemma_scoped_more(args[i], ts, limit, larger);
            }
            assert(are_scoped(args, ts, larger));
        },
        ValueV::Lambda(more, b) => lemma_scoped_more(*b, ts + more, limit, larger),
        ValueV::ForAll(more, b) => lemma_scoped_more(*b, ts + more, limit, larger),
        ValueV::Exists(more, b) => lemma_scoped_more(*b, ts + more, limit, larger),
        ValueV::Binary(_, l, r) => {
            lemma_scoped_more(*l, ts, limit, larger);
            lemma_scoped_more(*r, ts, limit, larger);
        },
        ValueV::Not(x) => lemma_scoped_more(*x, ts, limit, larger),
        ValueV::IfThenElse(c, a, b) => {
            lemma_scoped_more(*c, ts, limit, larger);
            lemma_scoped_more(*a, ts, limit, larger);
            lemma_scoped_more(*b, ts, limit, larger);
        },
        _ => {},
    }
}

/// Whether values can be put for variables of the given types, on a stack of variables of other
/// types.
pub open spec fn can_replace(
    values: Seq<ValueV>,
    replaced: Seq<TypeV>,
    outer: Seq<TypeV>,
    limit: int,
) -> bool {
    &&& values.len() == replaced.len()
    &&& outer.len() <= limit
    &&& forall|i: int|
        0 <= i < values.len() ==> is_scoped(#[trigger] values[i], outer, limit) && value_type(
            values[i],
        ) == replaced[i]
}

/// Putting values for variables means what the value means where these variables stand for what
/// the values mean. This holds at every depth inside.
pub proof fn law_binding_puts_values_for_variables(
    v: ValueV,
    outer: Seq<TypeV>,
    replaced: Seq<TypeV>,
    inner: Seq<TypeV>,
    limit: int,
    values: Seq<ValueV>,
    values_limit: int,
    m: ModelV,
    st: Seq<int>,
    top: Seq<int>,
)
    requires
        is_scoped(v, outer + replaced + inner, limit),
        can_replace(values, replaced, outer, values_limit),
        limit + values_limit - outer.len() <= AtomId::MAX,
        st.len() == outer.len(),
        top.len() == inner.len(),
    ensures
        ({
            let w = bound(
                v,
                outer.len() as AtomId,
                (outer.len() + inner.len()) as AtomId,
                values,
            );
            &&& meaning(w, m, st + top) == meaning(v, m, st + meanings(values, m, st) + top)
            &&& value_type(w) == value_type(v)
            &&& is_scoped(w, outer + inner, limit + values_limit - outer.len())
        }),
    decreases v, 0nat,
{
    let first = outer.len() as AtomId;
    let depth = (outer.len() + inner.len()) as AtomId;
    let e = BindV { first, values };
    let w = edited(v, depth, e);
    let ts = outer + inner;
    let old_ts = outer + replaced + inner;
    let s2 = st + top;
    let s1 = st + meanings(values, m, st) + top;
    let new_limit = limit + values_limit - outer.len();
    match v {
        ValueV::Variable(i, t) => {
            if i < first {
                assert(s2[i as int] == s1[i as int]);
                assert(ts[i as int] == old_ts[i as int]);
            } else if i - first < values.len() {
                let x = values[i - first];
                law_shifting_keeps_the_meaning(
                    x, 0, outer, values_limit, first, inner.len() as AtomId, m, st, top, inner,
                );
                assert(inserted(st, first as int, top) =~= s2);
                assert(inserted(outer, first as int, inner) =~= ts);
                assert(s1[i as int] == meanings(values, m, st)[i - first]);
                assert(old_ts[i as int] == replaced[i - first]);
                assert(depth.wrapping_sub(first) == inner.len() as AtomId);
                lemma_scoped_more(w, ts, values_limit + inner.len(), new_limit);
            } else {
                let k = i - values.len();
                assert(values.len() as u16 == values.len());
                assert(s2[k] == s1[i as int]);
                assert(ts[k] == old_ts[i as int]);
            }
        },
        ValueV::Application(f, args) => {
            law_binding_puts_values_for_variables(
                *f, outer, replaced, inner, limit, values, values_limit, m, st, top,
            );
            let changed = edited_all(args, depth, e);
            assert(are_scoped(args, old_ts, limit));
            assert forall|i: int| 0 <= i < args.len() implies meaning(
                #[trigger] changed[i],
                m,
                s2,
            ) == meaning(args[i], m, s1) && is_scoped(changed[i], ts, new_limit) by {
                law_binding_puts_values_for_variables(
                    args[i], outer, replaced, inner, limit, values, values_limit, m, st, top,
                );
            }
            assert(meanings(changed, m, s2) =~= meanings(args, m, s1));
            assert(are_scoped(changed, ts, new_limit));
        },
        ValueV::Lambda(xs, b) => {
            lemma_bind_body(
                xs, *b, outer, replaced, inner, limit, values, values_limit, m, st, top,
            );
        },
        ValueV::ForAll(xs, b) => {
            lemma_bind_body(
                xs, *b, outer, replaced, inner, limit, values, values_limit, m, st, top,
            );
            let c = edited(*b, deeper(depth, xs.len()), e);
            assert(meaning(v, m, s1) == truth(for_all(xs, *b, m, s1)));
            assert(meaning(w, m, s2) == truth(for_all(xs, c, m, s2)));
        },
        ValueV::Exists(xs, b) => {
            lemma_bind_body(
                xs, *b, outer, replaced, inner, limit, values, values_limit, m, st, top,
            );
            let c = edited(*b, deeper(depth, xs.len()), e);
            assert(meaning(v, m, s1) == truth(for_some(xs, *b, m, s1)));
            assert(meaning(w, m, s2) == truth(for_some(xs, c, m, s2)));
        },
        ValueV::Binary(op, l, r) => {
            law_binding_puts_values_for_variables(
                *l, outer, replaced, inner, limit, values, values_limit, m, st, top,
            );
            law_binding_puts_values_for_variables(
                *r, outer, replaced, inner, limit, values, values_limit, m, st, top,
            );
        },
        ValueV::Not(x) => {
            law_binding_puts_values_for_variables(
                *x, outer, replaced, inner, limit, values, values_limit, m, st, top,
            );
        },
        ValueV::IfThenElse(c, a, b) => {
            law_binding_puts_values_for_variables(
                *c, outer, replaced, inner, limit, values, values_limit, m, st, top,
            );
            law_binding_puts_values_for_variables(
                *a, outer, replaced, inner, limit, values, values_limit, m, st, top,
            );
            law_binding_puts_values_for_variables(
                *b, outer, replaced, inner, limit, values, values_limit, m, st, top,
            );
        },
        _ => {},
    }
}

/// The same of what stands under a binder.
proof fn lemma_bind_body(
    xs: Seq<TypeV>,
    b: ValueV,
    outer: Seq<TypeV>,
    replaced: Seq<TypeV>,
    inner: Seq<TypeV>,
    limit: int,
    values: Seq<ValueV>,
    values_limit: int,
    m: ModelV,
    st: Seq<int>,
    top: Seq<int>,
)
    requires
        is_scoped(b, outer + replaced + inner + xs, limit),
        can_replace(values, replaced, outer, values_limit),
        limit + values_limit - outer.len() <= AtomId::MAX,
        st.len() == outer.len(),
        top.len() == inner.len(),
    ensures
        ({
            let c = edited(
                b,
                deeper((outer.len() + inner.len()) as AtomId, xs.len()),
                BindV { first: outer.len() as AtomId, values },
            );
            let s1 = st + meanings(values, m, st) + top;
            &&& function_of(xs, c, m, st + top) == function_of(xs, b, m, s1)
            &&& for_all(xs, c, m, st + top) == for_all(xs, b, m, s1)
            &&& for_some(xs, c, m, st + top) == for_some(xs, b, m, s1)
            &&& value_type(c) == value_type(b)
            &&& is_scoped(c, outer + inner + xs, limit + values_limit - outer.len())
        }),
    decreases b, 1nat,
{
    let d = deeper((outer.len() + inner.len()) as AtomId, xs.len());
    let c = edited(b, d, BindV { first: outer.len() as AtomId, values });
    let vs = meanings(values, m, st);
    let s1 = st + vs + top;
    let s2 = st + top;
    let more = inner + xs;
    assert(outer + replaced + inner + xs =~= outer + replaced + more);
    assert(outer + inner + xs =~= outer + more);
    lemma_depth(b, outer + replaced + more, limit);
    assert(xs.len() as u16 == xs.len());
    assert(d == (outer.len() + more.len()) as AtomId);
    let some = Seq::new(xs.len(), |i: int| 0int);
    assert forall|ys: Seq<int>| ys.len() == xs.len() implies #[trigger] meaning(c, m, s2 + ys)
        == meaning(b, m, s1 + ys) by {
        law_binding_puts_values_for_variables(
            b, outer, replaced, more, limit, values, values_limit, m, st, top + ys,
        );
        assert(st + (top + ys) =~= s2 + ys);
        assert(st + vs + (top + ys) =~= s1 + ys);
    }
    law_binding_puts_values_for_variables(
        b, outer, replaced, more, limit, values, values_limit, m, st, top + some,
    );
    assert forall|ys: Seq<int>| #[trigger]
        function_of(xs, c, m, s2)(ys) == function_of(xs, b, m, s1)(ys) by {
        if are_of(m, xs, ys) {
            assert(meaning(c, m, s2 + ys) == meaning(b, m, s1 + ys));
        }
    }
    assert(function_of(xs, c, m, s2) =~= function_of(xs, b, m, s1));
    assert forall|ys: Seq<int>| #[trigger] are_of(m, xs, ys) implies meaning(c, m, s2 + ys)
        == meaning(b, m, s1 + ys) by {}
}

proof fn lemma_depth(v: ValueV, ts: Seq<TypeV>, limit: int)
    requires
        is_scoped(v, ts, limit),
    ensures
        ts.len() <= limit,
{
}

} // verus!
