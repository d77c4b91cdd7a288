//! Taking quantifiers off a proposition, and its conjunctive normal form, against what values
//! mean.

use vstd::prelude::*;

use crate::acorn_type::{AtomId, TypeV};
use crate::acorn_value::{deeper, edited, edited_all, shifted, BinaryOp, Shift, ValueV};
use crate::logic::{
    cnf, dequantified, holds, law_cnf_means_the_same, lemma_dequantified_grows,
    lemma_shift_keeps_structure, some_holds, structure,
};
use crate::model::{are_of, is_true, lemma_quantified, meaning, meanings, ModelV};
use crate::substitution::{
    are_scoped, inserted, is_scoped, law_shifting_keeps_the_meaning,
};

verus! {

/// Whether no variable is bound inside a value.
pub open spec fn is_flat(v: ValueV) -> bool
    decreases v,
{
    match v {
        ValueV::Application(f, args) => is_flat(*f) && are_flat(args),
        ValueV::Lambda(_, _) => false,
        ValueV::ForAll(_, _) => false,
        ValueV::Exists(_, _) => false,
        ValueV::Binary(_, l, r) => is_flat(*l) && is_flat(*r),
        ValueV::Not(x) => is_flat(*x),
        ValueV::IfThenElse(c, a, b) => is_flat(*c) && is_flat(*a) && is_flat(*b),
        _ => true,
    }
}

/// Whether this holds of each of some values.
pub open spec fn are_flat(vs: Seq<ValueV>) -> bool
    decreases vs,
{
    forall|i: int| 0 <= i < vs.len() ==> is_flat(#[trigger] vs[i])
}

/// Whether a proposition binds variables only by the universal quantifiers of its logical
/// structure.
pub open spec fn is_first_order(v: ValueV) -> bool
    decreases v,
{
    match v {
        ValueV::ForAll(_, b) => is_first_order(*b),
        ValueV::Binary(op, l, r) => if op is And || op is Or {
            is_first_order(*l) && is_first_order(*r)
        } else {
            is_flat(v)
        },
        _ => is_flat(v),
    }
}

/// What a value means that binds no variables does not depend on what is above its variables on
/// the stack.
proof fn lemma_flat(
    v: ValueV,
    ts: Seq<TypeV>,
    limit: int,
    m: ModelV,
    st: Seq<int>,
    top: Seq<int>,
    more: Seq<TypeV>,
    larger: int,
)
    requires
        is_flat(v),
        is_scoped(v, ts, limit),
        st.len() == ts.len(),
        ts.len() + more.len() <= larger,
    ensures
        meaning(v, m, st + top) == meaning(v, m, st),
        is_scoped(v, ts + more, larger),
    decreases v,
{
    match v {
        ValueV::Application(f, args) => {
            lemma_flat(*f, ts, limit, m, st, top, more, larger);
            assert(are_flat(args) && are_scoped(args, ts, limit));
            assert forall|i: int| 0 <= i < args.len() implies meaning(
                #[trigger] args[i],
                m,
                st + top,
            ) == meaning(args[i], m, st) && is_scoped(args[i], ts + more, larger) by {
                lemma_flat(args[i], ts, limit, m, st, top, more, larger);
            }
            assert(meanings(args, m, st + top) =~= meanings(args, m, st));
            assert(are_scoped(args, ts + more, larger));
        },
        ValueV::Binary(_, l, r) => {
            lemma_flat(*l, ts, limit, m, st, top, more, larger);
            lemma_flat(*r, ts, limit, m, st, top, more, larger);
        },
        ValueV::Not(x) => lemma_flat(*x, ts, limit, m, st, top, more, larger),
        ValueV::IfThenElse(c, a, b) => {
            lemma_flat(*c, ts, limit, m, st, top, more, larger);
            lemma_flat(*a, ts, limit, m, st, top, more, larger);
            lemma_flat(*b, ts, limit, m, st, top, more, larger);
        },
        _ => {},
    }
}

pub proof fn lemma_shifted_flat(v: ValueV, depth: AtomId, e: Shift)
    requires
        is_flat(v),
    ensures
        is_flat(edited(v, depth, e)),
    decreases v,
{
    match v {
        ValueV::Application(f, args) => {
            lemma_shifted_flat(*f, depth, e);
            assert(are_flat(args));
            let changed = edited_all(args, depth, e);
            assert forall|i: int| 0 <= i < args.len() implies is_flat(#[trigger] changed[i]) by {
                lemma_shifted_flat(args[i], depth, e);
            }
            assert(are_flat(changed));
        },
        ValueV::Binary(_, l, r) => {
            lemma_shifted_flat(*l, depth, e);
            lemma_shifted_flat(*r, depth, e);
        },
        ValueV::Not(x) => lemma_shifted_flat(*x, depth, e),
        ValueV::IfThenElse(c, a, b) => {
            lemma_shifted_flat(*c, depth, e);
            lemma_shifted_flat(*a, depth, e);
            lemma_shifted_flat(*b, depth, e);
        },
        _ => {},
    }
}

proof fn lemma_shifted_first_order(v: ValueV, depth: AtomId, e: Shift)
    requires
        is_first_order(v),
    ensures
        is_first_order(edited(v, depth, e)),
    decreases v,
{
    match v {
        ValueV::ForAll(ts, b) => {
            lemma_shifted_first_order(*b, deeper(depth, ts.len()), e);
        },
        ValueV::Binary(op, l, r) => if op is And || op is Or {
            lemma_shifted_first_order(*l, depth, e);
            lemma_shifted_first_order(*r, depth, e);
        } else {
            lemma_shifted_flat(v, depth, e);
        },
        _ => lemma_shifted_flat(v, depth, e),
    }
}

/// Whether a type has an element.
pub open spec fn has_element(m: ModelV, t: TypeV) -> bool {
    exists|x: int| #[trigger] (m.domain)(t, x)
}

/// Whether every type has an element.
pub open spec fn is_inhabited(m: ModelV) -> bool {
    forall|t: TypeV| #[trigger] has_element(m, t)
}

proof fn lemma_inhabited(m: ModelV, ts: Seq<TypeV>) -> (xs: Seq<int>)
    requires
        is_inhabited(m),
    ensures
        are_of(m, ts, xs),
{
    let xs = Seq::new(ts.len(), |i: int| choose|x: int| #[trigger] (m.domain)(ts[i], x));
    assert forall|i: int| 0 <= i < ts.len() implies (m.domain)(
        #[trigger] ts[i],
        #[trigger] xs[i],
    ) by {
        assert(has_element(m, ts[i]));
    }
    xs
}

/// Whether a proposition holds for all elements for the variables that are on top of the stack.
pub open spec fn holds_for_all(v: ValueV, ts: Seq<TypeV>, m: ModelV, st: Seq<int>) -> bool {
    forall|xs: Seq<int>| #[trigger] are_of(m, ts, xs) ==> is_true(v, m, st + xs)
}

/// Without its universal quantifiers, a proposition holds for all elements exactly where the
/// proposition itself holds; where a type has no elements, it still holds wherever the proposition
/// does.
pub proof fn law_dequantifying_keeps_the_meaning(
    quants: Seq<TypeV>,
    v: ValueV,
    limit: int,
    m: ModelV,
    st: Seq<int>,
)
    requires
        is_first_order(v),
        is_scoped(v, quants, limit),
        limit + dequantified(quants, v).0.len() - quants.len() <= AtomId::MAX,
        st.len() == quants.len(),
    ensures
        ({
            let (all, w) = dequantified(quants, v);
            let new = all.skip(quants.len() as int);
            &&& quants.is_prefix_of(all)
            &&& is_flat(w)
            &&& is_scoped(w, all, all.len() as int)
            &&& is_true(v, m, st) ==> holds_for_all(w, new, m, st)
            &&& is_inhabited(m) && holds_for_all(w, new, m, st) ==> is_true(v, m, st)
        }),
    decreases structure(v), 1nat,
{
    let (all, w) = dequantified(quants, v);
    let new = all.skip(quants.len() as int);
    lemma_dequantified_grows(quants, v);
    match v {
        ValueV::ForAll(ts, b) => {
            lemma_dequantified_grows(quants + ts, *b);
            let inner = all.skip((quants + ts).len() as int);
            let some = Seq::new(ts.len(), |i: int| 0int);
            law_dequantifying_keeps_the_meaning(quants + ts, *b, limit, m, st + some);
            let before = quants + ts;
            assert forall|i: int| 0 <= i < before.len() implies #[trigger] all[i] == before[i] by {
                assert(all.subrange(0, before.len() as int)[i] == before[i]);
            }
            assert(new =~= ts + inner);
            assert(quants =~= all.subrange(0, quants.len() as int));
            assert forall|xs: Seq<int>| #[trigger] are_of(m, ts, xs) implies (is_true(
                *b,
                m,
                st + xs,
            ) ==> holds_for_all(w, inner, m, st + xs)) && (is_inhabited(m) && holds_for_all(
                w,
                inner,
                m,
                st + xs,
            ) ==> is_true(*b, m, st + xs)) by {
                law_dequantifying_keeps_the_meaning(quants + ts, *b, limit, m, st + xs);
            }
            lemma_quantified(ts, *b, m, st);
            if is_true(v, m, st) {
                assert forall|zs: Seq<int>| #[trigger] are_of(m, new, zs) implies is_true(
                    w,
                    m,
                    st + zs,
                ) by {
                    lemma_split(m, ts, inner, zs);
                    let xs = zs.take(ts.len() as int);
                    let ys = zs.skip(ts.len() as int);
                    assert(st + xs + ys =~= st + zs);
                    assert(holds_for_all(w, inner, m, st + xs));
                }
            }
            if is_inhabited(m) && holds_for_all(w, new, m, st) {
                assert forall|xs: Seq<int>| #[trigger] are_of(m, ts, xs) implies is_true(
                    *b,
                    m,
                    st + xs,
                ) by {
                    assert forall|ys: Seq<int>| #[trigger] are_of(m, inner, ys) implies is_true(
                        w,
                        m,
                        st + xs + ys,
                    ) by {
                        lemma_join(m, ts, inner, xs, ys);
                        assert(st + xs + ys =~= st + (xs + ys));
                    }
                }
            }
        },
        ValueV::Binary(op, l, r) => if op is And || op is Or {
            lemma_dequantified_sides(quants, op, *l, *r, limit, m, st);
        } else {
            lemma_closed(v, quants, limit, m, st, new);
        },
        _ => {
            lemma_closed(v, quants, limit, m, st, new);
        },
    }
}

proof fn lemma_closed(
    v: ValueV,
    quants: Seq<TypeV>,
    limit: int,
    m: ModelV,
    st: Seq<int>,
    new: Seq<TypeV>,
)
    requires
        is_flat(v),
        is_scoped(v, quants, limit),
        st.len() == quants.len(),
        new.len() == 0,
    ensures
        is_scoped(v, quants, quants.len() as int),
        is_true(v, m, st) == holds_for_all(v, new, m, st),
{
    lemma_flat(v, quants, limit, m, st, Seq::empty(), Seq::empty(), quants.len() as int);
    assert(quants + Seq::<TypeV>::empty() =~= quants);
    let none = Seq::<int>::empty();
    assert(are_of(m, new, none));
    assert(st + none =~= st);
    assert forall|xs: Seq<int>| #[trigger] are_of(m, new, xs) implies st + xs == st by {
        assert(st + xs =~= st);
    }
}

pub proof fn lemma_split(m: ModelV, a: Seq<TypeV>, b: Seq<TypeV>, zs: Seq<int>)
    requires
        are_of(m, a + b, zs),
    ensures
        are_of(m, a, zs.take(a.len() as int)),
        are_of(m, b, zs.skip(a.len() as int)),
        zs =~= zs.take(a.len() as int) + zs.skip(a.len() as int),
{
    let all = a + b;
    let xs = zs.take(a.len() as int);
    let ys = zs.skip(a.len() as int);
    assert forall|i: int| 0 <= i < a.len() implies (m.domain)(
        #[trigger] a[i],
        #[trigger] xs[i],
    ) by {
        assert((m.domain)(all[i], zs[i]));
    }
    assert forall|i: int| 0 <= i < b.len() implies (m.domain)(
        #[trigger] b[i],
        #[trigger] ys[i],
    ) by {
        assert((m.domain)(all[i + a.len()], zs[i + a.len()]));
    }
}

pub proof fn lemma_join(m: ModelV, a: Seq<TypeV>, b: Seq<TypeV>, xs: Seq<int>, ys: Seq<int>)
    requires
        are_of(m, a, xs),
        are_of(m, b, ys),
    ensures
        are_of(m, a + b, xs + ys),
{
    let all = a + b;
    let zs = xs + ys;
    assert forall|i: int| 0 <= i < all.len() implies (m.domain)(
        #[trigger] all[i],
        #[trigger] zs[i],
    ) by {
        if i < a.len() {
            assert((m.domain)(a[i], xs[i]));
        } else {
            assert((m.domain)(b[i - a.len()], ys[i - a.len()]));
        }
    }
}

/// Both sides of a conjunction or a disjunction.
proof fn lemma_dequantified_sides(
    quants: Seq<TypeV>,
    op: BinaryOp,
    l: ValueV,
    r: ValueV,
    limit: int,
    m: ModelV,
    st: Seq<int>,
)
    requires
        op is And || op is Or,
        is_first_order(l) && is_first_order(r),
        is_scoped(l, quants, limit) && is_scoped(r, quants, limit),
        ({
            let v = ValueV::Binary(op, Box::new(l), Box::new(r));
            limit + dequantified(quants, v).0.len() - quants.len() <= AtomId::MAX
        }),
        st.len() == quants.len(),
    ensures
        ({
            let v = ValueV::Binary(op, Box::new(l), Box::new(r));
            let (all, w) = dequantified(quants, v);
            let new = all.skip(quants.len() as int);
            &&& quants.is_prefix_of(all)
            &&& is_flat(w)
            &&& is_scoped(w, all, all.len() as int)
            &&& is_true(v, m, st) ==> holds_for_all(w, new, m, st)
            &&& is_inhabited(m) && holds_for_all(w, new, m, st) ==> is_true(v, m, st)
        }),
    decreases structure(ValueV::Binary(op, Box::new(l), Box::new(r))), 0nat,
{
    let v = ValueV::Binary(op, Box::new(l), Box::new(r));
    let (all, w) = dequantified(quants, v);
    let n = quants.len() as AtomId;
    let (left_all, lw) = dequantified(quants, l);
    let k = (left_all.len() - quants.len()) as AtomId;
    let moved = shifted(r, n, k);
    let (right_all, rw) = dequantified(left_all, moved);
    assert(all == right_all && w == ValueV::Binary(op, Box::new(lw), Box::new(rw)));
    lemma_dequantified_grows(quants, l);
    lemma_shift_keeps_structure(r, n, k);
    lemma_dequantified_grows(left_all, moved);
    lemma_shifted_first_order(r, 0, Shift { index: n, increment: k });
    let a = left_all.skip(quants.len() as int);
    let b = all.skip(left_all.len() as int);
    let new = all.skip(quants.len() as int);
    law_dequantifying_keeps_the_meaning(quants, l, limit, m, st);
    assert(left_all =~= quants + a);
    assert(k == a.len());
    let some = Seq::new(a.len(), |i: int| 0int);
    lemma_moved(r, quants, limit, n, k, a, left_all, m, st, some);
    law_dequantifying_keeps_the_meaning(left_all, moved, limit + k, m, st + some);
    assert(all =~= left_all + b);
    assert(new =~= a + b);
    lemma_flat(
        lw,
        left_all,
        left_all.len() as int,
        m,
        st + some,
        Seq::empty(),
        b,
        all.len() as int,
    );
    assert forall|xs: Seq<int>| #[trigger] are_of(m, a, xs) implies is_true(moved, m, st + xs)
        == is_true(r, m, st) && (is_true(r, m, st) ==> holds_for_all(rw, b, m, st + xs)) && (
    is_inhabited(m) && holds_for_all(rw, b, m, st + xs) ==> is_true(r, m, st)) by {
        lemma_moved(r, quants, limit, n, k, a, left_all, m, st, xs);
        law_dequantifying_keeps_the_meaning(left_all, moved, limit + k, m, st + xs);
    }
    assert forall|xs: Seq<int>, ys: Seq<int>| #[trigger]
        are_of(m, a, xs) && #[trigger] are_of(m, b, ys) implies is_true(w, m, st + (xs + ys)) == (
    if op is And {
        is_true(lw, m, st + xs) && is_true(rw, m, st + xs + ys)
    } else {
        is_true(lw, m, st + xs) || is_true(rw, m, st + xs + ys)
    }) by {
        assert(st + (xs + ys) =~= st + xs + ys);
        lemma_flat(
            lw,
            left_all,
            left_all.len() as int,
            m,
            st + xs,
            ys,
            b,
            all.len() as int,
        );
    }
    if is_true(v, m, st) {
        assert forall|zs: Seq<int>| #[trigger] are_of(m, new, zs) implies is_true(
            w,
            m,
            st + zs,
        ) by {
            lemma_split(m, a, b, zs);
            let xs = zs.take(a.len() as int);
            let ys = zs.skip(a.len() as int);
            assert(are_of(m, a, xs) && are_of(m, b, ys));
            assert(zs == xs + ys);
            if is_true(l, m, st) {
                assert(holds_for_all(lw, a, m, st));
            }
            if is_true(r, m, st) {
                assert(holds_for_all(rw, b, m, st + xs));
            }
        }
    }
    if is_inhabited(m) && holds_for_all(w, new, m, st) {
        let x0 = lemma_inhabited(m, a);
        let y0 = lemma_inhabited(m, b);
        assert forall|xs: Seq<int>, ys: Seq<int>| #[trigger]
            are_of(m, a, xs) && #[trigger] are_of(m, b, ys) implies is_true(
            w,
            m,
            st + (xs + ys),
        ) by {
            lemma_join(m, a, b, xs, ys);
        }
        if op is And {
            assert forall|xs: Seq<int>| #[trigger] are_of(m, a, xs) implies is_true(
                lw,
                m,
                st + xs,
            ) by {
                assert(is_true(w, m, st + (xs + y0)));
            }
            assert(holds_for_all(lw, a, m, st));
            assert(holds_for_all(rw, b, m, st + x0));
        } else if !is_true(l, m, st) {
            let xs = choose|xs: Seq<int>| #[trigger]
                are_of(m, a, xs) && !is_true(lw, m, st + xs);
            assert(are_of(m, a, xs));
            assert(holds_for_all(rw, b, m, st + xs));
        }
    }
}

proof fn lemma_moved(
    r: ValueV,
    quants: Seq<TypeV>,
    limit: int,
    n: AtomId,
    k: AtomId,
    a: Seq<TypeV>,
    left_all: Seq<TypeV>,
    m: ModelV,
    st: Seq<int>,
    xs: Seq<int>,
)
    requires
        is_scoped(r, quants, limit),
        limit + k <= AtomId::MAX,
        n == quants.len(),
        k == a.len(),
        xs.len() == a.len(),
        st.len() == quants.len(),
        left_all == quants + a,
    ensures
        is_true(shifted(r, n, k), m, st + xs) == is_true(r, m, st),
        is_scoped(shifted(r, n, k), left_all, limit + k),
{
    law_shifting_keeps_the_meaning(r, 0, quants, limit, n, k, m, st, xs, a);
    assert(inserted(st, n as int, xs) =~= st + xs);
    assert(inserted(quants, n as int, a) =~= left_all);
}

/// What holds by its logical structure is what holds in an interpretation.
proof fn lemma_holds(v: ValueV, m: ModelV, st: Seq<int>)
    ensures
        holds(v, |x: ValueV| is_true(x, m, st)) == is_true(v, m, st),
    decreases v,
{
    match v {
        ValueV::Not(x) => lemma_holds(*x, m, st),
        ValueV::Binary(op, l, r) => {
            lemma_holds(*l, m, st);
            lemma_holds(*r, m, st);
            reveal_with_fuel(meaning, 2);
        },
        ValueV::IfThenElse(c, a, b) => {
            lemma_holds(*c, m, st);
            lemma_holds(*a, m, st);
            lemma_holds(*b, m, st);
        },
        _ => {},
    }
}

/// Whether one of some values holds.
pub open spec fn one_is_true(vs: Seq<ValueV>, m: ModelV, st: Seq<int>) -> bool {
    exists|i: int| 0 <= i < vs.len() && is_true(#[trigger] vs[i], m, st)
}

/// A proposition holds exactly where each list of its conjunctive normal form has a value that
/// holds.
pub proof fn law_normal_forms_keep_the_meaning(v: ValueV, m: ModelV, st: Seq<int>)
    ensures
        is_true(v, m, st) <==> forall|i: int|
            0 <= i < cnf(v).len() ==> one_is_true(#[trigger] cnf(v)[i], m, st),
{
    let p = |x: ValueV| is_true(x, m, st);
    lemma_holds(v, m, st);
    law_cnf_means_the_same(v, p);
    assert forall|i: int| 0 <= i < cnf(v).len() implies some_holds(#[trigger] cnf(v)[i], p)
        == one_is_true(cnf(v)[i], m, st) by {
        let vs = cnf(v)[i];
        assert forall|j: int| 0 <= j < vs.len() implies holds(#[trigger] vs[j], p) == is_true(
            vs[j],
            m,
            st,
        ) by {
            lemma_holds(vs[j], m, st);
        }
    }
}

} // verus!
