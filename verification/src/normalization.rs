//! The clauses of a proposition, against what the proposition means.

use vstd::prelude::*;

use crate::acorn_type::{AtomId, TypeV};
use crate::acorn_value::{bound, deeper, edited, edited_all, value_type, BindV, Shift, ValueV};
use crate::logic::{
    cnf, dequantified, expanded, lemma_bind_keeps_structure, negation_inside, structure,
};
use crate::model::{are_of, is_true, law_negation_inside_keeps_the_meaning, ModelV};
use crate::normal_form::{
    are_flat, holds_for_all, is_first_order, is_flat, is_inhabited, lemma_shifted_flat,
    law_dequantifying_keeps_the_meaning, law_normal_forms_keep_the_meaning, one_is_true,
};
use crate::normalizer::{
    clauses_for, lemma_replacements, normalized, replacements, skolem_types, skolemized,
    stack_args, NormalizerV, EXPANSION_LIMIT,
};
use crate::substitution::is_scoped;
use crate::witnesses::{
    agree_before, has_functions, is_typed, is_without_skolems, law_skolem_functions_are_witnesses,
    law_skolem_functions_can_be_found, lemma_binding_scope,
};

verus! {

/// Whether a proposition binds variables only by quantifiers of its logical structure.
pub open spec fn is_logical(v: ValueV) -> bool
    decreases v,
{
    match v {
        ValueV::Not(x) => is_logical(*x),
        ValueV::Binary(op, l, r) => if (op is Equals || op is NotEquals) && !(value_type(
            *l,
        ) is Bool) {
            is_flat(v)
        } else {
            is_logical(*l) && is_logical(*r)
        },
        ValueV::ForAll(_, b) => is_logical(*b),
        ValueV::Exists(_, b) => is_logical(*b),
        ValueV::IfThenElse(c, a, b) => is_logical(*c) && is_logical(*a) && is_logical(*b),
        _ => is_flat(v),
    }
}

/// Whether a proposition with negations inside does so.
spec fn is_quantified(v: ValueV) -> bool
    decreases v,
{
    match v {
        ValueV::ForAll(_, b) => is_quantified(*b),
        ValueV::Exists(_, b) => is_quantified(*b),
        ValueV::Binary(op, l, r) => if op is And || op is Or {
            is_quantified(*l) && is_quantified(*r)
        } else {
            is_flat(v)
        },
        _ => is_flat(v),
    }
}

/// Moving negations inwards does not change what variables and constants are used.
proof fn lemma_negation(v: ValueV, negate: bool, ts: Seq<TypeV>, limit: int, n: nat)
    requires
        is_logical(v),
        is_scoped(v, ts, limit),
        is_without_skolems(v, n),
    ensures
        is_quantified(negation_inside(v, negate)),
        is_scoped(negation_inside(v, negate), ts, limit),
        is_without_skolems(negation_inside(v, negate), n),
    decreases v,
{
    match v {
        ValueV::Not(x) => lemma_negation(*x, !negate, ts, limit, n),
        ValueV::Binary(op, l, r) => {
            if (op is Equals || op is NotEquals) && !(value_type(*l) is Bool) {
            } else {
                lemma_negation(*l, true, ts, limit, n);
                lemma_negation(*l, false, ts, limit, n);
                lemma_negation(*r, true, ts, limit, n);
                lemma_negation(*r, false, ts, limit, n);
                reveal_with_fuel(is_quantified, 3);
                reveal_with_fuel(is_scoped, 3);
                reveal_with_fuel(is_without_skolems, 3);
            }
        },
        ValueV::ForAll(xs, b) => lemma_negation(*b, negate, ts + xs, limit, n),
        ValueV::Exists(xs, b) => lemma_negation(*b, negate, ts + xs, limit, n),
        ValueV::IfThenElse(c, a, b) => {
            lemma_negation(*c, true, ts, limit, n);
            lemma_negation(*c, false, ts, limit, n);
            lemma_negation(*a, negate, ts, limit, n);
            lemma_negation(*b, negate, ts, limit, n);
            reveal_with_fuel(is_quantified, 3);
            reveal_with_fuel(is_scoped, 3);
            reveal_with_fuel(is_without_skolems, 3);
        },
        _ => {
            reveal_with_fuel(is_scoped, 2);
            reveal_with_fuel(is_without_skolems, 2);
            reveal_with_fuel(is_flat, 2);
        },
    }
}

proof fn lemma_bound_flat(v: ValueV, depth: AtomId, e: BindV)
    requires
        is_flat(v),
        are_flat(e.values),
    ensures
        is_flat(edited(v, depth, e)),
    decreases v,
{
    match v {
        ValueV::Variable(i, _) => {
            if e.first <= i && i - e.first < e.values.len() {
                lemma_shifted_flat(
                    e.values[i - e.first],
                    0,
                    Shift { index: e.first, increment: depth.wrapping_sub(e.first) },
                );
            }
        },
        ValueV::Application(f, args) => {
            lemma_bound_flat(*f, depth, e);
            assert(are_flat(args));
            let changed = edited_all(args, depth, e);
            assert forall|i: int| 0 <= i < args.len() implies is_flat(#[trigger] changed[i]) by {
                lemma_bound_flat(args[i], depth, e);
            }
            assert(are_flat(changed));
        },
        ValueV::Binary(_, l, r) => {
            lemma_bound_flat(*l, depth, e);
            lemma_bound_flat(*r, depth, e);
        },
        ValueV::Not(x) => lemma_bound_flat(*x, depth, e),
        ValueV::IfThenElse(c, a, b) => {
            lemma_bound_flat(*c, depth, e);
            lemma_bound_flat(*a, depth, e);
            lemma_bound_flat(*b, depth, e);
        },
        _ => {},
    }
}

proof fn lemma_bound_quantified(v: ValueV, depth: AtomId, e: BindV)
    requires
        is_quantified(v),
        are_flat(e.values),
    ensures
        is_quantified(edited(v, depth, e)),
    decreases v,
{
    match v {
        ValueV::ForAll(ts, b) => lemma_bound_quantified(*b, deeper(depth, ts.len()), e),
        ValueV::Exists(ts, b) => lemma_bound_quantified(*b, deeper(depth, ts.len()), e),
        ValueV::Binary(op, l, r) => if op is And || op is Or {
            lemma_bound_quantified(*l, depth, e);
            lemma_bound_quantified(*r, depth, e);
        } else {
            lemma_bound_flat(v, depth, e);
        },
        _ => {
            lemma_bound_flat(v, depth, e);
            lemma_flat_quantified(edited(v, depth, e));
        },
    }
}

proof fn lemma_flat_quantified(v: ValueV)
    requires
        is_flat(v),
    ensures
        is_quantified(v),
    decreases v,
{
    match v {
        ValueV::Binary(_, l, r) => {
            lemma_flat_quantified(*l);
            lemma_flat_quantified(*r);
        },
        _ => {},
    }
}

proof fn lemma_flat_first_order(v: ValueV)
    requires
        is_flat(v),
    ensures
        is_first_order(v),
    decreases v,
{
    match v {
        ValueV::Binary(_, l, r) => {
            lemma_flat_first_order(*l);
            lemma_flat_first_order(*r);
        },
        _ => {},
    }
}

/// Without existential quantifiers, a proposition still has no variables but its own.
proof fn lemma_skolemized(made: Seq<TypeV>, stack: Seq<TypeV>, v: ValueV, limit: int)
    requires
        is_quantified(v),
        is_scoped(v, stack, limit),
        limit <= AtomId::MAX,
    ensures
        is_first_order(skolemized(made, stack, v).1),
        is_scoped(skolemized(made, stack, v).1, stack, limit),
    decreases structure(v),
{
    match v {
        ValueV::ForAll(quants, b) => lemma_skolemized(made, stack + quants, *b, limit),
        ValueV::Exists(quants, b) => {
            let size = stack.len() as AtomId;
            let n = made.len();
            let values = replacements(n, stack, quants);
            lemma_replacements(n, stack, quants);
            lemma_bind_keeps_structure(*b, size, size, values);
            lemma_binding_scope(n, stack, quants, *b, limit);
            let args = stack_args(stack);
            assert forall|i: int| 0 <= i < args.len() implies is_flat(#[trigger] args[i]) by {}
            assert(are_flat(args));
            assert forall|i: int| 0 <= i < values.len() implies is_flat(#[trigger] values[i]) by {
                reveal_with_fuel(is_flat, 2);
            }
            assert(are_flat(values));
            lemma_bound_quantified(*b, size, BindV { first: size, values });
            lemma_skolemized(
                made + skolem_types(stack, quants),
                stack,
                bound(*b, size, size, values),
                limit,
            );
        },
        ValueV::Binary(op, l, r) => if op is And || op is Or {
            lemma_skolemized(made, stack, *l, limit);
            lemma_skolemized(skolemized(made, stack, *l).0, stack, *r, limit);
        } else {
            lemma_flat_first_order(v);
        },
        _ => {
            lemma_flat_first_order(v);
        },
    }
}

/// Whether for all elements of some types each list of values has one that holds.
pub open spec fn all_hold(lists: Seq<Seq<ValueV>>, ts: Seq<TypeV>, m: ModelV) -> bool {
    forall|xs: Seq<int>| #[trigger] are_of(m, ts, xs) ==> each_has_one(lists, m, xs)
}

/// Whether each list of values has one that holds.
pub open spec fn each_has_one(lists: Seq<Seq<ValueV>>, m: ModelV, xs: Seq<int>) -> bool {
    forall|i: int| 0 <= i < lists.len() ==> one_is_true(#[trigger] lists[i], m, xs)
}

/// Whether the clauses for a proposition are those for lists of values, after skolem functions
/// were made.
pub open spec fn are_made_from(
    nz: NormalizerV,
    v: ValueV,
    lists: Seq<Seq<ValueV>>,
    from: NormalizerV,
) -> bool {
    &&& from.types == nz.types
    &&& from.constants == nz.constants
    &&& clauses_for(from, lists, lists.len()) == normalized(nz, v)
}

/// The clauses for a proposition are made from lists of values that say what it says: where it
/// holds, there are skolem functions so that each list has, for all elements for its variables,
/// a value that holds; and where each list has one, it holds.
pub proof fn law_clauses_say_what_the_proposition_says(
    nz: NormalizerV,
    v: ValueV,
    limit: int,
    m: ModelV,
) -> (r: (Seq<Seq<ValueV>>, Seq<TypeV>, ModelV, NormalizerV))
    requires
        has_functions(m),
        normalized(nz, v).1 is Some,
        match expanded(v, 0, EXPANSION_LIMIT) {
            Some(e) => {
                let inside = skolemized(
                    nz.skolem_types,
                    Seq::empty(),
                    negation_inside(e, false),
                ).1;
                &&& is_logical(e)
                &&& is_scoped(e, Seq::empty(), limit)
                &&& is_without_skolems(e, nz.skolem_types.len())
                &&& limit + dequantified(Seq::empty(), inside).0.len() <= AtomId::MAX
            },
            None => false,
        },
    ensures
        are_made_from(nz, v, r.0, r.3),
        agree_before(m, r.2, nz.skolem_types.len()),
        is_true(expanded(v, 0, EXPANSION_LIMIT)->0, m, Seq::empty()) ==> all_hold(r.0, r.1, r.2),
        is_typed(m) && is_inhabited(m) && all_hold(r.0, r.1, m) ==> is_true(
            expanded(v, 0, EXPANSION_LIMIT)->0,
            m,
            Seq::empty(),
        ),
{
    let e = expanded(v, 0, EXPANSION_LIMIT)->0;
    let none = Seq::<TypeV>::empty();
    let start = Seq::<int>::empty();
    let inside = negation_inside(e, false);
    let n = nz.skolem_types.len();
    lemma_negation(e, false, none, limit, n);
    law_negation_inside_keeps_the_meaning(e, false, m, start);
    let (made, universal) = skolemized(nz.skolem_types, none, inside);
    lemma_skolemized(nz.skolem_types, none, inside, limit);
    let k = law_skolem_functions_can_be_found(nz.skolem_types, none, inside, limit, m);
    let (ts, w) = dequantified(none, universal);
    law_dequantifying_keeps_the_meaning(none, universal, limit, m, start);
    law_dequantifying_keeps_the_meaning(none, universal, limit, k, start);
    assert(ts.skip(0) =~= ts);
    let lists = cnf(w);
    assert(are_of(m, none, start));
    let from = NormalizerV { skolem_types: made, ..nz };
    if is_true(e, m, start) {
        assert(is_true(universal, k, start));
        assert forall|xs: Seq<int>| #[trigger] are_of(k, ts, xs) implies each_has_one(
            lists,
            k,
            xs,
        ) by {
            assert(start + xs =~= xs);
            law_normal_forms_keep_the_meaning(w, k, xs);
        }
        assert(all_hold(lists, ts, k));
    }
    if is_typed(m) && is_inhabited(m) && all_hold(lists, ts, m) {
        assert forall|xs: Seq<int>| #[trigger] are_of(m, ts, xs) implies is_true(
            w,
            m,
            start + xs,
        ) by {
            assert(start + xs =~= xs);
            assert(each_has_one(lists, m, xs));
            law_normal_forms_keep_the_meaning(w, m, xs);
        }
        assert(holds_for_all(w, ts, m, start));
        law_skolem_functions_are_witnesses(nz.skolem_types, none, inside, limit, m, start);
        assert(is_true(e, m, start));
    }
    assert(are_made_from(nz, v, lists, from));
    (lists, ts, k, from)
}

} // verus!
