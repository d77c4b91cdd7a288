//! Turning data types into type parameters and back.

use vstd::prelude::*;

use crate::acorn_type::{
    find_param, parametrized, parametrized_all, specialized, specialized_all, AtomId, ModuleId,
    TypeV,
};
use crate::acorn_value::{
    deeper, edited, edited_all, parametrized_params, parametrized_value, specialized_value,
    ParametrizeV, SpecializeV, ValueV,
};
use crate::block::block_params;

verus! {

/// Whether a type has no type parameters with the given names, and its functions take all their
/// arguments at once.
pub open spec fn is_concrete(t: TypeV, names: Seq<Seq<char>>) -> bool
    decreases t,
{
    match t {
        TypeV::Parameter(name) => !names.contains(name),
        TypeV::Function(args, ret) => args.len() > 0 && !(*ret is Function) && is_concrete(
            *ret,
            names,
        ) && are_concrete(args, names),
        _ => true,
    }
}

/// Whether this holds of each of some types.
pub open spec fn are_concrete(ts: Seq<TypeV>, names: Seq<Seq<char>>) -> bool
    decreases ts,
{
    forall|i: int| 0 <= i < ts.len() ==> is_concrete(#[trigger] ts[i], names)
}

proof fn lemma_find(module: ModuleId, names: Seq<Seq<char>>, name: Seq<char>)
    ensures
        names.contains(name) ==> find_param(block_params(module, names), name) == Some(
            TypeV::Data(module, name),
        ),
        !names.contains(name) ==> find_param(block_params(module, names), name) is None,
    decreases names.len(),
{
    let ps = block_params(module, names);
    if names.len() > 0 {
        let others = names.skip(1);
        lemma_find(module, others, name);
        assert(ps.skip(1) =~= block_params(module, others));
        assert(ps[0] == (names[0], TypeV::Data(module, names[0])));
        if names.contains(name) && names[0] != name {
            let i = choose|i: int| 0 <= i < names.len() && names[i] == name;
            assert(others[i - 1] == name);
        }
        if others.contains(name) {
            let i = choose|i: int| 0 <= i < others.len() && others[i] == name;
            assert(names[i + 1] == name);
        }
    }
}

/// Data types that were turned into type parameters are there again where the parameters stand
/// for them.
pub proof fn law_types_are_restored(t: TypeV, module: ModuleId, names: Seq<Seq<char>>)
    requires
        is_concrete(t, names),
    ensures
        specialized(parametrized(t, module, names), block_params(module, names)) == t,
    decreases t,
{
    match t {
        TypeV::Data(_, name) => lemma_find(module, names, name),
        TypeV::Parameter(name) => lemma_find(module, names, name),
        TypeV::Function(args, ret) => {
            law_types_are_restored(*ret, module, names);
            assert(are_concrete(args, names));
            lemma_types(args, module, names);
        },
        _ => {},
    }
}

proof fn lemma_types(ts: Seq<TypeV>, module: ModuleId, names: Seq<Seq<char>>)
    requires
        are_concrete(ts, names),
    ensures
        specialized_all(parametrized_all(ts, module, names), block_params(module, names)) == ts,
    decreases ts,
{
    let changed = parametrized_all(ts, module, names);
    let back = specialized_all(changed, block_params(module, names));
    assert forall|i: int| 0 <= i < ts.len() implies #[trigger] back[i] == ts[i] by {
        assert(changed[i] == parametrized(ts[i], module, names));
        law_types_are_restored(ts[i], module, names);
    }
    assert(back =~= ts);
}

/// Whether the types in a value are such types.
pub open spec fn has_concrete_types(v: ValueV, names: Seq<Seq<char>>) -> bool
    decreases v,
{
    match v {
        ValueV::Variable(_, t) => is_concrete(t, names),
        ValueV::Constant(_, _, t, _) => is_concrete(t, names),
        ValueV::Specialized(_, _, _, ps) => forall|i: int|
            0 <= i < ps.len() ==> is_concrete((#[trigger] ps[i]).1, names),
        ValueV::Application(f, args) => has_concrete_types(*f, names) && have_concrete_types(
            args,
            names,
        ),
        ValueV::Lambda(ts, b) => are_concrete(ts, names) && has_concrete_types(*b, names),
        ValueV::ForAll(ts, b) => are_concrete(ts, names) && has_concrete_types(*b, names),
        ValueV::Exists(ts, b) => are_concrete(ts, names) && has_concrete_types(*b, names),
        ValueV::Binary(_, l, r) => has_concrete_types(*l, names) && has_concrete_types(*r, names),
        ValueV::Not(x) => has_concrete_types(*x, names),
        ValueV::Bool(_) => true,
        ValueV::IfThenElse(c, a, b) => has_concrete_types(*c, names) && has_concrete_types(
            *a,
            names,
        ) && has_concrete_types(*b, names),
    }
}

/// Whether this holds of each of some values.
pub open spec fn have_concrete_types(vs: Seq<ValueV>, names: Seq<Seq<char>>) -> bool
    decreases vs,
{
    forall|i: int| 0 <= i < vs.len() ==> has_concrete_types(#[trigger] vs[i], names)
}

/// A value that was made generic is the same again where its type parameters stand for the data
/// types that they came from.
pub proof fn law_values_are_restored(v: ValueV, module: ModuleId, names: Seq<Seq<char>>)
    requires
        has_concrete_types(v, names),
    ensures
        specialized_value(parametrized_value(v, module, names), block_params(module, names)) == v,
{
    lemma_restored(v, 0, 0, module, names);
}

proof fn lemma_restored(
    v: ValueV,
    depth: AtomId,
    back: AtomId,
    module: ModuleId,
    names: Seq<Seq<char>>,
)
    requires
        has_concrete_types(v, names),
    ensures
        edited(
            edited(v, depth, ParametrizeV { module, names }),
            back,
            SpecializeV { params: block_params(module, names) },
        ) == v,
    decreases v,
{
    let e = ParametrizeV { module, names };
    let r = SpecializeV { params: block_params(module, names) };
    match v {
        ValueV::Variable(_, t) => law_types_are_restored(t, module, names),
        ValueV::Constant(_, _, t, _) => law_types_are_restored(t, module, names),
        ValueV::Specialized(a, b, c, ps) => {
            let changed = parametrized_params(ps, module, names);
            let again = Seq::new(
                changed.len(),
                |i: int| (changed[i].0, specialized(changed[i].1, r.params)),
            );
            assert forall|i: int| 0 <= i < ps.len() implies #[trigger] again[i] == ps[i] by {
                law_types_are_restored(ps[i].1, module, names);
            }
            assert(again =~= ps);
        },
        ValueV::Application(f, args) => {
            lemma_restored(*f, depth, back, module, names);
            assert(have_concrete_types(args, names));
            let changed = edited_all(args, depth, e);
            let again = edited_all(changed, back, r);
            assert forall|i: int| 0 <= i < args.len() implies #[trigger] again[i] == args[i] by {
                assert(changed[i] == edited(args[i], depth, e));
                lemma_restored(args[i], depth, back, module, names);
            }
            assert(again =~= args);
        },
        ValueV::Lambda(ts, b) => {
            lemma_binders(ts, module, names);
            lemma_restored(
                *b, deeper(depth, ts.len()), deeper(back, ts.len()), module, names,
            );
        },
        ValueV::ForAll(ts, b) => {
            lemma_binders(ts, module, names);
            lemma_restored(
                *b, deeper(depth, ts.len()), deeper(back, ts.len()), module, names,
            );
        },
        ValueV::Exists(ts, b) => {
            lemma_binders(ts, module, names);
            lemma_restored(
                *b, deeper(depth, ts.len()), deeper(back, ts.len()), module, names,
            );
        },
        ValueV::Binary(_, x, y) => {
            lemma_restored(*x, depth, back, module, names);
            lemma_restored(*y, depth, back, module, names);
        },
        ValueV::Not(x) => lemma_restored(*x, depth, back, module, names),
        ValueV::IfThenElse(c, x, y) => {
            lemma_restored(*c, depth, back, module, names);
            lemma_restored(*x, depth, back, module, names);
            lemma_restored(*y, depth, back, module, names);
        },
        _ => {},
    }
}

proof fn lemma_binders(ts: Seq<TypeV>, module: ModuleId, names: Seq<Seq<char>>)
    requires
        are_concrete(ts, names),
    ensures
        parametrized_all(ts, module, names).len() == ts.len(),
        ({
            let changed = parametrized_all(ts, module, names);
            Seq::new(
                changed.len(),
                |i: int| specialized(changed[i], block_params(module, names)),
            ) == ts
        }),
{
    let changed = parametrized_all(ts, module, names);
    let back = Seq::new(
        changed.len(),
        |i: int| specialized(changed[i], block_params(module, names)),
    );
    assert forall|i: int| 0 <= i < ts.len() implies #[trigger] back[i] == ts[i] by {
        assert(changed[i] == parametrized(ts[i], module, names));
        law_types_are_restored(ts[i], module, names);
    }
    assert(back =~= ts);
}

} // verus!
