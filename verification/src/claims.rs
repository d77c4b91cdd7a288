//! What the claims of blocks say outside their blocks.

use vstd::prelude::*;

use crate::acorn_type::{
    parametrized, parametrized_all, AtomId, ModuleId, TypeV,
};
use crate::acorn_value::{
    constants_to_vars, deeper, edited, edited_all, exists_of, forall_of, parametrized_params,
    parametrized_value, shifted, value_type, ParametrizeV, Shift, ToVarsV,
    ValueV,
};
use crate::binding_map::{unknown_constants, unknown_in_all, BindingMapV};
use crate::block::{exported, firsts, others, places, seconds};
use crate::environment::{BlockV, EnvV};
use crate::model::{
    are_of, for_all, for_some, function_of, is_true, lemma_quantified, meaning, meanings, truth,
    ModelV,
};
use crate::substitution::{inserted, is_scoped, law_shifting_keeps_the_meaning};
use crate::table::{position, put};

verus! {

/// Whether a constant of a type occurs in a value.
pub open spec fn occurs(v: ValueV, module: ModuleId, name: Seq<char>, t: TypeV) -> bool
    decreases v,
{
    match v {
        ValueV::Constant(m, n, s, _) => m == module && n == name && s == t,
        ValueV::Specialized(m, n, s, _) => m == module && n == name && s == t,
        ValueV::Application(f, args) => occurs(*f, module, name, t) || occurs_in_one(
            args,
            module,
            name,
            t,
        ),
        ValueV::Lambda(_, b) => occurs(*b, module, name, t),
        ValueV::ForAll(_, b) => occurs(*b, module, name, t),
        ValueV::Exists(_, b) => occurs(*b, module, name, t),
        ValueV::Binary(_, l, r) => occurs(*l, module, name, t) || occurs(*r, module, name, t),
        ValueV::Not(x) => occurs(*x, module, name, t),
        ValueV::IfThenElse(c, a, b) => occurs(*c, module, name, t) || occurs(*a, module, name, t)
            || occurs(*b, module, name, t),
        _ => false,
    }
}

/// Whether it occurs in one of some values.
pub open spec fn occurs_in_one(vs: Seq<ValueV>, module: ModuleId, name: Seq<char>, t: TypeV) -> bool
    decreases vs,
{
    exists|i: int| 0 <= i < vs.len() && occurs(#[trigger] vs[i], module, name, t)
}

/// Whether a name is among named types.
pub open spec fn is_listed(l: Seq<(Seq<char>, TypeV)>, name: Seq<char>) -> bool {
    exists|i: int| 0 <= i < l.len() && (#[trigger] l[i]).0 == name
}

/// Whether named types have different names.
pub open spec fn are_distinct(l: Seq<(Seq<char>, TypeV)>) -> bool {
    forall|i: int, j: int| 0 <= i < j < l.len() ==> (#[trigger] l[i]).0 != (#[trigger] l[j]).0
}

proof fn lemma_position(l: Seq<(Seq<char>, TypeV)>, key: Seq<char>)
    ensures
        match position(l, key) {
            Some(i) => 0 <= i < l.len() && l[i].0 == key,
            None => !is_listed(l, key),
        },
    decreases l.len(),
{
    if l.len() > 0 {
        lemma_position(l.drop_last(), key);
        assert forall|i: int| 0 <= i < l.len() - 1 implies l.drop_last()[i] == #[trigger] l[i] by {}
    }
}

/// Whether a list holds what is in another, and what of a value is unknown in a scope.
spec fn collects(
    l: Seq<(Seq<char>, TypeV)>,
    acc: Seq<(Seq<char>, TypeV)>,
    b: BindingMapV,
    v: ValueV,
) -> bool {
    &&& are_distinct(l)
    &&& forall|name: Seq<char>| #[trigger] is_listed(acc, name) ==> is_listed(l, name)
    &&& forall|name: Seq<char>, t: TypeV| #[trigger]
        occurs(v, b.module, name, t) && !b.constants.dom().contains(name) ==> is_listed(l, name)
    &&& forall|i: int|
        0 <= i < l.len() ==> acc.contains(#[trigger] l[i]) || (occurs(v, b.module, l[i].0, l[i].1)
            && !b.constants.dom().contains(l[i].0))
}

proof fn lemma_put(
    b: BindingMapV,
    v: ValueV,
    acc: Seq<(Seq<char>, TypeV)>,
    name: Seq<char>,
    t: TypeV,
)
    requires
        are_distinct(acc),
        !b.constants.dom().contains(name),
        forall|n: Seq<char>, s: TypeV|
            #[trigger] occurs(v, b.module, n, s) <==> n == name && s == t,
    ensures
        collects(put(acc, name, t), acc, b, v),
{
    lemma_position(acc, name);
    let l = put(acc, name, t);
    assert(occurs(v, b.module, name, t));
    match position(acc, name) {
        Some(k) => {
            assert(l[k] == (name, t));
            assert forall|n: Seq<char>| #[trigger] is_listed(acc, n) implies is_listed(l, n) by {
                let i = choose|i: int| 0 <= i < acc.len() && (#[trigger] acc[i]).0 == n;
                assert(l[i].0 == n);
            }
            assert forall|i: int, j: int| 0 <= i < j < l.len() implies (#[trigger] l[i]).0 != (
            #[trigger] l[j]).0 by {
                assert(acc[i].0 != acc[j].0);
            }
            assert forall|i: int| 0 <= i < l.len() implies acc.contains(#[trigger] l[i]) || (occurs(
                v,
                b.module,
                l[i].0,
                l[i].1,
            ) && !b.constants.dom().contains(l[i].0)) by {
                if i != k {
                    assert(acc[i] == l[i]);
                }
            }
        },
        None => {
            assert(l[acc.len() as int] == (name, t));
            assert forall|n: Seq<char>| #[trigger] is_listed(acc, n) implies is_listed(l, n) by {
                let i = choose|i: int| 0 <= i < acc.len() && (#[trigger] acc[i]).0 == n;
                assert(l[i].0 == n);
            }
            assert forall|i: int, j: int| 0 <= i < j < l.len() implies (#[trigger] l[i]).0 != (
            #[trigger] l[j]).0 by {
                assert(acc[i] == l[i]);
                if j < acc.len() {
                    assert(acc[j] == l[j]);
                }
            }
            assert forall|i: int| 0 <= i < l.len() implies acc.contains(#[trigger] l[i]) || (occurs(
                v,
                b.module,
                l[i].0,
                l[i].1,
            ) && !b.constants.dom().contains(l[i].0)) by {
                if i < acc.len() {
                    assert(acc[i] == l[i]);
                }
            }
        },
    }
    assert(is_listed(l, name));
}

proof fn lemma_collects_more(
    l: Seq<(Seq<char>, TypeV)>,
    mid: Seq<(Seq<char>, TypeV)>,
    acc: Seq<(Seq<char>, TypeV)>,
    b: BindingMapV,
    first: ValueV,
    second: ValueV,
    v: ValueV,
)
    requires
        collects(mid, acc, b, first),
        collects(l, mid, b, second),
        forall|n: Seq<char>, s: TypeV| #[trigger]
            occurs(v, b.module, n, s) <==> occurs(first, b.module, n, s) || occurs(
                second,
                b.module,
                n,
                s,
            ),
    ensures
        collects(l, acc, b, v),
{
    assert forall|i: int| 0 <= i < l.len() implies acc.contains(#[trigger] l[i]) || (occurs(
        v,
        b.module,
        l[i].0,
        l[i].1,
    ) && !b.constants.dom().contains(l[i].0)) by {
        let x = l[i];
        assert(occurs(v, b.module, x.0, x.1) <==> occurs(first, b.module, x.0, x.1) || occurs(
            second,
            b.module,
            x.0,
            x.1,
        ));
        if mid.contains(x) {
            let j = choose|j: int| 0 <= j < mid.len() && mid[j] == x;
            assert(acc.contains(mid[j]) || occurs(first, b.module, mid[j].0, mid[j].1));
        }
    }
}

proof fn lemma_collects_inside(
    l: Seq<(Seq<char>, TypeV)>,
    acc: Seq<(Seq<char>, TypeV)>,
    b: BindingMapV,
    x: ValueV,
    v: ValueV,
)
    requires
        collects(l, acc, b, x),
        forall|n: Seq<char>, s: TypeV| #[trigger]
            occurs(v, b.module, n, s) <==> occurs(x, b.module, n, s),
    ensures
        collects(l, acc, b, v),
{
    assert forall|i: int| 0 <= i < l.len() implies acc.contains(#[trigger] l[i]) || (occurs(
        v,
        b.module,
        l[i].0,
        l[i].1,
    ) && !b.constants.dom().contains(l[i].0)) by {
        assert(occurs(v, b.module, l[i].0, l[i].1) <==> occurs(x, b.module, l[i].0, l[i].1));
    }
}

/// What is collected of a value.
proof fn lemma_unknown(b: BindingMapV, v: ValueV, acc: Seq<(Seq<char>, TypeV)>)
    requires
        are_distinct(acc),
    ensures
        collects(unknown_constants(b, v, acc), acc, b, v),
    decreases v, 0nat,
{
    let l = unknown_constants(b, v, acc);
    assert forall|i: int| 0 <= i < acc.len() implies acc.contains(#[trigger] acc[i]) by {}
    match v {
        ValueV::Constant(module, name, t, _) => {
            if module == b.module && !b.constants.dom().contains(name) {
                lemma_put(b, v, acc, name, t);
            } else {
                assert(l == acc);
                assert(collects(acc, acc, b, v));
            }
        },
        ValueV::Specialized(module, name, t, _) => {
            if module == b.module && !b.constants.dom().contains(name) {
                lemma_put(b, v, acc, name, t);
            } else {
                assert(l == acc);
                assert(collects(acc, acc, b, v));
            }
        },
        ValueV::Application(f, args) => {
            let mid = unknown_constants(b, *f, acc);
            lemma_unknown(b, *f, acc);
            lemma_unknown_all(b, *f, args, acc, args.len());
            assert forall|n: Seq<char>, s: TypeV| #[trigger]
                occurs(v, b.module, n, s) <==> occurs(*f, b.module, n, s) || occurs_before(
                args,
                args.len(),
                b.module,
                n,
                s,
            ) by {
                assert(occurs(v, b.module, n, s) == (occurs(*f, b.module, n, s) || occurs_in_one(
                    args,
                    b.module,
                    n,
                    s,
                )));
            }
            assert(collects_all(l, acc, b, *f, args, args.len()));
            assert forall|i: int| 0 <= i < l.len() implies acc.contains(#[trigger] l[i]) || (
            occurs(v, b.module, l[i].0, l[i].1) && !b.constants.dom().contains(l[i].0)) by {
                assert(occurs(v, b.module, l[i].0, l[i].1) <==> occurs(
                    *f,
                    b.module,
                    l[i].0,
                    l[i].1,
                ) || occurs_before(args, args.len(), b.module, l[i].0, l[i].1));
            }
            assert(collects(l, acc, b, v));
        },
        ValueV::Lambda(_, x) => {
            lemma_unknown(b, *x, acc);
            lemma_collects_inside(l, acc, b, *x, v);
        },
        ValueV::ForAll(_, x) => {
            lemma_unknown(b, *x, acc);
            lemma_collects_inside(l, acc, b, *x, v);
        },
        ValueV::Exists(_, x) => {
            lemma_unknown(b, *x, acc);
            lemma_collects_inside(l, acc, b, *x, v);
        },
        ValueV::Binary(_, x, y) => {
            let mid = unknown_constants(b, *x, acc);
            lemma_unknown(b, *x, acc);
            lemma_unknown(b, *y, mid);
            lemma_collects_more(l, mid, acc, b, *x, *y, v);
        },
        ValueV::Not(x) => {
            lemma_unknown(b, *x, acc);
            lemma_collects_inside(l, acc, b, *x, v);
        },
        ValueV::IfThenElse(c, x, y) => {
            let one = unknown_constants(b, *c, acc);
            let two = unknown_constants(b, *x, one);
            lemma_unknown(b, *c, acc);
            lemma_unknown(b, *x, one);
            lemma_unknown(b, *y, two);
            let both = ValueV::Application(c, seq![*x]);
            assert forall|n: Seq<char>, s: TypeV| #[trigger]
                occurs(both, b.module, n, s) <==> occurs(*c, b.module, n, s) || occurs(
                *x,
                b.module,
                n,
                s,
            ) by {
                assert(occurs(both, b.module, n, s) == (occurs(*c, b.module, n, s)
                    || occurs_in_one(seq![*x], b.module, n, s)));
                assert(seq![*x][0] == *x);
            }
            lemma_collects_more(two, one, acc, b, *c, *x, both);
            lemma_collects_more(l, two, acc, b, both, *y, v);
        },
        _ => {},
    }
}

/// Whether a constant occurs in one of the first `n` of some values.
spec fn occurs_before(
    vs: Seq<ValueV>,
    n: nat,
    module: ModuleId,
    name: Seq<char>,
    t: TypeV,
) -> bool {
    exists|i: int| 0 <= i < n && i < vs.len() && occurs(#[trigger] vs[i], module, name, t)
}

/// What is collected of a function and the first `n` of its arguments.
spec fn collects_all(
    l: Seq<(Seq<char>, TypeV)>,
    acc: Seq<(Seq<char>, TypeV)>,
    b: BindingMapV,
    f: ValueV,
    args: Seq<ValueV>,
    n: nat,
) -> bool {
    &&& are_distinct(l)
    &&& forall|name: Seq<char>| #[trigger] is_listed(acc, name) ==> is_listed(l, name)
    &&& forall|name: Seq<char>, t: TypeV|
        (#[trigger] occurs(f, b.module, name, t) || occurs_before(args, n, b.module, name, t))
            && !b.constants.dom().contains(name) ==> is_listed(l, name)
    &&& forall|i: int|
        0 <= i < l.len() ==> acc.contains(#[trigger] l[i]) || ((occurs(f, b.module, l[i].0, l[i].1)
            || occurs_before(args, n, b.module, l[i].0, l[i].1)) && !b.constants.dom().contains(
            l[i].0,
        ))
}

proof fn lemma_unknown_all(
    b: BindingMapV,
    f: ValueV,
    args: Seq<ValueV>,
    acc: Seq<(Seq<char>, TypeV)>,
    n: nat,
)
    requires
        are_distinct(acc),
        n <= args.len(),
        collects(unknown_constants(b, f, acc), acc, b, f),
    ensures
        collects_all(
            unknown_in_all(b, args, unknown_constants(b, f, acc), n),
            acc,
            b,
            f,
            args,
            n,
        ),
    decreases args, n,
{
    let start = unknown_constants(b, f, acc);
    let l = unknown_in_all(b, args, start, n);
    if n > 0 {
        let k = (n - 1) as nat;
        let mid = unknown_in_all(b, args, start, k);
        lemma_unknown_all(b, f, args, acc, k);
        lemma_unknown(b, args[k as int], mid);
        assert(collects(l, mid, b, args[k as int]));
        assert forall|name: Seq<char>, t: TypeV|
            #![trigger occurs_before(args, n, b.module, name, t)]
            occurs_before(args, n, b.module, name, t) <==> occurs_before(
                args,
                k,
                b.module,
                name,
                t,
            ) || occurs(args[k as int], b.module, name, t) by {}
        assert forall|name: Seq<char>, t: TypeV|
            (#[trigger] occurs(f, b.module, name, t) || occurs_before(args, n, b.module, name, t))
                && !b.constants.dom().contains(name) implies is_listed(l, name) by {
            if occurs(args[k as int], b.module, name, t) {
            } else {
                assert(is_listed(mid, name));
            }
        }
        assert forall|i: int| 0 <= i < l.len() implies acc.contains(#[trigger] l[i]) || ((occurs(
            f,
            b.module,
            l[i].0,
            l[i].1,
        ) || occurs_before(args, n, b.module, l[i].0, l[i].1)) && !b.constants.dom().contains(
            l[i].0,
        )) by {
            let x = l[i];
            if mid.contains(x) {
                let j = choose|j: int| 0 <= j < mid.len() && mid[j] == x;
                assert(acc.contains(mid[j]) || occurs(f, b.module, mid[j].0, mid[j].1)
                    || occurs_before(args, k, b.module, mid[j].0, mid[j].1));
            }
        }
    } else {
        assert forall|name: Seq<char>, t: TypeV| !occurs_before(
            args,
            0,
            b.module,
            name,
            t,
        ) by {}
    }
}

proof fn lemma_others(l: Seq<(Seq<char>, TypeV)>, names: Seq<Seq<char>>, n: nat)
    requires
        are_distinct(l),
        n <= l.len(),
    ensures
        are_distinct(others(l, names, n)),
        forall|i: int|
            0 <= i < others(l, names, n).len() ==> !names.contains(
                (#[trigger] others(l, names, n)[i]).0,
            ) && l.take(n as int).contains(others(l, names, n)[i]),
        forall|j: int|
            0 <= j < n && !names.contains((#[trigger] l[j]).0) ==> others(l, names, n).contains(
                l[j],
            ),
    decreases n,
{
    let o = others(l, names, n);
    if n > 0 {
        let k = (n - 1) as nat;
        let before = others(l, names, k);
        lemma_others(l, names, k);
        assert forall|i: int| 0 <= i < before.len() implies l.take(n as int).contains(
            #[trigger] before[i],
        ) && before[i].0 != l[k as int].0 by {
            let j = choose|j: int| 0 <= j < l.take(k as int).len() && l.take(k as int)[j]
                == before[i];
            assert(l[j] == before[i]);
            assert(l.take(n as int)[j] == before[i]);
        }
        assert(l.take(n as int)[k as int] == l[k as int]);
        assert forall|i: int| 0 <= i < o.len() implies !names.contains((#[trigger] o[i]).0)
            && l.take(n as int).contains(o[i]) by {
            if i < before.len() {
                assert(o[i] == before[i]);
            }
        }
        assert forall|j: int| 0 <= j < n && !names.contains((#[trigger] l[j]).0) implies o.contains(
            l[j],
        ) by {
            if j < k {
                let i = choose|i: int| 0 <= i < before.len() && before[i] == l[j];
                assert(o[i] == l[j]);
            } else {
                assert(o[before.len() as int] == l[j]);
            }
        }
        assert forall|i: int, j: int| 0 <= i < j < o.len() implies (#[trigger] o[i]).0 != (
        #[trigger] o[j]).0 by {
            assert(o[i] == before[i]);
            if j < before.len() {
                assert(o[j] == before[j]);
            }
        }
    }
}

/// The interpretation where names of a module stand for the given elements.
pub open spec fn naming(
    m: ModelV,
    module: ModuleId,
    names: Seq<Seq<char>>,
    xs: Seq<int>,
) -> ModelV {
    ModelV {
        constant: |mo: ModuleId, name: Seq<char>, t: TypeV, ps: Seq<Seq<char>>|
            if mo == module && names.contains(name) {
                xs[names.index_of(name)]
            } else {
                (m.constant)(mo, name, t, ps)
            },
        ..m
    }
}

/// Whether constants with some names of a module occur in a value only without type parameters.
pub open spec fn names_plainly(v: ValueV, module: ModuleId, names: Seq<Seq<char>>) -> bool
    decreases v,
{
    match v {
        ValueV::Specialized(m, name, _, _) => !(m == module && names.contains(name)),
        ValueV::Application(f, args) => names_plainly(*f, module, names) && all_name_plainly(
            args,
            module,
            names,
        ),
        ValueV::Lambda(_, b) => names_plainly(*b, module, names),
        ValueV::ForAll(_, b) => names_plainly(*b, module, names),
        ValueV::Exists(_, b) => names_plainly(*b, module, names),
        ValueV::Binary(_, l, r) => names_plainly(*l, module, names) && names_plainly(
            *r,
            module,
            names,
        ),
        ValueV::Not(x) => names_plainly(*x, module, names),
        ValueV::IfThenElse(c, a, b) => names_plainly(*c, module, names) && names_plainly(
            *a,
            module,
            names,
        ) && names_plainly(*b, module, names),
        _ => true,
    }
}

/// Whether this holds of each of some values.
pub open spec fn all_name_plainly(
    vs: Seq<ValueV>,
    module: ModuleId,
    names: Seq<Seq<char>>,
) -> bool
    decreases vs,
{
    forall|i: int| 0 <= i < vs.len() ==> names_plainly(#[trigger] vs[i], module, names)
}

proof fn lemma_index(names: Seq<Seq<char>>, name: Seq<char>)
    ensures
        names.contains(name) ==> 0 <= names.index_of(name) < names.len() && names[names.index_of(
            name,
        )] == name,
{
    if names.contains(name) {
        assert(exists|i: int| 0 <= i < names.len() && names[i] == name);
    }
}

proof fn lemma_places(names: Seq<Seq<char>>, n: nat)
    requires
        names.no_duplicates(),
        n <= names.len() <= AtomId::MAX,
    ensures
        forall|name: Seq<char>| #[trigger]
            places(names, n).dom().contains(name) <==> names.contains(name) && names.index_of(name)
                < n,
        forall|name: Seq<char>| #[trigger]
            places(names, n).dom().contains(name) ==> places(names, n)[name] == names.index_of(
                name,
            ),
    decreases n,
{
    if n > 0 {
        let k = (n - 1) as nat;
        lemma_places(names, k);
        let last = names[k as int];
        assert(places(names, n) == places(names, k).insert(last, k as u16));
        lemma_index(names, last);
        assert(names.contains(last) && names.index_of(last) == k);
        assert forall|name: Seq<char>| #[trigger]
            places(names, n).dom().contains(name) <==> names.contains(name) && names.index_of(name)
                < n by {
            lemma_index(names, name);
            assert(places(names, k).dom().contains(name) <==> names.contains(name)
                && names.index_of(name) < k);
        }
        assert forall|name: Seq<char>| #[trigger]
            places(names, n).dom().contains(name) implies places(names, n)[name] == names.index_of(
            name,
        ) by {
            if name != last {
                assert(places(names, k).dom().contains(name));
            }
        }
    }
}

/// Variables in place of constants mean what the constants mean.
proof fn lemma_named(
    v: ValueV,
    depth: AtomId,
    m: ModelV,
    module: ModuleId,
    names: Seq<Seq<char>>,
    xs: Seq<int>,
    st: Seq<int>,
)
    requires
        names.no_duplicates(),
        names.len() <= AtomId::MAX,
        xs.len() == names.len(),
        names_plainly(v, module, names),
    ensures
        ({
            let e = ToVarsV { module, vars: places(names, names.len()) };
            &&& meaning(edited(v, depth, e), m, xs + st) == meaning(
                v,
                naming(m, module, names, xs),
                xs + st,
            )
            &&& value_type(edited(v, depth, e)) == value_type(v)
        }),
    decreases v, 0nat,
{
    let e = ToVarsV { module, vars: places(names, names.len()) };
    let k = naming(m, module, names, xs);
    let w = edited(v, depth, e);
    let s = xs + st;
    lemma_places(names, names.len());
    match v {
        ValueV::Constant(mo, name, t, ps) => {
            if mo == module && names.contains(name) {
                lemma_index(names, name);
                assert(e.vars.dom().contains(name));
                assert(s[names.index_of(name)] == xs[names.index_of(name)]);
            }
        },
        ValueV::Application(f, args) => {
            lemma_named(*f, depth, m, module, names, xs, st);
            let changed = edited_all(args, depth, e);
            assert(all_name_plainly(args, module, names));
            assert forall|i: int| 0 <= i < args.len() implies meaning(#[trigger] changed[i], m, s)
                == meaning(args[i], k, s) by {
                lemma_named(args[i], depth, m, module, names, xs, st);
            }
            assert(meanings(changed, m, s) =~= meanings(args, k, s));
        },
        ValueV::Lambda(ts, b) => {
            lemma_named_body(ts, *b, deeper(depth, ts.len()), m, module, names, xs, st);
        },
        ValueV::ForAll(ts, b) => {
            let d = deeper(depth, ts.len());
            lemma_named_body(ts, *b, d, m, module, names, xs, st);
            assert(meaning(w, m, s) == truth(for_all(ts, edited(*b, d, e), m, s)));
            assert(meaning(v, k, s) == truth(for_all(ts, *b, k, s)));
        },
        ValueV::Exists(ts, b) => {
            let d = deeper(depth, ts.len());
            lemma_named_body(ts, *b, d, m, module, names, xs, st);
            assert(meaning(w, m, s) == truth(for_some(ts, edited(*b, d, e), m, s)));
            assert(meaning(v, k, s) == truth(for_some(ts, *b, k, s)));
        },
        ValueV::Binary(_, l, r) => {
            lemma_named(*l, depth, m, module, names, xs, st);
            lemma_named(*r, depth, m, module, names, xs, st);
        },
        ValueV::Not(x) => lemma_named(*x, depth, m, module, names, xs, st),
        ValueV::IfThenElse(c, a, b) => {
            lemma_named(*c, depth, m, module, names, xs, st);
            lemma_named(*a, depth, m, module, names, xs, st);
            lemma_named(*b, depth, m, module, names, xs, st);
        },
        _ => {},
    }
}

proof fn lemma_named_body(
    ts: Seq<TypeV>,
    b: ValueV,
    depth: AtomId,
    m: ModelV,
    module: ModuleId,
    names: Seq<Seq<char>>,
    xs: Seq<int>,
    st: Seq<int>,
)
    requires
        names.no_duplicates(),
        names.len() <= AtomId::MAX,
        xs.len() == names.len(),
        names_plainly(b, module, names),
    ensures
        ({
            let c = edited(b, depth, ToVarsV { module, vars: places(names, names.len()) });
            let k = naming(m, module, names, xs);
            &&& function_of(ts, c, m, xs + st) == function_of(ts, b, k, xs + st)
            &&& for_all(ts, c, m, xs + st) == for_all(ts, b, k, xs + st)
            &&& for_some(ts, c, m, xs + st) == for_some(ts, b, k, xs + st)
            &&& value_type(c) == value_type(b)
        }),
    decreases b, 1nat,
{
    let c = edited(b, depth, ToVarsV { module, vars: places(names, names.len()) });
    let k = naming(m, module, names, xs);
    let s = xs + st;
    assert forall|ys: Seq<int>| #[trigger] meaning(c, m, s + ys) == meaning(b, k, s + ys) by {
        lemma_named(b, depth, m, module, names, xs, st + ys);
        assert(xs + (st + ys) =~= s + ys);
    }
    lemma_named(b, depth, m, module, names, xs, st);
    assert forall|ys: Seq<int>| #[trigger]
        function_of(ts, c, m, s)(ys) == function_of(ts, b, k, s)(ys) by {
        assert(are_of(m, ts, ys) == are_of(k, ts, ys));
        assert(meaning(c, m, s + ys) == meaning(b, k, s + ys));
    }
    assert(function_of(ts, c, m, s) =~= function_of(ts, b, k, s));
    assert forall|ys: Seq<int>| #[trigger] are_of(m, ts, ys) == are_of(k, ts, ys) && meaning(
        c,
        m,
        s + ys,
    ) == meaning(b, k, s + ys) by {}
    assert forall|ys: Seq<int>| #[trigger] are_of(k, ts, ys) == are_of(m, ts, ys) && meaning(
        c,
        m,
        s + ys,
    ) == meaning(b, k, s + ys) by {}
}

proof fn lemma_same_type(t: TypeV, module: ModuleId)
    ensures
        parametrized(t, module, Seq::empty()) == t,
    decreases t,
{
    match t {
        TypeV::Function(args, ret) => {
            lemma_same_type(*ret, module);
            lemma_same_types(args, module);
        },
        _ => {},
    }
}

proof fn lemma_same_types(ts: Seq<TypeV>, module: ModuleId)
    ensures
        parametrized_all(ts, module, Seq::empty()) == ts,
    decreases ts,
{
    let changed = parametrized_all(ts, module, Seq::empty());
    assert forall|i: int| 0 <= i < ts.len() implies #[trigger] changed[i] == ts[i] by {
        lemma_same_type(ts[i], module);
    }
    assert(changed =~= ts);
}

/// Without type parameters nothing is turned into one.
proof fn lemma_same_value(v: ValueV, depth: AtomId, module: ModuleId)
    ensures
        edited(v, depth, ParametrizeV { module, names: Seq::empty() }) == v,
    decreases v,
{
    let e = ParametrizeV { module, names: Seq::empty() };
    match v {
        ValueV::Variable(_, t) => lemma_same_type(t, module),
        ValueV::Constant(_, _, t, _) => lemma_same_type(t, module),
        ValueV::Specialized(_, _, _, ps) => {
            let changed = parametrized_params(ps, module, Seq::empty());
            assert forall|i: int| 0 <= i < ps.len() implies #[trigger] changed[i] == ps[i] by {
                lemma_same_type(ps[i].1, module);
            }
            assert(changed =~= ps);
        },
        ValueV::Application(f, args) => {
            lemma_same_value(*f, depth, module);
            let changed = edited_all(args, depth, e);
            assert forall|i: int| 0 <= i < args.len() implies #[trigger] changed[i] == args[i] by {
                lemma_same_value(args[i], depth, module);
            }
            assert(changed =~= args);
        },
        ValueV::Lambda(ts, b) => {
            lemma_same_types(ts, module);
            lemma_same_value(*b, deeper(depth, ts.len()), module);
        },
        ValueV::ForAll(ts, b) => {
            lemma_same_types(ts, module);
            lemma_same_value(*b, deeper(depth, ts.len()), module);
        },
        ValueV::Exists(ts, b) => {
            lemma_same_types(ts, module);
            lemma_same_value(*b, deeper(depth, ts.len()), module);
        },
        ValueV::Binary(_, l, r) => {
            lemma_same_value(*l, depth, module);
            lemma_same_value(*r, depth, module);
        },
        ValueV::Not(x) => lemma_same_value(*x, depth, module),
        ValueV::IfThenElse(c, a, b) => {
            lemma_same_value(*c, depth, module);
            lemma_same_value(*a, depth, module);
            lemma_same_value(*b, depth, module);
        },
        _ => {},
    }
}

/// What claims for all variables and for some variables say, where there may be none.
pub proof fn law_closed_claims_quantify(ts: Seq<TypeV>, b: ValueV, m: ModelV, st: Seq<int>)
    ensures
        is_true(forall_of(ts, b), m, st) == (forall|xs: Seq<int>| #[trigger]
            are_of(m, ts, xs) ==> is_true(b, m, st + xs)),
        is_true(exists_of(ts, b), m, st) == (exists|xs: Seq<int>| #[trigger]
            are_of(m, ts, xs) && is_true(b, m, st + xs)),
{
    lemma_quantified(ts, b, m, st);
    if ts.len() == 0 {
        let none = Seq::<int>::empty();
        assert(are_of(m, ts, none));
        assert(st + none =~= st);
        assert forall|xs: Seq<int>| #[trigger] are_of(m, ts, xs) implies st + xs == st by {
            assert(st + xs =~= st);
        }
    }
}

/// Whether there are elements for some named types so that a claim holds where the names, after
/// some others, stand for them.
pub open spec fn holds_for_some(
    v: ValueV,
    m: ModelV,
    module: ModuleId,
    names: Seq<Seq<char>>,
    xs: Seq<int>,
    inner: Seq<(Seq<char>, TypeV)>,
) -> bool {
    exists|ys: Seq<int>| #[trigger]
        are_of(m, seconds(inner), ys) && is_true(
            v,
            naming(m, module, names + firsts(inner), xs + ys),
            Seq::empty(),
        )
}

/// Whether names are those of arguments of a block, or unknown outside.
pub open spec fn are_new(names: Seq<Seq<char>>, block: BlockV, outer: EnvV) -> bool {
    forall|i: int|
        0 <= i < names.len() ==> is_listed(block.args, #[trigger] names[i])
            || !outer.bindings.constants.dom().contains(names[i])
}

/// Outside its block, a claim says that for all elements for the arguments of the block there are
/// elements for the constants that the block made, so that the claim holds where the names stand
/// for these elements. These constants are those in the claim that the scope outside does not
/// know and that are no arguments.
pub proof fn law_exported_claims_hold_for_all_arguments(
    block: BlockV,
    outer: EnvV,
    v: ValueV,
    limit: int,
    m: ModelV,
) -> (inner: Seq<(Seq<char>, TypeV)>)
    requires
        block.type_params.len() == 0,
        outer.bindings.module == outer.module_id,
        are_distinct(block.args),
        is_scoped(v, Seq::empty(), limit),
        limit + unknown_constants(outer.bindings, v, Seq::empty()).len() + block.args.len()
            <= AtomId::MAX,
        forall|names: Seq<Seq<char>>|
            are_new(names, block, outer) ==> #[trigger] names_plainly(v, outer.module_id, names),
    ensures
        are_distinct(inner),
        forall|i: int|
            0 <= i < inner.len() ==> occurs(
                v,
                outer.module_id,
                (#[trigger] inner[i]).0,
                inner[i].1,
            ) && !outer.bindings.constants.dom().contains(inner[i].0) && !is_listed(
                block.args,
                inner[i].0,
            ),
        forall|name: Seq<char>, t: TypeV| #[trigger]
            occurs(v, outer.module_id, name, t) && !outer.bindings.constants.dom().contains(name)
                ==> is_listed(block.args, name) || is_listed(inner, name),
        is_true(exported(block, outer, v), m, Seq::empty()) <==> forall|xs: Seq<int>| #[trigger]
            are_of(m, seconds(block.args), xs) ==> holds_for_some(
                v,
                m,
                outer.module_id,
                firsts(block.args),
                xs,
                inner,
            ),
{
    let none = Seq::<(Seq<char>, TypeV)>::empty();
    let unknown = unknown_constants(outer.bindings, v, none);
    lemma_unknown(outer.bindings, v, none);
    let args = firsts(block.args);
    let inner = others(unknown, args, unknown.len());
    lemma_others(unknown, args, unknown.len());
    lemma_others_len(unknown, args, unknown.len());
    assert(unknown.take(unknown.len() as int) =~= unknown);
    assert forall|name: Seq<char>| args.contains(name) <==> #[trigger] is_listed(
        block.args,
        name,
    ) by {
        if is_listed(block.args, name) {
            let i = choose|i: int| 0 <= i < block.args.len() && (#[trigger] block.args[i]).0
                == name;
            assert(args[i] == name);
        }
        if args.contains(name) {
            let i = choose|i: int| 0 <= i < args.len() && args[i] == name;
            assert(block.args[i].0 == name);
        }
    }
    assert forall|i: int| 0 <= i < inner.len() implies occurs(
        v,
        outer.module_id,
        (#[trigger] inner[i]).0,
        inner[i].1,
    ) && !outer.bindings.constants.dom().contains(inner[i].0) && !is_listed(
        block.args,
        inner[i].0,
    ) by {
        let j = choose|j: int| 0 <= j < unknown.len() && unknown[j] == inner[i];
        assert(!none.contains(unknown[j]));
    }
    assert forall|name: Seq<char>, t: TypeV| #[trigger]
        occurs(v, outer.module_id, name, t) && !outer.bindings.constants.dom().contains(
            name,
        ) implies is_listed(block.args, name) || is_listed(inner, name) by {
        assert(is_listed(unknown, name));
        let j = choose|j: int| 0 <= j < unknown.len() && (#[trigger] unknown[j]).0 == name;
        if !args.contains(name) {
            let i = choose|i: int| 0 <= i < inner.len() && inner[i] == unknown[j];
            assert(inner[i].0 == name);
        }
    }
    let names = args + firsts(inner);
    assert forall|i: int, j: int| 0 <= i < j < names.len() implies names[i] != names[j] by {
        if j < args.len() {
            assert(block.args[i].0 != block.args[j].0);
        } else if i < args.len() {
            assert(inner[j - args.len()].0 == names[j]);
            assert(args[i] == names[i]);
        } else {
            assert(inner[i - args.len()].0 != inner[j - args.len()].0);
        }
    }
    assert forall|i: int| 0 <= i < names.len() implies is_listed(block.args, #[trigger] names[i])
        || !outer.bindings.constants.dom().contains(names[i]) by {
        if i < args.len() {
            assert(args[i] == names[i] && args.contains(names[i]));
        } else {
            assert(inner[i - args.len()].0 == names[i]);
        }
    }
    assert(are_new(names, block, outer));
    let n = names.len() as AtomId;
    let moved = shifted(v, 0, n);
    let replaced = constants_to_vars(moved, outer.module_id, places(names, names.len()));
    lemma_same_value(replaced, 0, block.env.module_id);
    assert(block.type_params =~= Seq::<Seq<char>>::empty());
    assert(parametrized_value(replaced, block.env.module_id, block.type_params) == replaced);
    reveal(exported);
    assert(exported(block, outer, v) == forall_of(
        seconds(block.args),
        exists_of(seconds(inner), replaced),
    ));
    let start = Seq::<int>::empty();
    assert forall|xs: Seq<int>| #[trigger] are_of(m, seconds(block.args), xs) implies is_true(
        exists_of(seconds(inner), replaced),
        m,
        start + xs,
    ) == holds_for_some(v, m, outer.module_id, args, xs, inner) by {
        law_closed_claims_quantify(seconds(inner), replaced, m, start + xs);
        assert forall|ys: Seq<int>| #[trigger] are_of(m, seconds(inner), ys) implies is_true(
            replaced,
            m,
            start + xs + ys,
        ) == is_true(v, naming(m, outer.module_id, names, xs + ys), start) by {
            let zs = xs + ys;
            let k = naming(m, outer.module_id, names, zs);
            law_shifting_keeps_the_meaning(
                v,
                0,
                Seq::empty(),
                limit,
                0,
                n,
                k,
                start,
                zs,
                Seq::new(n as nat, |i: int| TypeV::Bool),
            );
            assert(inserted(start, 0, zs) =~= zs + start);
            lemma_shifted_plainly(v, 0, n, outer.module_id, names);
            lemma_named(moved, 0, m, outer.module_id, names, zs, start);
            assert(start + xs + ys =~= zs + start);
        }
    }
    law_closed_claims_quantify(
        seconds(block.args),
        exists_of(seconds(inner), replaced),
        m,
        start,
    );
    inner
}

proof fn lemma_others_len(l: Seq<(Seq<char>, TypeV)>, names: Seq<Seq<char>>, n: nat)
    ensures
        others(l, names, n).len() <= n,
    decreases n,
{
    if n > 0 {
        lemma_others_len(l, names, (n - 1) as nat);
    }
}

proof fn lemma_shifted_plainly(
    v: ValueV,
    depth: AtomId,
    n: AtomId,
    module: ModuleId,
    names: Seq<Seq<char>>,
)
    requires
        names_plainly(v, module, names),
    ensures
        names_plainly(edited(v, depth, Shift { index: 0, increment: n }), module, names),
    decreases v,
{
    let e = Shift { index: 0, increment: n };
    match v {
        ValueV::Application(f, args) => {
            lemma_shifted_plainly(*f, depth, n, module, names);
            assert(all_name_plainly(args, module, names));
            let changed = edited_all(args, depth, e);
            assert forall|i: int| 0 <= i < args.len() implies names_plainly(
                #[trigger] changed[i],
                module,
                names,
            ) by {
                lemma_shifted_plainly(args[i], depth, n, module, names);
            }
            assert(all_name_plainly(changed, module, names));
        },
        ValueV::Lambda(ts, b) => {
            lemma_shifted_plainly(*b, deeper(depth, ts.len()), n, module, names);
        },
        ValueV::ForAll(ts, b) => {
            lemma_shifted_plainly(*b, deeper(depth, ts.len()), n, module, names);
        },
        ValueV::Exists(ts, b) => {
            lemma_shifted_plainly(*b, deeper(depth, ts.len()), n, module, names);
        },
        ValueV::Binary(_, l, r) => {
            lemma_shifted_plainly(*l, depth, n, module, names);
            lemma_shifted_plainly(*r, depth, n, module, names);
        },
        ValueV::Not(x) => lemma_shifted_plainly(*x, depth, n, module, names),
        ValueV::IfThenElse(c, a, b) => {
            lemma_shifted_plainly(*c, depth, n, module, names);
            lemma_shifted_plainly(*a, depth, n, module, names);
            lemma_shifted_plainly(*b, depth, n, module, names);
        },
        _ => {},
    }
}

} // verus!
