//! Skolem functions, against what values mean: they give what existential quantifiers ask for.

use vstd::prelude::*;

use crate::acorn_type::{applied_type, functional, AtomId, ModuleId, TypeV, SKOLEM};
use crate::acorn_value::{
    apply, bound, deeper, edited, edited_all, value_type, BindV, Shift, ValueV,
};
use crate::logic::{lemma_bind_keeps_structure, structure};
use crate::model::{
    are_of, for_all, for_some, function_of, is_true, lemma_quantified, meaning, meanings, truth,
    ModelV,
};
use crate::normal_form::lemma_join;
use crate::normalizer::{
    lemma_replacements, replacements, skolem, skolem_name, skolem_types, skolemized, stack_args,
};
use crate::substitution::{
    are_proper, are_scoped, can_replace, is_scoped, law_binding_puts_values_for_variables,
};
use crate::text::{decimal_text, digit_text};

verus! {

/// Different numbers are written differently.
pub proof fn law_numbers_are_written_differently(a: nat, b: nat)
    requires
        decimal_text(a) == decimal_text(b),
    ensures
        a == b,
    decreases a + b,
{
    lemma_digits();
    lemma_not_empty(a / 10);
    lemma_not_empty(b / 10);
    let x = decimal_text(a);
    let y = decimal_text(b);
    if a < 10 && b < 10 {
    } else if a < 10 {
        assert(y.len() == decimal_text(b / 10).len() + 1);
    } else if b < 10 {
        assert(x.len() == decimal_text(a / 10).len() + 1);
    } else {
        assert(x.drop_last() =~= decimal_text(a / 10));
        assert(y.drop_last() =~= decimal_text(b / 10));
        assert(x.last() == digit_text(a % 10)[0]);
        assert(y.last() == digit_text(b % 10)[0]);
        assert(digit_text(a % 10) =~= digit_text(b % 10));
        law_numbers_are_written_differently(a / 10, b / 10);
    }
}

proof fn lemma_digits()
    ensures
        forall|d: nat| (#[trigger] digit_text(d)).len() == 1,
        forall|d: nat, e: nat|
            d < 10 && e < 10 && #[trigger] digit_text(d) == #[trigger] digit_text(e) ==> d == e,
{
    reveal_strlit("0");
    reveal_strlit("1");
    reveal_strlit("2");
    reveal_strlit("3");
    reveal_strlit("4");
    reveal_strlit("5");
    reveal_strlit("6");
    reveal_strlit("7");
    reveal_strlit("8");
    reveal_strlit("9");
    assert forall|d: nat, e: nat|
        d < 10 && e < 10 && #[trigger] digit_text(d) == #[trigger] digit_text(e) implies d == e by {
        assert(digit_text(d)[0] == digit_text(e)[0]);
    }
}

proof fn lemma_not_empty(n: nat)
    ensures
        decimal_text(n).len() > 0,
    decreases n,
{
    lemma_digits();
    if n >= 10 {
        lemma_not_empty(n / 10);
    }
}

/// Different skolem functions have different names.
pub proof fn law_skolem_names_differ(a: nat, b: nat)
    requires
        skolem_name(a) == skolem_name(b),
    ensures
        a == b,
{
    reveal_strlit("s");
    assert(skolem_name(a).skip(1) =~= decimal_text(a));
    assert(skolem_name(b).skip(1) =~= decimal_text(b));
    law_numbers_are_written_differently(a, b);
}

/// Whether a constant is a skolem function with a number from `n` on.
pub open spec fn is_skolem_from(module: ModuleId, name: Seq<char>, n: nat) -> bool {
    module == SKOLEM && exists|k: nat| k >= n && name == #[trigger] skolem_name(k)
}

/// Whether no skolem function with a number from `n` on is used in a value.
pub open spec fn is_without_skolems(v: ValueV, n: nat) -> bool
    decreases v,
{
    match v {
        ValueV::Constant(module, name, _, _) => !is_skolem_from(module, name, n),
        ValueV::Application(f, args) => is_without_skolems(*f, n) && are_without_skolems(args, n),
        ValueV::Lambda(_, b) => is_without_skolems(*b, n),
        ValueV::ForAll(_, b) => is_without_skolems(*b, n),
        ValueV::Exists(_, b) => is_without_skolems(*b, n),
        ValueV::Binary(_, l, r) => is_without_skolems(*l, n) && is_without_skolems(*r, n),
        ValueV::Not(x) => is_without_skolems(*x, n),
        ValueV::IfThenElse(c, a, b) => is_without_skolems(*c, n) && is_without_skolems(*a, n)
            && is_without_skolems(*b, n),
        _ => true,
    }
}

/// Whether this holds of each of some values.
pub open spec fn are_without_skolems(vs: Seq<ValueV>, n: nat) -> bool
    decreases vs,
{
    forall|i: int| 0 <= i < vs.len() ==> is_without_skolems(#[trigger] vs[i], n)
}

proof fn lemma_without_more(v: ValueV, n: nat, larger: nat)
    requires
        is_without_skolems(v, n),
        n <= larger,
    ensures
        is_without_skolems(v, larger),
    decreases v,
{
    match v {
        ValueV::Application(f, args) => {
            lemma_without_more(*f, n, larger);
            assert(are_without_skolems(args, n));
            assert forall|i: int| 0 <= i < args.len() implies is_without_skolems(
                #[trigger] args[i],
                larger,
            ) by {
                lemma_without_more(args[i], n, larger);
            }
            assert(are_without_skolems(args, larger));
        },
        ValueV::Lambda(_, b) => lemma_without_more(*b, n, larger),
        ValueV::ForAll(_, b) => lemma_without_more(*b, n, larger),
        ValueV::Exists(_, b) => lemma_without_more(*b, n, larger),
        ValueV::Binary(_, l, r) => {
            lemma_without_more(*l, n, larger);
            lemma_without_more(*r, n, larger);
        },
        ValueV::Not(x) => lemma_without_more(*x, n, larger),
        ValueV::IfThenElse(c, a, b) => {
            lemma_without_more(*c, n, larger);
            lemma_without_more(*a, n, larger);
            lemma_without_more(*b, n, larger);
        },
        _ => {},
    }
}

proof fn lemma_shifted_without(v: ValueV, depth: AtomId, e: Shift, n: nat)
    requires
        is_without_skolems(v, n),
    ensures
        is_without_skolems(edited(v, depth, e), n),
    decreases v,
{
    match v {
        ValueV::Application(f, args) => {
            lemma_shifted_without(*f, depth, e, n);
            assert(are_without_skolems(args, n));
            let changed = edited_all(args, depth, e);
            assert forall|i: int| 0 <= i < args.len() implies is_without_skolems(
                #[trigger] changed[i],
                n,
            ) by {
                lemma_shifted_without(args[i], depth, e, n);
            }
            assert(are_without_skolems(changed, n));
        },
        ValueV::Lambda(ts, b) => lemma_shifted_without(*b, deeper(depth, ts.len()), e, n),
        ValueV::ForAll(ts, b) => lemma_shifted_without(*b, deeper(depth, ts.len()), e, n),
        ValueV::Exists(ts, b) => lemma_shifted_without(*b, deeper(depth, ts.len()), e, n),
        ValueV::Binary(_, l, r) => {
            lemma_shifted_without(*l, depth, e, n);
            lemma_shifted_without(*r, depth, e, n);
        },
        ValueV::Not(x) => lemma_shifted_without(*x, depth, e, n),
        ValueV::IfThenElse(c, a, b) => {
            lemma_shifted_without(*c, depth, e, n);
            lemma_shifted_without(*a, depth, e, n);
            lemma_shifted_without(*b, depth, e, n);
        },
        _ => {},
    }
}

proof fn lemma_bound_without(v: ValueV, depth: AtomId, e: BindV, n: nat)
    requires
        is_without_skolems(v, n),
        are_without_skolems(e.values, n),
    ensures
        is_without_skolems(edited(v, depth, e), n),
    decreases v,
{
    match v {
        ValueV::Variable(i, t) => {
            if e.first <= i && i - e.first < e.values.len() {
                lemma_shifted_without(
                    e.values[i - e.first],
                    0,
                    Shift { index: e.first, increment: depth.wrapping_sub(e.first) },
                    n,
                );
            }
        },
        ValueV::Application(f, args) => {
            lemma_bound_without(*f, depth, e, n);
            assert(are_without_skolems(args, n));
            let changed = edited_all(args, depth, e);
            assert forall|i: int| 0 <= i < args.len() implies is_without_skolems(
                #[trigger] changed[i],
                n,
            ) by {
                lemma_bound_without(args[i], depth, e, n);
            }
            assert(are_without_skolems(changed, n));
        },
        ValueV::Lambda(ts, b) => lemma_bound_without(*b, deeper(depth, ts.len()), e, n),
        ValueV::ForAll(ts, b) => lemma_bound_without(*b, deeper(depth, ts.len()), e, n),
        ValueV::Exists(ts, b) => lemma_bound_without(*b, deeper(depth, ts.len()), e, n),
        ValueV::Binary(_, l, r) => {
            lemma_bound_without(*l, depth, e, n);
            lemma_bound_without(*r, depth, e, n);
        },
        ValueV::Not(x) => lemma_bound_without(*x, depth, e, n),
        ValueV::IfThenElse(c, a, b) => {
            lemma_bound_without(*c, depth, e, n);
            lemma_bound_without(*a, depth, e, n);
            lemma_bound_without(*b, depth, e, n);
        },
        _ => {},
    }
}

/// Whether two interpretations differ at most in skolem functions with numbers from `n` on.
pub open spec fn agree_before(m: ModelV, k: ModelV, n: nat) -> bool {
    &&& m.domain == k.domain
    &&& m.specialized == k.specialized
    &&& m.apply == k.apply
    &&& m.function == k.function
    &&& forall|module: ModuleId, name: Seq<char>, t: TypeV, ps: Seq<Seq<char>>|
        !is_skolem_from(module, name, n) ==> #[trigger] (m.constant)(module, name, t, ps)
            == (k.constant)(module, name, t, ps)
}

/// What a value means does not depend on skolem functions that it does not use.
proof fn lemma_unused(v: ValueV, n: nat, m: ModelV, k: ModelV, st: Seq<int>)
    requires
        is_without_skolems(v, n),
        agree_before(m, k, n),
    ensures
        meaning(v, m, st) == meaning(v, k, st),
    decreases v,
{
    match v {
        ValueV::Constant(module, name, t, ps) => {
            assert((m.constant)(module, name, t, ps) == (k.constant)(module, name, t, ps));
        },
        ValueV::Application(f, args) => {
            lemma_unused(*f, n, m, k, st);
            assert(are_without_skolems(args, n));
            assert forall|i: int| 0 <= i < args.len() implies meaning(#[trigger] args[i], m, st)
                == meaning(args[i], k, st) by {
                lemma_unused(args[i], n, m, k, st);
            }
            assert(meanings(args, m, st) =~= meanings(args, k, st));
        },
        ValueV::Lambda(ts, b) => {
            assert forall|ys: Seq<int>| #[trigger]
                function_of(ts, *b, m, st)(ys) == function_of(ts, *b, k, st)(ys) by {
                assert(are_of(m, ts, ys) == are_of(k, ts, ys));
                lemma_unused(*b, n, m, k, st + ys);
            }
            assert(function_of(ts, *b, m, st) =~= function_of(ts, *b, k, st));
        },
        ValueV::ForAll(ts, b) => {
            assert forall|ys: Seq<int>| #[trigger] are_of(m, ts, ys) == are_of(k, ts, ys)
                && meaning(*b, m, st + ys) == meaning(*b, k, st + ys) by {
                lemma_unused(*b, n, m, k, st + ys);
            }
            assert forall|ys: Seq<int>| #[trigger] are_of(k, ts, ys) == are_of(m, ts, ys) by {}
            assert(meaning(v, m, st) == truth(for_all(ts, *b, m, st)));
            assert(meaning(v, k, st) == truth(for_all(ts, *b, k, st)));
        },
        ValueV::Exists(ts, b) => {
            assert forall|ys: Seq<int>| #[trigger] are_of(m, ts, ys) == are_of(k, ts, ys)
                && meaning(*b, m, st + ys) == meaning(*b, k, st + ys) by {
                lemma_unused(*b, n, m, k, st + ys);
            }
            assert forall|ys: Seq<int>| #[trigger] are_of(k, ts, ys) == are_of(m, ts, ys) by {}
            assert(meaning(v, m, st) == truth(for_some(ts, *b, m, st)));
            assert(meaning(v, k, st) == truth(for_some(ts, *b, k, st)));
        },
        ValueV::Binary(_, l, r) => {
            lemma_unused(*l, n, m, k, st);
            lemma_unused(*r, n, m, k, st);
        },
        ValueV::Not(x) => lemma_unused(*x, n, m, k, st),
        ValueV::IfThenElse(c, a, b) => {
            lemma_unused(*c, n, m, k, st);
            lemma_unused(*a, n, m, k, st);
            lemma_unused(*b, n, m, k, st);
        },
        _ => {},
    }
}

proof fn lemma_agree(a: ModelV, b: ModelV, c: ModelV, n: nat, later: nat)
    requires
        agree_before(a, b, n),
        agree_before(b, c, later),
        n <= later,
    ensures
        agree_before(a, c, n),
{
    assert forall|module: ModuleId, name: Seq<char>, t: TypeV, ps: Seq<Seq<char>>|
        !is_skolem_from(module, name, n) implies #[trigger] (a.constant)(module, name, t, ps)
        == (c.constant)(module, name, t, ps) by {
        assert((a.constant)(module, name, t, ps) == (b.constant)(module, name, t, ps));
        assert((b.constant)(module, name, t, ps) == (c.constant)(module, name, t, ps));
    }
}

proof fn lemma_replacement(n: nat, stack: Seq<TypeV>, quants: Seq<TypeV>)
    requires
        are_proper(quants),
        stack.len() <= AtomId::MAX,
    ensures
        can_replace(replacements(n, stack, quants), quants, stack, stack.len() as int),
        are_without_skolems(replacements(n, stack, quants), n + quants.len()),
{
    let values = replacements(n, stack, quants);
    let args = stack_args(stack);
    assert forall|i: int| 0 <= i < args.len() implies is_scoped(
        #[trigger] args[i],
        stack,
        stack.len() as int,
    ) && is_without_skolems(args[i], n + quants.len()) by {}
    assert(are_scoped(args, stack, stack.len() as int));
    assert(are_without_skolems(args, n + quants.len()));
    assert forall|i: int| 0 <= i < values.len() implies is_scoped(
        #[trigger] values[i],
        stack,
        stack.len() as int,
    ) && value_type(values[i]) == quants[i] && is_without_skolems(
        values[i],
        n + quants.len(),
    ) by {
        let f = skolem((n + i) as nat, functional(stack, quants[i]));
        if is_skolem_from(SKOLEM, skolem_name((n + i) as nat), n + quants.len()) {
            let k = choose|k: nat|
                k >= n + quants.len() && skolem_name((n + i) as nat) == #[trigger] skolem_name(k);
            law_skolem_names_differ((n + i) as nat, k);
        }
        assert(is_without_skolems(f, n + quants.len()));
        assert(values[i] == apply(f, args));
        assert(is_scoped(f, stack, stack.len() as int));
        reveal_with_fuel(value_type, 2);
        if stack.len() > 0 {
            match quants[i] {
                TypeV::Function(more, last) => {
                    assert((stack + more).skip(stack.len() as int) =~= more);
                },
                _ => {},
            }
        }
    }
}

proof fn lemma_stack_args(stack: Seq<TypeV>, m: ModelV, st: Seq<int>)
    requires
        st.len() == stack.len(),
        stack.len() <= AtomId::MAX,
    ensures
        meanings(stack_args(stack), m, st) == st,
{
    let args = stack_args(stack);
    assert forall|i: int| 0 <= i < args.len() implies meaning(#[trigger] args[i], m, st)
        == st[i] by {}
    assert(meanings(args, m, st) =~= st);
}

/// Whether every function of elements of given types is an element of the interpretation.
pub open spec fn has_functions(m: ModelV) -> bool {
    forall|ts: Seq<TypeV>, f: spec_fn(Seq<int>) -> int, xs: Seq<int>|
        ts.len() > 0 && are_of(m, ts, xs) ==> #[trigger] (m.apply)((m.function)(ts, f), xs) == f(
            xs,
        )
}

/// Elements for which a value holds, where there are any.
spec fn witness(quants: Seq<TypeV>, b: ValueV, m: ModelV, st: Seq<int>) -> Seq<int> {
    choose|xs: Seq<int>| #[trigger] are_of(m, quants, xs) && is_true(b, m, st + xs)
}

/// What a skolem function gives.
spec fn witness_function(
    quants: Seq<TypeV>,
    b: ValueV,
    m: ModelV,
    j: int,
) -> spec_fn(Seq<int>) -> int {
    |st: Seq<int>| witness(quants, b, m, st)[j]
}

/// What a skolem function is.
spec fn witness_element(
    stack: Seq<TypeV>,
    quants: Seq<TypeV>,
    b: ValueV,
    m: ModelV,
    j: int,
) -> int {
    if stack.len() == 0 {
        witness(quants, b, m, Seq::empty())[j]
    } else {
        (m.function)(stack, witness_function(quants, b, m, j))
    }
}

/// Whether a constant is the `j`th of the skolem functions from `n` on.
spec fn is_nth(module: ModuleId, name: Seq<char>, n: nat, j: int) -> bool {
    j >= 0 && module == SKOLEM && name == skolem_name((n + j) as nat)
}

/// An interpretation where the skolem functions from `n` on give what is asked for.
spec fn with_witnesses(
    n: nat,
    stack: Seq<TypeV>,
    quants: Seq<TypeV>,
    b: ValueV,
    m: ModelV,
) -> ModelV {
    ModelV {
        constant: |module: ModuleId, name: Seq<char>, t: TypeV, ps: Seq<Seq<char>>|
            if exists|j: int| 0 <= j < quants.len() && #[trigger] is_nth(module, name, n, j) {
                witness_element(
                    stack,
                    quants,
                    b,
                    m,
                    choose|j: int| 0 <= j < quants.len() && #[trigger] is_nth(module, name, n, j),
                )
            } else {
                (m.constant)(module, name, t, ps)
            },
        ..m
    }
}

proof fn lemma_with_witnesses(
    n: nat,
    stack: Seq<TypeV>,
    quants: Seq<TypeV>,
    b: ValueV,
    m: ModelV,
    st: Seq<int>,
)
    requires
        has_functions(m),
        stack.len() <= AtomId::MAX,
        are_of(m, stack, st),
    ensures
        agree_before(m, with_witnesses(n, stack, quants, b, m), n),
        is_true(ValueV::Exists(quants, Box::new(b)), m, st) ==> {
            let xs = meanings(
                replacements(n, stack, quants),
                with_witnesses(n, stack, quants, b, m),
                st,
            );
            are_of(m, quants, xs) && is_true(b, m, st + xs)
        },
{
    let k = with_witnesses(n, stack, quants, b, m);
    lemma_with_witnesses_agree(n, stack, quants, b, m);
    let values = replacements(n, stack, quants);
    let xs = meanings(values, k, st);
    let ws = witness(quants, b, m, st);
    lemma_stack_args(stack, k, st);
    if is_true(ValueV::Exists(quants, Box::new(b)), m, st) {
        lemma_quantified(quants, b, m, st);
        assert(are_of(m, quants, ws) && is_true(b, m, st + ws));
        assert forall|i: int| 0 <= i < quants.len() implies #[trigger] xs[i] == ws[i] by {
            let t = functional(stack, quants[i]);
            let name = skolem_name((n + i) as nat);
            assert(is_nth(SKOLEM, name, n, i));
            let j = choose|j: int| 0 <= j < quants.len() && #[trigger] is_nth(SKOLEM, name, n, j);
            law_skolem_names_differ((n + i) as nat, (n + j) as nat);
            let e = witness_element(stack, quants, b, m, i);
            assert((k.constant)(SKOLEM, name, t, Seq::empty()) == e);
            let f = skolem((n + i) as nat, t);
            assert(meaning(f, k, st) == e);
            assert(values[i] == apply(f, stack_args(stack)));
            if stack.len() == 0 {
                assert(st =~= Seq::<int>::empty());
            } else {
                assert(meaning(values[i], k, st) == (k.apply)(
                    meaning(f, k, st),
                    meanings(stack_args(stack), k, st),
                ));
                assert((m.apply)((m.function)(stack, witness_function(quants, b, m, i)), st)
                    == witness_function(quants, b, m, i)(st));
            }
        }
        assert(xs =~= ws);
    }
}

proof fn lemma_with_witnesses_agree(
    n: nat,
    stack: Seq<TypeV>,
    quants: Seq<TypeV>,
    b: ValueV,
    m: ModelV,
)
    ensures
        agree_before(m, with_witnesses(n, stack, quants, b, m), n),
{
    let k = with_witnesses(n, stack, quants, b, m);
    assert forall|module: ModuleId, name: Seq<char>, t: TypeV, ps: Seq<Seq<char>>|
        !is_skolem_from(module, name, n) implies #[trigger] (m.constant)(module, name, t, ps)
        == (k.constant)(module, name, t, ps) by {
        if exists|j: int| 0 <= j < quants.len() && #[trigger] is_nth(module, name, n, j) {
            let j = choose|j: int| 0 <= j < quants.len() && #[trigger] is_nth(module, name, n, j);
            assert((n + j) as nat >= n && name == skolem_name((n + j) as nat));
        }
    }
}

/// The number of skolem functions does not go down, and the result uses only those that were
/// made.
proof fn lemma_skolemized_without(made: Seq<TypeV>, stack: Seq<TypeV>, v: ValueV, limit: int)
    requires
        is_without_skolems(v, made.len()),
        is_scoped(v, stack, limit),
        limit <= AtomId::MAX,
    ensures
        skolemized(made, stack, v).0.len() >= made.len(),
        is_without_skolems(skolemized(made, stack, v).1, skolemized(made, stack, v).0.len()),
    decreases structure(v),
{
    match v {
        ValueV::ForAll(quants, b) => {
            lemma_skolemized_without(made, stack + quants, *b, limit);
        },
        ValueV::Exists(quants, b) => {
            let size = stack.len() as AtomId;
            let values = replacements(made.len(), stack, quants);
            lemma_replacements(made.len(), stack, quants);
            lemma_bind_keeps_structure(*b, size, size, values);
            lemma_bound_scope(made, stack, quants, *b, limit);
            lemma_skolemized_without(
                made + skolem_types(stack, quants),
                stack,
                bound(*b, size, size, values),
                limit,
            );
        },
        ValueV::Binary(op, l, r) => if op is And || op is Or {
            lemma_skolemized_without(made, stack, *l, limit);
            let after_left = skolemized(made, stack, *l).0;
            lemma_without_more(*r, made.len(), after_left.len());
            lemma_skolemized_without(after_left, stack, *r, limit);
            lemma_without_more(
                skolemized(made, stack, *l).1,
                after_left.len(),
                skolemized(after_left, stack, *r).0.len(),
            );
        },
        _ => {},
    }
}

proof fn lemma_bound_scope(
    made: Seq<TypeV>,
    stack: Seq<TypeV>,
    quants: Seq<TypeV>,
    b: ValueV,
    limit: int,
)
    requires
        is_without_skolems(b, made.len()),
        is_scoped(ValueV::Exists(quants, Box::new(b)), stack, limit),
        limit <= AtomId::MAX,
    ensures
        ({
            let size = stack.len() as AtomId;
            let w = bound(b, size, size, replacements(made.len(), stack, quants));
            &&& is_without_skolems(w, made.len() + quants.len())
            &&& is_scoped(w, stack, limit)
        }),
{
    let size = stack.len() as AtomId;
    let values = replacements(made.len(), stack, quants);
    lemma_replacement(made.len(), stack, quants);
    lemma_without_more(b, made.len(), made.len() + quants.len());
    lemma_bound_without(b, size, BindV { first: size, values }, made.len() + quants.len());
    lemma_binding_scope(made.len(), stack, quants, b, limit);
}

pub proof fn lemma_binding_scope(
    n: nat,
    stack: Seq<TypeV>,
    quants: Seq<TypeV>,
    b: ValueV,
    limit: int,
)
    requires
        is_scoped(ValueV::Exists(quants, Box::new(b)), stack, limit),
        limit <= AtomId::MAX,
    ensures
        ({
            let size = stack.len() as AtomId;
            is_scoped(bound(b, size, size, replacements(n, stack, quants)), stack, limit)
        }),
{
    lemma_replacement(n, stack, quants);
    let none = Seq::<TypeV>::empty();
    assert(stack + quants + none =~= stack + quants);
    assert(stack + none =~= stack);
    law_binding_puts_values_for_variables(
        b,
        stack,
        quants,
        none,
        limit,
        replacements(n, stack, quants),
        stack.len() as int,
        arbitrary(),
        Seq::new(stack.len(), |i: int| 0int),
        Seq::empty(),
    );
}

/// What putting skolem functions for variables means.
proof fn lemma_bound_means(
    n: nat,
    stack: Seq<TypeV>,
    quants: Seq<TypeV>,
    b: ValueV,
    limit: int,
    m: ModelV,
    st: Seq<int>,
)
    requires
        is_scoped(ValueV::Exists(quants, Box::new(b)), stack, limit),
        limit <= AtomId::MAX,
        st.len() == stack.len(),
    ensures
        ({
            let size = stack.len() as AtomId;
            let values = replacements(n, stack, quants);
            meaning(bound(b, size, size, values), m, st) == meaning(
                b,
                m,
                st + meanings(values, m, st),
            )
        }),
{
    let values = replacements(n, stack, quants);
    lemma_replacement(n, stack, quants);
    let none = Seq::<TypeV>::empty();
    assert(stack + quants + none =~= stack + quants);
    law_binding_puts_values_for_variables(
        b,
        stack,
        quants,
        none,
        limit,
        values,
        stack.len() as int,
        m,
        st,
        Seq::empty(),
    );
    assert(st + Seq::<int>::empty() =~= st);
    let xs = meanings(values, m, st);
    assert(st + xs + Seq::<int>::empty() =~= st + xs);
}

/// Where a proposition holds, skolem functions can be found so that it holds without its
/// existential quantifiers: they depend on the variables that are on the stack, and nothing else
/// is interpreted otherwise.
pub proof fn law_skolem_functions_can_be_found(
    made: Seq<TypeV>,
    stack: Seq<TypeV>,
    v: ValueV,
    limit: int,
    m: ModelV,
) -> (k: ModelV)
    requires
        has_functions(m),
        is_scoped(v, stack, limit),
        limit <= AtomId::MAX,
        is_without_skolems(v, made.len()),
    ensures
        agree_before(m, k, made.len()),
        forall|st: Seq<int>| #[trigger]
            are_of(m, stack, st) && is_true(v, m, st) ==> is_true(
                skolemized(made, stack, v).1,
                k,
                st,
            ),
    decreases structure(v),
{
    let w = skolemized(made, stack, v).1;
    match v {
        ValueV::ForAll(quants, b) => {
            let k = law_skolem_functions_can_be_found(made, stack + quants, *b, limit, m);
            let body = skolemized(made, stack + quants, *b).1;
            assert forall|st: Seq<int>| #[trigger]
                are_of(m, stack, st) && is_true(v, m, st) implies is_true(w, k, st) by {
                lemma_quantified(quants, *b, m, st);
                lemma_quantified(quants, body, k, st);
                assert forall|xs: Seq<int>| #[trigger] are_of(k, quants, xs) implies is_true(
                    body,
                    k,
                    st + xs,
                ) by {
                    assert(are_of(m, quants, xs));
                    lemma_join(m, stack, quants, st, xs);
                }
            }
            k
        },
        ValueV::Exists(quants, b) => {
            let size = stack.len() as AtomId;
            let n = made.len();
            let values = replacements(n, stack, quants);
            lemma_replacements(n, stack, quants);
            lemma_bind_keeps_structure(*b, size, size, values);
            lemma_bound_scope(made, stack, quants, *b, limit);
            let k1 = with_witnesses(n, stack, quants, *b, m);
            lemma_with_witnesses_agree(n, stack, quants, *b, m);
            let more = made + skolem_types(stack, quants);
            let body = bound(*b, size, size, values);
            lemma_same_functions(m, k1, n);
            let k2 = law_skolem_functions_can_be_found(more, stack, body, limit, k1);
            lemma_agree(m, k1, k2, n, more.len());
            assert forall|st: Seq<int>| #[trigger]
                are_of(m, stack, st) && is_true(v, m, st) implies is_true(w, k2, st) by {
                lemma_with_witnesses(n, stack, quants, *b, m, st);
                let xs = meanings(values, k1, st);
                lemma_unused(*b, n, m, k1, st + xs);
                lemma_bound_means(n, stack, quants, *b, limit, k1, st);
                assert(are_of(k1, stack, st));
            }
            k2
        },
        ValueV::Binary(op, l, r) => if op is And || op is Or {
            let k1 = law_skolem_functions_can_be_found(made, stack, *l, limit, m);
            let (after_left, left) = skolemized(made, stack, *l);
            lemma_skolemized_without(made, stack, *l, limit);
            lemma_without_more(*r, made.len(), after_left.len());
            lemma_same_functions(m, k1, made.len());
            let k2 = law_skolem_functions_can_be_found(after_left, stack, *r, limit, k1);
            lemma_agree(m, k1, k2, made.len(), after_left.len());
            assert forall|st: Seq<int>| #[trigger]
                are_of(m, stack, st) && is_true(v, m, st) implies is_true(w, k2, st) by {
                assert(are_of(k1, stack, st));
                lemma_unused(left, after_left.len(), k1, k2, st);
                lemma_unused(*r, made.len(), m, k1, st);
            }
            k2
        } else {
            m
        },
        _ => m,
    }
}

proof fn lemma_same_functions(m: ModelV, k: ModelV, n: nat)
    requires
        has_functions(m),
        agree_before(m, k, n),
    ensures
        has_functions(k),
{
    assert forall|ts: Seq<TypeV>, f: spec_fn(Seq<int>) -> int, xs: Seq<int>|
        ts.len() > 0 && are_of(k, ts, xs) implies #[trigger] (k.apply)((k.function)(ts, f), xs)
        == f(xs) by {
        assert(are_of(m, ts, xs));
        assert((m.apply)((m.function)(ts, f), xs) == f(xs));
    }
}

/// Whether skolem functions are elements of their types, and functions give elements of the types
/// that they say.
pub open spec fn is_typed(m: ModelV) -> bool {
    &&& forall|n: nat, t: TypeV|
        (m.domain)(t, #[trigger] (m.constant)(SKOLEM, skolem_name(n), t, Seq::empty()))
    &&& forall|args: Seq<TypeV>, ret: TypeV, f: int, xs: Seq<int>|
        #![trigger
            (m.domain)(TypeV::Function(args, Box::new(ret)), f),
            are_of(m, args.take(xs.len() as int), xs)]
        xs.len() <= args.len() && (m.domain)(TypeV::Function(args, Box::new(ret)), f) && are_of(
            m,
            args.take(xs.len() as int),
            xs,
        ) ==> (m.domain)(applied_type(args, ret, xs.len() as int), (m.apply)(f, xs))
}

/// Where a proposition holds without its existential quantifiers, it holds with them: the skolem
/// functions give what is asked for.
pub proof fn law_skolem_functions_are_witnesses(
    made: Seq<TypeV>,
    stack: Seq<TypeV>,
    v: ValueV,
    limit: int,
    m: ModelV,
    st: Seq<int>,
)
    requires
        is_typed(m),
        is_scoped(v, stack, limit),
        limit <= AtomId::MAX,
        are_of(m, stack, st),
        is_true(skolemized(made, stack, v).1, m, st),
    ensures
        is_true(v, m, st),
    decreases structure(v),
{
    match v {
        ValueV::ForAll(quants, b) => {
            let body = skolemized(made, stack + quants, *b).1;
            lemma_quantified(quants, *b, m, st);
            lemma_quantified(quants, body, m, st);
            assert forall|xs: Seq<int>| #[trigger] are_of(m, quants, xs) implies is_true(
                *b,
                m,
                st + xs,
            ) by {
                lemma_join(m, stack, quants, st, xs);
                law_skolem_functions_are_witnesses(made, stack + quants, *b, limit, m, st + xs);
            }
        },
        ValueV::Exists(quants, b) => {
            let size = stack.len() as AtomId;
            let n = made.len();
            let values = replacements(n, stack, quants);
            lemma_replacements(n, stack, quants);
            lemma_bind_keeps_structure(*b, size, size, values);
            lemma_binding_scope(n, stack, quants, *b, limit);
            law_skolem_functions_are_witnesses(
                made + skolem_types(stack, quants),
                stack,
                bound(*b, size, size, values),
                limit,
                m,
                st,
            );
            lemma_bound_means(n, stack, quants, *b, limit, m, st);
            lemma_stack_args(stack, m, st);
            let xs = meanings(values, m, st);
            assert forall|i: int| 0 <= i < quants.len() implies (m.domain)(
                #[trigger] quants[i],
                #[trigger] xs[i],
            ) by {
                let t = functional(stack, quants[i]);
                let f = skolem((n + i) as nat, t);
                assert(values[i] == apply(f, stack_args(stack)));
                assert(meaning(f, m, st) == (m.constant)(
                    SKOLEM,
                    skolem_name((n + i) as nat),
                    t,
                    Seq::empty(),
                ));
                assert((m.domain)(t, meaning(f, m, st)));
                if stack.len() > 0 {
                    assert(xs[i] == (m.apply)(meaning(f, m, st), st));
                    match t {
                        TypeV::Function(args, ret) => {
                            assert(args.take(st.len() as int) =~= stack);
                            assert(are_of(m, args.take(st.len() as int), st));
                            match quants[i] {
                                TypeV::Function(more, last) => {
                                    assert((stack + more).skip(stack.len() as int) =~= more);
                                },
                                _ => {},
                            }
                            assert(applied_type(args, *ret, st.len() as int) == quants[i]);
                            let g = TypeV::Function(args, Box::new(*ret));
                            assert((m.domain)(g, meaning(f, m, st)));
                        },
                        _ => {},
                    }
                }
            }
            assert(are_of(m, quants, xs));
            lemma_quantified(quants, *b, m, st);
        },
        ValueV::Binary(op, l, r) => if op is And || op is Or {
            let (after_left, left) = skolemized(made, stack, *l);
            if is_true(left, m, st) {
                law_skolem_functions_are_witnesses(made, stack, *l, limit, m, st);
            }
            if is_true(skolemized(after_left, stack, *r).1, m, st) {
                law_skolem_functions_are_witnesses(after_left, stack, *r, limit, m, st);
            }
        },
        _ => {},
    }
}

} // verus!
