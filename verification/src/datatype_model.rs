//! What the claims that define structures and inductive types say of an interpretation.

use vstd::prelude::*;

use crate::acorn_type::TypeV;
use crate::acorn_value::{apply, exists_of, forall_of, value_type, BinaryOp, ValueV};
use crate::datatypes::{
    binary, canonical_form, conditions, holds_for, hypothesis_type, induction, induction_case,
    injective, made_by, member_equation, new_equation, no_confusion, reduced, vars,
};
use crate::model::{are_of, is_true, lemma_quantified, meaning, meanings, ModelV};

verus! {

/// Whether a value is a constant, so that it means the same at every depth.
pub open spec fn is_constant(f: ValueV) -> bool {
    f is Constant || f is Specialized
}

/// What a constructor makes of arguments. One that takes none is itself what it makes.
pub open spec fn made(m: ModelV, f: ValueV, xs: Seq<int>) -> int {
    if xs.len() == 0 {
        meaning(f, m, Seq::empty())
    } else {
        (m.apply)(meaning(f, m, Seq::empty()), xs)
    }
}

/// Whether two elements of a type are the same. Propositions are where both hold or neither does.
pub open spec fn same_element(t: TypeV, a: int, b: int) -> bool {
    if t is Bool {
        (a == 1) == (b == 1)
    } else {
        a == b
    }
}

/// A chain of conjunctions holds where all its parts do.
pub proof fn law_conjunctions_need_all(parts: Seq<ValueV>, m: ModelV, st: Seq<int>)
    ensures
        is_true(reduced(BinaryOp::And, parts), m, st) == (forall|i: int|
            0 <= i < parts.len() ==> is_true(#[trigger] parts[i], m, st)),
    decreases parts.len(),
{
    if parts.len() > 1 {
        let n = parts.len() - 1;
        let before = parts.drop_last();
        law_conjunctions_need_all(before, m, st);
        assert forall|i: int| 0 <= i < n implies before[i] == #[trigger] parts[i] by {}
        let all = forall|i: int| 0 <= i < parts.len() ==> is_true(#[trigger] parts[i], m, st);
        if all {
            assert forall|i: int| 0 <= i < before.len() implies is_true(
                #[trigger] before[i],
                m,
                st,
            ) by {
                assert(is_true(parts[i], m, st));
            }
            assert(is_true(parts[n], m, st));
        }
        if is_true(reduced(BinaryOp::And, parts), m, st) {
            assert forall|i: int| 0 <= i < parts.len() implies is_true(
                #[trigger] parts[i],
                m,
                st,
            ) by {
                if i < n {
                    assert(is_true(before[i], m, st));
                }
            }
        }
    }
}

/// A chain of disjunctions holds where one of its parts does.
pub proof fn law_disjunctions_need_one(parts: Seq<ValueV>, m: ModelV, st: Seq<int>)
    requires
        parts.len() > 0,
    ensures
        is_true(reduced(BinaryOp::Or, parts), m, st) == (exists|i: int|
            0 <= i < parts.len() && is_true(#[trigger] parts[i], m, st)),
    decreases parts.len(),
{
    if parts.len() == 1 {
        if is_true(parts[0], m, st) {
            assert(exists|i: int| 0 <= i < parts.len() && is_true(#[trigger] parts[i], m, st));
        }
    } else {
        let n = parts.len() - 1;
        let before = parts.drop_last();
        law_disjunctions_need_one(before, m, st);
        if exists|i: int| 0 <= i < before.len() && is_true(#[trigger] before[i], m, st) {
            let i = choose|i: int| 0 <= i < before.len() && is_true(#[trigger] before[i], m, st);
            assert(is_true(parts[i], m, st));
        }
        if is_true(parts[n], m, st) {
            assert(exists|i: int| 0 <= i < parts.len() && is_true(#[trigger] parts[i], m, st));
        }
        if exists|i: int| 0 <= i < parts.len() && is_true(#[trigger] parts[i], m, st) {
            let i = choose|i: int| 0 <= i < parts.len() && is_true(#[trigger] parts[i], m, st);
            if i < n {
                assert(is_true(before[i], m, st));
            }
        }
    }
}

proof fn lemma_vars(ts: Seq<TypeV>, start: nat, m: ModelV, st: Seq<int>)
    requires
        start + ts.len() <= st.len(),
        start + ts.len() <= 65536,
    ensures
        meanings(vars(ts, start), m, st) == st.subrange(start as int, (start + ts.len()) as int),
{
    let list = vars(ts, start);
    let part = st.subrange(start as int, (start + ts.len()) as int);
    assert forall|i: int| 0 <= i < ts.len() implies meanings(list, m, st)[i] == part[i] by {
        assert(list[i] == ValueV::Variable((start + i) as u16, ts[i]));
        assert(meaning(list[i], m, st) == st[start + i]);
    }
    assert(meanings(list, m, st) =~= part);
}

proof fn lemma_made(f: ValueV, ts: Seq<TypeV>, start: nat, m: ModelV, st: Seq<int>)
    requires
        is_constant(f),
        start + ts.len() <= st.len(),
        start + ts.len() <= 65536,
    ensures
        meaning(apply(f, vars(ts, start)), m, st) == made(
            m,
            f,
            st.subrange(start as int, (start + ts.len()) as int),
        ),
{
    lemma_vars(ts, start, m, st);
    assert(meaning(f, m, st) == meaning(f, m, Seq::empty()));
    if ts.len() > 0 {
        let v = apply(f, vars(ts, start));
        assert(v == ValueV::Application(Box::new(f), vars(ts, start)));
        reveal_with_fuel(meaning, 2);
        assert(meaning(v, m, st) == (m.apply)(
            meaning(f, m, st),
            meanings(vars(ts, start), m, st),
        ));
    }
}

proof fn lemma_for_all(ts: Seq<TypeV>, b: ValueV, m: ModelV, st: Seq<int>)
    ensures
        is_true(forall_of(ts, b), m, st) == (forall|xs: Seq<int>| #[trigger]
            are_of(m, ts, xs) ==> is_true(b, m, st + xs)),
        is_true(exists_of(ts, b), m, st) == (exists|xs: Seq<int>| #[trigger]
            are_of(m, ts, xs) && is_true(b, m, st + xs)),
{
    lemma_quantified(ts, b, m, st);
    if ts.len() == 0 {
        let none = Seq::<int>::empty();
        assert(are_of(m, ts, none));
        assert(st + none =~= st);
        assert forall|xs: Seq<int>| #[trigger] are_of(m, ts, xs) implies xs == none by {
            assert(xs =~= none);
        }
    }
}

/// Whether a hypothesis holds for an element.
pub open spec fn fulfils(m: ModelV, h: int, x: int) -> bool {
    (m.apply)(h, seq![x]) == 1
}

/// Whether a hypothesis holds for what a constructor makes, wherever it holds for those arguments
/// that are of the inductive type themselves.
pub open spec fn case_holds(m: ModelV, t: TypeV, h: int, f: ValueV, ts: Seq<TypeV>) -> bool {
    forall|xs: Seq<int>| #[trigger]
        are_of(m, ts, xs) && (forall|j: int|
            0 <= j < ts.len() && ts[j] == t ==> fulfils(m, h, #[trigger] xs[j])) ==> fulfils(
            m,
            h,
            made(m, f, xs),
        )
}

/// Whether a hypothesis holds for all elements of a type.
pub open spec fn holds_everywhere(m: ModelV, t: TypeV, h: int) -> bool {
    forall|x: int| #[trigger] (m.domain)(t, x) ==> fulfils(m, h, x)
}

proof fn lemma_holds_for(hyp: TypeV, v: ValueV, m: ModelV, st: Seq<int>)
    requires
        st.len() > 0,
    ensures
        is_true(holds_for(hyp, v), m, st) == fulfils(m, st[0], meaning(v, m, st)),
{
    reveal_with_fuel(meaning, 2);
    let args = seq![v];
    assert(meanings(args, m, st) =~= seq![meaning(v, m, st)]);
    assert(meaning(ValueV::Variable(0, hyp), m, st) == st[0]);
}

proof fn lemma_conditions(
    t: TypeV,
    hyp: TypeV,
    ts: Seq<TypeV>,
    n: nat,
    m: ModelV,
    h: int,
    xs: Seq<int>,
)
    requires
        n <= ts.len() == xs.len(),
        ts.len() < 65536,
    ensures
        ({
            let conds = conditions(t, hyp, ts, n);
            (forall|i: int|
                0 <= i < conds.len() ==> is_true(#[trigger] conds[i], m, seq![h] + xs)) == (forall|
                j: int,
            |
                0 <= j < n && ts[j] == t ==> fulfils(m, h, #[trigger] xs[j]))
        }),
        conditions(t, hyp, ts, n).len() == 0 ==> forall|j: int| 0 <= j < n ==> #[trigger] ts[j] != t,
    decreases n,
{
    if n > 0 {
        let k = n - 1;
        lemma_conditions(t, hyp, ts, k as nat, m, h, xs);
        let st = seq![h] + xs;
        let before = conditions(t, hyp, ts, k as nat);
        let conds = conditions(t, hyp, ts, n);
        if ts[k] == t {
            let v = vars(ts, 1)[k];
            assert(v == ValueV::Variable((1 + k) as u16, ts[k]));
            lemma_holds_for(hyp, v, m, st);
            assert(meaning(v, m, st) == xs[k]);
            let last = holds_for(hyp, v);
            assert(conds == before.push(last));
            let all_conds = forall|i: int|
                0 <= i < conds.len() ==> is_true(#[trigger] conds[i], m, st);
            let all = forall|j: int| 0 <= j < n && ts[j] == t ==> fulfils(m, h, #[trigger] xs[j]);
            if all_conds {
                assert(is_true(conds[before.len() as int], m, st));
                assert forall|i: int| 0 <= i < before.len() implies is_true(
                    #[trigger] before[i],
                    m,
                    st,
                ) by {
                    assert(is_true(conds[i], m, st));
                }
            }
            if all {
                assert(fulfils(m, h, xs[k]));
                assert forall|i: int| 0 <= i < conds.len() implies is_true(
                    #[trigger] conds[i],
                    m,
                    st,
                ) by {
                    if i < before.len() {
                        assert(is_true(before[i], m, st));
                    }
                }
            }
        }
    }
}

proof fn lemma_case(t: TypeV, f: ValueV, ts: Seq<TypeV>, m: ModelV, h: int)
    requires
        is_constant(f),
        ts.len() < 65536,
    ensures
        is_true(induction_case(t, hypothesis_type(t), f, ts), m, seq![h]) == case_holds(
            m,
            t,
            h,
            f,
            ts,
        ),
{
    let hyp = hypothesis_type(t);
    let claim = holds_for(hyp, apply(f, vars(ts, 1)));
    let conds = conditions(t, hyp, ts, ts.len());
    let body = if conds.len() == 0 {
        claim
    } else {
        binary(BinaryOp::Implies, reduced(BinaryOp::And, conds), claim)
    };
    lemma_for_all(ts, body, m, seq![h]);
    assert forall|xs: Seq<int>| #[trigger] are_of(m, ts, xs) implies is_true(
        body,
        m,
        seq![h] + xs,
    ) == ((forall|j: int| 0 <= j < ts.len() && ts[j] == t ==> fulfils(m, h, #[trigger] xs[j]))
        ==> fulfils(m, h, made(m, f, xs))) by {
        let st = seq![h] + xs;
        lemma_made(f, ts, 1, m, st);
        assert(st.subrange(1, (1 + ts.len()) as int) =~= xs);
        lemma_holds_for(hyp, apply(f, vars(ts, 1)), m, st);
        lemma_conditions(t, hyp, ts, ts.len(), m, h, xs);
        law_conjunctions_need_all(conds, m, st);
    }
}

/// The principle of induction says of a hypothesis: where the case of every constructor holds, the
/// hypothesis holds for all. Where one case fails, it says nothing.
pub proof fn law_induction_goes_by_cases(
    t: TypeV,
    fns: Seq<ValueV>,
    arg_types: Seq<Seq<TypeV>>,
    m: ModelV,
    h: int,
)
    requires
        fns.len() == arg_types.len(),
        forall|i: int| 0 <= i < fns.len() ==> is_constant(#[trigger] fns[i]),
        forall|i: int| 0 <= i < fns.len() ==> (#[trigger] arg_types[i]).len() < 65536,
    ensures
        is_true(induction(t, fns, arg_types), m, seq![h]) == ((forall|i: int|
            0 <= i < fns.len() ==> case_holds(m, t, h, #[trigger] fns[i], arg_types[i]))
            ==> holds_everywhere(m, t, h)),
{
    let hyp = hypothesis_type(t);
    let cases = Seq::new(fns.len(), |i: int| induction_case(t, hyp, fns[i], arg_types[i]));
    let st = seq![h];
    law_conjunctions_need_all(cases, m, st);
    assert forall|i: int| 0 <= i < fns.len() implies is_true(#[trigger] cases[i], m, st)
        == case_holds(m, t, h, fns[i], arg_types[i]) by {
        assert(is_constant(fns[i]));
        assert(arg_types[i].len() < 65536);
        lemma_case(t, fns[i], arg_types[i], m, h);
    }
    let all_true = forall|i: int| 0 <= i < cases.len() ==> is_true(#[trigger] cases[i], m, st);
    let all_hold = forall|i: int|
        0 <= i < fns.len() ==> case_holds(m, t, h, #[trigger] fns[i], arg_types[i]);
    if all_true {
        assert forall|i: int| 0 <= i < fns.len() implies case_holds(
            m,
            t,
            h,
            #[trigger] fns[i],
            arg_types[i],
        ) by {
            assert(is_true(cases[i], m, st));
        }
    }
    if all_hold {
        assert forall|i: int| 0 <= i < cases.len() implies is_true(#[trigger] cases[i], m, st) by {
            assert(case_holds(m, t, h, fns[i], arg_types[i]));
        }
    }
    let one = seq![t];
    let body = holds_for(hyp, ValueV::Variable(1, t));
    lemma_quantified(one, body, m, st);
    assert forall|xs: Seq<int>| #[trigger] are_of(m, one, xs) implies is_true(body, m, st + xs)
        == fulfils(m, h, xs[0]) by {
        lemma_holds_for(hyp, ValueV::Variable(1, t), m, st + xs);
        assert(meaning(ValueV::Variable(1, t), m, st + xs) == xs[0]);
    }
    let goal = ValueV::ForAll(one, Box::new(body));
    assert(is_true(goal, m, st) == holds_everywhere(m, t, h)) by {
        if is_true(goal, m, st) {
            assert forall|x: int| #[trigger] (m.domain)(t, x) implies fulfils(m, h, x) by {
                let xs = seq![x];
                assert(one[0] == t);
                assert(are_of(m, one, xs));
                assert(is_true(body, m, st + xs));
            }
        }
        if holds_everywhere(m, t, h) {
            assert forall|xs: Seq<int>| #[trigger] are_of(m, one, xs) implies is_true(
                body,
                m,
                st + xs,
            ) by {
                assert((m.domain)(one[0], xs[0]));
            }
        }
    }
}

/// Whether an element is made by a constructor, of arguments of which those that are of the
/// inductive type themselves have a smaller rank.
pub open spec fn is_built(
    m: ModelV,
    t: TypeV,
    fns: Seq<ValueV>,
    arg_types: Seq<Seq<TypeV>>,
    rank: spec_fn(int) -> nat,
    x: int,
) -> bool {
    exists|i: int, xs: Seq<int>|
        #![trigger are_of(m, arg_types[i], xs)]
        0 <= i < fns.len() && are_of(m, arg_types[i], xs) && x == made(m, fns[i], xs) && forall|
            j: int,
        |
            0 <= j < xs.len() && arg_types[i][j] == t ==> rank(#[trigger] xs[j]) < rank(x)
}

proof fn lemma_built(
    m: ModelV,
    t: TypeV,
    fns: Seq<ValueV>,
    arg_types: Seq<Seq<TypeV>>,
    rank: spec_fn(int) -> nat,
    h: int,
    x: int,
)
    requires
        fns.len() == arg_types.len(),
        forall|y: int| #[trigger] (m.domain)(t, y) ==> is_built(m, t, fns, arg_types, rank, y),
        forall|i: int|
            0 <= i < fns.len() ==> case_holds(m, t, h, #[trigger] fns[i], arg_types[i]),
        (m.domain)(t, x),
    ensures
        fulfils(m, h, x),
    decreases rank(x),
{
    assert(is_built(m, t, fns, arg_types, rank, x));
    let (i, xs) = choose|i: int, xs: Seq<int>|
        #![trigger are_of(m, arg_types[i], xs)]
        0 <= i < fns.len() && are_of(m, arg_types[i], xs) && x == made(m, fns[i], xs) && forall|
            j: int,
        |
            0 <= j < xs.len() && arg_types[i][j] == t ==> rank(#[trigger] xs[j]) < rank(x);
    let ts = arg_types[i];
    assert(case_holds(m, t, h, fns[i], ts));
    assert forall|j: int| 0 <= j < ts.len() && ts[j] == t implies fulfils(
        m,
        h,
        #[trigger] xs[j],
    ) by {
        assert((m.domain)(ts[j], xs[j]));
        lemma_built(m, t, fns, arg_types, rank, h, xs[j]);
    }
}

/// The principle of induction holds, for every hypothesis, where the elements of the inductive type
/// are what the constructors make in finitely many steps.
pub proof fn law_induction_holds_of_finite_terms(
    t: TypeV,
    fns: Seq<ValueV>,
    arg_types: Seq<Seq<TypeV>>,
    m: ModelV,
    rank: spec_fn(int) -> nat,
)
    requires
        fns.len() == arg_types.len(),
        forall|i: int| 0 <= i < fns.len() ==> is_constant(#[trigger] fns[i]),
        forall|i: int| 0 <= i < fns.len() ==> (#[trigger] arg_types[i]).len() < 65536,
        forall|x: int| #[trigger] (m.domain)(t, x) ==> is_built(m, t, fns, arg_types, rank, x),
    ensures
        forall|h: int| is_true(induction(t, fns, arg_types), m, #[trigger] seq![h]),
        is_true(
            ValueV::ForAll(
                seq![hypothesis_type(t)],
                Box::new(induction(t, fns, arg_types)),
            ),
            m,
            Seq::empty(),
        ),
{
    let claim = induction(t, fns, arg_types);
    assert forall|h: int| is_true(claim, m, #[trigger] seq![h]) by {
        law_induction_goes_by_cases(t, fns, arg_types, m, h);
        if forall|i: int|
            0 <= i < fns.len() ==> case_holds(m, t, h, #[trigger] fns[i], arg_types[i]) {
            assert forall|x: int| #[trigger] (m.domain)(t, x) implies fulfils(m, h, x) by {
                lemma_built(m, t, fns, arg_types, rank, h, x);
            }
        }
    }
    let one = seq![hypothesis_type(t)];
    let none = Seq::<int>::empty();
    lemma_quantified(one, claim, m, none);
    assert forall|xs: Seq<int>| #[trigger] are_of(m, one, xs) implies is_true(
        claim,
        m,
        none + xs,
    ) by {
        assert(none + xs =~= seq![xs[0]]);
    }
}

proof fn lemma_split(m: ModelV, ts: Seq<TypeV>, us: Seq<TypeV>, xs: Seq<int>, ys: Seq<int>)
    requires
        xs.len() == ts.len(),
        ys.len() == us.len(),
    ensures
        are_of(m, ts + us, xs + ys) == (are_of(m, ts, xs) && are_of(m, us, ys)),
{
    let all = ts + us;
    let zs = xs + ys;
    if are_of(m, ts, xs) && are_of(m, us, ys) {
        assert forall|i: int| 0 <= i < all.len() implies (m.domain)(
            #[trigger] all[i],
            #[trigger] zs[i],
        ) by {
            if i < ts.len() {
                assert((m.domain)(ts[i], xs[i]));
            } else {
                assert((m.domain)(us[i - ts.len()], ys[i - ts.len()]));
            }
        }
    }
    if are_of(m, all, zs) {
        assert forall|i: int| 0 <= i < ts.len() implies (m.domain)(
            #[trigger] ts[i],
            #[trigger] xs[i],
        ) by {
            assert((m.domain)(all[i], zs[i]));
        }
        assert forall|i: int| 0 <= i < us.len() implies (m.domain)(
            #[trigger] us[i],
            #[trigger] ys[i],
        ) by {
            assert((m.domain)(all[ts.len() + i], zs[ts.len() + i]));
        }
    }
}

/// That constructors are not confused says that one never makes what the other makes.
pub proof fn law_no_confusion_tells_constructors_apart(
    f: ValueV,
    ts: Seq<TypeV>,
    g: ValueV,
    us: Seq<TypeV>,
    m: ModelV,
)
    requires
        is_constant(f),
        is_constant(g),
        ts.len() + us.len() <= 65536,
        !(value_type(apply(f, vars(ts, 0))) is Bool),
    ensures
        is_true(no_confusion(f, ts, g, us), m, Seq::empty()) == (forall|xs: Seq<int>, ys: Seq<int>|
            #![trigger are_of(m, ts, xs), are_of(m, us, ys)]
            are_of(m, ts, xs) && are_of(m, us, ys) ==> made(m, f, xs) != made(m, g, ys)),
{
    let none = Seq::<int>::empty();
    let n = ts.len();
    let l = apply(f, vars(ts, 0));
    let r = apply(g, vars(us, n));
    let body = binary(BinaryOp::NotEquals, l, r);
    lemma_for_all(ts + us, body, m, none);
    assert forall|xs: Seq<int>, ys: Seq<int>|
        #![trigger are_of(m, ts, xs), are_of(m, us, ys)]
        are_of(m, ts, xs) && are_of(m, us, ys) implies is_true(body, m, none + (xs + ys)) == (made(
        m,
        f,
        xs,
    ) != made(m, g, ys)) by {
        let st = none + (xs + ys);
        lemma_made(f, ts, 0, m, st);
        lemma_made(g, us, n, m, st);
        assert(st.subrange(0, n as int) =~= xs);
        assert(st.subrange(n as int, (n + us.len()) as int) =~= ys);
    }
    let claim = is_true(no_confusion(f, ts, g, us), m, none);
    if claim {
        assert forall|xs: Seq<int>, ys: Seq<int>|
            #![trigger are_of(m, ts, xs), are_of(m, us, ys)]
            are_of(m, ts, xs) && are_of(m, us, ys) implies made(m, f, xs) != made(m, g, ys) by {
            lemma_split(m, ts, us, xs, ys);
            assert(are_of(m, ts + us, xs + ys));
        }
    }
    if forall|xs: Seq<int>, ys: Seq<int>|
        #![trigger are_of(m, ts, xs), are_of(m, us, ys)]
        are_of(m, ts, xs) && are_of(m, us, ys) ==> made(m, f, xs) != made(m, g, ys) {
        assert forall|zs: Seq<int>| #[trigger] are_of(m, ts + us, zs) implies is_true(
            body,
            m,
            none + zs,
        ) by {
            let xs = zs.take(n as int);
            let ys = zs.skip(n as int);
            assert(xs + ys =~= zs);
            lemma_split(m, ts, us, xs, ys);
            assert(are_of(m, ts, xs) && are_of(m, us, ys));
        }
    }
}

/// That a constructor is injective says that it makes the same only of the same arguments.
#[verifier::spinoff_prover]
#[verifier::rlimit(60)]
pub proof fn law_injective_constructors_keep_their_arguments(
    f: ValueV,
    ts: Seq<TypeV>,
    m: ModelV,
)
    requires
        is_constant(f),
        ts.len() <= 32768,
        !(value_type(apply(f, vars(ts, 0))) is Bool),
    ensures
        is_true(injective(f, ts), m, Seq::empty()) == (forall|xs: Seq<int>, ys: Seq<int>|
            #![trigger are_of(m, ts, xs), are_of(m, ts, ys)]
            are_of(m, ts, xs) && are_of(m, ts, ys) && made(m, f, xs) == made(m, f, ys) ==> forall|
                i: int,
            |
                0 <= i < ts.len() ==> same_element(#[trigger] ts[i], xs[i], ys[i])),
{
    let none = Seq::<int>::empty();
    let n = ts.len();
    let l = apply(f, vars(ts, 0));
    let r = apply(f, vars(ts, n));
    let parts = Seq::new(
        ts.len(),
        |i: int| binary(BinaryOp::Equals, vars(ts, 0)[i], vars(ts, ts.len())[i]),
    );
    let body = binary(
        BinaryOp::Implies,
        binary(BinaryOp::Equals, l, r),
        reduced(BinaryOp::And, parts),
    );
    lemma_for_all(ts + ts, body, m, none);
    assert forall|xs: Seq<int>, ys: Seq<int>|
        #![trigger are_of(m, ts, xs), are_of(m, ts, ys)]
        are_of(m, ts, xs) && are_of(m, ts, ys) implies is_true(body, m, none + (xs + ys)) == (made(
        m,
        f,
        xs,
    ) == made(m, f, ys) ==> forall|i: int|
        0 <= i < ts.len() ==> same_element(#[trigger] ts[i], xs[i], ys[i])) by {
        let st = none + (xs + ys);
        lemma_made(f, ts, 0, m, st);
        lemma_made(f, ts, n, m, st);
        assert(st.subrange(0, n as int) =~= xs);
        assert(st.subrange(n as int, (n + n) as int) =~= ys);
        law_conjunctions_need_all(parts, m, st);
        assert forall|i: int| 0 <= i < n implies is_true(#[trigger] parts[i], m, st)
            == same_element(ts[i], xs[i], ys[i]) by {
            let a = vars(ts, 0)[i];
            let b = vars(ts, n)[i];
            assert(a == ValueV::Variable(i as u16, ts[i]));
            assert(b == ValueV::Variable((n + i) as u16, ts[i]));
            assert(meaning(a, m, st) == xs[i]);
            assert(meaning(b, m, st) == ys[i]);
            reveal_with_fuel(meaning, 2);
        }
        let all_parts = forall|i: int| 0 <= i < parts.len() ==> is_true(#[trigger] parts[i], m, st);
        let all_same = forall|i: int|
            0 <= i < ts.len() ==> same_element(#[trigger] ts[i], xs[i], ys[i]);
        if all_parts {
            assert forall|i: int| 0 <= i < ts.len() implies same_element(
                #[trigger] ts[i],
                xs[i],
                ys[i],
            ) by {
                assert(is_true(parts[i], m, st));
            }
        }
        if all_same {
            assert forall|i: int| 0 <= i < parts.len() implies is_true(
                #[trigger] parts[i],
                m,
                st,
            ) by {
                assert(same_element(ts[i], xs[i], ys[i]));
            }
        }
        reveal_with_fuel(meaning, 2);
    }
    if is_true(injective(f, ts), m, none) {
        assert forall|xs: Seq<int>, ys: Seq<int>|
            #![trigger are_of(m, ts, xs), are_of(m, ts, ys)]
            are_of(m, ts, xs) && are_of(m, ts, ys) && made(m, f, xs) == made(m, f, ys) implies forall|
            i: int,
        | 0 <= i < ts.len() ==> same_element(#[trigger] ts[i], xs[i], ys[i]) by {
            lemma_split(m, ts, ts, xs, ys);
            assert(are_of(m, ts + ts, xs + ys));
        }
    }
    if forall|xs: Seq<int>, ys: Seq<int>|
        #![trigger are_of(m, ts, xs), are_of(m, ts, ys)]
        are_of(m, ts, xs) && are_of(m, ts, ys) && made(m, f, xs) == made(m, f, ys) ==> forall|
            i: int,
        |
            0 <= i < ts.len() ==> same_element(#[trigger] ts[i], xs[i], ys[i]) {
        assert forall|zs: Seq<int>| #[trigger] are_of(m, ts + ts, zs) implies is_true(
            body,
            m,
            none + zs,
        ) by {
            let xs = zs.take(n as int);
            let ys = zs.skip(n as int);
            assert(xs + ys =~= zs);
            lemma_split(m, ts, ts, xs, ys);
            assert(are_of(m, ts, xs) && are_of(m, ts, ys));
        }
    }
}

proof fn lemma_made_by(t: TypeV, f: ValueV, ts: Seq<TypeV>, m: ModelV, x: int)
    requires
        is_constant(f),
        ts.len() < 65536,
        !(t is Bool),
    ensures
        is_true(made_by(t, f, ts), m, seq![x]) == (exists|xs: Seq<int>| #[trigger]
            are_of(m, ts, xs) && x == made(m, f, xs)),
{
    let st = seq![x];
    let v = ValueV::Variable(0, t);
    let body = binary(BinaryOp::Equals, v, apply(f, vars(ts, 1)));
    lemma_for_all(ts, body, m, st);
    assert forall|xs: Seq<int>| #[trigger] are_of(m, ts, xs) implies is_true(body, m, st + xs) == (x
        == made(m, f, xs)) by {
        lemma_made(f, ts, 1, m, st + xs);
        assert((st + xs).subrange(1, (1 + ts.len()) as int) =~= xs);
        assert(meaning(v, m, st + xs) == x);
        reveal_with_fuel(meaning, 2);
    }
}

/// The canonical form says that each element of the type is made by one of the constructors.
pub proof fn law_canonical_forms_are_made_by_constructors(
    t: TypeV,
    fns: Seq<ValueV>,
    arg_types: Seq<Seq<TypeV>>,
    m: ModelV,
)
    requires
        0 < fns.len() == arg_types.len(),
        forall|i: int| 0 <= i < fns.len() ==> is_constant(#[trigger] fns[i]),
        forall|i: int| 0 <= i < fns.len() ==> (#[trigger] arg_types[i]).len() < 65536,
        !(t is Bool),
    ensures
        is_true(canonical_form(t, fns, arg_types), m, Seq::empty()) == (forall|x: int| #[trigger]
            (m.domain)(t, x) ==> exists|i: int, xs: Seq<int>|
                #![trigger are_of(m, arg_types[i], xs)]
                0 <= i < fns.len() && are_of(m, arg_types[i], xs) && x == made(m, fns[i], xs)),
{
    let none = Seq::<int>::empty();
    let one = seq![t];
    let parts = Seq::new(fns.len(), |i: int| made_by(t, fns[i], arg_types[i]));
    let body = reduced(BinaryOp::Or, parts);
    lemma_quantified(one, body, m, none);
    assert forall|x: int|
        is_true(body, m, #[trigger] seq![x]) == (exists|i: int, xs: Seq<int>|
            #![trigger are_of(m, arg_types[i], xs)]
            0 <= i < fns.len() && are_of(m, arg_types[i], xs) && x == made(m, fns[i], xs)) by {
        let st = seq![x];
        law_disjunctions_need_one(parts, m, st);
        if is_true(body, m, st) {
            let i = choose|i: int| 0 <= i < parts.len() && is_true(#[trigger] parts[i], m, st);
            assert(is_constant(fns[i]) && arg_types[i].len() < 65536);
            lemma_made_by(t, fns[i], arg_types[i], m, x);
            let xs = choose|xs: Seq<int>| #[trigger]
                are_of(m, arg_types[i], xs) && x == made(m, fns[i], xs);
            assert(are_of(m, arg_types[i], xs));
        }
        if exists|i: int, xs: Seq<int>|
            #![trigger are_of(m, arg_types[i], xs)]
            0 <= i < fns.len() && are_of(m, arg_types[i], xs) && x == made(m, fns[i], xs) {
            let (i, xs) = choose|i: int, xs: Seq<int>|
                #![trigger are_of(m, arg_types[i], xs)]
                0 <= i < fns.len() && are_of(m, arg_types[i], xs) && x == made(m, fns[i], xs);
            assert(is_constant(fns[i]) && arg_types[i].len() < 65536);
            lemma_made_by(t, fns[i], arg_types[i], m, x);
            assert(is_true(parts[i], m, st));
        }
    }
    if is_true(canonical_form(t, fns, arg_types), m, none) {
        assert forall|x: int| #[trigger] (m.domain)(t, x) implies is_true(
            body,
            m,
            seq![x],
        ) by {
            let xs = seq![x];
            assert(one[0] == t);
            assert(are_of(m, one, xs));
            assert(none + xs =~= xs);
        }
    }
    if forall|x: int| #[trigger] (m.domain)(t, x) ==> is_true(body, m, seq![x]) {
        assert forall|xs: Seq<int>| #[trigger] are_of(m, one, xs) implies is_true(
            body,
            m,
            none + xs,
        ) by {
            assert((m.domain)(one[0], xs[0]));
            assert(none + xs =~= seq![xs[0]]);
        }
    }
}

/// What a structure's function for a field gives.
pub open spec fn field_of(m: ModelV, getter: ValueV, x: int) -> int {
    (m.apply)(meaning(getter, m, Seq::empty()), seq![x])
}

/// The first equation of a structure says that it is made again from what its fields are.
pub proof fn law_structures_are_made_of_their_fields(
    t: TypeV,
    new_fn: ValueV,
    getters: Seq<ValueV>,
    m: ModelV,
)
    requires
        is_constant(new_fn),
        forall|i: int| 0 <= i < getters.len() ==> is_constant(#[trigger] getters[i]),
        forall|args: Seq<ValueV>|
            #[trigger] args.len() == getters.len() ==> !(value_type(
                ValueV::Application(Box::new(new_fn), args),
            ) is Bool),
    ensures
        is_true(new_equation(t, new_fn, getters), m, Seq::empty()) == (forall|x: int| #[trigger]
            (m.domain)(t, x) ==> (m.apply)(
                meaning(new_fn, m, Seq::empty()),
                Seq::new(getters.len(), |i: int| field_of(m, getters[i], x)),
            ) == x),
{
    let none = Seq::<int>::empty();
    let one = seq![t];
    let var = ValueV::Variable(0, t);
    let members = Seq::new(
        getters.len(),
        |i: int| ValueV::Application(Box::new(getters[i]), seq![var]),
    );
    let whole = ValueV::Application(Box::new(new_fn), members);
    let body = binary(BinaryOp::Equals, whole, var);
    lemma_quantified(one, body, m, none);
    assert forall|x: int|
        is_true(body, m, #[trigger] seq![x]) == ((m.apply)(
            meaning(new_fn, m, none),
            Seq::new(getters.len(), |i: int| field_of(m, getters[i], x)),
        ) == x) by {
        let st = seq![x];
        assert(meaning(var, m, st) == x);
        assert forall|i: int| 0 <= i < members.len() implies meaning(#[trigger] members[i], m, st)
            == field_of(m, getters[i], x) by {
            assert(is_constant(getters[i]));
            reveal_with_fuel(meaning, 2);
            assert(meanings(seq![var], m, st) =~= seq![x]);
        }
        assert(meanings(members, m, st) =~= Seq::new(
            getters.len(),
            |i: int| field_of(m, getters[i], x),
        ));
        reveal_with_fuel(meaning, 2);
        assert(meaning(whole, m, st) == (m.apply)(
            meaning(new_fn, m, st),
            meanings(members, m, st),
        ));
        assert(members.len() == getters.len());
        assert(!(value_type(whole) is Bool));
    }
    if is_true(new_equation(t, new_fn, getters), m, none) {
        assert forall|x: int| #[trigger] (m.domain)(t, x) implies is_true(
            body,
            m,
            seq![x],
        ) by {
            let xs = seq![x];
            assert(one[0] == t);
            assert(are_of(m, one, xs));
            assert(none + xs =~= xs);
        }
    }
    if forall|x: int| #[trigger] (m.domain)(t, x) ==> is_true(body, m, seq![x]) {
        assert forall|xs: Seq<int>| #[trigger] are_of(m, one, xs) implies is_true(
            body,
            m,
            none + xs,
        ) by {
            assert((m.domain)(one[0], xs[0]));
            assert(none + xs =~= seq![xs[0]]);
        }
    }
}

/// The equation of a field says that the field of a new structure is what was put in at its place.
pub proof fn law_fields_are_what_was_put_in(
    types: Seq<TypeV>,
    new_fn: ValueV,
    getter: ValueV,
    i: int,
    m: ModelV,
)
    requires
        is_constant(new_fn),
        is_constant(getter),
        0 <= i < types.len() <= 65536,
        value_type(
            ValueV::Application(
                Box::new(getter),
                seq![ValueV::Application(Box::new(new_fn), vars(types, 0))],
            ),
        ) == types[i],
    ensures
        is_true(member_equation(types, new_fn, getter, i), m, Seq::empty()) == (forall|
            xs: Seq<int>,
        | #[trigger]
            are_of(m, types, xs) ==> same_element(
                types[i],
                field_of(m, getter, made(m, new_fn, xs)),
                xs[i],
            )),
{
    let none = Seq::<int>::empty();
    let whole = ValueV::Application(Box::new(new_fn), vars(types, 0));
    let left = ValueV::Application(Box::new(getter), seq![whole]);
    let var = ValueV::Variable(i as u16, types[i]);
    let body = binary(BinaryOp::Equals, left, var);
    lemma_quantified(types, body, m, none);
    assert forall|xs: Seq<int>| #[trigger] are_of(m, types, xs) implies is_true(body, m, none + xs)
        == same_element(types[i], field_of(m, getter, made(m, new_fn, xs)), xs[i]) by {
        let st = none + xs;
        lemma_made(new_fn, types, 0, m, st);
        assert(apply(new_fn, vars(types, 0)) == whole);
        assert(st.subrange(0, types.len() as int) =~= xs);
        assert(meanings(seq![whole], m, st) =~= seq![meaning(whole, m, st)]);
        assert(meaning(var, m, st) == xs[i]);
        reveal_with_fuel(meaning, 2);
        assert(meaning(left, m, st) == (m.apply)(
            meaning(getter, m, st),
            meanings(seq![whole], m, st),
        ));
    }
}

} // verus!
