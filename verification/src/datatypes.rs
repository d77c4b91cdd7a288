//! The claims that define structures and inductive types.

use vstd::prelude::*;

use crate::acorn_type::{functional, AcornType, TypeV};
use crate::acorn_value::{
    apply, exists_of, forall_of, AcornValue, BinaryOp, FunctionApplication, ValueV,
};
use crate::table::{duplicate_all, Key};
use crate::text::views;

verus! {

/// Variables of the given types, numbered from a depth on.
pub open spec fn vars(ts: Seq<TypeV>, start: nat) -> Seq<ValueV> {
    Seq::new(ts.len(), |i: int| ValueV::Variable((start + i) as u16, ts[i]))
}

/// An operator between two values.
pub open spec fn binary(op: BinaryOp, l: ValueV, r: ValueV) -> ValueV {
    ValueV::Binary(op, Box::new(l), Box::new(r))
}

/// An operator between all of some values, from the left.
pub open spec fn reduced(op: BinaryOp, parts: Seq<ValueV>) -> ValueV
    decreases parts.len(),
{
    if parts.len() == 0 {
        ValueV::Bool(true)
    } else if parts.len() == 1 {
        parts[0]
    } else {
        binary(op, reduced(op, parts.drop_last()), parts.last())
    }
}

/// Variables of the given types, numbered from a depth on.
pub fn new_vars(ts: &Vec<AcornType>, start: usize) -> (r: Vec<AcornValue>)
    ensures
        views(r@) == vars(views(ts@), start as nat),
        r.len() == ts.len(),
{
    let mut out: Vec<AcornValue> = Vec::new();
    let mut i: usize = 0;
    while i < ts.len()
        invariant
            i <= ts.len(),
            out.len() == i,
            forall|k: int|
                0 <= k < i ==> (#[trigger] out@[k])@ == vars(views(ts@), start as nat)[k],
        decreases ts.len() - i,
    {
        out.push(AcornValue::Variable((start as u128 + i as u128) as u16, ts[i].clone()));
        i = i + 1;
    }
    assert(views(out@) =~= vars(views(ts@), start as nat));
    out
}

/// An operator between two values.
pub fn new_binary(op: BinaryOp, l: AcornValue, r: AcornValue) -> (v: AcornValue)
    ensures
        v@ == binary(op, l@, r@),
{
    AcornValue::Binary(op, Box::new(l), Box::new(r))
}

/// An operator between all of some values, from the left.
pub fn reduce(op: BinaryOp, parts: &Vec<AcornValue>) -> (r: AcornValue)
    ensures
        r@ == reduced(op, views(parts@)),
{
    if parts.len() == 0 {
        return AcornValue::Bool(true);
    }
    let mut acc = parts[0].clone();
    let mut i: usize = 1;
    assert(views(parts@).take(1).len() == 1);
    while i < parts.len()
        invariant
            1 <= i <= parts.len(),
            acc@ == reduced(op, views(parts@).take(i as int)),
        decreases parts.len() - i,
    {
        assert(views(parts@).take(i + 1).drop_last() =~= views(parts@).take(i as int));
        acc = new_binary(op, acc, parts[i].clone());
        i = i + 1;
    }
    assert(views(parts@).take(i as int) =~= views(parts@));
    acc
}

fn one_type(t: &AcornType) -> (r: Vec<AcornType>)
    ensures
        views(r@) == seq![t@],
{
    let mut v: Vec<AcornType> = Vec::new();
    v.push(t.clone());
    assert(views(v@) =~= seq![t@]);
    v
}

fn one_value(v: AcornValue) -> (r: Vec<AcornValue>)
    ensures
        views(r@) == seq![v@],
{
    let mut out: Vec<AcornValue> = Vec::new();
    out.push(v);
    assert(views(out@) =~= seq![v@]);
    out
}

fn application(function: AcornValue, args: Vec<AcornValue>) -> (r: AcornValue)
    ensures
        r@ == ValueV::Application(Box::new(function@), views(args@)),
{
    broadcast use crate::acorn_value::lemma_application_view;
    AcornValue::Application(FunctionApplication { function: Box::new(function), args })
}

/// A structure can be made again from its members:
/// `Pair.new(Pair.first(p), Pair.second(p)) = p`.
pub open spec fn new_equation(struct_type: TypeV, new_fn: ValueV, member_fns: Seq<ValueV>) -> ValueV {
    let var = ValueV::Variable(0, struct_type);
    let members = Seq::new(
        member_fns.len(),
        |i: int| ValueV::Application(Box::new(member_fns[i]), seq![var]),
    );
    ValueV::ForAll(
        seq![struct_type],
        Box::new(
            binary(BinaryOp::Equals, ValueV::Application(Box::new(new_fn), members), var),
        ),
    )
}

/// A member of a new structure is what was put in: `Pair.first(Pair.new(a, b)) = a`.
pub open spec fn member_equation(
    field_types: Seq<TypeV>,
    new_fn: ValueV,
    member_fn: ValueV,
    i: int,
) -> ValueV {
    let made = ValueV::Application(Box::new(new_fn), vars(field_types, 0));
    ValueV::ForAll(
        field_types,
        Box::new(
            binary(
                BinaryOp::Equals,
                ValueV::Application(Box::new(member_fn), seq![made]),
                ValueV::Variable(i as u16, field_types[i]),
            ),
        ),
    )
}

/// The claim that a structure can be made again from its members.
pub fn make_new_equation(
    struct_type: &AcornType,
    new_fn: &AcornValue,
    member_fns: &Vec<AcornValue>,
) -> (r: AcornValue)
    ensures
        r@ == new_equation(struct_type@, new_fn@, views(member_fns@)),
{
    let ghost var = ValueV::Variable(0, struct_type@);
    let ghost expected = Seq::new(
        member_fns@.len(),
        |i: int| ValueV::Application(Box::new(views(member_fns@)[i]), seq![var]),
    );
    let mut args: Vec<AcornValue> = Vec::new();
    let mut i: usize = 0;
    while i < member_fns.len()
        invariant
            i <= member_fns.len(),
            args.len() == i,
            var == ValueV::Variable(0, struct_type@),
            expected == Seq::new(
                member_fns@.len(),
                |i: int| ValueV::Application(Box::new(views(member_fns@)[i]), seq![var]),
            ),
            forall|k: int| 0 <= k < i ==> (#[trigger] args@[k])@ == expected[k],
        decreases member_fns.len() - i,
    {
        let v = AcornValue::Variable(0, struct_type.clone());
        assert(v@ == var);
        args.push(application(member_fns[i].clone(), one_value(v)));
        i = i + 1;
    }
    assert(views(args@) =~= expected);
    let recreated = application(new_fn.clone(), args);
    let eq = new_binary(
        BinaryOp::Equals,
        recreated,
        AcornValue::Variable(0, struct_type.clone()),
    );
    AcornValue::ForAll(one_type(struct_type), Box::new(eq))
}

/// The claim that a member of a new structure is what was put in.
pub fn make_member_equation(
    field_types: &Vec<AcornType>,
    new_fn: &AcornValue,
    member_fn: &AcornValue,
    i: usize,
) -> (r: AcornValue)
    requires
        i < field_types.len(),
    ensures
        r@ == member_equation(views(field_types@), new_fn@, member_fn@, i as int),
{
    let made = application(new_fn.clone(), new_vars(field_types, 0));
    let left = application(member_fn.clone(), one_value(made));
    let right = AcornValue::Variable(i as u16, field_types[i].clone());
    AcornValue::ForAll(
        duplicate_all(field_types),
        Box::new(new_binary(BinaryOp::Equals, left, right)),
    )
}

/// Different constructors give different results.
pub open spec fn no_confusion(
    i_fn: ValueV,
    i_types: Seq<TypeV>,
    j_fn: ValueV,
    j_types: Seq<TypeV>,
) -> ValueV {
    forall_of(
        i_types + j_types,
        binary(
            BinaryOp::NotEquals,
            apply(i_fn, vars(i_types, 0)),
            apply(j_fn, vars(j_types, i_types.len())),
        ),
    )
}

/// The claim that two constructors give different results.
pub fn make_no_confusion(
    i_fn: &AcornValue,
    i_types: &Vec<AcornType>,
    j_fn: &AcornValue,
    j_types: &Vec<AcornType>,
) -> (r: AcornValue)
    ensures
        r@ == no_confusion(i_fn@, views(i_types@), j_fn@, views(j_types@)),
{
    let left = AcornValue::new_apply(i_fn.clone(), new_vars(i_types, 0));
    let right = AcornValue::new_apply(j_fn.clone(), new_vars(j_types, i_types.len()));
    let mut quantifiers = duplicate_all(i_types);
    let ghost first = quantifiers@;
    let mut more = duplicate_all(j_types);
    let ghost second = more@;
    quantifiers.append(&mut more);
    assert(views(first + second) =~= views(first) + views(second));
    AcornValue::new_forall(quantifiers, new_binary(BinaryOp::NotEquals, left, right))
}

/// A variable is what a constructor makes of some arguments.
pub open spec fn made_by(t: TypeV, f: ValueV, arg_types: Seq<TypeV>) -> ValueV {
    exists_of(
        arg_types,
        binary(BinaryOp::Equals, ValueV::Variable(0, t), apply(f, vars(arg_types, 1))),
    )
}

/// Anything of an inductive type is made by one of the constructors.
pub open spec fn canonical_form(t: TypeV, fns: Seq<ValueV>, arg_types: Seq<Seq<TypeV>>) -> ValueV {
    ValueV::ForAll(
        seq![t],
        Box::new(
            reduced(
                BinaryOp::Or,
                Seq::new(fns.len(), |i: int| made_by(t, fns[i], arg_types[i])),
            ),
        ),
    )
}

/// The views of lists of types.
pub open spec fn type_lists(v: Seq<Vec<AcornType>>) -> Seq<Seq<TypeV>> {
    Seq::new(v.len(), |i: int| views(v[i]@))
}

/// The claim that anything of an inductive type is made by one of the constructors.
pub fn make_canonical_form(
    t: &AcornType,
    fns: &Vec<AcornValue>,
    arg_types: &Vec<Vec<AcornType>>,
) -> (r: AcornValue)
    requires
        fns.len() == arg_types.len(),
    ensures
        r@ == canonical_form(t@, views(fns@), type_lists(arg_types@)),
{
    let ghost expected = Seq::new(
        fns@.len(),
        |i: int| made_by(t@, views(fns@)[i], type_lists(arg_types@)[i]),
    );
    let mut parts: Vec<AcornValue> = Vec::new();
    let mut i: usize = 0;
    while i < fns.len()
        invariant
            i <= fns.len() == arg_types.len(),
            parts.len() == i,
            expected == Seq::new(
                fns@.len(),
                |i: int| made_by(t@, views(fns@)[i], type_lists(arg_types@)[i]),
            ),
            forall|k: int| 0 <= k < i ==> (#[trigger] parts@[k])@ == expected[k],
        decreases fns.len() - i,
    {
        let types = &arg_types[i];
        let app = AcornValue::new_apply(fns[i].clone(), new_vars(types, 1));
        let eq = new_binary(BinaryOp::Equals, AcornValue::Variable(0, t.clone()), app);
        parts.push(AcornValue::new_exists(duplicate_all(types), eq));
        i = i + 1;
    }
    assert(views(parts@) =~= expected);
    AcornValue::ForAll(one_type(t), Box::new(reduce(BinaryOp::Or, &parts)))
}

/// A constructor gives the same result only for the same arguments.
pub open spec fn injective(f: ValueV, ts: Seq<TypeV>) -> ValueV {
    forall_of(
        ts + ts,
        binary(
            BinaryOp::Implies,
            binary(BinaryOp::Equals, apply(f, vars(ts, 0)), apply(f, vars(ts, ts.len()))),
            reduced(
                BinaryOp::And,
                Seq::new(
                    ts.len(),
                    |i: int| binary(BinaryOp::Equals, vars(ts, 0)[i], vars(ts, ts.len())[i]),
                ),
            ),
        ),
    )
}

/// The claim that a constructor gives the same result only for the same arguments.
pub fn make_injective(f: &AcornValue, ts: &Vec<AcornType>) -> (r: AcornValue)
    ensures
        r@ == injective(f@, views(ts@)),
{
    let ghost tv = views(ts@);
    let lhs = AcornValue::new_apply(f.clone(), new_vars(ts, 0));
    let rhs = AcornValue::new_apply(f.clone(), new_vars(ts, ts.len()));
    let equality = new_binary(BinaryOp::Equals, lhs, rhs);
    let left = new_vars(ts, 0);
    let right = new_vars(ts, ts.len());
    let ghost expected = Seq::new(
        tv.len(),
        |i: int| binary(BinaryOp::Equals, vars(tv, 0)[i], vars(tv, tv.len())[i]),
    );
    let mut parts: Vec<AcornValue> = Vec::new();
    let mut i: usize = 0;
    while i < ts.len()
        invariant
            i <= ts.len() == left.len(),
            left.len() == right.len(),
            parts.len() == i,
            tv == views(ts@),
            views(left@) == vars(tv, 0),
            views(right@) == vars(tv, tv.len()),
            expected == Seq::new(
                tv.len(),
                |i: int| binary(BinaryOp::Equals, vars(tv, 0)[i], vars(tv, tv.len())[i]),
            ),
            forall|k: int| 0 <= k < i ==> (#[trigger] parts@[k])@ == expected[k],
        decreases ts.len() - i,
    {
        assert(views(left@)[i as int] == left@[i as int]@);
        assert(views(right@)[i as int] == right@[i as int]@);
        parts.push(new_binary(BinaryOp::Equals, left[i].clone(), right[i].clone()));
        i = i + 1;
    }
    assert(views(parts@) =~= expected);
    let conjunction = reduce(BinaryOp::And, &parts);
    let mut quantifiers = duplicate_all(ts);
    let ghost first = quantifiers@;
    let mut more = duplicate_all(ts);
    let ghost second = more@;
    quantifiers.append(&mut more);
    assert(views(first + second) =~= views(first) + views(second));
    AcornValue::new_forall(quantifiers, new_binary(BinaryOp::Implies, equality, conjunction))
}

/// The hypothesis of an induction holds for a value.
pub open spec fn holds_for(hyp: TypeV, v: ValueV) -> ValueV {
    ValueV::Application(Box::new(ValueV::Variable(0, hyp)), seq![v])
}

/// The hypothesis holds for the first `n` arguments that are of the inductive type.
pub open spec fn conditions(t: TypeV, hyp: TypeV, ts: Seq<TypeV>, n: nat) -> Seq<ValueV>
    decreases n,
{
    if n == 0 || n > ts.len() {
        Seq::empty()
    } else {
        let before = conditions(t, hyp, ts, (n - 1) as nat);
        if ts[n - 1] == t {
            before.push(holds_for(hyp, vars(ts, 1)[n - 1]))
        } else {
            before
        }
    }
}

/// The case of an induction for a constructor.
pub open spec fn induction_case(t: TypeV, hyp: TypeV, f: ValueV, ts: Seq<TypeV>) -> ValueV {
    let claim = holds_for(hyp, apply(f, vars(ts, 1)));
    let conds = conditions(t, hyp, ts, ts.len());
    forall_of(
        ts,
        if conds.len() == 0 {
            claim
        } else {
            binary(BinaryOp::Implies, reduced(BinaryOp::And, conds), claim)
        },
    )
}

/// The type of the hypothesis of an induction.
pub open spec fn hypothesis_type(t: TypeV) -> TypeV {
    functional(seq![t], TypeV::Bool)
}

/// What holds in the case of each constructor holds for all. The hypothesis is the free variable.
pub open spec fn induction(t: TypeV, fns: Seq<ValueV>, arg_types: Seq<Seq<TypeV>>) -> ValueV {
    let hyp = hypothesis_type(t);
    binary(
        BinaryOp::Implies,
        reduced(
            BinaryOp::And,
            Seq::new(fns.len(), |i: int| induction_case(t, hyp, fns[i], arg_types[i])),
        ),
        ValueV::ForAll(seq![t], Box::new(holds_for(hyp, ValueV::Variable(1, t)))),
    )
}

fn make_holds_for(hyp: &AcornType, v: AcornValue) -> (r: AcornValue)
    ensures
        r@ == holds_for(hyp@, v@),
{
    let h = AcornValue::Variable(0, hyp.clone());
    assert(h@ == ValueV::Variable(0, hyp@));
    application(h, one_value(v))
}

fn make_induction_case(t: &AcornType, hyp: &AcornType, f: &AcornValue, ts: &Vec<AcornType>) -> (r:
    AcornValue)
    ensures
        r@ == induction_case(t@, hyp@, f@, views(ts@)),
{
    broadcast use crate::text::group_views;
    let args = new_vars(ts, 1);
    let mut conds: Vec<AcornValue> = Vec::new();
    let mut i: usize = 0;
    while i < ts.len()
        invariant
            i <= ts.len() == args.len(),
            views(args@) == vars(views(ts@), 1),
            views(conds@) == conditions(t@, hyp@, views(ts@), i as nat),
        decreases ts.len() - i,
    {
        broadcast use crate::text::group_views;
        assert(views(args@)[i as int] == args@[i as int]@);
        if ts[i].same(t) {
            conds.push(make_holds_for(hyp, args[i].clone()));
        }
        i = i + 1;
    }
    let claim = make_holds_for(hyp, AcornValue::new_apply(f.clone(), args));
    let unbound = if conds.len() == 0 {
        claim
    } else {
        new_binary(BinaryOp::Implies, reduce(BinaryOp::And, &conds), claim)
    };
    AcornValue::new_forall(duplicate_all(ts), unbound)
}

/// The type of the hypothesis of an induction.
pub fn make_hypothesis_type(t: &AcornType) -> (r: AcornType)
    ensures
        r@ == hypothesis_type(t@),
{
    AcornType::new_functional(one_type(t), AcornType::Bool)
}

/// The principle of induction, with the hypothesis as a free variable.
pub fn make_induction(
    t: &AcornType,
    fns: &Vec<AcornValue>,
    arg_types: &Vec<Vec<AcornType>>,
) -> (r: AcornValue)
    requires
        fns.len() == arg_types.len(),
    ensures
        r@ == induction(t@, views(fns@), type_lists(arg_types@)),
{
    let hyp = make_hypothesis_type(t);
    let ghost expected = Seq::new(
        fns@.len(),
        |i: int| induction_case(t@, hyp@, views(fns@)[i], type_lists(arg_types@)[i]),
    );
    let mut parts: Vec<AcornValue> = Vec::new();
    let mut i: usize = 0;
    while i < fns.len()
        invariant
            i <= fns.len() == arg_types.len(),
            parts.len() == i,
            expected == Seq::new(
                fns@.len(),
                |i: int| induction_case(t@, hyp@, views(fns@)[i], type_lists(arg_types@)[i]),
            ),
            forall|k: int| 0 <= k < i ==> (#[trigger] parts@[k])@ == expected[k],
        decreases fns.len() - i,
    {
        parts.push(make_induction_case(t, &hyp, &fns[i], &arg_types[i]));
        i = i + 1;
    }
    assert(views(parts@) =~= expected);
    let conjunction = reduce(BinaryOp::And, &parts);
    let var = AcornValue::Variable(1, t.clone());
    assert(var@ == ValueV::Variable(1, t@));
    let conclusion = AcornValue::ForAll(one_type(t), Box::new(make_holds_for(&hyp, var)));
    new_binary(BinaryOp::Implies, conjunction, conclusion)
}

} // verus!
