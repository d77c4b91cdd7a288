//! The logical shape of values: putting propositions into normal form, step by step.

use vstd::prelude::*;

use crate::acorn_type::{AcornType, AtomId, TypeV};
use crate::acorn_value::{
    apply, bound, deeper, edited, go_deeper, lemma_application_view, shifted, value_type, AcornValue, BinaryOp,
    BindV, EditModel, FunctionApplication, Shift, ValueV,
};
use crate::table::{duplicate_all, Duplicate};
use crate::text::views;

verus! {

broadcast use {lemma_application_view, crate::text::group_views};

/// A value where functions that are applied to all their arguments are replaced by what they
/// give. Each such step uses up one unit of `fuel`, on the way from the outside in; there is no
/// result where none is left.
pub open spec fn expanded(v: ValueV, depth: AtomId, fuel: u64) -> Option<ValueV>
    decreases fuel, v, 0nat,
{
    match v {
        ValueV::Application(f, args) => match *f {
            ValueV::Lambda(ts, body) if ts.len() <= args.len() => if fuel == 0 {
                None
            } else {
                expanded(
                    apply(
                        bound(*body, depth, depth, args.take(ts.len() as int)),
                        args.skip(ts.len() as int),
                    ),
                    depth,
                    (fuel - 1) as u64,
                )
            },
            _ => match (
                expanded(*f, depth, fuel),
                expanded_all(args, depth, fuel, args.len()),
            ) {
                (Some(g), Some(a)) => Some(ValueV::Application(Box::new(g), a)),
                _ => None,
            },
        },
        ValueV::Lambda(ts, b) => match expanded(*b, deeper(depth, ts.len()), fuel) {
            Some(c) => Some(ValueV::Lambda(ts, Box::new(c))),
            None => None,
        },
        ValueV::ForAll(ts, b) => match expanded(*b, deeper(depth, ts.len()), fuel) {
            Some(c) => Some(ValueV::ForAll(ts, Box::new(c))),
            None => None,
        },
        ValueV::Exists(ts, b) => match expanded(*b, deeper(depth, ts.len()), fuel) {
            Some(c) => Some(ValueV::Exists(ts, Box::new(c))),
            None => None,
        },
        ValueV::Binary(op, l, r) => match (
            expanded(*l, depth, fuel),
            expanded(*r, depth, fuel),
        ) {
            (Some(a), Some(b)) => Some(ValueV::Binary(op, Box::new(a), Box::new(b))),
            _ => None,
        },
        ValueV::Not(x) => match expanded(*x, depth, fuel) {
            Some(y) => Some(ValueV::Not(Box::new(y))),
            None => None,
        },
        ValueV::IfThenElse(c, a, b) => match (
            expanded(*c, depth, fuel),
            expanded(*a, depth, fuel),
            expanded(*b, depth, fuel),
        ) {
            (Some(x), Some(y), Some(z)) => Some(
                ValueV::IfThenElse(Box::new(x), Box::new(y), Box::new(z)),
            ),
            _ => None,
        },
        _ => Some(v),
    }
}

/// The first `n` of a list of values, each expanded.
pub open spec fn expanded_all(vs: Seq<ValueV>, depth: AtomId, fuel: u64, n: nat) -> Option<
    Seq<ValueV>,
>
    decreases fuel, vs, n,
{
    if n == 0 || n > vs.len() {
        Some(Seq::empty())
    } else {
        match (expanded_all(vs, depth, fuel, (n - 1) as nat), expanded(vs[n - 1], depth, fuel)) {
            (Some(before), Some(v)) => Some(before.push(v)),
            _ => None,
        }
    }
}

proof fn lemma_expanded_all_fails(vs: Seq<ValueV>, depth: AtomId, fuel: u64, k: nat, n: nat)
    requires
        k <= n <= vs.len(),
        expanded_all(vs, depth, fuel, k) is None,
    ensures
        expanded_all(vs, depth, fuel, n) is None,
    decreases n,
{
    if k < n {
        lemma_expanded_all_fails(vs, depth, fuel, k, (n - 1) as nat);
    }
}

fn expand_list(vs: &Vec<AcornValue>, depth: AtomId, fuel: u64) -> (r: Option<Vec<AcornValue>>)
    ensures
        match r {
            Some(a) => expanded_all(views(vs@), depth, fuel, vs@.len()) == Some(views(a@)),
            None => expanded_all(views(vs@), depth, fuel, vs@.len()) is None,
        },
    decreases fuel, vs,
{
    let mut out: Vec<AcornValue> = Vec::new();
    let mut i: usize = 0;
    assert(views(out@) =~= Seq::<ValueV>::empty());
    while i < vs.len()
        invariant
            i <= vs.len(),
            expanded_all(views(vs@), depth, fuel, i as nat) == Some(views(out@)),
        decreases vs.len() - i,
    {
        assert(decreases_to!(vs => vs@[i as int]));
        assert(views(vs@)[i as int] == vs@[i as int]@);
        match expand(&vs[i], depth, fuel) {
            Some(v) => {
                out.push(v);
            },
            None => {
                proof {
                    lemma_expanded_all_fails(views(vs@), depth, fuel, (i + 1) as nat, vs@.len());
                }
                return None;
            },
        }
        i = i + 1;
    }
    Some(out)
}

fn copy_range(vs: &Vec<AcornValue>, from: usize, to: usize) -> (r: Vec<AcornValue>)
    requires
        from <= to <= vs.len(),
    ensures
        views(r@) == views(vs@).subrange(from as int, to as int),
{
    let mut out: Vec<AcornValue> = Vec::new();
    let mut i: usize = from;
    while i < to
        invariant
            from <= i <= to <= vs.len(),
            out.len() == i - from,
            forall|k: int| 0 <= k < i - from ==> (#[trigger] out@[k])@ == vs@[from + k]@,
        decreases to - i,
    {
        out.push(vs[i].duplicate());
        i = i + 1;
    }
    assert(views(out@) =~= views(vs@).subrange(from as int, to as int));
    out
}

fn expand_application(a: &FunctionApplication, depth: AtomId, fuel: u64) -> (r: Option<AcornValue>)
    ensures
        match r {
            Some(x) => expanded(
                ValueV::Application(Box::new(a.function@), views(a.args@)),
                depth,
                fuel,
            ) == Some(x@),
            None => expanded(
                ValueV::Application(Box::new(a.function@), views(a.args@)),
                depth,
                fuel,
            ) is None,
        },
    decreases fuel, a,
{
    if let AcornValue::Lambda(ts, body) = &*a.function {
        if ts.len() <= a.args.len() {
            if fuel == 0 {
                return None;
            }
            let first = copy_range(&a.args, 0, ts.len());
            let rest = copy_range(&a.args, ts.len(), a.args.len());
            let inner = body.bind_values(depth, depth, &first);
            proof {
                let n = ts@.len() as int;
                assert(views(a.args@).subrange(0, n) =~= views(a.args@).take(n));
                assert(views(a.args@).subrange(n, a.args@.len() as int) =~= views(a.args@).skip(n));
                assert(views(ts@).len() == n);
            }
            return expand(&AcornValue::new_apply(inner, rest), depth, fuel - 1);
        }
    }
    let function = match expand(&a.function, depth, fuel) {
        Some(f) => f,
        None => {
            return None;
        },
    };
    let args = match expand_list(&a.args, depth, fuel) {
        Some(args) => args,
        None => {
            return None;
        },
    };
    Some(AcornValue::Application(FunctionApplication { function: Box::new(function), args }))
}

/// Replaces functions that are applied to all their arguments by what they give.
pub fn expand(v: &AcornValue, depth: AtomId, fuel: u64) -> (r: Option<AcornValue>)
    ensures
        match r {
            Some(x) => expanded(v@, depth, fuel) == Some(x@),
            None => expanded(v@, depth, fuel) is None,
        },
    decreases fuel, v,
{
    match v {
        AcornValue::Application(a) => expand_application(a, depth, fuel),
        AcornValue::Lambda(ts, b) => match expand(b, go_deeper(depth, ts), fuel) {
            Some(c) => Some(AcornValue::Lambda(duplicate_all(ts), Box::new(c))),
            None => None,
        },
        AcornValue::ForAll(ts, b) => match expand(b, go_deeper(depth, ts), fuel) {
            Some(c) => Some(AcornValue::ForAll(duplicate_all(ts), Box::new(c))),
            None => None,
        },
        AcornValue::Exists(ts, b) => match expand(b, go_deeper(depth, ts), fuel) {
            Some(c) => Some(AcornValue::Exists(duplicate_all(ts), Box::new(c))),
            None => None,
        },
        AcornValue::Binary(op, l, r) => match (expand(l, depth, fuel), expand(r, depth, fuel)) {
            (Some(a), Some(b)) => Some(AcornValue::Binary(*op, Box::new(a), Box::new(b))),
            _ => None,
        },
        AcornValue::Not(x) => match expand(x, depth, fuel) {
            Some(y) => Some(AcornValue::Not(Box::new(y))),
            None => None,
        },
        AcornValue::IfThenElse(c, a, b) => match (
            expand(c, depth, fuel),
            expand(a, depth, fuel),
            expand(b, depth, fuel),
        ) {
            (Some(x), Some(y), Some(z)) => Some(
                AcornValue::IfThenElse(Box::new(x), Box::new(y), Box::new(z)),
            ),
            _ => None,
        },
        _ => Some(v.duplicate()),
    }
}

/// One value and another.
pub open spec fn both(a: ValueV, b: ValueV) -> ValueV {
    ValueV::Binary(BinaryOp::And, Box::new(a), Box::new(b))
}

/// One value or another.
pub open spec fn either(a: ValueV, b: ValueV) -> ValueV {
    ValueV::Binary(BinaryOp::Or, Box::new(a), Box::new(b))
}

/// A value, or its negation, with negations moved inwards: they stand only before values that
/// have no logical structure, and implications, comparisons of propositions and conditional
/// propositions are spelled out.
pub open spec fn negation_inside(v: ValueV, negate: bool) -> ValueV
    decreases v,
{
    match v {
        ValueV::Not(x) => negation_inside(*x, !negate),
        ValueV::Bool(b) => ValueV::Bool(b != negate),
        ValueV::Binary(BinaryOp::And, l, r) => if negate {
            either(negation_inside(*l, true), negation_inside(*r, true))
        } else {
            both(negation_inside(*l, false), negation_inside(*r, false))
        },
        ValueV::Binary(BinaryOp::Or, l, r) => if negate {
            both(negation_inside(*l, true), negation_inside(*r, true))
        } else {
            either(negation_inside(*l, false), negation_inside(*r, false))
        },
        ValueV::Binary(BinaryOp::Implies, l, r) => if negate {
            both(negation_inside(*l, false), negation_inside(*r, true))
        } else {
            either(negation_inside(*l, true), negation_inside(*r, false))
        },
        ValueV::Binary(op, l, r) => {
            let differ = negate == (op is Equals);
            if value_type(*l) is Bool {
                both(
                    either(negation_inside(*l, !differ), negation_inside(*r, false)),
                    either(negation_inside(*l, differ), negation_inside(*r, true)),
                )
            } else if differ {
                ValueV::Binary(BinaryOp::NotEquals, l, r)
            } else {
                ValueV::Binary(BinaryOp::Equals, l, r)
            }
        },
        ValueV::ForAll(ts, b) => if negate {
            ValueV::Exists(ts, Box::new(negation_inside(*b, true)))
        } else {
            ValueV::ForAll(ts, Box::new(negation_inside(*b, false)))
        },
        ValueV::Exists(ts, b) => if negate {
            ValueV::ForAll(ts, Box::new(negation_inside(*b, true)))
        } else {
            ValueV::Exists(ts, Box::new(negation_inside(*b, false)))
        },
        ValueV::IfThenElse(c, a, b) => both(
            either(negation_inside(*c, true), negation_inside(*a, negate)),
            either(negation_inside(*c, false), negation_inside(*b, negate)),
        ),
        _ => if negate {
            ValueV::Not(Box::new(v))
        } else {
            v
        },
    }
}

fn and(a: AcornValue, b: AcornValue) -> (r: AcornValue)
    ensures
        r@ == both(a@, b@),
{
    AcornValue::Binary(BinaryOp::And, Box::new(a), Box::new(b))
}

fn or(a: AcornValue, b: AcornValue) -> (r: AcornValue)
    ensures
        r@ == either(a@, b@),
{
    AcornValue::Binary(BinaryOp::Or, Box::new(a), Box::new(b))
}

/// Moves negations inwards.
pub fn move_negation_inwards(v: &AcornValue, negate: bool) -> (r: AcornValue)
    ensures
        r@ == negation_inside(v@, negate),
    decreases v,
{
    match v {
        AcornValue::Not(x) => move_negation_inwards(x, !negate),
        AcornValue::Bool(b) => AcornValue::Bool(*b != negate),
        AcornValue::Binary(BinaryOp::And, l, r) => {
            let a = move_negation_inwards(l, negate);
            let b = move_negation_inwards(r, negate);
            if negate {
                or(a, b)
            } else {
                and(a, b)
            }
        },
        AcornValue::Binary(BinaryOp::Or, l, r) => {
            let a = move_negation_inwards(l, negate);
            let b = move_negation_inwards(r, negate);
            if negate {
                and(a, b)
            } else {
                or(a, b)
            }
        },
        AcornValue::Binary(BinaryOp::Implies, l, r) => {
            let a = move_negation_inwards(l, !negate);
            let b = move_negation_inwards(r, negate);
            if negate {
                and(a, b)
            } else {
                or(a, b)
            }
        },
        AcornValue::Binary(op, l, r) => {
            let differ = negate == (*op == BinaryOp::Equals);
            let is_bool = match l.get_type() {
                AcornType::Bool => true,
                _ => false,
            };
            if is_bool {
                and(
                    or(move_negation_inwards(l, !differ), move_negation_inwards(r, false)),
                    or(move_negation_inwards(l, differ), move_negation_inwards(r, true)),
                )
            } else if differ {
                AcornValue::Binary(
                    BinaryOp::NotEquals,
                    Box::new((**l).duplicate()),
                    Box::new((**r).duplicate()),
                )
            } else {
                AcornValue::Binary(
                    BinaryOp::Equals,
                    Box::new((**l).duplicate()),
                    Box::new((**r).duplicate()),
                )
            }
        },
        AcornValue::ForAll(ts, b) => {
            let body = Box::new(move_negation_inwards(b, negate));
            if negate {
                AcornValue::Exists(duplicate_all(ts), body)
            } else {
                AcornValue::ForAll(duplicate_all(ts), body)
            }
        },
        AcornValue::Exists(ts, b) => {
            let body = Box::new(move_negation_inwards(b, negate));
            if negate {
                AcornValue::ForAll(duplicate_all(ts), body)
            } else {
                AcornValue::Exists(duplicate_all(ts), body)
            }
        },
        AcornValue::IfThenElse(c, a, b) => and(
            or(move_negation_inwards(c, true), move_negation_inwards(a, negate)),
            or(move_negation_inwards(c, false), move_negation_inwards(b, negate)),
        ),
        _ => if negate {
            AcornValue::Not(Box::new(v.duplicate()))
        } else {
            v.duplicate()
        },
    }
}

/// Whether a value can be at the end of the logical structure of a proposition.
pub open spec fn is_terminal(v: ValueV) -> bool {
    match v {
        ValueV::Variable(..) => true,
        ValueV::Constant(..) => true,
        ValueV::Specialized(..) => true,
        ValueV::Application(..) => true,
        ValueV::Not(_) => true,
        ValueV::Bool(_) => true,
        ValueV::Binary(op, _, _) => op is Equals || op is NotEquals,
        _ => false,
    }
}

/// Whether a proposition is made with "and", "or" and quantifiers from terminal values.
pub open spec fn is_plain(v: ValueV) -> bool
    decreases v,
{
    match v {
        ValueV::ForAll(_, b) => is_plain(*b),
        ValueV::Exists(_, b) => is_plain(*b),
        ValueV::Binary(BinaryOp::And, l, r) => is_plain(*l) && is_plain(*r),
        ValueV::Binary(BinaryOp::Or, l, r) => is_plain(*l) && is_plain(*r),
        _ => is_terminal(v),
    }
}

/// How many times "and", "or" and quantifiers are used in a proposition.
pub open spec fn structure(v: ValueV) -> nat
    decreases v,
{
    match v {
        ValueV::ForAll(_, b) => 1 + structure(*b),
        ValueV::Exists(_, b) => 1 + structure(*b),
        ValueV::Binary(BinaryOp::And, l, r) => 1 + structure(*l) + structure(*r),
        ValueV::Binary(BinaryOp::Or, l, r) => 1 + structure(*l) + structure(*r),
        _ => 0,
    }
}

/// Tests whether a proposition is made with "and", "or" and quantifiers from terminal values.
pub fn check_plain(v: &AcornValue) -> (r: bool)
    ensures
        r == is_plain(v@),
    decreases v,
{
    match v {
        AcornValue::ForAll(_, b) => check_plain(b),
        AcornValue::Exists(_, b) => check_plain(b),
        AcornValue::Binary(BinaryOp::And, l, r) => check_plain(l) && check_plain(r),
        AcornValue::Binary(BinaryOp::Or, l, r) => check_plain(l) && check_plain(r),
        AcornValue::Binary(BinaryOp::Implies, _, _) => false,
        AcornValue::Lambda(_, _) => false,
        AcornValue::IfThenElse(_, _, _) => false,
        _ => true,
    }
}

/// Whether an edit puts only terminal values for the leaves of a value.
pub open spec fn keeps_terminals<M: EditModel>(m: M) -> bool {
    &&& forall|i: AtomId, t: TypeV, d: AtomId| is_terminal(#[trigger] m.on_variable(i, t, d))
    &&& forall|module: u16, name: Seq<char>, t: TypeV, ps: Seq<Seq<char>>, d: AtomId|
        is_terminal(#[trigger] m.on_constant(module, name, t, ps, d))
    &&& forall|module: u16, name: Seq<char>, t: TypeV, ps: Seq<(Seq<char>, TypeV)>, d: AtomId|
        is_terminal(#[trigger] m.on_specialized(module, name, t, ps, d))
}

/// An edit of the leaves keeps the logical structure.
pub proof fn lemma_edit_keeps_structure<M: EditModel>(v: ValueV, depth: AtomId, m: M)
    requires
        keeps_terminals(m),
    ensures
        structure(edited(v, depth, m)) == structure(v),
        is_plain(edited(v, depth, m)) == is_plain(v),
    decreases v,
{
    match v {
        ValueV::ForAll(ts, b) => lemma_edit_keeps_structure(*b, deeper(depth, ts.len()), m),
        ValueV::Exists(ts, b) => lemma_edit_keeps_structure(*b, deeper(depth, ts.len()), m),
        ValueV::Binary(op, l, r) => {
            lemma_edit_keeps_structure(*l, depth, m);
            lemma_edit_keeps_structure(*r, depth, m);
        },
        ValueV::Variable(i, t) => {
            assert(is_terminal(m.on_variable(i, t, depth)));
            lemma_terminal(m.on_variable(i, t, depth));
        },
        ValueV::Constant(a, b, c, d) => {
            assert(is_terminal(m.on_constant(a, b, c, d, depth)));
            lemma_terminal(m.on_constant(a, b, c, d, depth));
        },
        ValueV::Specialized(a, b, c, d) => {
            assert(is_terminal(m.on_specialized(a, b, c, d, depth)));
            lemma_terminal(m.on_specialized(a, b, c, d, depth));
        },
        _ => {},
    }
}

proof fn lemma_terminal(v: ValueV)
    requires
        is_terminal(v),
    ensures
        is_plain(v),
        structure(v) == 0,
{
}

/// Making room on the stack keeps the logical structure.
pub proof fn lemma_shift_keeps_structure(v: ValueV, index: AtomId, increment: AtomId)
    ensures
        structure(shifted(v, index, increment)) == structure(v),
        is_plain(shifted(v, index, increment)) == is_plain(v),
{
    lemma_edit_keeps_structure(v, 0, Shift { index, increment });
}

/// Putting terminal values for variables keeps the logical structure.
pub proof fn lemma_bind_keeps_structure(
    v: ValueV,
    first: AtomId,
    depth: AtomId,
    values: Seq<ValueV>,
)
    requires
        forall|i: int| 0 <= i < values.len() ==> is_terminal(#[trigger] values[i]),
    ensures
        structure(bound(v, first, depth, values)) == structure(v),
        is_plain(bound(v, first, depth, values)) == is_plain(v),
{
    let m = BindV { first, values };
    assert forall|i: AtomId, t: TypeV, d: AtomId| is_terminal(#[trigger] m.on_variable(i, t, d)) by {
        if first <= i && i - first < values.len() {
            let x = values[i - first];
            assert(is_terminal(x));
            assert(is_terminal(shifted(x, first, d.wrapping_sub(first))));
        }
    }
    lemma_edit_keeps_structure(v, depth, m);
}

/// A proposition without its universal quantifiers, and the types of all the variables that it
/// then has, after those that it already had.
pub open spec fn dequantified(quants: Seq<TypeV>, v: ValueV) -> (Seq<TypeV>, ValueV)
    decreases structure(v),
{
    match v {
        ValueV::ForAll(ts, b) => dequantified(quants + ts, *b),
        ValueV::Binary(op, l, r) => if op is And || op is Or {
            let (left_quants, left) = dequantified(quants, *l);
            // The variables of the left side come first.
            let moved = shifted(
                *r,
                quants.len() as AtomId,
                (left_quants.len() - quants.len()) as AtomId,
            );
            proof {
                lemma_shift_keeps_structure(
                    *r,
                    quants.len() as AtomId,
                    (left_quants.len() - quants.len()) as AtomId,
                );
            }
            let (all_quants, right) = dequantified(left_quants, moved);
            (all_quants, ValueV::Binary(op, Box::new(left), Box::new(right)))
        } else {
            (quants, v)
        },
        _ => (quants, v),
    }
}

pub proof fn lemma_dequantified_grows(quants: Seq<TypeV>, v: ValueV)
    ensures
        dequantified(quants, v).0.len() >= quants.len(),
    decreases structure(v),
{
    match v {
        ValueV::ForAll(ts, b) => lemma_dequantified_grows(quants + ts, *b),
        ValueV::Binary(op, l, r) => if op is And || op is Or {
            let left_quants = dequantified(quants, *l).0;
            let moved = shifted(
                *r,
                quants.len() as AtomId,
                (left_quants.len() - quants.len()) as AtomId,
            );
            lemma_shift_keeps_structure(
                *r,
                quants.len() as AtomId,
                (left_quants.len() - quants.len()) as AtomId,
            );
            lemma_dequantified_grows(quants, *l);
            lemma_dequantified_grows(left_quants, moved);
        },
        _ => {},
    }
}

/// Removes the universal quantifiers, and adds the types of their variables to a list.
pub fn remove_forall(v: &AcornValue, quants: &mut Vec<AcornType>) -> (r: AcornValue)
    ensures
        (views(final(quants)@), r@) == dequantified(views(old(quants)@), v@),
    decreases structure(v@),
{
    match v {
        AcornValue::ForAll(ts, b) => {
            let mut more = duplicate_all(ts);
            let ghost before = quants@;
            let ghost added = more@;
            quants.append(&mut more);
            assert(views(quants@) =~= views(before) + views(added));
            remove_forall(b, quants)
        },
        AcornValue::Binary(op, l, r) => {
            if *op == BinaryOp::And || *op == BinaryOp::Or {
                let n = quants.len();
                let left = remove_forall(l, quants);
                proof {
                    lemma_dequantified_grows(views(old(quants)@), l@);
                }
                let added = quants.len() - n;
                let moved = r.insert_stack(n as AtomId, added as AtomId);
                proof {
                    lemma_shift_keeps_structure(r@, n as AtomId, added as AtomId);
                }
                let right = remove_forall(&moved, quants);
                AcornValue::Binary(*op, Box::new(left), Box::new(right))
            } else {
                v.duplicate()
            }
        },
        _ => v.duplicate(),
    }
}

/// All ways to join one of the first `n` lists with one of the others.
pub open spec fn crossed(a: Seq<Seq<ValueV>>, b: Seq<Seq<ValueV>>, n: nat) -> Seq<Seq<ValueV>>
    decreases n,
{
    if n == 0 || n > a.len() {
        Seq::empty()
    } else {
        crossed(a, b, (n - 1) as nat) + Seq::new(b.len(), |j: int| a[n - 1] + b[j])
    }
}

/// The conjunctive normal form of a proposition without quantifiers: lists of values, where in
/// each list at least one value has to hold.
pub open spec fn cnf(v: ValueV) -> Seq<Seq<ValueV>>
    decreases v,
{
    match v {
        ValueV::Binary(BinaryOp::And, l, r) => cnf(*l) + cnf(*r),
        ValueV::Binary(BinaryOp::Or, l, r) => crossed(cnf(*l), cnf(*r), cnf(*l).len()),
        ValueV::Bool(true) => Seq::empty(),
        ValueV::Bool(false) => seq![Seq::empty()],
        _ => seq![seq![v]],
    }
}

/// The models of lists of values.
pub open spec fn lists_view(s: Seq<Vec<AcornValue>>) -> Seq<Seq<ValueV>> {
    Seq::new(s.len(), |i: int| views(s[i]@))
}

fn cross(a: &Vec<Vec<AcornValue>>, b: &Vec<Vec<AcornValue>>) -> (r: Vec<Vec<AcornValue>>)
    ensures
        lists_view(r@) == crossed(lists_view(a@), lists_view(b@), a@.len()),
{
    let ghost av = lists_view(a@);
    let ghost bv = lists_view(b@);
    let mut out: Vec<Vec<AcornValue>> = Vec::new();
    let mut i: usize = 0;
    assert(lists_view(out@) =~= Seq::<Seq<ValueV>>::empty());
    while i < a.len()
        invariant
            i <= a.len(),
            av == lists_view(a@),
            bv == lists_view(b@),
            lists_view(out@) == crossed(av, bv, i as nat),
        decreases a.len() - i,
    {
        let ghost before = out@;
        let mut j: usize = 0;
        while j < b.len()
            invariant
                i < a.len(),
                j <= b.len(),
                av == lists_view(a@),
                bv == lists_view(b@),
                out@.len() == before.len() + j,
                forall|k: int| 0 <= k < before.len() ==> #[trigger] out@[k] == before[k],
                forall|k: int|
                    before.len() <= k < before.len() + j ==> views((#[trigger] out@[k])@)
                        == av[i as int] + bv[k - before.len()],
            decreases b.len() - j,
        {
            let mut list = duplicate_all(&a[i]);
            let mut more = duplicate_all(&b[j]);
            let ghost first = list@;
            let ghost second = more@;
            list.append(&mut more);
            assert(views(list@) =~= views(first) + views(second));
            assert(views(list@) == av[i as int] + bv[j as int]);
            out.push(list);
            j = j + 1;
        }
        assert(lists_view(out@) =~= lists_view(before) + Seq::new(
            bv.len(),
            |k: int| av[i as int] + bv[k],
        ));
        i = i + 1;
    }
    out
}

/// Puts a proposition without quantifiers into conjunctive normal form.
pub fn into_cnf(v: &AcornValue) -> (r: Vec<Vec<AcornValue>>)
    ensures
        lists_view(r@) == cnf(v@),
    decreases v,
{
    match v {
        AcornValue::Binary(BinaryOp::And, l, r) => {
            let mut out = into_cnf(l);
            let mut more = into_cnf(r);
            let ghost first = out@;
            let ghost second = more@;
            out.append(&mut more);
            assert(lists_view(out@) =~= lists_view(first) + lists_view(second));
            out
        },
        AcornValue::Binary(BinaryOp::Or, l, r) => {
            let a = into_cnf(l);
            let b = into_cnf(r);
            assert(lists_view(a@).len() == a@.len());
            cross(&a, &b)
        },
        AcornValue::Bool(true) => {
            let out: Vec<Vec<AcornValue>> = Vec::new();
            assert(lists_view(out@) =~= cnf(v@));
            out
        },
        AcornValue::Bool(false) => {
            let mut out: Vec<Vec<AcornValue>> = Vec::new();
            let none: Vec<AcornValue> = Vec::new();
            assert(views(none@) =~= Seq::<ValueV>::empty());
            out.push(none);
            assert(lists_view(out@) =~= cnf(v@));
            out
        },
        _ => {
            let mut out: Vec<Vec<AcornValue>> = Vec::new();
            let mut one: Vec<AcornValue> = Vec::new();
            one.push(v.duplicate());
            assert(views(one@) =~= seq![v@]);
            out.push(one);
            assert(lists_view(out@) =~= cnf(v@));
            out
        },
    }
}

/// Whether a proposition holds where `m` says which of the values hold that have no logical
/// structure. Quantified propositions are taken as a whole.
pub open spec fn holds(v: ValueV, m: spec_fn(ValueV) -> bool) -> bool
    decreases v,
{
    match v {
        ValueV::Not(x) => !holds(*x, m),
        ValueV::Bool(b) => b,
        ValueV::Binary(BinaryOp::And, l, r) => holds(*l, m) && holds(*r, m),
        ValueV::Binary(BinaryOp::Or, l, r) => holds(*l, m) || holds(*r, m),
        ValueV::Binary(BinaryOp::Implies, l, r) => holds(*l, m) ==> holds(*r, m),
        ValueV::Binary(op, l, r) => {
            let same = if value_type(*l) is Bool {
                holds(*l, m) == holds(*r, m)
            } else {
                m(ValueV::Binary(BinaryOp::Equals, l, r))
            };
            same == (op is Equals)
        },
        ValueV::IfThenElse(c, a, b) => if holds(*c, m) {
            holds(*a, m)
        } else {
            holds(*b, m)
        },
        _ => m(v),
    }
}

/// Whether a proposition has no quantifiers in its logical structure.
pub open spec fn is_propositional(v: ValueV) -> bool
    decreases v,
{
    match v {
        ValueV::ForAll(_, _) => false,
        ValueV::Exists(_, _) => false,
        ValueV::Not(x) => is_propositional(*x),
        ValueV::Binary(op, l, r) => if op is Equals || op is NotEquals {
            value_type(*l) is Bool ==> is_propositional(*l) && is_propositional(*r)
        } else {
            is_propositional(*l) && is_propositional(*r)
        },
        ValueV::IfThenElse(c, a, b) => is_propositional(*c) && is_propositional(*a)
            && is_propositional(*b),
        _ => true,
    }
}

/// Moving negations inwards does not change when a proposition without quantifiers holds, and
/// with `negate` it gives the opposite.
pub proof fn law_negation_inside_means_the_same(
    v: ValueV,
    negate: bool,
    m: spec_fn(ValueV) -> bool,
)
    requires
        is_propositional(v),
    ensures
        holds(negation_inside(v, negate), m) == (holds(v, m) != negate),
    decreases v,
{
    match v {
        ValueV::Not(x) => law_negation_inside_means_the_same(*x, !negate, m),
        ValueV::Binary(op, l, r) => {
            if !(op is Equals || op is NotEquals) || value_type(*l) is Bool {
                law_negation_inside_means_the_same(*l, true, m);
                law_negation_inside_means_the_same(*l, false, m);
                law_negation_inside_means_the_same(*r, true, m);
                law_negation_inside_means_the_same(*r, false, m);
                reveal_with_fuel(holds, 3);
            }
        },
        ValueV::IfThenElse(c, a, b) => {
            law_negation_inside_means_the_same(*c, true, m);
            law_negation_inside_means_the_same(*c, false, m);
            law_negation_inside_means_the_same(*a, negate, m);
            law_negation_inside_means_the_same(*b, negate, m);
            reveal_with_fuel(holds, 3);
        },
        _ => {
            reveal_with_fuel(holds, 2);
        },
    }
}

/// Whether one value of a list holds.
pub open spec fn some_holds(list: Seq<ValueV>, m: spec_fn(ValueV) -> bool) -> bool {
    exists|i: int| 0 <= i < list.len() && holds(#[trigger] list[i], m)
}

/// Whether one value of each list holds.
pub open spec fn each_holds(lists: Seq<Seq<ValueV>>, m: spec_fn(ValueV) -> bool) -> bool {
    forall|i: int| 0 <= i < lists.len() ==> some_holds(#[trigger] lists[i], m)
}

proof fn lemma_join(a: Seq<ValueV>, b: Seq<ValueV>, m: spec_fn(ValueV) -> bool)
    ensures
        some_holds(a + b, m) == (some_holds(a, m) || some_holds(b, m)),
{
    let c = a + b;
    if some_holds(a, m) {
        let i = choose|i: int| 0 <= i < a.len() && holds(#[trigger] a[i], m);
        assert(holds(c[i], m));
    }
    if some_holds(b, m) {
        let i = choose|i: int| 0 <= i < b.len() && holds(#[trigger] b[i], m);
        assert(holds(c[a.len() + i], m));
    }
    if some_holds(c, m) {
        let i = choose|i: int| 0 <= i < c.len() && holds(#[trigger] c[i], m);
        if i < a.len() {
            assert(holds(a[i], m));
        } else {
            assert(holds(b[i - a.len()], m));
        }
    }
}

proof fn lemma_each_joined(
    a: Seq<Seq<ValueV>>,
    b: Seq<Seq<ValueV>>,
    m: spec_fn(ValueV) -> bool,
)
    ensures
        each_holds(a + b, m) == (each_holds(a, m) && each_holds(b, m)),
{
    let c = a + b;
    if each_holds(c, m) {
        assert forall|i: int| 0 <= i < a.len() implies some_holds(#[trigger] a[i], m) by {
            assert(some_holds(c[i], m));
        }
        assert forall|i: int| 0 <= i < b.len() implies some_holds(#[trigger] b[i], m) by {
            assert(some_holds(c[a.len() + i], m));
        }
    }
    if each_holds(a, m) && each_holds(b, m) {
        assert forall|i: int| 0 <= i < c.len() implies some_holds(#[trigger] c[i], m) by {
            if i < a.len() {
                assert(some_holds(a[i], m));
            } else {
                assert(some_holds(b[i - a.len()], m));
            }
        }
    }
}

proof fn lemma_crossed(
    a: Seq<Seq<ValueV>>,
    b: Seq<Seq<ValueV>>,
    n: nat,
    m: spec_fn(ValueV) -> bool,
)
    requires
        n <= a.len(),
    ensures
        each_holds(crossed(a, b, n), m) == (each_holds(a.take(n as int), m) || each_holds(b, m)),
    decreases n,
{
    if n > 0 {
        let before = crossed(a, b, (n - 1) as nat);
        let row = Seq::new(b.len(), |j: int| a[n - 1] + b[j]);
        let last = seq![a[n - 1]];
        lemma_crossed(a, b, (n - 1) as nat, m);
        lemma_each_joined(before, row, m);
        assert(a.take(n as int) =~= a.take(n - 1) + last);
        lemma_each_joined(a.take(n - 1), last, m);
        assert(each_holds(last, m) == some_holds(a[n - 1], m)) by {
            assert(last[0] == a[n - 1]);
        }
        assert forall|j: int| 0 <= j < b.len() implies some_holds(#[trigger] row[j], m) == (
        some_holds(a[n - 1], m) || some_holds(b[j], m)) by {
            lemma_join(a[n - 1], b[j], m);
        }
        if each_holds(row, m) && !some_holds(a[n - 1], m) {
            assert forall|j: int| 0 <= j < b.len() implies some_holds(#[trigger] b[j], m) by {
                assert(some_holds(row[j], m));
            }
        }
        if each_holds(b, m) {
            assert forall|j: int| 0 <= j < row.len() implies some_holds(#[trigger] row[j], m) by {
                assert(some_holds(b[j], m));
            }
        }
    }
}

/// A proposition holds exactly where in each list of its conjunctive normal form some value
/// holds.
pub proof fn law_cnf_means_the_same(v: ValueV, m: spec_fn(ValueV) -> bool)
    ensures
        holds(v, m) == each_holds(cnf(v), m),
    decreases v,
{
    match v {
        ValueV::Binary(BinaryOp::And, l, r) => {
            law_cnf_means_the_same(*l, m);
            law_cnf_means_the_same(*r, m);
            lemma_each_joined(cnf(*l), cnf(*r), m);
        },
        ValueV::Binary(BinaryOp::Or, l, r) => {
            law_cnf_means_the_same(*l, m);
            law_cnf_means_the_same(*r, m);
            lemma_crossed(cnf(*l), cnf(*r), cnf(*l).len(), m);
            assert(cnf(*l).take(cnf(*l).len() as int) =~= cnf(*l));
        },
        ValueV::Bool(true) => {},
        ValueV::Bool(false) => {
            assert(!some_holds(cnf(v)[0], m));
        },
        _ => {
            assert(cnf(v) == seq![seq![v]]);
            assert(cnf(v)[0] == seq![v]);
            if holds(v, m) {
                assert(holds(seq![v][0], m));
            }
            assert(each_holds(cnf(v), m) ==> some_holds(cnf(v)[0], m));
        },
    }
}

} // verus!
