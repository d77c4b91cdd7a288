//! What values mean: interpretations of types and constants, and the values that expressions of
//! the language have in them.

use vstd::prelude::*;

use crate::acorn_type::{ModuleId, TypeV};
use crate::acorn_value::{value_type, BinaryOp, ValueV};
use crate::logic::negation_inside;

verus! {

/// An interpretation. Its elements are numbers; a proposition holds where its value is one.
pub struct ModelV {
    /// Which elements a type has.
    pub domain: spec_fn(TypeV, int) -> bool,
    /// What a constant stands for.
    pub constant: spec_fn(ModuleId, Seq<char>, TypeV, Seq<Seq<char>>) -> int,
    /// What a constant with type parameters stands for.
    pub specialized: spec_fn(ModuleId, Seq<char>, TypeV, Seq<(Seq<char>, TypeV)>) -> int,
    /// What a function gives for some arguments.
    pub apply: spec_fn(int, Seq<int>) -> int,
    /// The element that is the function of arguments of some types.
    pub function: spec_fn(Seq<TypeV>, spec_fn(Seq<int>) -> int) -> int,
}

/// Whether elements are of the given types, one for one.
pub open spec fn are_of(m: ModelV, ts: Seq<TypeV>, xs: Seq<int>) -> bool {
    xs.len() == ts.len() && forall|i: int|
        0 <= i < ts.len() ==> (m.domain)(#[trigger] ts[i], #[trigger] xs[i])
}

/// The element that stands for a truth value.
pub open spec fn truth(b: bool) -> int {
    if b {
        1
    } else {
        0
    }
}

/// What a value is in an interpretation, where the variables on the stack are the given elements.
pub open spec fn meaning(v: ValueV, m: ModelV, st: Seq<int>) -> int
    decreases v, 0nat,
{
    match v {
        ValueV::Variable(i, _) => st[i as int],
        ValueV::Constant(module, name, t, params) => (m.constant)(module, name, t, params),
        ValueV::Specialized(module, name, t, params) => (m.specialized)(module, name, t, params),
        ValueV::Application(f, args) => (m.apply)(meaning(*f, m, st), meanings(args, m, st)),
        ValueV::Lambda(ts, b) => (m.function)(ts, function_of(ts, *b, m, st)),
        ValueV::ForAll(ts, b) => truth(for_all(ts, *b, m, st)),
        ValueV::Exists(ts, b) => truth(for_some(ts, *b, m, st)),
        ValueV::Binary(op, l, r) => {
            let a = meaning(*l, m, st);
            let b = meaning(*r, m, st);
            // Propositions are the same where both hold, or neither does.
            let same = if value_type(*l) is Bool {
                (a == 1) == (b == 1)
            } else {
                a == b
            };
            truth(
                match op {
                    BinaryOp::Implies => a == 1 ==> b == 1,
                    BinaryOp::And => a == 1 && b == 1,
                    BinaryOp::Or => a == 1 || b == 1,
                    BinaryOp::Equals => same,
                    BinaryOp::NotEquals => !same,
                },
            )
        },
        ValueV::Not(x) => truth(meaning(*x, m, st) != 1),
        ValueV::Bool(b) => truth(b),
        ValueV::IfThenElse(c, a, b) => if meaning(*c, m, st) == 1 {
            meaning(*a, m, st)
        } else {
            meaning(*b, m, st)
        },
    }
}

/// What a value is for each choice of elements of the given types for the variables on top of the
/// stack.
pub open spec fn function_of(
    ts: Seq<TypeV>,
    b: ValueV,
    m: ModelV,
    st: Seq<int>,
) -> spec_fn(Seq<int>) -> int
    decreases b, 1nat,
{
    |xs: Seq<int>|
        if are_of(m, ts, xs) {
            meaning(b, m, st + xs)
        } else {
            0
        }
}

/// Whether a value holds for all elements of the given types.
pub open spec fn for_all(ts: Seq<TypeV>, b: ValueV, m: ModelV, st: Seq<int>) -> bool
    decreases b, 1nat,
{
    forall|xs: Seq<int>| #[trigger] are_of(m, ts, xs) ==> meaning(b, m, st + xs) == 1
}

/// Whether there are elements of the given types for which a value holds.
pub open spec fn for_some(ts: Seq<TypeV>, b: ValueV, m: ModelV, st: Seq<int>) -> bool
    decreases b, 1nat,
{
    exists|xs: Seq<int>| #[trigger] are_of(m, ts, xs) && meaning(b, m, st + xs) == 1
}

/// What each of some values is.
pub open spec fn meanings(vs: Seq<ValueV>, m: ModelV, st: Seq<int>) -> Seq<int>
    decreases vs, 0nat,
{
    Seq::new(
        vs.len(),
        |i: int|
            if 0 <= i < vs.len() {
                meaning(vs[i], m, st)
            } else {
                0
            },
    )
}

/// Whether a value holds as a proposition.
pub open spec fn is_true(v: ValueV, m: ModelV, st: Seq<int>) -> bool {
    meaning(v, m, st) == 1
}

/// What quantified claims say.
pub proof fn lemma_quantified(ts: Seq<TypeV>, b: ValueV, m: ModelV, st: Seq<int>)
    ensures
        is_true(ValueV::ForAll(ts, Box::new(b)), m, st) == (forall|xs: Seq<int>| #[trigger]
            are_of(m, ts, xs) ==> is_true(b, m, st + xs)),
        is_true(ValueV::Exists(ts, Box::new(b)), m, st) == (exists|xs: Seq<int>| #[trigger]
            are_of(m, ts, xs) && is_true(b, m, st + xs)),
{
    assert(is_true(ValueV::ForAll(ts, Box::new(b)), m, st) == for_all(ts, b, m, st));
    assert(is_true(ValueV::Exists(ts, Box::new(b)), m, st) == for_some(ts, b, m, st));
}

/// Moving negations inwards keeps what a proposition says, in every interpretation and with
/// quantifiers at every depth; with a negation to begin with it says the opposite.
pub proof fn law_negation_inside_keeps_the_meaning(
    v: ValueV,
    negate: bool,
    m: ModelV,
    st: Seq<int>,
)
    ensures
        is_true(negation_inside(v, negate), m, st) == (is_true(v, m, st) != negate),
    decreases v,
{
    match v {
        ValueV::Not(x) => {
            law_negation_inside_keeps_the_meaning(*x, !negate, m, st);
        },
        ValueV::Binary(op, l, r) => {
            law_negation_inside_keeps_the_meaning(*l, true, m, st);
            law_negation_inside_keeps_the_meaning(*l, false, m, st);
            law_negation_inside_keeps_the_meaning(*r, true, m, st);
            law_negation_inside_keeps_the_meaning(*r, false, m, st);
            reveal_with_fuel(meaning, 3);
        },
        ValueV::IfThenElse(c, a, b) => {
            law_negation_inside_keeps_the_meaning(*c, true, m, st);
            law_negation_inside_keeps_the_meaning(*c, false, m, st);
            law_negation_inside_keeps_the_meaning(*a, negate, m, st);
            law_negation_inside_keeps_the_meaning(*b, negate, m, st);
            reveal_with_fuel(meaning, 3);
        },
        ValueV::ForAll(ts, b) => {
            assert forall|xs: Seq<int>| #[trigger] are_of(m, ts, xs) implies is_true(
                negation_inside(*b, negate),
                m,
                st + xs,
            ) == (is_true(*b, m, st + xs) != negate) by {
                law_negation_inside_keeps_the_meaning(*b, negate, m, st + xs);
            }
            lemma_quantified(ts, *b, m, st);
            lemma_quantified(ts, negation_inside(*b, negate), m, st);
        },
        ValueV::Exists(ts, b) => {
            assert forall|xs: Seq<int>| #[trigger] are_of(m, ts, xs) implies is_true(
                negation_inside(*b, negate),
                m,
                st + xs,
            ) == (is_true(*b, m, st + xs) != negate) by {
                law_negation_inside_keeps_the_meaning(*b, negate, m, st + xs);
            }
            lemma_quantified(ts, *b, m, st);
            lemma_quantified(ts, negation_inside(*b, negate), m, st);
        },
        _ => {
            reveal_with_fuel(meaning, 2);
        },
    }
}

/// The negation of a universal claim holds wherever one instance of the claim fails, and only
/// there; moving the negation inwards does not change that.
pub proof fn law_one_failing_instance_refutes(
    ts: Seq<TypeV>,
    b: ValueV,
    m: ModelV,
    st: Seq<int>,
)
    ensures
        is_true(negation_inside(ValueV::ForAll(ts, Box::new(b)), true), m, st) <==> exists|
            xs: Seq<int>,
        | #[trigger]
            are_of(m, ts, xs) && !is_true(b, m, st + xs),
        is_true(negation_inside(ValueV::Exists(ts, Box::new(b)), true), m, st) <==> forall|
            xs: Seq<int>,
        | #[trigger]
            are_of(m, ts, xs) ==> !is_true(b, m, st + xs),
{
    law_negation_inside_keeps_the_meaning(ValueV::ForAll(ts, Box::new(b)), true, m, st);
    law_negation_inside_keeps_the_meaning(ValueV::Exists(ts, Box::new(b)), true, m, st);
    lemma_quantified(ts, b, m, st);
}

} // verus!
