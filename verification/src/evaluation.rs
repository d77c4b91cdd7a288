//! What the values of expressions mean, in terms of the meanings of their parts.

use vstd::prelude::*;

use crate::acorn_type::TypeV;
use crate::acorn_value::{value_type, ValueV};
use crate::binding_map::{
    applied_value, binder_value, called_value, eval_application, eval_args, eval_binder,
    eval_choice, eval_declarations, eval_member, eval_negation, eval_operation, eval_value,
    eval_word, inferred, infix_name, infix_value, matched_args, pushed_all, take_arg, BindingMapV,
    StackV,
};
use crate::compilation::ErrorV;
use crate::expression::{list_of, ExprV};
use crate::model::{are_of, function_of, is_true, lemma_quantified, meaning, meanings, ModelV};
use crate::project::ProjectV;
use crate::token::{TokenType, TokenV};

verus! {

/// The value of `if c { a } else { b }` is that of `a` where `c` holds, and that of `b` where it
/// does not. There is one exactly where there is one of each part.
pub proof fn law_choices_mean_choices(
    b: BindingMapV,
    p: ProjectV,
    st: StackV,
    t: TokenV,
    c: ExprV,
    yes: ExprV,
    no: ExprV,
    brace: TokenV,
    want: Option<TypeV>,
    m: ModelV,
    xs: Seq<int>,
)
    ensures
        ({
            let e = ExprV::IfThenElse(t, Box::new(c), Box::new(yes), Box::new(no), brace);
            let (cv, s1) = eval_value(b, p, st, c, Some(TypeV::Bool));
            let (yv, s2) = eval_value(b, p, s1, yes, want);
            let nv = eval_value(b, p, s2, no, Some(value_type(yv->Ok_0))).0;
            let v = eval_value(b, p, st, e, want).0;
            &&& v is Ok <==> cv is Ok && yv is Ok && nv is Ok
            &&& v is Ok && is_true(cv->Ok_0, m, xs) ==> meaning(v->Ok_0, m, xs) == meaning(
                yv->Ok_0,
                m,
                xs,
            )
            &&& v is Ok && !is_true(cv->Ok_0, m, xs) ==> meaning(v->Ok_0, m, xs) == meaning(
                nv->Ok_0,
                m,
                xs,
            )
        }),
{
    let e = ExprV::IfThenElse(t, Box::new(c), Box::new(yes), Box::new(no), brace);
    assert(eval_value(b, p, st, e, want) == eval_choice(b, p, st, e, want));
}

/// The value of `not x`, or `!x`, holds exactly where that of `x` does not.
pub proof fn law_negations_mean_negations(
    b: BindingMapV,
    p: ProjectV,
    st: StackV,
    t: TokenV,
    x: ExprV,
    want: Option<TypeV>,
    m: ModelV,
    xs: Seq<int>,
)
    requires
        t.token_type == TokenType::Exclam,
    ensures
        ({
            let e = ExprV::Unary(t, Box::new(x));
            let xv = eval_value(b, p, st, x, Some(TypeV::Bool)).0;
            let v = eval_value(b, p, st, e, want).0;
            &&& v is Ok <==> xv is Ok && (want is None || want == Some(TypeV::Bool))
            &&& v is Ok ==> is_true(v->Ok_0, m, xs) == !is_true(xv->Ok_0, m, xs)
        }),
{
    let e = ExprV::Unary(t, Box::new(x));
    assert(eval_value(b, p, st, e, want) == eval_negation(b, p, st, e, want));
}

/// Conjunctions, disjunctions and implications hold according to what holds of their operands,
/// which have to be propositions.
pub proof fn law_connectives_mean_connectives(
    b: BindingMapV,
    p: ProjectV,
    st: StackV,
    l: ExprV,
    t: TokenV,
    r: ExprV,
    want: Option<TypeV>,
    m: ModelV,
    xs: Seq<int>,
)
    requires
        t.token_type == TokenType::Ampersand || t.token_type == TokenType::Pipe || t.token_type
            == TokenType::RightArrow,
    ensures
        ({
            let e = ExprV::Binary(Box::new(l), t, Box::new(r));
            let (lv, s) = eval_value(b, p, st, l, Some(TypeV::Bool));
            let rv = eval_value(b, p, s, r, Some(TypeV::Bool)).0;
            let v = eval_value(b, p, st, e, want).0;
            let left = is_true(lv->Ok_0, m, xs);
            let right = is_true(rv->Ok_0, m, xs);
            &&& v is Ok <==> lv is Ok && rv is Ok && (want is None || want == Some(TypeV::Bool))
            &&& v is Ok && t.token_type == TokenType::Ampersand ==> is_true(v->Ok_0, m, xs) == (left
                && right)
            &&& v is Ok && t.token_type == TokenType::Pipe ==> is_true(v->Ok_0, m, xs) == (left
                || right)
            &&& v is Ok && t.token_type == TokenType::RightArrow ==> is_true(v->Ok_0, m, xs) == (
            left ==> right)
        }),
{
    let e = ExprV::Binary(Box::new(l), t, Box::new(r));
    assert(eval_value(b, p, st, e, want) == eval_operation(b, p, st, e, want));
}

/// Equations hold where both sides are the same, and inequations where they are not. Propositions
/// are the same where both hold or neither does. Both sides have the type of the left one.
pub proof fn law_comparisons_mean_comparisons(
    b: BindingMapV,
    p: ProjectV,
    st: StackV,
    l: ExprV,
    t: TokenV,
    r: ExprV,
    want: Option<TypeV>,
    m: ModelV,
    xs: Seq<int>,
)
    requires
        t.token_type == TokenType::Equals || t.token_type == TokenType::NotEquals,
    ensures
        ({
            let e = ExprV::Binary(Box::new(l), t, Box::new(r));
            let (lv, s) = eval_value(b, p, st, l, None);
            let rv = eval_value(b, p, s, r, Some(value_type(lv->Ok_0))).0;
            let v = eval_value(b, p, st, e, want).0;
            let same = if value_type(lv->Ok_0) is Bool {
                is_true(lv->Ok_0, m, xs) == is_true(rv->Ok_0, m, xs)
            } else {
                meaning(lv->Ok_0, m, xs) == meaning(rv->Ok_0, m, xs)
            };
            &&& v is Ok <==> lv is Ok && rv is Ok && (want is None || want == Some(TypeV::Bool))
            &&& v is Ok && t.token_type == TokenType::Equals ==> is_true(v->Ok_0, m, xs) == same
            &&& v is Ok && t.token_type == TokenType::NotEquals ==> is_true(v->Ok_0, m, xs) == !same
        }),
{
    let e = ExprV::Binary(Box::new(l), t, Box::new(r));
    assert(eval_value(b, p, st, e, want) == eval_operation(b, p, st, e, want));
}

/// A universal claim holds where its body holds for all elements of the declared types, an
/// existential one where it holds for some, and a function is the function of its body. In the
/// body the declared variables come on top of the stack.
pub proof fn law_binders_bind(
    b: BindingMapV,
    p: ProjectV,
    st: StackV,
    t: TokenV,
    args: ExprV,
    body: ExprV,
    brace: TokenV,
    want: Option<TypeV>,
    m: ModelV,
    xs: Seq<int>,
    list: Seq<ExprV>,
    names: Seq<Seq<char>>,
    types: Seq<TypeV>,
)
    requires
        list_of(args, false) == Ok::<Seq<ExprV>, ErrorV>(list),
        eval_declarations(b, p, list, list.len()) == Ok::<(Seq<Seq<char>>, Seq<TypeV>), ErrorV>(
            (names, types),
        ),
    ensures
        ({
            let e = ExprV::Binder(t, Box::new(args), Box::new(body), brace);
            let claim = t.token_type == TokenType::ForAll || t.token_type == TokenType::Exists;
            let inner = eval_value(
                b,
                p,
                pushed_all(st, names, types, 0),
                body,
                if claim {
                    Some(TypeV::Bool)
                } else {
                    None
                },
            ).0;
            let v = eval_value(b, p, st, e, want).0;
            &&& v is Ok ==> inner is Ok
            &&& v is Ok && t.token_type == TokenType::ForAll ==> is_true(v->Ok_0, m, xs) == (forall|
                ys: Seq<int>,
            | #[trigger]
                are_of(m, types, ys) ==> is_true(inner->Ok_0, m, xs + ys))
            &&& v is Ok && t.token_type == TokenType::Exists ==> is_true(v->Ok_0, m, xs) == (exists|
                ys: Seq<int>,
            | #[trigger]
                are_of(m, types, ys) && is_true(inner->Ok_0, m, xs + ys))
            &&& v is Ok && t.token_type == TokenType::Function ==> meaning(v->Ok_0, m, xs)
                == (m.function)(types, function_of(types, inner->Ok_0, m, xs))
            &&& v is Ok && t.token_type != TokenType::ForAll && t.token_type != TokenType::Exists
                ==> t.token_type == TokenType::Function
            &&& claim && inner is Ok && (want is None || want == Some(TypeV::Bool)) ==> v is Ok
        }),
{
    reveal(binder_value);
    let e = ExprV::Binder(t, Box::new(args), Box::new(body), brace);
    assert(eval_value(b, p, st, e, want) == eval_binder(b, p, st, e, want));
    if let Ok(v) = eval_value(b, p, st, e, want).0 {
        match v {
            ValueV::ForAll(ts, inner) => {
                lemma_quantified(ts, *inner, m, xs);
            },
            ValueV::Exists(ts, inner) => {
                lemma_quantified(ts, *inner, m, xs);
            },
            ValueV::Lambda(ts, inner) => {
                assert(meaning(v, m, xs) == (m.function)(ts, function_of(ts, *inner, m, xs)));
            },
            _ => {},
        }
    }
}

/// A function that is applied to arguments gives what the function gives for what the arguments
/// are. A function with type parameters is taken for the types that the arguments tell.
pub proof fn law_applications_apply(
    b: BindingMapV,
    p: ProjectV,
    st: StackV,
    f: ExprV,
    left: TokenV,
    inner: ExprV,
    right: TokenV,
    want: Option<TypeV>,
    m: ModelV,
    xs: Seq<int>,
)
    ensures
        ({
            let e = ExprV::Apply(
                Box::new(f),
                Box::new(ExprV::Grouping(left, Box::new(inner), right)),
            );
            let (fv, s) = eval_value(b, p, st, f, None);
            let v = eval_value(b, p, st, e, want).0;
            v is Ok ==> fv is Ok && value_type(fv->Ok_0) is Function && ({
                let found = eval_args(b, p, s, inner, value_type(fv->Ok_0)->Function_0).0;
                found is Ok && ({
                    let (vs, params) = found->Ok_0;
                    if params.dom().len() == 0 {
                        meaning(v->Ok_0, m, xs) == (m.apply)(
                            meaning(fv->Ok_0, m, xs),
                            meanings(vs, m, xs),
                        )
                    } else {
                        fv->Ok_0 matches ValueV::Constant(module, name, t, ps) && exists|
                            types: Seq<(Seq<char>, TypeV)>,
                        |
                            types.len() == ps.len() && (forall|i: int|
                                0 <= i < ps.len() ==> (#[trigger] types[i]).0 == ps[i]
                                    && params.dom().contains(ps[i]) && types[i].1 == params[ps[i]])
                                && meaning(v->Ok_0, m, xs) == (m.apply)(
                                #[trigger] (m.specialized)(module, name, t, types),
                                meanings(vs, m, xs),
                            )
                    }
                })
            })
        }),
{
    reveal(applied_value);
    let e = ExprV::Apply(
        Box::new(f),
        Box::new(ExprV::Grouping(left, Box::new(inner), right)),
    );
    assert(eval_value(b, p, st, e, want) == eval_application(b, p, st, e, want));
    reveal_with_fuel(meaning, 2);
    let (fv, s) = eval_value(b, p, st, f, None);
    if let Ok(v) = eval_value(b, p, st, e, want).0 {
        let (vs, params) = eval_args(b, p, s, inner, value_type(fv->Ok_0)->Function_0).0->Ok_0;
        if params.dom().len() != 0 {
            if let ValueV::Constant(module, name, t, ps) = fv->Ok_0 {
                let token = crate::expression::expr_token(f);
                lemma_inferred(ps, params, token, ps.len());
                let types = inferred(ps, params, token, ps.len())->Ok_0;
                assert(v == ValueV::Application(
                    Box::new(ValueV::Specialized(module, name, t, types)),
                    vs,
                ));
                assert(meaning(v, m, xs) == (m.apply)(
                    (m.specialized)(module, name, t, types),
                    meanings(vs, m, xs),
                ));
            }
        }
    }
}

proof fn lemma_inferred(
    names: Seq<Seq<char>>,
    params: Map<Seq<char>, TypeV>,
    token: TokenV,
    n: nat,
)
    requires
        n <= names.len(),
    ensures
        inferred(names, params, token, n) matches Ok(types) ==> types.len() == n && forall|i: int|
            0 <= i < n ==> (#[trigger] types[i]).0 == names[i] && params.dom().contains(names[i])
                && types[i].1 == params[names[i]],
    decreases n,
{
    if n > 0 {
        lemma_inferred(names, params, token, (n - 1) as nat);
    }
}

/// Arguments are evaluated one by one, from the left, each with the stack that is left by those
/// before it.
pub proof fn law_arguments_are_evaluated_in_order(
    b: BindingMapV,
    p: ProjectV,
    st: StackV,
    l: ExprV,
    t: TokenV,
    r: ExprV,
    arg_types: Seq<TypeV>,
)
    requires
        t.token_type == TokenType::Comma,
    ensures
        ({
            let e = ExprV::Binary(Box::new(l), t, Box::new(r));
            let (before, s) = eval_args(b, p, st, l, arg_types);
            let last = eval_value(b, p, s, r, None).0;
            let all = eval_args(b, p, st, e, arg_types).0;
            all is Ok ==> before is Ok && last is Ok && all->Ok_0.0 == before->Ok_0.0.push(last->Ok_0)
        }),
{
    reveal(take_arg);
}

/// The words for truth values mean these, and a variable on the stack is the element at its place.
pub proof fn law_words_mean_what_they_name(
    b: BindingMapV,
    p: ProjectV,
    st: StackV,
    t: TokenV,
    want: Option<TypeV>,
    m: ModelV,
    xs: Seq<int>,
)
    ensures
        ({
            let v = eval_value(b, p, st, ExprV::Identifier(t), want).0;
            &&& v is Ok && t.token_type == TokenType::True ==> is_true(v->Ok_0, m, xs)
            &&& v is Ok && t.token_type == TokenType::False ==> !is_true(v->Ok_0, m, xs)
            &&& v is Ok && t.token_type == TokenType::Identifier && st.dom().contains(t.text)
                ==> meaning(v->Ok_0, m, xs) == xs[st[t.text].0 as int] && value_type(v->Ok_0)
                == st[t.text].1
            &&& v is Ok && t.token_type == TokenType::Identifier && !st.dom().contains(t.text)
                ==> b.constant_value(t.text) == Some(v->Ok_0)
        }),
{
    reveal(eval_word);
}

/// Parentheses around an expression change nothing.
pub proof fn law_parentheses_only_group(
    b: BindingMapV,
    p: ProjectV,
    st: StackV,
    left: TokenV,
    e: ExprV,
    right: TokenV,
    want: Option<TypeV>,
)
    ensures
        eval_value(b, p, st, ExprV::Grouping(left, Box::new(e), right), want) == eval_value(
            b,
            p,
            st,
            e,
            want,
        ),
{
}

/// The name of the method that an operator of numbers stands for.
pub open spec fn is_method(t: TokenType, name: Seq<char>) -> bool {
    ||| t == TokenType::Plus && name == "add"@
    ||| t == TokenType::Minus && name == "sub"@
    ||| t == TokenType::Asterisk && name == "mul"@
    ||| t == TokenType::Slash && name == "div"@
    ||| t == TokenType::Percent && name == "mod"@
    ||| t == TokenType::LessThan && name == "lt"@
    ||| t == TokenType::GreaterThan && name == "gt"@
    ||| t == TokenType::LessThanOrEquals && name == "lte"@
    ||| t == TokenType::GreaterThanOrEquals && name == "gte"@
}

/// An operator of numbers gives what the method of its name of the left operand's type gives for
/// the left operand and the right one, in this order.
pub proof fn law_operators_are_methods(
    b: BindingMapV,
    p: ProjectV,
    st: StackV,
    l: ExprV,
    t: TokenV,
    r: ExprV,
    name: Seq<char>,
    want: Option<TypeV>,
    m: ModelV,
    xs: Seq<int>,
)
    requires
        is_method(t.token_type, name),
    ensures
        ({
            let e = ExprV::Binary(Box::new(l), t, Box::new(r));
            let (lv, s) = eval_value(b, p, st, l, None);
            let rv = eval_value(b, p, s, r, None).0;
            let v = eval_value(b, p, st, e, want).0;
            v is Ok ==> lv is Ok && rv is Ok && ({
                let f = eval_member(b, p, t, value_type(lv->Ok_0), name);
                f is Ok && (value_type(f->Ok_0) is Function && matched_args(
                    value_type(f->Ok_0)->Function_0,
                    seq![lv->Ok_0, rv->Ok_0],
                    t,
                    2,
                ) == Ok::<Map<Seq<char>, TypeV>, ErrorV>(Map::empty()) ==> meaning(v->Ok_0, m, xs)
                    == (m.apply)(
                    meaning(f->Ok_0, m, xs),
                    seq![meaning(lv->Ok_0, m, xs), meaning(rv->Ok_0, m, xs)],
                ))
            })
        }),
{
    reveal(infix_name);
    reveal(infix_value);
    reveal(called_value);
    reveal(applied_value);
    reveal_with_fuel(meaning, 2);
    let e = ExprV::Binary(Box::new(l), t, Box::new(r));
    assert(eval_value(b, p, st, e, want) == eval_operation(b, p, st, e, want));
    let (lv, s) = eval_value(b, p, st, l, None);
    let rv = eval_value(b, p, s, r, None).0;
    let pair = seq![lv->Ok_0, rv->Ok_0];
    assert(meanings(pair, m, xs) =~= seq![meaning(lv->Ok_0, m, xs), meaning(rv->Ok_0, m, xs)]);
    assert(Map::<Seq<char>, TypeV>::empty().dom() =~= Set::empty());
    assert(Map::<Seq<char>, TypeV>::empty().dom().len() == 0);
}

/// A member of a type is the constant whose name is that of the type, a dot and that of the
/// member, in the module that defines the type.
pub proof fn law_members_are_constants_of_the_type(
    b: BindingMapV,
    p: ProjectV,
    t: TokenV,
    ty: TypeV,
    member: Seq<char>,
)
    ensures
        eval_member(b, p, t, ty, member) matches Ok(v) ==> (ty matches TypeV::Data(module, name) && ({
            let scope = if module == b.module {
                b
            } else {
                p.modules[module]
            };
            scope.constant_value(name + "."@ + member) == Some(v)
        })),
{
    reveal(eval_member);
}

} // verus!
