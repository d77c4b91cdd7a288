//! How types and values are written part by part, for messages about what is inside them.

use vstd::prelude::*;

use crate::acorn_type::{AcornType, TypeParam, TypeV};
use crate::acorn_value::{AcornValue, BinaryOp, ValueV};
use crate::text::{decimal, decimal_text, join, joined, views};

verus! {

/// A text in double quotes, with escapes where they are needed, as std's `Debug` writes it.
pub uninterp spec fn quoted(s: Seq<char>) -> Seq<char>;

/// Whether a character is one that names are made of.
pub open spec fn is_plain(c: char) -> bool {
    'a' <= c <= 'z' || 'A' <= c <= 'Z' || '0' <= c <= '9' || c == '_' || c == '.'
}

/// Writes a text by the `Debug` of std's `str`. What comes out depends on the text alone and is
/// named `quoted`; letters, digits, underscores and dots stay as they are, between two quotes.
#[verifier::external_body]
pub(crate) fn quote(s: &str) -> (r: String)
    ensures
        r@ == quoted(s@),
        (forall|i: int| 0 <= i < s@.len() ==> #[trigger] is_plain(s@[i])) ==> r@ == seq!['"'] + s@
            + seq!['"'],
{
    format!("{:?}", s)
}

/// Texts in square brackets.
pub open spec fn listed(parts: Seq<Seq<char>>) -> Seq<char> {
    "["@ + joined(parts, ", "@) + "]"@
}

/// A type, part by part.
pub open spec fn type_parts(t: TypeV) -> Seq<char>
    decreases t,
{
    match t {
        TypeV::Empty => "Empty"@,
        TypeV::Bool => "Bool"@,
        TypeV::Data(m, name) => "Data("@ + decimal_text(m as nat) + ", "@ + quoted(name) + ")"@,
        TypeV::Parameter(name) => "Parameter("@ + quoted(name) + ")"@,
        TypeV::Function(args, ret) => "Function(FunctionType { arg_types: "@ + listed(
            types_parts(args),
        ) + ", return_type: "@ + type_parts(*ret) + " })"@,
    }
}

/// Each of some types, part by part.
pub open spec fn types_parts(ts: Seq<TypeV>) -> Seq<Seq<char>>
    decreases ts,
{
    Seq::new(
        ts.len(),
        |i: int|
            if 0 <= i < ts.len() {
                type_parts(ts[i])
            } else {
                Seq::empty()
            },
    )
}

/// The name of an operator.
pub open spec fn op_name(op: BinaryOp) -> Seq<char> {
    match op {
        BinaryOp::Implies => "Implies"@,
        BinaryOp::Equals => "Equals"@,
        BinaryOp::NotEquals => "NotEquals"@,
        BinaryOp::And => "And"@,
        BinaryOp::Or => "Or"@,
    }
}

/// Names in quotes.
pub open spec fn names_quoted(names: Seq<Seq<char>>) -> Seq<Seq<char>> {
    Seq::new(names.len(), |i: int| quoted(names[i]))
}

/// Type parameters, each with what it stands for.
pub open spec fn params_parts(params: Seq<(Seq<char>, TypeV)>) -> Seq<Seq<char>> {
    Seq::new(
        params.len(),
        |i: int| "("@ + quoted(params[i].0) + ", "@ + type_parts(params[i].1) + ")"@,
    )
}

/// A value, part by part.
pub open spec fn value_parts(v: ValueV) -> Seq<char>
    decreases v,
{
    match v {
        ValueV::Variable(i, t) => "Variable("@ + decimal_text(i as nat) + ", "@ + type_parts(t)
            + ")"@,
        ValueV::Constant(m, name, t, params) => "Constant("@ + decimal_text(m as nat) + ", "@
            + quoted(name) + ", "@ + type_parts(t) + ", "@ + listed(names_quoted(params)) + ")"@,
        ValueV::Specialized(m, name, t, params) => "Specialized("@ + decimal_text(m as nat) + ", "@
            + quoted(name) + ", "@ + type_parts(t) + ", "@ + listed(params_parts(params)) + ")"@,
        ValueV::Application(f, args) => "Application(FunctionApplication { function: "@
            + value_parts(*f) + ", args: "@ + listed(values_parts(args)) + " })"@,
        ValueV::Lambda(ts, b) => "Lambda("@ + listed(types_parts(ts)) + ", "@ + value_parts(*b)
            + ")"@,
        ValueV::ForAll(ts, b) => "ForAll("@ + listed(types_parts(ts)) + ", "@ + value_parts(*b)
            + ")"@,
        ValueV::Exists(ts, b) => "Exists("@ + listed(types_parts(ts)) + ", "@ + value_parts(*b)
            + ")"@,
        ValueV::Binary(op, l, r) => "Binary("@ + op_name(op) + ", "@ + value_parts(*l) + ", "@
            + value_parts(*r) + ")"@,
        ValueV::Not(x) => "Not("@ + value_parts(*x) + ")"@,
        ValueV::Bool(b) => if b {
            "Bool(true)"@
        } else {
            "Bool(false)"@
        },
        ValueV::IfThenElse(c, a, b) => "IfThenElse("@ + value_parts(*c) + ", "@ + value_parts(*a)
            + ", "@ + value_parts(*b) + ")"@,
    }
}

/// Each of some values, part by part.
pub open spec fn values_parts(vs: Seq<ValueV>) -> Seq<Seq<char>>
    decreases vs,
{
    Seq::new(
        vs.len(),
        |i: int|
            if 0 <= i < vs.len() {
                value_parts(vs[i])
            } else {
                Seq::empty()
            },
    )
}

fn list(parts: &Vec<String>) -> (r: String)
    ensures
        r@ == listed(views(parts@)),
{
    let mut out = "[".to_owned();
    out.append(join(parts, ", ").as_str());
    out.append("]");
    out
}

fn write_types(ts: &Vec<AcornType>) -> (r: Vec<String>)
    ensures
        views(r@) == types_parts(views(ts@)),
    decreases ts,
{
    let mut out: Vec<String> = Vec::new();
    let mut i: usize = 0;
    while i < ts.len()
        invariant
            i <= ts.len(),
            out.len() == i,
            forall|k: int| 0 <= k < i ==> (#[trigger] out@[k])@ == type_parts(ts@[k]@),
        decreases ts.len() - i,
    {
        assert(decreases_to!(ts => ts@[i as int]));
        out.push(write_type(&ts[i]));
        i = i + 1;
    }
    assert(views(out@) =~= types_parts(views(ts@)));
    out
}

/// Writes a type, part by part.
pub fn write_type(t: &AcornType) -> (r: String)
    ensures
        r@ == type_parts(t@),
    decreases t,
{
    broadcast use crate::acorn_type::lemma_function_view;

    match t {
        AcornType::Empty => "Empty".to_owned(),
        AcornType::Bool => "Bool".to_owned(),
        AcornType::Data(m, name) => {
            let mut out = "Data(".to_owned();
            out.append(decimal(*m as u64).as_str());
            out.append(", ");
            out.append(quote(name.as_str()).as_str());
            out.append(")");
            out
        },
        AcornType::Parameter(name) => {
            let mut out = "Parameter(".to_owned();
            out.append(quote(name.as_str()).as_str());
            out.append(")");
            out
        },
        AcornType::Function(f) => {
            let mut out = "Function(FunctionType { arg_types: ".to_owned();
            out.append(list(&write_types(&f.arg_types)).as_str());
            out.append(", return_type: ");
            out.append(write_type(&f.return_type).as_str());
            out.append(" })");
            out
        },
    }
}

fn write_names(names: &Vec<String>) -> (r: Vec<String>)
    ensures
        views(r@) == names_quoted(views(names@)),
{
    let mut out: Vec<String> = Vec::new();
    let mut i: usize = 0;
    while i < names.len()
        invariant
            i <= names.len(),
            out.len() == i,
            forall|k: int| 0 <= k < i ==> (#[trigger] out@[k])@ == quoted(names@[k]@),
        decreases names.len() - i,
    {
        out.push(quote(names[i].as_str()));
        i = i + 1;
    }
    assert(views(out@) =~= names_quoted(views(names@)));
    out
}

fn write_params(params: &Vec<TypeParam>) -> (r: Vec<String>)
    ensures
        views(r@) == params_parts(views(params@)),
{
    let mut out: Vec<String> = Vec::new();
    let mut i: usize = 0;
    while i < params.len()
        invariant
            i <= params.len(),
            out.len() == i,
            forall|k: int|
                0 <= k < i ==> (#[trigger] out@[k])@ == "("@ + quoted(params@[k]@.0) + ", "@
                    + type_parts(params@[k]@.1) + ")"@,
        decreases params.len() - i,
    {
        let param = &params[i];
        let mut s = "(".to_owned();
        s.append(quote(param.0.as_str()).as_str());
        s.append(", ");
        s.append(write_type(&param.1).as_str());
        s.append(")");
        out.push(s);
        i = i + 1;
    }
    assert(views(out@) =~= params_parts(views(params@)));
    out
}

fn write_values(vs: &Vec<AcornValue>) -> (r: Vec<String>)
    ensures
        views(r@) == values_parts(views(vs@)),
    decreases vs,
{
    let mut out: Vec<String> = Vec::new();
    let mut i: usize = 0;
    while i < vs.len()
        invariant
            i <= vs.len(),
            out.len() == i,
            forall|k: int| 0 <= k < i ==> (#[trigger] out@[k])@ == value_parts(vs@[k]@),
        decreases vs.len() - i,
    {
        assert(decreases_to!(vs => vs@[i as int]));
        out.push(write_value(&vs[i]));
        i = i + 1;
    }
    assert(views(out@) =~= values_parts(views(vs@)));
    out
}

fn write_binder(word: &str, ts: &Vec<AcornType>, body: &str) -> (r: String)
    ensures
        r@ == word@ + listed(types_parts(views(ts@))) + ", "@ + body@ + ")"@,
{
    let mut out = word.to_owned();
    out.append(list(&write_types(ts)).as_str());
    out.append(", ");
    out.append(body);
    out.append(")");
    out
}

fn write_op(op: BinaryOp) -> (r: &'static str)
    ensures
        r@ == op_name(op),
{
    match op {
        BinaryOp::Implies => "Implies",
        BinaryOp::Equals => "Equals",
        BinaryOp::NotEquals => "NotEquals",
        BinaryOp::And => "And",
        BinaryOp::Or => "Or",
    }
}

/// Writes a value, part by part.
pub fn write_value(v: &AcornValue) -> (r: String)
    ensures
        r@ == value_parts(v@),
    decreases v,
{
    broadcast use crate::acorn_value::lemma_application_view;

    match v {
        AcornValue::Variable(i, t) => {
            let mut out = "Variable(".to_owned();
            out.append(decimal(*i as u64).as_str());
            out.append(", ");
            out.append(write_type(t).as_str());
            out.append(")");
            out
        },
        AcornValue::Constant(m, name, t, params) => {
            let mut out = "Constant(".to_owned();
            out.append(decimal(*m as u64).as_str());
            out.append(", ");
            out.append(quote(name.as_str()).as_str());
            out.append(", ");
            out.append(write_type(t).as_str());
            out.append(", ");
            out.append(list(&write_names(params)).as_str());
            out.append(")");
            out
        },
        AcornValue::Specialized(m, name, t, params) => {
            let mut out = "Specialized(".to_owned();
            out.append(decimal(*m as u64).as_str());
            out.append(", ");
            out.append(quote(name.as_str()).as_str());
            out.append(", ");
            out.append(write_type(t).as_str());
            out.append(", ");
            out.append(list(&write_params(params)).as_str());
            out.append(")");
            out
        },
        AcornValue::Application(a) => {
            let mut out = "Application(FunctionApplication { function: ".to_owned();
            out.append(write_value(&a.function).as_str());
            out.append(", args: ");
            out.append(list(&write_values(&a.args)).as_str());
            out.append(" })");
            out
        },
        AcornValue::Lambda(ts, b) => write_binder("Lambda(", ts, write_value(b).as_str()),
        AcornValue::ForAll(ts, b) => write_binder("ForAll(", ts, write_value(b).as_str()),
        AcornValue::Exists(ts, b) => write_binder("Exists(", ts, write_value(b).as_str()),
        AcornValue::Binary(op, l, r) => {
            let mut out = "Binary(".to_owned();
            out.append(write_op(*op));
            out.append(", ");
            out.append(write_value(l).as_str());
            out.append(", ");
            out.append(write_value(r).as_str());
            out.append(")");
            out
        },
        AcornValue::Not(x) => {
            let mut out = "Not(".to_owned();
            out.append(write_value(x).as_str());
            out.append(")");
            out
        },
        AcornValue::Bool(b) => if *b {
            "Bool(true)".to_owned()
        } else {
            "Bool(false)".to_owned()
        },
        AcornValue::IfThenElse(c, a, b) => {
            let mut out = "IfThenElse(".to_owned();
            out.append(write_value(c).as_str());
            out.append(", ");
            out.append(write_value(a).as_str());
            out.append(", ");
            out.append(write_value(b).as_str());
            out.append(")");
            out
        },
    }
}

} // verus!
