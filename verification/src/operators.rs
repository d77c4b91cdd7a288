//! How calls of methods are written: as operators, as numerals, or with a dot.

use vstd::prelude::*;

use crate::acorn_type::{AcornType, ModuleId, TypeV};
use crate::acorn_value::{value_type, AcornValue, BinaryOp, ValueV};
use crate::table::Key;
use crate::text::{chars_of, same_text, views};
use crate::token::{digit, is_digit};

verus! {

broadcast use crate::text::group_views;

/// The place of the first dot from `i` on, or the end of the text.
pub open spec fn next_dot(s: Seq<char>, i: int) -> int
    decreases s.len() - i,
{
    if i >= s.len() || s[i] == '.' {
        i
    } else {
        next_dot(s, i + 1)
    }
}

/// The place of the first dot from `i` on.
pub fn find_dot(s: &Vec<char>, i: usize) -> (r: usize)
    requires
        i <= s.len(),
    ensures
        r == next_dot(s@, i as int),
        i <= r <= s.len(),
{
    let mut j: usize = i;
    while j < s.len() && s[j] != '.'
        invariant
            i <= j <= s.len(),
            next_dot(s@, i as int) == next_dot(s@, j as int),
        decreases s.len() - j,
    {
        j = j + 1;
    }
    j
}

/// The type and the name of a member, where a name has just one dot.
pub open spec fn split_name(name: Seq<char>) -> Option<(Seq<char>, Seq<char>)> {
    let dot = next_dot(name, 0);
    if dot < name.len() && next_dot(name, dot + 1) == name.len() {
        Some((name.take(dot), name.skip(dot + 1)))
    } else {
        None
    }
}

/// A member of a data type: the module and the name of the type, and the name of the member.
pub type MemberV = (ModuleId, Seq<char>, Seq<char>);

/// The member that a value is.
pub open spec fn member_of(v: ValueV) -> Option<MemberV> {
    match v {
        ValueV::Constant(module, name, _, _) => match split_name(name) {
            Some((owner, member)) => Some((module, owner, member)),
            None => None,
        },
        _ => None,
    }
}

/// Whether a text is made of digits.
pub open spec fn all_digits(s: Seq<char>) -> bool {
    s.len() > 0 && forall|i: int| 0 <= i < s.len() ==> is_digit(#[trigger] s[i])
}

/// The numeral that a value is: a member whose name is a numeral, or what its type reads from a
/// numeral and a digit.
pub open spec fn numeral_of(v: ValueV) -> Option<MemberV>
    decreases v,
{
    match v {
        ValueV::Application(f, args) => if args.len() == 2 {
            match (member_of(*f), numeral_of(args[0]), numeral_of(args[1])) {
                (Some(m), Some(a), Some(d)) => if m.2 == "read"@ && a.0 == m.0 && a.1 == m.1 && d.0
                    == m.0 && d.1 == m.1 && d.2.len() == 1 {
                    Some((m.0, m.1, a.2 + d.2))
                } else {
                    None
                },
                _ => None,
            }
        } else {
            None
        },
        _ => match member_of(v) {
            Some(m) => if all_digits(m.2) {
                Some(m)
            } else {
                None
            },
            None => None,
        },
    }
}

/// The operator that stands for a method, and how tightly it binds.
pub open spec fn symbol_of(name: Seq<char>) -> Option<(Seq<char>, int)> {
    if name == "add"@ {
        Some(("+"@, 7))
    } else if name == "sub"@ {
        Some(("-"@, 7))
    } else if name == "mul"@ {
        Some(("*"@, 8))
    } else if name == "div"@ {
        Some(("/"@, 8))
    } else if name == "mod"@ {
        Some(("%"@, 8))
    } else if name == "lt"@ {
        Some(("<"@, 6))
    } else if name == "gt"@ {
        Some((">"@, 6))
    } else if name == "lte"@ {
        Some(("<="@, 6))
    } else if name == "gte"@ {
        Some((">="@, 6))
    } else {
        None
    }
}

/// How a call of a method is written.
pub enum CallV {
    /// With an operator between two operands that binds so tightly.
    Infix(Seq<char>, int),
    /// With a dot after the first argument.
    Dotted(Seq<char>),
    /// Like the call of any other function.
    Plain,
}

/// How a function and its arguments are written. A method takes a value of its own type first.
pub open spec fn call_of(f: ValueV, args: Seq<ValueV>) -> CallV {
    match member_of(f) {
        Some((module, owner, member)) => if args.len() == 0 || value_type(args[0]) != TypeV::Data(
            module,
            owner,
        ) {
            CallV::Plain
        } else {
            match symbol_of(member) {
                Some((symbol, level)) => if args.len() == 2 {
                    CallV::Infix(symbol, level)
                } else {
                    CallV::Dotted(member)
                },
                None => CallV::Dotted(member),
            }
        },
        None => CallV::Plain,
    }
}

/// How tightly the code for a value holds together.
pub open spec fn code_level(v: ValueV) -> int {
    match v {
        ValueV::Application(f, args) => if numeral_of(v) is Some {
            10
        } else {
            match call_of(*f, args) {
                CallV::Infix(_, level) => level,
                _ => 10,
            }
        },
        ValueV::Not(_) => 9,
        ValueV::Binary(op, _, _) => match op {
            BinaryOp::Equals => 5,
            BinaryOp::NotEquals => 5,
            BinaryOp::And => 4,
            BinaryOp::Or => 3,
            BinaryOp::Implies => 1,
        },
        ValueV::Variable(_, _) => 10,
        ValueV::Constant(_, _, _, _) => 10,
        ValueV::Specialized(_, _, _, _) => 10,
        ValueV::Bool(_) => 10,
        _ => 0,
    }
}

/// Code in parentheses, where it does not hold together tightly enough.
pub open spec fn guarded(code: Seq<char>, level: int, least: int) -> Seq<char> {
    if level < least {
        "("@ + code + ")"@
    } else {
        code
    }
}

/// A member of a data type.
pub struct Member {
    pub module: ModuleId,
    pub owner: String,
    pub name: String,
}

impl View for Member {
    type V = MemberV;

    open spec fn view(&self) -> MemberV {
        (self.module, self.owner@, self.name@)
    }
}

/// Finds the member that a value is.
pub fn find_member(v: &AcornValue) -> (r: Option<Member>)
    ensures
        match r {
            Some(m) => member_of(v@) == Some(m@),
            None => member_of(v@) is None,
        },
{
    match v {
        AcornValue::Constant(module, name, _, _) => {
            let chars = chars_of(name.as_str());
            let dot = find_dot(&chars, 0);
            if dot < chars.len() && find_dot(&chars, dot + 1) == chars.len() {
                let owner = name.as_str().substring_char(0, dot);
                let member = name.as_str().substring_char(dot + 1, chars.len());
                assert(name@.subrange(0, dot as int) =~= name@.take(dot as int));
                assert(name@.subrange(dot + 1, name@.len() as int) =~= name@.skip(dot + 1));
                Some(Member { module: *module, owner: owner.to_owned(), name: member.to_owned() })
            } else {
                None
            }
        },
        _ => None,
    }
}

fn only_digits(s: &str) -> (r: bool)
    ensures
        r == all_digits(s@),
{
    let chars = chars_of(s);
    let mut i: usize = 0;
    while i < chars.len()
        invariant
            i <= chars.len(),
            chars@ == s@,
            forall|k: int| 0 <= k < i ==> is_digit(#[trigger] s@[k]),
        decreases chars.len() - i,
    {
        if !digit(chars[i]) {
            return false;
        }
        i = i + 1;
    }
    chars.len() > 0
}

/// Finds the numeral that a value is.
pub fn find_numeral(v: &AcornValue) -> (r: Option<Member>)
    ensures
        match r {
            Some(m) => numeral_of(v@) == Some(m@),
            None => numeral_of(v@) is None,
        },
    decreases v,
{
    broadcast use crate::acorn_value::lemma_application_view;

    match v {
        AcornValue::Application(fa) => {
            if fa.args.len() != 2 {
                return None;
            }
            let ghost args = views(fa.args@);
            assert(args[0] == fa.args@[0]@ && args[1] == fa.args@[1]@);
            assert(decreases_to!(fa.args => fa.args@[0]));
            assert(decreases_to!(fa.args => fa.args@[1]));
            let f = find_member(&fa.function);
            let a = find_numeral(&fa.args[0]);
            let d = find_numeral(&fa.args[1]);
            match (f, a, d) {
                (Some(f), Some(a), Some(d)) => {
                    if same_text(f.name.as_str(), "read") && a.module == f.module && a.owner
                        == f.owner && d.module == f.module && d.owner == f.owner
                        && d.name.as_str().unicode_len() == 1 {
                        let mut name = a.name;
                        name.append(d.name.as_str());
                        Some(Member { module: f.module, owner: f.owner, name })
                    } else {
                        None
                    }
                },
                _ => None,
            }
        },
        _ => match find_member(v) {
            Some(m) => if only_digits(m.name.as_str()) {
                Some(m)
            } else {
                None
            },
            None => None,
        },
    }
}

/// The operator that stands for a method.
pub fn find_symbol(name: &str) -> (r: Option<(&'static str, u8)>)
    ensures
        match r {
            Some((s, level)) => symbol_of(name@) == Some((s@, level as int)) && level < 10,
            None => symbol_of(name@) is None,
        },
{
    if same_text(name, "add") {
        Some(("+", 7))
    } else if same_text(name, "sub") {
        Some(("-", 7))
    } else if same_text(name, "mul") {
        Some(("*", 8))
    } else if same_text(name, "div") {
        Some(("/", 8))
    } else if same_text(name, "mod") {
        Some(("%", 8))
    } else if same_text(name, "lt") {
        Some(("<", 6))
    } else if same_text(name, "gt") {
        Some((">", 6))
    } else if same_text(name, "lte") {
        Some(("<=", 6))
    } else if same_text(name, "gte") {
        Some((">=", 6))
    } else {
        None
    }
}

/// How a call of a method is written.
pub enum Call {
    Infix(&'static str, u8),
    Dotted(String),
    Plain,
}

impl View for Call {
    type V = CallV;

    open spec fn view(&self) -> CallV {
        match self {
            Call::Infix(symbol, level) => CallV::Infix(symbol@, *level as int),
            Call::Dotted(name) => CallV::Dotted(name@),
            Call::Plain => CallV::Plain,
        }
    }
}

/// Finds how a function and its arguments are written.
pub fn find_call(f: &AcornValue, args: &Vec<AcornValue>) -> (r: Call)
    ensures
        r@ == call_of(f@, views(args@)),
        r matches Call::Infix(_, level) ==> level < 10,
{
    broadcast use crate::acorn_type::lemma_function_view;

    match find_member(f) {
        Some(m) => {
            if args.len() == 0 {
                return Call::Plain;
            }
            assert(views(args@)[0] == args@[0]@);
            let data_type = AcornType::Data(m.module, m.owner);
            if !args[0].get_type().same(&data_type) {
                return Call::Plain;
            }
            match find_symbol(m.name.as_str()) {
                Some((symbol, level)) => if args.len() == 2 {
                    Call::Infix(symbol, level)
                } else {
                    Call::Dotted(m.name)
                },
                None => Call::Dotted(m.name),
            }
        },
        None => Call::Plain,
    }
}

/// How tightly the code for a value holds together.
pub fn find_level(v: &AcornValue) -> (r: u8)
    ensures
        r == code_level(v@),
{
    broadcast use crate::acorn_value::lemma_application_view;

    match v {
        AcornValue::Application(fa) => {
            if find_numeral(v).is_some() {
                return 10;
            }
            match find_call(&fa.function, &fa.args) {
                Call::Infix(_, level) => level,
                _ => 10,
            }
        },
        AcornValue::Not(_) => 9,
        AcornValue::Binary(op, _, _) => match op {
            BinaryOp::Equals => 5,
            BinaryOp::NotEquals => 5,
            BinaryOp::And => 4,
            BinaryOp::Or => 3,
            BinaryOp::Implies => 1,
        },
        AcornValue::Variable(_, _) => 10,
        AcornValue::Constant(_, _, _, _) => 10,
        AcornValue::Specialized(_, _, _, _) => 10,
        AcornValue::Bool(_) => 10,
        AcornValue::Lambda(_, _) => 0,
        AcornValue::ForAll(_, _) => 0,
        AcornValue::Exists(_, _) => 0,
        AcornValue::IfThenElse(_, _, _) => 0,
    }
}

/// Puts code in parentheses, where it does not hold together tightly enough.
pub fn guard(code: &str, level: u8, least: u8) -> (r: String)
    ensures
        r@ == guarded(code@, level as int, least as int),
{
    if level < least {
        let mut out = "(".to_owned();
        out.append(code);
        out.append(")");
        out
    } else {
        code.to_owned()
    }
}

} // verus!
