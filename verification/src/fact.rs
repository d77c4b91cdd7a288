//! Statements that are taken to be true in a context.

use vstd::prelude::*;

use crate::acorn_type::{AcornType, ModuleId, TypeV};
use crate::acorn_value::{value_text, value_type, AcornValue, ValueV};
use crate::debug::{quote, quoted, value_parts, write_value};
use crate::operators::{find_dot, next_dot};
use crate::names::{Class, GlobalName, LocalName, LocalNameV, Typeclass};
use crate::proposition::{Proposition, PropositionV};
use crate::source::Source;
use crate::text::{chars_of, decimal, decimal_text, views};

verus! {

/// A constant whose type parameters may still be open.
#[derive(Debug)]
pub enum PotentialValue {
    /// A value with a type of its own.
    Resolved(AcornValue),
    /// A generic constant: its module and its name there.
    Unresolved(ModuleId, String),
}

/// One instance of a constant.
#[derive(Debug)]
pub struct ConstantInstance {
    pub module_id: ModuleId,
    pub name: String,
    /// What the type parameters stand for.
    pub params: Vec<AcornType>,
    pub instance_type: AcornType,
}

/// The model of an instance of a constant.
pub struct ConstantInstanceV {
    pub module_id: ModuleId,
    pub name: Seq<char>,
    pub params: Seq<TypeV>,
    pub instance_type: TypeV,
}

impl View for ConstantInstance {
    type V = ConstantInstanceV;

    open spec fn view(&self) -> ConstantInstanceV {
        ConstantInstanceV {
            module_id: self.module_id,
            name: self.name@,
            params: views(self.params@),
            instance_type: self.instance_type@,
        }
    }
}

/// A statement that we are assuming to be true in a particular context.
#[derive(Debug)]
pub enum Fact {
    /// A true statement representable as a boolean value.
    Proposition(Proposition),
    /// The fact that this class is an instance of this typeclass.
    Instance(Class, Typeclass, Source),
    /// A defined constant: its name, the definition, and the source.
    Definition(PotentialValue, AcornValue, Source),
}

/// The name of a constant in its module: with one dot, that of an attribute.
pub open spec fn local_name(name: Seq<char>) -> LocalNameV {
    let dot = next_dot(name, 0);
    if dot < name.len() {
        LocalNameV::Attribute(name.take(dot), name.skip(dot + 1))
    } else {
        LocalNameV::Unqualified(name)
    }
}

/// The name of a value that is a constant without type parameters.
pub open spec fn simple_constant(v: ValueV) -> Option<(ModuleId, LocalNameV)> {
    match v {
        ValueV::Constant(m, name, _, params) => if params.len() == 0 {
            Some((m, local_name(name)))
        } else {
            None
        },
        _ => None,
    }
}

/// Type parameters that stand for themselves.
pub open spec fn open_params(names: Seq<Seq<char>>) -> Seq<TypeV> {
    Seq::new(names.len(), |i: int| TypeV::Parameter(names[i]))
}

fn params_of(names: &Vec<String>) -> (r: Vec<AcornType>)
    ensures
        views(r@) == open_params(views(names@)),
{
    let mut out: Vec<AcornType> = Vec::new();
    let mut i: usize = 0;
    while i < names.len()
        invariant
            i <= names.len(),
            out.len() == i,
            forall|k: int| 0 <= k < i ==> (#[trigger] out@[k])@ == TypeV::Parameter(names@[k]@),
        decreases names.len() - i,
    {
        out.push(AcornType::Parameter(names[i].clone()));
        i = i + 1;
    }
    assert(views(out@) =~= open_params(views(names@)));
    out
}

impl Fact {
    /// How a fact is written.
    pub open spec fn text(self) -> Seq<char> {
        match self {
            Fact::Proposition(p) => "prop: "@ + value_text(p@.value, 0),
            Fact::Instance(c, t, _) => c.name@ + " is an instance of "@ + t.name@,
            Fact::Definition(PotentialValue::Resolved(v), _, _) => "definition: Resolved("@
                + value_parts(v@) + ")"@,
            Fact::Definition(PotentialValue::Unresolved(m, n), _, _) => "definition: Unresolved("@
                + decimal_text(m as nat) + ", "@ + quoted(n@) + ")"@,
        }
    }

    /// The constant that a fact says is another name for a constant, that constant's name, and
    /// its type.
    pub open spec fn instance_alias(self) -> Option<
        (ConstantInstanceV, (ModuleId, LocalNameV), TypeV),
    > {
        match self {
            Fact::Definition(PotentialValue::Resolved(v), d, _) => match v@ {
                ValueV::Constant(m, name, t, params) => match simple_constant(d@) {
                    Some(target) => Some(
                        (
                            ConstantInstanceV {
                                module_id: m,
                                name,
                                params: open_params(params),
                                instance_type: t,
                            },
                            target,
                            value_type(d@),
                        ),
                    ),
                    None => None,
                },
                _ => None,
            },
            _ => None,
        }
    }

    /// A fact that is a proposition.
    pub fn proposition(value: AcornValue, source: Source) -> (r: Fact)
        ensures
            r matches Fact::Proposition(p) && p@ == (PropositionV {
                value: value@,
                source: source@,
            }),
    {
        Fact::Proposition(Proposition::monomorphic(value, source))
    }

    /// Where the fact comes from.
    pub fn source(&self) -> (r: &Source)
        ensures
            r@ == match *self {
                Fact::Proposition(p) => p@.source,
                Fact::Instance(_, _, s) => s@,
                Fact::Definition(_, _, s) => s@,
            },
    {
        match self {
            Fact::Proposition(p) => &p.source,
            Fact::Instance(_, _, source) => source,
            Fact::Definition(_, _, source) => source,
        }
    }

    /// Whether the fact is an instance relationship.
    pub fn is_instance(&self) -> (r: bool)
        ensures
            r == (self is Instance),
    {
        match self {
            Fact::Instance(_, _, _) => true,
            _ => false,
        }
    }

    /// Writes the fact.
    pub fn to_text(&self) -> (r: String)
        ensures
            r@ == self.text(),
    {
        match self {
            Fact::Proposition(p) => {
                let mut out = "prop: ".to_owned();
                out.append(p.value.to_text().as_str());
                out
            },
            Fact::Instance(class, typeclass, _) => {
                let mut out = class.name.clone();
                out.append(" is an instance of ");
                out.append(typeclass.name.as_str());
                out
            },
            Fact::Definition(PotentialValue::Resolved(v), _, _) => {
                let mut out = "definition: Resolved(".to_owned();
                out.append(write_value(v).as_str());
                out.append(")");
                out
            },
            Fact::Definition(PotentialValue::Unresolved(m, n), _, _) => {
                let mut out = "definition: Unresolved(".to_owned();
                out.append(decimal(*m as u64).as_str());
                out.append(", ");
                out.append(quote(n.as_str()).as_str());
                out.append(")");
                out
            },
        }
    }

    /// What the fact says, if it makes one constant another name for an earlier one.
    pub fn as_instance_alias(&self) -> (r: Option<(ConstantInstance, GlobalName, AcornType)>)
        ensures
            match r {
                Some((c, g, t)) => self.instance_alias() == Some((c@, g@, t@)),
                None => self.instance_alias() is None,
            },
    {
        broadcast use crate::acorn_value::lemma_application_view;
        if let Fact::Definition(PotentialValue::Resolved(v), definition, _) = self {
            if let AcornValue::Constant(m, name, t, params) = v {
                if let Some(target) = as_simple_constant(definition) {
                    let instance = ConstantInstance {
                        module_id: *m,
                        name: name.clone(),
                        params: params_of(params),
                        instance_type: t.clone(),
                    };
                    return Some((instance, target, definition.get_type()));
                }
            }
        }
        None
    }
}

/// The name of a value that is a constant without type parameters.
pub fn as_simple_constant(v: &AcornValue) -> (r: Option<GlobalName>)
    ensures
        match r {
            Some(g) => simple_constant(v@) == Some(g@),
            None => simple_constant(v@) is None,
        },
{
    broadcast use crate::acorn_value::lemma_application_view;
    match v {
        AcornValue::Constant(m, name, _, params) => {
            if params.len() > 0 {
                return None;
            }
            Some(GlobalName { module_id: *m, local_name: split_name(name.as_str()) })
        },
        _ => None,
    }
}

fn split_name(name: &str) -> (r: LocalName)
    ensures
        r@ == local_name(name@),
{
    let chars = chars_of(name);
    let dot = find_dot(&chars, 0);
    if dot < chars.len() {
        assert(name@.subrange(0, dot as int) =~= name@.take(dot as int));
        assert(name@.subrange(dot + 1, name@.len() as int) =~= name@.skip(dot + 1));
        LocalName::Attribute(
            name.substring_char(0, dot).to_owned(),
            name.substring_char(dot + 1, chars.len()).to_owned(),
        )
    } else {
        LocalName::Unqualified(name.to_owned())
    }
}

} // verus!
