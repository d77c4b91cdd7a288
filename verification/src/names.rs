//! How constants are named across modules.

use vstd::prelude::*;

use crate::acorn_type::ModuleId;

verus! {

/// A typeclass: the module that defines it and its name there.
#[derive(Debug, PartialEq, Eq, Hash)]
pub struct Typeclass {
    pub module_id: ModuleId,
    pub name: String,
}

/// A class: the module that defines it and its name there.
#[derive(Debug, PartialEq, Eq, Hash)]
pub struct Class {
    pub module_id: ModuleId,
    pub name: String,
}

/// How a constant is named in the module that defines it.
#[derive(Debug, PartialEq, Eq, Hash)]
pub enum LocalName {
    /// An unqualified name has no dots.
    Unqualified(String),
    /// An attribute of a class or a typeclass: the class's name, then the attribute's.
    Attribute(String, String),
    /// An instance name is like `Ring.add<Int>`. The typeclass doesn't have to be defined here.
    /// The first string is the attribute name, the second the name of the instance class.
    Instance(Typeclass, String, String),
}

/// The model of a local name.
pub enum LocalNameV {
    Unqualified(Seq<char>),
    Attribute(Seq<char>, Seq<char>),
    Instance(ModuleId, Seq<char>, Seq<char>, Seq<char>),
}

impl View for LocalName {
    type V = LocalNameV;

    open spec fn view(&self) -> LocalNameV {
        match self {
            LocalName::Unqualified(n) => LocalNameV::Unqualified(n@),
            LocalName::Attribute(c, a) => LocalNameV::Attribute(c@, a@),
            LocalName::Instance(t, a, c) => LocalNameV::Instance(t.module_id, t.name@, a@, c@),
        }
    }
}

/// How a local name is written.
pub open spec fn local_name_text(n: LocalNameV) -> Seq<char> {
    match n {
        LocalNameV::Unqualified(name) => name,
        LocalNameV::Attribute(class, attr) => class + "."@ + attr,
        LocalNameV::Instance(_, typeclass, attr, class) => class + "."@ + typeclass + "."@ + attr,
    }
}

impl LocalName {
    /// Writes the name.
    pub fn to_text(&self) -> (r: String)
        ensures
            r@ == local_name_text(self@),
    {
        match self {
            LocalName::Unqualified(name) => name.clone(),
            LocalName::Attribute(class, attr) => {
                let mut out = class.clone();
                out.append(".");
                out.append(attr.as_str());
                out
            },
            LocalName::Instance(tc, attr, class) => {
                let mut out = class.clone();
                out.append(".");
                out.append(tc.name.as_str());
                out.append(".");
                out.append(attr.as_str());
                out
            },
        }
    }
}

/// A globally unique identifier for a constant.
#[derive(Debug, PartialEq, Eq, Hash)]
pub struct GlobalName {
    pub module_id: ModuleId,
    pub local_name: LocalName,
}

impl View for GlobalName {
    type V = (ModuleId, LocalNameV);

    open spec fn view(&self) -> (ModuleId, LocalNameV) {
        (self.module_id, self.local_name@)
    }
}

} // verus!
