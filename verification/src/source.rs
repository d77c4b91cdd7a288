//! Where propositions and facts come from in the source text.

use vstd::prelude::*;

use crate::acorn_type::ModuleId;
use crate::acorn_value::{value_text, AcornValue, ValueV};
use crate::binding_map::opt_view;
use crate::table::Duplicate;
use crate::text::{decimal, decimal_text};
use crate::token::{Position, Range};

verus! {

/// The different reasons that can lead us to create a proposition.
#[derive(Debug, PartialEq, Eq)]
pub enum SourceType {
    /// An axiom, which may have a name.
    Axiom(Option<String>),
    /// A theorem, which may have a name.
    Theorem(Option<String>),
    /// An anonymous proposition that has previously been proved.
    Anonymous,
    /// The definition of a type: the type, and a member's name.
    TypeDefinition(String, String),
    /// The definition of a constant: its value, and its name, `<Type>.<name>` for members.
    ConstantDefinition(AcornValue, String),
    /// The fact that a type is an instance of a typeclass: the type, and the typeclass.
    Instance(String, String),
    /// A premise for a block that contains the current environment.
    Premise,
    /// The negation of a goal, for the sake of proving it by contradiction.
    NegatedGoal,
}

/// The model of such a reason.
pub enum SourceTypeV {
    Axiom(Option<Seq<char>>),
    Theorem(Option<Seq<char>>),
    Anonymous,
    TypeDefinition(Seq<char>, Seq<char>),
    ConstantDefinition(ValueV, Seq<char>),
    Instance(Seq<char>, Seq<char>),
    Premise,
    NegatedGoal,
}

impl View for SourceType {
    type V = SourceTypeV;

    open spec fn view(&self) -> SourceTypeV {
        match self {
            SourceType::Axiom(n) => SourceTypeV::Axiom(opt_view(*n)),
            SourceType::Theorem(n) => SourceTypeV::Theorem(opt_view(*n)),
            SourceType::Anonymous => SourceTypeV::Anonymous,
            SourceType::TypeDefinition(t, m) => SourceTypeV::TypeDefinition(t@, m@),
            SourceType::ConstantDefinition(v, n) => SourceTypeV::ConstantDefinition(v@, n@),
            SourceType::Instance(i, t) => SourceTypeV::Instance(i@, t@),
            SourceType::Premise => SourceTypeV::Premise,
            SourceType::NegatedGoal => SourceTypeV::NegatedGoal,
        }
    }
}

/// The information about where a proposition comes from.
#[derive(Debug, PartialEq, Eq)]
pub struct Source {
    /// The module where this value was defined.
    pub module: ModuleId,
    /// The range in the source document that corresponds to the value's definition.
    pub range: Range,
    /// How the expression at this location was turned into a proposition.
    pub source_type: SourceType,
    /// Whether this source can be imported to other modules.
    pub importable: bool,
    /// The depth of this source in the module. Zero is top-level.
    pub depth: u32,
}

/// The model of a source.
pub struct SourceV {
    pub module: ModuleId,
    pub range: Range,
    pub source_type: SourceTypeV,
    pub importable: bool,
    pub depth: u32,
}

impl View for Source {
    type V = SourceV;

    open spec fn view(&self) -> SourceV {
        SourceV {
            module: self.module,
            range: self.range,
            source_type: self.source_type@,
            importable: self.importable,
            depth: self.depth,
        }
    }
}

/// The stretch that covers nothing, at the start of a file.
pub open spec fn no_range() -> Range {
    Range {
        start: Position { line: 0, character: 0 },
        end: Position { line: 0, character: 0 },
    }
}

/// An axiom or a theorem, by whether it is taken for granted.
pub open spec fn theorem_type(axiomatic: bool, name: Option<Seq<char>>) -> SourceTypeV {
    if axiomatic { SourceTypeV::Axiom(name) } else { SourceTypeV::Theorem(name) }
}

impl SourceV {
    /// The line the user sees, counted from one.
    pub open spec fn visible_line(self) -> nat {
        (self.range.start.line + 1) as nat
    }

    /// What a human reads.
    pub open spec fn description(self) -> Seq<char> {
        match self.source_type {
            SourceTypeV::Axiom(Some(name)) => "the '"@ + name + "' axiom"@,
            SourceTypeV::Axiom(None) => "an anonymous axiom"@,
            SourceTypeV::Theorem(Some(name)) => "the '"@ + name + "' theorem"@,
            SourceTypeV::Theorem(None) => "an anonymous theorem"@,
            SourceTypeV::Anonymous => "line "@ + decimal_text(self.visible_line()),
            SourceTypeV::TypeDefinition(t, _) => "the '"@ + t + "' definition"@,
            SourceTypeV::ConstantDefinition(v, _) => "the '"@ + value_text(v, 0) + "' definition"@,
            SourceTypeV::Instance(i, t) => "the '"@ + i + ": "@ + t + "' relationship"@,
            SourceTypeV::Premise => "an assumed premise"@,
            SourceTypeV::NegatedGoal => "negating the goal"@,
        }
    }

    /// An identifier that is somewhat resilient to common edits; the line where there is no
    /// other. Premises and negated goals have none.
    pub open spec fn name(self) -> Option<Seq<char>> {
        match self.source_type {
            SourceTypeV::Axiom(Some(name)) => Some(name),
            SourceTypeV::Axiom(None) => Some(decimal_text(self.visible_line())),
            SourceTypeV::Theorem(Some(name)) => Some(name),
            SourceTypeV::Theorem(None) => Some(decimal_text(self.visible_line())),
            SourceTypeV::Anonymous => Some(decimal_text(self.visible_line())),
            SourceTypeV::TypeDefinition(t, m) => Some(t + "."@ + m),
            SourceTypeV::ConstantDefinition(_, name) => Some(name),
            SourceTypeV::Instance(i, t) => Some(i + "."@ + t),
            SourceTypeV::Premise => None,
            SourceTypeV::NegatedGoal => None,
        }
    }
}

fn copy_name(n: &Option<String>) -> (r: Option<String>)
    ensures
        opt_view(r) == opt_view(*n),
{
    match n {
        Some(s) => Some(s.clone()),
        None => None,
    }
}

impl Duplicate for SourceType {
    fn duplicate(&self) -> (r: Self) {
        match self {
            SourceType::Axiom(n) => SourceType::Axiom(copy_name(n)),
            SourceType::Theorem(n) => SourceType::Theorem(copy_name(n)),
            SourceType::Anonymous => SourceType::Anonymous,
            SourceType::TypeDefinition(t, m) => SourceType::TypeDefinition(t.clone(), m.clone()),
            SourceType::ConstantDefinition(v, n) => SourceType::ConstantDefinition(
                v.clone(),
                n.clone(),
            ),
            SourceType::Instance(i, t) => SourceType::Instance(i.clone(), t.clone()),
            SourceType::Premise => SourceType::Premise,
            SourceType::NegatedGoal => SourceType::NegatedGoal,
        }
    }
}

impl Duplicate for Source {
    fn duplicate(&self) -> (r: Self) {
        Source {
            module: self.module,
            range: self.range,
            source_type: self.source_type.duplicate(),
            importable: self.importable,
            depth: self.depth,
        }
    }
}

impl Clone for Source {
    fn clone(&self) -> (r: Self)
        ensures
            r@ == self@,
    {
        self.duplicate()
    }
}

fn quoted(before: &str, name: &str, after: &str) -> (r: String)
    ensures
        r@ == before@ + name@ + after@,
{
    let mut out = before.to_owned();
    out.append(name);
    out.append(after);
    out
}

impl Source {
    /// A source with all its parts.
    pub fn new(
        module: ModuleId,
        range: Range,
        source_type: SourceType,
        importable: bool,
        depth: u32,
    ) -> (r: Source)
        ensures
            r@ == (SourceV { module, range, source_type: source_type@, importable, depth }),
    {
        Source { module, range, source_type, importable, depth }
    }

    /// The source of an axiom or a theorem.
    pub fn theorem(
        axiomatic: bool,
        module: ModuleId,
        range: Range,
        depth: u32,
        name: Option<String>,
    ) -> (r: Source)
        ensures
            r@ == (SourceV {
                module,
                range,
                source_type: theorem_type(axiomatic, opt_view(name)),
                importable: true,
                depth,
            }),
    {
        let source_type = if axiomatic {
            SourceType::Axiom(name)
        } else {
            SourceType::Theorem(name)
        };
        Source { module, range, source_type, importable: true, depth }
    }

    /// The source of an anonymous proposition.
    pub fn anonymous(module: ModuleId, range: Range, depth: u32) -> (r: Source)
        ensures
            r@ == (SourceV {
                module,
                range,
                source_type: SourceTypeV::Anonymous,
                importable: false,
                depth,
            }),
    {
        Source { module, range, source_type: SourceType::Anonymous, importable: false, depth }
    }

    /// The source of the claim that a type with a constraint has members.
    pub fn inhabited(module: ModuleId, typename: &str, range: Range, depth: u32) -> (r: Source)
        ensures
            r@ == (SourceV {
                module,
                range,
                source_type: SourceTypeV::TypeDefinition(typename@, "constraint"@),
                importable: true,
                depth,
            }),
    {
        let source_type = SourceType::TypeDefinition(typename.to_owned(), "constraint".to_owned());
        Source { module, range, source_type, importable: true, depth }
    }

    /// The source of what defines a type.
    pub fn type_definition(
        module: ModuleId,
        range: Range,
        depth: u32,
        typename: String,
        member_name: String,
    ) -> (r: Source)
        ensures
            r@ == (SourceV {
                module,
                range,
                source_type: SourceTypeV::TypeDefinition(typename@, member_name@),
                importable: true,
                depth,
            }),
    {
        Source {
            module,
            range,
            source_type: SourceType::TypeDefinition(typename, member_name),
            importable: true,
            depth,
        }
    }

    /// The source of what defines a constant. Only constants at the top level can be imported.
    pub fn constant_definition(
        module: ModuleId,
        range: Range,
        depth: u32,
        constant: AcornValue,
        name: &str,
    ) -> (r: Source)
        ensures
            r@ == (SourceV {
                module,
                range,
                source_type: SourceTypeV::ConstantDefinition(constant@, name@),
                importable: depth == 0,
                depth,
            }),
    {
        Source {
            module,
            range,
            source_type: SourceType::ConstantDefinition(constant, name.to_owned()),
            importable: depth == 0,
            depth,
        }
    }

    /// The source of an instance relationship.
    pub fn instance(
        module: ModuleId,
        range: Range,
        depth: u32,
        instance_name: &str,
        typeclass_name: &str,
    ) -> (r: Source)
        ensures
            r@ == (SourceV {
                module,
                range,
                source_type: SourceTypeV::Instance(instance_name@, typeclass_name@),
                importable: true,
                depth,
            }),
    {
        Source {
            module,
            range,
            source_type: SourceType::Instance(instance_name.to_owned(), typeclass_name.to_owned()),
            importable: true,
            depth,
        }
    }

    /// The source of a premise.
    pub fn premise(module: ModuleId, range: Range, depth: u32) -> (r: Source)
        ensures
            r@ == (SourceV {
                module,
                range,
                source_type: SourceTypeV::Premise,
                importable: false,
                depth,
            }),
    {
        Source { module, range, source_type: SourceType::Premise, importable: false, depth }
    }

    /// The source of the negation of a goal.
    pub fn negated_goal(module: ModuleId, range: Range, depth: u32) -> (r: Source)
        ensures
            r@ == (SourceV {
                module,
                range,
                source_type: SourceTypeV::NegatedGoal,
                importable: false,
                depth,
            }),
    {
        Source { module, range, source_type: SourceType::NegatedGoal, importable: false, depth }
    }

    /// A source for trying things out.
    pub fn mock() -> (r: Source)
        ensures
            r@ == (SourceV {
                module: 0,
                range: no_range(),
                source_type: SourceTypeV::Anonymous,
                importable: true,
                depth: 0,
            }),
    {
        let start = Position { line: 0, character: 0 };
        Source {
            module: 0,
            range: Range { start, end: start },
            source_type: SourceType::Anonymous,
            importable: true,
            depth: 0,
        }
    }

    /// The line the user sees, starting from 1.
    pub fn user_visible_line(&self) -> (r: u32)
        requires
            self@.range.start.line < u32::MAX,
        ensures
            r == self@.visible_line(),
    {
        self.range.start.line + 1
    }

    fn line_text(&self) -> (r: String)
        ensures
            r@ == decimal_text(self@.visible_line()),
    {
        decimal(self.range.start.line as u64 + 1)
    }

    /// The description is human-readable.
    pub fn description(&self) -> (r: String)
        ensures
            r@ == self@.description(),
    {
        match &self.source_type {
            SourceType::Axiom(Some(name)) => quoted("the '", name.as_str(), "' axiom"),
            SourceType::Axiom(None) => "an anonymous axiom".to_owned(),
            SourceType::Theorem(Some(name)) => quoted("the '", name.as_str(), "' theorem"),
            SourceType::Theorem(None) => "an anonymous theorem".to_owned(),
            SourceType::Anonymous => {
                let mut out = "line ".to_owned();
                out.append(self.line_text().as_str());
                out
            },
            SourceType::TypeDefinition(t, _) => quoted("the '", t.as_str(), "' definition"),
            SourceType::ConstantDefinition(v, _) => quoted(
                "the '",
                v.to_text().as_str(),
                "' definition",
            ),
            SourceType::Instance(i, t) => {
                let mut out = quoted("the '", i.as_str(), ": ");
                out.append(t.as_str());
                out.append("' relationship");
                out
            },
            SourceType::Premise => "an assumed premise".to_owned(),
            SourceType::NegatedGoal => "negating the goal".to_owned(),
        }
    }

    /// Whether this is an axiom's source.
    pub fn is_axiom(&self) -> (r: bool)
        ensures
            r == (self@.source_type is Axiom),
    {
        match self.source_type {
            SourceType::Axiom(_) => true,
            _ => false,
        }
    }

    /// An identifier that is somewhat resilient to common edits. It is specific to the file.
    pub fn name(&self) -> (r: Option<String>)
        ensures
            opt_view(r) == self@.name(),
    {
        match &self.source_type {
            SourceType::Axiom(Some(name)) => Some(name.clone()),
            SourceType::Axiom(None) => Some(self.line_text()),
            SourceType::Theorem(Some(name)) => Some(name.clone()),
            SourceType::Theorem(None) => Some(self.line_text()),
            SourceType::Anonymous => Some(self.line_text()),
            SourceType::TypeDefinition(t, m) => Some(quoted(t.as_str(), ".", m.as_str())),
            SourceType::ConstantDefinition(_, name) => Some(name.clone()),
            SourceType::Instance(i, t) => Some(quoted(i.as_str(), ".", t.as_str())),
            SourceType::Premise => None,
            SourceType::NegatedGoal => None,
        }
    }

    /// The name of the fact that comes from here.
    pub fn fact_name(&self) -> (r: Option<String>)
        ensures
            opt_view(r) == self@.name(),
    {
        self.name()
    }

    /// The name, with a module id to make it unique.
    pub fn qualified_name(&self) -> (r: Option<(ModuleId, String)>)
        ensures
            match r {
                Some((m, n)) => m == self@.module && self@.name() == Some(n@),
                None => self@.name() is None,
            },
    {
        match self.name() {
            Some(name) => Some((self.module, name)),
            None => None,
        }
    }

    /// The name of the fact that comes from here, with a module id to make it unique.
    pub fn qualified_fact_name(&self) -> (r: Option<(ModuleId, String)>)
        ensures
            match r {
                Some((m, n)) => m == self@.module && self@.name() == Some(n@),
                None => self@.name() is None,
            },
    {
        self.qualified_name()
    }
}

} // verus!
