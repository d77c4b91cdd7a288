//! Values that are claimed to be true, along with where they come from.

use vstd::prelude::*;

use crate::acorn_type::ModuleId;
use crate::acorn_value::{AcornValue, ValueV};
use crate::binding_map::opt_view;
use crate::source::{theorem_type, Source, SourceType, SourceTypeV, SourceV};
use crate::table::Duplicate;
use crate::token::Range;

verus! {

/// A value along with information on where to find it in the source.
#[derive(Debug)]
pub struct Proposition {
    /// A boolean value. The essence of the proposition is "value is true".
    pub value: AcornValue,
    /// Where this proposition came from.
    pub source: Source,
}

/// The model of a proposition.
pub struct PropositionV {
    pub value: ValueV,
    pub source: SourceV,
}

impl View for Proposition {
    type V = PropositionV;

    open spec fn view(&self) -> PropositionV {
        PropositionV { value: self.value@, source: self.source@ }
    }
}

impl PropositionV {
    /// A proposition with a source at the top level.
    pub open spec fn of(
        value: ValueV,
        module: ModuleId,
        range: Range,
        source_type: SourceTypeV,
        importable: bool,
    ) -> PropositionV {
        PropositionV {
            value,
            source: SourceV { module, range, source_type, importable, depth: 0 },
        }
    }

    /// An axiom or a theorem.
    pub open spec fn theorem(
        axiomatic: bool,
        value: ValueV,
        module: ModuleId,
        range: Range,
        name: Option<Seq<char>>,
    ) -> PropositionV {
        PropositionV::of(value, module, range, theorem_type(axiomatic, name), true)
    }

    /// A proposition without a name.
    pub open spec fn anonymous(value: ValueV, module: ModuleId, range: Range) -> PropositionV {
        PropositionV::of(value, module, range, SourceTypeV::Anonymous, false)
    }

    /// A premise.
    pub open spec fn premise(value: ValueV, module: ModuleId, range: Range) -> PropositionV {
        PropositionV::of(value, module, range, SourceTypeV::Premise, false)
    }

    /// A part of the definition of a type.
    pub open spec fn type_definition(
        value: ValueV,
        module: ModuleId,
        range: Range,
        typename: Seq<char>,
        member: Seq<char>,
    ) -> PropositionV {
        PropositionV::of(
            value,
            module,
            range,
            SourceTypeV::TypeDefinition(typename, member),
            true,
        )
    }

    /// The definition of a constant.
    pub open spec fn constant_definition(
        value: ValueV,
        module: ModuleId,
        range: Range,
        constant: ValueV,
        name: Seq<char>,
    ) -> PropositionV {
        PropositionV::of(
            value,
            module,
            range,
            SourceTypeV::ConstantDefinition(constant, name),
            true,
        )
    }

    /// The name of a theorem or an axiom.
    pub open spec fn theorem_name(self) -> Option<Seq<char>> {
        match self.source.source_type {
            SourceTypeV::Axiom(name) => name,
            SourceTypeV::Theorem(name) => name,
            _ => None,
        }
    }
}

impl Duplicate for Proposition {
    fn duplicate(&self) -> (r: Self) {
        Proposition { value: self.value.clone(), source: self.source.clone() }
    }
}

impl Clone for Proposition {
    fn clone(&self) -> (r: Self)
        ensures
            r@ == self@,
    {
        self.duplicate()
    }
}

impl Proposition {
    /// A proposition that holds for one instance of its types.
    pub fn monomorphic(value: AcornValue, source: Source) -> (r: Proposition)
        ensures
            r@ == (PropositionV { value: value@, source: source@ }),
    {
        Proposition { value, source }
    }

    /// An axiom or a theorem.
    pub fn theorem(
        axiomatic: bool,
        value: AcornValue,
        module: ModuleId,
        range: Range,
        name: Option<String>,
    ) -> (r: Proposition)
        ensures
            r@ == PropositionV::theorem(axiomatic, value@, module, range, opt_view(name)),
    {
        Proposition { value, source: Source::theorem(axiomatic, module, range, 0, name) }
    }

    /// A proposition without a name.
    pub fn anonymous(value: AcornValue, module: ModuleId, range: Range) -> (r: Proposition)
        ensures
            r@ == PropositionV::anonymous(value@, module, range),
    {
        Proposition { value, source: Source::anonymous(module, range, 0) }
    }

    /// When we have a constraint, we prove the type is inhabited, which exports as vacuous.
    pub fn inhabited(module: ModuleId, typename: &str, range: Range) -> (r: Proposition)
        ensures
            r@ == PropositionV::type_definition(
                ValueV::Bool(true),
                module,
                range,
                typename@,
                "constraint"@,
            ),
    {
        Proposition {
            value: AcornValue::Bool(true),
            source: Source::inhabited(module, typename, range, 0),
        }
    }

    /// A part of the definition of a type.
    pub fn type_definition(
        value: AcornValue,
        module: ModuleId,
        range: Range,
        typename: String,
        member_name: String,
    ) -> (r: Proposition)
        ensures
            r@ == PropositionV::type_definition(
                value@,
                module,
                range,
                typename@,
                member_name@,
            ),
    {
        Proposition {
            value,
            source: Source::type_definition(module, range, 0, typename, member_name),
        }
    }

    /// The definition of a constant.
    pub fn constant_definition(
        value: AcornValue,
        module: ModuleId,
        range: Range,
        constant: AcornValue,
        name: &str,
    ) -> (r: Proposition)
        ensures
            r@ == PropositionV::constant_definition(value@, module, range, constant@, name@),
    {
        Proposition {
            value,
            source: Source::constant_definition(module, range, 0, constant, name),
        }
    }

    /// A premise.
    pub fn premise(value: AcornValue, module: ModuleId, range: Range) -> (r: Proposition)
        ensures
            r@ == PropositionV::premise(value@, module, range),
    {
        Proposition { value, source: Source::premise(module, range, 0) }
    }

    /// The negation of a goal, in the place of this proposition.
    pub fn with_negated_goal(&self, value: AcornValue) -> (r: Proposition)
        ensures
            r@ == (PropositionV {
                value: value@,
                source: SourceV {
                    source_type: SourceTypeV::NegatedGoal,
                    importable: false,
                    ..self@.source
                },
            }),
    {
        let source = Source::negated_goal(self.source.module, self.source.range, self.source.depth);
        Proposition { value, source }
    }

    /// Just changes the value while keeping the other stuff intact.
    pub fn with_value(&self, value: AcornValue) -> (r: Proposition)
        ensures
            r@ == (PropositionV { value: value@, ..self@ }),
    {
        Proposition { value, source: self.source.clone() }
    }

    /// Theorems have theorem names, and so do axioms because those work like theorems.
    pub fn theorem_name(&self) -> (r: Option<&str>)
        ensures
            match r {
                Some(s) => self@.theorem_name() == Some(s@),
                None => self@.theorem_name() is None,
            },
    {
        match &self.source.source_type {
            SourceType::Axiom(Some(name)) => Some(name.as_str()),
            SourceType::Theorem(Some(name)) => Some(name.as_str()),
            _ => None,
        }
    }
}

} // verus!
