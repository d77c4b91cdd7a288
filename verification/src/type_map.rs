//! Numbers for types and for instances of constants.
//!
//! The language has a rich variety of types, and functions can be polymorphic. The low-level
//! prover only understands simple typing, where each value has a number for its type. A type map
//! goes between the two.

use vstd::prelude::*;

use crate::acorn_type::{AcornType, AtomId, TypeV};
use crate::acorn_value::same_all;
use crate::fact::{ConstantInstance, ConstantInstanceV};
use crate::table::{duplicate_all, holds, Duplicate, Key};
use crate::term::{atomic, Atom, Term, TermV, TypeId, BOOL, EMPTY};
use crate::text::views;

verus! {

impl Duplicate for ConstantInstance {
    fn duplicate(&self) -> (r: Self) {
        ConstantInstance {
            module_id: self.module_id,
            name: self.name.clone(),
            params: duplicate_all(&self.params),
            instance_type: self.instance_type.clone(),
        }
    }
}

impl Key for ConstantInstance {
    fn same(&self, other: &Self) -> (r: bool) {
        self.module_id == other.module_id && self.name == other.name && same_all(
            &self.params,
            &other.params,
        ) && self.instance_type.same(&other.instance_type)
    }
}

/// A mapping between types and their numbers.
#[derive(Debug)]
pub struct TypeMap {
    /// The type with each number.
    types: Vec<AcornType>,
    /// Each instance of a constant, and the number of its type.
    monomorphs: Vec<(ConstantInstance, TypeId)>,
}

/// The model of a type map.
#[verifier::ext_equal]
pub struct TypeMapV {
    pub types: Seq<TypeV>,
    pub monomorphs: Seq<(ConstantInstanceV, TypeId)>,
}

/// The models of a list of instances with the numbers of their types.
pub open spec fn monomorphs_view(s: Seq<(ConstantInstance, TypeId)>) -> Seq<
    (ConstantInstanceV, TypeId),
> {
    Seq::new(s.len(), |i: int| (s[i].0@, s[i].1))
}

impl View for TypeMap {
    type V = TypeMapV;

    closed spec fn view(&self) -> TypeMapV {
        TypeMapV { types: views(self.types@), monomorphs: monomorphs_view(self.monomorphs@) }
    }
}

impl TypeMapV {
    /// No type and no instance has two numbers, the two types that are always there come first,
    /// and each instance has a number for its type.
    pub open spec fn wf(self) -> bool {
        &&& self.types.no_duplicates()
        &&& self.types.len() >= 2
        &&& self.types[EMPTY as int] == TypeV::Empty
        &&& self.types[BOOL as int] == TypeV::Bool
        &&& forall|i: int, j: int|
            0 <= i < j < self.monomorphs.len() ==> (#[trigger] self.monomorphs[i]).0 != (
            #[trigger] self.monomorphs[j]).0
        &&& forall|i: int|
            0 <= i < self.monomorphs.len() ==> (#[trigger] self.monomorphs[i]).1 < self.types.len()
                && self.types[self.monomorphs[i].1 as int] == self.monomorphs[i].0.instance_type
    }

    /// The map where a type has a number.
    pub open spec fn with_type(self, t: TypeV) -> TypeMapV {
        if self.types.contains(t) {
            self
        } else {
            TypeMapV { types: self.types.push(t), ..self }
        }
    }

    /// Whether an instance of a constant has a number.
    pub open spec fn has_monomorph(self, c: ConstantInstanceV) -> bool {
        exists|i: int| 0 <= i < self.monomorphs.len() && (#[trigger] self.monomorphs[i]).0 == c
    }

    /// The map where an instance of a constant has a number.
    pub open spec fn with_monomorph(self, c: ConstantInstanceV) -> TypeMapV {
        if self.has_monomorph(c) {
            self
        } else {
            let typed = self.with_type(c.instance_type);
            TypeMapV {
                monomorphs: typed.monomorphs.push(
                    (c, typed.types.index_of(c.instance_type) as TypeId),
                ),
                ..typed
            }
        }
    }

    /// The number of an instance of a constant.
    pub open spec fn monomorph_number(self, c: ConstantInstanceV) -> int {
        choose|i: int| 0 <= i < self.monomorphs.len() && (#[trigger] self.monomorphs[i]).0 == c
    }

    /// The term for an instance of a constant: its atom has the instance's number, and its type
    /// is the instance's.
    pub open spec fn monomorph_term(self, c: ConstantInstanceV) -> TermV {
        let i = self.monomorph_number(c);
        atomic(self.monomorphs[i].1, Atom::Monomorph(i as AtomId))
    }

    /// Whether a type has a number, or there is one left for it.
    pub open spec fn has_room(self, t: TypeV) -> bool {
        self.types.contains(t) || self.types.len() <= TypeId::MAX
    }
}

impl TypeMap {
    /// A map with the types that are always there.
    pub fn new() -> (r: TypeMap)
        ensures
            r@ == (TypeMapV {
                types: seq![TypeV::Empty, TypeV::Bool],
                monomorphs: Seq::empty(),
            }),
            r@.wf(),
    {
        let mut types: Vec<AcornType> = Vec::new();
        types.push(AcornType::Empty);
        types.push(AcornType::Bool);
        let r = TypeMap { types, monomorphs: Vec::new() };
        assert(views(r.types@) =~= seq![TypeV::Empty, TypeV::Bool]);
        assert(monomorphs_view(r.monomorphs@) =~= Seq::empty());
        r
    }

    /// How many types have numbers.
    pub fn num_types(&self) -> (r: usize)
        ensures
            r == self@.types.len(),
    {
        self.types.len()
    }

    /// How many instances of constants have numbers.
    pub fn num_monomorphs(&self) -> (r: usize)
        ensures
            r == self@.monomorphs.len(),
    {
        self.monomorphs.len()
    }

    /// Whether a type has a number, or there is one left for it.
    pub fn has_room(&self, acorn_type: &AcornType) -> (r: bool)
        ensures
            r == self@.has_room(acorn_type@),
    {
        self.types.len() <= TypeId::MAX as usize || holds(&self.types, acorn_type)
    }

    /// The number of a type, which is added where it is new.
    pub fn add_type(&mut self, acorn_type: &AcornType) -> (r: TypeId)
        requires
            old(self)@.wf(),
            old(self)@.has_room(acorn_type@),
            old(self)@.types.len() <= TypeId::MAX + 1,
        ensures
            final(self)@ == old(self)@.with_type(acorn_type@),
            final(self)@.wf(),
            final(self)@.types.len() <= TypeId::MAX + 1,
            r < final(self)@.types.len(),
            final(self)@.types[r as int] == acorn_type@,
    {
        let n = self.types.len();
        let mut i: usize = 0;
        while i < n
            invariant
                i <= n,
                n == self.types.len() <= TypeId::MAX + 1,
                self@ == old(self)@,
                self@.wf(),
                forall|k: int| 0 <= k < i ==> self@.types[k] != acorn_type@,
            decreases n - i,
        {
            assert(self@.types[i as int] == self.types@[i as int]@);
            if self.types[i].same(acorn_type) {
                return i as TypeId;
            }
            i = i + 1;
        }
        self.types.push(acorn_type.clone());
        proof {
            let before = old(self)@;
            assert(views(self.types@) =~= before.types.push(acorn_type@));
            assert(self@ =~= before.with_type(acorn_type@));
        }
        n as TypeId
    }

    /// The type with a number.
    pub fn get_type(&self, type_id: TypeId) -> (r: &AcornType)
        requires
            type_id < self@.types.len(),
        ensures
            r@ == self@.types[type_id as int],
    {
        &self.types[type_id as usize]
    }

    /// The term for an instance of a constant, which is given a number where it is new. The
    /// instance should have no type parameters left.
    pub fn term_from_monomorph(&mut self, c: &ConstantInstance) -> (r: Term)
        requires
            old(self)@.wf(),
            old(self)@.has_room(c@.instance_type),
            old(self)@.types.len() <= TypeId::MAX + 1,
            old(self)@.monomorphs.len() <= AtomId::MAX,
        ensures
            final(self)@ == old(self)@.with_monomorph(c@),
            final(self)@.wf(),
            r@ == final(self)@.monomorph_term(c@),
            final(self)@.types.len() <= TypeId::MAX + 1,
    {
        let n = self.monomorphs.len();
        let mut i: usize = 0;
        while i < n
            invariant
                i <= n,
                n == self.monomorphs.len() <= AtomId::MAX,
                old(self)@.types.len() <= TypeId::MAX + 1,
                old(self)@.has_room(c@.instance_type),
                self@ == old(self)@,
                self@.wf(),
                forall|k: int| 0 <= k < i ==> (#[trigger] self@.monomorphs[k]).0 != c@,
            decreases n - i,
        {
            assert(self@.monomorphs[i as int] == (
                self.monomorphs@[i as int].0@,
                self.monomorphs@[i as int].1,
            ));
            if self.monomorphs[i].0.same(c) {
                proof {
                    assert(self@.monomorphs[i as int].0 == c@);
                    let k = self@.monomorph_number(c@);
                    assert(k == i);
                }
                return Term::atom(self.monomorphs[i].1, Atom::Monomorph(i as AtomId));
            }
            i = i + 1;
        }
        let ghost before = self@;
        assert(!before.has_monomorph(c@));
        let type_id = self.add_type(&c.instance_type);
        let ghost typed = self@;
        let ghost listed = self.monomorphs@;
        self.monomorphs.push((c.duplicate(), type_id));
        proof {
            assert(typed == before.with_type(c@.instance_type));
            assert(typed.types.index_of(c@.instance_type) == type_id) by {
                let k = typed.types.index_of(c@.instance_type);
                assert(typed.types.contains(c@.instance_type));
            }
            assert(monomorphs_view(self.monomorphs@) =~= monomorphs_view(listed).push(
                (c@, type_id),
            ));
            assert(self@ =~= before.with_monomorph(c@));
            assert(self@.monomorphs[n as int].0 == c@);
            assert forall|k: int| 0 <= k < self@.monomorphs.len() implies (
            #[trigger] self@.monomorphs[k]).1 < self@.types.len() && self@.types[self@.monomorphs[k].1 as int]
                == self@.monomorphs[k].0.instance_type by {
                if k < n {
                    assert(self@.monomorphs[k] == before.monomorphs[k]);
                }
            }
        }
        assert(self@.monomorph_number(c@) == n);
        Term::atom(type_id, Atom::Monomorph(n as AtomId))
    }

    /// The instance of a constant with a number.
    pub fn get_monomorph(&self, id: AtomId) -> (r: &ConstantInstance)
        requires
            id < self@.monomorphs.len(),
        ensures
            r@ == self@.monomorphs[id as int].0,
    {
        &self.monomorphs[id as usize].0
    }
}

/// A type that has a number keeps it when another type is added.
pub proof fn law_type_numbers_are_kept(m: TypeMapV, t: TypeV, id: TypeId)
    requires
        m.wf(),
        id < m.types.len(),
    ensures
        m.with_type(t).types[id as int] == m.types[id as int],
        m.with_type(t).types.index_of(m.types[id as int]) == id,
        m.with_type(t).wf(),
{
    let after = m.with_type(t);
    assert(after.types[id as int] == m.types[id as int]);
    assert(after.types.contains(m.types[id as int]));
}

/// Adding a type a second time changes nothing and gives the number that it has.
pub proof fn law_adding_a_type_twice(m: TypeMapV, t: TypeV)
    requires
        m.wf(),
    ensures
        m.with_type(t).with_type(t) == m.with_type(t),
        m.with_type(t).types.contains(t),
{
    let after = m.with_type(t);
    if !m.types.contains(t) {
        assert(after.types[m.types.len() as int] == t);
    }
}

/// An instance that has a number keeps it when another instance is added, and the type of each
/// is found under the number that goes with it.
pub proof fn law_monomorph_numbers_are_kept(m: TypeMapV, c: ConstantInstanceV, id: AtomId)
    requires
        m.wf(),
        m.has_room(c.instance_type),
        m.types.len() <= TypeId::MAX + 1,
        id < m.monomorphs.len(),
    ensures
        m.with_monomorph(c).monomorphs[id as int] == m.monomorphs[id as int],
        m.with_monomorph(c).has_monomorph(c),
        m.with_monomorph(c).types[m.monomorphs[id as int].1 as int]
            == m.monomorphs[id as int].0.instance_type,
{
    let after = m.with_monomorph(c);
    if !m.has_monomorph(c) {
        assert(after.monomorphs[m.monomorphs.len() as int].0 == c);
    }
}

} // verus!
