//! What names mean: the types, constants and modules of a scope, and how expressions are
//! evaluated in it.

use vstd::prelude::*;

use crate::acorn_type::{
    any_refer, functional, matched, parametrized, parametrized_all, specialized, type_text,
    AcornType, AtomId, ModuleId, TypeParam, TypeV, FIRST_NORMAL, SKOLEM,
};
use crate::acorn_value::{
    op_text, parametrized_value, value_type, write_op, AcornValue, BinaryOp, FunctionApplication,
    ValueV,
};
use crate::code_gen_error::{CodeGenError, CodeGenErrorV};
use crate::compilation::{Error, ErrorV};
use crate::debug::{type_parts, write_type};
use crate::expression::{
    comma_list, dots_of, expr_token, expr_view, list_of, parse_expr, ExprV, Expression, Stop,
};
use crate::order::{ascending, insert_ascending};
use crate::operators::{
    call_of, code_level, find_call, find_dot, find_level, find_numeral, guard, guarded, next_dot,
    numeral_of, Call, CallV, Member, MemberV,
};
use crate::project::{Project, ProjectV};
use crate::table::{duplicate_all, holds, put, Duplicate, Key, Table};
use crate::text::{chars_of, decimal, decimal_text, join, joined, same_text, views};
use crate::token::{text_tokens, Token, TokenIter, TokenType, TokenV, valid_variable_name};

verus! {

/// The variables on the stack: their depth and their type, by name.
pub struct Stack {
    vars: Table<String, (AtomId, AcornType)>,
}

/// The model of the stack.
pub type StackV = Map<Seq<char>, (AtomId, TypeV)>;

impl View for Stack {
    type V = StackV;

    closed spec fn view(&self) -> StackV {
        self.vars@
    }
}

/// The depths of the variables are the numbers below their count, each once.
pub open spec fn dense(st: StackV) -> bool {
    &&& forall|k: Seq<char>| #[trigger] st.dom().contains(k) ==> st[k].0 < st.dom().len()
    &&& forall|j: Seq<char>, k: Seq<char>| #[trigger]
        st.dom().contains(j) && #[trigger] st.dom().contains(k) && j != k ==> st[j].0 != st[k].0
}

/// Whether a list has the name of each variable at its depth, and no other names.
pub open spec fn names_by_depth(st: StackV, names: Seq<Seq<char>>) -> bool {
    &&& names.len() == st.dom().len()
    &&& forall|k: Seq<char>| #[trigger] st.dom().contains(k) ==> names[st[k].0 as int] == k
}

/// The stack with a new variable on top.
pub open spec fn pushed(st: StackV, name: Seq<char>, t: TypeV) -> StackV {
    st.insert(name, (st.dom().len() as u16, t))
}

/// The stack with the variables `names[i..]` on top, one after the other.
pub open spec fn pushed_all(st: StackV, names: Seq<Seq<char>>, types: Seq<TypeV>, i: int) -> StackV
    decreases names.len() - i,
{
    if i >= names.len() {
        st
    } else {
        pushed_all(pushed(st, names[i], types[i]), names, types, i + 1)
    }
}

/// The stack without some variables.
pub open spec fn without(st: StackV, names: Seq<Seq<char>>) -> StackV
    decreases names.len(),
{
    if names.len() == 0 {
        st
    } else {
        without(st, names.drop_last()).remove(names.last())
    }
}

impl Stack {
    /// An empty stack.
    pub fn new() -> (r: Self)
        ensures
            r@ == StackV::empty(),
    {
        Stack { vars: Table::new() }
    }

    /// The names of the variables, by depth.
    pub fn names(&self) -> (r: Vec<&str>)
        requires
            dense(self@),
        ensures
            names_by_depth(self@, views(r@)),
    {
        let n = self.vars.len();
        let mut out: Vec<&str> = Vec::new();
        let mut i: usize = 0;
        while i < n
            invariant
                i <= n,
                out.len() == i,
            decreases n - i,
        {
            out.push("");
            i = i + 1;
        }
        let mut j: usize = 0;
        while j < n
            invariant
                j <= n == self.vars.list().len(),
                n == self@.dom().len(),
                dense(self@),
                out.len() == n,
                self@ == self.vars@,
                forall|k: int|
                    0 <= k < j ==> self@.dom().contains((#[trigger] self.vars.list()[k]).0)
                        && out@[self@[self.vars.list()[k].0].0 as int]@ == self.vars.list()[k].0,
            decreases n - j,
        {
            let (name, entry) = self.vars.entry(j);
            let ghost before = out@;
            out.set(entry.0 as usize, name.as_str());
            proof {
                assert forall|k: int| 0 <= k < j + 1 implies self@.dom().contains(
                    (#[trigger] self.vars.list()[k]).0,
                ) && out@[self@[self.vars.list()[k].0].0 as int]@ == self.vars.list()[k].0 by {
                    if k < j {
                        let other = self.vars.list()[k].0;
                        if other != name@ {
                            assert(self@[other].0 != self@[name@].0);
                        }
                    }
                }
            }
            j = j + 1;
        }
        proof {
            assert forall|k: Seq<char>| #[trigger] self@.dom().contains(k) implies out@[self@[k].0 as int]@
                == k by {
                let i = choose|i: int|
                    0 <= i < self.vars.list().len() && (#[trigger] self.vars.list()[i]).0 == k;
                assert(self.vars.list()[i].0 == k);
            }
        }
        out
    }

    fn insert(&mut self, name: String, acorn_type: AcornType) -> (r: AtomId)
        ensures
            final(self)@ == pushed(old(self)@, name@, acorn_type@),
            r == old(self)@.dom().len() as u16,
    {
        let i = self.vars.len() as AtomId;
        self.vars.insert(name, (i, acorn_type));
        i
    }

    fn remove(&mut self, name: &String)
        ensures
            final(self)@ == old(self)@.remove(name@),
    {
        self.vars.remove(name);
    }

    /// Takes some variables off.
    pub fn remove_all(&mut self, names: &Vec<String>)
        ensures
            final(self)@ == without(old(self)@, views(names@)),
    {
        let mut i: usize = 0;
        assert(views(names@).take(0) =~= Seq::empty());
        while i < names.len()
            invariant
                i <= names.len(),
                self@ == without(old(self)@, views(names@).take(i as int)),
            decreases names.len() - i,
        {
            assert(views(names@).take(i + 1).drop_last() =~= views(names@).take(i as int));
            self.remove(&names[i]);
            i = i + 1;
        }
        assert(views(names@).take(i as int) =~= views(names@));
    }

    /// The depth and the type of a variable.
    pub fn get(&self, name: &String) -> (r: Option<&(AtomId, AcornType)>)
        ensures
            match r {
                Some(x) => self@.dom().contains(name@) && self@[name@] == (x.0, x.1@),
                None => !self@.dom().contains(name@),
            },
    {
        self.vars.get(name)
    }
}

/// What is known of a constant.
#[derive(Debug)]
struct ConstantInfo {
    /// The names of the type parameters this constant was defined with.
    params: Vec<String>,
    /// The definition, if it has one.
    definition: Option<AcornValue>,
    /// Whether this is the name of a theorem in this scope. Inside the block with the proof of a
    /// theorem, the theorem is just a function.
    theorem: bool,
}

/// The model of what is known of a constant.
pub struct ConstantV {
    pub params: Seq<Seq<char>>,
    pub definition: Option<ValueV>,
    pub theorem: bool,
}

impl View for ConstantInfo {
    type V = ConstantV;

    closed spec fn view(&self) -> ConstantV {
        ConstantV {
            params: views(self.params@),
            definition: opt_view(self.definition),
            theorem: self.theorem,
        }
    }
}

/// The view of a value that may be missing.
pub open spec fn opt_view<T: View>(o: Option<T>) -> Option<T::V> {
    match o {
        Some(x) => Some(x@),
        None => None,
    }
}

fn duplicate_opt<T: Duplicate>(o: &Option<T>) -> (r: Option<T>)
    ensures
        opt_view(r) == opt_view(*o),
{
    match o {
        Some(x) => Some(x.duplicate()),
        None => None,
    }
}

impl Duplicate for ConstantInfo {
    fn duplicate(&self) -> (r: Self) {
        ConstantInfo {
            params: duplicate_all(&self.params),
            definition: duplicate_opt(&self.definition),
            theorem: self.theorem,
        }
    }
}

/// The names of a scope.
pub struct BindingMap {
    /// The module all these names are in.
    module: ModuleId,
    /// The types, by name.
    type_names: Table<String, AcornType>,
    /// A name for each type that has one: the first that it got.
    reverse_type_names: Table<AcornType, String>,
    /// The types of identifiers.
    identifier_types: Table<String, AcornType>,
    /// The constants, those of data types as `<datatype>.<constant>`.
    constants: Table<String, ConstantInfo>,
    /// The local names of constants of other modules.
    aliased_constants: Table<(ModuleId, String), String>,
    /// The modules that names stand for.
    modules: Table<String, ModuleId>,
    /// The local names of modules.
    reverse_modules: Table<ModuleId, String>,
    /// The data type of numeric literals.
    numerals: Option<(ModuleId, String)>,
}

/// The model of the names of a scope.
pub struct BindingMapV {
    pub module: ModuleId,
    pub type_names: Map<Seq<char>, TypeV>,
    pub reverse_type_names: Map<TypeV, Seq<char>>,
    pub identifier_types: Map<Seq<char>, TypeV>,
    pub constants: Map<Seq<char>, ConstantV>,
    pub aliased_constants: Map<(ModuleId, Seq<char>), Seq<char>>,
    pub modules: Map<Seq<char>, ModuleId>,
    pub reverse_modules: Map<ModuleId, Seq<char>>,
    pub numerals: Option<(ModuleId, Seq<char>)>,
}

impl View for BindingMap {
    type V = BindingMapV;

    closed spec fn view(&self) -> BindingMapV {
        BindingMapV {
            module: self.module,
            type_names: self.type_names@,
            reverse_type_names: self.reverse_type_names@,
            identifier_types: self.identifier_types@,
            constants: self.constants@,
            aliased_constants: self.aliased_constants@,
            modules: self.modules@,
            reverse_modules: self.reverse_modules@,
            numerals: opt_view(self.numerals),
        }
    }
}

impl BindingMapV {
    /// The scope in which only `bool` has a meaning.
    pub open spec fn initial(module: ModuleId) -> BindingMapV {
        BindingMapV {
            module,
            type_names: Map::empty().insert("bool"@, TypeV::Bool),
            reverse_type_names: Map::empty().insert(TypeV::Bool, "bool"@),
            identifier_types: Map::empty(),
            constants: Map::empty(),
            aliased_constants: Map::empty(),
            modules: Map::empty(),
            reverse_modules: Map::empty(),
            numerals: None,
        }
    }

    /// The invariant: each constant has a type, each name stands for one thing, and the names of
    /// types are names of these types.
    pub open spec fn wf(self) -> bool {
        &&& self.constants.dom() == self.identifier_types.dom()
        &&& self.type_names.dom().disjoint(self.identifier_types.dom())
        &&& self.type_names.dom().disjoint(self.modules.dom())
        &&& self.identifier_types.dom().disjoint(self.modules.dom())
        &&& forall|t: TypeV| #[trigger]
            self.reverse_type_names.dom().contains(t) ==> self.type_names.dom().contains(
                self.reverse_type_names[t],
            ) && self.type_names[self.reverse_type_names[t]] == t
    }

    /// Whether a name means anything.
    pub open spec fn in_use(self, name: Seq<char>) -> bool {
        self.type_names.dom().contains(name) || self.identifier_types.dom().contains(name)
            || self.modules.dom().contains(name)
    }

    /// The scope with a name for a type. A type keeps the first name it got.
    pub open spec fn with_type(self, name: Seq<char>, t: TypeV) -> BindingMapV {
        BindingMapV {
            type_names: self.type_names.insert(name, t),
            reverse_type_names: if self.reverse_type_names.dom().contains(t) {
                self.reverse_type_names
            } else {
                self.reverse_type_names.insert(t, name)
            },
            ..self
        }
    }

    /// The scope with a new data type.
    pub open spec fn with_data_type(self, name: Seq<char>) -> BindingMapV {
        self.with_type(name, TypeV::Data(self.module, name))
    }

    /// The scope without the name of a type.
    pub open spec fn without_type(self, name: Seq<char>) -> BindingMapV {
        BindingMapV {
            type_names: self.type_names.remove(name),
            reverse_type_names: self.reverse_type_names.remove(self.type_names[name]),
            ..self
        }
    }

    /// The scope with a new constant. One that is defined as a constant of another module is a
    /// local name for that one, unless it has one already.
    pub open spec fn with_constant(
        self,
        name: Seq<char>,
        params: Seq<Seq<char>>,
        t: TypeV,
        definition: Option<ValueV>,
    ) -> BindingMapV {
        BindingMapV {
            identifier_types: self.identifier_types.insert(name, t),
            constants: self.constants.insert(
                name,
                ConstantV { params, definition, theorem: false },
            ),
            aliased_constants: match definition {
                Some(ValueV::Constant(m, outer, _, _)) => if m != self.module
                    && !self.aliased_constants.dom().contains((m, outer)) {
                    self.aliased_constants.insert((m, outer), name)
                } else {
                    self.aliased_constants
                },
                _ => self.aliased_constants,
            },
            ..self
        }
    }

    /// The scope in which a constant is a theorem.
    pub open spec fn with_theorem(self, name: Seq<char>) -> BindingMapV {
        BindingMapV {
            constants: self.constants.insert(
                name,
                ConstantV { theorem: true, ..self.constants[name] },
            ),
            ..self
        }
    }

    /// The scope with a name for a module.
    pub open spec fn with_module(self, name: Seq<char>, module: ModuleId) -> BindingMapV {
        BindingMapV {
            modules: self.modules.insert(name, module),
            reverse_modules: self.reverse_modules.insert(module, name),
            ..self
        }
    }

    /// The value that a name stands for.
    pub open spec fn constant_value(self, name: Seq<char>) -> Option<ValueV> {
        if self.constants.dom().contains(name) && self.identifier_types.dom().contains(name) {
            Some(
                ValueV::Constant(
                    self.module,
                    name,
                    self.identifier_types[name],
                    self.constants[name].params,
                ),
            )
        } else {
            None
        }
    }

    /// The definition of a constant, where it has one.
    pub open spec fn definition(self, name: Seq<char>) -> Option<ValueV> {
        if self.constants.dom().contains(name) {
            self.constants[name].definition
        } else {
            None
        }
    }

    /// The digits of a value that is a numeral of the type that the scope has numerals of.
    pub open spec fn own_numeral(self, v: ValueV) -> Option<Seq<char>> {
        match numeral_of(v) {
            Some(m) => if self.numerals == Some((m.0, m.1)) {
                Some(m.2)
            } else {
                None
            },
            None => None,
        }
    }

    /// Whether a name is a theorem's.
    pub open spec fn is_theorem(self, name: Seq<char>) -> bool {
        self.constants.dom().contains(name) && self.constants[name].theorem
    }
}

/// The modules of a list, in the dictionary order of their names.
pub open spec fn in_name_order(m: Map<Seq<char>, ModuleId>, r: Seq<ModuleId>) -> bool {
    exists|ks: Seq<Seq<char>>| #[trigger] names_modules(m, ks, r)
}

/// Names in dictionary order, all those of the map, and the modules that they stand for.
pub open spec fn names_modules(
    m: Map<Seq<char>, ModuleId>,
    ks: Seq<Seq<char>>,
    r: Seq<ModuleId>,
) -> bool {
    &&& ascending(ks)
    &&& forall|k: Seq<char>| #[trigger] m.dom().contains(k) <==> ks.contains(k)
    &&& r.len() == ks.len()
    &&& forall|i: int| 0 <= i < ks.len() ==> r[i] == m[#[trigger] ks[i]]
}

impl BindingMap {
    /// A scope in which only `bool` has a meaning.
    pub fn new(module: ModuleId) -> (r: Self)
        requires
            module >= FIRST_NORMAL,
        ensures
            r@ == BindingMapV::initial(module),
            r@.wf(),
    {
        let mut answer = BindingMap {
            module,
            type_names: Table::new(),
            reverse_type_names: Table::new(),
            identifier_types: Table::new(),
            constants: Table::new(),
            aliased_constants: Table::new(),
            modules: Table::new(),
            reverse_modules: Table::new(),
            numerals: None,
        };
        answer.add_type_alias("bool", AcornType::Bool);
        answer
    }

    /// A copy of the scope.
    pub fn copy(&self) -> (r: Self)
        ensures
            r@ == self@,
    {
        BindingMap {
            module: self.module,
            type_names: self.type_names.copy(),
            reverse_type_names: self.reverse_type_names.copy(),
            identifier_types: self.identifier_types.copy(),
            constants: self.constants.copy(),
            aliased_constants: self.aliased_constants.copy(),
            modules: self.modules.copy(),
            reverse_modules: self.reverse_modules.copy(),
            numerals: duplicate_opt(&self.numerals),
        }
    }

    /// The module of the scope.
    pub fn module(&self) -> (r: ModuleId)
        ensures
            r == self@.module,
    {
        self.module
    }

    /// Whether a name means anything.
    pub fn name_in_use(&self, name: &str) -> (r: bool)
        ensures
            r == self@.in_use(name@),
    {
        let name = name.to_owned();
        self.type_names.contains(&name) || self.identifier_types.contains(&name)
            || self.modules.contains(&name)
    }

    fn insert_type_name(&mut self, name: String, acorn_type: AcornType)
        requires
            !old(self)@.in_use(name@),
        ensures
            final(self)@ == old(self)@.with_type(name@, acorn_type@),
            old(self)@.wf() ==> final(self)@.wf(),
    {
        // There can be multiple names for a type.
        // If we already have a name for the reverse lookup, we don't overwrite it.
        if !self.reverse_type_names.contains(&acorn_type) {
            self.reverse_type_names.insert(acorn_type.clone(), name.clone());
        }
        self.type_names.insert(name, acorn_type);
    }

    /// Adds a new data type.
    pub fn add_data_type(&mut self, name: &str) -> (r: AcornType)
        requires
            !old(self)@.in_use(name@),
        ensures
            final(self)@ == old(self)@.with_data_type(name@),
            r@ == TypeV::Data(old(self)@.module, name@),
            old(self)@.wf() ==> final(self)@.wf(),
    {
        let data_type = AcornType::Data(self.module, name.to_owned());
        self.insert_type_name(name.to_owned(), data_type.clone());
        data_type
    }

    /// Whether a name is a type's.
    pub fn is_type(&self, name: &str) -> (r: bool)
        ensures
            r == self@.type_names.dom().contains(name@),
    {
        self.type_names.contains(&name.to_owned())
    }

    /// Adds another name for a type.
    pub fn add_type_alias(&mut self, name: &str, acorn_type: AcornType)
        requires
            !old(self)@.in_use(name@),
        ensures
            final(self)@ == old(self)@.with_type(name@, acorn_type@),
            old(self)@.wf() ==> final(self)@.wf(),
    {
        self.insert_type_name(name.to_owned(), acorn_type);
    }

    /// The value that a name stands for, if it is a constant's.
    pub fn get_constant_value(&self, name: &str) -> (r: Option<AcornValue>)
        ensures
            opt_view(r) == self@.constant_value(name@),
    {
        let key = name.to_owned();
        match self.constants.get(&key) {
            None => None,
            Some(info) => match self.identifier_types.get(&key) {
                None => None,
                Some(t) => Some(
                    AcornValue::Constant(
                        self.module,
                        name.to_owned(),
                        t.clone(),
                        duplicate_all(&info.params),
                    ),
                ),
            },
        }
    }

    /// The type of an identifier, not of a type name: for `let x: Nat = 0`, that of `x` is `Nat`.
    pub fn get_type_for_identifier(&self, identifier: &str) -> (r: Option<&AcornType>)
        ensures
            match r {
                Some(t) => self@.identifier_types.dom().contains(identifier@)
                    && self@.identifier_types[identifier@] == t@,
                None => !self@.identifier_types.dom().contains(identifier@),
            },
    {
        self.identifier_types.get(&identifier.to_owned())
    }

    /// The type parameters that a constant was defined with; none for another name.
    pub fn get_params(&self, identifier: &str) -> (r: Vec<String>)
        ensures
            views(r@) == if self@.constants.dom().contains(identifier@) {
                self@.constants[identifier@].params
            } else {
                Seq::empty()
            },
    {
        match self.constants.get(&identifier.to_owned()) {
            Some(info) => duplicate_all(&info.params),
            None => {
                let none: Vec<String> = Vec::new();
                assert(views(none@) =~= Seq::<Seq<char>>::empty());
                none
            },
        }
    }

    /// The type that a type name stands for.
    pub fn get_type_for_name(&self, typename: &str) -> (r: Option<&AcornType>)
        ensures
            match r {
                Some(t) => self@.type_names.dom().contains(typename@)
                    && self@.type_names[typename@] == t@,
                None => !self@.type_names.dom().contains(typename@),
            },
    {
        self.type_names.get(&typename.to_owned())
    }

    /// Whether a name is a type's.
    pub fn has_type_name(&self, typename: &str) -> (r: bool)
        ensures
            r == self@.type_names.dom().contains(typename@),
    {
        self.type_names.contains(&typename.to_owned())
    }

    /// Whether a name is an identifier's.
    pub fn has_identifier(&self, identifier: &str) -> (r: bool)
        ensures
            r == self@.identifier_types.dom().contains(identifier@),
    {
        self.identifier_types.contains(&identifier.to_owned())
    }

    /// The definition of a constant, if there is one.
    pub fn get_definition(&self, name: &str) -> (r: Option<&AcornValue>)
        ensures
            opt_view(r) == self@.definition(name@),
    {
        match self.constants.get(&name.to_owned()) {
            Some(info) => info.definition.as_ref(),
            None => None,
        }
    }

    /// All other modules that we directly depend on, in the order of the names of the imports.
    pub fn direct_dependencies(&self) -> (r: Vec<ModuleId>)
        ensures
            in_name_order(self@.modules, r@),
    {
        broadcast use crate::text::group_views;
        let n = self.modules.len();
        let mut names: Vec<String> = Vec::new();
        let mut i: usize = 0;
        let ghost l = self.modules.list();
        proof {
            assert(views(names@) =~= Seq::<Seq<char>>::empty());
        }
        while i < n
            invariant
                i <= n == l.len(),
                l == self.modules.list(),
                ascending(views(names@)),
                forall|k: Seq<char>| #[trigger]
                    views(names@).contains(k) <==> exists|j: int|
                        0 <= j < i && (#[trigger] l[j]).0 == k,
            decreases n - i,
        {
            let (name, _) = self.modules.entry(i);
            let ghost before = views(names@);
            if !holds(&names, name) {
                insert_ascending(&mut names, name.clone());
            }
            proof {
                assert forall|k: Seq<char>| #[trigger] views(names@).contains(k) <==> exists|j: int|
                    0 <= j < i + 1 && (#[trigger] l[j]).0 == k by {
                    if k == name@ {
                        assert(l[i as int].0 == k);
                    }
                    if views(names@).contains(k) && k != name@ {
                        assert(before.contains(k));
                        let j = choose|j: int| 0 <= j < i && (#[trigger] l[j]).0 == k;
                        assert(l[j].0 == k);
                    }
                    if exists|j: int| 0 <= j < i + 1 && (#[trigger] l[j]).0 == k {
                        let j = choose|j: int| 0 <= j < i + 1 && (#[trigger] l[j]).0 == k;
                        if j < i {
                            assert(before.contains(k));
                        }
                    }
                }
            }
            i = i + 1;
        }
        let mut out: Vec<ModuleId> = Vec::new();
        let mut j: usize = 0;
        proof {
            assert forall|k: Seq<char>| #[trigger] self@.modules.dom().contains(k) <==> views(
                names@,
            ).contains(k) by {
                if self@.modules.dom().contains(k) {
                    let a = choose|a: int| 0 <= a < l.len() && (#[trigger] l[a]).0 == k;
                    assert(l[a].0 == k);
                }
                if views(names@).contains(k) {
                    let a = choose|a: int| 0 <= a < n && (#[trigger] l[a]).0 == k;
                    assert(self.modules.listed(a));
                }
            }
        }
        while j < names.len()
            invariant
                j <= names.len(),
                out.len() == j,
                self@.modules == self.modules@,
                forall|k: Seq<char>| #[trigger]
                    self@.modules.dom().contains(k) <==> views(names@).contains(k),
                forall|k: int| 0 <= k < j ==> out@[k] == self@.modules[#[trigger] views(names@)[k]],
            decreases names.len() - j,
        {
            assert(views(names@)[j as int] == names@[j as int]@);
            assert(views(names@).contains(names@[j as int]@));
            match self.modules.get(&names[j]) {
                Some(m) => {
                    out.push(*m);
                },
                None => {
                    assert(false);
                },
            }
            j = j + 1;
        }
        assert(names_modules(self@.modules, views(names@), out@));
        out
    }

    /// Adds a new constant.
    pub fn add_constant(
        &mut self,
        name: &str,
        params: Vec<String>,
        constant_type: AcornType,
        definition: Option<AcornValue>,
    )
        requires
            !old(self)@.in_use(name@),
        ensures
            final(self)@ == old(self)@.with_constant(
                name@,
                views(params@),
                constant_type@,
                opt_view(definition),
            ),
            old(self)@.wf() ==> final(self)@.wf(),
    {
        broadcast use crate::acorn_value::lemma_application_view;
        // Check if we are aliasing a constant from another module.
        if let Some(AcornValue::Constant(module, external_name, _, _)) = &definition {
            if *module != self.module {
                let key = (*module, external_name.clone());
                if !self.aliased_constants.contains(&key) {
                    self.aliased_constants.insert(key, name.to_owned());
                }
            }
        }
        let info = ConstantInfo { params, definition, theorem: false };
        self.identifier_types.insert(name.to_owned(), constant_type);
        self.constants.insert(name.to_owned(), info);
        proof {
            if old(self)@.wf() {
                assert(self@.constants.dom() =~= self@.identifier_types.dom());
            }
        }
    }

    /// Whether a name is a constant's.
    pub fn is_constant(&self, name: &str) -> (r: bool)
        ensures
            r == self@.constants.dom().contains(name@),
    {
        self.constants.contains(&name.to_owned())
    }

    /// Makes a constant a theorem.
    pub fn mark_as_theorem(&mut self, name: &str)
        requires
            old(self)@.constants.dom().contains(name@),
        ensures
            final(self)@ == old(self)@.with_theorem(name@),
            old(self)@.wf() ==> final(self)@.wf(),
    {
        let key = name.to_owned();
        let info = match self.constants.get(&key) {
            Some(info) => ConstantInfo {
                params: duplicate_all(&info.params),
                definition: duplicate_opt(&info.definition),
                theorem: true,
            },
            None => {
                return;
            },
        };
        self.constants.insert(key, info);
        proof {
            if old(self)@.wf() {
                assert(self@.constants.dom() =~= self@.identifier_types.dom());
            }
        }
    }

    /// Whether a name is a theorem's.
    pub fn is_theorem(&self, name: &str) -> (r: bool)
        ensures
            r == self@.is_theorem(name@),
    {
        match self.constants.get(&name.to_owned()) {
            Some(info) => info.theorem,
            None => false,
        }
    }

    /// Takes a type out. Data types that come from type parameters go when they leave the scope.
    pub fn remove_data_type(&mut self, name: &str)
        requires
            old(self)@.type_names.dom().contains(name@),
        ensures
            final(self)@ == old(self)@.without_type(name@),
    {
        let key = name.to_owned();
        let t = match self.type_names.get(&key) {
            Some(t) => t.clone(),
            None => {
                return;
            },
        };
        self.type_names.remove(&key);
        self.reverse_type_names.remove(&t);
    }

    /// Adds a name for a module.
    pub fn add_module(&mut self, name: &str, module: ModuleId)
        requires
            !old(self)@.in_use(name@),
        ensures
            final(self)@ == old(self)@.with_module(name@, module),
            old(self)@.wf() ==> final(self)@.wf(),
    {
        self.modules.insert(name.to_owned(), module);
        self.reverse_modules.insert(module, name.to_owned());
    }

    /// Whether a name is a module's.
    pub fn is_module(&self, name: &str) -> (r: bool)
        ensures
            r == self@.modules.dom().contains(name@),
    {
        self.modules.contains(&name.to_owned())
    }

    /// Makes a data type that of numeric literals.
    pub fn set_default(&mut self, module: ModuleId, typename: String)
        ensures
            final(self)@ == (BindingMapV {
                numerals: Some((module, typename@)),
                ..old(self)@
            }),
            old(self)@.wf() ==> final(self)@.wf(),
    {
        self.numerals = Some((module, typename));
    }
}

/// The view of a type that may be missing.
pub open spec fn opt_type(t: Option<&AcornType>) -> Option<TypeV> {
    match t {
        Some(t) => Some(t@),
        None => None,
    }
}

/// What is reported where one type was expected and another came.
pub open spec fn mismatch(token: TokenV, expected: TypeV, actual: TypeV) -> ErrorV {
    ErrorV::at(
        token,
        "expected type "@ + type_text(expected) + ", but got "@ + type_text(actual),
    )
}

/// A value, where its type is the one that is expected, if one is.
pub open spec fn checked(token: TokenV, want: Option<TypeV>, actual: TypeV, v: ValueV) -> Result<
    ValueV,
    ErrorV,
> {
    match want {
        Some(t) => if t == actual {
            Ok(v)
        } else {
            Err(mismatch(token, t, actual))
        },
        None => Ok(v),
    }
}

/// The scope of a module that a name stands for.
pub open spec fn imported(b: BindingMapV, p: ProjectV, token: TokenV, name: Seq<char>) -> Result<
    BindingMapV,
    ErrorV,
> {
    if !b.modules.dom().contains(name) {
        Err(ErrorV::at(token, "unknown module "@ + name))
    } else if !p.modules.dom().contains(b.modules[name]) {
        Err(ErrorV::at(token, "error while importing module: "@ + name))
    } else {
        Ok(p.modules[b.modules[name]])
    }
}

/// The type that an expression stands for.
pub open spec fn eval_type(b: BindingMapV, p: ProjectV, e: ExprV) -> Result<TypeV, ErrorV>
    decreases e, 0int,
{
    match e {
        ExprV::Identifier(token) => if token.token_type == TokenType::Axiom {
            Err(ErrorV::at(token, "axiomatic types can only be created at the top level"@))
        } else if b.type_names.dom().contains(token.text) {
            Ok(b.type_names[token.text])
        } else {
            Err(ErrorV::at(token, "expected type name"@))
        },
        ExprV::Unary(token, _) => Err(
            ErrorV::at(token, "unexpected unary operator in type expression"@),
        ),
        ExprV::Binary(left, token, right) => if token.token_type == TokenType::RightArrow {
            let args = match *left {
                ExprV::Grouping(_, inner, _) => eval_types(b, p, *inner),
                _ => match eval_type(b, p, *left) {
                    Err(e) => Err(e),
                    Ok(t) => Ok(seq![t]),
                },
            };
            match args {
                Err(e) => Err(e),
                Ok(args) => match eval_type(b, p, *right) {
                    Err(e) => Err(e),
                    Ok(ret) => Ok(functional(args, ret)),
                },
            }
        } else if token.token_type == TokenType::Dot {
            match dots_of(e) {
                Err(e) => Err(e),
                Ok(components) => if components.len() != 2 {
                    Err(ErrorV::at(token, "expected <module>.<type> here"@))
                } else {
                    match imported(b, p, token, components[0]) {
                        Err(e) => Err(e),
                        Ok(other) => if other.type_names.dom().contains(components[1]) {
                            Ok(other.type_names[components[1]])
                        } else {
                            Err(
                                ErrorV::at(
                                    token,
                                    "unknown type "@ + components[0] + "."@ + components[1],
                                ),
                            )
                        },
                    }
                },
            }
        } else {
            Err(ErrorV::at(token, "unexpected binary operator in type expression"@))
        },
        ExprV::Apply(left, _) => Err(
            ErrorV::at(
                expr_token(*left),
                "unexpected function application in type expression"@,
            ),
        ),
        ExprV::Grouping(_, inner, _) => eval_type(b, p, *inner),
        ExprV::Binder(token, _, _, _) => Err(
            ErrorV::at(token, "unexpected token in type expression"@),
        ),
        ExprV::IfThenElse(token, _, _, _, _) => Err(
            ErrorV::at(token, "unexpected token in type expression"@),
        ),
    }
}

/// The types that a list with commas stands for.
pub open spec fn eval_types(b: BindingMapV, p: ProjectV, e: ExprV) -> Result<Seq<TypeV>, ErrorV>
    decreases e, 1int,
{
    match e {
        ExprV::Binary(l, t, r) => if t.token_type == TokenType::Comma {
            match eval_types(b, p, *l) {
                Err(e) => Err(e),
                Ok(ts) => match eval_type(b, p, *r) {
                    Err(e) => Err(e),
                    Ok(t) => Ok(ts.push(t)),
                },
            }
        } else {
            match eval_type(b, p, e) {
                Err(e) => Err(e),
                Ok(t) => Ok(seq![t]),
            }
        },
        _ => match eval_type(b, p, e) {
            Err(e) => Err(e),
            Ok(t) => Ok(seq![t]),
        },
    }
}

/// The name and the type that a declaration like `x: Nat` gives.
pub open spec fn eval_declaration(b: BindingMapV, p: ProjectV, e: ExprV) -> Result<
    (Seq<char>, TypeV),
    ErrorV,
> {
    match e {
        ExprV::Binary(left, token, right) => if token.token_type != TokenType::Colon {
            Err(ErrorV::at(token, "expected a colon in this declaration"@))
        } else if expr_token(*left).token_type != TokenType::Identifier {
            Err(ErrorV::at(expr_token(*left), "expected an identifier in this declaration"@))
        } else if !valid_variable_name(expr_token(*left).text) {
            Err(ErrorV::at(expr_token(*left), "invalid variable name"@))
        } else {
            match eval_type(b, p, *right) {
                Err(e) => Err(e),
                Ok(t) => Ok((expr_token(*left).text, t)),
            }
        },
        _ => Err(ErrorV::at(expr_token(e), "expected a declaration"@)),
    }
}

/// The names and types that the first `n` declarations of a list give. No name can be declared
/// that means something already, and none twice.
pub open spec fn eval_declarations(b: BindingMapV, p: ProjectV, es: Seq<ExprV>, n: nat) -> Result<
    (Seq<Seq<char>>, Seq<TypeV>),
    ErrorV,
>
    decreases n,
{
    if n == 0 || n > es.len() {
        Ok((Seq::empty(), Seq::empty()))
    } else {
        match eval_declarations(b, p, es, (n - 1) as nat) {
            Err(e) => Err(e),
            Ok((names, types)) => match eval_declaration(b, p, es[n - 1]) {
                Err(e) => Err(e),
                Ok((name, t)) => if b.in_use(name) {
                    Err(
                        ErrorV::at(
                            expr_token(es[n - 1]),
                            "cannot redeclare a name in an argument list"@,
                        ),
                    )
                } else if names.contains(name) {
                    Err(
                        ErrorV::at(
                            expr_token(es[n - 1]),
                            "cannot declare a name twice in one argument list"@,
                        ),
                    )
                } else {
                    Ok((names.push(name), types.push(t)))
                },
            },
        }
    }
}

/// The value that a name stands for.
pub open spec fn eval_name(b: BindingMapV, token: TokenV, name: Seq<char>) -> Result<
    ValueV,
    ErrorV,
> {
    match b.constant_value(name) {
        Some(v) => Ok(v),
        None => Err(ErrorV::at(token, "unknown name '"@ + name + "'"@)),
    }
}

/// The value of a member of a type.
#[verifier::opaque]
pub open spec fn eval_member(
    b: BindingMapV,
    p: ProjectV,
    token: TokenV,
    t: TypeV,
    member: Seq<char>,
) -> Result<ValueV, ErrorV> {
    match t {
        TypeV::Data(module, typename) => {
            let name = typename + "."@ + member;
            let found = if module == b.module {
                b.constant_value(name)
            } else if p.modules.dom().contains(module) {
                p.modules[module].constant_value(name)
            } else {
                None
            };
            match found {
                Some(v) => Ok(v),
                None => Err(ErrorV::at(token, "unknown member '"@ + name + "'"@)),
            }
        },
        _ => Err(ErrorV::at(token, "type Some("@ + type_parts(t) + ") does not have members"@)),
    }
}

/// The value of a numeral in a type: a member of that name, or else what the type reads from the
/// numeral before the last digit and from the last digit.
#[verifier::opaque]
pub open spec fn eval_number(
    b: BindingMapV,
    p: ProjectV,
    token: TokenV,
    t: TypeV,
    digits: Seq<char>,
) -> Result<ValueV, ErrorV>
    decreases digits.len(),
{
    match eval_member(b, p, token, t, digits) {
        Ok(v) => Ok(v),
        Err(e) => if digits.len() <= 1 {
            Err(e)
        } else {
            match eval_number(b, p, token, t, digits.drop_last()) {
                Err(e) => Err(e),
                Ok(initial) => match eval_member(b, p, token, t, seq![digits.last()]) {
                    Err(e) => Err(e),
                    Ok(digit) => match eval_member(b, p, token, t, "read"@) {
                        Err(e) => Err(e),
                        Ok(read) => called_value(read, seq![initial, digit], token, None),
                    },
                },
            }
        },
    }
}

/// What the types of the first `n` arguments tell of type parameters.
pub open spec fn matched_args(
    arg_types: Seq<TypeV>,
    vs: Seq<ValueV>,
    token: TokenV,
    n: nat,
) -> Result<Map<Seq<char>, TypeV>, ErrorV>
    decreases n,
{
    if n == 0 || n > vs.len() {
        Ok(Map::empty())
    } else {
        match matched_args(arg_types, vs, token, (n - 1) as nat) {
            Err(e) => Err(e),
            Ok(m) => match matched(arg_types[n - 1], value_type(vs[n - 1]), m) {
                None => Err(mismatch(token, arg_types[n - 1], value_type(vs[n - 1]))),
                Some(m2) => Ok(m2),
            },
        }
    }
}

/// The value of a function called with some values.
#[verifier::opaque]
pub open spec fn called_value(
    f: ValueV,
    vs: Seq<ValueV>,
    token: TokenV,
    want: Option<TypeV>,
) -> Result<ValueV, ErrorV> {
    match value_type(f) {
        TypeV::Function(arg_types, ret) => if arg_types.len() < vs.len() {
            Err(
                ErrorV::at(
                    token,
                    "expected <= "@ + decimal_text(arg_types.len()) + " arguments, but got "@
                        + decimal_text(vs.len()),
                ),
            )
        } else {
            match matched_args(arg_types, vs, token, vs.len()) {
                Err(e) => Err(e),
                Ok(m) => applied_value(
                    f,
                    vs,
                    m,
                    token,
                    want,
                ),
            }
        },
        _ => Err(ErrorV::at(token, "expected a function"@)),
    }
}

/// What a name, perhaps with dots, can stand for: a value, a type, or the scope of a module.
pub enum EntityV {
    Value(ValueV),
    Type(TypeV),
    Module(BindingMapV),
}

/// What a result stands for as a value.
pub open spec fn as_entity(r: Result<ValueV, ErrorV>) -> Result<EntityV, ErrorV> {
    match r {
        Ok(v) => Ok(EntityV::Value(v)),
        Err(e) => Err(e),
    }
}

/// What a name in the scope of a module stands for before a dot: a module, a type, or else a
/// constant.
#[verifier::opaque]
pub open spec fn eval_in_module(b: BindingMapV, p: ProjectV, token: TokenV, name: Seq<char>) -> Result<
    EntityV,
    ErrorV,
> {
    if b.modules.dom().contains(name) {
        match imported(b, p, token, name) {
            Err(e) => Err(e),
            Ok(other) => Ok(EntityV::Module(other)),
        }
    } else if b.type_names.dom().contains(name) {
        Ok(EntityV::Type(b.type_names[name]))
    } else {
        match b.constant_value(name) {
            Some(v) => Ok(EntityV::Value(v)),
            None => Err(ErrorV::at(token, "unknown namespace '"@ + name + "'"@)),
        }
    }
}

/// What a name stands for when it comes after a dot. Members of a type are its constants and its
/// numerals; members of a value are the functions of its type, which take the value first.
#[verifier::opaque]
pub open spec fn eval_after_dot(
    b: BindingMapV,
    p: ProjectV,
    token: TokenV,
    entity: EntityV,
    name: TokenV,
) -> Result<ValueV, ErrorV> {
    match entity {
        EntityV::Module(other) => eval_name(other, token, name.text),
        EntityV::Type(t) => if name.token_type == TokenType::Number {
            eval_number(b, p, token, t, name.text)
        } else {
            eval_member(b, p, token, t, name.text)
        },
        EntityV::Value(v) => match eval_member(b, p, token, value_type(v), name.text) {
            Err(e) => Err(e),
            Ok(f) => called_value(f, seq![v], token, None),
        },
    }
}

/// What a name stands for between two dots. Errors are reported at `token`.
#[verifier::opaque]
pub open spec fn eval_between_dots(
    b: BindingMapV,
    p: ProjectV,
    token: TokenV,
    entity: EntityV,
    name: TokenV,
) -> Result<EntityV, ErrorV> {
    match entity {
        EntityV::Module(other) => eval_in_module(other, p, token, name.text),
        _ => as_entity(eval_after_dot(b, p, token, entity, name)),
    }
}

/// A value of a type that may be expected, where there is a value.
#[verifier::opaque]
pub open spec fn wanted_value(r: Result<ValueV, ErrorV>, token: TokenV, want: Option<TypeV>) -> Result<
    ValueV,
    ErrorV,
> {
    match r {
        Err(e) => Err(e),
        Ok(v) => checked(token, want, value_type(v), v),
    }
}

/// The method that an operator stands for.
#[verifier::opaque]
pub open spec fn infix_name(t: TokenType) -> Option<Seq<char>> {
    match t {
        TokenType::Plus => Some("add"@),
        TokenType::Minus => Some("sub"@),
        TokenType::Asterisk => Some("mul"@),
        TokenType::Slash => Some("div"@),
        TokenType::Percent => Some("mod"@),
        TokenType::LessThan => Some("lt"@),
        TokenType::GreaterThan => Some("gt"@),
        TokenType::LessThanOrEquals => Some("lte"@),
        TokenType::GreaterThanOrEquals => Some("gte"@),
        _ => None,
    }
}

/// The value of an operator that stands for a method of the left operand.
#[verifier::opaque]
pub open spec fn infix_value(
    b: BindingMapV,
    p: ProjectV,
    token: TokenV,
    method: Seq<char>,
    l: ValueV,
    r: ValueV,
    want: Option<TypeV>,
) -> Result<ValueV, ErrorV> {
    match eval_member(b, p, token, value_type(l), method) {
        Err(e) => Err(e),
        Ok(f) => called_value(f, seq![l, r], token, want),
    }
}

/// The operators of propositions between two values, and whether their operands are propositions
/// too.
pub open spec fn operator_of(t: TokenType) -> Option<(BinaryOp, bool)> {
    match t {
        TokenType::RightArrow => Some((BinaryOp::Implies, true)),
        TokenType::Equals => Some((BinaryOp::Equals, false)),
        TokenType::NotEquals => Some((BinaryOp::NotEquals, false)),
        TokenType::Ampersand => Some((BinaryOp::And, true)),
        TokenType::Pipe => Some((BinaryOp::Or, true)),
        _ => None,
    }
}

/// What the type parameters of a constant stand for, for the first `n` of them.
pub open spec fn inferred(
    names: Seq<Seq<char>>,
    m: Map<Seq<char>, TypeV>,
    token: TokenV,
    n: nat,
) -> Result<Seq<(Seq<char>, TypeV)>, ErrorV>
    decreases n,
{
    if n == 0 || n > names.len() {
        Ok(Seq::empty())
    } else {
        match inferred(names, m, token, (n - 1) as nat) {
            Err(e) => Err(e),
            Ok(ps) => if m.dom().contains(names[n - 1]) {
                Ok(ps.push((names[n - 1], m[names[n - 1]])))
            } else {
                Err(ErrorV::at(token, "parameter "@ + names[n - 1] + " could not be inferred"@))
            },
        }
    }
}

/// The arguments so far, with one more whose value has been found.
#[verifier::opaque]
pub open spec fn take_arg(
    r: Result<ValueV, ErrorV>,
    token: TokenV,
    arg_types: Seq<TypeV>,
    vs: Seq<ValueV>,
    m: Map<Seq<char>, TypeV>,
) -> Result<(Seq<ValueV>, Map<Seq<char>, TypeV>), ErrorV> {
    match r {
        Err(e) => Err(e),
        Ok(v) => match matched(arg_types[vs.len() as int], value_type(v), m) {
            None => Err(mismatch(token, arg_types[vs.len() as int], value_type(v))),
            Some(m2) => Ok((vs.push(v), m2)),
        },
    }
}

/// The value of a function applied to arguments whose values and types have been found. A
/// function with type parameters has to be a constant, and the arguments have to tell what each
/// of the parameters stands for.
#[verifier::opaque]
pub open spec fn applied_value(
    f: ValueV,
    vs: Seq<ValueV>,
    m: Map<Seq<char>, TypeV>,
    token: TokenV,
    want: Option<TypeV>,
) -> Result<ValueV, ErrorV> {
    if m.dom().len() == 0 {
        let v = ValueV::Application(Box::new(f), vs);
        checked(token, want, value_type(v), v)
    } else {
        match f {
            ValueV::Constant(module, name, t, names) => match inferred(
                names,
                m,
                token,
                names.len(),
            ) {
                Err(e) => Err(e),
                Ok(params) => {
                    let v = ValueV::Application(
                        Box::new(ValueV::Specialized(module, name, t, params)),
                        vs,
                    );
                    checked(token, want, value_type(v), v)
                },
            },
            _ => Err(ErrorV::at(token, "a non-constant function cannot be a template"@)),
        }
    }
}

/// The value of a binder, once its body has been evaluated.
#[verifier::opaque]
pub open spec fn binder_value(
    token: TokenV,
    types: Seq<TypeV>,
    body: Result<ValueV, ErrorV>,
    want: Option<TypeV>,
) -> Result<ValueV, ErrorV> {
    match body {
        Err(e) => Err(e),
        Ok(v) => match token.token_type {
            TokenType::ForAll => checked(
                token,
                want,
                TypeV::Bool,
                ValueV::ForAll(types, Box::new(v)),
            ),
            TokenType::Exists => checked(
                token,
                want,
                TypeV::Bool,
                ValueV::Exists(types, Box::new(v)),
            ),
            TokenType::Function => checked(
                token,
                want,
                functional(types, value_type(v)),
                ValueV::Lambda(types, Box::new(v)),
            ),
            _ => Err(ErrorV::at(token, "expected a binder identifier token"@)),
        },
    }
}

/// The value of a single word.
#[verifier::opaque]
pub open spec fn eval_word(
    b: BindingMapV,
    p: ProjectV,
    st: StackV,
    token: TokenV,
    want: Option<TypeV>,
) -> Result<ValueV, ErrorV> {
    match token.token_type {
        TokenType::Axiom => Err(
            ErrorV::at(token, "axiomatic values cannot stand inside other values"@),
        ),
        TokenType::ForAll => Err(ErrorV::at(token, "binder keywords cannot be used as values"@)),
        TokenType::Exists => Err(ErrorV::at(token, "binder keywords cannot be used as values"@)),
        TokenType::Function => Err(ErrorV::at(token, "binder keywords cannot be used as values"@)),
        TokenType::True => checked(token, want, TypeV::Bool, ValueV::Bool(true)),
        TokenType::False => checked(token, want, TypeV::Bool, ValueV::Bool(false)),
        TokenType::Identifier => if st.dom().contains(token.text) {
            let (i, t) = st[token.text];
            checked(token, want, t, ValueV::Variable(i, t))
        } else {
            match eval_name(b, token, token.text) {
                Err(e) => Err(e),
                Ok(v) => checked(token, want, value_type(v), v),
            }
        },
        TokenType::Number => match b.numerals {
            None => Err(ErrorV::at(token, "there is no type for numerals"@)),
            Some((module, typename)) => match eval_number(
                b,
                p,
                token,
                TypeV::Data(module, typename),
                token.text,
            ) {
                Err(e) => Err(e),
                Ok(v) => checked(token, want, value_type(v), v),
            },
        },
        _ => Err(ErrorV::at(token, "unexpected identifier in value expression"@)),
    }
}

/// What a single word stands for before a dot. That it names nothing is reported at the dot.
#[verifier::opaque]
pub open spec fn eval_namespace(
    b: BindingMapV,
    p: ProjectV,
    st: StackV,
    token: TokenV,
    dot: TokenV,
) -> Result<EntityV, ErrorV> {
    if token.token_type != TokenType::Identifier || st.dom().contains(token.text) {
        as_entity(eval_word(b, p, st, token, None))
    } else {
        eval_in_module(b, p, dot, token.text)
    }
}

/// What an expression before a dot stands for, and the stack afterwards. What goes wrong with the
/// names of the expression is reported at `dot`, the last dot of the whole name.
pub open spec fn eval_entity(b: BindingMapV, p: ProjectV, st: StackV, e: ExprV, dot: TokenV) -> (
    Result<EntityV, ErrorV>,
    StackV,
)
    decreases e, 2int,
{
    match e {
        ExprV::Identifier(token) => (eval_namespace(b, p, st, token, dot), st),
        ExprV::Binary(left, token, right) => if token.token_type == TokenType::Dot {
            match *right {
                ExprV::Identifier(name) => match eval_entity(b, p, st, *left, dot) {
                    (Err(e), s) => (Err(e), s),
                    (Ok(n), s) => (eval_between_dots(b, p, dot, n, name), s),
                },
                _ => (Err(ErrorV::at(expr_token(*right), "expected an identifier"@)), st),
            }
        } else {
            let (v, s) = eval_value(b, p, st, e, None);
            (as_entity(v), s)
        },
        _ => {
            let (v, s) = eval_value(b, p, st, e, None);
            (as_entity(v), s)
        },
    }
}

/// The value of a unary operator, and the stack afterwards.
pub open spec fn eval_negation(
    b: BindingMapV,
    p: ProjectV,
    st: StackV,
    e: ExprV,
    want: Option<TypeV>,
) -> (Result<ValueV, ErrorV>, StackV)
    decreases e, 0int,
{
    match e {
        ExprV::Unary(token, inner) => if token.token_type != TokenType::Exclam {
            (Err(ErrorV::at(token, "unexpected unary operator in value expression"@)), st)
        } else {
            match checked(token, want, TypeV::Bool, ValueV::Bool(true)) {
                Err(e) => (Err(e), st),
                Ok(_) => match eval_value(b, p, st, *inner, Some(TypeV::Bool)) {
                    (Err(e), s) => (Err(e), s),
                    (Ok(v), s) => (Ok(ValueV::Not(Box::new(v))), s),
                },
            }
        },
        _ => (Err(ErrorV::at(expr_token(e), "unexpected expression"@)), st),
    }
}

/// The value of an operator between two operands or of a name after a dot, and the stack
/// afterwards.
pub open spec fn eval_operation(
    b: BindingMapV,
    p: ProjectV,
    st: StackV,
    e: ExprV,
    want: Option<TypeV>,
) -> (Result<ValueV, ErrorV>, StackV)
    decreases e, 0int,
{
    match e {
        ExprV::Binary(left, token, right) => match operator_of(token.token_type) {
            Some((op, logical)) => match checked(token, want, TypeV::Bool, ValueV::Bool(true)) {
                Err(e) => (Err(e), st),
                Ok(_) => match eval_value(
                    b,
                    p,
                    st,
                    *left,
                    if logical {
                        Some(TypeV::Bool)
                    } else {
                        None
                    },
                ) {
                    (Err(e), s) => (Err(e), s),
                    (Ok(l), s1) => match eval_value(
                        b,
                        p,
                        s1,
                        *right,
                        if logical {
                            Some(TypeV::Bool)
                        } else {
                            Some(value_type(l))
                        },
                    ) {
                        (Err(e), s) => (Err(e), s),
                        (Ok(r), s2) => (Ok(ValueV::Binary(op, Box::new(l), Box::new(r))), s2),
                    },
                },
            },
            None => if token.token_type == TokenType::Dot {
                match *right {
                    ExprV::Identifier(name) => match eval_entity(b, p, st, *left, token) {
                        (Err(e), s) => (Err(e), s),
                        (Ok(n), s) => (
                            wanted_value(eval_after_dot(b, p, token, n, name), token, want),
                            s,
                        ),
                    },
                    _ => (Err(ErrorV::at(expr_token(*right), "expected an identifier"@)), st),
                }
            } else {
                match infix_name(token.token_type) {
                    None => (
                        Err(ErrorV::at(token, "unhandled binary operator in value expression"@)),
                        st,
                    ),
                    Some(method) => match eval_value(b, p, st, *left, None) {
                        (Err(e), s) => (Err(e), s),
                        (Ok(l), s1) => match eval_value(b, p, s1, *right, None) {
                            (Err(e), s) => (Err(e), s),
                            (Ok(r), s2) => (
                                infix_value(b, p, token, method, l, r, want),
                                s2,
                            ),
                        },
                    },
                }
            },
        },
        _ => (Err(ErrorV::at(expr_token(e), "unexpected expression"@)), st),
    }
}

/// The value of a function applied to arguments, and the stack afterwards.
pub open spec fn eval_application(
    b: BindingMapV,
    p: ProjectV,
    st: StackV,
    e: ExprV,
    want: Option<TypeV>,
) -> (Result<ValueV, ErrorV>, StackV)
    decreases e, 0int,
{
    match e {
        ExprV::Apply(f, args) => match eval_value(b, p, st, *f, None) {
            (Err(e), s) => (Err(e), s),
            (Ok(fv), s1) => match value_type(fv) {
                TypeV::Function(arg_types, ret) => match *args {
                    ExprV::Grouping(_, inner, _) => {
                        let n = comma_list(*inner).len();
                        if arg_types.len() < n {
                            (
                                Err(
                                    ErrorV::at(
                                        expr_token(*args),
                                        "expected <= "@ + decimal_text(arg_types.len())
                                            + " arguments, but got "@ + decimal_text(n),
                                    ),
                                ),
                                s1,
                            )
                        } else {
                            match eval_args(b, p, s1, *inner, arg_types) {
                                (Err(e), s) => (Err(e), s),
                                (Ok((vs, m)), s2) => (
                                    applied_value(
                                        fv,
                                        vs,
                                        m,
                                        expr_token(*f),
                                        want,
                                    ),
                                    s2,
                                ),
                            }
                        }
                    },
                    _ => (
                        Err(ErrorV::at(expr_token(*args), "expected a list in parentheses"@)),
                        s1,
                    ),
                },
                _ => (Err(ErrorV::at(expr_token(*f), "expected a function"@)), s1),
            },
        },
        _ => (Err(ErrorV::at(expr_token(e), "unexpected expression"@)), st),
    }
}

/// The value of a binder, and the stack afterwards.
pub open spec fn eval_binder(
    b: BindingMapV,
    p: ProjectV,
    st: StackV,
    e: ExprV,
    want: Option<TypeV>,
) -> (Result<ValueV, ErrorV>, StackV)
    decreases e, 0int,
{
    match e {
        ExprV::Binder(token, args, body, _) => match list_of(*args, false) {
            Err(e) => (Err(e), st),
            Ok(list) => match eval_declarations(b, p, list, list.len()) {
                Err(e) => (Err(e), st),
                Ok((names, types)) => {
                    let body_type = if token.token_type == TokenType::ForAll || token.token_type
                        == TokenType::Exists {
                        Some(TypeV::Bool)
                    } else {
                        None
                    };
                    let (r, s) = eval_value(
                        b,
                        p,
                        pushed_all(st, names, types, 0),
                        *body,
                        body_type,
                    );
                    (binder_value(token, types, r, want), without(s, names))
                },
            },
        },
        _ => (Err(ErrorV::at(expr_token(e), "unexpected expression"@)), st),
    }
}

/// The value of a choice between two values, and the stack afterwards.
pub open spec fn eval_choice(
    b: BindingMapV,
    p: ProjectV,
    st: StackV,
    e: ExprV,
    want: Option<TypeV>,
) -> (Result<ValueV, ErrorV>, StackV)
    decreases e, 0int,
{
    match e {
        ExprV::IfThenElse(_, c, yes, no, _) => match eval_value(b, p, st, *c, Some(TypeV::Bool)) {
            (Err(e), s) => (Err(e), s),
            (Ok(cv), s1) => match eval_value(b, p, s1, *yes, want) {
                (Err(e), s) => (Err(e), s),
                (Ok(yv), s2) => match eval_value(b, p, s2, *no, Some(value_type(yv))) {
                    (Err(e), s) => (Err(e), s),
                    (Ok(nv), s3) => (
                        Ok(ValueV::IfThenElse(Box::new(cv), Box::new(yv), Box::new(nv))),
                        s3,
                    ),
                },
            },
        },
        _ => (Err(ErrorV::at(expr_token(e), "unexpected expression"@)), st),
    }
}

/// The value of an expression, with variables on a stack, and the stack afterwards. `want` is
/// the type that is expected, if one is.
pub open spec fn eval_value(
    b: BindingMapV,
    p: ProjectV,
    st: StackV,
    e: ExprV,
    want: Option<TypeV>,
) -> (Result<ValueV, ErrorV>, StackV)
    decreases e, 1int,
{
    match e {
        ExprV::Identifier(token) => (eval_word(b, p, st, token, want), st),
        ExprV::Unary(_, _) => eval_negation(b, p, st, e, want),
        ExprV::Binary(_, _, _) => eval_operation(b, p, st, e, want),
        ExprV::Apply(_, _) => eval_application(b, p, st, e, want),
        ExprV::Grouping(_, inner, _) => eval_value(b, p, st, *inner, want),
        ExprV::Binder(_, _, _, _) => eval_binder(b, p, st, e, want),
        ExprV::IfThenElse(_, _, _, _, _) => eval_choice(b, p, st, e, want),
    }
}

/// The values of arguments with commas, what they tell of type parameters, and the stack
/// afterwards.
pub open spec fn eval_args(
    b: BindingMapV,
    p: ProjectV,
    st: StackV,
    e: ExprV,
    arg_types: Seq<TypeV>,
) -> (Result<(Seq<ValueV>, Map<Seq<char>, TypeV>), ErrorV>, StackV)
    decreases e, 2int,
{
    match e {
        ExprV::Binary(l, t, r) => if t.token_type == TokenType::Comma {
            match eval_args(b, p, st, *l, arg_types) {
                (Err(e), s) => (Err(e), s),
                (Ok((vs, m)), s1) => {
                    let (v, s2) = eval_value(b, p, s1, *r, None);
                    (take_arg(v, expr_token(*r), arg_types, vs, m), s2)
                },
            }
        } else {
            let (v, s) = eval_value(b, p, st, e, None);
            (take_arg(v, expr_token(e), arg_types, Seq::empty(), Map::empty()), s)
        },
        _ => {
            let (v, s) = eval_value(b, p, st, e, None);
            (take_arg(v, expr_token(e), arg_types, Seq::empty(), Map::empty()), s)
        },
    }
}

/// Everything is typechecked: where a type is expected, a value has that type.
pub proof fn law_values_have_the_expected_type(
    b: BindingMapV,
    p: ProjectV,
    st: StackV,
    e: ExprV,
    t: TypeV,
)
    ensures
        eval_value(b, p, st, e, Some(t)).0 matches Ok(v) ==> value_type(v) == t,
    decreases e,
{
    reveal(eval_word);
    reveal(binder_value);
    reveal(wanted_value);
    reveal(infix_value);
    reveal(called_value);
    reveal(applied_value);
    match e {
        ExprV::Grouping(_, inner, _) => {
            law_values_have_the_expected_type(b, p, st, *inner, t);
        },
        ExprV::IfThenElse(_, c, yes, _, _) => {
            let s = eval_value(b, p, st, *c, Some(TypeV::Bool)).1;
            law_values_have_the_expected_type(b, p, s, *yes, t);
            assert(eval_value(b, p, st, e, Some(t)) == eval_choice(b, p, st, e, Some(t)));
        },
        ExprV::Unary(_, _) => {
            assert(eval_value(b, p, st, e, Some(t)) == eval_negation(b, p, st, e, Some(t)));
        },
        ExprV::Binary(_, _, _) => {
            assert(eval_value(b, p, st, e, Some(t)) == eval_operation(b, p, st, e, Some(t)));
        },
        ExprV::Apply(_, _) => {
            assert(eval_value(b, p, st, e, Some(t)) == eval_application(b, p, st, e, Some(t)));
        },
        ExprV::Binder(_, _, _, _) => {
            assert(eval_value(b, p, st, e, Some(t)) == eval_binder(b, p, st, e, Some(t)));
        },
        ExprV::Identifier(_) => {},
    }
}

proof fn lemma_pushed_all(
    st: StackV,
    names: Seq<Seq<char>>,
    types: Seq<TypeV>,
    i: int,
)
    requires
        0 <= i <= names.len() == types.len(),
        names.len() <= 65536,
        names.no_duplicates(),
        st.dom().finite(),
        st.dom().len() == i,
        forall|k: int| 0 <= k < i ==> #[trigger] st.dom().contains(names[k]),
        forall|k: int| 0 <= k < i ==> st[#[trigger] names[k]] == (k as u16, types[k]),
        forall|n: Seq<char>| #[trigger] st.dom().contains(n) ==> names.take(i).contains(n),
    ensures
        ({
            let all = pushed_all(st, names, types, i);
            &&& all.dom().finite()
            &&& all.dom().len() == names.len()
            &&& forall|k: int| 0 <= k < names.len() ==> #[trigger] all.dom().contains(names[k])
            &&& forall|k: int|
                0 <= k < names.len() ==> all[#[trigger] names[k]] == (k as u16, types[k])
            &&& forall|n: Seq<char>| #[trigger] all.dom().contains(n) ==> names.contains(n)
        }),
    decreases names.len() - i,
{
    if i < names.len() {
        let next = pushed(st, names[i], types[i]);
        if st.dom().contains(names[i]) {
            let first = names.take(i);
            let k = choose|k: int| 0 <= k < first.len() && first[k] == names[i];
            assert(names[k] == names[i]);
        }
        assert(next.dom() =~= st.dom().insert(names[i]));
        assert forall|n: Seq<char>| #[trigger] next.dom().contains(n) implies names.take(
            i + 1,
        ).contains(n) by {
            let first = names.take(i + 1);
            if n == names[i] {
                assert(first[i] == n);
            } else {
                assert(st.dom().contains(n));
                let k = choose|k: int| 0 <= k < names.take(i).len() && names.take(i)[k] == n;
                assert(first[k] == n);
            }
        }
        lemma_pushed_all(next, names, types, i + 1);
    } else {
        assert(names.take(i) =~= names);
    }
}

proof fn lemma_declared_once(b: BindingMapV, p: ProjectV, es: Seq<ExprV>, n: nat)
    requires
        n <= es.len(),
    ensures
        eval_declarations(b, p, es, n) matches Ok((names, types)) ==> names.no_duplicates()
            && names.len() == types.len() == n,
    decreases n,
{
    if n > 0 {
        lemma_declared_once(b, p, es, (n - 1) as nat);
        if let Ok((names, types)) = eval_declarations(b, p, es, (n - 1) as nat) {
            if let Ok((name, t)) = eval_declaration(b, p, es[n - 1]) {
                if !names.contains(name) {
                    let all = names.push(name);
                    assert forall|i: int, j: int|
                        0 <= i < all.len() && 0 <= j < all.len() && i != j implies all[i]
                        != all[j] by {
                        if i < names.len() {
                            assert(names.contains(names[i]));
                        }
                        if j < names.len() {
                            assert(names.contains(names[j]));
                        }
                    }
                }
            }
        }
    }
}

/// The names of a stack are the names that were bound on it, in the order in which they were bound:
/// `by_depth` is what `Stack::names` gives. There are no more variables than depths.
pub proof fn law_names_are_those_bound(
    b: BindingMapV,
    p: ProjectV,
    es: Seq<ExprV>,
    names: Seq<Seq<char>>,
    types: Seq<TypeV>,
    by_depth: Seq<Seq<char>>,
)
    requires
        eval_declarations(b, p, es, es.len()) == Ok::<(Seq<Seq<char>>, Seq<TypeV>), ErrorV>(
            (names, types),
        ),
        es.len() <= 65536,
        names_by_depth(pushed_all(StackV::empty(), names, types, 0), by_depth),
    ensures
        dense(pushed_all(StackV::empty(), names, types, 0)),
        by_depth == names,
{
    let st = pushed_all(StackV::empty(), names, types, 0);
    lemma_declared_once(b, p, es, es.len());
    lemma_pushed_all(StackV::empty(), names, types, 0);
    assert forall|k: Seq<char>| #[trigger] st.dom().contains(k) implies st[k].0 < st.dom().len() by {
        let i = choose|i: int| 0 <= i < names.len() && names[i] == k;
        assert(st[names[i]] == (i as u16, types[i]));
    }
    assert forall|j: Seq<char>, k: Seq<char>| #[trigger]
        st.dom().contains(j) && #[trigger] st.dom().contains(k) && j != k implies st[j].0
        != st[k].0 by {
        let x = choose|x: int| 0 <= x < names.len() && names[x] == j;
        let y = choose|y: int| 0 <= y < names.len() && names[y] == k;
        assert(st[names[x]] == (x as u16, types[x]));
        assert(st[names[y]] == (y as u16, types[y]));
    }
    assert forall|i: int| 0 <= i < names.len() implies by_depth[i] == names[i] by {
        assert(st.dom().contains(names[i]));
        assert(st[names[i]] == (i as u16, types[i]));
    }
    assert(by_depth =~= names);
}

pub(crate) fn text3(a: &str, b: &str, c: &str) -> (r: String)
    ensures
        r@ == a@ + b@ + c@,
{
    let mut out = a.to_owned();
    out.append(b);
    out.append(c);
    out
}

/// What a name, perhaps with dots, can stand for.
pub enum Entity<'a> {
    Value(AcornValue),
    Type(AcornType),
    Module(&'a BindingMap),
}

impl<'a> View for Entity<'a> {
    type V = EntityV;

    open spec fn view(&self) -> EntityV {
        match self {
            Entity::Value(v) => EntityV::Value(v@),
            Entity::Type(t) => EntityV::Type(t@),
            Entity::Module(b) => EntityV::Module(b@),
        }
    }
}

proof fn lemma_matched_args_fail(
    arg_types: Seq<TypeV>,
    vs: Seq<ValueV>,
    token: TokenV,
    k: nat,
    n: nat,
)
    requires
        k <= n <= vs.len(),
        matched_args(arg_types, vs, token, k) is Err,
    ensures
        matched_args(arg_types, vs, token, n) == matched_args(arg_types, vs, token, k),
    decreases n,
{
    if k < n {
        lemma_matched_args_fail(arg_types, vs, token, k, (n - 1) as nat);
    }
}

fn method_for(t: TokenType) -> (r: Option<&'static str>)
    ensures
        match r {
            Some(s) => infix_name(t) == Some(s@),
            None => infix_name(t) is None,
        },
{
    proof {
        reveal(infix_name);
    }
    match t {
        TokenType::Plus => Some("add"),
        TokenType::Minus => Some("sub"),
        TokenType::Asterisk => Some("mul"),
        TokenType::Slash => Some("div"),
        TokenType::Percent => Some("mod"),
        TokenType::LessThan => Some("lt"),
        TokenType::GreaterThan => Some("gt"),
        TokenType::LessThanOrEquals => Some("lte"),
        TokenType::GreaterThanOrEquals => Some("gte"),
        _ => None,
    }
}

fn operator_for(t: TokenType) -> (r: Option<(BinaryOp, bool)>)
    ensures
        r == operator_of(t),
{
    match t {
        TokenType::RightArrow => Some((BinaryOp::Implies, true)),
        TokenType::Equals => Some((BinaryOp::Equals, false)),
        TokenType::NotEquals => Some((BinaryOp::NotEquals, false)),
        TokenType::Ampersand => Some((BinaryOp::And, true)),
        TokenType::Pipe => Some((BinaryOp::Or, true)),
        _ => None,
    }
}

impl BindingMap {
    fn mismatch_error(token: &Token, expected: &AcornType, actual: &AcornType) -> (r: Error)
        ensures
            r@ == mismatch(token@, expected@, actual@),
    {
        let mut message = "expected type ".to_owned();
        message.append(expected.to_text().as_str());
        message.append(", but got ");
        message.append(actual.to_text().as_str());
        Error::at(token, message.as_str())
    }

    /// Fails where a type is expected and another came.
    pub fn check_type(
        &self,
        error_token: &Token,
        expected_type: Option<&AcornType>,
        actual_type: &AcornType,
    ) -> (r: Result<(), Error>)
        ensures
            match r {
                Ok(_) => expected_type is None || opt_type(expected_type) == Some(actual_type@),
                Err(e) => expected_type matches Some(t) && t@ != actual_type@ && e@ == mismatch(
                    error_token@,
                    t@,
                    actual_type@,
                ),
            },
    {
        if let Some(e) = expected_type {
            if !e.same(actual_type) {
                return Err(BindingMap::mismatch_error(error_token, e, actual_type));
            }
        }
        Ok(())
    }

    fn checked_value(
        &self,
        token: &Token,
        want: Option<&AcornType>,
        actual: &AcornType,
        value: AcornValue,
    ) -> (r: Result<AcornValue, Error>)
        ensures
            match r {
                Ok(v) => checked(token@, opt_type(want), actual@, value@) == Ok::<ValueV, ErrorV>(
                    v@,
                ),
                Err(e) => checked(token@, opt_type(want), actual@, value@) == Err::<
                    ValueV,
                    ErrorV,
                >(e@),
            },
    {
        match self.check_type(token, want, actual) {
            Err(e) => Err(e),
            Ok(_) => Ok(value),
        }
    }

    fn get_imported_bindings<'a>(
        &self,
        project: &'a Project,
        token: &Token,
        module_name: &str,
    ) -> (r: Result<&'a BindingMap, Error>)
        ensures
            match r {
                Ok(b) => imported(self@, project@, token@, module_name@) == Ok::<
                    BindingMapV,
                    ErrorV,
                >(b@),
                Err(e) => imported(self@, project@, token@, module_name@) == Err::<
                    BindingMapV,
                    ErrorV,
                >(e@),
            },
    {
        let module = match self.modules.get(&module_name.to_owned()) {
            Some(module) => *module,
            None => {
                let mut message = "unknown module ".to_owned();
                message.append(module_name);
                return Err(Error::at(token, message.as_str()));
            },
        };
        match project.get_bindings(module) {
            Some(b) => Ok(b),
            None => {
                let mut message = "error while importing module: ".to_owned();
                message.append(module_name);
                Err(Error::at(token, message.as_str()))
            },
        }
    }

    /// Evaluates an expression that represents a type.
    #[verifier::spinoff_prover]
    #[verifier::rlimit(60)]
    pub fn evaluate_type(&self, project: &Project, expression: &Expression) -> (r: Result<
        AcornType,
        Error,
    >)
        ensures
            match r {
                Ok(t) => eval_type(self@, project@, expression@) == Ok::<TypeV, ErrorV>(t@),
                Err(e) => eval_type(self@, project@, expression@) == Err::<TypeV, ErrorV>(e@),
            },
        decreases expression, 0int,
    {
        match expression {
            Expression::Identifier(token) => {
                if token.token_type == TokenType::Axiom {
                    return Err(
                        Error::at(token, "axiomatic types can only be created at the top level"),
                    );
                }
                match self.type_names.get(&token.text) {
                    Some(t) => Ok(t.clone()),
                    None => Err(Error::at(token, "expected type name")),
                }
            },
            Expression::Unary(token, _) => Err(
                Error::at(token, "unexpected unary operator in type expression"),
            ),
            Expression::Binary(left, token, right) => match token.token_type {
                TokenType::RightArrow => {
                    proof {
                        reveal_with_fuel(expr_view, 2);
                    }
                    let args = match &**left {
                        Expression::Grouping(_, inner, _) => match self.evaluate_type_list(
                            project,
                            inner,
                        ) {
                            Err(e) => {
                                return Err(e);
                            },
                            Ok(v) => v,
                        },
                        _ => match self.evaluate_type(project, left) {
                            Err(e) => {
                                return Err(e);
                            },
                            Ok(t) => {
                                let mut v: Vec<AcornType> = Vec::new();
                                v.push(t);
                                assert(views(v@) =~= seq![t@]);
                                v
                            },
                        },
                    };
                    match self.evaluate_type(project, right) {
                        Err(e) => Err(e),
                        Ok(ret) => Ok(AcornType::new_functional(args, ret)),
                    }
                },
                TokenType::Dot => {
                    let components = match expression.flatten_dots() {
                        Err(e) => {
                            return Err(e);
                        },
                        Ok(c) => c,
                    };
                    if components.len() != 2 {
                        return Err(Error::at(token, "expected <module>.<type> here"));
                    }
                    let bindings = match self.get_imported_bindings(
                        project,
                        token,
                        components[0].as_str(),
                    ) {
                        Err(e) => {
                            return Err(e);
                        },
                        Ok(b) => b,
                    };
                    match bindings.get_type_for_name(components[1].as_str()) {
                        Some(t) => Ok(t.clone()),
                        None => {
                            let mut message = "unknown type ".to_owned();
                            message.append(components[0].as_str());
                            message.append(".");
                            message.append(components[1].as_str());
                            Err(Error::at(token, message.as_str()))
                        },
                    }
                },
                _ => Err(Error::at(token, "unexpected binary operator in type expression")),
            },
            Expression::Apply(left, _) => Err(
                Error::at(left.token(), "unexpected function application in type expression"),
            ),
            Expression::Grouping(_, e, _) => self.evaluate_type(project, e),
            Expression::Binder(token, _, _, _) => Err(
                Error::at(token, "unexpected token in type expression"),
            ),
            Expression::IfThenElse(token, _, _, _, _) => Err(
                Error::at(token, "unexpected token in type expression"),
            ),
        }
    }

    /// Evaluates a list with commas that represents types.
    pub fn evaluate_type_list(&self, project: &Project, expression: &Expression) -> (r: Result<
        Vec<AcornType>,
        Error,
    >)
        ensures
            match r {
                Ok(ts) => eval_types(self@, project@, expression@) == Ok::<Seq<TypeV>, ErrorV>(
                    views(ts@),
                ),
                Err(e) => eval_types(self@, project@, expression@) == Err::<Seq<TypeV>, ErrorV>(
                    e@,
                ),
            },
        decreases expression, 1int,
    {
        broadcast use crate::text::group_views;
        if let Expression::Binary(l, t, r) = expression {
            if t.token_type == TokenType::Comma {
                let mut ts = match self.evaluate_type_list(project, l) {
                    Err(e) => {
                        return Err(e);
                    },
                    Ok(ts) => ts,
                };
                match self.evaluate_type(project, r) {
                    Err(e) => {
                        return Err(e);
                    },
                    Ok(t) => {
                        ts.push(t);
                    },
                }
                return Ok(ts);
            }
        }
        match self.evaluate_type(project, expression) {
            Err(e) => Err(e),
            Ok(t) => {
                let mut v: Vec<AcornType> = Vec::new();
                v.push(t);
                assert(views(v@) =~= seq![t@]);
                Ok(v)
            },
        }
    }

    /// Evaluates a declaration in the form of `<name>: <type expression>`.
    pub fn parse_declaration(&self, project: &Project, declaration: &Expression) -> (r: Result<
        (String, AcornType),
        Error,
    >)
        ensures
            match r {
                Ok((n, t)) => eval_declaration(self@, project@, declaration@) == Ok::<
                    (Seq<char>, TypeV),
                    ErrorV,
                >((n@, t@)),
                Err(e) => eval_declaration(self@, project@, declaration@) == Err::<
                    (Seq<char>, TypeV),
                    ErrorV,
                >(e@),
            },
    {
        match declaration {
            Expression::Binary(left, token, right) => {
                if token.token_type != TokenType::Colon {
                    return Err(Error::at(token, "expected a colon in this declaration"));
                }
                if left.token().token_type != TokenType::Identifier {
                    return Err(
                        Error::at(left.token(), "expected an identifier in this declaration"),
                    );
                }
                let name = left.token().text().to_owned();
                if !Token::is_valid_variable_name(name.as_str()) {
                    return Err(Error::at(left.token(), "invalid variable name"));
                }
                match self.evaluate_type(project, right) {
                    Err(e) => Err(e),
                    Ok(t) => Ok((name, t)),
                }
            },
            _ => Err(Error::at(declaration.token(), "expected a declaration")),
        }
    }

    /// Evaluates a list of argument declarations and puts them on the stack.
    pub fn bind_args(
        &self,
        stack: &mut Stack,
        project: &Project,
        declarations: &Vec<&Expression>,
    ) -> (r: Result<(Vec<String>, Vec<AcornType>), Error>)
        ensures
            match r {
                Ok((names, types)) => eval_declarations(
                    self@,
                    project@,
                    views(declarations@),
                    declarations@.len(),
                ) == Ok::<(Seq<Seq<char>>, Seq<TypeV>), ErrorV>((views(names@), views(types@)))
                    && final(stack)@ == pushed_all(
                    old(stack)@,
                    views(names@),
                    views(types@),
                    0,
                ) && names.len() == types.len() == declarations.len(),
                Err(e) => eval_declarations(
                    self@,
                    project@,
                    views(declarations@),
                    declarations@.len(),
                ) == Err::<(Seq<Seq<char>>, Seq<TypeV>), ErrorV>(e@) && final(stack)@ == old(
                    stack,
                )@,
            },
    {
        broadcast use crate::text::group_views;
        let ghost decls = views(declarations@);
        let mut names: Vec<String> = Vec::new();
        let mut types: Vec<AcornType> = Vec::new();
        let mut i: usize = 0;
        while i < declarations.len()
            invariant
                i <= declarations.len(),
                decls == views(declarations@),
                names.len() == types.len() == i,
                stack@ == old(stack)@,
                eval_declarations(self@, project@, decls, i as nat) == Ok::<
                    (Seq<Seq<char>>, Seq<TypeV>),
                    ErrorV,
                >((views(names@), views(types@))),
            decreases declarations.len() - i,
        {
            broadcast use crate::text::group_views;
            let declaration = declarations[i];
            assert(decls[i as int] == declaration@);
            match self.parse_declaration(project, declaration) {
                Err(e) => {
                    proof {
                        lemma_declarations_fail(
                            self@,
                            project@,
                            decls,
                            (i + 1) as nat,
                            decls.len(),
                        );
                    }
                    return Err(e);
                },
                Ok((name, acorn_type)) => {
                    let problem = if self.name_in_use(name.as_str()) {
                        Some("cannot redeclare a name in an argument list")
                    } else if holds(&names, &name) {
                        Some("cannot declare a name twice in one argument list")
                    } else {
                        None
                    };
                    if let Some(message) = problem {
                        proof {
                            lemma_declarations_fail(
                                self@,
                                project@,
                                decls,
                                (i + 1) as nat,
                                decls.len(),
                            );
                        }
                        return Err(Error::at(declaration.token(), message));
                    }
                    names.push(name);
                    types.push(acorn_type);
                },
            }
            i = i + 1;
        }
        let mut j: usize = 0;
        while j < names.len()
            invariant
                j <= names.len() == types.len(),
                pushed_all(stack@, views(names@), views(types@), j as int) == pushed_all(
                    old(stack)@,
                    views(names@),
                    views(types@),
                    0,
                ),
            decreases names.len() - j,
        {
            let _ = stack.insert(names[j].clone(), types[j].clone());
            j = j + 1;
        }
        Ok((names, types))
    }

    /// Evaluates a value with an empty stack.
    pub fn evaluate_value(
        &self,
        project: &Project,
        expression: &Expression,
        expected_type: Option<&AcornType>,
    ) -> (r: Result<AcornValue, Error>)
        ensures
            match r {
                Ok(v) => eval_value(
                    self@,
                    project@,
                    Map::empty(),
                    expression@,
                    opt_type(expected_type),
                ).0 == Ok::<ValueV, ErrorV>(v@),
                Err(e) => eval_value(
                    self@,
                    project@,
                    Map::empty(),
                    expression@,
                    opt_type(expected_type),
                ).0 == Err::<ValueV, ErrorV>(e@),
            },
    {
        let mut stack = Stack::new();
        self.evaluate_value_with_stack(&mut stack, project, expression, expected_type)
    }

    fn evaluate_name(&self, token: &Token, name: &str) -> (r: Result<AcornValue, Error>)
        ensures
            match r {
                Ok(v) => eval_name(self@, token@, name@) == Ok::<ValueV, ErrorV>(v@),
                Err(e) => eval_name(self@, token@, name@) == Err::<ValueV, ErrorV>(e@),
            },
    {
        match self.get_constant_value(name) {
            Some(value) => Ok(value),
            None => Err(Error::at(token, text3("unknown name '", name, "'").as_str())),
        }
    }

    fn evaluate_member(&self, project: &Project, token: &Token, t: &AcornType, member: &str) -> (r:
        Result<AcornValue, Error>)
        ensures
            match r {
                Ok(v) => eval_member(self@, project@, token@, t@, member@) == Ok::<ValueV, ErrorV>(
                    v@,
                ),
                Err(e) => eval_member(self@, project@, token@, t@, member@) == Err::<
                    ValueV,
                    ErrorV,
                >(e@),
            },
    {
        proof {
            reveal(eval_member);
        }
        broadcast use crate::acorn_type::lemma_function_view;
        match t {
            AcornType::Data(module, typename) => {
                let name = text3(typename.as_str(), ".", member);
                let found = if *module == self.module {
                    self.get_constant_value(name.as_str())
                } else {
                    match project.get_bindings(*module) {
                        Some(b) => b.get_constant_value(name.as_str()),
                        None => None,
                    }
                };
                match found {
                    Some(v) => Ok(v),
                    None => Err(
                        Error::at(token, text3("unknown member '", name.as_str(), "'").as_str()),
                    ),
                }
            },
            _ => Err(
                Error::at(
                    token,
                    text3("type Some(", write_type(t).as_str(), ") does not have members").as_str(),
                ),
            ),
        }
    }

    // Evaluates a numeral as a member of a type.
    fn evaluate_number(&self, project: &Project, token: &Token, t: &AcornType, digits: &str) -> (r:
        Result<AcornValue, Error>)
        ensures
            match r {
                Ok(v) => eval_number(self@, project@, token@, t@, digits@) == Ok::<
                    ValueV,
                    ErrorV,
                >(v@),
                Err(e) => eval_number(self@, project@, token@, t@, digits@) == Err::<
                    ValueV,
                    ErrorV,
                >(e@),
            },
        decreases digits@.len(),
    {
        proof {
            reveal_with_fuel(eval_number, 2);
        }
        let error = match self.evaluate_member(project, token, t, digits) {
            Ok(v) => {
                return Ok(v);
            },
            Err(e) => e,
        };
        let n = digits.unicode_len();
        if n <= 1 {
            return Err(error);
        }
        let first = digits.substring_char(0, n - 1);
        let last = digits.substring_char(n - 1, n);
        assert(first@ =~= digits@.drop_last());
        assert(last@ =~= seq![digits@.last()]);
        let initial = match self.evaluate_number(project, token, t, first) {
            Err(e) => {
                return Err(e);
            },
            Ok(v) => v,
        };
        let digit = match self.evaluate_member(project, token, t, last) {
            Err(e) => {
                return Err(e);
            },
            Ok(v) => v,
        };
        let read = match self.evaluate_member(project, token, t, "read") {
            Err(e) => {
                return Err(e);
            },
            Ok(f) => f,
        };
        let ghost args = seq![initial@, digit@];
        let both = vec![initial, digit];
        assert(views(both@) =~= args);
        self.call_value(read, both, token, None)
    }

    // The value of a function called with some values.
    fn call_value(
        &self,
        function: AcornValue,
        args: Vec<AcornValue>,
        token: &Token,
        want: Option<&AcornType>,
    ) -> (r: Result<AcornValue, Error>)
        ensures
            match r {
                Ok(v) => called_value(function@, views(args@), token@, opt_type(want)) == Ok::<
                    ValueV,
                    ErrorV,
                >(v@),
                Err(e) => called_value(function@, views(args@), token@, opt_type(want)) == Err::<
                    ValueV,
                    ErrorV,
                >(e@),
            },
    {
        proof {
            reveal(called_value);
        }
        broadcast use crate::text::group_views, crate::acorn_type::lemma_function_view;

        let function_type = match function.get_type() {
            AcornType::Function(f) => f,
            _ => {
                return Err(Error::at(token, "expected a function"));
            },
        };
        if function_type.arg_types.len() < args.len() {
            let mut message = "expected <= ".to_owned();
            message.append(decimal(function_type.arg_types.len() as u64).as_str());
            message.append(" arguments, but got ");
            message.append(decimal(args.len() as u64).as_str());
            return Err(Error::at(token, message.as_str()));
        }
        let ghost types = views(function_type.arg_types@);
        let ghost vs = views(args@);
        let mut mapping: Table<String, AcornType> = Table::new();
        let mut i: usize = 0;
        while i < args.len()
            invariant
                i <= args.len() <= function_type.arg_types.len(),
                types == views(function_type.arg_types@),
                value_type(function@) matches TypeV::Function(ts, _) && ts == types,
                vs == views(args@),
                matched_args(types, vs, token@, i as nat) == Ok::<Map<Seq<char>, TypeV>, ErrorV>(
                    mapping@,
                ),
            decreases args.len() - i,
        {
            assert(types[i as int] == function_type.arg_types@[i as int]@);
            assert(vs[i as int] == args@[i as int]@);
            let t = args[i].get_type();
            if !function_type.arg_types[i].match_specialized(&t, &mut mapping) {
                proof {
                    reveal(called_value);
                }
                let e = BindingMap::mismatch_error(token, &function_type.arg_types[i], &t);
                proof {
                    lemma_matched_args_fail(types, vs, token@, (i + 1) as nat, vs.len());
                }
                return Err(e);
            }
            i = i + 1;
        }
        self.apply_value(function, args, &mapping, token, want)
    }

    // What a name in the scope of this map stands for.
    fn evaluate_in_module<'a>(&'a self, project: &'a Project, token: &Token, name: &str) -> (r:
        Result<Entity<'a>, Error>)
        ensures
            match r {
                Ok(n) => eval_in_module(self@, project@, token@, name@) == Ok::<EntityV, ErrorV>(
                    n@,
                ),
                Err(e) => eval_in_module(self@, project@, token@, name@) == Err::<
                    EntityV,
                    ErrorV,
                >(e@),
            },
    {
        proof {
            reveal(eval_in_module);
        }
        if self.is_module(name) {
            return match self.get_imported_bindings(project, token, name) {
                Err(e) => Err(e),
                Ok(b) => Ok(Entity::Module(b)),
            };
        }
        if let Some(t) = self.get_type_for_name(name) {
            return Ok(Entity::Type(t.clone()));
        }
        match self.get_constant_value(name) {
            Some(v) => Ok(Entity::Value(v)),
            None => Err(Error::at(token, text3("unknown namespace '", name, "'").as_str())),
        }
    }

    // What a name stands for when it comes after a dot.
    fn evaluate_after_dot<'a>(
        &'a self,
        project: &'a Project,
        token: &Token,
        entity: Entity<'a>,
        name: &Token,
    ) -> (r: Result<AcornValue, Error>)
        ensures
            match r {
                Ok(v) => eval_after_dot(self@, project@, token@, entity@, name@) == Ok::<
                    ValueV,
                    ErrorV,
                >(v@),
                Err(e) => eval_after_dot(self@, project@, token@, entity@, name@) == Err::<
                    ValueV,
                    ErrorV,
                >(e@),
            },
    {
        proof {
            reveal(eval_after_dot);
        }
        match entity {
            Entity::Module(b) => b.evaluate_name(token, name.text()),
            Entity::Type(t) => if name.token_type == TokenType::Number {
                self.evaluate_number(project, token, &t, name.text())
            } else {
                self.evaluate_member(project, token, &t, name.text())
            },
            Entity::Value(v) => {
                let t = v.get_type();
                match self.evaluate_member(project, token, &t, name.text()) {
                    Err(e) => Err(e),
                    Ok(f) => {
                        let ghost args = seq![v@];
                        let one = vec![v];
                        assert(views(one@) =~= args);
                        self.call_value(f, one, token, None)
                    },
                }
            },
        }
    }

    // What a name stands for between two dots.
    fn evaluate_between_dots<'a>(
        &'a self,
        project: &'a Project,
        token: &Token,
        entity: Entity<'a>,
        name: &Token,
    ) -> (r: Result<Entity<'a>, Error>)
        ensures
            match r {
                Ok(n) => eval_between_dots(self@, project@, token@, entity@, name@) == Ok::<
                    EntityV,
                    ErrorV,
                >(n@),
                Err(e) => eval_between_dots(self@, project@, token@, entity@, name@) == Err::<
                    EntityV,
                    ErrorV,
                >(e@),
            },
    {
        proof {
            reveal(eval_between_dots);
        }
        if let Entity::Module(b) = entity {
            return b.evaluate_in_module(project, token, name.text());
        }
        match self.evaluate_after_dot(project, token, entity, name) {
            Err(e) => Err(e),
            Ok(v) => Ok(Entity::Value(v)),
        }
    }

    // What a single word stands for before a dot.
    fn evaluate_namespace<'a>(
        &'a self,
        project: &'a Project,
        stack: &Stack,
        token: &Token,
        dot: &Token,
    ) -> (r: Result<Entity<'a>, Error>)
        ensures
            match r {
                Ok(n) => eval_namespace(self@, project@, stack@, token@, dot@) == Ok::<
                    EntityV,
                    ErrorV,
                >(n@),
                Err(e) => eval_namespace(self@, project@, stack@, token@, dot@) == Err::<
                    EntityV,
                    ErrorV,
                >(e@),
            },
    {
        proof {
            reveal(eval_namespace);
        }
        if token.token_type != TokenType::Identifier || stack.get(&token.text).is_some() {
            return match self.evaluate_word(project, stack, token, None) {
                Err(e) => Err(e),
                Ok(v) => Ok(Entity::Value(v)),
            };
        }
        self.evaluate_in_module(project, dot, token.text())
    }

    fn evaluate_word(
        &self,
        project: &Project,
        stack: &Stack,
        token: &Token,
        want: Option<&AcornType>,
    ) -> (r: Result<AcornValue, Error>)
        ensures
            match r {
                Ok(v) => eval_word(self@, project@, stack@, token@, opt_type(want)) == Ok::<
                    ValueV,
                    ErrorV,
                >(v@),
                Err(e) => eval_word(self@, project@, stack@, token@, opt_type(want)) == Err::<
                    ValueV,
                    ErrorV,
                >(e@),
            },
    {
        proof {
            reveal(eval_word);
        }
        broadcast use crate::acorn_type::lemma_function_view;
        match token.token_type {
            TokenType::Axiom => Err(
                Error::at(token, "axiomatic values cannot stand inside other values"),
            ),
            TokenType::ForAll | TokenType::Exists | TokenType::Function => Err(
                Error::at(token, "binder keywords cannot be used as values"),
            ),
            TokenType::True => self.checked_value(
                token,
                want,
                &AcornType::Bool,
                AcornValue::Bool(true),
            ),
            TokenType::False => self.checked_value(
                token,
                want,
                &AcornType::Bool,
                AcornValue::Bool(false),
            ),
            TokenType::Identifier => {
                // Check if this is a stack variable
                if let Some((i, t)) = stack.get(&token.text) {
                    return self.checked_value(
                        token,
                        want,
                        t,
                        AcornValue::Variable(*i, t.clone()),
                    );
                }
                match self.evaluate_name(token, token.text()) {
                    Err(e) => Err(e),
                    Ok(value) => {
                        let t = value.get_type();
                        self.checked_value(token, want, &t, value)
                    },
                }
            },
            TokenType::Number => match &self.numerals {
                None => Err(Error::at(token, "there is no type for numerals")),
                Some((module, typename)) => {
                    let numeral_type = AcornType::Data(*module, typename.clone());
                    match self.evaluate_number(project, token, &numeral_type, token.text()) {
                        Err(e) => Err(e),
                        Ok(value) => {
                            let t = value.get_type();
                            self.checked_value(token, want, &t, value)
                        },
                    }
                },
            },
            _ => Err(Error::at(token, "unexpected identifier in value expression")),
        }
    }

    fn infer_params(
        &self,
        names: &Vec<String>,
        mapping: &Table<String, AcornType>,
        token: &Token,
    ) -> (r: Result<Vec<TypeParam>, Error>)
        ensures
            match r {
                Ok(ps) => inferred(views(names@), mapping@, token@, names@.len()) == Ok::<
                    Seq<(Seq<char>, TypeV)>,
                    ErrorV,
                >(views(ps@)),
                Err(e) => inferred(views(names@), mapping@, token@, names@.len()) == Err::<
                    Seq<(Seq<char>, TypeV)>,
                    ErrorV,
                >(e@),
            },
    {
        broadcast use crate::text::group_views;
        let mut params: Vec<TypeParam> = Vec::new();
        let mut i: usize = 0;
        while i < names.len()
            invariant
                i <= names.len(),
                inferred(views(names@), mapping@, token@, i as nat) == Ok::<
                    Seq<(Seq<char>, TypeV)>,
                    ErrorV,
                >(views(params@)),
            decreases names.len() - i,
        {
            broadcast use crate::text::group_views;
            match mapping.get(&names[i]) {
                Some(t) => {
                    params.push((names[i].clone(), t.clone()));
                },
                None => {
                    proof {
                        lemma_inferred_fail(
                            views(names@),
                            mapping@,
                            token@,
                            (i + 1) as nat,
                            names@.len(),
                        );
                    }
                    return Err(
                        Error::at(
                            token,
                            text3(
                                "parameter ",
                                names[i].as_str(),
                                " could not be inferred",
                            ).as_str(),
                        ),
                    );
                },
            }
            i = i + 1;
        }
        Ok(params)
    }

    fn apply_value(
        &self,
        function: AcornValue,
        args: Vec<AcornValue>,
        mapping: &Table<String, AcornType>,
        token: &Token,
        want: Option<&AcornType>,
    ) -> (r: Result<AcornValue, Error>)
        ensures
            match r {
                Ok(v) => applied_value(
                    function@,
                    views(args@),
                    mapping@,
                    token@,
                    opt_type(want),
                ) == Ok::<ValueV, ErrorV>(v@),
                Err(e) => applied_value(
                    function@,
                    views(args@),
                    mapping@,
                    token@,
                    opt_type(want),
                ) == Err::<ValueV, ErrorV>(e@),
            },
    {
        proof {
            reveal(applied_value);
        }
        broadcast use crate::acorn_value::lemma_application_view;
        // For non-polymorphic functions we are done
        if mapping.len() == 0 {
            let value = AcornValue::Application(
                FunctionApplication { function: Box::new(function), args },
            );
            let t = value.get_type();
            return self.checked_value(token, want, &t, value);
        }
        // Templated functions have to just be constants
        match function {
            AcornValue::Constant(c_module, c_name, c_type, c_params) => {
                let params = match self.infer_params(&c_params, mapping, token) {
                    Err(e) => {
                        return Err(e);
                    },
                    Ok(ps) => ps,
                };
                let specialized = AcornValue::Specialized(c_module, c_name, c_type, params);
                assert(specialized@ == ValueV::Specialized(
                    c_module,
                    c_name@,
                    c_type@,
                    views(params@),
                ));
                let value = AcornValue::Application(
                    FunctionApplication { function: Box::new(specialized), args },
                );
                let t = value.get_type();
                self.checked_value(token, want, &t, value)
            },
            _ => Err(Error::at(token, "a non-constant function cannot be a template")),
        }
    }

    fn evaluate_args(
        &self,
        stack: &mut Stack,
        project: &Project,
        expression: &Expression,
        arg_types: &Vec<AcornType>,
    ) -> (r: Result<(Vec<AcornValue>, Table<String, AcornType>), Error>)
        requires
            comma_list(expression@).len() <= arg_types.len(),
        ensures
            ({
                let (expected, st) = eval_args(
                    self@,
                    project@,
                    old(stack)@,
                    expression@,
                    views(arg_types@),
                );
                &&& final(stack)@ == st
                &&& match r {
                    Ok((vs, m)) => expected == Ok::<
                        (Seq<ValueV>, Map<Seq<char>, TypeV>),
                        ErrorV,
                    >((views(vs@), m@)) && vs.len() == comma_list(expression@).len(),
                    Err(e) => expected == Err::<(Seq<ValueV>, Map<Seq<char>, TypeV>), ErrorV>(e@),
                }
            }),
        decreases expression, 3int,
    {
        proof {
            reveal(take_arg);
        }
        broadcast use crate::text::group_views;
        if let Expression::Binary(l, t, r) = expression {
            if t.token_type == TokenType::Comma {
                let (mut args, mut mapping) = match self.evaluate_args(
                    stack,
                    project,
                    l,
                    arg_types,
                ) {
                    Err(e) => {
                        return Err(e);
                    },
                    Ok(x) => x,
                };
                let value = match self.evaluate_value_with_stack(stack, project, r, None) {
                    Err(e) => {
                        return Err(e);
                    },
                    Ok(v) => v,
                };
                let arg_type = &arg_types[args.len()];
                let value_type = value.get_type();
                if !arg_type.match_specialized(&value_type, &mut mapping) {
                    return Err(BindingMap::mismatch_error(r.token(), arg_type, &value_type));
                }
                args.push(value);
                return Ok((args, mapping));
            }
        }
        let value = match self.evaluate_value_with_stack(stack, project, expression, None) {
            Err(e) => {
                return Err(e);
            },
            Ok(v) => v,
        };
        let mut mapping: Table<String, AcornType> = Table::new();
        let arg_type = &arg_types[0];
        let value_type = value.get_type();
        if !arg_type.match_specialized(&value_type, &mut mapping) {
            return Err(BindingMap::mismatch_error(expression.token(), arg_type, &value_type));
        }
        let mut args: Vec<AcornValue> = Vec::new();
        args.push(value);
        Ok((args, mapping))
    }

    // The value of a negation.
    fn evaluate_negation(
        &self,
        stack: &mut Stack,
        project: &Project,
        expression: &Expression,
        expected_type: Option<&AcornType>,
    ) -> (r: Result<AcornValue, Error>)
        requires
            expression is Unary,
        ensures
            ({
                let (expected, st) = eval_negation(
                    self@,
                    project@,
                    old(stack)@,
                    expression@,
                    opt_type(expected_type),
                );
                &&& final(stack)@ == st
                &&& match r {
                    Ok(v) => expected == Ok::<ValueV, ErrorV>(v@),
                    Err(e) => expected == Err::<ValueV, ErrorV>(e@),
                }
            }),
        decreases expression, 1int,
    {
        broadcast use crate::text::group_views, crate::acorn_type::lemma_function_view;
        proof {
            reveal_with_fuel(expr_view, 2);
        }
        match expression {
            Expression::Unary(token, expr) => {
                if token.token_type != TokenType::Exclam {
                    return Err(
                        Error::at(token, "unexpected unary operator in value expression"),
                    );
                }
                match self.check_type(token, expected_type, &AcornType::Bool) {
                    Err(e) => {
                        return Err(e);
                    },
                    Ok(_) => {},
                }
                match self.evaluate_value_with_stack(
                    stack,
                    project,
                    expr,
                    Some(&AcornType::Bool),
                ) {
                    Err(e) => Err(e),
                    Ok(v) => Ok(AcornValue::Not(Box::new(v))),
                }
            },
            _ => Err(Error::at(expression.token(), "unexpected expression")),
        }
    }

    // A value of a type that may be expected, where there is a value.
    fn wanted(&self, value: Result<AcornValue, Error>, token: &Token, want: Option<&AcornType>) -> (r:
        Result<AcornValue, Error>)
        ensures
            ({
                let e = match value {
                    Ok(v) => Ok::<ValueV, ErrorV>(v@),
                    Err(e) => Err::<ValueV, ErrorV>(e@),
                };
                match r {
                    Ok(v) => wanted_value(e, token@, opt_type(want)) == Ok::<ValueV, ErrorV>(v@),
                    Err(e2) => wanted_value(e, token@, opt_type(want)) == Err::<ValueV, ErrorV>(
                        e2@,
                    ),
                }
            }),
    {
        proof {
            reveal(wanted_value);
        }
        match value {
            Err(e) => Err(e),
            Ok(value) => {
                let t = value.get_type();
                self.checked_value(token, want, &t, value)
            },
        }
    }

    // The value of an operator that stands for a method of the left operand.
    fn evaluate_infix(
        &self,
        project: &Project,
        token: &Token,
        method: &str,
        left: AcornValue,
        right: AcornValue,
        want: Option<&AcornType>,
    ) -> (r: Result<AcornValue, Error>)
        ensures
            ({
                let expected = infix_value(
                    self@,
                    project@,
                    token@,
                    method@,
                    left@,
                    right@,
                    opt_type(want),
                );
                match r {
                    Ok(v) => expected == Ok::<ValueV, ErrorV>(v@),
                    Err(e) => expected == Err::<ValueV, ErrorV>(e@),
                }
            }),
    {
        proof {
            reveal(infix_value);
        }
        let t = left.get_type();
        let f = match self.evaluate_member(project, token, &t, method) {
            Err(e) => {
                return Err(e);
            },
            Ok(f) => f,
        };
        let ghost args = seq![left@, right@];
        let both = vec![left, right];
        assert(views(both@) =~= args);
        self.call_value(f, both, token, want)
    }

    // The value of an operator between two operands, or of a path with dots.
    #[verifier::spinoff_prover]
    #[verifier::rlimit(60)]
    fn evaluate_operation(
        &self,
        stack: &mut Stack,
        project: &Project,
        expression: &Expression,
        expected_type: Option<&AcornType>,
    ) -> (r: Result<AcornValue, Error>)
        requires
            expression is Binary,
        ensures
            ({
                let (expected, st) = eval_operation(
                    self@,
                    project@,
                    old(stack)@,
                    expression@,
                    opt_type(expected_type),
                );
                &&& final(stack)@ == st
                &&& match r {
                    Ok(v) => expected == Ok::<ValueV, ErrorV>(v@),
                    Err(e) => expected == Err::<ValueV, ErrorV>(e@),
                }
            }),
        decreases expression, 1int,
    {
        broadcast use crate::text::group_views, crate::acorn_type::lemma_function_view;
        proof {
            reveal_with_fuel(expr_view, 2);
        }
        match expression {
            Expression::Binary(left, token, right) => match operator_for(token.token_type) {
                Some((op, logical)) => {
                    match self.check_type(token, expected_type, &AcornType::Bool) {
                        Err(e) => {
                            return Err(e);
                        },
                        Ok(_) => {},
                    }
                    let bool_type = AcornType::Bool;
                    let left_value = match self.evaluate_value_with_stack(
                        stack,
                        project,
                        left,
                        if logical {
                            Some(&bool_type)
                        } else {
                            None
                        },
                    ) {
                        Err(e) => {
                            return Err(e);
                        },
                        Ok(v) => v,
                    };
                    let right_type = if logical {
                        AcornType::Bool
                    } else {
                        left_value.get_type()
                    };
                    match self.evaluate_value_with_stack(
                        stack,
                        project,
                        right,
                        Some(&right_type),
                    ) {
                        Err(e) => Err(e),
                        Ok(right_value) => Ok(
                            AcornValue::Binary(op, Box::new(left_value), Box::new(right_value)),
                        ),
                    }
                },
                None => {
                    if token.token_type == TokenType::Dot {
                        let name = match &**right {
                            Expression::Identifier(t) => t,
                            _ => {
                                return Err(Error::at(right.token(), "expected an identifier"));
                            },
                        };
                        let entity = match self.evaluate_entity(stack, project, left, token) {
                            Err(e) => {
                                return Err(e);
                            },
                            Ok(n) => n,
                        };
                        let after = self.evaluate_after_dot(project, token, entity, name);
                        return self.wanted(after, token, expected_type);
                    }
                    let method = match method_for(token.token_type) {
                        None => {
                            return Err(
                                Error::at(token, "unhandled binary operator in value expression"),
                            );
                        },
                        Some(m) => m,
                    };
                    let left_value = match self.evaluate_value_with_stack(
                        stack,
                        project,
                        left,
                        None,
                    ) {
                        Err(e) => {
                            return Err(e);
                        },
                        Ok(v) => v,
                    };
                    let right_value = match self.evaluate_value_with_stack(
                        stack,
                        project,
                        right,
                        None,
                    ) {
                        Err(e) => {
                            return Err(e);
                        },
                        Ok(v) => v,
                    };
                    self.evaluate_infix(
                        project,
                        token,
                        method,
                        left_value,
                        right_value,
                        expected_type,
                    )
                },
            },
            _ => Err(Error::at(expression.token(), "unexpected expression")),
        }
    }

    // What an expression before a dot stands for.
    fn evaluate_entity<'a>(
        &'a self,
        stack: &mut Stack,
        project: &'a Project,
        expression: &Expression,
        dot: &Token,
    ) -> (r: Result<Entity<'a>, Error>)
        ensures
            ({
                let (expected, st) = eval_entity(self@, project@, old(stack)@, expression@, dot@);
                &&& final(stack)@ == st
                &&& match r {
                    Ok(n) => expected == Ok::<EntityV, ErrorV>(n@),
                    Err(e) => expected == Err::<EntityV, ErrorV>(e@),
                }
            }),
        decreases expression, 3int,
    {
        proof {
            reveal_with_fuel(expr_view, 2);
        }
        match expression {
            Expression::Identifier(token) => {
                return self.evaluate_namespace(project, stack, token, dot);
            },
            Expression::Binary(left, token, right) => {
                if token.token_type == TokenType::Dot {
                    let name = match &**right {
                        Expression::Identifier(t) => t,
                        _ => {
                            return Err(Error::at(right.token(), "expected an identifier"));
                        },
                    };
                    let entity = match self.evaluate_entity(stack, project, left, dot) {
                        Err(e) => {
                            return Err(e);
                        },
                        Ok(n) => n,
                    };
                    return self.evaluate_between_dots(project, dot, entity, name);
                }
            },
            _ => {},
        }
        match self.evaluate_value_with_stack(stack, project, expression, None) {
            Err(e) => Err(e),
            Ok(v) => Ok(Entity::Value(v)),
        }
    }

    // The value of a function applied to arguments.
    #[verifier::spinoff_prover]
    #[verifier::rlimit(60)]
    fn evaluate_application(
        &self,
        stack: &mut Stack,
        project: &Project,
        expression: &Expression,
        expected_type: Option<&AcornType>,
    ) -> (r: Result<AcornValue, Error>)
        requires
            expression is Apply,
        ensures
            ({
                let (expected, st) = eval_application(
                    self@,
                    project@,
                    old(stack)@,
                    expression@,
                    opt_type(expected_type),
                );
                &&& final(stack)@ == st
                &&& match r {
                    Ok(v) => expected == Ok::<ValueV, ErrorV>(v@),
                    Err(e) => expected == Err::<ValueV, ErrorV>(e@),
                }
            }),
        decreases expression, 1int,
    {
        broadcast use crate::text::group_views, crate::acorn_type::lemma_function_view;
        proof {
            reveal_with_fuel(expr_view, 2);
        }
        match expression {
            Expression::Apply(function_expr, args_expr) => {
                let function = match self.evaluate_value_with_stack(
                    stack,
                    project,
                    function_expr,
                    None,
                ) {
                    Err(e) => {
                        return Err(e);
                    },
                    Ok(v) => v,
                };
                let function_type = match function.get_type() {
                    AcornType::Function(f) => f,
                    _ => {
                        return Err(Error::at(function_expr.token(), "expected a function"));
                    },
                };
                let inner = match &**args_expr {
                    Expression::Grouping(_, inner, _) => inner,
                    _ => {
                        return Err(
                            Error::at(args_expr.token(), "expected a list in parentheses"),
                        );
                    },
                };
                let count = match args_expr.flatten_list(false) {
                    Err(e) => {
                        return Err(e);
                    },
                    Ok(list) => list.len(),
                };
                assert(count == comma_list(inner@).len());
                if function_type.arg_types.len() < count {
                    let mut message = "expected <= ".to_owned();
                    message.append(decimal(function_type.arg_types.len() as u64).as_str());
                    message.append(" arguments, but got ");
                    message.append(decimal(count as u64).as_str());
                    return Err(Error::at(args_expr.token(), message.as_str()));
                }
                let (args, mapping) = match self.evaluate_args(
                    stack,
                    project,
                    inner,
                    &function_type.arg_types,
                ) {
                    Err(e) => {
                        return Err(e);
                    },
                    Ok(x) => x,
                };
                self.apply_value(
                    function,
                    args,
                    &mapping,
                    function_expr.token(),
                    expected_type,
                )
            },
            _ => Err(Error::at(expression.token(), "unexpected expression")),
        }
    }

    // The value of a binder whose body has been evaluated.
    fn close_binder(
        &self,
        token: &Token,
        arg_types: Vec<AcornType>,
        body: Result<AcornValue, Error>,
        want: Option<&AcornType>,
    ) -> (r: Result<AcornValue, Error>)
        ensures
            ({
                let v = match body {
                    Ok(v) => Ok::<ValueV, ErrorV>(v@),
                    Err(e) => Err::<ValueV, ErrorV>(e@),
                };
                let expected = binder_value(token@, views(arg_types@), v, opt_type(want));
                match r {
                    Ok(v) => expected == Ok::<ValueV, ErrorV>(v@),
                    Err(e) => expected == Err::<ValueV, ErrorV>(e@),
                }
            }),
    {
        broadcast use crate::acorn_type::lemma_function_view;

        proof {
            reveal(binder_value);
        }
        let value = match body {
            Err(e) => {
                return Err(e);
            },
            Ok(v) => v,
        };
        match token.token_type {
            TokenType::ForAll => self.checked_value(
                token,
                want,
                &AcornType::Bool,
                AcornValue::ForAll(arg_types, Box::new(value)),
            ),
            TokenType::Exists => self.checked_value(
                token,
                want,
                &AcornType::Bool,
                AcornValue::Exists(arg_types, Box::new(value)),
            ),
            TokenType::Function => {
                let lambda = AcornValue::Lambda(arg_types, Box::new(value));
                let t = lambda.get_type();
                self.checked_value(token, want, &t, lambda)
            },
            _ => Err(Error::at(token, "expected a binder identifier token")),
        }
    }

    // The value of a binder. Its variables are on the stack only for its body.
    #[verifier::spinoff_prover]
    #[verifier::rlimit(60)]
    fn evaluate_binder(
        &self,
        stack: &mut Stack,
        project: &Project,
        expression: &Expression,
        expected_type: Option<&AcornType>,
    ) -> (r: Result<AcornValue, Error>)
        requires
            expression is Binder,
        ensures
            ({
                let (expected, st) = eval_binder(
                    self@,
                    project@,
                    old(stack)@,
                    expression@,
                    opt_type(expected_type),
                );
                &&& final(stack)@ == st
                &&& match r {
                    Ok(v) => expected == Ok::<ValueV, ErrorV>(v@),
                    Err(e) => expected == Err::<ValueV, ErrorV>(e@),
                }
            }),
        decreases expression, 1int,
    {
        broadcast use crate::text::group_views, crate::acorn_type::lemma_function_view;
        proof {
            reveal_with_fuel(expr_view, 2);
        }
        match expression {
            Expression::Binder(token, args_expr, body, _) => {
                let binder_args = match args_expr.flatten_list(false) {
                    Err(e) => {
                        return Err(e);
                    },
                    Ok(list) => list,
                };
                let (arg_names, arg_types) = match self.bind_args(stack, project, &binder_args) {
                    Err(e) => {
                        return Err(e);
                    },
                    Ok(x) => x,
                };
                let bool_type = AcornType::Bool;
                let body_type = if token.token_type == TokenType::ForAll || token.token_type
                    == TokenType::Exists {
                    Some(&bool_type)
                } else {
                    None
                };
                let body_value = self.evaluate_value_with_stack(stack, project, body, body_type);
                stack.remove_all(&arg_names);
                self.close_binder(token, arg_types, body_value, expected_type)
            },
            _ => Err(Error::at(expression.token(), "unexpected expression")),
        }
    }

    // The value of a choice.
    #[verifier::spinoff_prover]
    #[verifier::rlimit(60)]
    fn evaluate_choice(
        &self,
        stack: &mut Stack,
        project: &Project,
        expression: &Expression,
        expected_type: Option<&AcornType>,
    ) -> (r: Result<AcornValue, Error>)
        requires
            expression is IfThenElse,
        ensures
            ({
                let (expected, st) = eval_choice(
                    self@,
                    project@,
                    old(stack)@,
                    expression@,
                    opt_type(expected_type),
                );
                &&& final(stack)@ == st
                &&& match r {
                    Ok(v) => expected == Ok::<ValueV, ErrorV>(v@),
                    Err(e) => expected == Err::<ValueV, ErrorV>(e@),
                }
            }),
        decreases expression, 1int,
    {
        broadcast use crate::text::group_views, crate::acorn_type::lemma_function_view;
        proof {
            reveal_with_fuel(expr_view, 2);
        }
        match expression {
            Expression::IfThenElse(_, cond_exp, if_exp, else_exp, _) => {
                let cond = match self.evaluate_value_with_stack(
                    stack,
                    project,
                    cond_exp,
                    Some(&AcornType::Bool),
                ) {
                    Err(e) => {
                        return Err(e);
                    },
                    Ok(v) => v,
                };
                let if_value = match self.evaluate_value_with_stack(
                    stack,
                    project,
                    if_exp,
                    expected_type,
                ) {
                    Err(e) => {
                        return Err(e);
                    },
                    Ok(v) => v,
                };
                let if_type = if_value.get_type();
                match self.evaluate_value_with_stack(stack, project, else_exp, Some(&if_type)) {
                    Err(e) => Err(e),
                    Ok(else_value) => Ok(
                        AcornValue::IfThenElse(
                            Box::new(cond),
                            Box::new(if_value),
                            Box::new(else_value),
                        ),
                    ),
                }
            },
            _ => Err(Error::at(expression.token(), "unexpected expression")),
        }
    }

    /// Evaluates a value with a stack given as context.
    #[verifier::spinoff_prover]
    pub fn evaluate_value_with_stack(
        &self,
        stack: &mut Stack,
        project: &Project,
        expression: &Expression,
        expected_type: Option<&AcornType>,
    ) -> (r: Result<AcornValue, Error>)
        ensures
            ({
                let (expected, st) = eval_value(
                    self@,
                    project@,
                    old(stack)@,
                    expression@,
                    opt_type(expected_type),
                );
                &&& final(stack)@ == st
                &&& match r {
                    Ok(v) => expected == Ok::<ValueV, ErrorV>(v@),
                    Err(e) => expected == Err::<ValueV, ErrorV>(e@),
                }
            }),
        decreases expression, 2int,
    {
        match expression {
            Expression::Identifier(token) => self.evaluate_word(
                project,
                stack,
                token,
                expected_type,
            ),
            Expression::Unary(_, _) => self.evaluate_negation(
                stack,
                project,
                expression,
                expected_type,
            ),
            Expression::Binary(_, _, _) => self.evaluate_operation(
                stack,
                project,
                expression,
                expected_type,
            ),
            Expression::Apply(_, _) => self.evaluate_application(
                stack,
                project,
                expression,
                expected_type,
            ),
            Expression::Grouping(_, e, _) => self.evaluate_value_with_stack(
                stack,
                project,
                e,
                expected_type,
            ),
            Expression::Binder(_, _, _, _) => self.evaluate_binder(
                stack,
                project,
                expression,
                expected_type,
            ),
            Expression::IfThenElse(_, _, _, _, _) => self.evaluate_choice(
                stack,
                project,
                expression,
                expected_type,
            ),
        }
    }
}

/// Where some declarations are bad, longer lists are bad in the same way.
proof fn lemma_declarations_fail(
    b: BindingMapV,
    p: ProjectV,
    es: Seq<ExprV>,
    i: nat,
    n: nat,
)
    requires
        i <= n <= es.len(),
        eval_declarations(b, p, es, i) is Err,
    ensures
        eval_declarations(b, p, es, n) == eval_declarations(b, p, es, i),
    decreases n,
{
    if i < n {
        lemma_declarations_fail(b, p, es, i, (n - 1) as nat);
    }
}

/// Where some type parameters are unknown, longer lists are unknown in the same way.
proof fn lemma_inferred_fail(
    names: Seq<Seq<char>>,
    m: Map<Seq<char>, TypeV>,
    token: TokenV,
    i: nat,
    n: nat,
)
    requires
        i <= n <= names.len(),
        inferred(names, m, token, i) is Err,
    ensures
        inferred(names, m, token, n) == inferred(names, m, token, i),
    decreases n,
{
    if i < n {
        lemma_inferred_fail(names, m, token, i, (n - 1) as nat);
    }
}

/// What the evaluation of a value under declarations gives.
pub struct SubvalueV {
    pub type_params: Seq<Seq<char>>,
    pub arg_names: Seq<Seq<char>>,
    pub arg_types: Seq<TypeV>,
    pub value: Option<ValueV>,
    pub value_type: TypeV,
}

/// A value under declarations: the names of its type parameters and arguments, the types of the
/// arguments, the value, which has the arguments as free variables, and its type. There is no
/// value for an axiom.
#[derive(Debug)]
pub struct Subvalue {
    pub type_params: Vec<String>,
    pub arg_names: Vec<String>,
    pub arg_types: Vec<AcornType>,
    pub value: Option<AcornValue>,
    pub value_type: AcornType,
}

impl View for Subvalue {
    type V = SubvalueV;

    open spec fn view(&self) -> SubvalueV {
        SubvalueV {
            type_params: views(self.type_params@),
            arg_names: views(self.arg_names@),
            arg_types: views(self.arg_types@),
            value: opt_view(self.value),
            value_type: self.value_type@,
        }
    }
}

/// The scope in which the first `n` type parameters are data types.
pub open spec fn with_params(b: BindingMapV, tokens: Seq<TokenV>, n: nat) -> Result<
    BindingMapV,
    ErrorV,
>
    decreases n,
{
    if n == 0 || n > tokens.len() {
        Ok(b)
    } else {
        match with_params(b, tokens, (n - 1) as nat) {
            Err(e) => Err(e),
            Ok(b1) => if b1.in_use(tokens[n - 1].text) {
                Err(ErrorV::at(tokens[n - 1], "cannot redeclare a type in a generic type list"@))
            } else {
                Ok(b1.with_data_type(tokens[n - 1].text))
            },
        }
    }
}

/// What is wrong with the first type parameter from `i` on that no argument mentions.
pub open spec fn unused_param(
    tokens: Seq<TokenV>,
    types: Seq<TypeV>,
    module: ModuleId,
    i: int,
) -> Option<ErrorV>
    decreases tokens.len() - i,
{
    if i >= tokens.len() {
        None
    } else if !any_refer(types, module, tokens[i].text) {
        Some(
            ErrorV::at(
                tokens[i],
                "type parameter "@ + tokens[i].text + " is not used in the function arguments"@,
            ),
        )
    } else {
        unused_param(tokens, types, module, i + 1)
    }
}

/// The texts of tokens.
pub open spec fn texts_of(tokens: Seq<TokenV>) -> Seq<Seq<char>> {
    Seq::new(tokens.len(), |i: int| tokens[i].text)
}

/// The value of an expression under type parameters and declarations. Inside, the type parameters
/// are data types; in the result they are parameters.
pub open spec fn eval_subvalue(
    b: BindingMapV,
    p: ProjectV,
    tokens: Seq<TokenV>,
    args: Seq<ExprV>,
    type_expr: Option<ExprV>,
    value_expr: ExprV,
) -> Result<SubvalueV, ErrorV> {
    match with_params(b, tokens, tokens.len()) {
        Err(e) => Err(e),
        Ok(b1) => match eval_declarations(b1, p, args, args.len()) {
            Err(e) => Err(e),
            Ok((names, types)) => match unused_param(tokens, types, b.module, 0) {
                Some(e) => Err(e),
                None => match (match type_expr {
                    Some(e) => eval_type(b1, p, e),
                    None => Ok(TypeV::Bool),
                }) {
                    Err(e) => Err(e),
                    Ok(t) => {
                        let params = texts_of(tokens);
                        let arg_types = parametrized_all(types, b.module, params);
                        let value_type = parametrized(t, b.module, params);
                        if expr_token(value_expr).token_type == TokenType::Axiom {
                            Ok(
                                SubvalueV {
                                    type_params: params,
                                    arg_names: names,
                                    arg_types,
                                    value: None,
                                    value_type,
                                },
                            )
                        } else {
                            match eval_value(
                                b1,
                                p,
                                pushed_all(Map::empty(), names, types, 0),
                                value_expr,
                                Some(t),
                            ).0 {
                                Err(e) => Err(e),
                                Ok(v) => Ok(
                                    SubvalueV {
                                        type_params: params,
                                        arg_names: names,
                                        arg_types,
                                        value: Some(parametrized_value(v, b.module, params)),
                                        value_type,
                                    },
                                ),
                            }
                        }
                    },
                },
            },
        },
    }
}

/// The list `acc` with the constants of a value that are in this module but unknown in this
/// scope, and their types.
pub open spec fn unknown_constants(
    b: BindingMapV,
    v: ValueV,
    acc: Seq<(Seq<char>, TypeV)>,
) -> Seq<(Seq<char>, TypeV)>
    decreases v, 0nat,
{
    match v {
        ValueV::Variable(_, _) => acc,
        ValueV::Bool(_) => acc,
        ValueV::Constant(module, name, t, _) => if module == b.module
            && !b.constants.dom().contains(name) {
            put(acc, name, t)
        } else {
            acc
        },
        ValueV::Specialized(module, name, t, _) => if module == b.module
            && !b.constants.dom().contains(name) {
            put(acc, name, t)
        } else {
            acc
        },
        ValueV::Application(f, args) => unknown_in_all(
            b,
            args,
            unknown_constants(b, *f, acc),
            args.len(),
        ),
        ValueV::Lambda(_, x) => unknown_constants(b, *x, acc),
        ValueV::ForAll(_, x) => unknown_constants(b, *x, acc),
        ValueV::Exists(_, x) => unknown_constants(b, *x, acc),
        ValueV::Binary(_, l, r) => unknown_constants(b, *r, unknown_constants(b, *l, acc)),
        ValueV::Not(x) => unknown_constants(b, *x, acc),
        ValueV::IfThenElse(c, x, y) => unknown_constants(
            b,
            *y,
            unknown_constants(b, *x, unknown_constants(b, *c, acc)),
        ),
    }
}

/// The same for the first `n` of some values, one after the other.
pub open spec fn unknown_in_all(
    b: BindingMapV,
    vs: Seq<ValueV>,
    acc: Seq<(Seq<char>, TypeV)>,
    n: nat,
) -> Seq<(Seq<char>, TypeV)>
    decreases vs, n,
{
    if n == 0 || n > vs.len() {
        acc
    } else {
        unknown_constants(b, vs[n - 1], unknown_in_all(b, vs, acc, (n - 1) as nat))
    }
}

/// How a type is written in a scope.
pub open spec fn code_of_type(b: BindingMapV, t: TypeV) -> Result<Seq<char>, CodeGenErrorV>
    decreases t, 0nat,
{
    match t {
        TypeV::Function(args, ret) => match codes_of_types(b, args, args.len()) {
            Err(e) => Err(e),
            Ok(codes) => match code_of_type(b, *ret) {
                Err(e) => Err(e),
                Ok(rhs) => {
                    let list = joined(codes, ", "@);
                    let lhs = if args.len() == 1 {
                        list
                    } else {
                        "("@ + list + ")"@
                    };
                    Ok(lhs + " -> "@ + rhs)
                },
            },
        },
        _ => if b.reverse_type_names.dom().contains(t) {
            Ok(b.reverse_type_names[t])
        } else {
            Err(CodeGenErrorV::UnnamedType(type_text(t)))
        },
    }
}

/// How the first `n` of some types are written.
pub open spec fn codes_of_types(b: BindingMapV, ts: Seq<TypeV>, n: nat) -> Result<
    Seq<Seq<char>>,
    CodeGenErrorV,
>
    decreases ts, n,
{
    if n == 0 || n > ts.len() {
        Ok(Seq::empty())
    } else {
        match codes_of_types(b, ts, (n - 1) as nat) {
            Err(e) => Err(e),
            Ok(codes) => match code_of_type(b, ts[n - 1]) {
                Err(e) => Err(e),
                Ok(code) => Ok(codes.push(code)),
            },
        }
    }
}

/// The first name from `x` on, of those numbered in a row, that means nothing in a scope, and the
/// number after it.
pub open spec fn temp_var(b: BindingMapV, x: u32) -> Option<(Seq<char>, u32)>
    decreases u32::MAX - x,
{
    if x == u32::MAX {
        None
    } else if b.in_use("x"@ + decimal_text(x as nat)) {
        temp_var(b, (x + 1) as u32)
    } else {
        Some(("x"@ + decimal_text(x as nat), (x + 1) as u32))
    }
}

/// How a constant of a module is written in a scope: by its own name in its own module, by a
/// local name for it, by a local name for the type that it is a member of, or by its module.
pub open spec fn code_of_name(b: BindingMapV, module: ModuleId, name: Seq<char>) -> Result<
    Seq<char>,
    CodeGenErrorV,
> {
    let dot = next_dot(name, 0);
    let owner = TypeV::Data(module, name.take(dot));
    if module == b.module {
        Ok(name)
    } else if module == SKOLEM {
        Err(CodeGenErrorV::Skolem(name))
    } else if b.aliased_constants.dom().contains((module, name)) {
        Ok(b.aliased_constants[(module, name)])
    } else if dot < name.len() && next_dot(name, dot + 1) == name.len()
        && b.reverse_type_names.dom().contains(owner) {
        Ok(b.reverse_type_names[owner] + "."@ + name.skip(dot + 1))
    } else if b.reverse_modules.dom().contains(module) {
        Ok(b.reverse_modules[module] + "."@ + name)
    } else {
        Err(CodeGenErrorV::UnimportedModule(module))
    }
}

/// Names for the first `n` of some bound variables: the declarations, the names of all variables
/// with the new ones, and the next number for a name.
pub open spec fn named_vars(
    b: BindingMapV,
    ts: Seq<TypeV>,
    names: Seq<Seq<char>>,
    x: u32,
    n: nat,
) -> Result<(Seq<Seq<char>>, Seq<Seq<char>>, u32), CodeGenErrorV>
    decreases n,
{
    if n == 0 || n > ts.len() {
        Ok((Seq::empty(), names, x))
    } else {
        match named_vars(b, ts, names, x, (n - 1) as nat) {
            Err(e) => Err(e),
            Ok((decls, all, x1)) => match temp_var(b, x1) {
                None => Err(CodeGenErrorV::UnhandledValue("too many variables"@)),
                Some((name, x2)) => match code_of_type(b, ts[n - 1]) {
                    Err(e) => Err(e),
                    Ok(code) => Ok((decls.push(name + ": "@ + code), all.push(name), x2)),
                },
            },
        }
    }
}

/// How a numeral is written: with its type before a dot, unless the scope has numerals of its type.
pub open spec fn code_of_numeral(b: BindingMapV, numeral: MemberV) -> Result<
    Seq<char>,
    CodeGenErrorV,
> {
    if b.numerals == Some((numeral.0, numeral.1)) {
        Ok(numeral.2)
    } else {
        match code_of_type(b, TypeV::Data(numeral.0, numeral.1)) {
            Err(e) => Err(e),
            Ok(t) => Ok(t + "."@ + numeral.2),
        }
    }
}

/// How a call of a method is written, where its arguments have been written.
pub open spec fn code_of_call(call: CallV, args: Seq<ValueV>, codes: Seq<Seq<char>>) -> Seq<char> {
    match call {
        CallV::Infix(symbol, level) => guarded(codes[0], code_level(args[0]), level) + " "@ + symbol
            + " "@ + guarded(codes[1], code_level(args[1]), level + 1),
        CallV::Dotted(name) => if args.len() == 1 {
            guarded(codes[0], code_level(args[0]), 10) + "."@ + name
        } else {
            guarded(codes[0], code_level(args[0]), 10) + "."@ + name + "("@ + joined(
                codes.skip(1),
                ", "@,
            ) + ")"@
        },
        CallV::Plain => Seq::empty(),
    }
}

/// How a value is written in a scope, where the variables on the stack have names, and the next
/// number for a name.
pub open spec fn code_of_value(b: BindingMapV, v: ValueV, names: Seq<Seq<char>>, x: u32) -> Result<
    (Seq<char>, u32),
    CodeGenErrorV,
>
    decreases v, 0nat,
{
    match v {
        ValueV::Variable(i, _) => if i < names.len() {
            Ok((names[i as int], x))
        } else {
            Err(CodeGenErrorV::UnhandledValue("unbound variable"@))
        },
        ValueV::Constant(module, name, _, _) => match (match b.own_numeral(v) {
            Some(digits) => Ok(digits),
            None => code_of_name(b, module, name),
        }) {
            Err(e) => Err(e),
            Ok(s) => Ok((s, x)),
        },
        ValueV::Specialized(module, name, _, _) => match code_of_name(b, module, name) {
            Err(e) => Err(e),
            Ok(s) => Ok((s, x)),
        },
        ValueV::Application(f, args) => match numeral_of(v) {
            Some(numeral) => match code_of_numeral(b, numeral) {
                Err(e) => Err(e),
                Ok(s) => Ok((s, x)),
            },
            None => match call_of(*f, args) {
                CallV::Plain => match code_of_value(b, *f, names, x) {
                    Err(e) => Err(e),
                    Ok((fs, x1)) => match codes_of_values(b, args, names, x1, args.len()) {
                        Err(e) => Err(e),
                        Ok((codes, x2)) => Ok((fs + "("@ + joined(codes, ", "@) + ")"@, x2)),
                    },
                },
                call => match codes_of_values(b, args, names, x, args.len()) {
                    Err(e) => Err(e),
                    Ok((codes, x1)) => Ok((code_of_call(call, args, codes), x1)),
                },
            },
        },
        ValueV::Binary(op, l, r) => match code_of_value(b, *l, names, x) {
            Err(e) => Err(e),
            Ok((ls, x1)) => match code_of_value(b, *r, names, x1) {
                Err(e) => Err(e),
                Ok((rs, x2)) => Ok((ls + " "@ + op_text(op) + " "@ + rs, x2)),
            },
        },
        ValueV::Not(y) => match code_of_value(b, *y, names, x) {
            Err(e) => Err(e),
            Ok((s, x1)) => Ok(("!"@ + s, x1)),
        },
        ValueV::ForAll(ts, y) => match named_vars(b, ts, names, x, ts.len()) {
            Err(e) => Err(e),
            Ok((decls, all, x1)) => match code_of_value(b, *y, all, x1) {
                Err(e) => Err(e),
                Ok((s, x2)) => Ok(("forall("@ + joined(decls, ", "@) + ") { "@ + s + " }"@, x2)),
            },
        },
        ValueV::Bool(t) => Ok((if t { "true"@ } else { "false"@ }, x)),
        ValueV::IfThenElse(_, _, _) => Err(CodeGenErrorV::UnhandledValue("if-then-else"@)),
        ValueV::Lambda(_, _) => Err(CodeGenErrorV::UnhandledValue("lambda"@)),
        ValueV::Exists(_, _) => Err(CodeGenErrorV::UnhandledValue("exists"@)),
    }
}

/// How the first `n` of some values are written.
pub open spec fn codes_of_values(
    b: BindingMapV,
    vs: Seq<ValueV>,
    names: Seq<Seq<char>>,
    x: u32,
    n: nat,
) -> Result<(Seq<Seq<char>>, u32), CodeGenErrorV>
    decreases vs, n,
{
    if n == 0 || n > vs.len() {
        Ok((Seq::empty(), x))
    } else {
        match codes_of_values(b, vs, names, x, (n - 1) as nat) {
            Err(e) => Err(e),
            Ok((codes, x1)) => match code_of_value(b, vs[n - 1], names, x1) {
                Err(e) => Err(e),
                Ok((s, x2)) => Ok((codes.push(s), x2)),
            },
        }
    }
}

/// The type that a text stands for.
pub open spec fn text_type(b: BindingMapV, input: Seq<char>) -> Option<TypeV> {
    match parse_expr(
        text_tokens(input, 0, 0),
        0,
        false,
        Stop { first: TokenType::NewLine, second: TokenType::NewLine },
    ) {
        Err(_) => None,
        Ok((e, _, _)) => match eval_type(b, ProjectV::empty(), e) {
            Err(_) => None,
            Ok(t) => Some(t),
        },
    }
}

/// What comes of importing a name from a module: the scope afterwards, and whether the name is a
/// constant's.
pub open spec fn with_imported(b: BindingMapV, p: ProjectV, module: ModuleId, token: TokenV) -> Result<
    (BindingMapV, bool),
    ErrorV,
> {
    let name = token.text;
    if b.in_use(name) {
        Err(ErrorV::at(token, "name "@ + name + " already bound in this module"@))
    } else if !p.modules.dom().contains(module) {
        Err(ErrorV::at(token, "could not load bindings for imported module"@))
    } else {
        let other = p.modules[module];
        if other.type_names.dom().contains(name) {
            Ok((b.with_type(name, other.type_names[name]), false))
        } else {
            match other.constant_value(name) {
                Some(v) => Ok(
                    (b.with_constant(name, Seq::empty(), value_type(v), Some(v)), true),
                ),
                None => Err(ErrorV::at(token, "unknown import "@ + name)),
            }
        }
    }
}

proof fn lemma_codes_len(
    b: BindingMapV,
    vs: Seq<ValueV>,
    names: Seq<Seq<char>>,
    x: u32,
    n: nat,
)
    requires
        n <= vs.len(),
    ensures
        codes_of_values(b, vs, names, x, n) matches Ok((codes, _)) ==> codes.len() == n,
    decreases n,
{
    if n > 0 {
        lemma_codes_len(b, vs, names, x, (n - 1) as nat);
    }
}

fn call_to_code(call: Call, args: &Vec<AcornValue>, codes: &Vec<String>) -> (r: String)
    requires
        call@ == CallV::Plain || args.len() > 0,
        call is Infix ==> args.len() == 2,
        call matches Call::Infix(_, level) ==> level < 10,
        codes.len() == args.len(),
    ensures
        r@ == code_of_call(call@, views(args@), views(codes@)),
{
    let ghost vs = views(args@);
    let ghost cs = views(codes@);
    match call {
        Call::Infix(symbol, level) => {
            assert(vs[0] == args@[0]@ && vs[1] == args@[1]@);
            assert(cs[0] == codes@[0]@ && cs[1] == codes@[1]@);
            let mut out = guard(codes[0].as_str(), find_level(&args[0]), level);
            out.append(" ");
            out.append(symbol);
            out.append(" ");
            out.append(guard(codes[1].as_str(), find_level(&args[1]), level + 1).as_str());
            out
        },
        Call::Dotted(name) => {
            assert(vs[0] == args@[0]@ && cs[0] == codes@[0]@);
            let mut out = guard(codes[0].as_str(), find_level(&args[0]), 10);
            out.append(".");
            out.append(name.as_str());
            if args.len() > 1 {
                let mut rest: Vec<String> = Vec::new();
                let mut i: usize = 1;
                while i < codes.len()
                    invariant
                        1 <= i <= codes.len(),
                        rest.len() == i - 1,
                        forall|k: int|
                            0 <= k < rest.len() ==> (#[trigger] rest@[k])@ == codes@[k + 1]@,
                    decreases codes.len() - i,
                {
                    rest.push(codes[i].clone());
                    i = i + 1;
                }
                assert(views(rest@) =~= cs.skip(1));
                out.append("(");
                out.append(join(&rest, ", ").as_str());
                out.append(")");
            }
            out
        },
        Call::Plain => {
            let out = "".to_owned();
            proof {
                reveal_strlit("");
            }
            assert(out@ =~= Seq::<char>::empty());
            out
        },
    }
}

impl BindingMap {
    /// Evaluates an expression that is scoped inside declarations.
    ///
    /// `value_type_expr` is for the type of the value; without it a boolean is expected. The
    /// bindings change while this works, and are what they were when it is done.
    pub fn evaluate_subvalue(
        &mut self,
        project: &Project,
        type_param_tokens: &Vec<Token>,
        arg_exprs: &Vec<Expression>,
        value_type_expr: Option<&Expression>,
        value_expr: &Expression,
    ) -> (r: Result<Subvalue, Error>)
        ensures
            final(self)@ == old(self)@,
            match r {
                Ok(v) => eval_subvalue(
                    old(self)@,
                    project@,
                    views(type_param_tokens@),
                    views(arg_exprs@),
                    opt_expr(value_type_expr),
                    value_expr@,
                ) == Ok::<SubvalueV, ErrorV>(v@),
                Err(e) => eval_subvalue(
                    old(self)@,
                    project@,
                    views(type_param_tokens@),
                    views(arg_exprs@),
                    opt_expr(value_type_expr),
                    value_expr@,
                ) == Err::<SubvalueV, ErrorV>(e@),
            },
    {
        let mut inner = self.copy();
        inner.evaluate_subvalue_here(
            project,
            type_param_tokens,
            arg_exprs,
            value_type_expr,
            value_expr,
        )
    }

    // Works like `evaluate_subvalue`, but leaves the type parameters bound.
    fn evaluate_subvalue_here(
        &mut self,
        project: &Project,
        type_param_tokens: &Vec<Token>,
        arg_exprs: &Vec<Expression>,
        value_type_expr: Option<&Expression>,
        value_expr: &Expression,
    ) -> (r: Result<Subvalue, Error>)
        ensures
            match r {
                Ok(v) => eval_subvalue(
                    old(self)@,
                    project@,
                    views(type_param_tokens@),
                    views(arg_exprs@),
                    opt_expr(value_type_expr),
                    value_expr@,
                ) == Ok::<SubvalueV, ErrorV>(v@),
                Err(e) => eval_subvalue(
                    old(self)@,
                    project@,
                    views(type_param_tokens@),
                    views(arg_exprs@),
                    opt_expr(value_type_expr),
                    value_expr@,
                ) == Err::<SubvalueV, ErrorV>(e@),
            },
    {
        broadcast use crate::text::group_views;
        // Bind all the type parameters and arguments
        let type_params = match self.bind_type_params(type_param_tokens) {
            Err(e) => {
                return Err(e);
            },
            Ok(names) => names,
        };
        let mut decls: Vec<&Expression> = Vec::new();
        let mut i: usize = 0;
        while i < arg_exprs.len()
            invariant
                i <= arg_exprs.len(),
                decls.len() == i,
                forall|k: int| 0 <= k < i ==> (#[trigger] decls@[k])@ == arg_exprs@[k]@,
            decreases arg_exprs.len() - i,
        {
            decls.push(&arg_exprs[i]);
            i = i + 1;
        }
        assert(views(decls@) =~= views(arg_exprs@));
        let mut stack = Stack::new();
        let (arg_names, specific_arg_types) = match self.bind_args(&mut stack, project, &decls) {
            Err(e) => {
                return Err(e);
            },
            Ok(x) => x,
        };
        // Each type has to be used by some argument so that we know how to monomorphize the
        // template.
        if let Some(e) = self.find_unused_param(type_param_tokens, &specific_arg_types) {
            return Err(e);
        }
        let specific_value_type = match value_type_expr {
            Some(e) => match self.evaluate_type(project, e) {
                Err(e) => {
                    return Err(e);
                },
                Ok(t) => t,
            },
            None => AcornType::Bool,
        };
        let value = if value_expr.token().token_type == TokenType::Axiom {
            None
        } else {
            match self.evaluate_value_with_stack(
                &mut stack,
                project,
                value_expr,
                Some(&specific_value_type),
            ) {
                Err(e) => {
                    return Err(e);
                },
                Ok(v) => Some(v.parametrize(self.module, &type_params)),
            }
        };
        // Parametrize everything before returning it
        let value_type = specific_value_type.parametrize(self.module, &type_params);
        let arg_types = AcornType::parametrize_all(&specific_arg_types, self.module, &type_params);
        Ok(Subvalue { type_params, arg_names, arg_types, value, value_type })
    }

    fn bind_type_params(&mut self, tokens: &Vec<Token>) -> (r: Result<Vec<String>, Error>)
        ensures
            final(self)@.module == old(self)@.module,
            match r {
                Ok(names) => with_params(old(self)@, views(tokens@), tokens@.len()) == Ok::<
                    BindingMapV,
                    ErrorV,
                >(final(self)@) && views(names@) == texts_of(views(tokens@)),
                Err(e) => with_params(old(self)@, views(tokens@), tokens@.len()) == Err::<
                    BindingMapV,
                    ErrorV,
                >(e@),
            },
    {
        let mut names: Vec<String> = Vec::new();
        let mut i: usize = 0;
        while i < tokens.len()
            invariant
                i <= tokens.len(),
                names.len() == i,
                self@.module == old(self)@.module,
                with_params(old(self)@, views(tokens@), i as nat) == Ok::<BindingMapV, ErrorV>(
                    self@,
                ),
                forall|k: int| 0 <= k < i ==> (#[trigger] names@[k])@ == tokens@[k]@.text,
            decreases tokens.len() - i,
        {
            let token = &tokens[i];
            if self.name_in_use(token.text()) {
                proof {
                    lemma_params_fail(
                        old(self)@,
                        views(tokens@),
                        (i + 1) as nat,
                        tokens@.len(),
                    );
                }
                return Err(Error::at(token, "cannot redeclare a type in a generic type list"));
            }
            let _ = self.add_data_type(token.text());
            names.push(token.text().to_owned());
            i = i + 1;
        }
        assert(views(names@) =~= texts_of(views(tokens@)));
        Ok(names)
    }

    fn find_unused_param(&self, tokens: &Vec<Token>, types: &Vec<AcornType>) -> (r: Option<Error>)
        ensures
            opt_view(r) == unused_param(views(tokens@), views(types@), self@.module, 0),
    {
        let mut i: usize = 0;
        while i < tokens.len()
            invariant
                i <= tokens.len(),
                unused_param(views(tokens@), views(types@), self@.module, 0) == unused_param(
                    views(tokens@),
                    views(types@),
                    self@.module,
                    i as int,
                ),
            decreases tokens.len() - i,
        {
            let token = &tokens[i];
            if !AcornType::any_refers_to(types, self.module, token.text()) {
                return Some(
                    Error::at(
                        token,
                        text3(
                            "type parameter ",
                            token.text(),
                            " is not used in the function arguments",
                        ).as_str(),
                    ),
                );
            }
            i = i + 1;
        }
        None
    }

    /// Finds all constants that are in this module but unknown to this binding map, with their
    /// types.
    pub fn find_unknown_local_constants(
        &self,
        value: &AcornValue,
        answer: &mut Table<String, AcornType>,
    )
        ensures
            final(answer).list() == unknown_constants(self@, value@, old(answer).list()),
        decreases value,
    {
        broadcast use crate::acorn_value::lemma_application_view;
        match value {
            AcornValue::Variable(_, _) | AcornValue::Bool(_) => {},
            AcornValue::Constant(module, name, t, _) => {
                if *module == self.module && !self.constants.contains(name) {
                    answer.insert(name.clone(), t.clone());
                }
            },
            AcornValue::Specialized(module, name, t, _) => {
                if *module == self.module && !self.constants.contains(name) {
                    answer.insert(name.clone(), t.clone());
                }
            },
            AcornValue::Application(app) => {
                self.find_unknown_local_constants(&app.function, answer);
                self.find_unknown_in_all(&app.args, answer);
            },
            AcornValue::Lambda(_, x) | AcornValue::ForAll(_, x) | AcornValue::Exists(_, x) => {
                self.find_unknown_local_constants(x, answer);
            },
            AcornValue::Binary(_, left, right) => {
                self.find_unknown_local_constants(left, answer);
                self.find_unknown_local_constants(right, answer);
            },
            AcornValue::IfThenElse(cond, then_value, else_value) => {
                self.find_unknown_local_constants(cond, answer);
                self.find_unknown_local_constants(then_value, answer);
                self.find_unknown_local_constants(else_value, answer);
            },
            AcornValue::Not(x) => {
                self.find_unknown_local_constants(x, answer);
            },
        }
    }

    fn find_unknown_in_all(&self, values: &Vec<AcornValue>, answer: &mut Table<String, AcornType>)
        ensures
            final(answer).list() == unknown_in_all(
                self@,
                views(values@),
                old(answer).list(),
                values@.len(),
            ),
        decreases values,
    {
        let mut i: usize = 0;
        while i < values.len()
            invariant
                i <= values.len(),
                answer.list() == unknown_in_all(
                    self@,
                    views(values@),
                    old(answer).list(),
                    i as nat,
                ),
            decreases values.len() - i,
        {
            assert(decreases_to!(values => values@[i as int]));
            self.find_unknown_local_constants(&values[i], answer);
            i = i + 1;
        }
    }

    /// Imports a name from another module. The name could either be a type or a constant; says
    /// whether it is a constant.
    pub fn import_name(&mut self, project: &Project, module: ModuleId, name_token: &Token) -> (r:
        Result<bool, Error>)
        ensures
            match r {
                Ok(c) => with_imported(old(self)@, project@, module, name_token@) == Ok::<
                    (BindingMapV, bool),
                    ErrorV,
                >((final(self)@, c)),
                Err(e) => with_imported(old(self)@, project@, module, name_token@) == Err::<
                    (BindingMapV, bool),
                    ErrorV,
                >(e@) && final(self)@ == old(self)@,
            },
    {
        let name = name_token.text();
        if self.name_in_use(name) {
            return Err(
                Error::at(
                    name_token,
                    text3("name ", name, " already bound in this module").as_str(),
                ),
            );
        }
        let bindings = match project.get_bindings(module) {
            None => {
                return Err(Error::at(name_token, "could not load bindings for imported module"));
            },
            Some(b) => b,
        };
        if let Some(t) = bindings.get_type_for_name(name) {
            self.add_type_alias(name, t.clone());
            return Ok(false);
        }
        match bindings.get_constant_value(name) {
            Some(v) => {
                let none: Vec<String> = Vec::new();
                assert(views(none@) =~= Seq::<Seq<char>>::empty());
                let t = v.get_type();
                self.add_constant(name, none, t, Some(v));
                Ok(true)
            },
            None => {
                let mut message = "unknown import ".to_owned();
                message.append(name);
                Err(Error::at(name_token, message.as_str()))
            },
        }
    }

    /// Writes a type as code. Fails where it has no name here, like one that is not imported.
    pub fn type_to_code(&self, acorn_type: &AcornType) -> (r: Result<String, CodeGenError>)
        ensures
            match r {
                Ok(s) => code_of_type(self@, acorn_type@) == Ok::<Seq<char>, CodeGenErrorV>(s@),
                Err(e) => code_of_type(self@, acorn_type@) == Err::<Seq<char>, CodeGenErrorV>(e@),
            },
        decreases acorn_type,
    {
        broadcast use crate::acorn_type::lemma_function_view;
        if let AcornType::Function(ft) = acorn_type {
            let args = match self.types_to_code(&ft.arg_types) {
                Err(e) => {
                    return Err(e);
                },
                Ok(v) => v,
            };
            let rhs = match self.type_to_code(&ft.return_type) {
                Err(e) => {
                    return Err(e);
                },
                Ok(s) => s,
            };
            let list = join(&args, ", ");
            let mut out = if ft.arg_types.len() == 1 {
                list
            } else {
                text3("(", list.as_str(), ")")
            };
            out.append(" -> ");
            out.append(rhs.as_str());
            return Ok(out);
        }
        match self.reverse_type_names.get(acorn_type) {
            Some(name) => Ok(name.clone()),
            None => Err(CodeGenError::unnamed_type(acorn_type)),
        }
    }

    fn types_to_code(&self, types: &Vec<AcornType>) -> (r: Result<Vec<String>, CodeGenError>)
        ensures
            match r {
                Ok(v) => codes_of_types(self@, views(types@), types@.len()) == Ok::<
                    Seq<Seq<char>>,
                    CodeGenErrorV,
                >(views(v@)),
                Err(e) => codes_of_types(self@, views(types@), types@.len()) == Err::<
                    Seq<Seq<char>>,
                    CodeGenErrorV,
                >(e@),
            },
        decreases types,
    {
        broadcast use crate::text::group_views;
        let mut out: Vec<String> = Vec::new();
        let mut i: usize = 0;
        while i < types.len()
            invariant
                i <= types.len(),
                codes_of_types(self@, views(types@), i as nat) == Ok::<
                    Seq<Seq<char>>,
                    CodeGenErrorV,
                >(views(out@)),
            decreases types.len() - i,
        {
            broadcast use crate::text::group_views;
            assert(decreases_to!(types => types@[i as int]));
            match self.type_to_code(&types[i]) {
                Err(e) => {
                    proof {
                        lemma_codes_fail(self@, views(types@), (i + 1) as nat, types@.len());
                    }
                    return Err(e);
                },
                Ok(s) => {
                    out.push(s);
                },
            }
            i = i + 1;
        }
        Ok(out)
    }

    // Finds the next temporary variable name that is free: x0, x1, x2, etc.
    fn next_temp_var_name(&self, next_x: &mut u32) -> (r: Option<String>)
        ensures
            match r {
                Some(s) => temp_var(self@, *old(next_x)) == Some((s@, *final(next_x))),
                None => temp_var(self@, *old(next_x)) is None,
            },
    {
        while *next_x < u32::MAX
            invariant
                temp_var(self@, *old(next_x)) == temp_var(self@, *next_x),
            decreases u32::MAX - *next_x,
        {
            let mut name = "x".to_owned();
            name.append(decimal(*next_x as u64).as_str());
            *next_x = *next_x + 1;
            if !self.name_in_use(name.as_str()) {
                return Some(name);
            }
        }
        None
    }

    /// Writes a value as code. Fails where it cannot be expressed in a single chunk of code, for
    /// example because it refers to a constant that is not in scope.
    pub fn value_to_code(&self, value: &AcornValue) -> (r: Result<String, CodeGenError>)
        ensures
            match r {
                Ok(s) => code_of_value(self@, value@, Seq::empty(), 0) matches Ok((code, x))
                    && code == s@,
                Err(e) => code_of_value(self@, value@, Seq::empty(), 0) == Err::<
                    (Seq<char>, u32),
                    CodeGenErrorV,
                >(e@),
            },
    {
        let names: Vec<String> = Vec::new();
        let mut next_x: u32 = 0;
        assert(views(names@) =~= Seq::<Seq<char>>::empty());
        self.value_to_code_helper(value, &names, &mut next_x)
    }

    // Finds a way to describe a constant of a module with our bindings.
    fn name_to_code(&self, module: ModuleId, name: &String) -> (r: Result<String, CodeGenError>)
        ensures
            match r {
                Ok(s) => code_of_name(self@, module, name@) == Ok::<Seq<char>, CodeGenErrorV>(s@),
                Err(e) => code_of_name(self@, module, name@) == Err::<Seq<char>, CodeGenErrorV>(
                    e@,
                ),
            },
    {
        broadcast use crate::acorn_type::lemma_function_view;
        if module == self.module {
            return Ok(name.clone());
        }
        if module == SKOLEM {
            return Err(CodeGenError::skolem(name.as_str()));
        }
        // Check if there's a local alias for this constant.
        let key = (module, name.clone());
        if let Some(alias) = self.aliased_constants.get(&key) {
            return Ok(alias.clone());
        }
        // If it's a member function, check if there's a local alias for its struct.
        let chars = chars_of(name.as_str());
        let dot = find_dot(&chars, 0);
        if dot < chars.len() && find_dot(&chars, dot + 1) == chars.len() {
            let owner = name.as_str().substring_char(0, dot);
            let member = name.as_str().substring_char(dot + 1, chars.len());
            assert(name@.subrange(0, dot as int) =~= name@.take(dot as int));
            assert(name@.subrange(dot + 1, name@.len() as int) =~= name@.skip(dot + 1));
            let data_type = AcornType::Data(module, owner.to_owned());
            if let Some(type_alias) = self.reverse_type_names.get(&data_type) {
                return Ok(text3(type_alias.as_str(), ".", member));
            }
        }
        // Refer to this constant using its module
        match self.reverse_modules.get(&module) {
            Some(module_name) => Ok(text3(module_name.as_str(), ".", name.as_str())),
            None => Err(CodeGenError::UnimportedModule(module)),
        }
    }

    fn name_vars(&self, types: &Vec<AcornType>, var_names: &Vec<String>, next_x: &mut u32) -> (r:
        Result<(Vec<String>, Vec<String>), CodeGenError>)
        ensures
            match r {
                Ok((decls, all)) => named_vars(
                    self@,
                    views(types@),
                    views(var_names@),
                    *old(next_x),
                    types@.len(),
                ) == Ok::<(Seq<Seq<char>>, Seq<Seq<char>>, u32), CodeGenErrorV>(
                    (views(decls@), views(all@), *final(next_x)),
                ),
                Err(e) => named_vars(
                    self@,
                    views(types@),
                    views(var_names@),
                    *old(next_x),
                    types@.len(),
                ) == Err::<(Seq<Seq<char>>, Seq<Seq<char>>, u32), CodeGenErrorV>(e@),
            },
    {
        broadcast use crate::text::group_views;
        let mut decls: Vec<String> = Vec::new();
        let mut all = duplicate_all(var_names);
        let mut i: usize = 0;
        while i < types.len()
            invariant
                i <= types.len(),
                named_vars(
                    self@,
                    views(types@),
                    views(var_names@),
                    *old(next_x),
                    i as nat,
                ) == Ok::<(Seq<Seq<char>>, Seq<Seq<char>>, u32), CodeGenErrorV>(
                    (views(decls@), views(all@), *next_x),
                ),
            decreases types.len() - i,
        {
            broadcast use crate::text::group_views;
            let problem = match self.next_temp_var_name(next_x) {
                None => Some(CodeGenError::unhandled_value("too many variables")),
                Some(var_name) => match self.type_to_code(&types[i]) {
                    Err(e) => Some(e),
                    Ok(code) => {
                        decls.push(text3(var_name.as_str(), ": ", code.as_str()));
                        all.push(var_name);
                        None
                    },
                },
            };
            if let Some(e) = problem {
                proof {
                    lemma_named_fail(
                        self@,
                        views(types@),
                        views(var_names@),
                        *old(next_x),
                        (i + 1) as nat,
                        types@.len(),
                    );
                }
                return Err(e);
            }
            i = i + 1;
        }
        Ok((decls, all))
    }

    fn values_to_code(
        &self,
        values: &Vec<AcornValue>,
        var_names: &Vec<String>,
        next_x: &mut u32,
    ) -> (r: Result<Vec<String>, CodeGenError>)
        ensures
            match r {
                Ok(v) => codes_of_values(
                    self@,
                    views(values@),
                    views(var_names@),
                    *old(next_x),
                    values@.len(),
                ) == Ok::<(Seq<Seq<char>>, u32), CodeGenErrorV>((views(v@), *final(next_x))),
                Err(e) => codes_of_values(
                    self@,
                    views(values@),
                    views(var_names@),
                    *old(next_x),
                    values@.len(),
                ) == Err::<(Seq<Seq<char>>, u32), CodeGenErrorV>(e@),
            },
        decreases values,
    {
        broadcast use crate::text::group_views;
        let mut out: Vec<String> = Vec::new();
        let mut i: usize = 0;
        while i < values.len()
            invariant
                i <= values.len(),
                codes_of_values(
                    self@,
                    views(values@),
                    views(var_names@),
                    *old(next_x),
                    i as nat,
                ) == Ok::<(Seq<Seq<char>>, u32), CodeGenErrorV>((views(out@), *next_x)),
            decreases values.len() - i,
        {
            broadcast use crate::text::group_views;
            assert(decreases_to!(values => values@[i as int]));
            match self.value_to_code_helper(&values[i], var_names, next_x) {
                Err(e) => {
                    proof {
                        lemma_value_codes_fail(
                            self@,
                            views(values@),
                            views(var_names@),
                            *old(next_x),
                            (i + 1) as nat,
                            values@.len(),
                        );
                    }
                    return Err(e);
                },
                Ok(s) => {
                    out.push(s);
                },
            }
            i = i + 1;
        }
        Ok(out)
    }

    // Whether this scope has numerals of the type of a member.
    fn has_numerals_of(&self, m: &Member) -> (r: bool)
        ensures
            r == (self@.numerals == Some((m@.0, m@.1))),
    {
        match &self.numerals {
            Some((module, typename)) => *module == m.module && *typename == m.owner,
            None => false,
        }
    }

    fn numeral_to_code(&self, m: Member) -> (r: Result<String, CodeGenError>)
        ensures
            match r {
                Ok(s) => code_of_numeral(self@, m@) == Ok::<Seq<char>, CodeGenErrorV>(s@),
                Err(e) => code_of_numeral(self@, m@) == Err::<Seq<char>, CodeGenErrorV>(e@),
            },
    {
        broadcast use crate::acorn_type::lemma_function_view;
        if self.has_numerals_of(&m) {
            return Ok(m.name);
        }
        let t = AcornType::Data(m.module, m.owner);
        match self.type_to_code(&t) {
            Err(e) => Err(e),
            Ok(code) => Ok(text3(code.as_str(), ".", m.name.as_str())),
        }
    }

    // Helper that handles temporary variable naming.
    // var_names are the names of the variables that we have already allocated.
    // next_x is the next number to try using.
    fn value_to_code_helper(
        &self,
        value: &AcornValue,
        var_names: &Vec<String>,
        next_x: &mut u32,
    ) -> (r: Result<String, CodeGenError>)
        ensures
            match r {
                Ok(s) => code_of_value(self@, value@, views(var_names@), *old(next_x)) == Ok::<
                    (Seq<char>, u32),
                    CodeGenErrorV,
                >((s@, *final(next_x))),
                Err(e) => code_of_value(self@, value@, views(var_names@), *old(next_x)) == Err::<
                    (Seq<char>, u32),
                    CodeGenErrorV,
                >(e@),
            },
        decreases value,
    {
        broadcast use crate::acorn_value::lemma_application_view;
        match value {
            AcornValue::Variable(i, _) => {
                if (*i as usize) < var_names.len() {
                    Ok(var_names[*i as usize].clone())
                } else {
                    Err(CodeGenError::unhandled_value("unbound variable"))
                }
            },
            AcornValue::Constant(module, name, _, _) => {
                if let Some(m) = find_numeral(value) {
                    if self.has_numerals_of(&m) {
                        return Ok(m.name);
                    }
                }
                self.name_to_code(*module, name)
            },
            // Here we are assuming that the context will be enough to disambiguate
            // the type of the templated name.
            AcornValue::Specialized(module, name, _, _) => self.name_to_code(*module, name),
            AcornValue::Application(fa) => {
                if let Some(m) = find_numeral(value) {
                    return self.numeral_to_code(m);
                }
                let call = find_call(&fa.function, &fa.args);
                if let Call::Plain = call {
                    let f = match self.value_to_code_helper(&fa.function, var_names, next_x) {
                        Err(e) => {
                            return Err(e);
                        },
                        Ok(s) => s,
                    };
                    return match self.values_to_code(&fa.args, var_names, next_x) {
                        Err(e) => Err(e),
                        Ok(args) => {
                            let mut out = f;
                            out.append("(");
                            out.append(join(&args, ", ").as_str());
                            out.append(")");
                            Ok(out)
                        },
                    };
                }
                match self.values_to_code(&fa.args, var_names, next_x) {
                    Err(e) => Err(e),
                    Ok(codes) => {
                        proof {
                            lemma_codes_len(
                                self@,
                                views(fa.args@),
                                views(var_names@),
                                *old(next_x),
                                fa.args@.len(),
                            );
                        }
                        Ok(call_to_code(call, &fa.args, &codes))
                    },
                }
            },
            AcornValue::Binary(op, left, right) => {
                let l = match self.value_to_code_helper(left, var_names, next_x) {
                    Err(e) => {
                        return Err(e);
                    },
                    Ok(s) => s,
                };
                match self.value_to_code_helper(right, var_names, next_x) {
                    Err(e) => Err(e),
                    Ok(r) => {
                        let mut out = l;
                        out.append(" ");
                        out.append(write_op(*op));
                        out.append(" ");
                        out.append(r.as_str());
                        Ok(out)
                    },
                }
            },
            AcornValue::Not(x) => match self.value_to_code_helper(x, var_names, next_x) {
                Err(e) => Err(e),
                Ok(s) => {
                    let mut out = "!".to_owned();
                    out.append(s.as_str());
                    Ok(out)
                },
            },
            AcornValue::ForAll(quants, x) => {
                let (decls, all) = match self.name_vars(quants, var_names, next_x) {
                    Err(e) => {
                        return Err(e);
                    },
                    Ok(x) => x,
                };
                match self.value_to_code_helper(x, &all, next_x) {
                    Err(e) => Err(e),
                    Ok(s) => {
                        let mut out = "forall(".to_owned();
                        out.append(join(&decls, ", ").as_str());
                        out.append(") { ");
                        out.append(s.as_str());
                        out.append(" }");
                        Ok(out)
                    },
                }
            },
            AcornValue::Bool(b) => {
                if *b {
                    Ok("true".to_owned())
                } else {
                    Ok("false".to_owned())
                }
            },
            AcornValue::IfThenElse(_, _, _) => Err(CodeGenError::unhandled_value("if-then-else")),
            AcornValue::Lambda(_, _) => Err(CodeGenError::unhandled_value("lambda")),
            AcornValue::Exists(_, _) => Err(CodeGenError::unhandled_value("exists")),
        }
    }

    fn str_to_type(&self, input: &str) -> (r: Option<AcornType>)
        requires
            input@.len() < u32::MAX,
        ensures
            opt_view(r) == text_type(self@, input@),
    {
        let mut tokens = TokenIter::new(Token::scan(input));
        match Expression::parse(&mut tokens, false, Stop::on(TokenType::NewLine)) {
            Err(_) => None,
            Ok((expression, _)) => match self.evaluate_type(&Project::new_mock(), &expression) {
                Err(_) => None,
                Ok(t) => Some(t),
            },
        }
    }

    /// Whether a text stands for a type, and the code for this type stands for the same one.
    pub fn assert_type_ok(&self, input: &str) -> (r: bool)
        requires
            input@.len() < u32::MAX,
        ensures
            r == (text_type(self@, input@) matches Some(t) && code_of_type(self@, t) matches Ok(
                code,
            ) && code.len() < u32::MAX && text_type(self@, code) == Some(t)),
    {
        match self.str_to_type(input) {
            None => false,
            Some(t) => match self.type_to_code(&t) {
                Err(_) => false,
                Ok(code) => {
                    if code.as_str().unicode_len() >= u32::MAX as usize {
                        return false;
                    }
                    match self.str_to_type(code.as_str()) {
                        None => false,
                        Some(again) => t.same(&again),
                    }
                },
            },
        }
    }

    /// Whether a text stands for no type.
    pub fn assert_type_bad(&self, input: &str) -> (r: bool)
        requires
            input@.len() < u32::MAX,
        ensures
            r == (text_type(self@, input@) is None),
    {
        self.str_to_type(input).is_none()
    }

    /// Whether a name has the type that is written like this.
    pub fn expect_type(&self, name: &str, type_string: &str) -> (r: bool)
        ensures
            r == (self@.identifier_types.dom().contains(name@) && type_text(
                self@.identifier_types[name@],
            ) == type_string@),
    {
        match self.get_type_for_identifier(name) {
            Some(t) => same_text(t.to_text().as_str(), type_string),
            None => false,
        }
    }
}

/// The view of an expression that may be missing.
pub open spec fn opt_expr(e: Option<&Expression>) -> Option<ExprV> {
    match e {
        Some(e) => Some(e@),
        None => None,
    }
}

proof fn lemma_params_fail(b: BindingMapV, tokens: Seq<TokenV>, i: nat, n: nat)
    requires
        i <= n <= tokens.len(),
        with_params(b, tokens, i) is Err,
    ensures
        with_params(b, tokens, n) == with_params(b, tokens, i),
    decreases n,
{
    if i < n {
        lemma_params_fail(b, tokens, i, (n - 1) as nat);
    }
}

proof fn lemma_codes_fail(b: BindingMapV, ts: Seq<TypeV>, i: nat, n: nat)
    requires
        i <= n <= ts.len(),
        codes_of_types(b, ts, i) is Err,
    ensures
        codes_of_types(b, ts, n) == codes_of_types(b, ts, i),
    decreases n,
{
    if i < n {
        lemma_codes_fail(b, ts, i, (n - 1) as nat);
    }
}

proof fn lemma_named_fail(
    b: BindingMapV,
    ts: Seq<TypeV>,
    names: Seq<Seq<char>>,
    x: u32,
    i: nat,
    n: nat,
)
    requires
        i <= n <= ts.len(),
        named_vars(b, ts, names, x, i) is Err,
    ensures
        named_vars(b, ts, names, x, n) == named_vars(b, ts, names, x, i),
    decreases n,
{
    if i < n {
        lemma_named_fail(b, ts, names, x, i, (n - 1) as nat);
    }
}

proof fn lemma_value_codes_fail(
    b: BindingMapV,
    vs: Seq<ValueV>,
    names: Seq<Seq<char>>,
    x: u32,
    i: nat,
    n: nat,
)
    requires
        i <= n <= vs.len(),
        codes_of_values(b, vs, names, x, i) is Err,
    ensures
        codes_of_values(b, vs, names, x, n) == codes_of_values(b, vs, names, x, i),
    decreases n,
{
    if i < n {
        lemma_value_codes_fail(b, vs, names, x, i, (n - 1) as nat);
    }
}

} // verus!
