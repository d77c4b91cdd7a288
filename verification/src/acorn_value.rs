//! Values: what expressions mean.
//!
//! Variables are numbered by their depth on the stack of binders around them, from the outside
//! in.

use vstd::prelude::*;

use crate::acorn_type::{
    applied_type, functional, parametrized, parametrized_all, specialized, type_text, AcornType,
    AtomId, ModuleId, TypeParam, TypeV,
};
use crate::table::{duplicate_all, Duplicate, Key, Table};
use crate::text::{decimal, decimal_text, join, joined, views};

verus! {

/// The operators between two values.
#[derive(Clone, Copy, Debug, PartialEq, Eq, Structural)]
pub enum BinaryOp {
    Implies,
    Equals,
    NotEquals,
    And,
    Or,
}

/// A function and its arguments.
#[derive(Debug, PartialEq, Eq)]
pub struct FunctionApplication {
    pub function: Box<AcornValue>,
    pub args: Vec<AcornValue>,
}

/// A value, which may have free variables.
#[derive(Debug, PartialEq, Eq)]
pub enum AcornValue {
    /// A variable on the stack, and its type.
    Variable(AtomId, AcornType),
    /// A constant: its module, its name there, its type, and the type parameters it was defined
    /// with.
    Constant(ModuleId, String, AcornType, Vec<String>),
    /// A constant with what its type parameters stand for.
    Specialized(ModuleId, String, AcornType, Vec<TypeParam>),
    /// A function applied to arguments.
    Application(FunctionApplication),
    /// A function.
    Lambda(Vec<AcornType>, Box<AcornValue>),
    /// A universal claim.
    ForAll(Vec<AcornType>, Box<AcornValue>),
    /// An existential claim.
    Exists(Vec<AcornType>, Box<AcornValue>),
    /// An operator between two values.
    Binary(BinaryOp, Box<AcornValue>, Box<AcornValue>),
    /// A negation.
    Not(Box<AcornValue>),
    /// True or false.
    Bool(bool),
    /// One of two values, by a condition.
    IfThenElse(Box<AcornValue>, Box<AcornValue>, Box<AcornValue>),
}

/// The model of a value.
#[verifier::ext_equal]
pub enum ValueV {
    Variable(AtomId, TypeV),
    Constant(ModuleId, Seq<char>, TypeV, Seq<Seq<char>>),
    Specialized(ModuleId, Seq<char>, TypeV, Seq<(Seq<char>, TypeV)>),
    Application(Box<ValueV>, Seq<ValueV>),
    Lambda(Seq<TypeV>, Box<ValueV>),
    ForAll(Seq<TypeV>, Box<ValueV>),
    Exists(Seq<TypeV>, Box<ValueV>),
    Binary(BinaryOp, Box<ValueV>, Box<ValueV>),
    Not(Box<ValueV>),
    Bool(bool),
    IfThenElse(Box<ValueV>, Box<ValueV>, Box<ValueV>),
}

/// The model of a value, made from its parts.
pub open spec fn value_view(v: AcornValue) -> ValueV
    decreases v,
{
    match v {
        AcornValue::Variable(i, t) => ValueV::Variable(i, t@),
        AcornValue::Constant(m, n, t, ps) => ValueV::Constant(m, n@, t@, views(ps@)),
        AcornValue::Specialized(m, n, t, ps) => ValueV::Specialized(m, n@, t@, views(ps@)),
        AcornValue::Application(a) => ValueV::Application(
            Box::new(value_view(*a.function)),
            values_view(a.args@),
        ),
        AcornValue::Lambda(ts, b) => ValueV::Lambda(views(ts@), Box::new(value_view(*b))),
        AcornValue::ForAll(ts, b) => ValueV::ForAll(views(ts@), Box::new(value_view(*b))),
        AcornValue::Exists(ts, b) => ValueV::Exists(views(ts@), Box::new(value_view(*b))),
        AcornValue::Binary(op, l, r) => ValueV::Binary(
            op,
            Box::new(value_view(*l)),
            Box::new(value_view(*r)),
        ),
        AcornValue::Not(x) => ValueV::Not(Box::new(value_view(*x))),
        AcornValue::Bool(b) => ValueV::Bool(b),
        AcornValue::IfThenElse(c, a, b) => ValueV::IfThenElse(
            Box::new(value_view(*c)),
            Box::new(value_view(*a)),
            Box::new(value_view(*b)),
        ),
    }
}

/// The models of a list of values.
pub open spec fn values_view(s: Seq<AcornValue>) -> Seq<ValueV>
    decreases s,
{
    Seq::new(
        s.len(),
        |i: int|
            if 0 <= i < s.len() {
                value_view(s[i])
            } else {
                ValueV::Bool(false)
            },
    )
}

impl View for AcornValue {
    type V = ValueV;

    open spec fn view(&self) -> ValueV {
        value_view(*self)
    }
}

/// The model of an application holds the views of the arguments.
pub broadcast proof fn lemma_application_view(a: FunctionApplication)
    ensures
        #[trigger] value_view(AcornValue::Application(a)) == ValueV::Application(
            Box::new(value_view(*a.function)),
            views(a.args@),
        ),
{
    assert(values_view(a.args@) =~= views(a.args@));
}

/// The type of a value.
pub open spec fn value_type(v: ValueV) -> TypeV
    decreases v,
{
    match v {
        ValueV::Variable(_, t) => t,
        ValueV::Constant(_, _, t, _) => t,
        ValueV::Specialized(_, _, t, params) => specialized(t, params),
        ValueV::Application(f, args) => match value_type(*f) {
            TypeV::Function(arg_types, ret) => applied_type(arg_types, *ret, args.len() as int),
            _ => TypeV::Empty,
        },
        ValueV::Lambda(ts, b) => functional(ts, value_type(*b)),
        ValueV::IfThenElse(_, a, _) => value_type(*a),
        _ => TypeV::Bool,
    }
}

/// A function applied to arguments, where there are any.
pub open spec fn apply(f: ValueV, args: Seq<ValueV>) -> ValueV {
    if args.len() == 0 { f } else { ValueV::Application(Box::new(f), args) }
}

/// A function of arguments, where there are any.
pub open spec fn lambda(ts: Seq<TypeV>, v: ValueV) -> ValueV {
    if ts.len() == 0 { v } else { ValueV::Lambda(ts, Box::new(v)) }
}

/// A claim for all variables of the given types, where there are any.
pub open spec fn forall_of(ts: Seq<TypeV>, v: ValueV) -> ValueV {
    if ts.len() == 0 { v } else { ValueV::ForAll(ts, Box::new(v)) }
}

/// A claim that there are variables of the given types, where there are any.
pub open spec fn exists_of(ts: Seq<TypeV>, v: ValueV) -> ValueV {
    if ts.len() == 0 { v } else { ValueV::Exists(ts, Box::new(v)) }
}

/// A constant, with what its type parameters stand for where it has any.
pub open spec fn constant_of(
    module: ModuleId,
    name: Seq<char>,
    t: TypeV,
    params: Seq<(Seq<char>, TypeV)>,
) -> ValueV {
    if params.len() == 0 {
        ValueV::Constant(module, name, t, Seq::empty())
    } else {
        ValueV::Specialized(module, name, t, params)
    }
}

/// The negation of a value: double negations cancel, and equations turn into inequations.
pub open spec fn negated(v: ValueV) -> ValueV {
    match v {
        ValueV::Bool(b) => ValueV::Bool(!b),
        ValueV::Not(x) => *x,
        ValueV::Binary(BinaryOp::Equals, l, r) => ValueV::Binary(BinaryOp::NotEquals, l, r),
        ValueV::Binary(BinaryOp::NotEquals, l, r) => ValueV::Binary(BinaryOp::Equals, l, r),
        _ => ValueV::Not(Box::new(v)),
    }
}

/// What an edit of a value does at the leaves, and to the types. Everything else is kept.
/// `depth` is the size of the stack at the leaf.
pub trait EditModel {
    /// What comes for a variable.
    spec fn on_variable(self, i: AtomId, t: TypeV, depth: AtomId) -> ValueV;

    /// What comes for a constant.
    spec fn on_constant(
        self,
        module: ModuleId,
        name: Seq<char>,
        t: TypeV,
        params: Seq<Seq<char>>,
        depth: AtomId,
    ) -> ValueV;

    /// What comes for a constant with type parameters.
    spec fn on_specialized(
        self,
        module: ModuleId,
        name: Seq<char>,
        t: TypeV,
        params: Seq<(Seq<char>, TypeV)>,
        depth: AtomId,
    ) -> ValueV;

    /// What comes for the types of bound variables.
    spec fn on_types(self, ts: Seq<TypeV>) -> Seq<TypeV>;
}

/// The depth under some more binders.
pub open spec fn deeper(depth: AtomId, n: nat) -> AtomId {
    depth.wrapping_add(n as u16)
}

/// A value after an edit.
pub open spec fn edited<M: EditModel>(v: ValueV, depth: AtomId, m: M) -> ValueV
    decreases v,
{
    match v {
        ValueV::Variable(i, t) => m.on_variable(i, t, depth),
        ValueV::Constant(module, name, t, ps) => m.on_constant(module, name, t, ps, depth),
        ValueV::Specialized(module, name, t, ps) => m.on_specialized(module, name, t, ps, depth),
        ValueV::Application(f, args) => ValueV::Application(
            Box::new(edited(*f, depth, m)),
            edited_all(args, depth, m),
        ),
        ValueV::Lambda(ts, b) => ValueV::Lambda(
            m.on_types(ts),
            Box::new(edited(*b, deeper(depth, ts.len()), m)),
        ),
        ValueV::ForAll(ts, b) => ValueV::ForAll(
            m.on_types(ts),
            Box::new(edited(*b, deeper(depth, ts.len()), m)),
        ),
        ValueV::Exists(ts, b) => ValueV::Exists(
            m.on_types(ts),
            Box::new(edited(*b, deeper(depth, ts.len()), m)),
        ),
        ValueV::Binary(op, l, r) => ValueV::Binary(
            op,
            Box::new(edited(*l, depth, m)),
            Box::new(edited(*r, depth, m)),
        ),
        ValueV::Not(x) => ValueV::Not(Box::new(edited(*x, depth, m))),
        ValueV::Bool(b) => ValueV::Bool(b),
        ValueV::IfThenElse(c, a, b) => ValueV::IfThenElse(
            Box::new(edited(*c, depth, m)),
            Box::new(edited(*a, depth, m)),
            Box::new(edited(*b, depth, m)),
        ),
    }
}

/// Each of a list of values after an edit.
pub open spec fn edited_all<M: EditModel>(vs: Seq<ValueV>, depth: AtomId, m: M) -> Seq<ValueV>
    decreases vs,
{
    Seq::new(
        vs.len(),
        |i: int|
            if 0 <= i < vs.len() {
                edited(vs[i], depth, m)
            } else {
                ValueV::Bool(false)
            },
    )
}

/// Something that edits values.
pub trait Edit: Sized {
    /// The kind of model it has.
    type M: EditModel;

    /// What it does.
    spec fn model(&self) -> Self::M;

    /// Edits a variable.
    fn edit_variable(&self, i: AtomId, t: &AcornType, depth: AtomId) -> (r: AcornValue)
        ensures
            r@ == self.model().on_variable(i, t@, depth),
    ;

    /// Edits a constant.
    fn edit_constant(
        &self,
        module: ModuleId,
        name: &String,
        t: &AcornType,
        params: &Vec<String>,
        depth: AtomId,
    ) -> (r: AcornValue)
        ensures
            r@ == self.model().on_constant(module, name@, t@, views(params@), depth),
    ;

    /// Edits a constant with type parameters.
    fn edit_specialized(
        &self,
        module: ModuleId,
        name: &String,
        t: &AcornType,
        params: &Vec<TypeParam>,
        depth: AtomId,
    ) -> (r: AcornValue)
        ensures
            r@ == self.model().on_specialized(module, name@, t@, views(params@), depth),
    ;

    /// Edits the types of bound variables.
    fn edit_types(&self, ts: &Vec<AcornType>) -> (r: Vec<AcornType>)
        ensures
            views(r@) == self.model().on_types(views(ts@)),
    ;
}

fn edit_list<E: Edit>(vs: &Vec<AcornValue>, depth: AtomId, e: &E) -> (r: Vec<AcornValue>)
    ensures
        views(r@) == edited_all(views(vs@), depth, e.model()),
    decreases vs,
{
    let mut out: Vec<AcornValue> = Vec::new();
    let mut i: usize = 0;
    while i < vs.len()
        invariant
            i <= vs.len(),
            out.len() == i,
            forall|k: int|
                0 <= k < i ==> (#[trigger] out@[k])@ == edited(vs@[k]@, depth, e.model()),
        decreases vs.len() - i,
    {
        assert(decreases_to!(vs => vs@[i as int]));
        out.push(edit(&vs[i], depth, e));
        i = i + 1;
    }
    assert(views(out@) =~= edited_all(views(vs@), depth, e.model()));
    out
}

/// The depth under some more binders.
pub fn go_deeper(depth: AtomId, ts: &Vec<AcornType>) -> (r: AtomId)
    ensures
        r == deeper(depth, ts@.len()),
{
    depth.wrapping_add(ts.len() as u16)
}

/// Edits a value.
pub fn edit<E: Edit>(v: &AcornValue, depth: AtomId, e: &E) -> (r: AcornValue)
    ensures
        r@ == edited(v@, depth, e.model()),
    decreases v,
{
    broadcast use lemma_application_view;
    match v {
        AcornValue::Variable(i, t) => e.edit_variable(*i, t, depth),
        AcornValue::Constant(m, n, t, ps) => e.edit_constant(*m, n, t, ps, depth),
        AcornValue::Specialized(m, n, t, ps) => e.edit_specialized(*m, n, t, ps, depth),
        AcornValue::Application(a) => {
            let function = Box::new(edit(&a.function, depth, e));
            let args = edit_list(&a.args, depth, e);
            AcornValue::Application(FunctionApplication { function, args })
        },
        AcornValue::Lambda(ts, b) => {
            let body = edit(b, go_deeper(depth, ts), e);
            AcornValue::Lambda(e.edit_types(ts), Box::new(body))
        },
        AcornValue::ForAll(ts, b) => {
            let body = edit(b, go_deeper(depth, ts), e);
            AcornValue::ForAll(e.edit_types(ts), Box::new(body))
        },
        AcornValue::Exists(ts, b) => {
            let body = edit(b, go_deeper(depth, ts), e);
            AcornValue::Exists(e.edit_types(ts), Box::new(body))
        },
        AcornValue::Binary(op, l, r) => AcornValue::Binary(
            *op,
            Box::new(edit(l, depth, e)),
            Box::new(edit(r, depth, e)),
        ),
        AcornValue::Not(x) => AcornValue::Not(Box::new(edit(x, depth, e))),
        AcornValue::Bool(b) => AcornValue::Bool(*b),
        AcornValue::IfThenElse(c, a, b) => AcornValue::IfThenElse(
            Box::new(edit(c, depth, e)),
            Box::new(edit(a, depth, e)),
            Box::new(edit(b, depth, e)),
        ),
    }
}

/// Makes room on the stack: variables from `index` on move up by `increment`.
pub struct Shift {
    pub index: AtomId,
    pub increment: AtomId,
}

impl EditModel for Shift {
    open spec fn on_variable(self, i: AtomId, t: TypeV, depth: AtomId) -> ValueV {
        if i < self.index {
            ValueV::Variable(i, t)
        } else {
            ValueV::Variable(i.wrapping_add(self.increment), t)
        }
    }

    open spec fn on_constant(
        self,
        module: ModuleId,
        name: Seq<char>,
        t: TypeV,
        params: Seq<Seq<char>>,
        depth: AtomId,
    ) -> ValueV {
        ValueV::Constant(module, name, t, params)
    }

    open spec fn on_specialized(
        self,
        module: ModuleId,
        name: Seq<char>,
        t: TypeV,
        params: Seq<(Seq<char>, TypeV)>,
        depth: AtomId,
    ) -> ValueV {
        ValueV::Specialized(module, name, t, params)
    }

    open spec fn on_types(self, ts: Seq<TypeV>) -> Seq<TypeV> {
        ts
    }
}

impl Edit for Shift {
    type M = Shift;

    open spec fn model(&self) -> Shift {
        *self
    }

    fn edit_variable(&self, i: AtomId, t: &AcornType, depth: AtomId) -> (r: AcornValue) {
        if i < self.index {
            AcornValue::Variable(i, t.clone())
        } else {
            AcornValue::Variable(i.wrapping_add(self.increment), t.clone())
        }
    }

    fn edit_constant(
        &self,
        module: ModuleId,
        name: &String,
        t: &AcornType,
        params: &Vec<String>,
        depth: AtomId,
    ) -> (r: AcornValue) {
        AcornValue::Constant(module, name.clone(), t.clone(), duplicate_all(params))
    }

    fn edit_specialized(
        &self,
        module: ModuleId,
        name: &String,
        t: &AcornType,
        params: &Vec<TypeParam>,
        depth: AtomId,
    ) -> (r: AcornValue) {
        AcornValue::Specialized(module, name.clone(), t.clone(), duplicate_all(params))
    }

    fn edit_types(&self, ts: &Vec<AcornType>) -> (r: Vec<AcornType>) {
        duplicate_all(ts)
    }
}

/// A value with room made on the stack.
pub open spec fn shifted(v: ValueV, index: AtomId, increment: AtomId) -> ValueV {
    edited(v, 0, Shift { index, increment })
}

/// Replaces variables by values: the model.
pub struct BindV {
    pub first: AtomId,
    pub values: Seq<ValueV>,
}

impl EditModel for BindV {
    open spec fn on_variable(self, i: AtomId, t: TypeV, depth: AtomId) -> ValueV {
        if i < self.first {
            ValueV::Variable(i, t)
        } else if i - self.first < self.values.len() {
            // The value moves to a place with a stack of another size.
            shifted(self.values[i - self.first], self.first, depth.wrapping_sub(self.first))
        } else {
            ValueV::Variable(i.wrapping_sub(self.values.len() as u16), t)
        }
    }

    open spec fn on_constant(
        self,
        module: ModuleId,
        name: Seq<char>,
        t: TypeV,
        params: Seq<Seq<char>>,
        depth: AtomId,
    ) -> ValueV {
        ValueV::Constant(module, name, t, params)
    }

    open spec fn on_specialized(
        self,
        module: ModuleId,
        name: Seq<char>,
        t: TypeV,
        params: Seq<(Seq<char>, TypeV)>,
        depth: AtomId,
    ) -> ValueV {
        ValueV::Specialized(module, name, t, params)
    }

    open spec fn on_types(self, ts: Seq<TypeV>) -> Seq<TypeV> {
        ts
    }
}

struct Bind<'a> {
    first: AtomId,
    values: &'a Vec<AcornValue>,
}

impl<'a> Edit for Bind<'a> {
    type M = BindV;

    closed spec fn model(&self) -> BindV {
        BindV { first: self.first, values: views(self.values@) }
    }

    fn edit_variable(&self, i: AtomId, t: &AcornType, depth: AtomId) -> (r: AcornValue) {
        if i < self.first {
            AcornValue::Variable(i, t.clone())
        } else if ((i - self.first) as usize) < self.values.len() {
            self.values[(i - self.first) as usize].insert_stack(
                self.first,
                depth.wrapping_sub(self.first),
            )
        } else {
            AcornValue::Variable(i.wrapping_sub(self.values.len() as u16), t.clone())
        }
    }

    fn edit_constant(
        &self,
        module: ModuleId,
        name: &String,
        t: &AcornType,
        params: &Vec<String>,
        depth: AtomId,
    ) -> (r: AcornValue) {
        AcornValue::Constant(module, name.clone(), t.clone(), duplicate_all(params))
    }

    fn edit_specialized(
        &self,
        module: ModuleId,
        name: &String,
        t: &AcornType,
        params: &Vec<TypeParam>,
        depth: AtomId,
    ) -> (r: AcornValue) {
        AcornValue::Specialized(module, name.clone(), t.clone(), duplicate_all(params))
    }

    fn edit_types(&self, ts: &Vec<AcornType>) -> (r: Vec<AcornType>) {
        duplicate_all(ts)
    }
}

/// A value with the variables from `first` on replaced by values, at a depth.
pub open spec fn bound(v: ValueV, first: AtomId, depth: AtomId, values: Seq<ValueV>) -> ValueV {
    edited(v, depth, BindV { first, values })
}

/// Replaces constants of a module by variables: the model.
pub struct ToVarsV {
    pub module: ModuleId,
    pub vars: Map<Seq<char>, AtomId>,
}

impl EditModel for ToVarsV {
    open spec fn on_variable(self, i: AtomId, t: TypeV, depth: AtomId) -> ValueV {
        ValueV::Variable(i, t)
    }

    open spec fn on_constant(
        self,
        module: ModuleId,
        name: Seq<char>,
        t: TypeV,
        params: Seq<Seq<char>>,
        depth: AtomId,
    ) -> ValueV {
        if module == self.module && self.vars.dom().contains(name) {
            ValueV::Variable(self.vars[name], t)
        } else {
            ValueV::Constant(module, name, t, params)
        }
    }

    open spec fn on_specialized(
        self,
        module: ModuleId,
        name: Seq<char>,
        t: TypeV,
        params: Seq<(Seq<char>, TypeV)>,
        depth: AtomId,
    ) -> ValueV {
        if module == self.module && self.vars.dom().contains(name) {
            ValueV::Variable(self.vars[name], t)
        } else {
            ValueV::Specialized(module, name, t, params)
        }
    }

    open spec fn on_types(self, ts: Seq<TypeV>) -> Seq<TypeV> {
        ts
    }
}

struct ToVars<'a> {
    module: ModuleId,
    vars: &'a Table<String, AtomId>,
}

impl<'a> Edit for ToVars<'a> {
    type M = ToVarsV;

    closed spec fn model(&self) -> ToVarsV {
        ToVarsV { module: self.module, vars: self.vars@ }
    }

    fn edit_variable(&self, i: AtomId, t: &AcornType, depth: AtomId) -> (r: AcornValue) {
        AcornValue::Variable(i, t.clone())
    }

    fn edit_constant(
        &self,
        module: ModuleId,
        name: &String,
        t: &AcornType,
        params: &Vec<String>,
        depth: AtomId,
    ) -> (r: AcornValue) {
        if module == self.module {
            if let Some(i) = self.vars.get(name) {
                return AcornValue::Variable(*i, t.clone());
            }
        }
        AcornValue::Constant(module, name.clone(), t.clone(), duplicate_all(params))
    }

    fn edit_specialized(
        &self,
        module: ModuleId,
        name: &String,
        t: &AcornType,
        params: &Vec<TypeParam>,
        depth: AtomId,
    ) -> (r: AcornValue) {
        if module == self.module {
            if let Some(i) = self.vars.get(name) {
                return AcornValue::Variable(*i, t.clone());
            }
        }
        AcornValue::Specialized(module, name.clone(), t.clone(), duplicate_all(params))
    }

    fn edit_types(&self, ts: &Vec<AcornType>) -> (r: Vec<AcornType>) {
        duplicate_all(ts)
    }
}

/// A value with some constants of a module replaced by variables.
pub open spec fn constants_to_vars(
    v: ValueV,
    module: ModuleId,
    vars: Map<Seq<char>, AtomId>,
) -> ValueV {
    edited(v, 0, ToVarsV { module, vars })
}

/// Turns data types into type parameters: the model.
pub struct ParametrizeV {
    pub module: ModuleId,
    pub names: Seq<Seq<char>>,
}

/// What type parameters stand for, with data types turned into type parameters there.
pub open spec fn parametrized_params(
    params: Seq<(Seq<char>, TypeV)>,
    module: ModuleId,
    names: Seq<Seq<char>>,
) -> Seq<(Seq<char>, TypeV)> {
    Seq::new(params.len(), |i: int| (params[i].0, parametrized(params[i].1, module, names)))
}

impl EditModel for ParametrizeV {
    open spec fn on_variable(self, i: AtomId, t: TypeV, depth: AtomId) -> ValueV {
        ValueV::Variable(i, parametrized(t, self.module, self.names))
    }

    open spec fn on_constant(
        self,
        module: ModuleId,
        name: Seq<char>,
        t: TypeV,
        params: Seq<Seq<char>>,
        depth: AtomId,
    ) -> ValueV {
        ValueV::Constant(module, name, parametrized(t, self.module, self.names), params)
    }

    open spec fn on_specialized(
        self,
        module: ModuleId,
        name: Seq<char>,
        t: TypeV,
        params: Seq<(Seq<char>, TypeV)>,
        depth: AtomId,
    ) -> ValueV {
        ValueV::Specialized(
            module,
            name,
            t,
            parametrized_params(params, self.module, self.names),
        )
    }

    open spec fn on_types(self, ts: Seq<TypeV>) -> Seq<TypeV> {
        parametrized_all(ts, self.module, self.names)
    }
}

struct Parametrize<'a> {
    module: ModuleId,
    names: &'a Vec<String>,
}

impl<'a> Edit for Parametrize<'a> {
    type M = ParametrizeV;

    closed spec fn model(&self) -> ParametrizeV {
        ParametrizeV { module: self.module, names: views(self.names@) }
    }

    fn edit_variable(&self, i: AtomId, t: &AcornType, depth: AtomId) -> (r: AcornValue) {
        AcornValue::Variable(i, t.parametrize(self.module, self.names))
    }

    fn edit_constant(
        &self,
        module: ModuleId,
        name: &String,
        t: &AcornType,
        params: &Vec<String>,
        depth: AtomId,
    ) -> (r: AcornValue) {
        AcornValue::Constant(
            module,
            name.clone(),
            t.parametrize(self.module, self.names),
            duplicate_all(params),
        )
    }

    fn edit_specialized(
        &self,
        module: ModuleId,
        name: &String,
        t: &AcornType,
        params: &Vec<TypeParam>,
        depth: AtomId,
    ) -> (r: AcornValue) {
        let mut out: Vec<TypeParam> = Vec::new();
        let mut i: usize = 0;
        while i < params.len()
            invariant
                i <= params.len(),
                out.len() == i,
                forall|k: int|
                    0 <= k < i ==> (#[trigger] out@[k]).0@ == params@[k].0@ && out@[k].1@
                        == parametrized(params@[k].1@, self.module, views(self.names@)),
            decreases params.len() - i,
        {
            let p = &params[i];
            out.push((p.0.clone(), p.1.parametrize(self.module, self.names)));
            i = i + 1;
        }
        assert(views(out@) =~= parametrized_params(
            views(params@),
            self.module,
            views(self.names@),
        ));
        AcornValue::Specialized(module, name.clone(), t.clone(), out)
    }

    fn edit_types(&self, ts: &Vec<AcornType>) -> (r: Vec<AcornType>) {
        AcornType::parametrize_all(ts, self.module, self.names)
    }
}

/// A value with data types of a module turned into type parameters.
pub open spec fn parametrized_value(v: ValueV, module: ModuleId, names: Seq<Seq<char>>) -> ValueV {
    edited(v, 0, ParametrizeV { module, names })
}

/// Replaces constants by their definitions: the model. A definition has no free variables.
pub struct DefineV {
    pub definitions: spec_fn(ModuleId, Seq<char>) -> Option<ValueV>,
}

impl EditModel for DefineV {
    open spec fn on_variable(self, i: AtomId, t: TypeV, depth: AtomId) -> ValueV {
        ValueV::Variable(i, t)
    }

    open spec fn on_constant(
        self,
        module: ModuleId,
        name: Seq<char>,
        t: TypeV,
        params: Seq<Seq<char>>,
        depth: AtomId,
    ) -> ValueV {
        match (self.definitions)(module, name) {
            Some(d) => shifted(d, 0, depth),
            None => ValueV::Constant(module, name, t, params),
        }
    }

    open spec fn on_specialized(
        self,
        module: ModuleId,
        name: Seq<char>,
        t: TypeV,
        params: Seq<(Seq<char>, TypeV)>,
        depth: AtomId,
    ) -> ValueV {
        match (self.definitions)(module, name) {
            Some(d) => shifted(specialized_value(d, params), 0, depth),
            None => ValueV::Specialized(module, name, t, params),
        }
    }

    open spec fn on_types(self, ts: Seq<TypeV>) -> Seq<TypeV> {
        ts
    }
}

/// What knows the definitions of constants.
pub trait Definitions {
    /// The definition of a constant.
    spec fn defined(&self) -> spec_fn(ModuleId, Seq<char>) -> Option<ValueV>;

    /// Looks up the definition of a constant.
    fn definition(&self, module: ModuleId, name: &String) -> (r: Option<AcornValue>)
        ensures
            match r {
                Some(v) => (self.defined())(module, name@) == Some(v@),
                None => (self.defined())(module, name@) is None,
            },
    ;
}

struct Define<'a, D: Definitions> {
    definitions: &'a D,
}

impl<'a, D: Definitions> Edit for Define<'a, D> {
    type M = DefineV;

    closed spec fn model(&self) -> DefineV {
        DefineV { definitions: self.definitions.defined() }
    }

    fn edit_variable(&self, i: AtomId, t: &AcornType, depth: AtomId) -> (r: AcornValue) {
        AcornValue::Variable(i, t.clone())
    }

    fn edit_constant(
        &self,
        module: ModuleId,
        name: &String,
        t: &AcornType,
        params: &Vec<String>,
        depth: AtomId,
    ) -> (r: AcornValue) {
        match self.definitions.definition(module, name) {
            Some(d) => d.insert_stack(0, depth),
            None => AcornValue::Constant(module, name.clone(), t.clone(), duplicate_all(params)),
        }
    }

    fn edit_specialized(
        &self,
        module: ModuleId,
        name: &String,
        t: &AcornType,
        params: &Vec<TypeParam>,
        depth: AtomId,
    ) -> (r: AcornValue) {
        match self.definitions.definition(module, name) {
            Some(d) => d.specialize(params).insert_stack(0, depth),
            None => AcornValue::Specialized(module, name.clone(), t.clone(), duplicate_all(params)),
        }
    }

    fn edit_types(&self, ts: &Vec<AcornType>) -> (r: Vec<AcornType>) {
        duplicate_all(ts)
    }
}

/// Puts in what type parameters stand for: the model.
pub struct SpecializeV {
    pub params: Seq<(Seq<char>, TypeV)>,
}

impl EditModel for SpecializeV {
    open spec fn on_variable(self, i: AtomId, t: TypeV, depth: AtomId) -> ValueV {
        ValueV::Variable(i, specialized(t, self.params))
    }

    open spec fn on_constant(
        self,
        module: ModuleId,
        name: Seq<char>,
        t: TypeV,
        params: Seq<Seq<char>>,
        depth: AtomId,
    ) -> ValueV {
        ValueV::Constant(module, name, specialized(t, self.params), params)
    }

    open spec fn on_specialized(
        self,
        module: ModuleId,
        name: Seq<char>,
        t: TypeV,
        params: Seq<(Seq<char>, TypeV)>,
        depth: AtomId,
    ) -> ValueV {
        ValueV::Specialized(
            module,
            name,
            t,
            Seq::new(params.len(), |i: int| (params[i].0, specialized(params[i].1, self.params))),
        )
    }

    open spec fn on_types(self, ts: Seq<TypeV>) -> Seq<TypeV> {
        Seq::new(ts.len(), |i: int| specialized(ts[i], self.params))
    }
}

struct Specialize<'a> {
    params: &'a Vec<TypeParam>,
}

impl<'a> Edit for Specialize<'a> {
    type M = SpecializeV;

    closed spec fn model(&self) -> SpecializeV {
        SpecializeV { params: views(self.params@) }
    }

    fn edit_variable(&self, i: AtomId, t: &AcornType, depth: AtomId) -> (r: AcornValue) {
        AcornValue::Variable(i, t.specialize(self.params))
    }

    fn edit_constant(
        &self,
        module: ModuleId,
        name: &String,
        t: &AcornType,
        params: &Vec<String>,
        depth: AtomId,
    ) -> (r: AcornValue) {
        AcornValue::Constant(module, name.clone(), t.specialize(self.params), duplicate_all(params))
    }

    fn edit_specialized(
        &self,
        module: ModuleId,
        name: &String,
        t: &AcornType,
        params: &Vec<TypeParam>,
        depth: AtomId,
    ) -> (r: AcornValue) {
        let mut out: Vec<TypeParam> = Vec::new();
        let mut i: usize = 0;
        while i < params.len()
            invariant
                i <= params.len(),
                out.len() == i,
                forall|k: int|
                    0 <= k < i ==> (#[trigger] out@[k]).0@ == params@[k].0@ && out@[k].1@
                        == specialized(params@[k].1@, views(self.params@)),
            decreases params.len() - i,
        {
            let p = &params[i];
            out.push((p.0.clone(), p.1.specialize(self.params)));
            i = i + 1;
        }
        proof {
            let ps = views(params@);
            assert(views(out@) =~= Seq::new(
                ps.len(),
                |i: int| (ps[i].0, specialized(ps[i].1, views(self.params@))),
            ));
        }
        AcornValue::Specialized(module, name.clone(), t.clone(), out)
    }

    fn edit_types(&self, ts: &Vec<AcornType>) -> (r: Vec<AcornType>) {
        let mut out: Vec<AcornType> = Vec::new();
        let mut i: usize = 0;
        while i < ts.len()
            invariant
                i <= ts.len(),
                out.len() == i,
                forall|k: int|
                    0 <= k < i ==> (#[trigger] out@[k])@ == specialized(
                        ts@[k]@,
                        views(self.params@),
                    ),
            decreases ts.len() - i,
        {
            out.push(ts[i].specialize(self.params));
            i = i + 1;
        }
        proof {
            let tv = views(ts@);
            assert(views(out@) =~= Seq::new(
                tv.len(),
                |i: int| specialized(tv[i], views(self.params@)),
            ));
        }
        out
    }
}

/// A value with what its type parameters stand for put in.
pub open spec fn specialized_value(v: ValueV, params: Seq<(Seq<char>, TypeV)>) -> ValueV {
    edited(v, 0, SpecializeV { params })
}

fn duplicate_values(vs: &Vec<AcornValue>) -> (r: Vec<AcornValue>)
    ensures
        views(r@) == views(vs@),
    decreases vs,
{
    let mut out: Vec<AcornValue> = Vec::new();
    let mut i: usize = 0;
    while i < vs.len()
        invariant
            i <= vs.len(),
            out.len() == i,
            forall|k: int| 0 <= k < i ==> (#[trigger] out@[k])@ == vs@[k]@,
        decreases vs.len() - i,
    {
        assert(decreases_to!(vs => vs@[i as int]));
        out.push(copy_value(&vs[i]));
        i = i + 1;
    }
    assert(views(out@) =~= views(vs@));
    out
}

fn copy_value(v: &AcornValue) -> (r: AcornValue)
    ensures
        r@ == v@,
    decreases v,
{
    broadcast use lemma_application_view;
    match v {
        AcornValue::Variable(i, t) => AcornValue::Variable(*i, t.clone()),
        AcornValue::Constant(m, n, t, ps) => AcornValue::Constant(
            *m,
            n.clone(),
            t.clone(),
            duplicate_all(ps),
        ),
        AcornValue::Specialized(m, n, t, ps) => AcornValue::Specialized(
            *m,
            n.clone(),
            t.clone(),
            duplicate_all(ps),
        ),
        AcornValue::Application(a) => {
            let function = Box::new(copy_value(&a.function));
            let args = duplicate_values(&a.args);
            AcornValue::Application(FunctionApplication { function, args })
        },
        AcornValue::Lambda(ts, b) => AcornValue::Lambda(duplicate_all(ts), Box::new(copy_value(b))),
        AcornValue::ForAll(ts, b) => AcornValue::ForAll(duplicate_all(ts), Box::new(copy_value(b))),
        AcornValue::Exists(ts, b) => AcornValue::Exists(duplicate_all(ts), Box::new(copy_value(b))),
        AcornValue::Binary(op, l, r) => AcornValue::Binary(
            *op,
            Box::new(copy_value(l)),
            Box::new(copy_value(r)),
        ),
        AcornValue::Not(x) => AcornValue::Not(Box::new(copy_value(x))),
        AcornValue::Bool(b) => AcornValue::Bool(*b),
        AcornValue::IfThenElse(c, a, b) => AcornValue::IfThenElse(
            Box::new(copy_value(c)),
            Box::new(copy_value(a)),
            Box::new(copy_value(b)),
        ),
    }
}

/// Whether two lists have the same members, in the same order.
pub fn same_all<K: Key>(a: &Vec<K>, b: &Vec<K>) -> (r: bool)
    ensures
        r == (views(a@) == views(b@)),
{
    if a.len() != b.len() {
        assert(views(a@).len() != views(b@).len());
        return false;
    }
    let mut i: usize = 0;
    while i < a.len()
        invariant
            i <= a.len() == b.len(),
            forall|k: int| 0 <= k < i ==> (#[trigger] a@[k])@ == b@[k]@,
        decreases a.len() - i,
    {
        if !a[i].same(&b[i]) {
            assert(views(a@)[i as int] != views(b@)[i as int]);
            return false;
        }
        i = i + 1;
    }
    assert(views(a@) =~= views(b@));
    true
}

fn same_values(a: &Vec<AcornValue>, b: &Vec<AcornValue>) -> (r: bool)
    ensures
        r == (views(a@) == views(b@)),
    decreases a,
{
    if a.len() != b.len() {
        assert(views(a@).len() != views(b@).len());
        return false;
    }
    let mut i: usize = 0;
    while i < a.len()
        invariant
            i <= a.len() == b.len(),
            forall|k: int| 0 <= k < i ==> (#[trigger] a@[k])@ == b@[k]@,
        decreases a.len() - i,
    {
        assert(decreases_to!(a => a@[i as int]));
        if !same_value(&a[i], &b[i]) {
            assert(views(a@)[i as int] != views(b@)[i as int]);
            return false;
        }
        i = i + 1;
    }
    assert(views(a@) =~= views(b@));
    true
}

fn same_value(a: &AcornValue, b: &AcornValue) -> (r: bool)
    ensures
        r == (a@ == b@),
    decreases a,
{
    broadcast use lemma_application_view;
    match (a, b) {
        (AcornValue::Variable(i, t), AcornValue::Variable(i2, t2)) => *i == *i2 && t.same(t2),
        (AcornValue::Constant(m, n, t, ps), AcornValue::Constant(m2, n2, t2, ps2)) => *m == *m2
            && *n == *n2 && t.same(t2) && same_all(ps, ps2),
        (AcornValue::Specialized(m, n, t, ps), AcornValue::Specialized(m2, n2, t2, ps2)) => *m
            == *m2 && *n == *n2 && t.same(t2) && same_all(ps, ps2),
        (AcornValue::Application(x), AcornValue::Application(y)) => same_value(
            &x.function,
            &y.function,
        ) && same_values(&x.args, &y.args),
        (AcornValue::Lambda(ts, x), AcornValue::Lambda(us, y)) => same_all(ts, us) && same_value(
            x,
            y,
        ),
        (AcornValue::ForAll(ts, x), AcornValue::ForAll(us, y)) => same_all(ts, us) && same_value(
            x,
            y,
        ),
        (AcornValue::Exists(ts, x), AcornValue::Exists(us, y)) => same_all(ts, us) && same_value(
            x,
            y,
        ),
        (AcornValue::Binary(op, l, r), AcornValue::Binary(op2, l2, r2)) => *op == *op2
            && same_value(l, l2) && same_value(r, r2),
        (AcornValue::Not(x), AcornValue::Not(y)) => same_value(x, y),
        (AcornValue::Bool(x), AcornValue::Bool(y)) => *x == *y,
        (AcornValue::IfThenElse(c, x, y), AcornValue::IfThenElse(c2, x2, y2)) => same_value(c, c2)
            && same_value(x, x2) && same_value(y, y2),
        _ => false,
    }
}

impl Clone for AcornValue {
    fn clone(&self) -> (r: Self)
        ensures
            r@ == self@,
    {
        copy_value(self)
    }
}

impl Duplicate for AcornValue {
    fn duplicate(&self) -> (r: Self) {
        copy_value(self)
    }
}

impl Key for AcornValue {
    fn same(&self, other: &Self) -> (r: bool) {
        same_value(self, other)
    }
}

impl AcornValue {
    /// The type of the value.
    pub fn get_type(&self) -> (r: AcornType)
        ensures
            r@ == value_type(self@),
        decreases self,
    {
        broadcast use lemma_application_view, crate::acorn_type::lemma_function_view;
        match self {
            AcornValue::Variable(_, t) => t.clone(),
            AcornValue::Constant(_, _, t, _) => t.clone(),
            AcornValue::Specialized(_, _, t, params) => t.specialize(params),
            AcornValue::Application(a) => match a.function.get_type() {
                AcornType::Function(f) => f.applied_type(a.args.len()),
                _ => AcornType::Empty,
            },
            AcornValue::Lambda(ts, b) => AcornType::new_functional(duplicate_all(ts), b.get_type()),
            AcornValue::IfThenElse(_, a, _) => a.get_type(),
            _ => AcornType::Bool,
        }
    }

    /// Applies a function to arguments, where there are any.
    pub fn new_apply(function: AcornValue, args: Vec<AcornValue>) -> (r: AcornValue)
        ensures
            r@ == apply(function@, views(args@)),
    {
        broadcast use lemma_application_view;
        if args.len() == 0 {
            function
        } else {
            AcornValue::Application(FunctionApplication { function: Box::new(function), args })
        }
    }

    /// A function of arguments, where there are any.
    pub fn new_lambda(args: Vec<AcornType>, value: AcornValue) -> (r: AcornValue)
        ensures
            r@ == lambda(views(args@), value@),
    {
        if args.len() == 0 {
            value
        } else {
            AcornValue::Lambda(args, Box::new(value))
        }
    }

    /// A claim for all variables of some types, where there are any.
    pub fn new_forall(args: Vec<AcornType>, value: AcornValue) -> (r: AcornValue)
        ensures
            r@ == forall_of(views(args@), value@),
    {
        if args.len() == 0 {
            value
        } else {
            AcornValue::ForAll(args, Box::new(value))
        }
    }

    /// A claim that there are variables of some types, where there are any.
    pub fn new_exists(args: Vec<AcornType>, value: AcornValue) -> (r: AcornValue)
        ensures
            r@ == exists_of(views(args@), value@),
    {
        if args.len() == 0 {
            value
        } else {
            AcornValue::Exists(args, Box::new(value))
        }
    }

    /// A constant, with what its type parameters stand for where it has any.
    pub fn new_specialized(
        module: ModuleId,
        name: String,
        constant_type: AcornType,
        params: Vec<TypeParam>,
    ) -> (r: AcornValue)
        ensures
            r@ == constant_of(module, name@, constant_type@, views(params@)),
    {
        if params.len() == 0 {
            let none: Vec<String> = Vec::new();
            assert(views(none@) =~= Seq::<Seq<char>>::empty());
            AcornValue::Constant(module, name, constant_type, none)
        } else {
            AcornValue::Specialized(module, name, constant_type, params)
        }
    }

    /// The negation of the value.
    pub fn negate(self) -> (r: AcornValue)
        ensures
            r@ == negated(self@),
    {
        broadcast use lemma_application_view;
        match self {
            AcornValue::Bool(b) => AcornValue::Bool(!b),
            AcornValue::Not(x) => *x,
            AcornValue::Binary(BinaryOp::Equals, l, r) => AcornValue::Binary(
                BinaryOp::NotEquals,
                l,
                r,
            ),
            AcornValue::Binary(BinaryOp::NotEquals, l, r) => AcornValue::Binary(
                BinaryOp::Equals,
                l,
                r,
            ),
            v => AcornValue::Not(Box::new(v)),
        }
    }

    /// Makes room on the stack: variables from `index` on move up by `increment`.
    pub fn insert_stack(&self, index: AtomId, increment: AtomId) -> (r: AcornValue)
        ensures
            r@ == shifted(self@, index, increment),
    {
        edit(self, 0, &Shift { index, increment })
    }

    /// Replaces the variables from `first` on by values. The value stands on a stack of the size
    /// `stack_size` afterwards; the values stand on one of the size `first`.
    pub fn bind_values(
        &self,
        first: AtomId,
        stack_size: AtomId,
        values: &Vec<AcornValue>,
    ) -> (r: AcornValue)
        ensures
            r@ == bound(self@, first, stack_size, views(values@)),
    {
        edit(self, stack_size, &Bind { first, values })
    }

    /// Replaces constants of a module by variables.
    pub fn replace_constants_with_vars(
        &self,
        module: ModuleId,
        vars: &Table<String, AtomId>,
    ) -> (r: AcornValue)
        ensures
            r@ == constants_to_vars(self@, module, vars@),
    {
        edit(self, 0, &ToVars { module, vars })
    }

    /// Turns data types of a module into type parameters.
    pub fn parametrize(&self, module: ModuleId, names: &Vec<String>) -> (r: AcornValue)
        ensures
            r@ == parametrized_value(self@, module, views(names@)),
    {
        edit(self, 0, &Parametrize { module, names })
    }

    /// Puts in what type parameters stand for.
    pub fn specialize(&self, params: &Vec<TypeParam>) -> (r: AcornValue)
        ensures
            r@ == specialized_value(self@, views(params@)),
    {
        edit(self, 0, &Specialize { params })
    }

    /// Replaces constants by their definitions.
    pub fn replace_constants_with_values<D: Definitions>(
        &self,
        stack_size: AtomId,
        definitions: &D,
    ) -> (r: AcornValue)
        ensures
            r@ == edited(self@, stack_size, (DefineV { definitions: definitions.defined() })),
    {
        edit(self, stack_size, &Define { definitions })
    }
}

/// How an operator is written.
pub open spec fn op_text(op: BinaryOp) -> Seq<char> {
    match op {
        BinaryOp::Implies => "->"@,
        BinaryOp::Equals => "="@,
        BinaryOp::NotEquals => "!="@,
        BinaryOp::And => "and"@,
        BinaryOp::Or => "or"@,
    }
}

/// Writes an operator.
pub fn write_op(op: BinaryOp) -> (r: &'static str)
    ensures
        r@ == op_text(op),
{
    match op {
        BinaryOp::Implies => "->",
        BinaryOp::Equals => "=",
        BinaryOp::NotEquals => "!=",
        BinaryOp::And => "and",
        BinaryOp::Or => "or",
    }
}

/// The declarations of bound variables, numbered from a depth on.
pub open spec fn decls_text(ts: Seq<TypeV>, depth: AtomId) -> Seq<Seq<char>> {
    Seq::new(
        ts.len(),
        |i: int| "x"@ + decimal_text(deeper(depth, i as nat) as nat) + ": "@ + type_text(ts[i]),
    )
}

/// How a binder is written.
pub open spec fn binder_text(
    word: Seq<char>,
    ts: Seq<TypeV>,
    depth: AtomId,
    body: Seq<char>,
) -> Seq<char> {
    word + "("@ + joined(decls_text(ts, depth), ", "@) + ") { "@ + body + " }"@
}

/// How a value is written at a depth: variables by number, operators in parentheses.
pub open spec fn value_text(v: ValueV, depth: AtomId) -> Seq<char>
    decreases v,
{
    match v {
        ValueV::Variable(i, _) => "x"@ + decimal_text(i as nat),
        ValueV::Constant(_, name, _, _) => name,
        ValueV::Specialized(_, name, _, _) => name,
        ValueV::Application(f, args) => value_text(*f, depth) + "("@ + joined(
            value_texts(args, depth),
            ", "@,
        ) + ")"@,
        ValueV::Lambda(ts, b) => binder_text(
            "function"@,
            ts,
            depth,
            value_text(*b, deeper(depth, ts.len())),
        ),
        ValueV::ForAll(ts, b) => binder_text(
            "forall"@,
            ts,
            depth,
            value_text(*b, deeper(depth, ts.len())),
        ),
        ValueV::Exists(ts, b) => binder_text(
            "exists"@,
            ts,
            depth,
            value_text(*b, deeper(depth, ts.len())),
        ),
        ValueV::Binary(op, l, r) => "("@ + value_text(*l, depth) + " "@ + op_text(op) + " "@
            + value_text(*r, depth) + ")"@,
        ValueV::Not(x) => "not "@ + value_text(*x, depth),
        ValueV::Bool(b) => if b { "true"@ } else { "false"@ },
        ValueV::IfThenElse(c, a, b) => "if "@ + value_text(*c, depth) + " { "@ + value_text(
            *a,
            depth,
        ) + " } else { "@ + value_text(*b, depth) + " }"@,
    }
}

/// How each of some values is written.
pub open spec fn value_texts(vs: Seq<ValueV>, depth: AtomId) -> Seq<Seq<char>>
    decreases vs,
{
    Seq::new(
        vs.len(),
        |i: int|
            if 0 <= i < vs.len() {
                value_text(vs[i], depth)
            } else {
                Seq::empty()
            },
    )
}

fn write_binder(word: &str, ts: &Vec<AcornType>, depth: AtomId, body: &str) -> (r: String)
    ensures
        r@ == binder_text(word@, views(ts@), depth, body@),
{
    let mut decls: Vec<String> = Vec::new();
    let mut i: usize = 0;
    while i < ts.len()
        invariant
            i <= ts.len(),
            decls.len() == i,
            forall|k: int|
                0 <= k < i ==> (#[trigger] decls@[k])@ == decls_text(views(ts@), depth)[k],
        decreases ts.len() - i,
    {
        let mut d = "x".to_owned();
        d.append(decimal(depth.wrapping_add(i as u16) as u64).as_str());
        d.append(": ");
        d.append(ts[i].to_text().as_str());
        decls.push(d);
        i = i + 1;
    }
    assert(views(decls@) =~= decls_text(views(ts@), depth));
    let mut out = word.to_owned();
    out.append("(");
    out.append(join(&decls, ", ").as_str());
    out.append(") { ");
    out.append(body);
    out.append(" }");
    out
}

fn write_values(vs: &Vec<AcornValue>, depth: AtomId) -> (r: Vec<String>)
    ensures
        views(r@) == value_texts(views(vs@), depth),
    decreases vs,
{
    let mut out: Vec<String> = Vec::new();
    let mut i: usize = 0;
    while i < vs.len()
        invariant
            i <= vs.len(),
            out.len() == i,
            forall|k: int| 0 <= k < i ==> (#[trigger] out@[k])@ == value_text(vs@[k]@, depth),
        decreases vs.len() - i,
    {
        assert(decreases_to!(vs => vs@[i as int]));
        out.push(write_value(&vs[i], depth));
        i = i + 1;
    }
    assert(views(out@) =~= value_texts(views(vs@), depth));
    out
}

fn write_value(v: &AcornValue, depth: AtomId) -> (r: String)
    ensures
        r@ == value_text(v@, depth),
    decreases v,
{
    broadcast use lemma_application_view;
    match v {
        AcornValue::Variable(i, _) => {
            let mut out = "x".to_owned();
            out.append(decimal(*i as u64).as_str());
            out
        },
        AcornValue::Constant(_, name, _, _) => name.clone(),
        AcornValue::Specialized(_, name, _, _) => name.clone(),
        AcornValue::Application(a) => {
            let mut out = write_value(&a.function, depth);
            out.append("(");
            out.append(join(&write_values(&a.args, depth), ", ").as_str());
            out.append(")");
            out
        },
        AcornValue::Lambda(ts, b) => {
            let body = write_value(b, go_deeper(depth, ts));
            write_binder("function", ts, depth, body.as_str())
        },
        AcornValue::ForAll(ts, b) => {
            let body = write_value(b, go_deeper(depth, ts));
            write_binder("forall", ts, depth, body.as_str())
        },
        AcornValue::Exists(ts, b) => {
            let body = write_value(b, go_deeper(depth, ts));
            write_binder("exists", ts, depth, body.as_str())
        },
        AcornValue::Binary(op, l, r) => {
            let mut out = "(".to_owned();
            out.append(write_value(l, depth).as_str());
            out.append(" ");
            out.append(write_op(*op));
            out.append(" ");
            out.append(write_value(r, depth).as_str());
            out.append(")");
            out
        },
        AcornValue::Not(x) => {
            let mut out = "not ".to_owned();
            out.append(write_value(x, depth).as_str());
            out
        },
        AcornValue::Bool(b) => if *b {
            "true".to_owned()
        } else {
            "false".to_owned()
        },
        AcornValue::IfThenElse(c, a, b) => {
            let mut out = "if ".to_owned();
            out.append(write_value(c, depth).as_str());
            out.append(" { ");
            out.append(write_value(a, depth).as_str());
            out.append(" } else { ");
            out.append(write_value(b, depth).as_str());
            out.append(" }");
            out
        },
    }
}

impl AcornValue {
    /// Writes the value.
    pub fn to_text(&self) -> (r: String)
        ensures
            r@ == value_text(self@, 0),
    {
        write_value(self, 0)
    }
}

} // verus!
