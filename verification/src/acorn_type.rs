//! Types of values.

use vstd::prelude::*;

use crate::table::{Duplicate, Key, Table};
use crate::text::{join, joined, views};

verus! {

/// The number of a module.
pub type ModuleId = u16;

/// The number of a variable: its depth on the stack.
pub type AtomId = u16;

/// The module of the constants that the normalizer makes up.
pub const SKOLEM: ModuleId = 0;

/// The first number that a module of source text can have.
pub const FIRST_NORMAL: ModuleId = 1;

/// The type of a function, with all its arguments at once.
#[derive(Debug, PartialEq, Eq)]
pub struct FunctionType {
    pub arg_types: Vec<AcornType>,
    pub return_type: Box<AcornType>,
}

/// The type of a value.
#[derive(Debug, PartialEq, Eq)]
pub enum AcornType {
    /// The type that no value has.
    Empty,
    /// The type of propositions.
    Bool,
    /// A data type: the module that defines it and its name there.
    Data(ModuleId, String),
    /// A type parameter, by its name.
    Parameter(String),
    /// Functions.
    Function(FunctionType),
}

/// The model of a type.
#[verifier::ext_equal]
pub enum TypeV {
    Empty,
    Bool,
    Data(ModuleId, Seq<char>),
    Parameter(Seq<char>),
    Function(Seq<TypeV>, Box<TypeV>),
}

/// The model of a type, made from its parts.
pub open spec fn type_view(t: AcornType) -> TypeV
    decreases t,
{
    match t {
        AcornType::Empty => TypeV::Empty,
        AcornType::Bool => TypeV::Bool,
        AcornType::Data(m, n) => TypeV::Data(m, n@),
        AcornType::Parameter(n) => TypeV::Parameter(n@),
        AcornType::Function(f) => TypeV::Function(
            types_view(f.arg_types@),
            Box::new(type_view(*f.return_type)),
        ),
    }
}

/// The models of a list of types.
pub open spec fn types_view(s: Seq<AcornType>) -> Seq<TypeV>
    decreases s,
{
    Seq::new(
        s.len(),
        |i: int|
            if 0 <= i < s.len() {
                type_view(s[i])
            } else {
                TypeV::Empty
            },
    )
}

impl View for AcornType {
    type V = TypeV;

    open spec fn view(&self) -> TypeV {
        type_view(*self)
    }
}

/// The model of a function's type holds the views of the argument types.
pub broadcast proof fn lemma_function_view(f: FunctionType)
    ensures
        #[trigger] type_view(AcornType::Function(f)) == TypeV::Function(
            views(f.arg_types@),
            Box::new(type_view(*f.return_type)),
        ),
{
    assert(types_view(f.arg_types@) =~= views(f.arg_types@));
}

/// The type of a function from `args` to `ret`. Functions are not curried: where `ret` is a
/// function itself, its arguments follow the others.
pub open spec fn functional(args: Seq<TypeV>, ret: TypeV) -> TypeV {
    if args.len() == 0 {
        ret
    } else {
        match ret {
            TypeV::Function(more, last) => TypeV::Function(args + more, last),
            _ => TypeV::Function(args, Box::new(ret)),
        }
    }
}

/// What is left of a function's type after `n` arguments.
pub open spec fn applied_type(args: Seq<TypeV>, ret: TypeV, n: int) -> TypeV {
    if n >= args.len() {
        ret
    } else {
        TypeV::Function(args.skip(n), Box::new(ret))
    }
}

/// Matches a type that may hold parameters with one that has none: what the parameters stand
/// for, where `m` says what some of them stand for already.
pub open spec fn matched(t: TypeV, s: TypeV, m: Map<Seq<char>, TypeV>) -> Option<
    Map<Seq<char>, TypeV>,
>
    decreases t, 0nat,
{
    match t {
        TypeV::Parameter(name) => if m.dom().contains(name) {
            if m[name] == s {
                Some(m)
            } else {
                None
            }
        } else {
            Some(m.insert(name, s))
        },
        TypeV::Function(args, ret) => match s {
            TypeV::Function(args2, ret2) => if args.len() != args2.len() {
                None
            } else {
                match matched(*ret, *ret2, m) {
                    None => None,
                    Some(m2) => matched_all(args, args2, m2, args.len()),
                }
            },
            _ => None,
        },
        _ => if t == s {
            Some(m)
        } else {
            None
        },
    }
}

/// Matches the first `n` types of two lists, one after the other.
pub open spec fn matched_all(
    ts: Seq<TypeV>,
    ss: Seq<TypeV>,
    m: Map<Seq<char>, TypeV>,
    n: nat,
) -> Option<Map<Seq<char>, TypeV>>
    decreases ts, n,
{
    if n == 0 || n > ts.len() {
        Some(m)
    } else {
        match matched_all(ts, ss, m, (n - 1) as nat) {
            None => None,
            Some(m2) => matched(ts[n - 1], ss[n - 1], m2),
        }
    }
}

/// What a parameter stands for: the first that has its name.
pub open spec fn find_param(params: Seq<(Seq<char>, TypeV)>, name: Seq<char>) -> Option<TypeV>
    decreases params.len(),
{
    if params.len() == 0 {
        None
    } else if params[0].0 == name {
        Some(params[0].1)
    } else {
        find_param(params.skip(1), name)
    }
}

/// A type with what its parameters stand for put in.
pub open spec fn specialized(t: TypeV, params: Seq<(Seq<char>, TypeV)>) -> TypeV
    decreases t,
{
    match t {
        TypeV::Parameter(name) => match find_param(params, name) {
            Some(s) => s,
            None => t,
        },
        TypeV::Function(args, ret) => functional(
            specialized_all(args, params),
            specialized(*ret, params),
        ),
        _ => t,
    }
}

/// A type with the module's data types of the given names turned into parameters.
pub open spec fn parametrized(t: TypeV, module: ModuleId, names: Seq<Seq<char>>) -> TypeV
    decreases t,
{
    match t {
        TypeV::Data(m, name) => if m == module && names.contains(name) {
            TypeV::Parameter(name)
        } else {
            t
        },
        TypeV::Function(args, ret) => TypeV::Function(
            parametrized_all(args, module, names),
            Box::new(parametrized(*ret, module, names)),
        ),
        _ => t,
    }
}

/// Each of a list of types, parametrized.
pub open spec fn parametrized_all(ts: Seq<TypeV>, module: ModuleId, names: Seq<Seq<char>>) -> Seq<
    TypeV,
>
    decreases ts,
{
    Seq::new(
        ts.len(),
        |i: int|
            if 0 <= i < ts.len() {
                parametrized(ts[i], module, names)
            } else {
                TypeV::Empty
            },
    )
}

/// Each of a list of types, specialized.
pub open spec fn specialized_all(ts: Seq<TypeV>, params: Seq<(Seq<char>, TypeV)>) -> Seq<TypeV>
    decreases ts,
{
    Seq::new(
        ts.len(),
        |i: int|
            if 0 <= i < ts.len() {
                specialized(ts[i], params)
            } else {
                TypeV::Empty
            },
    )
}

/// Whether a type mentions a data type.
pub open spec fn refers(t: TypeV, module: ModuleId, name: Seq<char>) -> bool
    decreases t,
{
    match t {
        TypeV::Data(m, n) => m == module && n == name,
        TypeV::Function(args, ret) => refers(*ret, module, name) || any_refer(args, module, name),
        _ => false,
    }
}

/// Whether one of some types mentions a data type.
pub open spec fn any_refer(ts: Seq<TypeV>, module: ModuleId, name: Seq<char>) -> bool
    decreases ts,
{
    exists|i: int| 0 <= i < ts.len() && refers(#[trigger] ts[i], module, name)
}

/// How a type is written.
pub open spec fn type_text(t: TypeV) -> Seq<char>
    decreases t,
{
    match t {
        TypeV::Empty => "empty"@,
        TypeV::Bool => "Bool"@,
        TypeV::Data(_, name) => name,
        TypeV::Parameter(name) => name,
        TypeV::Function(args, ret) => {
            let inner = joined(type_texts(args), ", "@);
            (if args.len() == 1 {
                inner
            } else {
                "("@ + inner + ")"@
            }) + " -> "@ + type_text(*ret)
        },
    }
}

/// How each of some types is written.
pub open spec fn type_texts(ts: Seq<TypeV>) -> Seq<Seq<char>>
    decreases ts,
{
    Seq::new(
        ts.len(),
        |i: int|
            if 0 <= i < ts.len() {
                type_text(ts[i])
            } else {
                Seq::empty()
            },
    )
}

/// A parameter and what it stands for.
pub type TypeParam = (String, AcornType);

fn duplicate_types(v: &Vec<AcornType>) -> (r: Vec<AcornType>)
    ensures
        views(r@) == views(v@),
        r.len() == v.len(),
    decreases v,
{
    let mut out: Vec<AcornType> = Vec::new();
    let mut i: usize = 0;
    while i < v.len()
        invariant
            i <= v.len(),
            out.len() == i,
            forall|k: int| 0 <= k < i ==> (#[trigger] out@[k])@ == v@[k]@,
        decreases v.len() - i,
    {
        assert(decreases_to!(v => v@[i as int]));
        out.push(copy_type(&v[i]));
        i = i + 1;
    }
    assert(views(out@) =~= views(v@));
    out
}

fn copy_type(t: &AcornType) -> (r: AcornType)
    ensures
        r@ == t@,
    decreases t,
{
    broadcast use lemma_function_view;
    match t {
        AcornType::Empty => AcornType::Empty,
        AcornType::Bool => AcornType::Bool,
        AcornType::Data(m, n) => AcornType::Data(*m, n.clone()),
        AcornType::Parameter(n) => AcornType::Parameter(n.clone()),
        AcornType::Function(f) => {
            let arg_types = duplicate_types(&f.arg_types);
            let return_type = Box::new(copy_type(&f.return_type));
            AcornType::Function(FunctionType { arg_types, return_type })
        },
    }
}

fn same_types(a: &Vec<AcornType>, b: &Vec<AcornType>) -> (r: bool)
    ensures
        r == (views(a@) == views(b@)),
    decreases a,
{
    if a.len() != b.len() {
        assert(views(a@).len() != views(b@).len());
        return false;
    }
    let mut i: usize = 0;
    while i < a.len()
        invariant
            i <= a.len() == b.len(),
            forall|k: int| 0 <= k < i ==> (#[trigger] a@[k])@ == b@[k]@,
        decreases a.len() - i,
    {
        assert(decreases_to!(a => a@[i as int]));
        if !same_type(&a[i], &b[i]) {
            assert(views(a@)[i as int] != views(b@)[i as int]);
            return false;
        }
        i = i + 1;
    }
    assert(views(a@) =~= views(b@));
    true
}

fn same_type(a: &AcornType, b: &AcornType) -> (r: bool)
    ensures
        r == (a@ == b@),
    decreases a,
{
    broadcast use lemma_function_view;
    match (a, b) {
        (AcornType::Empty, AcornType::Empty) => true,
        (AcornType::Bool, AcornType::Bool) => true,
        (AcornType::Data(m, n), AcornType::Data(m2, n2)) => *m == *m2 && *n == *n2,
        (AcornType::Parameter(n), AcornType::Parameter(n2)) => *n == *n2,
        (AcornType::Function(f), AcornType::Function(g)) => {
            same_types(&f.arg_types, &g.arg_types) && same_type(&f.return_type, &g.return_type)
        },
        _ => false,
    }
}

impl Clone for AcornType {
    fn clone(&self) -> (r: Self)
        ensures
            r@ == self@,
    {
        copy_type(self)
    }
}

impl Duplicate for AcornType {
    fn duplicate(&self) -> (r: Self) {
        copy_type(self)
    }
}

impl Key for AcornType {
    fn same(&self, other: &Self) -> (r: bool) {
        same_type(self, other)
    }
}

fn match_all(ts: &Vec<AcornType>, ss: &Vec<AcornType>, mapping: &mut Table<String, AcornType>) -> (r:
    bool)
    requires
        ts.len() == ss.len(),
    ensures
        match matched_all(views(ts@), views(ss@), old(mapping)@, ts@.len()) {
            Some(m) => r && final(mapping)@ == m,
            None => !r,
        },
    decreases ts,
{
    let mut i: usize = 0;
    while i < ts.len()
        invariant
            i <= ts.len() == ss.len(),
            matched_all(views(ts@), views(ss@), old(mapping)@, i as nat) == Some(mapping@),
        decreases ts.len() - i,
    {
        assert(decreases_to!(ts => ts@[i as int]));
        let ok = match_type(&ts[i], &ss[i], mapping);
        if !ok {
            proof {
                lemma_matched_none(
                    views(ts@),
                    views(ss@),
                    old(mapping)@,
                    (i + 1) as nat,
                    ts@.len(),
                );
            }
            return false;
        }
        i = i + 1;
    }
    true
}

/// Where some types do not match, longer lists do not either.
proof fn lemma_matched_none(
    ts: Seq<TypeV>,
    ss: Seq<TypeV>,
    m: Map<Seq<char>, TypeV>,
    i: nat,
    n: nat,
)
    requires
        i <= n <= ts.len(),
        matched_all(ts, ss, m, i) is None,
    ensures
        matched_all(ts, ss, m, n) is None,
    decreases n,
{
    if i < n {
        lemma_matched_none(ts, ss, m, i, (n - 1) as nat);
    }
}

fn match_type(t: &AcornType, s: &AcornType, mapping: &mut Table<String, AcornType>) -> (r: bool)
    ensures
        match matched(t@, s@, old(mapping)@) {
            Some(m) => r && final(mapping)@ == m,
            None => !r,
        },
    decreases t,
{
    broadcast use lemma_function_view;
    match t {
        AcornType::Parameter(name) => {
            match mapping.get(name) {
                Some(u) => {
                    return same_type(u, s);
                },
                None => {},
            }
            mapping.insert(name.clone(), copy_type(s));
            true
        },
        AcornType::Function(f) => match s {
            AcornType::Function(g) => {
                if f.arg_types.len() != g.arg_types.len() {
                    return false;
                }
                if !match_type(&f.return_type, &g.return_type, mapping) {
                    return false;
                }
                match_all(&f.arg_types, &g.arg_types, mapping)
            },
            _ => false,
        },
        _ => same_type(t, s),
    }
}

fn lookup_param(params: &Vec<TypeParam>, name: &String) -> (r: Option<AcornType>)
    ensures
        match r {
            Some(t) => find_param(views(params@), name@) == Some(t@),
            None => find_param(views(params@), name@) is None,
        },
{
    let mut i: usize = 0;
    assert(views(params@).skip(0) =~= views(params@));
    while i < params.len()
        invariant
            i <= params.len(),
            find_param(views(params@), name@) == find_param(views(params@).skip(i as int), name@),
        decreases params.len() - i,
    {
        assert(views(params@).skip(i as int).skip(1) =~= views(params@).skip(i + 1));
        if params[i].0 == *name {
            return Some(copy_type(&params[i].1));
        }
        i = i + 1;
    }
    None
}

fn specialize_list(ts: &Vec<AcornType>, params: &Vec<TypeParam>) -> (r: Vec<AcornType>)
    ensures
        views(r@) == specialized_all(views(ts@), views(params@)),
    decreases ts,
{
    let mut out: Vec<AcornType> = Vec::new();
    let mut i: usize = 0;
    while i < ts.len()
        invariant
            i <= ts.len(),
            out.len() == i,
            forall|k: int|
                0 <= k < i ==> (#[trigger] out@[k])@ == specialized(ts@[k]@, views(params@)),
        decreases ts.len() - i,
    {
        assert(decreases_to!(ts => ts@[i as int]));
        out.push(specialize_type(&ts[i], params));
        i = i + 1;
    }
    assert(views(out@) =~= specialized_all(views(ts@), views(params@)));
    out
}

fn specialize_type(t: &AcornType, params: &Vec<TypeParam>) -> (r: AcornType)
    ensures
        r@ == specialized(t@, views(params@)),
    decreases t,
{
    broadcast use lemma_function_view;
    match t {
        AcornType::Parameter(name) => match lookup_param(params, name) {
            Some(s) => s,
            None => copy_type(t),
        },
        AcornType::Function(f) => {
            let args = specialize_list(&f.arg_types, params);
            let ret = specialize_type(&f.return_type, params);
            AcornType::new_functional(args, ret)
        },
        _ => copy_type(t),
    }
}

fn parametrize_list(ts: &Vec<AcornType>, module: ModuleId, names: &Vec<String>) -> (r: Vec<AcornType>)
    ensures
        views(r@) == parametrized_all(views(ts@), module, views(names@)),
    decreases ts,
{
    let mut out: Vec<AcornType> = Vec::new();
    let mut i: usize = 0;
    while i < ts.len()
        invariant
            i <= ts.len(),
            out.len() == i,
            forall|k: int|
                0 <= k < i ==> (#[trigger] out@[k])@ == parametrized(
                    ts@[k]@,
                    module,
                    views(names@),
                ),
        decreases ts.len() - i,
    {
        assert(decreases_to!(ts => ts@[i as int]));
        out.push(parametrize_type(&ts[i], module, names));
        i = i + 1;
    }
    assert(views(out@) =~= parametrized_all(views(ts@), module, views(names@)));
    out
}

fn parametrize_type(t: &AcornType, module: ModuleId, names: &Vec<String>) -> (r: AcornType)
    ensures
        r@ == parametrized(t@, module, views(names@)),
    decreases t,
{
    broadcast use lemma_function_view;
    match t {
        AcornType::Data(m, name) => {
            if *m == module && crate::table::holds(names, name) {
                AcornType::Parameter(name.clone())
            } else {
                copy_type(t)
            }
        },
        AcornType::Function(f) => {
            let args = parametrize_list(&f.arg_types, module, names);
            let ret = parametrize_type(&f.return_type, module, names);
            AcornType::Function(FunctionType { arg_types: args, return_type: Box::new(ret) })
        },
        _ => copy_type(t),
    }
}

fn any_refers(ts: &Vec<AcornType>, module: ModuleId, name: &str) -> (r: bool)
    ensures
        r == any_refer(views(ts@), module, name@),
    decreases ts,
{
    let mut i: usize = 0;
    while i < ts.len()
        invariant
            i <= ts.len(),
            forall|k: int| 0 <= k < i ==> !refers(#[trigger] views(ts@)[k], module, name@),
        decreases ts.len() - i,
    {
        assert(decreases_to!(ts => ts@[i as int]));
        if type_refers(&ts[i], module, name) {
            assert(refers(views(ts@)[i as int], module, name@));
            return true;
        }
        i = i + 1;
    }
    false
}

fn type_refers(t: &AcornType, module: ModuleId, name: &str) -> (r: bool)
    ensures
        r == refers(t@, module, name@),
    decreases t,
{
    broadcast use lemma_function_view;
    match t {
        AcornType::Data(m, n) => *m == module && crate::text::same_text(n.as_str(), name),
        AcornType::Function(f) => type_refers(&f.return_type, module, name) || any_refers(
            &f.arg_types,
            module,
            name,
        ),
        _ => false,
    }
}

fn write_types(ts: &Vec<AcornType>) -> (r: Vec<String>)
    ensures
        r.len() == ts.len(),
        forall|k: int| 0 <= k < r.len() ==> (#[trigger] r@[k])@ == type_text(ts@[k]@),
    decreases ts,
{
    let mut out: Vec<String> = Vec::new();
    let mut i: usize = 0;
    while i < ts.len()
        invariant
            i <= ts.len(),
            out.len() == i,
            forall|k: int| 0 <= k < i ==> (#[trigger] out@[k])@ == type_text(ts@[k]@),
        decreases ts.len() - i,
    {
        assert(decreases_to!(ts => ts@[i as int]));
        out.push(write_type(&ts[i]));
        i = i + 1;
    }
    out
}

fn write_type(t: &AcornType) -> (r: String)
    ensures
        r@ == type_text(t@),
    decreases t,
{
    broadcast use lemma_function_view;
    match t {
        AcornType::Empty => "empty".to_owned(),
        AcornType::Bool => "Bool".to_owned(),
        AcornType::Data(_, n) => n.clone(),
        AcornType::Parameter(n) => n.clone(),
        AcornType::Function(f) => {
            let texts = write_types(&f.arg_types);
            assert(views(texts@) =~= type_texts(views(f.arg_types@)));
            let inner = join(&texts, ", ");
            let mut out = if f.arg_types.len() == 1 {
                inner
            } else {
                let mut s = "(".to_owned();
                s.append(inner.as_str());
                s.append(")");
                s
            };
            out.append(" -> ");
            out.append(write_type(&f.return_type).as_str());
            out
        },
    }
}

impl FunctionType {
    /// What is left of the type after some arguments.
    pub fn applied_type(&self, num_args: usize) -> (r: AcornType)
        ensures
            r@ == applied_type(views(self.arg_types@), (*self.return_type)@, num_args as int),
    {
        broadcast use lemma_function_view;
        if num_args >= self.arg_types.len() {
            return copy_type(&self.return_type);
        }
        let mut rest: Vec<AcornType> = Vec::new();
        let mut i: usize = num_args;
        while i < self.arg_types.len()
            invariant
                num_args <= i <= self.arg_types.len(),
                rest.len() == i - num_args,
                forall|k: int|
                    0 <= k < rest.len() ==> (#[trigger] rest@[k])@ == self.arg_types@[k
                        + num_args]@,
            decreases self.arg_types.len() - i,
        {
            rest.push(copy_type(&self.arg_types[i]));
            i = i + 1;
        }
        assert(views(rest@) =~= views(self.arg_types@).skip(num_args as int));
        AcornType::Function(
            FunctionType { arg_types: rest, return_type: Box::new(copy_type(&self.return_type)) },
        )
    }
}

impl AcornType {
    /// The type of a function with the given arguments and result, in non-curried form.
    pub fn new_functional(arg_types: Vec<AcornType>, return_type: AcornType) -> (r: AcornType)
        ensures
            r@ == functional(views(arg_types@), return_type@),
    {
        broadcast use lemma_function_view;
        if arg_types.len() == 0 {
            return return_type;
        }
        let ghost first = arg_types@;
        let mut all = arg_types;
        match return_type {
            AcornType::Function(f) => {
                let ghost more = f.arg_types@;
                let mut more_args = f.arg_types;
                all.append(&mut more_args);
                assert(views(first + more) =~= views(first) + views(more));
                AcornType::Function(FunctionType { arg_types: all, return_type: f.return_type })
            },
            t => AcornType::Function(FunctionType { arg_types: all, return_type: Box::new(t) }),
        }
    }

    /// Matches this type, which may hold parameters, with one that has none. What the parameters
    /// stand for goes into the mapping.
    pub fn match_specialized(
        &self,
        specialized: &AcornType,
        mapping: &mut Table<String, AcornType>,
    ) -> (r: bool)
        ensures
            match matched(self@, specialized@, old(mapping)@) {
                Some(m) => r && final(mapping)@ == m,
                None => !r,
            },
    {
        match_type(self, specialized, mapping)
    }

    /// Puts in what the parameters stand for.
    pub fn specialize(&self, params: &Vec<TypeParam>) -> (r: AcornType)
        ensures
            r@ == specialized(self@, views(params@)),
    {
        specialize_type(self, params)
    }

    /// Turns the module's data types of the given names into parameters.
    pub fn parametrize(&self, module: ModuleId, names: &Vec<String>) -> (r: AcornType)
        ensures
            r@ == parametrized(self@, module, views(names@)),
    {
        parametrize_type(self, module, names)
    }

    /// Turns the data types in each of a list of types into parameters.
    pub fn parametrize_all(ts: &Vec<AcornType>, module: ModuleId, names: &Vec<String>) -> (r: Vec<
        AcornType,
    >)
        ensures
            views(r@) == parametrized_all(views(ts@), module, views(names@)),
    {
        parametrize_list(ts, module, names)
    }

    /// Whether the type mentions a data type.
    pub fn refers_to(&self, module: ModuleId, name: &str) -> (r: bool)
        ensures
            r == refers(self@, module, name@),
    {
        type_refers(self, module, name)
    }

    /// Whether one of some types mentions a data type.
    pub fn any_refers_to(ts: &Vec<AcornType>, module: ModuleId, name: &str) -> (r: bool)
        ensures
            r == any_refer(views(ts@), module, name@),
    {
        any_refers(ts, module, name)
    }

    /// Writes the type.
    pub fn to_text(&self) -> (r: String)
        ensures
            r@ == type_text(self@),
    {
        write_type(self)
    }
}

} // verus!
