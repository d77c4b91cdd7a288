//! Nodes and blocks: how claims enter an environment, and how they leave a block.

use vstd::prelude::*;

use crate::acorn_type::{specialized, AcornType, AtomId, ModuleId, TypeParam, TypeV};
use crate::acorn_value::{
    apply, bound, constant_of, constants_to_vars, edited, exists_of, forall_of,
    parametrized_value, shifted, AcornValue, BinaryOp, DefineV, Definitions, ValueV,
};
use crate::binding_map::{opt_view, unknown_constants, BindingMap, BindingMapV};
use crate::compilation::{Error, ErrorV};
use crate::datatypes::{binary, new_binary, new_vars, vars};
use crate::environment::{
    lemma_block_view, lemma_env_view, lemma_node_view, Block, BlockV, EnvV, Environment, Goal,
    GoalV, Node, NodeV,
};
use crate::line_map::{LineMap, LineMapV, LineType};
use crate::project::{Project, ProjectV};
use crate::proposition::{Proposition, PropositionV};
use crate::source::no_range;
use crate::table::{holds, Key, Table};
use crate::text::views;
use crate::token::{empty_token, Position, Range, Token, TokenV};

verus! {

/// The definitions of theorems: what their names stand for.
pub open spec fn theorem_definitions(b: BindingMapV, p: ProjectV) -> spec_fn(
    ModuleId,
    Seq<char>,
) -> Option<ValueV> {
    |m: ModuleId, name: Seq<char>|
        if m == b.module {
            if b.is_theorem(name) {
                b.definition(name)
            } else {
                None
            }
        } else if p.modules.dom().contains(m) && p.modules[m].is_theorem(name) {
            p.modules[m].definition(name)
        } else {
            None
        }
}

/// A value with the names of theorems replaced by what they claim.
pub open spec fn expanded(b: BindingMapV, p: ProjectV, v: ValueV) -> ValueV {
    edited(v, 0, DefineV { definitions: theorem_definitions(b, p) })
}

struct Scope<'a> {
    bindings: &'a BindingMap,
    project: &'a Project,
}

impl<'a> Definitions for Scope<'a> {
    closed spec fn defined(&self) -> spec_fn(ModuleId, Seq<char>) -> Option<ValueV> {
        theorem_definitions(self.bindings@, self.project@)
    }

    fn definition(&self, module: ModuleId, name: &String) -> (r: Option<AcornValue>) {
        let bindings = if module == self.bindings.module() {
            self.bindings
        } else {
            match self.project.get_bindings(module) {
                Some(b) => b,
                None => {
                    return None;
                },
            }
        };
        if bindings.is_theorem(name.as_str()) {
            match bindings.get_definition(name.as_str()) {
                Some(v) => Some(v.clone()),
                None => None,
            }
        } else {
            None
        }
    }
}

impl EnvV {
    /// The environment that has nothing in it.
    pub open spec fn initial(module: ModuleId) -> EnvV {
        EnvV {
            module_id: module,
            bindings: BindingMapV::initial(module).with_type("Bool"@, TypeV::Bool),
            nodes: Seq::empty(),
            definition_ranges: Map::empty(),
            includes_explicit_false: false,
            lines: LineMapV { first_line: 0, types: Seq::empty() },
            implicit: false,
        }
    }

    /// The environment with types for some lines.
    pub open spec fn with_lines(self, t: LineType, first: u32, last: u32) -> EnvV {
        EnvV { lines: self.lines.with_lines(t, first, last), ..self }
    }

    /// The environment with other names.
    pub open spec fn with_bindings(self, b: BindingMapV) -> EnvV {
        EnvV { bindings: b, ..self }
    }

    /// The environment that knows where a name was defined.
    pub open spec fn with_range(self, name: Seq<char>, range: Range) -> EnvV {
        EnvV { definition_ranges: self.definition_ranges.insert(name, range), ..self }
    }

    /// The environment with one more node. Names of theorems in the claim are replaced by what
    /// they claim.
    pub open spec fn with_node(
        self,
        p: ProjectV,
        structural: bool,
        prop: PropositionV,
        block: Option<BlockV>,
    ) -> EnvV {
        EnvV {
            nodes: self.nodes.push(
                NodeV {
                    structural,
                    claim: PropositionV {
                        value: expanded(self.bindings, p, prop.value),
                        ..prop
                    },
                    block,
                },
            ),
            ..self
        }
    }

    /// Where a name was defined.
    pub open spec fn range_of(self, name: Seq<char>) -> Range {
        if self.definition_ranges.dom().contains(name) {
            self.definition_ranges[name]
        } else {
            no_range()
        }
    }
}

/// Type parameters that stand for themselves.
pub open spec fn own_params(names: Seq<Seq<char>>) -> Seq<(Seq<char>, TypeV)> {
    Seq::new(names.len(), |i: int| (names[i], TypeV::Parameter(names[i])))
}

/// A constant of an environment, with type parameters that stand for themselves.
pub open spec fn constant_itself(b: BindingMapV, module: ModuleId, name: Seq<char>) -> ValueV {
    let t = b.identifier_types[name];
    let params = b.constants[name].params;
    constant_of(module, name, t, own_params(params))
}

/// The claim that a constant is what it is defined as.
pub open spec fn identity_claim(constant: ValueV, definition: ValueV) -> ValueV {
    match definition {
        ValueV::Lambda(ts, ret) => ValueV::ForAll(
            ts,
            Box::new(
                binary(
                    BinaryOp::Equals,
                    ValueV::Application(Box::new(constant), vars(ts, 0)),
                    *ret,
                ),
            ),
        ),
        _ => binary(BinaryOp::Equals, constant, definition),
    }
}

/// The environment with a proposition for the definition of a constant, if it has one.
pub open spec fn with_identity(env: EnvV, p: ProjectV, name: Seq<char>) -> EnvV {
    if env.bindings.definition(name) is Some && env.bindings.identifier_types.dom().contains(
        name,
    ) {
        let constant = constant_itself(env.bindings, env.module_id, name);
        let claim = identity_claim(constant, env.bindings.definition(name)->0);
        env.with_node(
            p,
            true,
            PropositionV::constant_definition(
                claim,
                env.module_id,
                env.range_of(name),
                constant,
                name,
            ),
            None,
        )
    } else {
        env
    }
}

/// The entries of a list whose names are not among some others, for the first `n`.
pub open spec fn others(
    list: Seq<(Seq<char>, TypeV)>,
    names: Seq<Seq<char>>,
    n: nat,
) -> Seq<(Seq<char>, TypeV)>
    decreases n,
{
    if n == 0 || n > list.len() {
        Seq::empty()
    } else {
        let before = others(list, names, (n - 1) as nat);
        if names.contains(list[n - 1].0) {
            before
        } else {
            before.push(list[n - 1])
        }
    }
}

/// The places of the first `n` of some names.
pub open spec fn places(names: Seq<Seq<char>>, n: nat) -> Map<Seq<char>, AtomId>
    decreases n,
{
    if n == 0 || n > names.len() {
        Map::empty()
    } else {
        places(names, (n - 1) as nat).insert(names[n - 1], (n - 1) as u16)
    }
}

/// The first parts of pairs.
pub open spec fn firsts<A, B>(s: Seq<(A, B)>) -> Seq<A> {
    Seq::new(s.len(), |i: int| s[i].0)
}

/// The second parts of pairs.
pub open spec fn seconds<A, B>(s: Seq<(A, B)>) -> Seq<B> {
    Seq::new(s.len(), |i: int| s[i].1)
}

/// A boolean value from a block's environment as a value in the outer environment. The arguments
/// of the block become variables of a "forall"; other constants that are unknown outside become
/// variables of an "exists" within it. The block's data types become type parameters.
#[verifier::opaque]
pub open spec fn exported(block: BlockV, outer: EnvV, v: ValueV) -> ValueV {
    let forall_names = firsts(block.args);
    let unknown = unknown_constants(outer.bindings, v, Seq::empty());
    let inner = others(unknown, forall_names, unknown.len());
    let names = forall_names + firsts(inner);
    let moved = shifted(v, 0, names.len() as u16);
    let replaced = constants_to_vars(moved, outer.module_id, places(names, names.len()));
    let open = parametrized_value(replaced, block.env.module_id, block.type_params);
    forall_of(seconds(block.args), exists_of(seconds(inner), open))
}

/// The last claim of a block as a value in the outer environment, and where it comes from.
#[verifier::opaque]
pub open spec fn last_claim(block: BlockV, outer: EnvV, token: TokenV) -> Result<
    (ValueV, Range),
    ErrorV,
> {
    if block.env.nodes.len() == 0 {
        Err(ErrorV::at(token, "expected a claim in this block"@))
    } else {
        let claim = block.env.nodes.last().claim;
        Ok((exported(block, outer, claim.value), claim.source.range))
    }
}

/// The solution for a target that a block ends with: a claim in the form `target = solution`.
#[verifier::opaque]
pub open spec fn solution(block: BlockV, outer: EnvV, target: ValueV) -> Option<(ValueV, Range)> {
    match last_claim(block, outer, empty_token()) {
        Err(_) => None,
        Ok((claim, range)) => match claim {
            ValueV::Binary(BinaryOp::Equals, left, _) => if *left == target {
                Some((claim, range))
            } else {
                None
            },
            _ => None,
        },
    }
}

/// The different ways to construct a block.
pub enum BlockParams {
    /// The name of a theorem, its premise, and the goal, both with the arguments as free
    /// variables. The theorem is defined by this name outside.
    Theorem(String, Option<(AcornValue, Range)>, AcornValue),
    /// The assumption to be used by the block.
    Conditional(AcornValue, Range),
    /// The expression to solve for.
    Solve(AcornValue, Range),
    /// A goal with one more free variable than there are arguments, and the type of that one: it
    /// is to be shown that it exists.
    FunctionSatisfy(AcornValue, AcornType, Range),
    /// No special params needed.
    ForAll,
    /// No special params needed.
    Problem,
}

/// The model of the ways to construct a block.
pub enum BlockParamsV {
    Theorem(Seq<char>, Option<(ValueV, Range)>, ValueV),
    Conditional(ValueV, Range),
    Solve(ValueV, Range),
    FunctionSatisfy(ValueV, TypeV, Range),
    ForAll,
    Problem,
}

impl View for BlockParams {
    type V = BlockParamsV;

    open spec fn view(&self) -> BlockParamsV {
        match self {
            BlockParams::Theorem(n, premise, g) => BlockParamsV::Theorem(
                n@,
                match premise {
                    Some((v, r)) => Some((v@, *r)),
                    None => None,
                },
                g@,
            ),
            BlockParams::Conditional(v, r) => BlockParamsV::Conditional(v@, *r),
            BlockParams::Solve(v, r) => BlockParamsV::Solve(v@, *r),
            BlockParams::FunctionSatisfy(v, t, r) => BlockParamsV::FunctionSatisfy(v@, t@, *r),
            BlockParams::ForAll => BlockParamsV::ForAll,
            BlockParams::Problem => BlockParamsV::Problem,
        }
    }
}

/// The scope in which the first `n` type parameters of a block are data types.
pub open spec fn scope_with_types(b: BindingMapV, names: Seq<Seq<char>>, n: nat) -> Option<
    BindingMapV,
>
    decreases n,
{
    if n == 0 || n > names.len() {
        Some(b)
    } else {
        match scope_with_types(b, names, (n - 1) as nat) {
            None => None,
            Some(b1) => if b1.in_use(names[n - 1]) {
                None
            } else {
                Some(b1.with_data_type(names[n - 1]))
            },
        }
    }
}

/// What the type parameters of a block stand for inside.
pub open spec fn block_params(module: ModuleId, names: Seq<Seq<char>>) -> Seq<
    (Seq<char>, TypeV),
> {
    Seq::new(names.len(), |i: int| (names[i], TypeV::Data(module, names[i])))
}

/// The scope in which the first `n` arguments of a block are constants.
pub open spec fn scope_with_args(
    b: BindingMapV,
    args: Seq<(Seq<char>, TypeV)>,
    params: Seq<(Seq<char>, TypeV)>,
    n: nat,
) -> Option<BindingMapV>
    decreases n,
{
    if n == 0 || n > args.len() {
        Some(b)
    } else {
        match scope_with_args(b, args, params, (n - 1) as nat) {
            None => None,
            Some(b1) => if b1.in_use(args[n - 1].0) {
                None
            } else {
                Some(
                    b1.with_constant(
                        args[n - 1].0,
                        Seq::empty(),
                        specialized(args[n - 1].1, params),
                        None,
                    ),
                )
            },
        }
    }
}

/// The constants that stand for the arguments of a block inside.
pub open spec fn arg_values(b: BindingMapV, args: Seq<(Seq<char>, TypeV)>) -> Seq<ValueV> {
    Seq::new(
        args.len(),
        |i: int|
            match b.constant_value(args[i].0) {
                Some(v) => v,
                None => ValueV::Bool(true),
            },
    )
}

/// The environment inside a new block, before its statements, and its goal.
#[verifier::opaque]
pub open spec fn block_start(
    env: EnvV,
    p: ProjectV,
    type_params: Seq<Seq<char>>,
    args: Seq<(Seq<char>, TypeV)>,
    params: BlockParamsV,
    first_line: u32,
    implicit: bool,
) -> Result<(EnvV, Option<GoalV>), ErrorV> {
    let pairs = block_params(env.bindings.module, type_params);
    match (match scope_with_types(env.bindings, type_params, type_params.len()) {
        None => None,
        Some(b1) => scope_with_args(b1, args, pairs, args.len()),
    }) {
        None => Err(ErrorV::at(empty_token(), "cannot redeclare a name in a block"@)),
        Some(b) => {
            let sub = EnvV {
                module_id: env.module_id,
                bindings: b,
                nodes: Seq::empty(),
                definition_ranges: env.definition_ranges,
                includes_explicit_false: false,
                lines: LineMapV { first_line, types: Seq::empty() },
                implicit,
            };
            let values = arg_values(b, args);
            match params {
                BlockParamsV::Conditional(condition, range) => Ok(
                    (
                        sub.with_node(
                            p,
                            true,
                            PropositionV::premise(condition, env.module_id, range),
                            None,
                        ),
                        None,
                    ),
                ),
                BlockParamsV::Theorem(name, premise, goal) => {
                    // Inside, the theorem is a function, with a proposition for its identity.
                    let sub1 = with_identity(sub, p, name);
                    let sub2 = match premise {
                        Some((v, range)) => sub1.with_node(
                            p,
                            true,
                            PropositionV::premise(
                                bound(v, 0, 0, values),
                                env.module_id,
                                range,
                            ),
                            None,
                        ),
                        None => sub1,
                    };
                    Ok(
                        (
                            sub2,
                            Some(
                                GoalV::Prove(
                                    PropositionV::theorem(
                                        false,
                                        theorem_goal(env, name, pairs, values, goal),
                                        env.module_id,
                                        env.range_of(name),
                                        Some(name),
                                    ),
                                ),
                            ),
                        ),
                    )
                },
                BlockParamsV::FunctionSatisfy(goal, return_type, range) => Ok(
                    (
                        sub,
                        Some(
                            GoalV::Prove(
                                PropositionV::anonymous(
                                    exists_of(seq![return_type], bound(goal, 0, 0, values)),
                                    env.module_id,
                                    range,
                                ),
                            ),
                        ),
                    ),
                ),
                BlockParamsV::Solve(target, range) => Ok((sub, Some(GoalV::Solve(target, range)))),
                BlockParamsV::ForAll => Ok((sub, None)),
                BlockParamsV::Problem => Ok((sub, None)),
            }
        },
    }
}

/// What has to be proved of a theorem inside its block: the goal, or the theorem as a function.
pub open spec fn theorem_goal(
    env: EnvV,
    name: Seq<char>,
    pairs: Seq<(Seq<char>, TypeV)>,
    values: Seq<ValueV>,
    goal: ValueV,
) -> ValueV {
    let t = if env.bindings.identifier_types.dom().contains(name) {
        env.bindings.identifier_types[name]
    } else {
        TypeV::Bool
    };
    binary(
        BinaryOp::Or,
        apply(constant_of(env.module_id, name, t, pairs), values),
        bound(goal, 0, 0, values),
    )
}

impl Environment {
    /// An environment that has nothing in it.
    pub fn new(module_id: ModuleId) -> (r: Self)
        requires
            module_id >= crate::acorn_type::FIRST_NORMAL,
        ensures
            r@ == EnvV::initial(module_id),
    {
        let mut bindings = BindingMap::new(module_id);
        proof {
            reveal_strlit("bool");
            reveal_strlit("Bool");
            assert("bool"@[0] != "Bool"@[0]);
        }
        bindings.add_type_alias("Bool", AcornType::Bool);
        let env = Environment {
            module_id,
            bindings,
            nodes: Vec::new(),
            definition_ranges: Table::new(),
            includes_explicit_false: false,
            lines: LineMap::new(0),
            implicit: false,
        };
        proof {
            lemma_env_view(env);
            assert(views(env.nodes@) =~= Seq::<NodeV>::empty());
        }
        env
    }

    /// An environment for trying things out.
    pub fn new_test() -> (r: Self)
        ensures
            r@ == EnvV::initial(crate::acorn_type::FIRST_NORMAL),
    {
        Environment::new(crate::acorn_type::FIRST_NORMAL)
    }

    /// Adds line types for the given range, inserting empties as needed.
    pub(crate) fn add_line_types(&mut self, line_type: LineType, first: u32, last: u32)
        ensures
            final(self)@ == old(self)@.with_lines(line_type, first, last),
    {
        proof {
            lemma_env_view(*self);
        }
        self.lines.add_line_types(line_type, first, last);
        proof {
            lemma_env_view(*self);
        }
    }

    /// Adds a node to the environment tree, and gives its place. Names of theorems in the claim
    /// are replaced by their definitions.
    pub(crate) fn add_node(
        &mut self,
        project: &Project,
        structural: bool,
        proposition: Proposition,
        block: Option<Block>,
    ) -> (r: usize)
        ensures
            final(self)@ == old(self)@.with_node(
                project@,
                structural,
                proposition@,
                opt_view(block),
            ),
            r == old(self)@.nodes.len(),
    {
        broadcast use crate::text::group_views;
        proof {
            lemma_env_view(*self);
        }
        let value = proposition.value.replace_constants_with_values(
            0,
            &Scope { bindings: &self.bindings, project },
        );
        let claim = proposition.with_value(value);
        let index = self.nodes.len();
        let node = Node { structural, claim, block };
        proof {
            lemma_node_view(node);
        }
        self.nodes.push(node);
        proof {
            lemma_env_view(*self);
        }
        index
    }

    fn definition_range(&self, name: &String) -> (r: Range)
        ensures
            r == self@.range_of(name@),
    {
        proof {
            lemma_env_view(*self);
        }
        match self.definition_ranges.get(name) {
            Some(r) => *r,
            None => {
                let start = Position { line: 0, character: 0 };
                Range { start, end: start }
            },
        }
    }

    /// Adds a proposition for the definition of the provided constant, if it has one.
    pub(crate) fn add_identity_props(&mut self, project: &Project, name: &str)
        ensures
            final(self)@ == with_identity(old(self)@, project@, name@),
    {
        broadcast use crate::acorn_value::lemma_application_view;
        proof {
            lemma_env_view(*self);
        }
        let key = name.to_owned();
        let definition = match self.bindings.get_definition(name) {
            Some(d) => d.clone(),
            None => {
                return;
            },
        };
        let constant_type = match self.bindings.get_type_for_identifier(name) {
            Some(t) => t.clone(),
            None => {
                return;
            },
        };
        let param_names = self.bindings.get_params(name);
        let mut params: Vec<TypeParam> = Vec::new();
        let mut i: usize = 0;
        while i < param_names.len()
            invariant
                i <= param_names.len(),
                params.len() == i,
                forall|k: int|
                    0 <= k < i ==> (#[trigger] params@[k]).0@ == param_names@[k]@
                        && params@[k].1@ == TypeV::Parameter(param_names@[k]@),
            decreases param_names.len() - i,
        {
            let n = &param_names[i];
            params.push((n.clone(), AcornType::Parameter(n.clone())));
            i = i + 1;
        }
        assert(views(params@) =~= own_params(views(param_names@)));
        let constant = AcornValue::new_specialized(
            self.module_id,
            key.clone(),
            constant_type,
            params,
        );
        let claim = match definition {
            AcornValue::Lambda(types, ret) => {
                let args = new_vars(&types, 0);
                let app = AcornValue::Application(
                    crate::acorn_value::FunctionApplication {
                        function: Box::new(constant.clone()),
                        args,
                    },
                );
                assert(app@ == ValueV::Application(Box::new(constant@), views(args@)));
                let eq = AcornValue::Binary(BinaryOp::Equals, Box::new(app), ret);
                assert(eq@ == binary(BinaryOp::Equals, app@, (*ret)@));
                AcornValue::ForAll(types, Box::new(eq))
            },
            d => new_binary(BinaryOp::Equals, constant.clone(), d),
        };
        let range = self.definition_range(&key);
        let prop = Proposition::constant_definition(
            claim,
            self.module_id,
            range,
            constant,
            name,
        );
        let _ = self.add_node(project, true, prop, None);
    }

    // Starts a block: makes its environment, with the type parameters as data types and the
    // arguments as constants, and finds its goal.
    pub(crate) fn start_block(
        &self,
        project: &Project,
        type_params: &Vec<String>,
        args: &Vec<(String, AcornType)>,
        params: BlockParams,
        first_line: u32,
        implicit: bool,
    ) -> (r: Result<(Environment, Option<Goal>), Error>)
        ensures
            match r {
                Ok((env, goal)) => block_start(
                    self@,
                    project@,
                    views(type_params@),
                    views(args@),
                    params@,
                    first_line,
                    implicit,
                ) == Ok::<(EnvV, Option<GoalV>), ErrorV>((env@, opt_view(goal))),
                Err(e) => block_start(
                    self@,
                    project@,
                    views(type_params@),
                    views(args@),
                    params@,
                    first_line,
                    implicit,
                ) == Err::<(EnvV, Option<GoalV>), ErrorV>(e@),
            },
    {
        reveal(block_start);
        broadcast use crate::text::group_views;
        proof {
            lemma_env_view(*self);
        }
        let module = self.bindings.module();
        let mut bindings = self.bindings.copy();
        let pairs = match add_block_types(&mut bindings, module, type_params) {
            Some(pairs) => pairs,
            None => {
                return Err(Error::at(&Token::empty(), "cannot redeclare a name in a block"));
            },
        };
        if !add_block_args(&mut bindings, args, &pairs) {
            return Err(Error::at(&Token::empty(), "cannot redeclare a name in a block"));
        }
        let mut sub = Environment {
            module_id: self.module_id,
            bindings,
            nodes: Vec::new(),
            definition_ranges: self.definition_ranges.copy(),
            includes_explicit_false: false,
            lines: LineMap::new(first_line),
            implicit,
        };
        proof {
            lemma_env_view(sub);
            assert(views(sub.nodes@) =~= Seq::<NodeV>::empty());
        }
        let values = find_arg_values(&sub.bindings, args);
        match params {
            BlockParams::Conditional(condition, range) => {
                let prop = Proposition::premise(condition, self.module_id, range);
                let _ = sub.add_node(project, true, prop, None);
                Ok((sub, None))
            },
            BlockParams::Theorem(name, premise, goal) => {
                let t = match self.bindings.get_type_for_identifier(name.as_str()) {
                    Some(t) => t.clone(),
                    None => AcornType::Bool,
                };
                let functional_theorem = AcornValue::new_specialized(
                    self.module_id,
                    name.clone(),
                    t,
                    pairs,
                );
                sub.add_identity_props(project, name.as_str());
                if let Some((v, range)) = premise {
                    let prop = Proposition::premise(
                        v.bind_values(0, 0, &values),
                        self.module_id,
                        range,
                    );
                    let _ = sub.add_node(project, true, prop, None);
                }
                // We can prove the goal either in bound or in function form
                let bound_goal = goal.bind_values(0, 0, &values);
                let functional_goal = AcornValue::new_apply(functional_theorem, values);
                let value = new_binary(BinaryOp::Or, functional_goal, bound_goal);
                let range = self.definition_range(&name);
                let prop = Proposition::theorem(
                    false,
                    value,
                    self.module_id,
                    range,
                    Some(name),
                );
                Ok((sub, Some(Goal::Prove(prop))))
            },
            BlockParams::FunctionSatisfy(goal, return_type, range) => {
                let partial = goal.bind_values(0, 0, &values);
                let mut types: Vec<AcornType> = Vec::new();
                types.push(return_type);
                assert(views(types@) =~= seq![return_type@]);
                let bound_goal = AcornValue::new_exists(types, partial);
                let prop = Proposition::anonymous(bound_goal, self.module_id, range);
                Ok((sub, Some(Goal::Prove(prop))))
            },
            BlockParams::Solve(target, range) => Ok((sub, Some(Goal::Solve(target, range)))),
            BlockParams::ForAll => Ok((sub, None)),
            BlockParams::Problem => Ok((sub, None)),
        }
    }
}

fn add_block_types(bindings: &mut BindingMap, module: ModuleId, names: &Vec<String>) -> (r: Option<
    Vec<TypeParam>,
>)
    requires
        module == old(bindings)@.module,
    ensures
        match r {
            Some(ps) => scope_with_types(old(bindings)@, views(names@), names@.len()) == Some(
                final(bindings)@,
            ) && views(ps@) == block_params(module, views(names@)),
            None => scope_with_types(old(bindings)@, views(names@), names@.len()) is None,
        },
{
    let mut pairs: Vec<TypeParam> = Vec::new();
    let mut i: usize = 0;
    while i < names.len()
        invariant
            i <= names.len(),
            pairs.len() == i,
            bindings@.module == module,
            scope_with_types(old(bindings)@, views(names@), i as nat) == Some(bindings@),
            forall|k: int|
                0 <= k < i ==> (#[trigger] pairs@[k]).0@ == names@[k]@ && pairs@[k].1@
                    == TypeV::Data(module, names@[k]@),
        decreases names.len() - i,
    {
        let name = &names[i];
        if bindings.name_in_use(name.as_str()) {
            proof {
                lemma_types_fail(old(bindings)@, views(names@), (i + 1) as nat, names@.len());
            }
            return None;
        }
        let t = bindings.add_data_type(name.as_str());
        pairs.push((name.clone(), t));
        i = i + 1;
    }
    assert(views(pairs@) =~= block_params(module, views(names@)));
    Some(pairs)
}

proof fn lemma_types_fail(b: BindingMapV, names: Seq<Seq<char>>, i: nat, n: nat)
    requires
        i <= n <= names.len(),
        scope_with_types(b, names, i) is None,
    ensures
        scope_with_types(b, names, n) is None,
    decreases n,
{
    if i < n {
        lemma_types_fail(b, names, i, (n - 1) as nat);
    }
}

fn add_block_args(
    bindings: &mut BindingMap,
    args: &Vec<(String, AcornType)>,
    pairs: &Vec<TypeParam>,
) -> (r: bool)
    ensures
        match scope_with_args(old(bindings)@, views(args@), views(pairs@), args@.len()) {
            Some(b) => r && final(bindings)@ == b,
            None => !r,
        },
{
    let mut i: usize = 0;
    while i < args.len()
        invariant
            i <= args.len(),
            scope_with_args(old(bindings)@, views(args@), views(pairs@), i as nat) == Some(
                bindings@,
            ),
        decreases args.len() - i,
    {
        let arg = &args[i];
        assert(views(args@)[i as int] == (arg.0@, arg.1@));
        if bindings.name_in_use(arg.0.as_str()) {
            proof {
                lemma_args_fail(
                    old(bindings)@,
                    views(args@),
                    views(pairs@),
                    (i + 1) as nat,
                    args@.len(),
                );
            }
            return false;
        }
        let none: Vec<String> = Vec::new();
        assert(views(none@) =~= Seq::<Seq<char>>::empty());
        bindings.add_constant(arg.0.as_str(), none, arg.1.specialize(pairs), None);
        i = i + 1;
    }
    true
}

proof fn lemma_args_fail(
    b: BindingMapV,
    args: Seq<(Seq<char>, TypeV)>,
    params: Seq<(Seq<char>, TypeV)>,
    i: nat,
    n: nat,
)
    requires
        i <= n <= args.len(),
        scope_with_args(b, args, params, i) is None,
    ensures
        scope_with_args(b, args, params, n) is None,
    decreases n,
{
    if i < n {
        lemma_args_fail(b, args, params, i, (n - 1) as nat);
    }
}

fn find_arg_values(bindings: &BindingMap, args: &Vec<(String, AcornType)>) -> (r: Vec<AcornValue>)
    ensures
        views(r@) == arg_values(bindings@, views(args@)),
{
    let mut out: Vec<AcornValue> = Vec::new();
    let mut i: usize = 0;
    while i < args.len()
        invariant
            i <= args.len(),
            out.len() == i,
            forall|k: int|
                0 <= k < i ==> (#[trigger] out@[k])@ == arg_values(bindings@, views(args@))[k],
        decreases args.len() - i,
    {
        assert(views(args@)[i as int] == (args@[i as int].0@, args@[i as int].1@));
        let v = match bindings.get_constant_value(args[i].0.as_str()) {
            Some(v) => v,
            None => AcornValue::Bool(true),
        };
        out.push(v);
        i = i + 1;
    }
    assert(views(out@) =~= arg_values(bindings@, views(args@)));
    out
}

impl Block {
    /// Converts a boolean value from the block's environment to a value in the outer environment.
    pub(crate) fn export_bool(&self, outer_env: &Environment, inner_value: &AcornValue) -> (r:
        AcornValue)
        ensures
            r@ == exported(self@, outer_env@, inner_value@),
    {
        reveal(exported);
        broadcast use crate::text::group_views;
        proof {
            lemma_block_view(*self);
            lemma_env_view(*outer_env);
            lemma_env_view(self.env);
        }
        // The constants that were block arguments will export as "forall" variables.
        let mut names: Vec<String> = Vec::new();
        let mut forall_types: Vec<AcornType> = Vec::new();
        let mut i: usize = 0;
        while i < self.args.len()
            invariant
                i <= self.args.len(),
                names.len() == i,
                forall_types.len() == i,
                forall|k: int|
                    0 <= k < i ==> (#[trigger] names@[k])@ == self.args@[k].0@,
                forall|k: int|
                    0 <= k < i ==> (#[trigger] forall_types@[k])@ == self.args@[k].1@,
            decreases self.args.len() - i,
        {
            names.push(self.args[i].0.clone());
            forall_types.push(self.args[i].1.clone());
            i = i + 1;
        }
        assert(views(names@) =~= firsts(views(self.args@)));
        assert(views(forall_types@) =~= seconds(views(self.args@)));
        let ghost forall_names = views(names@);
        // Find all unexportable constants
        let mut unexportable: Table<String, AcornType> = Table::new();
        outer_env.bindings.find_unknown_local_constants(inner_value, &mut unexportable);
        let ghost unknown = unexportable.list();
        // Unexportable constants that are not arguments export as "exists" variables.
        let mut exists_names: Vec<String> = Vec::new();
        let mut exists_types: Vec<AcornType> = Vec::new();
        let ghost mut inner: Seq<(Seq<char>, TypeV)> = Seq::empty();
        let n = unexportable.len();
        let mut j: usize = 0;
        assert(views(exists_names@) =~= firsts(inner));
        assert(views(exists_types@) =~= seconds(inner));
        while j < n
            invariant
                j <= n == unknown.len(),
                unknown == unexportable.list(),
                forall_names == views(names@),
                inner == others(unknown, forall_names, j as nat),
                views(exists_names@) == firsts(inner),
                views(exists_types@) == seconds(inner),
            decreases n - j,
        {
            broadcast use crate::text::group_views;
            let (name, t) = unexportable.entry(j);
            let ghost before = inner;
            if !holds(&names, name) {
                exists_names.push(name.clone());
                exists_types.push(t.clone());
                proof {
                    inner = inner.push(unknown[j as int]);
                    assert(firsts(inner) =~= firsts(before).push(name@));
                    assert(seconds(inner) =~= seconds(before).push(t@));
                }
            }
            j = j + 1;
        }
        let ghost first_names = names@;
        let ghost second_names = exists_names@;
        names.append(&mut exists_names);
        assert(views(first_names + second_names) =~= views(first_names) + views(second_names));
        let shift_amount = names.len() as AtomId;
        // The forall must be outside the exists, so order stack variables appropriately
        let map = make_places(&names);
        let replaced = inner_value.insert_stack(0, shift_amount);
        let replaced = replaced.replace_constants_with_vars(outer_env.module_id, &map);
        let replaced = replaced.parametrize(self.env.module_id, &self.type_params);
        AcornValue::new_forall(forall_types, AcornValue::new_exists(exists_types, replaced))
    }

    /// A claim usable in the outer environment, and a range where it comes from.
    pub(crate) fn export_last_claim(&self, outer_env: &Environment, token: &Token) -> (r: Result<
        (AcornValue, Range),
        Error,
    >)
        ensures
            match r {
                Ok((v, range)) => last_claim(self@, outer_env@, token@) == Ok::<
                    (ValueV, Range),
                    ErrorV,
                >((v@, range)),
                Err(e) => last_claim(self@, outer_env@, token@) == Err::<(ValueV, Range), ErrorV>(
                    e@,
                ),
            },
    {
        reveal(last_claim);
        proof {
            lemma_block_view(*self);
            lemma_env_view(self.env);
        }
        let n = self.env.nodes.len();
        if n == 0 {
            return Err(Error::at(token, "expected a claim in this block"));
        }
        let node = &self.env.nodes[n - 1];
        proof {
            lemma_node_view(*node);
            assert(self@.env.nodes.last() == node@);
        }
        Ok((self.export_bool(outer_env, &node.claim.value), node.claim.source.range))
    }

    /// Checks if this block solves for the given target. If it does, gives the exported solution,
    /// and the range where it occurs.
    pub(crate) fn solves(&self, outer_env: &Environment, target: &AcornValue) -> (r: Option<
        (AcornValue, Range),
    >)
        ensures
            match r {
                Some((v, range)) => solution(self@, outer_env@, target@) == Some((v@, range)),
                None => solution(self@, outer_env@, target@) is None,
            },
    {
        reveal(solution);
        broadcast use crate::acorn_value::lemma_application_view;
        let (outer_claim, range) = match self.export_last_claim(outer_env, &Token::empty()) {
            Ok(x) => x,
            Err(_) => {
                return None;
            },
        };
        // We only allow <target> = <solution>, rather than the other way around.
        let solved = match &outer_claim {
            AcornValue::Binary(BinaryOp::Equals, left, _) => left.same(target),
            _ => false,
        };
        if solved {
            Some((outer_claim, range))
        } else {
            None
        }
    }
}

fn make_places(names: &Vec<String>) -> (r: Table<String, AtomId>)
    ensures
        r@ == places(views(names@), names@.len()),
{
    let mut map: Table<String, AtomId> = Table::new();
    let mut i: usize = 0;
    while i < names.len()
        invariant
            i <= names.len(),
            map@ == places(views(names@), i as nat),
        decreases names.len() - i,
    {
        map.insert(names[i].clone(), i as AtomId);
        i = i + 1;
    }
    map
}

} // verus!
