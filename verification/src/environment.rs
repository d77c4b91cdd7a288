//! Environments: the nodes that statements leave behind, and what has to be proved in them.
//!
//! An environment is arranged like a tree. It has nodes, each of which depends only on the nodes
//! before it, and a node may have a block with an environment of its own.

use vstd::prelude::*;

use crate::acorn_type::{AcornType, ModuleId, TypeV};
use crate::acorn_value::{value_text, AcornValue, ValueV};
use crate::binding_map::{code_of_value, opt_view, BindingMap, BindingMapV};
use crate::line_map::{LineMap, LineMapV, LineType};
use crate::proposition::{Proposition, PropositionV};
use crate::table::{Duplicate, Table};
use crate::text::{decimal, decimal_text, join, joined, same_text, views};
use crate::token::Range;

verus! {

/// What a block is there to achieve.
#[derive(Debug)]
pub enum Goal {
    /// To prove a proposition.
    Prove(Proposition),
    /// To find an equality for a value; the range is where it is asked for.
    Solve(AcornValue, Range),
}

/// The model of a goal.
pub enum GoalV {
    Prove(PropositionV),
    Solve(ValueV, Range),
}

impl View for Goal {
    type V = GoalV;

    open spec fn view(&self) -> GoalV {
        match self {
            Goal::Prove(p) => GoalV::Prove(p@),
            Goal::Solve(v, r) => GoalV::Solve(v@, *r),
        }
    }
}

impl Duplicate for Goal {
    fn duplicate(&self) -> (r: Self) {
        match self {
            Goal::Prove(p) => Goal::Prove(p.clone()),
            Goal::Solve(v, r) => Goal::Solve(v.clone(), *r),
        }
    }
}

/// Takes statements and determines which things need to be proved, and which statements are
/// usable in which proofs. It does not prove anything itself.
pub struct Environment {
    pub module_id: ModuleId,
    /// What all the names mean in this environment.
    pub bindings: BindingMap,
    /// Each node depends only on the nodes before it.
    pub(crate) nodes: Vec<Node>,
    /// The region in the source document where a name was defined.
    pub(crate) definition_ranges: Table<String, Range>,
    /// Whether a plain "false" is anywhere in this environment: it is supposed to have
    /// contradictory facts.
    pub includes_explicit_false: bool,
    /// What each line belongs to.
    pub(crate) lines: LineMap,
    /// Implicit blocks aren't written in the code; they are created for theorems that the user
    /// has asserted without proof.
    pub implicit: bool,
}

/// A proposition of an environment, perhaps with a block.
pub struct Node {
    /// Whether this proposition has already been proved structurally, like an axiom or a
    /// definition.
    pub(crate) structural: bool,
    /// What can be assumed in the outer environment. It has to be proved where there is no block
    /// and it is not structural.
    pub(crate) claim: Proposition,
    /// Proving every proposition in the block implies the claim.
    pub(crate) block: Option<Block>,
}

/// The body of a node, with an environment that is not visible outside.
pub struct Block {
    /// The generic types that this block is polymorphic over. Inside, these are data types.
    pub(crate) type_params: Vec<String>,
    /// The arguments to this block. Inside, these are constants; outside, variables.
    pub(crate) args: Vec<(String, AcornType)>,
    /// What the block is there to achieve.
    pub(crate) goal: Option<Goal>,
    /// The environment created inside the block.
    pub(crate) env: Environment,
}

/// The model of an environment.
pub struct EnvV {
    pub module_id: ModuleId,
    pub bindings: BindingMapV,
    pub nodes: Seq<NodeV>,
    pub definition_ranges: Map<Seq<char>, Range>,
    pub includes_explicit_false: bool,
    pub lines: LineMapV,
    pub implicit: bool,
}

/// The model of a node.
pub struct NodeV {
    pub structural: bool,
    pub claim: PropositionV,
    pub block: Option<BlockV>,
}

/// The model of a block.
pub struct BlockV {
    pub type_params: Seq<Seq<char>>,
    pub args: Seq<(Seq<char>, TypeV)>,
    pub goal: Option<GoalV>,
    pub env: EnvV,
}

/// The models of a list of nodes.
pub closed spec fn nodes_view(s: Seq<Node>) -> Seq<NodeV>
    decreases s,
{
    Seq::new(
        s.len(),
        |i: int|
            if 0 <= i < s.len() {
                node_view(s[i])
            } else {
                arbitrary()
            },
    )
}

/// The model of a node, made from its parts.
pub closed spec fn node_view(n: Node) -> NodeV
    decreases n,
{
    NodeV {
        structural: n.structural,
        claim: n.claim@,
        block: match n.block {
            Some(b) => Some(block_view(b)),
            None => None,
        },
    }
}

/// The model of a block, made from its parts.
pub closed spec fn block_view(b: Block) -> BlockV
    decreases b,
{
    BlockV {
        type_params: views(b.type_params@),
        args: views(b.args@),
        goal: opt_view(b.goal),
        env: env_view(b.env),
    }
}

/// The model of an environment, made from its parts.
pub closed spec fn env_view(e: Environment) -> EnvV
    decreases e,
{
    EnvV {
        module_id: e.module_id,
        bindings: e.bindings@,
        nodes: nodes_view(e.nodes@),
        definition_ranges: e.definition_ranges@,
        includes_explicit_false: e.includes_explicit_false,
        lines: e.lines@,
        implicit: e.implicit,
    }
}

impl View for Environment {
    type V = EnvV;

    closed spec fn view(&self) -> EnvV {
        env_view(*self)
    }
}

impl View for Block {
    type V = BlockV;

    closed spec fn view(&self) -> BlockV {
        block_view(*self)
    }
}

impl View for Node {
    type V = NodeV;

    closed spec fn view(&self) -> NodeV {
        node_view(*self)
    }
}

/// The models unfold one step at a time.
pub(crate) proof fn lemma_env_view(e: Environment)
    ensures
        e@.module_id == e.module_id,
        e@.bindings == e.bindings@,
        e@.nodes == views(e.nodes@),
        e@.definition_ranges == e.definition_ranges@,
        e@.includes_explicit_false == e.includes_explicit_false,
        e@.lines == e.lines@,
        e@.implicit == e.implicit,
{
    assert(nodes_view(e.nodes@) =~= views(e.nodes@));
}

/// The models unfold one step at a time.
pub(crate) proof fn lemma_node_view(n: Node)
    ensures
        n@.structural == n.structural,
        n@.claim == n.claim@,
        n@.block == opt_view(n.block),
{
}

/// The models unfold one step at a time.
pub(crate) proof fn lemma_block_view(b: Block)
    ensures
        b@.type_params == views(b.type_params@),
        b@.args == views(b.args@),
        b@.goal == opt_view(b.goal),
        b@.env == b.env@,
{
}

/// The paths of the goals of the first `n` nodes, each after `prepend`. The goals inside a block
/// come before the goal of the block.
pub open spec fn paths_of(nodes: Seq<NodeV>, prepend: Seq<usize>, n: nat) -> Seq<Seq<usize>>
    decreases nodes, n,
{
    if n == 0 || n > nodes.len() {
        Seq::empty()
    } else {
        let before = paths_of(nodes, prepend, (n - 1) as nat);
        let node = nodes[n - 1];
        let path = prepend.push((n - 1) as usize);
        if node.structural {
            before
        } else {
            match node.block {
                Some(b) => {
                    let inner = before + paths_of(b.env.nodes, path, b.env.nodes.len());
                    if b.goal is Some {
                        inner.push(path)
                    } else {
                        inner
                    }
                },
                None => before.push(path),
            }
        }
    }
}

/// The claims of nodes.
pub open spec fn claims(nodes: Seq<NodeV>) -> Seq<PropositionV> {
    Seq::new(nodes.len(), |i: int| nodes[i].claim)
}

/// The proposition at a path: the claim of the last node, inside the blocks of the others.
pub open spec fn proposition_at(env: EnvV, path: Seq<usize>) -> Option<PropositionV>
    decreases path.len(),
{
    if path.len() == 0 || path[0] >= env.nodes.len() {
        None
    } else {
        let node = env.nodes[path[0] as int];
        if path.len() == 1 {
            Some(node.claim)
        } else {
            match node.block {
                Some(b) => proposition_at(b.env, path.skip(1)),
                None => None,
            }
        }
    }
}

/// Everything that a prover needs for a goal.
pub struct GoalContext {
    /// What is known from the top level.
    pub global_facts: Vec<Proposition>,
    /// What is known from the blocks around the goal.
    pub local_facts: Vec<Proposition>,
    pub name: String,
    pub goal: Goal,
    /// The line where a proof would go.
    pub proof_insertion_line: u32,
    /// Whether the environment of the goal is supposed to be contradictory.
    pub includes_explicit_false: bool,
}

/// The model of a goal with its context.
pub struct GoalContextV {
    pub global_facts: Seq<PropositionV>,
    pub local_facts: Seq<PropositionV>,
    pub name: Seq<char>,
    pub goal: GoalV,
    pub proof_insertion_line: u32,
    pub includes_explicit_false: bool,
}

impl View for GoalContext {
    type V = GoalContextV;

    open spec fn view(&self) -> GoalContextV {
        GoalContextV {
            global_facts: views(self.global_facts@),
            local_facts: views(self.local_facts@),
            name: self.name@,
            goal: self.goal@,
            proof_insertion_line: self.proof_insertion_line,
            includes_explicit_false: self.includes_explicit_false,
        }
    }
}

/// How a value is written: as code, or in a form of its own where it has no code.
pub open spec fn value_name(b: BindingMapV, v: ValueV) -> Seq<char> {
    match code_of_value(b, v, Seq::empty(), 0) {
        Ok((code, _)) => code,
        Err(_) => value_text(v, 0),
    }
}

/// The name of a goal: that of the theorem, or what is claimed.
pub open spec fn goal_name(b: BindingMapV, goal: GoalV) -> Seq<char> {
    match goal {
        GoalV::Prove(p) => match p.theorem_name() {
            Some(name) => name,
            None => value_name(b, p.value),
        },
        GoalV::Solve(v, _) => "solve "@ + value_name(b, v),
    }
}

/// A goal of an environment with its context.
pub open spec fn make_context(
    env: EnvV,
    global_facts: Seq<PropositionV>,
    local_facts: Seq<PropositionV>,
    goal: GoalV,
    line: u32,
) -> GoalContextV {
    GoalContextV {
        global_facts,
        local_facts,
        name: goal_name(env.bindings, goal),
        goal,
        proof_insertion_line: line,
        includes_explicit_false: env.includes_explicit_false,
    }
}

/// How a path is written.
pub open spec fn path_text(path: Seq<usize>) -> Seq<char> {
    "["@ + joined(Seq::new(path.len(), |i: int| decimal_text(path[i] as nat)), ", "@) + "]"@
}

/// The last line of an environment that has a type.
pub open spec fn last_line(m: LineMapV) -> int {
    if m.next_line() > 0 { m.next_line() - 1 } else { 0 }
}

/// The context of the goal at the end of a path: what comes before each node on the way, and
/// what is inside the block of the last one. `whole` is the path from the top, and `top` says
/// whether this is the top.
pub open spec fn context_at(
    env: EnvV,
    path: Seq<usize>,
    whole: Seq<usize>,
    top: bool,
    global_facts: Seq<PropositionV>,
    local_facts: Seq<PropositionV>,
) -> Result<GoalContextV, Seq<char>>
    decreases path.len(),
{
    if path.len() == 0 || path[0] >= env.nodes.len() {
        Err("no node at path "@ + path_text(whole))
    } else {
        let before = claims(env.nodes.take(path[0] as int));
        let globals = if top { global_facts + before } else { global_facts };
        let locals = if top { local_facts } else { local_facts + before };
        let node = env.nodes[path[0] as int];
        match node.block {
            Some(b) => if path.len() == 1 {
                match b.goal {
                    Some(goal) => Ok(
                        make_context(
                            b.env,
                            globals,
                            locals + claims(b.env.nodes),
                            goal,
                            last_line(b.env.lines) as u32,
                        ),
                    ),
                    None => Err("block at path "@ + path_text(whole) + " has no goal"@),
                }
            } else {
                context_at(b.env, path.skip(1), whole, false, globals, locals)
            },
            None => if path.len() == 1 {
                Ok(
                    make_context(
                        env,
                        globals,
                        locals,
                        GoalV::Prove(node.claim),
                        node.claim.source.range.start.line,
                    ),
                )
            } else {
                Err("no node at path "@ + path_text(whole))
            },
        }
    }
}

/// The number of a line as the user sees it, from one on.
pub open spec fn shown(line: int) -> Seq<char> {
    decimal_text((line + 1) as nat)
}

/// Where sliding down from an empty line leads: into the next proposition without a block, or
/// to the end of a block that has a goal. `goal` says whether the block around has a goal; there
/// is no block around where it is missing.
pub open spec fn slide_from(
    env: EnvV,
    goal: Option<bool>,
    line: int,
    slide: int,
    path: Seq<usize>,
) -> Result<Seq<usize>, Seq<char>>
    decreases env.lines.next_line() - slide,
{
    match env.lines.at(slide) {
        Some(LineType::Node(i)) => if i >= env.nodes.len() {
            Err("slide to end, line "@ + shown(slide))
        } else if env.nodes[i as int].claim.source.source_type is Axiom {
            Err("slide to axiom, line "@ + shown(slide))
        } else if env.nodes[i as int].block is None {
            Ok(path.push(i))
        } else {
            Err("blocked slide "@ + shown(line) + " -> "@ + shown(slide))
        },
        Some(LineType::Empty) => slide_from(env, goal, line, slide + 1, path),
        Some(LineType::Closing) => match goal {
            Some(true) => Ok(path),
            Some(false) => Err("slide to end but no claim"@),
            None => Err("close brace but no block, line "@ + shown(slide)),
        },
        Some(LineType::Opening) => Err("slide to open brace, line "@ + shown(slide)),
        Some(LineType::Other) => Err("slide to non-prop "@ + shown(slide)),
        None => Err("slide to end, line "@ + shown(slide)),
    }
}

/// The path to the goal for a line, after `path`, or why the line has none.
pub open spec fn path_for_line(env: EnvV, goal: Option<bool>, line: int, path: Seq<usize>) -> Result<
    Seq<usize>,
    Seq<char>,
>
    decreases env,
{
    match env.lines.at(line) {
        Some(LineType::Node(i)) => if !(0 <= i < env.nodes.len()) {
            Err("line "@ + shown(line) + " is out of range"@)
        } else if env.nodes[i as int].claim.source.source_type is Axiom {
            Err("line "@ + shown(line) + " is an axiom"@)
        } else {
            match env.nodes[i as int].block {
                Some(b) => path_for_line(b.env, Some(b.goal is Some), line, path.push(i)),
                None => Ok(path.push(i)),
            }
        },
        Some(LineType::Opening) => end_of_block(goal, line, path),
        Some(LineType::Closing) => end_of_block(goal, line, path),
        Some(LineType::Other) => Err("line "@ + shown(line) + " is not a prop"@),
        None => Err("line "@ + shown(line) + " is out of range"@),
        Some(LineType::Empty) => slide_from(env, goal, line, line + 1, path),
    }
}

/// The path to the goal for a line with a brace.
pub open spec fn end_of_block(goal: Option<bool>, line: int, path: Seq<usize>) -> Result<
    Seq<usize>,
    Seq<char>,
> {
    match goal {
        Some(true) => Ok(path),
        Some(false) => Err("no claim for block at line "@ + shown(line)),
        None => Err("brace but no block, line "@ + shown(line)),
    }
}

/// Each line that belongs to a node with a block is covered by that block, at every depth.
pub open spec fn lines_consistent(env: EnvV) -> bool
    decreases env,
{
    &&& forall|line: int| #[trigger] line_consistent(env, line)
    &&& nodes_consistent(env.nodes)
}

/// A line that belongs to a node with a block is covered by that block.
pub open spec fn line_consistent(env: EnvV, line: int) -> bool {
    match env.lines.at(line) {
        Some(LineType::Node(i)) => if i < env.nodes.len() {
            match env.nodes[i as int].block {
                Some(b) => b.env.lines.at(line) is Some,
                None => true,
            }
        } else {
            true
        },
        _ => true,
    }
}

/// The same inside the blocks of nodes.
pub open spec fn nodes_consistent(nodes: Seq<NodeV>) -> bool
    decreases nodes,
{
    forall|k: int|
        0 <= k < nodes.len() ==> match (#[trigger] nodes[k]).block {
            Some(b) => lines_consistent(b.env),
            None => true,
        }
}

/// The first of some paths whose context has a name.
pub open spec fn context_named(
    env: EnvV,
    paths: Seq<Seq<usize>>,
    name: Seq<char>,
    i: int,
) -> Option<GoalContextV>
    decreases paths.len() - i,
{
    if i >= paths.len() {
        None
    } else {
        match context_at(env, paths[i], paths[i], true, Seq::empty(), Seq::empty()) {
            Ok(c) => if c.name == name {
                Some(c)
            } else {
                context_named(env, paths, name, i + 1)
            },
            Err(_) => context_named(env, paths, name, i + 1),
        }
    }
}

/// The place of the first node that is a theorem with a name.
pub open spec fn theorem_index(nodes: Seq<NodeV>, name: Seq<char>, i: int) -> Option<int>
    decreases nodes.len() - i,
{
    if i >= nodes.len() {
        None
    } else if nodes[i].claim.theorem_name() == Some(name) {
        Some(i)
    } else {
        theorem_index(nodes, name, i + 1)
    }
}

fn line_number(line: u64) -> (r: String)
    requires
        line < u64::MAX,
    ensures
        r@ == shown(line as int),
{
    decimal(line + 1)
}

fn line_message(before: &str, line: u64, after: &str) -> (r: String)
    requires
        line < u64::MAX,
    ensures
        r@ == before@ + shown(line as int) + after@,
{
    let mut out = before.to_owned();
    out.append(line_number(line).as_str());
    out.append(after);
    out
}

fn line_error(before: &str, line: u64) -> (r: String)
    requires
        line < u64::MAX,
    ensures
        r@ == before@ + shown(line as int),
{
    let mut out = before.to_owned();
    out.append(line_number(line).as_str());
    out
}

fn write_path(path: &Vec<usize>) -> (r: String)
    ensures
        r@ == path_text(path@),
{
    let mut parts: Vec<String> = Vec::new();
    let mut i: usize = 0;
    while i < path.len()
        invariant
            i <= path.len(),
            parts.len() == i,
            forall|k: int| 0 <= k < i ==> (#[trigger] parts@[k])@ == decimal_text(path@[k] as nat),
        decreases path.len() - i,
    {
        parts.push(decimal(path[i] as u64));
        i = i + 1;
    }
    assert(views(parts@) =~= Seq::new(path@.len(), |i: int| decimal_text(path@[i] as nat)));
    let mut out = "[".to_owned();
    out.append(join(&parts, ", ").as_str());
    out.append("]");
    out
}

fn push_claims(nodes: &Vec<Node>, n: usize, facts: &mut Vec<Proposition>)
    requires
        n <= nodes.len(),
    ensures
        views(final(facts)@) == views(old(facts)@) + claims(views(nodes@).take(n as int)),
{
    broadcast use crate::text::group_views;
    let mut i: usize = 0;
    assert(views(facts@) + claims(views(nodes@).take(0)) =~= views(facts@));
    while i < n
        invariant
            i <= n <= nodes.len(),
            views(facts@) == views(old(facts)@) + claims(views(nodes@).take(i as int)),
        decreases n - i,
    {
        broadcast use crate::text::group_views;
        let ghost before = facts@;
        proof {
            lemma_node_view(nodes@[i as int]);
        }
        facts.push(nodes[i].claim.clone());
        assert(views(facts@) =~= views(old(facts)@) + claims(views(nodes@).take(i + 1)));
        i = i + 1;
    }
}

impl Environment {
    /// The paths of all goals within this environment, or subenvironments, recursively. The path
    /// to a goal is a list of indices of nodes. The goals inside a block come before the goal of
    /// the block.
    pub fn goal_paths(&self) -> (r: Vec<Vec<usize>>)
        ensures
            views(r@) == paths_of(self@.nodes, Seq::empty(), self@.nodes.len()),
    {
        let none: Vec<usize> = Vec::new();
        assert(none@ =~= Seq::<usize>::empty());
        self.goal_paths_helper(&none)
    }

    // Finds all goal paths from this environment, prepending 'prepend' to each path.
    fn goal_paths_helper(&self, prepend: &Vec<usize>) -> (r: Vec<Vec<usize>>)
        ensures
            views(r@) == paths_of(self@.nodes, prepend@, self@.nodes.len()),
        decreases self,
    {
        broadcast use crate::text::group_views;
        proof {
            lemma_env_view(*self);
        }
        let mut paths: Vec<Vec<usize>> = Vec::new();
        let mut i: usize = 0;
        while i < self.nodes.len()
            invariant
                i <= self.nodes.len(),
                self@.nodes == views(self.nodes@),
                views(paths@) == paths_of(self@.nodes, prepend@, i as nat),
            decreases self.nodes.len() - i,
        {
            broadcast use crate::text::group_views;
            let node = &self.nodes[i];
            proof {
                lemma_node_view(*node);
                assert(self@.nodes[i as int] == node@);
                assert(decreases_to!(self => self.nodes));
                assert(decreases_to!(self.nodes => self.nodes@[i as int]));
            }
            if !node.structural {
                let mut path: Vec<usize> = Vec::new();
                let mut k: usize = 0;
                while k < prepend.len()
                    invariant
                        k <= prepend.len(),
                        path@ =~= prepend@.take(k as int),
                    decreases prepend.len() - k,
                {
                    path.push(prepend[k]);
                    k = k + 1;
                }
                path.push(i);
                assert(path@ =~= prepend@.push(i));
                match &node.block {
                    Some(block) => {
                        proof {
                            lemma_block_view(*block);
                        }
                        let ghost before = paths@;
                        let mut subpaths = block.env.goal_paths_helper(&path);
                        let ghost inner = subpaths@;
                        paths.append(&mut subpaths);
                        assert(views(before + inner) =~= views(before) + views(inner));
                        if block.goal.is_some() {
                            paths.push(path);
                        }
                    },
                    None => {
                        paths.push(path);
                    },
                }
            }
            i = i + 1;
        }
        paths
    }

    /// All facts from this environment.
    pub fn get_facts(&self) -> (r: Vec<Proposition>)
        ensures
            views(r@) == claims(self@.nodes),
    {
        proof {
            lemma_env_view(*self);
        }
        let mut facts: Vec<Proposition> = Vec::new();
        push_claims(&self.nodes, self.nodes.len(), &mut facts);
        assert(views(self.nodes@).take(self.nodes@.len() as int) =~= views(self.nodes@));
        assert(views(facts@) =~= claims(self@.nodes));
        facts
    }

    /// The proposition at a certain path.
    pub fn get_proposition(&self, path: &Vec<usize>) -> (r: Option<&Proposition>)
        ensures
            match r {
                Some(p) => proposition_at(self@, path@) == Some(p@),
                None => proposition_at(self@, path@) is None,
            },
    {
        assert(path@.skip(0) =~= path@);
        self.proposition_from(path, 0)
    }

    fn proposition_from(&self, path: &Vec<usize>, start: usize) -> (r: Option<&Proposition>)
        requires
            start <= path.len(),
        ensures
            match r {
                Some(p) => proposition_at(self@, path@.skip(start as int)) == Some(p@),
                None => proposition_at(self@, path@.skip(start as int)) is None,
            },
        decreases path.len() - start,
    {
        proof {
            lemma_env_view(*self);
        }
        if start == path.len() || path[start] >= self.nodes.len() {
            return None;
        }
        let node = &self.nodes[path[start]];
        proof {
            lemma_node_view(*node);
            assert(path@.skip(start as int).skip(1) =~= path@.skip(start + 1));
        }
        if start + 1 == path.len() {
            return Some(&node.claim);
        }
        match &node.block {
            Some(block) => {
                proof {
                    lemma_block_view(*block);
                }
                block.env.proposition_from(path, start + 1)
            },
            None => None,
        }
    }

    fn write_value_name(&self, value: &AcornValue) -> (r: String)
        ensures
            r@ == value_name(self@.bindings, value@),
    {
        proof {
            lemma_env_view(*self);
        }
        match self.bindings.value_to_code(value) {
            Ok(code) => code,
            Err(_) => value.to_text(),
        }
    }

    fn make_goal_context(
        &self,
        global_facts: Vec<Proposition>,
        local_facts: Vec<Proposition>,
        goal: Goal,
        proof_insertion_line: u32,
    ) -> (r: GoalContext)
        ensures
            r@ == make_context(
                self@,
                views(global_facts@),
                views(local_facts@),
                goal@,
                proof_insertion_line,
            ),
    {
        proof {
            lemma_env_view(*self);
        }
        let name = match &goal {
            Goal::Prove(proposition) => match proposition.theorem_name() {
                Some(name) => name.to_owned(),
                None => self.write_value_name(&proposition.value),
            },
            Goal::Solve(value, _) => {
                let mut s = "solve ".to_owned();
                s.append(self.write_value_name(value).as_str());
                s
            },
        };
        GoalContext {
            global_facts,
            local_facts,
            name,
            goal,
            proof_insertion_line,
            includes_explicit_false: self.includes_explicit_false,
        }
    }

    fn last_line(&self) -> (r: u32)
        ensures
            r == last_line(self@.lines) as u32,
    {
        proof {
            lemma_env_view(*self);
        }
        let next = self.lines.next_line();
        if next > 0 {
            (next - 1) as u32
        } else {
            0
        }
    }

    /// The facts that are available at a certain path, along with what should be proved there.
    pub fn get_goal_context(&self, path: &Vec<usize>) -> (r: Result<GoalContext, String>)
        ensures
            match r {
                Ok(c) => context_at(
                    self@,
                    path@,
                    path@,
                    true,
                    Seq::empty(),
                    Seq::empty(),
                ) == Ok::<GoalContextV, Seq<char>>(c@),
                Err(e) => context_at(
                    self@,
                    path@,
                    path@,
                    true,
                    Seq::empty(),
                    Seq::empty(),
                ) == Err::<GoalContextV, Seq<char>>(e@),
            },
    {
        assert(path@.skip(0) =~= path@);
        let globals: Vec<Proposition> = Vec::new();
        let locals: Vec<Proposition> = Vec::new();
        assert(views(globals@) =~= Seq::<PropositionV>::empty());
        assert(views(locals@) =~= Seq::<PropositionV>::empty());
        self.goal_context_from(path, 0, globals, locals)
    }

    fn goal_context_from(
        &self,
        path: &Vec<usize>,
        start: usize,
        global_facts: Vec<Proposition>,
        local_facts: Vec<Proposition>,
    ) -> (r: Result<GoalContext, String>)
        requires
            start <= path.len(),
        ensures
            match r {
                Ok(c) => context_at(
                    self@,
                    path@.skip(start as int),
                    path@,
                    start == 0,
                    views(global_facts@),
                    views(local_facts@),
                ) == Ok::<GoalContextV, Seq<char>>(c@),
                Err(e) => context_at(
                    self@,
                    path@.skip(start as int),
                    path@,
                    start == 0,
                    views(global_facts@),
                    views(local_facts@),
                ) == Err::<GoalContextV, Seq<char>>(e@),
            },
        decreases path.len() - start,
    {
        proof {
            lemma_env_view(*self);
        }
        if start == path.len() || path[start] >= self.nodes.len() {
            let mut message = "no node at path ".to_owned();
            message.append(write_path(path).as_str());
            return Err(message);
        }
        let mut globals = global_facts;
        let mut locals = local_facts;
        if start == 0 {
            push_claims(&self.nodes, path[start], &mut globals);
        } else {
            push_claims(&self.nodes, path[start], &mut locals);
        }
        let node = &self.nodes[path[start]];
        proof {
            lemma_node_view(*node);
            assert(path@.skip(start as int).skip(1) =~= path@.skip(start + 1));
        }
        match &node.block {
            Some(block) => {
                proof {
                    lemma_block_view(*block);
                    lemma_env_view(block.env);
                }
                if start + 1 == path.len() {
                    // This is the last element of the path. It has a block, so we can use the
                    // contents of the block to help prove it.
                    push_claims(&block.env.nodes, block.env.nodes.len(), &mut locals);
                    assert(views(block.env.nodes@).take(block.env.nodes@.len() as int) =~= views(
                        block.env.nodes@,
                    ));
                    match &block.goal {
                        Some(goal) => Ok(
                            block.env.make_goal_context(
                                globals,
                                locals,
                                goal.duplicate(),
                                block.env.last_line(),
                            ),
                        ),
                        None => {
                            let mut message = "block at path ".to_owned();
                            message.append(write_path(path).as_str());
                            message.append(" has no goal");
                            Err(message)
                        },
                    }
                } else {
                    block.env.goal_context_from(path, start + 1, globals, locals)
                }
            },
            None => {
                if start + 1 == path.len() {
                    Ok(
                        self.make_goal_context(
                            globals,
                            locals,
                            Goal::Prove(node.claim.clone()),
                            node.claim.source.range.start.line,
                        ),
                    )
                } else {
                    let mut message = "no node at path ".to_owned();
                    message.append(write_path(path).as_str());
                    Err(message)
                }
            },
        }
    }

    /// The context for a theorem at the top level; that of its block, if it has one.
    pub fn get_theorem_context(&self, theorem_name: &str) -> (r: Option<GoalContext>)
        ensures
            opt_view(r) == match theorem_index(self@.nodes, theorem_name@, 0) {
                None => None,
                Some(i) => match context_at(
                    self@,
                    seq![i as usize],
                    seq![i as usize],
                    true,
                    Seq::empty(),
                    Seq::empty(),
                ) {
                    Ok(c) => Some(c),
                    Err(_) => None,
                },
            },
    {
        proof {
            lemma_env_view(*self);
        }
        let mut i: usize = 0;
        while i < self.nodes.len()
            invariant
                i <= self.nodes.len(),
                self@.nodes == views(self.nodes@),
                theorem_index(self@.nodes, theorem_name@, 0) == theorem_index(
                    self@.nodes,
                    theorem_name@,
                    i as int,
                ),
            decreases self.nodes.len() - i,
        {
            proof {
                lemma_node_view(self.nodes@[i as int]);
                assert(self@.nodes[i as int] == self.nodes@[i as int]@);
            }
            if let Some(name) = self.nodes[i].claim.theorem_name() {
                if same_text(name, theorem_name) {
                    let mut path: Vec<usize> = Vec::new();
                    path.push(i);
                    assert(path@ =~= seq![i]);
                    return match self.get_goal_context(&path) {
                        Ok(c) => Some(c),
                        Err(_) => None,
                    };
                }
            }
            i = i + 1;
        }
        None
    }

    /// The first goal with a name, in the order of the goals.
    pub fn get_goal_context_by_name(&self, name: &str) -> (r: Option<GoalContext>)
        ensures
            opt_view(r) == context_named(
                self@,
                paths_of(self@.nodes, Seq::empty(), self@.nodes.len()),
                name@,
                0,
            ),
    {
        let paths = self.goal_paths();
        let ghost all = views(paths@);
        let mut i: usize = 0;
        while i < paths.len()
            invariant
                i <= paths.len(),
                all == views(paths@),
                all == paths_of(self@.nodes, Seq::empty(), self@.nodes.len()),
                context_named(self@, all, name@, 0) == context_named(self@, all, name@, i as int),
            decreases paths.len() - i,
        {
            assert(all[i as int] == paths@[i as int]@);
            if let Ok(context) = self.get_goal_context(&paths[i]) {
                if same_text(context.name.as_str(), name) {
                    return Some(context);
                }
            }
            i = i + 1;
        }
        None
    }

    /// The path to the goal for a given zero-based line, or a message on why this line is
    /// unusable. Messages use one-based line numbers.
    pub fn get_path_for_line(&self, line: u32) -> (r: Result<Vec<usize>, String>)
        ensures
            match r {
                Ok(p) => path_for_line(self@, None, line as int, Seq::empty()) == Ok::<
                    Seq<usize>,
                    Seq<char>,
                >(p@),
                Err(e) => path_for_line(self@, None, line as int, Seq::empty()) == Err::<
                    Seq<usize>,
                    Seq<char>,
                >(e@),
            },
    {
        let path: Vec<usize> = Vec::new();
        assert(path@ =~= Seq::<usize>::empty());
        self.path_for_line_from(None, line as u64, path)
    }

    fn path_for_line_from(&self, goal: Option<bool>, line: u64, path: Vec<usize>) -> (r: Result<
        Vec<usize>,
        String,
    >)
        requires
            line <= u32::MAX,
        ensures
            match r {
                Ok(p) => path_for_line(self@, goal, line as int, path@) == Ok::<
                    Seq<usize>,
                    Seq<char>,
                >(p@),
                Err(e) => path_for_line(self@, goal, line as int, path@) == Err::<
                    Seq<usize>,
                    Seq<char>,
                >(e@),
            },
        decreases self,
    {
        proof {
            lemma_env_view(*self);
        }
        let mut path = path;
        match self.lines.get_line_type(line) {
            Some(LineType::Node(i)) => {
                if i >= self.nodes.len() {
                    return Err(line_message("line ", line, " is out of range"));
                }
                let node = &self.nodes[i];
                proof {
                    lemma_node_view(*node);
                    assert(self@.nodes[i as int] == node@);
                    assert(decreases_to!(self => self.nodes));
                    assert(decreases_to!(self.nodes => self.nodes@[i as int]));
                }
                if node.claim.source.is_axiom() {
                    return Err(line_message("line ", line, " is an axiom"));
                }
                path.push(i);
                match &node.block {
                    Some(b) => {
                        proof {
                            lemma_block_view(*b);
                        }
                        b.env.path_for_line_from(Some(b.goal.is_some()), line, path)
                    },
                    None => Ok(path),
                }
            },
            Some(LineType::Opening) | Some(LineType::Closing) => match goal {
                Some(true) => Ok(path),
                Some(false) => Err(line_error("no claim for block at line ", line)),
                None => Err(line_error("brace but no block, line ", line)),
            },
            Some(LineType::Other) => Err(line_message("line ", line, " is not a prop")),
            None => Err(line_message("line ", line, " is out of range")),
            Some(LineType::Empty) => self.slide(goal, line, path),
        }
    }

    // We let the user insert a proof in an area by clicking on an empty line where the proof
    // would go. To find the statement we're proving, we "slide" into the next prop.
    fn slide(&self, goal: Option<bool>, line: u64, path: Vec<usize>) -> (r: Result<
        Vec<usize>,
        String,
    >)
        requires
            line <= u32::MAX,
        ensures
            match r {
                Ok(p) => slide_from(self@, goal, line as int, line + 1, path@) == Ok::<
                    Seq<usize>,
                    Seq<char>,
                >(p@),
                Err(e) => slide_from(self@, goal, line as int, line + 1, path@) == Err::<
                    Seq<usize>,
                    Seq<char>,
                >(e@),
            },
    {
        proof {
            lemma_env_view(*self);
        }
        let next_line = self.lines.next_line();
        let mut out = path;
        let mut slide = line + 1;
        loop
            invariant
                line < slide <= u32::MAX + 2,
                line <= u32::MAX,
                next_line == self.lines@.next_line(),
                next_line <= u32::MAX + 1,
                self@.nodes == views(self.nodes@),
                self@.lines == self.lines@,
                out@ == path@,
                slide_from(self@, goal, line as int, line + 1, path@) == slide_from(
                    self@,
                    goal,
                    line as int,
                    slide as int,
                    path@,
                ),
            decreases u32::MAX + 3 - slide,
        {
            match self.lines.get_line_type(slide) {
                Some(LineType::Node(i)) => {
                    if i >= self.nodes.len() {
                        return Err(line_error("slide to end, line ", slide));
                    }
                    let node = &self.nodes[i];
                    proof {
                        lemma_node_view(*node);
                        assert(self@.nodes[i as int] == node@);
                    }
                    if node.claim.source.is_axiom() {
                        return Err(line_error("slide to axiom, line ", slide));
                    }
                    if node.block.is_none() {
                        out.push(i);
                        return Ok(out);
                    }
                    // We can't slide into a block, because the proof would be inserted into the
                    // block, rather than here.
                    let mut message = line_error("blocked slide ", line);
                    message.append(" -> ");
                    message.append(line_number(slide).as_str());
                    return Err(message);
                },
                Some(LineType::Empty) => {
                    // Keep sliding
                    slide = slide + 1;
                },
                Some(LineType::Closing) => {
                    // Sliding into the end of our block is okay
                    return match goal {
                        Some(true) => Ok(out),
                        Some(false) => Err("slide to end but no claim".to_owned()),
                        None => Err(line_error("close brace but no block, line ", slide)),
                    };
                },
                Some(LineType::Opening) => {
                    return Err(line_error("slide to open brace, line ", slide));
                },
                Some(LineType::Other) => {
                    return Err(line_error("slide to non-prop ", slide));
                },
                None => {
                    return Err(line_error("slide to end, line ", slide));
                },
            }
        }
    }

    /// Whether a line belongs to this environment.
    pub fn covers_line(&self, line: u32) -> (r: bool)
        ensures
            r == (self@.lines.at(line as int) is Some),
    {
        proof {
            lemma_env_view(*self);
        }
        self.lines.covers_line(line as u64)
    }

    /// The definition of a name, if it has one.
    pub fn get_definition(&self, name: &str) -> (r: Option<&AcornValue>)
        ensures
            opt_view(r) == self@.bindings.definition(name@),
    {
        proof {
            lemma_env_view(*self);
        }
        self.bindings.get_definition(name)
    }

    /// The claim of the first theorem at the top level that has a name.
    pub fn get_theorem_claim(&self, name: &str) -> (r: Option<AcornValue>)
        ensures
            opt_view(r) == match theorem_index(self@.nodes, name@, 0) {
                Some(i) => Some(self@.nodes[i].claim.value),
                None => None,
            },
    {
        proof {
            lemma_env_view(*self);
        }
        let mut i: usize = 0;
        while i < self.nodes.len()
            invariant
                i <= self.nodes.len(),
                self@.nodes == views(self.nodes@),
                theorem_index(self@.nodes, name@, 0) == theorem_index(
                    self@.nodes,
                    name@,
                    i as int,
                ),
            decreases self.nodes.len() - i,
        {
            proof {
                lemma_node_view(self.nodes@[i as int]);
                assert(self@.nodes[i as int] == self.nodes@[i as int]@);
            }
            if let Some(n) = self.nodes[i].claim.theorem_name() {
                if same_text(n, name) {
                    return Some(self.nodes[i].claim.value.clone());
                }
            }
            i = i + 1;
        }
        None
    }

    /// Whether each line that belongs to a node with a block is covered by that block, at every
    /// depth.
    pub fn check_lines(&self) -> (r: bool)
        ensures
            r == lines_consistent(self@),
        decreases self,
    {
        proof {
            lemma_env_view(*self);
        }
        let mut line: u64 = self.lines.first_line() as u64;
        let next = self.lines.next_line();
        while line < next
            invariant
                self@.lines.first_line <= line <= next == self@.lines.next_line(),
                next <= u32::MAX + 1,
                self@.lines == self.lines@,
                self@.nodes == views(self.nodes@),
                forall|l: int| self@.lines.first_line <= l < line ==> #[trigger] line_consistent(
                    self@,
                    l,
                ),
            decreases next - line,
        {
            if let Some(LineType::Node(i)) = self.lines.get_line_type(line) {
                if i < self.nodes.len() {
                    let node = &self.nodes[i];
                    proof {
                        lemma_node_view(*node);
                        assert(self@.nodes[i as int] == node@);
                    }
                    if let Some(block) = &node.block {
                        proof {
                            lemma_block_view(*block);
                            lemma_env_view(block.env);
                        }
                        if !block.env.covers_line(line as u32) {
                            assert(!line_consistent(self@, line as int));
                            return false;
                        }
                    }
                }
            }
            line = line + 1;
        }
        assert forall|l: int| #[trigger] line_consistent(self@, l) by {}
        let mut i: usize = 0;
        while i < self.nodes.len()
            invariant
                i <= self.nodes.len(),
                self@.nodes == views(self.nodes@),
                forall|k: int|
                    0 <= k < i ==> match (#[trigger] self@.nodes[k]).block {
                        Some(b) => lines_consistent(b.env),
                        None => true,
                    },
            decreases self.nodes.len() - i,
        {
            let node = &self.nodes[i];
            proof {
                lemma_node_view(*node);
                assert(self@.nodes[i as int] == node@);
                assert(decreases_to!(self => self.nodes));
                assert(decreases_to!(self.nodes => self.nodes@[i as int]));
            }
            if let Some(block) = &node.block {
                proof {
                    lemma_block_view(*block);
                }
                if !block.env.check_lines() {
                    assert(!nodes_consistent(self@.nodes));
                    return false;
                }
            }
            i = i + 1;
        }
        assert(nodes_consistent(self@.nodes));
        true
    }
}

/// Whether a path leads to a goal: through blocks, to a block with a goal or to a claim without a
/// block.
pub open spec fn is_goal_path(env: EnvV, path: Seq<usize>) -> bool
    decreases path.len(),
{
    path.len() > 0 && path[0] < env.nodes.len() && match env.nodes[path[0] as int].block {
        Some(b) => if path.len() == 1 {
            b.goal is Some
        } else {
            is_goal_path(b.env, path.skip(1))
        },
        None => path.len() == 1,
    }
}

proof fn lemma_context_at_goal(
    env: EnvV,
    path: Seq<usize>,
    whole: Seq<usize>,
    top: bool,
    global_facts: Seq<PropositionV>,
    local_facts: Seq<PropositionV>,
)
    ensures
        context_at(env, path, whole, top, global_facts, local_facts) is Ok <==> is_goal_path(
            env,
            path,
        ),
    decreases path.len(),
{
    if path.len() > 1 && path[0] < env.nodes.len() {
        let before = claims(env.nodes.take(path[0] as int));
        let globals = if top {
            global_facts + before
        } else {
            global_facts
        };
        let locals = if top {
            local_facts
        } else {
            local_facts + before
        };
        match env.nodes[path[0] as int].block {
            Some(b) => lemma_context_at_goal(b.env, path.skip(1), whole, false, globals, locals),
            None => {},
        }
    }
}

/// Whether the nodes of an environment can be counted by machine, at every depth.
pub open spec fn countable(nodes: Seq<NodeV>) -> bool
    decreases nodes,
{
    nodes.len() <= usize::MAX && forall|k: int|
        0 <= k < nodes.len() ==> match (#[trigger] nodes[k]).block {
            Some(b) => countable(b.env.nodes),
            None => true,
        }
}

proof fn lemma_paths_lead_to_goals(env: EnvV, prepend: Seq<usize>, n: nat, i: int)
    requires
        countable(env.nodes),
        n <= env.nodes.len(),
        0 <= i < paths_of(env.nodes, prepend, n).len(),
    ensures
        ({
            let path = paths_of(env.nodes, prepend, n)[i];
            prepend.is_prefix_of(path) && is_goal_path(env, path.skip(prepend.len() as int))
        }),
    decreases env, n,
{
    let paths = paths_of(env.nodes, prepend, n);
    if n > 0 {
        let before = paths_of(env.nodes, prepend, (n - 1) as nat);
        let node = env.nodes[n - 1];
        let here = prepend.push((n - 1) as usize);
        if i < before.len() {
            lemma_paths_lead_to_goals(env, prepend, (n - 1) as nat, i);
            assert(paths[i] == before[i]);
        } else {
            let rest = here.skip(prepend.len() as int);
            assert(rest =~= seq![(n - 1) as usize]);
            match node.block {
                None => {
                    assert(paths[i] == here);
                },
                Some(b) => {
                    let inner = paths_of(b.env.nodes, here, b.env.nodes.len());
                    let k = i - before.len();
                    if k < inner.len() {
                        assert(decreases_to!(env => env.nodes));
                        assert(decreases_to!(env.nodes => env.nodes[n - 1]));
                        lemma_paths_lead_to_goals(b.env, here, b.env.nodes.len(), k);
                        let path = inner[k];
                        assert(paths[i] == path);
                        let relative = path.skip(prepend.len() as int);
                        assert(path[prepend.len() as int] == here[prepend.len() as int]);
                        assert(relative[0] == n - 1);
                        assert(relative.skip(1) =~= path.skip(here.len() as int));
                    } else {
                        assert(paths[i] == here);
                    }
                },
            }
        }
    }
}

/// Every path in the list of goal paths leads to a goal with a context.
pub proof fn law_goal_paths_have_contexts(env: EnvV, i: int)
    requires
        countable(env.nodes),
        0 <= i < paths_of(env.nodes, Seq::empty(), env.nodes.len()).len(),
    ensures
        ({
            let path = paths_of(env.nodes, Seq::empty(), env.nodes.len())[i];
            context_at(env, path, path, true, Seq::empty(), Seq::empty()) is Ok
        }),
{
    let path = paths_of(env.nodes, Seq::empty(), env.nodes.len())[i];
    lemma_paths_lead_to_goals(env, Seq::empty(), env.nodes.len(), i);
    assert(path.skip(0) =~= path);
    lemma_context_at_goal(env, path, path, true, Seq::empty(), Seq::empty());
}

/// Whether a path goes on from another to a goal, or ends with a block that has one.
spec fn goes_to_goal(env: EnvV, goal: Option<bool>, path: Seq<usize>, found: Seq<usize>) -> bool {
    path.is_prefix_of(found) && (found == path && goal == Some(true) || is_goal_path(
        env,
        found.skip(path.len() as int),
    ))
}

proof fn lemma_one_more(env: EnvV, goal: Option<bool>, path: Seq<usize>, i: usize)
    requires
        i < env.nodes.len(),
        env.nodes[i as int].block is None,
    ensures
        goes_to_goal(env, goal, path, path.push(i)),
{
    assert(path.push(i).skip(path.len() as int) =~= seq![i]);
}

proof fn lemma_slide(env: EnvV, goal: Option<bool>, line: int, slide: int, path: Seq<usize>)
    ensures
        slide_from(env, goal, line, slide, path) matches Ok(found) ==> goes_to_goal(
            env,
            goal,
            path,
            found,
        ),
    decreases env.lines.next_line() - slide,
{
    match env.lines.at(slide) {
        Some(LineType::Empty) => lemma_slide(env, goal, line, slide + 1, path),
        Some(LineType::Node(i)) => {
            if i < env.nodes.len() && env.nodes[i as int].block is None {
                lemma_one_more(env, goal, path, i);
            }
        },
        _ => {},
    }
}

proof fn lemma_line_leads_to_goal(env: EnvV, goal: Option<bool>, line: int, path: Seq<usize>)
    ensures
        path_for_line(env, goal, line, path) matches Ok(found) ==> goes_to_goal(
            env,
            goal,
            path,
            found,
        ),
    decreases env,
{
    match env.lines.at(line) {
        Some(LineType::Node(i)) => {
            if i < env.nodes.len() {
                match env.nodes[i as int].block {
                    None => lemma_one_more(env, goal, path, i),
                    Some(b) => {
                        assert(decreases_to!(env => env.nodes));
                        assert(decreases_to!(env.nodes => env.nodes[i as int]));
                        let inner_goal = Some(b.goal is Some);
                        lemma_line_leads_to_goal(b.env, inner_goal, line, path.push(i));
                        match path_for_line(b.env, inner_goal, line, path.push(i)) {
                            Ok(found) => {
                                let relative = found.skip(path.len() as int);
                                assert(found[path.len() as int] == path.push(i)[path.len() as int]);
                                assert(relative[0] == i);
                                assert(relative.skip(1) =~= found.skip(path.push(i).len() as int));
                                if found == path.push(i) {
                                    assert(relative =~= seq![i]);
                                }
                            },
                            Err(_) => {},
                        }
                    },
                }
            }
        },
        Some(LineType::Empty) => lemma_slide(env, goal, line, line + 1, path),
        _ => {},
    }
}

/// The path for a line, where there is one, leads to a goal with a context.
pub proof fn law_line_paths_have_contexts(env: EnvV, line: int)
    ensures
        path_for_line(env, None, line, Seq::empty()) matches Ok(path) ==> context_at(
            env,
            path,
            path,
            true,
            Seq::empty(),
            Seq::empty(),
        ) is Ok,
{
    lemma_line_leads_to_goal(env, None, line, Seq::empty());
    match path_for_line(env, None, line, Seq::empty()) {
        Ok(path) => {
            assert(path.skip(0) =~= path);
            lemma_context_at_goal(env, path, path, true, Seq::empty(), Seq::empty());
        },
        Err(_) => {},
    }
}

/// Whether a path leads to something to prove: past nodes that are not structural, to one without a
/// block or with a block that has a goal.
pub open spec fn leads_to_goal(nodes: Seq<NodeV>, path: Seq<usize>) -> bool
    decreases path.len(),
{
    if path.len() == 0 || path[0] >= nodes.len() || nodes[path[0] as int].structural {
        false
    } else if path.len() == 1 {
        match nodes[path[0] as int].block {
            Some(b) => b.goal is Some,
            None => true,
        }
    } else {
        match nodes[path[0] as int].block {
            Some(b) => leads_to_goal(b.env.nodes, path.skip(1)),
            None => false,
        }
    }
}

/// Whether a goal is to be proved before another: it is inside the block of the other, or it comes
/// first where their paths part.
pub open spec fn proved_before(a: Seq<usize>, b: Seq<usize>) -> bool
    decreases b.len(),
{
    if b.len() == 0 {
        a.len() > 0
    } else if a.len() == 0 {
        false
    } else if a[0] != b[0] {
        a[0] < b[0]
    } else {
        proved_before(a.skip(1), b.skip(1))
    }
}

/// Whether a list has only goal paths among the first `n` nodes, each after `prepend`.
spec fn only_goals(nodes: Seq<NodeV>, prepend: Seq<usize>, n: nat, list: Seq<Seq<usize>>) -> bool {
    forall|i: int|
        0 <= i < list.len() ==> is_goal_after(nodes, prepend, n, #[trigger] list[i])
}

/// Whether a path goes on from `prepend` to a goal among the first `n` nodes.
spec fn is_goal_after(nodes: Seq<NodeV>, prepend: Seq<usize>, n: nat, q: Seq<usize>) -> bool {
    let m = prepend.len() as int;
    q.len() > m && q.take(m) == prepend && q[m] < n && leads_to_goal(nodes, q.skip(m))
}

/// Whether a list has the goals in the order in which they are to be proved, after the first `m`
/// parts of their paths.
spec fn in_proving_order(list: Seq<Seq<usize>>, m: int) -> bool {
    forall|i: int, j: int|
        0 <= i < j < list.len() ==> proved_before(
            (#[trigger] list[i]).skip(m),
            (#[trigger] list[j]).skip(m),
        )
}

/// The paths inside the block of a node.
spec fn inner_paths(node: NodeV, path: Seq<usize>) -> Seq<Seq<usize>> {
    match node.block {
        Some(b) => paths_of(b.env.nodes, path, b.env.nodes.len()),
        None => Seq::empty(),
    }
}

/// The path of a node itself, where it is a goal.
spec fn own_path(node: NodeV, path: Seq<usize>) -> Seq<Seq<usize>> {
    match node.block {
        Some(b) => if b.goal is Some {
            seq![path]
        } else {
            Seq::empty()
        },
        None => seq![path],
    }
}

proof fn lemma_paths_unfold(nodes: Seq<NodeV>, prepend: Seq<usize>, n: nat)
    requires
        0 < n <= nodes.len(),
    ensures
        ({
            let path = prepend.push((n - 1) as usize);
            let before = paths_of(nodes, prepend, (n - 1) as nat);
            let node = nodes[n - 1];
            paths_of(nodes, prepend, n) == if node.structural {
                before
            } else {
                before + inner_paths(node, path) + own_path(node, path)
            }
        }),
{
    let path = prepend.push((n - 1) as usize);
    let before = paths_of(nodes, prepend, (n - 1) as nat);
    let node = nodes[n - 1];
    if !node.structural {
        assert(paths_of(nodes, prepend, n) =~= before + inner_paths(node, path) + own_path(
            node,
            path,
        ));
    }
}

/// A path inside the block of node `k`, seen from outside the block.
proof fn lemma_inner_path(nodes: Seq<NodeV>, prepend: Seq<usize>, k: usize, q: Seq<usize>)
    requires
        k < nodes.len(),
        !nodes[k as int].structural,
        nodes[k as int].block is Some,
        q.len() > prepend.len() + 1,
        q.take(prepend.len() as int + 1) == prepend.push(k),
        leads_to_goal(nodes[k as int].block->0.env.nodes, q.skip(prepend.len() as int + 1)),
    ensures
        q.take(prepend.len() as int) == prepend,
        q[prepend.len() as int] == k,
        q.skip(prepend.len() as int)[0] == k,
        q.skip(prepend.len() as int).skip(1) == q.skip(prepend.len() as int + 1),
        leads_to_goal(nodes, q.skip(prepend.len() as int)),
{
    let m = prepend.len() as int;
    let first = q.take(m + 1);
    assert(first[m] == k);
    assert(q.take(m) =~= first.take(m));
    assert(first.take(m) =~= prepend);
    assert(q.skip(m).skip(1) =~= q.skip(m + 1));
}

proof fn lemma_only_goals(nodes: Seq<NodeV>, prepend: Seq<usize>, n: nat)
    requires
        countable(nodes),
        n <= nodes.len(),
    ensures
        only_goals(nodes, prepend, n, paths_of(nodes, prepend, n)),
    decreases nodes, n,
{
    if n > 0 {
        lemma_only_goals(nodes, prepend, (n - 1) as nat);
        lemma_paths_unfold(nodes, prepend, n);
        let m = prepend.len() as int;
        let k = (n - 1) as usize;
        let node = nodes[n - 1];
        let path = prepend.push(k);
        let before = paths_of(nodes, prepend, (n - 1) as nat);
        let inner = inner_paths(node, path);
        let all = paths_of(nodes, prepend, n);
        if let Some(b) = node.block {
            lemma_only_goals(b.env.nodes, path, b.env.nodes.len());
        }
        assert forall|i: int| 0 <= i < all.len() implies is_goal_after(
            nodes,
            prepend,
            n,
            #[trigger] all[i],
        ) by {
            if i < before.len() {
                assert(all[i] == before[i]);
                assert(is_goal_after(nodes, prepend, (n - 1) as nat, before[i]));
            } else if i < before.len() + inner.len() {
                let b = node.block->0;
                let q = inner[i - before.len()];
                assert(all[i] == q);
                assert(is_goal_after(b.env.nodes, path, b.env.nodes.len(), q));
                lemma_inner_path(nodes, prepend, k, q);
            } else {
                assert(all[i] == path);
                assert(path.skip(m) =~= seq![k]);
                assert(path.take(m) =~= prepend);
            }
        }
    }
}

proof fn lemma_all_goals(nodes: Seq<NodeV>, prepend: Seq<usize>, n: nat, p: Seq<usize>)
    requires
        countable(nodes),
        n <= nodes.len(),
        leads_to_goal(nodes, p),
        p[0] < n,
    ensures
        paths_of(nodes, prepend, n).contains(prepend + p),
    decreases nodes, n,
{
    lemma_paths_unfold(nodes, prepend, n);
    let k = (n - 1) as usize;
    let node = nodes[n - 1];
    let path = prepend.push(k);
    let before = paths_of(nodes, prepend, (n - 1) as nat);
    let inner = inner_paths(node, path);
    let all = paths_of(nodes, prepend, n);
    let q = prepend + p;
    if p[0] < n - 1 {
        lemma_all_goals(nodes, prepend, (n - 1) as nat, p);
        let i = choose|i: int| 0 <= i < before.len() && before[i] == q;
        assert(all[i] == q);
    } else {
        assert(p[0] == k && nodes[p[0] as int] == node);
        if p.len() == 1 {
            assert(q =~= path);
            assert(all[all.len() - 1] == path);
        } else {
            let rest = p.skip(1);
            let b = node.block->0;
            assert(leads_to_goal(b.env.nodes, rest));
            assert(rest[0] < b.env.nodes.len());
            lemma_all_goals(b.env.nodes, path, b.env.nodes.len(), rest);
            assert(path + rest =~= q);
            let i = choose|i: int| 0 <= i < inner.len() && inner[i] == q;
            assert(all[before.len() + i] == q);
        }
    }
}

proof fn lemma_proving_order(nodes: Seq<NodeV>, prepend: Seq<usize>, n: nat)
    requires
        countable(nodes),
        n <= nodes.len(),
    ensures
        in_proving_order(paths_of(nodes, prepend, n), prepend.len() as int),
    decreases nodes, n,
{
    if n > 0 {
        lemma_proving_order(nodes, prepend, (n - 1) as nat);
        lemma_only_goals(nodes, prepend, (n - 1) as nat);
        lemma_paths_unfold(nodes, prepend, n);
        let m = prepend.len() as int;
        let k = (n - 1) as usize;
        let node = nodes[n - 1];
        let path = prepend.push(k);
        let before = paths_of(nodes, prepend, (n - 1) as nat);
        let inner = inner_paths(node, path);
        let all = paths_of(nodes, prepend, n);
        let c = before.len() as int;
        let d = c + inner.len();
        if let Some(b) = node.block {
            lemma_proving_order(b.env.nodes, path, b.env.nodes.len());
            lemma_only_goals(b.env.nodes, path, b.env.nodes.len());
        }
        if !node.structural {
            assert forall|i: int| c <= i < all.len() implies (#[trigger] all[i]).skip(m).len() > 0
                && all[i].skip(m)[0] == k by {
                if i < d {
                    let q = inner[i - c];
                    let b = node.block->0;
                    assert(all[i] == q);
                    assert(is_goal_after(b.env.nodes, path, b.env.nodes.len(), q));
                    lemma_inner_path(nodes, prepend, k, q);
                } else {
                    assert(all[i] == path);
                }
            }
            assert forall|i: int, j: int| 0 <= i < j < all.len() implies proved_before(
                (#[trigger] all[i]).skip(m),
                (#[trigger] all[j]).skip(m),
            ) by {
                let x = all[i].skip(m);
                let y = all[j].skip(m);
                if j < c {
                    assert(all[i] == before[i] && all[j] == before[j]);
                    assert(proved_before(before[i].skip(m), before[j].skip(m)));
                } else if i < c {
                    assert(all[i] == before[i]);
                    assert(is_goal_after(nodes, prepend, (n - 1) as nat, before[i]));
                    assert(x[0] == all[i][m]);
                    assert(y[0] == k);
                    assert(proved_before(x, y));
                } else {
                    let b = node.block->0;
                    let v = inner[i - c];
                    assert(all[i] == v);
                    assert(is_goal_after(b.env.nodes, path, b.env.nodes.len(), v));
                    assert(x.skip(1) =~= v.skip(m + 1));
                    if j < d {
                        let u = inner[j - c];
                        assert(all[j] == u);
                        assert(is_goal_after(b.env.nodes, path, b.env.nodes.len(), u));
                        assert(y.skip(1) =~= u.skip(m + 1));
                        assert(path.len() == m + 1);
                        assert(proved_before(v.skip(m + 1), u.skip(m + 1)));
                    } else {
                        assert(all[j] == path);
                        assert(y.skip(1) =~= Seq::<usize>::empty());
                        assert(x.skip(1).len() > 0);
                    }
                    assert(x[0] == k && y[0] == k);
                    assert(proved_before(x.skip(1), y.skip(1)));
                    assert(proved_before(x, y));
                }
            }
        }
    }
}

proof fn lemma_not_before_itself(a: Seq<usize>)
    ensures
        !proved_before(a, a),
    decreases a.len(),
{
    if a.len() > 0 {
        lemma_not_before_itself(a.skip(1));
    }
}

/// The nodes of an environment, and those of the blocks inside it, can be numbered.
pub proof fn law_nodes_can_be_numbered(e: Environment)
    ensures
        countable(e@.nodes),
    decreases e,
{
    lemma_env_view(e);
    assert(e.nodes.len() == e.nodes@.len());
    assert forall|k: int| 0 <= k < e@.nodes.len() implies match (#[trigger] e@.nodes[k]).block {
        Some(b) => countable(b.env.nodes),
        None => true,
    } by {
        let node = e.nodes@[k];
        lemma_node_view(node);
        assert(e@.nodes[k] == node@);
        if let Some(b) = node.block {
            lemma_block_view(b);
            assert(decreases_to!(e => e.nodes));
            assert(decreases_to!(e.nodes => e.nodes@[k]));
            law_nodes_can_be_numbered(b.env);
        }
    }
}

/// The goal paths are the paths to all that is to be proved, each once. What is inside a block comes
/// before the goal of the block, and nodes side by side come in their order.
pub proof fn law_goal_paths_are_complete(env: EnvV)
    requires
        countable(env.nodes),
    ensures
        ({
            let list = paths_of(env.nodes, Seq::empty(), env.nodes.len());
            &&& forall|path: Seq<usize>| #[trigger]
                list.contains(path) <==> leads_to_goal(env.nodes, path)
            &&& list.no_duplicates()
            &&& forall|i: int, j: int|
                0 <= i < j < list.len() ==> proved_before(#[trigger] list[i], #[trigger] list[j])
        }),
{
    let none = Seq::<usize>::empty();
    let list = paths_of(env.nodes, none, env.nodes.len());
    lemma_only_goals(env.nodes, none, env.nodes.len());
    lemma_proving_order(env.nodes, none, env.nodes.len());
    assert forall|path: Seq<usize>| #[trigger] list.contains(path) <==> leads_to_goal(
        env.nodes,
        path,
    ) by {
        assert(none + path =~= path);
        if list.contains(path) {
            let i = choose|i: int| 0 <= i < list.len() && list[i] == path;
            assert(is_goal_after(env.nodes, none, env.nodes.len(), list[i]));
            assert(list[i].skip(0) =~= path);
        }
        if leads_to_goal(env.nodes, path) {
            lemma_all_goals(env.nodes, none, env.nodes.len(), path);
        }
    }
    assert forall|i: int, j: int| 0 <= i < j < list.len() implies proved_before(
        #[trigger] list[i],
        #[trigger] list[j],
    ) by {
        assert(list[i].skip(0) =~= list[i] && list[j].skip(0) =~= list[j]);
    }
    assert forall|i: int, j: int|
        0 <= i < list.len() && 0 <= j < list.len() && i != j implies list[i] != list[j] by {
        lemma_not_before_itself(list[i]);
        if i < j {
            assert(proved_before(list[i], list[j]));
        } else {
            assert(proved_before(list[j], list[i]));
        }
    }
}

} // verus!
