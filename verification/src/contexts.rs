//! The facts of a goal's context are what comes before the goal.

use vstd::prelude::*;

use crate::environment::{claims, context_at, EnvV, GoalV, NodeV};
use crate::proposition::PropositionV;

verus! {

/// The nodes side by side with the one at a place of a path: at the first place those at the top,
/// at the next those inside the block of the first node on the path, and so on. Behind the last
/// place are those inside the block of the last node, where it has one.
pub open spec fn nodes_at(nodes: Seq<NodeV>, path: Seq<usize>, level: nat) -> Seq<NodeV>
    decreases level,
{
    if level == 0 {
        nodes
    } else {
        match nodes[path[0] as int].block {
            Some(b) => nodes_at(b.env.nodes, path.skip(1), (level - 1) as nat),
            None => Seq::empty(),
        }
    }
}

/// How many nodes come before those on a path, at its first places taken together.
pub open spec fn count_before(path: Seq<usize>, level: nat) -> nat
    decreases level,
{
    if level == 0 {
        0
    } else {
        count_before(path, (level - 1) as nat) + path[level - 1] as nat
    }
}

proof fn lemma_count_skip(path: Seq<usize>, level: nat)
    requires
        level < path.len(),
    ensures
        count_before(path, level + 1) == path[0] + count_before(path.skip(1), level),
    decreases level,
{
    if level > 0 {
        lemma_count_skip(path, (level - 1) as nat);
    } else {
        reveal_with_fuel(count_before, 2);
    }
}

proof fn lemma_count_grows(path: Seq<usize>, k: nat, n: nat)
    requires
        k <= n <= path.len(),
    ensures
        count_before(path, k) <= count_before(path, n),
        k < n ==> count_before(path, k) + path[k as int] <= count_before(path, n),
    decreases n,
{
    if k < n {
        lemma_count_grows(path, k, (n - 1) as nat);
    }
}

/// Whether facts are the claims of the nodes before those on a path, place by place and in order,
/// and then those of the nodes inside the block of the last one.
pub open spec fn lists_before(
    nodes: Seq<NodeV>,
    path: Seq<usize>,
    facts: Seq<PropositionV>,
) -> bool {
    let n = path.len();
    let inner = nodes_at(nodes, path, n);
    &&& facts.len() == count_before(path, n) + inner.len()
    &&& forall|k: nat, j: int|
        k < n && 0 <= j < path[k as int] ==> facts[#[trigger] count_before(path, k) + j]
            == (#[trigger] nodes_at(nodes, path, k)[j]).claim
    &&& forall|j: int|
        0 <= j < inner.len() ==> facts[count_before(path, n) + j] == (#[trigger] inner[j]).claim
}

proof fn lemma_longer(
    nodes: Seq<NodeV>,
    path: Seq<usize>,
    rest: Seq<PropositionV>,
    facts: Seq<PropositionV>,
)
    requires
        path.len() > 1,
        path[0] < nodes.len(),
        nodes[path[0] as int].block matches Some(b) && lists_before(
            b.env.nodes,
            path.skip(1),
            rest,
        ),
        facts == claims(nodes.take(path[0] as int)) + rest,
    ensures
        lists_before(nodes, path, facts),
{
    let b = nodes[path[0] as int].block->0;
    let tail = path.skip(1);
    let n = path.len();
    let before = claims(nodes.take(path[0] as int));
    lemma_count_skip(path, (n - 1) as nat);
    assert(nodes_at(nodes, path, n) == nodes_at(b.env.nodes, tail, (n - 1) as nat));
    assert forall|k: nat, j: int| k < n && 0 <= j < path[k as int] implies facts[
        #[trigger] count_before(path, k) + j
    ] == (#[trigger] nodes_at(nodes, path, k)[j]).claim by {
        if k == 0 {
            assert(facts[j] == before[j]);
        } else {
            let i = (k - 1) as nat;
            lemma_count_skip(path, i);
            lemma_count_grows(tail, i, tail.len());
            assert(tail[i as int] == path[k as int]);
            assert(nodes_at(nodes, path, k) == nodes_at(b.env.nodes, tail, i));
            assert(rest[count_before(tail, i) + j] == nodes_at(b.env.nodes, tail, i)[j].claim);
            assert(facts[path[0] + (count_before(tail, i) + j)] == rest[count_before(tail, i) + j]);
        }
    }
    let inner = nodes_at(nodes, path, n);
    assert forall|j: int| 0 <= j < inner.len() implies facts[count_before(path, n) + j] == (
    #[trigger] inner[j]).claim by {
        assert(rest[count_before(tail, tail.len()) + j] == nodes_at(
            b.env.nodes,
            tail,
            tail.len(),
        )[j].claim);
    }
}

proof fn lemma_single(nodes: Seq<NodeV>, path: Seq<usize>, facts: Seq<PropositionV>)
    requires
        path.len() == 1,
        path[0] < nodes.len(),
        facts == claims(nodes.take(path[0] as int)) + claims(nodes_at(nodes, path, 1)),
    ensures
        lists_before(nodes, path, facts),
{
    let before = claims(nodes.take(path[0] as int));
    reveal_with_fuel(count_before, 2);
    assert(count_before(path, 1) == path[0]);
    assert forall|k: nat, j: int| k < 1 && 0 <= j < path[k as int] implies facts[
        #[trigger] count_before(path, k) + j
    ] == (#[trigger] nodes_at(nodes, path, k)[j]).claim by {
        assert(facts[j] == before[j]);
    }
}

/// The goal at the end of a path.
pub open spec fn is_goal_of(nodes: Seq<NodeV>, path: Seq<usize>, goal: GoalV) -> bool {
    let last = nodes_at(nodes, path, (path.len() - 1) as nat)[path.last() as int];
    match last.block {
        Some(b) => b.goal == Some(goal),
        None => goal == GoalV::Prove(last.claim),
    }
}

proof fn lemma_below(
    env: EnvV,
    path: Seq<usize>,
    whole: Seq<usize>,
    globals: Seq<PropositionV>,
    locals: Seq<PropositionV>,
)
    ensures
        context_at(env, path, whole, false, globals, locals) matches Ok(c) ==> c.global_facts
            == globals && (exists|rest: Seq<PropositionV>| #[trigger]
            lists_before(env.nodes, path, rest) && c.local_facts == locals + rest) && is_goal_of(
            env.nodes,
            path,
            c.goal,
        ),
    decreases path.len(),
{
    if let Ok(c) = context_at(env, path, whole, false, globals, locals) {
        let before = claims(env.nodes.take(path[0] as int));
        let node = env.nodes[path[0] as int];
        if path.len() == 1 {
            reveal_with_fuel(nodes_at, 2);
            let rest = before + claims(nodes_at(env.nodes, path, 1));
            lemma_single(env.nodes, path, rest);
            assert(c.local_facts =~= locals + rest);
        } else {
            let b = node.block->0;
            lemma_below(b.env, path.skip(1), whole, globals, locals + before);
            let tail = choose|rest: Seq<PropositionV>| #[trigger]
                lists_before(b.env.nodes, path.skip(1), rest) && c.local_facts == locals + before
                    + rest;
            let rest = before + tail;
            lemma_longer(env.nodes, path, tail, rest);
            assert(c.local_facts =~= locals + rest);
            assert(path.skip(1).last() == path.last());
            assert(nodes_at(env.nodes, path, (path.len() - 1) as nat) == nodes_at(
                b.env.nodes,
                path.skip(1),
                (path.len() - 2) as nat,
            ));
        }
    }
}

/// The facts of a goal's context are, in order, the claims of the nodes that come before each node
/// on the path to the goal, and, where the last node has a block, the claims inside this block.
/// Nothing of a node on the path itself is among them, nor of what comes after one. The facts from
/// the top are the global ones. The goal is that of the last node's block, or else its claim.
pub proof fn law_facts_come_before_the_goal(env: EnvV, path: Seq<usize>)
    ensures
        context_at(env, path, path, true, Seq::empty(), Seq::empty()) matches Ok(c) ==> {
            &&& path.len() > 0 && c.global_facts.len() == path[0]
            &&& lists_before(env.nodes, path, c.global_facts + c.local_facts)
            &&& is_goal_of(env.nodes, path, c.goal)
        },
{
    let none = Seq::<PropositionV>::empty();
    if let Ok(c) = context_at(env, path, path, true, none, none) {
        let before = claims(env.nodes.take(path[0] as int));
        let node = env.nodes[path[0] as int];
        assert(none + before =~= before);
        if path.len() == 1 {
            reveal_with_fuel(nodes_at, 2);
            let rest = before + claims(nodes_at(env.nodes, path, 1));
            lemma_single(env.nodes, path, rest);
            assert(c.global_facts + c.local_facts =~= rest);
        } else {
            let b = node.block->0;
            lemma_below(b.env, path.skip(1), path, before, none);
            let tail = choose|rest: Seq<PropositionV>| #[trigger]
                lists_before(b.env.nodes, path.skip(1), rest) && c.local_facts == none + rest;
            assert(none + tail =~= tail);
            lemma_longer(env.nodes, path, tail, before + tail);
            assert(path.skip(1).last() == path.last());
            assert(nodes_at(env.nodes, path, (path.len() - 1) as nat) == nodes_at(
                b.env.nodes,
                path.skip(1),
                (path.len() - 2) as nat,
            ));
        }
    }
}

} // verus!
