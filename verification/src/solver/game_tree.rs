//! Game trees stored as a flat arena of nodes.

use vstd::prelude::*;

use crate::solver::action::Action;

verus! {

/// Index into the flat node arena.
pub type NodeIndex = u32;

/// A single node in the game tree.
#[derive(Clone, Debug)]
pub enum GameTreeNode {
    /// The game is over.
    Terminal {
        /// Chips won by player 0 (player 1 wins the negation: the game is zero-sum).
        payoff_p0: i32,
    },
    /// Nature deals a card: `(card, child)` pairs.
    Chance { children: Vec<(u8, NodeIndex)> },
    /// A player chooses an action.
    Decision {
        /// Which player acts (0 or 1).
        player: u8,
        /// The actions available here.
        actions: Vec<Action>,
        /// One child per action, in the same order as `actions`.
        children: Vec<NodeIndex>,
        /// The information set this node belongs to.
        info_set_idx: u32,
    },
}

/// A complete game tree.
pub struct GameTree {
    /// All nodes, children always stored before their parents.
    pub nodes: Vec<GameTreeNode>,
    /// Index of the root node.
    pub root: NodeIndex,
    /// Number of distinct information sets.
    pub num_info_sets: u32,
    /// Number of actions at each information set.
    pub actions_per_info_set: Vec<u8>,
}

/// Node `n`, stored at index `i`, only points at earlier nodes, and a
/// decision node names an information set of `aps` with as many actions as
/// it has children.
pub open spec fn node_ok(n: GameTreeNode, i: int, aps: Seq<u8>) -> bool {
    match n {
        GameTreeNode::Terminal { .. } => true,
        GameTreeNode::Chance { children } => {
            &&& children@.len() > 0
            &&& forall|j: int| 0 <= j < children@.len() ==> (#[trigger] children@[j]).1 < i
        },
        GameTreeNode::Decision { player, actions, children, info_set_idx } => {
            &&& player < 2
            &&& actions@.len() == children@.len()
            &&& children@.len() >= 2
            &&& forall|j: int| 0 <= j < children@.len() ==> #[trigger] children@[j] < i
            &&& info_set_idx < aps.len()
            &&& aps[info_set_idx as int] == actions@.len()
        },
    }
}

/// Every node of `nodes` is well formed against the information sets `aps`.
pub open spec fn nodes_ok(nodes: Seq<GameTreeNode>, aps: Seq<u8>) -> bool {
    forall|i: int| 0 <= i < nodes.len() ==> node_ok(#[trigger] nodes[i], i, aps)
}

/// A well-formed tree: the root is a node, every node points only at earlier
/// nodes, and the nodes of an information set all offer its number of actions.
pub open spec fn tree_wf(t: GameTree) -> bool {
    &&& t.root < t.nodes@.len()
    &&& t.num_info_sets == t.actions_per_info_set@.len()
    &&& nodes_ok(t.nodes@, t.actions_per_info_set@)
}

/// Two decisions in one information set are decisions of one player.
pub open spec fn same_info_same_player(a: GameTreeNode, b: GameTreeNode) -> bool {
    (a is Decision && b is Decision && a->info_set_idx == b->info_set_idx) ==> a->player
        == b->player
}

/// Every information set of the tree belongs to a single player.
pub open spec fn info_sets_single_player(t: GameTree) -> bool {
    forall|i: int, j: int|
        0 <= i < t.nodes@.len() && 0 <= j < t.nodes@.len() ==> #[trigger] same_info_same_player(
            t.nodes@[i],
            t.nodes@[j],
        )
}

/// Growing the information-set table keeps every node well formed.
pub proof fn lemma_nodes_ok_grow(nodes: Seq<GameTreeNode>, aps: Seq<u8>, aps2: Seq<u8>)
    requires
        nodes_ok(nodes, aps),
        aps.len() <= aps2.len(),
        aps2.subrange(0, aps.len() as int) == aps,
    ensures
        nodes_ok(nodes, aps2),
{
    assert forall|i: int| 0 <= i < nodes.len() implies node_ok(#[trigger] nodes[i], i, aps2) by {
        assert(node_ok(nodes[i], i, aps));
        match nodes[i] {
            GameTreeNode::Decision { info_set_idx, .. } => {
                assert(aps2.subrange(0, aps.len() as int)[info_set_idx as int] == aps2[info_set_idx as int]);
            },
            _ => {},
        }
    }
}

impl GameTree {
    /// The node at `idx`.
    pub fn node(&self, idx: NodeIndex) -> (r: &GameTreeNode)
        requires
            (idx as int) < self.nodes@.len(),
        ensures
            *r == self.nodes@[idx as int],
    {
        &self.nodes[idx as usize]
    }
}

} // verus!
