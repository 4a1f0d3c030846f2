//! Small poker games whose equilibria are known, for validating solvers.

use vstd::prelude::*;

use crate::solver::action::Action;
use crate::solver::game_tree::{
    info_sets_single_player,
    lemma_nodes_ok_grow,
    node_ok,
    nodes_ok,
    same_info_same_player,
    tree_wf,
    GameTree,
    GameTreeNode,
    NodeIndex,
};

verus! {

/// The board value of an information set seen before any board card.
pub const NO_BOARD: u8 = 255;

/// What a player knows at a decision: who they are, their card, the board
/// card and the actions so far.
pub type InfoKeyView = (u8, u8, u8, Seq<u8>);

/// The key of an information set.
struct InfoKey {
    player: u8,
    card: u8,
    board: u8,
    history: Vec<u8>,
}

spec fn key_view(k: InfoKey) -> InfoKeyView {
    (k.player, k.card, k.board, k.history@)
}

/// No key occurs twice in `s`.
pub open spec fn keys_distinct(s: Seq<InfoKeyView>) -> bool {
    forall|i: int, j: int| 0 <= i < j < s.len() ==> s[i] != s[j]
}

/// The information sets met so far, numbered in the order they were first met.
struct InfoSets {
    keys: Vec<InfoKey>,
    actions_per_info_set: Vec<u8>,
}

impl InfoSets {
    spec fn view_keys(&self) -> Seq<InfoKeyView> {
        self.keys@.map_values(|k: InfoKey| key_view(k))
    }

    spec fn wf(&self) -> bool {
        &&& self.keys@.len() == self.actions_per_info_set@.len()
        &&& keys_distinct(self.view_keys())
    }

    fn new() -> (r: InfoSets)
        ensures
            r.wf(),
            r.view_keys() == Seq::<InfoKeyView>::empty(),
            r.actions_per_info_set@ == Seq::<u8>::empty(),
    {
        let r = InfoSets { keys: Vec::new(), actions_per_info_set: Vec::new() };
        assert(r.view_keys() =~= Seq::<InfoKeyView>::empty());
        r
    }

    /// The index of the information set `(player, card, board, history)`,
    /// numbering it next (with `n_actions` actions) when it is new.
    fn get(&mut self, player: u8, card: u8, board: u8, history: &Vec<u8>, n_actions: u8) -> (r: u32)
        requires
            old(self).wf(),
            old(self).keys@.len() < u32::MAX,
        ensures
            final(self).wf(),
            (r as int) < final(self).keys@.len(),
            final(self).view_keys()[r as int] == (player, card, board, history@),
            old(self).view_keys().contains((player, card, board, history@)) ==> {
                &&& final(self).view_keys() == old(self).view_keys()
                &&& final(self).actions_per_info_set@ == old(self).actions_per_info_set@
            },
            !old(self).view_keys().contains((player, card, board, history@)) ==> {
                &&& final(self).view_keys() == old(self).view_keys().push(
                    (player, card, board, history@),
                )
                &&& final(self).actions_per_info_set@ == old(self).actions_per_info_set@.push(
                    n_actions,
                )
            },
    {
        let ghost key = (player, card, board, history@);
        let mut i: usize = 0;
        while i < self.keys.len()
            invariant
                self.wf(),
                self.keys@.len() < u32::MAX,
                self.view_keys() == old(self).view_keys(),
                self.actions_per_info_set@ == old(self).actions_per_info_set@,
                key == (player, card, board, history@),
                i <= self.keys@.len(),
                forall|j: int| 0 <= j < i ==> self.view_keys()[j] != key,
            decreases self.keys@.len() - i,
        {
            let k = &self.keys[i];
            assert(self.view_keys()[i as int] == key_view(self.keys@[i as int]));
            if k.player == player && k.card == card && k.board == board && same_history(
                &k.history,
                history,
            ) {
                assert(self.view_keys()[i as int] == key);
                return i as u32;
            }
            i = i + 1;
        }
        assert(!self.view_keys().contains(key)) by {
            if self.view_keys().contains(key) {
                let j = choose|j: int| 0 <= j < self.view_keys().len() && self.view_keys()[j] == key;
                assert(self.view_keys()[j] != key);
            }
        }
        let idx = self.keys.len();
        let ghost old_keys = self.view_keys();
        let mut copy: Vec<u8> = Vec::new();
        let mut t: usize = 0;
        while t < history.len()
            invariant
                t <= history@.len(),
                copy@ == history@.take(t as int),
            decreases history@.len() - t,
        {
            copy.push(history[t]);
            assert(history@.take(t + 1) =~= history@.take(t as int).push(history@[t as int]));
            t = t + 1;
        }
        assert(history@.take(history@.len() as int) =~= history@);
        self.keys.push(InfoKey { player, card, board, history: copy });
        self.actions_per_info_set.push(n_actions);
        assert(self.view_keys() =~= old_keys.push(key));
        idx as u32
    }
}

/// Whether two action histories are equal.
fn same_history(a: &Vec<u8>, b: &Vec<u8>) -> (r: bool)
    ensures
        r == (a@ == b@),
{
    if a.len() != b.len() {
        return false;
    }
    let mut i: usize = 0;
    while i < a.len()
        invariant
            a@.len() == b@.len(),
            i <= a@.len(),
            forall|j: int| 0 <= j < i ==> a@[j] == b@[j],
        decreases a@.len() - i,
    {
        if a[i] != b[i] {
            return false;
        }
        i = i + 1;
    }
    assert(a@ =~= b@);
    true
}

/// Append `node`, returning its index.
fn push_node(nodes: &mut Vec<GameTreeNode>, node: GameTreeNode) -> (r: NodeIndex)
    requires
        old(nodes)@.len() < u32::MAX,
    ensures
        r == old(nodes)@.len(),
        final(nodes)@ == old(nodes)@.push(node),
{
    let idx = nodes.len() as NodeIndex;
    nodes.push(node);
    idx
}

/// A vector of two items.
fn pair_vec<T>(a: T, b: T) -> (r: Vec<T>)
    ensures
        r@ == seq![a, b],
{
    let mut v = Vec::new();
    v.push(a);
    v.push(b);
    assert(v@ =~= seq![a, b]);
    v
}

/// An action history.
fn history_of(s: &[u8]) -> (r: Vec<u8>)
    ensures
        r@ == s@,
{
    let mut v = Vec::new();
    let mut i: usize = 0;
    while i < s.len()
        invariant
            i <= s@.len(),
            v@ == s@.take(i as int),
        decreases s@.len() - i,
    {
        v.push(s[i]);
        assert(s@.take(i + 1) =~= s@.take(i as int).push(s@[i as int]));
        i = i + 1;
    }
    assert(s@.take(s@.len() as int) =~= s@);
    v
}

/// Kuhn poker: a three-card deck (Jack, Queen, King), two players who ante
/// one chip each and are dealt one card, one round of check or bet, and the
/// higher card winning at showdown. Player 0's equilibrium value is -1/18.
pub struct KuhnPoker;

/// The cards `(player 0, player 1)` of deal `d`: Jack 0, Queen 1, King 2.
pub open spec fn kuhn_deal(d: int) -> (u8, u8) {
    if d == 0 {
        (0, 1)
    } else if d == 1 {
        (0, 2)
    } else if d == 2 {
        (1, 0)
    } else if d == 3 {
        (1, 2)
    } else if d == 4 {
        (2, 0)
    } else {
        (2, 1)
    }
}

/// The history seen at each kind of Kuhn decision (0 check, 1 bet): player 0
/// first to act (kind 0), player 1 after a check (1), player 0 facing a bet
/// after checking (2), player 1 facing a bet (3).
pub open spec fn kuhn_history(kind: int) -> Seq<u8> {
    if kind == 0 {
        seq![]
    } else if kind == 1 {
        seq![0u8]
    } else if kind == 2 {
        seq![0u8, 1u8]
    } else {
        seq![1u8]
    }
}

/// Who acts at each kind of Kuhn decision.
pub open spec fn kuhn_player(kind: int) -> u8 {
    if kind == 0 || kind == 2 {
        0
    } else {
        1
    }
}

/// The information set of a decision of kind `kind` with the acting
/// player's card `card`, numbered in the order the deals meet them.
pub open spec fn kuhn_info_set(kind: int, card: int) -> int {
    if kind == 0 {
        if card == 0 {
            0
        } else if card == 1 {
            6
        } else {
            10
        }
    } else if kind == 1 {
        if card == 0 {
            7
        } else if card == 1 {
            1
        } else {
            4
        }
    } else if kind == 2 {
        if card == 0 {
            2
        } else if card == 1 {
            8
        } else {
            11
        }
    } else {
        if card == 0 {
            9
        } else if card == 1 {
            3
        } else {
            5
        }
    }
}

/// The kind of decision of Kuhn information set `i`.
pub open spec fn kuhn_kind_of(i: int) -> int {
    if i == 0 || i == 6 || i == 10 {
        0
    } else if i == 1 || i == 4 || i == 7 {
        1
    } else if i == 2 || i == 8 || i == 11 {
        2
    } else {
        3
    }
}

/// The acting player's card at Kuhn information set `i`.
pub open spec fn kuhn_card_of(i: int) -> int {
    if i == 0 || i == 2 || i == 7 || i == 9 {
        0
    } else if i == 1 || i == 3 || i == 6 || i == 8 {
        1
    } else {
        2
    }
}

/// The key of Kuhn information set `i`.
pub open spec fn kuhn_key(i: int) -> InfoKeyView {
    (
        kuhn_player(kuhn_kind_of(i)),
        kuhn_card_of(i) as u8,
        NO_BOARD,
        kuhn_history(kuhn_kind_of(i)),
    )
}

/// The twelve Kuhn information sets in order.
pub open spec fn kuhn_keys() -> Seq<InfoKeyView> {
    Seq::new(12, |i: int| kuhn_key(i))
}

/// The chips player 0 wins at a showdown of deal `d` where each player put
/// in `stake` chips.
pub open spec fn kuhn_showdown(d: int, stake: int) -> int {
    if kuhn_deal(d).0 > kuhn_deal(d).1 {
        stake
    } else {
        -stake
    }
}

/// Whether `n` is a terminal node paying player 0 `p` chips.
pub open spec fn is_terminal(n: GameTreeNode, p: int) -> bool {
    n matches GameTreeNode::Terminal { payoff_p0 } && payoff_p0 == p
}

/// Whether `n` is a decision of `player` between `actions` leading to
/// `children`, in information set `info`.
pub open spec fn is_decision(
    n: GameTreeNode,
    player: u8,
    actions: Seq<Action>,
    children: Seq<NodeIndex>,
    info: int,
) -> bool {
    &&& n matches GameTreeNode::Decision { player: p, actions: a, children: c, info_set_idx }
    &&& p == player
    &&& a@ == actions
    &&& c@ == children
    &&& info_set_idx == info
}

/// Node `k` (0 to 8) of the subtree of deal `d`, whose nodes start at
/// `b`: the showdown after two checks, player 0's fold and call after a
/// check and a bet, player 0's reply, player 1's choice after a check,
/// player 1's fold and call facing a bet, player 1's reply, and player 0's
/// first decision.
pub open spec fn kuhn_node_ok(n: GameTreeNode, d: int, b: int, k: int) -> bool {
    let c0 = kuhn_deal(d).0 as int;
    let c1 = kuhn_deal(d).1 as int;
    if k == 0 {
        is_terminal(n, kuhn_showdown(d, 1))
    } else if k == 1 {
        is_terminal(n, -1)
    } else if k == 2 {
        is_terminal(n, kuhn_showdown(d, 2))
    } else if k == 3 {
        is_decision(
            n,
            0,
            seq![Action::Fold, Action::Call],
            seq![(b + 1) as u32, (b + 2) as u32],
            kuhn_info_set(2, c0),
        )
    } else if k == 4 {
        is_decision(
            n,
            1,
            seq![Action::Check, Action::Bet(10000)],
            seq![b as u32, (b + 3) as u32],
            kuhn_info_set(1, c1),
        )
    } else if k == 5 {
        is_terminal(n, 1)
    } else if k == 6 {
        is_terminal(n, kuhn_showdown(d, 2))
    } else if k == 7 {
        is_decision(
            n,
            1,
            seq![Action::Fold, Action::Call],
            seq![(b + 5) as u32, (b + 6) as u32],
            kuhn_info_set(3, c1),
        )
    } else {
        is_decision(
            n,
            0,
            seq![Action::Check, Action::Bet(10000)],
            seq![(b + 4) as u32, (b + 7) as u32],
            kuhn_info_set(0, c0),
        )
    }
}

/// The number of Kuhn information sets met after `d` deals.
pub open spec fn kuhn_seen(d: int) -> int {
    if d <= 0 {
        0
    } else if d == 1 {
        4
    } else if d == 2 {
        6
    } else if d <= 4 {
        10
    } else {
        12
    }
}

/// The Kuhn keys are pairwise different, and the numbering of decisions is
/// a numbering of the keys.
proof fn lemma_kuhn_keys()
    ensures
        keys_distinct(kuhn_keys()),
        forall|kind: int, card: int|
            0 <= kind < 4 && 0 <= card < 3 ==> {
                let i = #[trigger] kuhn_info_set(kind, card);
                &&& 0 <= i < 12
                &&& kuhn_key(i) == (kuhn_player(kind), card as u8, NO_BOARD, kuhn_history(kind))
            },
{
    assert(kuhn_history(1)[0] != kuhn_history(3)[0]);
    assert forall|i: int, j: int| 0 <= i < j < kuhn_keys().len() implies kuhn_keys()[i]
        != kuhn_keys()[j] by {
        let ki = kuhn_kind_of(i);
        let kj = kuhn_kind_of(j);
        if kuhn_keys()[i] == kuhn_keys()[j] {
            assert(kuhn_key(i) == kuhn_key(j));
            assert(kuhn_history(ki).len() == kuhn_history(kj).len());
            if ki != kj {
                assert((ki == 1 && kj == 3) || (ki == 3 && kj == 1));
                assert(kuhn_history(ki)[0] == kuhn_history(kj)[0]);
            }
        }
    }
}

/// The kind of decision at position `k` (3, 4, 7 or 8) of a deal's nodes.
pub open spec fn kuhn_slot_kind(k: int) -> int {
    if k == 8 {
        0
    } else if k == 4 {
        1
    } else if k == 3 {
        2
    } else {
        3
    }
}

/// The acting player's card at position `k` of deal `d`.
pub open spec fn kuhn_slot_card(d: int, k: int) -> int {
    if kuhn_player(kuhn_slot_kind(k)) == 0 {
        kuhn_deal(d).0 as int
    } else {
        kuhn_deal(d).1 as int
    }
}

/// Kuhn information sets are keyed by what the acting player knows: two
/// decisions of the tree share one exactly when the same player acts,
/// holding the same card, after the same actions.
pub proof fn lemma_kuhn_info_sets_keyed(
    n1: GameTreeNode,
    d1: int,
    k1: int,
    n2: GameTreeNode,
    d2: int,
    k2: int,
)
    requires
        0 <= d1 < 6,
        0 <= d2 < 6,
        k1 == 3 || k1 == 4 || k1 == 7 || k1 == 8,
        k2 == 3 || k2 == 4 || k2 == 7 || k2 == 8,
        kuhn_node_ok(n1, d1, 9 * d1, k1),
        kuhn_node_ok(n2, d2, 9 * d2, k2),
    ensures
        n1 is Decision,
        n2 is Decision,
        (n1->info_set_idx == n2->info_set_idx) <==> (kuhn_player(kuhn_slot_kind(k1)) == kuhn_player(
            kuhn_slot_kind(k2),
        ) && kuhn_history(kuhn_slot_kind(k1)) == kuhn_history(kuhn_slot_kind(k2))
            && kuhn_slot_card(d1, k1) == kuhn_slot_card(d2, k2)),
{
    lemma_kuhn_keys();
    let a = kuhn_slot_kind(k1);
    let b = kuhn_slot_kind(k2);
    let c1 = kuhn_slot_card(d1, k1);
    let c2 = kuhn_slot_card(d2, k2);
    let i1 = kuhn_info_set(a, c1);
    let i2 = kuhn_info_set(b, c2);
    assert(n1->info_set_idx == i1);
    assert(n2->info_set_idx == i2);
    assert(kuhn_history(1)[0] != kuhn_history(3)[0]);
    if i1 == i2 {
        assert(kuhn_key(i1) == kuhn_key(i2));
    }
    if kuhn_player(a) == kuhn_player(b) && kuhn_history(a) == kuhn_history(b) && c1 == c2 {
        assert(kuhn_history(a).len() == kuhn_history(b).len());
        if a != b {
            assert((a == 1 && b == 3) || (a == 3 && b == 1));
            assert(kuhn_history(a)[0] == kuhn_history(b)[0]);
        }
    }
}

/// Kuhn decisions in one information set belong to one player.
proof fn lemma_kuhn_single_player(nodes: Seq<GameTreeNode>)
    requires
        nodes.len() == 55,
        nodes[54] is Chance,
        forall|d: int, k: int|
            0 <= d < 6 && 0 <= k < 9 ==> kuhn_node_ok(#[trigger] nodes[9 * d + k], d, 9 * d, k),
    ensures
        forall|i: int, j: int|
            0 <= i < nodes.len() && 0 <= j < nodes.len() ==> #[trigger] same_info_same_player(
                nodes[i],
                nodes[j],
            ),
{
    assert forall|i: int, j: int| 0 <= i < nodes.len() && 0 <= j < nodes.len() implies #[trigger] same_info_same_player(
        nodes[i],
        nodes[j],
    ) by {
        if nodes[i] is Decision && nodes[j] is Decision {
            let d1 = i / 9;
            let k1 = i % 9;
            let d2 = j / 9;
            let k2 = j % 9;
            assert(i == 9 * d1 + k1);
            assert(j == 9 * d2 + k2);
            assert(kuhn_node_ok(nodes[9 * d1 + k1], d1, 9 * d1, k1));
            assert(kuhn_node_ok(nodes[9 * d2 + k2], d2, 9 * d2, k2));
            assert(k1 == 3 || k1 == 4 || k1 == 7 || k1 == 8);
            assert(k2 == 3 || k2 == 4 || k2 == 7 || k2 == 8);
            lemma_kuhn_info_sets_keyed(nodes[i], d1, k1, nodes[j], d2, k2);
        }
    }
}

/// Look up a Kuhn information set whose number is `idx`, when the table
/// holds the first `seen` keys and `idx` is at most `seen`.
fn kuhn_lookup(table: &mut InfoSets, kind: u8, card: u8, history: &Vec<u8>, Ghost(seen): Ghost<
    int,
>) -> (r: u32)
    requires
        old(table).wf(),
        kind < 4,
        card < 3,
        history@ == kuhn_history(kind as int),
        0 <= seen <= 12,
        old(table).view_keys() == kuhn_keys().take(seen),
        old(table).actions_per_info_set@ == Seq::new(seen as nat, |i: int| 2u8),
        kuhn_info_set(kind as int, card as int) <= seen,
    ensures
        final(table).wf(),
        r == kuhn_info_set(kind as int, card as int),
        final(table).view_keys() == kuhn_keys().take(
            if r < seen {
                seen
            } else {
                seen + 1
            },
        ),
        final(table).actions_per_info_set@ == Seq::new(
            (if r < seen {
                seen
            } else {
                seen + 1
            }) as nat,
            |i: int| 2u8,
        ),
{
    proof {
        lemma_kuhn_keys();
    }
    let ghost idx = kuhn_info_set(kind as int, card as int);
    let ghost key = (kuhn_player(kind as int), card, NO_BOARD, history@);
    assert(kuhn_keys()[idx] == key);
    let player: u8 = if kind == 0 || kind == 2 {
        0
    } else {
        1
    };
    let r = table.get(player, card, NO_BOARD, history, 2);
    proof {
    if idx < seen {
        assert(old(table).view_keys()[idx] == key);
        assert(old(table).view_keys().contains(key));
        assert(final(table).view_keys()[idx] == key);
    } else {
        assert(!old(table).view_keys().contains(key)) by {
            if old(table).view_keys().contains(key) {
                let j = choose|j: int|
                    0 <= j < old(table).view_keys().len() && old(table).view_keys()[j] == key;
                assert(kuhn_keys()[j] == kuhn_keys()[idx]);
            }
        }
        assert(table.view_keys() =~= kuhn_keys().take(seen + 1));
        assert(table.view_keys()[idx] == key);
        assert(table.actions_per_info_set@ =~= Seq::new((seen + 1) as nat, |i: int| 2u8));
    }
    }
    r
}

impl KuhnPoker {
    /// Build the Kuhn poker game tree: a chance node at the root dealing one of
    /// the six ordered pairs of different cards, each deal followed by the same
    /// nine nodes. Information sets are keyed by the acting player, their card
    /// and the actions so far, and numbered in the order the deals meet them.
    pub fn build_tree() -> (t: GameTree)
        ensures
            tree_wf(t),
            t.nodes@.len() == 55,
            t.root == 54,
            t.num_info_sets == 12,
            t.actions_per_info_set@ == Seq::new(12, |i: int| 2u8),
            forall|d: int, k: int|
                0 <= d < 6 && 0 <= k < 9 ==> kuhn_node_ok(
                    #[trigger] t.nodes@[9 * d + k],
                    d,
                    9 * d,
                    k,
                ),
            t.nodes@[54] matches GameTreeNode::Chance { children } && children@ == Seq::new(
                6,
                |d: int| (d as u8, (9 * d + 8) as u32),
            ),
            info_sets_single_player(t),
    {
        let mut nodes: Vec<GameTreeNode> = Vec::new();
        let mut table = InfoSets::new();
        let mut deal_children: Vec<(u8, NodeIndex)> = Vec::new();
        let empty: Vec<u8> = Vec::new();
        let checked = history_of(&[0u8]);
        let check_bet = history_of(&[0u8, 1u8]);
        let bet = history_of(&[1u8]);
        let mut d: usize = 0;
        while d < 6
            invariant
                d <= 6,
                table.wf(),
                nodes@.len() == 9 * d,
                table.view_keys() == kuhn_keys().take(kuhn_seen(d as int)),
                table.actions_per_info_set@ == Seq::new(kuhn_seen(d as int) as nat, |i: int| 2u8),
                nodes_ok(nodes@, table.actions_per_info_set@),
                forall|e: int, k: int|
                    0 <= e < d && 0 <= k < 9 ==> kuhn_node_ok(
                        #[trigger] nodes@[9 * e + k],
                        e,
                        9 * e,
                        k,
                    ),
                deal_children@ == Seq::new(d as nat, |e: int| (e as u8, (9 * e + 8) as u32)),
                empty@ == kuhn_history(0),
                checked@ == kuhn_history(1),
                check_bet@ == kuhn_history(2),
                bet@ == kuhn_history(3),
            decreases 6 - d,
        {
            let ghost d_int = d as int;
            let ghost seen0 = kuhn_seen(d_int);
            let ghost start = nodes@;
            let ghost aps0 = table.actions_per_info_set@;
            proof {
                lemma_kuhn_seen_step(d_int);
            }
            let (c0, c1) = kuhn_cards(d);
            let win: bool = c0 > c1;
            let p0_first = kuhn_lookup(&mut table, 0, c0, &empty, Ghost(seen0));
            let ghost seen1 = if (p0_first as int) < seen0 {
                seen0
            } else {
                seen0 + 1
            };
            let p1_after_check = kuhn_lookup(&mut table, 1, c1, &checked, Ghost(seen1));
            let ghost seen2 = if (p1_after_check as int) < seen1 {
                seen1
            } else {
                seen1 + 1
            };
            let showdown_small = push_node(
                &mut nodes,
                GameTreeNode::Terminal {
                    payoff_p0: if win {
                        1
                    } else {
                        -1
                    },
                },
            );
            let p0_facing = kuhn_lookup(&mut table, 2, c0, &check_bet, Ghost(seen2));
            let ghost seen3 = if (p0_facing as int) < seen2 {
                seen2
            } else {
                seen2 + 1
            };
            let p0_folds = push_node(&mut nodes, GameTreeNode::Terminal { payoff_p0: -1 });
            let p0_calls = push_node(
                &mut nodes,
                GameTreeNode::Terminal {
                    payoff_p0: if win {
                        2
                    } else {
                        -2
                    },
                },
            );
            let p0_reply = push_node(
                &mut nodes,
                GameTreeNode::Decision {
                    player: 0,
                    actions: pair_vec(Action::Fold, Action::Call),
                    children: pair_vec(p0_folds, p0_calls),
                    info_set_idx: p0_facing,
                },
            );
            let p1_choice = push_node(
                &mut nodes,
                GameTreeNode::Decision {
                    player: 1,
                    actions: pair_vec(Action::Check, Action::Bet(10000)),
                    children: pair_vec(showdown_small, p0_reply),
                    info_set_idx: p1_after_check,
                },
            );
            let p1_facing = kuhn_lookup(&mut table, 3, c1, &bet, Ghost(seen3));
            let p1_folds = push_node(&mut nodes, GameTreeNode::Terminal { payoff_p0: 1 });
            let p1_calls = push_node(
                &mut nodes,
                GameTreeNode::Terminal {
                    payoff_p0: if win {
                        2
                    } else {
                        -2
                    },
                },
            );
            let p1_reply = push_node(
                &mut nodes,
                GameTreeNode::Decision {
                    player: 1,
                    actions: pair_vec(Action::Fold, Action::Call),
                    children: pair_vec(p1_folds, p1_calls),
                    info_set_idx: p1_facing,
                },
            );
            let p0_first_node = push_node(
                &mut nodes,
                GameTreeNode::Decision {
                    player: 0,
                    actions: pair_vec(Action::Check, Action::Bet(10000)),
                    children: pair_vec(p1_choice, p1_reply),
                    info_set_idx: p0_first,
                },
            );
            deal_children.push((d as u8, p0_first_node));
            proof {
                let aps = table.actions_per_info_set@;
                assert(aps0.len() <= aps.len());
                assert(aps.subrange(0, aps0.len() as int) =~= aps0);
                lemma_nodes_ok_grow(start, aps0, aps);
                assert forall|i: int| 0 <= i < nodes@.len() implies node_ok(
                    #[trigger] nodes@[i],
                    i,
                    aps,
                ) by {
                    if i < start.len() {
                        assert(nodes@[i] == start[i]);
                    }
                }
                assert forall|e: int, k: int| 0 <= e <= d_int && 0 <= k < 9 implies kuhn_node_ok(
                    #[trigger] nodes@[9 * e + k],
                    e,
                    9 * e,
                    k,
                ) by {
                    if e < d_int {
                        assert(nodes@[9 * e + k] == start[9 * e + k]);
                    }
                }
                assert(deal_children@ =~= Seq::new(
                    (d + 1) as nat,
                    |e: int| (e as u8, (9 * e + 8) as u32),
                ));
            }
            d = d + 1;
        }
        let root = push_node(&mut nodes, GameTreeNode::Chance { children: deal_children });
        let ghost aps = table.actions_per_info_set@;
        proof {
            assert forall|i: int| 0 <= i < nodes@.len() implies node_ok(#[trigger] nodes@[i], i, aps) by {
                if i < 54 {
                    assert(nodes@[i] == nodes@.drop_last()[i]);
                }
            }
            assert forall|d: int, k: int| 0 <= d < 6 && 0 <= k < 9 implies kuhn_node_ok(
                #[trigger] nodes@[9 * d + k],
                d,
                9 * d,
                k,
            ) by {
                assert(nodes@[9 * d + k] == nodes@.drop_last()[9 * d + k]);
            }
        }
        proof {
            lemma_kuhn_single_player(nodes@);
        }
        let num = table.keys.len() as u32;
        GameTree {
            nodes,
            root,
            num_info_sets: num,
            actions_per_info_set: table.actions_per_info_set,
        }
    }
}

/// Deal `d`'s new keys are exactly the ones `kuhn_seen` counts.
proof fn lemma_kuhn_seen_step(d: int)
    requires
        0 <= d < 6,
    ensures
        ({
            let c0 = kuhn_deal(d).0 as int;
            let c1 = kuhn_deal(d).1 as int;
            let s0 = kuhn_seen(d);
            let s1 = if kuhn_info_set(0, c0) < s0 {
                s0
            } else {
                s0 + 1
            };
            let s2 = if kuhn_info_set(1, c1) < s1 {
                s1
            } else {
                s1 + 1
            };
            let s3 = if kuhn_info_set(2, c0) < s2 {
                s2
            } else {
                s2 + 1
            };
            let s4 = if kuhn_info_set(3, c1) < s3 {
                s3
            } else {
                s3 + 1
            };
            &&& kuhn_info_set(0, c0) <= s0
            &&& kuhn_info_set(1, c1) <= s1
            &&& kuhn_info_set(2, c0) <= s2
            &&& kuhn_info_set(3, c1) <= s3
            &&& s4 == kuhn_seen(d + 1)
        }),
{
}

/// The cards of deal `d`.
fn kuhn_cards(d: usize) -> (r: (u8, u8))
    requires
        d < 6,
    ensures
        r == kuhn_deal(d as int),
{
    if d == 0 {
        (0, 1)
    } else if d == 1 {
        (0, 2)
    } else if d == 2 {
        (1, 0)
    } else if d == 3 {
        (1, 2)
    } else if d == 4 {
        (2, 0)
    } else {
        (2, 1)
    }
}

/// Leduc hold'em: a six-card deck (two suits of Jack, Queen, King), one
/// private card each, one board card, two betting rounds; a pair with the
/// board beats a higher card.
pub struct LeducPoker;

/// Chips player 0 wins at a Leduc showdown where each player put in `total`:
/// a pair with the board beats no pair, then the higher rank wins, and equal
/// ranks split the pot.
pub open spec fn leduc_showdown(p0_rank: int, p1_rank: int, board: int, total: int) -> int {
    let p0_pair = p0_rank == board;
    let p1_pair = p1_rank == board;
    if p0_pair && !p1_pair {
        total
    } else if !p0_pair && p1_pair {
        -total
    } else if p0_rank > p1_rank {
        total
    } else if p0_rank < p1_rank {
        -total
    } else {
        0
    }
}

/// The bet or raise action of `round`: two chips (the pot in basis points)
/// before the board, four after it.
pub open spec fn leduc_bet_action(round: int) -> Action {
    if round == 1 {
        Action::Bet(10000)
    } else {
        Action::Bet(20000)
    }
}

/// Chips per bet or raise in `round`.
pub open spec fn leduc_bet_size(round: int) -> int {
    if round == 1 {
        2
    } else {
        4
    }
}

/// The ordered pair of different cards (0 to 5; card `i` has rank `i / 2`)
/// of deal `d` (0 to 29): player 0's card runs slowest.
pub open spec fn leduc_deal(d: int) -> (int, int) {
    let p0 = d / 5;
    let j = d % 5;
    (p0, if j < p0 {
        j
    } else {
        j + 1
    })
}

/// The measure of the Leduc stages: the first round's, the board deal's, the
/// second round's.
pub open spec fn leduc_phase(round: int) -> int {
    if round == 1 {
        2
    } else {
        0
    }
}

/// Node `i` of `n` starts the subtree of a betting decision where nobody has
/// bet yet in `round`, `player` to act, ranks `p0` and `p1`, board rank
/// `board`, each player having `pot` chips in. The player checks or bets:
/// player 0's check passes the turn to player 1; player 1's check ends the
/// round (the board is dealt after the first round, a showdown for `pot`
/// ends the second); a bet faces the other player with the first bet.
pub open spec fn leduc_betting_ok(
    n: Seq<GameTreeNode>,
    i: int,
    p0: int,
    p1: int,
    board: int,
    player: int,
    pot: int,
    round: int,
) -> bool
    decreases leduc_phase(round), if player == 0 {
        10int
    } else {
        9int
    },
{
    &&& 0 <= i < n.len()
    &&& n[i] matches GameTreeNode::Decision { player: pl, actions, children, .. }
    &&& pl == player
    &&& actions@ == seq![Action::Check, leduc_bet_action(round)]
    &&& children@.len() == 2
    &&& if player == 0 {
        leduc_betting_ok(n, children@[0] as int, p0, p1, board, 1, pot, round)
    } else if round == 1 {
        leduc_deal_ok(n, children@[0] as int, p0, p1, pot)
    } else {
        0 <= children@[0] < n.len() && is_terminal(
            n[children@[0] as int],
            leduc_showdown(p0, p1, board, pot),
        )
    }
    &&& leduc_facing_ok(
        n,
        children@[1] as int,
        p0,
        p1,
        board,
        if player == 0 {
            1
        } else {
            0
        },
        pot,
        pot + leduc_bet_size(round),
        1,
        round,
    )
}

/// Node `i` of `n` starts the subtree of `player` facing the `raises`-th bet
/// or raise of `round`, having `pot` chips in against the bettor's `bettor`.
/// A fold pays the other player `pot`; a call ends the round (the board is
/// dealt after the first round, a showdown for `bettor` ends the second);
/// below two raises a raise faces the other player in turn.
pub open spec fn leduc_facing_ok(
    n: Seq<GameTreeNode>,
    i: int,
    p0: int,
    p1: int,
    board: int,
    player: int,
    pot: int,
    bettor: int,
    raises: int,
    round: int,
) -> bool
    decreases leduc_phase(round), if raises < 2 {
        5 - raises
    } else {
        0
    },
{
    &&& 0 <= i < n.len()
    &&& n[i] matches GameTreeNode::Decision { player: pl, actions, children, .. }
    &&& pl == player
    &&& actions@ == if raises < 2 {
        seq![Action::Fold, Action::Call, leduc_bet_action(round)]
    } else {
        seq![Action::Fold, Action::Call]
    }
    &&& children@.len() == actions@.len()
    &&& 0 <= children@[0] < n.len()
    &&& is_terminal(
        n[children@[0] as int],
        if player == 0 {
            -pot
        } else {
            pot
        },
    )
    &&& if round == 1 {
        leduc_deal_ok(n, children@[1] as int, p0, p1, bettor)
    } else {
        0 <= children@[1] < n.len() && is_terminal(
            n[children@[1] as int],
            leduc_showdown(p0, p1, board, bettor),
        )
    }
    &&& raises < 2 ==> leduc_facing_ok(
        n,
        children@[2] as int,
        p0,
        p1,
        board,
        if player == 0 {
            1
        } else {
            0
        },
        bettor,
        bettor + leduc_bet_size(round),
        raises + 1,
        round,
    )
}

/// Node `i` of `n` deals the board: one child for each rank 0, 1, 2, each
/// starting the second round with player 0 to act and `pot` chips in each.
pub open spec fn leduc_deal_ok(n: Seq<GameTreeNode>, i: int, p0: int, p1: int, pot: int) -> bool
    decreases 1int, 0int,
{
    &&& 0 <= i < n.len()
    &&& n[i] matches GameTreeNode::Chance { children }
    &&& children@.len() == 3
    &&& children@[0].0 == 0 && children@[1].0 == 1 && children@[2].0 == 2
    &&& leduc_betting_ok(n, children@[0].1 as int, p0, p1, 0, 0, pot, 2)
    &&& leduc_betting_ok(n, children@[1].1 as int, p0, p1, 1, 0, pot, 2)
    &&& leduc_betting_ok(n, children@[2].1 as int, p0, p1, 2, 0, pot, 2)
}

/// Deal `d` of the Leduc tree: its first betting round starts at node
/// `240 * d + 239`, with the ranks of the deal's cards, no board, player 0
/// to act and one chip each in.
pub open spec fn leduc_deal_played(n: Seq<GameTreeNode>, d: int) -> bool {
    leduc_betting_ok(
        n,
        240 * d + 239,
        leduc_deal(d).0 / 2,
        leduc_deal(d).1 / 2,
        NO_BOARD as int,
        0,
        1,
        1,
    )
}

/// The deals are numbered with player 0's card running slowest, skipping
/// the pairs of equal cards.
proof fn lemma_leduc_deal(p0: int, p1: int)
    requires
        0 <= p0 < 6,
        0 <= p1 < 6,
        p0 != p1,
    ensures
        leduc_deal(5 * p0 + p1 - (if p1 > p0 {
            1int
        } else {
            0int
        })) == (p0, p1),
{
    let j = p1 - (if p1 > p0 {
        1int
    } else {
        0int
    });
    let d = 5 * p0 + j;
    assert(0 <= j < 5);
    assert(d / 5 == p0) by (nonlinear_arith)
        requires
            d == 5 * p0 + j,
            0 <= j < 5,
    ;
    assert(d % 5 == j) by (nonlinear_arith)
        requires
            d == 5 * p0 + j,
            0 <= j < 5,
    ;
}

/// The betting subtrees stay as they are when nodes are added after them.
proof fn lemma_betting_extend(
    n: Seq<GameTreeNode>,
    n2: Seq<GameTreeNode>,
    i: int,
    p0: int,
    p1: int,
    board: int,
    player: int,
    pot: int,
    round: int,
)
    requires
        leduc_betting_ok(n, i, p0, p1, board, player, pot, round),
        n.len() <= n2.len(),
        n2.subrange(0, n.len() as int) == n,
    ensures
        leduc_betting_ok(n2, i, p0, p1, board, player, pot, round),
    decreases leduc_phase(round), if player == 0 {
        10int
    } else {
        9int
    },
{
    assert(n2[i] == n2.subrange(0, n.len() as int)[i]);
    let children = n[i]->Decision_children;
    if player == 0 {
        lemma_betting_extend(n, n2, children@[0] as int, p0, p1, board, 1, pot, round);
    } else if round == 1 {
        lemma_deal_extend(n, n2, children@[0] as int, p0, p1, pot);
    } else {
        assert(n2[children@[0] as int] == n2.subrange(0, n.len() as int)[children@[0] as int]);
    }
    lemma_facing_extend(
        n,
        n2,
        children@[1] as int,
        p0,
        p1,
        board,
        if player == 0 {
            1
        } else {
            0
        },
        pot,
        pot + leduc_bet_size(round),
        1,
        round,
    );
}

/// The facing subtrees stay as they are when nodes are added after them.
proof fn lemma_facing_extend(
    n: Seq<GameTreeNode>,
    n2: Seq<GameTreeNode>,
    i: int,
    p0: int,
    p1: int,
    board: int,
    player: int,
    pot: int,
    bettor: int,
    raises: int,
    round: int,
)
    requires
        leduc_facing_ok(n, i, p0, p1, board, player, pot, bettor, raises, round),
        n.len() <= n2.len(),
        n2.subrange(0, n.len() as int) == n,
    ensures
        leduc_facing_ok(n2, i, p0, p1, board, player, pot, bettor, raises, round),
    decreases leduc_phase(round), if raises < 2 {
        5 - raises
    } else {
        0
    },
{
    assert(n2[i] == n2.subrange(0, n.len() as int)[i]);
    let children = n[i]->Decision_children;
    assert(n2[children@[0] as int] == n2.subrange(0, n.len() as int)[children@[0] as int]);
    if round == 1 {
        lemma_deal_extend(n, n2, children@[1] as int, p0, p1, bettor);
    } else {
        assert(n2[children@[1] as int] == n2.subrange(0, n.len() as int)[children@[1] as int]);
    }
    if raises < 2 {
        lemma_facing_extend(
            n,
            n2,
            children@[2] as int,
            p0,
            p1,
            board,
            if player == 0 {
                1
            } else {
                0
            },
            bettor,
            bettor + leduc_bet_size(round),
            raises + 1,
            round,
        );
    }
}

/// The board deals stay as they are when nodes are added after them.
proof fn lemma_deal_extend(n: Seq<GameTreeNode>, n2: Seq<GameTreeNode>, i: int, p0: int, p1: int, pot: int)
    requires
        leduc_deal_ok(n, i, p0, p1, pot),
        n.len() <= n2.len(),
        n2.subrange(0, n.len() as int) == n,
    ensures
        leduc_deal_ok(n2, i, p0, p1, pot),
    decreases 1int, 0int,
{
    assert(n2[i] == n2.subrange(0, n.len() as int)[i]);
    let children = n[i]->Chance_children;
    lemma_betting_extend(n, n2, children@[0].1 as int, p0, p1, 0, 0, pot, 2);
    lemma_betting_extend(n, n2, children@[1].1 as int, p0, p1, 1, 0, pot, 2);
    lemma_betting_extend(n, n2, children@[2].1 as int, p0, p1, 2, 0, pot, 2);
}

/// The most chips a Leduc player can put in: the ante, a bet and a raise of
/// two chips before the board, and a bet and a raise of four after it.
pub open spec fn leduc_max_stake() -> int {
    13
}

/// The number of nodes of the whole Leduc tree.
pub open spec fn leduc_tree_size() -> int {
    7201
}

/// Nodes of the subtree below a decision where nobody has bet yet in
/// `round` and `player` is to act.
pub open spec fn betting_size(round: int, player: int) -> int {
    if round == 1 {
        if player == 0 {
            240
        } else {
            143
        }
    } else {
        if player == 0 {
            15
        } else {
            8
        }
    }
}

/// Nodes of the subtree below a decision facing the `raises`-th bet or
/// raise of `round`.
pub open spec fn facing_size(round: int, raises: int) -> int {
    if round == 1 {
        if raises == 1 {
            96
        } else {
            48
        }
    } else {
        if raises == 1 {
            6
        } else {
            3
        }
    }
}

/// Nodes of the subtree below the deal of the board card.
pub open spec fn board_deal_size() -> int {
    46
}

/// A terminal node pays at most `cap` chips either way.
pub open spec fn payoff_within(n: GameTreeNode, cap: int) -> bool {
    n matches GameTreeNode::Terminal { payoff_p0 } ==> -cap <= payoff_p0 <= cap
}

/// The number of actions at a Leduc decision with history `h`: three when
/// facing the first bet of a round (fold, call, raise), two otherwise.
pub open spec fn leduc_actions_for(h: Seq<u8>) -> u8 {
    if h.len() > 0 && h.last() == 1 {
        3
    } else {
        2
    }
}

/// Builds the Leduc tree node by node.
struct LeducBuilder {
    nodes: Vec<GameTreeNode>,
    info_sets: InfoSets,
}

/// Every recorded information set has the number of actions its history
/// calls for.
spec fn actions_match(t: InfoSets) -> bool {
    forall|i: int|
        0 <= i < t.keys@.len() ==> #[trigger] t.actions_per_info_set@[i] == leduc_actions_for(
            t.view_keys()[i].3,
        )
}

/// Node `n`, when a decision, is in an information set of `keys` whose key
/// names its player.
pub open spec fn decision_player_ok(n: GameTreeNode, keys: Seq<InfoKeyView>) -> bool {
    n matches GameTreeNode::Decision { player, info_set_idx, .. } ==> info_set_idx < keys.len()
        && keys[info_set_idx as int].0 == player
}

/// Every decision of `nodes` is in an information set whose key names its
/// player.
spec fn players_match(nodes: Seq<GameTreeNode>, keys: Seq<InfoKeyView>) -> bool {
    forall|i: int| 0 <= i < nodes.len() ==> decision_player_ok(#[trigger] nodes[i], keys)
}

/// `after` is `before` after one lookup: same nodes, at most one new
/// information set, the earlier ones unchanged.
spec fn looked_up(before: LeducBuilder, after: LeducBuilder) -> bool {
    &&& after.nodes@ == before.nodes@
    &&& players_match(after.nodes@, after.info_sets.view_keys())
    &&& after.info_sets.wf()
    &&& actions_match(after.info_sets)
    &&& nodes_ok(after.nodes@, after.info_sets.actions_per_info_set@)
    &&& before.info_sets.keys@.len() <= after.info_sets.keys@.len() <= before.info_sets.keys@.len()
        + 1
    &&& after.info_sets.view_keys().subrange(0, before.info_sets.keys@.len() as int)
        == before.info_sets.view_keys()
    &&& after.info_sets.actions_per_info_set@.subrange(
        0,
        before.info_sets.keys@.len() as int,
    ) == before.info_sets.actions_per_info_set@
}

/// How `after` grew from `before` by `size` nodes: earlier nodes and
/// information sets unchanged, every node well formed, at most one new
/// information set per new node, and every new payoff within the stakes.
spec fn grew_by(before: LeducBuilder, after: LeducBuilder, size: int) -> bool {
    &&& after.info_sets.wf()
    &&& players_match(after.nodes@, after.info_sets.view_keys())
    &&& actions_match(after.info_sets)
    &&& nodes_ok(after.nodes@, after.info_sets.actions_per_info_set@)
    &&& after.nodes@.len() == before.nodes@.len() + size
    &&& after.nodes@.subrange(0, before.nodes@.len() as int) == before.nodes@
    &&& before.info_sets.keys@.len() <= after.info_sets.keys@.len() <= before.info_sets.keys@.len()
        + size
    &&& after.info_sets.view_keys().subrange(0, before.info_sets.keys@.len() as int)
        == before.info_sets.view_keys()
    &&& after.info_sets.actions_per_info_set@.subrange(
        0,
        before.info_sets.keys@.len() as int,
    ) == before.info_sets.actions_per_info_set@
    &&& forall|i: int|
        before.nodes@.len() <= i < after.nodes@.len() ==> payoff_within(
            #[trigger] after.nodes@[i],
            leduc_max_stake(),
        )
}

/// `b` is a consistent builder with room for `size` more nodes.
spec fn has_room(b: LeducBuilder, size: int) -> bool {
    &&& b.info_sets.wf()
    &&& players_match(b.nodes@, b.info_sets.view_keys())
    &&& actions_match(b.info_sets)
    &&& nodes_ok(b.nodes@, b.info_sets.actions_per_info_set@)
    &&& b.nodes@.len() + size <= leduc_tree_size()
    &&& b.info_sets.keys@.len() + size <= leduc_tree_size()
}

/// Growth composes.
proof fn lemma_grew_trans(a: LeducBuilder, b: LeducBuilder, c: LeducBuilder, s1: int, s2: int)
    requires
        grew_by(a, b, s1),
        grew_by(b, c, s2),
        s1 >= 0,
        s2 >= 0,
    ensures
        grew_by(a, c, s1 + s2),
{
    let na = a.nodes@.len() as int;
    let nb = b.nodes@.len() as int;
    let ka = a.info_sets.keys@.len() as int;
    let kb = b.info_sets.keys@.len() as int;
    assert(c.nodes@.subrange(0, na) =~= a.nodes@) by {
        assert forall|i: int| 0 <= i < na implies c.nodes@.subrange(0, na)[i] == a.nodes@[i] by {
            assert(c.nodes@.subrange(0, nb)[i] == b.nodes@[i]);
            assert(b.nodes@.subrange(0, na)[i] == a.nodes@[i]);
        }
    }
    assert(c.info_sets.view_keys().subrange(0, ka) =~= a.info_sets.view_keys()) by {
        assert forall|i: int| 0 <= i < ka implies c.info_sets.view_keys().subrange(0, ka)[i]
            == a.info_sets.view_keys()[i] by {
            assert(c.info_sets.view_keys().subrange(0, kb)[i] == b.info_sets.view_keys()[i]);
            assert(b.info_sets.view_keys().subrange(0, ka)[i] == a.info_sets.view_keys()[i]);
        }
    }
    assert(c.info_sets.actions_per_info_set@.subrange(0, ka) =~= a.info_sets.actions_per_info_set@)
        by {
        assert forall|i: int| 0 <= i < ka implies c.info_sets.actions_per_info_set@.subrange(
            0,
            ka,
        )[i] == a.info_sets.actions_per_info_set@[i] by {
            assert(c.info_sets.actions_per_info_set@.subrange(0, kb)[i]
                == b.info_sets.actions_per_info_set@[i]);
            assert(b.info_sets.actions_per_info_set@.subrange(0, ka)[i]
                == a.info_sets.actions_per_info_set@[i]);
        }
    }
    assert forall|i: int| na <= i < c.nodes@.len() implies payoff_within(
        #[trigger] c.nodes@[i],
        leduc_max_stake(),
    ) by {
        if i < nb {
            assert(c.nodes@.subrange(0, nb)[i] == b.nodes@[i]);
        }
    }
}

/// The most chips a player can have in by the end of `round`.
pub open spec fn leduc_round_cap(round: int) -> int {
    if round == 1 {
        5
    } else {
        leduc_max_stake()
    }
}

/// Pushing a terminal node within the stakes grows the tree by one node.
proof fn lemma_push_terminal(before: LeducBuilder, after: LeducBuilder, p: int)
    requires
        before.info_sets.wf(),
        actions_match(before.info_sets),
        nodes_ok(before.nodes@, before.info_sets.actions_per_info_set@),
        players_match(before.nodes@, before.info_sets.view_keys()),
        after.nodes@ == before.nodes@.push(GameTreeNode::Terminal { payoff_p0: p as i32 }),
        after.info_sets == before.info_sets,
        -leduc_max_stake() <= p <= leduc_max_stake(),
    ensures
        grew_by(before, after, 1),
{
    let aps = after.info_sets.actions_per_info_set@;
    assert forall|i: int| 0 <= i < after.nodes@.len() implies node_ok(#[trigger] after.nodes@[i], i, aps) by {
        if i < before.nodes@.len() {
            assert(after.nodes@[i] == before.nodes@[i]);
        }
    }
    assert forall|i: int| 0 <= i < after.nodes@.len() implies decision_player_ok(
        #[trigger] after.nodes@[i],
        after.info_sets.view_keys(),
    ) by {
        if i < before.nodes@.len() {
            assert(after.nodes@[i] == before.nodes@[i]);
        }
    }
    assert(after.nodes@.subrange(0, before.nodes@.len() as int) =~= before.nodes@);
    assert(after.info_sets.view_keys().subrange(0, before.info_sets.keys@.len() as int)
        =~= before.info_sets.view_keys());
    assert(aps.subrange(0, before.info_sets.keys@.len() as int)
        =~= before.info_sets.actions_per_info_set@);
}

/// A lookup, subtrees growing the tree by `m` nodes, and the decision node
/// over them grow the tree by `m + 1` nodes.
proof fn lemma_close_decision(
    s0: LeducBuilder,
    s1: LeducBuilder,
    s3: LeducBuilder,
    s4: LeducBuilder,
    m: int,
    node: GameTreeNode,
)
    requires
        looked_up(s0, s1),
        grew_by(s1, s3, m),
        m >= 0,
        s4.nodes@ == s3.nodes@.push(node),
        s4.info_sets == s3.info_sets,
        node_ok(node, s3.nodes@.len() as int, s3.info_sets.actions_per_info_set@),
        decision_player_ok(node, s3.info_sets.view_keys()),
        node is Decision,
    ensures
        grew_by(s0, s4, m + 1),
{
    let aps = s4.info_sets.actions_per_info_set@;
    let n0 = s0.nodes@.len() as int;
    let n3 = s3.nodes@.len() as int;
    let k0 = s0.info_sets.keys@.len() as int;
    let k1 = s1.info_sets.keys@.len() as int;
    assert forall|i: int| 0 <= i < s4.nodes@.len() implies node_ok(#[trigger] s4.nodes@[i], i, aps) by {
        if i < n3 {
            assert(s4.nodes@[i] == s3.nodes@[i]);
        }
    }
    assert forall|i: int| 0 <= i < s4.nodes@.len() implies decision_player_ok(
        #[trigger] s4.nodes@[i],
        s4.info_sets.view_keys(),
    ) by {
        if i < n3 {
            assert(s4.nodes@[i] == s3.nodes@[i]);
        }
    }
    assert(s4.nodes@.subrange(0, n0) =~= s0.nodes@) by {
        assert forall|i: int| 0 <= i < n0 implies s4.nodes@.subrange(0, n0)[i] == s0.nodes@[i] by {
            assert(s3.nodes@.subrange(0, n0)[i] == s1.nodes@[i]);
        }
    }
    assert(s4.info_sets.view_keys().subrange(0, k0) =~= s0.info_sets.view_keys()) by {
        assert forall|i: int| 0 <= i < k0 implies s4.info_sets.view_keys().subrange(0, k0)[i]
            == s0.info_sets.view_keys()[i] by {
            assert(s3.info_sets.view_keys().subrange(0, k1)[i] == s1.info_sets.view_keys()[i]);
            assert(s1.info_sets.view_keys().subrange(0, k0)[i] == s0.info_sets.view_keys()[i]);
        }
    }
    assert(aps.subrange(0, k0) =~= s0.info_sets.actions_per_info_set@) by {
        assert forall|i: int| 0 <= i < k0 implies aps.subrange(0, k0)[i]
            == s0.info_sets.actions_per_info_set@[i] by {
            assert(aps.subrange(0, k1)[i] == s1.info_sets.actions_per_info_set@[i]);
            assert(s1.info_sets.actions_per_info_set@.subrange(0, k0)[i]
                == s0.info_sets.actions_per_info_set@[i]);
        }
    }
    assert forall|i: int| n0 <= i < s4.nodes@.len() implies payoff_within(
        #[trigger] s4.nodes@[i],
        leduc_max_stake(),
    ) by {
        if i < n3 {
            assert(s4.nodes@[i] == s3.nodes@[i]);
        }
    }
}

/// An information set recorded before a subtree grew keeps its number of
/// actions.
proof fn lemma_kept_actions(s1: LeducBuilder, s3: LeducBuilder, m: int, info: int)
    requires
        grew_by(s1, s3, m),
        0 <= info < s1.info_sets.keys@.len(),
    ensures
        info < s3.info_sets.keys@.len(),
        s3.info_sets.actions_per_info_set@[info] == s1.info_sets.actions_per_info_set@[info],
        s3.info_sets.view_keys()[info] == s1.info_sets.view_keys()[info],
{
    assert(s3.info_sets.view_keys().subrange(0, s1.info_sets.keys@.len() as int)[info]
        == s3.info_sets.view_keys()[info]);
    assert(s3.info_sets.actions_per_info_set@.subrange(0, s1.info_sets.keys@.len() as int)[info]
        == s3.info_sets.actions_per_info_set@[info]);
}

/// `h` followed by `a`.
fn extended(h: &Vec<u8>, a: u8) -> (r: Vec<u8>)
    ensures
        r@ == h@.push(a),
{
    let mut v = history_of(h.as_slice());
    v.push(a);
    v
}

impl LeducBuilder {
    fn new() -> (r: LeducBuilder)
        ensures
            r.info_sets.wf(),
            actions_match(r.info_sets),
            r.nodes@.len() == 0,
            r.info_sets.keys@.len() == 0,
            nodes_ok(r.nodes@, r.info_sets.actions_per_info_set@),
    {
        LeducBuilder { nodes: Vec::new(), info_sets: InfoSets::new() }
    }

    /// The information set `(player, card, board, history)`, which has
    /// `n_actions` actions.
    fn get_info_set(&mut self, player: u8, card: u8, board: u8, history: &Vec<u8>, n_actions: u8) -> (r: u32)
        requires
            old(self).info_sets.wf(),
            actions_match(old(self).info_sets),
            nodes_ok(old(self).nodes@, old(self).info_sets.actions_per_info_set@),
            players_match(old(self).nodes@, old(self).info_sets.view_keys()),
            old(self).info_sets.keys@.len() < u32::MAX,
            n_actions == leduc_actions_for(history@),
        ensures
            looked_up(*old(self), *final(self)),
            (r as int) < final(self).info_sets.keys@.len(),
            final(self).info_sets.actions_per_info_set@[r as int] == n_actions,
            final(self).info_sets.view_keys()[r as int] == (player, card, board, history@),
    {
        let ghost old_aps = self.info_sets.actions_per_info_set@;
        let ghost key = (player, card, board, history@);
        let r = self.info_sets.get(player, card, board, history, n_actions);
        proof {
            let aps = self.info_sets.actions_per_info_set@;
            assert(aps.subrange(0, old_aps.len() as int) =~= old_aps);
            assert(self.info_sets.view_keys().subrange(0, old(self).info_sets.keys@.len() as int)
                =~= old(self).info_sets.view_keys());
            lemma_nodes_ok_grow(self.nodes@, old_aps, aps);
            assert(self.info_sets.view_keys()[r as int] == key);
            assert forall|i: int| 0 <= i < self.nodes@.len() implies decision_player_ok(
                #[trigger] self.nodes@[i],
                self.info_sets.view_keys(),
            ) by {
                assert(decision_player_ok(self.nodes@[i], old(self).info_sets.view_keys()));
                match self.nodes@[i] {
                    GameTreeNode::Decision { info_set_idx, .. } => {
                        assert(self.info_sets.view_keys().subrange(
                            0,
                            old_aps.len() as int,
                        )[info_set_idx as int] == self.info_sets.view_keys()[info_set_idx as int]);
                    },
                    _ => {},
                }
            }
            assert(actions_match(self.info_sets)) by {
                assert forall|i: int| 0 <= i < self.info_sets.keys@.len() implies #[trigger] aps[i]
                    == leduc_actions_for(self.info_sets.view_keys()[i].3) by {
                    if i < old_aps.len() {
                        assert(aps.subrange(0, old_aps.len() as int)[i] == aps[i]);
                        assert(self.info_sets.view_keys().subrange(
                            0,
                            old_aps.len() as int,
                        )[i] == self.info_sets.view_keys()[i]);
                    }
                }
            }
        }
        r
    }

    fn push_node(&mut self, node: GameTreeNode) -> (r: NodeIndex)
        requires
            old(self).nodes@.len() < u32::MAX,
        ensures
            r == old(self).nodes@.len(),
            final(self).nodes@ == old(self).nodes@.push(node),
            final(self).info_sets == old(self).info_sets,
    {
        push_node(&mut self.nodes, node)
    }

    /// Chips player 0 wins at a showdown where each put in `total_bet`.
    fn showdown_payoff(p0_card: u8, p1_card: u8, board: u8, total_bet: i32) -> (r: i32)
        requires
            0 <= total_bet <= leduc_max_stake(),
        ensures
            r == leduc_showdown(p0_card as int, p1_card as int, board as int, total_bet as int),
    {
        let p0_pair = p0_card == board;
        let p1_pair = p1_card == board;
        if p0_pair && !p1_pair {
            total_bet
        } else if !p0_pair && p1_pair {
            -total_bet
        } else if p0_card > p1_card {
            total_bet
        } else if p0_card < p1_card {
            -total_bet
        } else {
            0
        }
    }

    /// The chance node at the root: all thirty ordered deals of two
    /// different cards, each followed by the first betting round. Card `i`
    /// has rank `i / 2` (Jack, Queen, King).
    fn build_root(&mut self) -> (r: NodeIndex)
        requires
            old(self).nodes@.len() == 0,
            old(self).info_sets.keys@.len() == 0,
            old(self).info_sets.wf(),
            actions_match(old(self).info_sets),
            nodes_ok(old(self).nodes@, old(self).info_sets.actions_per_info_set@),
        ensures
            grew_by(*old(self), *final(self), leduc_tree_size()),
            r == 7200,
            final(self).nodes@[7200] matches GameTreeNode::Chance { children } && children@
                == Seq::new(30, |d: int| (d as u8, (240 * d + 239) as u32)),
            forall|d: int| 0 <= d < 30 ==> #[trigger] leduc_deal_played(final(self).nodes@, d),
    {
        let n_cards = 6u8;
        let mut deal_children: Vec<(u8, NodeIndex)> = Vec::new();
        let mut deal_idx = 0u8;
        let empty: Vec<u8> = Vec::new();
        let ghost start = *self;
        proof {
            assert(self.nodes@.subrange(0, 0) =~= start.nodes@);
            assert(self.info_sets.view_keys().subrange(0, 0) =~= start.info_sets.view_keys());
            assert(self.info_sets.actions_per_info_set@.subrange(0, 0)
                =~= start.info_sets.actions_per_info_set@);
        }
        let mut p0 = 0u8;
        while p0 < n_cards
            invariant
                n_cards == 6,
                p0 <= 6,
                deal_idx == 5 * p0,
                grew_by(start, *self, 240 * deal_idx),
                start.nodes@.len() == 0,
                start.info_sets.keys@.len() == 0,
                deal_children@ == Seq::new(
                    deal_idx as nat,
                    |d: int| (d as u8, (240 * d + 239) as u32),
                ),
                empty@ == Seq::<u8>::empty(),
                forall|d: int| 0 <= d < deal_idx ==> #[trigger] leduc_deal_played(self.nodes@, d),
            decreases 6 - p0,
        {
            let mut p1 = 0u8;
            while p1 < n_cards
                invariant
                    n_cards == 6,
                    p0 < 6,
                    p1 <= 6,
                    deal_idx == 5 * p0 + p1 - (if p1 > p0 {
                        1int
                    } else {
                        0int
                    }),
                    grew_by(start, *self, 240 * deal_idx),
                    start.nodes@.len() == 0,
                    start.info_sets.keys@.len() == 0,
                    deal_children@ == Seq::new(
                        deal_idx as nat,
                        |d: int| (d as u8, (240 * d + 239) as u32),
                    ),
                    empty@ == Seq::<u8>::empty(),
                    forall|d: int| 0 <= d < deal_idx ==> #[trigger] leduc_deal_played(self.nodes@, d),
                decreases 6 - p1,
            {
                if p0 == p1 {
                    p1 = p1 + 1;
                    continue;
                }
                let p0_rank = p0 / 2;
                let p1_rank = p1 / 2;
                let ghost before = *self;
                let round1 = self.build_round1(p0_rank, p1_rank, &empty, 1);
                proof {
                    lemma_grew_trans(start, before, *self, 240 * deal_idx, 240);
                    lemma_leduc_deal(p0 as int, p1 as int);
                    assert(p0_rank as int == p0 as int / 2 && p1_rank as int == p1 as int / 2);
                    assert(leduc_deal_played(self.nodes@, deal_idx as int));
                    assert forall|d: int| 0 <= d < deal_idx implies #[trigger] leduc_deal_played(
                        self.nodes@,
                        d,
                    ) by {
                        assert(leduc_deal_played(before.nodes@, d));
                        let (a, b) = leduc_deal(d);
                        lemma_betting_extend(
                            before.nodes@,
                            self.nodes@,
                            240 * d + 239,
                            a / 2,
                            b / 2,
                            NO_BOARD as int,
                            0,
                            1,
                            1,
                        );
                    }
                }
                deal_children.push((deal_idx, round1));
                assert(deal_children@ =~= Seq::new(
                    (deal_idx + 1) as nat,
                    |d: int| (d as u8, (240 * d + 239) as u32),
                ));
                deal_idx = deal_idx + 1;
                p1 = p1 + 1;
            }
            p0 = p0 + 1;
        }
        let ghost before = *self;
        let r = self.push_node(GameTreeNode::Chance { children: deal_children });
        proof {
            assert(self.nodes@.subrange(0, before.nodes@.len() as int) =~= before.nodes@);
            assert forall|d: int| 0 <= d < 30 implies #[trigger] leduc_deal_played(self.nodes@, d) by {
                assert(leduc_deal_played(before.nodes@, d));
                let (a, b) = leduc_deal(d);
                lemma_betting_extend(
                    before.nodes@,
                    self.nodes@,
                    240 * d + 239,
                    a / 2,
                    b / 2,
                    NO_BOARD as int,
                    0,
                    1,
                    1,
                );
            }
        }
        proof {
            let ghost aps = self.info_sets.actions_per_info_set@;
            assert forall|i: int| 0 <= i < self.nodes@.len() implies node_ok(
                #[trigger] self.nodes@[i],
                i,
                aps,
            ) by {
                if i < 7200 {
                    assert(self.nodes@[i] == before.nodes@[i]);
                }
            }
            assert(self.nodes@.subrange(0, 0) =~= start.nodes@);
            assert(self.info_sets.view_keys().subrange(0, 0) =~= start.info_sets.view_keys());
            assert(self.info_sets.actions_per_info_set@.subrange(0, 0)
                =~= start.info_sets.actions_per_info_set@);
            assert forall|i: int| 0 <= i < self.nodes@.len() implies payoff_within(
                #[trigger] self.nodes@[i],
                leduc_max_stake(),
            ) by {
                if i < 7200 {
                    assert(self.nodes@[i] == before.nodes@[i]);
                }
            }
        }
        r
    }

    /// The first betting round, with player 0 to act and one chip each in.
    fn build_round1(&mut self, p0_rank: u8, p1_rank: u8, history: &Vec<u8>, pot_per_player: i32) -> (r: NodeIndex)
        requires
            has_room(*old(self), betting_size(1, 0)),
            pot_per_player == 1,
            history@.len() == 0,
        ensures
            grew_by(*old(self), *final(self), betting_size(1, 0)),
            r == final(self).nodes@.len() - 1,
            leduc_betting_ok(
                final(self).nodes@,
                r as int,
                p0_rank as int,
                p1_rank as int,
                NO_BOARD as int,
                0,
                1,
                1,
            ),
    {
        self.build_betting_node(p0_rank, p1_rank, NO_BOARD, 0, history, pot_per_player, 2, 0, 1)
    }

    /// A betting decision where nobody has bet yet this round: check or bet.
    /// Player 0 acts first; two checks end the round (the board is dealt
    /// after the first, a showdown follows the second).
    fn build_betting_node(
        &mut self,
        p0_rank: u8,
        p1_rank: u8,
        board: u8,
        player: u8,
        history: &Vec<u8>,
        pot_per_player: i32,
        bet_size: i32,
        raises_so_far: u8,
        round: u8,
    ) -> (r: NodeIndex)
        requires
            round == 1 || round == 2,
            player < 2,
            raises_so_far == 0,
            bet_size == 2 * round,
            1 <= pot_per_player,
            pot_per_player + 2 * bet_size <= leduc_round_cap(round as int),
            leduc_actions_for(history@) == 2,
            has_room(*old(self), betting_size(round as int, player as int)),
        ensures
            grew_by(*old(self), *final(self), betting_size(round as int, player as int)),
            r == final(self).nodes@.len() - 1,
            leduc_betting_ok(
                final(self).nodes@,
                r as int,
                p0_rank as int,
                p1_rank as int,
                board as int,
                player as int,
                pot_per_player as int,
                round as int,
            ),
        decreases (if round == 1 {
            2int
        } else {
            0int
        }), 10 - player,
    {
        let card = if player == 0 {
            p0_rank
        } else {
            p1_rank
        };
        let ghost s0 = *self;
        let info_set = self.get_info_set(player, card, board, history, 2);
        let ghost s1 = *self;
        let check_history = extended(history, 0);
        let ghost check_size = if player == 1 {
            if round == 1 {
                board_deal_size()
            } else {
                1
            }
        } else {
            betting_size(round as int, 1)
        };
        let check_child = if player == 1 {
            if round == 1 {
                self.build_board_deal(p0_rank, p1_rank, &check_history, pot_per_player)
            } else {
                let payoff = Self::showdown_payoff(p0_rank, p1_rank, board, pot_per_player);
                let c = self.push_node(GameTreeNode::Terminal { payoff_p0: payoff });
                proof {
                    lemma_push_terminal(s1, *self, payoff as int);
                }
                c
            }
        } else {
            self.build_betting_node(
                p0_rank,
                p1_rank,
                board,
                1,
                &check_history,
                pot_per_player,
                bet_size,
                raises_so_far,
                round,
            )
        };
        let ghost s2 = *self;
        proof {
            if player == 1 && round == 2 {
                assert(s2.nodes@[check_child as int] == GameTreeNode::Terminal {
                    payoff_p0: s2.nodes@[check_child as int]->payoff_p0,
                });
            }
        }
        let bet_history = extended(history, 1);
        let opponent = 1 - player;
        let bet_child = self.build_facing_bet(
            p0_rank,
            p1_rank,
            board,
            opponent,
            &bet_history,
            pot_per_player,
            bet_size,
            pot_per_player + bet_size,
            raises_so_far + 1,
            round,
        );
        let ghost s3 = *self;
        proof {
            lemma_grew_trans(s1, s2, s3, check_size, facing_size(round as int, 1));
            lemma_kept_actions(s1, s3, check_size + facing_size(round as int, 1), info_set as int);
        }
        let bp: u16 = (bet_size as u16) * 10000 / 2;
        let node = GameTreeNode::Decision {
            player,
            actions: pair_vec(Action::Check, Action::Bet(bp)),
            children: pair_vec(check_child, bet_child),
            info_set_idx: info_set,
        };
        let r = self.push_node(node);
        proof {
            lemma_close_decision(
                s0,
                s1,
                s3,
                *self,
                check_size + facing_size(round as int, 1),
                node,
            );
            let n2 = s2.nodes@;
            let n3 = s3.nodes@;
            let n4 = self.nodes@;
            let (a, b, bd, pot, rd) = (
                p0_rank as int,
                p1_rank as int,
                board as int,
                pot_per_player as int,
                round as int,
            );
            assert(n4.subrange(0, n3.len() as int) =~= n3);
            if player == 0 {
                lemma_betting_extend(n2, n3, check_child as int, a, b, bd, 1, pot, rd);
                lemma_betting_extend(n3, n4, check_child as int, a, b, bd, 1, pot, rd);
            } else if round == 1 {
                lemma_deal_extend(n2, n3, check_child as int, a, b, pot);
                lemma_deal_extend(n3, n4, check_child as int, a, b, pot);
            } else {
                assert(n3.subrange(0, n2.len() as int)[check_child as int] == n2[check_child as int]);
                assert(n4[check_child as int] == n3[check_child as int]);
            }
            lemma_facing_extend(
                n3,
                n4,
                bet_child as int,
                a,
                b,
                bd,
                if player == 0 {
                    1
                } else {
                    0
                },
                pot,
                pot + leduc_bet_size(rd),
                1,
                rd,
            );
            assert(n4[r as int] == node);
        }
        r
    }

    /// A decision facing a bet or raise: fold, call, or (below two raises
    /// this round) raise again. A call ends the round: the board follows in
    /// the first round, a showdown in the second.
    fn build_facing_bet(
        &mut self,
        p0_rank: u8,
        p1_rank: u8,
        board: u8,
        player: u8,
        history: &Vec<u8>,
        pot_per_player: i32,
        bet_size: i32,
        bettor_total: i32,
        raises_so_far: u8,
        round: u8,
    ) -> (r: NodeIndex)
        requires
            round == 1 || round == 2,
            player < 2,
            raises_so_far == 1 || raises_so_far == 2,
            bet_size == 2 * round,
            1 <= pot_per_player,
            bettor_total == pot_per_player + bet_size,
            bettor_total + (if raises_so_far == 1 {
                bet_size as int
            } else {
                0
            }) <= leduc_round_cap(round as int),
            history@.len() > 0,
            history@.last() == raises_so_far,
            has_room(*old(self), facing_size(round as int, raises_so_far as int)),
        ensures
            grew_by(*old(self), *final(self), facing_size(round as int, raises_so_far as int)),
            r == final(self).nodes@.len() - 1,
            leduc_facing_ok(
                final(self).nodes@,
                r as int,
                p0_rank as int,
                p1_rank as int,
                board as int,
                player as int,
                pot_per_player as int,
                bettor_total as int,
                raises_so_far as int,
                round as int,
            ),
        decreases (if round == 1 {
            2int
        } else {
            0int
        }), 5 - raises_so_far,
    {
        let card = if player == 0 {
            p0_rank
        } else {
            p1_rank
        };
        let can_raise = raises_so_far < 2;
        let n_actions: u8 = if can_raise {
            3
        } else {
            2
        };
        let ghost s0 = *self;
        let info_set = self.get_info_set(player, card, board, history, n_actions);
        let ghost s1 = *self;
        let fold_payoff = if player == 0 {
            -pot_per_player
        } else {
            pot_per_player
        };
        let fold_child = self.push_node(GameTreeNode::Terminal { payoff_p0: fold_payoff });
        proof {
            lemma_push_terminal(s1, *self, fold_payoff as int);
        }
        let ghost s2 = *self;
        let new_pot = bettor_total;
        let ghost call_size = if round == 1 {
            board_deal_size()
        } else {
            1
        };
        let call_child = if round == 1 {
            let call_history = extended(history, 1);
            self.build_board_deal(p0_rank, p1_rank, &call_history, new_pot)
        } else {
            let payoff = Self::showdown_payoff(p0_rank, p1_rank, board, new_pot);
            let c = self.push_node(GameTreeNode::Terminal { payoff_p0: payoff });
            proof {
                lemma_push_terminal(s2, *self, payoff as int);
            }
            c
        };
        let ghost s3 = *self;
        proof {
            lemma_grew_trans(s1, s2, s3, 1, call_size);
        }
        let mut actions = pair_vec(Action::Fold, Action::Call);
        let mut children = pair_vec(fold_child, call_child);
        if can_raise {
            let raise_history = extended(history, 2);
            let opponent = 1 - player;
            let new_bettor_total = bettor_total + bet_size;
            let raise_child = self.build_facing_bet(
                p0_rank,
                p1_rank,
                board,
                opponent,
                &raise_history,
                bettor_total,
                bet_size,
                new_bettor_total,
                raises_so_far + 1,
                round,
            );
            proof {
                lemma_grew_trans(s1, s3, *self, 1 + call_size, facing_size(round as int, 2));
            }
            let bp: u16 = (bet_size as u16) * 10000 / 2;
            actions.push(Action::Bet(bp));
            children.push(raise_child);
        }
        let ghost s4 = *self;
        let ghost raise_child: u32 = if can_raise {
            children@[2]
        } else {
            0
        };
        let ghost m = if can_raise {
            1 + call_size + facing_size(round as int, 2)
        } else {
            1 + call_size
        };
        proof {
            lemma_kept_actions(s1, s4, m, info_set as int);
        }
        let node = GameTreeNode::Decision { player, actions, children, info_set_idx: info_set };
        let r = self.push_node(node);
        proof {
            lemma_close_decision(s0, s1, s4, *self, m, node);
            let n2 = s2.nodes@;
            let n3 = s3.nodes@;
            let n4 = s4.nodes@;
            let n5 = self.nodes@;
            let (a, b, bd, pot, bt, rd) = (
                p0_rank as int,
                p1_rank as int,
                board as int,
                pot_per_player as int,
                bettor_total as int,
                round as int,
            );
            assert(n5.subrange(0, n4.len() as int) =~= n4);
            assert(n3.subrange(0, n2.len() as int)[fold_child as int] == n2[fold_child as int]);
            assert(n4.subrange(0, n3.len() as int)[fold_child as int] == n3[fold_child as int]);
            assert(n5[fold_child as int] == n4[fold_child as int]);
            if can_raise {
                assert(n4.subrange(0, n3.len() as int) == n3);
            } else {
                assert(n4.subrange(0, n3.len() as int) =~= n3);
            }
            if round == 1 {
                lemma_deal_extend(n3, n4, call_child as int, a, b, bt);
                lemma_deal_extend(n4, n5, call_child as int, a, b, bt);
            } else {
                assert(n4.subrange(0, n3.len() as int)[call_child as int] == n3[call_child as int]);
                assert(n5[call_child as int] == n4[call_child as int]);
            }
            if can_raise {
                lemma_facing_extend(
                    n4,
                    n5,
                    raise_child as int,
                    a,
                    b,
                    bd,
                    if player == 0 {
                        1
                    } else {
                        0
                    },
                    bt,
                    bt + leduc_bet_size(rd),
                    raises_so_far + 1,
                    rd,
                );
            }
            assert(n5[r as int] == node);
            let kids = node->Decision_children;
            let acts = node->Decision_actions;
            assert(kids@[0] == fold_child && kids@[1] == call_child);
            assert(acts@ =~= if raises_so_far < 2 {
                seq![Action::Fold, Action::Call, leduc_bet_action(rd)]
            } else {
                seq![Action::Fold, Action::Call]
            });
            assert(kids@.len() == acts@.len());
            assert(is_terminal(n5[kids@[0] as int], if player == 0 { -pot } else { pot }));
            assert(raises_so_far < 2 ==> kids@[2] == raise_child);
        }
        r
    }

    /// The chance node dealing the board card (any of the three ranks),
    /// each followed by the second betting round with four-chip bets.
    fn build_board_deal(&mut self, p0_rank: u8, p1_rank: u8, history: &Vec<u8>, pot_per_player: i32) -> (r: NodeIndex)
        requires
            1 <= pot_per_player <= 5,
            has_room(*old(self), board_deal_size()),
        ensures
            grew_by(*old(self), *final(self), board_deal_size()),
            r == final(self).nodes@.len() - 1,
            leduc_deal_ok(
                final(self).nodes@,
                r as int,
                p0_rank as int,
                p1_rank as int,
                pot_per_player as int,
            ),
        decreases 1int, 0int,
    {
        let ghost s0 = *self;
        let mut board_children: Vec<(u8, NodeIndex)> = Vec::new();
        let mut board_rank = 0u8;
        proof {
            assert(self.nodes@.subrange(0, s0.nodes@.len() as int) =~= s0.nodes@);
            assert(self.info_sets.view_keys().subrange(0, s0.info_sets.keys@.len() as int)
                =~= s0.info_sets.view_keys());
            assert(self.info_sets.actions_per_info_set@.subrange(
                0,
                s0.info_sets.keys@.len() as int,
            ) =~= s0.info_sets.actions_per_info_set@);
        }
        while board_rank < 3
            invariant
                board_rank <= 3,
                1 <= pot_per_player <= 5,
                has_room(s0, board_deal_size()),
                grew_by(s0, *self, 15 * board_rank),
                board_children@.len() == board_rank,
                forall|j: int|
                    0 <= j < board_children@.len() ==> (#[trigger] board_children@[j]).1
                        < self.nodes@.len(),
                forall|j: int|
                    0 <= j < board_children@.len() ==> (#[trigger] board_children@[j]).0 == j
                        && leduc_betting_ok(
                        self.nodes@,
                        board_children@[j].1 as int,
                        p0_rank as int,
                        p1_rank as int,
                        j,
                        0,
                        pot_per_player as int,
                        2,
                    ),
            decreases 3 - board_rank,
        {
            let r2_history = extended(history, 100 + board_rank);
            let ghost before = *self;
            let round2 = self.build_betting_node(
                p0_rank,
                p1_rank,
                board_rank,
                0,
                &r2_history,
                pot_per_player,
                4,
                0,
                2,
            );
            proof {
                lemma_grew_trans(s0, before, *self, 15 * board_rank, 15);
                assert forall|j: int| 0 <= j < board_children@.len() implies leduc_betting_ok(
                    self.nodes@,
                    board_children@[j].1 as int,
                    p0_rank as int,
                    p1_rank as int,
                    j,
                    0,
                    pot_per_player as int,
                    2,
                ) by {
                    assert(board_children@[j].0 == j);
                    lemma_betting_extend(
                        before.nodes@,
                        self.nodes@,
                        board_children@[j].1 as int,
                        p0_rank as int,
                        p1_rank as int,
                        j,
                        0,
                        pot_per_player as int,
                        2,
                    );
                }
            }
            board_children.push((board_rank, round2));
            board_rank = board_rank + 1;
        }
        let ghost s3 = *self;
        let node = GameTreeNode::Chance { children: board_children };
        let r = self.push_node(node);
        proof {
            let aps = self.info_sets.actions_per_info_set@;
            assert forall|i: int| 0 <= i < self.nodes@.len() implies node_ok(
                #[trigger] self.nodes@[i],
                i,
                aps,
            ) by {
                if i < s3.nodes@.len() {
                    assert(self.nodes@[i] == s3.nodes@[i]);
                }
            }
            let n0 = s0.nodes@.len() as int;
            assert(self.nodes@.subrange(0, n0) =~= s0.nodes@) by {
                assert forall|i: int| 0 <= i < n0 implies self.nodes@.subrange(0, n0)[i]
                    == s0.nodes@[i] by {
                    assert(s3.nodes@.subrange(0, n0)[i] == s0.nodes@[i]);
                }
            }
            assert forall|i: int| n0 <= i < self.nodes@.len() implies payoff_within(
                #[trigger] self.nodes@[i],
                leduc_max_stake(),
            ) by {
                if i < s3.nodes@.len() {
                    assert(self.nodes@[i] == s3.nodes@[i]);
                }
            }
        }
        proof {
            let n3 = s3.nodes@;
            let n4 = self.nodes@;
            assert(n4.subrange(0, n3.len() as int) =~= n3);
            assert(board_children@[0].0 == 0 && board_children@[1].0 == 1 && board_children@[2].0 == 2);
            lemma_betting_extend(n3, n4, board_children@[0].1 as int, p0_rank as int, p1_rank as int, 0, 0, pot_per_player as int, 2);
            lemma_betting_extend(n3, n4, board_children@[1].1 as int, p0_rank as int, p1_rank as int, 1, 0, pot_per_player as int, 2);
            lemma_betting_extend(n3, n4, board_children@[2].1 as int, p0_rank as int, p1_rank as int, 2, 0, pot_per_player as int, 2);
            assert(n4[r as int] == node);
        }
        r
    }
}

impl LeducPoker {
    /// Build the Leduc game tree: a chance node at the root dealing the
    /// thirty ordered pairs of different cards, each followed by a
    /// 240-node subtree of two betting rounds around the board deal.
    /// Information sets are keyed by the acting player, their rank, the
    /// board and the actions so far. Each deal's subtree is the Leduc game
    /// (`leduc_deal_played`): who acts, the actions offered, the board deal,
    /// what a fold pays and what each showdown pays (`leduc_showdown`).
    pub fn build_tree() -> (t: GameTree)
        ensures
            tree_wf(t),
            t.nodes@.len() == leduc_tree_size(),
            t.root == 7200,
            t.nodes@[7200] matches GameTreeNode::Chance { children } && children@ == Seq::new(
                30,
                |d: int| (d as u8, (240 * d + 239) as u32),
            ),
            forall|i: int|
                0 <= i < t.nodes@.len() ==> payoff_within(#[trigger] t.nodes@[i], leduc_max_stake()),
            info_sets_single_player(t),
            forall|d: int| 0 <= d < 30 ==> #[trigger] leduc_deal_played(t.nodes@, d),
    {
        let mut builder = LeducBuilder::new();
        let root = builder.build_root();
        proof {
            let nodes = builder.nodes@;
            let keys = builder.info_sets.view_keys();
            assert forall|i: int, j: int| 0 <= i < nodes.len() && 0 <= j < nodes.len() implies #[trigger] same_info_same_player(
                nodes[i],
                nodes[j],
            ) by {
                assert(decision_player_ok(nodes[i], keys));
                assert(decision_player_ok(nodes[j], keys));
            }
        }
        let num = builder.info_sets.keys.len() as u32;
        GameTree {
            nodes: builder.nodes,
            root,
            num_info_sets: num,
            actions_per_info_set: builder.info_sets.actions_per_info_set,
        }
    }
}

} // verus!
