use poker_odds::solver::action::Action;
use poker_odds::solver::game_tree::{GameTree, GameTreeNode};
use poker_odds::solver::toy_games::{KuhnPoker, LeducPoker};

fn count_terminals(tree: &GameTree) -> usize {
    tree.nodes
        .iter()
        .filter(|n| matches!(n, GameTreeNode::Terminal { .. }))
        .count()
}

#[test]
fn kuhn_tree_structure() {
    let tree = KuhnPoker::build_tree();
    // 6 card deals, each with: ~5 nodes (P0 decision, P1 decision, terminals)
    // Plus 1 root chance node
    assert!(tree.nodes.len() > 30, "Tree should have at least 30 nodes");
    assert!(
        tree.num_info_sets == 12,
        "Kuhn poker has 12 info sets, got {}",
        tree.num_info_sets
    );
}

#[test]
fn leduc_tree_structure() {
    let tree = LeducPoker::build_tree();
    // Leduc should have many more info sets than Kuhn
    assert!(
        tree.num_info_sets > 50,
        "Leduc should have > 50 info sets, got {}",
        tree.num_info_sets
    );
    assert!(
        tree.nodes.len() > 100,
        "Leduc should have > 100 nodes, got {}",
        tree.nodes.len()
    );
}

#[test]
fn kuhn_root_deals_six_pairs() {
    let tree = KuhnPoker::build_tree();
    assert_eq!(tree.nodes.len(), 55);
    assert_eq!(tree.root, 54);
    match tree.node(tree.root) {
        GameTreeNode::Chance { children } => {
            let expected: Vec<(u8, u32)> = (0..6u8).map(|d| (d, 9 * d as u32 + 8)).collect();
            assert_eq!(children, &expected);
        }
        other => panic!("root should be a chance node, got {other:?}"),
    }
    assert_eq!(tree.actions_per_info_set, vec![2u8; 12]);
    assert_eq!(count_terminals(&tree), 30);
}

#[test]
fn kuhn_info_sets_follow_the_documented_order() {
    let tree = KuhnPoker::build_tree();
    // Deal 0 is Jack against Queen: player 0 first with a Jack is set 0,
    // player 1 after a check with a Queen is set 1, and so on.
    match tree.node(8) {
        GameTreeNode::Decision { player, actions, children, info_set_idx } => {
            assert_eq!(*player, 0);
            assert_eq!(actions, &vec![Action::Check, Action::Bet(10000)]);
            assert_eq!(children, &vec![4, 7]);
            assert_eq!(*info_set_idx, 0);
        }
        other => panic!("expected a decision, got {other:?}"),
    }
    // Deal 4 is King against Jack: player 0 first with a King is set 10.
    match tree.node(9 * 4 + 8) {
        GameTreeNode::Decision { info_set_idx, .. } => assert_eq!(*info_set_idx, 10),
        other => panic!("expected a decision, got {other:?}"),
    }
    // Deal 5 is King against Queen: player 1 facing a bet with a Queen is set 3.
    match tree.node(9 * 5 + 7) {
        GameTreeNode::Decision { player, actions, info_set_idx, .. } => {
            assert_eq!(*player, 1);
            assert_eq!(actions, &vec![Action::Fold, Action::Call]);
            assert_eq!(*info_set_idx, 3);
        }
        other => panic!("expected a decision, got {other:?}"),
    }
}

#[test]
fn kuhn_higher_card_wins_the_showdown() {
    let tree = KuhnPoker::build_tree();
    // Deal 0: Jack against Queen, player 0 loses both showdowns.
    assert!(matches!(tree.node(0), GameTreeNode::Terminal { payoff_p0: -1 }));
    assert!(matches!(tree.node(2), GameTreeNode::Terminal { payoff_p0: -2 }));
    // Deal 4: King against Jack, player 0 wins them.
    assert!(matches!(tree.node(36), GameTreeNode::Terminal { payoff_p0: 1 }));
    assert!(matches!(tree.node(38), GameTreeNode::Terminal { payoff_p0: 2 }));
    // Folds lose the ante whatever the cards.
    assert!(matches!(tree.node(37), GameTreeNode::Terminal { payoff_p0: -1 }));
    assert!(matches!(tree.node(41), GameTreeNode::Terminal { payoff_p0: 1 }));
}

#[test]
fn leduc_tree_sizes_and_stakes() {
    let tree = LeducPoker::build_tree();
    assert_eq!(tree.nodes.len(), 7201);
    assert_eq!(tree.root, 7200);
    assert_eq!(tree.num_info_sets, 288);
    assert_eq!(tree.actions_per_info_set.len(), 288);
    match tree.node(tree.root) {
        GameTreeNode::Chance { children } => {
            assert_eq!(children.len(), 30);
            assert_eq!(children[0], (0, 239));
            assert_eq!(children[29], (29, 29 * 240 + 239));
        }
        other => panic!("root should be a chance node, got {other:?}"),
    }
    let max_payoff = tree
        .nodes
        .iter()
        .filter_map(|n| match n {
            GameTreeNode::Terminal { payoff_p0 } => Some(payoff_p0.abs()),
            _ => None,
        })
        .max()
        .unwrap();
    assert_eq!(max_payoff, 13);
}

#[test]
fn leduc_nodes_point_backwards_and_agree_on_action_counts() {
    let tree = LeducPoker::build_tree();
    for (i, node) in tree.nodes.iter().enumerate() {
        match node {
            GameTreeNode::Terminal { .. } => {}
            GameTreeNode::Chance { children } => {
                assert!(!children.is_empty());
                assert!(children.iter().all(|&(_, c)| (c as usize) < i));
            }
            GameTreeNode::Decision { player, actions, children, info_set_idx } => {
                assert!(*player < 2);
                assert_eq!(actions.len(), children.len());
                assert!(children.iter().all(|&c| (c as usize) < i));
                assert_eq!(
                    tree.actions_per_info_set[*info_set_idx as usize] as usize,
                    actions.len()
                );
            }
        }
    }
}

#[test]
fn leduc_first_decision_checks_or_bets_two_chips() {
    let tree = LeducPoker::build_tree();
    match tree.node(239) {
        GameTreeNode::Decision { player, actions, info_set_idx, .. } => {
            assert_eq!(*player, 0);
            assert_eq!(actions, &vec![Action::Check, Action::Bet(10000)]);
            assert_eq!(*info_set_idx, 0);
        }
        other => panic!("expected a decision, got {other:?}"),
    }
}

#[test]
fn kuhn_decisions_share_sets_by_what_the_player_knows() {
    let tree = KuhnPoker::build_tree();
    let info = |i: u32| match tree.node(i) {
        GameTreeNode::Decision { info_set_idx, .. } => *info_set_idx,
        other => panic!("expected a decision, got {other:?}"),
    };
    // Deals 0 (J,Q) and 1 (J,K): player 0 holds the Jack in both.
    assert_eq!(info(8), info(9 + 8));
    assert_eq!(info(3), info(9 + 3));
    // Player 1 holds a Queen in deal 0 and a King in deal 1.
    assert_ne!(info(4), info(9 + 4));
    // Deal 5 (K,Q): player 1 again holds the Queen.
    assert_eq!(info(4), info(45 + 4));
    assert_eq!(info(7), info(45 + 7));
    // Same card, different history.
    assert_ne!(info(8), info(3));
}

#[test]
fn information_sets_belong_to_one_player() {
    for tree in [KuhnPoker::build_tree(), LeducPoker::build_tree()] {
        let mut owner: Vec<Option<u8>> = vec![None; tree.num_info_sets as usize];
        for node in &tree.nodes {
            if let GameTreeNode::Decision { player, info_set_idx, .. } = node {
                let slot = &mut owner[*info_set_idx as usize];
                match slot {
                    Some(p) => assert_eq!(p, player),
                    None => *slot = Some(*player),
                }
            }
        }
        assert!(owner.iter().all(|o| o.is_some()));
    }
}
