use poker_odds::cards::{Card, Rank, Suit};
use poker_odds::eval::evaluator::HandEvaluator;
use poker_odds::eval::{HandCategory, HandValue};
use poker_odds::game::{GameState, GameVariant};
use poker_odds::sim::engine::{
    choose_method, combinations_count, eval_hand, evaluate_exact_combo, exact_runouts,
    parallel_chunk_size, run_exact_range, run_monte_carlo_chunk, simulate_one,
    simulation_deck, thread_iterations, thread_seed,
};
use poker_odds::sim::{SimAccumulator, SimConfig, SimMethod};
use rand::SeedableRng;
use rand_xoshiro::Xoshiro256PlusPlus;

fn card(r: Rank, s: Suit) -> Card {
    Card::new(r, s)
}

fn holdem(hole: [Card; 2], board: &[Card], opponents: usize) -> GameState {
    let mut s = GameState::new(GameVariant::TexasHoldem);
    s.hole_cards = hole.to_vec();
    s.community_cards = board.to_vec();
    s.opponent_count = opponents;
    s
}

#[test]
fn combinations_count_values() {
    assert_eq!(combinations_count(52, 5), 2_598_960);
    assert_eq!(combinations_count(5, 7), 0);
    assert_eq!(combinations_count(10, 0), 1);
    assert_eq!(combinations_count(45, 2), 990);
    assert_eq!(combinations_count(48, 45), combinations_count(48, 3));
    assert_eq!(combinations_count(4, 4), 1);
}

#[test]
fn method_follows_the_threshold() {
    let config = SimConfig::default();
    let pre = holdem([card(Rank::Ace, Suit::Hearts), card(Rank::King, Suit::Hearts)], &[], 1);
    // 50 cards, 7 needed: far above the default threshold.
    assert_eq!(choose_method(&pre, &config), SimMethod::MonteCarlo);
    let turn = holdem(
        [card(Rank::Ace, Suit::Hearts), card(Rank::King, Suit::Hearts)],
        &[
            card(Rank::Two, Suit::Clubs),
            card(Rank::Seven, Suit::Diamonds),
            card(Rank::Nine, Suit::Spades),
            card(Rank::Jack, Suit::Clubs),
        ],
        1,
    );
    // 46 cards, 3 needed: 15180 runouts.
    assert_eq!(choose_method(&turn, &config), SimMethod::Exact);
    let mut incomplete = GameState::new(GameVariant::TexasHoldem);
    incomplete.hole_cards = vec![card(Rank::Ace, Suit::Hearts)];
    assert_eq!(choose_method(&incomplete, &config), SimMethod::NotStarted);
}

#[test]
fn eval_hand_by_variant() {
    let ev = HandEvaluator::new();
    let hole = [card(Rank::Ace, Suit::Hearts), card(Rank::Ace, Suit::Spades)];
    let board = [
        card(Rank::Ace, Suit::Clubs),
        card(Rank::Five, Suit::Diamonds),
        card(Rank::Seven, Suit::Hearts),
        card(Rank::Nine, Suit::Spades),
        card(Rank::Three, Suit::Clubs),
    ];
    let v = eval_hand(&ev, GameVariant::TexasHoldem, &hole, &board);
    assert_eq!(v.category(), HandCategory::ThreeOfAKind);
    // Too few cards for a hand.
    assert_eq!(eval_hand(&ev, GameVariant::TexasHoldem, &hole, &board[..2]), HandValue(0));
    assert_eq!(eval_hand(&ev, GameVariant::OmahaHoldem, &hole, &board), HandValue(0));
    assert_eq!(eval_hand(&ev, GameVariant::FiveCardDraw, &board, &[]).category(), HandCategory::HighCard);
}

#[test]
fn exact_combo_records_a_win() {
    let ev = HandEvaluator::new();
    let board = [
        card(Rank::Ace, Suit::Clubs),
        card(Rank::Five, Suit::Diamonds),
        card(Rank::Seven, Suit::Hearts),
        card(Rank::Nine, Suit::Spades),
    ];
    let state = holdem([card(Rank::Ace, Suit::Hearts), card(Rank::Ace, Suit::Spades)], &board, 1);
    let mut acc = SimAccumulator::new();
    // River Three of clubs, opponent holds King-Queen offsuit.
    let combo = [
        card(Rank::Three, Suit::Clubs),
        card(Rank::King, Suit::Hearts),
        card(Rank::Queen, Suit::Spades),
    ];
    evaluate_exact_combo(&ev, &state, &combo, &mut acc);
    assert_eq!((acc.wins, acc.ties, acc.losses, acc.total), (1, 0, 0, 1));
    assert_eq!(acc.hand_counts[HandCategory::ThreeOfAKind as usize], 1);
}

#[test]
fn exact_combo_records_a_split_board() {
    let ev = HandEvaluator::new();
    let board = [
        card(Rank::Ace, Suit::Clubs),
        card(Rank::King, Suit::Diamonds),
        card(Rank::Queen, Suit::Hearts),
        card(Rank::Jack, Suit::Spades),
    ];
    let state = holdem([card(Rank::Two, Suit::Hearts), card(Rank::Three, Suit::Spades)], &board, 1);
    let mut acc = SimAccumulator::new();
    let combo = [
        card(Rank::Ten, Suit::Clubs),
        card(Rank::Four, Suit::Hearts),
        card(Rank::Five, Suit::Spades),
    ];
    evaluate_exact_combo(&ev, &state, &combo, &mut acc);
    assert_eq!((acc.wins, acc.ties, acc.losses), (0, 1, 0));
    assert_eq!(acc.hand_counts[HandCategory::Straight as usize], 1);
}

#[test]
fn river_enumeration_counts_every_runout() {
    let ev = HandEvaluator::new();
    let board = [
        card(Rank::Ace, Suit::Clubs),
        card(Rank::Five, Suit::Diamonds),
        card(Rank::Seven, Suit::Hearts),
        card(Rank::Nine, Suit::Spades),
        card(Rank::Three, Suit::Clubs),
    ];
    let state = holdem([card(Rank::Ace, Suit::Hearts), card(Rank::Ace, Suit::Spades)], &board, 1);
    let (cards, combos) = exact_runouts(&state);
    assert_eq!(cards.len(), 45);
    assert_eq!(combos.len(), 990);
    let mut acc = SimAccumulator::new();
    run_exact_range(&ev, &state, &cards, &combos, 0, combos.len(), &mut acc);
    assert_eq!(acc.total, 990);
    assert_eq!(acc.wins + acc.ties + acc.losses, 990);
    assert_eq!(acc.hand_counts[HandCategory::ThreeOfAKind as usize], 990);
    assert!(acc.wins > 900);
}

#[test]
fn monte_carlo_chunk_runs_every_iteration() {
    let ev = HandEvaluator::new();
    let state = holdem([card(Rank::Ace, Suit::Hearts), card(Rank::King, Suit::Hearts)], &[], 2);
    let deck = simulation_deck(&state);
    assert_eq!(deck.remaining_count(), 50);
    let mut rng = Xoshiro256PlusPlus::seed_from_u64(7);
    let mut acc = SimAccumulator::new();
    run_monte_carlo_chunk(&ev, &state, &deck, &mut rng, 300, &mut acc);
    assert_eq!(acc.total, 300);
    assert_eq!(acc.wins + acc.ties + acc.losses, 300);
    assert_eq!(acc.hand_counts.iter().sum::<u64>(), 300);
    // The same seed deals the same runouts.
    let mut rng2 = Xoshiro256PlusPlus::seed_from_u64(7);
    let mut acc2 = SimAccumulator::new();
    run_monte_carlo_chunk(&ev, &state, &deck, &mut rng2, 300, &mut acc2);
    assert_eq!((acc.wins, acc.ties, acc.losses), (acc2.wins, acc2.ties, acc2.losses));
}

#[test]
fn simulate_one_deals_from_the_deck() {
    let ev = HandEvaluator::new();
    let state = holdem([card(Rank::Ace, Suit::Hearts), card(Rank::King, Suit::Hearts)], &[], 1);
    let mut deck = simulation_deck(&state);
    let mut rng = Xoshiro256PlusPlus::seed_from_u64(1);
    let mut acc = SimAccumulator::new();
    simulate_one(&ev, &state, &mut deck, &mut rng, &mut acc);
    assert_eq!(acc.total, 1);
    assert_eq!(deck.remaining_count(), 50 - 7);
}

#[test]
fn parallel_split_arithmetic() {
    assert_eq!(parallel_chunk_size(500_000, 8), 25_000);
    assert_eq!(parallel_chunk_size(1_000, 8), 800);
    assert_eq!(parallel_chunk_size(500_000, 7), 25_004);
    let total: u64 = (0..7).map(|t| thread_iterations(25_004, 7, t)).sum();
    assert_eq!(total, 25_004);
    assert_eq!(thread_iterations(10, 4, 0), 3);
    assert_eq!(thread_iterations(10, 4, 3), 2);
    assert_eq!(thread_seed(5, 0), 5);
    assert_eq!(thread_seed(0, 1), 0x9e3779b97f4a7c15);
}

#[test]
fn accumulator_records_and_merges() {
    let mut a = SimAccumulator::new();
    a.record_win(HandCategory::Flush);
    a.record_tie(HandCategory::OnePair);
    let mut b = SimAccumulator::default();
    b.record_loss(HandCategory::Flush);
    a.merge(&b);
    assert_eq!((a.wins, a.ties, a.losses, a.total), (1, 1, 1, 3));
    assert_eq!(a.hand_counts[HandCategory::Flush as usize], 2);
    assert_eq!(SimMethod::Exact.label(), "Exact");
}

#[test]
fn effective_threads_prefers_the_setting() {
    let mut c = SimConfig::default();
    assert_eq!(c.effective_threads(Some(12)), 12);
    assert_eq!(c.effective_threads(None), 4);
    c.threads = 3;
    assert_eq!(c.effective_threads(Some(12)), 3);
}

#[test]
fn combinations_count_saturates() {
    // Up to 58 cards the formula is exact.
    assert_eq!(combinations_count(58, 29), 30_067_266_499_541_040);
    // Beyond, a product that overflows is capped before the division.
    assert_eq!(combinations_count(64, 32), 576_460_752_303_423_487);
    assert_eq!(combinations_count(200, 100), 184_467_440_737_095_516);
    assert_eq!(combinations_count(200, 1), 200);
}
