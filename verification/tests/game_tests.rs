use solitaire::board::{BoardPos, DepotRole};
use solitaire::card::{Card, Suit, DECK_SIZE, RANKS};
use solitaire::game::{ColorSkin, GameState, ScreenState, SettingsState, Skin};
use solitaire::rules::ActionRecord;

const SUITS: [Suit; 4] = [Suit::Spades, Suit::Hearts, Suit::Clubs, Suit::Diamonds];

fn ordered_deck() -> Vec<Card> {
    let mut deck = Vec::new();
    for rank in RANKS {
        for suit in SUITS {
            deck.push(Card { rank, suit });
        }
    }
    deck
}

fn card(rank: u8, suit: Suit) -> Card {
    Card { rank, suit }
}

/// A game dealt from the ordered deck, without automatic play.
fn ordered_game() -> GameState {
    let mut g = GameState::init();
    g.new_game_with_deal(ordered_deck());
    g.auto_play = false;
    g
}

fn sorted_cards(g: &GameState) -> Vec<(u8, usize)> {
    let mut all: Vec<(u8, usize)> =
        g.board.depots.iter().flatten().map(|c| (c.rank, c.suit.index())).collect();
    all.sort();
    all
}

fn full_deck_sorted() -> Vec<(u8, usize)> {
    let mut all: Vec<(u8, usize)> = ordered_deck().iter().map(|c| (c.rank, c.suit.index())).collect();
    all.sort();
    all
}

fn won_board(g: &mut GameState) {
    for d in 0..14 {
        g.board.depots[d].clear();
    }
    for (f, suit) in SUITS.iter().enumerate() {
        for rank in RANKS {
            g.board.depots[f].push(card(rank, *suit));
        }
    }
    g.board.selected = None;
    g.board.animation_acts.clear();
}

#[test]
fn init_starts_with_default_settings() {
    let g = GameState::init();
    assert!(g.history.is_empty());
    assert_eq!(g.num_wins, 0);
    assert!(!g.already_won);
    assert!(g.allow_undo);
    assert!(g.auto_play);
    assert_eq!(g.screen_state, ScreenState::Game);
    assert_eq!(g.skin.colors, ColorSkin::TwoColor);
    assert_eq!(g.animation_key, 0);
    assert_eq!(g.deal.len(), DECK_SIZE);
    assert_eq!(sorted_cards(&g), full_deck_sorted());
    assert!(!g.is_busy());
    assert!(!g.is_won());
}

#[test]
fn new_deal_holds_every_card_once() {
    let deal = GameState::new_deal(&mut rand::rng());
    let mut all: Vec<(u8, usize)> = deal.iter().map(|c| (c.rank, c.suit.index())).collect();
    all.sort();
    assert_eq!(all, full_deck_sorted());
}

#[test]
fn defaults_of_screen_and_skin() {
    assert_eq!(ScreenState::default(), ScreenState::Game);
    assert_eq!(Skin::default().colors, ColorSkin::TwoColor);
}

#[test]
fn stacking_alternates_colours_and_descends() {
    let g = ordered_game();
    // the example of the help screen: 4 of hearts, 3 of clubs and 2 of hearts on the 5 of spades
    assert!(g.can_stack(card(5, Suit::Spades), card(4, Suit::Hearts)));
    assert!(g.can_stack(card(4, Suit::Hearts), card(3, Suit::Clubs)));
    assert!(g.can_stack(card(3, Suit::Clubs), card(2, Suit::Hearts)));
    assert!(!g.can_stack(card(5, Suit::Spades), card(4, Suit::Clubs)));
    assert!(!g.can_stack(card(5, Suit::Spades), card(3, Suit::Hearts)));
    assert!(!g.can_stack(card(4, Suit::Hearts), card(5, Suit::Spades)));
}

#[test]
fn sorting_follows_suit_upward() {
    let g = ordered_game();
    assert!(g.can_sort(card(1, Suit::Spades), card(2, Suit::Spades)));
    assert!(!g.can_sort(card(1, Suit::Spades), card(2, Suit::Clubs)));
    assert!(!g.can_sort(card(1, Suit::Spades), card(3, Suit::Spades)));
    assert!(!g.can_sort(card(2, Suit::Spades), card(1, Suit::Spades)));
}

#[test]
fn tableau_runs_can_be_picked_up() {
    let mut g = ordered_game();
    g.board.depots[10] = vec![
        card(9, Suit::Clubs),
        card(5, Suit::Spades),
        card(4, Suit::Hearts),
        card(3, Suit::Clubs),
        card(2, Suit::Hearts),
    ];
    assert!(g.can_select(BoardPos::new(10, 1)));
    assert!(g.can_select(BoardPos::new(10, 3)));
    assert!(g.can_select(BoardPos::new(10, 4)));
    assert!(!g.can_select(BoardPos::new(10, 0)));
    assert!(!g.can_select(BoardPos::new(10, 5)));
    assert!(!g.can_select(BoardPos::new(10, usize::MAX)));
    // in the dealt layout, the 2 of spades and the 2 of hearts do not form a run
    assert!(!g.can_select(BoardPos::new(9, 1)));
    assert!(g.can_select(BoardPos::new(9, 2)));
}

#[test]
fn only_the_front_of_waste_and_free_cell_can_be_picked_up() {
    let mut g = ordered_game();
    g.board.depots[6] = vec![card(8, Suit::Spades), card(8, Suit::Hearts)];
    g.board.depots[4] = vec![card(9, Suit::Spades)];
    g.board.depots[0] = vec![card(1, Suit::Diamonds)];
    assert!(g.can_select(BoardPos::new(6, 1)));
    assert!(!g.can_select(BoardPos::new(6, 0)));
    assert!(g.can_select(BoardPos::new(4, 0)));
    assert!(!g.can_select(BoardPos::new(0, 0)));
    assert!(!g.can_select(BoardPos::new(5, 23)));
}

#[test]
fn foundations_take_aces_then_the_next_rank_of_the_suit() {
    let mut g = ordered_game();
    // ace of spades (column 0) onto an empty foundation
    assert!(g.can_move(BoardPos::new(7, 0), BoardPos::new(0, 0)));
    // not below the top of the foundation, nor onto the same depot
    assert!(!g.can_move(BoardPos::new(7, 0), BoardPos::new(0, 1)));
    assert!(!g.can_move(BoardPos::new(7, 0), BoardPos::new(7, 1)));
    // a 2 does not start a foundation
    assert!(!g.can_move(BoardPos::new(9, 2), BoardPos::new(0, 0)));
    // two cards at once never go to a foundation
    g.board.depots[0] = vec![card(1, Suit::Spades)];
    g.board.depots[7] = vec![card(2, Suit::Spades), card(1, Suit::Hearts)];
    assert!(!g.can_move(BoardPos::new(7, 0), BoardPos::new(0, 1)));
    g.board.depots[7] = vec![card(2, Suit::Spades)];
    assert!(g.can_move(BoardPos::new(7, 0), BoardPos::new(0, 1)));
    g.board.depots[7] = vec![card(2, Suit::Clubs)];
    assert!(!g.can_move(BoardPos::new(7, 0), BoardPos::new(0, 1)));
}

#[test]
fn free_cell_opens_when_the_stock_runs_out() {
    let mut g = ordered_game();
    assert!(!g.can_move(BoardPos::new(9, 2), BoardPos::new(4, 0)));
    g.board.depots[5].clear();
    assert!(g.can_move(BoardPos::new(9, 2), BoardPos::new(4, 0)));
    assert!(!g.can_move(BoardPos::new(9, 1), BoardPos::new(4, 0)));
    g.board.depots[4] = vec![card(13, Suit::Clubs)];
    assert!(!g.can_move(BoardPos::new(9, 2), BoardPos::new(4, 1)));
}

#[test]
fn nothing_moves_onto_stock_or_waste() {
    let g = ordered_game();
    assert!(!g.can_move(BoardPos::new(9, 2), BoardPos::new(5, 24)));
    assert!(!g.can_move(BoardPos::new(9, 2), BoardPos::new(6, 0)));
}

#[test]
fn tableau_takes_descending_alternating_cards_and_anything_when_empty() {
    let mut g = ordered_game();
    g.board.depots[8] = vec![card(5, Suit::Spades)];
    g.board.depots[10] = vec![card(4, Suit::Hearts), card(3, Suit::Clubs), card(2, Suit::Hearts)];
    assert!(g.can_move(BoardPos::new(10, 0), BoardPos::new(8, 1)));
    assert!(!g.can_move(BoardPos::new(10, 1), BoardPos::new(8, 1)));
    g.board.depots[8].clear();
    assert!(g.can_move(BoardPos::new(10, 1), BoardPos::new(8, 0)));
    assert!(g.can_move(BoardPos::new(13, 6), BoardPos::new(8, 0)));
}

#[test]
fn clicking_the_stock_deals_three_cards_to_the_waste() {
    let mut g = ordered_game();
    let deck = ordered_deck();
    g.onclick(BoardPos::new(5, 23));
    assert_eq!(g.board.depots[6], deck[49..52].to_vec());
    assert_eq!(g.board.depots[5], deck[28..49].to_vec());
    assert_eq!(
        g.history,
        vec![ActionRecord { pos1: BoardPos::new(5, 21), pos2: BoardPos::new(6, 0), auto: false }]
    );
    assert!(g.is_busy());
    // while the move is shown, clicks are ignored
    g.onclick(BoardPos::new(5, 20));
    assert_eq!(g.history.len(), 1);
}

#[test]
fn an_empty_stock_deals_nothing() {
    let mut g = ordered_game();
    for _ in 0..8 {
        g.onclick(BoardPos::new(5, 0));
        g.board.advance_actions();
    }
    assert!(g.board.depots[5].is_empty());
    assert_eq!(g.board.depots[6].len(), 24);
    let before = g.board.depots.clone();
    g.onclick(BoardPos::new(5, usize::MAX));
    assert_eq!(g.board.depots, before);
    assert_eq!(g.history.len(), 9);
    assert!(!g.is_busy());
}

#[test]
fn select_then_click_a_foundation_moves_the_card() {
    let mut g = ordered_game();
    g.onclick(BoardPos::new(7, 0));
    assert_eq!(g.board.selected, Some(BoardPos::new(7, 0)));
    g.onclick(BoardPos::new(0, usize::MAX));
    assert_eq!(g.board.depots[0], vec![card(1, Suit::Spades)]);
    assert!(g.board.depots[7].is_empty());
    assert_eq!(g.board.selected, None);
    assert_eq!(
        g.history,
        vec![ActionRecord { pos1: BoardPos::new(7, 0), pos2: BoardPos::new(0, 0), auto: false }]
    );
}

#[test]
fn clicking_the_selection_again_clears_it() {
    let mut g = ordered_game();
    g.onclick(BoardPos::new(8, 1));
    assert_eq!(g.board.selected, Some(BoardPos::new(8, 1)));
    g.onclick(BoardPos::new(8, 1));
    assert_eq!(g.board.selected, None);
    assert!(g.history.is_empty());
}

#[test]
fn clicking_within_the_selected_column_moves_the_selection() {
    let mut g = ordered_game();
    g.board.depots[10] = vec![card(5, Suit::Spades), card(4, Suit::Hearts), card(3, Suit::Clubs)];
    g.onclick(BoardPos::new(10, 2));
    g.onclick(BoardPos::new(10, 0));
    assert_eq!(g.board.selected, Some(BoardPos::new(10, 0)));
    // an illegal target leaves everything as it was
    let before = g.board.depots.clone();
    g.onclick(BoardPos::new(13, 6));
    assert_eq!(g.board.depots, before);
    assert_eq!(g.board.selected, Some(BoardPos::new(10, 0)));
    // an unselectable card selects nothing
    g.board.selected = None;
    g.onclick(BoardPos::new(13, 0));
    assert_eq!(g.board.selected, None);
}

#[test]
fn a_run_moves_onto_a_matching_column() {
    let mut g = ordered_game();
    g.board.depots[8] = vec![card(5, Suit::Spades)];
    g.board.depots[10] = vec![card(4, Suit::Hearts), card(3, Suit::Clubs), card(2, Suit::Hearts)];
    g.onclick(BoardPos::new(10, 0));
    g.onclick(BoardPos::new(8, 0));
    assert_eq!(
        g.board.depots[8],
        vec![card(5, Suit::Spades), card(4, Suit::Hearts), card(3, Suit::Clubs), card(2, Suit::Hearts)]
    );
    assert!(g.board.depots[10].is_empty());
}

#[test]
fn double_click_sends_a_card_to_a_foundation_or_the_free_cell() {
    let mut g = ordered_game();
    g.ondoubleclick(BoardPos::new(7, 0));
    assert_eq!(g.board.depots[0], vec![card(1, Suit::Spades)]);
    g.board.advance_actions();
    g.ondoubleclick(BoardPos::new(8, 1));
    assert_eq!(g.board.depots[1], vec![card(1, Suit::Clubs)]);
    g.board.advance_actions();
    // no foundation takes the 2 of hearts and the stock is not empty
    let before = g.board.depots.clone();
    g.ondoubleclick(BoardPos::new(9, 2));
    assert_eq!(g.board.depots, before);
    // with the stock gone it goes to the free cell
    g.board.depots[5].clear();
    g.ondoubleclick(BoardPos::new(9, 2));
    assert_eq!(g.board.depots[4], vec![card(2, Suit::Hearts)]);
    assert_eq!(g.history.len(), 3);
    assert!(g.history.iter().all(|r| !r.auto));
}

#[test]
fn double_click_on_an_unselectable_card_does_nothing() {
    let mut g = ordered_game();
    let before = g.board.depots.clone();
    g.ondoubleclick(BoardPos::new(9, 1));
    g.ondoubleclick(BoardPos::new(5, 23));
    assert_eq!(g.board.depots, before);
    assert!(g.history.is_empty());
}

#[test]
fn safe_sorts_with_empty_foundations_allow_every_ace() {
    let g = ordered_game();
    let safe = g.get_safe_sorts();
    for s in SUITS {
        assert_eq!(safe.get(s), 1);
    }
}

#[test]
fn safe_sorts_wait_for_the_other_colour() {
    let mut g = ordered_game();
    g.board.depots[0] = vec![card(1, Suit::Spades), card(2, Suit::Spades), card(3, Suit::Spades)];
    g.board.depots[1] = vec![card(1, Suit::Hearts)];
    let safe = g.get_safe_sorts();
    assert_eq!(safe.get(Suit::Spades), 3);
    assert_eq!(safe.get(Suit::Hearts), 2);
    assert_eq!(safe.get(Suit::Clubs), 1);
    assert_eq!(safe.get(Suit::Diamonds), 1);
}

#[test]
fn auto_moves_send_safe_cards_to_the_foundations() {
    let mut g = ordered_game();
    g.check_auto_moves();
    assert!(g.history.is_empty());
    g.auto_play = true;
    g.check_auto_moves();
    assert_eq!(g.board.depots[0], vec![card(1, Suit::Spades)]);
    assert_eq!(
        g.history,
        vec![ActionRecord { pos1: BoardPos::new(7, 0), pos2: BoardPos::new(0, 0), auto: true }]
    );
    // busy: nothing more happens
    g.check_auto_moves();
    assert_eq!(g.history.len(), 1);
    g.board.advance_actions();
    g.check_auto_moves();
    assert_eq!(g.board.depots[1], vec![card(1, Suit::Clubs)]);
    assert_eq!(g.history.len(), 2);
}

#[test]
fn advance_animations_ignores_stale_keys() {
    let mut g = ordered_game();
    g.onclick(BoardPos::new(5, 23));
    let before_depots = g.board.depots.clone();
    assert!(!g.advance_animations(7));
    assert_eq!(g.board.depots, before_depots);
    assert!(g.is_busy());
    assert_eq!(g.animation_key, 0);
    assert!(g.advance_animations(0));
    assert_eq!(g.animation_key, 1);
    assert!(!g.is_busy());
}

#[test]
fn animation_key_wraps_around() {
    let mut g = ordered_game();
    g.animation_key = u16::MAX;
    g.advance_animations(u16::MAX);
    assert_eq!(g.animation_key, 0);
}

#[test]
fn a_win_is_counted_once() {
    let mut g = ordered_game();
    won_board(&mut g);
    assert!(g.is_won());
    assert!(g.advance_animations(0));
    assert_eq!(g.num_wins, 1);
    assert!(g.already_won);
    g.advance_animations(1);
    assert_eq!(g.num_wins, 1);
    g.new_game_with_deal(ordered_deck());
    assert!(!g.already_won);
    assert_eq!(g.num_wins, 1);
}

#[test]
fn undo_takes_back_the_move_and_the_automatic_moves_after_it() {
    let mut g = GameState::init();
    g.new_game_with_deal(ordered_deck());
    let start = g.board.depots.clone();
    g.onclick(BoardPos::new(7, 0));
    g.onclick(BoardPos::new(0, usize::MAX));
    // busy: undo waits for the move to be shown
    assert!(!g.undo());
    let mut steps = 0;
    while g.is_busy() {
        g.advance_animations(g.animation_key);
        steps += 1;
        assert!(steps < 100);
    }
    assert!(g.history.len() > 1);
    assert!(!g.history[0].auto);
    assert!(g.history[1..].iter().all(|r| r.auto));
    assert_eq!(sorted_cards(&g), full_deck_sorted());
    assert!(g.undo());
    assert_eq!(g.board.depots, start);
    assert!(g.history.is_empty());
    assert!(!g.undo());
}

#[test]
fn undo_restores_a_single_move() {
    let mut g = ordered_game();
    g.onclick(BoardPos::new(5, 23));
    g.board.advance_actions();
    let after_deal = g.board.depots.clone();
    g.onclick(BoardPos::new(7, 0));
    g.onclick(BoardPos::new(0, usize::MAX));
    g.board.advance_actions();
    assert!(g.undo());
    assert_eq!(g.board.depots, after_deal);
    assert_eq!(g.history.len(), 1);
    assert!(!g.is_busy());
}

#[test]
fn undo_is_refused_when_not_allowed() {
    let mut g = ordered_game();
    g.allow_undo = false;
    g.onclick(BoardPos::new(5, 23));
    g.board.advance_actions();
    assert!(!g.undo_possible());
    assert!(!g.undo());
    assert_eq!(g.history.len(), 1);
}

#[test]
fn restart_deals_the_same_game_again() {
    let mut g = ordered_game();
    let start = g.board.depots.clone();
    assert!(!g.restart());
    g.onclick(BoardPos::new(5, 23));
    g.onclick(BoardPos::new(5, 23));
    assert!(g.restart());
    assert_eq!(g.board.depots, start);
    assert!(g.history.is_empty());
    assert!(!g.is_busy());
    g.onclick(BoardPos::new(5, 23));
    g.allow_undo = false;
    assert!(!g.restart());
    assert_eq!(g.history.len(), 1);
}

#[test]
fn settings_round_trip() {
    let mut g = ordered_game();
    let s = SettingsState { allow_undo: false, auto_play: true, skin: Skin { colors: ColorSkin::FourColor } };
    g.apply_settings(&s);
    assert_eq!(g.new_settings_state(), s);
    assert!(!g.undo_possible());
}

#[test]
fn cards_are_never_lost_while_playing() {
    let mut g = GameState::init();
    for round in 0..200usize {
        let depot = (round * 7 + 3) % 14;
        let len = g.board.depots[depot].len();
        let pos = BoardPos::new(depot, if len == 0 { usize::MAX } else { (round * 5) % len });
        if round % 3 == 0 {
            g.ondoubleclick(pos);
        } else {
            g.onclick(pos);
        }
        while g.is_busy() {
            g.advance_animations(g.animation_key);
        }
        if round % 17 == 0 {
            g.undo();
        }
        assert_eq!(sorted_cards(&g), full_deck_sorted());
        assert!(g.board.depots[4].len() <= 1);
        for f in DepotRole::Foundation.range() {
            for (i, c) in g.board.depots[f].iter().enumerate() {
                assert_eq!(c.rank as usize, i + 1);
                assert_eq!(c.suit, g.board.depots[f][0].suit);
            }
        }
    }
}

#[test]
fn new_deal_is_shuffled() {
    // a shuffle that left the deck in order would give the ordered deck twice
    let a = GameState::new_deal(&mut rand::rng());
    let b = GameState::new_deal(&mut rand::rng());
    assert!(a != ordered_deck() || b != ordered_deck());
}

#[test]
fn a_won_game_has_every_card_on_the_foundations() {
    let mut g = ordered_game();
    won_board(&mut g);
    assert!(g.is_won());
    let on_foundations: usize = DepotRole::Foundation.range().map(|f| g.board.depots[f].len()).sum();
    assert_eq!(on_foundations, DECK_SIZE);
    g.board.depots[3].pop();
    assert!(!g.is_won());
}

#[test]
fn moving_onto_the_same_depot_is_refused_even_off_the_board() {
    let g = ordered_game();
    assert!(!g.can_move(BoardPos::new(20, 0), BoardPos::new(20, 0)));
    assert!(!g.can_move(BoardPos::new(usize::MAX, 3), BoardPos::new(usize::MAX, 0)));
}

#[test]
fn restart_lays_out_any_deal() {
    let mut g = ordered_game();
    g.deal = ordered_deck()[..10].to_vec();
    g.onclick(BoardPos::new(5, 23));
    assert!(g.restart());
    assert_eq!(g.board.depots[7], ordered_deck()[0..1].to_vec());
    assert_eq!(g.board.depots[10], ordered_deck()[6..10].to_vec());
    assert!(g.board.depots[5].is_empty());
    assert!(g.history.is_empty());
    let snapshot = g.board.depots.clone();
    // a second restart has nothing to take back
    assert!(!g.restart());
    assert_eq!(g.board.depots, snapshot);
}
