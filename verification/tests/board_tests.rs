use solitaire::board::{Board, BoardPos, DepotRole, NUM_DEPOTS};
use solitaire::card::{Card, Color, Suit, DECK_SIZE, NUM_RANKS, RANKS};

const SUITS: [Suit; 4] = [Suit::Spades, Suit::Hearts, Suit::Clubs, Suit::Diamonds];

fn ordered_deck() -> Vec<Card> {
    let mut deck = Vec::new();
    for rank in RANKS {
        for suit in SUITS {
            deck.push(Card { rank, suit });
        }
    }
    deck
}

#[test]
fn suit_colors_alternate_in_enumeration_order() {
    assert_eq!(Suit::Spades.color(), Color::Black);
    assert_eq!(Suit::Hearts.color(), Color::Red);
    assert_eq!(Suit::Clubs.color(), Color::Black);
    assert_eq!(Suit::Diamonds.color(), Color::Red);
    for (i, s) in SUITS.iter().enumerate() {
        assert_eq!(s.index(), i);
        assert_eq!(Suit::from_index(i), *s);
    }
}

#[test]
fn depot_roles_are_numbered_role_by_role() {
    assert_eq!(DepotRole::Foundation.range(), 0..4);
    assert_eq!(DepotRole::FreeCell.range(), 4..5);
    assert_eq!(DepotRole::Stock.range(), 5..6);
    assert_eq!(DepotRole::Waste.range(), 6..7);
    assert_eq!(DepotRole::Tableau.range(), 7..14);
    assert_eq!(DepotRole::Tableau.id(3), 10);
    assert_eq!(DepotRole::role(2), Some(DepotRole::Foundation));
    assert_eq!(DepotRole::role(5), Some(DepotRole::Stock));
    assert_eq!(DepotRole::role(13), Some(DepotRole::Tableau));
    assert_eq!(DepotRole::role(14), None);
    assert_eq!(DepotRole::role_and_subindex(9), Some((DepotRole::Tableau, 2)));
    assert_eq!(DepotRole::role_and_subindex(6), Some((DepotRole::Waste, 0)));
    assert_eq!(DepotRole::role_and_subindex(20), None);
    assert!(!DepotRole::Stock.is_face_up());
    assert!(DepotRole::Tableau.is_face_up());
    assert_eq!(DepotRole::Tableau.number_of(), 7);
}

#[test]
fn empty_board_has_fourteen_empty_depots() {
    let b = Board::empty();
    assert_eq!(b.depots.len(), NUM_DEPOTS);
    assert!(b.depots.iter().all(|d| d.is_empty()));
    assert_eq!(b.selected, None);
    assert!(b.animation_acts.is_empty());
}

#[test]
fn deal_is_laid_out_in_a_triangle_and_the_stock() {
    let deck = ordered_deck();
    assert_eq!(deck.len(), DECK_SIZE);
    let b = Board::from_deal(&deck);
    for d in 0..5 {
        assert!(b.depots[d].is_empty());
    }
    assert!(b.depots[6].is_empty());
    assert_eq!(b.depots[5], deck[28..52].to_vec());
    let mut start = 0;
    for c in 0..7 {
        assert_eq!(b.depots[7 + c], deck[start..start + c + 1].to_vec());
        start += c + 1;
    }
    assert_eq!(b.depots[7], vec![Card { rank: 1, suit: Suit::Spades }]);
    assert_eq!(*b.depots[5].last().unwrap(), Card { rank: NUM_RANKS as u8, suit: Suit::Diamonds });
}

#[test]
fn top_pos_points_above_the_top_card() {
    let b = Board::from_deal(&ordered_deck());
    assert_eq!(b.top_pos(5), BoardPos::new(5, 24));
    assert_eq!(b.top_pos(13), BoardPos::new(13, 7));
    assert_eq!(b.top_pos(0), BoardPos::new(0, 0));
}

#[test]
fn do_move_moves_a_run_and_records_it() {
    let deck = ordered_deck();
    let mut b = Board::from_deal(&deck);
    b.selected = Some(BoardPos::new(13, 6));
    let src = BoardPos::new(13, 4);
    let dest = b.top_pos(6);
    b.do_move(src, dest);
    assert_eq!(b.depots[13], deck[21..25].to_vec());
    assert_eq!(b.depots[6], deck[25..28].to_vec());
    assert_eq!(b.selected, None);
    assert_eq!(b.animation_acts.len(), 1);
    assert_eq!(b.animation_acts[0].num_cards, 3);
    b.advance_actions();
    assert!(b.animation_acts.is_empty());
}

#[test]
fn moving_nothing_records_nothing() {
    let mut b = Board::from_deal(&ordered_deck());
    let before = b.depots.clone();
    b.do_move(BoardPos::new(6, 0), BoardPos::new(7, 1));
    assert_eq!(b.depots, before);
    assert!(b.animation_acts.is_empty());
}

#[test]
fn move_then_reverse_restores_the_board() {
    let deck = ordered_deck();
    let mut b = Board::from_deal(&deck);
    let before = b.depots.clone();
    let src = BoardPos::new(12, 2);
    let dest = b.top_pos(9);
    b.do_move(src, dest);
    assert_ne!(b.depots, before);
    b.do_move(dest, src);
    assert_eq!(b.depots, before);
}

#[test]
fn a_short_deal_fills_the_columns_as_far_as_it_goes() {
    let deck = ordered_deck();
    let b = Board::from_deal(&deck[..12]);
    assert!(b.depots[5].is_empty());
    assert_eq!(b.depots[7], deck[0..1].to_vec());
    assert_eq!(b.depots[8], deck[1..3].to_vec());
    assert_eq!(b.depots[9], deck[3..6].to_vec());
    assert_eq!(b.depots[10], deck[6..10].to_vec());
    assert_eq!(b.depots[11], deck[10..12].to_vec());
    assert!(b.depots[12].is_empty());
    assert!(b.depots[13].is_empty());
    let total: usize = b.depots.iter().map(|d| d.len()).sum();
    assert_eq!(total, 12);
    let empty = Board::from_deal(&[]);
    assert!(empty.depots.iter().all(|d| d.is_empty()));
    assert_eq!(empty.depots.len(), NUM_DEPOTS);
}

#[test]
fn a_long_deal_puts_the_rest_into_the_stock() {
    let mut deck = ordered_deck();
    deck.extend(ordered_deck());
    let b = Board::from_deal(&deck);
    assert_eq!(b.depots[5], deck[28..104].to_vec());
}
