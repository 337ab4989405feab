use vstd::prelude::*;

verus! {

/// Number of ranks in a suit: ace (1) up to king (13).
pub const NUM_RANKS: usize = 13;

/// Number of suits in the deck.
pub const NUM_SUITS: usize = 4;

/// Number of cards in a full deck.
pub const DECK_SIZE: usize = 52;

/// The ranks of a suit, lowest first.
pub const RANKS: [u8; 13] = [1, 2, 3, 4, 5, 6, 7, 8, 9, 10, 11, 12, 13];

/// The four suits, in the order in which the deck enumerates them.
#[derive(Clone, Copy, Debug, PartialEq, Eq, Structural, Hash)]
pub enum Suit {
    Spades,
    Hearts,
    Clubs,
    Diamonds,
}

/// The colour group of a suit; cards are stacked on the tableau by alternating colour.
#[derive(Clone, Copy, Debug, PartialEq, Eq, Structural, Hash)]
pub enum Color {
    Black,
    Red,
}

/// The suit at a position of the enumeration order.
pub open spec fn suit_at(i: int) -> Suit {
    if i == 0 {
        Suit::Spades
    } else if i == 1 {
        Suit::Hearts
    } else if i == 2 {
        Suit::Clubs
    } else {
        Suit::Diamonds
    }
}

impl Suit {
    /// Position of the suit in the enumeration order.
    pub open spec fn ord(self) -> int {
        match self {
            Suit::Spades => 0,
            Suit::Hearts => 1,
            Suit::Clubs => 2,
            Suit::Diamonds => 3,
        }
    }

    /// Spades and clubs are black, hearts and diamonds are red.
    pub open spec fn colour(self) -> Color {
        match self {
            Suit::Spades | Suit::Clubs => Color::Black,
            Suit::Hearts | Suit::Diamonds => Color::Red,
        }
    }

    pub fn color(&self) -> (c: Color)
        ensures
            c == self.colour(),
    {
        match self {
            Suit::Spades | Suit::Clubs => Color::Black,
            Suit::Hearts | Suit::Diamonds => Color::Red,
        }
    }

    pub fn index(&self) -> (i: usize)
        ensures
            i == self.ord(),
            i < NUM_SUITS,
    {
        match self {
            Suit::Spades => 0,
            Suit::Hearts => 1,
            Suit::Clubs => 2,
            Suit::Diamonds => 3,
        }
    }

    pub fn from_index(i: usize) -> (s: Suit)
        requires
            i < NUM_SUITS,
        ensures
            s == suit_at(i as int),
            s.ord() == i,
    {
        if i == 0 {
            Suit::Spades
        } else if i == 1 {
            Suit::Hearts
        } else if i == 2 {
            Suit::Clubs
        } else {
            Suit::Diamonds
        }
    }
}

/// A playing card.
#[derive(Clone, Copy, Debug, PartialEq, Eq, Structural, Hash)]
pub struct Card {
    pub rank: u8,
    pub suit: Suit,
}

impl Card {
    /// A card of a real deck: its rank lies between ace (1) and king (13).
    pub open spec fn wf(self) -> bool {
        1 <= self.rank <= NUM_RANKS
    }
}

/// The deck in the order in which it is built before shuffling:
/// by rank, and within a rank by suit.
pub open spec fn full_deck() -> Seq<Card> {
    Seq::new(DECK_SIZE as nat, |i: int| Card { rank: (i / 4 + 1) as u8, suit: suit_at(i % 4) })
}

/// `deal` holds each card of the full deck exactly once, in some order.
pub open spec fn is_full_deck(deal: Seq<Card>) -> bool {
    deal.to_multiset() == full_deck().to_multiset()
}

/// Every card of a sequence is a card of a real deck.
pub open spec fn all_valid(cards: Seq<Card>) -> bool {
    forall|i: int| 0 <= i < cards.len() ==> (#[trigger] cards[i]).wf()
}

/// Any arrangement of the full deck has 52 valid cards.
pub proof fn lemma_full_deck_valid(deal: Seq<Card>)
    requires
        is_full_deck(deal),
    ensures
        deal.len() == DECK_SIZE,
        all_valid(deal),
{
    broadcast use vstd::seq_lib::group_to_multiset_ensures;

    assert(deal.len() == deal.to_multiset().len());
    assert(full_deck().len() == full_deck().to_multiset().len());
    assert forall|i: int| 0 <= i < deal.len() implies (#[trigger] deal[i]).wf() by {
        assert(deal.contains(deal[i]));
        assert(deal.to_multiset().count(deal[i]) > 0);
        assert(full_deck().contains(deal[i]));
        let j = choose|j: int| 0 <= j < full_deck().len() && full_deck()[j] == deal[i];
        assert(full_deck()[j].rank == (j / 4 + 1) as u8);
    }
}

} // verus!
