use vstd::prelude::*;

use crate::board::{depot_role, free_cell, stock, waste, BoardPos, DepotRole, NUM_DEPOTS};
use crate::card::{suit_at, Card, Suit, NUM_SUITS};
use crate::game::{auto_move, auto_move_from, auto_source, foundation_ranks, ranks_through, safe_sorts_of};
use crate::rules::{first_target, movable, selectable};
use crate::safe_sorts::safe_rule;

verus! {

/// A card goes onto a non-empty tableau column exactly when its colour
/// differs from that of the column's top card and its rank is one lower.
pub proof fn law_tableau_builds_down_in_alternating_colours(
    piles: Seq<Seq<Card>>,
    src: BoardPos,
    dest: BoardPos,
)
    requires
        piles.len() == NUM_DEPOTS,
        src.depot_index < NUM_DEPOTS,
        src.depot_index != dest.depot_index,
        src.card_index < piles[src.depot_index as int].len(),
        depot_role(dest.depot_index as int) == Some(DepotRole::Tableau),
        piles[dest.depot_index as int].len() > 0,
        dest.card_index == piles[dest.depot_index as int].len(),
    ensures
        movable(piles, src, dest) <==> {
            let card = piles[src.depot_index as int][src.card_index as int];
            let top = piles[dest.depot_index as int][piles[dest.depot_index as int].len() - 1];
            &&& card.suit.colour() != top.suit.colour()
            &&& card.rank + 1 == top.rank
        },
{
}

/// The card at position `i + 1` of `pile` has the other colour than the card
/// at position `i` and a rank one lower.
pub open spec fn steps_down_alternating(pile: Seq<Card>, i: int) -> bool {
    &&& pile[i].suit.colour() != pile[i + 1].suit.colour()
    &&& pile[i + 1].rank + 1 == pile[i].rank
}

/// A foundation takes exactly one card at a time: an ace when it is empty,
/// otherwise the card of the same suit one rank above its top card.
pub proof fn law_foundations_build_up_by_suit(piles: Seq<Seq<Card>>, src: BoardPos, dest: BoardPos)
    requires
        piles.len() == NUM_DEPOTS,
        src.depot_index < NUM_DEPOTS,
        src.depot_index != dest.depot_index,
        src.card_index < piles[src.depot_index as int].len(),
        depot_role(dest.depot_index as int) == Some(DepotRole::Foundation),
        dest.card_index == piles[dest.depot_index as int].len(),
    ensures
        movable(piles, src, dest) <==> {
            let card = piles[src.depot_index as int][src.card_index as int];
            let target = piles[dest.depot_index as int];
            &&& src.card_index + 1 == piles[src.depot_index as int].len()
            &&& target.len() == 0 ==> card.rank == 1
            &&& target.len() > 0 ==> card.suit == target[target.len() - 1].suit && card.rank
                == target[target.len() - 1].rank + 1
        },
{
}

/// Nothing is ever moved onto the stock or the waste, onto the same depot,
/// or below the top of a depot.
pub proof fn law_no_move_onto_stock_waste_or_below_top(
    piles: Seq<Seq<Card>>,
    src: BoardPos,
    dest: BoardPos,
)
    ensures
        dest.depot_index == stock() || dest.depot_index == waste() || dest.depot_index
            == src.depot_index || dest.card_index != piles[dest.depot_index as int].len()
            ==> !movable(piles, src, dest),
{
}

/// The top card of the waste and the card of the free cell can be picked up.
pub proof fn law_top_of_waste_and_free_cell_can_be_picked_up(piles: Seq<Seq<Card>>, pos: BoardPos)
    requires
        piles.len() == NUM_DEPOTS,
        pos.depot_index == waste() || pos.depot_index == free_cell(),
        pos.card_index + 1 == piles[pos.depot_index as int].len(),
    ensures
        selectable(piles, pos),
{
}

/// What the safe ranks are, given the foundation ranks `ranks` (by suit
/// position): a suit's safe rank is its foundation rank or one more; it is
/// one more whenever every suit of the other colour has reached at least
/// the suit's foundation rank, and it stays at the foundation rank whenever
/// some suit of the other colour is two or more ranks behind.
pub proof fn law_safe_ranks(ranks: Seq<int>, safe: Seq<int>)
    requires
        safe_rule(ranks, safe),
    ensures
        forall|s: int| 0 <= s < NUM_SUITS ==> ranks[s] <= #[trigger] safe[s] <= ranks[s] + 1,
        forall|s: int|
            0 <= s < NUM_SUITS && (forall|t: int|
                0 <= t < NUM_SUITS && suit_at(s).colour() != suit_at(t).colour() ==> #[trigger] ranks[t]
                    >= ranks[s]) ==> #[trigger] safe[s] == ranks[s] + 1,
        forall|s: int, t: int|
            #![trigger safe[s], ranks[t]]
            0 <= s < NUM_SUITS && 0 <= t < NUM_SUITS && suit_at(s).colour() != suit_at(t).colour()
                && ranks[t] + 1 < ranks[s] ==> safe[s] == ranks[s],
{
    assert forall|s: int| 0 <= s < NUM_SUITS implies ranks[s] <= #[trigger] safe[s] <= ranks[s] + 1 by {
        assert(safe[s] == ranks[s] + if crate::safe_sorts::others_reach(safe, s, ranks[s]) { 1int } else { 0int });
    }
    assert forall|s: int|
        0 <= s < NUM_SUITS && (forall|t: int|
            0 <= t < NUM_SUITS && suit_at(s).colour() != suit_at(t).colour() ==> #[trigger] ranks[t]
                >= ranks[s]) implies #[trigger] safe[s] == ranks[s] + 1 by {
        assert forall|t: int| 0 <= t < 4 && crate::safe_sorts::opposite(s, t) implies #[trigger] safe[t] >= ranks[s] by {
            assert(ranks[t] <= safe[t]);
        }
        assert(crate::safe_sorts::others_reach(safe, s, ranks[s]));
    }
    assert forall|s: int, t: int|
        #![trigger safe[s], ranks[t]]
        0 <= s < NUM_SUITS && 0 <= t < NUM_SUITS && suit_at(s).colour() != suit_at(t).colour()
            && ranks[t] + 1 < ranks[s] implies safe[s] == ranks[s] by {
        assert(safe[t] <= ranks[t] + 1);
        assert(!crate::safe_sorts::others_reach(safe, s, ranks[s]));
    }
}

/// Cards of a tableau column can be picked up from a position exactly when,
/// from there upward, each card has the other colour than the card below it
/// and a rank one lower.
pub proof fn law_tableau_runs_alternate_and_descend(piles: Seq<Seq<Card>>, pos: BoardPos)
    requires
        piles.len() == NUM_DEPOTS,
        depot_role(pos.depot_index as int) == Some(DepotRole::Tableau),
        pos.card_index < piles[pos.depot_index as int].len(),
    ensures
        selectable(piles, pos) <==> forall|i: int|
            pos.card_index <= i < piles[pos.depot_index as int].len() - 1
                ==> #[trigger] steps_down_alternating(piles[pos.depot_index as int], i),
{
    let pile = piles[pos.depot_index as int];
    if selectable(piles, pos) {
        assert forall|i: int| pos.card_index <= i < pile.len() - 1 implies #[trigger] steps_down_alternating(
            pile,
            i,
        ) by {
            assert(crate::rules::pair_stacks(pile, i));
        }
    }
    if forall|i: int|
        pos.card_index <= i < pile.len() - 1 ==> #[trigger] steps_down_alternating(pile, i) {
        assert forall|i: int| pos.card_index <= i < pile.len() - 1 implies #[trigger] crate::rules::pair_stacks(
            pile,
            i,
        ) by {
            assert(steps_down_alternating(pile, i));
        }
    }
}

/// Once the stock has run out, the empty free cell takes any single card
/// from another depot.
pub proof fn law_free_cell_takes_a_single_card_once_stock_is_empty(
    piles: Seq<Seq<Card>>,
    src: BoardPos,
)
    requires
        piles.len() == NUM_DEPOTS,
        piles[stock()].len() == 0,
        piles[free_cell()].len() == 0,
        src.depot_index < NUM_DEPOTS,
        src.depot_index != free_cell(),
        src.card_index + 1 == piles[src.depot_index as int].len(),
    ensures
        movable(piles, src, BoardPos { depot_index: free_cell() as usize, card_index: 0 }),
{
}

/// The foundation rank of a suit is the rank on top of the foundation whose
/// top card has that suit, whichever of the four foundations it is.
pub proof fn law_foundation_rank_is_filed_by_suit(piles: Seq<Seq<Card>>, f: int)
    requires
        piles.len() == NUM_DEPOTS,
        0 <= f < 4,
        piles[f].len() > 0,
        forall|g: int|
            0 <= g < 4 && g != f && (#[trigger] piles[g]).len() > 0 ==> piles[g][piles[g].len()
                - 1].suit != piles[f][piles[f].len() - 1].suit,
    ensures
        foundation_ranks(piles)[piles[f][piles[f].len() - 1].suit.ord()] == piles[f][piles[f].len()
            - 1].rank,
{
    let s = piles[f][piles[f].len() - 1].suit;
    lemma_rank_step(piles, 1, s);
    lemma_rank_step(piles, 2, s);
    lemma_rank_step(piles, 3, s);
    lemma_rank_step(piles, 4, s);
    assert(piles[0].len() > 0 ==> 0 == f || piles[0][piles[0].len() - 1].suit != s);
    assert(piles[1].len() > 0 ==> 1 == f || piles[1][piles[1].len() - 1].suit != s);
    assert(piles[2].len() > 0 ==> 2 == f || piles[2][piles[2].len() - 1].suit != s);
    assert(piles[3].len() > 0 ==> 3 == f || piles[3][piles[3].len() - 1].suit != s);
}

/// A suit that tops no foundation has foundation rank 0.
pub proof fn law_unstarted_suit_has_rank_zero(piles: Seq<Seq<Card>>, s: Suit)
    requires
        piles.len() == NUM_DEPOTS,
        forall|g: int|
            0 <= g < 4 && (#[trigger] piles[g]).len() > 0 ==> piles[g][piles[g].len() - 1].suit != s,
    ensures
        foundation_ranks(piles)[s.ord()] == 0,
{
    lemma_rank_step(piles, 1, s);
    lemma_rank_step(piles, 2, s);
    lemma_rank_step(piles, 3, s);
    lemma_rank_step(piles, 4, s);
    assert(piles[0].len() > 0 ==> piles[0][piles[0].len() - 1].suit != s);
    assert(piles[1].len() > 0 ==> piles[1][piles[1].len() - 1].suit != s);
    assert(piles[2].len() > 0 ==> piles[2][piles[2].len() - 1].suit != s);
    assert(piles[3].len() > 0 ==> piles[3][piles[3].len() - 1].suit != s);
    assert(ranks_through(piles, 0)[s.ord()] == 0);
}

proof fn lemma_ranks_len(piles: Seq<Seq<Card>>, n: int)
    requires
        0 <= n <= 4,
    ensures
        ranks_through(piles, n).len() == 4,
    decreases n,
{
    if n > 0 {
        lemma_ranks_len(piles, n - 1);
    }
}

/// One step of the fold: foundation `n - 1` files its top rank under its top
/// card's suit and leaves the other suits alone.
proof fn lemma_rank_step(piles: Seq<Seq<Card>>, n: int, s: Suit)
    requires
        1 <= n <= 4,
    ensures
        ranks_through(piles, n)[s.ord()] == if piles[n - 1].len() > 0 && piles[n - 1][piles[n
            - 1].len() - 1].suit == s {
            piles[n - 1][piles[n - 1].len() - 1].rank as int
        } else {
            ranks_through(piles, n - 1)[s.ord()]
        },
{
    lemma_ranks_len(piles, n - 1);
    let p = piles[n - 1];
    if p.len() > 0 {
        let t = p.last().suit;
        assert(t.ord() == s.ord() ==> t == s);
    }
}

/// The place of a source depot in the order in which automatic moves are
/// looked for: the waste, the free cell, then the tableau columns from the left.
pub open spec fn auto_order(d: int) -> int {
    if d == waste() {
        0
    } else if d == free_cell() {
        1
    } else {
        d - 5
    }
}

/// Depot `d` offers an automatic move: its top card has the safe rank of its
/// suit and some foundation takes it.
pub open spec fn offers_auto_move(piles: Seq<Seq<Card>>, d: int) -> bool {
    let p = piles[d];
    &&& p.len() > 0
    &&& safe_sorts_of(piles)[p[p.len() - 1].suit.ord()] == p[p.len() - 1].rank
    &&& exists|f: int|
        0 <= f < 4 && #[trigger] movable(
            piles,
            BoardPos { depot_index: d as usize, card_index: (p.len() - 1) as usize },
            BoardPos { depot_index: f as usize, card_index: piles[f].len() as usize },
        )
}

/// With automatic play on, when the waste, the free cell or a tableau column
/// offers an automatic move, one is made, and it comes from that depot or
/// from one looked at before it.
pub proof fn law_offered_auto_moves_are_made(piles: Seq<Seq<Card>>, d: int)
    requires
        piles.len() == NUM_DEPOTS,
        d == waste() || d == free_cell() || 7 <= d < 14,
        offers_auto_move(piles, d),
    ensures
        auto_move(piles, true) matches Some((src, dest)) && auto_order(src.depot_index as int)
            <= auto_order(d),
{
    let j = auto_order(d);
    assert(auto_source(j) == d);
    let i = lemma_auto_found(piles, safe_sorts_of(piles), 0, j);
    assert(auto_order(auto_source(i)) == i);
}

/// Searching from source `k` finds a move from a source no later than `j`
/// when source `j` offers one.
proof fn lemma_auto_found(piles: Seq<Seq<Card>>, safe: Seq<int>, k: int, j: int) -> (i: int)
    requires
        piles.len() == NUM_DEPOTS,
        0 <= k <= j < 9,
        safe == safe_sorts_of(piles),
        offers_auto_move(piles, auto_source(j)),
    ensures
        k <= i <= j,
        auto_move_from(piles, safe, k) matches Some((src, dest)) && src.depot_index == auto_source(
            i,
        ),
    decreases j - k,
{
    let d = auto_source(k);
    let p = piles[d];
    let src = BoardPos { depot_index: d as usize, card_index: (p.len() - 1) as usize };
    if p.len() > 0 && safe[p.last().suit.ord()] == p.last().rank && first_target(
        piles,
        src,
        0,
        4,
    ) is Some {
        k
    } else {
        if k == j {
            let f = choose|f: int|
                0 <= f < 4 && #[trigger] movable(
                    piles,
                    src,
                    BoardPos { depot_index: f as usize, card_index: piles[f].len() as usize },
                );
            lemma_first_target_finds(piles, src, 0, 4, f);
            assert(false);
        }
        lemma_auto_found(piles, safe, k + 1, j)
    }
}

/// `first_target` finds a depot whenever one in the range takes the cards.
proof fn lemma_first_target_finds(piles: Seq<Seq<Card>>, src: BoardPos, lo: int, hi: int, f: int)
    requires
        lo <= f < hi,
        movable(
            piles,
            src,
            BoardPos { depot_index: f as usize, card_index: piles[f].len() as usize },
        ),
    ensures
        first_target(piles, src, lo, hi) is Some,
    decreases f - lo,
{
    if lo < f {
        if !movable(
            piles,
            src,
            BoardPos { depot_index: lo as usize, card_index: piles[lo].len() as usize },
        ) {
            lemma_first_target_finds(piles, src, lo + 1, hi, f);
        }
    }
}

} // verus!
