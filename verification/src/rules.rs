use vstd::prelude::*;

use crate::board::{
    all_cards, apply_move, depot_role, free_cell, lemma_move_keeps_cards, lemma_move_then_reverse,
    move_fits, stock, waste, BoardPos, DepotRole, NUM_DEPOTS,
};
use crate::card::{Card, NUM_RANKS};

verus! {

/// The record of a move: the cards of `pos1`'s depot from `pos1.card_index`
/// upward went onto the top of `pos2`'s depot; `auto` marks moves that the
/// game made by itself.
#[derive(Clone, Copy, Debug, PartialEq, Eq, Structural)]
pub struct ActionRecord {
    pub pos1: BoardPos,
    pub pos2: BoardPos,
    pub auto: bool,
}

/// `front` may lie on `back` in the tableau: the colours differ and `front`
/// is one rank lower.
pub open spec fn stacks_on(back: Card, front: Card) -> bool {
    back.suit.colour() != front.suit.colour() && front.rank + 1 == back.rank
}

/// `front` may go onto `back` in a foundation: same suit, one rank higher.
pub open spec fn sorts_onto(back: Card, front: Card) -> bool {
    back.suit == front.suit && back.rank + 1 == front.rank
}

/// The card at position `i + 1` of `pile` may lie on the card at position `i`.
pub open spec fn pair_stacks(pile: Seq<Card>, i: int) -> bool {
    stacks_on(pile[i], pile[i + 1])
}

/// The cards of `pile` from position `from` upward form a run of descending
/// ranks in alternating colours.
pub open spec fn stacked_from(pile: Seq<Card>, from: int) -> bool {
    forall|i: int| from <= i < pile.len() - 1 ==> #[trigger] pair_stacks(pile, i)
}

/// The cards at `pos` and above may be picked up: a card of the free cell or
/// the top card of the waste, or a run of a tableau column. Foundation and
/// stock cards cannot be picked up.
pub open spec fn selectable(piles: Seq<Seq<Card>>, pos: BoardPos) -> bool {
    let d = pos.depot_index as int;
    let c = pos.card_index as int;
    &&& d < NUM_DEPOTS
    &&& c < piles[d].len()
    &&& match depot_role(d) {
        Some(DepotRole::FreeCell) => piles[d].len() - c <= 1,
        Some(DepotRole::Waste) => piles[d].len() - c <= 1,
        Some(DepotRole::Tableau) => stacked_from(piles[d], c),
        _ => false,
    }
}

/// The cards at `src` and above may be moved onto the top of `dest`'s depot:
///  - onto a foundation, a single card: an ace on an empty foundation, or
///    the next rank of the suit of the foundation's top card;
///  - into the free cell, a single card, when the free cell is empty and
///    the stock has run out;
///  - onto a tableau column, anything onto an empty column, or cards whose
///    bottom card stacks on the column's top card;
///  - never onto the stock or the waste, nor back onto the same depot.
pub open spec fn movable(piles: Seq<Seq<Card>>, src: BoardPos, dest: BoardPos) -> bool {
    let s = src.depot_index as int;
    let t = dest.depot_index as int;
    let num_moved = piles[s].len() - src.card_index;
    let card = piles[s][src.card_index as int];
    &&& s != t
    &&& dest.card_index == piles[t].len()
    &&& match depot_role(t) {
        Some(DepotRole::Foundation) => num_moved == 1 && if piles[t].len() > 0 {
            sorts_onto(piles[t].last(), card)
        } else {
            card.rank == 1
        },
        Some(DepotRole::FreeCell) => piles[stock()].len() == 0 && piles[t].len() == 0 && num_moved
            == 1,
        Some(DepotRole::Tableau) => piles[t].len() > 0 ==> stacks_on(piles[t].last(), card),
        _ => false,
    }
}

/// A move the game makes: a legal move of cards, or dealing from the stock
/// onto the waste.
pub open spec fn game_move(piles: Seq<Seq<Card>>, src: BoardPos, dest: BoardPos) -> bool {
    ||| movable(piles, src, dest)
    ||| (src.depot_index == stock() && dest.depot_index == waste())
}

/// Every foundation holds all thirteen cards of a suit.
pub open spec fn won(piles: Seq<Seq<Card>>) -> bool {
    forall|f: int| 0 <= f < 4 ==> (#[trigger] piles[f]).len() == NUM_RANKS
}

/// A foundation pile is built up in one suit from the ace.
pub open spec fn foundation_ok(pile: Seq<Card>) -> bool {
    forall|i: int| 0 <= i < pile.len() ==> (#[trigger] pile[i]).rank == i + 1 && pile[i].suit == pile[0].suit
}

/// What holds of every position of a game dealt from `deal`: the board holds
/// exactly the cards of the deal, every foundation is built up by suit from
/// the ace, and the free cell holds at most one card.
pub open spec fn sound(piles: Seq<Seq<Card>>, deal: Seq<Card>) -> bool {
    &&& piles.len() == NUM_DEPOTS
    &&& all_cards(piles) == deal.to_multiset()
    &&& forall|f: int| 0 <= f < 4 ==> foundation_ok(#[trigger] piles[f])
    &&& piles[free_cell()].len() <= 1
}

/// The piles after replaying the recorded moves, oldest first, from `start`.
pub open spec fn replay(start: Seq<Seq<Card>>, history: Seq<ActionRecord>) -> Seq<Seq<Card>>
    decreases history.len(),
{
    if history.len() == 0 {
        start
    } else {
        apply_move(replay(start, history.drop_last()), history.last().pos1, history.last().pos2)
    }
}

/// Each recorded move fitted the piles on which it was made.
pub open spec fn history_fits(start: Seq<Seq<Card>>, history: Seq<ActionRecord>) -> bool
    decreases history.len(),
{
    history.len() == 0 || {
        &&& history_fits(start, history.drop_last())
        &&& move_fits(
            replay(start, history.drop_last()),
            history.last().pos1,
            history.last().pos2,
        )
    }
}

/// Undoing moves from the most recent one backward, through the first one
/// not made by the game itself, only touches depots that exist and takes
/// cards from within their depots.
pub open spec fn reversible(piles: Seq<Seq<Card>>, history: Seq<ActionRecord>) -> bool
    decreases history.len(),
{
    history.len() == 0 || {
        let r = history.last();
        &&& r.pos1.depot_index < NUM_DEPOTS
        &&& r.pos2.depot_index < NUM_DEPOTS
        &&& r.pos2.card_index <= piles[r.pos2.depot_index as int].len()
        &&& (r.auto ==> reversible(apply_move(piles, r.pos2, r.pos1), history.drop_last()))
    }
}

/// How many records an undo removes: the automatic moves at the end of the
/// history and the move before them.
pub open spec fn undo_count(history: Seq<ActionRecord>) -> nat
    decreases history.len(),
{
    if history.len() == 0 {
        0
    } else if !history.last().auto {
        1
    } else {
        1 + undo_count(history.drop_last())
    }
}

/// The piles after an undo: the moves that `undo_count` counts are reversed,
/// most recent first.
pub open spec fn undo_piles(piles: Seq<Seq<Card>>, history: Seq<ActionRecord>) -> Seq<Seq<Card>>
    decreases history.len(),
{
    if history.len() == 0 {
        piles
    } else {
        let r = history.last();
        let back = apply_move(piles, r.pos2, r.pos1);
        if !r.auto {
            back
        } else {
            undo_piles(back, history.drop_last())
        }
    }
}

/// The first depot in `lo..hi` onto whose top the cards at `src` may move.
pub open spec fn first_target(piles: Seq<Seq<Card>>, src: BoardPos, lo: int, hi: int) -> Option<
    int,
>
    decreases hi - lo,
{
    if lo >= hi {
        None
    } else if movable(
        piles,
        src,
        BoardPos { depot_index: lo as usize, card_index: piles[lo].len() as usize },
    ) {
        Some(lo)
    } else {
        first_target(piles, src, lo + 1, hi)
    }
}

/// The depot that `first_target` finds lies in the range and takes the cards.
pub proof fn lemma_first_target(piles: Seq<Seq<Card>>, src: BoardPos, lo: int, hi: int)
    ensures
        first_target(piles, src, lo, hi) matches Some(d) ==> lo <= d < hi && movable(
            piles,
            src,
            BoardPos { depot_index: d as usize, card_index: piles[d].len() as usize },
        ),
    decreases hi - lo,
{
    if lo < hi {
        lemma_first_target(piles, src, lo + 1, hi);
    }
}

/// Replaying one more record is making its move on the replayed piles.
pub proof fn lemma_replay_push(start: Seq<Seq<Card>>, history: Seq<ActionRecord>, r: ActionRecord)
    ensures
        replay(start, history.push(r)) == apply_move(replay(start, history), r.pos1, r.pos2),
        history_fits(start, history.push(r)) == (history_fits(start, history) && move_fits(
            replay(start, history),
            r.pos1,
            r.pos2,
        )),
{
    assert(history.push(r).drop_last() =~= history);
}

/// Reversing the most recent move of a fitting history gives the piles
/// replayed from the shorter history.
pub proof fn lemma_reverse_last(start: Seq<Seq<Card>>, history: Seq<ActionRecord>)
    requires
        history.len() > 0,
        history_fits(start, history),
    ensures
        history_fits(start, history.drop_last()),
        apply_move(replay(start, history), history.last().pos2, history.last().pos1) == replay(
            start,
            history.drop_last(),
        ),
        move_fits(replay(start, history), history.last().pos2, history.last().pos1),
{
    lemma_move_then_reverse(
        replay(start, history.drop_last()),
        history.last().pos1,
        history.last().pos2,
    );
}

/// Piles replayed from a fitting history can always be undone.
pub proof fn lemma_replay_reversible(start: Seq<Seq<Card>>, history: Seq<ActionRecord>)
    requires
        start.len() == NUM_DEPOTS,
        history_fits(start, history),
    ensures
        reversible(replay(start, history), history),
        undo_piles(replay(start, history), history) == replay(
            start,
            history.take(history.len() - undo_count(history)),
        ),
        undo_count(history) <= history.len(),
    decreases history.len(),
{
    if history.len() > 0 {
        lemma_reverse_last(start, history);
        lemma_replay_reversible(start, history.drop_last());
        lemma_replay_len(start, history.drop_last());
        let r = history.last();
        if !r.auto {
            assert(history.take(history.len() - 1) =~= history.drop_last());
        } else {
            assert(history.drop_last().take(history.drop_last().len() - undo_count(history.drop_last()))
                =~= history.take(history.len() - undo_count(history)));
        }
    } else {
        assert(history.take(0) =~= history);
    }
}

/// Replaying keeps the number of depots.
pub proof fn lemma_replay_len(start: Seq<Seq<Card>>, history: Seq<ActionRecord>)
    requires
        history_fits(start, history),
    ensures
        replay(start, history).len() == start.len(),
    decreases history.len(),
{
    if history.len() > 0 {
        lemma_replay_len(start, history.drop_last());
    }
}

/// A move the game makes keeps a position sound.
pub proof fn lemma_game_move_sound(
    piles: Seq<Seq<Card>>,
    deal: Seq<Card>,
    src: BoardPos,
    dest: BoardPos,
)
    requires
        sound(piles, deal),
        move_fits(piles, src, dest),
        game_move(piles, src, dest),
    ensures
        sound(apply_move(piles, src, dest), deal),
{
    let after = apply_move(piles, src, dest);
    let s = src.depot_index as int;
    let t = dest.depot_index as int;
    lemma_move_keeps_cards(piles, src, dest);
    assert forall|f: int| 0 <= f < 4 implies foundation_ok(#[trigger] after[f]) by {
        assert(foundation_ok(piles[f]));
        if f == s {
            assert(after[f] =~= piles[f].subrange(0, src.card_index as int));
            assert forall|i: int| 0 <= i < after[f].len() implies (#[trigger] after[f][i]).rank == i + 1
                && after[f][i].suit == after[f][0].suit by {
                assert(after[f][i] == piles[f][i]);
                assert(after[f][0] == piles[f][0]);
            }
        } else if f == t {
            assert(depot_role(t) == Some(DepotRole::Foundation));
            assert(movable(piles, src, dest));
            let card = piles[s][src.card_index as int];
            assert(after[f] =~= piles[f].push(card));
            if piles[f].len() > 0 {
                assert(piles[f].last() == piles[f][piles[f].len() - 1]);
            }
            assert forall|i: int| 0 <= i < after[f].len() implies (#[trigger] after[f][i]).rank == i + 1
                && after[f][i].suit == after[f][0].suit by {
                if i < piles[f].len() {
                    assert(after[f][i] == piles[f][i]);
                    assert(after[f][0] == piles[f][0]);
                } else if piles[f].len() > 0 {
                    assert(after[f][0] == piles[f][0]);
                }
            }
        } else {
            assert(after[f] == piles[f]);
        }
    }
    if t == free_cell() {
        assert(depot_role(t) == Some(DepotRole::FreeCell));
    }
}

} // verus!
