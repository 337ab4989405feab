use vstd::prelude::*;

use crate::board::{
    all_cards, depot_role, lemma_move_then_reverse, move_fits, stock, BoardPos, DepotRole,
    NUM_DEPOTS,
};
use crate::card::{lemma_full_deck_valid, Card, DECK_SIZE, NUM_RANKS};
use crate::game::{
    after_auto_move, auto_move, auto_move_from, auto_source, moved, safe_sorts_of, GameState,
};
use crate::board::apply_move;
use crate::rules::{
    first_target, history_fits, lemma_first_target, lemma_replay_len, lemma_replay_push,
    lemma_reverse_last, movable,
    replay, reversible, selectable, sound, undo_count, undo_piles, won, ActionRecord,
};

verus! {

broadcast use vstd::seq_lib::group_to_multiset_ensures;

/// Undoing a move of the player, made on a position of a game, gives back
/// that position's piles and history: an undo removes exactly that move.
pub proof fn law_undo_restores_position(
    before: GameState,
    after: GameState,
    src: BoardPos,
    dest: BoardPos,
)
    requires
        before.inv(),
        moved(before, after, src, dest, false),
        move_fits(before.piles(), src, dest),
    ensures
        undo_count(after.history@) == 1,
        after.history@.take(after.history@.len() - undo_count(after.history@)) == before.history@,
        undo_piles(after.piles(), after.history@) == before.piles(),
{
    let r = ActionRecord { pos1: src, pos2: dest, auto: false };
    assert(after.history@.last() == r);
    assert(after.history@.drop_last() =~= before.history@);
    assert(after.history@.take(after.history@.len() - 1) =~= before.history@);
    lemma_move_then_reverse(before.piles(), src, dest);
}

/// One undo reverts a move of the player together with all the automatic
/// moves that followed it, on any board: when the history has grown by the
/// records `moves` (the player's move, then only automatic ones), each of
/// which fitted the board it was made on, the undo can be made and gives back
/// the board and the history from before the player's move. The records of
/// `onclick`, `ondoubleclick`, `check_auto_moves` and `advance_animations`
/// fit (their `ensures` say so), and `lemma_replay_push` chains them.
pub proof fn law_one_undo_reverts_move_and_auto_moves(
    before: Seq<Seq<Card>>,
    history: Seq<ActionRecord>,
    moves: Seq<ActionRecord>,
)
    requires
        before.len() == NUM_DEPOTS,
        moves.len() >= 1,
        !moves[0].auto,
        forall|i: int| 1 <= i < moves.len() ==> (#[trigger] moves[i]).auto,
        history_fits(before, moves),
    ensures
        reversible(replay(before, moves), history + moves),
        undo_count(history + moves) == moves.len(),
        (history + moves).take((history + moves).len() - undo_count(history + moves)) == history,
        undo_piles(replay(before, moves), history + moves) == before,
    decreases moves.len(),
{
    let all = history + moves;
    lemma_reverse_last(before, moves);
    lemma_replay_len(before, moves);
    assert(all.last() == moves.last());
    assert(all.drop_last() =~= history + moves.drop_last());
    if moves.len() == 1 {
        assert(moves.drop_last().len() == 0);
        assert(replay(before, moves.drop_last()) == before);
        assert(all.take(all.len() - 1) =~= history);
    } else {
        assert(moves.last().auto);
        assert forall|i: int| 1 <= i < moves.drop_last().len() implies (
        #[trigger] moves.drop_last()[i]).auto by {
            assert(moves.drop_last()[i] == moves[i]);
        }
        law_one_undo_reverts_move_and_auto_moves(before, history, moves.drop_last());
        let rest = history + moves.drop_last();
        assert(rest.take(rest.len() - undo_count(rest)) =~= all.take(all.len() - undo_count(all)));
    }
}

/// The moves recorded since `before`: `state`'s history is `before`'s plus
/// `moves`, each move fitted its board, and replaying them on `before`'s
/// board gives `state`'s board.
pub open spec fn made_moves_since(before: GameState, state: GameState, moves: Seq<ActionRecord>) -> bool {
    &&& state.history@ == before.history@ + moves
    &&& history_fits(before.piles(), moves)
    &&& state.piles() == replay(before.piles(), moves)
}

/// Recording one more fitting move extends the moves made since `before`.
pub proof fn law_moves_chain(
    before: GameState,
    state: GameState,
    next: GameState,
    moves: Seq<ActionRecord>,
)
    requires
        made_moves_since(before, state, moves),
        next.history@.len() == state.history@.len() + 1,
        next.history@.drop_last() == state.history@,
        next.piles() == apply_move(
            state.piles(),
            next.history@.last().pos1,
            next.history@.last().pos2,
        ),
        move_fits(state.piles(), next.history@.last().pos1, next.history@.last().pos2),
    ensures
        made_moves_since(before, next, moves.push(next.history@.last())),
{
    let r = next.history@.last();
    lemma_replay_push(before.piles(), moves, r);
    assert(next.history@ =~= next.history@.drop_last().push(r));
    assert(next.history@ =~= before.history@ + moves.push(r));
}

/// After a click (or double click) that moved cards and the automatic moves
/// that followed it, with nothing else recorded, one undo is possible and
/// gives back the board and the history from before the click.
pub proof fn law_undo_after_click(before: GameState, after: GameState, moves: Seq<ActionRecord>)
    requires
        before.board.wf(),
        made_moves_since(before, after, moves),
        moves.len() >= 1,
        !moves[0].auto,
        forall|i: int| 1 <= i < moves.len() ==> (#[trigger] moves[i]).auto,
    ensures
        reversible(after.piles(), after.history@),
        after.history@.take(after.history@.len() - undo_count(after.history@)) == before.history@,
        undo_piles(after.piles(), after.history@) == before.piles(),
{
    law_one_undo_reverts_move_and_auto_moves(before.piles(), before.history@, moves);
}

/// `next` is `state` after an action that recorded one move of the player
/// (a click or double click that moved cards), which fitted the board it was
/// made on.
pub open spec fn player_moved(state: GameState, next: GameState) -> bool {
    let r = next.history@.last();
    &&& next.history@.len() == state.history@.len() + 1
    &&& next.history@.drop_last() == state.history@
    &&& !r.auto
    &&& next.piles() == apply_move(state.piles(), r.pos1, r.pos2)
    &&& move_fits(state.piles(), r.pos1, r.pos2)
}

/// `next` is `state` after `advance_animations` with the current key, on a
/// game that is not won (see its `ensures`): the automatic move, if any, is
/// made and recorded, and it fitted the board.
pub open spec fn ticked(state: GameState, next: GameState) -> bool {
    &&& !won(state.piles())
    &&& after_auto_move(
        state.piles(),
        state.board.selected,
        Seq::empty(),
        state.history@,
        state.auto_play,
        next,
    )
    &&& next.history@.len() > state.history@.len() ==> move_fits(
        state.piles(),
        next.history@.last().pos1,
        next.history@.last().pos2,
    )
}

/// A click that moved cards, followed by any number of animation steps none
/// of which wins, is taken back by one undo: in the last state the undo can
/// be made, and it gives back the board and the history from before the click.
pub proof fn law_one_undo_after_click_and_animation_steps(states: Seq<GameState>)
    requires
        states.len() >= 2,
        states[0].board.wf(),
        player_moved(states[0], states[1]),
        forall|i: int| 1 <= i < states.len() - 1 ==> ticked(#[trigger] states[i], states[i + 1]),
    ensures
        reversible(states.last().piles(), states.last().history@),
        states.last().history@.take(
            states.last().history@.len() - undo_count(states.last().history@),
        ) == states[0].history@,
        undo_piles(states.last().piles(), states.last().history@) == states[0].piles(),
{
    let moves = lemma_moves_through(states, states.len() - 1);
    law_undo_after_click(states[0], states.last(), moves);
}

/// The moves recorded from `states[0]` to `states[k]`: the player's move,
/// then automatic moves only.
proof fn lemma_moves_through(states: Seq<GameState>, k: int) -> (moves: Seq<ActionRecord>)
    requires
        1 <= k < states.len(),
        player_moved(states[0], states[1]),
        forall|i: int| 1 <= i < states.len() - 1 ==> ticked(#[trigger] states[i], states[i + 1]),
    ensures
        made_moves_since(states[0], states[k], moves),
        moves.len() >= 1,
        !moves[0].auto,
        forall|i: int| 1 <= i < moves.len() ==> (#[trigger] moves[i]).auto,
    decreases k,
{
    let s0 = states[0];
    if k == 1 {
        let r = states[1].history@.last();
        let moves = seq![r];
        lemma_replay_push(s0.piles(), Seq::empty(), r);
        assert(Seq::<ActionRecord>::empty().push(r) =~= moves);
        assert(states[1].history@ =~= states[1].history@.drop_last().push(r));
        assert(states[1].history@ =~= s0.history@ + moves);
        moves
    } else {
        let prev = lemma_moves_through(states, k - 1);
        let state = states[k - 1];
        let next = states[k];
        assert(ticked(state, next));
        match auto_move(state.piles(), state.auto_play) {
            Some((src, dest)) => {
                let r = ActionRecord { pos1: src, pos2: dest, auto: true };
                assert(next.history@ == state.history@.push(r));
                assert(next.history@.drop_last() =~= state.history@);
                law_moves_chain(s0, state, next, prev);
                let moves = prev.push(r);
                assert forall|i: int| 1 <= i < moves.len() implies (#[trigger] moves[i]).auto by {
                    if i < prev.len() {
                        assert(moves[i] == prev[i]);
                    }
                }
                moves
            },
            None => prev,
        }
    }
}

/// Any card, or any run that can be picked up, may be moved onto an empty
/// tableau column.
pub proof fn law_empty_column_takes_anything(
    piles: Seq<Seq<Card>>,
    src: BoardPos,
    dest: BoardPos,
)
    requires
        piles.len() == NUM_DEPOTS,
        src.depot_index != dest.depot_index,
        depot_role(dest.depot_index as int) == Some(DepotRole::Tableau),
        piles[dest.depot_index as int].len() == 0,
        dest.card_index == 0,
    ensures
        movable(piles, src, dest),
{
}

/// Only the frontmost card of the waste, and only the single card of the
/// free cell, can be picked up; nothing on a foundation or in the stock can.
pub proof fn law_what_can_be_picked_up(piles: Seq<Seq<Card>>, pos: BoardPos)
    requires
        selectable(piles, pos),
    ensures
        depot_role(pos.depot_index as int) == Some(DepotRole::Waste) || depot_role(
            pos.depot_index as int,
        ) == Some(DepotRole::FreeCell) ==> pos.card_index == piles[pos.depot_index as int].len()
            - 1,
        depot_role(pos.depot_index as int) != Some(DepotRole::Foundation),
        depot_role(pos.depot_index as int) != Some(DepotRole::Stock),
{
}

/// The free cell only takes a single card, and only once the stock has run out.
pub proof fn law_free_cell_after_stock(piles: Seq<Seq<Card>>, src: BoardPos, dest: BoardPos)
    requires
        movable(piles, src, dest),
        depot_role(dest.depot_index as int) == Some(DepotRole::FreeCell),
    ensures
        piles[stock()].len() == 0,
        piles[dest.depot_index as int].len() == 0,
        piles[src.depot_index as int].len() - src.card_index == 1,
{
}

/// The game only ever moves by itself the top card of the waste, the free
/// cell or a tableau column, when its rank is the safe rank of its suit, and
/// only onto a foundation that takes it.
pub proof fn law_auto_moves_sort_safe_cards(piles: Seq<Seq<Card>>, auto_play: bool)
    requires
        piles.len() == NUM_DEPOTS,
    ensures
        auto_move(piles, auto_play) matches Some((src, dest)) ==> {
            &&& auto_play
            &&& depot_role(dest.depot_index as int) == Some(DepotRole::Foundation)
            &&& movable(piles, src, dest)
            &&& src.card_index == piles[src.depot_index as int].len() - 1
            &&& (depot_role(src.depot_index as int) == Some(DepotRole::Waste) || depot_role(
                src.depot_index as int,
            ) == Some(DepotRole::FreeCell) || depot_role(src.depot_index as int) == Some(
                DepotRole::Tableau,
            ))
            &&& safe_sorts_of(piles)[piles[src.depot_index as int].last().suit.ord()]
                == piles[src.depot_index as int].last().rank
        },
{
    if auto_play {
        lemma_auto_move_from(piles, safe_sorts_of(piles), 0);
    }
}

proof fn lemma_auto_move_from(piles: Seq<Seq<Card>>, safe: Seq<int>, k: int)
    requires
        piles.len() == NUM_DEPOTS,
        k >= 0,
    ensures
        auto_move_from(piles, safe, k) matches Some((src, dest)) ==> {
            &&& dest.depot_index < 4
            &&& movable(piles, src, dest)
            &&& src.card_index == piles[src.depot_index as int].len() - 1
            &&& piles[src.depot_index as int].len() > 0
            &&& exists|j: int| k <= j < 9 && src.depot_index == auto_source(j)
            &&& safe[piles[src.depot_index as int].last().suit.ord()]
                == piles[src.depot_index as int].last().rank
        },
    decreases 9 - k,
{
    if k < 9 {
        lemma_auto_move_from(piles, safe, k + 1);
        let d = auto_source(k);
        let p = piles[d];
        let src = BoardPos { depot_index: d as usize, card_index: (p.len() - 1) as usize };
        lemma_first_target(piles, src, 0, 4);
        if let Some((s, t)) = auto_move_from(piles, safe, k) {
            if auto_move_from(piles, safe, k) != auto_move_from(piles, safe, k + 1) {
                assert(s.depot_index == auto_source(k));
            } else {
                let j = choose|j: int| k + 1 <= j < 9 && s.depot_index == auto_source(j);
                assert(k <= j < 9 && s.depot_index == auto_source(j));
            }
        }
    }
}

/// A double click sends cards only to a foundation or to the free cell.
pub proof fn law_double_click_targets(piles: Seq<Seq<Card>>, pos: BoardPos)
    ensures
        first_target(piles, pos, 0, 5) matches Some(d) ==> (depot_role(d) == Some(
            DepotRole::Foundation,
        ) || depot_role(d) == Some(DepotRole::FreeCell)) && movable(
            piles,
            pos,
            BoardPos { depot_index: d as usize, card_index: piles[d].len() as usize },
        ),
{
    lemma_first_target(piles, pos, 0, 5);
}

/// Total number of cards in the piles.
pub open spec fn num_cards(piles: Seq<Seq<Card>>) -> int
    decreases piles.len(),
{
    if piles.len() == 0 {
        0
    } else {
        num_cards(piles.drop_last()) + piles.last().len()
    }
}

proof fn lemma_num_cards(piles: Seq<Seq<Card>>)
    ensures
        all_cards(piles).len() == num_cards(piles),
    decreases piles.len(),
{
    broadcast use vstd::multiset::group_multiset_axioms;

    if piles.len() > 0 {
        lemma_num_cards(piles.drop_last());
    }
}

/// The cards of the piles other than pile `i` and the first `4` add up to at
/// least pile `i` plus the first four.
proof fn lemma_num_cards_split(piles: Seq<Seq<Card>>, i: int)
    requires
        4 <= i < piles.len(),
    ensures
        num_cards(piles) >= num_cards(piles.take(4)) + piles[i].len(),
    decreases piles.len(),
{
    let pd = piles.drop_last();
    if i == piles.len() - 1 {
        lemma_num_cards_ge_prefix(pd, 4);
        assert(pd.take(4) =~= piles.take(4));
    } else {
        lemma_num_cards_split(pd, i);
        assert(pd.take(4) =~= piles.take(4));
    }
}

proof fn lemma_num_cards_ge_prefix(piles: Seq<Seq<Card>>, n: int)
    requires
        0 <= n <= piles.len(),
    ensures
        num_cards(piles) >= num_cards(piles.take(n)),
    decreases piles.len(),
{
    if n == piles.len() {
        assert(piles.take(n) =~= piles);
    } else {
        lemma_num_cards_ge_prefix(piles.drop_last(), n);
        assert(piles.drop_last().take(n) =~= piles.take(n));
    }
}

/// A game is won exactly when all cards of the deck lie on the foundations:
/// in a won game every other depot is empty.
pub proof fn law_won_means_all_on_foundations(s: GameState)
    requires
        s.inv(),
        won(s.piles()),
    ensures
        forall|d: int| 4 <= d < NUM_DEPOTS ==> (#[trigger] s.piles()[d]).len() == 0,
{
    let piles = s.piles();
    lemma_full_deck_valid(s.deal@);
    assert(s.history@.take(s.history@.len() as int) =~= s.history@);
    assert(sound(replay(s.start(), s.history@.take(s.history@.len() as int)), s.deal@));
    lemma_num_cards(piles);
    assert(num_cards(piles) == DECK_SIZE);
    let first = piles.take(4);
    assert(first[0].len() == NUM_RANKS && first[1].len() == NUM_RANKS && first[2].len() == NUM_RANKS
        && first[3].len() == NUM_RANKS);
    assert(first.drop_last().drop_last().drop_last().drop_last().len() == 0);
    assert(num_cards(first) == 52) by {
        reveal_with_fuel(num_cards, 5);
    }
    assert forall|d: int| 4 <= d < NUM_DEPOTS implies (#[trigger] s.piles()[d]).len() == 0 by {
        lemma_num_cards_split(piles, d);
    }
}

} // verus!
