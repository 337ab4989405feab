use rand::seq::SliceRandom;
use vstd::prelude::*;

use crate::board::{
    apply_move, deal_layout, depot_role, free_cell, move_fits, stock, waste, AnimationAct, Board,
    BoardPos, DepotRole, NUM_DEPOTS,
};
use crate::card::{
    all_valid, full_deck, is_full_deck, lemma_full_deck_valid, Card, Suit, DECK_SIZE,
    NUM_RANKS, NUM_SUITS, RANKS,
};
use crate::rules::{
    first_target, game_move, lemma_game_move_sound, lemma_replay_push, lemma_replay_reversible,
    movable, pair_stacks, replay, reversible,
    selectable, sorts_onto, sound, stacked_from, stacks_on, undo_count, undo_piles, won,
    ActionRecord, history_fits,
};
use crate::safe_sorts::{lemma_safe_rule_unique, raise_safe, safe_rule, SuitMap};

verus! {

/// Key that ties a pending animation step to the state it was started from.
pub type AnimationKey = u16;

/// Which screen the player is looking at.
#[derive(Clone, Copy, Debug, PartialEq, Eq, Structural)]
pub enum ScreenState {
    Game,
    Settings,
    Help,
}

impl Default for ScreenState {
    fn default() -> (s: ScreenState)
        ensures
            s == ScreenState::Game,
    {
        ScreenState::Game
    }
}

/// How the suits are coloured on screen: red and black, or four colours
/// grouped into warm and cool.
#[derive(Clone, Copy, Debug, PartialEq, Eq, Structural)]
pub enum ColorSkin {
    TwoColor,
    FourColor,
}

/// The look of the cards.
#[derive(Clone, Copy, Debug, PartialEq, Eq, Structural)]
pub struct Skin {
    pub colors: ColorSkin,
}

impl Default for Skin {
    fn default() -> (s: Skin)
        ensures
            s.colors == ColorSkin::TwoColor,
    {
        Skin { colors: ColorSkin::TwoColor }
    }
}

/// The player's settings, as edited on the settings screen.
#[derive(Clone, Copy, Debug, PartialEq, Eq, Structural)]
pub struct SettingsState {
    pub allow_undo: bool,
    pub auto_play: bool,
    pub skin: Skin,
}

/// The whole state of a game and of the player's settings.
#[derive(Clone, Debug)]
pub struct GameState {
    pub board: Board,
    pub deal: Vec<Card>,
    pub animation_key: AnimationKey,
    pub history: Vec<ActionRecord>,
    pub already_won: bool,
    pub num_wins: i32,
    pub screen_state: ScreenState,
    pub allow_undo: bool,
    pub auto_play: bool,
    pub skin: Skin,
}

/// The recorded moves to show after a move of the cards at `src` and above
/// onto `dest`: one more when at least one card moves.
pub open spec fn acts_after_move(
    acts: Seq<AnimationAct>,
    piles: Seq<Seq<Card>>,
    src: BoardPos,
    dest: BoardPos,
) -> Seq<AnimationAct> {
    let len = piles[src.depot_index as int].len();
    if src.card_index < len {
        acts.push(AnimationAct { src, dest, num_cards: (len - src.card_index) as usize })
    } else {
        acts
    }
}

/// The fields other than the board and the history are equal.
pub open spec fn same_rest(a: GameState, b: GameState) -> bool {
    &&& a.deal@ == b.deal@
    &&& a.animation_key == b.animation_key
    &&& a.already_won == b.already_won
    &&& a.num_wins == b.num_wins
    &&& a.screen_state == b.screen_state
    &&& a.allow_undo == b.allow_undo
    &&& a.auto_play == b.auto_play
    &&& a.skin == b.skin
}

/// `new` is `old` after moving the cards at `src` and above onto `dest` and
/// recording the move.
pub open spec fn moved(old: GameState, new: GameState, src: BoardPos, dest: BoardPos, auto: bool) -> bool {
    &&& new.board.piles() == apply_move(old.board.piles(), src, dest)
    &&& new.board.selected is None
    &&& new.board.animation_acts@ == acts_after_move(
        old.board.animation_acts@,
        old.board.piles(),
        src,
        dest,
    )
    &&& new.history@ == old.history@.push(ActionRecord { pos1: src, pos2: dest, auto })
    &&& same_rest(old, new)
}

/// `new` is `old` with the selection set to `sel` and nothing else changed.
pub open spec fn reselected(old: GameState, new: GameState, sel: Option<BoardPos>) -> bool {
    &&& new.board.depots@ == old.board.depots@
    &&& new.board.animation_acts@ == old.board.animation_acts@
    &&& new.board.selected == sel
    &&& new.history@ == old.history@
    &&& same_rest(old, new)
}

/// The rank on top of the foundations of each suit, by suit position,
/// looking at the first `n` foundations in order (a later foundation
/// overrides an earlier one of the same suit); 0 for a suit with none.
pub open spec fn ranks_through(piles: Seq<Seq<Card>>, n: int) -> Seq<int>
    decreases n,
{
    if n <= 0 {
        seq![0int, 0int, 0int, 0int]
    } else {
        let r = ranks_through(piles, n - 1);
        let p = piles[n - 1];
        if p.len() > 0 {
            r.update(p.last().suit.ord(), p.last().rank as int)
        } else {
            r
        }
    }
}

/// The rank on top of the foundations of each suit, by suit position.
pub open spec fn foundation_ranks(piles: Seq<Seq<Card>>) -> Seq<int> {
    ranks_through(piles, 4)
}

/// The safe rank of each suit for these piles (the solution of `safe_rule`).
pub open spec fn safe_sorts_of(piles: Seq<Seq<Card>>) -> Seq<int> {
    choose|safe: Seq<int>| safe_rule(foundation_ranks(piles), safe)
}

/// The depots that automatic moves take cards from, in the order they are
/// tried: the waste, the free cell, then the tableau columns from the left.
pub open spec fn auto_source(k: int) -> int {
    if k == 0 {
        waste()
    } else if k == 1 {
        free_cell()
    } else {
        7 + (k - 2)
    }
}

/// The first automatic move from the `k`-th source on: the top card of a
/// source whose rank is the safe rank of its suit goes to the first
/// foundation that takes it.
pub open spec fn auto_move_from(piles: Seq<Seq<Card>>, safe: Seq<int>, k: int) -> Option<
    (BoardPos, BoardPos),
>
    decreases 9 - k,
{
    if k < 0 || k >= 9 {
        None
    } else {
        let d = auto_source(k);
        let p = piles[d];
        if p.len() > 0 && safe[p.last().suit.ord()] == p.last().rank {
            let src = BoardPos { depot_index: d as usize, card_index: (p.len() - 1) as usize };
            match first_target(piles, src, 0, 4) {
                Some(f) => Some(
                    (src, BoardPos { depot_index: f as usize, card_index: piles[f].len() as usize }),
                ),
                None => auto_move_from(piles, safe, k + 1),
            }
        } else {
            auto_move_from(piles, safe, k + 1)
        }
    }
}

/// The automatic move the game makes on these piles, if automatic play is on.
pub open spec fn auto_move(piles: Seq<Seq<Card>>, auto_play: bool) -> Option<(BoardPos, BoardPos)> {
    if auto_play {
        auto_move_from(piles, safe_sorts_of(piles), 0)
    } else {
        None
    }
}

/// `new` holds the board and history that result from trying an automatic
/// move on the given board and history.
pub open spec fn after_auto_move(
    piles: Seq<Seq<Card>>,
    selected: Option<BoardPos>,
    acts: Seq<AnimationAct>,
    history: Seq<ActionRecord>,
    auto_play: bool,
    new: GameState,
) -> bool {
    match auto_move(piles, auto_play) {
        Some((src, dest)) => {
            &&& new.board.piles() == apply_move(piles, src, dest)
            &&& new.board.selected is None
            &&& new.board.animation_acts@ == acts_after_move(acts, piles, src, dest)
            &&& new.history@ == history.push(ActionRecord { pos1: src, pos2: dest, auto: true })
        },
        None => {
            &&& new.board.piles() == piles
            &&& new.board.selected == selected
            &&& new.board.animation_acts@ == acts
            &&& new.history@ == history
        },
    }
}

/// The next animation key, wrapping around.
pub open spec fn next_key(key: AnimationKey) -> AnimationKey {
    if key == u16::MAX {
        0
    } else {
        (key + 1) as u16
    }
}

/// rand's thread-local random number generator.
#[verifier::external_type_specification]
#[verifier::external_body]
pub struct ExThreadRng(rand::rngs::ThreadRng);

/// `rand::rng`: a handle to the thread-local generator. Nothing is stated of it.
#[verifier::external_body]
fn thread_rng() -> rand::rngs::ThreadRng {
    rand::rng()
}

/// rand's `SliceRandom::shuffle` with the given generator. The shuffle only
/// swaps elements, so what comes back holds the same cards; which order comes
/// back is left open (it is random), and so is the generator's new state.
#[verifier::external_body]
fn shuffle_cards(deck: &mut Vec<Card>, rng: &mut rand::rngs::ThreadRng)
    ensures
        final(deck)@.to_multiset() == old(deck)@.to_multiset(),
{
    deck.shuffle(rng);
}

impl GameState {
    pub open spec fn piles(&self) -> Seq<Seq<Card>> {
        self.board.piles()
    }

    /// The piles the current game started from.
    pub open spec fn start(&self) -> Seq<Seq<Card>> {
        deal_layout(self.deal@)
    }

    /// Moves are still being shown.
    pub open spec fn busy(&self) -> bool {
        self.board.animation_acts@.len() > 0
    }

    pub open spec fn can_undo(&self) -> bool {
        self.allow_undo && self.history@.len() > 0
    }

    /// What every state of a game holds: the board is well formed, the deal
    /// is an arrangement of the full deck, the board is what replaying the
    /// recorded moves on the dealt layout gives, every recorded move fitted
    /// the board it was made on, the board after every prefix of the history
    /// was sound (cards kept, foundations built by suit, at most one card in
    /// the free cell), and the selection can be picked up.
    pub open spec fn inv(&self) -> bool {
        &&& self.board.wf()
        &&& is_full_deck(self.deal@)
        &&& history_fits(self.start(), self.history@)
        &&& self.piles() == replay(self.start(), self.history@)
        &&& forall|k: int|
            0 <= k <= self.history@.len() ==> sound(
                #[trigger] replay(self.start(), self.history@.take(k)),
                self.deal@,
            )
        &&& (self.board.selected matches Some(p) ==> selectable(self.piles(), p))
    }

    /// A full deck, shuffled with `rng`.
    pub fn new_deal(rng: &mut rand::rngs::ThreadRng) -> (deal: Vec<Card>)
        ensures
            is_full_deck(deal@),
            deal@.len() == DECK_SIZE,
    {
        let mut deck: Vec<Card> = Vec::with_capacity(DECK_SIZE);
        for r in 0..NUM_RANKS
            invariant
                deck@ =~= full_deck().take(4 * r),
        {
            for s in 0..NUM_SUITS
                invariant
                    r < NUM_RANKS,
                    deck@ =~= full_deck().take(4 * r + s),
            {
                let rank = RANKS[r];
                assert(rank == r + 1);
                let card = Card { rank, suit: Suit::from_index(s) };
                assert(full_deck()[4 * r + s] == card);
                deck.push(card);
            }
        }
        assert(full_deck().take(52) =~= full_deck());
        shuffle_cards(&mut deck, rng);
        proof {
            broadcast use vstd::seq_lib::group_to_multiset_ensures;

            assert(deck@.len() == deck@.to_multiset().len());
            assert(full_deck().len() == full_deck().to_multiset().len());
        }
        deck
    }

    /// A new game with default settings and no wins yet.
    pub fn init() -> (res: GameState)
        ensures
            res.inv(),
            res.piles() == deal_layout(res.deal@),
            res.board.selected is None,
            res.board.animation_acts@.len() == 0,
            res.animation_key == 0,
            res.history@.len() == 0,
            !res.already_won,
            res.num_wins == 0,
            res.screen_state == ScreenState::Game,
            res.allow_undo,
            res.auto_play,
            res.skin.colors == ColorSkin::TwoColor,
    {
        let mut res = GameState {
            board: Board::empty(),
            deal: Vec::new(),
            animation_key: 0,
            history: Vec::new(),
            already_won: false,
            num_wins: 0,
            screen_state: ScreenState::Game,
            allow_undo: true,
            auto_play: true,
            skin: Skin::default(),
        };
        res.new_game();
        res
    }

    pub fn can_stack(&self, back: Card, front: Card) -> (b: bool)
        requires
            back.suit.colour() != front.suit.colour() ==> front.rank < 255,
        ensures
            b == stacks_on(back, front),
    {
        back.suit.color() != front.suit.color() && front.rank + 1 == back.rank
    }

    pub fn can_sort(&self, back: Card, front: Card) -> (b: bool)
        requires
            back.suit == front.suit ==> back.rank < 255,
        ensures
            b == sorts_onto(back, front),
    {
        back.suit == front.suit && back.rank + 1 == front.rank
    }

    pub fn can_select(&self, pos: BoardPos) -> (b: bool)
        requires
            self.board.cards_ok(),
            pos.depot_index < NUM_DEPOTS,
        ensures
            b == selectable(self.piles(), pos),
    {
        let depot = pos.depot_index;
        let ord = pos.card_index;
        let ghost pile = self.piles()[depot as int];
        assert(self.board.depots@[depot as int]@ == pile);
        if ord >= self.board.depots[depot].len() {
            return false;
        }
        let len = self.board.depots[depot].len();
        let role = match DepotRole::role(depot) {
            Some(role) => role,
            None => {
                return false;
            },
        };
        match role {
            DepotRole::Foundation => false,
            DepotRole::FreeCell => len - ord <= 1,
            DepotRole::Stock => false,
            DepotRole::Waste => len - ord <= 1,
            DepotRole::Tableau => {
                let mut i = ord;
                while i + 1 < len
                    invariant
                        self.board.cards_ok(),
                        depot < NUM_DEPOTS,
                        pile == self.board.depots@[depot as int]@,
                        pile == self.piles()[depot as int],
                        depot == pos.depot_index,
                        ord == pos.card_index,
                        depot_role(depot as int) == Some(DepotRole::Tableau),
                        len == pile.len(),
                        ord <= i,
                        i < len,
                        forall|j: int| ord <= j < i ==> #[trigger] pair_stacks(pile, j),
                    decreases len - i,
                {
                    let back = self.board.depots[depot][i];
                    let front = self.board.depots[depot][i + 1];
                    assert(all_valid(self.board.depots@[depot as int]@));
                    assert(pile[i as int] == back);
                    assert(pile[i + 1] == front);
                    if !self.can_stack(back, front) {
                        assert(!pair_stacks(pile, i as int));
                        assert(!stacked_from(pile, ord as int));
                        assert(pile == self.piles()[pos.depot_index as int]);
                        assert(depot_role(depot as int) == Some(DepotRole::Tableau));
                        return false;
                    }
                    i = i + 1;
                }
                assert(stacked_from(pile, ord as int));
                true
            },
        }
    }

    pub fn can_move(&self, pos1: BoardPos, pos2: BoardPos) -> (b: bool)
        requires
            self.board.cards_ok(),
            pos1.depot_index != pos2.depot_index ==> {
                &&& pos1.depot_index < NUM_DEPOTS
                &&& pos2.depot_index < NUM_DEPOTS
                &&& pos1.card_index <= self.piles()[pos1.depot_index as int].len()
                &&& pos2.card_index == self.piles()[pos2.depot_index as int].len()
                    ==> pos1.card_index < self.piles()[pos1.depot_index as int].len()
            },
        ensures
            b == movable(self.piles(), pos1, pos2),
    {
        if pos1.depot_index == pos2.depot_index {
            return false;
        }
        let ghost piles = self.piles();
        let d1 = pos1.depot_index;
        let d2 = pos2.depot_index;
        assert(self.board.depots@[d1 as int]@ == piles[d1 as int]);
        assert(self.board.depots@[d2 as int]@ == piles[d2 as int]);
        let num_moved = self.board.depots[d1].len() - pos1.card_index;
        let len2 = self.board.depots[d2].len();
        if pos2.card_index != len2 {
            return false;
        }
        let card = self.board.depots[d1][pos1.card_index];
        assert(all_valid(self.board.depots@[d1 as int]@));
        assert(all_valid(self.board.depots@[d2 as int]@));
        let role = match DepotRole::role(d2) {
            Some(role) => role,
            None => {
                return false;
            },
        };
        match role {
            DepotRole::Foundation => {
                num_moved == 1 && if len2 > 0 {
                    let c = self.board.depots[d2][len2 - 1];
                    self.can_sort(c, card)
                } else {
                    1 == card.rank
                }
            },
            DepotRole::FreeCell => {
                let st = DepotRole::Stock.id(0);
                assert(self.board.depots@[st as int]@ == piles[stock()]);
                self.board.depots[st].len() == 0 && len2 == 0 && num_moved == 1
            },
            DepotRole::Stock => false,
            DepotRole::Waste => false,
            DepotRole::Tableau => {
                if len2 > 0 {
                    let c = self.board.depots[d2][len2 - 1];
                    self.can_stack(c, card)
                } else {
                    true
                }
            },
        }
    }

    pub fn is_busy(&self) -> (b: bool)
        ensures
            b == self.busy(),
    {
        self.is_acting()
    }

    pub fn is_acting(&self) -> (b: bool)
        ensures
            b == self.busy(),
    {
        self.board.animation_acts.len() != 0
    }

    pub fn is_won(&self) -> (b: bool)
        requires
            self.board.depots@.len() == NUM_DEPOTS,
        ensures
            b == won(self.piles()),
    {
        let range = DepotRole::Foundation.range();
        for i in range.start..range.end
            invariant
                self.board.depots@.len() == NUM_DEPOTS,
                range.start == 0,
                range.end == 4,
                forall|f: int| 0 <= f < i ==> (#[trigger] self.piles()[f]).len() == NUM_RANKS,
        {
            assert(self.board.depots@[i as int]@ == self.piles()[i as int]);
            if self.board.depots[i].len() != NUM_RANKS {
                return false;
            }
        }
        true
    }

    pub fn undo_possible(&self) -> (b: bool)
        ensures
            b == self.can_undo(),
    {
        self.allow_undo && self.history.len() != 0
    }

    /// Takes back the most recent move of the player and the automatic moves
    /// that followed it. Returns whether the state changed (and is to be saved).
    pub fn undo(&mut self) -> (saved: bool)
        requires
            old(self).board.wf(),
            old(self).busy() || !old(self).can_undo() || reversible(
                old(self).piles(),
                old(self).history@,
            ),
        ensures
            old(self).busy() || !old(self).can_undo() ==> *final(self) == *old(self) && !saved,
            !(old(self).busy() || !old(self).can_undo()) ==> {
                &&& saved
                &&& undo_count(old(self).history@) <= old(self).history@.len()
                &&& final(self).history@ == old(self).history@.take(
                    old(self).history@.len() - undo_count(old(self).history@),
                )
                &&& final(self).piles() == undo_piles(old(self).piles(), old(self).history@)
                &&& final(self).board.selected is None
                &&& final(self).board.animation_acts@.len() == 0
                &&& same_rest(*old(self), *final(self))
            },
            final(self).board.wf(),
            old(self).inv() ==> final(self).inv(),
            old(self).inv() ==> final(self).piles() == replay(final(self).start(), final(self).history@),
    {
        if self.is_busy() || !self.undo_possible() {
            return false;
        }
        let ghost s0 = *self;
        let ghost h0 = self.history@;
        let ghost p0 = self.piles();
        proof {
            lemma_undo_count_le(h0);
        }
        loop
            invariant_except_break
                self.board.wf(),
                same_rest(s0, *self),
                self.history@.len() <= h0.len(),
                self.history@ == h0.take(self.history@.len() as int),
                reversible(self.piles(), self.history@),
                undo_piles(p0, h0) == undo_piles(self.piles(), self.history@),
                h0.len() - undo_count(h0) == self.history@.len() - undo_count(self.history@),
                self.history@.len() < h0.len() ==> self.board.selected is None
                    && self.board.animation_acts@.len() == 0,
                self.history@.len() == h0.len() ==> *self == s0,
                h0.len() > 0,
            ensures
                self.board.wf(),
                same_rest(s0, *self),
                self.history@ == h0.take(h0.len() - undo_count(h0)),
                self.piles() == undo_piles(p0, h0),
                self.board.selected is None,
                self.board.animation_acts@.len() == 0,
            decreases self.history@.len(),
        {
            let ghost hist = self.history@;
            let ghost piles = self.piles();
            match self.history.pop() {
                Some(rec) => {
                    assert(rec == hist.last());
                    assert(self.history@ == hist.drop_last());
                    assert(hist.drop_last() =~= h0.take(hist.len() - 1));
                    self.board.do_move(rec.pos2, rec.pos1);
                    self.board.advance_actions();
                    if !rec.auto {
                        assert(undo_count(hist) == 1);
                        break ;
                    }
                },
                None => {
                    assert(hist.len() == 0);
                    assert(hist.len() < h0.len());
                    break ;
                },
            }
        }
        proof {
            if s0.inv() {
                let start = s0.start();
                let n = (h0.len() - undo_count(h0)) as int;
                lemma_replay_reversible(start, h0);
                lemma_fits_prefix(start, h0, n);
                assert(h0.take(h0.len() as int) =~= h0);
                assert forall|k: int| 0 <= k <= self.history@.len() implies sound(
                    #[trigger] replay(start, self.history@.take(k)),
                    self.deal@,
                ) by {
                    assert(self.history@.take(k) =~= h0.take(k));
                }
                assert(self.start() == start);
            }
        }
        true
    }

    /// Deals the current game again from its start, when there is something
    /// to take back and taking back is allowed. Returns whether it did so.
    pub fn restart(&mut self) -> (saved: bool)
        ensures
            old(self).history@.len() == 0 || !old(self).can_undo() ==> *final(self) == *old(self)
                && !saved,
            !(old(self).history@.len() == 0 || !old(self).can_undo()) ==> {
                &&& saved
                &&& final(self).board.depots@.len() == NUM_DEPOTS
                &&& (all_valid(old(self).deal@) ==> final(self).board.wf())
                &&& final(self).piles() == deal_layout(old(self).deal@)
                &&& final(self).board.selected is None
                &&& final(self).board.animation_acts@.len() == 0
                &&& final(self).history@.len() == 0
                &&& same_rest(*old(self), *final(self))
            },
            old(self).inv() ==> final(self).inv(),
    {
        if self.history.len() == 0 || !self.undo_possible() {
            return false;
        }
        let ghost s0 = *self;
        self.board = Board::from_deal(self.deal.as_slice());
        self.history.clear();
        proof {
            if s0.inv() {
                lemma_full_deck_valid(self.deal@);
                lemma_fresh_game_inv(*self);
            }
        }
        true
    }

    /// Starts a new game with a freshly shuffled deck.
    pub fn new_game(&mut self)
        ensures
            is_full_deck(final(self).deal@),
            final(self).inv(),
            final(self).piles() == deal_layout(final(self).deal@),
            final(self).board.selected is None,
            final(self).board.animation_acts@.len() == 0,
            final(self).history@.len() == 0,
            !final(self).already_won,
            final(self).animation_key == old(self).animation_key,
            final(self).num_wins == old(self).num_wins,
            final(self).screen_state == old(self).screen_state,
            final(self).allow_undo == old(self).allow_undo,
            final(self).auto_play == old(self).auto_play,
            final(self).skin == old(self).skin,
    {
        let deal = Self::new_deal(&mut thread_rng());
        proof {
            lemma_full_deck_valid(deal@);
        }
        self.new_game_with_deal(deal);
    }

    /// Starts a new game with the given deal.
    pub fn new_game_with_deal(&mut self, deal: Vec<Card>)
        ensures
            final(self).deal@ == deal@,
            final(self).board.depots@.len() == NUM_DEPOTS,
            all_valid(deal@) ==> final(self).board.wf(),
            final(self).piles() == deal_layout(deal@),
            final(self).board.selected is None,
            final(self).board.animation_acts@.len() == 0,
            final(self).history@.len() == 0,
            !final(self).already_won,
            final(self).animation_key == old(self).animation_key,
            final(self).num_wins == old(self).num_wins,
            final(self).screen_state == old(self).screen_state,
            final(self).allow_undo == old(self).allow_undo,
            final(self).auto_play == old(self).auto_play,
            final(self).skin == old(self).skin,
            is_full_deck(deal@) ==> final(self).inv(),
    {
        self.board = Board::from_deal(deal.as_slice());
        self.deal = deal;
        self.history.clear();
        self.already_won = false;
        proof {
            if is_full_deck(deal@) {
                lemma_full_deck_valid(deal@);
                lemma_fresh_game_inv(*self);
            }
        }
    }

    /// Handles a click on the card (or the empty depot) at `pos`: a click on
    /// the stock deals up to three cards onto the waste; otherwise the click
    /// selects, changes or clears the selection, or moves the selected cards
    /// onto the clicked depot.
    pub fn onclick(&mut self, pos: BoardPos)
        requires
            old(self).board.wf(),
            old(self).busy() || pos.depot_index < NUM_DEPOTS,
        ensures
            final(self).board.wf(),
            final(self).history@.len() > old(self).history@.len() ==> move_fits(
                old(self).piles(),
                final(self).history@.last().pos1,
                final(self).history@.last().pos2,
            ),
            old(self).inv() ==> final(self).inv(),
            old(self).busy() ==> *final(self) == *old(self),
            !old(self).busy() && depot_role(pos.depot_index as int) == Some(DepotRole::Stock) ==> {
                let len = old(self).piles()[stock()].len();
                let src = BoardPos {
                    depot_index: stock() as usize,
                    card_index: (if len >= 3 { len - 3 } else { 0 }) as usize,
                };
                let dest = BoardPos {
                    depot_index: waste() as usize,
                    card_index: old(self).piles()[waste()].len() as usize,
                };
                moved(*old(self), *final(self), src, dest, false)
            },
            !old(self).busy() && depot_role(pos.depot_index as int) != Some(DepotRole::Stock) ==> {
                match old(self).board.selected {
                    Some(src) => if pos == src {
                        reselected(*old(self), *final(self), None)
                    } else if src.depot_index == pos.depot_index && selectable(
                        old(self).piles(),
                        pos,
                    ) {
                        reselected(*old(self), *final(self), Some(pos))
                    } else {
                        let dest = BoardPos {
                            depot_index: pos.depot_index,
                            card_index: (if pos.card_index == usize::MAX {
                                0
                            } else {
                                pos.card_index + 1
                            }) as usize,
                        };
                        if movable(old(self).piles(), src, dest) {
                            moved(*old(self), *final(self), src, dest, false)
                        } else {
                            *final(self) == *old(self)
                        }
                    },
                    None => if selectable(old(self).piles(), pos) {
                        reselected(*old(self), *final(self), Some(pos))
                    } else {
                        *final(self) == *old(self)
                    },
                }
            },
    {
        if self.is_busy() {
            return;
        }
        let ghost s0 = *self;
        let is_stock = match DepotRole::role(pos.depot_index) {
            Some(DepotRole::Stock) => true,
            _ => false,
        };
        if is_stock {
            let mut src = self.board.top_pos(pos.depot_index);
            src.card_index = src.card_index.saturating_sub(3);
            let dest = self.board.top_pos(DepotRole::Waste.id(0));
            self.board.do_move(src, dest);
            self.history.push(ActionRecord { pos1: src, pos2: dest, auto: false });
            proof {
                if s0.inv() {
                    lemma_recorded_move_inv(s0, *self, src, dest, false);
                }
            }
            return;
        }
        match self.board.selected {
            Some(src) => {
                if pos == src {
                    self.board.selected = None;
                    return;
                }
                if src.depot_index == pos.depot_index && self.can_select(pos) {
                    self.board.selected = Some(pos);
                    return;
                }
                let dest = BoardPos::new(pos.depot_index, pos.card_index.wrapping_add(1));
                if !self.can_move(src, dest) {
                    return;
                }
                self.board.do_move(src, dest);
                self.history.push(ActionRecord { pos1: src, pos2: dest, auto: false });
                proof {
                    if s0.inv() {
                        lemma_recorded_move_inv(s0, *self, src, dest, false);
                    }
                }
            },
            None => {
                if self.can_select(pos) {
                    self.board.selected = Some(pos);
                }
            },
        }
    }

    /// Handles a double click on the card at `pos`: when the cards there can
    /// be picked up, they go to the first foundation, or else the free cell,
    /// that takes them.
    pub fn ondoubleclick(&mut self, pos: BoardPos)
        requires
            old(self).board.wf(),
            old(self).busy() || pos.depot_index < NUM_DEPOTS,
        ensures
            final(self).board.wf(),
            final(self).history@.len() > old(self).history@.len() ==> move_fits(
                old(self).piles(),
                final(self).history@.last().pos1,
                final(self).history@.last().pos2,
            ),
            old(self).inv() ==> final(self).inv(),
            old(self).busy() || !selectable(old(self).piles(), pos) ==> *final(self) == *old(
                self,
            ),
            !old(self).busy() && selectable(old(self).piles(), pos) ==> match first_target(
                old(self).piles(),
                pos,
                0,
                5,
            ) {
                Some(d) => moved(
                    *old(self),
                    *final(self),
                    pos,
                    BoardPos { depot_index: d as usize, card_index: old(self).piles()[d].len() as usize },
                    false,
                ),
                None => *final(self) == *old(self),
            },
    {
        if self.is_busy() {
            return;
        }
        if !self.can_select(pos) {
            return;
        }
        let ghost s0 = *self;
        let ghost piles = self.piles();
        let foundations = DepotRole::Foundation.range();
        let free_cells = DepotRole::FreeCell.range();
        for d in foundations.start..foundations.end
            invariant
                *self == s0,
                *old(self) == s0,
                !s0.busy(),
                self.board.wf(),
                selectable(piles, pos),
                piles == self.piles(),
                foundations.start == 0,
                foundations.end == 4,
                first_target(piles, pos, 0, 5) == first_target(piles, pos, d as int, 5),
        {
            if self.try_move_to(pos, d, false) {
                return;
            }
        }
        for d in free_cells.start..free_cells.end
            invariant
                *self == s0,
                *old(self) == s0,
                !s0.busy(),
                self.board.wf(),
                selectable(piles, pos),
                piles == self.piles(),
                free_cells.start == 4,
                free_cells.end == 5,
                first_target(piles, pos, 0, 5) == first_target(piles, pos, d as int, 5),
        {
            if self.try_move_to(pos, d, false) {
                return;
            }
        }
    }

    /// Moves the cards at `src` and above onto the top of depot `d` and
    /// records the move, when that move is legal; returns whether it moved.
    fn try_move_to(&mut self, src: BoardPos, d: usize, auto: bool) -> (done: bool)
        requires
            old(self).board.wf(),
            src.depot_index < NUM_DEPOTS,
            src.card_index < old(self).piles()[src.depot_index as int].len(),
            d < NUM_DEPOTS,
            old(self).inv() ==> auto || selectable(old(self).piles(), src),
        ensures
            final(self).board.wf(),
            done == movable(
                old(self).piles(),
                src,
                BoardPos { depot_index: d, card_index: old(self).piles()[d as int].len() as usize },
            ),
            done ==> move_fits(
                old(self).piles(),
                src,
                BoardPos { depot_index: d, card_index: old(self).piles()[d as int].len() as usize },
            ),
            done ==> moved(
                *old(self),
                *final(self),
                src,
                BoardPos { depot_index: d, card_index: old(self).piles()[d as int].len() as usize },
                auto,
            ),
            !done ==> *final(self) == *old(self),
            old(self).inv() ==> final(self).inv(),
            !done ==> first_target(old(self).piles(), src, d as int, 5) == first_target(
                old(self).piles(),
                src,
                d + 1,
                5,
            ),
            !done ==> first_target(old(self).piles(), src, d as int, 4) == first_target(
                old(self).piles(),
                src,
                d + 1,
                4,
            ),
            done && d < 5 ==> first_target(old(self).piles(), src, d as int, 5) == Some(d as int),
            done && d < 4 ==> first_target(old(self).piles(), src, d as int, 4) == Some(d as int),
    {
        let ghost s0 = *self;
        assert(self.board.depots@[d as int]@ == self.piles()[d as int]);
        let dest = BoardPos::new(d, self.board.depots[d].len());
        if !self.can_move(src, dest) {
            return false;
        }
        self.board.do_move(src, dest);
        self.history.push(ActionRecord { pos1: src, pos2: dest, auto });
        proof {
            if s0.inv() {
                lemma_recorded_move_inv(s0, *self, src, dest, auto);
            }
        }
        true
    }

    /// For each suit, the rank that may be sorted to the foundations without
    /// harm (see `safe_rule`).
    pub fn get_safe_sorts(&self) -> (safe: SuitMap)
        requires
            self.board.cards_ok(),
        ensures
            safe_rule(foundation_ranks(self.piles()), safe.ints()),
            safe.ints() == safe_sorts_of(self.piles()),
    {
        let ghost piles = self.piles();
        let mut ranks: [u8; 4] = [0, 0, 0, 0];
        let range = DepotRole::Foundation.range();
        for i in range.start..range.end
            invariant
                self.board.cards_ok(),
                piles == self.piles(),
                range.start == 0,
                range.end == 4,
                ranks@.map_values(|v: u8| v as int) == ranks_through(piles, i as int),
                forall|s: int| 0 <= s < 4 ==> #[trigger] ranks@[s] <= NUM_RANKS,
        {
            assert(self.board.depots@[i as int]@ == piles[i as int]);
            let len = self.board.depots[i].len();
            if len > 0 {
                let card = self.board.depots[i][len - 1];
                assert(all_valid(self.board.depots@[i as int]@));
                assert(card == piles[i as int].last());
                ranks[card.suit.index()] = card.rank;
            }
            assert(ranks@.map_values(|v: u8| v as int) =~= ranks_through(piles, i + 1));
        }
        let values = raise_safe(ranks);
        let safe = SuitMap { values };
        proof {
            let r = foundation_ranks(piles);
            assert(safe_rule(r, safe.ints()));
            lemma_safe_rule_unique(r, safe.ints(), safe_sorts_of(piles));
        }
        safe
    }

    /// When nothing is being shown and automatic play is on, makes the first
    /// automatic move (see `auto_move`), if there is one.
    pub fn check_auto_moves(&mut self)
        requires
            old(self).board.wf(),
        ensures
            final(self).board.wf(),
            final(self).history@.len() > old(self).history@.len() ==> move_fits(
                old(self).piles(),
                final(self).history@.last().pos1,
                final(self).history@.last().pos2,
            ),
            old(self).inv() ==> final(self).inv(),
            old(self).busy() ==> *final(self) == *old(self),
            !old(self).busy() ==> same_rest(*old(self), *final(self)) && after_auto_move(
                old(self).piles(),
                old(self).board.selected,
                old(self).board.animation_acts@,
                old(self).history@,
                old(self).auto_play,
                *final(self),
            ),
    {
        if self.is_busy() {
            return;
        }
        if !self.auto_play {
            return;
        }
        let ghost s0 = *self;
        let ghost piles = self.piles();
        let safe_sorts = self.get_safe_sorts();
        let ghost safe = safe_sorts.ints();
        for k in 0..9
            invariant
                *self == s0,
                *old(self) == s0,
                !s0.busy(),
                self.board.wf(),
                piles == self.piles(),
                safe == safe_sorts.ints(),
                safe == safe_sorts_of(piles),
                s0.auto_play,
                auto_move(piles, s0.auto_play) == auto_move_from(piles, safe, k as int),
        {
            let depot = if k == 0 {
                DepotRole::Waste.id(0)
            } else if k == 1 {
                DepotRole::FreeCell.id(0)
            } else {
                DepotRole::Tableau.id(k - 2)
            };
            assert(depot == auto_source(k as int));
            assert(self.board.depots@[depot as int]@ == piles[depot as int]);
            let len = self.board.depots[depot].len();
            if len > 0 {
                let card = self.board.depots[depot][len - 1];
                assert(card == piles[depot as int].last());
                if safe_sorts.get(card.suit) == card.rank {
                    let src = BoardPos::new(depot, len - 1);
                    let foundations = DepotRole::Foundation.range();
                    for f in foundations.start..foundations.end
                        invariant
                            *self == s0,
                            *old(self) == s0,
                            !s0.busy(),
                            s0.auto_play,
                            self.board.wf(),
                            safe == safe_sorts_of(piles),
                            auto_move(piles, s0.auto_play) == auto_move_from(piles, safe, k as int),
                            0 <= k < 9,
                            src.depot_index == auto_source(k as int),
                            src.card_index == piles[src.depot_index as int].len() - 1,
                            piles[src.depot_index as int].len() > 0,
                            safe[piles[src.depot_index as int].last().suit.ord()]
                                == piles[src.depot_index as int].last().rank,
                            piles == self.piles(),
                            foundations.start == 0,
                            foundations.end == 4,
                            src.depot_index < NUM_DEPOTS,
                            src.card_index < piles[src.depot_index as int].len(),
                            first_target(piles, src, 0, 4) == first_target(piles, src, f as int, 4),
                    {
                        if self.try_move_to(src, f, true) {
                            return;
                        }
                    }
                }
            }
        }
    }

    /// Ends the showing of the current moves when `key` is the current
    /// animation key: counts a win the first time the game is won, and
    /// otherwise tries an automatic move. Returns whether nothing is being
    /// shown any more (and the state is to be saved).
    pub fn advance_animations(&mut self, key: AnimationKey) -> (saved: bool)
        requires
            old(self).board.wf(),
            key == old(self).animation_key && won(old(self).piles()) && !old(self).already_won
                ==> old(self).num_wins < i32::MAX,
        ensures
            final(self).board.wf(),
            final(self).history@.len() > old(self).history@.len() ==> move_fits(
                old(self).piles(),
                final(self).history@.last().pos1,
                final(self).history@.last().pos2,
            ),
            old(self).inv() ==> final(self).inv(),
            key != old(self).animation_key ==> *final(self) == *old(self) && !saved,
            key == old(self).animation_key ==> {
                &&& final(self).animation_key == next_key(old(self).animation_key)
                &&& final(self).deal@ == old(self).deal@
                &&& final(self).screen_state == old(self).screen_state
                &&& final(self).allow_undo == old(self).allow_undo
                &&& final(self).auto_play == old(self).auto_play
                &&& final(self).skin == old(self).skin
                &&& saved == (final(self).board.animation_acts@.len() == 0)
                &&& if won(old(self).piles()) {
                    &&& final(self).piles() == old(self).piles()
                    &&& final(self).board.selected == old(self).board.selected
                    &&& final(self).board.animation_acts@.len() == 0
                    &&& final(self).history@ == old(self).history@
                    &&& final(self).already_won
                    &&& final(self).num_wins == old(self).num_wins + if old(self).already_won {
                        0int
                    } else {
                        1int
                    }
                } else {
                    &&& final(self).already_won == old(self).already_won
                    &&& final(self).num_wins == old(self).num_wins
                    &&& after_auto_move(
                        old(self).piles(),
                        old(self).board.selected,
                        Seq::empty(),
                        old(self).history@,
                        old(self).auto_play,
                        *final(self),
                    )
                }
            },
    {
        if key != self.animation_key {
            return false;
        }
        let ghost s0 = *self;
        self.animation_key = self.animation_key.wrapping_add(1);
        self.board.advance_actions();
        assert(self.piles() == s0.piles());
        if self.is_won() {
            if !self.already_won {
                self.num_wins += 1;
                self.already_won = true;
            }
        } else {
            proof {
                assert(self.board.animation_acts@ =~= Seq::<AnimationAct>::empty());
                if s0.inv() {
                    assert(self.inv());
                }
            }
            self.check_auto_moves();
        }
        !self.is_busy()
    }

    pub fn new_settings_state(&self) -> (settings: SettingsState)
        ensures
            settings == (SettingsState {
                allow_undo: self.allow_undo,
                auto_play: self.auto_play,
                skin: self.skin,
            }),
    {
        SettingsState { allow_undo: self.allow_undo, auto_play: self.auto_play, skin: self.skin }
    }

    /// Takes over the settings; the state is to be saved afterwards.
    pub fn apply_settings(&mut self, settings: &SettingsState)
        ensures
            final(self).allow_undo == settings.allow_undo,
            final(self).auto_play == settings.auto_play,
            final(self).skin == settings.skin,
            final(self).board == old(self).board,
            final(self).history@ == old(self).history@,
            final(self).deal@ == old(self).deal@,
            final(self).animation_key == old(self).animation_key,
            final(self).already_won == old(self).already_won,
            final(self).num_wins == old(self).num_wins,
            final(self).screen_state == old(self).screen_state,
            old(self).inv() ==> final(self).inv(),
    {
        self.allow_undo = settings.allow_undo;
        self.auto_play = settings.auto_play;
        self.skin = settings.skin;
    }
}

/// An undo removes at most the whole history.
proof fn lemma_undo_count_le(history: Seq<ActionRecord>)
    ensures
        undo_count(history) <= history.len(),
        history.len() > 0 ==> undo_count(history) >= 1,
    decreases history.len(),
{
    if history.len() > 0 {
        lemma_undo_count_le(history.drop_last());
    }
}

/// Every prefix of a fitting history fits.
proof fn lemma_fits_prefix(start: Seq<Seq<Card>>, history: Seq<ActionRecord>, n: int)
    requires
        history_fits(start, history),
        0 <= n <= history.len(),
    ensures
        history_fits(start, history.take(n)),
    decreases history.len(),
{
    if n == history.len() {
        assert(history.take(n) =~= history);
    } else {
        assert(history.drop_last().take(n) =~= history.take(n));
        lemma_fits_prefix(start, history.drop_last(), n);
    }
}

/// A state whose board was just dealt from a full deck, with an empty
/// history, holds the invariant.
proof fn lemma_fresh_game_inv(s: GameState)
    requires
        s.board.wf(),
        is_full_deck(s.deal@),
        s.deal@.len() == DECK_SIZE,
        s.piles() == deal_layout(s.deal@),
        crate::board::all_cards(s.piles()) == s.deal@.to_multiset(),
        s.board.selected is None,
        s.history@.len() == 0,
    ensures
        s.inv(),
{
    let start = s.start();
    assert forall|k: int| 0 <= k <= s.history@.len() implies sound(
        #[trigger] replay(start, s.history@.take(k)),
        s.deal@,
    ) by {
        assert(s.history@.take(k) =~= s.history@);
        assert(start[free_cell()].len() == 0);
        assert forall|f: int| 0 <= f < 4 implies crate::rules::foundation_ok(#[trigger] start[f]) by {
            assert(start[f].len() == 0);
        }
    }
}

/// Recording a move the game makes keeps the invariant.
proof fn lemma_recorded_move_inv(
    old: GameState,
    new: GameState,
    src: BoardPos,
    dest: BoardPos,
    auto: bool,
)
    requires
        old.inv(),
        new.board.wf(),
        moved(old, new, src, dest, auto),
        move_fits(old.piles(), src, dest),
        game_move(old.piles(), src, dest),
    ensures
        new.inv(),
{
    let start = old.start();
    let h = old.history@;
    let r = ActionRecord { pos1: src, pos2: dest, auto };
    lemma_replay_push(start, h, r);
    assert(h.take(h.len() as int) =~= h);
    assert(new.start() == start);
    assert forall|k: int| 0 <= k <= new.history@.len() implies sound(
        #[trigger] replay(start, new.history@.take(k)),
        new.deal@,
    ) by {
        if k <= h.len() {
            assert(new.history@.take(k) =~= h.take(k));
        } else {
            assert(new.history@.take(k) =~= h.push(r));
            assert(sound(replay(start, h.take(h.len() as int)), old.deal@));
            lemma_game_move_sound(old.piles(), old.deal@, src, dest);
        }
    }
}

} // verus!
