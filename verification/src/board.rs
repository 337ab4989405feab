use vstd::multiset::Multiset;
use vstd::prelude::*;

use crate::card::{all_valid, Card};

verus! {

broadcast use vstd::seq_lib::group_to_multiset_ensures;

/// Number of depots (piles) on the board.
pub const NUM_DEPOTS: usize = 14;

/// Number of tableau columns.
pub const NUM_COLUMNS: usize = 7;

/// Number of cards dealt to the tableau; the rest of the deal forms the stock.
pub const TABLEAU_CARDS: usize = 28;

/// What a depot is for. The depots are numbered role by role, in the order
/// of the variants: four foundations, the free cell, the stock, the waste,
/// then the seven tableau columns.
#[derive(Clone, Copy, Debug, PartialEq, Eq, Structural, Hash)]
pub enum DepotRole {
    Foundation,
    FreeCell,
    Stock,
    Waste,
    Tableau,
}

/// Index of the first depot of a role.
pub open spec fn role_first(r: DepotRole) -> int {
    match r {
        DepotRole::Foundation => 0,
        DepotRole::FreeCell => 4,
        DepotRole::Stock => 5,
        DepotRole::Waste => 6,
        DepotRole::Tableau => 7,
    }
}

/// Number of depots of a role.
pub open spec fn role_count(r: DepotRole) -> int {
    match r {
        DepotRole::Foundation => 4,
        DepotRole::FreeCell => 1,
        DepotRole::Stock => 1,
        DepotRole::Waste => 1,
        DepotRole::Tableau => 7,
    }
}

/// The role of depot `d`, if `d` is a depot.
pub open spec fn depot_role(d: int) -> Option<DepotRole> {
    if 0 <= d < 4 {
        Some(DepotRole::Foundation)
    } else if d == 4 {
        Some(DepotRole::FreeCell)
    } else if d == 5 {
        Some(DepotRole::Stock)
    } else if d == 6 {
        Some(DepotRole::Waste)
    } else if 7 <= d < 14 {
        Some(DepotRole::Tableau)
    } else {
        None
    }
}

/// Depot index of the free cell.
pub open spec fn free_cell() -> int {
    role_first(DepotRole::FreeCell)
}

/// Depot index of the stock.
pub open spec fn stock() -> int {
    role_first(DepotRole::Stock)
}

/// Depot index of the waste.
pub open spec fn waste() -> int {
    role_first(DepotRole::Waste)
}

impl DepotRole {
    pub fn number_of(&self) -> (n: usize)
        ensures
            n == role_count(*self),
    {
        match self {
            DepotRole::Foundation => 4,
            DepotRole::FreeCell => 1,
            DepotRole::Stock => 1,
            DepotRole::Waste => 1,
            DepotRole::Tableau => 7,
        }
    }

    /// The depot index of the `i`-th depot of this role.
    pub fn id(&self, i: usize) -> (d: usize)
        requires
            i < role_count(*self),
        ensures
            d == role_first(*self) + i,
            depot_role(d as int) == Some(*self),
    {
        match self {
            DepotRole::Foundation => i,
            DepotRole::FreeCell => 4 + i,
            DepotRole::Stock => 5 + i,
            DepotRole::Waste => 6 + i,
            DepotRole::Tableau => 7 + i,
        }
    }

    /// The depot indices of this role.
    pub fn range(&self) -> (r: std::ops::Range<usize>)
        ensures
            r.start == role_first(*self),
            r.end == role_first(*self) + role_count(*self),
    {
        let first = self.id(0);
        first..first + self.number_of()
    }

    pub fn role(depot: usize) -> (r: Option<DepotRole>)
        ensures
            r == depot_role(depot as int),
    {
        if depot < 4 {
            Some(DepotRole::Foundation)
        } else if depot == 4 {
            Some(DepotRole::FreeCell)
        } else if depot == 5 {
            Some(DepotRole::Stock)
        } else if depot == 6 {
            Some(DepotRole::Waste)
        } else if depot < 14 {
            Some(DepotRole::Tableau)
        } else {
            None
        }
    }

    /// The role of a depot and the depot's position among the depots of that role.
    pub fn role_and_subindex(depot: usize) -> (r: Option<(DepotRole, usize)>)
        ensures
            r matches Some((role, i)) ==> depot_role(depot as int) == Some(role) && depot == role_first(role) + i,
            r is None <==> depot_role(depot as int) is None,
    {
        match DepotRole::role(depot) {
            Some(role) => {
                let first = role.id(0);
                Some((role, depot - first))
            },
            None => None,
        }
    }

    /// Only the stock is dealt face down.
    pub fn is_face_up(&self) -> (b: bool)
        ensures
            b == (*self != DepotRole::Stock),
    {
        match self {
            DepotRole::Stock => false,
            _ => true,
        }
    }
}

/// A place on the board: a depot and a position in it (0 is the bottom card).
#[derive(Clone, Copy, Debug, PartialEq, Eq, Structural, Hash)]
pub struct BoardPos {
    pub depot_index: usize,
    pub card_index: usize,
}

impl BoardPos {
    pub fn new(depot_index: usize, card_index: usize) -> (p: BoardPos)
        ensures
            p == (BoardPos { depot_index, card_index }),
    {
        BoardPos { depot_index, card_index }
    }
}

/// A move of cards that has been made on the board and is still to be shown.
#[derive(Clone, Copy, Debug, PartialEq, Eq, Structural)]
pub struct AnimationAct {
    pub src: BoardPos,
    pub dest: BoardPos,
    pub num_cards: usize,
}

/// The depots, the selection and the moves still being shown.
#[derive(Clone, Debug)]
pub struct Board {
    pub depots: Vec<Vec<Card>>,
    pub selected: Option<BoardPos>,
    pub animation_acts: Vec<AnimationAct>,
}

/// The contents of a list of depots.
pub open spec fn piles_of(depots: Seq<Vec<Card>>) -> Seq<Seq<Card>> {
    depots.map_values(|v: Vec<Card>| v@)
}

/// Every card that lies in one of the piles, with repetition.
pub open spec fn all_cards(piles: Seq<Seq<Card>>) -> Multiset<Card>
    decreases piles.len(),
{
    if piles.len() == 0 {
        Multiset::empty()
    } else {
        all_cards(piles.drop_last()).add(piles.last().to_multiset())
    }
}

/// The piles after moving the cards of depot `src.depot_index` from position
/// `src.card_index` upward, keeping their order, onto the top of depot `dest.depot_index`.
pub open spec fn apply_move(piles: Seq<Seq<Card>>, src: BoardPos, dest: BoardPos) -> Seq<Seq<Card>> {
    let from = piles[src.depot_index as int];
    let moved = from.subrange(src.card_index as int, from.len() as int);
    let taken = piles.update(src.depot_index as int, from.subrange(0, src.card_index as int));
    taken.update(dest.depot_index as int, taken[dest.depot_index as int] + moved)
}

/// A move that can be made on `piles`: both depots exist, the source position
/// lies within its depot, and the destination is the top of its depot.
pub open spec fn move_fits(piles: Seq<Seq<Card>>, src: BoardPos, dest: BoardPos) -> bool {
    &&& src.depot_index < piles.len()
    &&& dest.depot_index < piles.len()
    &&& src.depot_index != dest.depot_index
    &&& src.card_index <= piles[src.depot_index as int].len()
    &&& dest.card_index == piles[dest.depot_index as int].len()
}

/// Sum of the first `c` column heights, 1 + 2 + ... + c.
pub open spec fn column_start(c: int) -> int
    decreases c,
{
    if c <= 0 {
        0
    } else {
        column_start(c - 1) + c
    }
}

/// `i`, but no more than `n`.
pub open spec fn clamp_to(i: int, n: int) -> int {
    if i < n {
        i
    } else {
        n
    }
}

/// How a deal is laid out: tableau column `c` gets the next `c + 1` cards of
/// the deal, starting with the first card, and the stock gets the remaining
/// cards, the last of them on top. A deal that runs out early leaves the
/// later columns short or empty. All other depots start empty.
pub open spec fn deal_layout(deal: Seq<Card>) -> Seq<Seq<Card>> {
    let n = deal.len() as int;
    Seq::new(
        NUM_DEPOTS as nat,
        |d: int|
            if d == stock() {
                deal.subrange(clamp_to(TABLEAU_CARDS as int, n), n)
            } else if 7 <= d < 14 {
                deal.subrange(
                    clamp_to(column_start(d - 7), n),
                    clamp_to(column_start(d - 7) + (d - 7) + 1, n),
                )
            } else {
                Seq::empty()
            },
    )
}

impl Board {
    /// The contents of the depots.
    pub open spec fn piles(&self) -> Seq<Seq<Card>> {
        piles_of(self.depots@)
    }

    /// There are fourteen depots and every card is a card of a real deck.
    pub open spec fn cards_ok(&self) -> bool {
        &&& self.depots@.len() == NUM_DEPOTS
        &&& forall|d: int| 0 <= d < NUM_DEPOTS ==> all_valid(#[trigger] self.depots@[d]@)
    }

    /// The cards are fine (see `cards_ok`) and a selection, if any, points
    /// at a card on the board.
    pub open spec fn wf(&self) -> bool {
        &&& self.cards_ok()
        &&& (self.selected matches Some(p) ==> {
            &&& p.depot_index < NUM_DEPOTS
            &&& p.card_index < self.depots@[p.depot_index as int]@.len()
        })
    }

    /// A board with fourteen empty depots.
    pub fn empty() -> (b: Board)
        ensures
            b.wf(),
            b.piles() == Seq::new(NUM_DEPOTS as nat, |d: int| Seq::<Card>::empty()),
            b.selected is None,
            b.animation_acts@.len() == 0,
    {
        let mut depots: Vec<Vec<Card>> = Vec::new();
        for i in 0..NUM_DEPOTS
            invariant
                depots@.len() == i,
                forall|j: int| 0 <= j < i ==> (#[trigger] depots@[j])@ == Seq::<Card>::empty(),
        {
            depots.push(Vec::new());
        }
        let b = Board { depots, selected: None, animation_acts: Vec::new() };
        assert(b.piles() =~= Seq::new(NUM_DEPOTS as nat, |d: int| Seq::<Card>::empty()));
        b
    }

    /// The board at the start of a game with this deal (see `deal_layout`).
    pub fn from_deal(deal: &[Card]) -> (b: Board)
        ensures
            all_valid(deal@) ==> b.wf(),
            b.depots@.len() == NUM_DEPOTS,
            b.piles() == deal_layout(deal@),
            all_cards(b.piles()) == deal@.to_multiset(),
            b.selected is None,
            b.animation_acts@.len() == 0,
    {
        let ghost layout = deal_layout(deal@);
        let ghost n = deal@.len() as int;
        let mut depots: Vec<Vec<Card>> = Vec::new();
        // foundations and free cell
        for i in 0..5
            invariant
                depots@.len() == i,
                i <= 5,
                layout == deal_layout(deal@),
                piles_of(depots@) =~= layout.take(i as int),
                all_cards(piles_of(depots@)) =~= Multiset::empty(),
                forall|j: int| 0 <= j < depots@.len() ==> (#[trigger] depots@[j])@.len() == 0,
        {
            let ghost before = depots@;
            depots.push(Vec::new());
            assert(piles_of(depots@).drop_last() =~= piles_of(before));
            assert(layout[i as int] =~= Seq::<Card>::empty());
            assert(piles_of(depots@) =~= layout.take(i + 1));
        }
        // stock
        let stock_start = if TABLEAU_CARDS < deal.len() {
            TABLEAU_CARDS
        } else {
            deal.len()
        };
        let mut stock_pile: Vec<Card> = Vec::new();
        for i in stock_start..deal.len()
            invariant
                stock_start <= i <= deal@.len(),
                stock_pile@ =~= deal@.subrange(stock_start as int, i as int),
        {
            stock_pile.push(deal[i]);
        }
        let ghost before = depots@;
        let ghost stock_seq = stock_pile@;
        depots.push(stock_pile);
        assert(piles_of(depots@).drop_last() =~= piles_of(before));
        assert(piles_of(depots@).last() == stock_seq);
        assert(piles_of(depots@) =~= layout.take(6));
        let ghost stock_cards = stock_seq.to_multiset();
        assert(all_cards(piles_of(depots@)) =~= stock_cards);
        // waste
        let ghost before = depots@;
        depots.push(Vec::new());
        assert(piles_of(depots@).drop_last() =~= piles_of(before));
        assert(piles_of(depots@) =~= layout.take(7));
        assert(all_cards(piles_of(depots@)) =~= stock_cards);
        // tableau
        let mut start: usize = 0;
        proof {
            lemma_column_starts();
        }
        for c in 0..NUM_COLUMNS
            invariant
                n == deal@.len(),
                depots@.len() == 7 + c,
                layout == deal_layout(deal@),
                stock_cards == deal@.subrange(clamp_to(TABLEAU_CARDS as int, n), n).to_multiset(),
                start == column_start(c as int),
                column_start(0) == 0 && column_start(1) == 1 && column_start(2) == 3
                    && column_start(3) == 6 && column_start(4) == 10 && column_start(5) == 15
                    && column_start(6) == 21 && column_start(7) == 28,
                piles_of(depots@) =~= layout.take(7 + c),
                all_cards(piles_of(depots@)) =~= stock_cards.add(
                    deal@.subrange(0, clamp_to(start as int, n)).to_multiset(),
                ),
        {
            proof {
                assert(column_start(c + 1) == column_start(c as int) + c + 1);
                assert(c == 0 || c == 1 || c == 2 || c == 3 || c == 4 || c == 5 || c == 6);
                assert(start + c + 1 <= 28);
            }
            let lo = if start < deal.len() {
                start
            } else {
                deal.len()
            };
            let hi = if start + c + 1 < deal.len() {
                start + c + 1
            } else {
                deal.len()
            };
            let mut column: Vec<Card> = Vec::new();
            for k in lo..hi
                invariant
                    lo <= k <= hi,
                    hi <= deal@.len(),
                    column@ =~= deal@.subrange(lo as int, k as int),
            {
                column.push(deal[k]);
            }
            let ghost before = depots@;
            let ghost col = column@;
            depots.push(column);
            proof {
                assert(piles_of(depots@).drop_last() =~= piles_of(before));
                assert(piles_of(depots@).last() == col);
                vstd::seq_lib::lemma_multiset_commutative(deal@.subrange(0, lo as int), col);
                assert(deal@.subrange(0, lo as int) + col =~= deal@.subrange(0, hi as int));
                assert(layout[7 + c] == col);
            }
            start = start + c + 1;
            assert(piles_of(depots@) =~= layout.take(8 + c));
        }
        proof {
            assert(layout.take(14) =~= layout);
            let m = clamp_to(TABLEAU_CARDS as int, n);
            vstd::seq_lib::lemma_multiset_commutative(
                deal@.subrange(0, m),
                deal@.subrange(m, n),
            );
            assert(deal@.subrange(0, m) + deal@.subrange(m, n) =~= deal@);
            if all_valid(deal@) {
                assert forall|d: int| 0 <= d < NUM_DEPOTS implies all_valid(
                    #[trigger] depots@[d]@,
                ) by {
                    assert(depots@[d]@ == layout[d]);
                    assert forall|i: int| 0 <= i < layout[d].len() implies (
                    #[trigger] layout[d][i]).wf() by {
                        if d == stock() {
                            assert(layout[d][i] == deal@[m + i]);
                        } else if 7 <= d < 14 {
                            let lo = clamp_to(column_start(d - 7), n);
                            assert(layout[d][i] == deal@[lo + i]);
                        }
                    }
                }
            }
        }
        Board { depots, selected: None, animation_acts: Vec::new() }
    }

    /// The position just above the top card of a depot.
    pub fn top_pos(&self, depot: usize) -> (p: BoardPos)
        requires
            self.wf(),
            depot < NUM_DEPOTS,
        ensures
            p.depot_index == depot,
            p.card_index == self.piles()[depot as int].len(),
    {
        BoardPos::new(depot, self.depots[depot].len())
    }

    /// Moves the cards of `src`'s depot from `src.card_index` upward onto the
    /// top of `dest`'s depot, clears the selection and, when cards moved,
    /// records the move to be shown.
    pub fn do_move(&mut self, src: BoardPos, dest: BoardPos)
        requires
            old(self).wf(),
            src.depot_index < NUM_DEPOTS,
            dest.depot_index < NUM_DEPOTS,
            src.card_index <= old(self).piles()[src.depot_index as int].len(),
        ensures
            final(self).wf(),
            final(self).piles() == apply_move(old(self).piles(), src, dest),
            final(self).selected is None,
            final(self).animation_acts@ == (if src.card_index < old(self).piles()[src.depot_index as int].len() {
                old(self).animation_acts@.push(
                    AnimationAct {
                        src,
                        dest,
                        num_cards: (old(self).piles()[src.depot_index as int].len()
                            - src.card_index) as usize,
                    },
                )
            } else {
                old(self).animation_acts@
            }),
    {
        let ghost old_piles = self.piles();
        let mut moved = self.depots[src.depot_index].split_off(src.card_index);
        let n = moved.len();
        self.depots[dest.depot_index].append(&mut moved);
        self.selected = None;
        if n > 0 {
            self.animation_acts.push(AnimationAct { src, dest, num_cards: n });
        }
        proof {
            assert(self.piles() =~= apply_move(old_piles, src, dest));
            assert forall|d: int| 0 <= d < NUM_DEPOTS implies all_valid(#[trigger] self.depots@[d]@) by {
                assert(self.depots@[d]@ == self.piles()[d]);
                if d != src.depot_index && d != dest.depot_index {
                    assert(self.piles()[d] == old_piles[d]);
                }
            }
        }
    }

    /// Ends the showing of the recorded moves.
    pub fn advance_actions(&mut self)
        ensures
            final(self).depots == old(self).depots,
            final(self).selected == old(self).selected,
            final(self).animation_acts@.len() == 0,
    {
        self.animation_acts.clear();
    }
}

proof fn lemma_column_starts()
    ensures
        column_start(0) == 0,
        column_start(1) == 1,
        column_start(2) == 3,
        column_start(3) == 6,
        column_start(4) == 10,
        column_start(5) == 15,
        column_start(6) == 21,
        column_start(7) == 28,
{
    reveal_with_fuel(column_start, 8);
}

/// Moving cards and then moving them back restores the piles.
pub proof fn lemma_move_then_reverse(piles: Seq<Seq<Card>>, src: BoardPos, dest: BoardPos)
    requires
        move_fits(piles, src, dest),
    ensures
        move_fits(apply_move(piles, src, dest), dest, src),
        apply_move(apply_move(piles, src, dest), dest, src) == piles,
{
    let after = apply_move(piles, src, dest);
    let s = src.depot_index as int;
    let d = dest.depot_index as int;
    assert(after[d] =~= piles[d] + piles[s].subrange(src.card_index as int, piles[s].len() as int));
    assert(after[s] =~= piles[s].subrange(0, src.card_index as int));
    let back = apply_move(after, dest, src);
    assert(back[d] =~= piles[d]);
    assert(back[s] =~= piles[s]);
    assert(back =~= piles);
}

/// Replacing one pile changes the cards on the board by exactly what the pile changed.
pub proof fn lemma_all_cards_update(piles: Seq<Seq<Card>>, i: int, x: Seq<Card>)
    requires
        0 <= i < piles.len(),
    ensures
        all_cards(piles.update(i, x)).add(piles[i].to_multiset()) =~= all_cards(piles).add(
            x.to_multiset(),
        ),
    decreases piles.len(),
{
    broadcast use vstd::multiset::group_multiset_axioms;

    let up = piles.update(i, x);
    let pd = piles.drop_last();
    assert(all_cards(up) == all_cards(up.drop_last()).add(up.last().to_multiset()));
    assert(all_cards(piles) == all_cards(pd).add(piles.last().to_multiset()));
    if i == piles.len() - 1 {
        assert(up.drop_last() =~= pd);
        assert(up.last() == x);
    } else {
        assert(up.drop_last() =~= pd.update(i, x));
        assert(up.last() == piles.last());
        lemma_all_cards_update(pd, i, x);
        assert(pd[i] == piles[i]);
    }
    assert forall|c: Card|
        #[trigger] all_cards(up).add(piles[i].to_multiset()).count(c) == all_cards(piles).add(
            x.to_multiset(),
        ).count(c) by {
        if i != piles.len() - 1 {
            assert(all_cards(pd.update(i, x)).add(pd[i].to_multiset()).count(c) == all_cards(
                pd,
            ).add(x.to_multiset()).count(c));
        }
    }
}

/// Moving cards neither creates nor destroys any.
pub proof fn lemma_move_keeps_cards(piles: Seq<Seq<Card>>, src: BoardPos, dest: BoardPos)
    requires
        src.depot_index < piles.len(),
        dest.depot_index < piles.len(),
        src.card_index <= piles[src.depot_index as int].len(),
    ensures
        all_cards(apply_move(piles, src, dest)) == all_cards(piles),
{
    broadcast use vstd::multiset::group_multiset_axioms;

    let s = src.depot_index as int;
    let d = dest.depot_index as int;
    let from = piles[s];
    let kept = from.subrange(0, src.card_index as int);
    let moved = from.subrange(src.card_index as int, from.len() as int);
    assert(kept + moved =~= from);
    vstd::seq_lib::lemma_multiset_commutative(kept, moved);
    let taken = piles.update(s, kept);
    lemma_all_cards_update(piles, s, kept);
    vstd::seq_lib::lemma_multiset_commutative(taken[d], moved);
    lemma_all_cards_update(taken, d, taken[d] + moved);
    let after = apply_move(piles, src, dest);
    assert(after == taken.update(d, taken[d] + moved));
    assert(all_cards(taken).add(from.to_multiset()) =~= all_cards(piles).add(kept.to_multiset()));
    assert(all_cards(after).add(taken[d].to_multiset()) =~= all_cards(taken).add(
        taken[d].to_multiset().add(moved.to_multiset()),
    ));
    assert forall|c: Card| #[trigger] all_cards(after).count(c) == all_cards(piles).count(c) by {
        assert(all_cards(taken).add(from.to_multiset()).count(c) == all_cards(piles).add(
            kept.to_multiset(),
        ).count(c));
        assert(all_cards(after).add(taken[d].to_multiset()).count(c) == all_cards(taken).add(
            taken[d].to_multiset().add(moved.to_multiset()),
        ).count(c));
        assert(from.to_multiset().count(c) == kept.to_multiset().count(c) + moved.to_multiset().count(c));
    }
    assert(all_cards(after) =~= all_cards(piles));
}

} // verus!
