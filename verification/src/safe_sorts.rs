use vstd::prelude::*;

use crate::card::{suit_at, Suit, NUM_SUITS};

verus! {

/// One value per suit, indexed by the suit's position in the enumeration order.
#[derive(Clone, Copy, Debug)]
pub struct SuitMap {
    pub values: [u8; 4],
}

impl SuitMap {
    /// The value of a suit.
    pub open spec fn at(self, suit: Suit) -> int {
        self.values@[suit.ord()] as int
    }

    /// The values as integers, by suit position.
    pub open spec fn ints(self) -> Seq<int> {
        self.values@.map_values(|v: u8| v as int)
    }

    pub fn get(&self, suit: Suit) -> (v: u8)
        ensures
            v == self.at(suit),
    {
        self.values[suit.index()]
    }
}

/// The suits at positions `s` and `t` have different colours.
pub open spec fn opposite(s: int, t: int) -> bool {
    suit_at(s).colour() != suit_at(t).colour()
}

/// Every suit of the other colour than the suit at `s` has a value of at least `v`.
pub open spec fn others_reach(values: Seq<int>, s: int, v: int) -> bool {
    forall|t: int| 0 <= t < 4 && opposite(s, t) ==> #[trigger] values[t] >= v
}

/// The rule for sorting to the foundations without regret. Given, for each
/// suit, the rank `ranks[s]` already on the foundations, `safe[s]` is the
/// rank that may be sorted next without harm: `ranks[s] + 1` when every suit
/// of the other colour has a safe rank of at least `ranks[s]` (so that no card
/// of the other colour could still need the card to be sorted as a place to
/// stack on), and `ranks[s]` otherwise.
pub open spec fn safe_rule(ranks: Seq<int>, safe: Seq<int>) -> bool {
    &&& ranks.len() == 4
    &&& safe.len() == 4
    &&& forall|s: int|
        0 <= s < 4 ==> #[trigger] safe[s] == ranks[s] + if others_reach(safe, s, ranks[s]) {
            1int
        } else {
            0int
        }
}

spec fn follows_rule(values: Seq<int>, ranks: Seq<int>, s: int) -> bool {
    values[s] == ranks[s] + if others_reach(values, s, ranks[s]) {
        1int
    } else {
        0int
    }
}

/// The rule has at most one solution: the safe ranks are determined by the
/// foundation ranks.
pub proof fn lemma_safe_rule_unique(ranks: Seq<int>, a: Seq<int>, b: Seq<int>)
    requires
        safe_rule(ranks, a),
        safe_rule(ranks, b),
    ensures
        a == b,
{
    let lo = min_rank(ranks);
    let hi = max_rank(ranks);
    lemma_agree_below(ranks, a, b, (hi - lo + 1) as nat, lo);
    assert forall|s: int| 0 <= s < 4 implies a[s] == b[s] by {
        assert(ranks[s] < lo + (hi - lo + 1));
    }
    assert(a =~= b);
}

spec fn min_rank(ranks: Seq<int>) -> int {
    let m01 = if ranks[0] <= ranks[1] { ranks[0] } else { ranks[1] };
    let m23 = if ranks[2] <= ranks[3] { ranks[2] } else { ranks[3] };
    if m01 <= m23 { m01 } else { m23 }
}

spec fn max_rank(ranks: Seq<int>) -> int {
    let m01 = if ranks[0] >= ranks[1] { ranks[0] } else { ranks[1] };
    let m23 = if ranks[2] >= ranks[3] { ranks[2] } else { ranks[3] };
    if m01 >= m23 { m01 } else { m23 }
}

/// Two solutions agree on every suit whose foundation rank lies below `lo + n`,
/// where `lo` is the least foundation rank.
proof fn lemma_agree_below(ranks: Seq<int>, a: Seq<int>, b: Seq<int>, n: nat, lo: int)
    requires
        safe_rule(ranks, a),
        safe_rule(ranks, b),
        lo == min_rank(ranks),
    ensures
        forall|s: int| 0 <= s < 4 && ranks[s] < lo + n ==> a[s] == b[s],
    decreases n,
{
    if n > 0 {
        lemma_agree_below(ranks, a, b, (n - 1) as nat, lo);
        assert forall|s: int| 0 <= s < 4 && ranks[s] < lo + n implies a[s] == b[s] by {
            if a[s] != b[s] {
                // the solution that raises `s` sees every other-colour suit reach
                // `ranks[s]`, the other one sees some suit fall short; that suit
                // has a lower rank and so the two solutions agree on it
                assert(a[s] == ranks[s] + if others_reach(a, s, ranks[s]) { 1int } else { 0int });
                assert(b[s] == ranks[s] + if others_reach(b, s, ranks[s]) { 1int } else { 0int });
                if others_reach(a, s, ranks[s]) {
                    let t = choose|t: int| 0 <= t < 4 && opposite(s, t) && !(b[t] >= ranks[s]);
                    assert(a[t] >= ranks[s]);
                    assert(b[t] == ranks[t] + if others_reach(b, t, ranks[t]) { 1int } else { 0int });
                    assert(a[t] == ranks[t] + if others_reach(a, t, ranks[t]) { 1int } else { 0int });
                    assert(ranks[t] < ranks[s]);
                } else {
                    let t = choose|t: int| 0 <= t < 4 && opposite(s, t) && !(a[t] >= ranks[s]);
                    assert(b[t] >= ranks[s]);
                    assert(b[t] == ranks[t] + if others_reach(b, t, ranks[t]) { 1int } else { 0int });
                    assert(a[t] == ranks[t] + if others_reach(a, t, ranks[t]) { 1int } else { 0int });
                    assert(ranks[t] < ranks[s]);
                }
            }
        }
    }
}

/// The safe ranks for the given foundation ranks: the suits are visited from
/// the lowest foundation rank to the highest (a stable order), and each suit
/// is raised by one when every suit of the other colour has, at that time, a
/// value of at least its rank.
pub fn raise_safe(ranks: [u8; 4]) -> (safe: [u8; 4])
    requires
        forall|s: int| 0 <= s < 4 ==> ranks@[s] < 255,
    ensures
        safe_rule(ranks@.map_values(|v: u8| v as int), safe@.map_values(|v: u8| v as int)),
{
    let ghost r = ranks@.map_values(|v: u8| v as int);
    // order the suits by rank, keeping the enumeration order among equal ranks
    let mut o0: usize = 0;
    let mut o1: usize = 1;
    let mut o2: usize = 2;
    let mut o3: usize = 3;
    if ranks[o0] > ranks[o1] {
        let t = o0;
        o0 = o1;
        o1 = t;
    }
    if ranks[o1] > ranks[o2] {
        let t = o1;
        o1 = o2;
        o2 = t;
    }
    if ranks[o2] > ranks[o3] {
        let t = o2;
        o2 = o3;
        o3 = t;
    }
    if ranks[o0] > ranks[o1] {
        let t = o0;
        o0 = o1;
        o1 = t;
    }
    if ranks[o1] > ranks[o2] {
        let t = o1;
        o1 = o2;
        o2 = t;
    }
    if ranks[o0] > ranks[o1] {
        let t = o0;
        o0 = o1;
        o1 = t;
    }
    let order: [usize; 4] = [o0, o1, o2, o3];
    assert(ranks[o0 as int] <= ranks[o1 as int] <= ranks[o2 as int] <= ranks[o3 as int]);
    assert(o0 != o1 && o0 != o2 && o0 != o3 && o1 != o2 && o1 != o3 && o2 != o3);
    let mut cur = ranks;
    for k in 0..4
        invariant
            r == ranks@.map_values(|v: u8| v as int),
            r.len() == 4,
            forall|s: int| 0 <= s < 4 ==> ranks@[s] < 255,
            forall|i: int| 0 <= i < 4 ==> order@[i] < 4,
            forall|i: int, j: int| 0 <= i < 4 && 0 <= j < 4 && i != j ==> order@[i] != order@[j],
            forall|i: int, j: int|
                0 <= i <= j < 4 ==> ranks@[order@[i] as int] <= ranks@[order@[j] as int],
            forall|s: int| 0 <= s < 4 ==> r[s] <= #[trigger] cur@[s] <= r[s] + 1,
            forall|i: int| k <= i < 4 ==> cur@[order@[i] as int] == ranks@[order@[i] as int],
            forall|i: int|
                0 <= i < k ==> follows_rule(
                    cur@.map_values(|v: u8| v as int),
                    r,
                    #[trigger] order@[i] as int,
                ),
    {
        let s = order[k];
        let mut ans = true;
        for t in 0..NUM_SUITS
            invariant
                s < 4,
                ans == (forall|u: int|
                    0 <= u < t && opposite(s as int, u) ==> cur@[u] >= cur@[s as int]),
        {
            let opp = Suit::from_index(t).color() != Suit::from_index(s).color();
            assert(opp == opposite(s as int, t as int));
            if opp && cur[t] < cur[s] {
                ans = false;
            }
            assert(ans == (forall|u: int|
                0 <= u < t + 1 && opposite(s as int, u) ==> cur@[u] >= cur@[s as int])) by {
                if !ans {
                    if !(opp && cur[t as int] < cur[s as int]) {
                        let u = choose|u: int|
                            0 <= u < t && opposite(s as int, u) && !(cur@[u] >= cur@[s as int]);
                        let cs = cur@[s as int];
                        assert(0 <= u < t + 1 && opposite(s as int, u) && !(cur@[u] >= cs));
                    }
                }
            }
        }
        let ghost before = cur@.map_values(|v: u8| v as int);
        assert(cur@[s as int] == ranks@[s as int]);
        assert(ans == others_reach(before, s as int, r[s as int])) by {
            assert forall|u: int| 0 <= u < 4 implies before[u] == cur@[u] as int by {}
            if !ans {
                let u = choose|u: int|
                    0 <= u < 4 && opposite(s as int, u) && !(cur@[u] >= cur@[s as int]);
                assert(!(before[u] >= r[s as int]));
            }
        }
        if ans {
            cur[s] = cur[s] + 1;
        }
        let ghost after = cur@.map_values(|v: u8| v as int);
        proof {
            assert forall|i: int| 0 <= i <= k implies follows_rule(
                after,
                r,
                #[trigger] order@[i] as int,
            ) by {
                let si = order@[i] as int;
                if i < k {
                    assert(si != s);
                    assert(ranks@[si] <= ranks@[s as int]);
                    assert(others_reach(after, si, r[si]) == others_reach(before, si, r[si])) by {
                        assert forall|u: int| 0 <= u < 4 implies (after[u] >= r[si]) == (before[u]
                            >= r[si]) by {
                            if u == s {
                                assert(before[u] == r[s as int]);
                            } else {
                                assert(after[u] == before[u]);
                            }
                        }
                    }
                } else {
                    assert(others_reach(after, si, r[si]) == others_reach(before, si, r[si])) by {
                        assert forall|u: int| 0 <= u < 4 && opposite(si, u) implies (after[u]
                            >= r[si]) == (before[u] >= r[si]) by {
                            assert(u != si);
                            assert(after[u] == before[u]);
                        }
                    }
                }
            }
        }
    }
    proof {
        let res = cur@.map_values(|v: u8| v as int);
        assert forall|s: int| 0 <= s < 4 implies #[trigger] res[s] == r[s] + if others_reach(
            res,
            s,
            r[s],
        ) {
            1int
        } else {
            0int
        } by {
            assert(s == order@[0] || s == order@[1] || s == order@[2] || s == order@[3]);
            assert(follows_rule(res, r, s));
        }
    }
    cur
}

} // verus!
