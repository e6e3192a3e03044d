//! The rating engine: players with append-only rating histories, and
//! matches that turn finishing ranks into new ratings.
//!
//! A match holds one `(player, rank)` entry per participant, where a lower
//! rank is a better placement and equal ranks are a draw.  The update freezes
//! a snapshot of every participant's current rating, compares every pair of
//! participants once in each direction, rounds each per-opponent delta to the
//! nearest integer (ties away from zero) before summing, and appends exactly
//! one new value to every participant's history.

use crate::fixed::SCALE;
use crate::fixed::clamped_diff;
use crate::fixed::pair_delta;
use crate::fixed::pair_den;
use crate::fixed::pair_expected2;
use crate::fixed::pair_num;
use crate::fixed::pair_scaled_sum;
use crate::fixed::spec_k;
use crate::fixed::spec_pair_delta;
use crate::fixed::spec_scaled_pow10;
use vstd::prelude::*;

verus! {

/// Mathematical view of a [`Player`]: its name and rating history.
pub ghost struct PlayerView {
    pub name: Seq<char>,
    pub history: Seq<i32>,
}

/// A participant identity plus an append-only history of rating values; the
/// last value is the current rating.
#[derive(Debug, PartialEq, Eq)]
pub struct Player {
    pub name: String,
    pub mmr_history: Vec<i32>,
}

impl View for Player {
    type V = PlayerView;

    open spec fn view(&self) -> PlayerView {
        PlayerView { name: self.name@, history: self.mmr_history@ }
    }
}

impl Clone for Player {
    fn clone(&self) -> (r: Self)
        ensures
            r@ == self@,
    {
        let name = self.name.clone();
        let mmr_history = self.mmr_history.clone();
        proof {
            assert forall|i: int| 0 <= i < self.mmr_history@.len() implies mmr_history@[i]
                == self.mmr_history@[i] by {
                assert(cloned::<i32>(self.mmr_history[i], mmr_history[i]));
            }
            assert(mmr_history@ =~= self.mmr_history@);
        }
        Player { name, mmr_history }
    }
}

/// The current rating read from a history: its last element, with `1000`
/// used defensively if the history were ever empty.
pub open spec fn current_of(h: Seq<i32>) -> int {
    if h.len() == 0 {
        1000
    } else {
        h[h.len() - 1] as int
    }
}

impl Player {
    /// A player's history is never empty.
    pub open spec fn wf(&self) -> bool {
        self@.history.len() >= 1
    }

    /// Creates a player.  A supplied seed history is used verbatim and must
    /// be non-empty; without one the history starts as the single value
    /// `1000`.
    pub fn new(name: String, history: Option<Vec<i32>>) -> (p: Player)
        requires
            history matches Some(h) ==> h@.len() >= 1,
        ensures
            p@.name == name@,
            (history matches Some(h) ==> p@.history == h@),
            (history matches None ==> p@.history == seq![1000i32]),
            p.wf(),
    {
        let initial_mmr: Vec<i32> = match history {
            Some(x) => x,
            None => {
                let mut v: Vec<i32> = Vec::new();
                v.push(1000);
                proof {
                    assert(v@ =~= seq![1000i32]);
                }
                v
            },
        };
        Player { name, mmr_history: initial_mmr }
    }

    /// The player's current rating.
    pub fn current_rating(&self) -> (m: i32)
        ensures
            m as int == current_of(self@.history),
    {
        if self.mmr_history.len() == 0 {
            1000
        } else {
            self.mmr_history[self.mmr_history.len() - 1]
        }
    }
}

/// Why a rating update was refused.  Both failures are recoverable and leave
/// every player untouched.
#[derive(Clone, Copy, Debug, PartialEq, Eq, Structural)]
pub enum MatchError {
    /// The number of `(player, rank)` entries differs from the count the
    /// match was declared with.
    MismatchedParticipantCount,
    /// Fewer than two expected participants leave the volatility constant
    /// undefined.
    DegenerateFieldSize,
}

/// One completed game: the declared participant count and the `(player,
/// rank)` entries, populated incrementally and consumed by [`Match::update_mmr`].
#[derive(Debug)]
pub struct Match {
    pub num_players: i32,
    pub player_ranks: Vec<(Player, i32)>,
}

/// The frozen pre-update snapshot of a match: each participant's current
/// rating and rank, by entry position.
pub open spec fn snapshot_of(entries: Seq<(Player, i32)>) -> Seq<(int, int)> {
    Seq::new(entries.len(), |i: int| (current_of(entries[i].0@.history), entries[i].1 as int))
}

/// Sum of the rounded per-opponent deltas of participant `i` against the
/// opponents at snapshot positions `0 .. j`.  Participant `i` is excluded by
/// position, never by value, so coinciding ratings and ranks do not shrink
/// the opponent set.
pub open spec fn adjustment_upto(n: int, snap: Seq<(int, int)>, i: int, j: int) -> int
    decreases j,
{
    if j <= 0 {
        0
    } else {
        adjustment_upto(n, snap, i, j - 1) + (if j - 1 == i {
            0
        } else {
            spec_pair_delta(n, snap[i].1, snap[j - 1].1, snap[i].0, snap[j - 1].0)
        })
    }
}

/// The total rating adjustment of participant `i`: the exact integer sum of
/// its already-rounded per-opponent deltas.
pub open spec fn adjustment(n: int, snap: Seq<(int, int)>, i: int) -> int {
    adjustment_upto(n, snap, i, snap.len() as int)
}

/// The value a successful update appends to participant `i`'s history.
pub open spec fn new_rating(n: int, snap: Seq<(int, int)>, i: int) -> int {
    snap[i].0 + adjustment(n, snap, i)
}

/// The one machine-imposed precondition of an update: every appended rating
/// must fit in `i32`.
pub open spec fn update_fits(n: int, snap: Seq<(int, int)>) -> bool {
    (n == snap.len() && n >= 2) ==> forall|i: int|
        0 <= i < snap.len() ==> i32::MIN <= #[trigger] new_rating(n, snap, i) <= i32::MAX
}

/// Relates entries after a successful update to the entries before it: same
/// names and ranks in the same order, and each history extended by exactly
/// the participant's new rating, computed from the frozen snapshot of the
/// entries before the update.
pub open spec fn updated_entries(
    n: int,
    before: Seq<(Player, i32)>,
    after: Seq<(Player, i32)>,
) -> bool {
    let snap = snapshot_of(before);
    &&& after.len() == before.len()
    &&& forall|i: int|
        0 <= i < before.len() ==> {
            &&& (#[trigger] after[i]).1 == before[i].1
            &&& after[i].0@.name == before[i].0@.name
            &&& after[i].0@.history == before[i].0@.history.push(new_rating(n, snap, i) as i32)
        }
}

/// Entry sequences that agree in every observable field: name, history and
/// rank, position by position.
pub open spec fn entries_like(a: Seq<(Player, i32)>, b: Seq<(Player, i32)>) -> bool {
    &&& a.len() == b.len()
    &&& forall|i: int|
        0 <= i < a.len() ==> (#[trigger] a[i]).1 == b[i].1 && a[i].0@ == b[i].0@
}

impl Match {
    /// Creates a match that expects `n` participants; entries start empty
    /// and a count mismatch is only detected at update time.
    pub fn new(n: i32) -> (m: Match)
        ensures
            m.num_players == n,
            m.player_ranks@.len() == 0,
    {
        Match { num_players: n, player_ranks: Vec::new() }
    }

    /// Appends one `(player, rank)` entry.  No uniqueness or range check is
    /// made here; duplicates are permitted.
    pub fn add_player(&mut self, player: &Player, rank: i32)
        ensures
            final(self).num_players == old(self).num_players,
            final(self).player_ranks@.len() == old(self).player_ranks@.len() + 1,
            forall|i: int|
                0 <= i < old(self).player_ranks@.len() ==> #[trigger] final(self).player_ranks@[i]
                    == old(self).player_ranks@[i],
            final(self).player_ranks@[old(self).player_ranks@.len() as int].0@ == player@,
            final(self).player_ranks@[old(self).player_ranks@.len() as int].1 == rank,
    {
        self.player_ranks.push((player.clone(), rank));
    }

    /// Recomputes every participant's rating from the final ranks and
    /// appends one value to each history; the returned entries mirror the
    /// updated ones in order.  Refuses the match — mutating nothing — when
    /// the entry count differs from the declared count, or when fewer than
    /// two participants were declared.  All pairwise comparisons read the
    /// frozen pre-update snapshot, so entry order does not matter; calling
    /// the update again re-applies the algorithm to the already-updated
    /// ratings, which is intentional (a match is meant to be consumed once).
    #[verifier::loop_isolation(false)]
    pub fn update_mmr(&mut self) -> (r: Result<Vec<(Player, i32)>, MatchError>)
        requires
            update_fits(old(self).num_players as int, snapshot_of(old(self).player_ranks@)),
        ensures
            final(self).num_players == old(self).num_players,
            (old(self).num_players as int != old(self).player_ranks@.len()) ==> (r matches Err(e)
                && e == MatchError::MismatchedParticipantCount
                && final(self).player_ranks@ == old(self).player_ranks@),
            (old(self).num_players as int == old(self).player_ranks@.len()
                && old(self).num_players < 2) ==> (r matches Err(e)
                && e == MatchError::DegenerateFieldSize
                && final(self).player_ranks@ == old(self).player_ranks@),
            (old(self).num_players as int == old(self).player_ranks@.len()
                && old(self).num_players >= 2) ==> (r matches Ok(v)
                && updated_entries(
                old(self).num_players as int,
                old(self).player_ranks@,
                final(self).player_ranks@,
            ) && entries_like(v@, final(self).player_ranks@)),
    {
        let len = self.player_ranks.len();
        if self.num_players < 0 || self.num_players as usize != len {
            return Err(MatchError::MismatchedParticipantCount);
        }
        if self.num_players < 2 {
            return Err(MatchError::DegenerateFieldSize);
        }
        let n = self.num_players;
        let ghost snap = snapshot_of(self.player_ranks@);
        let mut updated: Vec<(Player, i32)> = Vec::new();
        let mut reported: Vec<(Player, i32)> = Vec::new();
        let mut i: usize = 0;
        while i < len
            invariant
                i <= len,
                updated@.len() == i as int,
                reported@.len() == i as int,
                forall|k: int|
                    0 <= k < i as int ==> {
                        &&& (#[trigger] updated@[k]).1 == self.player_ranks@[k].1
                        &&& updated@[k].0@.name == self.player_ranks@[k].0@.name
                        &&& updated@[k].0@.history == self.player_ranks@[k].0@.history.push(
                            new_rating(n as int, snap, k) as i32,
                        )
                    },
                forall|k: int|
                    0 <= k < i as int ==> (#[trigger] reported@[k]).1 == updated@[k].1
                        && reported@[k].0@ == updated@[k].0@,
            decreases len - i,
        {
            let entry = &self.player_ranks[i];
            let p_rank: i32 = entry.1;
            let p_rating: i32 = entry.0.current_rating();
            let mut total: i64 = 0;
            let mut j: usize = 0;
            while j < len
                invariant
                    j <= len,
                    total as int == adjustment_upto(n as int, snap, i as int, j as int),
                    -32 * (j as int) <= total as int <= 32 * (j as int),
                decreases len - j,
            {
                if j != i {
                    let opp = &self.player_ranks[j];
                    let d: i32 = pair_delta(n, p_rank, opp.1, p_rating, opp.0.current_rating());
                    total = total + d as i64;
                }
                j = j + 1;
            }
            assert(total as int == adjustment(n as int, snap, i as int));
            assert(i32::MIN <= new_rating(n as int, snap, i as int) <= i32::MAX);
            let nr: i32 = (p_rating as i64 + total) as i32;
            let mut p_new: Player = {
                let source = &self.player_ranks[i];
                source.0.clone()
            };
            p_new.mmr_history.push(nr);
            let p_rep: Player = p_new.clone();
            updated.push((p_new, p_rank));
            reported.push((p_rep, p_rank));
            i = i + 1;
        }
        self.player_ranks = updated;
        Ok(reported)
    }
}

/// Partial sums of per-opponent deltas stay within `32` per opponent seen.
pub proof fn lemma_adjustment_upto_bounded(n: int, snap: Seq<(int, int)>, i: int, j: int)
    requires
        2 <= n,
        0 <= j,
    ensures
        -32 * j <= adjustment_upto(n, snap, i, j) <= 32 * j,
    decreases j,
{
    if j > 0 {
        lemma_adjustment_upto_bounded(n, snap, i, j - 1);
        if j - 1 != i {
            crate::fixed::lemma_pair_delta_bounded(
                n,
                snap[i].1,
                snap[j - 1].1,
                snap[i].0,
                snap[j - 1].0,
            );
        }
    }
}

/// A participant's total adjustment never exceeds `32` per entry of the
/// match: the volatility constant bounds the whole swing.
pub proof fn lemma_adjustment_bounded(n: int, snap: Seq<(int, int)>, i: int)
    requires
        2 <= n,
    ensures
        -32 * snap.len() <= adjustment(n, snap, i) <= 32 * snap.len(),
{
    lemma_adjustment_upto_bounded(n, snap, i, snap.len() as int);
}

/// With equal current ratings the logistic expectation is exactly one half:
/// the scaled power of ten at a zero rating difference is exactly [`SCALE`].
proof fn lemma_equal_ratings_pair(m: int)
    ensures
        pair_scaled_sum(m, m) == 2 * SCALE as int,
        pair_expected2(m, m) == 2 * SCALE as int,
        pair_den(m, m) == 4 * SCALE as int,
{
    assert(clamped_diff(m, m) == 0);
    assert(spec_scaled_pow10(0) == SCALE as int);
}

/// In a two-participant match with equal current ratings and distinct
/// ranks, the better-placed participant's adjustment is exactly `+16` and
/// the other's exactly `-16` (the volatility constant is `32` and each
/// outcome is half a win away from the expectation).
pub proof fn lemma_two_player_equal_ratings(snap: Seq<(int, int)>, m: int, rw: int, rl: int)
    requires
        snap.len() == 2,
        snap[0] == (m, rw),
        snap[1] == (m, rl),
        rw < rl,
    ensures
        adjustment(2, snap, 0) == 16,
        adjustment(2, snap, 1) == -16,
{
    lemma_equal_ratings_pair(m);
    assert(spec_k(2) == 32);
    assert(pair_num(2, rw, rl, m, m) == 64 * (SCALE as int));
    assert(pair_num(2, rl, rw, m, m) == -64 * (SCALE as int));
    crate::fixed::lemma_round_half_away_value(
        64 * (SCALE as int),
        4 * (SCALE as int),
        16,
        4 * (SCALE as int),
    );
    crate::fixed::lemma_round_half_away_value(
        -64 * (SCALE as int),
        4 * (SCALE as int),
        -16,
        4 * (SCALE as int),
    );
    assert(spec_pair_delta(2, rw, rl, m, m) == 16);
    assert(spec_pair_delta(2, rl, rw, m, m) == -16);
    assert(adjustment_upto(2, snap, 0, 0) == 0);
    assert(adjustment_upto(2, snap, 0, 1) == 0);
    assert(adjustment_upto(2, snap, 0, 2) == 16);
    assert(adjustment_upto(2, snap, 1, 0) == 0);
    assert(adjustment_upto(2, snap, 1, 1) == -16);
    assert(adjustment_upto(2, snap, 1, 2) == -16);
}

/// In a three-participant match with equal current ratings and strictly
/// increasing ranks, the adjustments are exactly `+16`, `0` and `-16`: the
/// middle participant's gain against the worse placement cancels its loss
/// against the better one.
pub proof fn lemma_three_player_equal_ratings(
    snap: Seq<(int, int)>,
    m: int,
    r1: int,
    r2: int,
    r3: int,
)
    requires
        snap.len() == 3,
        snap[0] == (m, r1),
        snap[1] == (m, r2),
        snap[2] == (m, r3),
        r1 < r2 < r3,
    ensures
        adjustment(3, snap, 0) == 16,
        adjustment(3, snap, 1) == 0,
        adjustment(3, snap, 2) == -16,
{
    lemma_equal_ratings_pair(m);
    assert(spec_k(3) == 16);
    crate::fixed::lemma_round_half_away_value(
        32 * (SCALE as int),
        4 * (SCALE as int),
        8,
        4 * (SCALE as int),
    );
    crate::fixed::lemma_round_half_away_value(
        -32 * (SCALE as int),
        4 * (SCALE as int),
        -8,
        4 * (SCALE as int),
    );
    assert(pair_num(3, r1, r2, m, m) == 32 * (SCALE as int));
    assert(pair_num(3, r1, r3, m, m) == 32 * (SCALE as int));
    assert(pair_num(3, r2, r1, m, m) == -32 * (SCALE as int));
    assert(pair_num(3, r2, r3, m, m) == 32 * (SCALE as int));
    assert(pair_num(3, r3, r1, m, m) == -32 * (SCALE as int));
    assert(pair_num(3, r3, r2, m, m) == -32 * (SCALE as int));
    assert(spec_pair_delta(3, r1, r2, m, m) == 8);
    assert(spec_pair_delta(3, r1, r3, m, m) == 8);
    assert(spec_pair_delta(3, r2, r1, m, m) == -8);
    assert(spec_pair_delta(3, r2, r3, m, m) == 8);
    assert(spec_pair_delta(3, r3, r1, m, m) == -8);
    assert(spec_pair_delta(3, r3, r2, m, m) == -8);
    assert(adjustment_upto(3, snap, 0, 0) == 0);
    assert(adjustment_upto(3, snap, 0, 1) == 0);
    assert(adjustment_upto(3, snap, 0, 2) == 8);
    assert(adjustment_upto(3, snap, 0, 3) == 16);
    assert(adjustment_upto(3, snap, 1, 0) == 0);
    assert(adjustment_upto(3, snap, 1, 1) == -8);
    assert(adjustment_upto(3, snap, 1, 2) == -8);
    assert(adjustment_upto(3, snap, 1, 3) == 0);
    assert(adjustment_upto(3, snap, 2, 0) == 0);
    assert(adjustment_upto(3, snap, 2, 1) == -8);
    assert(adjustment_upto(3, snap, 2, 2) == -16);
    assert(adjustment_upto(3, snap, 2, 3) == -16);
}

/// In a four-participant match with equal current ratings where two
/// participants tie between a best and a worst placement, the tied
/// participants' adjustments are exactly `0` (their gain and loss cancel
/// and their mutual draw contributes nothing), while the best gains and the
/// worst loses exactly `15`.
pub proof fn lemma_four_player_tie_equal_ratings(
    snap: Seq<(int, int)>,
    m: int,
    rb: int,
    rt: int,
    rw: int,
)
    requires
        snap.len() == 4,
        snap[0] == (m, rb),
        snap[1] == (m, rt),
        snap[2] == (m, rw),
        snap[3] == (m, rt),
        rb < rt < rw,
    ensures
        adjustment(4, snap, 0) == 15,
        adjustment(4, snap, 1) == 0,
        adjustment(4, snap, 2) == -15,
        adjustment(4, snap, 3) == 0,
{
    lemma_equal_ratings_pair(m);
    assert(spec_k(4) == 10);
    crate::fixed::lemma_round_half_away_value(
        20 * (SCALE as int),
        4 * (SCALE as int),
        5,
        4 * (SCALE as int),
    );
    crate::fixed::lemma_round_half_away_value(
        -20 * (SCALE as int),
        4 * (SCALE as int),
        -5,
        4 * (SCALE as int),
    );
    crate::fixed::lemma_round_half_away_value(0, 4 * (SCALE as int), 0, 4 * (SCALE as int));
    assert(pair_num(4, rb, rt, m, m) == 20 * (SCALE as int));
    assert(pair_num(4, rb, rw, m, m) == 20 * (SCALE as int));
    assert(pair_num(4, rt, rb, m, m) == -20 * (SCALE as int));
    assert(pair_num(4, rt, rw, m, m) == 20 * (SCALE as int));
    assert(pair_num(4, rt, rt, m, m) == 0);
    assert(pair_num(4, rw, rb, m, m) == -20 * (SCALE as int));
    assert(pair_num(4, rw, rt, m, m) == -20 * (SCALE as int));
    assert(spec_pair_delta(4, rb, rt, m, m) == 5);
    assert(spec_pair_delta(4, rb, rw, m, m) == 5);
    assert(spec_pair_delta(4, rt, rb, m, m) == -5);
    assert(spec_pair_delta(4, rt, rw, m, m) == 5);
    assert(spec_pair_delta(4, rt, rt, m, m) == 0);
    assert(spec_pair_delta(4, rw, rb, m, m) == -5);
    assert(spec_pair_delta(4, rw, rt, m, m) == -5);
    assert(adjustment_upto(4, snap, 0, 0) == 0);
    assert(adjustment_upto(4, snap, 0, 1) == 0);
    assert(adjustment_upto(4, snap, 0, 2) == 5);
    assert(adjustment_upto(4, snap, 0, 3) == 10);
    assert(adjustment_upto(4, snap, 0, 4) == 15);
    assert(adjustment_upto(4, snap, 1, 0) == 0);
    assert(adjustment_upto(4, snap, 1, 1) == -5);
    assert(adjustment_upto(4, snap, 1, 2) == -5);
    assert(adjustment_upto(4, snap, 1, 3) == 0);
    assert(adjustment_upto(4, snap, 1, 4) == 0);
    assert(adjustment_upto(4, snap, 2, 0) == 0);
    assert(adjustment_upto(4, snap, 2, 1) == -5);
    assert(adjustment_upto(4, snap, 2, 2) == -10);
    assert(adjustment_upto(4, snap, 2, 3) == -10);
    assert(adjustment_upto(4, snap, 2, 4) == -15);
    assert(adjustment_upto(4, snap, 3, 0) == 0);
    assert(adjustment_upto(4, snap, 3, 1) == -5);
    assert(adjustment_upto(4, snap, 3, 2) == -5);
    assert(adjustment_upto(4, snap, 3, 3) == 0);
    assert(adjustment_upto(4, snap, 3, 4) == 0);
}

/// Builds a match from a prepared list of `(player, rank)` pairs and runs
/// the rating update, handing back the updated pairs, or `None` when the
/// update refuses the input.
pub fn calculate_match(n: i32, player_ranks: Vec<(Player, i32)>) -> (r: Option<
    Vec<(Player, i32)>,
>)
    requires
        update_fits(n as int, snapshot_of(player_ranks@)),
    ensures
        (n as int != player_ranks@.len() || n < 2) ==> r is None,
        (n as int == player_ranks@.len() && n >= 2) ==> (r matches Some(v) && updated_entries(
            n as int,
            player_ranks@,
            v@,
        )),
{
    let mut m = Match::new(n);
    let mut i: usize = 0;
    while i < player_ranks.len()
        invariant
            i <= player_ranks@.len(),
            m.num_players == n,
            m.player_ranks@.len() == i as int,
            forall|k: int|
                0 <= k < i as int ==> (#[trigger] m.player_ranks@[k]).1 == player_ranks@[k].1
                    && m.player_ranks@[k].0@ == player_ranks@[k].0@,
        decreases player_ranks@.len() - i,
    {
        let entry = &player_ranks[i];
        m.add_player(&entry.0, entry.1);
        i = i + 1;
    }
    proof {
        assert(snapshot_of(m.player_ranks@) =~= snapshot_of(player_ranks@));
    }
    let ghost m_before = m.player_ranks@;
    match m.update_mmr() {
        Ok(v) => {
            proof {
                if n as int == player_ranks@.len() && n >= 2 {
                    assert forall|k: int| 0 <= k < player_ranks@.len() implies {
                        &&& (#[trigger] v@[k]).1 == player_ranks@[k].1
                        &&& v@[k].0@.name == player_ranks@[k].0@.name
                        &&& v@[k].0@.history == player_ranks@[k].0@.history.push(
                            new_rating(n as int, snapshot_of(player_ranks@), k) as i32,
                        )
                    } by {
                        assert(v@[k].0@ == m.player_ranks@[k].0@);
                        assert(m.player_ranks@[k].0@.history == m_before[k].0@.history.push(
                            new_rating(n as int, snapshot_of(m_before), k) as i32,
                        ));
                    }
                }
            }
            Some(v)
        },
        Err(_) => None,
    }
}

} // verus!
