//! The application state around the engine: the declared field size for the
//! next match and the roster of players whose histories persist between
//! sessions.  Reading and storing this state is a collaborator's concern;
//! here it is plain data with a specified default.

use crate::mmr::Player;
use crate::mmr::current_of;
use vstd::multiset::Multiset;
use vstd::prelude::*;
use vstd::string::StringExecFns;

verus! {

broadcast use vstd::seq_lib::group_to_multiset_ensures;

/// Roster order as the player panel lists it: current rating, ascending.
pub open spec fn sorted_by_rating(s: Seq<Player>) -> bool {
    forall|i: int, j: int|
        0 <= i <= j < s.len() ==> current_of((#[trigger] s[i])@.history) <= current_of(
            (#[trigger] s[j])@.history,
        )
}

/// Sorts a roster by current rating, ascending; the result holds exactly
/// the same players (as a multiset).
#[verifier::loop_isolation(false)]
pub fn sort_players_by_rating(players: &mut Vec<Player>)
    ensures
        final(players)@.len() == old(players)@.len(),
        final(players)@.to_multiset() == old(players)@.to_multiset(),
        sorted_by_rating(final(players)@),
{
    let ghost everything = players@.to_multiset();
    let ghost full_len = players@.len();
    let mut sorted: Vec<Player> = Vec::new();
    while players.len() > 0
        invariant
            sorted@.len() + players@.len() == full_len,
            sorted@.to_multiset().add(players@.to_multiset()) =~= everything,
            sorted_by_rating(sorted@),
            forall|i: int, j: int|
                0 <= i < sorted@.len() && 0 <= j < players@.len() ==> current_of(
                    (#[trigger] sorted@[i])@.history,
                ) <= current_of((#[trigger] players@[j])@.history),
        decreases players@.len(),
    {
        let mut min_idx: usize = 0;
        let mut k: usize = 1;
        while k < players.len()
            invariant
                min_idx < k <= players@.len(),
                players@.len() > 0,
                forall|j: int|
                    0 <= j < k as int ==> current_of(
                        (#[trigger] players@[min_idx as int])@.history,
                    ) <= current_of(players@[j]@.history),
            decreases players@.len() - k,
        {
            if players[k].current_rating() < players[min_idx].current_rating() {
                min_idx = k;
            }
            k = k + 1;
        }
        let ghost before = players@;
        let picked = players.remove(min_idx);
        proof {
            assert(before.remove(min_idx as int).to_multiset() =~= before.to_multiset().remove(
                before[min_idx as int],
            ));
            assert(sorted@.push(picked).to_multiset() =~= sorted@.to_multiset().insert(picked));
            assert(sorted@.to_multiset().insert(picked).add(
                before.to_multiset().remove(picked),
            ) =~= sorted@.to_multiset().add(before.to_multiset()));
        }
        sorted.push(picked);
    }
    proof {
        assert(players@.to_multiset() =~= Multiset::<Player>::empty());
        assert(sorted@.to_multiset().add(players@.to_multiset()) =~= sorted@.to_multiset());
    }
    *players = sorted;
}

/// In-memory application state: the participant count for the next match
/// and the player roster.
pub struct MMRApp {
    pub num_players: i32,
    pub players: Vec<Player>,
}

impl MMRApp {
    /// Adds a player to the roster.
    pub fn add_player(&mut self, p: Player)
        ensures
            final(self).num_players == old(self).num_players,
            final(self).players@ == old(self).players@.push(p),
    {
        self.players.push(p);
    }

    /// Removes the roster entry at position `i`.
    pub fn remove_player(&mut self, i: usize)
        requires
            i < old(self).players@.len(),
        ensures
            final(self).num_players == old(self).num_players,
            final(self).players@ == old(self).players@.remove(i as int),
    {
        self.players.remove(i);
    }

    /// Puts the roster in display order: current rating, ascending.
    pub fn sort_by_rating(&mut self)
        ensures
            final(self).num_players == old(self).num_players,
            final(self).players@.len() == old(self).players@.len(),
            final(self).players@.to_multiset() == old(self).players@.to_multiset(),
            sorted_by_rating(final(self).players@),
    {
        sort_players_by_rating(&mut self.players);
    }
}

impl Default for MMRApp {
    /// A fresh state: a field of four, with four players seeded at the
    /// starting rating.
    fn default() -> (r: Self)
        ensures
            r.num_players == 4,
            r.players@.len() == 4,
            forall|i: int|
                0 <= i < 4 ==> (#[trigger] r.players@[i])@.history == seq![1000i32],
            r.players@[0]@.name == "Player 1"@,
            r.players@[1]@.name == "Player 2"@,
            r.players@[2]@.name == "Player 3"@,
            r.players@[3]@.name == "Player 4"@,
    {
        let mut v: Vec<Player> = Vec::new();
        v.push(Player::new(String::from_str("Player 1"), None));
        v.push(Player::new(String::from_str("Player 2"), None));
        v.push(Player::new(String::from_str("Player 3"), None));
        v.push(Player::new(String::from_str("Player 4"), None));
        MMRApp { num_players: 4, players: v }
    }
}

} // verus!
