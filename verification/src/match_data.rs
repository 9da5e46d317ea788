//! The data model: per-match statistics and cross-match scores.
//!
//! The log format keys everything by player name, so the two
//! counter tables are association lists ordered by first insertion.
//! That order is part of the model: the ranking's tie-break rule reads
//! entries in exactly this order.

use vstd::prelude::*;
use crate::text::{views_of, str_eq};

verus! {

/// The abstract value of a [`MatchData`]: unbounded counters over the
/// views of the names.
pub ghost struct MatchDataView {
    pub total_kills: int,
    pub players: Seq<Seq<char>>,
    pub kills: Seq<(Seq<char>, int)>,
    pub kills_by_means: Seq<(Seq<char>, int)>,
}

/// Running statistics of one match: the unconditional kill-line count,
/// the players seen via info-change events, the net kill count per
/// name, and the occurrence count per death cause.
pub struct MatchData {
    pub total_kills: i32,
    pub players: Vec<String>,
    pub kills: Vec<(String, i32)>,
    pub kills_by_means: Vec<(String, i32)>,
}

/// One match: a 1-based sequential identifier and its statistics.
pub struct Match {
    pub id: i32,
    pub data: MatchData,
}

/// The abstract value of a [`Match`].
pub ghost struct MatchView {
    pub id: int,
    pub data: MatchDataView,
}

/// One entry of the global ranking: a player and the kills summed over
/// every match.
pub struct PlayerScore {
    pub name: String,
    pub kills: i32,
}

/// The abstract value of a [`PlayerScore`].
pub ghost struct PlayerScoreView {
    pub name: Seq<char>,
    pub kills: int,
}

/// The views of a counter table, entry by entry.
pub open spec fn counts_view(v: Seq<(String, i32)>) -> Seq<(Seq<char>, int)> {
    Seq::new(v.len(), |i: int| (v[i].0@, v[i].1 as int))
}

/// The views of a vector of matches, element by element.
pub open spec fn matches_view(v: Seq<Match>) -> Seq<MatchView> {
    Seq::new(v.len(), |i: int| v[i]@)
}

/// The views of a vector of scores, element by element.
pub open spec fn scores_view(v: Seq<PlayerScore>) -> Seq<PlayerScoreView> {
    Seq::new(v.len(), |i: int| v[i]@)
}

impl View for MatchData {
    type V = MatchDataView;

    open spec fn view(&self) -> MatchDataView {
        MatchDataView {
            total_kills: self.total_kills as int,
            players: views_of(self.players@),
            kills: counts_view(self.kills@),
            kills_by_means: counts_view(self.kills_by_means@),
        }
    }
}

impl View for Match {
    type V = MatchView;

    open spec fn view(&self) -> MatchView {
        MatchView { id: self.id as int, data: self.data@ }
    }
}

impl View for PlayerScore {
    type V = PlayerScoreView;

    open spec fn view(&self) -> PlayerScoreView {
        PlayerScoreView { name: self.name@, kills: self.kills as int }
    }
}

/// The statistics of a match that has just started.
pub open spec fn empty_match_data() -> MatchDataView {
    MatchDataView {
        total_kills: 0,
        players: Seq::empty(),
        kills: Seq::empty(),
        kills_by_means: Seq::empty(),
    }
}

impl Default for MatchData {
    /// Zeroed statistics, as a fresh match carries them.
    fn default() -> (d: MatchData)
        ensures
            d@ == empty_match_data(),
    {
        let d = MatchData {
            total_kills: 0,
            players: Vec::new(),
            kills: Vec::new(),
            kills_by_means: Vec::new(),
        };
        proof {
            assert(d@.players =~= empty_match_data().players);
            assert(d@.kills =~= empty_match_data().kills);
            assert(d@.kills_by_means =~= empty_match_data().kills_by_means);
        }
        d
    }
}

/// Position of the first entry of `s` keyed `k`, or `s.len()` when no
/// entry carries that key.
pub open spec fn key_idx(s: Seq<(Seq<char>, int)>, k: Seq<char>) -> int
    decreases s.len(),
{
    if s.len() == 0 {
        0
    } else if s[0].0 == k {
        0
    } else {
        1 + key_idx(s.drop_first(), k)
    }
}

/// What [`key_idx`] returns: the least position keyed `k`, or the
/// length when `k` is absent.
pub proof fn lemma_key_idx(s: Seq<(Seq<char>, int)>, k: Seq<char>)
    ensures
        0 <= key_idx(s, k) <= s.len(),
        key_idx(s, k) < s.len() ==> s[key_idx(s, k)].0 == k,
        forall|j: int| 0 <= j < key_idx(s, k) ==> s[j].0 != k,
    decreases s.len(),
{
    if s.len() > 0 && s[0].0 != k {
        let t = s.drop_first();
        lemma_key_idx(t, k);
        assert forall|j: int| 0 <= j < key_idx(s, k) implies s[j].0 != k by {
            if j > 0 {
                assert(t[j - 1] == s[j]);
            }
        }
    }
}

/// First-match lookup in a counter table.
pub open spec fn assoc_find(s: Seq<(Seq<char>, int)>, k: Seq<char>) -> Option<int> {
    if key_idx(s, k) < s.len() {
        Some(s[key_idx(s, k)].1)
    } else {
        None
    }
}

/// Adds `d` to the first entry keyed `k`, or appends a fresh entry
/// holding `d`: the update-or-insert every counter uses.
pub open spec fn assoc_bump(s: Seq<(Seq<char>, int)>, k: Seq<char>, d: int) -> Seq<
    (Seq<char>, int),
> {
    if key_idx(s, k) < s.len() {
        s.update(key_idx(s, k), (k, s[key_idx(s, k)].1 + d))
    } else {
        s.push((k, d))
    }
}

/// Appends `k` unless it is already present: set insertion that keeps
/// first-seen order.
pub open spec fn insert_unique(ps: Seq<Seq<char>>, k: Seq<char>) -> Seq<Seq<char>> {
    if ps.contains(k) {
        ps
    } else {
        ps.push(k)
    }
}

/// Sum of all counter values, the quantity the kill-conservation law
/// speaks about.
pub open spec fn sum_counts(s: Seq<(Seq<char>, int)>) -> int
    decreases s.len(),
{
    if s.len() == 0 {
        0
    } else {
        s[0].1 + sum_counts(s.drop_first())
    }
}

/// Updating one entry moves the sum by the difference of the values.
pub proof fn lemma_sum_update(s: Seq<(Seq<char>, int)>, i: int, e: (Seq<char>, int))
    requires
        0 <= i < s.len(),
    ensures
        sum_counts(s.update(i, e)) == sum_counts(s) - s[i].1 + e.1,
    decreases s.len(),
{
    if i == 0 {
        assert(s.update(0, e).drop_first() =~= s.drop_first());
    } else {
        assert(s.update(i, e).drop_first() =~= s.drop_first().update(i - 1, e));
        lemma_sum_update(s.drop_first(), i - 1, e);
    }
}

/// Appending an entry adds its value to the sum.
pub proof fn lemma_sum_push(s: Seq<(Seq<char>, int)>, e: (Seq<char>, int))
    ensures
        sum_counts(s.push(e)) == sum_counts(s) + e.1,
    decreases s.len(),
{
    if s.len() == 0 {
        assert(s.push(e)[0] == e);
        assert(sum_counts(Seq::<(Seq<char>, int)>::empty()) == 0);
        assert(s.push(e).drop_first() =~= Seq::<(Seq<char>, int)>::empty());
        assert(sum_counts(s.push(e)) == e.1 + sum_counts(s.push(e).drop_first()));
    } else {
        let t = s.drop_first();
        lemma_sum_push(t, e);
        assert(s.push(e)[0] == s[0]);
        assert(s.push(e).drop_first() =~= t.push(e));
        assert(sum_counts(s.push(e)) == s[0].1 + sum_counts(t.push(e)));
        assert(sum_counts(s) == s[0].1 + sum_counts(t));
    }
}

/// Every value of a single-step bump lies within one of the old
/// bounds, as long as the step itself is a single kill.
pub proof fn lemma_bump_bounds(s: Seq<(Seq<char>, int)>, k: Seq<char>, delta: int, lo: int, hi: int)
    requires
        forall|i: int| 0 <= i < s.len() ==> lo <= (#[trigger] s[i]).1 <= hi,
        lo <= 0,
        0 <= hi,
        -1 <= delta <= 1,
    ensures
        forall|i: int|
            0 <= i < assoc_bump(s, k, delta).len() ==> lo + (if delta < 0 {
                -1int
            } else {
                0int
            }) <= (#[trigger] assoc_bump(s, k, delta)[i]).1 <= hi + (if delta > 0 {
                1int
            } else {
                0int
            }),
{
    lemma_key_idx(s, k);
}

/// The update-or-insert of `d` moves the sum by exactly `d`.
pub proof fn lemma_sum_bump(s: Seq<(Seq<char>, int)>, k: Seq<char>, d: int)
    ensures
        sum_counts(assoc_bump(s, k, d)) == sum_counts(s) + d,
{
    lemma_key_idx(s, k);
    if key_idx(s, k) < s.len() {
        lemma_sum_update(s, key_idx(s, k), (k, s[key_idx(s, k)].1 + d));
    } else {
        lemma_sum_push(s, (k, d));
    }
}

/// First-match lookup in a counter vector.
pub fn counts_get(v: &Vec<(String, i32)>, k: &str) -> (r: Option<i32>)
    ensures
        match r {
            Some(x) => assoc_find(counts_view(v@), k@) == Some(x as int),
            None => assoc_find(counts_view(v@), k@) is None,
        },
{
    let ghost s = counts_view(v@);
    proof {
        lemma_key_idx(s, k@);
    }
    let n = v.len();
    let mut i: usize = 0;
    while i < n
        invariant
            n == v@.len(),
            i <= n,
            s == counts_view(v@),
            forall|j: int| 0 <= j < i ==> s[j].0 != k@,
            0 <= key_idx(s, k@) <= s.len(),
            key_idx(s, k@) < s.len() ==> s[key_idx(s, k@)].0 == k@,
            forall|j: int| 0 <= j < key_idx(s, k@) ==> s[j].0 != k@,
        decreases n - i,
    {
        if str_eq(v[i].0.as_str(), k) {
            proof {
                assert(s[i as int].0 == k@);
                assert(key_idx(s, k@) == i as int);
            }
            return Some(v[i].1);
        }
        i += 1;
    }
    proof {
        assert(key_idx(s, k@) == s.len());
    }
    None
}

/// Update-or-insert on a counter vector: adds `delta` to the first
/// entry keyed `k`, or appends `(k, delta)`.
pub fn counts_bump(v: &mut Vec<(String, i32)>, k: &str, delta: i32)
    requires
        match assoc_find(counts_view(old(v)@), k@) {
            Some(x) => i32::MIN <= x + delta <= i32::MAX,
            None => true,
        },
    ensures
        counts_view(final(v)@) == assoc_bump(counts_view(old(v)@), k@, delta as int),
{
    let ghost s = counts_view(old(v)@);
    proof {
        lemma_key_idx(s, k@);
    }
    let n = v.len();
    let mut i: usize = 0;
    while i < n
        invariant
            n == v@.len(),
            i <= n,
            v == old(v),
            s == counts_view(v@),
            forall|j: int| 0 <= j < i ==> s[j].0 != k@,
            0 <= key_idx(s, k@) <= s.len(),
            key_idx(s, k@) < s.len() ==> s[key_idx(s, k@)].0 == k@,
            forall|j: int| 0 <= j < key_idx(s, k@) ==> s[j].0 != k@,
        decreases n - i,
    {
        if str_eq(v[i].0.as_str(), k) {
            proof {
                assert(s[i as int].0 == k@);
                assert(key_idx(s, k@) == i as int);
                assert(assoc_find(s, k@) == Some(s[i as int].1));
            }
            let name = v[i].0.clone();
            let val = v[i].1;
            proof {
                assert(s[i as int].1 == val as int);
            }
            v[i] = (name, val + delta);
            proof {
                assert(counts_view(v@) =~= assoc_bump(s, k@, delta as int));
            }
            return ;
        }
        i += 1;
    }
    proof {
        assert(key_idx(s, k@) == s.len());
    }
    v.push((k.to_owned(), delta));
    proof {
        assert(counts_view(v@) =~= assoc_bump(s, k@, delta as int));
    }
}

/// Membership test on the player list.
pub fn players_contains(v: &Vec<String>, k: &str) -> (r: bool)
    ensures
        r == views_of(v@).contains(k@),
{
    let n = v.len();
    let mut i: usize = 0;
    while i < n
        invariant
            n == v@.len(),
            i <= n,
            forall|j: int| 0 <= j < i ==> views_of(v@)[j] != k@,
        decreases n - i,
    {
        if str_eq(v[i].as_str(), k) {
            proof {
                assert(views_of(v@)[i as int] == k@);
            }
            return true;
        }
        i += 1;
    }
    proof {
        assert forall|j: int| 0 <= j < views_of(v@).len() implies views_of(v@)[j] != k@ by {}
    }
    false
}

/// Set insertion on the player list: appends `name` unless present.
pub fn players_insert(v: &mut Vec<String>, name: String)
    ensures
        views_of(final(v)@) == insert_unique(views_of(old(v)@), name@),
{
    if !players_contains(v, name.as_str()) {
        v.push(name);
        proof {
            assert(views_of(v@) =~= views_of(old(v)@).push(v@.last()@));
        }
    }
}

impl MatchData {
    /// Net kill count recorded for `name`, if any.
    pub fn kill_count(&self, name: &str) -> (r: Option<i32>)
        ensures
            match r {
                Some(x) => assoc_find(self@.kills, name@) == Some(x as int),
                None => assoc_find(self@.kills, name@) is None,
            },
    {
        counts_get(&self.kills, name)
    }

    /// Occurrence count recorded for the death cause `token`, if any.
    pub fn means_count(&self, token: &str) -> (r: Option<i32>)
        ensures
            match r {
                Some(x) => assoc_find(self@.kills_by_means, token@) == Some(x as int),
                None => assoc_find(self@.kills_by_means, token@) is None,
            },
    {
        counts_get(&self.kills_by_means, token)
    }

    /// Whether an info-change event has recorded `name` as a player.
    pub fn has_player(&self, name: &str) -> (r: bool)
        ensures
            r == self@.players.contains(name@),
    {
        players_contains(&self.players, name)
    }
}

/// Counter bounds under which every single-kill update fits its
/// machine integer: zeroed data satisfies them and every successful
/// event keeps them.
pub open spec fn data_bounded(d: MatchDataView) -> bool {
    &&& 0 <= d.total_kills <= i32::MAX
    &&& forall|i: int|
        0 <= i < d.kills.len() ==> -d.total_kills <= (#[trigger] d.kills[i]).1 <= d.total_kills
    &&& forall|i: int|
        0 <= i < d.kills_by_means.len() ==> 0 <= (#[trigger] d.kills_by_means[i]).1
            <= d.total_kills
}

} // verus!
