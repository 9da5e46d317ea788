//! The ranking reducer: folds every match's kill table into one
//! global, descending player ranking.
//!
//! Matches are walked in id order and each kill table in insertion
//! order; a player keeps the ranking slot of their first appearance
//! while their total accumulates, and a final stable sort orders the
//! slots by kills, descending, ties keeping their accumulated order.

use vstd::prelude::*;
use crate::match_data::{
    Match, MatchView, PlayerScore, PlayerScoreView, matches_view, scores_view,
};
use crate::text::{views_of, str_eq};

verus! {

/// Position of the first ranking slot bearing `name`, or the length
/// when no slot does.
pub open spec fn score_idx(r: Seq<PlayerScoreView>, name: Seq<char>) -> int
    decreases r.len(),
{
    if r.len() == 0 {
        0
    } else if r[0].name == name {
        0
    } else {
        1 + score_idx(r.drop_first(), name)
    }
}

/// What [`score_idx`] returns: the least position bearing `name`, or
/// the length when `name` is absent.
pub proof fn lemma_score_idx(r: Seq<PlayerScoreView>, name: Seq<char>)
    ensures
        0 <= score_idx(r, name) <= r.len(),
        score_idx(r, name) < r.len() ==> r[score_idx(r, name)].name == name,
        forall|j: int| 0 <= j < score_idx(r, name) ==> r[j].name != name,
    decreases r.len(),
{
    if r.len() > 0 && r[0].name != name {
        let t = r.drop_first();
        lemma_score_idx(t, name);
        assert forall|j: int| 0 <= j < score_idx(r, name) implies r[j].name != name by {
            if j > 0 {
                assert(t[j - 1] == r[j]);
            }
        }
    }
}

/// The set of names a vector of strings holds.
pub open spec fn seen_set(v: Seq<String>) -> Set<Seq<char>> {
    Set::new(|x: Seq<char>| views_of(v).contains(x))
}

/// One kill-table entry folded into the ranking state: a player seen
/// during this reduction accumulates into the first slot bearing the
/// name, an unseen player gains a fresh slot at the end.
pub open spec fn rank_entry(st: (Seq<PlayerScoreView>, Set<Seq<char>>), e: (Seq<char>, int)) -> (
    Seq<PlayerScoreView>,
    Set<Seq<char>>,
) {
    let (r, seen) = st;
    if seen.contains(e.0) {
        let i = score_idx(r, e.0);
        if i < r.len() {
            (r.update(i, PlayerScoreView { name: r[i].name, kills: r[i].kills + e.1 }), seen)
        } else {
            (r, seen)
        }
    } else {
        (r.push(PlayerScoreView { name: e.0, kills: e.1 }), seen.insert(e.0))
    }
}

/// The machine-integer condition of one fold step: an accumulating
/// slot must stay within its representation.
pub open spec fn rank_entry_ok(st: (Seq<PlayerScoreView>, Set<Seq<char>>), e: (Seq<char>, int)) -> bool {
    let (r, seen) = st;
    if seen.contains(e.0) {
        let i = score_idx(r, e.0);
        i < r.len() ==> i32::MIN <= r[i].kills + e.1 <= i32::MAX
    } else {
        true
    }
}

/// One kill table folded entry by entry, in insertion order.
pub open spec fn rank_kills(
    st: (Seq<PlayerScoreView>, Set<Seq<char>>),
    ks: Seq<(Seq<char>, int)>,
) -> (Seq<PlayerScoreView>, Set<Seq<char>>)
    decreases ks.len(),
{
    if ks.len() == 0 {
        st
    } else {
        rank_kills(rank_entry(st, ks[0]), ks.drop_first())
    }
}

/// Machine-integer condition of folding one kill table.
pub open spec fn rank_kills_ok(
    st: (Seq<PlayerScoreView>, Set<Seq<char>>),
    ks: Seq<(Seq<char>, int)>,
) -> bool
    decreases ks.len(),
{
    if ks.len() == 0 {
        true
    } else {
        rank_entry_ok(st, ks[0]) && rank_kills_ok(rank_entry(st, ks[0]), ks.drop_first())
    }
}

/// Every match's kill table folded, in match order.
pub open spec fn rank_matches(
    st: (Seq<PlayerScoreView>, Set<Seq<char>>),
    ms: Seq<MatchView>,
) -> (Seq<PlayerScoreView>, Set<Seq<char>>)
    decreases ms.len(),
{
    if ms.len() == 0 {
        st
    } else {
        rank_matches(rank_kills(st, ms[0].data.kills), ms.drop_first())
    }
}

/// Machine-integer condition of folding every match.
pub open spec fn rank_matches_ok(
    st: (Seq<PlayerScoreView>, Set<Seq<char>>),
    ms: Seq<MatchView>,
) -> bool
    decreases ms.len(),
{
    if ms.len() == 0 {
        true
    } else {
        rank_kills_ok(st, ms[0].data.kills) && rank_matches_ok(
            rank_kills(st, ms[0].data.kills),
            ms.drop_first(),
        )
    }
}

/// The machine-integer condition of the whole reduction: no slot's
/// accumulated total leaves its representation.  Anything the log
/// parser produces from moderate logs satisfies this.
pub open spec fn rank_ok(ms: Seq<MatchView>, r0: Seq<PlayerScoreView>) -> bool {
    rank_matches_ok((r0, Set::empty()), ms)
}

/// Descending order by kills.
pub open spec fn sorted_desc(r: Seq<PlayerScoreView>) -> bool {
    forall|i: int, j: int| 0 <= i < j < r.len() ==> r[i].kills >= r[j].kills
}

/// Stable insertion for the descending sort: the new score goes after
/// every score at least as high.
pub open spec fn insert_desc(e: PlayerScoreView, r: Seq<PlayerScoreView>) -> Seq<PlayerScoreView>
    decreases r.len(),
{
    if r.len() == 0 {
        seq![e]
    } else if r[0].kills >= e.kills {
        seq![r[0]] + insert_desc(e, r.drop_first())
    } else {
        seq![e] + r
    }
}

/// Stable sort by kills, descending: scores inserted left to right,
/// so equal totals keep their accumulated order.
pub open spec fn sort_desc(r: Seq<PlayerScoreView>) -> Seq<PlayerScoreView>
    decreases r.len(),
{
    if r.len() == 0 {
        seq![]
    } else {
        insert_desc(r.last(), sort_desc(r.drop_last()))
    }
}

/// The whole reduction: accumulate every match into the given initial
/// ranking, then order the slots.
pub open spec fn spec_ranking(ms: Seq<MatchView>, r0: Seq<PlayerScoreView>) -> Seq<PlayerScoreView> {
    sort_desc(rank_matches((r0, Set::empty()), ms).0)
}

/// [`insert_desc`] in terms of the insertion position: `e` lands at
/// the first position whose score is strictly lower.
pub proof fn lemma_insert_desc_pos(e: PlayerScoreView, r: Seq<PlayerScoreView>, p: int)
    requires
        0 <= p <= r.len(),
        forall|l: int| 0 <= l < p ==> r[l].kills >= e.kills,
        p < r.len() ==> r[p].kills < e.kills,
    ensures
        insert_desc(e, r) == r.insert(p, e),
    decreases r.len(),
{
    if r.len() == 0 {
        assert(insert_desc(e, r) =~= r.insert(0, e));
    } else if r[0].kills >= e.kills {
        assert(p >= 1);
        let t = r.drop_first();
        lemma_insert_desc_pos(e, t, p - 1);
        assert(seq![r[0]] + t.insert(p - 1, e) =~= r.insert(p, e));
    } else {
        assert(p == 0);
        assert(seq![e] + r =~= r.insert(0, e));
    }
}

/// Sum of the values one name contributes to one kill table.
pub open spec fn entry_total(ks: Seq<(Seq<char>, int)>, name: Seq<char>) -> int
    decreases ks.len(),
{
    if ks.len() == 0 {
        0
    } else {
        (if ks[0].0 == name {
            ks[0].1
        } else {
            0int
        }) + entry_total(ks.drop_first(), name)
    }
}

/// A player's kills summed over every match of the list.
pub open spec fn total_of(ms: Seq<MatchView>, name: Seq<char>) -> int
    decreases ms.len(),
{
    if ms.len() == 0 {
        0
    } else {
        entry_total(ms[0].data.kills, name) + total_of(ms.drop_first(), name)
    }
}

/// Sum of the kills the ranking's slots bearing `name` hold.
pub open spec fn slot_total(r: Seq<PlayerScoreView>, name: Seq<char>) -> int
    decreases r.len(),
{
    if r.len() == 0 {
        0
    } else {
        (if r[0].name == name {
            r[0].kills
        } else {
            0int
        }) + slot_total(r.drop_first(), name)
    }
}

/// The names the ranking's slots bear, in slot order.
pub open spec fn names_of(r: Seq<PlayerScoreView>) -> Seq<Seq<char>> {
    Seq::new(r.len(), |i: int| r[i].name)
}

/// Every name the reduction has marked seen owns a slot.
pub open spec fn seen_covered(st: (Seq<PlayerScoreView>, Set<Seq<char>>)) -> bool {
    forall|x: Seq<char>| st.1.contains(x) ==> names_of(st.0).contains(x)
}

/// Replacing a slot, name kept, moves that name's total by the
/// difference of the values.
pub proof fn lemma_slot_total_update(
    r: Seq<PlayerScoreView>,
    i: int,
    e: PlayerScoreView,
    name: Seq<char>,
)
    requires
        0 <= i < r.len(),
        e.name == r[i].name,
    ensures
        slot_total(r.update(i, e), name) == slot_total(r, name) + (if e.name == name {
            e.kills - r[i].kills
        } else {
            0int
        }),
    decreases r.len(),
{
    if i == 0 {
        assert(r.update(0, e).drop_first() =~= r.drop_first());
    } else {
        assert(r.update(i, e).drop_first() =~= r.drop_first().update(i - 1, e));
        lemma_slot_total_update(r.drop_first(), i - 1, e, name);
    }
}

/// Appending a slot adds its kills to its name's total.
pub proof fn lemma_slot_total_push(r: Seq<PlayerScoreView>, e: PlayerScoreView, name: Seq<char>)
    ensures
        slot_total(r.push(e), name) == slot_total(r, name) + (if e.name == name {
            e.kills
        } else {
            0int
        }),
    decreases r.len(),
{
    if r.len() == 0 {
        assert(r.push(e)[0] == e);
        assert(slot_total(Seq::<PlayerScoreView>::empty(), name) == 0);
        assert(r.push(e).drop_first() =~= Seq::<PlayerScoreView>::empty());
    } else {
        let t = r.drop_first();
        lemma_slot_total_push(t, e, name);
        assert(r.push(e)[0] == r[0]);
        assert(r.push(e).drop_first() =~= t.push(e));
        assert(slot_total(r.push(e), name) == (if r[0].name == name {
            r[0].kills
        } else {
            0int
        }) + slot_total(t.push(e), name));
    }
}

/// One fold step moves exactly the entry's value onto the entry's
/// name, and keeps every seen name covered by a slot.
pub proof fn lemma_rank_entry_total(
    st: (Seq<PlayerScoreView>, Set<Seq<char>>),
    e: (Seq<char>, int),
    name: Seq<char>,
)
    requires
        seen_covered(st),
    ensures
        ({
            let st2 = rank_entry(st, e);
            &&& seen_covered(st2)
            &&& slot_total(st2.0, name) == slot_total(st.0, name) + (if e.0 == name {
                e.1
            } else {
                0int
            })
        }),
{
    let (r, seen) = st;
    if seen.contains(e.0) {
        lemma_score_idx(r, e.0);
        let i = score_idx(r, e.0);
        if i == r.len() {
            let w = choose|w: int| 0 <= w < names_of(r).len() && names_of(r)[w] == e.0;
            assert(r[w].name == e.0);
            assert(false);
        }
        let slot2 = PlayerScoreView { name: r[i].name, kills: r[i].kills + e.1 };
        lemma_slot_total_update(r, i, slot2, name);
        assert(names_of(r.update(i, slot2)) =~= names_of(r));
    } else {
        let fresh = PlayerScoreView { name: e.0, kills: e.1 };
        lemma_slot_total_push(r, fresh, name);
        let r2 = r.push(fresh);
        assert(names_of(r2) =~= names_of(r).push(e.0));
        assert forall|x: Seq<char>| seen.insert(e.0).contains(x) implies names_of(r2).contains(
            x,
        ) by {
            if x == e.0 {
                assert(names_of(r2)[r.len() as int] == x);
            } else {
                let w = choose|w: int| 0 <= w < names_of(r).len() && names_of(r)[w] == x;
                assert(names_of(r2)[w] == x);
            }
        }
    }
}

/// Folding one kill table moves each name's total by exactly what the
/// table holds for it.
pub proof fn lemma_rank_kills_total(
    st: (Seq<PlayerScoreView>, Set<Seq<char>>),
    ks: Seq<(Seq<char>, int)>,
    name: Seq<char>,
)
    requires
        seen_covered(st),
    ensures
        ({
            let st2 = rank_kills(st, ks);
            &&& seen_covered(st2)
            &&& slot_total(st2.0, name) == slot_total(st.0, name) + entry_total(ks, name)
        }),
    decreases ks.len(),
{
    if ks.len() > 0 {
        lemma_rank_entry_total(st, ks[0], name);
        lemma_rank_kills_total(rank_entry(st, ks[0]), ks.drop_first(), name);
    }
}

/// Folding every match moves each name's total by the player's
/// cross-match sum.
pub proof fn lemma_rank_matches_total(
    st: (Seq<PlayerScoreView>, Set<Seq<char>>),
    ms: Seq<MatchView>,
    name: Seq<char>,
)
    requires
        seen_covered(st),
    ensures
        ({
            let st2 = rank_matches(st, ms);
            &&& seen_covered(st2)
            &&& slot_total(st2.0, name) == slot_total(st.0, name) + total_of(ms, name)
        }),
    decreases ms.len(),
{
    if ms.len() > 0 {
        lemma_rank_kills_total(st, ms[0].data.kills, name);
        lemma_rank_matches_total(rank_kills(st, ms[0].data.kills), ms.drop_first(), name);
    }
}

/// Stable insertion keeps each name's total, moved only by the new
/// slot itself.
pub proof fn lemma_insert_desc_total(e: PlayerScoreView, r: Seq<PlayerScoreView>, name: Seq<char>)
    ensures
        slot_total(insert_desc(e, r), name) == slot_total(r, name) + (if e.name == name {
            e.kills
        } else {
            0int
        }),
    decreases r.len(),
{
    if r.len() == 0 {
        assert(insert_desc(e, r) =~= seq![e]);
        assert(seq![e].drop_first() =~= Seq::<PlayerScoreView>::empty());
        assert(slot_total(Seq::<PlayerScoreView>::empty(), name) == 0);
    } else if r[0].kills >= e.kills {
        lemma_insert_desc_total(e, r.drop_first(), name);
        let w = insert_desc(e, r);
        assert(w[0] == r[0]);
        assert(w.drop_first() =~= insert_desc(e, r.drop_first()));
    } else {
        let w = insert_desc(e, r);
        assert(w[0] == e);
        assert(w.drop_first() =~= r);
    }
}

/// The last slot's contribution splits off the total.
pub proof fn lemma_slot_total_snoc(r: Seq<PlayerScoreView>, name: Seq<char>)
    requires
        r.len() > 0,
    ensures
        slot_total(r, name) == slot_total(r.drop_last(), name) + (if r.last().name == name {
            r.last().kills
        } else {
            0int
        }),
    decreases r.len(),
{
    if r.len() == 1 {
        assert(r.drop_last() =~= Seq::<PlayerScoreView>::empty());
        assert(r.drop_first() =~= Seq::<PlayerScoreView>::empty());
        assert(slot_total(Seq::<PlayerScoreView>::empty(), name) == 0);
    } else {
        let t = r.drop_first();
        lemma_slot_total_snoc(t, name);
        assert(t.last() == r.last());
        assert(r.drop_last()[0] == r[0]);
        assert(r.drop_last().drop_first() =~= t.drop_last());
        assert(slot_total(r.drop_last(), name) == (if r[0].name == name {
            r[0].kills
        } else {
            0int
        }) + slot_total(t.drop_last(), name));
    }
}

/// The sort is a rearrangement: each name's total is unchanged.
pub proof fn lemma_sort_desc_total(r: Seq<PlayerScoreView>, name: Seq<char>)
    ensures
        slot_total(sort_desc(r), name) == slot_total(r, name),
    decreases r.len(),
{
    if r.len() > 0 {
        lemma_sort_desc_total(r.drop_last(), name);
        lemma_insert_desc_total(r.last(), sort_desc(r.drop_last()), name);
        lemma_slot_total_snoc(r, name);
    }
}

/// Removing one match removes exactly its contribution from a
/// player's cross-match total.
pub proof fn lemma_total_of_remove(ms: Seq<MatchView>, i: int, name: Seq<char>)
    requires
        0 <= i < ms.len(),
    ensures
        total_of(ms, name) == total_of(ms.remove(i), name) + entry_total(ms[i].data.kills, name),
    decreases ms.len(),
{
    if i == 0 {
        assert(ms.remove(0) =~= ms.drop_first());
    } else {
        assert(ms.remove(i).drop_first() =~= ms.drop_first().remove(i - 1));
        lemma_total_of_remove(ms.drop_first(), i - 1, name);
        assert(ms.remove(i)[0] == ms[0]);
    }
}

/// Rearranging the match list leaves every player's cross-match total
/// unchanged.
pub proof fn lemma_total_of_permutation(ms1: Seq<MatchView>, ms2: Seq<MatchView>, name: Seq<char>)
    requires
        ms1.to_multiset() == ms2.to_multiset(),
    ensures
        total_of(ms1, name) == total_of(ms2, name),
    decreases ms1.len(),
{
    broadcast use vstd::seq_lib::group_to_multiset_ensures;

    if ms1.len() == 0 {
        assert(ms1.to_multiset().len() == ms1.len());
        assert(ms2.to_multiset().len() == ms2.len());
        assert(ms2.len() == 0);
    } else {
        let x = ms1[0];
        assert(ms1.contains(x));
        assert(ms2.to_multiset().count(x) > 0);
        assert(ms2.contains(x));
        let j = choose|j: int| 0 <= j < ms2.len() && ms2[j] == x;
        assert(ms1.remove(0).to_multiset() =~= ms1.to_multiset().remove(x));
        assert(ms2.remove(j).to_multiset() =~= ms2.to_multiset().remove(x));
        lemma_total_of_permutation(ms1.remove(0), ms2.remove(j), name);
        lemma_total_of_remove(ms1, 0, name);
        lemma_total_of_remove(ms2, j, name);
    }
}

/// The reduction from an empty initial ranking gives each slot
/// exactly the player's cross-match total.
pub proof fn lemma_ranking_totals(ms: Seq<MatchView>, name: Seq<char>)
    ensures
        slot_total(spec_ranking(ms, Seq::empty()), name) == total_of(ms, name),
{
    let st0 = (Seq::<PlayerScoreView>::empty(), Set::<Seq<char>>::empty());
    lemma_rank_matches_total(st0, ms, name);
    lemma_sort_desc_total(rank_matches(st0, ms).0, name);
    assert(slot_total(Seq::<PlayerScoreView>::empty(), name) == 0);
}

/// Ranking reorder-invariance: feeding the matches in another order
/// cannot change any player's total in the reduced ranking, only the
/// order of slots whose totals tie.
pub proof fn lemma_ranking_reorder(ms1: Seq<MatchView>, ms2: Seq<MatchView>, name: Seq<char>)
    requires
        ms1.to_multiset() == ms2.to_multiset(),
    ensures
        slot_total(spec_ranking(ms1, Seq::empty()), name) == slot_total(
            spec_ranking(ms2, Seq::empty()),
            name,
        ),
{
    lemma_ranking_totals(ms1, name);
    lemma_ranking_totals(ms2, name);
    lemma_total_of_permutation(ms1, ms2, name);
}

/// Position of the first slot whose score is strictly below `ek`, or
/// the length when none is.
pub open spec fn first_lower(r: Seq<PlayerScoreView>, ek: int) -> int
    decreases r.len(),
{
    if r.len() == 0 {
        0
    } else if r[0].kills < ek {
        0
    } else {
        1 + first_lower(r.drop_first(), ek)
    }
}

/// What [`first_lower`] returns.
pub proof fn lemma_first_lower(r: Seq<PlayerScoreView>, ek: int)
    ensures
        0 <= first_lower(r, ek) <= r.len(),
        first_lower(r, ek) < r.len() ==> r[first_lower(r, ek)].kills < ek,
        forall|l: int| 0 <= l < first_lower(r, ek) ==> r[l].kills >= ek,
    decreases r.len(),
{
    if r.len() > 0 && r[0].kills >= ek {
        let t = r.drop_first();
        lemma_first_lower(t, ek);
        assert forall|l: int| 0 <= l < first_lower(r, ek) implies r[l].kills >= ek by {
            if l > 0 {
                assert(t[l - 1] == r[l]);
            }
        }
    }
}

/// Stable insertion into a descending ranking keeps it descending.
pub proof fn lemma_insert_desc_sorted(e: PlayerScoreView, r: Seq<PlayerScoreView>)
    requires
        sorted_desc(r),
    ensures
        sorted_desc(insert_desc(e, r)),
{
    lemma_first_lower(r, e.kills);
    let p = first_lower(r, e.kills);
    lemma_insert_desc_pos(e, r, p);
    let r2 = r.insert(p, e);
    r.insert_ensures(p, e);
    assert forall|i: int, j: int| 0 <= i < j < r2.len() implies r2[i].kills >= r2[j].kills by {
        if j < p {
            assert(r2[i] == r[i] && r2[j] == r[j]);
        } else if i < p && j == p {
            assert(r2[i] == r[i] && r2[j] == e);
        } else if i < p && j > p {
            assert(r2[i] == r[i] && r2[j] == r[j - 1]);
        } else if i == p && j > p {
            assert(r2[i] == e && r2[j] == r[j - 1]);
            assert(r[p].kills < e.kills);
            if j - 1 > p {
                assert(r[p].kills >= r[j - 1].kills);
            }
        } else if i > p {
            assert(r2[i] == r[i - 1] && r2[j] == r[j - 1]);
        }
    }
}

/// The reduction's final ordering is descending by kills.
pub proof fn lemma_sort_desc_sorted(r: Seq<PlayerScoreView>)
    ensures
        sorted_desc(sort_desc(r)),
    decreases r.len(),
{
    if r.len() > 0 {
        lemma_sort_desc_sorted(r.drop_last());
        lemma_insert_desc_sorted(r.last(), sort_desc(r.drop_last()));
    }
}

/// Position of the first ranking slot bearing `name`, as the
/// accumulator looks it up.
fn find_score_idx(r: &Vec<PlayerScore>, name: &str) -> (res: Option<usize>)
    ensures
        ({
            let i = score_idx(scores_view(r@), name@);
            match res {
                Some(j) => i == j && i < r@.len(),
                None => i == r@.len(),
            }
        }),
{
    let ghost s = scores_view(r@);
    proof {
        lemma_score_idx(s, name@);
    }
    let n = r.len();
    let mut i: usize = 0;
    while i < n
        invariant
            n == r@.len(),
            i <= n,
            s == scores_view(r@),
            forall|j: int| 0 <= j < i ==> s[j].name != name@,
        decreases n - i,
    {
        if str_eq(r[i].name.as_str(), name) {
            proof {
                assert(s[i as int].name == name@);
                assert(score_idx(s, name@) == i as int);
            }
            return Some(i);
        }
        i += 1;
    }
    proof {
        assert(score_idx(s, name@) == s.len());
    }
    None
}

/// Folds every match's kill table into `ranking`, then orders it by
/// kills, descending, stable: ties keep their first-appearance order.
/// The result is a pure function of the match list and the initial
/// ranking, so equal inputs always give the same ordered output.
pub fn process_ranking(matches: &mut Vec<Match>, ranking: &mut Vec<PlayerScore>)
    requires
        rank_ok(matches_view(old(matches)@), scores_view(old(ranking)@)),
    ensures
        final(matches)@ == old(matches)@,
        scores_view(final(ranking)@) == spec_ranking(
            matches_view(old(matches)@),
            scores_view(old(ranking)@),
        ),
        sorted_desc(scores_view(final(ranking)@)),
{
    let ghost ms = matches_view(old(matches)@);
    let ghost st0 = (scores_view(old(ranking)@), Set::<Seq<char>>::empty());
    let mut seen: Vec<String> = Vec::new();
    proof {
        assert(seen_set(seen@) =~= Set::<Seq<char>>::empty());
        assert(ms.skip(0) =~= ms);
    }
    let n = matches.len();
    let mut mi: usize = 0;
    while mi < n
        invariant
            matches@ == old(matches)@,
            n == matches@.len(),
            mi <= n,
            rank_matches(st0, ms) == rank_matches(
                (scores_view(ranking@), seen_set(seen@)),
                ms.skip(mi as int),
            ),
            rank_matches_ok((scores_view(ranking@), seen_set(seen@)), ms.skip(mi as int)),
        decreases n - mi,
    {
        let ghost cur = (scores_view(ranking@), seen_set(seen@));
        let ghost ks = ms[mi as int].data.kills;
        proof {
            assert(ms.skip(mi as int)[0] == ms[mi as int]);
            assert(ms.skip(mi as int).drop_first() =~= ms.skip(mi as int + 1));
            assert(ks.skip(0) =~= ks);
        }
        let kn = matches[mi].data.kills.len();
        let mut ki: usize = 0;
        while ki < kn
            invariant
                matches@ == old(matches)@,
                mi < n == matches@.len(),
                kn == matches@[mi as int].data.kills@.len(),
                ki <= kn,
                ks == ms[mi as int].data.kills,
                rank_kills(cur, ks) == rank_kills(
                    (scores_view(ranking@), seen_set(seen@)),
                    ks.skip(ki as int),
                ),
                rank_kills_ok((scores_view(ranking@), seen_set(seen@)), ks.skip(ki as int)),
            decreases kn - ki,
        {
            let ghost inner = (scores_view(ranking@), seen_set(seen@));
            proof {
                assert(ks.skip(ki as int)[0] == ks[ki as int]);
                assert(ks.skip(ki as int).drop_first() =~= ks.skip(ki as int + 1));
            }
            let name = matches[mi].data.kills[ki].0.clone();
            let v = matches[mi].data.kills[ki].1;
            proof {
                assert(ks[ki as int] == (name@, v as int));
            }
            if crate::match_data::players_contains(&seen, name.as_str()) {
                match find_score_idx(ranking, name.as_str()) {
                    Some(j) => {
                        let slot_name = ranking[j].name.clone();
                        let old_kills = ranking[j].kills;
                        ranking[j] = PlayerScore { name: slot_name, kills: old_kills + v };
                        proof {
                            assert(scores_view(ranking@) =~= rank_entry(
                                inner,
                                ks[ki as int],
                            ).0);
                        }
                    },
                    None => {},
                }
            } else {
                let ghost sv_old = views_of(seen@);
                ranking.push(PlayerScore { name: name.clone(), kills: v });
                seen.push(name);
                proof {
                    let nm = ks[ki as int].0;
                    let sv_new = views_of(seen@);
                    assert(scores_view(ranking@) =~= inner.0.push(
                        PlayerScoreView { name: nm, kills: ks[ki as int].1 },
                    ));
                    assert(sv_new =~= sv_old.push(nm));
                    assert forall|x: Seq<char>| #[trigger] sv_new.contains(x) implies (
                    sv_old.contains(x) || x == nm) by {
                        let i = choose|i: int| 0 <= i < sv_new.len() && sv_new[i] == x;
                        if i < sv_old.len() {
                            assert(sv_old[i] == x);
                        }
                    }
                    assert forall|x: Seq<char>| sv_old.contains(x) || x == nm implies #[trigger] sv_new.contains(
                        x,
                    ) by {
                        if x == nm {
                            assert(sv_new[sv_old.len() as int] == x);
                        } else {
                            let i = choose|i: int| 0 <= i < sv_old.len() && sv_old[i] == x;
                            assert(sv_new[i] == x);
                        }
                    }
                    assert(seen_set(seen@) =~= inner.1.insert(nm));
                }
            }
            proof {
                assert((scores_view(ranking@), seen_set(seen@)) == rank_entry(
                    inner,
                    ks[ki as int],
                ));
            }
            ki += 1;
        }
        proof {
            assert(ks.skip(kn as int) =~= Seq::<(Seq<char>, int)>::empty());
        }
        mi += 1;
    }
    proof {
        assert(ms.skip(n as int) =~= Seq::<MatchView>::empty());
        assert(rank_matches(st0, ms).0 == scores_view(ranking@));
    }
    let mut sorted: Vec<PlayerScore> = Vec::new();
    let ghost acc = scores_view(ranking@);
    proof {
        assert(acc.take(0) =~= Seq::<PlayerScoreView>::empty());
        assert(scores_view(sorted@) =~= sort_desc(acc.take(0)));
    }
    let rn = ranking.len();
    let mut k: usize = 0;
    while k < rn
        invariant
            rn == ranking@.len(),
            k <= rn,
            acc == scores_view(ranking@),
            scores_view(sorted@) == sort_desc(acc.take(k as int)),
        decreases rn - k,
    {
        let e = PlayerScore { name: ranking[k].name.clone(), kills: ranking[k].kills };
        let ghost before = scores_view(sorted@);
        let sn = sorted.len();
        let mut j: usize = 0;
        while j < sn && sorted[j].kills >= e.kills
            invariant
                sn == sorted@.len(),
                j <= sn,
                before == scores_view(sorted@),
                forall|l: int| 0 <= l < j ==> before[l].kills >= e@.kills,
            decreases sn - j,
        {
            j += 1;
        }
        sorted.insert(j, e);
        proof {
            lemma_insert_desc_pos(
                PlayerScoreView { name: acc[k as int].name, kills: acc[k as int].kills },
                before,
                j as int,
            );
            assert(scores_view(sorted@) =~= before.insert(
                j as int,
                PlayerScoreView { name: acc[k as int].name, kills: acc[k as int].kills },
            ));
            assert(acc.take(k as int + 1).drop_last() =~= acc.take(k as int));
            assert(acc.take(k as int + 1).last() == acc[k as int]);
        }
        k += 1;
    }
    proof {
        assert(acc.take(rn as int) =~= acc);
        lemma_sort_desc_sorted(acc);
    }
    *ranking = sorted;
}

} // verus!
