//! The event interpreter: line classification, field extraction and the
//! match accumulator.
//!
//! Lines stream once through [`process_events_matches`]; an `InitGame:`
//! marker opens a new match, and kill or player-info events mutate the
//! match opened last.  Events that arrive before any match has started
//! are dropped silently, since there is no match to attach them to.
//! Any extraction failure aborts the run with an error naming the stage
//! and the offending line.

use vstd::prelude::*;
use vstd::string::StringExecFns;
use crate::error::{LogError, LogErrorView, wrap_msg};
use crate::match_data::{
    Match, MatchData, MatchView, MatchDataView, empty_match_data, matches_view, assoc_bump,
    insert_unique, data_bounded, counts_bump, players_insert, lemma_key_idx, lemma_bump_bounds,
    sum_counts, lemma_sum_bump,
};
use crate::means_of_death::{MeansOfDeath, is_recognized_means};
use crate::text::{
    str_has, str_contains, str_index_of, find_idx, lemma_find_from, last_token, last_token_of,
    spec_lines, lines_of, views_of, match_at,
};

verus! {

/// The tag the line classifier assigns to one raw line.
#[derive(Debug, Clone, Copy, PartialEq, Eq, Structural)]
pub enum LineKind {
    MatchStart,
    KillEvent,
    PlayerInfoChanged,
    Other,
}

/// Classification by substring containment, in fixed priority order:
/// a match-start marker wins over a kill marker, which wins over a
/// player-info marker; anything else is ignored.
pub open spec fn spec_classify(l: Seq<char>) -> LineKind {
    if str_has(l, "InitGame:"@) {
        LineKind::MatchStart
    } else if str_has(l, "Kill:"@) {
        LineKind::KillEvent
    } else if str_has(l, "ClientUserinfoChanged"@) {
        LineKind::PlayerInfoChanged
    } else {
        LineKind::Other
    }
}

/// Tags a raw line.  Classification is a pure function of the line's
/// text: calling this twice on equal text gives equal tags.
pub fn classify_line(line: &str) -> (r: LineKind)
    ensures
        r == spec_classify(line@),
{
    if str_contains(line, "InitGame:") {
        LineKind::MatchStart
    } else if str_contains(line, "Kill:") {
        LineKind::KillEvent
    } else if str_contains(line, "ClientUserinfoChanged") {
        LineKind::PlayerInfoChanged
    } else {
        LineKind::Other
    }
}

/// Effect of a match-start marker: a fresh match with the next 1-based
/// identifier, unless the identifier space is exhausted.
pub open spec fn spec_init_game(ms: Seq<MatchView>) -> (Seq<MatchView>, Option<LogErrorView>) {
    if ms.len() >= i32::MAX {
        (ms, Some(LogErrorView::InitGameError("Maximum number of matches reached."@)))
    } else {
        (ms.push(MatchView { id: ms.len() as int + 1, data: empty_match_data() }), None)
    }
}

/// Opens a new match with the next sequential identifier and zeroed
/// statistics.  Fails only when the identifier space is exhausted.
pub fn process_init_game(matches: &mut Vec<Match>) -> (r: Result<(), LogError>)
    ensures
        ({
            let (ms2, err) = spec_init_game(matches_view(old(matches)@));
            &&& matches_view(final(matches)@) == ms2
            &&& match r {
                Ok(()) => err is None,
                Err(e) => err == Some(e@),
            }
        }),
{
    if matches.len() >= (i32::MAX as usize) {
        return Err(LogError::InitGameError("Maximum number of matches reached.".to_owned()));
    }
    let id = (matches.len() + 1) as i32;
    matches.push(Match { id, data: MatchData::default() });
    proof {
        assert(matches_view(matches@) =~= matches_view(old(matches)@).push(
            MatchView { id: old(matches)@.len() as int + 1, data: empty_match_data() },
        ));
    }
    Ok(())
}

/// The anchors of a player-info line: the name stands strictly between
/// the first `n\` and the first `\t\`.
pub open spec fn spec_client_changed(l: Seq<char>, d: MatchDataView) -> (
    MatchDataView,
    Option<LogErrorView>,
) {
    match find_idx(l, "n\\"@) {
        None => (
            d,
            Some(
                LogErrorView::ClientUserinfoChangedError(
                    "Player name anchors not found in the client changed line."@,
                ),
            ),
        ),
        Some(ns) => match find_idx(l, "\\t\\"@) {
            None => (
                d,
                Some(
                    LogErrorView::ClientUserinfoChangedError(
                        "Player name anchors not found in the client changed line."@,
                    ),
                ),
            ),
            Some(ne) => if ne < ns + 2 {
                (
                    d,
                    Some(
                        LogErrorView::ClientUserinfoChangedError(
                            "Player name anchors not found in the client changed line."@,
                        ),
                    ),
                )
            } else if ne == ns + 2 {
                (
                    d,
                    Some(
                        LogErrorView::EmptyPlayerName(
                            "Empty player name in the client changed line."@,
                        ),
                    ),
                )
            } else {
                (
                    MatchDataView {
                        players: insert_unique(d.players, l.subrange(ns + 2, ne)),
                        ..d
                    },
                    None,
                )
            },
        },
    }
}

/// Records the player a `ClientUserinfoChanged` line names.  The name
/// is the text strictly between the first `n\` and the first `\t\`
/// anchor; a missing or misordered anchor, or an empty name, rejects
/// the line.
pub fn process_client_changed_line(line: &str, match_data: &mut MatchData) -> (r: Result<
    (),
    LogError,
>)
    ensures
        ({
            let (d2, err) = spec_client_changed(line@, old(match_data)@);
            &&& final(match_data)@ == d2
            &&& match r {
                Ok(()) => err is None,
                Err(e) => err == Some(e@),
            }
        }),
{
    proof {
        lemma_find_from(line@, "n\\"@, 0);
        lemma_find_from(line@, "\\t\\"@, 0);
    }
    let ns = match str_index_of(line, "n\\") {
        Some(ns) => ns,
        None => {
            proof {
                if find_idx(line@, "n\\"@) is Some {
                    let x = find_idx(line@, "n\\"@)->Some_0;
                    assert(match_at(line@, "n\\"@, x));
                    assert(false);
                }
            }
            return Err(
                LogError::ClientUserinfoChangedError(
                    "Player name anchors not found in the client changed line.".to_owned(),
                ),
            );
        },
    };
    let ne = match str_index_of(line, "\\t\\") {
        Some(ne) => ne,
        None => {
            proof {
                if find_idx(line@, "\\t\\"@) is Some {
                    let x = find_idx(line@, "\\t\\"@)->Some_0;
                    assert(match_at(line@, "\\t\\"@, x));
                    assert(false);
                }
            }
            return Err(
                LogError::ClientUserinfoChangedError(
                    "Player name anchors not found in the client changed line.".to_owned(),
                ),
            );
        },
    };
    proof {
        assert(find_idx(line@, "n\\"@) == Some(ns as int));
        assert(find_idx(line@, "\\t\\"@) == Some(ne as int));
    }
    if ne < 2 || ne - 2 < ns {
        return Err(
            LogError::ClientUserinfoChangedError(
                "Player name anchors not found in the client changed line.".to_owned(),
            ),
        );
    }
    if ne - 2 == ns {
        return Err(
            LogError::EmptyPlayerName("Empty player name in the client changed line.".to_owned()),
        );
    }
    let name = line.substring_char(ns + 2, ne);
    players_insert(&mut match_data.players, name.to_owned());
    proof {
        let (d2, err) = spec_client_changed(line@, old(match_data)@);
        assert(match_data@ == d2);
    }
    Ok(())
}

/// The pattern that names `name` as the victim of a world kill.
pub open spec fn world_pattern(name: Seq<char>) -> Seq<char> {
    "<world> killed "@ + name + " by"@
}

/// The pattern that names `name` as the killer of a player kill.
pub open spec fn player_pattern(name: Seq<char>) -> Seq<char> {
    name + " killed"@
}

/// Position of the first known player the line names as the world's
/// victim, or the player count when none matches.
pub open spec fn victim_idx(players: Seq<Seq<char>>, l: Seq<char>) -> int
    decreases players.len(),
{
    if players.len() == 0 {
        0
    } else if str_has(l, world_pattern(players[0])) {
        0
    } else {
        1 + victim_idx(players.drop_first(), l)
    }
}

/// What [`victim_idx`] returns: the least matching position, or the
/// player count when no known player is named as the victim.
pub proof fn lemma_victim_idx(players: Seq<Seq<char>>, l: Seq<char>)
    ensures
        0 <= victim_idx(players, l) <= players.len(),
        victim_idx(players, l) < players.len() ==> str_has(
            l,
            world_pattern(players[victim_idx(players, l)]),
        ),
        forall|j: int| 0 <= j < victim_idx(players, l) ==> !str_has(l, world_pattern(players[j])),
    decreases players.len(),
{
    if players.len() > 0 && !str_has(l, world_pattern(players[0])) {
        let t = players.drop_first();
        lemma_victim_idx(t, l);
        assert forall|j: int| 0 <= j < victim_idx(players, l) implies !str_has(
            l,
            world_pattern(players[j]),
        ) by {
            if j > 0 {
                assert(t[j - 1] == players[j]);
            }
        }
    }
}

/// Position of the first known player the line names as the killer,
/// or the player count when none matches.
pub open spec fn killer_idx(players: Seq<Seq<char>>, l: Seq<char>) -> int
    decreases players.len(),
{
    if players.len() == 0 {
        0
    } else if str_has(l, player_pattern(players[0])) {
        0
    } else {
        1 + killer_idx(players.drop_first(), l)
    }
}

/// What [`killer_idx`] returns: the least matching position, or the
/// player count when no known player is named as the killer.
pub proof fn lemma_killer_idx(players: Seq<Seq<char>>, l: Seq<char>)
    ensures
        0 <= killer_idx(players, l) <= players.len(),
        killer_idx(players, l) < players.len() ==> str_has(
            l,
            player_pattern(players[killer_idx(players, l)]),
        ),
        forall|j: int| 0 <= j < killer_idx(players, l) ==> !str_has(l, player_pattern(players[j])),
    decreases players.len(),
{
    if players.len() > 0 && !str_has(l, player_pattern(players[0])) {
        let t = players.drop_first();
        lemma_killer_idx(t, l);
        assert forall|j: int| 0 <= j < killer_idx(players, l) implies !str_has(
            l,
            player_pattern(players[j]),
        ) by {
            if j > 0 {
                assert(t[j - 1] == players[j]);
            }
        }
    }
}

/// Effect of a world kill: the victim loses one net kill.
pub open spec fn spec_world_kill(l: Seq<char>, d: MatchDataView) -> (
    MatchDataView,
    Option<LogErrorView>,
) {
    let i = victim_idx(d.players, l);
    if i < d.players.len() {
        (MatchDataView { kills: assoc_bump(d.kills, d.players[i], -1), ..d }, None)
    } else {
        (d, Some(LogErrorView::VictimName("Unable to find the Victim Name"@)))
    }
}

/// Effect of a player kill: the killer gains one net kill.
pub open spec fn spec_player_kill(l: Seq<char>, d: MatchDataView) -> (
    MatchDataView,
    Option<LogErrorView>,
) {
    let i = killer_idx(d.players, l);
    if i < d.players.len() {
        (MatchDataView { kills: assoc_bump(d.kills, d.players[i], 1), ..d }, None)
    } else {
        (d, Some(LogErrorView::KillerName("Unable to find the Killer Name"@)))
    }
}

/// Effect of the death-cause gate: the line's last token must belong
/// to the closed enumeration, and its occurrence count rises by one.
pub open spec fn spec_insert_means(l: Seq<char>, d: MatchDataView) -> (
    MatchDataView,
    Option<LogErrorView>,
) {
    match last_token(l) {
        None => (
            d,
            Some(LogErrorView::InsertKillMeanError("Unable to extract the mean from line: "@ + l)),
        ),
        Some(tok) => if is_recognized_means(tok) {
            (MatchDataView { kills_by_means: assoc_bump(d.kills_by_means, tok, 1), ..d }, None)
        } else {
            (
                d,
                Some(
                    LogErrorView::InsertKillMeanError(
                        "Mean '"@ + tok + "' not recognized as a valid means of death: "@ + l,
                    ),
                ),
            )
        },
    }
}

/// A kill the world inflicted, recognized by its literal marker.
pub open spec fn is_world_kill_line(l: Seq<char>) -> bool {
    str_has(l, "<world> killed"@)
}

/// Effect of one kill line: attribute the kill, gate the death cause,
/// then count the line unconditionally.  A failed stage aborts the
/// line, keeping the updates of the stages before it.
pub open spec fn spec_kill_line(l: Seq<char>, d: MatchDataView) -> (
    MatchDataView,
    Option<LogErrorView>,
) {
    if d.total_kills == i32::MAX {
        (d, Some(LogErrorView::KillError("Maximum number of kills reached."@)))
    } else {
        let (d1, e1) = if is_world_kill_line(l) {
            spec_world_kill(l, d)
        } else {
            spec_player_kill(l, d)
        };
        if e1 is Some {
            (d1, e1)
        } else {
            let (d2, e2) = spec_insert_means(l, d1);
            if e2 is Some {
                (d2, e2)
            } else {
                (MatchDataView { total_kills: d2.total_kills + 1, ..d2 }, None)
            }
        }
    }
}

/// Attributes a world kill: the victim is the first known player `p`
/// such that the line contains `<world> killed p by`, and loses one
/// net kill.  Fails when no known player matches.
pub fn parse_world_kill(line: &str, match_data: &mut MatchData) -> (r: Result<(), LogError>)
    requires
        forall|i: int|
            0 <= i < old(match_data)@.kills.len() ==> (#[trigger] old(match_data)@.kills[i]).1
                > i32::MIN,
    ensures
        ({
            let (d2, err) = spec_world_kill(line@, old(match_data)@);
            &&& final(match_data)@ == d2
            &&& match r {
                Ok(()) => err is None,
                Err(e) => err == Some(e@),
            }
        }),
{
    let ghost ps = old(match_data)@.players;
    proof {
        lemma_victim_idx(ps, line@);
    }
    let n = match_data.players.len();
    let mut i: usize = 0;
    while i < n
        invariant
            *match_data == *old(match_data),
            n == match_data.players@.len(),
            i <= n,
            forall|j: int| 0 <= j < i ==> !str_has(line@, world_pattern(ps[j])),
        decreases n - i,
    {
        let pat = "<world> killed ".to_owned().concat(match_data.players[i].as_str()).concat(
            " by",
        );
        proof {
            assert(match_data.players@[i as int]@ == ps[i as int]);
            assert(pat@ == world_pattern(ps[i as int]));
        }
        if str_contains(line, pat.as_str()) {
            proof {
                assert(victim_idx(ps, line@) == i as int);
            }
            let victim = match_data.players[i].clone();
            proof {
                lemma_key_idx(old(match_data)@.kills, victim@);
            }
            counts_bump(&mut match_data.kills, victim.as_str(), -1);
            proof {
                let (d2, err) = spec_world_kill(line@, old(match_data)@);
                assert(match_data@ == d2);
            }
            return Ok(());
        }
        i += 1;
    }
    proof {
        assert(victim_idx(ps, line@) == ps.len());
    }
    Err(LogError::VictimName("Unable to find the Victim Name".to_owned()))
}

/// Attributes a player kill: the killer is the first known player `p`
/// such that the line contains `p killed`, and gains one net kill.
/// Fails when no known player matches.
pub fn parse_player_kill(line: &str, match_data: &mut MatchData) -> (r: Result<(), LogError>)
    requires
        forall|i: int|
            0 <= i < old(match_data)@.kills.len() ==> (#[trigger] old(match_data)@.kills[i]).1
                < i32::MAX,
    ensures
        ({
            let (d2, err) = spec_player_kill(line@, old(match_data)@);
            &&& final(match_data)@ == d2
            &&& match r {
                Ok(()) => err is None,
                Err(e) => err == Some(e@),
            }
        }),
{
    let ghost ps = old(match_data)@.players;
    proof {
        lemma_killer_idx(ps, line@);
    }
    let n = match_data.players.len();
    let mut i: usize = 0;
    while i < n
        invariant
            *match_data == *old(match_data),
            n == match_data.players@.len(),
            i <= n,
            forall|j: int| 0 <= j < i ==> !str_has(line@, player_pattern(ps[j])),
        decreases n - i,
    {
        let pat = match_data.players[i].clone().concat(" killed");
        proof {
            assert(match_data.players@[i as int]@ == ps[i as int]);
            assert(pat@ == player_pattern(ps[i as int]));
        }
        if str_contains(line, pat.as_str()) {
            proof {
                assert(killer_idx(ps, line@) == i as int);
            }
            let killer = match_data.players[i].clone();
            proof {
                lemma_key_idx(old(match_data)@.kills, killer@);
            }
            counts_bump(&mut match_data.kills, killer.as_str(), 1);
            proof {
                let (d2, err) = spec_player_kill(line@, old(match_data)@);
                assert(match_data@ == d2);
            }
            return Ok(());
        }
        i += 1;
    }
    proof {
        assert(killer_idx(ps, line@) == ps.len());
    }
    Err(LogError::KillerName("Unable to find the Killer Name".to_owned()))
}

/// Gates the line's last whitespace-delimited token through the
/// means-of-death validator and counts its occurrence.  Fails on a
/// line of pure whitespace and on a token outside the enumeration.
pub fn insert_kills_by_means(line: &str, match_data: &mut MatchData) -> (r: Result<(), LogError>)
    requires
        forall|i: int|
            0 <= i < old(match_data)@.kills_by_means.len() ==> (#[trigger] old(
                match_data,
            )@.kills_by_means[i]).1 < i32::MAX,
    ensures
        ({
            let (d2, err) = spec_insert_means(line@, old(match_data)@);
            &&& final(match_data)@ == d2
            &&& match r {
                Ok(()) => err is None,
                Err(e) => err == Some(e@),
            }
        }),
{
    match last_token_of(line) {
        None => Err(
            LogError::InsertKillMeanError(
                "Unable to extract the mean from line: ".to_owned().concat(line),
            ),
        ),
        Some(tok) => {
            match MeansOfDeath::from_str(tok) {
                Some(_) => {
                    proof {
                        lemma_key_idx(old(match_data)@.kills_by_means, tok@);
                    }
                    counts_bump(&mut match_data.kills_by_means, tok, 1);
                    proof {
                        let (d2, err) = spec_insert_means(line@, old(match_data)@);
                        assert(match_data@ == d2);
                    }
                    Ok(())
                },
                None => Err(
                    LogError::InsertKillMeanError(
                        "Mean '".to_owned().concat(tok).concat(
                            "' not recognized as a valid means of death: ",
                        ).concat(line),
                    ),
                ),
            }
        },
    }
}

/// Interprets one kill line: attributes the kill to the world's victim
/// or to the killer, gates the death cause, then counts the line in
/// `total_kills`.  A failed stage aborts the line with that stage's
/// error, keeping the updates already made; at the representation
/// limit of `total_kills` the line is rejected outright.
pub fn process_kill_line(line: &str, match_data: &mut MatchData) -> (r: Result<(), LogError>)
    requires
        old(match_data)@.total_kills < i32::MAX ==> ({
            &&& forall|i: int|
                0 <= i < old(match_data)@.kills.len() ==> i32::MIN < (#[trigger] old(
                    match_data,
                )@.kills[i]).1 < i32::MAX
            &&& forall|i: int|
                0 <= i < old(match_data)@.kills_by_means.len() ==> (#[trigger] old(
                    match_data,
                )@.kills_by_means[i]).1 < i32::MAX
        }),
    ensures
        ({
            let (d2, err) = spec_kill_line(line@, old(match_data)@);
            &&& final(match_data)@ == d2
            &&& match r {
                Ok(()) => err is None,
                Err(e) => err == Some(e@),
            }
        }),
{
    if match_data.total_kills == i32::MAX {
        return Err(LogError::KillError("Maximum number of kills reached.".to_owned()));
    }
    let r1 = if str_contains(line, "<world> killed") {
        parse_world_kill(line, match_data)
    } else {
        parse_player_kill(line, match_data)
    };
    match r1 {
        Err(e) => {
            return Err(e);
        },
        Ok(()) => {},
    }
    match insert_kills_by_means(line, match_data) {
        Err(e) => {
            return Err(e);
        },
        Ok(()) => {},
    }
    match_data.total_kills = match_data.total_kills + 1;
    proof {
        let (d2, err) = spec_kill_line(line@, old(match_data)@);
        assert(match_data@ == d2);
    }
    Ok(())
}

/// A successful kill line keeps the counter bounds, with the new
/// `total_kills` as the new bound.
pub proof fn lemma_kill_line_bounded(l: Seq<char>, d: MatchDataView)
    requires
        data_bounded(d),
    ensures
        ({
            let (d2, err) = spec_kill_line(l, d);
            err is None ==> data_bounded(d2)
        }),
{
    let (d2, err) = spec_kill_line(l, d);
    if err is None {
        let (da, e1) = if is_world_kill_line(l) {
            spec_world_kill(l, d)
        } else {
            spec_player_kill(l, d)
        };
        if is_world_kill_line(l) {
            lemma_victim_idx(d.players, l);
            lemma_bump_bounds(
                d.kills,
                d.players[victim_idx(d.players, l)],
                -1,
                -d.total_kills,
                d.total_kills,
            );
        } else {
            lemma_killer_idx(d.players, l);
            lemma_bump_bounds(
                d.kills,
                d.players[killer_idx(d.players, l)],
                1,
                -d.total_kills,
                d.total_kills,
            );
        }
        let (db, e2) = spec_insert_means(l, da);
        lemma_bump_bounds(
            da.kills_by_means,
            last_token(l)->Some_0,
            1,
            0,
            d.total_kills,
        );
    }
}

/// The literal counting rule of one kill line: a successful line
/// raises `total_kills` by exactly one, while the net kill sum moves
/// by one up for a player kill and one down for a world kill.
pub proof fn lemma_kill_line_conservation(l: Seq<char>, d: MatchDataView)
    ensures
        ({
            let (d2, err) = spec_kill_line(l, d);
            err is None ==> {
                &&& d2.total_kills == d.total_kills + 1
                &&& sum_counts(d2.kills) == sum_counts(d.kills) + (if is_world_kill_line(l) {
                    -1int
                } else {
                    1int
                })
            }
        }),
{
    let (d2, err) = spec_kill_line(l, d);
    if err is None {
        if is_world_kill_line(l) {
            lemma_victim_idx(d.players, l);
            lemma_sum_bump(d.kills, d.players[victim_idx(d.players, l)], -1);
        } else {
            lemma_killer_idx(d.players, l);
            lemma_sum_bump(d.kills, d.players[killer_idx(d.players, l)], 1);
        }
    }
}

/// A player-info event never moves a kill counter: interleaving such
/// events among a match's kill lines cannot disturb kill conservation.
pub proof fn lemma_client_changed_preserves_kills(l: Seq<char>, d: MatchDataView)
    ensures
        ({
            let (d2, err) = spec_client_changed(l, d);
            &&& d2.kills == d.kills
            &&& d2.kills_by_means == d.kills_by_means
            &&& d2.total_kills == d.total_kills
        }),
{
}

/// A stream of kill lines folded into one match's statistics, stopping
/// at the first failing line.
pub open spec fn spec_kills_fold(d: MatchDataView, lines: Seq<Seq<char>>) -> Option<MatchDataView>
    decreases lines.len(),
{
    if lines.len() == 0 {
        Some(d)
    } else {
        let (d1, err) = spec_kill_line(lines[0], d);
        if err is Some {
            None
        } else {
            spec_kills_fold(d1, lines.drop_first())
        }
    }
}

/// How many of the lines report a world kill.
pub open spec fn world_count(lines: Seq<Seq<char>>) -> int
    decreases lines.len(),
{
    if lines.len() == 0 {
        0
    } else {
        (if is_world_kill_line(lines[0]) {
            1int
        } else {
            0int
        }) + world_count(lines.drop_first())
    }
}

/// Kill conservation with the sign rule, over any stream of kill
/// lines: each world kill contributes one to `total_kills` but minus
/// one to the net kill sum, so the sum trails the count by twice the
/// world kills.
pub proof fn lemma_kills_fold_conservation(d: MatchDataView, lines: Seq<Seq<char>>)
    ensures
        ({
            match spec_kills_fold(d, lines) {
                Some(d2) => sum_counts(d2.kills) - sum_counts(d.kills) == (d2.total_kills
                    - d.total_kills) - 2 * world_count(lines),
                None => true,
            }
        }),
    decreases lines.len(),
{
    if lines.len() > 0 {
        let (d1, err) = spec_kill_line(lines[0], d);
        lemma_kill_line_conservation(lines[0], d);
        if err is None {
            lemma_kills_fold_conservation(d1, lines.drop_first());
        }
    }
}

/// Kill conservation for a match with only player-versus-player
/// kills: folded into a fresh match, such a stream leaves the net
/// kill sum equal to `total_kills`.
pub proof fn lemma_kill_conservation_players_only(lines: Seq<Seq<char>>)
    requires
        forall|i: int| 0 <= i < lines.len() ==> !is_world_kill_line(#[trigger] lines[i]),
    ensures
        ({
            match spec_kills_fold(empty_match_data(), lines) {
                Some(d2) => sum_counts(d2.kills) == d2.total_kills,
                None => true,
            }
        }),
{
    lemma_world_count_zero(lines);
    lemma_kills_fold_conservation(empty_match_data(), lines);
}

/// A stream without world kills counts no world kill.
pub proof fn lemma_world_count_zero(lines: Seq<Seq<char>>)
    requires
        forall|i: int| 0 <= i < lines.len() ==> !is_world_kill_line(#[trigger] lines[i]),
    ensures
        world_count(lines) == 0,
    decreases lines.len(),
{
    if lines.len() > 0 {
        let t = lines.drop_first();
        assert forall|i: int| 0 <= i < t.len() implies !is_world_kill_line(#[trigger] t[i]) by {
            assert(t[i] == lines[i + 1]);
        }
        lemma_world_count_zero(t);
    }
}

/// Effect of one raw line on the match list: a match-start marker
/// opens a match, a kill or player-info event mutates the match opened
/// last, any other line - and any event before the first match - is
/// dropped silently.  A failing event aborts with its stage's error
/// wrapped together with the line.
pub open spec fn spec_step(ms: Seq<MatchView>, l: Seq<char>) -> (
    Seq<MatchView>,
    Option<LogErrorView>,
) {
    match spec_classify(l) {
        LineKind::MatchStart => {
            let (ms2, err) = spec_init_game(ms);
            match err {
                None => (ms2, None),
                Some(e) => (ms2, Some(LogErrorView::InitGameError(wrap_msg(e, l)))),
            }
        },
        LineKind::KillEvent => {
            if ms.len() == 0 {
                (ms, None)
            } else {
                let m = ms.last();
                let (d2, err) = spec_kill_line(l, m.data);
                let ms2 = ms.update(ms.len() - 1, MatchView { id: m.id, data: d2 });
                match err {
                    None => (ms2, None),
                    Some(e) => (ms2, Some(LogErrorView::KillError(wrap_msg(e, l)))),
                }
            }
        },
        LineKind::PlayerInfoChanged => {
            if ms.len() == 0 {
                (ms, None)
            } else {
                let m = ms.last();
                let (d2, err) = spec_client_changed(l, m.data);
                let ms2 = ms.update(ms.len() - 1, MatchView { id: m.id, data: d2 });
                match err {
                    None => (ms2, None),
                    Some(e) => (
                        ms2,
                        Some(LogErrorView::ClientUserinfoChangedError(wrap_msg(e, l))),
                    ),
                }
            }
        },
        LineKind::Other => (ms, None),
    }
}

/// The whole event pass: lines fold through [`spec_step`] in order,
/// stopping at the first failure with the match list as the failing
/// step left it.
pub open spec fn spec_events(ms: Seq<MatchView>, lines: Seq<Seq<char>>) -> (
    Seq<MatchView>,
    Option<LogErrorView>,
)
    decreases lines.len(),
{
    if lines.len() == 0 {
        (ms, None)
    } else {
        let (ms1, err) = spec_step(ms, lines[0]);
        match err {
            Some(e) => (ms1, Some(e)),
            None => spec_events(ms1, lines.drop_first()),
        }
    }
}

/// A successful step keeps the match opened last within its counter
/// bounds.
pub proof fn lemma_step_bounded(ms: Seq<MatchView>, l: Seq<char>)
    requires
        ms.len() > 0 ==> data_bounded(ms.last().data),
    ensures
        ({
            let (ms2, err) = spec_step(ms, l);
            err is None ==> (ms2.len() > 0 ==> data_bounded(ms2.last().data))
        }),
{
    let (ms2, err) = spec_step(ms, l);
    if err is None {
        match spec_classify(l) {
            LineKind::MatchStart => {
            },
            LineKind::KillEvent => {
                if ms.len() > 0 {
                    lemma_kill_line_bounded(l, ms.last().data);
                }
            },
            LineKind::PlayerInfoChanged => {
            },
            LineKind::Other => {
            },
        }
    }
}

/// Runs the whole stream of log lines through the accumulator: every
/// line is classified and applied in order, and the first failing line
/// halts the run with its stage's error wrapped around the line text.
/// Events arriving before the first match start are dropped silently.
pub fn process_events_matches(matches: &mut Vec<Match>, file_content: &str) -> (r: Result<
    (),
    LogError,
>)
    requires
        old(matches)@.len() > 0 ==> data_bounded(matches_view(old(matches)@).last().data),
    ensures
        ({
            let (ms2, err) = spec_events(matches_view(old(matches)@), spec_lines(file_content@));
            &&& matches_view(final(matches)@) == ms2
            &&& match r {
                Ok(()) => err is None,
                Err(e) => err == Some(e@),
            }
        }),
{
    let lines = lines_of(file_content);
    let ghost all = spec_lines(file_content@);
    let ghost ms0 = matches_view(old(matches)@);
    proof {
        assert(all.skip(0) =~= all);
    }
    let n = lines.len();
    let mut li: usize = 0;
    while li < n
        invariant
            n == lines@.len(),
            views_of(lines@) == all,
            li <= n,
            matches@.len() > 0 ==> data_bounded(matches_view(matches@).last().data),
            spec_events(ms0, all) == spec_events(matches_view(matches@), all.skip(li as int)),
        decreases n - li,
    {
        let ghost pre = matches_view(matches@);
        let ghost rest = all.skip(li as int);
        proof {
            assert(rest[0] == all[li as int]);
            assert(all[li as int] == lines@[li as int]@);
            assert(rest.drop_first() =~= all.skip(li + 1));
            lemma_step_bounded(pre, rest[0]);
        }
        let line = lines[li].as_str();
        let tag = classify_line(line);
        match tag {
            LineKind::MatchStart => {
                match process_init_game(matches) {
                    Ok(()) => {},
                    Err(e) => {
                        let w = LogError::InitGameError(e.wrap_with_line(line));
                        return Err(w);
                    },
                }
            },
            LineKind::KillEvent => {
                if matches.len() > 0 {
                    let mut m = matches.pop().unwrap();
                    proof {
                        assert(m@ == pre.last());
                    }
                    let res = process_kill_line(line, &mut m.data);
                    matches.push(m);
                    proof {
                        let (d2, e2) = spec_kill_line(rest[0], pre.last().data);
                        assert(matches_view(matches@) =~= pre.update(
                            pre.len() - 1,
                            MatchView { id: pre.last().id, data: d2 },
                        ));
                    }
                    match res {
                        Ok(()) => {},
                        Err(e) => {
                            let w = LogError::KillError(e.wrap_with_line(line));
                            return Err(w);
                        },
                    }
                }
            },
            LineKind::PlayerInfoChanged => {
                if matches.len() > 0 {
                    let mut m = matches.pop().unwrap();
                    proof {
                        assert(m@ == pre.last());
                    }
                    let res = process_client_changed_line(line, &mut m.data);
                    matches.push(m);
                    proof {
                        let (d2, e2) = spec_client_changed(rest[0], pre.last().data);
                        assert(matches_view(matches@) =~= pre.update(
                            pre.len() - 1,
                            MatchView { id: pre.last().id, data: d2 },
                        ));
                    }
                    match res {
                        Ok(()) => {},
                        Err(e) => {
                            let w = LogError::ClientUserinfoChangedError(e.wrap_with_line(line));
                            return Err(w);
                        },
                    }
                }
            },
            LineKind::Other => {},
        }
        li += 1;
    }
    proof {
        assert(all.skip(n as int) =~= Seq::<Seq<char>>::empty());
    }
    Ok(())
}

} // verus!
