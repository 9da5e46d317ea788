//! The whole pipeline over one log text: events in, ranking out.
//!
//! The shell around the library reads the log file and hands its text
//! here; everything after that point is verified.

use vstd::prelude::*;
use crate::error::LogError;
use crate::events::{process_events_matches, spec_events};
use crate::match_data::{Match, MatchView, PlayerScore, PlayerScoreView, matches_view, scores_view};
use crate::ranking::{process_ranking, spec_ranking, rank_ok};
use crate::text::spec_lines;

verus! {

/// Methods for working with a whole log's text.
pub struct LogModel {}

impl LogModel {
    /// Interprets the full log text line by line and folds the
    /// finished matches into the global player ranking.  The first
    /// malformed line halts the run with its stage's error and no
    /// report data.
    pub fn process_log(file_content: &str) -> (r: Result<(Vec<Match>, Vec<PlayerScore>), LogError>)
        requires
            ({
                let (ms2, err) = spec_events(Seq::empty(), spec_lines(file_content@));
                err is None ==> rank_ok(ms2, Seq::empty())
            }),
        ensures
            ({
                let (ms2, err) = spec_events(Seq::empty(), spec_lines(file_content@));
                match r {
                    Ok(p) => err is None && matches_view(p.0@) == ms2 && scores_view(p.1@)
                        == spec_ranking(ms2, Seq::empty()),
                    Err(e) => err == Some(e@),
                }
            }),
    {
        let mut matchs: Vec<Match> = Vec::new();
        let mut player_rank: Vec<PlayerScore> = Vec::new();
        proof {
            assert(matches_view(matchs@) =~= Seq::<MatchView>::empty());
            assert(scores_view(player_rank@) =~= Seq::<PlayerScoreView>::empty());
        }
        match process_events_matches(&mut matchs, file_content) {
            Ok(()) => {},
            Err(e) => {
                return Err(e);
            },
        }
        process_ranking(&mut matchs, &mut player_rank);
        Ok((matchs, player_rank))
    }
}

} // verus!
