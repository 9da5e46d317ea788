//! The error taxonomy of the log pipeline.
//!
//! Every failure carries a message `String`; the driver wraps the inner
//! failure together with the offending line before handing it upward.

use vstd::prelude::*;
use vstd::string::StringExecFns;

verus! {

/// Everything that can go wrong while reading or interpreting a log.
///
/// The first two variants are raised only by the unverified shell that
/// locates and reads the log file; `JsonError` only by the unverified
/// report renderer.
#[derive(Debug, PartialEq)]
pub enum LogError {
    ReadLogError(String),
    ExePathError(String),
    InitGameError(String),
    KillError(String),
    ClientUserinfoChangedError(String),
    KillerName(String),
    VictimName(String),
    EmptyPlayerName(String),
    InsertKillMeanError(String),
    JsonError(String),
}

/// The abstract value of a [`LogError`]: the same variants over the
/// views of their messages.
pub ghost enum LogErrorView {
    ReadLogError(Seq<char>),
    ExePathError(Seq<char>),
    InitGameError(Seq<char>),
    KillError(Seq<char>),
    ClientUserinfoChangedError(Seq<char>),
    KillerName(Seq<char>),
    VictimName(Seq<char>),
    EmptyPlayerName(Seq<char>),
    InsertKillMeanError(Seq<char>),
    JsonError(Seq<char>),
}

impl View for LogError {
    type V = LogErrorView;

    open spec fn view(&self) -> LogErrorView {
        match self {
            LogError::ReadLogError(m) => LogErrorView::ReadLogError(m@),
            LogError::ExePathError(m) => LogErrorView::ExePathError(m@),
            LogError::InitGameError(m) => LogErrorView::InitGameError(m@),
            LogError::KillError(m) => LogErrorView::KillError(m@),
            LogError::ClientUserinfoChangedError(m) => LogErrorView::ClientUserinfoChangedError(
                m@,
            ),
            LogError::KillerName(m) => LogErrorView::KillerName(m@),
            LogError::VictimName(m) => LogErrorView::VictimName(m@),
            LogError::EmptyPlayerName(m) => LogErrorView::EmptyPlayerName(m@),
            LogError::InsertKillMeanError(m) => LogErrorView::InsertKillMeanError(m@),
            LogError::JsonError(m) => LogErrorView::JsonError(m@),
        }
    }
}

/// The text a debug formatter would print for an error whose message
/// needs no escaping: the variant name around the quoted message.
pub open spec fn err_debug(e: LogErrorView) -> Seq<char> {
    match e {
        LogErrorView::ReadLogError(m) => "ReadLogError(\""@ + m + "\")"@,
        LogErrorView::ExePathError(m) => "ExePathError(\""@ + m + "\")"@,
        LogErrorView::InitGameError(m) => "InitGameError(\""@ + m + "\")"@,
        LogErrorView::KillError(m) => "KillError(\""@ + m + "\")"@,
        LogErrorView::ClientUserinfoChangedError(m) => "ClientUserinfoChangedError(\""@ + m
            + "\")"@,
        LogErrorView::KillerName(m) => "KillerName(\""@ + m + "\")"@,
        LogErrorView::VictimName(m) => "VictimName(\""@ + m + "\")"@,
        LogErrorView::EmptyPlayerName(m) => "EmptyPlayerName(\""@ + m + "\")"@,
        LogErrorView::InsertKillMeanError(m) => "InsertKillMeanError(\""@ + m + "\")"@,
        LogErrorView::JsonError(m) => "JsonError(\""@ + m + "\")"@,
    }
}

/// The message that wraps an inner failure with the line it arose on.
pub open spec fn wrap_msg(inner: LogErrorView, line: Seq<char>) -> Seq<char> {
    "Error "@ + err_debug(inner) + " on line  "@ + line
}

impl LogError {
    /// Renders the error the way a debug formatter would, message
    /// quoted verbatim.
    pub fn debug_text(&self) -> (r: String)
        ensures
            r@ == err_debug(self@),
    {
        match self {
            LogError::ReadLogError(m) => "ReadLogError(\"".to_owned().concat(m.as_str()).concat(
                "\")",
            ),
            LogError::ExePathError(m) => "ExePathError(\"".to_owned().concat(m.as_str()).concat(
                "\")",
            ),
            LogError::InitGameError(m) => "InitGameError(\"".to_owned().concat(m.as_str()).concat(
                "\")",
            ),
            LogError::KillError(m) => "KillError(\"".to_owned().concat(m.as_str()).concat("\")"),
            LogError::ClientUserinfoChangedError(m) => "ClientUserinfoChangedError(\"".to_owned()
                .concat(m.as_str()).concat("\")"),
            LogError::KillerName(m) => "KillerName(\"".to_owned().concat(m.as_str()).concat("\")"),
            LogError::VictimName(m) => "VictimName(\"".to_owned().concat(m.as_str()).concat("\")"),
            LogError::EmptyPlayerName(m) => "EmptyPlayerName(\"".to_owned().concat(
                m.as_str(),
            ).concat("\")"),
            LogError::InsertKillMeanError(m) => "InsertKillMeanError(\"".to_owned().concat(
                m.as_str(),
            ).concat("\")"),
            LogError::JsonError(m) => "JsonError(\"".to_owned().concat(m.as_str()).concat("\")"),
        }
    }

    /// Wraps the error together with the line it arose on, as the
    /// event driver reports failures.
    pub fn wrap_with_line(&self, line: &str) -> (r: String)
        ensures
            r@ == wrap_msg(self@, line@),
    {
        "Error ".to_owned().concat(self.debug_text().as_str()).concat(" on line  ").concat(line)
    }
}

} // verus!
