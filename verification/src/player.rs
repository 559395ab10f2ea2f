//! The decisions of the audio player's IPC exchange: what a reply line means for the
//! request that waits for it, and what a sample of the player's properties says.
use vstd::prelude::*;

use crate::text::str_equal;

verus! {

/// What a line that the player sent back means for the request that waits for it.
#[derive(Debug, PartialEq, Eq)]
pub enum MpvReply {
    /// The line answers another request, or none: keep reading.
    Skip,
    /// The property does not exist at the moment: the result is empty.
    Unavailable,
    /// The player refused the command with this message.
    Failed(String),
    /// The command succeeded: the result is the line's data.
    Data,
}

/// The message of a refusal that names no reason.
pub open spec fn unknown_error_message() -> Seq<char> {
    "unknown mpv error"@
}

/// The meaning of a reply line: a line for another request is skipped; for this one, the
/// error field decides (`property unavailable`, `success`, anything else a refusal).
pub open spec fn reply_meaning(
    reply_request_id: Option<u64>,
    request_id: u64,
    error: Option<Seq<char>>,
    reply: MpvReply,
) -> bool {
    if reply_request_id != Some(request_id) {
        reply == MpvReply::Skip
    } else {
        match error {
            Some(e) => if e == "property unavailable"@ {
                reply == MpvReply::Unavailable
            } else if e == "success"@ {
                reply == MpvReply::Data
            } else {
                reply matches MpvReply::Failed(m) && m@ == e
            },
            None => reply matches MpvReply::Failed(m) && m@ == unknown_error_message(),
        }
    }
}

/// Classifies a reply line by its `request_id` and `error` fields.
pub fn classify_mpv_reply(reply_request_id: Option<u64>, request_id: u64, error: Option<&str>) -> (res:
    MpvReply)
    ensures
        reply_meaning(
            reply_request_id,
            request_id,
            match error {
                Some(e) => Some(e@),
                None => None,
            },
            res,
        ),
{
    match reply_request_id {
        Some(id) => if id != request_id {
            return MpvReply::Skip;
        },
        None => return MpvReply::Skip,
    }
    match error {
        Some(e) => if str_equal(e, "property unavailable") {
            MpvReply::Unavailable
        } else if str_equal(e, "success") {
            MpvReply::Data
        } else {
            MpvReply::Failed(String::from_str(e))
        },
        None => MpvReply::Failed(String::from_str("unknown mpv error")),
    }
}

/// The `request_id` (when it is an unsigned integer) and `error` (when it is a string)
/// fields of a reply line, as `serde_json` reads the line; `None` when the line is not JSON.
pub uninterp spec fn mpv_reply_fields(line: Seq<char>) -> Option<(Option<u64>, Option<Seq<char>>)>;

/// Reads a reply line with `serde_json::from_str` into a `serde_json::Value` and picks its
/// `request_id` (`Value::as_u64`) and `error` (`Value::as_str`) fields. The result is
/// named, not described: JSON parsing is not restated here.
#[verifier::external_body]
fn parse_mpv_reply(line: &str) -> (res: Option<(Option<u64>, Option<String>)>)
    ensures
        match res {
            Some((id, error)) => mpv_reply_fields(line@) == Some((id, error.deep_view())),
            None => mpv_reply_fields(line@) is None,
        },
{
    match serde_json::from_str::<serde_json::Value>(line) {
        Ok(reply) => Some((
            reply.get("request_id").and_then(serde_json::Value::as_u64),
            reply.get("error").and_then(serde_json::Value::as_str).map(String::from),
        )),
        Err(_) => None,
    }
}

/// Classifies a reply line (see `reply_meaning`); `None` when the line is not JSON.
pub fn classify_mpv_line(line: &str, request_id: u64) -> (res: Option<MpvReply>)
    ensures
        match mpv_reply_fields(line@) {
            None => res is None,
            Some((id, error)) => res matches Some(r) && reply_meaning(id, request_id, error, r),
        },
{
    match parse_mpv_reply(line) {
        None => None,
        Some((id, error)) => {
            let reply = match &error {
                Some(e) => classify_mpv_reply(id, request_id, Some(e.as_str())),
                None => classify_mpv_reply(id, request_id, None),
            };
            Some(reply)
        },
    }
}

/// What one sample of the player's properties says.
#[derive(Clone, Copy, Debug, PartialEq, Eq, Structural)]
pub struct PlayerState {
    /// The track reached its end, or the player went idle after it.
    pub eof_reached: bool,
    pub paused: bool,
    pub position_ms: u64,
}

/// Builds a sample from the properties that the player reported; a property that it
/// could not report counts as "not at the end", "not idle" and "paused".
pub fn player_state(
    eof_reached: Option<bool>,
    idle_active: Option<bool>,
    paused: Option<bool>,
    position_ms: u64,
) -> (res: PlayerState)
    ensures
        res.eof_reached == (eof_reached == Some(true) || idle_active == Some(true)),
        res.paused == (paused != Some(false)),
        res.position_ms == position_ms,
{
    let eof = match eof_reached {
        Some(b) => b,
        None => false,
    };
    let idle = match idle_active {
        Some(b) => b,
        None => false,
    };
    let p = match paused {
        Some(b) => b,
        None => true,
    };
    PlayerState { eof_reached: eof || idle, paused: p, position_ms }
}

} // verus!
