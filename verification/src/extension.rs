//! Loading the extension: how the tokenizer gets registered with the engine.
//!
//! Registration is a short conversation with the host. The host is asked for
//! its tokenizer-registration capability through a reserved query; without the
//! capability the load fails with a message, with it the tokenizer is
//! registered and the load ends with the status of that registration. The
//! caller performs each action and reports what the host replied; [`step`]
//! decides what comes next.

use vstd::prelude::*;
use vstd::string::StringExecFns;
use crate::status::{SQLITE_ERROR, SQLITE_OK};

verus! {

/// Name under which the tokenizer is registered.
pub const TOKENIZER_NAME: &'static str = "mecab";

/// The reserved query that yields the registration capability.
pub const CAPABILITY_QUERY: &'static str = "SELECT fts5(?1)";

/// Type name under which the capability's output pointer is bound.
pub const CAPABILITY_POINTER_TYPE: &'static str = "fts5_api_ptr";

/// Index of the query parameter to which the output pointer is bound.
pub const CAPABILITY_PARAMETER: i32 = 1;

/// What precedes the host's own error text in the message of a failed load.
pub const ERROR_PREFIX: &'static str = "libfts_mecab_rs: ";

/// How far a load attempt has come.
#[derive(Clone, Copy, Debug, PartialEq, Eq, Structural)]
pub enum LoadState {
    /// The host's capability table is bound; nothing has been asked yet.
    Bound,
    /// The capability query is being prepared.
    Preparing,
    /// The output pointer is bound to the query and the query is being
    /// stepped.
    Fetching,
    /// The capability is missing, and the error message is being written.
    Reporting,
    /// The tokenizer is being registered.
    Registering,
    /// The load attempt is over, with this status.
    Finished(i32),
}

/// What the host replied to the last action.
#[derive(Clone, Copy, Debug, PartialEq, Eq, Structural)]
pub enum HostReply {
    /// The load attempt begins.
    Begun,
    /// Preparing the capability query ended with this status.
    Prepared(i32),
    /// The query was stepped; the flag tells whether it yielded a capability.
    Fetched(bool),
    /// The error message was written.
    Reported,
    /// Registering the tokenizer ended with this status.
    Registered(i32),
}

/// What the caller does next.
#[derive(Clone, Copy, Debug, PartialEq, Eq, Structural)]
pub enum LoadAction {
    /// Prepare [`CAPABILITY_QUERY`].
    PrepareQuery,
    /// Bind the output pointer to the query and step it once.
    FetchCapability,
    /// Write the error message of a failed load.
    ReportMissingCapability,
    /// Register the tokenizer under [`TOKENIZER_NAME`], with its three entry
    /// points.
    RegisterTokenizer,
    /// End the load attempt with this status.
    Return(i32),
}

/// The next state and action for a reply in a state, or nothing where the
/// reply is not one that the state awaits.
pub open spec fn spec_step(state: LoadState, reply: HostReply) -> Option<(LoadState, LoadAction)> {
    match (state, reply) {
        (LoadState::Bound, HostReply::Begun) => Some(
            (LoadState::Preparing, LoadAction::PrepareQuery),
        ),
        (LoadState::Preparing, HostReply::Prepared(status)) => if status == SQLITE_OK {
            Some((LoadState::Fetching, LoadAction::FetchCapability))
        } else {
            Some((LoadState::Reporting, LoadAction::ReportMissingCapability))
        },
        (LoadState::Fetching, HostReply::Fetched(found)) => if found {
            Some((LoadState::Registering, LoadAction::RegisterTokenizer))
        } else {
            Some((LoadState::Reporting, LoadAction::ReportMissingCapability))
        },
        (LoadState::Reporting, HostReply::Reported) => Some(
            (LoadState::Finished(SQLITE_ERROR), LoadAction::Return(SQLITE_ERROR)),
        ),
        (LoadState::Registering, HostReply::Registered(status)) => Some(
            (LoadState::Finished(status), LoadAction::Return(status)),
        ),
        _ => None,
    }
}

/// Decides what follows a reply of the host.
pub fn step(state: LoadState, reply: HostReply) -> (next: Option<(LoadState, LoadAction)>)
    ensures
        next == spec_step(state, reply),
{
    match state {
        LoadState::Bound => match reply {
            HostReply::Begun => Some((LoadState::Preparing, LoadAction::PrepareQuery)),
            _ => None,
        },
        LoadState::Preparing => match reply {
            HostReply::Prepared(status) => {
                if status == SQLITE_OK {
                    Some((LoadState::Fetching, LoadAction::FetchCapability))
                } else {
                    Some((LoadState::Reporting, LoadAction::ReportMissingCapability))
                }
            },
            _ => None,
        },
        LoadState::Fetching => match reply {
            HostReply::Fetched(found) => {
                if found {
                    Some((LoadState::Registering, LoadAction::RegisterTokenizer))
                } else {
                    Some((LoadState::Reporting, LoadAction::ReportMissingCapability))
                }
            },
            _ => None,
        },
        LoadState::Reporting => match reply {
            HostReply::Reported => Some(
                (LoadState::Finished(SQLITE_ERROR), LoadAction::Return(SQLITE_ERROR)),
            ),
            _ => None,
        },
        LoadState::Registering => match reply {
            HostReply::Registered(status) => Some(
                (LoadState::Finished(status), LoadAction::Return(status)),
            ),
            _ => None,
        },
        LoadState::Finished(_) => None,
    }
}

/// The state that a load attempt is in after the host has given `replies`, one
/// after the other, from `state` on; nothing where one of them is not what
/// the state before it awaits.
pub open spec fn state_after(state: LoadState, replies: Seq<HostReply>) -> Option<LoadState>
    decreases replies.len(),
{
    if replies.len() == 0 {
        Some(state)
    } else {
        match spec_step(state, replies[0]) {
            Some((next, _)) => state_after(next, replies.skip(1)),
            None => None,
        }
    }
}

/// The status with which a load attempt ends: that of the registration where
/// the capability query could be prepared and yielded a capability, and
/// `SQLITE_ERROR` otherwise.
pub open spec fn load_status(prepare_status: i32, found: bool, register_status: i32) -> i32 {
    if prepare_status == SQLITE_OK && found {
        register_status
    } else {
        SQLITE_ERROR
    }
}

/// The replies that a host gives in the course of one load attempt, when it
/// prepares the query with `prepare_status`, yields a capability or not, and
/// registers with `register_status`.
pub open spec fn conversation(prepare_status: i32, found: bool, register_status: i32) -> Seq<
    HostReply,
> {
    if prepare_status != SQLITE_OK {
        seq![HostReply::Begun, HostReply::Prepared(prepare_status), HostReply::Reported]
    } else if !found {
        seq![
            HostReply::Begun,
            HostReply::Prepared(prepare_status),
            HostReply::Fetched(false),
            HostReply::Reported,
        ]
    } else {
        seq![
            HostReply::Begun,
            HostReply::Prepared(prepare_status),
            HostReply::Fetched(true),
            HostReply::Registered(register_status),
        ]
    }
}

/// Every load attempt comes to an end, and ends with [`load_status`]: with
/// the host's own status of the registration where there was one, and with
/// `SQLITE_ERROR` where the capability was missing. Once it has ended, no
/// reply moves it.
pub proof fn lemma_load_ends(prepare_status: i32, found: bool, register_status: i32)
    ensures
        state_after(LoadState::Bound, conversation(prepare_status, found, register_status))
            == Some(LoadState::Finished(load_status(prepare_status, found, register_status))),
        forall|status: i32, reply: HostReply|
            spec_step(LoadState::Finished(status), reply) is None,
{
    reveal_with_fuel(state_after, 6);
    let replies = conversation(prepare_status, found, register_status);
    assert(replies.skip(1).skip(1) =~= replies.skip(2));
    assert(replies.skip(2).skip(1) =~= replies.skip(3));
    if replies.len() == 4 {
        assert(replies.skip(3).skip(1) =~= replies.skip(4));
    }
}

/// The message of a failed load: [`ERROR_PREFIX`], then the host's own error
/// text.
pub fn load_error_message(host_text: &str) -> (message: String)
    ensures
        message@ == ERROR_PREFIX@ + host_text@,
{
    String::from_str(ERROR_PREFIX).concat(host_text)
}

} // verus!
