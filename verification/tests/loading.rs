use fts_mecab_rs::extension::{
    load_error_message, step, HostReply, LoadAction, LoadState, CAPABILITY_PARAMETER,
    CAPABILITY_POINTER_TYPE, CAPABILITY_QUERY, ERROR_PREFIX, TOKENIZER_NAME,
};
use fts_mecab_rs::status::{SQLITE_ERROR, SQLITE_OK};

/// Plays a load attempt against a host that prepares with `prepare`, yields a
/// capability or not, and registers with `register`. Gives the actions taken.
fn play(prepare: i32, found: bool, register: i32) -> Vec<LoadAction> {
    let mut actions = Vec::new();
    let mut state = LoadState::Bound;
    let mut reply = HostReply::Begun;
    loop {
        let (next, action) = match step(state, reply) {
            Some(pair) => pair,
            None => panic!("the reply answers the state"),
        };
        actions.push(action);
        state = next;
        reply = match action {
            LoadAction::PrepareQuery => HostReply::Prepared(prepare),
            LoadAction::FetchCapability => HostReply::Fetched(found),
            LoadAction::ReportMissingCapability => HostReply::Reported,
            LoadAction::RegisterTokenizer => HostReply::Registered(register),
            LoadAction::Return(status) => {
                assert_eq!(state, LoadState::Finished(status));
                return actions;
            }
        };
    }
}

#[test]
fn the_fixed_names_of_the_protocol() {
    assert_eq!(TOKENIZER_NAME, "mecab");
    assert_eq!(CAPABILITY_QUERY, "SELECT fts5(?1)");
    assert_eq!(CAPABILITY_POINTER_TYPE, "fts5_api_ptr");
    assert_eq!(CAPABILITY_PARAMETER, 1);
    assert_eq!(ERROR_PREFIX, "libfts_mecab_rs: ");
    assert_eq!(SQLITE_OK, 0);
    assert_eq!(SQLITE_ERROR, 1);
}

#[test]
fn a_load_ends_with_the_status_of_the_registration() {
    assert_eq!(
        play(SQLITE_OK, true, SQLITE_OK),
        vec![
            LoadAction::PrepareQuery,
            LoadAction::FetchCapability,
            LoadAction::RegisterTokenizer,
            LoadAction::Return(SQLITE_OK),
        ]
    );
    assert_eq!(
        play(SQLITE_OK, true, 21),
        vec![
            LoadAction::PrepareQuery,
            LoadAction::FetchCapability,
            LoadAction::RegisterTokenizer,
            LoadAction::Return(21),
        ]
    );
}

#[test]
fn a_missing_capability_fails_the_load_with_a_message() {
    assert_eq!(
        play(SQLITE_OK, false, SQLITE_OK),
        vec![
            LoadAction::PrepareQuery,
            LoadAction::FetchCapability,
            LoadAction::ReportMissingCapability,
            LoadAction::Return(SQLITE_ERROR),
        ]
    );
}

#[test]
fn a_query_that_cannot_be_prepared_counts_as_a_missing_capability() {
    assert_eq!(
        play(SQLITE_ERROR, true, SQLITE_OK),
        vec![
            LoadAction::PrepareQuery,
            LoadAction::ReportMissingCapability,
            LoadAction::Return(SQLITE_ERROR),
        ]
    );
    assert_eq!(
        play(26, true, SQLITE_OK),
        vec![
            LoadAction::PrepareQuery,
            LoadAction::ReportMissingCapability,
            LoadAction::Return(SQLITE_ERROR),
        ]
    );
}

#[test]
fn each_state_takes_its_own_reply_only() {
    let states = [
        LoadState::Bound,
        LoadState::Preparing,
        LoadState::Fetching,
        LoadState::Reporting,
        LoadState::Registering,
        LoadState::Finished(SQLITE_OK),
        LoadState::Finished(SQLITE_ERROR),
    ];
    let replies = [
        HostReply::Begun,
        HostReply::Prepared(SQLITE_OK),
        HostReply::Prepared(SQLITE_ERROR),
        HostReply::Fetched(true),
        HostReply::Fetched(false),
        HostReply::Reported,
        HostReply::Registered(SQLITE_OK),
        HostReply::Registered(5),
    ];
    for state in states {
        for reply in replies {
            let awaited = matches!(
                (state, reply),
                (LoadState::Bound, HostReply::Begun)
                    | (LoadState::Preparing, HostReply::Prepared(_))
                    | (LoadState::Fetching, HostReply::Fetched(_))
                    | (LoadState::Reporting, HostReply::Reported)
                    | (LoadState::Registering, HostReply::Registered(_))
            );
            assert_eq!(step(state, reply).is_some(), awaited);
        }
    }
    assert_eq!(
        step(LoadState::Preparing, HostReply::Prepared(SQLITE_OK)),
        Some((LoadState::Fetching, LoadAction::FetchCapability))
    );
    assert_eq!(
        step(LoadState::Registering, HostReply::Registered(5)),
        Some((LoadState::Finished(5), LoadAction::Return(5)))
    );
    assert_eq!(step(LoadState::Finished(5), HostReply::Registered(5)), None);
}

#[test]
fn the_message_of_a_failed_load_quotes_the_host() {
    assert_eq!(
        load_error_message("no such function: fts5"),
        "libfts_mecab_rs: no such function: fts5"
    );
    assert_eq!(load_error_message(""), "libfts_mecab_rs: ");
}
