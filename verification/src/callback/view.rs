//! What of the traffic goes into the log.

use vstd::prelude::*;

use crate::protocol::Action;
use crate::server::ServerConfig;

verus! {

/// How a packet is logged.
#[derive(Clone, Copy, Debug, PartialEq, Eq, Structural)]
pub enum Logged {
    /// Not at all.
    Nothing,
    /// With its payload, for whoever traces the server.
    Trace,
    /// Without its payload, for whoever debugs the server.
    Debug,
    /// For everyone, and with its payload for whoever debugs the server.
    Info,
}

/// How packets of an action are logged: what is sent all the time only where
/// the server is traced, or as the settings say.
pub open spec fn logged(action: Action, conf: ServerConfig) -> Logged {
    match action {
        Action::CREATE_OBJECT
        | Action::UPDATE_OBJECT
        | Action::DELETE_OBJECT
        | Action::ITEM_TRANSFER
        | Action::ITEM_STATE
        | Action::ITEM_REMOVED => Logged::Trace,
        Action::SERVER_TIME | Action::SERVER_TIME_QUERY | Action::SERVER_TIME_RESPONSE => if
        conf.supress_log_server_time {
            Logged::Nothing
        } else {
            Logged::Trace
        },
        Action::GAMES_LIST_QUERY => if conf.supress_log_games_list_query {
            Logged::Nothing
        } else {
            Logged::Debug
        },
        _ => Logged::Info,
    }
}

/// How packets of an action are logged.
pub fn log_level(action: Action, conf: &ServerConfig) -> (r: Logged)
    ensures
        r == logged(action, *conf),
{
    match action {
        Action::CREATE_OBJECT
        | Action::UPDATE_OBJECT
        | Action::DELETE_OBJECT
        | Action::ITEM_TRANSFER
        | Action::ITEM_STATE
        | Action::ITEM_REMOVED => Logged::Trace,
        Action::SERVER_TIME | Action::SERVER_TIME_QUERY | Action::SERVER_TIME_RESPONSE => {
            if conf.supress_log_server_time {
                Logged::Nothing
            } else {
                Logged::Trace
            }
        },
        Action::GAMES_LIST_QUERY => {
            if conf.supress_log_games_list_query {
                Logged::Nothing
            } else {
                Logged::Debug
            }
        },
        _ => Logged::Info,
    }
}

/// Whether it is logged that a request was met without an answer.
pub open spec fn completion_logged(action: Action) -> bool {
    !(action == Action::CREATE_OBJECT || action == Action::UPDATE_OBJECT || action
        == Action::DELETE_OBJECT)
}

/// Whether it is logged that a request was met without an answer: not for
/// those that come in all the time.
pub fn logs_completion(action: Action) -> (r: bool)
    ensures
        r == !(action == Action::CREATE_OBJECT || action == Action::UPDATE_OBJECT || action
            == Action::DELETE_OBJECT),
        r == completion_logged(action),
{
    match action {
        Action::CREATE_OBJECT | Action::UPDATE_OBJECT | Action::DELETE_OBJECT => false,
        _ => true,
    }
}

} // verus!
