//! The requests of clients, and what the server does about them.

pub mod close_socket;
pub mod create_object;
pub mod delete_object;
pub mod item_transfer;
pub mod leave_world;
pub mod on_update;
pub mod restore_connection;
pub mod set_position;
pub mod set_world;
pub mod top_list_query;
pub mod total_players_data_query;
pub mod update_object;
pub mod view;

use vstd::prelude::*;

use crate::protocol::{Action, Packet};

use close_socket::CloseSocketError;
use create_object::CreateObjectError;
use delete_object::DeleteObjectError;
use item_transfer::ItemTransferError;
use leave_world::LeaveWorldError;
use restore_connection::RestoreConnectionError;
use set_position::SetPositionError;
use set_world::SetWorldError;
use top_list_query::TopListQueryError;
use update_object::UpdateObjectError;

verus! {

/// Why a request was turned down.
#[derive(Debug)]
pub enum OnUpdateError {
    /// The server does nothing about packets of this action.
    NotImplementedAction(Packet),
    /// Packets of this action have no answer.
    ResponsePacketTypeNotExist(Action),
    RestoreConnectionError(RestoreConnectionError),
    SetPositionError(SetPositionError),
    CreateObjectError(CreateObjectError),
    UpdateObjectError(UpdateObjectError),
    DeleteObjectError(DeleteObjectError),
    SetWorldError(SetWorldError),
    LeaveWorldError(LeaveWorldError),
    ItemTransferError(ItemTransferError),
    CloseSocketError(CloseSocketError),
    TopListQueryError(TopListQueryError),
}

/// What is left to do after a request.
#[derive(Debug)]
pub enum OnUpdateOk {
    /// Send this to all clients.
    Broadcast(Packet),
    /// Send this back.
    Response(Packet),
    /// Nothing.
    Complete,
}

} // verus!
