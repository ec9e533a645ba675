//! What the operations of the server are for.
//!
//! Each law here relates what an operation is given to what it leaves behind
//! and to what each client has been sent, in bytes and fields.

pub mod connections;
pub mod entering;
pub mod hearing;
pub mod items;
pub mod lists;
pub mod objects;
pub mod requests;
pub mod sending;
pub mod wire;
pub mod worlds;
