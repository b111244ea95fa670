//! An in-memory key/value server speaking RESP v2: the wire codec, the store
//! with millisecond expiry and streams, the replication bookkeeping of a
//! primary and of a replica, and the command handlers, all verified.
use vstd::prelude::*;

pub mod resp;
pub mod resp_laws;
pub mod codec;
pub mod streams;
pub mod words;
pub mod args;
pub mod db;
pub mod repl;
pub mod slave;
pub mod reply;
pub mod rdb;
pub mod commands;
pub mod stream_commands;
pub mod repl_commands;
pub mod dispatch;

verus! {

} // verus!
