//! A small key-value store whose every change is first recorded in a
//! write-ahead log and can be rebuilt by replaying that log.
pub mod command;
pub mod server;
pub mod state;
pub mod wal;

pub use command::{command_from_words, parse_query, Command, Transaction};
pub use server::Server;
pub use state::State;
pub use wal::{InMemoryWriteAheadLog, OnDiskReplayIterator, ReadEvent, Replay, WalError, WriteAheadLog};
