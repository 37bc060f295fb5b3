//! A Redis-style key-value server core: the RESP wire codec, the command
//! interpreter and the string store, with contracts that Verus proves.

pub mod command;
pub mod resp;
pub mod server;
pub mod storage;
