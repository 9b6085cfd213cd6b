//! Core of an in-memory key-value server speaking the RESP protocol:
//! request framing, reply encoding, the keyspace and its value types,
//! stream logs, ordered-sorted sets, transactions and replication
//! bookkeeping.

pub mod clock;
pub mod commands;
pub mod config;
pub mod connection;
pub mod decimal;
pub mod geo;
pub mod keyspace;
pub mod lists;
pub mod rdb;
pub mod replication;
pub mod request;
pub mod resp;
pub mod sorted_sets;
pub mod stream;
pub mod streams;
pub mod table;
pub mod text;
pub mod transaction;
pub mod utils;
pub mod xread_config;
pub mod zset;
