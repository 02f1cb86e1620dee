//! Core of an OSPFv2 link-state routing daemon: wire codec, link-state
//! database, neighbor and interface state machines, and shortest-path routes.

pub mod config;
pub mod wire;
pub mod checksum;
pub mod lsa;
pub mod lsa_parse;
pub mod packets;
pub mod packets_parse;
pub mod neighbor;
pub mod exchange;
pub mod election;
pub mod interface;
pub mod sending;
pub mod receiver;
pub mod dispatch;
pub mod route;
pub mod database;
pub mod spf;
pub mod serve;
pub mod flooding;
pub mod timer;
pub mod ipv4;
pub mod sender;
