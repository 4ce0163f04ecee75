//! Core of a decentralized onion-routing overlay node: the signed neighbor
//! graph and its gossip protocol, multi-hop route construction, the per-hop
//! encrypted envelope ("CORES package"), and the exit-side stream bookkeeping
//! that ties encrypted requests to real upstream flows.

pub mod accountant;
pub mod ascii;
pub mod bytes_util;
pub mod cryptde;
pub mod fmt;
pub mod gossip;
pub mod gossip_builder;
pub mod hopper;
pub mod neighborhood;
pub mod neighborhood_db;
pub mod node_addr;
pub mod node_ref;
pub mod proxy_client;
pub mod proxy_server;
pub mod receivable_dao;
pub mod route;
pub mod route_query;
pub mod sequence_buffer;
pub mod startup_config;
pub mod stream;
pub mod wallet;
pub mod wire;
