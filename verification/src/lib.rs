//! The exit-side relay of a mesh proxy: logical streams, named by stream keys,
//! are multiplexed over one mesh identity and mapped onto outbound connections.
//!
//! The crate holds the decisions of the relay and leaves the sockets to its
//! caller. Every operation of the [`relay::Relay`] takes what happened (a
//! request from the mesh, the result of a connection attempt, the result of a
//! read) and returns what has to be done next, as a list of
//! [`relay::RelayAction`]s.
use vstd::prelude::*;


pub mod command_processor;
pub mod commands;
pub mod net;
pub mod proxy_client;
pub mod relay;
pub mod relay_laws;
pub mod relay_model;
pub mod sequenced_packet;
pub mod stream_connector;
pub mod stream_connector_mock;
pub mod stream_key;
pub mod tokio_wrapper_mocks;
pub mod write_queue;
