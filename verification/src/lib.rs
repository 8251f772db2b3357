//! An in-process publish/subscribe broker.
//!
//! Named channels take published byte payloads and fan them out to the
//! subscribers that are registered on the channel at that moment. Every
//! operation of the [`broker::Broker`] is stated against a mathematical model
//! of the registry ([`registry::RegistryState`]), and what holds across
//! several operations is proved in [`laws`]. The shell that drives a broker
//! from lines of text reads its commands with [`command`].

pub mod broker;
pub mod command;
pub mod decimal;
pub mod endpoint;
pub mod error;
pub mod laws;
pub mod registry;
