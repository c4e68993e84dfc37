//! A real-time message relay: a registry of connected identities, each with a
//! single-slot subscriber channel, and a broadcast engine that offers every
//! published message to every registered subscriber independently.

pub mod channel;
pub mod jwt;
pub mod message;
pub mod registry;
pub mod service;
pub mod session;
