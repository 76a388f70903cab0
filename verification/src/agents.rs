//! Agents that share one machine: who is registered, and who may be.

pub mod admission;
pub mod admission_laws;
pub mod record_laws;
pub mod registry;
pub mod resource_broker;
