//! Subscriber management for a newsletter: validated subscriber data, the
//! subscriber store with its uniqueness rules, and the subscribe / confirm
//! workflows over it.
pub mod configuration;
pub mod domain;
pub mod store;
pub mod workflow;
