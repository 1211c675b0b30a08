//! Artifact classification and manifest synthesis for a multi-contract
//! build targeting the Starknet virtual machine.
//!
//! After an upstream compiler has produced compiled contract classes and
//! per-module metadata, this library classifies each compiled unit as a
//! contract, a data model, or a computed-value binding; computes a content
//! hash per artifact; aggregates per-unit manifests; and reconciles them
//! with manifests persisted by an earlier build.

pub mod assoc;
pub mod laws;
pub mod manifest;
pub mod rw;
pub mod error;
pub mod registry;
pub mod aggregate;
pub mod classify;
pub mod selector;
pub mod strutil;
