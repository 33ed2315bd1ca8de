//! Compiler and static validator for declarative access-control manifests.
//!
//! The crate turns per-namespace permission definitions into closed
//! `Manifest` records, derives `allow-`/`deny-` permissions for exposed
//! commands, synthesizes a closed identifier schema over every manifest,
//! validates capability declarations against the manifest set, and decides
//! when persisted output actually has to be rewritten.

pub mod autogen;
pub mod builder;
pub mod ident;
pub mod json;
pub mod menu;
pub mod model;
pub mod ordmap;
pub mod parse;
pub mod persist;
pub mod pipeline;
pub mod schema;
pub mod validate;

use vstd::prelude::*;

verus! {

/// Key under which the application's own (un-prefixed) namespace is stored.
pub const APP_ACL_KEY: &'static str = "__app__";

} // verus!
