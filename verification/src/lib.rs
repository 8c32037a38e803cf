//! Verified code generator for entity-relationship loaders.
//!
//! The crate takes an ordered list of relation descriptors (a schema) and
//! produces a structured description of the loader code that a derive macro
//! would emit, together with a verified model of how that generated code
//! behaves at run time: selection of relations by table identity, the
//! join-arity rule that caps joined selects at three entities, and the
//! batched load phases that hydrate relation fields positionally.

#![allow(unused_imports)]

pub mod expand;
pub mod hydrate;
pub mod laws;
pub mod loader;
pub mod model;
pub mod pipeline;
pub mod schema;
