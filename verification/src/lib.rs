//! Verified flattening of nested parquet schema trees into flat column
//! descriptors, with the definition/repetition level bookkeeping needed to
//! encode optional and repeated structures as independent flat columns.
//!
//! - [`types`]: the schema tree (primitive leaves and groups) and its model;
//! - [`descriptor`]: the flattening algorithm and the schema descriptor
//!   aggregate that owns its result;
//! - [`thrift`]: the flat boundary representation and its codec, proved to
//!   round-trip;
//! - [`laws`]: proofs that every leaf's levels and path are the counts and
//!   names along its chain of enclosing nodes;
//! - [`error`]: the error type for rejected schemas.

pub mod descriptor;
pub mod error;
pub mod laws;
pub mod thrift;
pub mod types;
