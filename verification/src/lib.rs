//! Schema-driven codec for live-streaming request records.
//!
//! The library converts typed records (streams, tariffs, gifts, debug
//! metadata, events) to and from a generic value tree, and renders that
//! tree in three textual formats: a JSON-like, a YAML-like and a
//! TOML-like one.  Field renamings, optional substructures, the
//! human-readable duration grammar, the timestamp grammar and the
//! date-prefix transform are all stated as contracts and proved to
//! round-trip.
use vstd::prelude::*;

pub mod bytes;
pub mod dateprefix;
pub mod errors;
pub mod json;
pub mod duration;
pub mod num;
pub mod records;
pub mod scalar;
pub mod schema;
pub mod shard;
pub mod text;
pub mod timestamp;
pub mod toml;
pub mod uid;
pub mod value;
pub mod yaml;

verus! {

} // verus!
