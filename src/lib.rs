//! Storage encoding for a property-graph store: byte components, composite
//! edge keys, meta-tagged value groups, and the decisions of edge creation.

pub mod byte;
pub mod edge;
pub mod error;
pub mod meta;
pub mod property;
pub mod types;

pub use byte::{
    build_bytes, build_meta, from_uuid_bytes, generate_random_i32, Component,
    MAX_TIMESTAMP_NANOS, MAX_TIMESTAMP_SECS, MAX_TIMESTAMP_SUBSEC_NANOS,
};
pub use edge::{CreatePhase, CreatePlan, Edge, EdgeController};
pub use error::Error;
pub use meta::{deserialize_byte_data, deserialize_data_with_meta, AccountDiscriminator};
pub use property::{PropType, Property};
pub use types::{Identifier, Timestamp, Uuid};
