//! Core data model for netfyr network device state, with a verified YAML codec.
//!
//! A [`State`] is one source's contribution to one device: a device type, a
//! selector identifying the target ([`Match`]), the configuration fields
//! being contributed (an ordered [`FieldMap`] of [`Value`]s), plus
//! runtime-only bookkeeping (source, priority, metadata). Configuration is a
//! plain ordered `Vec<State>`: contributions coexist, are never merged or
//! rejected here, and their list order is significant.
pub mod error;
pub mod fields;
pub mod ip;
pub mod match_spec;
pub mod reading;
pub mod roundtrip;
pub mod schema;
pub mod source;
pub mod state;
pub mod text;
pub mod value;
pub mod yaml;
pub mod yaml_node;

pub use error::{Error, IndexedValidationError, ValidationError};
pub use ip::IpAddr;
pub use match_spec::Match;
pub use schema::SchemaRegistry;
pub use source::Source;
pub use state::{State, StateMetadata};
pub use value::{FieldMap, Value};
pub use yaml::{from_yaml, to_yaml_policy, to_yaml_query};
