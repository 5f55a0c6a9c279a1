//! Rainbow-table engine: reduction of digests into a password keyspace,
//! chain construction, chain tables and the Hellman lookup that recovers a
//! preimage from a target digest.

pub mod chain;
pub mod crack;
pub mod digest;
pub mod password;
pub mod pipeline;
pub mod reduce;
pub mod request;
pub mod table;
