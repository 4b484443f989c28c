//! Query preparation: turns parsed queries and the server's description of
//! their statements into a validated, deduplicated intermediate representation.

pub mod text;
pub mod registrar;
pub mod error;
pub mod prepared;
pub mod query;
pub mod prepare;
pub mod render;
pub mod tables;
