//! Turns an API collection (requests in nested folders, with example responses and a
//! table of variables) into a flat API specification document: servers, tags, path
//! templates with their operations, parameters and inferred schemas.

pub mod content;
pub mod ids;
pub mod json;
pub mod model;
pub mod params;
pub mod pieces;
pub mod resolve;
pub mod schema;
pub mod text;
pub mod transpiler;
pub mod vars;

pub use transpiler::Transpiler;
