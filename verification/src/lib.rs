//! Trust atoms encoded as Holochain link tags: building, reading and
//! validating the tag format, and the value and bucket rules behind it.

pub mod header;
pub mod text;
pub mod link_tag;
pub mod value;
pub mod hash;
pub mod bucket;
pub mod validation;
pub mod trust_atom;
pub mod query;
pub mod delete;
pub mod rollup;
pub mod laws;
