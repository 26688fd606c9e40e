//! A file-backed, schema-less store of small structured records ("projects"),
//! kept in workspaces that one global registry tracks.
//!
//! The modules here hold the logic: the canonical document form, the scalar
//! codec, identifier resolution, the key audit and the workspace registry.
//! Reading and writing files is left to the caller.

pub mod error;
pub mod text;
pub mod value;
pub mod yaml;
pub mod project;
pub mod ident;
pub mod store;
pub mod seqs;
pub mod scalar;
pub mod resolve;
pub mod sweep;
pub mod global;
pub mod memfs;
pub mod push;
