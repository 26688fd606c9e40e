use vstd::prelude::*;

verus! {

/// Every failure that the library reports.
#[derive(Debug, Clone, PartialEq)]
pub enum MembraneError {
    /// No document matches the given token.
    ProjectNotFound { token: String },
    /// The document does not hold the key.
    KeyNotFound { key: String, project: String },
    /// A document of that name already exists.
    AlreadyExists { name: String },
    /// More than one document or workspace id starts with the token; the
    /// candidates are the first eight characters of each id.
    Ambiguous { token: String, candidates: Vec<String> },
    /// The key starts with an underscore, which marks system metadata.
    ReservedKey { key: String },
    /// A rename would overwrite a key that the document already holds.
    KeyCollision { project: String, key: String },
    /// A rename from a key to the same key.
    SameKey { key: String },
    /// A document carries no name, and none was given.
    NameMissing,
    /// The text is not a mapping from string keys to values.
    Format,
    /// The text could not be produced from the document.
    Encode,
    /// No workspace is active.
    NoActiveWorkspace,
    /// The active id has no entry in the registry.
    RegistryInconsistency { id: String },
    /// No workspace id starts with the token.
    WorkspaceNotFound { token: String },
    /// No workspace is active and none was found around the current place.
    NotInWorkspace,
}

} // verus!
