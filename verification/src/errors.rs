use vstd::prelude::*;

verus! {

/// Why a filter specification was rejected before any selection ran.
#[derive(Debug, Clone, PartialEq, Eq)]
pub enum ConfigFault {
    /// A project was both selected and ignored.
    ProjectsNotDisjoint,
    /// A tag was both selected and ignored.
    TagsNotDisjoint,
    /// The lower time bound lies strictly after the upper one.
    FromAfterTo,
}

/// The error kinds the core reports. The CLI layer renders them and
/// picks exit codes; the core never prints.
#[derive(Debug, Clone, PartialEq, Eq)]
pub enum Error {
    /// A malformed interval: start at or after end.
    ValidationError,
    /// The candidate interval collides with the non-deleted frame
    /// whose id is carried here.
    OverlapError(String),
    /// No frame matches the given id or short id.
    NotFoundError,
    /// A short-id prefix matches more than one frame.
    AmbiguousError,
    /// Mutually exclusive filter options were supplied together.
    ConfigurationError(ConfigFault),
}

} // verus!
