use vstd::prelude::*;

verus! {

/// Every failure the store reports. The kinds are flat: none carries a cause.
#[derive(Clone, Copy, Debug, PartialEq, Eq, Structural)]
pub enum TErrors {
    /// The table does not exist.
    FileNotFound,
    /// A table could not be opened or created.
    FileError,
    /// The store's root could not be created or listed.
    DirError,
    /// The stored bytes could not be read as a record.
    ReadByteError,
    /// The record could not be written.
    WriteByteError,
    /// A record or map does not have the shape the conversion asks for.
    StringConvert,
    /// A record could not be turned into a map view on the way to another map.
    HashConvert,
    /// A table could not be deleted.
    DeleteError,
    /// A collection could not be read.
    CollectReadError,
    /// Placeholder for the payload a commit does not carry; not a failure.
    Nothing,
}

impl Default for TErrors {
    fn default() -> (r: Self)
        ensures
            r == TErrors::Nothing,
    {
        TErrors::Nothing
    }
}

} // verus!
