use vstd::prelude::*;
use vstd::string::StringExecFns;

verus! {

/// The error type of the store.
///
/// Storage-level failures (`Io`, `NotFile`, `NotDirectory`, `Serialize`,
/// `Deserialize`) are surfaced by opening and flushing; data-level failures
/// (`DuplicatedId`, `NotFound`) are surfaced by the CRUD operations that
/// detect them.
#[derive(Debug, PartialEq, Eq)]
pub enum JoydbError {
    /// An underlying storage read or write failed; carries the description
    /// of the failure.
    Io(String),
    /// The path exists but is not a regular file, while the adapter expected
    /// one; carries the path.
    NotFile(String),
    /// The path exists but is not a directory, while the adapter expected
    /// one; carries the path.
    NotDirectory(String),
    /// The payload could not be encoded; carries the description.
    Serialize(String),
    /// The payload could not be decoded; carries the description.
    Deserialize(String),
    /// An insert collided with an existing record's identifier.
    DuplicatedId {
        /// The identifier, already rendered as text.
        id: String,
        /// The name of the relation's record type.
        model: String,
    },
    /// An update targeted an identifier that is not present.
    NotFound {
        /// The identifier, already rendered as text.
        id: String,
        /// The name of the relation's record type.
        model: String,
    },
    /// An error raised by a third-party adapter; carries the description.
    Custom(String),
}

impl JoydbError {
    /// The human-readable rendering of the error.
    pub open spec fn spec_message(self) -> Seq<char> {
        match self {
            JoydbError::Io(s) => "IO error: "@ + s@,
            JoydbError::NotFile(p) => p@ + " is not a file"@,
            JoydbError::NotDirectory(p) => p@ + " is not a directory"@,
            JoydbError::Serialize(s) => "Serialize error: "@ + s@,
            JoydbError::Deserialize(s) => "Deserialize error: "@ + s@,
            JoydbError::DuplicatedId { id, model } => model@ + " with id = "@ + id@
                + " already exists"@,
            JoydbError::NotFound { id, model } => model@ + " with id = "@ + id@ + " not found"@,
            JoydbError::Custom(s) => "Custom error: "@ + s@,
        }
    }

    /// Renders the error as one line of text.
    pub fn message(&self) -> (r: String)
        ensures
            r@ == self.spec_message(),
    {
        match self {
            JoydbError::Io(s) => {
                let mut m = String::from_str("IO error: ");
                m.append(s.as_str());
                m
            },
            JoydbError::NotFile(p) => {
                let mut m = p.clone();
                m.append(" is not a file");
                m
            },
            JoydbError::NotDirectory(p) => {
                let mut m = p.clone();
                m.append(" is not a directory");
                m
            },
            JoydbError::Serialize(s) => {
                let mut m = String::from_str("Serialize error: ");
                m.append(s.as_str());
                m
            },
            JoydbError::Deserialize(s) => {
                let mut m = String::from_str("Deserialize error: ");
                m.append(s.as_str());
                m
            },
            JoydbError::DuplicatedId { id, model } => {
                let mut m = model.clone();
                m.append(" with id = ");
                m.append(id.as_str());
                m.append(" already exists");
                m
            },
            JoydbError::NotFound { id, model } => {
                let mut m = model.clone();
                m.append(" with id = ");
                m.append(id.as_str());
                m.append(" not found");
                m
            },
            JoydbError::Custom(s) => {
                let mut m = String::from_str("Custom error: ");
                m.append(s.as_str());
                m
            },
        }
    }
}

} // verus!
