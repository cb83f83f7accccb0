//! What a command reports when it cannot finish.
use vstd::prelude::*;
use vstd::string::StringExecFns;

verus! {

/// Why a command failed. Each failure carries what is needed to find it: the
/// path, the engine's complaint, or the key of the undecodable entry.
#[derive(Debug, PartialEq, Eq)]
pub enum CommandError {
    /// The store path is not an existing directory.
    Path { path: String },
    /// The engine refused to open the store at `path`.
    StoreOpen { path: String, detail: String },
    /// The engine refused to open the namespace of the store at `path`.
    NamespaceOpen { path: String, detail: String },
    /// The value stored under `key` could not be decoded.
    Decode { key: String, detail: String },
    /// The input of a save is not a record.
    InputShape,
}

impl CommandError {
    /// The short title of the failure.
    pub open spec fn title_text(&self) -> Seq<char> {
        match self {
            CommandError::Decode { .. } => "decode error"@,
            CommandError::InputShape => "input error"@,
            _ => "db error"@,
        }
    }

    /// The text that locates the failure.
    pub open spec fn label_text(&self) -> Seq<char> {
        match self {
            CommandError::Path { path } => "directory not found: "@ + path@,
            CommandError::StoreOpen { path, detail } => "failed to connect sled db "@ + path@
                + ": "@ + detail@,
            CommandError::NamespaceOpen { path, detail } => "failed to open tree in "@ + path@
                + ": "@ + detail@,
            CommandError::Decode { key, detail } => "failed to decode value for key "@ + key@
                + ": "@ + detail@,
            CommandError::InputShape => "data must be a record"@,
        }
    }

    /// The short title of the failure.
    pub fn title(&self) -> (text: String)
        ensures
            text@ == self.title_text(),
    {
        match self {
            CommandError::Decode { .. } => String::from_str("decode error"),
            CommandError::InputShape => String::from_str("input error"),
            _ => String::from_str("db error"),
        }
    }

    /// The text that locates the failure.
    pub fn label(&self) -> (text: String)
        ensures
            text@ == self.label_text(),
    {
        match self {
            CommandError::Path { path } => String::from_str("directory not found: ").concat(
                path.as_str(),
            ),
            CommandError::StoreOpen { path, detail } => String::from_str(
                "failed to connect sled db ",
            ).concat(path.as_str()).concat(": ").concat(detail.as_str()),
            CommandError::NamespaceOpen { path, detail } => String::from_str(
                "failed to open tree in ",
            ).concat(path.as_str()).concat(": ").concat(detail.as_str()),
            CommandError::Decode { key, detail } => String::from_str(
                "failed to decode value for key ",
            ).concat(key.as_str()).concat(": ").concat(detail.as_str()),
            CommandError::InputShape => String::from_str("data must be a record"),
        }
    }
}

} // verus!
