//! The errors of the library.

use vstd::prelude::*;
use crate::provider::push_all;

verus! {

/// Why a repair, an import or a restart failed. Paths are given as text;
/// the causes reported by the file system, SQLite, serde_json or
/// toml_edit are given by their messages.
pub enum RepairError {
    HomeDirUnavailable,
    CodexDirMissing(String),
    CcSwitchDbMissing(String),
    Io { path: String, message: String },
    Sqlite { path: String, message: String },
    JsonParse { path: String, message: String },
    JsonSerialize(String),
    TomlParse { path: String, message: String },
    ProviderImport(String),
    Restart(String),
}

/// The model of a [`RepairError`].
pub enum ErrorData {
    HomeDirUnavailable,
    CodexDirMissing(Seq<char>),
    CcSwitchDbMissing(Seq<char>),
    Io { path: Seq<char>, message: Seq<char> },
    Sqlite { path: Seq<char>, message: Seq<char> },
    JsonParse { path: Seq<char>, message: Seq<char> },
    JsonSerialize(Seq<char>),
    TomlParse { path: Seq<char>, message: Seq<char> },
    ProviderImport(Seq<char>),
    Restart(Seq<char>),
}

impl View for RepairError {
    type V = ErrorData;

    open spec fn view(&self) -> ErrorData {
        match self {
            RepairError::HomeDirUnavailable => ErrorData::HomeDirUnavailable,
            RepairError::CodexDirMissing(p) => ErrorData::CodexDirMissing(p@),
            RepairError::CcSwitchDbMissing(p) => ErrorData::CcSwitchDbMissing(p@),
            RepairError::Io { path, message } => ErrorData::Io { path: path@, message: message@ },
            RepairError::Sqlite { path, message } => ErrorData::Sqlite {
                path: path@,
                message: message@,
            },
            RepairError::JsonParse { path, message } => ErrorData::JsonParse {
                path: path@,
                message: message@,
            },
            RepairError::JsonSerialize(m) => ErrorData::JsonSerialize(m@),
            RepairError::TomlParse { path, message } => ErrorData::TomlParse {
                path: path@,
                message: message@,
            },
            RepairError::ProviderImport(m) => ErrorData::ProviderImport(m@),
            RepairError::Restart(m) => ErrorData::Restart(m@),
        }
    }
}

/// The text that describes an error.
pub open spec fn error_message(e: ErrorData) -> Seq<char> {
    match e {
        ErrorData::HomeDirUnavailable => "could not find a home directory"@,
        ErrorData::CodexDirMissing(p) => "Codex directory does not exist: "@ + p,
        ErrorData::CcSwitchDbMissing(p) => "cc-switch database does not exist: "@ + p,
        ErrorData::Io { path, message } => "I/O error at "@ + path + ": "@ + message,
        ErrorData::Sqlite { path, message } => "SQLite error at "@ + path + ": "@ + message,
        ErrorData::JsonParse { path, message } => "JSON parse failed at "@ + path + ": "@ + message,
        ErrorData::JsonSerialize(m) => "JSON serialization failed: "@ + m,
        ErrorData::TomlParse { path, message } => "TOML parse failed at "@ + path + ": "@ + message,
        ErrorData::ProviderImport(m) => "provider import failed: "@ + m,
        ErrorData::Restart(m) => "failed to restart Codex: "@ + m,
    }
}

impl RepairError {
    /// The text that describes the error (see [`error_message`]).
    pub fn message(&self) -> (r: String)
        ensures
            r@ == error_message(self@),
    {
        let mut r = String::new();
        match self {
            RepairError::HomeDirUnavailable => {
                push_all(&mut r, "could not find a home directory");
            },
            RepairError::CodexDirMissing(p) => {
                push_all(&mut r, "Codex directory does not exist: ");
                push_all(&mut r, p.as_str());
            },
            RepairError::CcSwitchDbMissing(p) => {
                push_all(&mut r, "cc-switch database does not exist: ");
                push_all(&mut r, p.as_str());
            },
            RepairError::Io { path, message } => {
                push_all(&mut r, "I/O error at ");
                push_all(&mut r, path.as_str());
                push_all(&mut r, ": ");
                push_all(&mut r, message.as_str());
            },
            RepairError::Sqlite { path, message } => {
                push_all(&mut r, "SQLite error at ");
                push_all(&mut r, path.as_str());
                push_all(&mut r, ": ");
                push_all(&mut r, message.as_str());
            },
            RepairError::JsonParse { path, message } => {
                push_all(&mut r, "JSON parse failed at ");
                push_all(&mut r, path.as_str());
                push_all(&mut r, ": ");
                push_all(&mut r, message.as_str());
            },
            RepairError::JsonSerialize(m) => {
                push_all(&mut r, "JSON serialization failed: ");
                push_all(&mut r, m.as_str());
            },
            RepairError::TomlParse { path, message } => {
                push_all(&mut r, "TOML parse failed at ");
                push_all(&mut r, path.as_str());
                push_all(&mut r, ": ");
                push_all(&mut r, message.as_str());
            },
            RepairError::ProviderImport(m) => {
                push_all(&mut r, "provider import failed: ");
                push_all(&mut r, m.as_str());
            },
            RepairError::Restart(m) => {
                push_all(&mut r, "failed to restart Codex: ");
                push_all(&mut r, m.as_str());
            },
        }
        assert(r@ =~= error_message(self@));
        r
    }
}

} // verus!
