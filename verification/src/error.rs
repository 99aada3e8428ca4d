//! The library's error type and the text each error renders as.
use vstd::prelude::*;
use vstd::string::*;

verus! {

#[verifier::external_type_specification]
#[verifier::external_body]
pub struct ExIoError(std::io::Error);

#[derive(Debug)]
pub enum Error {
    NotFound { namespace: String, var: String },
    AlreadyExists { namespace: String, var: String },
    Keychain(String),
    Invalid(String),
    Io(std::io::Error),
    Toml(String),
    Database(String),
    ManifestNotFound { start: String },
}

pub type Result<T> = core::result::Result<T, Error>;

/// The text an I/O error renders as (std's `Display` for `std::io::Error`).
/// Nothing is stated of it: it depends on the operating system's messages.
#[verifier::external_body]
fn io_error_text(e: &std::io::Error) -> String {
    format!("{}", e)
}

impl Error {
    /// The message of a `NotFound` error.
    pub open spec fn not_found_text(namespace: Seq<char>, var: Seq<char>) -> Seq<char> {
        "secret '"@ + var + "' not found in namespace '"@ + namespace + "'"@
    }

    /// The message of an `AlreadyExists` error.
    pub open spec fn already_exists_text(namespace: Seq<char>, var: Seq<char>) -> Seq<char> {
        "secret '"@ + var + "' already exists in namespace '"@ + namespace + "'"@
    }

    /// The message each error renders as, but for `Io`, whose message carries
    /// the operating system's text after the prefix `io error: `.
    pub open spec fn message_text(&self) -> Seq<char> {
        match self {
            Error::NotFound { namespace, var } => Self::not_found_text(namespace@, var@),
            Error::AlreadyExists { namespace, var } => Self::already_exists_text(namespace@, var@),
            Error::Keychain(m) => "keychain error: "@ + m@,
            Error::Invalid(m) => "invalid input: "@ + m@,
            Error::Io(_) => "io error: "@,
            Error::Toml(m) => "toml parse error: "@ + m@,
            Error::Database(m) => "database error: "@ + m@,
            Error::ManifestNotFound { start } => "no stowe.toml found in "@ + start@
                + " or any ancestor"@,
        }
    }

    /// Human-readable message for the error.
    pub fn message(&self) -> (m: String)
        ensures
            !(self is Io) ==> m@ == self.message_text(),
            self is Io ==> m@.len() >= self.message_text().len() && m@.subrange(
                0,
                self.message_text().len() as int,
            ) == self.message_text(),
    {
        let mut m = String::new();
        match self {
            Error::NotFound { namespace, var } => {
                m.append("secret '");
                m.append(var.as_str());
                m.append("' not found in namespace '");
                m.append(namespace.as_str());
                m.append("'");
            },
            Error::AlreadyExists { namespace, var } => {
                m.append("secret '");
                m.append(var.as_str());
                m.append("' already exists in namespace '");
                m.append(namespace.as_str());
                m.append("'");
            },
            Error::Keychain(s) => {
                m.append("keychain error: ");
                m.append(s.as_str());
            },
            Error::Invalid(s) => {
                m.append("invalid input: ");
                m.append(s.as_str());
            },
            Error::Io(e) => {
                m.append("io error: ");
                let t = io_error_text(e);
                let ghost before = m@;
                m.append(t.as_str());
                assert(m@.subrange(0, before.len() as int) =~= before);
            },
            Error::Toml(s) => {
                m.append("toml parse error: ");
                m.append(s.as_str());
            },
            Error::Database(s) => {
                m.append("database error: ");
                m.append(s.as_str());
            },
            Error::ManifestNotFound { start } => {
                m.append("no stowe.toml found in ");
                m.append(start.as_str());
                m.append(" or any ancestor");
            },
        }
        m
    }
}

impl From<std::io::Error> for Error {
    fn from(e: std::io::Error) -> (r: Self) {
        Error::Io(e)
    }
}

impl vstd::std_specs::convert::FromSpecImpl<std::io::Error> for Error {
    open spec fn obeys_from_spec() -> bool {
        true
    }

    open spec fn from_spec(e: std::io::Error) -> Self {
        Error::Io(e)
    }
}

} // verus!
