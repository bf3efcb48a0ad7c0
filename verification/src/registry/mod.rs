//! What a registry stores and how it answers: errors, paths, index files, and the overlay of a
//! local layer on an upstream.

use crate::outside;
use crate::text;
use vstd::prelude::*;
use vstd::string::*;

pub mod index;
pub mod local;
pub mod overlay;
pub mod proxy;
pub mod publish;

verus! {

broadcast use vstd::string::group_string_axioms;

/// Error type for registry operations.
#[derive(Debug)]
pub enum RegistryError {
    /// Crate or version not found
    NotFound,
    /// Invalid metadata or request
    InvalidRequest(String),
    /// Storage I/O error
    Storage(std::io::Error),
    /// Serialization error
    Serialization(serde_json::Error),
    /// Validation failed
    ValidationFailed(Vec<String>),
    /// Network/HTTP error
    Network(String),
    /// Operation not supported
    NotSupported,
}

/// What an error says, where `detail` is what the error inside it says.
pub open spec fn description(error: RegistryError, detail: Seq<char>) -> Seq<char> {
    match error {
        RegistryError::NotFound => "not found"@,
        RegistryError::InvalidRequest(msg) => "invalid request: "@ + msg@,
        RegistryError::Storage(_) => "storage error: "@ + detail,
        RegistryError::Serialization(_) => "serialization error: "@ + detail,
        RegistryError::ValidationFailed(errors) => "validation failed: "@ + text::joined(
            text::texts(errors@),
            "; "@,
        ),
        RegistryError::Network(msg) => "network error: "@ + msg@,
        RegistryError::NotSupported => "operation not supported"@,
    }
}

/// Whether `detail` is what the error inside an error says, where there is one.
pub open spec fn is_detail(error: RegistryError, detail: Seq<char>) -> bool {
    match error {
        RegistryError::Storage(e) => outside::io_error_says(e, detail),
        RegistryError::Serialization(e) => outside::json_error_says(e, detail),
        _ => true,
    }
}

/// Whether `said` is what an error says, with what the error inside it says.
pub open spec fn describes(said: Seq<char>, error: RegistryError) -> bool {
    exists|detail: Seq<char>|
        is_detail(error, detail) && said == #[trigger] description(error, detail)
}

impl RegistryError {
    /// What the error says, where `detail` is what the error inside it says.
    pub fn describe(&self, detail: &str) -> (r: String)
        ensures
            r@ == description(*self, detail@),
    {
        match self {
            RegistryError::NotFound => String::from_str("not found"),
            RegistryError::InvalidRequest(msg) => text::concat("invalid request: ", msg.as_str()),
            RegistryError::Storage(_) => text::concat("storage error: ", detail),
            RegistryError::Serialization(_) => text::concat("serialization error: ", detail),
            RegistryError::ValidationFailed(errors) => text::concat(
                "validation failed: ",
                text::join(errors.as_slice(), "; ").as_str(),
            ),
            RegistryError::Network(msg) => text::concat("network error: ", msg.as_str()),
            RegistryError::NotSupported => String::from_str("operation not supported"),
        }
    }

    /// What the error says, with what the error inside it says.
    pub fn to_text(&self) -> (r: String)
        ensures
            describes(r@, *self),
    {
        let detail = match self {
            RegistryError::Storage(e) => outside::say_io_error(e),
            RegistryError::Serialization(e) => outside::say_json_error(e),
            _ => String::new(),
        };
        self.describe(detail.as_str())
    }

    /// The storage error inside, where there is one.
    pub fn storage_source(&self) -> (r: Option<&std::io::Error>)
        ensures
            r == (match *self {
                RegistryError::Storage(e) => Some(&e),
                _ => None,
            }),
    {
        match self {
            RegistryError::Storage(e) => Some(e),
            _ => None,
        }
    }

    /// The JSON error inside, where there is one.
    pub fn serialization_source(&self) -> (r: Option<&serde_json::Error>)
        ensures
            r == (match *self {
                RegistryError::Serialization(e) => Some(&e),
                _ => None,
            }),
    {
        match self {
            RegistryError::Serialization(e) => Some(e),
            _ => None,
        }
    }
}

impl From<std::io::Error> for RegistryError {
    fn from(e: std::io::Error) -> (r: Self) {
        RegistryError::Storage(e)
    }
}

impl vstd::std_specs::convert::FromSpecImpl<std::io::Error> for RegistryError {
    open spec fn obeys_from_spec() -> bool {
        true
    }

    open spec fn from_spec(e: std::io::Error) -> Self {
        RegistryError::Storage(e)
    }
}

impl From<serde_json::Error> for RegistryError {
    fn from(e: serde_json::Error) -> (r: Self) {
        RegistryError::Serialization(e)
    }
}

impl vstd::std_specs::convert::FromSpecImpl<serde_json::Error> for RegistryError {
    open spec fn obeys_from_spec() -> bool {
        true
    }

    open spec fn from_spec(e: serde_json::Error) -> Self {
        RegistryError::Serialization(e)
    }
}

/// What an error says ends with its cause: what the error inside it says, its message, or each of
/// the things that did not pass.
pub proof fn law_errors_say_their_cause(error: RegistryError, detail: Seq<char>)
    ensures
        error is NotFound ==> description(error, detail) == "not found"@,
        error is NotSupported ==> description(error, detail) == "operation not supported"@,
        error matches RegistryError::InvalidRequest(msg) ==> description(error, detail)
            == "invalid request: "@ + msg@,
        error matches RegistryError::Network(msg) ==> description(error, detail)
            == "network error: "@ + msg@,
        error is Storage ==> description(error, detail) == "storage error: "@ + detail,
        error is Serialization ==> description(error, detail) == "serialization error: "@ + detail,
        error matches RegistryError::ValidationFailed(errors) ==> description(error, detail)
            == "validation failed: "@ + text::joined(text::texts(errors@), "; "@),
{
}

} // verus!
