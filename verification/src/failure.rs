//! Why an update request did not go through.

use vstd::prelude::*;
use vstd::string::StringExecFns;

verus! {

/// The ways in which an update request fails.
#[derive(Debug, Clone)]
pub enum Failure {
    /// The filter does not hold the table's primary key.
    InvalidFilter,
    /// The surroundings gave no configuration for reaching the store.
    MissingBackendConfig,
    /// A field's value has no counterpart in the store; holds the converter's words.
    Conversion(String),
    /// The store refused or failed the update; holds the store's words.
    Store(String),
}

impl Failure {
    /// The machine-readable code, for the failures that have one.
    pub open spec fn code_text(&self) -> Option<Seq<char>> {
        match self {
            Failure::InvalidFilter => Some("INVALID_FILTER"@),
            Failure::MissingBackendConfig => Some("NO_SDK_CONFIG"@),
            Failure::Conversion(_) => None,
            Failure::Store(_) => None,
        }
    }

    /// The words for a human reader: fixed for the failures with a code,
    /// and otherwise those of whoever reported the failure.
    pub open spec fn message_text(&self) -> Seq<char> {
        match self {
            Failure::InvalidFilter => "Please provide table's primary key in filter"@,
            Failure::MissingBackendConfig => "No aws sdk config found in handler context"@,
            Failure::Conversion(words) => words@,
            Failure::Store(words) => words@,
        }
    }

    /// The machine-readable code, for the failures that have one.
    pub fn code(&self) -> (code: Option<String>)
        ensures
            match code {
                Some(text) => self.code_text() == Some(text@),
                None => self.code_text().is_none(),
            },
    {
        match self {
            Failure::InvalidFilter => Some(String::from_str("INVALID_FILTER")),
            Failure::MissingBackendConfig => Some(String::from_str("NO_SDK_CONFIG")),
            Failure::Conversion(_) => None,
            Failure::Store(_) => None,
        }
    }

    /// The words for a human reader.
    pub fn message(&self) -> (words: String)
        ensures
            words@ == self.message_text(),
    {
        match self {
            Failure::InvalidFilter => String::from_str(
                "Please provide table's primary key in filter",
            ),
            Failure::MissingBackendConfig => String::from_str(
                "No aws sdk config found in handler context",
            ),
            Failure::Conversion(words) => words.clone(),
            Failure::Store(words) => words.clone(),
        }
    }
}

} // verus!
