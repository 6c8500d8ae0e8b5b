//! The ways in which checking or rewriting a manifest can fail.

use vstd::prelude::*;
use vstd::string::*;

verus! {

/// Why an operation of this library failed.
#[derive(Debug, Clone, Copy, PartialEq, Eq, Structural)]
pub enum CcuError {
    /// The manifest text is not well-formed.
    ParseError,
    /// The dependency entry has no string version field that could be rewritten.
    UnsupportedFormat,
    /// The section, or the entry within it, is absent from the manifest.
    NotFound,
    /// The registry had no usable answer for a package.
    RegistryError,
    /// The version range does not reduce to a three-component version.
    InvalidVersion,
}

impl CcuError {
    /// The text of the message for each error.
    pub open spec fn message_spec(self) -> Seq<char> {
        match self {
            CcuError::ParseError => "Failed to parse Cargo.toml"@,
            CcuError::UnsupportedFormat => "Unsupported dependency format"@,
            CcuError::NotFound => "Dependency not found"@,
            CcuError::RegistryError => "Failed to query crates.io"@,
            CcuError::InvalidVersion => "Invalid version"@,
        }
    }

    /// A short description of the error, for display.
    pub fn message(&self) -> (text: String)
        ensures
            text@ == self.message_spec(),
    {
        match self {
            CcuError::ParseError => String::from_str("Failed to parse Cargo.toml"),
            CcuError::UnsupportedFormat => String::from_str("Unsupported dependency format"),
            CcuError::NotFound => String::from_str("Dependency not found"),
            CcuError::RegistryError => String::from_str("Failed to query crates.io"),
            CcuError::InvalidVersion => String::from_str("Invalid version"),
        }
    }
}

} // verus!
