//! Errors raised by schema validation.

use vstd::prelude::*;

use crate::text::{decimal, push_decimal, push_str, string_from_chars};

verus! {

/// Errors raised by schema validation.
#[derive(Debug, Clone, PartialEq, Eq)]
pub enum SchemaError {
    SchemaVersion { found: u32, min: u32, max: u32 },
    PlaceholderPresent { path: String },
    DanglingReference { referer: String, referent: String, kind: &'static str },
    InvalidValue { path: String, reason: String },
}

/// The human-readable text of an error.
pub open spec fn schema_error_text(e: SchemaError) -> Seq<char> {
    match e {
        SchemaError::SchemaVersion { found, min, max } => "schema_version "@ + decimal(found as nat)
            + " not supported (oldest supported: "@ + decimal(min as nat) + ", newest: "@ + decimal(
            max as nat,
        ) + ")"@,
        SchemaError::PlaceholderPresent { path } => "placeholder at "@ + path@
            + ": scenarios with PLACEHOLDER values cannot ship in release"@,
        SchemaError::DanglingReference { referer, referent, kind } => "missing reference: "@
            + referer@ + " → "@ + referent@ + " (kind: "@ + kind@ + ")"@,
        SchemaError::InvalidValue { path, reason } => "invalid value at "@ + path@ + ": "@ + reason@,
    }
}

impl SchemaError {
    /// The human-readable text of the error.
    pub fn message(&self) -> (s: String)
        ensures
            s@ == schema_error_text(*self),
    {
        let mut v: Vec<char> = Vec::new();
        match self {
            SchemaError::SchemaVersion { found, min, max } => {
                push_str(&mut v, "schema_version ");
                push_decimal(*found as u64, &mut v);
                push_str(&mut v, " not supported (oldest supported: ");
                push_decimal(*min as u64, &mut v);
                push_str(&mut v, ", newest: ");
                push_decimal(*max as u64, &mut v);
                push_str(&mut v, ")");
            },
            SchemaError::PlaceholderPresent { path } => {
                push_str(&mut v, "placeholder at ");
                push_str(&mut v, path.as_str());
                push_str(&mut v, ": scenarios with PLACEHOLDER values cannot ship in release");
            },
            SchemaError::DanglingReference { referer, referent, kind } => {
                push_str(&mut v, "missing reference: ");
                push_str(&mut v, referer.as_str());
                push_str(&mut v, " → ");
                push_str(&mut v, referent.as_str());
                push_str(&mut v, " (kind: ");
                push_str(&mut v, kind);
                push_str(&mut v, ")");
            },
            SchemaError::InvalidValue { path, reason } => {
                push_str(&mut v, "invalid value at ");
                push_str(&mut v, path.as_str());
                push_str(&mut v, ": ");
                push_str(&mut v, reason.as_str());
            },
        }
        proof {
            assert(v@ =~= schema_error_text(*self));
        }
        string_from_chars(v.as_slice())
    }
}

} // verus!
