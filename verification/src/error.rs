//! Terminal status values returned to the client.
//!
//! Errors from collaborators are caught at the boundary and mapped to one of
//! these kinds with a human-readable reason; nothing panics upward.

use vstd::prelude::*;

verus! {

/// The status kinds a request can terminate with. Each variant carries the
/// human-readable reason shown to the client.
#[derive(Debug)]
pub enum Status {
    /// Malformed metadata, unparseable plan text, or an unparseable header.
    InvalidArgument(String),
    /// Column deserialization failed or the marker layout is broken.
    InvalidPayload(String),
    /// The access-control policy document does not parse.
    InvalidPolicy(String),
    /// The accessory metadata document does not parse.
    InvalidMetadata(String),
    /// A plan left zero or several frames on the stack, or a primitive failed.
    InvalidPlan(String),
    /// The identifier names no registry entry.
    NotFound(String),
    /// Challenge absent or reused, signature invalid, or key unknown.
    PermissionDenied(String),
    /// An operation required an identity and none was attached.
    Unauthenticated(String),
    /// Serialization of a response part failed.
    Internal(String),
}

impl Status {
    /// The human-readable reason carried by this status.
    pub fn message(&self) -> (r: &String)
        ensures
            r@ == self.message_spec(),
    {
        match self {
            Status::InvalidArgument(m) => m,
            Status::InvalidPayload(m) => m,
            Status::InvalidPolicy(m) => m,
            Status::InvalidMetadata(m) => m,
            Status::InvalidPlan(m) => m,
            Status::NotFound(m) => m,
            Status::PermissionDenied(m) => m,
            Status::Unauthenticated(m) => m,
            Status::Internal(m) => m,
        }
    }

    /// The reason string of this status, as a sequence of characters.
    pub open spec fn message_spec(&self) -> Seq<char> {
        match self {
            Status::InvalidArgument(m) => m@,
            Status::InvalidPayload(m) => m@,
            Status::InvalidPolicy(m) => m@,
            Status::InvalidMetadata(m) => m@,
            Status::InvalidPlan(m) => m@,
            Status::NotFound(m) => m@,
            Status::PermissionDenied(m) => m@,
            Status::Unauthenticated(m) => m@,
            Status::Internal(m) => m@,
        }
    }
}

} // verus!
