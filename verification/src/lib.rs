//! Server-side session and data-plane runtime for a remote tabular-data
//! service: the streaming chunk codec, the identifier-keyed frame registry,
//! the single-use challenge service, the key ring for signed requests, the
//! bearer-token interceptor, and the composite-plan evaluator.
//!
//! The columnar engine that materialises frames, the RPC transport, and the
//! cryptographic primitives are external collaborators; the runtime works on
//! plain values (bytes, strings) that cross those boundaries.

pub mod auth;
pub mod challenge;
pub mod codec;
pub mod error;
pub mod frame;
pub mod keys;
pub mod plan;
pub mod registry;
pub mod state;
