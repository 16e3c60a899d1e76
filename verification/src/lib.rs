//! Authentication and request-identity core of a small chat backend.
//!
//! The crate covers credential hashing and verification, signed-token
//! issuance and validation, the middleware decisions that turn a bearer
//! token into a trusted request identity, and the accessor that reads
//! that identity back out of a request context.

pub mod accounts;
pub mod b64;
pub mod claims;
pub mod digits;
pub mod errors;
pub mod hashing;
pub mod middleware;
pub mod models;
pub mod token;
