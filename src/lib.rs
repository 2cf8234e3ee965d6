//! Reader for a content-addressed object store: identifiers are resolved to
//! storage paths, objects are inflated, their `kind SP size NUL` header is
//! parsed and the payload is checked to be exactly the declared size.

pub mod hash;
pub mod error;
pub mod header;
pub mod object;
pub mod inflate;
pub mod laws;
