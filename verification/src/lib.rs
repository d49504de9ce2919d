//! Read-only query surface of a ledger node: object state at current and
//! historical versions, checkpoint lookups, cursor-paginated listings,
//! normalization of package bytecode into a module model, and canonical
//! decoding and digesting of transaction bytes.

pub mod bytes;
pub mod checkpoint;
pub mod codec;
pub mod introspect;
pub mod listings;
pub mod pagination;
pub mod resolver;
