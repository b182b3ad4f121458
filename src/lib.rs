//! Correlation core of a JSON-RPC client over one duplex byte connection.
//!
//! `id` models request identifiers; `table` keeps the outstanding calls and
//! the connection's state; `framing` turns the byte stream into complete
//! responses; `correlation` registers requests and routes responses, timeouts
//! and the connection's death through the table; `guarantees` states and
//! proves what callers can rely on across those operations.
pub mod correlation;
pub mod error;
pub mod framing;
pub mod guarantees;
pub mod id;
pub mod table;
