//! Client-side engine that turns a publish/subscribe transport into request/
//! response calls and a reconciled local mirror of remote sensors and their
//! metrics.
//!
//! - `ids`: 128-bit entity identifiers and their topic text.
//! - `topic`: the operation catalog, topic rendering and parsing, and the
//!   reverse index from reply templates to operations.
//! - `sensor`, `protocol`: the data model and message bodies.
//! - `state`: the mirror and its reconciliation handlers.
//! - `actor`: routing of inbound messages and the serialized inbox.
//! - `client`: the messages each client command sends.
//! - `correlator`: single-flight request/response over the transport.
//! - `window`: bounded, timestamp-ordered livedata windows.

use vstd::prelude::*;

pub mod ids;
pub mod topic;
pub mod window;
pub mod sensor;
pub mod protocol;
pub mod state;
pub mod actor;
pub mod client;
pub mod correlator;

verus! {

} // verus!
