//! Verified client-side logic for reading the hardware health of a server's
//! out-of-band management controller over its Redfish HTTP API.
//!
//! The crate covers the parts of the flow that have a real contract:
//! discovering the controller's IPv4 address in the diagnostic output of a
//! local management tool, deriving the session token from a login response,
//! and encoding/decoding the chassis health document.  All network and
//! process I/O is left to the embedding application, which hands this
//! library plain bytes and strings.

pub mod command;
pub mod extract;
pub mod chassis;
pub mod json;
pub mod session;
