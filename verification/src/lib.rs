//! Verified core of a desktop API workbench: planning of forwarded HTTP
//! requests, assembly of the response envelope, and the document store that
//! keeps request collections and environment sets.
//!
//! Everything here works on plain values. Sending a request and touching the
//! disk are left to the caller, which hands in what it observed and carries
//! out what the library decides.

pub mod failure;
pub mod method;
pub mod forward;
pub mod response;
pub mod model;
pub mod names;
pub mod listing;
pub mod store;

pub use response::ProxyResponse;
