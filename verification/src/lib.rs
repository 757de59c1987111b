//! A foreign-function boundary for an asynchronous HTTP client.
//!
//! A caller written against a C-style memory model drives HTTP operations
//! through opaque handles and flat, ownership-transferring data: fixed-width
//! strings, byte buffers, and parallel key/value arrays. This crate holds the
//! verified half of that boundary:
//!
//! - [`cdata`] marshals single foreign strings and buffers to and from owned
//!   native values, enforcing the null-pointer and length invariants;
//! - [`mapping`] marshals parallel key/value arrays to and from a native
//!   string-to-string mapping, tolerating malformed entries;
//! - [`handle`] is the opaque-handle protocol: every value handed outward is
//!   allocated once and reclaimed exactly once through a matching release;
//! - [`net`] is the callable surface: client construction and release, the
//!   request operations, and the response accessors;
//! - [`timer`] is the decision core of the timer subsystem that sits beside
//!   the boundary: handle assignment, expiry, and cancellation.
//!
//! The HTTP engine itself is an external collaborator: the request entry
//! points decode the foreign inputs into a request for it, and a completion
//! step wraps whatever outcome it reports. Performing the network I/O, and
//! the shared runtime that blocks on it, live outside this crate.

pub mod cdata;
pub mod handle;
pub mod mapping;
pub mod net;
pub mod timer;
