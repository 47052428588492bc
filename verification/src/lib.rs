//! The per-connection logic of a small forward proxy, free of I/O.
//!
//! A connection is served in steps: the request head is captured from
//! whatever fragments the client's reads return ([`capture`]), the request
//! line and the `Host` header are read out of it ([`request`]), the address
//! of the upstream is resolved ([`target`]), and, once the upstream is
//! connected, the two streams are joined after a handshake that depends on
//! the method. [`session::Session`] holds these steps together as a state
//! machine. Everything here works on plain bytes and text; the sockets
//! belong to the program that drives the session.
pub mod capture;
pub mod error;
pub mod request;
pub mod search;
pub mod session;
pub mod target;
pub mod text;
