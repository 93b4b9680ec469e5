//! Client side of a signed request/response protocol between the actors and
//! capability providers of a lattice: addressing, the invocation envelope and
//! its integrity hash, and the rules that turn a transport outcome into a
//! payload or a typed error.
pub mod codec;
pub mod decode;
pub mod digest;
pub mod entity;
pub mod envelope;
pub mod error;
pub mod parse;
pub mod rpc_client;
pub mod signing;
pub mod text;
pub mod wasmbus_model;
