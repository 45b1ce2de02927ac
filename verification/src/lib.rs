//! Events over HTTP in binary mode.
//!
//! An event travels as the headers and the body of a message: the version
//! and each attribute and extension in a header of its own, its name behind
//! the marker `ce-`, and the payload as the body, byte for byte.
//!
//! * [`event`] holds the event itself.
//! * [`wire`] says which headers and which body an event is written as, and
//!   [`serializer`] writes them, one by one, to anything that can build a
//!   message.
//! * [`adapter`], [`response`] and [`server_response`] build responses of
//!   `http` and `axum` that way, all of them over the builder in [`staged`].
//! * [`extract`] reads an event back from headers and a body.
//! * [`laws`] states what holds between the two directions.
//! * [`outside`] lists what is called in other crates, and what is taken on
//!   trust of it.

pub mod adapter;
pub mod event;
pub mod extract;
pub mod laws;
pub mod message;
pub mod outside;
pub mod response;
pub mod scalar;
pub mod serializer;
pub mod server_response;
pub mod staged;
pub mod text;
pub mod wire;
