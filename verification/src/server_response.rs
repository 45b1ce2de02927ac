//! Events as responses whose body is boxed from bytes, as a server hands
//! them out.

use crate::event::Event;
use crate::message::MessageError;
use crate::outside::builder_into_boxed;
use crate::response::{carries_event, finished, streamed_outcome};
use crate::serializer::{MessageBuilder, Serializer};
use crate::staged::{Staged, lemma_wire_names};
use crate::wire::{Terminal, wire_headers};
use vstd::prelude::*;

verus! {

/// The builder behind `event_to_response`.
pub struct Adapter {
    staged: Staged,
}

impl MessageBuilder<http::Response<axum::body::Body>> for Adapter {
    closed spec fn is_open(&self) -> bool {
        self.staged.is_open()
    }

    closed spec fn handed(&self) -> Seq<(Seq<char>, Seq<u8>)> {
        self.staged.handed()
    }

    open spec fn outcome(
        handed: Seq<(Seq<char>, Seq<u8>)>,
        terminal: Terminal,
        result: Result<http::Response<axum::body::Body>, MessageError>,
    ) -> bool {
        streamed_outcome(handed, terminal, result)
    }

    fn header(&mut self, key: &str, value: http::HeaderValue) {
        self.staged.header(key, value);
    }

    fn body(&mut self, bytes: Vec<u8>) -> (r: Result<
        http::Response<axum::body::Body>,
        MessageError,
    >) {
        finished(builder_into_boxed(self.staged.take(), bytes))
    }

    fn finish(&mut self) -> (r: Result<http::Response<axum::body::Body>, MessageError>) {
        self.body(Vec::new())
    }
}

/// Writes an event as a response in binary mode, its body boxed from the
/// payload's bytes.
///
/// The response has the status 200, one header for the version and for
/// each attribute and extension of the event, and a body that yields the
/// payload, or nothing where the event has none. An event with a value
/// that cannot stand in a header is refused. Otherwise the response is
/// owed unless the headers are more than a header map is sure to take.
pub fn event_to_response(event: Event) -> (r: Result<
    http::Response<axum::body::Body>,
    MessageError,
>)
    ensures
        carries_event(event@, r),
{
    proof {
        use_type_invariant(&event);
        lemma_wire_names(event@);
    }
    let serializer = Serializer::new(Adapter { staged: Staged::new() });
    assert(serializer.handed() + wire_headers(event@) =~= wire_headers(event@));
    event.deserialize_binary(serializer)
}

} // verus!
