//! Events as responses of `http` with a body of bytes.

use crate::event::Event;
use crate::message::MessageError;
use crate::outside::{
    HEADER_ROOM, builder_into_response, response_body, response_headers, response_status,
};
use crate::serializer::{MessageBuilder, Serializer};
use crate::staged::{Staged, accepted, all_names_valid, lemma_wire_names, lowered};
use crate::wire::{Terminal, all_values_valid, terminal_bytes, wire_headers, wire_terminal};
use vstd::prelude::*;

verus! {

/// Turns what the builder of `http` made into the result of the pass.
pub fn finished(made: Result<http::Response<Vec<u8>>, http::Error>) -> (r: Result<
    http::Response<Vec<u8>>,
    MessageError,
>)
    ensures
        match made {
            Ok(response) => r == Ok::<http::Response<Vec<u8>>, MessageError>(response),
            Err(source) => r == Err::<http::Response<Vec<u8>>, MessageError>(
                MessageError::Other { source },
            ),
        },
{
    match made {
        Ok(response) => Ok(response),
        Err(source) => Err(MessageError::Other { source }),
    }
}

/// The builder behind `to_response`.
pub struct Adapter {
    staged: Staged,
}

impl MessageBuilder<http::Response<Vec<u8>>> for Adapter {
    closed spec fn is_open(&self) -> bool {
        self.staged.is_open()
    }

    closed spec fn handed(&self) -> Seq<(Seq<char>, Seq<u8>)> {
        self.staged.handed()
    }

    /// A response has the status 200, the headers that were handed over,
    /// their names in small letters, and the body that the pass ended with.
    /// It is owed where the headers are accepted; the error otherwise is
    /// the builder's own.
    open spec fn outcome(
        handed: Seq<(Seq<char>, Seq<u8>)>,
        terminal: Terminal,
        result: Result<http::Response<Vec<u8>>, MessageError>,
    ) -> bool {
        match result {
            Ok(response) => {
                &&& all_names_valid(handed)
                &&& response_status(response) == 200
                &&& response_headers(response) == lowered(handed).to_multiset()
                &&& response_body(response) == terminal_bytes(terminal)
            },
            Err(e) => e is Other && !accepted(handed),
        }
    }

    fn header(&mut self, key: &str, value: http::HeaderValue) {
        self.staged.header(key, value);
    }

    fn body(&mut self, bytes: Vec<u8>) -> (r: Result<http::Response<Vec<u8>>, MessageError>) {
        finished(builder_into_response(self.staged.take(), bytes))
    }

    fn finish(&mut self) -> (r: Result<http::Response<Vec<u8>>, MessageError>) {
        self.body(Vec::new())
    }
}

/// Writes an event as a response in binary mode.
///
/// The response has the status 200, one header for the version and for
/// each attribute and extension of the event, and the payload as its body,
/// or an empty body where the event has none. An event with a value that
/// cannot stand in a header is refused. Otherwise the response is owed
/// unless the headers are more than a header map is sure to take.
pub fn to_response(event: Event) -> (r: Result<http::Response<Vec<u8>>, MessageError>)
    ensures
        match r {
            Ok(response) => {
                &&& all_values_valid(wire_headers(event@))
                &&& response_status(response) == 200
                &&& response_headers(response) == wire_headers(event@).to_multiset()
                &&& response_body(response) == terminal_bytes(wire_terminal(event@))
            },
            Err(e) => if all_values_valid(wire_headers(event@)) {
                e is Other && wire_headers(event@).len() > HEADER_ROOM
            } else {
                e is InvalidHeaderValue
            },
        },
{
    proof {
        use_type_invariant(&event);
        lemma_wire_names(event@);
    }
    let serializer = Serializer::new(Adapter { staged: Staged::new() });
    assert(serializer.handed() + wire_headers(event@) =~= wire_headers(event@));
    event.deserialize_binary(serializer)
}

} // verus!
