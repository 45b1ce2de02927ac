//! Events as responses with a streamed body.

use crate::event::Event;
use crate::message::MessageError;
use crate::outside::{
    HEADER_ROOM, builder_headers, builder_into_streamed, builder_with_header, builder_with_status,
    header_value_from_bytes, new_builder, reassembled, streamed_body, streamed_headers,
    streamed_status,
};
use crate::serializer::{MessageBuilder, Serializer};
use crate::staged::{Staged, accepted, all_names_valid, lemma_wire_names, lowered};
use crate::text::{is_lower_token_char, lemma_lower_token_fixed};
use crate::wire::{Terminal, all_values_valid, terminal_bytes, wire_headers, wire_terminal};
use vstd::prelude::*;
use vstd::string::*;
use vstd::utf8::{encode_utf8, is_ascii_chars, is_ascii_chars_encode_utf8};

verus! {

/// Whether `result` is what ending a builder for a streamed response may
/// return: a response with the status 200, the headers that were handed
/// over, their names in small letters, and the body that the pass ended
/// with. It is owed where the headers are accepted; the error otherwise is
/// the builder's own.
pub open spec fn streamed_outcome(
    handed: Seq<(Seq<char>, Seq<u8>)>,
    terminal: Terminal,
    result: Result<http::Response<axum::body::Body>, MessageError>,
) -> bool {
    match result {
        Ok(response) => {
            &&& all_names_valid(handed)
            &&& streamed_status(response) == 200
            &&& streamed_headers(response) == lowered(handed).to_multiset()
            &&& streamed_body(response) == terminal_bytes(terminal)
        },
        Err(e) => e is Other && !accepted(handed),
    }
}

/// Whether `result` is what writing an event as a streamed response
/// returns: the response that carries the event, or the error of a value
/// that cannot stand in a header, or, where the headers are more than a
/// header map is sure to take, the builder's own error.
pub open spec fn carries_event(
    event: crate::event::EventView,
    result: Result<http::Response<axum::body::Body>, MessageError>,
) -> bool {
    match result {
        Ok(response) => {
            &&& all_values_valid(wire_headers(event))
            &&& streamed_status(response) == 200
            &&& streamed_headers(response) == wire_headers(event).to_multiset()
            &&& streamed_body(response) == terminal_bytes(wire_terminal(event))
        },
        Err(e) => if all_values_valid(wire_headers(event)) {
            e is Other && wire_headers(event).len() > HEADER_ROOM
        } else {
            e is InvalidHeaderValue
        },
    }
}

/// Turns what the builder of `http` made into the result of the pass.
pub fn finished(made: Result<http::Response<axum::body::Body>, http::Error>) -> (r: Result<
    http::Response<axum::body::Body>,
    MessageError,
>)
    ensures
        match made {
            Ok(response) => r == Ok::<http::Response<axum::body::Body>, MessageError>(response),
            Err(source) => r == Err::<http::Response<axum::body::Body>, MessageError>(
                MessageError::Other { source },
            ),
        },
{
    match made {
        Ok(response) => Ok(response),
        Err(source) => Err(MessageError::Other { source }),
    }
}

/// The builder behind `to_response`.
pub struct Adapter {
    staged: Staged,
}

impl MessageBuilder<http::Response<axum::body::Body>> for Adapter {
    closed spec fn is_open(&self) -> bool {
        self.staged.is_open()
    }

    closed spec fn handed(&self) -> Seq<(Seq<char>, Seq<u8>)> {
        self.staged.handed()
    }

    open spec fn outcome(
        handed: Seq<(Seq<char>, Seq<u8>)>,
        terminal: Terminal,
        result: Result<http::Response<axum::body::Body>, MessageError>,
    ) -> bool {
        streamed_outcome(handed, terminal, result)
    }

    fn header(&mut self, key: &str, value: http::HeaderValue) {
        self.staged.header(key, value);
    }

    fn body(&mut self, bytes: Vec<u8>) -> (r: Result<
        http::Response<axum::body::Body>,
        MessageError,
    >) {
        finished(builder_into_streamed(self.staged.take(), bytes))
    }

    fn finish(&mut self) -> (r: Result<http::Response<axum::body::Body>, MessageError>) {
        self.body(Vec::new())
    }
}

/// Writes an event as a streamed response in binary mode.
///
/// The response has the status 200, one header for the version and for
/// each attribute and extension of the event, and a body that yields the
/// payload, or nothing where the event has none. An event with a value
/// that cannot stand in a header is refused. Otherwise the response is
/// owed unless the headers are more than a header map is sure to take.
pub fn to_response(event: Event) -> (r: Result<http::Response<axum::body::Body>, MessageError>)
    ensures
        carries_event(event@, r),
{
    proof {
        use_type_invariant(&event);
        lemma_wire_names(event@);
    }
    let serializer = Serializer::new(Adapter { staged: Staged::new() });
    assert(serializer.handed() + wire_headers(event@) =~= wire_headers(event@));
    event.deserialize_binary(serializer)
}

/// The content type of an error's text.
pub open spec fn text_plain() -> Seq<u8> {
    encode_utf8("text/plain"@)
}

/// The headers of the response that reports an error.
pub open spec fn error_headers() -> Seq<(Seq<char>, Seq<u8>)> {
    seq![("content-type"@, text_plain())]
}

/// The response that reports an error: the status 500 and the error's
/// message as plain text.
pub fn error_response(message: String) -> (r: http::Response<axum::body::Body>)
    ensures
        streamed_status(r) == 500,
        streamed_headers(r) == error_headers().to_multiset(),
        streamed_body(r) == encode_utf8(message@),
{
    let builder = builder_with_status(new_builder(), 500);
    let content_type = "text/plain";
    proof {
        reveal_strlit("text/plain");
        reveal_strlit("content-type");
        assert(is_ascii_chars(content_type@));
        is_ascii_chars_encode_utf8(content_type@);
        assert forall|i: int| 0 <= i < "content-type"@.len() implies is_lower_token_char(
            #[trigger] "content-type"@[i],
        ) by {}
        lemma_lower_token_fixed("content-type"@);
        let none = Seq::<(Seq<char>, Seq<u8>)>::empty();
        none.to_multiset_ensures();
        assert(none.to_multiset().len() == 0);
        assert(error_headers() =~= none.push(("content-type"@, text_plain())));
    }
    match header_value_from_bytes(content_type.as_bytes()) {
        Ok(value) => {
            assert(builder_headers(builder).len() == 0) by {
                vstd::multiset::lemma_multiset_empty_len(builder_headers(builder));
            }
            let builder = builder_with_header(builder, "content-type", value);
            match builder_into_streamed(builder, message.as_str().as_bytes_vec()) {
                Ok(response) => response,
                Err(_) => vstd::pervasive::unreached(),
            }
        },
        Err(_) => vstd::pervasive::unreached(),
    }
}

/// What a result of `to_response` becomes as a response: the response
/// itself, or the response that reports the error.
pub fn respond(result: Result<http::Response<axum::body::Body>, MessageError>) -> (r:
    http::Response<axum::body::Body>)
    ensures
        match result {
            Ok(response) => {
                &&& streamed_status(r) == streamed_status(response)
                &&& streamed_headers(r) == streamed_headers(response)
                &&& streamed_body(r) == streamed_body(response)
            },
            Err(e) => {
                &&& streamed_status(r) == 500
                &&& streamed_headers(r) == error_headers().to_multiset()
                &&& streamed_body(r) == encode_utf8(e.text())
            },
        },
{
    match result {
        Ok(response) => reassembled(response),
        Err(e) => error_response(e.message()),
    }
}

/// An event as a response: the event in binary mode with the status 200,
/// or, where it cannot be written, the status 500 with the error's message
/// as plain text.
///
/// The event is written unless one of its values cannot stand in a header,
/// or its headers are more than a header map is sure to take.
pub fn into_response(event: Event) -> (r: http::Response<axum::body::Body>)
    ensures
        streamed_status(r) == 200 || streamed_status(r) == 500,
        streamed_status(r) == 200 ==> {
            &&& all_values_valid(wire_headers(event@))
            &&& streamed_headers(r) == wire_headers(event@).to_multiset()
            &&& streamed_body(r) == terminal_bytes(wire_terminal(event@))
        },
        streamed_status(r) == 500 ==> {
            &&& streamed_headers(r) == error_headers().to_multiset()
            &&& if all_values_valid(wire_headers(event@)) {
                wire_headers(event@).len() > HEADER_ROOM
            } else {
                streamed_body(r) == encode_utf8("failed to parse header value"@)
            }
        },
{
    respond(to_response(event))
}

} // verus!
