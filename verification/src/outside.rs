//! What the binding takes from the crates `http`, `axum` and `hyper` and
//! from the standard library, and what it takes on trust of each item.
//!
//! Nothing in this file is proved. Each type here is opaque: the functions
//! without a body give names to what a value of it holds, and each contract
//! restates, over those names, what the function named above it does.

use crate::text::{is_token_char, lower_text};
use crate::wire::Header;
use vstd::multiset::Multiset;
use vstd::prelude::*;

verus! {

/// `http::HeaderValue`: the value of one header.
#[verifier::external_type_specification]
#[verifier::external_body]
pub struct ExHeaderValue(http::HeaderValue);

/// `http::header::InvalidHeaderValue`: why bytes were refused as a header
/// value.
#[verifier::external_type_specification]
#[verifier::external_body]
pub struct ExInvalidHeaderValue(http::header::InvalidHeaderValue);

/// `http::HeaderMap`: the headers of a request or a response.
#[verifier::external_type_specification]
#[verifier::external_body]
#[verifier::reject_recursive_types(T)]
pub struct ExHeaderMap<T>(http::HeaderMap<T>);

/// `http::response::Builder`: a response under construction.
#[verifier::external_type_specification]
#[verifier::external_body]
pub struct ExResponseBuilder(http::response::Builder);

/// `http::Response`: a response with a body of type `T`.
#[verifier::external_type_specification]
#[verifier::external_body]
#[verifier::reject_recursive_types(T)]
pub struct ExResponse<T>(http::Response<T>);

/// `http::Error`: why a builder could not finish.
#[verifier::external_type_specification]
#[verifier::external_body]
pub struct ExHttpError(http::Error);

/// `axum::body::Body`: a body that is read as a stream.
#[verifier::external_type_specification]
#[verifier::external_body]
pub struct ExStreamBody(axum::body::Body);

/// The bytes that a header value holds.
pub uninterp spec fn value_bytes(value: http::HeaderValue) -> Seq<u8>;

/// The headers that a header map yields when it is walked, each as its
/// name and the bytes of its value, in the order of the walk.
pub uninterp spec fn map_entries(headers: http::HeaderMap<http::HeaderValue>) -> Seq<
    (Seq<char>, Seq<u8>),
>;

/// Whether a builder has met an error, which it keeps until it is finished.
pub uninterp spec fn builder_failed(builder: http::response::Builder) -> bool;

/// The status that a builder holds.
pub uninterp spec fn builder_status(builder: http::response::Builder) -> u16;

/// The headers that a builder holds, each as its name and the bytes of its
/// value.
pub uninterp spec fn builder_headers(builder: http::response::Builder) -> Multiset<
    (Seq<char>, Seq<u8>),
>;

/// The status of a response with a body of bytes.
pub uninterp spec fn response_status(response: http::Response<Vec<u8>>) -> u16;

/// The headers of a response with a body of bytes.
pub uninterp spec fn response_headers(response: http::Response<Vec<u8>>) -> Multiset<
    (Seq<char>, Seq<u8>),
>;

/// The body of a response with a body of bytes.
pub uninterp spec fn response_body(response: http::Response<Vec<u8>>) -> Seq<u8>;

/// The status of a response with a streamed body.
pub uninterp spec fn streamed_status(response: http::Response<axum::body::Body>) -> u16;

/// The headers of a response with a streamed body.
pub uninterp spec fn streamed_headers(response: http::Response<axum::body::Body>) -> Multiset<
    (Seq<char>, Seq<u8>),
>;

/// The bytes that the body of a response yields when it is read to its end.
pub uninterp spec fn streamed_body(response: http::Response<axum::body::Body>) -> Seq<u8>;

/// The text that an `http::Error` displays.
pub uninterp spec fn error_text(error: http::Error) -> Seq<char>;

/// Whether a byte may stand in a header value: any byte but a control
/// character, the horizontal tab excepted.
pub open spec fn is_value_byte(b: u8) -> bool {
    (b >= 32 && b != 127) || b == 9
}

/// Whether all bytes of a value may stand in a header value.
pub open spec fn is_header_value(bytes: Seq<u8>) -> bool {
    forall|i: int| 0 <= i < bytes.len() ==> is_value_byte(#[trigger] bytes[i])
}

/// Whether a text is taken as a header name: between one and 65535 token
/// characters.
pub open spec fn is_header_name(s: Seq<char>) -> bool {
    &&& 0 < s.len() <= 65535
    &&& forall|i: int| 0 <= i < s.len() ==> is_token_char(#[trigger] s[i])
}

/// A number of headers below which a header map never refuses another.
///
/// A header map refuses a header only when its table would have to grow
/// beyond 32768 places. It doubles its table when the names it holds fill
/// three quarters of it, or a fifth of it after many collisions, so a map
/// that holds fewer than 1024 headers has a table of at most 8192 places.
pub const HEADER_ROOM: usize = 1024;

/// `http::HeaderValue::from_bytes`: takes exactly the byte strings in which
/// each byte may stand in a header value, and the value holds those bytes.
#[verifier::external_body]
pub(crate) fn header_value_from_bytes(bytes: &[u8]) -> (r: Result<
    http::HeaderValue,
    http::header::InvalidHeaderValue,
>)
    ensures
        r is Ok <==> is_header_value(bytes@),
        r is Ok ==> value_bytes(r->Ok_0) == bytes@,
{
    http::HeaderValue::from_bytes(bytes)
}

/// `http::Response::builder`: a builder without an error and without
/// headers, with the status 200.
#[verifier::external_body]
pub(crate) fn new_builder() -> (r: http::response::Builder)
    ensures
        !builder_failed(r),
        builder_status(r) == 200,
        builder_headers(r) == Multiset::<(Seq<char>, Seq<u8>)>::empty(),
{
    http::Response::builder()
}

/// `http::response::Builder::status`: a builder with an error keeps it; a
/// number from 100 to 999 becomes the status and the headers stay; any
/// other number is an error.
#[verifier::external_body]
pub(crate) fn builder_with_status(builder: http::response::Builder, status: u16) -> (r:
    http::response::Builder)
    ensures
        builder_failed(r) <==> builder_failed(builder) || !(100 <= status <= 999),
        !builder_failed(r) ==> builder_status(r) == status && builder_headers(r)
            == builder_headers(builder),
{
    builder.status(status)
}

/// `http::response::Builder::header`: a builder with an error keeps it, and
/// a key that is no header name is an error. Otherwise the header is added
/// under the key in small letters, unless the header map refuses it for
/// want of room, which is an error too; a map with fewer than `HEADER_ROOM`
/// headers does not refuse. The status stays.
#[verifier::external_body]
pub(crate) fn builder_with_header(
    builder: http::response::Builder,
    key: &str,
    value: http::HeaderValue,
) -> (r: http::response::Builder)
    ensures
        builder_failed(builder) || !is_header_name(key@) ==> builder_failed(r),
        !builder_failed(builder) && is_header_name(key@) && builder_headers(builder).len()
            < HEADER_ROOM ==> !builder_failed(r),
        !builder_failed(r) ==> builder_status(r) == builder_status(builder) && builder_headers(r)
            == builder_headers(builder).insert((lower_text(key@), value_bytes(value))),
{
    builder.header(key, value)
}

/// `http::response::Builder::body` with a body of bytes: the builder's
/// error, or a response with the builder's status and headers and with the
/// given body.
#[verifier::external_body]
pub(crate) fn builder_into_response(builder: http::response::Builder, body: Vec<u8>) -> (r: Result<
    http::Response<Vec<u8>>,
    http::Error,
>)
    ensures
        r is Ok <==> !builder_failed(builder),
        r is Ok ==> response_status(r->Ok_0) == builder_status(builder) && response_headers(
            r->Ok_0,
        ) == builder_headers(builder) && response_body(r->Ok_0) == body@,
{
    builder.body(body)
}

/// `http::response::Builder::body` with the body that
/// `axum::body::Body::from` makes of a vector of bytes: the builder's error,
/// or a response with the builder's status and headers whose body yields
/// the given bytes.
#[verifier::external_body]
pub(crate) fn builder_into_streamed(builder: http::response::Builder, body: Vec<u8>) -> (r: Result<
    http::Response<axum::body::Body>,
    http::Error,
>)
    ensures
        r is Ok <==> !builder_failed(builder),
        r is Ok ==> streamed_status(r->Ok_0) == builder_status(builder) && streamed_headers(
            r->Ok_0,
        ) == builder_headers(builder) && streamed_body(r->Ok_0) == body@,
{
    builder.body(axum::body::Body::from(body))
}

/// `http::response::Builder::body` with the body that
/// `axum::body::Body::from` makes of `hyper::body::Bytes`: the builder's
/// error, or a response with the builder's status and headers whose body
/// yields the given bytes.
#[verifier::external_body]
pub(crate) fn builder_into_boxed(builder: http::response::Builder, body: Vec<u8>) -> (r: Result<
    http::Response<axum::body::Body>,
    http::Error,
>)
    ensures
        r is Ok <==> !builder_failed(builder),
        r is Ok ==> streamed_status(r->Ok_0) == builder_status(builder) && streamed_headers(
            r->Ok_0,
        ) == builder_headers(builder) && streamed_body(r->Ok_0) == body@,
{
    builder.body(axum::body::Body::from(hyper::body::Bytes::from(body)))
}

/// `http::Response::into_parts` and `http::Response::from_parts`, with the
/// body passed through `axum::body::Body::from`: the same status, headers
/// and body.
#[verifier::external_body]
pub(crate) fn reassembled(response: http::Response<axum::body::Body>) -> (r: http::Response<
    axum::body::Body,
>)
    ensures
        streamed_status(r) == streamed_status(response),
        streamed_headers(r) == streamed_headers(response),
        streamed_body(r) == streamed_body(response),
{
    let (parts, body) = response.into_parts();
    http::Response::from_parts(parts, axum::body::Body::from(body))
}

/// `http::HeaderMap::iter`: the headers in the order of the walk, each
/// with its name as a string and the bytes of its value.
#[verifier::external_body]
pub(crate) fn header_entries(headers: &http::HeaderMap<http::HeaderValue>) -> (r: Vec<Header>)
    ensures
        r@.map_values(|h: Header| h@) == map_entries(*headers),
{
    headers.iter().map(
        |(name, value)|
            Header { name: name.as_str().to_string(), value: value.as_bytes().to_vec() },
    ).collect()
}

/// `ToString::to_string` of an `http::Error`: the text that it displays.
#[verifier::external_body]
pub(crate) fn error_to_string(error: &http::Error) -> (r: String)
    ensures
        r@ == error_text(*error),
{
    error.to_string()
}

/// `str::to_ascii_lowercase`: the text with each capital letter of ASCII
/// replaced by its small one, and every other character as it is.
#[verifier::external_body]
pub(crate) fn ascii_lowercase(text: &str) -> (r: String)
    ensures
        r@ == lower_text(text@),
{
    text.to_ascii_lowercase()
}

/// `String::from_utf8`: the text that the bytes encode, where they are
/// valid UTF-8, and nothing where they are not.
#[verifier::external_body]
pub(crate) fn string_from_utf8(bytes: &[u8]) -> (r: Option<String>)
    ensures
        r is Some <==> vstd::utf8::valid_utf8(bytes@),
        r is Some ==> r->Some_0@ == vstd::utf8::decode_utf8(bytes@),
{
    String::from_utf8(bytes.to_vec()).ok()
}

} // verus!
