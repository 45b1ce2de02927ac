//! The wire form of an event in binary mode: one header for each attribute
//! and extension, and the payload as the body.

use crate::event::{Attribute, EventView, ExtensionValue, ExtensionValueView};
use crate::outside::is_header_value;
use crate::scalar::{decimal_text, format_decimal};
use vstd::prelude::*;
use vstd::string::*;
use vstd::utf8::encode_utf8;

verus! {

/// One header: its name, and its value as the bytes that travel.
#[derive(Debug, PartialEq, Eq)]
pub struct Header {
    pub name: String,
    pub value: Vec<u8>,
}

impl View for Header {
    type V = (Seq<char>, Seq<u8>);

    open spec fn view(&self) -> (Seq<char>, Seq<u8>) {
        (self.name@, self.value@)
    }
}

/// How a pass over an event ends: with the payload as the body, or without
/// a body where the event has no payload.
pub enum Terminal {
    Body(Seq<u8>),
    Finish,
}

/// The name of the header that carries the attribute or extension `name`:
/// the name behind the marker `ce-`.
pub open spec fn marked(name: Seq<char>) -> Seq<char> {
    "ce-"@ + name
}

/// The name of the header that carries the attribute or extension `name`.
/// The content type of the payload travels as the content type of the
/// message; every other name stands behind the marker.
pub open spec fn header_key(name: Seq<char>) -> Seq<char> {
    if name == Attribute::DataContentType.name() {
        "content-type"@
    } else {
        marked(name)
    }
}

/// The wire text `true`.
pub open spec fn true_text() -> Seq<u8> {
    seq![116u8, 114u8, 117u8, 101u8]
}

/// The wire text `false`.
pub open spec fn false_text() -> Seq<u8> {
    seq![102u8, 97u8, 108u8, 115u8, 101u8]
}

/// The wire text of an extension value: a string as it is, an integer in
/// decimal, a boolean as `true` or `false`.
pub open spec fn scalar_bytes(value: ExtensionValueView) -> Seq<u8> {
    match value {
        ExtensionValueView::String(s) => encode_utf8(s),
        ExtensionValueView::Boolean(b) => if b {
            true_text()
        } else {
            false_text()
        },
        ExtensionValueView::Integer(n) => decimal_text(n as int),
    }
}

/// The header of an attribute with a value of text.
pub open spec fn attribute_header(attribute: Attribute, value: Seq<char>) -> (Seq<char>, Seq<u8>) {
    (header_key(attribute.name()), encode_utf8(value))
}

/// The header of an optional attribute: none where it is absent.
pub open spec fn optional_header(attribute: Attribute, value: Option<Seq<char>>) -> Seq<
    (Seq<char>, Seq<u8>),
> {
    match value {
        Some(v) => seq![attribute_header(attribute, v)],
        None => Seq::empty(),
    }
}

/// The header of an extension.
pub open spec fn extension_header(extension: (Seq<char>, ExtensionValueView)) -> (
    Seq<char>,
    Seq<u8>,
) {
    (header_key(extension.0), scalar_bytes(extension.1))
}

/// The headers of the extensions, in their order.
pub open spec fn extension_headers(extensions: Seq<(Seq<char>, ExtensionValueView)>) -> Seq<
    (Seq<char>, Seq<u8>),
> {
    extensions.map_values(|x: (Seq<char>, ExtensionValueView)| extension_header(x))
}

/// The headers of the version and of the required attributes.
pub open spec fn required_headers(event: EventView) -> Seq<(Seq<char>, Seq<u8>)> {
    seq![
        (header_key(Attribute::SpecVersion.name()), event.specversion.text()),
        attribute_header(Attribute::Id, event.id),
        attribute_header(Attribute::Type, event.ty),
        attribute_header(Attribute::Source, event.source),
    ]
}

/// The headers of an event, in the order in which they are written: the
/// version, the required attributes, the optional attributes that are
/// present, the extensions, and last the content type of the payload.
pub open spec fn wire_headers(event: EventView) -> Seq<(Seq<char>, Seq<u8>)> {
    required_headers(event) + optional_header(Attribute::Subject, event.subject) + optional_header(
        Attribute::Time,
        event.time,
    ) + optional_header(Attribute::DataSchema, event.dataschema) + extension_headers(
        event.extensions,
    ) + optional_header(Attribute::DataContentType, event.datacontenttype)
}

/// How the pass over an event ends: with a body exactly where the event has
/// a payload, whatever its length.
pub open spec fn wire_terminal(event: EventView) -> Terminal {
    match event.data {
        Some(bytes) => Terminal::Body(bytes),
        None => Terminal::Finish,
    }
}

/// The bytes of the body that a pass ends with.
pub open spec fn terminal_bytes(terminal: Terminal) -> Seq<u8> {
    match terminal {
        Terminal::Body(bytes) => bytes,
        Terminal::Finish => Seq::empty(),
    }
}

/// Whether every value of the headers may stand in a header.
pub open spec fn all_values_valid(headers: Seq<(Seq<char>, Seq<u8>)>) -> bool {
    forall|i: int| 0 <= i < headers.len() ==> is_header_value((#[trigger] headers[i]).1)
}

/// The values of two runs of headers are valid exactly when those of each
/// run are.
pub proof fn lemma_all_values_valid_concat(
    a: Seq<(Seq<char>, Seq<u8>)>,
    b: Seq<(Seq<char>, Seq<u8>)>,
)
    ensures
        all_values_valid(a + b) <==> all_values_valid(a) && all_values_valid(b),
{
    let c = a + b;
    if all_values_valid(c) {
        assert forall|i: int| 0 <= i < a.len() implies is_header_value((#[trigger] a[i]).1) by {
            assert(c[i] == a[i]);
        }
        assert forall|i: int| 0 <= i < b.len() implies is_header_value((#[trigger] b[i]).1) by {
            assert(c[i + a.len()] == b[i]);
        }
    }
    if all_values_valid(a) && all_values_valid(b) {
        assert forall|i: int| 0 <= i < c.len() implies is_header_value((#[trigger] c[i]).1) by {
            if i < a.len() {
                assert(c[i] == a[i]);
            } else {
                assert(c[i] == b[i - a.len()]);
            }
        }
    }
}

/// Writes an extension value as its wire text.
pub fn encode_scalar(value: &ExtensionValue) -> (r: Vec<u8>)
    ensures
        r@ == scalar_bytes(value@),
{
    match value {
        ExtensionValue::String(s) => s.as_str().as_bytes_vec(),
        ExtensionValue::Boolean(b) => {
            let r = if *b {
                vec![116u8, 114u8, 117u8, 101u8]
            } else {
                vec![102u8, 97u8, 108u8, 115u8, 101u8]
            };
            assert(r@ =~= scalar_bytes(value@));
            r
        },
        ExtensionValue::Integer(n) => format_decimal(*n),
    }
}

} // verus!
