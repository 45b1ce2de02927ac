//! What holds between writing an event and reading it back.

use crate::event::{
    Attribute, EventView, ExtensionValueView, SpecVersion, attribute_named, extensions_wf,
    is_extension_name, lemma_attribute_named, lemma_position_of, position_of,
};
use crate::extract::{
    PartialView, carried_name, complete, decoded, nothing_read, payload_of, read_header,
    read_headers, scalar_of, version_of,
};
use crate::message::MessageError;
use crate::scalar::{
    decimal_text, lemma_decimal_text_parse, lemma_digits_of, lemma_parse_decimal_text,
    parse_decimal,
};
use crate::staged::{lemma_attribute_key, lemma_header_key, lowered};
use crate::text::{lemma_lower_text_twice, lemma_lower_token_fixed, lower_text};
use crate::wire::{
    attribute_header, extension_header, extension_headers, false_text, header_key, marked,
    optional_header, required_headers, scalar_bytes, terminal_bytes, true_text, wire_headers,
    wire_terminal,
};
use vstd::prelude::*;
use vstd::utf8::{
    decode_utf8_encode_utf8, encode_utf8, encode_utf8_decode_utf8, encode_utf8_valid_utf8,
};

verus! {

/// Whether the wire text of a string is read as a string again: it spells
/// neither a boolean nor an integer.
pub open spec fn reads_as_string(s: Seq<char>) -> bool {
    &&& encode_utf8(s) != true_text()
    &&& encode_utf8(s) != false_text()
    &&& parse_decimal(encode_utf8(s)) is None
}

/// Whether an extension value is read back as itself from its wire text.
/// A boolean and an integer always are; a string is unless it spells one
/// of those.
pub open spec fn reads_back(value: ExtensionValueView) -> bool {
    value is String ==> reads_as_string(value->String_0)
}

/// Writing an extension value and reading the text gives the value back:
/// every boolean, every integer, and every string that spells neither.
pub proof fn lemma_scalar_round_trip(value: ExtensionValueView)
    requires
        reads_back(value),
    ensures
        scalar_of(scalar_bytes(value)) == Some(value),
{
    match value {
        ExtensionValueView::String(s) => {
            encode_utf8_valid_utf8(s);
            encode_utf8_decode_utf8(s);
        },
        ExtensionValueView::Boolean(b) => {
            assert(true_text().len() != false_text().len());
        },
        ExtensionValueView::Integer(n) => {
            let t = decimal_text(n as int);
            lemma_parse_decimal_text(n);
            if n < 0 {
                assert(t[0] == 45);
            } else {
                lemma_digits_of(n as nat);
                assert(crate::scalar::is_digit(t[0]));
            }
            assert(true_text()[0] == 116);
            assert(false_text()[0] == 102);
        },
    }
}

/// Reading a wire text and writing the value that it denotes gives the
/// text back, byte for byte.
pub proof fn lemma_scalar_text_round_trip(bytes: Seq<u8>)
    requires
        scalar_of(bytes) is Some,
    ensures
        scalar_bytes(scalar_of(bytes)->Some_0) == bytes,
{
    if bytes != true_text() && bytes != false_text() {
        if parse_decimal(bytes) is Some {
            lemma_decimal_text_parse(bytes);
        } else {
            decode_utf8_encode_utf8(bytes);
        }
    }
}

/// An integer is written as its decimal text and read back from it: `10`
/// travels as the text `10`.
pub proof fn lemma_integer_round_trip(n: i64)
    ensures
        scalar_bytes(ExtensionValueView::Integer(n)) == decimal_text(n as int),
        scalar_of(decimal_text(n as int)) == Some(ExtensionValueView::Integer(n)),
{
    lemma_scalar_round_trip(ExtensionValueView::Integer(n));
}

/// Reading two runs of headers is reading the first and then the second.
pub proof fn lemma_read_concat(
    p: PartialView,
    a: Seq<(Seq<char>, Seq<u8>)>,
    b: Seq<(Seq<char>, Seq<u8>)>,
)
    ensures
        read_headers(p, a + b) == match read_headers(p, a) {
            Ok(q) => read_headers(q, b),
            Err(e) => Err(e),
        },
    decreases a.len(),
{
    if a.len() == 0 {
        assert(a + b =~= b);
    } else {
        assert((a + b)[0] == a[0]);
        assert((a + b).drop_first() =~= a.drop_first() + b);
        match read_header(p, a[0]) {
            Ok(q) => {
                lemma_read_concat(q, a.drop_first(), b);
            },
            Err(e) => {},
        }
    }
}

/// Reading a single header.
pub proof fn lemma_read_one(p: PartialView, h: (Seq<char>, Seq<u8>))
    ensures
        read_headers(p, seq![h]) == read_header(p, h),
{
    let one = seq![h];
    assert(one[0] == h);
    assert(one.drop_first().len() == 0);
    match read_header(p, h) {
        Ok(q) => {
            assert(read_headers(q, one.drop_first()) == Ok::<PartialView, MessageError>(q));
        },
        Err(e) => {},
    }
}

/// The header of an attribute is read as that attribute.
pub proof fn lemma_attribute_carried(attribute: Attribute)
    ensures
        carried_name(header_key(attribute.name())) == Some(attribute.name()),
        attribute_named(attribute.name()) == Some(attribute),
{
    lemma_attribute_named(attribute);
    reveal_strlit("ce-");
    reveal_strlit("content-type");
    reveal_strlit("specversion");
    reveal_strlit("id");
    reveal_strlit("type");
    reveal_strlit("source");
    reveal_strlit("subject");
    reveal_strlit("time");
    reveal_strlit("dataschema");
    reveal_strlit("datacontenttype");
    let name = attribute.name();
    let key = header_key(name);
    lemma_attribute_key(attribute);
    lemma_lower_token_fixed(key);
    if attribute != Attribute::DataContentType {
        assert(name != Attribute::DataContentType.name());
        assert(key == marked(name));
        assert(key[1] == 'e');
        assert("content-type"@[1] == 'o');
        assert(key.subrange(0, 3) =~= "ce-"@);
        assert(key.subrange(3, key.len() as int) =~= name);
    }
}

/// The header of an extension is read as that extension.
pub proof fn lemma_extension_carried(name: Seq<char>)
    requires
        is_extension_name(name),
    ensures
        header_key(name) == marked(name),
        carried_name(header_key(name)) == Some(name),
{
    lemma_attribute_named(Attribute::DataContentType);
    reveal_strlit("ce-");
    reveal_strlit("content-type");
    let key = marked(name);
    lemma_header_key(name);
    lemma_lower_token_fixed(key);
    assert(key[1] == 'e');
    assert("content-type"@[1] == 'o');
    assert(key.subrange(0, 3) =~= "ce-"@);
    assert(key.subrange(3, key.len() as int) =~= name);
}

/// A name that none of the extensions has is placed behind them all.
pub proof fn lemma_position_of_absent(
    extensions: Seq<(Seq<char>, ExtensionValueView)>,
    name: Seq<char>,
)
    requires
        forall|i: int| 0 <= i < extensions.len() ==> (#[trigger] extensions[i]).0 != name,
    ensures
        position_of(extensions, name) == extensions.len(),
{
    lemma_position_of(extensions, name);
}

/// Reading the headers of extensions adds the extensions, where each has a
/// name of its own and is read back as itself.
pub proof fn lemma_read_extensions(p: PartialView, extensions: Seq<(Seq<char>, ExtensionValueView)>)
    requires
        extensions_wf(p.extensions + extensions),
        forall|i: int| 0 <= i < extensions.len() ==> reads_back((#[trigger] extensions[i]).1),
    ensures
        read_headers(p, extension_headers(extensions)) == Ok::<PartialView, MessageError>(
            PartialView { extensions: p.extensions + extensions, ..p },
        ),
    decreases extensions.len(),
{
    let all = p.extensions + extensions;
    let headers = extension_headers(extensions);
    if extensions.len() == 0 {
        assert(all =~= p.extensions);
    } else {
        let x = extensions[0];
        let rest = extensions.drop_first();
        assert(all[p.extensions.len() as int] == x);
        assert(is_extension_name(x.0));
        lemma_extension_carried(x.0);
        assert(reads_back(x.1));
        lemma_scalar_round_trip(x.1);
        assert forall|i: int| 0 <= i < p.extensions.len() implies (#[trigger] p.extensions[i]).0
            != x.0 by {
            assert(all[i] == p.extensions[i]);
        }
        lemma_position_of_absent(p.extensions, x.0);
        let q = PartialView { extensions: p.extensions.push(x), ..p };
        assert(headers[0] == extension_header(x));
        assert(read_header(p, headers[0]) == Ok::<PartialView, MessageError>(q));
        assert(headers.drop_first() =~= extension_headers(rest));
        assert(q.extensions + rest =~= all);
        assert forall|i: int| 0 <= i < rest.len() implies reads_back((#[trigger] rest[i]).1) by {
            assert(rest[i] == extensions[i + 1]);
        }
        lemma_read_extensions(q, rest);
    }
}

/// Reading the header of an optional attribute that was not read before.
proof fn lemma_read_optional(p: PartialView, attribute: Attribute, value: Option<Seq<char>>)
    requires
        attribute == Attribute::Subject || attribute == Attribute::Time || attribute
            == Attribute::DataSchema || attribute == Attribute::DataContentType,
        attribute == Attribute::Subject ==> p.subject is None,
        attribute == Attribute::Time ==> p.time is None,
        attribute == Attribute::DataSchema ==> p.dataschema is None,
        attribute == Attribute::DataContentType ==> p.datacontenttype is None,
    ensures
        read_headers(p, optional_header(attribute, value)) == Ok::<PartialView, MessageError>(
            match attribute {
                Attribute::Subject => PartialView { subject: value, ..p },
                Attribute::Time => PartialView { time: value, ..p },
                Attribute::DataSchema => PartialView { dataschema: value, ..p },
                _ => PartialView { datacontenttype: value, ..p },
            },
        ),
{
    match value {
        Some(v) => {
            lemma_attribute_carried(attribute);
            encode_utf8_valid_utf8(v);
            encode_utf8_decode_utf8(v);
            lemma_read_one(p, attribute_header(attribute, v));
            assert(optional_header(attribute, value) =~= seq![attribute_header(attribute, v)]);
        },
        None => {},
    }
}

/// Reading the headers of the version and of the required attributes.
proof fn lemma_read_required(event: EventView)
    ensures
        read_headers(nothing_read(), required_headers(event)) == Ok::<PartialView, MessageError>(
            PartialView {
                specversion: Some(event.specversion),
                id: Some(event.id),
                ty: Some(event.ty),
                source: Some(event.source),
                ..nothing_read()
            },
        ),
{
    let h0 = (header_key(Attribute::SpecVersion.name()), event.specversion.text());
    let h1 = attribute_header(Attribute::Id, event.id);
    let h2 = attribute_header(Attribute::Type, event.ty);
    let h3 = attribute_header(Attribute::Source, event.source);
    let s0 = nothing_read();
    let s1 = PartialView { specversion: Some(event.specversion), ..s0 };
    let s2 = PartialView { id: Some(event.id), ..s1 };
    let s3 = PartialView { ty: Some(event.ty), ..s2 };
    let s4 = PartialView { source: Some(event.source), ..s3 };
    lemma_attribute_carried(Attribute::SpecVersion);
    lemma_attribute_carried(Attribute::Id);
    lemma_attribute_carried(Attribute::Type);
    lemma_attribute_carried(Attribute::Source);
    encode_utf8_valid_utf8(event.id);
    encode_utf8_decode_utf8(event.id);
    encode_utf8_valid_utf8(event.ty);
    encode_utf8_decode_utf8(event.ty);
    encode_utf8_valid_utf8(event.source);
    encode_utf8_decode_utf8(event.source);
    assert(version_of(event.specversion.text()) == Some(event.specversion)) by {
        assert(SpecVersion::V03.text()[0] != SpecVersion::V10.text()[0]);
    }
    assert(read_header(s0, h0) == Ok::<PartialView, MessageError>(s1));
    assert(read_header(s1, h1) == Ok::<PartialView, MessageError>(s2));
    assert(read_header(s2, h2) == Ok::<PartialView, MessageError>(s3));
    assert(read_header(s3, h3) == Ok::<PartialView, MessageError>(s4));
    lemma_read_one(s0, h0);
    lemma_read_one(s1, h1);
    lemma_read_one(s2, h2);
    lemma_read_one(s3, h3);
    lemma_read_concat(s0, seq![h0], seq![h1]);
    lemma_read_concat(s0, seq![h0] + seq![h1], seq![h2]);
    lemma_read_concat(s0, seq![h0] + seq![h1] + seq![h2], seq![h3]);
    assert(required_headers(event) =~= seq![h0] + seq![h1] + seq![h2] + seq![h3]);
}

/// Capital and small letters in the names of headers make no difference to
/// what is read.
pub proof fn lemma_names_without_case(
    p: PartialView,
    headers: Seq<(Seq<char>, Seq<u8>)>,
    body: Seq<u8>,
)
    ensures
        read_headers(p, lowered(headers)) == read_headers(p, headers),
        decoded(lowered(headers), body) == decoded(headers, body),
{
    lemma_read_without_case(p, headers);
    lemma_read_without_case(nothing_read(), headers);
}

/// Capital and small letters in the names of headers make no difference to
/// what is read of them, from any start.
proof fn lemma_read_without_case(p: PartialView, headers: Seq<(Seq<char>, Seq<u8>)>)
    ensures
        read_headers(p, lowered(headers)) == read_headers(p, headers),
    decreases headers.len(),
{
    let low = lowered(headers);
    if headers.len() > 0 {
        let h = headers[0];
        assert(low[0] == (lower_text(h.0), h.1));
        lemma_lower_text_twice(h.0);
        assert(carried_name(low[0].0) == carried_name(h.0));
        assert(read_header(p, low[0]) == read_header(p, h));
        assert(low.drop_first() =~= lowered(headers.drop_first()));
        match read_header(p, h) {
            Ok(q) => {
                lemma_read_without_case(q, headers.drop_first());
            },
            Err(e) => {},
        }
    }
}

/// The body that an event was read from is the body that it is written
/// with, byte for byte.
pub proof fn lemma_body_comes_back(headers: Seq<(Seq<char>, Seq<u8>)>, body: Seq<u8>)
    requires
        decoded(headers, body) is Ok,
    ensures
        terminal_bytes(wire_terminal(decoded(headers, body)->Ok_0)) == body,
{
    let event = decoded(headers, body)->Ok_0;
    assert(event.data == payload_of(body));
    if body.len() == 0 {
        assert(body =~= Seq::<u8>::empty());
    }
}

/// Whether an event comes back as itself when it is written and read:
/// each of its extensions is read back as itself, and its payload, if it
/// has one, is not empty.
pub open spec fn comes_back(event: EventView) -> bool {
    &&& forall|i: int|
        0 <= i < event.extensions.len() ==> reads_back((#[trigger] event.extensions[i]).1)
    &&& (event.data is Some ==> event.data->Some_0.len() > 0)
}

/// Writing an event and reading what was written gives the event back,
/// also after the names of the headers were turned to small letters.
pub proof fn lemma_round_trip(event: EventView)
    requires
        event.wf(),
        comes_back(event),
    ensures
        decoded(wire_headers(event), terminal_bytes(wire_terminal(event))) == Ok::<
            EventView,
            MessageError,
        >(event),
        decoded(lowered(wire_headers(event)), terminal_bytes(wire_terminal(event))) == Ok::<
            EventView,
            MessageError,
        >(event),
{
    let start = nothing_read();
    let a0 = required_headers(event);
    let a1 = optional_header(Attribute::Subject, event.subject);
    let a2 = optional_header(Attribute::Time, event.time);
    let a3 = optional_header(Attribute::DataSchema, event.dataschema);
    let a4 = extension_headers(event.extensions);
    let a5 = optional_header(Attribute::DataContentType, event.datacontenttype);
    let s0 = PartialView {
        specversion: Some(event.specversion),
        id: Some(event.id),
        ty: Some(event.ty),
        source: Some(event.source),
        ..start
    };
    let s1 = PartialView { subject: event.subject, ..s0 };
    let s2 = PartialView { time: event.time, ..s1 };
    let s3 = PartialView { dataschema: event.dataschema, ..s2 };
    let s4 = PartialView { extensions: event.extensions, ..s3 };
    let s5 = PartialView { datacontenttype: event.datacontenttype, ..s4 };
    lemma_read_required(event);
    lemma_read_optional(s0, Attribute::Subject, event.subject);
    lemma_read_optional(s1, Attribute::Time, event.time);
    lemma_read_optional(s2, Attribute::DataSchema, event.dataschema);
    assert(s3.extensions + event.extensions =~= event.extensions);
    lemma_read_extensions(s3, event.extensions);
    lemma_read_optional(s4, Attribute::DataContentType, event.datacontenttype);
    lemma_read_concat(start, a0, a1);
    lemma_read_concat(start, a0 + a1, a2);
    lemma_read_concat(start, a0 + a1 + a2, a3);
    lemma_read_concat(start, a0 + a1 + a2 + a3, a4);
    lemma_read_concat(start, a0 + a1 + a2 + a3 + a4, a5);
    assert(read_headers(start, wire_headers(event)) == Ok::<PartialView, MessageError>(s5));
    assert(payload_of(terminal_bytes(wire_terminal(event))) == event.data);
    assert(complete(s5, terminal_bytes(wire_terminal(event))) == Ok::<EventView, MessageError>(
        event,
    ));
    lemma_names_without_case(start, wire_headers(event), terminal_bytes(wire_terminal(event)));
}

/// An event with the required attributes alone and without a payload comes
/// back as itself when it is written and read, also after the names of the
/// headers were turned to small letters.
pub proof fn lemma_round_trip_required(event: EventView)
    requires
        event.subject is None,
        event.time is None,
        event.dataschema is None,
        event.datacontenttype is None,
        event.extensions.len() == 0,
        event.data is None,
    ensures
        decoded(wire_headers(event), Seq::empty()) == Ok::<EventView, MessageError>(event),
        decoded(lowered(wire_headers(event)), Seq::empty()) == Ok::<EventView, MessageError>(
            event,
        ),
{
    lemma_round_trip(event);
}

} // verus!
