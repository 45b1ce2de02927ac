//! Reading an event from the headers and the body of a request.

use crate::event::{
    Attribute, Event, EventView, Extension, ExtensionValue, ExtensionValueView, SpecVersion,
    attribute_named, check_extension_name, extensions_wf, find_attribute, find_position,
    is_extension_name, lemma_position_of, optional_text, position_of,
};
use crate::message::MessageError;
use crate::outside::{ascii_lowercase, header_entries, map_entries, string_from_utf8};
use crate::scalar::{parse_decimal, parse_decimal_text};
use crate::text::{lower_text, same_text, starts_with};
use crate::wire::{Header, false_text, true_text};
use vstd::prelude::*;
use vstd::string::*;
use vstd::utf8::{decode_utf8, valid_utf8};

verus! {

/// The attribute or extension that a header of this name carries: the
/// payload's content type for the content type of the message, what
/// stands behind the marker for a marked name, and none for any other.
/// Capital and small letters in the header's name count as the same.
pub open spec fn carried_name(key: Seq<char>) -> Option<Seq<char>> {
    let name = lower_text(key);
    if name == "content-type"@ {
        Some(Attribute::DataContentType.name())
    } else if starts_with(name, "ce-"@) {
        Some(name.subrange("ce-"@.len() as int, name.len() as int))
    } else {
        None
    }
}

/// The version that a wire text names.
pub open spec fn version_of(bytes: Seq<u8>) -> Option<SpecVersion> {
    if bytes == SpecVersion::V03.text() {
        Some(SpecVersion::V03)
    } else if bytes == SpecVersion::V10.text() {
        Some(SpecVersion::V10)
    } else {
        None
    }
}

/// The extension value that a wire text denotes: a boolean for `true` and
/// `false`, an integer for the decimal text of one, and a string for any
/// other text.
pub open spec fn scalar_of(bytes: Seq<u8>) -> Option<ExtensionValueView> {
    if bytes == true_text() {
        Some(ExtensionValueView::Boolean(true))
    } else if bytes == false_text() {
        Some(ExtensionValueView::Boolean(false))
    } else if parse_decimal(bytes) is Some {
        Some(ExtensionValueView::Integer(parse_decimal(bytes).unwrap() as i64))
    } else if valid_utf8(bytes) {
        Some(ExtensionValueView::String(decode_utf8(bytes)))
    } else {
        None
    }
}

/// What has been read of an event, as mathematics.
pub struct PartialView {
    pub specversion: Option<SpecVersion>,
    pub id: Option<Seq<char>>,
    pub ty: Option<Seq<char>>,
    pub source: Option<Seq<char>>,
    pub subject: Option<Seq<char>>,
    pub time: Option<Seq<char>>,
    pub dataschema: Option<Seq<char>>,
    pub datacontenttype: Option<Seq<char>>,
    pub extensions: Seq<(Seq<char>, ExtensionValueView)>,
}

/// Before the first header.
pub open spec fn nothing_read() -> PartialView {
    PartialView {
        specversion: None,
        id: None,
        ty: None,
        source: None,
        subject: None,
        time: None,
        dataschema: None,
        datacontenttype: None,
        extensions: Seq::empty(),
    }
}

/// An attribute's place after a value for it was read: a second value is
/// refused, and so is one that is no text.
pub open spec fn read_text(slot: Option<Seq<char>>, value: Seq<u8>) -> Result<
    Option<Seq<char>>,
    MessageError,
> {
    if slot is Some {
        Err(MessageError::RepeatedAttribute)
    } else if valid_utf8(value) {
        Ok(Some(decode_utf8(value)))
    } else {
        Err(MessageError::InvalidEncoding)
    }
}

/// What has been read after one more header.
pub open spec fn read_header(p: PartialView, h: (Seq<char>, Seq<u8>)) -> Result<
    PartialView,
    MessageError,
> {
    match carried_name(h.0) {
        None => Ok(p),
        Some(name) => match attribute_named(name) {
            Some(Attribute::SpecVersion) => if p.specversion is Some {
                Err(MessageError::RepeatedAttribute)
            } else {
                match version_of(h.1) {
                    Some(v) => Ok(PartialView { specversion: Some(v), ..p }),
                    None => Err(MessageError::UnknownSpecVersion),
                }
            },
            Some(Attribute::Id) => match read_text(p.id, h.1) {
                Ok(id) => Ok(PartialView { id, ..p }),
                Err(e) => Err(e),
            },
            Some(Attribute::Type) => match read_text(p.ty, h.1) {
                Ok(ty) => Ok(PartialView { ty, ..p }),
                Err(e) => Err(e),
            },
            Some(Attribute::Source) => match read_text(p.source, h.1) {
                Ok(source) => Ok(PartialView { source, ..p }),
                Err(e) => Err(e),
            },
            Some(Attribute::Subject) => match read_text(p.subject, h.1) {
                Ok(subject) => Ok(PartialView { subject, ..p }),
                Err(e) => Err(e),
            },
            Some(Attribute::Time) => match read_text(p.time, h.1) {
                Ok(time) => Ok(PartialView { time, ..p }),
                Err(e) => Err(e),
            },
            Some(Attribute::DataSchema) => match read_text(p.dataschema, h.1) {
                Ok(dataschema) => Ok(PartialView { dataschema, ..p }),
                Err(e) => Err(e),
            },
            Some(Attribute::DataContentType) => match read_text(p.datacontenttype, h.1) {
                Ok(datacontenttype) => Ok(PartialView { datacontenttype, ..p }),
                Err(e) => Err(e),
            },
            None => if !is_extension_name(name) {
                Err(MessageError::InvalidExtensionName)
            } else if position_of(p.extensions, name) < p.extensions.len() {
                Err(MessageError::RepeatedAttribute)
            } else {
                match scalar_of(h.1) {
                    Some(v) => Ok(PartialView { extensions: p.extensions.push((name, v)), ..p }),
                    None => Err(MessageError::InvalidEncoding),
                }
            },
        },
    }
}

/// What has been read after the headers, one after the other, up to the
/// first that is refused.
pub open spec fn read_headers(p: PartialView, headers: Seq<(Seq<char>, Seq<u8>)>) -> Result<
    PartialView,
    MessageError,
>
    decreases headers.len(),
{
    if headers.len() == 0 {
        Ok(p)
    } else {
        match read_header(p, headers[0]) {
            Ok(q) => read_headers(q, headers.drop_first()),
            Err(e) => Err(e),
        }
    }
}

/// The payload that a body carries: none where the body is empty.
pub open spec fn payload_of(body: Seq<u8>) -> Option<Seq<u8>> {
    if body.len() == 0 {
        None
    } else {
        Some(body)
    }
}

/// The event that was read, if nothing required is missing.
pub open spec fn complete(p: PartialView, body: Seq<u8>) -> Result<EventView, MessageError> {
    if p.specversion is None {
        Err(MessageError::MissingAttribute { attribute: Attribute::SpecVersion })
    } else if p.id is None {
        Err(MessageError::MissingAttribute { attribute: Attribute::Id })
    } else if p.ty is None {
        Err(MessageError::MissingAttribute { attribute: Attribute::Type })
    } else if p.source is None {
        Err(MessageError::MissingAttribute { attribute: Attribute::Source })
    } else {
        Ok(
            EventView {
                specversion: p.specversion.unwrap(),
                id: p.id.unwrap(),
                ty: p.ty.unwrap(),
                source: p.source.unwrap(),
                subject: p.subject,
                time: p.time,
                dataschema: p.dataschema,
                datacontenttype: p.datacontenttype,
                extensions: p.extensions,
                data: payload_of(body),
            },
        )
    }
}

/// The event that the headers and the body of a message carry in binary
/// mode, or why they carry none.
pub open spec fn decoded(headers: Seq<(Seq<char>, Seq<u8>)>, body: Seq<u8>) -> Result<
    EventView,
    MessageError,
> {
    match read_headers(nothing_read(), headers) {
        Ok(p) => complete(p, body),
        Err(e) => Err(e),
    }
}

/// Finds the attribute or extension that a header of this name carries.
pub fn carried(key: &str) -> (r: Option<String>)
    ensures
        optional_text(r) == carried_name(key@),
{
    proof {
        reveal_strlit("ce-");
    }
    let lower = ascii_lowercase(key);
    let name = lower.as_str();
    if same_text(name, "content-type") {
        return Some(String::from_str(Attribute::DataContentType.as_str()));
    }
    let n = name.unicode_len();
    if n >= 3 && name.get_char(0) == 'c' && name.get_char(1) == 'e' && name.get_char(2) == '-' {
        assert(name@.subrange(0, 3) =~= "ce-"@);
        Some(String::from_str(name.substring_char(3, n)))
    } else {
        assert(!starts_with(name@, "ce-"@)) by {
            if starts_with(name@, "ce-"@) {
                assert(name@.subrange(0, 3)[0] == name@[0]);
                assert(name@.subrange(0, 3)[1] == name@[1]);
                assert(name@.subrange(0, 3)[2] == name@[2]);
            }
        }
        None
    }
}

/// Whether two byte strings are the same.
fn same_bytes(a: &[u8], b: &[u8]) -> (r: bool)
    ensures
        r == (a@ == b@),
{
    if a.len() != b.len() {
        return false;
    }
    let mut i: usize = 0;
    while i < a.len()
        invariant
            i <= a@.len(),
            a@.len() == b@.len(),
            forall|j: int| 0 <= j < i ==> a@[j] == b@[j],
        decreases a@.len() - i,
    {
        if a[i] != b[i] {
            return false;
        }
        i = i + 1;
    }
    assert(a@ =~= b@);
    true
}

/// Reads an extension value from its wire text.
pub fn decode_scalar(bytes: &[u8]) -> (r: Option<ExtensionValue>)
    ensures
        match r {
            Some(v) => scalar_of(bytes@) == Some(v@),
            None => scalar_of(bytes@) is None,
        },
{
    let yes = [116u8, 114u8, 117u8, 101u8];
    let no = [102u8, 97u8, 108u8, 115u8, 101u8];
    assert(yes@ =~= true_text());
    assert(no@ =~= false_text());
    if same_bytes(bytes, yes.as_slice()) {
        return Some(ExtensionValue::Boolean(true));
    }
    if same_bytes(bytes, no.as_slice()) {
        return Some(ExtensionValue::Boolean(false));
    }
    match parse_decimal_text(bytes) {
        Some(n) => Some(ExtensionValue::Integer(n)),
        None => match string_from_utf8(bytes) {
            Some(s) => Some(ExtensionValue::String(s)),
            None => None,
        },
    }
}

/// What has been read of an event.
struct Partial {
    specversion: Option<SpecVersion>,
    id: Option<String>,
    ty: Option<String>,
    source: Option<String>,
    subject: Option<String>,
    time: Option<String>,
    dataschema: Option<String>,
    datacontenttype: Option<String>,
    extensions: Vec<Extension>,
}

impl View for Partial {
    type V = PartialView;

    closed spec fn view(&self) -> PartialView {
        PartialView {
            specversion: self.specversion,
            id: optional_text(self.id),
            ty: optional_text(self.ty),
            source: optional_text(self.source),
            subject: optional_text(self.subject),
            time: optional_text(self.time),
            dataschema: optional_text(self.dataschema),
            datacontenttype: optional_text(self.datacontenttype),
            extensions: self.extensions@.map_values(|e: Extension| e@),
        }
    }
}

/// Fills an attribute's place with the text of a value.
fn fill(slot: Option<String>, value: &[u8]) -> (r: Result<Option<String>, MessageError>)
    ensures
        match r {
            Ok(s) => read_text(optional_text(slot), value@) == Ok::<
                Option<Seq<char>>,
                MessageError,
            >(optional_text(s)),
            Err(e) => read_text(optional_text(slot), value@) == Err::<
                Option<Seq<char>>,
                MessageError,
            >(e),
        },
{
    if slot.is_some() {
        return Err(MessageError::RepeatedAttribute);
    }
    match string_from_utf8(value) {
        Some(s) => Ok(Some(s)),
        None => Err(MessageError::InvalidEncoding),
    }
}

/// Reads one more header.
fn read(p: Partial, header: &Header) -> (r: Result<Partial, MessageError>)
    requires
        extensions_wf(p@.extensions),
    ensures
        match r {
            Ok(q) => read_header(p@, header@) == Ok::<PartialView, MessageError>(q@)
                && extensions_wf(q@.extensions),
            Err(e) => read_header(p@, header@) == Err::<PartialView, MessageError>(e),
        },
{
    let name = match carried(header.name.as_str()) {
        Some(name) => name,
        None => {
            return Ok(p);
        },
    };
    let value = header.value.as_slice();
    match find_attribute(name.as_str()) {
        Some(Attribute::SpecVersion) => {
            if p.specversion.is_some() {
                return Err(MessageError::RepeatedAttribute);
            }
            match SpecVersion::from_bytes(value) {
                Some(v) => Ok(Partial { specversion: Some(v), ..p }),
                None => Err(MessageError::UnknownSpecVersion),
            }
        },
        Some(Attribute::Id) => {
            let id = fill(p.id, value)?;
            Ok(Partial { id, ..p })
        },
        Some(Attribute::Type) => {
            let ty = fill(p.ty, value)?;
            Ok(Partial { ty, ..p })
        },
        Some(Attribute::Source) => {
            let source = fill(p.source, value)?;
            Ok(Partial { source, ..p })
        },
        Some(Attribute::Subject) => {
            let subject = fill(p.subject, value)?;
            Ok(Partial { subject, ..p })
        },
        Some(Attribute::Time) => {
            let time = fill(p.time, value)?;
            Ok(Partial { time, ..p })
        },
        Some(Attribute::DataSchema) => {
            let dataschema = fill(p.dataschema, value)?;
            Ok(Partial { dataschema, ..p })
        },
        Some(Attribute::DataContentType) => {
            let datacontenttype = fill(p.datacontenttype, value)?;
            Ok(Partial { datacontenttype, ..p })
        },
        None => {
            if !check_extension_name(name.as_str()) {
                return Err(MessageError::InvalidExtensionName);
            }
            let ghost before = p@.extensions;
            proof {
                lemma_position_of(before, name@);
            }
            if find_position(&p.extensions, name.as_str()) < p.extensions.len() {
                return Err(MessageError::RepeatedAttribute);
            }
            match decode_scalar(value) {
                Some(v) => {
                    let ghost entry = (name@, v@);
                    let mut extensions = p.extensions;
                    extensions.push(Extension { name, value: v });
                    let ghost after = extensions@.map_values(|e: Extension| e@);
                    proof {
                        assert(after =~= before.push(entry));
                        assert forall|i: int| 0 <= i < after.len() implies is_extension_name(
                            (#[trigger] after[i]).0,
                        ) by {
                            if i < before.len() {
                                assert(after[i] == before[i]);
                            }
                        }
                        assert forall|i: int, j: int| 0 <= i < j < after.len() implies (
                        #[trigger] after[i]).0 != (#[trigger] after[j]).0 by {
                            assert(after[i] == before[i]);
                            if j < before.len() {
                                assert(after[j] == before[j]);
                            }
                        }
                    }
                    Ok(
                        Partial {
                            specversion: p.specversion,
                            id: p.id,
                            ty: p.ty,
                            source: p.source,
                            subject: p.subject,
                            time: p.time,
                            dataschema: p.dataschema,
                            datacontenttype: p.datacontenttype,
                            extensions,
                        },
                    )
                },
                None => Err(MessageError::InvalidEncoding),
            }
        },
    }
}

/// Reads an event from headers and a body in binary mode.
///
/// The headers are read in their order, their names without regard to
/// capital and small letters. One that carries neither an attribute nor an
/// extension is passed over. The event is refused where
/// the version is unknown, a required attribute is missing, an attribute
/// or extension comes twice, an extension's name cannot name one, or a
/// value is no text. An empty body is no payload.
pub fn decode(headers: &Vec<Header>, body: Vec<u8>) -> (r: Result<Event, MessageError>)
    ensures
        match r {
            Ok(event) => decoded(headers@.map_values(|h: Header| h@), body@) == Ok::<
                EventView,
                MessageError,
            >(event@),
            Err(e) => decoded(headers@.map_values(|h: Header| h@), body@) == Err::<
                EventView,
                MessageError,
            >(e),
        },
{
    let ghost all = headers@.map_values(|h: Header| h@);
    let mut p = Partial {
        specversion: None,
        id: None,
        ty: None,
        source: None,
        subject: None,
        time: None,
        dataschema: None,
        datacontenttype: None,
        extensions: Vec::new(),
    };
    assert(p@.extensions =~= Seq::empty());
    assert(p@ == nothing_read());
    assert(all.subrange(0, all.len() as int) =~= all);
    let mut i: usize = 0;
    while i < headers.len()
        invariant
            i <= headers@.len(),
            all == headers@.map_values(|h: Header| h@),
            extensions_wf(p@.extensions),
            read_headers(nothing_read(), all) == read_headers(
                p@,
                all.subrange(i as int, all.len() as int),
            ),
        decreases headers@.len() - i,
    {
        let ghost rest = all.subrange(i as int, all.len() as int);
        assert(rest[0] == headers@[i as int]@);
        assert(rest.drop_first() =~= all.subrange(i + 1, all.len() as int));
        match read(p, &headers[i]) {
            Ok(q) => {
                p = q;
            },
            Err(e) => {
                return Err(e);
            },
        }
        i = i + 1;
    }
    assert(all.subrange(i as int, all.len() as int).len() == 0);
    let specversion = match p.specversion {
        Some(v) => v,
        None => {
            return Err(MessageError::MissingAttribute { attribute: Attribute::SpecVersion });
        },
    };
    let id = match p.id {
        Some(v) => v,
        None => {
            return Err(MessageError::MissingAttribute { attribute: Attribute::Id });
        },
    };
    let ty = match p.ty {
        Some(v) => v,
        None => {
            return Err(MessageError::MissingAttribute { attribute: Attribute::Type });
        },
    };
    let source = match p.source {
        Some(v) => v,
        None => {
            return Err(MessageError::MissingAttribute { attribute: Attribute::Source });
        },
    };
    let data = if body.len() == 0 {
        None
    } else {
        Some(body)
    };
    Ok(
        Event::from_parts(
            specversion,
            id,
            ty,
            source,
            p.subject,
            p.time,
            p.dataschema,
            p.datacontenttype,
            p.extensions,
            data,
        ),
    )
}

/// Reads an event from the headers and the body of a request in binary
/// mode.
pub fn to_event(headers: &http::HeaderMap<http::HeaderValue>, body: Vec<u8>) -> (r: Result<
    Event,
    MessageError,
>)
    ensures
        match r {
            Ok(event) => decoded(map_entries(*headers), body@) == Ok::<EventView, MessageError>(
                event@,
            ),
            Err(e) => decoded(map_entries(*headers), body@) == Err::<EventView, MessageError>(e),
        },
{
    let entries = header_entries(headers);
    decode(&entries, body)
}

/// Why a request was turned away: the status of the answer, and the reason
/// in words.
#[derive(Debug, PartialEq, Eq)]
pub struct Rejection {
    pub status: u16,
    pub message: String,
}

/// The status of the answer to a request that carries no event.
pub const BAD_REQUEST: u16 = 400;

/// The answer to a request that could not be read, for the reason given.
pub fn bad_request(message: String) -> (r: Rejection)
    ensures
        r.status == BAD_REQUEST,
        r.message@ == message@,
{
    Rejection { status: BAD_REQUEST, message }
}

/// What the reading of a request becomes for the one who sent it: the
/// event, or the status 400 with the error's message.
pub fn or_rejected(read: Result<Event, MessageError>) -> (r: Result<Event, Rejection>)
    ensures
        match read {
            Ok(event) => r == Ok::<Event, Rejection>(event),
            Err(e) => r is Err && r->Err_0.status == BAD_REQUEST && r->Err_0.message@ == e.text(),
        },
{
    match read {
        Ok(event) => Ok(event),
        Err(e) => Err(bad_request(e.message())),
    }
}

/// Reads the event that a request carries in binary mode, from its
/// headers and its buffered body. A request that carries none is answered
/// with the status 400 and the reason.
pub fn from_request(headers: &http::HeaderMap<http::HeaderValue>, body: Vec<u8>) -> (r: Result<
    Event,
    Rejection,
>)
    ensures
        match r {
            Ok(event) => decoded(map_entries(*headers), body@) == Ok::<EventView, MessageError>(
                event@,
            ),
            Err(rejection) => decoded(map_entries(*headers), body@) is Err && rejection.status
                == BAD_REQUEST && rejection.message@ == decoded(
                map_entries(*headers),
                body@,
            )->Err_0.text(),
        },
{
    or_rejected(to_event(headers, body))
}

} // verus!
