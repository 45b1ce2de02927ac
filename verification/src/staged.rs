//! A response builder of `http` that takes its headers one by one, as the
//! adapters hold it.

use crate::event::{Attribute, EventView, is_extension_name, lemma_attribute_named};
use crate::outside::{
    HEADER_ROOM, builder_failed, builder_headers, builder_status, builder_with_header,
    is_header_name, new_builder, value_bytes,
};
use crate::text::{is_lower_token, is_lower_token_char, lemma_lower_token_fixed, lower_text};
use crate::wire::{
    extension_header, extension_headers, header_key, optional_header, required_headers,
    wire_headers,
};
use vstd::prelude::*;

verus! {

/// Whether every name of the headers is taken as a header name.
pub open spec fn all_names_valid(headers: Seq<(Seq<char>, Seq<u8>)>) -> bool {
    forall|i: int| 0 <= i < headers.len() ==> is_header_name((#[trigger] headers[i]).0)
}

/// The headers with their names in small letters, as a header map keeps
/// them.
pub open spec fn lowered(headers: Seq<(Seq<char>, Seq<u8>)>) -> Seq<(Seq<char>, Seq<u8>)> {
    headers.map_values(|h: (Seq<char>, Seq<u8>)| (lower_text(h.0), h.1))
}

/// Whether a response is owed for these headers: every name is a header
/// name, and they are few enough for a header map to take them all.
pub open spec fn accepted(headers: Seq<(Seq<char>, Seq<u8>)>) -> bool {
    all_names_valid(headers) && headers.len() <= HEADER_ROOM
}

/// Whether `builder` is what a fresh builder has become after these
/// headers were handed to it.
pub open spec fn agrees(
    builder: http::response::Builder,
    headers: Seq<(Seq<char>, Seq<u8>)>,
) -> bool {
    &&& !builder_failed(builder) ==> all_names_valid(headers) && builder_status(builder) == 200
        && builder_headers(builder) == lowered(headers).to_multiset()
    &&& accepted(headers) ==> !builder_failed(builder)
}

/// A builder in its slot, and the headers handed to it so far.
pub struct Staged {
    builder: Option<http::response::Builder>,
    handed: Ghost<Seq<(Seq<char>, Seq<u8>)>>,
}

impl Staged {
    /// Whether the builder is still in its slot.
    pub closed spec fn is_open(&self) -> bool {
        self.builder is Some && agrees(self.builder->Some_0, self.handed@)
    }

    /// The headers handed over so far.
    pub closed spec fn handed(&self) -> Seq<(Seq<char>, Seq<u8>)> {
        self.handed@
    }

    /// A fresh builder, to which nothing was handed yet.
    pub fn new() -> (r: Staged)
        ensures
            r.is_open(),
            r.handed() == Seq::<(Seq<char>, Seq<u8>)>::empty(),
    {
        let builder = new_builder();
        proof {
            let none = Seq::<(Seq<char>, Seq<u8>)>::empty();
            assert(lowered(none) =~= none);
            none.to_multiset_ensures();
            assert(none.to_multiset() =~= builder_headers(builder));
        }
        Staged { builder: Some(builder), handed: Ghost(Seq::empty()) }
    }

    /// Takes the builder out, hands it the header, and puts it back.
    pub fn header(&mut self, key: &str, value: http::HeaderValue)
        requires
            old(self).is_open(),
        ensures
            final(self).is_open(),
            final(self).handed() == old(self).handed().push((key@, value_bytes(value))),
    {
        let ghost before = self.handed@;
        let ghost entry = (key@, value_bytes(value));
        match self.builder.take() {
            Some(builder) => {
                let next = builder_with_header(builder, key, value);
                proof {
                    let after = before.push(entry);
                    lowered(before).to_multiset_ensures();
                    assert(lowered(after) =~= lowered(before).push((lower_text(key@), entry.1)));
                    if !builder_failed(next) {
                        assert forall|i: int| 0 <= i < after.len() implies is_header_name(
                            (#[trigger] after[i]).0,
                        ) by {
                            if i < before.len() {
                                assert(after[i] == before[i]);
                            }
                        }
                    }
                    if accepted(after) {
                        assert forall|i: int| 0 <= i < before.len() implies is_header_name(
                            (#[trigger] before[i]).0,
                        ) by {
                            assert(after[i] == before[i]);
                        }
                        assert(after[before.len() as int] == entry);
                    }
                }
                self.builder = Some(next);
                self.handed = Ghost(before.push(entry));
            },
            None => vstd::pervasive::unreached(),
        }
    }

    /// Takes the builder out for good.
    pub fn take(&mut self) -> (r: http::response::Builder)
        requires
            old(self).is_open(),
        ensures
            !final(self).is_open(),
            final(self).handed() == old(self).handed(),
            agrees(r, old(self).handed()),
    {
        match self.builder.take() {
            Some(builder) => builder,
            None => vstd::pervasive::unreached(),
        }
    }
}

/// Whether every name of the headers is a header name without capital
/// letters.
pub open spec fn all_names_lower(headers: Seq<(Seq<char>, Seq<u8>)>) -> bool {
    forall|i: int|
        0 <= i < headers.len() ==> is_lower_token((#[trigger] headers[i]).0) && is_header_name(
            headers[i].0,
        )
}

/// The names of two runs of headers are lower-case header names where those
/// of each run are.
pub proof fn lemma_all_names_lower_concat(
    a: Seq<(Seq<char>, Seq<u8>)>,
    b: Seq<(Seq<char>, Seq<u8>)>,
)
    requires
        all_names_lower(a),
        all_names_lower(b),
    ensures
        all_names_lower(a + b),
{
    let c = a + b;
    assert forall|i: int| 0 <= i < c.len() implies is_lower_token((#[trigger] c[i]).0)
        && is_header_name(c[i].0) by {
        if i < a.len() {
            assert(c[i] == a[i]);
        } else {
            assert(c[i] == b[i - a.len()]);
        }
    }
}

/// Headers whose names are lower-case header names are kept as they are.
pub proof fn lemma_lowered_fixed(headers: Seq<(Seq<char>, Seq<u8>)>)
    requires
        all_names_lower(headers),
    ensures
        all_names_valid(headers),
        lowered(headers) == headers,
{
    assert forall|i: int| 0 <= i < headers.len() implies lowered(headers)[i] == headers[i] by {
        assert(is_lower_token(headers[i].0));
        lemma_lower_token_fixed(headers[i].0);
    }
    assert(lowered(headers) =~= headers);
    assert forall|i: int| 0 <= i < headers.len() implies is_header_name(
        (#[trigger] headers[i]).0,
    ) by {
        assert(is_lower_token(headers[i].0));
    }
}

/// The header of a lower-case name that is short enough has a lower-case
/// header name.
pub proof fn lemma_header_key(name: Seq<char>)
    requires
        is_lower_token(name),
        name.len() <= 65532,
    ensures
        is_lower_token(header_key(name)),
        is_header_name(header_key(name)),
{
    reveal_strlit("ce-");
    reveal_strlit("content-type");
    let key = header_key(name);
    if name == Attribute::DataContentType.name() {
        assert(key.len() == 12);
        assert forall|i: int| 0 <= i < key.len() implies is_lower_token_char(
            #[trigger] key[i],
        ) by {}
    } else {
        assert(key.len() == name.len() + 3);
        assert forall|i: int| 0 <= i < key.len() implies is_lower_token_char(#[trigger] key[i]) by {
            if i >= 3 {
                assert(key[i] == name[i - 3]);
                assert(is_lower_token_char(name[i - 3]));
            }
        }
    }
}

/// The header of an attribute has a lower-case header name.
pub proof fn lemma_attribute_key(attribute: Attribute)
    ensures
        is_lower_token(header_key(attribute.name())),
        is_header_name(header_key(attribute.name())),
{
    lemma_attribute_named(attribute);
    reveal_strlit("specversion");
    reveal_strlit("id");
    reveal_strlit("type");
    reveal_strlit("source");
    reveal_strlit("subject");
    reveal_strlit("time");
    reveal_strlit("dataschema");
    reveal_strlit("datacontenttype");
    lemma_header_key(attribute.name());
}

/// The headers of a well-formed event have lower-case header names, so a
/// header map keeps them as they are.
pub proof fn lemma_wire_names(event: EventView)
    requires
        event.wf(),
    ensures
        all_names_lower(wire_headers(event)),
        all_names_valid(wire_headers(event)),
        lowered(wire_headers(event)) == wire_headers(event),
{
    lemma_attribute_key(Attribute::SpecVersion);
    lemma_attribute_key(Attribute::Id);
    lemma_attribute_key(Attribute::Type);
    lemma_attribute_key(Attribute::Source);
    lemma_attribute_key(Attribute::Subject);
    lemma_attribute_key(Attribute::Time);
    lemma_attribute_key(Attribute::DataSchema);
    lemma_attribute_key(Attribute::DataContentType);
    let h_required = required_headers(event);
    let h_subject = optional_header(Attribute::Subject, event.subject);
    let h_time = optional_header(Attribute::Time, event.time);
    let h_schema = optional_header(Attribute::DataSchema, event.dataschema);
    let h_extensions = extension_headers(event.extensions);
    let h_content = optional_header(Attribute::DataContentType, event.datacontenttype);
    assert(all_names_lower(h_required));
    assert(all_names_lower(h_subject));
    assert(all_names_lower(h_time));
    assert(all_names_lower(h_schema));
    assert(all_names_lower(h_content));
    assert forall|i: int| 0 <= i < h_extensions.len() implies is_lower_token(
        (#[trigger] h_extensions[i]).0,
    ) && is_header_name(h_extensions[i].0) by {
        assert(h_extensions[i] == extension_header(event.extensions[i]));
        assert(is_extension_name(event.extensions[i].0));
        lemma_header_key(event.extensions[i].0);
    }
    lemma_all_names_lower_concat(h_required, h_subject);
    lemma_all_names_lower_concat(h_required + h_subject, h_time);
    lemma_all_names_lower_concat(h_required + h_subject + h_time, h_schema);
    lemma_all_names_lower_concat(h_required + h_subject + h_time + h_schema, h_extensions);
    lemma_all_names_lower_concat(
        h_required + h_subject + h_time + h_schema + h_extensions,
        h_content,
    );
    lemma_lowered_fixed(wire_headers(event));
}

} // verus!
