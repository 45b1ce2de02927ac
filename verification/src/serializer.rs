//! The pass over an event that writes it, header by header, to a builder.

use crate::event::{Attribute, Event, Extension, ExtensionValue, SpecVersion, optional_text};
use crate::message::MessageError;
use crate::outside::{header_value_from_bytes, is_header_value, value_bytes};
use crate::wire::{
    Terminal, all_values_valid, attribute_header, encode_scalar, extension_header,
    extension_headers, header_key, lemma_all_values_valid_concat, optional_header,
    required_headers, scalar_bytes, wire_headers, wire_terminal,
};
use core::marker::PhantomData;
use vstd::prelude::*;
use vstd::string::*;
use vstd::utf8::encode_utf8;

verus! {

/// What can take headers one by one and then make a message of type `R` of
/// them and a body.
///
/// A builder is open until it has been ended, by `body` or by `finish`, and
/// only an open builder may be used: to end one twice is an error of the
/// caller.
///
/// The three functions of the model have bodies, so that a builder need not
/// write them: it then says nothing of what it returns. A builder that is
/// to be verified states its own.
pub trait MessageBuilder<R>: Sized {
    /// Whether the builder has not been ended yet.
    open spec fn is_open(&self) -> bool {
        true
    }

    /// The headers handed to the builder so far, in their order.
    open spec fn handed(&self) -> Seq<(Seq<char>, Seq<u8>)> {
        Seq::empty()
    }

    /// Whether `result` is what ending the builder in the given way may
    /// return, after these headers.
    open spec fn outcome(
        handed: Seq<(Seq<char>, Seq<u8>)>,
        terminal: Terminal,
        result: Result<R, MessageError>,
    ) -> bool {
        true
    }

    /// Takes one more header.
    fn header(&mut self, key: &str, value: http::HeaderValue)
        requires
            old(self).is_open(),
        ensures
            final(self).is_open(),
            final(self).handed() == old(self).handed().push((key@, value_bytes(value))),
    ;

    /// Ends the builder with a body.
    fn body(&mut self, bytes: Vec<u8>) -> (r: Result<R, MessageError>)
        requires
            old(self).is_open(),
        ensures
            !final(self).is_open(),
            Self::outcome(old(self).handed(), Terminal::Body(bytes@), r),
    ;

    /// Ends the builder without a body.
    fn finish(&mut self) -> (r: Result<R, MessageError>)
        requires
            old(self).is_open(),
        ensures
            !final(self).is_open(),
            Self::outcome(old(self).handed(), Terminal::Finish, r),
    ;
}

/// Writes the parts of an event to a builder in binary mode: each
/// attribute and extension as a header of its own, the payload as the body.
pub struct Serializer<R, B: MessageBuilder<R>> {
    builder: B,
    target: PhantomData<R>,
}

impl<R, B: MessageBuilder<R>> Serializer<R, B> {
    /// Whether the builder underneath is open.
    pub closed spec fn is_open(&self) -> bool {
        self.builder.is_open()
    }

    /// The headers handed to the builder underneath so far.
    pub closed spec fn handed(&self) -> Seq<(Seq<char>, Seq<u8>)> {
        self.builder.handed()
    }

    /// A serializer over an open builder.
    pub fn new(builder: B) -> (r: Self)
        requires
            builder.is_open(),
        ensures
            r.is_open(),
            r.handed() == builder.handed(),
    {
        Serializer { builder, target: PhantomData }
    }

    /// Hands the builder one header, if the bytes can be its value.
    fn put(self, key: &str, bytes: &[u8]) -> (r: Result<Self, MessageError>)
        requires
            self.is_open(),
        ensures
            match r {
                Ok(s) => is_header_value(bytes@) && s.is_open() && s.handed()
                    == self.handed().push((key@, bytes@)),
                Err(e) => !is_header_value(bytes@) && e is InvalidHeaderValue,
            },
    {
        match header_value_from_bytes(bytes) {
            Ok(value) => {
                let mut builder = self.builder;
                builder.header(key, value);
                Ok(Serializer { builder, target: PhantomData })
            },
            Err(reason) => Err(MessageError::InvalidHeaderValue { reason }),
        }
    }

    /// Writes the version of the specification.
    pub fn set_spec_version(self, specversion: SpecVersion) -> (r: Result<Self, MessageError>)
        requires
            self.is_open(),
        ensures
            r is Ok,
            r->Ok_0.is_open(),
            r->Ok_0.handed() == self.handed().push(
                (header_key(Attribute::SpecVersion.name()), specversion.text()),
            ),
    {
        let bytes = specversion.to_bytes();
        let key = header_name(Attribute::SpecVersion.as_str());
        self.put(key.as_str(), bytes.as_slice())
    }

    /// Writes an attribute whose value is text.
    pub fn set_attribute(self, name: &str, value: &str) -> (r: Result<Self, MessageError>)
        requires
            self.is_open(),
        ensures
            match r {
                Ok(s) => is_header_value(encode_utf8(value@)) && s.is_open() && s.handed()
                    == self.handed().push((header_key(name@), encode_utf8(value@))),
                Err(e) => !is_header_value(encode_utf8(value@)) && e is InvalidHeaderValue,
            },
    {
        let key = header_name(name);
        self.put(key.as_str(), value.as_bytes())
    }

    /// Writes an extension.
    pub fn set_extension(self, name: &str, value: &ExtensionValue) -> (r: Result<
        Self,
        MessageError,
    >)
        requires
            self.is_open(),
        ensures
            match r {
                Ok(s) => is_header_value(scalar_bytes(value@)) && s.is_open() && s.handed()
                    == self.handed().push(extension_header((name@, value@))),
                Err(e) => !is_header_value(scalar_bytes(value@)) && e is InvalidHeaderValue,
            },
    {
        let key = header_name(name);
        let bytes = encode_scalar(value);
        self.put(key.as_str(), bytes.as_slice())
    }

    /// Ends the pass with the payload as the body.
    pub fn end_with_data(self, bytes: Vec<u8>) -> (r: Result<R, MessageError>)
        requires
            self.is_open(),
        ensures
            B::outcome(self.handed(), Terminal::Body(bytes@), r),
    {
        let mut builder = self.builder;
        builder.body(bytes)
    }

    /// Ends the pass without a body.
    pub fn end(self) -> (r: Result<R, MessageError>)
        requires
            self.is_open(),
        ensures
            B::outcome(self.handed(), Terminal::Finish, r),
    {
        let mut builder = self.builder;
        builder.finish()
    }

    /// Writes an optional attribute, where it is present.
    fn set_optional(self, attribute: Attribute, value: &Option<String>) -> (r: Result<
        Self,
        MessageError,
    >)
        requires
            self.is_open(),
        ensures
            match r {
                Ok(s) => all_values_valid(optional_header(attribute, optional_text(*value)))
                    && s.is_open() && s.handed() == self.handed() + optional_header(
                    attribute,
                    optional_text(*value),
                ),
                Err(e) => !all_values_valid(optional_header(attribute, optional_text(*value)))
                    && e is InvalidHeaderValue,
            },
    {
        let ghost part = optional_header(attribute, optional_text(*value));
        match value {
            Some(text) => {
                let r = self.set_attribute(attribute.as_str(), text.as_str());
                proof {
                    assert(part[0] == attribute_header(attribute, text@));
                    if r is Ok {
                        assert(r->Ok_0.handed() =~= self.handed() + part);
                    }
                }
                r
            },
            None => {
                assert(self.handed() + part =~= self.handed());
                Ok(self)
            },
        }
    }

    /// Writes the extensions, in their order.
    fn set_extensions(self, extensions: &Vec<Extension>) -> (r: Result<Self, MessageError>)
        requires
            self.is_open(),
        ensures
            match r {
                Ok(s) => all_values_valid(
                    extension_headers(extensions@.map_values(|e: Extension| e@)),
                ) && s.is_open() && s.handed() == self.handed() + extension_headers(
                    extensions@.map_values(|e: Extension| e@),
                ),
                Err(e) => !all_values_valid(
                    extension_headers(extensions@.map_values(|e: Extension| e@)),
                ) && e is InvalidHeaderValue,
            },
    {
        let ghost start = self.handed();
        let ghost all = extension_headers(extensions@.map_values(|e: Extension| e@));
        let mut s = self;
        let mut i: usize = 0;
        assert(start + all.subrange(0, 0) =~= start);
        while i < extensions.len()
            invariant
                i <= extensions@.len(),
                all == extension_headers(extensions@.map_values(|e: Extension| e@)),
                s.is_open(),
                s.handed() == start + all.subrange(0, i as int),
                all_values_valid(all.subrange(0, i as int)),
            decreases extensions@.len() - i,
        {
            let extension = &extensions[i];
            assert(all[i as int] == extension_header(extension@));
            match s.set_extension(extension.name.as_str(), &extension.value) {
                Ok(next) => {
                    proof {
                        assert(all.subrange(0, i + 1) =~= all.subrange(0, i as int).push(
                            all[i as int],
                        ));
                        assert(next.handed() =~= start + all.subrange(0, i + 1));
                        assert forall|j: int| 0 <= j < i + 1 implies is_header_value(
                            (#[trigger] all.subrange(0, i + 1)[j]).1,
                        ) by {
                            if j < i {
                                assert(all.subrange(0, i + 1)[j] == all.subrange(0, i as int)[j]);
                            }
                        }
                    }
                    s = next;
                },
                Err(e) => {
                    return Err(e);
                },
            }
            i = i + 1;
        }
        assert(all.subrange(0, i as int) =~= all);
        Ok(s)
    }
}

/// The name of the header that carries the attribute or extension `name`.
pub fn header_name(name: &str) -> (r: String)
    ensures
        r@ == header_key(name@),
{
    if crate::text::same_text(name, Attribute::DataContentType.as_str()) {
        String::from_str("content-type")
    } else {
        String::from_str("ce-").concat(name)
    }
}

impl Event {
    /// Writes the event through `serializer` in binary mode: the version,
    /// the attributes, the extensions and the content type as headers, then
    /// the payload as the body, or no body where there is no payload.
    ///
    /// The pass stops at the first value that cannot stand in a header.
    /// Otherwise it returns what the builder underneath makes of the
    /// headers and the ending.
    pub fn deserialize_binary<R, B: MessageBuilder<R>>(
        self,
        serializer: Serializer<R, B>,
    ) -> (r: Result<R, MessageError>)
        requires
            serializer.is_open(),
        ensures
            all_values_valid(wire_headers(self@)) ==> B::outcome(
                serializer.handed() + wire_headers(self@),
                wire_terminal(self@),
                r,
            ),
            !all_values_valid(wire_headers(self@)) ==> r is Err && r->Err_0 is InvalidHeaderValue,
    {
        let ghost start = serializer.handed();
        let ghost h_required = required_headers(self@);
        let ghost h_subject = optional_header(Attribute::Subject, self@.subject);
        let ghost h_time = optional_header(Attribute::Time, self@.time);
        let ghost h_schema = optional_header(Attribute::DataSchema, self@.dataschema);
        let ghost h_extensions = extension_headers(self@.extensions);
        let ghost h_content = optional_header(Attribute::DataContentType, self@.datacontenttype);
        proof {
            lemma_all_values_valid_concat(h_required, h_subject);
            lemma_all_values_valid_concat(h_required + h_subject, h_time);
            lemma_all_values_valid_concat(h_required + h_subject + h_time, h_schema);
            lemma_all_values_valid_concat(
                h_required + h_subject + h_time + h_schema,
                h_extensions,
            );
            lemma_all_values_valid_concat(
                h_required + h_subject + h_time + h_schema + h_extensions,
                h_content,
            );
        }
        let s = serializer.set_spec_version(self.specversion())?;
        let s = s.set_attribute(Attribute::Id.as_str(), self.id().as_str())?;
        let s = s.set_attribute(Attribute::Type.as_str(), self.ty().as_str())?;
        let s = s.set_attribute(Attribute::Source.as_str(), self.source().as_str())?;
        assert(s.handed() =~= start + h_required);
        let s = s.set_optional(Attribute::Subject, self.subject())?;
        let s = s.set_optional(Attribute::Time, self.time())?;
        let s = s.set_optional(Attribute::DataSchema, self.dataschema())?;
        let s = s.set_extensions(self.extensions())?;
        let s = s.set_optional(Attribute::DataContentType, self.datacontenttype())?;
        assert(s.handed() =~= start + wire_headers(self@));
        match self.into_data() {
            Some(bytes) => s.end_with_data(bytes),
            None => s.end(),
        }
    }
}

} // verus!
