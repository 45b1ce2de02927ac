//! The event envelope: its attributes, its extensions and its payload.

use crate::message::MessageError;
use crate::text::{check_lower_token, is_lower_token, same_text};
use vstd::prelude::*;
use vstd::string::*;

verus! {

/// The versions of the specification that an event may follow.
#[derive(Clone, Copy, Debug, PartialEq, Eq, Structural)]
pub enum SpecVersion {
    V03,
    V10,
}

impl SpecVersion {
    /// The version as it is written on the wire: `0.3` or `1.0`.
    pub open spec fn text(self) -> Seq<u8> {
        match self {
            SpecVersion::V03 => seq![48u8, 46u8, 51u8],
            SpecVersion::V10 => seq![49u8, 46u8, 48u8],
        }
    }

    /// Writes the version as it stands on the wire.
    pub fn to_bytes(self) -> (r: Vec<u8>)
        ensures
            r@ == self.text(),
    {
        let r = match self {
            SpecVersion::V03 => vec![48u8, 46u8, 51u8],
            SpecVersion::V10 => vec![49u8, 46u8, 48u8],
        };
        assert(r@ =~= self.text());
        r
    }

    /// Reads a version from its wire text.
    pub fn from_bytes(bytes: &[u8]) -> (r: Option<SpecVersion>)
        ensures
            match r {
                Some(v) => bytes@ == v.text(),
                None => forall|v: SpecVersion| bytes@ != v.text(),
            },
    {
        if bytes.len() == 3 && bytes[1] == 46 {
            if bytes[0] == 48 && bytes[2] == 51 {
                assert(bytes@ =~= SpecVersion::V03.text());
                return Some(SpecVersion::V03);
            }
            if bytes[0] == 49 && bytes[2] == 48 {
                assert(bytes@ =~= SpecVersion::V10.text());
                return Some(SpecVersion::V10);
            }
        }
        assert forall|v: SpecVersion| bytes@ != v.text() by {
            if bytes@ == v.text() {
                assert(v.text().len() == 3);
                assert(v.text()[1] == 46);
                assert(bytes@[0] == v.text()[0]);
                assert(bytes@[2] == v.text()[2]);
            }
        }
        None
    }
}

/// The attributes that the specification defines.
#[derive(Clone, Copy, Debug, PartialEq, Eq, Structural)]
pub enum Attribute {
    SpecVersion,
    Id,
    Type,
    Source,
    Subject,
    Time,
    DataSchema,
    DataContentType,
}

impl Attribute {
    /// The attribute's canonical name.
    pub open spec fn name(self) -> Seq<char> {
        match self {
            Attribute::SpecVersion => "specversion"@,
            Attribute::Id => "id"@,
            Attribute::Type => "type"@,
            Attribute::Source => "source"@,
            Attribute::Subject => "subject"@,
            Attribute::Time => "time"@,
            Attribute::DataSchema => "dataschema"@,
            Attribute::DataContentType => "datacontenttype"@,
        }
    }

    /// The attribute's canonical name.
    pub fn as_str(self) -> (r: &'static str)
        ensures
            r@ == self.name(),
    {
        match self {
            Attribute::SpecVersion => "specversion",
            Attribute::Id => "id",
            Attribute::Type => "type",
            Attribute::Source => "source",
            Attribute::Subject => "subject",
            Attribute::Time => "time",
            Attribute::DataSchema => "dataschema",
            Attribute::DataContentType => "datacontenttype",
        }
    }
}

/// The attribute that a name denotes, if it is the name of one.
pub open spec fn attribute_named(s: Seq<char>) -> Option<Attribute> {
    if s == Attribute::SpecVersion.name() {
        Some(Attribute::SpecVersion)
    } else if s == Attribute::Id.name() {
        Some(Attribute::Id)
    } else if s == Attribute::Type.name() {
        Some(Attribute::Type)
    } else if s == Attribute::Source.name() {
        Some(Attribute::Source)
    } else if s == Attribute::Subject.name() {
        Some(Attribute::Subject)
    } else if s == Attribute::Time.name() {
        Some(Attribute::Time)
    } else if s == Attribute::DataSchema.name() {
        Some(Attribute::DataSchema)
    } else if s == Attribute::DataContentType.name() {
        Some(Attribute::DataContentType)
    } else {
        None
    }
}

/// Finds the attribute that a name denotes.
pub fn find_attribute(name: &str) -> (r: Option<Attribute>)
    ensures
        r == attribute_named(name@),
{
    if same_text(name, Attribute::SpecVersion.as_str()) {
        Some(Attribute::SpecVersion)
    } else if same_text(name, Attribute::Id.as_str()) {
        Some(Attribute::Id)
    } else if same_text(name, Attribute::Type.as_str()) {
        Some(Attribute::Type)
    } else if same_text(name, Attribute::Source.as_str()) {
        Some(Attribute::Source)
    } else if same_text(name, Attribute::Subject.as_str()) {
        Some(Attribute::Subject)
    } else if same_text(name, Attribute::Time.as_str()) {
        Some(Attribute::Time)
    } else if same_text(name, Attribute::DataSchema.as_str()) {
        Some(Attribute::DataSchema)
    } else if same_text(name, Attribute::DataContentType.as_str()) {
        Some(Attribute::DataContentType)
    } else {
        None
    }
}

/// Every attribute is found again by its name.
pub proof fn lemma_attribute_named(a: Attribute)
    ensures
        attribute_named(a.name()) == Some(a),
        is_lower_token(a.name()),
{
    reveal_strlit("specversion");
    reveal_strlit("id");
    reveal_strlit("type");
    reveal_strlit("source");
    reveal_strlit("subject");
    reveal_strlit("time");
    reveal_strlit("dataschema");
    reveal_strlit("datacontenttype");
    assert("type"@[1] != "time"@[1]);
    assert("specversion"@.len() == 11);
    assert("id"@.len() == 2);
    assert("type"@.len() == 4);
    assert("source"@.len() == 6);
    assert("subject"@.len() == 7);
    assert("time"@.len() == 4);
    assert("dataschema"@.len() == 10);
    assert("datacontenttype"@.len() == 15);
}

/// The longest name an extension may have: with the marker in front of it,
/// it still fits a header name.
pub const MAX_EXTENSION_NAME_LEN: usize = 65532;

/// Whether a text can name an extension: a lower-case header token that
/// names no attribute and is not too long.
pub open spec fn is_extension_name(s: Seq<char>) -> bool {
    &&& is_lower_token(s)
    &&& s.len() <= MAX_EXTENSION_NAME_LEN
    &&& attribute_named(s) is None
}

/// Whether a string can name an extension.
pub fn check_extension_name(name: &str) -> (r: bool)
    ensures
        r == is_extension_name(name@),
{
    if !check_lower_token(name) {
        return false;
    }
    proof {
        assert(vstd::utf8::is_ascii_chars(name@)) by {
            assert forall|i: int| 0 <= i < name@.len() implies '\0' <= #[trigger] name@[i]
                <= '\u{7f}' by {
                assert(crate::text::is_lower_token_char(name@[i]));
            }
        }
        is_ascii_spec_bytes(name);
    }
    name.as_bytes().len() <= MAX_EXTENSION_NAME_LEN && find_attribute(name).is_none()
}

/// The value of an extension.
#[derive(Clone, Debug, PartialEq, Eq)]
pub enum ExtensionValue {
    String(String),
    Boolean(bool),
    Integer(i64),
}

/// What an extension value is, as mathematics.
pub enum ExtensionValueView {
    String(Seq<char>),
    Boolean(bool),
    Integer(i64),
}

impl View for ExtensionValue {
    type V = ExtensionValueView;

    open spec fn view(&self) -> ExtensionValueView {
        match self {
            ExtensionValue::String(s) => ExtensionValueView::String(s@),
            ExtensionValue::Boolean(b) => ExtensionValueView::Boolean(*b),
            ExtensionValue::Integer(n) => ExtensionValueView::Integer(*n),
        }
    }
}

/// A named extension of an event.
#[derive(Clone, Debug, PartialEq, Eq)]
pub struct Extension {
    pub name: String,
    pub value: ExtensionValue,
}

impl View for Extension {
    type V = (Seq<char>, ExtensionValueView);

    open spec fn view(&self) -> (Seq<char>, ExtensionValueView) {
        (self.name@, self.value@)
    }
}

/// The text of an optional string.
pub open spec fn optional_text(s: Option<String>) -> Option<Seq<char>> {
    match s {
        Some(s) => Some(s@),
        None => None,
    }
}

/// The bytes of an optional payload.
pub open spec fn optional_bytes(b: Option<Vec<u8>>) -> Option<Seq<u8>> {
    match b {
        Some(b) => Some(b@),
        None => None,
    }
}

/// What an event is, as mathematics.
pub struct EventView {
    pub specversion: SpecVersion,
    pub id: Seq<char>,
    pub ty: Seq<char>,
    pub source: Seq<char>,
    pub subject: Option<Seq<char>>,
    pub time: Option<Seq<char>>,
    pub dataschema: Option<Seq<char>>,
    pub datacontenttype: Option<Seq<char>>,
    pub extensions: Seq<(Seq<char>, ExtensionValueView)>,
    pub data: Option<Seq<u8>>,
}

/// The place of the extension called `name`, or the length of the sequence
/// where there is none.
pub open spec fn position_of(
    extensions: Seq<(Seq<char>, ExtensionValueView)>,
    name: Seq<char>,
) -> int
    decreases extensions.len(),
{
    if extensions.len() == 0 {
        0
    } else if extensions[0].0 == name {
        0
    } else {
        1 + position_of(extensions.drop_first(), name)
    }
}

/// The extensions with `name` set to `value`: in its place where it was
/// there, at the end where it was not.
pub open spec fn with_entry(
    extensions: Seq<(Seq<char>, ExtensionValueView)>,
    name: Seq<char>,
    value: ExtensionValueView,
) -> Seq<(Seq<char>, ExtensionValueView)> {
    let at = position_of(extensions, name);
    if at < extensions.len() {
        extensions.update(at, (name, value))
    } else {
        extensions.push((name, value))
    }
}

/// `position_of` gives the first place where the name stands.
pub proof fn lemma_position_of(extensions: Seq<(Seq<char>, ExtensionValueView)>, name: Seq<char>)
    ensures
        0 <= position_of(extensions, name) <= extensions.len(),
        forall|j: int|
            0 <= j < position_of(extensions, name) ==> (#[trigger] extensions[j]).0 != name,
        position_of(extensions, name) < extensions.len() ==> extensions[position_of(
            extensions,
            name,
        )].0 == name,
    decreases extensions.len(),
{
    if extensions.len() > 0 && extensions[0].0 != name {
        let rest = extensions.drop_first();
        lemma_position_of(rest, name);
        assert forall|j: int| 0 <= j < position_of(extensions, name) implies (
        #[trigger] extensions[j]).0 != name by {
            if j > 0 {
                assert(extensions[j] == rest[j - 1]);
            }
        }
        if position_of(extensions, name) < extensions.len() {
            assert(extensions[position_of(extensions, name)] == rest[position_of(rest, name)]);
        }
    }
}

/// Every extension has a name of its own that can name an extension.
pub open spec fn extensions_wf(extensions: Seq<(Seq<char>, ExtensionValueView)>) -> bool {
    &&& forall|i: int|
        0 <= i < extensions.len() ==> is_extension_name((#[trigger] extensions[i]).0)
    &&& forall|i: int, j: int|
        0 <= i < j < extensions.len() ==> (#[trigger] extensions[i]).0 != (
        #[trigger] extensions[j]).0
}

impl EventView {
    /// Every extension has a name of its own that can name an extension.
    pub open spec fn wf(self) -> bool {
        extensions_wf(self.extensions)
    }
}

/// Finds the place of the extension called `name`: the number of
/// extensions where there is none.
pub fn find_position(extensions: &Vec<Extension>, name: &str) -> (r: usize)
    ensures
        r == position_of(extensions@.map_values(|e: Extension| e@), name@),
{
    let ghost all = extensions@.map_values(|e: Extension| e@);
    let mut i: usize = 0;
    assert(all.subrange(0, all.len() as int) =~= all);
    while i < extensions.len()
        invariant
            i <= extensions@.len(),
            all == extensions@.map_values(|e: Extension| e@),
            position_of(all, name@) == i + position_of(
                all.subrange(i as int, all.len() as int),
                name@,
            ),
        decreases extensions@.len() - i,
    {
        let ghost rest = all.subrange(i as int, all.len() as int);
        assert(rest[0] == all[i as int]);
        assert(rest.drop_first() =~= all.subrange(i + 1, all.len() as int));
        if same_text(extensions[i].name.as_str(), name) {
            return i;
        }
        i = i + 1;
    }
    assert(all.subrange(i as int, all.len() as int).len() == 0);
    i
}

/// An event: a version, the required and the optional attributes,
/// extensions under names of their own, and a payload or none.
#[derive(Debug, PartialEq, Eq)]
pub struct Event {
    specversion: SpecVersion,
    id: String,
    ty: String,
    source: String,
    subject: Option<String>,
    time: Option<String>,
    dataschema: Option<String>,
    datacontenttype: Option<String>,
    extensions: Vec<Extension>,
    data: Option<Vec<u8>>,
}

impl View for Event {
    type V = EventView;

    closed spec fn view(&self) -> EventView {
        EventView {
            specversion: self.specversion,
            id: self.id@,
            ty: self.ty@,
            source: self.source@,
            subject: optional_text(self.subject),
            time: optional_text(self.time),
            dataschema: optional_text(self.dataschema),
            datacontenttype: optional_text(self.datacontenttype),
            extensions: self.extensions@.map_values(|e: Extension| e@),
            data: optional_bytes(self.data),
        }
    }
}

impl Event {
    /// Every event is well formed.
    #[verifier::type_invariant]
    pub open spec fn well_formed(self) -> bool {
        self@.wf()
    }

    /// An event of version 1.0 with the required attributes and nothing else.
    pub fn new(id: String, ty: String, source: String) -> (r: Event)
        ensures
            r@ == (EventView {
                specversion: SpecVersion::V10,
                id: id@,
                ty: ty@,
                source: source@,
                subject: None,
                time: None,
                dataschema: None,
                datacontenttype: None,
                extensions: Seq::empty(),
                data: None,
            }),
    {
        let r = Event {
            specversion: SpecVersion::V10,
            id,
            ty,
            source,
            subject: None,
            time: None,
            dataschema: None,
            datacontenttype: None,
            extensions: Vec::new(),
            data: None,
        };
        assert(r@.extensions =~= Seq::empty());
        r
    }

    /// The event with another version.
    pub fn with_specversion(self, specversion: SpecVersion) -> (r: Event)
        ensures
            r@ == (EventView { specversion, ..self@ }),
    {
        proof {
            use_type_invariant(&self);
        }
        Event { specversion, ..self }
    }

    /// The event with the subject set, or taken away.
    pub fn with_subject(self, subject: Option<String>) -> (r: Event)
        ensures
            r@ == (EventView { subject: optional_text(subject), ..self@ }),
    {
        proof {
            use_type_invariant(&self);
        }
        Event { subject, ..self }
    }

    /// The event with the time set, or taken away.
    pub fn with_time(self, time: Option<String>) -> (r: Event)
        ensures
            r@ == (EventView { time: optional_text(time), ..self@ }),
    {
        proof {
            use_type_invariant(&self);
        }
        Event { time, ..self }
    }

    /// The event with the payload's schema set, or taken away.
    pub fn with_dataschema(self, dataschema: Option<String>) -> (r: Event)
        ensures
            r@ == (EventView { dataschema: optional_text(dataschema), ..self@ }),
    {
        proof {
            use_type_invariant(&self);
        }
        Event { dataschema, ..self }
    }

    /// The event with the payload's content type set, or taken away.
    pub fn with_datacontenttype(self, datacontenttype: Option<String>) -> (r: Event)
        ensures
            r@ == (EventView { datacontenttype: optional_text(datacontenttype), ..self@ }),
    {
        proof {
            use_type_invariant(&self);
        }
        Event { datacontenttype, ..self }
    }

    /// The event with the payload set, or taken away.
    pub fn with_data(self, data: Option<Vec<u8>>) -> (r: Event)
        ensures
            r@ == (EventView { data: optional_bytes(data), ..self@ }),
    {
        proof {
            use_type_invariant(&self);
        }
        Event { data, ..self }
    }

    /// The event with the extension `name` set to `value`. A name that
    /// cannot name an extension is refused.
    pub fn with_extension(self, name: String, value: ExtensionValue) -> (r: Result<
        Event,
        MessageError,
    >)
        ensures
            match r {
                Ok(e) => is_extension_name(name@) && e@ == (EventView {
                    extensions: with_entry(self@.extensions, name@, value@),
                    ..self@
                }),
                Err(e) => !is_extension_name(name@) && e is InvalidExtensionName,
            },
    {
        proof {
            use_type_invariant(&self);
        }
        if !check_extension_name(name.as_str()) {
            return Err(MessageError::InvalidExtensionName);
        }
        let ghost before = self@.extensions;
        let ghost entry = (name@, value@);
        let at = find_position(&self.extensions, name.as_str());
        proof {
            lemma_position_of(before, name@);
        }
        let mut extensions = self.extensions;
        assert(extensions@.map_values(|e: Extension| e@) == before);
        if at < extensions.len() {
            extensions.set(at, Extension { name, value });
            assert(extensions@.map_values(|e: Extension| e@) =~= before.update(at as int, entry));
        } else {
            extensions.push(Extension { name, value });
            assert(extensions@.map_values(|e: Extension| e@) =~= before.push(entry));
        }
        let ghost after = extensions@.map_values(|e: Extension| e@);
        assert(after == with_entry(before, entry.0, entry.1));
        proof {
            assert forall|i: int| 0 <= i < after.len() implies is_extension_name(
                (#[trigger] after[i]).0,
            ) by {
                if i < before.len() && i != at {
                    assert(after[i] == before[i]);
                }
            }
            assert forall|i: int, j: int| 0 <= i < j < after.len() implies (#[trigger] after[i]).0
                != (#[trigger] after[j]).0 by {
                if i != at && i < before.len() {
                    assert(after[i] == before[i]);
                }
                if j != at && j < before.len() {
                    assert(after[j] == before[j]);
                }
                if at < before.len() {
                    if i == at {
                        assert(before[i].0 == entry.0);
                    }
                    if j == at {
                        assert(before[j].0 == entry.0);
                    }
                }
            }
        }
        Ok(
            Event {
                specversion: self.specversion,
                id: self.id,
                ty: self.ty,
                source: self.source,
                subject: self.subject,
                time: self.time,
                dataschema: self.dataschema,
                datacontenttype: self.datacontenttype,
                extensions,
                data: self.data,
            },
        )
    }

    /// An event made of its parts.
    pub(crate) fn from_parts(
        specversion: SpecVersion,
        id: String,
        ty: String,
        source: String,
        subject: Option<String>,
        time: Option<String>,
        dataschema: Option<String>,
        datacontenttype: Option<String>,
        extensions: Vec<Extension>,
        data: Option<Vec<u8>>,
    ) -> (r: Event)
        requires
            extensions_wf(extensions@.map_values(|e: Extension| e@)),
        ensures
            r@ == (EventView {
                specversion,
                id: id@,
                ty: ty@,
                source: source@,
                subject: optional_text(subject),
                time: optional_text(time),
                dataschema: optional_text(dataschema),
                datacontenttype: optional_text(datacontenttype),
                extensions: extensions@.map_values(|e: Extension| e@),
                data: optional_bytes(data),
            }),
    {
        Event {
            specversion,
            id,
            ty,
            source,
            subject,
            time,
            dataschema,
            datacontenttype,
            extensions,
            data,
        }
    }

    /// The version of the specification that the event follows.
    pub fn specversion(&self) -> (r: SpecVersion)
        ensures
            r == self@.specversion,
    {
        self.specversion
    }

    /// The event's identifier.
    pub fn id(&self) -> (r: &String)
        ensures
            r@ == self@.id,
    {
        &self.id
    }

    /// The event's type.
    pub fn ty(&self) -> (r: &String)
        ensures
            r@ == self@.ty,
    {
        &self.ty
    }

    /// The event's source.
    pub fn source(&self) -> (r: &String)
        ensures
            r@ == self@.source,
    {
        &self.source
    }

    /// The event's subject, if it has one.
    pub fn subject(&self) -> (r: &Option<String>)
        ensures
            optional_text(*r) == self@.subject,
    {
        &self.subject
    }

    /// The event's time, if it has one.
    pub fn time(&self) -> (r: &Option<String>)
        ensures
            optional_text(*r) == self@.time,
    {
        &self.time
    }

    /// The schema of the event's payload, if it is given.
    pub fn dataschema(&self) -> (r: &Option<String>)
        ensures
            optional_text(*r) == self@.dataschema,
    {
        &self.dataschema
    }

    /// The content type of the event's payload, if it is given.
    pub fn datacontenttype(&self) -> (r: &Option<String>)
        ensures
            optional_text(*r) == self@.datacontenttype,
    {
        &self.datacontenttype
    }

    /// The event's payload, if it has one.
    pub fn data(&self) -> (r: &Option<Vec<u8>>)
        ensures
            optional_bytes(*r) == self@.data,
    {
        &self.data
    }

    /// Gives up the event for its payload, if it has one.
    pub fn into_data(self) -> (r: Option<Vec<u8>>)
        ensures
            optional_bytes(r) == self@.data,
    {
        self.data
    }

    /// The event's extensions, in the order in which they were first set.
    pub fn extensions(&self) -> (r: &Vec<Extension>)
        ensures
            r@.map_values(|e: Extension| e@) == self@.extensions,
    {
        &self.extensions
    }

    /// The value of the extension called `name`, if there is one.
    pub fn extension(&self, name: &str) -> (r: Option<&ExtensionValue>)
        ensures
            match r {
                Some(v) => position_of(self@.extensions, name@) < self@.extensions.len()
                    && self@.extensions[position_of(self@.extensions, name@)] == (name@, v@),
                None => position_of(self@.extensions, name@) == self@.extensions.len(),
            },
    {
        let at = find_position(&self.extensions, name);
        proof {
            lemma_position_of(self@.extensions, name@);
        }
        if at < self.extensions.len() {
            Some(&self.extensions[at].value)
        } else {
            None
        }
    }
}

} // verus!
