//! Message bodies are XML; this module reads attributes and texts out of them.

use quick_xml::events::attributes::Attributes;
use quick_xml::events::Event;
use quick_xml::Reader;
use vstd::prelude::*;
use vstd::string::*;
use vstd::utf8::*;

use crate::outside::utf8_text;
use crate::text::bytes_eq;

verus! {

/// One event of an XML document, with the data that the bridge looks at.
#[derive(Debug)]
pub enum XmlEvent {
    /// `<name attributes>`; an attribute that cannot be read is `None`.
    Start { name: Vec<u8>, attributes: Vec<Option<(Vec<u8>, Vec<u8>)>> },
    /// `<name attributes/>`.
    Empty { name: Vec<u8>, attributes: Vec<Option<(Vec<u8>, Vec<u8>)>> },
    /// `</name>`.
    End { name: Vec<u8> },
    /// Character data with its entities resolved; `None` where one is unknown.
    Text { text: Option<String> },
    /// The bytes of a `CDATA` section.
    CData { data: Vec<u8> },
    /// Anything else.
    Other,
}

/// An attribute's name and its raw value.
pub type AttributeView = Option<(Seq<u8>, Seq<u8>)>;

/// What an [`XmlEvent`] says.
pub enum XmlEventView {
    Start { name: Seq<u8>, attributes: Seq<AttributeView> },
    Empty { name: Seq<u8>, attributes: Seq<AttributeView> },
    End { name: Seq<u8> },
    Text { text: Option<Seq<char>> },
    CData { data: Seq<u8> },
    Other,
}

pub open spec fn attribute_view(attribute: Option<(Vec<u8>, Vec<u8>)>) -> AttributeView {
    match attribute {
        Some(pair) => Some((pair.0@, pair.1@)),
        None => None,
    }
}

pub open spec fn attributes_view(attributes: Seq<Option<(Vec<u8>, Vec<u8>)>>) -> Seq<
    AttributeView,
> {
    attributes.map_values(|a: Option<(Vec<u8>, Vec<u8>)>| attribute_view(a))
}

impl View for XmlEvent {
    type V = XmlEventView;

    open spec fn view(&self) -> XmlEventView {
        match self {
            XmlEvent::Start { name, attributes } => XmlEventView::Start {
                name: name@,
                attributes: attributes_view(attributes@),
            },
            XmlEvent::Empty { name, attributes } => XmlEventView::Empty {
                name: name@,
                attributes: attributes_view(attributes@),
            },
            XmlEvent::End { name } => XmlEventView::End { name: name@ },
            XmlEvent::Text { text } => XmlEventView::Text { text: crate::text::text_of(*text) },
            XmlEvent::CData { data } => XmlEventView::CData { data: data@ },
            XmlEvent::Other => XmlEventView::Other,
        }
    }
}

pub open spec fn events_view(events: Seq<XmlEvent>) -> Seq<XmlEventView> {
    events.map_values(|e: XmlEvent| e@)
}

// ---------------------------------------------------------------------------
// The reader
// ---------------------------------------------------------------------------

/// An event as it comes from the reader: the attributes of a tag are still one text.
enum RawEvent {
    Start(Vec<u8>, Vec<u8>),
    Empty(Vec<u8>, Vec<u8>),
    End(Vec<u8>),
    Text(Option<String>),
    CData(Vec<u8>),
    Other,
}

/// What an event says as it comes from the reader.
pub enum RawEventView {
    Start(Seq<u8>, Seq<u8>),
    Empty(Seq<u8>, Seq<u8>),
    End(Seq<u8>),
    Text(Option<Seq<char>>),
    CData(Seq<u8>),
    Other,
}

impl View for RawEvent {
    type V = RawEventView;

    closed spec fn view(&self) -> RawEventView {
        match self {
            RawEvent::Start(name, attributes) => RawEventView::Start(name@, attributes@),
            RawEvent::Empty(name, attributes) => RawEventView::Empty(name@, attributes@),
            RawEvent::End(name) => RawEventView::End(name@),
            RawEvent::Text(text) => RawEventView::Text(crate::text::text_of(*text)),
            RawEvent::CData(data) => RawEventView::CData(data@),
            RawEvent::Other => RawEventView::Other,
        }
    }
}

#[verifier::external_type_specification]
#[verifier::external_body]
#[verifier::reject_recursive_types(R)]
pub struct ExReader<R>(quick_xml::Reader<R>);

/// The events that a reader has still to give before it ends or meets an error.
pub uninterp spec fn pending_events(reader: Reader<&[u8]>) -> Seq<RawEventView>;

/// The events that a reader gives of a text, up to its end or to the first error.
pub uninterp spec fn raw_events(xml: Seq<char>) -> Seq<RawEventView>;

/// The attributes in the part of a tag behind its name.
pub uninterp spec fn attributes_in(raw: Seq<u8>) -> Seq<AttributeView>;

/// `Reader::from_str`: a reader at the start of `xml`. What it will give is a function of
/// `xml` alone.
#[verifier::external_body]
fn open_document(xml: &str) -> (reader: Reader<&[u8]>)
    ensures
        pending_events(reader) == raw_events(xml@),
{
    Reader::from_str(xml)
}

/// `Reader::read_event_into` on text in memory: the next event, or `None` at the end and at
/// an error. `BytesStart::name`, `BytesStart::attributes_raw`, `BytesEnd::name` and
/// `BytesText::unescape` give what the event holds. Nothing is said of the reader once it
/// has ended.
#[verifier::external_body]
fn next_event(reader: &mut Reader<&[u8]>) -> (event: Option<RawEvent>)
    ensures
        match event {
            Some(e) => {
                &&& pending_events(*old(reader)).len() > 0
                &&& e@ == pending_events(*old(reader))[0]
                &&& pending_events(*final(reader)) == pending_events(*old(reader)).skip(1)
            },
            None => pending_events(*old(reader)).len() == 0,
        },
{
    Some(match reader.read_event_into(&mut Vec::new()) {
        Ok(Event::Start(t)) => RawEvent::Start(t.name().0.to_vec(), t.attributes_raw().to_vec()),
        Ok(Event::Empty(t)) => RawEvent::Empty(t.name().0.to_vec(), t.attributes_raw().to_vec()),
        Ok(Event::End(t)) => RawEvent::End(t.name().0.to_vec()),
        Ok(Event::Text(t)) => RawEvent::Text(t.unescape().ok().map(Into::into)),
        Ok(Event::CData(t)) => RawEvent::CData(t.to_vec()),
        Ok(Event::Eof) | Err(_) => return None,
        Ok(_) => RawEvent::Other,
    })
}

/// `Attributes::new` and its iteration: the attributes in the part of a tag behind its name,
/// an unreadable one as `None`. They are a function of these bytes alone.
#[verifier::external_body]
fn read_attributes(raw: &[u8]) -> (attributes: Vec<Option<(Vec<u8>, Vec<u8>)>>)
    ensures
        attributes_view(attributes@) == attributes_in(raw@),
{
    Attributes::new(&String::from_utf8_lossy(raw), 0)
        .map(|a| a.ok().map(|a| (a.key.0.to_vec(), a.value.to_vec())))
        .collect()
}

/// What an event says, with the attributes of its tag taken apart.
pub open spec fn event_of(raw: RawEventView) -> XmlEventView {
    match raw {
        RawEventView::Start(name, attributes) => XmlEventView::Start {
            name,
            attributes: attributes_in(attributes),
        },
        RawEventView::Empty(name, attributes) => XmlEventView::Empty {
            name,
            attributes: attributes_in(attributes),
        },
        RawEventView::End(name) => XmlEventView::End { name },
        RawEventView::Text(text) => XmlEventView::Text { text },
        RawEventView::CData(data) => XmlEventView::CData { data },
        RawEventView::Other => XmlEventView::Other,
    }
}

/// The events of a text read as XML, up to its end or to the first error.
pub open spec fn document_events(xml: Seq<char>) -> Seq<XmlEventView> {
    raw_events(xml).map_values(|raw: RawEventView| event_of(raw))
}

fn take_apart(raw: RawEvent) -> (event: XmlEvent)
    ensures
        event@ == event_of(raw@),
{
    match raw {
        RawEvent::Start(name, attributes) => XmlEvent::Start {
            name,
            attributes: read_attributes(attributes.as_slice()),
        },
        RawEvent::Empty(name, attributes) => XmlEvent::Empty {
            name,
            attributes: read_attributes(attributes.as_slice()),
        },
        RawEvent::End(name) => XmlEvent::End { name },
        RawEvent::Text(text) => XmlEvent::Text { text },
        RawEvent::CData(data) => XmlEvent::CData { data },
        RawEvent::Other => XmlEvent::Other,
    }
}

/// The events of `xml`, up to its end or to the first error.
pub fn read_events(xml: &str) -> (events: Vec<XmlEvent>)
    ensures
        events_view(events@) == document_events(xml@),
{
    let mut reader = open_document(xml);
    let mut events: Vec<XmlEvent> = Vec::new();
    let ghost all = raw_events(xml@);
    proof {
        assert(all.skip(0) =~= all);
        assert(events_view(events@) =~= all.take(0).map_values(|raw: RawEventView| event_of(raw)));
    }
    loop
        invariant
            all == raw_events(xml@),
            events@.len() <= all.len(),
            pending_events(reader) == all.skip(events@.len() as int),
            events_view(events@) == all.take(events@.len() as int).map_values(
                |raw: RawEventView| event_of(raw),
            ),
        decreases pending_events(reader).len(),
    {
        let ghost n = events@.len() as int;
        let ghost before = events_view(events@);
        match next_event(&mut reader) {
            Some(raw) => {
                let ghost seen = raw@;
                events.push(take_apart(raw));
                proof {
                    assert(seen == all[n]);
                    assert(all.skip(n).skip(1) =~= all.skip(n + 1));
                    assert(events_view(events@) =~= before.push(event_of(seen)));
                    assert(all.take(n + 1).map_values(|raw: RawEventView| event_of(raw))
                        =~= before.push(event_of(seen)));
                }
            },
            None => {
                proof {
                    assert(all.take(n) =~= all);
                }
                return events;
            },
        }
    }
}

// ---------------------------------------------------------------------------
// Attributes
// ---------------------------------------------------------------------------

/// The raw value of the first readable attribute of that name.
pub open spec fn attribute_value(attributes: Seq<AttributeView>, name: Seq<u8>) -> Option<Seq<u8>>
    decreases attributes.len(),
{
    if attributes.len() == 0 {
        None
    } else {
        match attributes[0] {
            Some((key, value)) if key == name => Some(value),
            _ => attribute_value(attributes.skip(1), name),
        }
    }
}

/// The text that bytes encode, where they are valid UTF-8.
pub open spec fn utf8_value(bytes: Seq<u8>) -> Option<Seq<char>> {
    if valid_utf8(bytes) {
        Some(decode_utf8(bytes))
    } else {
        None
    }
}

/// The attribute of an opening or empty tag of that name.
pub open spec fn event_attribute(event: XmlEventView, tag: Seq<u8>, attr: Seq<u8>) -> Option<
    Seq<u8>,
> {
    match event {
        XmlEventView::Start { name, attributes } => if name == tag {
            attribute_value(attributes, attr)
        } else {
            None
        },
        XmlEventView::Empty { name, attributes } => if name == tag {
            attribute_value(attributes, attr)
        } else {
            None
        },
        _ => None,
    }
}

/// The value of attribute `attr` on the first `tag` that has it.
pub open spec fn attribute_in(events: Seq<XmlEventView>, tag: Seq<u8>, attr: Seq<u8>) -> Option<
    Seq<char>,
>
    decreases events.len(),
{
    if events.len() == 0 {
        None
    } else {
        match event_attribute(events[0], tag, attr) {
            Some(value) => utf8_value(value),
            None => attribute_in(events.skip(1), tag, attr),
        }
    }
}

fn find_attribute(attributes: &Vec<Option<(Vec<u8>, Vec<u8>)>>, name: &[u8]) -> (value: Option<
    Vec<u8>,
>)
    ensures
        match value {
            Some(v) => attribute_value(attributes_view(attributes@), name@) == Some(v@),
            None => attribute_value(attributes_view(attributes@), name@) is None,
        },
{
    let mut i: usize = 0;
    let ghost all = attributes_view(attributes@);
    proof {
        assert(all.skip(0) =~= all);
    }
    while i < attributes.len()
        invariant
            i <= attributes@.len(),
            all == attributes_view(attributes@),
            attribute_value(all, name@) == attribute_value(all.skip(i as int), name@),
        decreases attributes@.len() - i,
    {
        proof {
            assert(all.skip(i as int)[0] == attribute_view(attributes@[i as int]));
            assert(all.skip(i as int).skip(1) =~= all.skip(i + 1));
        }
        if let Some(pair) = &attributes[i] {
            if bytes_eq(pair.0.as_slice(), name) {
                let mut value: Vec<u8> = Vec::new();
                value.extend_from_slice(pair.1.as_slice());
                proof {
                    assert(value@ =~= pair.1@);
                }
                return Some(value);
            }
        }
        i = i + 1;
    }
    None
}

/// The value of attribute `attr` on the first `tag` that has it.
pub fn first_attribute(events: &Vec<XmlEvent>, tag: &str, attr: &str) -> (value: Option<String>)
    ensures
        crate::text::text_of(value) == attribute_in(
            events_view(events@),
            tag.spec_bytes(),
            attr.spec_bytes(),
        ),
{
    let mut i: usize = 0;
    let ghost all = events_view(events@);
    let ghost t = tag.spec_bytes();
    let ghost a = attr.spec_bytes();
    proof {
        assert(all.skip(0) =~= all);
    }
    while i < events.len()
        invariant
            i <= events@.len(),
            all == events_view(events@),
            t == tag.spec_bytes(),
            a == attr.spec_bytes(),
            attribute_in(all, t, a) == attribute_in(all.skip(i as int), t, a),
        decreases events@.len() - i,
    {
        proof {
            assert(all.skip(i as int)[0] == events@[i as int]@);
            assert(all.skip(i as int).skip(1) =~= all.skip(i + 1));
        }
        let found: Option<Vec<u8>> = match &events[i] {
            XmlEvent::Start { name, attributes } => if bytes_eq(name.as_slice(), tag.as_bytes()) {
                find_attribute(attributes, attr.as_bytes())
            } else {
                None
            },
            XmlEvent::Empty { name, attributes } => if bytes_eq(name.as_slice(), tag.as_bytes()) {
                find_attribute(attributes, attr.as_bytes())
            } else {
                None
            },
            _ => None,
        };
        if let Some(value) = found {
            return utf8_text(value);
        }
        i = i + 1;
    }
    None
}

/// The value of attribute `attr` on the first `tag` of `xml` that has it, such as the
/// address in `<img cdnmidimgurl="..."/>`.
pub fn extract_xml_attr(xml: &str, tag: &str, attr: &str) -> (value: Option<String>)
    ensures
        crate::text::text_of(value) == attribute_in(
            document_events(xml@),
            tag.spec_bytes(),
            attr.spec_bytes(),
        ),
{
    first_attribute(&read_events(xml), tag, attr)
}

// ---------------------------------------------------------------------------
// Texts
// ---------------------------------------------------------------------------

/// The first character data inside a `tag`; `inside` tells whether the events begin in one.
pub open spec fn text_in(events: Seq<XmlEventView>, tag: Seq<u8>, inside: bool) -> Option<Seq<char>>
    decreases events.len(),
{
    if events.len() == 0 {
        None
    } else {
        let rest = events.skip(1);
        match events[0] {
            XmlEventView::Start { name, attributes } => text_in(rest, tag, inside || name == tag),
            XmlEventView::End { name } => text_in(rest, tag, inside && name != tag),
            XmlEventView::Text { text } => if inside {
                text
            } else {
                text_in(rest, tag, inside)
            },
            XmlEventView::CData { data } => if inside {
                utf8_value(data)
            } else {
                text_in(rest, tag, inside)
            },
            _ => text_in(rest, tag, inside),
        }
    }
}

/// The first character data inside a `tag`.
pub fn first_text(events: &Vec<XmlEvent>, tag: &str) -> (value: Option<String>)
    ensures
        crate::text::text_of(value) == text_in(events_view(events@), tag.spec_bytes(), false),
{
    let mut i: usize = 0;
    let mut inside: bool = false;
    let ghost all = events_view(events@);
    let ghost t = tag.spec_bytes();
    proof {
        assert(all.skip(0) =~= all);
    }
    while i < events.len()
        invariant
            i <= events@.len(),
            all == events_view(events@),
            t == tag.spec_bytes(),
            text_in(all, t, false) == text_in(all.skip(i as int), t, inside),
        decreases events@.len() - i,
    {
        proof {
            assert(all.skip(i as int)[0] == events@[i as int]@);
            assert(all.skip(i as int).skip(1) =~= all.skip(i + 1));
        }
        match &events[i] {
            XmlEvent::Start { name, attributes: _ } => {
                if bytes_eq(name.as_slice(), tag.as_bytes()) {
                    inside = true;
                }
            },
            XmlEvent::End { name } => {
                if bytes_eq(name.as_slice(), tag.as_bytes()) {
                    inside = false;
                }
            },
            XmlEvent::Text { text } => {
                if inside {
                    return crate::text::clone_text(text);
                }
            },
            XmlEvent::CData { data } => {
                if inside {
                    let mut bytes: Vec<u8> = Vec::new();
                    bytes.extend_from_slice(data.as_slice());
                    proof {
                        assert(bytes@ =~= data@);
                    }
                    return utf8_text(bytes);
                }
            },
            _ => {},
        }
        i = i + 1;
    }
    None
}

/// The first character data inside a `tag` of `xml`, such as the name in
/// `<title>name</title>`.
pub fn extract_xml_text(xml: &str, tag: &str) -> (value: Option<String>)
    ensures
        crate::text::text_of(value) == text_in(document_events(xml@), tag.spec_bytes(), false),
{
    first_text(&read_events(xml), tag)
}

// ---------------------------------------------------------------------------
// What is read out of a document
// ---------------------------------------------------------------------------

/// Whether an event is an opening or an empty tag of that name with these attributes.
pub open spec fn tags(event: XmlEventView, tag: Seq<char>, attributes: Seq<AttributeView>) -> bool {
    event == (XmlEventView::Start { name: encode_utf8(tag), attributes }) || event == (
    XmlEventView::Empty { name: encode_utf8(tag), attributes })
}

/// Whether the attribute at `j` has that name.
pub open spec fn is_named(attributes: Seq<AttributeView>, j: int, name: Seq<char>) -> bool {
    attributes[j] is Some && (attributes[j]->0).0 == encode_utf8(name)
}

/// Whether an event is a tag of that name with an attribute of that name.
pub open spec fn bears(event: XmlEventView, tag: Seq<char>, name: Seq<char>) -> bool {
    exists|attributes: Seq<AttributeView>, j: int|
        #![trigger tags(event, tag, attributes), is_named(attributes, j, name)]
        tags(event, tag, attributes) && 0 <= j < attributes.len() && is_named(attributes, j, name)
}

/// Whether `value` is what the document writes for the attribute: it stands at `j` in the
/// tag at `i`, there is no other of its name before it in the tag, and no earlier tag of
/// that name bears one.
pub open spec fn writes_at(
    events: Seq<XmlEventView>,
    tag: Seq<char>,
    name: Seq<char>,
    value: Seq<char>,
    i: int,
    attributes: Seq<AttributeView>,
    j: int,
) -> bool {
    &&& 0 <= i < events.len()
    &&& tags(events[i], tag, attributes)
    &&& 0 <= j < attributes.len()
    &&& attributes[j] == Some((encode_utf8(name), encode_utf8(value)))
    &&& forall|k: int| 0 <= k < j ==> !#[trigger] is_named(attributes, k, name)
    &&& forall|k: int| 0 <= k < i ==> !bears(#[trigger] events[k], tag, name)
}

/// Whether `value` is what the document writes for the attribute.
pub open spec fn writes(
    events: Seq<XmlEventView>,
    tag: Seq<char>,
    name: Seq<char>,
    value: Seq<char>,
) -> bool {
    exists|i: int, attributes: Seq<AttributeView>, j: int| #[trigger]
        writes_at(events, tag, name, value, i, attributes, j)
}

/// Whether no tag of that name bears the attribute.
pub open spec fn lacks(events: Seq<XmlEventView>, tag: Seq<char>, name: Seq<char>) -> bool {
    forall|k: int| 0 <= k < events.len() ==> !bears(#[trigger] events[k], tag, name)
}

proof fn lemma_attribute_value(attributes: Seq<AttributeView>, name: Seq<char>, j: int)
    requires
        0 <= j <= attributes.len(),
        forall|k: int| 0 <= k < j ==> !#[trigger] is_named(attributes, k, name),
        j < attributes.len() ==> is_named(attributes, j, name),
    ensures
        attribute_value(attributes, encode_utf8(name)) == if j < attributes.len() {
            Some((attributes[j]->0).1)
        } else {
            None
        },
    decreases j,
{
    if j > 0 {
        assert(!is_named(attributes, 0, name));
        let rest = attributes.skip(1);
        assert forall|k: int| 0 <= k < j - 1 implies !#[trigger] is_named(rest, k, name) by {
            assert(!is_named(attributes, k + 1, name));
        }
        lemma_attribute_value(rest, name, j - 1);
    }
}

proof fn lemma_not_bearing(event: XmlEventView, tag: Seq<char>, name: Seq<char>)
    requires
        !bears(event, tag, name),
    ensures
        event_attribute(event, encode_utf8(tag), encode_utf8(name)) is None,
{
    match event {
        XmlEventView::Start { name: n, attributes } => {
            if n == encode_utf8(tag) {
                assert(tags(event, tag, attributes));
                assert forall|k: int| 0 <= k < attributes.len() implies !#[trigger] is_named(
                    attributes,
                    k,
                    name,
                ) by {
                    assert(tags(event, tag, attributes));
                }
                lemma_attribute_value(attributes, name, attributes.len() as int);
            }
        },
        XmlEventView::Empty { name: n, attributes } => {
            if n == encode_utf8(tag) {
                assert(tags(event, tag, attributes));
                assert forall|k: int| 0 <= k < attributes.len() implies !#[trigger] is_named(
                    attributes,
                    k,
                    name,
                ) by {
                    assert(tags(event, tag, attributes));
                }
                lemma_attribute_value(attributes, name, attributes.len() as int);
            }
        },
        _ => {},
    }
}

proof fn lemma_written(
    events: Seq<XmlEventView>,
    tag: Seq<char>,
    name: Seq<char>,
    value: Seq<char>,
    i: int,
    attributes: Seq<AttributeView>,
    j: int,
)
    requires
        writes_at(events, tag, name, value, i, attributes, j),
    ensures
        attribute_in(events, encode_utf8(tag), encode_utf8(name)) == Some(value),
    decreases i,
{
    if i == 0 {
        lemma_attribute_value(attributes, name, j);
        encode_utf8_valid_utf8(value);
        encode_utf8_decode_utf8(value);
    } else {
        assert(!bears(events[0], tag, name));
        lemma_not_bearing(events[0], tag, name);
        let rest = events.skip(1);
        assert forall|k: int| 0 <= k < i - 1 implies !bears(#[trigger] rest[k], tag, name) by {
            assert(!bears(events[k + 1], tag, name));
        }
        lemma_written(rest, tag, name, value, i - 1, attributes, j);
    }
}

proof fn lemma_lacked(events: Seq<XmlEventView>, tag: Seq<char>, name: Seq<char>)
    requires
        lacks(events, tag, name),
    ensures
        attribute_in(events, encode_utf8(tag), encode_utf8(name)) is None,
    decreases events.len(),
{
    if events.len() > 0 {
        assert(!bears(events[0], tag, name));
        lemma_not_bearing(events[0], tag, name);
        let rest = events.skip(1);
        assert forall|k: int| 0 <= k < rest.len() implies !bears(#[trigger] rest[k], tag, name) by {
            assert(!bears(events[k + 1], tag, name));
        }
        lemma_lacked(rest, tag, name);
    }
}

/// What a document writes for an attribute is read: the value on the first tag of that
/// name that bears it; and where no tag of that name bears it, none is read.
pub proof fn attributes_are_read_as_written(
    events: Seq<XmlEventView>,
    tag: Seq<char>,
    name: Seq<char>,
    value: Seq<char>,
)
    ensures
        writes(events, tag, name, value) ==> attribute_in(
            events,
            encode_utf8(tag),
            encode_utf8(name),
        ) == Some(value),
        lacks(events, tag, name) ==> attribute_in(events, encode_utf8(tag), encode_utf8(name))
            is None,
{
    if writes(events, tag, name, value) {
        let (i, attributes, j) = choose|i: int, attributes: Seq<AttributeView>, j: int| #[trigger]
            writes_at(events, tag, name, value, i, attributes, j);
        lemma_written(events, tag, name, value, i, attributes, j);
    }
    if lacks(events, tag, name) {
        lemma_lacked(events, tag, name);
    }
}

/// Whether an event opens a tag of that name.
pub open spec fn opens(event: XmlEventView, tag: Seq<char>) -> bool {
    event matches XmlEventView::Start { name, attributes } && name == encode_utf8(tag)
}

/// Whether the place before event `i` lies inside a tag: one was opened before it and not
/// closed since.
pub open spec fn inside(events: Seq<XmlEventView>, tag: Seq<char>, i: int) -> bool {
    exists|s: int|
        0 <= s < i && opens(#[trigger] events[s], tag) && forall|k: int|
            s < k < i ==> #[trigger] events[k] != (XmlEventView::End { name: encode_utf8(tag) })
}

/// Whether an event is character data.
pub open spec fn is_data(event: XmlEventView) -> bool {
    event is Text || event is CData
}

/// Whether `value` is what the document writes in a tag: it is the first character data
/// that lies inside one.
pub open spec fn writes_text(events: Seq<XmlEventView>, tag: Seq<char>, value: Seq<char>) -> bool {
    exists|i: int| #[trigger] writes_text_at(events, tag, value, i)
}

/// Whether `value` is the character data at `i`, and the first inside a tag.
pub open spec fn writes_text_at(
    events: Seq<XmlEventView>,
    tag: Seq<char>,
    value: Seq<char>,
    i: int,
) -> bool {
    &&& 0 <= i < events.len()
    &&& events[i] == (XmlEventView::Text { text: Some(value) }) || events[i] == (
    XmlEventView::CData { data: encode_utf8(value) })
    &&& inside(events, tag, i)
    &&& forall|k: int| 0 <= k < i && is_data(#[trigger] events[k]) ==> !inside(events, tag, k)
}

/// Whether no character data lies inside a tag of that name.
pub open spec fn lacks_text(events: Seq<XmlEventView>, tag: Seq<char>) -> bool {
    forall|k: int|
        0 <= k < events.len() && is_data(#[trigger] events[k]) ==> !inside(events, tag, k)
}

proof fn lemma_inside_next(events: Seq<XmlEventView>, tag: Seq<char>, i: int)
    requires
        0 <= i < events.len(),
    ensures
        inside(events, tag, i + 1) == (opens(events[i], tag) || (inside(events, tag, i)
            && events[i] != (XmlEventView::End { name: encode_utf8(tag) }))),
{
    if opens(events[i], tag) {
        assert(inside(events, tag, i + 1));
    }
    if inside(events, tag, i) && events[i] != (XmlEventView::End { name: encode_utf8(tag) }) {
        let s = choose|s: int|
            0 <= s < i && opens(#[trigger] events[s], tag) && forall|k: int|
                s < k < i ==> #[trigger] events[k] != (XmlEventView::End {
                    name: encode_utf8(tag),
                });
        assert(opens(events[s], tag));
    }
    if inside(events, tag, i + 1) && !opens(events[i], tag) {
        let s = choose|s: int|
            0 <= s < i + 1 && opens(#[trigger] events[s], tag) && forall|k: int|
                s < k < i + 1 ==> #[trigger] events[k] != (XmlEventView::End {
                    name: encode_utf8(tag),
                });
        assert(s < i);
        assert(events[i] != (XmlEventView::End { name: encode_utf8(tag) }));
    }
}

proof fn lemma_text_from(
    events: Seq<XmlEventView>,
    tag: Seq<char>,
    value: Seq<char>,
    i: int,
    n: int,
)
    requires
        0 <= n <= i <= events.len(),
        i < events.len() ==> writes_text_at(events, tag, value, i),
        i == events.len() ==> lacks_text(events, tag),
    ensures
        text_in(events.skip(n), encode_utf8(tag), inside(events, tag, n)) == if i < events.len() {
            Some(value)
        } else {
            None
        },
    decreases i - n,
{
    let rest = events.skip(n);
    if n < events.len() {
        assert(rest[0] == events[n]);
        assert(rest.skip(1) =~= events.skip(n + 1));
        lemma_inside_next(events, tag, n);
        if n == i {
            encode_utf8_valid_utf8(value);
            encode_utf8_decode_utf8(value);
        } else {
            if is_data(events[n]) {
                assert(!inside(events, tag, n));
            }
            lemma_text_from(events, tag, value, i, n + 1);
        }
    }
}

/// What a document writes in a tag is read: the first character data inside one, be it
/// plain or in a section of its own, at whatever depth; and where there is none, none is
/// read.
pub proof fn texts_are_read_as_written(
    events: Seq<XmlEventView>,
    tag: Seq<char>,
    value: Seq<char>,
)
    ensures
        writes_text(events, tag, value) ==> text_in(events, encode_utf8(tag), false) == Some(value),
        lacks_text(events, tag) ==> text_in(events, encode_utf8(tag), false) is None,
{
    assert(events.skip(0) =~= events);
    assert(!inside(events, tag, 0));
    if writes_text(events, tag, value) {
        let i = choose|i: int| #[trigger] writes_text_at(events, tag, value, i);
        lemma_text_from(events, tag, value, i, 0);
    }
    if lacks_text(events, tag) {
        lemma_text_from(events, tag, value, events.len() as int, 0);
    }
}

/// What can be read out of the events of an element that holds nothing but a text.
pub proof fn single_texts_are_written(
    outer: Seq<char>,
    tag: Seq<char>,
    value: Seq<char>,
    outer_attributes: Seq<AttributeView>,
    attributes: Seq<AttributeView>,
    events: Seq<XmlEventView>,
)
    requires
        events == seq![
            XmlEventView::Start { name: encode_utf8(outer), attributes: outer_attributes },
            XmlEventView::Start { name: encode_utf8(tag), attributes },
            XmlEventView::Text { text: Some(value) },
            XmlEventView::End { name: encode_utf8(tag) },
            XmlEventView::End { name: encode_utf8(outer) },
        ],
    ensures
        writes_text(events, tag, value),
{
    assert(opens(events[1], tag));
    assert(inside(events, tag, 2));
    assert(writes_text_at(events, tag, value, 2));
}

} // verus!
