//! Calls into `quick-xml`: reading events from an SVG text, reading a tag's
//! attributes, building `<path>` tags and writing events back out.

use vstd::prelude::*;
use vstd::utf8::{decode_utf8, encode_utf8, valid_utf8};
use quick_xml::events::attributes::{AttrError, Attribute, Attributes};
use quick_xml::events::{BytesStart, Event};
use quick_xml::name::QName;
use quick_xml::{Reader, Writer};

verus! {

#[verifier::external_type_specification]
#[verifier::external_body]
#[verifier::reject_recursive_types(R)]
pub struct ExReader<R>(Reader<R>);

#[verifier::external_type_specification]
#[verifier::external_body]
#[verifier::reject_recursive_types(W)]
pub struct ExWriter<W>(Writer<W>);

#[verifier::external_type_specification]
#[verifier::external_body]
pub struct ExEvent<'a>(Event<'a>);

#[verifier::external_type_specification]
#[verifier::external_body]
pub struct ExBytesStart<'a>(BytesStart<'a>);

#[verifier::external_type_specification]
#[verifier::external_body]
pub struct ExAttributes<'a>(Attributes<'a>);

#[verifier::external_type_specification]
#[verifier::external_body]
pub struct ExAttribute<'a>(Attribute<'a>);

#[verifier::external_type_specification]
#[verifier::external_body]
pub struct ExAttrError(AttrError);

/// One event read from an SVG text.
pub enum XmlEvent {
    /// The end of the input.
    Eof,
    /// The input is not well-formed XML here.
    Failed,
    /// A self-closing tag `<name .../>`.
    Empty(BytesStart<'static>),
    /// An opening tag `<name ...>`.
    Start(BytesStart<'static>),
    /// A closing tag `</name>`, kept as the event to write back.
    End(Event<'static>),
    /// Any other event (text, comment, declaration, ...).
    Other(Event<'static>),
}

/// An attribute's raw key and value bytes, as they stand in the tag.
pub struct RawAttr {
    pub key: Vec<u8>,
    pub value: Vec<u8>,
}

impl View for RawAttr {
    type V = (Seq<u8>, Seq<u8>);

    open spec fn view(&self) -> (Seq<u8>, Seq<u8>) {
        (self.key@, self.value@)
    }
}

/// An event described by plain values: a tag by its name, its bytes between
/// `<` and `>`, and its attributes; any other event by the bytes the writer
/// writes for it.
pub enum EventView {
    Eof,
    Failed,
    Empty { name: Seq<u8>, tag: Seq<u8>, attrs: Seq<Option<(Seq<u8>, Seq<u8>)>> },
    Start { name: Seq<u8>, tag: Seq<u8>, attrs: Seq<Option<(Seq<u8>, Seq<u8>)>> },
    End { bytes: Seq<u8> },
    Other { bytes: Seq<u8> },
}

/// The end of input or an error: the last event of a reading.
pub open spec fn is_final(e: EventView) -> bool {
    e is Eof || e is Failed
}

/// The events a reader reads from an SVG text, up to and including the first
/// end of input or error.
pub uninterp spec fn svg_events(svg: Seq<char>) -> Seq<EventView>;

/// The events a reader has still to hand out.
pub uninterp spec fn pending_events(r: Reader<&[u8]>) -> Seq<EventView>;

/// The raw name of a tag.
pub uninterp spec fn tag_name_of(e: BytesStart<'static>) -> Seq<u8>;

/// An event read, described by plain values.
pub open spec fn event_view(ev: XmlEvent) -> EventView {
    match ev {
        XmlEvent::Eof => EventView::Eof,
        XmlEvent::Failed => EventView::Failed,
        XmlEvent::Empty(e) => EventView::Empty {
            name: tag_name_of(e),
            tag: tag_bytes(e),
            attrs: attribute_items(e),
        },
        XmlEvent::Start(e) => EventView::Start {
            name: tag_name_of(e),
            tag: tag_bytes(e),
            attrs: attribute_items(e),
        },
        XmlEvent::End(e) => EventView::End { bytes: event_bytes(e) },
        XmlEvent::Other(e) => EventView::Other { bytes: event_bytes(e) },
    }
}

/// The attributes that `BytesStart::attributes` reads from a tag, in order;
/// `None` for one that fails to parse.
pub uninterp spec fn attribute_items(e: BytesStart<'static>) -> Seq<Option<(Seq<u8>, Seq<u8>)>>;

/// The attributes an attribute iterator has still to hand out.
pub uninterp spec fn pending_attributes(it: Attributes<'_>) -> Seq<Option<(Seq<u8>, Seq<u8>)>>;

/// The bytes of a tag between `<` and `>`: its name and attributes.
pub uninterp spec fn tag_bytes(e: BytesStart<'static>) -> Seq<u8>;

/// The bytes a writer has written so far.
pub uninterp spec fn written(w: Writer<Vec<u8>>) -> Seq<u8>;

/// The bytes `Writer::write_event` writes for an event.
pub uninterp spec fn event_bytes(ev: Event<'static>) -> Seq<u8>;

/// What `String::from_utf8_lossy` makes of a byte slice.
pub uninterp spec fn utf8_lossy(bytes: Seq<u8>) -> Seq<char>;

/// Attribute-value escaping of `quick_xml::escape::escape`: `<`, `>`, `&`,
/// `'` and `"` become `&lt;`, `&gt;`, `&amp;`, `&apos;` and `&quot;`.
pub open spec fn xml_escape(s: Seq<char>) -> Seq<char>
    decreases s.len(),
{
    if s.len() == 0 {
        Seq::empty()
    } else {
        let c = s[0];
        let e = if c == '<' {
            "&lt;"@
        } else if c == '>' {
            "&gt;"@
        } else if c == '&' {
            "&amp;"@
        } else if c == '\'' {
            "&apos;"@
        } else if c == '"' {
            "&quot;"@
        } else {
            seq![c]
        };
        e + xml_escape(s.drop_first())
    }
}

/// `Reader::from_str`. Claims that the reader is to hand out `svg_events(svg)`:
/// events that are a function of the text, finitely many, the last (and only
/// the last) being the end of input or an error. Every event other than those
/// consumes input, so a reading ends.
#[verifier::external_body]
pub(crate) fn svg_reader(svg: &str) -> (r: Reader<&[u8]>)
    ensures
        pending_events(r) == svg_events(svg@),
        pending_events(r).len() > 0,
        is_final(pending_events(r).last()),
        forall|i: int| 0 <= i < pending_events(r).len() - 1 ==> !is_final(#[trigger] pending_events(r)[i]),
{
    Reader::from_str(svg)
}

/// `Reader::read_event`, the event made owned: the next pending event.
#[verifier::external_body]
pub(crate) fn next_event(r: &mut Reader<&[u8]>) -> (ev: XmlEvent)
    requires
        pending_events(*old(r)).len() > 0,
    ensures
        event_view(ev) == pending_events(*old(r))[0],
        pending_events(*final(r)) == pending_events(*old(r)).drop_first(),
{
    match r.read_event() {
        Ok(Event::Eof) => XmlEvent::Eof,
        Ok(Event::Empty(e)) => XmlEvent::Empty(e.into_owned()),
        Ok(Event::Start(e)) => XmlEvent::Start(e.into_owned()),
        Ok(Event::End(e)) => XmlEvent::End(Event::End(e.into_owned())),
        Ok(ev) => XmlEvent::Other(ev.into_owned()),
        Err(_) => XmlEvent::Failed,
    }
}

/// The raw name of a tag (`BytesStart::name`).
#[verifier::external_body]
pub(crate) fn tag_name(e: &BytesStart<'static>) -> (n: Vec<u8>)
    ensures
        n@ == tag_name_of(*e),
{
    e.name().as_ref().to_vec()
}

/// `BytesStart::attributes`. Claims that the iterator hands out `attribute_items(e)`.
#[verifier::external_body]
pub(crate) fn attributes_of<'a>(e: &'a BytesStart<'static>) -> (it: Attributes<'a>)
    ensures
        pending_attributes(it) == attribute_items(*e),
{
    e.attributes()
}

/// `Attributes::next`, the attribute copied out. Claims that it hands out the
/// pending attributes one by one, then `None`.
#[verifier::external_body]
pub(crate) fn next_attribute(it: &mut Attributes) -> (r: Option<Option<RawAttr>>)
    ensures
        pending_attributes(*old(it)).len() == 0 ==> r is None && pending_attributes(*final(it))
            == pending_attributes(*old(it)),
        pending_attributes(*old(it)).len() > 0 ==> {
            &&& pending_attributes(*final(it)) == pending_attributes(*old(it)).drop_first()
            &&& r matches Some(item) && match item {
                Some(a) => pending_attributes(*old(it))[0] == Some(a@),
                None => pending_attributes(*old(it))[0] is None,
            }
        },
{
    match it.next() {
        None => None,
        Some(Ok(a)) => Some(Some(RawAttr { key: a.key.as_ref().to_vec(), value: a.value.to_vec() })),
        Some(Err(_)) => Some(None),
    }
}

/// `BytesStart::clear_attributes`: the tag keeps only its name.
#[verifier::external_body]
pub(crate) fn clear_attributes(e: &mut BytesStart<'static>)
    ensures
        tag_bytes(*final(e)) == tag_name_of(*old(e)),
{
    e.clear_attributes();
}

/// `BytesStart::new("path")`: a tag holding just the name `path`.
#[verifier::external_body]
pub(crate) fn new_path_tag() -> (e: BytesStart<'static>)
    ensures
        tag_bytes(e) == seq![112u8, 97u8, 116u8, 104u8],
{
    BytesStart::new("path")
}

/// `BytesStart::push_attribute` with raw key and value bytes: appends
/// ` key="value"` unchanged.
#[verifier::external_body]
pub(crate) fn push_raw_attribute(e: &mut BytesStart<'static>, key: &[u8], value: &[u8])
    ensures
        tag_bytes(*final(e)) == tag_bytes(*old(e)) + seq![32u8] + key@ + seq![61u8, 34u8] + value@
            + seq![34u8],
{
    e.push_attribute(Attribute { key: QName(key), value: std::borrow::Cow::Borrowed(value) });
}

/// `BytesStart::push_attribute` with a `(&str, &str)` pair: appends
/// ` key="value"` with the value escaped.
#[verifier::external_body]
pub(crate) fn push_text_attribute(e: &mut BytesStart<'static>, key: &str, value: &str)
    ensures
        tag_bytes(*final(e)) == tag_bytes(*old(e)) + seq![32u8] + encode_utf8(key@) + seq![
            61u8,
            34u8,
        ] + encode_utf8(xml_escape(value@)) + seq![34u8],
{
    e.push_attribute((key, value));
}

/// `Writer::new(Vec::new())`: a writer that has written nothing.
#[verifier::external_body]
pub(crate) fn new_writer() -> (w: Writer<Vec<u8>>)
    ensures
        written(w) == Seq::<u8>::empty(),
{
    Writer::new(Vec::new())
}

/// `Writer::write_event(Event::Start(e))`: writes `<`, the tag, `>`.
#[verifier::external_body]
pub(crate) fn write_start(w: &mut Writer<Vec<u8>>, e: BytesStart<'static>)
    ensures
        written(*final(w)) == written(*old(w)) + seq![60u8] + tag_bytes(e) + seq![62u8],
{
    let _ = w.write_event(Event::Start(e));
}

/// `Writer::write_event(Event::Empty(e))`: writes `<`, the tag, `/>`.
#[verifier::external_body]
pub(crate) fn write_empty(w: &mut Writer<Vec<u8>>, e: BytesStart<'static>)
    ensures
        written(*final(w)) == written(*old(w)) + seq![60u8] + tag_bytes(e) + seq![47u8, 62u8],
{
    let _ = w.write_event(Event::Empty(e));
}

/// `Writer::write_event` for any other event.
#[verifier::external_body]
pub(crate) fn write_other(w: &mut Writer<Vec<u8>>, ev: Event<'static>)
    ensures
        written(*final(w)) == written(*old(w)) + event_bytes(ev),
{
    let _ = w.write_event(ev);
}

/// `Writer::into_inner`: the bytes written.
#[verifier::external_body]
pub(crate) fn written_bytes(w: Writer<Vec<u8>>) -> (b: Vec<u8>)
    ensures
        b@ == written(w),
{
    w.into_inner()
}

/// `String::from_utf8`: the text when the bytes are valid UTF-8.
#[verifier::external_body]
pub(crate) fn utf8_string(bytes: Vec<u8>) -> (s: Option<String>)
    ensures
        s is Some <==> valid_utf8(bytes@),
        s matches Some(t) ==> t@ == decode_utf8(bytes@),
{
    String::from_utf8(bytes).ok()
}

/// `String::from_utf8_lossy`; on valid UTF-8 it decodes the bytes unchanged.
#[verifier::external_body]
pub(crate) fn lossy_text(bytes: &[u8]) -> (s: String)
    ensures
        s@ == utf8_lossy(bytes@),
        valid_utf8(bytes@) ==> s@ == decode_utf8(bytes@),
{
    String::from_utf8_lossy(bytes).into_owned()
}

} // verus!
