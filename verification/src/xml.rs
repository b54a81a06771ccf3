//! The events of an XML document as `quick_xml` reads them, held as plain
//! bytes, and the helpers that turn their parts into text.
use vstd::prelude::*;

use quick_xml::events::{BytesStart, Event};

use self::XmlEvent::{Empty, End, Other, Start, Text};
use quick_xml::Reader;

use crate::text::{chars_of, lossy_utf8, utf8_lossy};
use vstd::string::StringSliceAdditionalSpecFns;
use vstd::utf8::{decode_utf8, valid_utf8};

verus! {

#[verifier::external_type_specification]
#[verifier::external_body]
#[verifier::reject_recursive_types(R)]
pub struct ExXmlReader<R>(Reader<R>);

/// A start or empty-element tag: its qualified name and its attributes
/// in document order, `None` standing for an attribute that
/// `quick_xml` could not read.
pub struct XmlTag {
    pub name: Vec<u8>,
    pub attrs: Vec<Option<(Vec<u8>, Vec<u8>)>>,
}

pub struct XmlTagView {
    pub name: Seq<u8>,
    pub attrs: Seq<Option<(Seq<u8>, Seq<u8>)>>,
}

pub open spec fn attr_view(a: Option<(Vec<u8>, Vec<u8>)>) -> Option<(Seq<u8>, Seq<u8>)> {
    match a {
        Some((k, v)) => Some((k@, v@)),
        None => None,
    }
}

impl View for XmlTag {
    type V = XmlTagView;

    open spec fn view(&self) -> XmlTagView {
        XmlTagView { name: self.name@, attrs: self.attrs@.map_values(|a| attr_view(a)) }
    }
}

/// One event of the document.  Comments, declarations, CDATA, processing
/// instructions and doctypes are all `Other`.
pub enum XmlEvent {
    Start(XmlTag),
    Empty(XmlTag),
    /// Character data, still escaped.
    Text(Vec<u8>),
    /// An end tag and its qualified name.
    End(Vec<u8>),
    Other,
}

pub enum XmlEventView {
    Start(XmlTagView),
    Empty(XmlTagView),
    Text(Seq<u8>),
    End(Seq<u8>),
    Other,
}

impl View for XmlEvent {
    type V = XmlEventView;

    open spec fn view(&self) -> XmlEventView {
        match self {
            XmlEvent::Start(t) => XmlEventView::Start(t@),
            XmlEvent::Empty(t) => XmlEventView::Empty(t@),
            XmlEvent::Text(b) => XmlEventView::Text(b@),
            XmlEvent::End(n) => XmlEventView::End(n@),
            XmlEvent::Other => XmlEventView::Other,
        }
    }
}

/// The events that a `quick_xml` reader made by `Reader::from_str` on
/// `doc` (with text kept untrimmed) yields before its end of file or its
/// first error.
pub uninterp spec fn xml_events_of(doc: Seq<char>) -> Seq<XmlEventView>;

/// The events that `reader` will still yield before its end of file or
/// its first error.
pub uninterp spec fn pending_events(reader: Reader<&[u8]>) -> Seq<XmlEventView>;

/// `Reader::from_str` with untrimmed text: a reader whose events are
/// those of the document.
#[verifier::external_body]
fn open_reader(xml: &str) -> (r: Reader<&[u8]>)
    ensures
        pending_events(r) == xml_events_of(xml@),
{
    let mut reader = Reader::from_str(xml);
    reader.config_mut().trim_text(false);
    reader
}

/// `Reader::read_event`: the next event, or `None` at the end of the
/// document or at an error.  Nothing is stated of the reader after it
/// returned `None`.
#[verifier::external_body]
fn next_event(reader: &mut Reader<&[u8]>) -> (ev: Option<XmlEvent>)
    ensures
        pending_events(*old(reader)).len() > 0 ==> (ev matches Some(e) && e@ == pending_events(
            *old(reader),
        )[0] && pending_events(*final(reader)) == pending_events(*old(reader)).drop_first()),
        pending_events(*old(reader)).len() == 0 ==> ev is None,
{
    let tag = |e: BytesStart| XmlTag {
        name: e.name().0.to_vec(),
        attrs: e.attributes().map(|a| a.ok().map(|a| (a.key.0.to_vec(), a.value.to_vec()))).collect(),
    };
    match reader.read_event() {
        Ok(Event::Start(e)) => Some(Start(tag(e))),
        Ok(Event::Empty(e)) => Some(Empty(tag(e))),
        Ok(Event::Text(t)) => Some(Text(t.to_vec())),
        Ok(Event::End(e)) => Some(End(e.name().0.to_vec())),
        Ok(Event::Eof) | Err(_) => None,
        Ok(_) => Some(Other),
    }
}

pub open spec fn events_view(v: Seq<XmlEvent>) -> Seq<XmlEventView> {
    v.map_values(|e: XmlEvent| e@)
}

/// The events of a document, in order, up to its end or its first
/// error.
pub fn read_events(xml: &str) -> (r: Vec<XmlEvent>)
    ensures
        events_view(r@) == xml_events_of(xml@),
{
    let mut reader = open_reader(xml);
    let ghost evs = xml_events_of(xml@);
    let mut out: Vec<XmlEvent> = Vec::new();
    assert(evs.skip(0) =~= evs);
    loop
        invariant_except_break
            pending_events(reader) == evs.skip(out@.len() as int),
        invariant
            out@.len() <= evs.len(),
            evs == xml_events_of(xml@),
            events_view(out@) == evs.take(out@.len() as int),
        ensures
            events_view(out@) == evs,
        decreases pending_events(reader).len(),
    {
        let ghost k = out@.len() as int;
        let ghost before = pending_events(reader);
        match next_event(&mut reader) {
            Some(ev) => {
                proof {
                    assert(before.len() > 0);
                    assert(evs.skip(k).drop_first() =~= evs.skip(k + 1));
                }
                out.push(ev);
                assert(events_view(out@) =~= evs.take(k + 1));
            },
            None => {
                assert(evs.take(k) =~= evs);
                break ;
            },
        }
    }
    out
}

/// What `quick_xml::escape::unescape` yields on `s`: the text with the
/// predefined entities and character references replaced, or `None` for
/// a malformed or unknown reference.
pub uninterp spec fn xml_unescaped(s: Seq<char>) -> Option<Seq<char>>;

/// `quick_xml::escape::unescape`, taken as given by `xml_unescaped`.
#[verifier::external_body]
fn unescape(s: &str) -> (r: Option<String>)
    ensures
        r matches Some(u) ==> xml_unescaped(s@) == Some(u@),
        r is None ==> xml_unescaped(s@) is None,
{
    match quick_xml::escape::unescape(s) {
        Ok(c) => Some(c.into_owned()),
        Err(_) => None,
    }
}

/// `std::str::from_utf8`: the text of the bytes when they are valid UTF-8.
#[verifier::external_body]
fn utf8_text(bytes: &[u8]) -> (r: Option<String>)
    ensures
        r is Some <==> valid_utf8(bytes@),
        r matches Some(s) ==> s@ == decode_utf8(bytes@),
{
    match std::str::from_utf8(bytes) {
        Ok(s) => Some(s.to_owned()),
        Err(_) => None,
    }
}

/// The text of a character data event: decoded and unescaped, or, when
/// either step fails, the lossily decoded raw bytes.
pub open spec fn text_of(raw: Seq<u8>) -> Seq<char> {
    if valid_utf8(raw) {
        match xml_unescaped(decode_utf8(raw)) {
            Some(u) => u,
            None => lossy_utf8(raw),
        }
    } else {
        lossy_utf8(raw)
    }
}

/// Decodes and unescapes character data.
pub fn event_text(raw: &Vec<u8>) -> (r: String)
    ensures
        r@ == text_of(raw@),
{
    match utf8_text(raw.as_slice()) {
        Some(s) => match unescape(s.as_str()) {
            Some(u) => u,
            None => utf8_lossy(raw.as_slice()),
        },
        None => utf8_lossy(raw.as_slice()),
    }
}

/// The raw value of the first readable attribute named `key`.
pub open spec fn attr_value(attrs: Seq<Option<(Seq<u8>, Seq<u8>)>>, key: Seq<u8>) -> Option<
    Seq<u8>,
>
    decreases attrs.len(),
{
    if attrs.len() == 0 {
        None
    } else {
        match attrs[0] {
            Some((k, v)) => if k == key {
                Some(v)
            } else {
                attr_value(attrs.drop_first(), key)
            },
            None => attr_value(attrs.drop_first(), key),
        }
    }
}

/// The text of attribute `key` of a tag, lossily decoded; empty when the
/// tag has no such attribute.
pub open spec fn attr_text(tag: XmlTagView, key: Seq<u8>) -> Seq<char> {
    match attr_value(tag.attrs, key) {
        Some(v) => lossy_utf8(v),
        None => seq![],
    }
}

fn bytes_equal(a: &Vec<u8>, b: &[u8]) -> (r: bool)
    ensures
        r == (a@ == b@),
{
    if a.len() != b.len() {
        return false;
    }
    let mut i: usize = 0;
    while i < a.len()
        invariant
            a@.len() == b@.len(),
            i <= a.len(),
            forall|k: int| 0 <= k < i ==> a@[k] == b@[k],
        decreases a.len() - i,
    {
        if a[i] != b[i] {
            return false;
        }
        i += 1;
    }
    assert(a@ =~= b@);
    true
}

/// The text of attribute `key` of a tag.
pub fn attr(tag: &XmlTag, key: &str) -> (r: String)
    ensures
        r@ == attr_text(tag@, key.spec_bytes()),
{
    let kb = key.as_bytes();
    let ghost all = tag@.attrs;
    let mut i: usize = 0;
    assert(all.skip(0) =~= all);
    while i < tag.attrs.len()
        invariant
            i <= tag.attrs@.len(),
            all == tag@.attrs,
            kb@ == key.spec_bytes(),
            attr_value(all, kb@) == attr_value(all.skip(i as int), kb@),
        decreases tag.attrs.len() - i,
    {
        assert(all.skip(i as int).drop_first() =~= all.skip(i + 1));
        assert(all.skip(i as int)[0] == attr_view(tag.attrs@[i as int]));
        match &tag.attrs[i] {
            Some((k, v)) => {
                if bytes_equal(k, kb) {
                    return utf8_lossy(v.as_slice());
                }
            },
            None => {},
        }
        i += 1;
    }
    assert(all.skip(i as int).len() == 0);
    String::new()
}

/// The qualified name of a tag or end tag, lossily decoded.
pub fn name_text(name: &Vec<u8>) -> (r: Vec<char>)
    ensures
        r@ == lossy_utf8(name@),
{
    let s = utf8_lossy(name.as_slice());
    chars_of(s.as_str())
}

} // verus!
