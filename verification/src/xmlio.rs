//! The markup boundary: byte documents are tokenized into `XmlEvent`s and
//! event sequences are rendered back to bytes through the `quick_xml`
//! crate. Each call into `quick_xml` stands behind a trusted item; the
//! loops around them are verified.

use vstd::prelude::*;
use quick_xml::events::{BytesEnd, BytesStart, BytesText, Event};
use quick_xml::reader::Reader;
use quick_xml::writer::Writer;
use crate::events::{Attr, AttrModel, EvModel, XmlEvent, attrs_model, evs_model};
use crate::parser::ParseError;
use crate::text::trim_ws;
use vstd::string::StrSliceExecFns;

verus! {

#[verifier::external_type_specification]
#[verifier::external_body]
#[verifier::reject_recursive_types(R)]
pub struct ExXmlReader<R>(Reader<R>);

#[verifier::external_type_specification]
#[verifier::external_body]
pub struct ExBytesStart<'a>(BytesStart<'a>);

#[verifier::external_type_specification]
#[verifier::external_body]
pub struct ExBytesEnd<'a>(BytesEnd<'a>);

#[verifier::external_type_specification]
#[verifier::external_body]
pub struct ExBytesText<'a>(BytesText<'a>);

#[verifier::external_type_specification]
#[verifier::external_body]
#[verifier::reject_recursive_types(W)]
pub struct ExXmlWriter<W>(Writer<W>);

/// One raw markup event as the reader hands it out, payloads still in
/// `quick_xml`'s own types.
pub enum RawEvt {
    Start(BytesStart<'static>),
    SelfClosed(BytesStart<'static>),
    End(BytesEnd<'static>),
    Text(BytesText<'static>),
    Comment(BytesText<'static>),
    Eof,
    Other,
    Fail,
}

/// Relies on `quick_xml`'s `Reader::from_reader`: a fresh reader over the
/// given bytes.
#[verifier::external_body]
fn rd_new<'a>(bytes: &'a [u8]) -> Reader<&'a [u8]> {
    Reader::from_reader(bytes)
}

/// Relies on `quick_xml`'s `Reader::read_event` and `Event::into_owned`:
/// the next markup event, each variant moved into the library's casing.
#[verifier::external_body]
fn rd_next<'a>(r: &mut Reader<&'a [u8]>) -> RawEvt {
    match r.read_event() {
        Err(_) => RawEvt::Fail,
        Ok(Event::Start(e)) => RawEvt::Start(e.into_owned()),
        Ok(Event::Empty(e)) => RawEvt::SelfClosed(e.into_owned()),
        Ok(Event::End(e)) => RawEvt::End(e.into_owned()),
        Ok(Event::Text(e)) => RawEvt::Text(e.into_owned()),
        Ok(Event::Comment(e)) => RawEvt::Comment(e.into_owned()),
        Ok(Event::Eof) => RawEvt::Eof,
        Ok(_) => RawEvt::Other,
    }
}

/// Relies on `quick_xml`'s `Reader::buffer_position`: the byte offset the
/// reader has reached.
#[verifier::external_body]
fn rd_pos<'a>(r: &Reader<&'a [u8]>) -> u64 {
    r.buffer_position() as u64
}

/// Relies on `BytesStart::name`: the tag name's bytes, read as text.
#[verifier::external_body]
fn st_name(e: &BytesStart<'static>) -> String {
    String::from_utf8_lossy(e.name().as_ref()).into_owned()
}

/// Relies on `BytesStart::attributes` and `Attribute::unescape_value`:
/// each well-formed attribute's key and unescaped value, in order.
#[verifier::external_body]
fn st_attrs(e: &BytesStart<'static>) -> Vec<Attr> {
    let mut v = Vec::new();
    for a in e.attributes() {
        if let Ok(a) = a {
            v.push(Attr {
                key: String::from_utf8_lossy(a.key.as_ref()).into_owned(),
                value: a.unescape_value().unwrap_or_default().into_owned(),
            });
        }
    }
    v
}

/// Relies on `BytesEnd::name`: the closing tag name's bytes, read as text.
#[verifier::external_body]
fn end_name(e: &BytesEnd<'static>) -> String {
    String::from_utf8_lossy(e.name().as_ref()).into_owned()
}

/// Relies on `BytesText::unescape`: the text with entity references
/// resolved.
#[verifier::external_body]
fn txt_content(e: &BytesText<'static>) -> String {
    e.unescape().unwrap_or_default().into_owned()
}

/// Tokenizes one byte document into markup events. Inter-tag text is
/// trimmed of surrounding whitespace, and whitespace-only text dropped, as
/// instruction documents are indented freely. Markup the instruction
/// language has no place for (declarations, processing instructions,
/// CDATA, doctypes) is refused, as is markup that is not well-formed.
pub(crate) fn read_events(bytes: &[u8]) -> (r: Result<Vec<XmlEvent>, ParseError>)
    ensures
        r matches Err(e) ==> (e is MalformedInstruction || e is XmlSyntaxError),
{
    let mut rd = rd_new(bytes);
    let mut out: Vec<XmlEvent> = Vec::new();
    let mut fuel: usize = if bytes.len() < usize::MAX - 2 {
        bytes.len() + 2
    } else {
        usize::MAX
    };
    loop
        decreases fuel,
    {
        if fuel == 0 {
            return Err(ParseError::XmlSyntaxError { offset: rd_pos(&rd) });
        }
        fuel = fuel - 1;
        match rd_next(&mut rd) {
            RawEvt::Start(b) => {
                let name = st_name(&b);
                let attrs = st_attrs(&b);
                out.push(XmlEvent::Start { name, attrs });
            },
            RawEvt::SelfClosed(b) => {
                let name = st_name(&b);
                let attrs = st_attrs(&b);
                out.push(XmlEvent::SelfClosed { name, attrs });
            },
            RawEvt::End(b) => {
                let name = end_name(&b);
                out.push(XmlEvent::End { name });
            },
            RawEvt::Text(t) => {
                let s = txt_content(&t);
                let trimmed = trim_ws(s.as_str());
                if trimmed.as_str().unicode_len() > 0 {
                    out.push(XmlEvent::Text { text: trimmed });
                }
            },
            RawEvt::Comment(t) => {
                let text = txt_content(&t);
                out.push(XmlEvent::Comment { text });
            },
            RawEvt::Eof => {
                return Ok(out);
            },
            RawEvt::Other => {
                return Err(ParseError::MalformedInstruction);
            },
            RawEvt::Fail => {
                return Err(ParseError::XmlSyntaxError { offset: rd_pos(&rd) });
            },
        }
    }
}

/// The bytes the renderer appends for one start tag; they depend on the
/// name and attributes alone.
pub uninterp spec fn start_bytes(name: Seq<char>, attrs: Seq<AttrModel>) -> Seq<u8>;

/// The bytes the renderer appends for one self-closed tag.
pub uninterp spec fn empty_tag_bytes(name: Seq<char>, attrs: Seq<AttrModel>) -> Seq<u8>;

/// The bytes the renderer appends for one end tag.
pub uninterp spec fn end_bytes(name: Seq<char>) -> Seq<u8>;

/// The bytes the renderer appends for one text node, escaped.
pub uninterp spec fn text_bytes(text: Seq<char>) -> Seq<u8>;

/// The bytes the renderer appends for one comment.
pub uninterp spec fn comment_bytes(text: Seq<char>) -> Seq<u8>;

/// The bytes a writer has accumulated in its sink.
pub uninterp spec fn writer_bytes(w: Writer<Vec<u8>>) -> Seq<u8>;

/// Relies on `quick_xml`'s `Writer::new` over an empty byte sink.
#[verifier::external_body]
fn wr_new() -> (w: Writer<Vec<u8>>)
    ensures
        writer_bytes(w) == Seq::<u8>::empty(),
{
    Writer::new(Vec::new())
}

/// Relies on `Writer::write_event` with a `Start` event (built with
/// `BytesStart::new` and `push_attribute`): appends that tag's bytes,
/// attribute values escaped.
#[verifier::external_body]
fn wr_start(w: &mut Writer<Vec<u8>>, name: &str, attrs: &Vec<Attr>)
    ensures
        writer_bytes(*final(w)) == writer_bytes(*old(w)) + start_bytes(
            name@,
            attrs_model(attrs@),
        ),
{
    let mut e = BytesStart::new(name);
    for a in attrs.iter() {
        e.push_attribute((a.key.as_str(), a.value.as_str()));
    }
    let _ = w.write_event(Event::Start(e));
}

/// Relies on `Writer::write_event` with an `Empty` event: appends that
/// self-closed tag's bytes, attribute values escaped.
#[verifier::external_body]
fn wr_empty(w: &mut Writer<Vec<u8>>, name: &str, attrs: &Vec<Attr>)
    ensures
        writer_bytes(*final(w)) == writer_bytes(*old(w)) + empty_tag_bytes(
            name@,
            attrs_model(attrs@),
        ),
{
    let mut e = BytesStart::new(name);
    for a in attrs.iter() {
        e.push_attribute((a.key.as_str(), a.value.as_str()));
    }
    let _ = w.write_event(Event::Empty(e));
}

/// Relies on `Writer::write_event` with an `End` event: appends that end
/// tag's bytes.
#[verifier::external_body]
fn wr_end(w: &mut Writer<Vec<u8>>, name: &str)
    ensures
        writer_bytes(*final(w)) == writer_bytes(*old(w)) + end_bytes(name@),
{
    let _ = w.write_event(Event::End(BytesEnd::new(name)));
}

/// Relies on `Writer::write_event` with a `Text` event built by
/// `BytesText::new`: appends the text's bytes, escaped.
#[verifier::external_body]
fn wr_text(w: &mut Writer<Vec<u8>>, text: &str)
    ensures
        writer_bytes(*final(w)) == writer_bytes(*old(w)) + text_bytes(text@),
{
    let _ = w.write_event(Event::Text(BytesText::new(text)));
}

/// Relies on `Writer::write_event` with a `Comment` event built by
/// `BytesText::from_escaped`: appends the comment's bytes unchanged.
#[verifier::external_body]
fn wr_comment(w: &mut Writer<Vec<u8>>, text: &str)
    ensures
        writer_bytes(*final(w)) == writer_bytes(*old(w)) + comment_bytes(text@),
{
    let _ = w.write_event(Event::Comment(BytesText::from_escaped(text)));
}

/// Relies on `Writer::into_inner`: the accumulated bytes.
#[verifier::external_body]
fn wr_take(w: Writer<Vec<u8>>) -> (r: Vec<u8>)
    ensures
        r@ == writer_bytes(w),
{
    w.into_inner()
}

/// The rendered bytes of one markup event.
pub open spec fn ev_bytes(e: EvModel) -> Seq<u8> {
    match e {
        EvModel::Start { name, attrs } => start_bytes(name, attrs),
        EvModel::SelfClosed { name, attrs } => empty_tag_bytes(name, attrs),
        EvModel::End { name } => end_bytes(name),
        EvModel::Text { text } => text_bytes(text),
        EvModel::Comment { text } => comment_bytes(text),
    }
}

/// The rendered bytes of an event sequence, in order.
pub open spec fn events_bytes(evs: Seq<EvModel>) -> Seq<u8>
    decreases evs.len(),
{
    if evs.len() == 0 {
        Seq::empty()
    } else {
        ev_bytes(evs[0]) + events_bytes(evs.drop_first())
    }
}

pub proof fn lemma_events_bytes_push(evs: Seq<EvModel>, e: EvModel)
    ensures
        events_bytes(evs.push(e)) == events_bytes(evs) + ev_bytes(e),
    decreases evs.len(),
{
    if evs.len() == 0 {
        reveal_with_fuel(events_bytes, 2);
        assert(evs.push(e)[0] == e);
        assert(evs.push(e).drop_first() =~= Seq::<EvModel>::empty());
        assert(events_bytes(evs.push(e)) =~= events_bytes(evs) + ev_bytes(e));
    } else {
        assert(evs.push(e)[0] == evs[0]);
        assert(evs.push(e).drop_first() =~= evs.drop_first().push(e));
        lemma_events_bytes_push(evs.drop_first(), e);
        assert(events_bytes(evs.push(e)) =~= events_bytes(evs) + ev_bytes(e));
    }
}

/// Renders markup events to one byte document; the result is a function
/// of the events alone.
pub fn events_to_bytes(events: &Vec<XmlEvent>) -> (r: Vec<u8>)
    ensures
        r@ == events_bytes(evs_model(events@)),
{
    let mut w = wr_new();
    let n = events.len();
    proof {
        assert(events_bytes(evs_model(events@).take(0)) =~= Seq::<u8>::empty());
    }
    for i in 0..n
        invariant
            n == events@.len(),
            writer_bytes(w) == events_bytes(evs_model(events@).take(i as int)),
    {
        match &events[i] {
            XmlEvent::Start { name, attrs } => {
                wr_start(&mut w, name.as_str(), attrs);
            },
            XmlEvent::SelfClosed { name, attrs } => {
                wr_empty(&mut w, name.as_str(), attrs);
            },
            XmlEvent::End { name } => {
                wr_end(&mut w, name.as_str());
            },
            XmlEvent::Text { text } => {
                wr_text(&mut w, text.as_str());
            },
            XmlEvent::Comment { text } => {
                wr_comment(&mut w, text.as_str());
            },
        }
        proof {
            lemma_events_bytes_push(
                evs_model(events@).take(i as int),
                events@[i as int].model(),
            );
            assert(evs_model(events@).take(i + 1) =~= evs_model(events@).take(i as int).push(
                events@[i as int].model(),
            ));
        }
    }
    proof {
        assert(evs_model(events@).take(n as int) =~= evs_model(events@));
    }
    wr_take(w)
}

} // verus!
