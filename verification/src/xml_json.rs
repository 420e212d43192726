//! Textual XML to JSON: the events that a generic XML parser reads become
//! visitor calls, and the calls become a JSON document.

use vstd::prelude::*;
use quick_xml::events::Event::{Start, Empty, End, Text, Comment, CData, Decl, PI, DocType, Eof};
use vstd::string::StringSliceAdditionalSpecFns;
use vstd::utf8::{valid_utf8, decode_utf8, encode_utf8};
use crate::json::{JsonModel, build_json, json_doc, pretty_text, to_pretty};
use crate::model::{Call, CallModel};
use crate::reader::lemma_buf_len;
use crate::value::read_bytes;
use crate::xml::{
    RawAttribute, StartTag, StartTagModel, XmlElement, XmlElementModel, element_of, valid_tag,
    try_bytes_to_string, try_tag_to_element,
};

verus! {

/// The pull reader of `quick_xml`, over a slice of bytes.
#[verifier::external_body]
pub struct XmlReader<'a> {
    inner: quick_xml::Reader<&'a [u8]>,
}

/// One event of textual XML, as bytes. A start tag is its whole content,
/// with the length of the name that the content starts with.
#[derive(Debug, PartialEq, Eq)]
pub enum XmlEvent {
    /// A start tag: its content, and the length of its name.
    Start(Vec<u8>, usize),
    End,
    /// The tag of an empty element: its content, and the length of its name.
    Empty(Vec<u8>, usize),
    Text(Vec<u8>),
    Comment,
    CData,
    Decl,
    PI,
    DocType,
    Eof,
    /// The text is not well-formed; what the reader says of the fault.
    Malformed(String),
}

/// What an [`XmlEvent`] holds.
pub enum XmlEventModel {
    Start(Seq<u8>, usize),
    End,
    Empty(Seq<u8>, usize),
    Text(Seq<u8>),
    Comment,
    CData,
    Decl,
    PI,
    DocType,
    Eof,
    Malformed(Seq<char>),
}

impl View for XmlEvent {
    type V = XmlEventModel;

    open spec fn view(&self) -> XmlEventModel {
        match *self {
            XmlEvent::Start(content, name_len) => XmlEventModel::Start(content@, name_len),
            XmlEvent::End => XmlEventModel::End,
            XmlEvent::Empty(content, name_len) => XmlEventModel::Empty(content@, name_len),
            XmlEvent::Text(t) => XmlEventModel::Text(t@),
            XmlEvent::Comment => XmlEventModel::Comment,
            XmlEvent::CData => XmlEventModel::CData,
            XmlEvent::Decl => XmlEventModel::Decl,
            XmlEvent::PI => XmlEventModel::PI,
            XmlEvent::DocType => XmlEventModel::DocType,
            XmlEvent::Eof => XmlEventModel::Eof,
            XmlEvent::Malformed(words) => XmlEventModel::Malformed(words@),
        }
    }
}

/// The event that the reader of `quick_xml`, with the trimming of text
/// switched on, gives on its read number `n` of the input, counted from 0.
pub uninterp spec fn xml_event(input: Seq<u8>, n: nat) -> XmlEventModel;

/// The input that a reader of `quick_xml` was made for, and the number of
/// events read from it so far.
pub uninterp spec fn reader_source(reader: XmlReader) -> (Seq<u8>, nat);

/// The attributes that `quick_xml` finds in the content of a start tag from
/// position `pos` on, as keys and values in order; none where it reports an
/// error.
pub uninterp spec fn attributes_of(content: Seq<u8>, pos: nat) -> Option<Seq<(Seq<u8>, Seq<u8>)>>;

/// `Reader::from_reader` of `quick_xml` makes a reader at the start of the
/// input, and `trim_text(true)` switches the trimming of text on.
#[verifier::external_body]
fn open_reader<'a>(input: &'a [u8]) -> (reader: XmlReader<'a>)
    ensures
        reader_source(reader).0 == input@,
        reader_source(reader).1 == 0,
{
    let mut inner = quick_xml::Reader::from_reader(input);
    inner.trim_text(true);
    XmlReader { inner }
}

/// `Reader::read_event` of `quick_xml` gives the next event of the input. An
/// error is handed on as `Malformed`, with the error written out as text.
#[verifier::external_body]
fn read_event(reader: &mut XmlReader) -> (ev: XmlEvent)
    ensures
        ev@ == xml_event(reader_source(*old(reader)).0, reader_source(*old(reader)).1),
        reader_source(*final(reader)).0 == reader_source(*old(reader)).0,
        reader_source(*final(reader)).1 == reader_source(*old(reader)).1 + 1,
{
    let mut buf = Vec::new();
    match reader.inner.read_event(&mut buf) {
        Ok(Start(e)) => XmlEvent::Start(e.to_vec(), e.name().len()),
        Ok(Empty(e)) => XmlEvent::Empty(e.to_vec(), e.name().len()),
        Ok(End(_)) => XmlEvent::End,
        Ok(Text(t)) => XmlEvent::Text(t.to_vec()),
        Ok(Comment(_)) => XmlEvent::Comment,
        Ok(CData(_)) => XmlEvent::CData,
        Ok(Decl(_)) => XmlEvent::Decl,
        Ok(PI(_)) => XmlEvent::PI,
        Ok(DocType(_)) => XmlEvent::DocType,
        Ok(Eof) => XmlEvent::Eof,
        Err(e) => XmlEvent::Malformed(format!("{:?}", e)),
    }
}

/// The position at which the reader of `quick_xml` stands after its read
/// number `n` of the input, counted from 0.
pub uninterp spec fn xml_position(input: Seq<u8>, n: nat) -> usize;

/// `Reader::buffer_position` of `quick_xml` gives the position in the input
/// at which the reader stands.
#[verifier::external_body]
fn reader_position(reader: &XmlReader) -> (p: usize)
    ensures
        reader_source(*reader).1 > 0 ==> p == xml_position(
            reader_source(*reader).0,
            (reader_source(*reader).1 - 1) as nat,
        ),
{
    reader.inner.buffer_position()
}

/// `Attributes::new` of `quick_xml` iterates over the attributes in the
/// content of a start tag from a position on. The attributes are gathered
/// in order; the first error ends the iteration and leaves none.
#[verifier::external_body]
fn parse_attributes(content: &[u8], pos: usize) -> (r: Option<Vec<RawAttribute>>)
    ensures
        match r {
            Some(a) => attributes_of(content@, pos as nat) == Some(a.deep_view()),
            None => attributes_of(content@, pos as nat) is None,
        },
{
    quick_xml::events::attributes::Attributes::new(content, pos)
        .map(|a| a.map(|a| RawAttribute { key: a.key.to_vec(), value: a.value.to_vec() }))
        .collect::<Result<Vec<RawAttribute>, quick_xml::Error>>()
        .ok()
}

/// Why textual XML gave no JSON.
#[derive(Debug, Clone, Copy, PartialEq, Eq, Structural)]
pub enum XmlJsonError {
    /// The text is not well-formed; the reader stood at this position.
    Malformed(usize),
    /// The attributes of a start tag could not be read.
    BadAttribute,
    /// A name, a value or a text is not valid UTF-8.
    InvalidUtf8,
    /// The text holds a CDATA section or a processing instruction.
    Unsupported,
    /// An element was left open at the end of the text.
    Unbalanced,
    /// The reader gave more events than the text has bytes.
    TooManyEvents,
}

/// The start tag with the given content, whose name takes the first
/// `name_len` bytes, with its attributes read.
pub open spec fn tag_of(content: Seq<u8>, name_len: usize) -> Result<StartTagModel, XmlJsonError> {
    if name_len > content.len() {
        Err(XmlJsonError::BadAttribute)
    } else {
        match attributes_of(content, name_len as nat) {
            None => Err(XmlJsonError::BadAttribute),
            Some(attrs) => Ok(
                StartTagModel { name: content.subrange(0, name_len as int), attributes: attrs },
            ),
        }
    }
}

/// The element that a start tag with the given content stands for: its name
/// and its attributes in order, all as strings. There is none where the
/// attributes cannot be read, or where a name, a key or a value is not valid
/// UTF-8.
pub open spec fn element_at(content: Seq<u8>, name_len: usize) -> Result<
    XmlElementModel,
    XmlJsonError,
> {
    match tag_of(content, name_len) {
        Err(e) => Err(e),
        Ok(tag) => if valid_tag(tag) {
            Ok(element_of(tag))
        } else {
            Err(XmlJsonError::InvalidUtf8)
        },
    }
}

/// The call that starts an element.
pub open spec fn open_call(e: XmlElementModel) -> CallModel {
    CallModel::OpenStartElement { name: e.name, attributes: e.attributes }
}

/// The calls that an event stands for, where `position` is that of the
/// reader after the event. A start tag starts its element, and the tag of an
/// empty element ends it as well. Comments, declarations and document types
/// pass without a call; CDATA sections and processing instructions are not
/// supported.
pub open spec fn event_calls(ev: XmlEventModel, position: usize) -> Result<
    Seq<CallModel>,
    XmlJsonError,
> {
    match ev {
        XmlEventModel::Start(content, name_len) => match element_at(content, name_len) {
            Err(e) => Err(e),
            Ok(element) => Ok(seq![open_call(element)]),
        },
        XmlEventModel::Empty(content, name_len) => match element_at(content, name_len) {
            Err(e) => Err(e),
            Ok(element) => Ok(seq![open_call(element), CallModel::CloseElement]),
        },
        XmlEventModel::End => Ok(seq![CallModel::CloseElement]),
        XmlEventModel::Text(t) => if valid_utf8(t) {
            Ok(seq![CallModel::Characters(decode_utf8(t))])
        } else {
            Err(XmlJsonError::InvalidUtf8)
        },
        XmlEventModel::Comment => Ok(Seq::empty()),
        XmlEventModel::Decl => Ok(Seq::empty()),
        XmlEventModel::DocType => Ok(Seq::empty()),
        XmlEventModel::CData => Err(XmlJsonError::Unsupported),
        XmlEventModel::PI => Err(XmlJsonError::Unsupported),
        XmlEventModel::Eof => Ok(seq![CallModel::EndOfStream]),
        XmlEventModel::Malformed(_) => Err(XmlJsonError::Malformed(position)),
    }
}

/// The calls of the input from its event number `n` on, appended to `acc`,
/// up to the end of the input. More events than one for each byte of the
/// input, and one for its end, are refused.
pub open spec fn calls_from(input: Seq<u8>, n: nat, acc: Seq<CallModel>) -> Result<
    Seq<CallModel>,
    XmlJsonError,
>
    decreases input.len() + 1 - n,
{
    if n > input.len() || n >= usize::MAX {
        Err(XmlJsonError::TooManyEvents)
    } else {
        match event_calls(xml_event(input, n), xml_position(input, n)) {
            Err(e) => Err(e),
            Ok(calls) => if xml_event(input, n) is Eof {
                Ok(acc + calls)
            } else {
                calls_from(input, n + 1, acc + calls)
            },
        }
    }
}

/// The visitor calls of textual XML, from the start of the stream to its
/// end.
pub open spec fn xml_calls(input: Seq<u8>) -> Result<Seq<CallModel>, XmlJsonError> {
    calls_from(input, 0, seq![CallModel::StartOfStream])
}

/// The JSON document of textual XML, with attributes kept apart from their
/// element.
pub open spec fn xml_document(input: Seq<u8>) -> Result<JsonModel, XmlJsonError> {
    match xml_calls(input) {
        Err(e) => Err(e),
        Ok(calls) => match json_doc(calls, true) {
            None => Err(XmlJsonError::Unbalanced),
            Some(j) => Ok(j),
        },
    }
}

/// An executable result agrees with the model's.
pub open spec fn same_calls(r: Result<Vec<Call>, XmlJsonError>, m: Result<
    Seq<CallModel>,
    XmlJsonError,
>) -> bool {
    match r {
        Ok(calls) => m == Ok::<Seq<CallModel>, XmlJsonError>(calls.deep_view()),
        Err(e) => m == Err::<Seq<CallModel>, XmlJsonError>(e),
    }
}

/// The element that a start tag stands for, where it stands for one: reads
/// the attributes from the tag's content and takes every name, key and value
/// as a string.
pub fn try_event_to_element(content: &[u8], name_len: usize) -> (r: Result<
    XmlElement,
    XmlJsonError,
>)
    ensures
        match r {
            Ok(e) => element_at(content@, name_len) == Ok::<XmlElementModel, XmlJsonError>(e@),
            Err(x) => element_at(content@, name_len) == Err::<XmlElementModel, XmlJsonError>(x),
        },
{
    if name_len > content.len() {
        return Err(XmlJsonError::BadAttribute);
    }
    match parse_attributes(content, name_len) {
        None => Err(XmlJsonError::BadAttribute),
        Some(attributes) => {
            let name: Vec<u8> = read_bytes(content, 0, name_len);
            let tag = StartTag { name, attributes };
            match try_tag_to_element(&tag) {
                Some(e) => Ok(e),
                None => Err(XmlJsonError::InvalidUtf8),
            }
        },
    }
}

/// The element that a start tag stands for: its name and its attributes in
/// order, all as strings. The tag's attributes must be readable and its
/// text valid UTF-8.
pub fn event_to_element(content: &[u8], name_len: usize) -> (r: XmlElement)
    requires
        element_at(content@, name_len) is Ok,
    ensures
        r@ == element_at(content@, name_len).unwrap(),
{
    try_event_to_element(content, name_len).unwrap()
}

fn open_of(element: XmlElement) -> (c: Call)
    ensures
        c@ == open_call(element@),
{
    let XmlElement { name, attributes } = element;
    Call::OpenStartElement { name, attributes }
}

/// The calls that an event stands for, where it stands for calls.
pub fn event_to_calls(ev: &XmlEvent, position: usize) -> (r: Result<Vec<Call>, XmlJsonError>)
    ensures
        same_calls(r, event_calls(ev@, position)),
{
    let mut calls: Vec<Call> = Vec::new();
    assert(calls.deep_view() =~= Seq::<CallModel>::empty());
    match ev {
        XmlEvent::Start(content, name_len) => match try_event_to_element(
            content.as_slice(),
            *name_len,
        ) {
            Err(e) => Err(e),
            Ok(element) => {
                let c = open_of(element);
                calls.push(c);
                assert(calls.deep_view() =~= seq![c@]);
                Ok(calls)
            },
        },
        XmlEvent::Empty(content, name_len) => match try_event_to_element(
            content.as_slice(),
            *name_len,
        ) {
            Err(e) => Err(e),
            Ok(element) => {
                let c = open_of(element);
                calls.push(c);
                calls.push(Call::CloseElement);
                assert(calls.deep_view() =~= seq![c@, CallModel::CloseElement]);
                Ok(calls)
            },
        },
        XmlEvent::End => {
            calls.push(Call::CloseElement);
            assert(calls.deep_view() =~= seq![CallModel::CloseElement]);
            Ok(calls)
        },
        XmlEvent::Text(t) => match try_bytes_to_string(t.as_slice()) {
            Some(s) => {
                let c = Call::Characters(s);
                calls.push(c);
                assert(calls.deep_view() =~= seq![c@]);
                Ok(calls)
            },
            None => Err(XmlJsonError::InvalidUtf8),
        },
        XmlEvent::Comment => Ok(calls),
        XmlEvent::Decl => Ok(calls),
        XmlEvent::DocType => Ok(calls),
        XmlEvent::CData => Err(XmlJsonError::Unsupported),
        XmlEvent::PI => Err(XmlJsonError::Unsupported),
        XmlEvent::Eof => {
            calls.push(Call::EndOfStream);
            assert(calls.deep_view() =~= seq![CallModel::EndOfStream]);
            Ok(calls)
        },
        XmlEvent::Malformed(_) => Err(XmlJsonError::Malformed(position)),
    }
}

/// The calls that an event stands for. The event must stand for calls: it
/// is no CDATA section, no processing instruction and no fault of the text,
/// and where it is a tag, the tag stands for an element.
pub fn calls_of(ev: &XmlEvent, position: usize) -> (r: Vec<Call>)
    requires
        event_calls(ev@, position) is Ok,
    ensures
        r.deep_view() == event_calls(ev@, position).unwrap(),
{
    match ev {
        XmlEvent::Start(content, name_len) => {
            let c = open_of(event_to_element(content.as_slice(), *name_len));
            let mut calls: Vec<Call> = Vec::new();
            calls.push(c);
            assert(calls.deep_view() =~= seq![c@]);
            calls
        },
        XmlEvent::Empty(content, name_len) => {
            let c = open_of(event_to_element(content.as_slice(), *name_len));
            let mut calls: Vec<Call> = Vec::new();
            calls.push(c);
            calls.push(Call::CloseElement);
            assert(calls.deep_view() =~= seq![c@, CallModel::CloseElement]);
            calls
        },
        _ => event_to_calls(ev, position).unwrap(),
    }
}

/// Reads textual XML and gives its visitor calls, where it stands for
/// calls.
pub fn xml_to_calls(input: &[u8]) -> (r: Result<Vec<Call>, XmlJsonError>)
    ensures
        same_calls(r, xml_calls(input@)),
{
    proof {
        lemma_buf_len(input);
    }
    let mut reader = open_reader(input);
    let mut calls: Vec<Call> = Vec::new();
    calls.push(Call::StartOfStream);
    assert(calls.deep_view() =~= seq![CallModel::StartOfStream]);
    let mut n: usize = 0;
    loop
        invariant
            input@.len() <= usize::MAX,
            n <= input@.len() + 1,
            reader_source(reader).0 == input@,
            reader_source(reader).1 == n,
            calls_from(input@, n as nat, calls.deep_view()) == xml_calls(input@),
        decreases input@.len() + 1 - n,
    {
        if n > input.len() || n == usize::MAX {
            return Err(XmlJsonError::TooManyEvents);
        }
        let ev: XmlEvent = read_event(&mut reader);
        let position: usize = reader_position(&reader);
        let mut more: Vec<Call> = match event_to_calls(&ev, position) {
            Err(e) => {
                return Err(e);
            },
            Ok(c) => c,
        };
        let ghost before = calls.deep_view();
        let ghost added = more.deep_view();
        calls.append(&mut more);
        assert(calls.deep_view() =~= before + added);
        if let XmlEvent::Eof = ev {
            return Ok(calls);
        }
        n = n + 1;
    }
}

/// The fault of the input from its event number `n` on: where the reader
/// stood and what it said when it first found the text not well formed. There
/// is none where the reader comes to the end of the input.
pub open spec fn fault_from(input: Seq<u8>, n: nat) -> Option<(usize, Seq<char>)>
    decreases input.len() + 1 - n,
{
    if n > input.len() || n >= usize::MAX {
        None
    } else {
        match xml_event(input, n) {
            XmlEventModel::Malformed(words) => Some((xml_position(input, n), words)),
            XmlEventModel::Eof => None,
            _ => fault_from(input, n + 1),
        }
    }
}

/// Where textual XML is not well formed, and what the reader says of it.
pub fn xml_fault(input: &[u8]) -> (r: Option<(usize, String)>)
    ensures
        match r {
            Some((position, words)) => fault_from(input@, 0) == Some((position, words@)),
            None => fault_from(input@, 0) is None,
        },
{
    proof {
        lemma_buf_len(input);
    }
    let mut reader = open_reader(input);
    let mut n: usize = 0;
    loop
        invariant
            input@.len() <= usize::MAX,
            reader_source(reader).0 == input@,
            reader_source(reader).1 == n,
            fault_from(input@, n as nat) == fault_from(input@, 0),
        decreases input@.len() + 1 - n,
    {
        if n > input.len() || n == usize::MAX {
            return None;
        }
        let ev: XmlEvent = read_event(&mut reader);
        let position: usize = reader_position(&reader);
        match ev {
            XmlEvent::Malformed(words) => {
                return Some((position, words));
            },
            XmlEvent::Eof => {
                return None;
            },
            _ => {},
        }
        n = n + 1;
    }
}

/// Converts textual XML to JSON text: the document of its elements, with
/// attributes kept apart from their element, printed with indentation.
///
/// The text must have a document: it is well formed, every element that it
/// opens it closes, it holds no CDATA section and no processing instruction,
/// and the attributes of its tags can be read.
pub fn xml_to_json(xml: &str) -> (r: String)
    requires
        xml_document(encode_utf8(xml@)) is Ok,
    ensures
        r@ == pretty_text(xml_document(encode_utf8(xml@)).unwrap()),
{
    let input: &[u8] = xml.as_bytes();
    proof {
        lemma_buf_len(input);
    }
    let mut reader = open_reader(input);
    let mut calls: Vec<Call> = Vec::new();
    calls.push(Call::StartOfStream);
    assert(calls.deep_view() =~= seq![CallModel::StartOfStream]);
    let mut n: usize = 0;
    loop
        invariant
            input@ == encode_utf8(xml@),
            input@.len() <= usize::MAX,
            xml_document(input@) is Ok,
            reader_source(reader).0 == input@,
            reader_source(reader).1 == n,
            calls_from(input@, n as nat, calls.deep_view()) == xml_calls(input@),
        decreases input@.len() + 1 - n,
    {
        let ev: XmlEvent = read_event(&mut reader);
        let position: usize = reader_position(&reader);
        let mut more: Vec<Call> = calls_of(&ev, position);
        let ghost before = calls.deep_view();
        let ghost added = more.deep_view();
        calls.append(&mut more);
        assert(calls.deep_view() =~= before + added);
        if let XmlEvent::Eof = ev {
            let doc = build_json(&calls, true).unwrap();
            return to_pretty(&doc).unwrap();
        }
        n = n + 1;
    }
}

/// Converts textual XML to JSON text where the text has a document, and
/// says why where it has none. The text is read once to see whether it has
/// a document, and converted then.
pub fn try_xml_to_json(xml: &str) -> (r: Result<String, XmlJsonError>)
    ensures
        match r {
            Ok(s) => xml_document(encode_utf8(xml@)) is Ok && s@ == pretty_text(
                xml_document(encode_utf8(xml@)).unwrap(),
            ),
            Err(e) => xml_document(encode_utf8(xml@)) == Err::<JsonModel, XmlJsonError>(e),
        },
{
    match xml_to_calls(xml.as_bytes()) {
        Err(e) => Err(e),
        Ok(calls) => match build_json(&calls, true) {
            None => Err(XmlJsonError::Unbalanced),
            Some(_) => Ok(xml_to_json(xml)),
        },
    }
}

} // verus!
