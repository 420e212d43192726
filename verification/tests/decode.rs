use std::sync::Arc;

use evtx::chunk::{data_checksum, header_checksum, EvtxChunk};
use evtx::crc::checksum;
use evtx::err::{ChunkError, EvtxError, FileHeaderError, RecordError, TokenError};
use evtx::model::{Attribute, Call};
use evtx::parser::{decode_chunk, decode_file, EvtxParser};
use evtx::record::RecordResult;
use evtx::settings::ParserSettings;
use evtx::string_cache::StringCache;
use evtx::template_cache::TemplateCache;
use evtx::value::{BinXmlValue, Scalar};
use evtx::visitor::{BinXmlOutput, Recorder};
use evtx::xml_json::xml_to_calls;
use evtx::xml_output::XmlOutput;

const CHUNK: usize = 65536;

fn le16(v: u16) -> Vec<u8> {
    v.to_le_bytes().to_vec()
}

fn le32(v: u32) -> Vec<u8> {
    v.to_le_bytes().to_vec()
}

fn le64(v: u64) -> Vec<u8> {
    v.to_le_bytes().to_vec()
}

fn utf16(text: &str) -> Vec<u8> {
    let mut out = Vec::new();
    for u in text.encode_utf16() {
        out.extend_from_slice(&u.to_le_bytes());
    }
    out
}

/// A string entry: next offset, hash, count of code units, the units, a terminator.
fn name_entry(text: &str) -> Vec<u8> {
    let mut out = Vec::new();
    out.extend(le32(0));
    out.extend(le16(0));
    out.extend(le16(text.encode_utf16().count() as u16));
    out.extend(utf16(text));
    out.extend(le16(0));
    out
}

/// The value of an attribute in a test chunk.
enum Val<'a> {
    Text(&'a str),
    Sub(u16, u8, bool),
    InlineRef(&'a str),
    Ref(u32),
}

/// One substitution value: its type and its bytes.
struct Given {
    ty: u8,
    bytes: Vec<u8>,
}

fn given_text(text: &str) -> Given {
    Given { ty: 0x01, bytes: utf16(text) }
}

fn given_u32(v: u32) -> Given {
    Given { ty: 0x08, bytes: le32(v) }
}

fn given_null() -> Given {
    Given { ty: 0x00, bytes: Vec::new() }
}

/// A chunk under construction: the bytes so far, starting with the header.
struct ChunkBuilder {
    bytes: Vec<u8>,
}

impl ChunkBuilder {
    fn new() -> Self {
        let mut bytes = vec![0u8; 512];
        bytes[..8].copy_from_slice(b"ElfChnk\0");
        ChunkBuilder { bytes }
    }

    fn here(&self) -> u32 {
        self.bytes.len() as u32
    }

    fn put(&mut self, b: &[u8]) {
        self.bytes.extend_from_slice(b);
    }

    /// A name reference whose string entry stands in line. Gives the entry's offset.
    fn inline_name(&mut self, text: &str) -> u32 {
        let at = self.here() + 4;
        self.put(&le32(at));
        self.put(&name_entry(text));
        at
    }

    fn name_at(&mut self, offset: u32) {
        self.put(&le32(offset));
    }

    /// The start of an element without attributes, up to the token that closes the start tag.
    fn open(&mut self, name: &str, close: u8) -> u32 {
        self.put(&[0x01]);
        self.put(&le16(0xFFFF));
        self.put(&le32(0));
        let at = self.inline_name(name);
        self.put(&[close]);
        at
    }

    fn open_with(&mut self, name: &str, attrs: &[(&str, Val)], close: u8) {
        self.put(&[0x41]);
        self.put(&le16(0xFFFF));
        self.put(&le32(0));
        self.inline_name(name);
        self.put(&le32(0));
        for (key, value) in attrs {
            self.put(&[0x06]);
            self.inline_name(key);
            match value {
                Val::Text(t) => self.text(t),
                Val::Sub(index, ty, optional) => self.sub(*index, *ty, *optional),
                Val::InlineRef(t) => {
                    self.put(&[0x09]);
                    self.inline_name(t);
                }
                Val::Ref(offset) => {
                    self.put(&[0x09]);
                    self.name_at(*offset);
                }
            }
        }
        self.put(&[close]);
    }

    fn text(&mut self, text: &str) {
        self.put(&[0x05, 0x01]);
        self.put(&le16(text.encode_utf16().count() as u16));
        self.put(&utf16(text));
    }

    fn sub(&mut self, index: u16, ty: u8, optional: bool) {
        self.put(&[if optional { 0x0e } else { 0x0d }]);
        self.put(&le16(index));
        self.put(&[ty]);
    }

    fn close(&mut self) {
        self.put(&[0x04]);
    }

    fn values(&mut self, given: &[Given]) {
        self.put(&le32(given.len() as u32));
        for g in given {
            self.put(&le16(g.bytes.len() as u16));
            self.put(&[g.ty, 0]);
        }
        for g in given {
            self.put(&g.bytes);
        }
    }

    /// The reference of a template instance to a definition that follows in line. Gives the
    /// definition's offset and the place where the size of its body goes.
    fn begin_definition(&mut self) -> (u32, usize) {
        self.put(&[0x0c, 0x01]);
        self.put(&le32(0x1234_5678));
        let at = self.here() + 4;
        self.put(&le32(at));
        self.put(&le32(0));
        self.put(&[0x11; 16]);
        let size_at = self.bytes.len();
        self.put(&le32(0));
        self.put(&[0x0f, 0x01, 0x01, 0x00]);
        (at, size_at)
    }

    fn end_definition(&mut self, size_at: usize) {
        self.put(&[0x00]);
        let size = (self.bytes.len() - size_at - 4) as u32;
        self.bytes[size_at..size_at + 4].copy_from_slice(&size.to_le_bytes());
    }

    fn instance_of(&mut self, offset: u32, given: &[Given]) {
        self.put(&[0x0c, 0x01]);
        self.put(&le32(0x1234_5678));
        self.put(&le32(offset));
        self.values(given);
    }

    fn begin_record(&mut self, id: u64) -> usize {
        let start = self.bytes.len();
        self.put(&[0x2a, 0x2a, 0x00, 0x00]);
        self.put(&le32(0));
        self.put(&le64(id));
        self.put(&le64(0x01D5_0000_0000_0000));
        self.put(&[0x0f, 0x01, 0x01, 0x00]);
        start
    }

    fn end_record(&mut self, start: usize) {
        self.put(&[0x00]);
        self.seal_record(start);
    }

    /// Ends a record without an end-of-stream token.
    fn seal_record(&mut self, start: usize) {
        let size = (self.bytes.len() - start + 4) as u32;
        self.bytes[start + 4..start + 8].copy_from_slice(&size.to_le_bytes());
        self.put(&le32(size));
    }

    fn finish(mut self) -> Vec<u8> {
        let free = self.bytes.len() as u32;
        self.bytes[48..52].copy_from_slice(&free.to_le_bytes());
        self.bytes.resize(CHUNK, 0);
        self.bytes
    }
}

fn file_of(chunks: Vec<Vec<u8>>) -> Vec<u8> {
    let mut file = vec![0u8; 4096];
    file[..8].copy_from_slice(b"ElfFile\0");
    file[42..44].copy_from_slice(&(chunks.len() as u16).to_le_bytes());
    for c in chunks {
        file.extend(c);
    }
    file
}

fn open_call(name: &str) -> Call {
    Call::OpenStartElement { name: name.to_string(), attributes: Vec::<Attribute>::new() }
}

fn open_attrs(name: &str, attrs: Vec<(&str, BinXmlValue)>) -> Call {
    Call::OpenStartElement {
        name: name.to_string(),
        attributes: attrs
            .into_iter()
            .map(|(k, v)| Attribute { name: k.to_string(), value: v })
            .collect(),
    }
}

fn text_value(t: &str) -> BinXmlValue {
    BinXmlValue::Scalar(Scalar::Text(t.to_string()))
}

fn chars(t: &str) -> Call {
    Call::Characters(t.to_string())
}

fn calls_of(r: &RecordResult) -> Vec<Call> {
    match r {
        Ok(rec) => rec.calls.clone(),
        Err(e) => panic!("expected a record, found {:?}", e),
    }
}

/// A chunk with one record whose payload the closure writes.
fn one_record(payload: impl FnOnce(&mut ChunkBuilder)) -> Vec<u8> {
    let mut c = ChunkBuilder::new();
    let r = c.begin_record(7);
    payload(&mut c);
    c.end_record(r);
    c.finish()
}

fn token_error(payload: impl FnOnce(&mut ChunkBuilder)) -> TokenError {
    let chunk = one_record(payload);
    let entries = decode_chunk(&chunk, 0, &ParserSettings::new());
    assert_eq!(entries.len(), 1);
    match &entries[0] {
        Err(EvtxError::Token(0, 7, e)) => *e,
        other => panic!("expected a token error, found {:?}", other),
    }
}

fn simple_chunk(ids: &[u64]) -> Vec<u8> {
    let mut c = ChunkBuilder::new();
    for id in ids {
        let r = c.begin_record(*id);
        c.open("Event", 0x02);
        c.text(&format!("record {}", id));
        c.close();
        c.end_record(r);
    }
    c.finish()
}

// ---------------------------------------------------------------------------
// Scenarios
// ---------------------------------------------------------------------------

#[test]
fn two_chunks_decode_to_the_expected_visitor_calls() {
    let mut first = ChunkBuilder::new();
    let r = first.begin_record(1);
    first.open("Event", 0x03);
    first.end_record(r);

    let mut second = ChunkBuilder::new();
    let r = second.begin_record(2);
    second.open("Event", 0x02);
    second.open("Data", 0x02);
    second.text("hello");
    second.close();
    second.close();
    second.end_record(r);

    let file = file_of(vec![first.finish(), second.finish()]);
    let entries = decode_file(&file, &ParserSettings::new());
    assert_eq!(entries.len(), 2);
    assert_eq!(
        calls_of(&entries[0]),
        vec![Call::StartOfStream, open_call("Event"), Call::CloseElement, Call::EndOfStream]
    );
    assert_eq!(
        calls_of(&entries[1]),
        vec![
            Call::StartOfStream,
            open_call("Event"),
            open_call("Data"),
            chars("hello"),
            Call::CloseElement,
            Call::CloseElement,
            Call::EndOfStream,
        ]
    );
    let first = entries[0].as_ref().unwrap();
    assert_eq!((first.chunk, first.offset, first.id), (0, 512, 1));
    assert_eq!(first.timestamp, 0x01D5_0000_0000_0000);
    let second = entries[1].as_ref().unwrap();
    assert_eq!((second.chunk, second.offset, second.id), (1, 512, 2));
}

#[test]
fn a_shared_string_is_decoded_once() {
    let mut c = ChunkBuilder::new();
    let r = c.begin_record(1);
    c.open("Event", 0x02);
    let before = c.here();
    c.open_with("A", &[("k", Val::InlineRef("shared"))], 0x03);
    // The entry of "shared" is the last string entry written so far.
    let shared = c.here() - 1 - name_entry("shared").len() as u32;
    assert!(shared > before);
    c.open_with("B", &[("k2", Val::Ref(shared))], 0x03);
    c.close();
    c.end_record(r);
    let data = c.finish();

    let mut chunk = EvtxChunk::new(&data, 0, &ParserSettings::new()).unwrap();
    let record = chunk.next_record().unwrap();
    assert_eq!(
        calls_of(&record),
        vec![
            Call::StartOfStream,
            open_call("Event"),
            open_attrs("A", vec![("k", text_value("shared"))]),
            Call::CloseElement,
            open_attrs("B", vec![("k2", text_value("shared"))]),
            Call::CloseElement,
            Call::CloseElement,
            Call::EndOfStream,
        ]
    );
    assert!(chunk.next_record().is_none());
    let strings = chunk.string_cache();
    assert!(strings.contains(shared));
    // Event, A, k, shared, B, k2: six strings, each decoded once.
    assert_eq!(strings.len(), 6);
    assert_eq!(strings.decode_count(), 6);
}

#[test]
fn a_size_mismatch_ends_the_chunk() {
    let mut c = ChunkBuilder::new();
    let r = c.begin_record(1);
    c.open("Event", 0x03);
    c.end_record(r);
    let second = c.begin_record(2);
    c.open("Event", 0x03);
    c.end_record(second);
    let third = c.begin_record(3);
    c.open("Event", 0x03);
    c.end_record(third);
    // Spoil the trailing size of the second record.
    let tail = third - 4;
    c.bytes[tail] ^= 0xFF;
    let file = file_of(vec![c.finish()]);
    let entries = decode_file(&file, &ParserSettings::new());
    assert_eq!(entries.len(), 2);
    assert!(entries[0].is_ok());
    assert_eq!(entries[1], Err(EvtxError::Record(0, second as u32, RecordError::SizeMismatch)));
}

#[test]
fn a_bad_chunk_does_not_stop_the_next_chunk() {
    let mut bad = simple_chunk(&[1]);
    bad[0] = b'X';
    let good = simple_chunk(&[2]);
    let file = file_of(vec![bad, good]);
    let entries = decode_file(&file, &ParserSettings::new());
    assert_eq!(entries.len(), 2);
    assert_eq!(entries[0], Err(EvtxError::ChunkHeader(0, ChunkError::BadMagic)));
    assert_eq!(
        calls_of(&entries[1]),
        vec![
            Call::StartOfStream,
            open_call("Event"),
            chars("record 2"),
            Call::CloseElement,
            Call::EndOfStream
        ]
    );
    assert_eq!(entries[1].as_ref().unwrap().chunk, 1);
}

#[test]
fn an_unknown_token_costs_one_record_only() {
    let mut c = ChunkBuilder::new();
    let r = c.begin_record(1);
    c.put(&[0x3f]);
    c.end_record(r);
    let r = c.begin_record(2);
    c.open("Event", 0x03);
    c.end_record(r);
    let file = file_of(vec![c.finish()]);
    let entries = decode_file(&file, &ParserSettings::new());
    assert_eq!(entries.len(), 2);
    assert_eq!(entries[0], Err(EvtxError::Token(0, 1, TokenError::UnknownToken)));
    assert!(entries[1].is_ok());
}

#[test]
fn the_thread_count_does_not_change_what_is_decoded() {
    let file = file_of(vec![simple_chunk(&[1, 2, 3]), simple_chunk(&[4]), simple_chunk(&[5, 6])]);
    let one = decode_file(&file, &ParserSettings::new().num_threads(1));
    let many = decode_file(&file, &ParserSettings::new().num_threads(8));
    assert_eq!(one.len(), 6);
    assert_eq!(one, many);
    let ids: Vec<u64> = one.iter().map(|r| r.as_ref().unwrap().id).collect();
    assert_eq!(ids, vec![1, 2, 3, 4, 5, 6]);
}

#[test]
fn the_parser_hands_out_the_entries_one_by_one() {
    let mut broken = simple_chunk(&[9]);
    broken[3] = 0;
    let file = file_of(vec![simple_chunk(&[1, 2]), broken, simple_chunk(&[3])]);
    let settings = ParserSettings::new();
    let all = decode_file(&file, &settings);
    let mut parser = EvtxParser::from_buffer(file.clone(), settings).unwrap();
    assert_eq!(parser.header().chunk_count, 3);
    let mut pulled = Vec::new();
    while let Some(entry) = parser.next() {
        pulled.push(entry);
    }
    assert_eq!(pulled.len(), 4);
    assert_eq!(pulled, all);
    assert!(parser.next().is_none());

    let mut again = EvtxParser::from_buffer(file, settings).unwrap();
    let first = again.next().unwrap();
    assert_eq!(first.unwrap().id, 1);
    let rest = again.records();
    assert_eq!(rest.len(), 3);
    assert_eq!(rest[0].as_ref().unwrap().id, 2);
    assert_eq!(rest[1], Err(EvtxError::ChunkHeader(1, ChunkError::BadMagic)));
    assert_eq!(rest[2].as_ref().unwrap().id, 3);
}

// ---------------------------------------------------------------------------
// Templates
// ---------------------------------------------------------------------------

/// A chunk with two records that instantiate one template, `<Event Id="%0"><Data>%1</Data></Event>`,
/// the first with the definition in line and the second by reference.
fn template_chunk(first: &[Given], second: &[Given]) -> (Vec<u8>, u32) {
    let mut c = ChunkBuilder::new();
    let r = c.begin_record(1);
    let (at, size_at) = c.begin_definition();
    c.open_with("Event", &[("Id", Val::Sub(0, 0x08, false))], 0x02);
    c.open("Data", 0x02);
    c.sub(1, 0x01, true);
    c.close();
    c.close();
    c.end_definition(size_at);
    c.values(first);
    c.end_record(r);
    let r = c.begin_record(2);
    c.instance_of(at, second);
    c.end_record(r);
    (c.finish(), at)
}

#[test]
fn two_instantiations_differ_only_in_the_substituted_values() {
    let (data, at) = template_chunk(
        &[given_u32(4624), given_text("logon")],
        &[given_u32(4634), given_text("logoff")],
    );
    let mut chunk = EvtxChunk::new(&data, 0, &ParserSettings::new()).unwrap();
    let first = calls_of(&chunk.next_record().unwrap());
    assert_eq!(chunk.template_cache().parse_count(), 1);
    let second = calls_of(&chunk.next_record().unwrap());
    assert!(chunk.next_record().is_none());
    assert_eq!(
        first,
        vec![
            Call::StartOfStream,
            open_attrs("Event", vec![("Id", BinXmlValue::Scalar(Scalar::UInt32(4624)))]),
            open_call("Data"),
            chars("logon"),
            Call::CloseElement,
            Call::CloseElement,
            Call::EndOfStream,
        ]
    );
    assert_eq!(
        second,
        vec![
            Call::StartOfStream,
            open_attrs("Event", vec![("Id", BinXmlValue::Scalar(Scalar::UInt32(4634)))]),
            open_call("Data"),
            chars("logoff"),
            Call::CloseElement,
            Call::CloseElement,
            Call::EndOfStream,
        ]
    );
    // Everything but the two substituted values is the same.
    assert_eq!(first.len(), second.len());
    for (i, (a, b)) in first.iter().zip(second.iter()).enumerate() {
        if i != 1 && i != 3 {
            assert_eq!(a, b);
        }
    }
    // The template was parsed from the buffer once.
    let templates = chunk.template_cache();
    assert_eq!(templates.parse_count(), 1);
    assert_eq!(templates.len(), 1);
    assert!(templates.contains(at));
    assert_eq!(templates.get(at).unwrap().nodes.len(), 5);
    assert_eq!(templates.get(at).unwrap().depth, 2);
}

#[test]
fn the_elements_of_a_template_count_towards_the_depth() {
    let chunk = one_record(|c| {
        c.open("Envelope", 0x02);
        let (_, size_at) = c.begin_definition();
        c.open("Event", 0x02);
        c.open("Data", 0x03);
        c.close();
        c.end_definition(size_at);
        c.values(&[]);
        c.close();
    });
    let fits = decode_chunk(&chunk, 0, &ParserSettings::new().max_nesting_depth(3));
    assert_eq!(
        calls_of(&fits[0]),
        vec![
            Call::StartOfStream,
            open_call("Envelope"),
            open_call("Event"),
            open_call("Data"),
            Call::CloseElement,
            Call::CloseElement,
            Call::CloseElement,
            Call::EndOfStream,
        ]
    );
    let too_deep = decode_chunk(&chunk, 0, &ParserSettings::new().max_nesting_depth(2));
    assert_eq!(too_deep, vec![Err(EvtxError::Token(0, 7, TokenError::ExcessiveNesting))]);
}

#[test]
fn an_optional_null_is_empty_content() {
    let (data, _) = template_chunk(&[given_u32(1), given_null()], &[given_u32(2), given_text("x")]);
    let entries = decode_chunk(&data, 0, &ParserSettings::new());
    assert_eq!(entries.len(), 2);
    assert_eq!(
        calls_of(&entries[0]),
        vec![
            Call::StartOfStream,
            open_attrs("Event", vec![("Id", BinXmlValue::Scalar(Scalar::UInt32(1)))]),
            open_call("Data"),
            chars(""),
            Call::CloseElement,
            Call::CloseElement,
            Call::EndOfStream,
        ]
    );
}

#[test]
fn a_normal_null_is_a_type_mismatch() {
    let (data, _) = template_chunk(&[given_null(), given_text("x")], &[given_u32(2), given_text("y")]);
    let entries = decode_chunk(&data, 0, &ParserSettings::new());
    assert_eq!(entries.len(), 2);
    assert_eq!(entries[0], Err(EvtxError::Token(0, 1, TokenError::TypeMismatch)));
    // The template is cached all the same, and the second record uses it.
    assert!(entries[1].is_ok());
}

#[test]
fn a_narrower_unsigned_value_is_widened() {
    let (data, _) = template_chunk(
        &[Given { ty: 0x04, bytes: vec![200] }, given_text("x")],
        &[Given { ty: 0x06, bytes: le16(65535) }, given_text("y")],
    );
    let entries = decode_chunk(&data, 0, &ParserSettings::new());
    match &calls_of(&entries[0])[1] {
        Call::OpenStartElement { attributes, .. } => {
            assert_eq!(attributes[0].value, BinXmlValue::Scalar(Scalar::UInt32(200)))
        }
        other => panic!("unexpected call {:?}", other),
    }
    match &calls_of(&entries[1])[1] {
        Call::OpenStartElement { attributes, .. } => {
            assert_eq!(attributes[0].value, BinXmlValue::Scalar(Scalar::UInt32(65535)))
        }
        other => panic!("unexpected call {:?}", other),
    }
}

#[test]
fn a_value_of_another_type_is_a_type_mismatch() {
    let (data, _) = template_chunk(&[given_text("no"), given_text("x")], &[]);
    let entries = decode_chunk(&data, 0, &ParserSettings::new());
    assert_eq!(entries[0], Err(EvtxError::Token(0, 1, TokenError::TypeMismatch)));
    assert_eq!(entries[1], Err(EvtxError::Token(0, 2, TokenError::MissingSubstitution)));
}

#[test]
fn any_type_fills_an_untyped_placeholder() {
    let chunk = one_record(|c| {
        let (_, size_at) = c.begin_definition();
        c.open("Event", 0x02);
        c.sub(0, 0x00, false);
        c.close();
        c.end_definition(size_at);
        c.values(&[Given { ty: 0x0d, bytes: le32(1) }]);
    });
    let entries = decode_chunk(&chunk, 0, &ParserSettings::new());
    assert_eq!(
        calls_of(&entries[0]),
        vec![
            Call::StartOfStream,
            open_call("Event"),
            chars("true"),
            Call::CloseElement,
            Call::EndOfStream
        ]
    );
}

#[test]
fn a_template_that_refers_to_itself_is_cyclic() {
    let e = token_error(|c| {
        let (at, size_at) = c.begin_definition();
        c.instance_of(at, &[]);
        c.end_definition(size_at);
        c.values(&[]);
    });
    assert_eq!(e, TokenError::CyclicTemplate);
}

#[test]
fn two_templates_that_refer_to_each_other_are_cyclic() {
    let mut c = ChunkBuilder::new();
    let r = c.begin_record(7);
    let (outer, outer_size) = c.begin_definition();
    c.open("Outer", 0x02);
    let (_, inner_size) = c.begin_definition();
    c.open("Inner", 0x02);
    c.instance_of(outer, &[]);
    c.close();
    c.end_definition(inner_size);
    c.values(&[]);
    c.close();
    c.end_definition(outer_size);
    c.values(&[]);
    c.end_record(r);
    let r = c.begin_record(8);
    c.open("Event", 0x03);
    c.end_record(r);
    let data = c.finish();
    let mut chunk = EvtxChunk::new(&data, 0, &ParserSettings::new()).unwrap();
    assert_eq!(
        chunk.next_record(),
        Some(Err(EvtxError::Token(0, 7, TokenError::CyclicTemplate)))
    );
    assert_eq!(chunk.template_cache().len(), 0);
    assert!(chunk.next_record().unwrap().is_ok());
    assert!(chunk.next_record().is_none());
}

#[test]
fn a_template_inside_a_template_is_bound_when_it_is_defined() {
    let mut c = ChunkBuilder::new();
    let r = c.begin_record(1);
    let (outer, outer_size) = c.begin_definition();
    c.open("Outer", 0x02);
    let (inner, inner_size) = c.begin_definition();
    c.open("Inner", 0x02);
    c.sub(0, 0x01, false);
    c.close();
    c.end_definition(inner_size);
    c.values(&[given_text("fixed")]);
    c.sub(0, 0x08, false);
    c.close();
    c.end_definition(outer_size);
    c.values(&[given_u32(5)]);
    c.end_record(r);
    let r = c.begin_record(2);
    c.instance_of(outer, &[given_u32(6)]);
    c.end_record(r);
    let r = c.begin_record(3);
    c.instance_of(inner, &[given_text("free")]);
    c.end_record(r);
    let data = c.finish();
    let mut chunk = EvtxChunk::new(&data, 0, &ParserSettings::new()).unwrap();
    let expect = |n: &str| {
        vec![
            Call::StartOfStream,
            open_call("Outer"),
            open_call("Inner"),
            chars("fixed"),
            Call::CloseElement,
            chars(n),
            Call::CloseElement,
            Call::EndOfStream,
        ]
    };
    assert_eq!(calls_of(&chunk.next_record().unwrap()), expect("5"));
    assert_eq!(chunk.template_cache().parse_count(), 2);
    assert_eq!(calls_of(&chunk.next_record().unwrap()), expect("6"));
    assert_eq!(
        calls_of(&chunk.next_record().unwrap()),
        vec![
            Call::StartOfStream,
            open_call("Inner"),
            chars("free"),
            Call::CloseElement,
            Call::EndOfStream
        ]
    );
    assert_eq!(chunk.template_cache().parse_count(), 2);
    assert_eq!(chunk.template_cache().len(), 2);
}

#[test]
fn resolving_a_template_twice_parses_it_once() {
    let (data, at) = template_chunk(&[given_u32(1), given_text("a")], &[given_u32(2), given_text("b")]);
    let mut strings = StringCache::new();
    let mut templates = TemplateCache::new(16);
    let first = templates.resolve(&data, &mut strings, at).unwrap();
    assert_eq!(templates.parse_count(), 1);
    let second = templates.resolve(&data, &mut strings, at).unwrap();
    assert_eq!(templates.parse_count(), 1);
    assert!(Arc::ptr_eq(&first, &second));
    assert_eq!(first.guid.data1, 0x1111_1111);
    assert_eq!(templates.max_depth(), 16);
    // An attempt that fails counts too, and is not kept.
    assert_eq!(
        templates.resolve(&data, &mut strings, 0xFFFF_0000),
        Err(TokenError::MalformedTemplate)
    );
    assert_eq!(templates.parse_count(), 2);
    assert_eq!(templates.len(), 1);
    assert_eq!(
        templates.resolve(&data, &mut strings, 0xFFFF_0000),
        Err(TokenError::MalformedTemplate)
    );
    assert_eq!(templates.parse_count(), 3);
    // The strings of the template were decoded once: Event, Id and Data.
    assert_eq!(strings.len(), 3);
    assert_eq!(strings.decode_count(), 3);
}

#[test]
fn a_name_used_again_is_not_decoded_again() {
    let mut c = ChunkBuilder::new();
    let r = c.begin_record(1);
    let event = c.open("Event", 0x02);
    // The same name by its offset, three times.
    for _ in 0..3 {
        c.put(&[0x01]);
        c.put(&le16(0xFFFF));
        c.put(&le32(0));
        c.name_at(event);
        c.put(&[0x03]);
    }
    c.close();
    c.end_record(r);
    let r = c.begin_record(2);
    c.put(&[0x01]);
    c.put(&le16(0xFFFF));
    c.put(&le32(0));
    c.name_at(event);
    c.put(&[0x03]);
    c.end_record(r);
    let data = c.finish();
    let mut chunk = EvtxChunk::new(&data, 0, &ParserSettings::new()).unwrap();
    let first = calls_of(&chunk.next_record().unwrap());
    assert_eq!(first.len(), 2 + 2 + 3 * 2);
    assert_eq!(first[2], open_call("Event"));
    assert_eq!(chunk.string_cache().len(), 1);
    assert_eq!(chunk.string_cache().decode_count(), 1);
    let second = calls_of(&chunk.next_record().unwrap());
    assert_eq!(
        second,
        vec![Call::StartOfStream, open_call("Event"), Call::CloseElement, Call::EndOfStream]
    );
    // The cache of the chunk is kept from record to record.
    assert_eq!(chunk.string_cache().len(), 1);
    assert_eq!(chunk.string_cache().decode_count(), 1);
}

#[test]
fn a_template_longer_than_its_size_is_malformed() {
    let e = token_error(|c| {
        let (_, size_at) = c.begin_definition();
        c.open("Event", 0x03);
        c.end_definition(size_at);
        let size = u32::from_le_bytes(c.bytes[size_at..size_at + 4].try_into().unwrap());
        c.bytes[size_at..size_at + 4].copy_from_slice(&(size - 1).to_le_bytes());
        c.values(&[]);
    });
    assert_eq!(e, TokenError::MalformedTemplate);
}

// ---------------------------------------------------------------------------
// The string cache
// ---------------------------------------------------------------------------

#[test]
fn resolving_a_string_twice_reads_the_buffer_once() {
    let mut buf = vec![0u8; 100];
    buf.extend(name_entry("Provider"));
    let mut cache = StringCache::new();
    assert_eq!(cache.len(), 0);
    assert!(!cache.contains(100));
    let first = cache.resolve(&buf, 100).unwrap();
    assert_eq!(first.text, "Provider");
    assert_eq!(first.size, 10 + 16);
    assert_eq!(cache.decode_count(), 1);
    let second = cache.resolve(&buf, 100).unwrap();
    assert_eq!(second.text, first.text);
    assert!(Arc::ptr_eq(&first, &second));
    assert_eq!(cache.decode_count(), 1);
    assert_eq!(cache.len(), 1);
    assert!(cache.contains(100));
}

#[test]
fn a_string_that_leaves_the_buffer_is_malformed() {
    let mut buf = vec![0u8; 100];
    buf.extend(name_entry("Provider"));
    buf.truncate(buf.len() - 1);
    let mut cache = StringCache::new();
    assert_eq!(cache.resolve(&buf, 100), Err(TokenError::MalformedString));
    assert_eq!(cache.resolve(&buf, 5000), Err(TokenError::MalformedString));
    // A failure is not kept: each attempt reads again.
    assert_eq!(cache.decode_count(), 2);
    assert_eq!(cache.len(), 0);
}

#[test]
fn a_lone_surrogate_is_malformed() {
    let mut buf = Vec::new();
    buf.extend(le32(0));
    buf.extend(le16(0));
    buf.extend(le16(1));
    buf.extend(le16(0xD800));
    buf.extend(le16(0));
    let mut cache = StringCache::new();
    assert_eq!(cache.resolve(&buf, 0), Err(TokenError::MalformedString));
}

#[test]
fn a_surrogate_pair_is_one_character() {
    let mut buf = Vec::new();
    buf.extend(name_entry("a\u{1F600}b"));
    let mut cache = StringCache::new();
    assert_eq!(cache.resolve(&buf, 0).unwrap().text, "a\u{1F600}b");
}

// ---------------------------------------------------------------------------
// Token errors
// ---------------------------------------------------------------------------

#[test]
fn a_value_that_leaves_the_chunk_is_an_unexpected_end() {
    let e = token_error(|c| {
        c.open("Event", 0x02);
        c.put(&[0x05, 0x01]);
        c.put(&le16(0xFFFF));
    });
    assert_eq!(e, TokenError::UnexpectedEof);
}

#[test]
fn a_stream_that_leaves_its_record_is_an_unexpected_end() {
    let mut c = ChunkBuilder::new();
    let r = c.begin_record(7);
    c.open("Event", 0x02);
    // The text is as long as makes the record 0x4004 bytes: the copy of the size then reads as
    // the end of the element and the end of the stream, which so stand behind the payload.
    c.text(&"x".repeat(8160));
    c.seal_record(r);
    assert_eq!(c.bytes.len() - r, 0x4004);
    let r = c.begin_record(8);
    c.open("Event", 0x03);
    c.end_record(r);
    let entries = decode_chunk(&c.finish(), 0, &ParserSettings::new());
    assert_eq!(entries.len(), 2);
    assert_eq!(entries[0], Err(EvtxError::Token(0, 7, TokenError::UnexpectedEof)));
    assert!(entries[1].is_ok());
}

#[test]
fn a_token_in_the_wrong_place_is_unexpected() {
    assert_eq!(token_error(|c| c.close()), TokenError::UnexpectedToken);
    assert_eq!(token_error(|c| c.text("stray")), TokenError::UnexpectedToken);
    assert_eq!(
        token_error(|c| {
            c.open("Event", 0x03);
            c.open("Second", 0x03);
        }),
        TokenError::UnexpectedToken
    );
}

#[test]
fn a_name_outside_the_chunk_is_a_malformed_string() {
    let e = token_error(|c| {
        c.put(&[0x01]);
        c.put(&le16(0));
        c.put(&le32(0));
        c.name_at(0xFFFF_FFF0);
        c.put(&[0x03]);
    });
    assert_eq!(e, TokenError::MalformedString);
}

#[test]
fn a_value_of_the_wrong_length_is_malformed() {
    let e = token_error(|c| {
        c.open("Event", 0x02);
        c.put(&[0x05, 0x13]);
        c.put(&le16(3));
        c.put(&[1, 0, 0]);
        c.close();
    });
    assert_eq!(e, TokenError::MalformedValue);
}

#[test]
fn an_unknown_value_type_is_unsupported() {
    let e = token_error(|c| {
        c.open("Event", 0x02);
        c.put(&[0x05, 0x21]);
        c.put(&le16(0));
        c.close();
    });
    assert_eq!(e, TokenError::UnsupportedValueType);
}

#[test]
fn nesting_beyond_the_limit_is_excessive() {
    let chunk = one_record(|c| {
        c.open("A", 0x02);
        c.open("B", 0x02);
        c.open("C", 0x03);
        c.close();
        c.close();
    });
    let deep = decode_chunk(&chunk, 0, &ParserSettings::new().max_nesting_depth(3));
    assert!(deep[0].is_ok());
    let shallow = decode_chunk(&chunk, 0, &ParserSettings::new().max_nesting_depth(2));
    assert_eq!(shallow, vec![Err(EvtxError::Token(0, 7, TokenError::ExcessiveNesting))]);
}

#[test]
fn a_placeholder_outside_a_template_is_unbound() {
    let e = token_error(|c| {
        c.open("Event", 0x02);
        c.sub(0, 0x01, false);
        c.close();
    });
    assert_eq!(e, TokenError::UnboundSubstitution);
    let e = token_error(|c| {
        c.open_with("Event", &[("k", Val::Sub(0, 0x01, true))], 0x03);
    });
    assert_eq!(e, TokenError::UnboundSubstitution);
}

#[test]
fn markers_are_recognized() {
    let chunk = one_record(|c| {
        c.open_with("Event", &[("k", Val::Text("v"))], 0x02);
        // A processing instruction: target and data.
        c.put(&[0x0a]);
        c.inline_name("xml-stylesheet");
        c.put(&[0x0b]);
        c.put(&le16(2));
        c.put(&utf16("ab"));
        // A comment.
        c.put(&[0x08]);
        c.put(&le16(4));
        c.put(&utf16("note"));
        // A CDATA section.
        c.put(&[0x07]);
        c.put(&le16(3));
        c.put(&utf16("x<y"));
        // A string by reference.
        c.put(&[0x09]);
        c.inline_name("named");
        // A number.
        c.put(&[0x05, 0x08]);
        c.put(&le32(42));
        c.close();
    });
    let entries = decode_chunk(&chunk, 0, &ParserSettings::new());
    assert_eq!(
        calls_of(&entries[0]),
        vec![
            Call::StartOfStream,
            open_attrs("Event", vec![("k", text_value("v"))]),
            chars("x<y"),
            chars("named"),
            chars("42"),
            Call::CloseElement,
            Call::EndOfStream,
        ]
    );
}

// ---------------------------------------------------------------------------
// Record framing
// ---------------------------------------------------------------------------

fn framing_error(spoil: impl FnOnce(&mut Vec<u8>)) -> Vec<RecordResult> {
    let mut data = simple_chunk(&[1, 2]);
    spoil(&mut data);
    decode_chunk(&data, 0, &ParserSettings::new())
}

#[test]
fn a_record_without_its_marker_ends_the_chunk() {
    let entries = framing_error(|d| d[512] = 0);
    assert_eq!(entries, vec![Err(EvtxError::Record(0, 512, RecordError::BadMagic))]);
}

#[test]
fn a_record_too_small_ends_the_chunk() {
    let entries = framing_error(|d| d[516..520].copy_from_slice(&27u32.to_le_bytes()));
    assert_eq!(entries, vec![Err(EvtxError::Record(0, 512, RecordError::BadSize))]);
}

#[test]
fn a_record_that_leaves_the_record_region_ends_the_chunk() {
    let entries = framing_error(|d| d[516..520].copy_from_slice(&60000u32.to_le_bytes()));
    assert_eq!(entries, vec![Err(EvtxError::Record(0, 512, RecordError::Truncated))]);
    let entries = framing_error(|d| {
        let free = u32::from_le_bytes(d[48..52].try_into().unwrap());
        d[48..52].copy_from_slice(&(free - 1).to_le_bytes());
    });
    assert_eq!(entries.len(), 2);
    assert!(entries[0].is_ok());
    assert!(matches!(entries[1], Err(EvtxError::Record(0, _, RecordError::Truncated))));
}

// ---------------------------------------------------------------------------
// Chunk and file headers
// ---------------------------------------------------------------------------

#[test]
fn a_chunk_region_of_the_wrong_size_is_refused() {
    let short = vec![0u8; 100];
    assert_eq!(
        decode_chunk(&short, 3, &ParserSettings::new()),
        vec![Err(EvtxError::ChunkHeader(3, ChunkError::Truncated))]
    );
    let mut long = simple_chunk(&[1]);
    long.push(0);
    assert_eq!(
        decode_chunk(&long, 3, &ParserSettings::new()),
        vec![Err(EvtxError::ChunkHeader(3, ChunkError::Oversized))]
    );
}

#[test]
fn a_file_that_ends_inside_a_chunk_keeps_what_is_there() {
    let mut file = file_of(vec![simple_chunk(&[1]), simple_chunk(&[2])]);
    file.truncate(4096 + CHUNK + 300);
    let entries = decode_file(&file, &ParserSettings::new());
    assert_eq!(entries.len(), 2);
    assert!(entries[0].is_ok());
    assert_eq!(entries[1], Err(EvtxError::ChunkHeader(1, ChunkError::Truncated)));
}

fn stamp_checksums(chunk: &mut Vec<u8>) {
    let free = u32::from_le_bytes(chunk[48..52].try_into().unwrap());
    let data = data_checksum(chunk, free);
    chunk[52..56].copy_from_slice(&data.to_le_bytes());
    let header = header_checksum(chunk);
    chunk[124..128].copy_from_slice(&header.to_le_bytes());
}

#[test]
fn checksums_count_only_when_they_are_validated() {
    let mut chunk = simple_chunk(&[1]);
    let lax = ParserSettings::new();
    let strict = ParserSettings::new().validate_checksums(true);
    assert!(decode_chunk(&chunk, 0, &lax)[0].is_ok());
    assert_eq!(
        decode_chunk(&chunk, 0, &strict),
        vec![Err(EvtxError::ChunkHeader(0, ChunkError::HeaderChecksumMismatch))]
    );
    stamp_checksums(&mut chunk);
    assert!(decode_chunk(&chunk, 0, &strict)[0].is_ok());
    // A change in the records spoils the data checksum only.
    chunk[560] ^= 1;
    assert_eq!(
        decode_chunk(&chunk, 0, &strict),
        vec![Err(EvtxError::ChunkHeader(0, ChunkError::DataChecksumMismatch))]
    );
    assert_eq!(decode_chunk(&chunk, 0, &lax).len(), 1);
}

#[test]
fn the_header_checksum_skips_its_own_field() {
    let chunk = simple_chunk(&[1]);
    let mut covered = chunk[..120].to_vec();
    covered.extend_from_slice(&chunk[128..512]);
    assert_eq!(header_checksum(&chunk), checksum(&covered, 0, covered.len()));
    let free = u32::from_le_bytes(chunk[48..52].try_into().unwrap());
    assert_eq!(data_checksum(&chunk, free), checksum(&chunk, 512, free as usize));
}

#[test]
fn a_bad_file_header_ends_the_parse() {
    let settings = ParserSettings::new();
    let short = vec![0u8; 4095];
    assert_eq!(
        decode_file(&short, &settings),
        vec![Err(EvtxError::FileHeader(FileHeaderError::Truncated))]
    );
    let mut file = file_of(vec![simple_chunk(&[1])]);
    file[7] = 1;
    assert_eq!(
        decode_file(&file, &settings),
        vec![Err(EvtxError::FileHeader(FileHeaderError::BadMagic))]
    );
    assert_eq!(
        EvtxParser::from_buffer(file, settings).err(),
        Some(EvtxError::FileHeader(FileHeaderError::BadMagic))
    );
}

#[test]
fn the_file_checksum_counts_only_when_it_is_validated() {
    let mut file = file_of(vec![simple_chunk(&[1])]);
    let strict = ParserSettings::new().validate_checksums(true);
    assert_eq!(
        decode_file(&file, &strict),
        vec![Err(EvtxError::FileHeader(FileHeaderError::ChecksumMismatch))]
    );
    let sum = checksum(&file, 0, 120);
    file[124..128].copy_from_slice(&sum.to_le_bytes());
    let mut chunk = file[4096..].to_vec();
    stamp_checksums(&mut chunk);
    file.truncate(4096);
    file.extend(chunk);
    let entries = decode_file(&file, &strict);
    assert_eq!(entries.len(), 1);
    assert!(entries[0].is_ok());
}

#[test]
fn a_file_without_chunks_has_no_entries() {
    let file = file_of(vec![]);
    assert_eq!(decode_file(&file, &ParserSettings::new()), vec![]);
}

#[test]
fn the_chunk_header_is_read_field_by_field() {
    let mut data = simple_chunk(&[1]);
    data[8..16].copy_from_slice(&11u64.to_le_bytes());
    data[16..24].copy_from_slice(&12u64.to_le_bytes());
    data[24..32].copy_from_slice(&13u64.to_le_bytes());
    data[32..40].copy_from_slice(&14u64.to_le_bytes());
    data[40..44].copy_from_slice(&128u32.to_le_bytes());
    data[44..48].copy_from_slice(&512u32.to_le_bytes());
    data[120..124].copy_from_slice(&9u32.to_le_bytes());
    data[128..132].copy_from_slice(&0x0102_0304u32.to_le_bytes());
    data[384 + 31 * 4..512].copy_from_slice(&0x0506_0708u32.to_le_bytes());
    let chunk = EvtxChunk::new(&data, 5, &ParserSettings::new()).unwrap();
    let h = chunk.get_header();
    assert_eq!(
        (h.first_record_number, h.last_record_number, h.first_record_id, h.last_record_id),
        (11, 12, 13, 14)
    );
    assert_eq!((h.header_size, h.last_record_offset, h.flags), (128, 512, 9));
    assert_eq!(h.string_buckets.len(), 64);
    assert_eq!(h.template_buckets.len(), 32);
    assert_eq!(h.string_buckets[0], 0x0102_0304);
    assert_eq!(h.template_buckets[31], 0x0506_0708);
}

// ---------------------------------------------------------------------------
// Output
// ---------------------------------------------------------------------------

#[test]
fn a_record_replays_its_calls_on_a_visitor() {
    let data = simple_chunk(&[1]);
    let entries = decode_chunk(&data, 0, &ParserSettings::new());
    let record = entries[0].as_ref().unwrap();
    let mut recorder = Recorder::new();
    recorder.visit_start_of_stream();
    record.accept(&mut recorder);
    let mut expected = vec![Call::StartOfStream];
    expected.extend(record.calls.clone());
    assert_eq!(recorder.calls, expected);
}

#[test]
fn what_is_decoded_survives_a_pass_through_xml_text() {
    let chunk = one_record(|c| {
        c.open_with("Event", &[("xmlns", Val::Text("urn:events")), ("n", Val::Text("1"))], 0x02);
        c.open("System", 0x02);
        c.open_with("Provider", &[("Name", Val::Text("Service Control"))], 0x03);
        c.open("EventID", 0x02);
        c.text("7036");
        c.close();
        c.close();
        c.open("Data", 0x03);
        c.close();
    });
    let entries = decode_chunk(&chunk, 0, &ParserSettings::new());
    let record = entries[0].as_ref().unwrap();
    let mut out = XmlOutput::new();
    record.accept(&mut out);
    let xml = out.into_string();
    assert_eq!(
        xml,
        "<Event xmlns=\"urn:events\" n=\"1\"><System><Provider Name=\"Service Control\">\
         </Provider><EventID>7036</EventID></System><Data></Data></Event>"
    );
    let back = xml_to_calls(xml.as_bytes()).unwrap();
    assert_eq!(back, record.calls);
}

#[test]
fn an_error_is_described_in_a_line() {
    assert_eq!(
        EvtxError::FileHeader(FileHeaderError::BadMagic).describe(),
        "file header: bad magic"
    );
    assert_eq!(
        EvtxError::ChunkHeader(3, ChunkError::DataChecksumMismatch).describe(),
        "chunk 3: header: data checksum mismatch"
    );
    assert_eq!(
        EvtxError::Record(0, 512, RecordError::SizeMismatch).describe(),
        "chunk 0: record at offset 512: size mismatch"
    );
    assert_eq!(
        EvtxError::Token(12, 18446744073709551615, TokenError::CyclicTemplate).describe(),
        "chunk 12: record 18446744073709551615: cyclic template"
    );
    assert_eq!(TokenError::UnexpectedEof.as_str(), "unexpected end of data");
    assert_eq!(TokenError::UnboundSubstitution.as_str(), "unbound substitution");
    assert_eq!(ChunkError::Oversized.as_str(), "oversized");
    assert_eq!(RecordError::BadSize.as_str(), "bad size");
    assert_eq!(FileHeaderError::Truncated.as_str(), "truncated");
}
