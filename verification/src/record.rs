//! Records: the framing of one record inside a chunk, and the decoding of
//! its payload.

use vstd::prelude::*;
use crate::decoder::decode_fragment;
use crate::err::{EvtxError, RecordError, TokenError};
use crate::grammar::{Env, fragment};
use crate::instantiate::emit_document;
use crate::model::{Call, CallModel, document, agrees_deep};
use crate::reader::{
    in_bounds, le_u32, le_u64, has_bytes, read_u32, read_u64, lemma_buf_len, lemma_le_ranges,
};
use crate::string_cache::StringCache;
use crate::template_cache::TemplateCache;

verus! {

/// The bytes of a record in front of its payload: a marker, the size, the
/// record's id and its timestamp.
pub const RECORD_HEADER_SIZE: usize = 24;

/// The smallest record: a header and the trailing copy of the size.
pub const RECORD_MIN_SIZE: usize = 28;

/// The header of a record.
#[derive(Debug, Clone, Copy, PartialEq, Eq, Structural)]
pub struct EvtxRecordHeader {
    /// The size of the whole record in bytes, as stored at its start.
    pub size: u32,
    /// The record's id.
    pub id: u64,
    /// The time the record was written, as a FILETIME.
    pub timestamp: u64,
}

/// The four bytes at `pos` are the record marker.
pub open spec fn record_magic(buf: Seq<u8>, pos: int) -> bool {
    buf[pos] == 0x2a && buf[pos + 1] == 0x2a && buf[pos + 2] == 0 && buf[pos + 3] == 0
}

/// The header of the record that starts at `pos`, in a record region that
/// ends at `end`. The record must lie inside the region, and the size stored
/// at its end must be the size stored at its start.
pub open spec fn record_header_at(buf: Seq<u8>, pos: int, end: int) -> Result<
    EvtxRecordHeader,
    RecordError,
> {
    if !in_bounds(buf, pos, 24) || end > buf.len() || pos + 24 > end {
        Err(RecordError::Truncated)
    } else if !record_magic(buf, pos) {
        Err(RecordError::BadMagic)
    } else if le_u32(buf, pos + 4) < 28 {
        Err(RecordError::BadSize)
    } else if pos + le_u32(buf, pos + 4) > end {
        Err(RecordError::Truncated)
    } else if le_u32(buf, pos + le_u32(buf, pos + 4) - 4) != le_u32(buf, pos + 4) {
        Err(RecordError::SizeMismatch)
    } else {
        Ok(
            EvtxRecordHeader {
                size: le_u32(buf, pos + 4) as u32,
                id: le_u64(buf, pos + 8) as u64,
                timestamp: le_u64(buf, pos + 16) as u64,
            },
        )
    }
}

/// Reads and validates the header of the record that starts at `pos`.
pub fn read_record_header(buf: &[u8], pos: usize, end: usize) -> (r: Result<
    EvtxRecordHeader,
    RecordError,
>)
    ensures
        r == record_header_at(buf@, pos as int, end as int),
{
    proof {
        lemma_buf_len(buf);
        lemma_le_ranges(buf@, pos + 4);
        lemma_le_ranges(buf@, pos + 8);
        lemma_le_ranges(buf@, pos + 16);
    }
    if !has_bytes(buf, pos, RECORD_HEADER_SIZE) || end > buf.len() || pos + RECORD_HEADER_SIZE > end {
        return Err(RecordError::Truncated);
    }
    if !(buf[pos] == 0x2a && buf[pos + 1] == 0x2a && buf[pos + 2] == 0 && buf[pos + 3] == 0) {
        return Err(RecordError::BadMagic);
    }
    let size: u32 = read_u32(buf, pos + 4).unwrap();
    if (size as usize) < RECORD_MIN_SIZE {
        return Err(RecordError::BadSize);
    }
    if size as usize > end - pos {
        return Err(RecordError::Truncated);
    }
    let tail: usize = pos + size as usize - 4;
    proof {
        lemma_le_ranges(buf@, tail as int);
    }
    let copy: u32 = read_u32(buf, tail).unwrap();
    if copy != size {
        return Err(RecordError::SizeMismatch);
    }
    Ok(
        EvtxRecordHeader {
            size,
            id: read_u64(buf, pos + 8).unwrap(),
            timestamp: read_u64(buf, pos + 16).unwrap(),
        },
    )
}

/// The visitor calls of the record of `size` bytes that starts at `pos`: its
/// payload is one token stream, which must end in front of the trailing copy
/// of the size.
pub open spec fn payload_calls(env: Env, pos: int, size: int) -> Result<
    Seq<CallModel>,
    TokenError,
> {
    match fragment(env, pos + 24) {
        Err(e) => Err(e),
        Ok((nodes, end)) => if end > pos + size - 4 {
            Err(TokenError::UnexpectedEof)
        } else {
            document(nodes)
        },
    }
}

/// Decodes the payload of the record of `size` bytes that starts at `pos`.
pub fn decode_payload(
    buf: &[u8],
    pos: usize,
    size: usize,
    strings: &mut StringCache,
    templates: &mut TemplateCache,
) -> (r: Result<Vec<Call>, TokenError>)
    requires
        old(strings).wf(buf@),
        old(templates).wf(buf@),
        old(templates).idle(),
        size >= 28,
        in_bounds(buf@, pos as int, size as int),
    ensures
        final(strings).wf(buf@),
        final(strings).extends(old(strings)),
        final(templates).wf(buf@),
        final(templates).idle(),
        final(templates).extends(old(templates)),
        agrees_deep(r, payload_calls(old(templates).env(buf@), pos as int, size as int)),
{
    proof {
        lemma_buf_len(buf);
    }
    match decode_fragment(buf, pos + RECORD_HEADER_SIZE, strings, templates) {
        Err(e) => Err(e),
        Ok((nodes, end)) => {
            if end > pos + size - 4 {
                Err(TokenError::UnexpectedEof)
            } else {
                emit_document(&nodes)
            }
        },
    }
}

/// One decoded record.
#[derive(Debug, PartialEq, Eq)]
pub struct EvtxRecord {
    /// The index of the chunk that holds the record.
    pub chunk: u64,
    /// The offset of the record within its chunk.
    pub offset: u32,
    /// The record's id.
    pub id: u64,
    /// The time the record was written, as a FILETIME.
    pub timestamp: u64,
    /// The visitor calls that the record's payload stands for.
    pub calls: Vec<Call>,
}

/// What an [`EvtxRecord`] holds.
pub struct RecordModel {
    pub chunk: u64,
    pub offset: u32,
    pub id: u64,
    pub timestamp: u64,
    pub calls: Seq<CallModel>,
}

impl View for EvtxRecord {
    type V = RecordModel;

    open spec fn view(&self) -> RecordModel {
        RecordModel {
            chunk: self.chunk,
            offset: self.offset,
            id: self.id,
            timestamp: self.timestamp,
            calls: self.calls.deep_view(),
        }
    }
}

/// One entry of the sequence that a caller sees: a record, or an error.
pub type RecordResult = Result<EvtxRecord, EvtxError>;

/// What an entry holds.
pub type Entry = Result<RecordModel, EvtxError>;

/// What an entry holds.
pub open spec fn entry_view(r: RecordResult) -> Entry {
    match r {
        Ok(rec) => Ok(rec@),
        Err(e) => Err(e),
    }
}

/// What a list of entries holds.
pub open spec fn entries_view(s: Seq<RecordResult>) -> Seq<Entry> {
    Seq::new(s.len(), |i: int| entry_view(s[i]))
}

/// The entry for the record with header `h` that starts at offset `pos` of
/// the chunk with index `chunk`: the record, or the error of its payload.
pub open spec fn record_at(env: Env, chunk: u64, pos: int, h: EvtxRecordHeader) -> Entry {
    match payload_calls(env, pos, h.size as int) {
        Ok(calls) => Ok(
            RecordModel {
                chunk: chunk,
                offset: pos as u32,
                id: h.id,
                timestamp: h.timestamp,
                calls: calls,
            },
        ),
        Err(e) => Err(EvtxError::Token(chunk, h.id, e)),
    }
}

/// The entries of the records from offset `pos` up to `end`, in file order.
///
/// A record whose payload cannot be decoded gives an error entry, and the
/// next record is found by the record's size. A record whose framing is
/// broken gives an error entry that is the last: where the next record
/// starts is then unknown.
pub open spec fn records_from(env: Env, chunk: u64, pos: int, end: int) -> Seq<Entry>
    decreases end - pos,
{
    if pos >= end {
        Seq::empty()
    } else {
        match record_header_at(env.buf, pos, end) {
            Err(k) => seq![Err(EvtxError::Record(chunk, pos as u32, k))],
            Ok(h) => seq![record_at(env, chunk, pos, h)] + records_from(
                env,
                chunk,
                pos + h.size,
                end,
            ),
        }
    }
}

} // verus!
