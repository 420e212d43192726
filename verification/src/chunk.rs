//! Chunks: the chunk header, and the iteration over a chunk's records.
//!
//! A chunk owns the string cache and the template cache that its records
//! share; both start empty with the chunk and end with it.

use vstd::prelude::*;
use crate::crc::{crc32, crc_feed, checksum, lemma_crc_concat};
use crate::err::{ChunkError, EvtxError};
use crate::grammar::Env;
use crate::reader::{in_bounds, le_u32, le_u64, read_u32, read_u64, lemma_buf_len};
use crate::record::{
    EvtxRecord, RecordResult, Entry, entry_view, records_from, read_record_header, decode_payload,
};
use crate::settings::ParserSettings;
use crate::string_cache::StringCache;
use crate::template_cache::TemplateCache;

verus! {

/// The size of a chunk in bytes.
pub const CHUNK_SIZE: usize = 65536;

/// The size of a chunk's header, which the records follow.
pub const CHUNK_HEADER_SIZE: usize = 512;

/// The number of hash buckets of a chunk's string table.
pub const STRING_BUCKETS: usize = 64;

/// The number of hash buckets of a chunk's template table.
pub const TEMPLATE_BUCKETS: usize = 32;

/// The header of a chunk.
#[derive(Debug, PartialEq, Eq)]
pub struct EvtxChunkHeader {
    pub first_record_number: u64,
    pub last_record_number: u64,
    pub first_record_id: u64,
    pub last_record_id: u64,
    pub header_size: u32,
    /// The offset of the last record.
    pub last_record_offset: u32,
    /// The offset at which the records end.
    pub free_space_offset: u32,
    /// The CRC-32 of the record region.
    pub data_checksum: u32,
    pub flags: u32,
    /// The CRC-32 of the header without this field and the four bytes in
    /// front of it.
    pub header_checksum: u32,
    /// For each bucket of the string table, the offset of its first entry.
    pub string_buckets: Vec<u32>,
    /// For each bucket of the template table, the offset of its first
    /// definition.
    pub template_buckets: Vec<u32>,
}

/// What an [`EvtxChunkHeader`] holds.
pub struct ChunkHeaderModel {
    pub first_record_number: u64,
    pub last_record_number: u64,
    pub first_record_id: u64,
    pub last_record_id: u64,
    pub header_size: u32,
    pub last_record_offset: u32,
    pub free_space_offset: u32,
    pub data_checksum: u32,
    pub flags: u32,
    pub header_checksum: u32,
    pub string_buckets: Seq<u32>,
    pub template_buckets: Seq<u32>,
}

impl View for EvtxChunkHeader {
    type V = ChunkHeaderModel;

    open spec fn view(&self) -> ChunkHeaderModel {
        ChunkHeaderModel {
            first_record_number: self.first_record_number,
            last_record_number: self.last_record_number,
            first_record_id: self.first_record_id,
            last_record_id: self.last_record_id,
            header_size: self.header_size,
            last_record_offset: self.last_record_offset,
            free_space_offset: self.free_space_offset,
            data_checksum: self.data_checksum,
            flags: self.flags,
            header_checksum: self.header_checksum,
            string_buckets: self.string_buckets@,
            template_buckets: self.template_buckets@,
        }
    }
}

/// The chunk starts with `ElfChnk` and a zero byte.
pub open spec fn chunk_magic(buf: Seq<u8>) -> bool {
    buf[0] == 0x45 && buf[1] == 0x6c && buf[2] == 0x66 && buf[3] == 0x43 && buf[4] == 0x68 && buf[5]
        == 0x6e && buf[6] == 0x6b && buf[7] == 0
}

/// The `n` 32-bit offsets stored from `pos` on.
pub open spec fn table_at(buf: Seq<u8>, pos: int, n: nat) -> Seq<u32> {
    Seq::new(n, |k: int| le_u32(buf, pos + 4 * k) as u32)
}

/// The header of the chunk `buf`.
pub open spec fn chunk_header_at(buf: Seq<u8>) -> Result<ChunkHeaderModel, ChunkError> {
    if buf.len() < 512 {
        Err(ChunkError::Truncated)
    } else if buf.len() > 65536 {
        Err(ChunkError::Oversized)
    } else if !chunk_magic(buf) {
        Err(ChunkError::BadMagic)
    } else {
        Ok(
            ChunkHeaderModel {
                first_record_number: le_u64(buf, 8) as u64,
                last_record_number: le_u64(buf, 16) as u64,
                first_record_id: le_u64(buf, 24) as u64,
                last_record_id: le_u64(buf, 32) as u64,
                header_size: le_u32(buf, 40) as u32,
                last_record_offset: le_u32(buf, 44) as u32,
                free_space_offset: le_u32(buf, 48) as u32,
                data_checksum: le_u32(buf, 52) as u32,
                flags: le_u32(buf, 120) as u32,
                header_checksum: le_u32(buf, 124) as u32,
                string_buckets: table_at(buf, 128, 64),
                template_buckets: table_at(buf, 384, 32),
            },
        )
    }
}

/// The checksum that a chunk's header should carry: the CRC-32 of its first
/// 120 bytes and of its bytes from 128 up to 512.
pub open spec fn header_checksum_of(buf: Seq<u8>) -> u32 {
    crc32(buf.subrange(0, 120) + buf.subrange(128, 512))
}

/// Where the records of a chunk end: at the offset that the header gives,
/// or, where that lies outside the chunk, at the chunk's end.
pub open spec fn records_end(buf: Seq<u8>, free_space_offset: u32) -> int {
    if 512 <= free_space_offset <= buf.len() {
        free_space_offset as int
    } else {
        buf.len() as int
    }
}

/// The checksum that a chunk's header should carry for its records: the
/// CRC-32 of the record region.
pub open spec fn data_checksum_of(buf: Seq<u8>, free_space_offset: u32) -> u32 {
    crc32(buf.subrange(512, records_end(buf, free_space_offset)))
}

/// The header of the chunk `buf` with index `chunk`, or why the chunk is
/// unusable. The checksums count only when they are validated.
pub open spec fn chunk_open(buf: Seq<u8>, chunk: u64, validate: bool) -> Result<
    ChunkHeaderModel,
    EvtxError,
> {
    match chunk_header_at(buf) {
        Err(k) => Err(EvtxError::ChunkHeader(chunk, k)),
        Ok(h) => if validate && header_checksum_of(buf) != h.header_checksum {
            Err(EvtxError::ChunkHeader(chunk, ChunkError::HeaderChecksumMismatch))
        } else if validate && data_checksum_of(buf, h.free_space_offset) != h.data_checksum {
            Err(EvtxError::ChunkHeader(chunk, ChunkError::DataChecksumMismatch))
        } else {
            Ok(h)
        },
    }
}

/// The entries of the chunk `buf` with index `chunk`: one error entry where
/// the chunk is unusable, the entries of its records otherwise.
pub open spec fn chunk_records(buf: Seq<u8>, chunk: u64, validate: bool, max_depth: nat) -> Seq<
    Entry,
> {
    match chunk_open(buf, chunk, validate) {
        Err(e) => seq![Err(e)],
        Ok(h) => records_from(
            Env { buf: buf, max_depth: max_depth },
            chunk,
            512,
            records_end(buf, h.free_space_offset),
        ),
    }
}

fn read_table(buf: &[u8], pos: usize, n: usize) -> (r: Vec<u32>)
    requires
        in_bounds(buf@, pos as int, 4 * n),
    ensures
        r@ == table_at(buf@, pos as int, n as nat),
{
    proof {
        lemma_buf_len(buf);
    }
    let mut out: Vec<u32> = Vec::new();
    let mut k: usize = 0;
    while k < n
        invariant
            k <= n,
            in_bounds(buf@, pos as int, 4 * n),
            buf@.len() <= usize::MAX,
            out.len() == k,
            forall|j: int| 0 <= j < k ==> out[j] == le_u32(buf@, pos + 4 * j) as u32,
        decreases n - k,
    {
        out.push(read_u32(buf, pos + 4 * k).unwrap());
        k = k + 1;
    }
    assert(out@ =~= table_at(buf@, pos as int, n as nat));
    out
}

/// Reads the header of a chunk.
pub fn read_chunk_header(buf: &[u8]) -> (r: Result<EvtxChunkHeader, ChunkError>)
    ensures
        match r {
            Ok(h) => chunk_header_at(buf@) == Ok::<ChunkHeaderModel, ChunkError>(h@),
            Err(e) => chunk_header_at(buf@) == Err::<ChunkHeaderModel, ChunkError>(e),
        },
{
    if buf.len() < CHUNK_HEADER_SIZE {
        return Err(ChunkError::Truncated);
    }
    if buf.len() > CHUNK_SIZE {
        return Err(ChunkError::Oversized);
    }
    if !(buf[0] == 0x45 && buf[1] == 0x6c && buf[2] == 0x66 && buf[3] == 0x43 && buf[4] == 0x68
        && buf[5] == 0x6e && buf[6] == 0x6b && buf[7] == 0) {
        return Err(ChunkError::BadMagic);
    }
    Ok(
        EvtxChunkHeader {
            first_record_number: read_u64(buf, 8).unwrap(),
            last_record_number: read_u64(buf, 16).unwrap(),
            first_record_id: read_u64(buf, 24).unwrap(),
            last_record_id: read_u64(buf, 32).unwrap(),
            header_size: read_u32(buf, 40).unwrap(),
            last_record_offset: read_u32(buf, 44).unwrap(),
            free_space_offset: read_u32(buf, 48).unwrap(),
            data_checksum: read_u32(buf, 52).unwrap(),
            flags: read_u32(buf, 120).unwrap(),
            header_checksum: read_u32(buf, 124).unwrap(),
            string_buckets: read_table(buf, 128, STRING_BUCKETS),
            template_buckets: read_table(buf, 384, TEMPLATE_BUCKETS),
        },
    )
}

/// Computes the checksum that the header of the chunk should carry.
pub fn header_checksum(buf: &[u8]) -> (r: u32)
    requires
        buf@.len() >= 512,
    ensures
        r == header_checksum_of(buf@),
{
    proof {
        lemma_crc_concat(0xFFFF_FFFF, buf@.subrange(0, 120), buf@.subrange(128, 512));
    }
    let first: u32 = crc_feed(0xFFFF_FFFF, buf, 0, 120);
    crc_feed(first, buf, 128, 512) ^ 0xFFFF_FFFF
}

/// Where the records of the chunk end.
pub fn end_of_records(buf: &[u8], free_space_offset: u32) -> (r: usize)
    ensures
        r == records_end(buf@, free_space_offset),
        r <= buf@.len(),
{
    if 512 <= free_space_offset && free_space_offset as usize <= buf.len() {
        free_space_offset as usize
    } else {
        buf.len()
    }
}

/// Computes the checksum that the header of the chunk should carry for its
/// records.
pub fn data_checksum(buf: &[u8], free_space_offset: u32) -> (r: u32)
    requires
        buf@.len() >= 512,
    ensures
        r == data_checksum_of(buf@, free_space_offset),
{
    checksum(buf, CHUNK_HEADER_SIZE, end_of_records(buf, free_space_offset))
}

/// A chunk whose records are being read, with the caches that they share.
pub struct EvtxChunk<'a> {
    data: &'a [u8],
    index: u64,
    header: EvtxChunkHeader,
    strings: StringCache,
    templates: TemplateCache,
    pos: usize,
    end: usize,
    abandoned: bool,
}

impl<'a> EvtxChunk<'a> {
    /// The chunk's bytes.
    pub closed spec fn bytes(&self) -> Seq<u8> {
        self.data@
    }

    /// The chunk's index in its file.
    pub closed spec fn index(&self) -> u64 {
        self.index
    }

    /// The greatest depth to which elements may nest.
    pub closed spec fn depth_limit(&self) -> nat {
        self.templates.depth_limit()
    }

    /// The chunk's header.
    pub closed spec fn header(&self) -> ChunkHeaderModel {
        self.header@
    }

    /// The strings decoded so far.
    pub closed spec fn strings(&self) -> StringCache {
        self.strings
    }

    /// The templates parsed so far.
    pub closed spec fn templates(&self) -> TemplateCache {
        self.templates
    }

    /// What decoding in this chunk depends on.
    pub open spec fn env(&self) -> Env {
        Env { buf: self.bytes(), max_depth: self.depth_limit() }
    }

    /// The caches are sound for the chunk's bytes, and the position is that
    /// of a record or of the records' end.
    pub closed spec fn wf(&self) -> bool {
        &&& self.strings.wf(self.data@)
        &&& self.templates.wf(self.data@)
        &&& self.templates.idle()
        &&& chunk_header_at(self.data@) == Ok::<ChunkHeaderModel, ChunkError>(self.header@)
        &&& self.end == records_end(self.data@, self.header.free_space_offset)
        &&& 512 <= self.pos
    }

    /// The entries that are still to come, in order.
    pub closed spec fn remaining(&self) -> Seq<Entry> {
        if self.abandoned {
            Seq::empty()
        } else {
            records_from(self.env(), self.index, self.pos as int, self.end as int)
        }
    }

    /// Opens the chunk `data`, which is the chunk with index `index` of its
    /// file: reads its header and, where the settings ask for it, validates
    /// both checksums.
    pub fn new(data: &'a [u8], index: u64, settings: &ParserSettings) -> (r: Result<
        EvtxChunk<'a>,
        EvtxError,
    >)
        ensures
            match r {
                Ok(c) => c.wf() && c.bytes() == data@ && c.index() == index && c.depth_limit()
                    == settings.max_nesting_depth && chunk_open(
                    data@,
                    index,
                    settings.validate_checksums,
                ) == Ok::<ChunkHeaderModel, EvtxError>(c.header()) && c.remaining()
                    == chunk_records(
                    data@,
                    index,
                    settings.validate_checksums,
                    settings.max_nesting_depth as nat,
                ),
                Err(e) => chunk_open(data@, index, settings.validate_checksums) == Err::<
                    ChunkHeaderModel,
                    EvtxError,
                >(e),
            },
    {
        let header: EvtxChunkHeader = match read_chunk_header(data) {
            Ok(h) => h,
            Err(k) => {
                return Err(EvtxError::ChunkHeader(index, k));
            },
        };
        if settings.validate_checksums {
            if header_checksum(data) != header.header_checksum {
                return Err(EvtxError::ChunkHeader(index, ChunkError::HeaderChecksumMismatch));
            }
            if data_checksum(data, header.free_space_offset) != header.data_checksum {
                return Err(EvtxError::ChunkHeader(index, ChunkError::DataChecksumMismatch));
            }
        }
        let end: usize = end_of_records(data, header.free_space_offset);
        Ok(
            EvtxChunk {
                data,
                index,
                header,
                strings: StringCache::new(),
                templates: TemplateCache::new(settings.max_nesting_depth),
                pos: CHUNK_HEADER_SIZE,
                end,
                abandoned: false,
            },
        )
    }

    /// The chunk's header.
    pub fn get_header(&self) -> (h: &EvtxChunkHeader)
        ensures
            h@ == self.header(),
    {
        &self.header
    }

    /// The chunk's string cache.
    pub fn string_cache(&self) -> (c: &StringCache)
        requires
            self.wf(),
        ensures
            *c == self.strings(),
            c.wf(self.bytes()),
    {
        &self.strings
    }

    /// The chunk's template cache.
    pub fn template_cache(&self) -> (c: &TemplateCache)
        requires
            self.wf(),
        ensures
            *c == self.templates(),
            c.wf(self.bytes()),
            c.idle(),
            c.depth_limit() == self.depth_limit(),
    {
        &self.templates
    }

    /// The next entry of the chunk, if there is one: the next record, or the
    /// error that took its place. After an error of the record framing no
    /// entry follows.
    pub fn next_record(&mut self) -> (r: Option<RecordResult>)
        requires
            old(self).wf(),
        ensures
            final(self).wf(),
            final(self).bytes() == old(self).bytes(),
            final(self).index() == old(self).index(),
            final(self).depth_limit() == old(self).depth_limit(),
            final(self).header() == old(self).header(),
            final(self).templates().extends(&old(self).templates()),
            final(self).strings().extends(&old(self).strings()),
            match r {
                Some(x) => old(self).remaining().len() > 0
                    && entry_view(x) == old(self).remaining()[0]
                    && final(self).remaining() == old(self).remaining().skip(1),
                None => old(self).remaining().len() == 0 && final(self).remaining().len() == 0,
            },
    {
        if self.abandoned || self.pos >= self.end {
            return None;
        }
        let ghost env = self.env();
        let pos: usize = self.pos;
        match read_record_header(self.data, pos, self.end) {
            Err(k) => {
                self.abandoned = true;
                let e = EvtxError::Record(self.index, pos as u32, k);
                assert(old(self).remaining().skip(1) =~= Seq::<Entry>::empty());
                Some(Err(e))
            },
            Ok(h) => {
                let size: usize = h.size as usize;
                let decoded = decode_payload(
                    self.data,
                    pos,
                    size,
                    &mut self.strings,
                    &mut self.templates,
                );
                self.pos = pos + size;
                assert(old(self).remaining().skip(1) =~= records_from(
                    env,
                    self.index,
                    pos + size,
                    self.end as int,
                ));
                match decoded {
                    Ok(calls) => Some(
                        Ok(
                            EvtxRecord {
                                chunk: self.index,
                                offset: pos as u32,
                                id: h.id,
                                timestamp: h.timestamp,
                                calls,
                            },
                        ),
                    ),
                    Err(e) => Some(Err(EvtxError::Token(self.index, h.id, e))),
                }
            },
        }
    }
}

} // verus!
