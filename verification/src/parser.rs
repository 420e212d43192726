//! The parser: the file header, the enumeration of chunks, and the sequence
//! of entries of a whole file, in file order.

use vstd::prelude::*;
use vstd::slice::slice_subrange;
use std::collections::VecDeque;
use crate::chunk::{EvtxChunk, chunk_records, CHUNK_SIZE};
use crate::crc::{crc32, checksum};
use crate::err::{EvtxError, FileHeaderError};
use crate::reader::{le_u16, le_u32, le_u64, read_u16, read_u32, read_u64, lemma_buf_len};
use crate::record::{RecordModel, RecordResult, Entry, entry_view, entries_view};
use crate::settings::ParserSettings;

verus! {

/// The size of the file header, which the chunks follow.
pub const FILE_HEADER_SIZE: usize = 4096;

/// The header of a file.
#[derive(Debug, Clone, Copy, PartialEq, Eq, Structural)]
pub struct FileHeader {
    pub first_chunk_number: u64,
    pub last_chunk_number: u64,
    pub next_record_id: u64,
    pub header_size: u32,
    pub minor_version: u16,
    pub major_version: u16,
    pub header_block_size: u16,
    /// The number of chunks that the header declares.
    pub chunk_count: u16,
    pub flags: u32,
    /// The CRC-32 of the first 120 bytes.
    pub checksum: u32,
}

/// The file starts with `ElfFile` and a zero byte.
pub open spec fn file_magic(buf: Seq<u8>) -> bool {
    buf[0] == 0x45 && buf[1] == 0x6c && buf[2] == 0x66 && buf[3] == 0x46 && buf[4] == 0x69 && buf[5]
        == 0x6c && buf[6] == 0x65 && buf[7] == 0
}

/// The header of the file `buf`. The checksum counts only when it is
/// validated.
pub open spec fn file_header_at(buf: Seq<u8>, validate: bool) -> Result<
    FileHeader,
    FileHeaderError,
> {
    if buf.len() < 4096 {
        Err(FileHeaderError::Truncated)
    } else if !file_magic(buf) {
        Err(FileHeaderError::BadMagic)
    } else if validate && crc32(buf.subrange(0, 120)) != le_u32(buf, 124) as u32 {
        Err(FileHeaderError::ChecksumMismatch)
    } else {
        Ok(
            FileHeader {
                first_chunk_number: le_u64(buf, 8) as u64,
                last_chunk_number: le_u64(buf, 16) as u64,
                next_record_id: le_u64(buf, 24) as u64,
                header_size: le_u32(buf, 32) as u32,
                minor_version: le_u16(buf, 36) as u16,
                major_version: le_u16(buf, 38) as u16,
                header_block_size: le_u16(buf, 40) as u16,
                chunk_count: le_u16(buf, 42) as u16,
                flags: le_u32(buf, 120) as u32,
                checksum: le_u32(buf, 124) as u32,
            },
        )
    }
}

/// Reads and validates the header of a file.
pub fn read_file_header(buf: &[u8], validate: bool) -> (r: Result<FileHeader, FileHeaderError>)
    ensures
        r == file_header_at(buf@, validate),
{
    if buf.len() < FILE_HEADER_SIZE {
        return Err(FileHeaderError::Truncated);
    }
    if !(buf[0] == 0x45 && buf[1] == 0x6c && buf[2] == 0x66 && buf[3] == 0x46 && buf[4] == 0x69
        && buf[5] == 0x6c && buf[6] == 0x65 && buf[7] == 0) {
        return Err(FileHeaderError::BadMagic);
    }
    let stored: u32 = read_u32(buf, 124).unwrap();
    if validate && checksum(buf, 0, 120) != stored {
        return Err(FileHeaderError::ChecksumMismatch);
    }
    Ok(
        FileHeader {
            first_chunk_number: read_u64(buf, 8).unwrap(),
            last_chunk_number: read_u64(buf, 16).unwrap(),
            next_record_id: read_u64(buf, 24).unwrap(),
            header_size: read_u32(buf, 32).unwrap(),
            minor_version: read_u16(buf, 36).unwrap(),
            major_version: read_u16(buf, 38).unwrap(),
            header_block_size: read_u16(buf, 40).unwrap(),
            chunk_count: read_u16(buf, 42).unwrap(),
            flags: read_u32(buf, 120).unwrap(),
            checksum: stored,
        },
    )
}

/// The number of chunk regions in a file of `len` bytes: the file header is
/// followed by chunks of the fixed size, of which the last may be cut short.
pub open spec fn chunk_count(len: int) -> int {
    if len <= 4096 {
        0
    } else {
        (len - 4096 + 65535) / 65536
    }
}

/// The offset in the file at which the chunk with index `i` starts.
pub open spec fn chunk_start(i: int) -> int {
    4096 + 65536 * i
}

/// The bytes of the chunk with index `i`.
pub open spec fn chunk_bytes(file: Seq<u8>, i: int) -> Seq<u8> {
    file.subrange(
        chunk_start(i),
        if chunk_start(i + 1) <= file.len() {
            chunk_start(i + 1)
        } else {
            file.len() as int
        },
    )
}

/// The entries of the chunks with indices from `i` up to `n`, chunk after
/// chunk.
pub open spec fn chunks_from(file: Seq<u8>, validate: bool, max_depth: nat, i: int, n: int) -> Seq<
    Entry,
>
    decreases n - i,
{
    if i >= n {
        Seq::empty()
    } else {
        chunk_records(chunk_bytes(file, i), i as u64, validate, max_depth) + chunks_from(
            file,
            validate,
            max_depth,
            i + 1,
            n,
        )
    }
}

/// The entries of a whole file, in file order: one error entry where the
/// file header is unusable, the entries of all chunks otherwise. The degree
/// of parallelism has no part in it.
pub open spec fn file_records(file: Seq<u8>, settings: ParserSettings) -> Seq<Entry> {
    match file_header_at(file, settings.validate_checksums) {
        Err(k) => seq![Err(EvtxError::FileHeader(k))],
        Ok(_) => chunks_from(
            file,
            settings.validate_checksums,
            settings.max_nesting_depth as nat,
            0,
            chunk_count(file.len() as int),
        ),
    }
}

/// The number of chunk regions in a file of `len` bytes.
pub fn count_chunks(len: usize) -> (n: usize)
    ensures
        n == chunk_count(len as int),
{
    if len <= FILE_HEADER_SIZE {
        0
    } else {
        let body: usize = len - FILE_HEADER_SIZE;
        if body % CHUNK_SIZE == 0 {
            body / CHUNK_SIZE
        } else {
            body / CHUNK_SIZE + 1
        }
    }
}

/// The bytes of the chunk with index `i`.
pub fn chunk_slice<'a>(file: &'a [u8], i: usize) -> (r: &'a [u8])
    requires
        i < chunk_count(file@.len() as int),
    ensures
        r@ == chunk_bytes(file@, i as int),
{
    proof {
        lemma_buf_len(file);
    }
    let start: usize = FILE_HEADER_SIZE + CHUNK_SIZE * i;
    let end: usize = if file.len() - start >= CHUNK_SIZE {
        start + CHUNK_SIZE
    } else {
        file.len()
    };
    slice_subrange(file, start, end)
}

/// The views of a list of entries, taken together, are the views of its
/// parts.
pub proof fn lemma_entries_concat(a: Seq<RecordResult>, b: Seq<RecordResult>)
    ensures
        entries_view(a + b) == entries_view(a) + entries_view(b),
{
    assert(entries_view(a + b) =~= entries_view(a) + entries_view(b));
}

/// The view of a list with one more entry.
pub proof fn lemma_entries_push(a: Seq<RecordResult>, x: RecordResult)
    ensures
        entries_view(a.push(x)) == entries_view(a).push(entry_view(x)),
{
    assert(entries_view(a.push(x)) =~= entries_view(a).push(entry_view(x)));
}

/// Decodes a whole chunk: all its entries, in file order.
pub fn decode_chunk(data: &[u8], index: u64, settings: &ParserSettings) -> (r: Vec<RecordResult>)
    ensures
        entries_view(r@) == chunk_records(
            data@,
            index,
            settings.validate_checksums,
            settings.max_nesting_depth as nat,
        ),
{
    let mut out: Vec<RecordResult> = Vec::new();
    let mut chunk: EvtxChunk = match EvtxChunk::new(data, index, settings) {
        Ok(c) => c,
        Err(e) => {
            out.push(Err(e));
            assert(entries_view(out@) =~= seq![Err::<RecordModel, EvtxError>(e)]);
            return out;
        },
    };
    let ghost all = chunk.remaining();
    assert(entries_view(out@) =~= Seq::<Entry>::empty());
    assert(entries_view(out@) + chunk.remaining() =~= all);
    loop
        invariant
            chunk.wf(),
            all == chunk_records(
                data@,
                index,
                settings.validate_checksums,
                settings.max_nesting_depth as nat,
            ),
            entries_view(out@) + chunk.remaining() == all,
        decreases chunk.remaining().len(),
    {
        let ghost before = out@;
        let ghost rest = chunk.remaining();
        match chunk.next_record() {
            None => {
                assert(entries_view(before) + rest =~= entries_view(before));
                return out;
            },
            Some(x) => {
                out.push(x);
                proof {
                    lemma_entries_push(before, x);
                    assert(entries_view(before).push(rest[0]) + rest.skip(1) =~= entries_view(
                        before,
                    ) + rest);
                }
            },
        }
    }
}

/// Decodes a whole file: all its entries, in file order. A file whose
/// header is unusable gives that one error. Chunks are decoded one after
/// the other, whatever degree of parallelism the settings name.
pub fn decode_file(file: &[u8], settings: &ParserSettings) -> (r: Vec<RecordResult>)
    ensures
        entries_view(r@) == file_records(file@, *settings),
{
    let mut out: Vec<RecordResult> = Vec::new();
    match read_file_header(file, settings.validate_checksums) {
        Err(k) => {
            out.push(Err(EvtxError::FileHeader(k)));
            assert(entries_view(out@) =~= seq![Err::<RecordModel, EvtxError>(EvtxError::FileHeader(k))]);
            return out;
        },
        Ok(_) => {},
    }
    let n: usize = count_chunks(file.len());
    let mut i: usize = 0;
    let ghost validate = settings.validate_checksums;
    let ghost depth = settings.max_nesting_depth as nat;
    assert(entries_view(out@) =~= Seq::<Entry>::empty());
    assert(entries_view(out@) + chunks_from(file@, validate, depth, 0, n as int) =~= chunks_from(
        file@,
        validate,
        depth,
        0,
        n as int,
    ));
    while i < n
        invariant
            i <= n,
            n == chunk_count(file@.len() as int),
            validate == settings.validate_checksums,
            depth == settings.max_nesting_depth as nat,
            entries_view(out@) + chunks_from(file@, validate, depth, i as int, n as int)
                == chunks_from(file@, validate, depth, 0, n as int),
        decreases n - i,
    {
        let ghost before = out@;
        let mut part: Vec<RecordResult> = decode_chunk(chunk_slice(file, i), i as u64, settings);
        let ghost added = part@;
        out.append(&mut part);
        proof {
            lemma_entries_concat(before, added);
            let rest = chunks_from(file@, validate, depth, i + 1, n as int);
            assert((entries_view(before) + entries_view(added)) + rest =~= entries_view(before) + (
            entries_view(added) + rest));
        }
        i = i + 1;
    }
    assert(entries_view(out@) + Seq::<Entry>::empty() =~= entries_view(out@));
    out
}

/// Turns a list into a queue that holds the same items in the same order.
fn into_queue(list: Vec<RecordResult>) -> (r: VecDeque<RecordResult>)
    ensures
        r@ == list@,
{
    let mut rest: Vec<RecordResult> = list;
    let mut queue: VecDeque<RecordResult> = VecDeque::new();
    assert(rest@ + queue@ =~= list@);
    loop
        invariant
            rest@ + queue@ == list@,
        decreases rest@.len(),
    {
        let ghost before = rest@;
        let ghost behind = queue@;
        match rest.pop() {
            None => {
                assert(before + behind =~= behind);
                return queue;
            },
            Some(x) => {
                queue.push_front(x);
                assert(rest@ + queue@ =~= before + behind);
            },
        }
    }
}

/// A parser over one file, from which the entries are pulled one by one. A
/// chunk is decoded when its first entry is asked for.
pub struct EvtxParser {
    data: Vec<u8>,
    settings: ParserSettings,
    header: FileHeader,
    next_chunk: usize,
    chunks: usize,
    buffered: VecDeque<RecordResult>,
}

impl EvtxParser {
    /// The file's bytes.
    pub closed spec fn file(&self) -> Seq<u8> {
        self.data@
    }

    /// The settings of the parse.
    pub closed spec fn settings(&self) -> ParserSettings {
        self.settings
    }

    /// The file's header is sound, and the chunks still to decode are chunks
    /// of the file.
    pub closed spec fn wf(&self) -> bool {
        &&& file_header_at(self.data@, self.settings.validate_checksums) == Ok::<
            FileHeader,
            FileHeaderError,
        >(self.header)
        &&& self.chunks == chunk_count(self.data@.len() as int)
        &&& self.next_chunk <= self.chunks
    }

    /// The entries that are still to come, in order.
    pub closed spec fn remaining(&self) -> Seq<Entry> {
        entries_view(self.buffered@) + chunks_from(
            self.data@,
            self.settings.validate_checksums,
            self.settings.max_nesting_depth as nat,
            self.next_chunk as int,
            self.chunks as int,
        )
    }

    /// A parser over the file `data`. The file header is read and validated
    /// here, once; a file whose header is unusable gives no parser.
    pub fn from_buffer(data: Vec<u8>, settings: ParserSettings) -> (r: Result<EvtxParser, EvtxError>)
        ensures
            match r {
                Ok(p) => p.wf() && p.file() == data@ && p.settings() == settings && p.remaining()
                    == file_records(data@, settings),
                Err(e) => file_records(data@, settings) == seq![Err::<RecordModel, EvtxError>(e)]
                    && e is FileHeader,
            },
    {
        let header: FileHeader = match read_file_header(
            data.as_slice(),
            settings.validate_checksums,
        ) {
            Ok(h) => h,
            Err(k) => {
                return Err(EvtxError::FileHeader(k));
            },
        };
        let chunks: usize = count_chunks(data.len());
        let p = EvtxParser {
            data,
            settings,
            header,
            next_chunk: 0,
            chunks,
            buffered: VecDeque::new(),
        };
        assert(entries_view(p.buffered@) =~= Seq::<Entry>::empty());
        assert(p.remaining() =~= file_records(p.data@, settings));
        Ok(p)
    }

    /// The file's header.
    pub fn header(&self) -> (h: FileHeader)
        requires
            self.wf(),
        ensures
            file_header_at(self.file(), self.settings().validate_checksums) == Ok::<
                FileHeader,
                FileHeaderError,
            >(h),
    {
        self.header
    }

    /// The next entry of the file, if there is one.
    pub fn next(&mut self) -> (r: Option<RecordResult>)
        requires
            old(self).wf(),
        ensures
            final(self).wf(),
            final(self).file() == old(self).file(),
            final(self).settings() == old(self).settings(),
            match r {
                Some(x) => old(self).remaining().len() > 0
                    && entry_view(x) == old(self).remaining()[0]
                    && final(self).remaining() == old(self).remaining().skip(1),
                None => old(self).remaining().len() == 0 && final(self).remaining().len() == 0,
            },
    {
        loop
            invariant
                self.wf(),
                self.file() == old(self).file(),
                self.settings() == old(self).settings(),
                self.remaining() == old(self).remaining(),
            decreases self.chunks - self.next_chunk,
        {
            let ghost rest = chunks_from(
                self.data@,
                self.settings.validate_checksums,
                self.settings.max_nesting_depth as nat,
                self.next_chunk as int,
                self.chunks as int,
            );
            let ghost queue = self.buffered@;
            match self.buffered.pop_front() {
                Some(x) => {
                    proof {
                        assert(entries_view(queue)[0] == entry_view(x));
                        assert((entries_view(queue) + rest).skip(1) =~= entries_view(
                            queue.skip(1),
                        ) + rest);
                        assert(self.buffered@ =~= queue.skip(1));
                    }
                    return Some(x);
                },
                None => {},
            }
            assert(entries_view(queue) =~= Seq::<Entry>::empty());
            if self.next_chunk >= self.chunks {
                return None;
            }
            let part: Vec<RecordResult> = decode_chunk(
                chunk_slice(self.data.as_slice(), self.next_chunk),
                self.next_chunk as u64,
                &self.settings,
            );
            self.buffered = into_queue(part);
            self.next_chunk = self.next_chunk + 1;
            assert(self.remaining() =~= old(self).remaining());
        }
    }

    /// All entries that are still to come, in order.
    pub fn records(&mut self) -> (r: Vec<RecordResult>)
        requires
            old(self).wf(),
        ensures
            final(self).wf(),
            final(self).file() == old(self).file(),
            final(self).settings() == old(self).settings(),
            entries_view(r@) == old(self).remaining(),
            final(self).remaining().len() == 0,
    {
        let mut out: Vec<RecordResult> = Vec::new();
        assert(entries_view(out@) + self.remaining() =~= self.remaining());
        loop
            invariant
                self.wf(),
                self.file() == old(self).file(),
                self.settings() == old(self).settings(),
                entries_view(out@) + self.remaining() == old(self).remaining(),
            decreases self.remaining().len(),
        {
            let ghost before = out@;
            let ghost rest = self.remaining();
            match self.next() {
                None => {
                    assert(entries_view(before) + rest =~= entries_view(before));
                    return out;
                },
                Some(x) => {
                    out.push(x);
                    proof {
                        lemma_entries_push(before, x);
                        assert(entries_view(before).push(rest[0]) + rest.skip(1) =~= entries_view(
                            before,
                        ) + rest);
                    }
                },
            }
        }
    }
}

} // verus!
