//! Error taxonomy, tagged by the stage at which a fault was found.

use vstd::prelude::*;
use vstd::string::StringExecFns;
use crate::text::{decimal, push_decimal};

verus! {

/// Faults found while decoding a BinXml token stream. Each abandons only the
/// record being decoded.
#[derive(Debug, Clone, Copy, PartialEq, Eq, Structural)]
pub enum TokenError {
    /// A read would go past the end of the chunk buffer.
    UnexpectedEof,
    /// The token tag is outside the recognized set.
    UnknownToken,
    /// A recognized token stands where the grammar does not allow it.
    UnexpectedToken,
    /// A string's declared length leaves the chunk, or its UTF-16 is invalid.
    MalformedString,
    /// A value's byte length does not fit its type.
    MalformedValue,
    /// The value type tag is not one this decoder knows.
    UnsupportedValueType,
    /// A template definition's body runs past its declared size.
    MalformedTemplate,
    /// A template was requested while its own definition was being resolved.
    CyclicTemplate,
    /// Elements are nested deeper than the configured maximum.
    ExcessiveNesting,
    /// A substitution value cannot be coerced to the placeholder's type.
    TypeMismatch,
    /// A placeholder's ordinal is outside the substitution array.
    MissingSubstitution,
    /// A placeholder occurs outside any template.
    UnboundSubstitution,
}

/// Faults of the file header. Each aborts the whole parse.
#[derive(Debug, Clone, Copy, PartialEq, Eq, Structural)]
pub enum FileHeaderError {
    /// The file is shorter than a file header.
    Truncated,
    /// The magic signature is not `ElfFile\0`.
    BadMagic,
    /// The header checksum does not match (only when checksums are validated).
    ChecksumMismatch,
}

/// Faults of a chunk header.
#[derive(Debug, Clone, Copy, PartialEq, Eq, Structural)]
pub enum ChunkError {
    /// The chunk region is shorter than a chunk header.
    Truncated,
    /// The chunk region is longer than a chunk.
    Oversized,
    /// The magic signature is not `ElfChnk\0`. The chunk is skipped.
    BadMagic,
    /// The header checksum does not match.
    HeaderChecksumMismatch,
    /// The checksum over the record region does not match.
    DataChecksumMismatch,
}

/// Faults of record framing. Each makes the rest of the chunk unreachable.
#[derive(Debug, Clone, Copy, PartialEq, Eq, Structural)]
pub enum RecordError {
    /// The record header or its declared extent leaves the chunk.
    Truncated,
    /// The record does not start with the record marker.
    BadMagic,
    /// The declared size is too small to hold a header and a trailer.
    BadSize,
    /// The sizes stored at the start and at the end of the record disagree.
    SizeMismatch,
}

/// An error as surfaced to the caller, with enough context to log and skip.
#[derive(Debug, Clone, Copy, PartialEq, Eq, Structural)]
pub enum EvtxError {
    /// The file header is unusable.
    FileHeader(FileHeaderError),
    /// The header of the chunk with this index is unusable.
    ChunkHeader(u64, ChunkError),
    /// In the chunk with this index, the record framing at this offset within
    /// the chunk is broken.
    Record(u64, u32, RecordError),
    /// In the chunk with this index, the payload of the record with this id
    /// could not be decoded.
    Token(u64, u64, TokenError),
}

impl EvtxError {
    /// True for errors after which no further record of the same chunk can be
    /// located.
    pub open spec fn abandons_chunk(self) -> bool {
        self is ChunkHeader || self is Record
    }

    /// True for errors after which nothing more of the file can be decoded.
    pub open spec fn abandons_file(self) -> bool {
        self is FileHeader
    }
}

impl TokenError {
    /// The fault in words.
    pub open spec fn words(self) -> Seq<char> {
        match self {
            TokenError::UnexpectedEof => "unexpected end of data"@,
            TokenError::UnknownToken => "unknown token"@,
            TokenError::UnexpectedToken => "unexpected token"@,
            TokenError::MalformedString => "malformed string"@,
            TokenError::MalformedValue => "malformed value"@,
            TokenError::UnsupportedValueType => "unsupported value type"@,
            TokenError::MalformedTemplate => "malformed template"@,
            TokenError::CyclicTemplate => "cyclic template"@,
            TokenError::ExcessiveNesting => "excessive nesting"@,
            TokenError::TypeMismatch => "type mismatch"@,
            TokenError::MissingSubstitution => "missing substitution"@,
            TokenError::UnboundSubstitution => "unbound substitution"@,
        }
    }

    /// The fault in words.
    pub fn as_str(&self) -> (r: &'static str)
        ensures
            r@ == self.words(),
    {
        match self {
            TokenError::UnexpectedEof => "unexpected end of data",
            TokenError::UnknownToken => "unknown token",
            TokenError::UnexpectedToken => "unexpected token",
            TokenError::MalformedString => "malformed string",
            TokenError::MalformedValue => "malformed value",
            TokenError::UnsupportedValueType => "unsupported value type",
            TokenError::MalformedTemplate => "malformed template",
            TokenError::CyclicTemplate => "cyclic template",
            TokenError::ExcessiveNesting => "excessive nesting",
            TokenError::TypeMismatch => "type mismatch",
            TokenError::MissingSubstitution => "missing substitution",
            TokenError::UnboundSubstitution => "unbound substitution",
        }
    }
}

impl FileHeaderError {
    /// The fault in words.
    pub open spec fn words(self) -> Seq<char> {
        match self {
            FileHeaderError::Truncated => "truncated"@,
            FileHeaderError::BadMagic => "bad magic"@,
            FileHeaderError::ChecksumMismatch => "checksum mismatch"@,
        }
    }

    /// The fault in words.
    pub fn as_str(&self) -> (r: &'static str)
        ensures
            r@ == self.words(),
    {
        match self {
            FileHeaderError::Truncated => "truncated",
            FileHeaderError::BadMagic => "bad magic",
            FileHeaderError::ChecksumMismatch => "checksum mismatch",
        }
    }
}

impl ChunkError {
    /// The fault in words.
    pub open spec fn words(self) -> Seq<char> {
        match self {
            ChunkError::Truncated => "truncated"@,
            ChunkError::Oversized => "oversized"@,
            ChunkError::BadMagic => "bad magic"@,
            ChunkError::HeaderChecksumMismatch => "header checksum mismatch"@,
            ChunkError::DataChecksumMismatch => "data checksum mismatch"@,
        }
    }

    /// The fault in words.
    pub fn as_str(&self) -> (r: &'static str)
        ensures
            r@ == self.words(),
    {
        match self {
            ChunkError::Truncated => "truncated",
            ChunkError::Oversized => "oversized",
            ChunkError::BadMagic => "bad magic",
            ChunkError::HeaderChecksumMismatch => "header checksum mismatch",
            ChunkError::DataChecksumMismatch => "data checksum mismatch",
        }
    }
}

impl RecordError {
    /// The fault in words.
    pub open spec fn words(self) -> Seq<char> {
        match self {
            RecordError::Truncated => "truncated"@,
            RecordError::BadMagic => "bad magic"@,
            RecordError::BadSize => "bad size"@,
            RecordError::SizeMismatch => "size mismatch"@,
        }
    }

    /// The fault in words.
    pub fn as_str(&self) -> (r: &'static str)
        ensures
            r@ == self.words(),
    {
        match self {
            RecordError::Truncated => "truncated",
            RecordError::BadMagic => "bad magic",
            RecordError::BadSize => "bad size",
            RecordError::SizeMismatch => "size mismatch",
        }
    }
}

/// A line that says what went wrong and where: the stage, the chunk's index
/// and the record's offset or id in decimal, and the fault in words.
pub open spec fn error_text(e: EvtxError) -> Seq<char> {
    match e {
        EvtxError::FileHeader(k) => "file header: "@ + k.words(),
        EvtxError::ChunkHeader(chunk, k) => "chunk "@ + decimal(chunk as nat) + ": header: "@
            + k.words(),
        EvtxError::Record(chunk, offset, k) => "chunk "@ + decimal(chunk as nat)
            + ": record at offset "@ + decimal(offset as nat) + ": "@ + k.words(),
        EvtxError::Token(chunk, id, k) => "chunk "@ + decimal(chunk as nat) + ": record "@
            + decimal(id as nat) + ": "@ + k.words(),
    }
}

impl EvtxError {
    /// A line that says what went wrong and where.
    pub fn describe(&self) -> (r: String)
        ensures
            r@ == error_text(*self),
    {
        let mut out: String = String::new();
        match self {
            EvtxError::FileHeader(k) => {
                out.append("file header: ");
                out.append(k.as_str());
            },
            EvtxError::ChunkHeader(chunk, k) => {
                out.append("chunk ");
                push_decimal(&mut out, *chunk);
                out.append(": header: ");
                out.append(k.as_str());
            },
            EvtxError::Record(chunk, offset, k) => {
                out.append("chunk ");
                push_decimal(&mut out, *chunk);
                out.append(": record at offset ");
                push_decimal(&mut out, *offset as u64);
                out.append(": ");
                out.append(k.as_str());
            },
            EvtxError::Token(chunk, id, k) => {
                out.append("chunk ");
                push_decimal(&mut out, *chunk);
                out.append(": record ");
                push_decimal(&mut out, *id);
                out.append(": ");
                out.append(k.as_str());
            },
        }
        assert(out@ =~= error_text(*self));
        out
    }
}

} // verus!
