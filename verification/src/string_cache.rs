//! The per-chunk string cache.
//!
//! A string is stored in the chunk as an entry of a hash bucket's chain: the
//! offset of the next entry, a hash, a count of UTF-16 code units, the code
//! units, and a terminator. The cache keeps each entry under the offset at
//! which it was decoded, so that a second reference to the same offset reads
//! nothing from the buffer.

use vstd::prelude::*;
use std::collections::HashMap;
use std::sync::Arc;
use crate::err::TokenError;
use crate::shared::share;
use crate::reader::{in_bounds, le_u16, le_u32, has_bytes, read_u16, read_u32, lemma_le_ranges};
use crate::text::{utf16_decode, decode_utf16};
use crate::value::{units_at, read_units, agrees};

verus! {

broadcast use vstd::std_specs::hash::group_hash_axioms;

/// A decoded string entry, as the cache shares it.
#[derive(Debug, PartialEq, Eq)]
pub struct CachedString {
    /// The offset of the next entry in the same hash bucket, 0 at the end.
    pub next: u32,
    /// The hash stored with the string.
    pub hash: u16,
    /// The text.
    pub text: String,
    /// The number of bytes that the entry takes in the chunk.
    pub size: usize,
}

/// What a [`CachedString`] holds.
pub struct StringEntry {
    pub next: u32,
    pub hash: u16,
    pub text: Seq<char>,
    pub size: int,
}

impl View for CachedString {
    type V = StringEntry;

    open spec fn view(&self) -> StringEntry {
        StringEntry { next: self.next, hash: self.hash, text: self.text@, size: self.size as int }
    }
}

/// The number of bytes in front of a string entry's code units.
pub const STRING_HEADER: usize = 8;

/// The string entry stored at offset `off` of the chunk. It is malformed if
/// the header, the declared number of code units or the terminator leave the
/// chunk, or if the code units are not valid UTF-16.
pub open spec fn string_at(buf: Seq<u8>, off: int) -> Result<StringEntry, TokenError> {
    if !in_bounds(buf, off, 8) {
        Err(TokenError::MalformedString)
    } else if !in_bounds(buf, off + 8, 2 * le_u16(buf, off + 6) + 2) {
        Err(TokenError::MalformedString)
    } else {
        match utf16_decode(units_at(buf, off + 8, le_u16(buf, off + 6))) {
            Some(t) => Ok(
                StringEntry {
                    next: le_u32(buf, off) as u32,
                    hash: le_u16(buf, off + 4) as u16,
                    text: t,
                    size: 10 + 2 * le_u16(buf, off + 6),
                },
            ),
            None => Err(TokenError::MalformedString),
        }
    }
}

/// Decodes the string entry at `off`.
pub fn decode_string(buf: &[u8], off: usize) -> (r: Result<CachedString, TokenError>)
    ensures
        agrees(r, string_at(buf@, off as int)),
{
    proof {
        lemma_le_ranges(buf@, off as int);
        lemma_le_ranges(buf@, off + 4);
        lemma_le_ranges(buf@, off + 6);
    }
    if !has_bytes(buf, off, STRING_HEADER) {
        return Err(TokenError::MalformedString);
    }
    let next: u32 = read_u32(buf, off).unwrap();
    let hash: u16 = read_u16(buf, off + 4).unwrap();
    let count: usize = read_u16(buf, off + 6).unwrap() as usize;
    if !has_bytes(buf, off + 8, 2 * count + 2) {
        return Err(TokenError::MalformedString);
    }
    let units: Vec<u16> = read_units(buf, off + STRING_HEADER, count);
    match decode_utf16(&units) {
        Some(text) => Ok(CachedString { next, hash, text, size: 10 + 2 * count }),
        None => Err(TokenError::MalformedString),
    }
}

/// A counter that stops at the largest value.
pub open spec fn bump(n: u64) -> u64 {
    if n < u64::MAX {
        (n + 1) as u64
    } else {
        n
    }
}

/// The strings decoded so far in one chunk, by offset.
pub struct StringCache {
    entries: HashMap<u32, Arc<CachedString>>,
    decodes: u64,
}

impl View for StringCache {
    type V = Map<u32, StringEntry>;

    /// The cached entries, by offset.
    closed spec fn view(&self) -> Map<u32, StringEntry> {
        self.entries@.map_values(|e: Arc<CachedString>| e@)
    }
}

impl StringCache {
    /// How often a string was decoded from the buffer.
    pub closed spec fn decodes(&self) -> u64 {
        self.decodes
    }

    /// Every cached entry is the string stored at its offset in `buf`.
    pub open spec fn wf(&self, buf: Seq<u8>) -> bool {
        forall|off: u32| #[trigger]
            self@.contains_key(off) ==> string_at(buf, off as int) == Ok::<StringEntry, TokenError>(
                self@[off],
            )
    }

    /// This cache holds what `before` held, and has decoded no less often.
    /// A cache only grows.
    pub open spec fn extends(&self, before: &Self) -> bool {
        &&& forall|k: u32| #[trigger]
            before@.contains_key(k) ==> self@.contains_key(k) && self@[k] == before@[k]
        &&& before.decodes() <= self.decodes()
    }

    /// An empty cache.
    pub fn new() -> (r: Self)
        ensures
            r@ == Map::<u32, StringEntry>::empty(),
            r.decodes() == 0,
            forall|buf: Seq<u8>| r.wf(buf),
    {
        let r = StringCache { entries: HashMap::new(), decodes: 0 };
        assert(r@ =~= Map::<u32, StringEntry>::empty());
        r
    }

    /// The number of cached strings.
    pub fn len(&self) -> (n: usize)
        ensures
            n == self@.len(),
    {
        assert(self@.dom() =~= self.entries@.dom());
        self.entries.len()
    }

    /// How often a string was decoded from the buffer.
    pub fn decode_count(&self) -> (n: u64)
        ensures
            n == self.decodes(),
    {
        self.decodes
    }

    /// Is the string at `offset` cached?
    pub fn contains(&self, offset: u32) -> (r: bool)
        ensures
            r == self@.contains_key(offset),
    {
        self.entries.contains_key(&offset)
    }

    /// The string stored at `offset`.
    ///
    /// Where the cache holds it, the cached handle is returned and neither
    /// the cache nor the count of decodes changes. Otherwise the string is
    /// decoded from the buffer, once, and kept if it is well-formed: after a
    /// success the cache holds the string under its offset.
    pub fn resolve(&mut self, buf: &[u8], offset: u32) -> (r: Result<Arc<CachedString>, TokenError>)
        requires
            old(self).wf(buf@),
        ensures
            final(self).wf(buf@),
            final(self).extends(old(self)),
            agrees(r, string_at(buf@, offset as int)),
            r matches Ok(e) ==> final(self)@.contains_key(offset) && final(self)@[offset] == e@,
            old(self)@.contains_key(offset) ==> final(self)@ == old(self)@ && final(self).decodes()
                == old(self).decodes(),
            !old(self)@.contains_key(offset) ==> final(self).decodes() == bump(
                old(self).decodes(),
            ),
            !old(self)@.contains_key(offset) ==> final(self)@ == (match r {
                Ok(e) => old(self)@.insert(offset, e@),
                Err(_) => old(self)@,
            }),
    {
        match self.entries.get(&offset) {
            Some(e) => {
                assert(self.entries@.contains_key(offset) && self.entries@[offset] == *e);
                assert(self@.contains_key(offset) && self@[offset] == e@);
                return Ok(share(e));
            },
            None => {},
        }
        if self.decodes < u64::MAX {
            self.decodes = self.decodes + 1;
        }
        match decode_string(buf, offset as usize) {
            Ok(s) => {
                let e: Arc<CachedString> = Arc::new(s);
                let kept: Arc<CachedString> = share(&e);
                self.entries.insert(offset, kept);
                assert(self@ =~= old(self)@.insert(offset, e@));
                assert(string_at(buf@, offset as int) == Ok::<StringEntry, TokenError>(e@));
                assert forall|off: u32| #[trigger] self@.contains_key(off) implies string_at(
                    buf@,
                    off as int,
                ) == Ok::<StringEntry, TokenError>(self@[off]) by {
                    if off != offset {
                        assert(old(self)@.contains_key(off));
                    }
                }
                Ok(e)
            },
            Err(err) => {
                assert(self@ =~= old(self)@);
                assert forall|off: u32| #[trigger] self@.contains_key(off) implies string_at(
                    buf@,
                    off as int,
                ) == Ok::<StringEntry, TokenError>(self@[off]) by {
                    assert(old(self)@.contains_key(off));
                }
                Err(err)
            },
        }
    }
}

} // verus!
