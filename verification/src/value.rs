//! The typed values of BinXml: their binary decoding and their text.

use vstd::prelude::*;
use vstd::string::StringExecFns;
use crate::err::TokenError;
use crate::reader::{
    lemma_buf_len, lemma_le_ranges, in_bounds, le_u16, le_u32, le_u64, has_bytes, read_u16,
    read_u32, read_u64,
};
use crate::text::{utf16_decode, decode_utf16};

verus! {

/// The null type: no value.
pub const TYPE_NULL: u8 = 0x00;
/// A string in UTF-16.
pub const TYPE_STRING: u8 = 0x01;
/// A string of single bytes.
pub const TYPE_ANSI_STRING: u8 = 0x02;
// The integers, by width and sign.
pub const TYPE_INT8: u8 = 0x03;
pub const TYPE_UINT8: u8 = 0x04;
pub const TYPE_INT16: u8 = 0x05;
pub const TYPE_UINT16: u8 = 0x06;
pub const TYPE_INT32: u8 = 0x07;
pub const TYPE_UINT32: u8 = 0x08;
pub const TYPE_INT64: u8 = 0x09;
pub const TYPE_UINT64: u8 = 0x0A;
/// A floating-point number of 32 bits.
pub const TYPE_REAL32: u8 = 0x0B;
/// A floating-point number of 64 bits.
pub const TYPE_REAL64: u8 = 0x0C;
/// A truth value, stored in four bytes.
pub const TYPE_BOOL: u8 = 0x0D;
/// Bytes of any number.
pub const TYPE_BINARY: u8 = 0x0E;
/// A GUID.
pub const TYPE_GUID: u8 = 0x0F;
/// A FILETIME: a count of ticks in 64 bits.
pub const TYPE_FILETIME: u8 = 0x11;
/// A SYSTEMTIME.
pub const TYPE_SYSTIME: u8 = 0x12;
/// A security identifier.
pub const TYPE_SID: u8 = 0x13;
/// An integer of 32 bits that is shown in hexadecimal.
pub const TYPE_HEX32: u8 = 0x14;
/// An integer of 64 bits that is shown in hexadecimal.
pub const TYPE_HEX64: u8 = 0x15;
/// Added to an element type's tag, this marks an array of that type.
pub const TYPE_ARRAY: u8 = 0x80;

/// A GUID: three little-endian fields, then eight bytes kept in the order in
/// which they are stored, most significant first.
#[derive(Debug, Clone, Copy, PartialEq, Eq, Structural)]
pub struct Guid {
    pub data1: u32,
    pub data2: u16,
    pub data3: u16,
    pub data4: u64,
}

/// A SYSTEMTIME: eight 16-bit fields.
#[derive(Debug, Clone, Copy, PartialEq, Eq, Structural)]
pub struct SysTime {
    pub year: u16,
    pub month: u16,
    pub day_of_week: u16,
    pub day: u16,
    pub hour: u16,
    pub minute: u16,
    pub second: u16,
    pub millis: u16,
}

/// A security identifier.
#[derive(Debug, PartialEq, Eq)]
pub struct Sid {
    pub revision: u8,
    pub authority: u64,
    pub sub_authorities: Vec<u32>,
}

/// What a [`Sid`] holds.
pub struct SidModel {
    pub revision: u8,
    pub authority: u64,
    pub sub_authorities: Seq<u32>,
}

impl View for Sid {
    type V = SidModel;

    open spec fn view(&self) -> SidModel {
        SidModel {
            revision: self.revision,
            authority: self.authority,
            sub_authorities: self.sub_authorities@,
        }
    }
}

impl Clone for Sid {
    fn clone(&self) -> (r: Self)
        ensures
            r@ == self@,
    {
        Sid {
            revision: self.revision,
            authority: self.authority,
            sub_authorities: self.sub_authorities.clone(),
        }
    }
}

/// One value that is not an array. The two floating-point types keep the
/// bits as they are stored.
#[derive(Debug, PartialEq, Eq)]
pub enum Scalar {
    Text(String),
    Ansi(String),
    Int8(i8),
    UInt8(u8),
    Int16(i16),
    UInt16(u16),
    Int32(i32),
    UInt32(u32),
    Int64(i64),
    UInt64(u64),
    Real32(u32),
    Real64(u64),
    Bool(bool),
    Binary(Vec<u8>),
    Guid(Guid),
    FileTime(u64),
    SysTime(SysTime),
    Sid(Sid),
    HexInt32(u32),
    HexInt64(u64),
}

/// What a [`Scalar`] holds.
pub enum ScalarModel {
    Text(Seq<char>),
    Ansi(Seq<char>),
    Int8(i8),
    UInt8(u8),
    Int16(i16),
    UInt16(u16),
    Int32(i32),
    UInt32(u32),
    Int64(i64),
    UInt64(u64),
    Real32(u32),
    Real64(u64),
    Bool(bool),
    Binary(Seq<u8>),
    Guid(Guid),
    FileTime(u64),
    SysTime(SysTime),
    Sid(SidModel),
    HexInt32(u32),
    HexInt64(u64),
}

impl View for Scalar {
    type V = ScalarModel;

    open spec fn view(&self) -> ScalarModel {
        match *self {
            Scalar::Text(s) => ScalarModel::Text(s@),
            Scalar::Ansi(s) => ScalarModel::Ansi(s@),
            Scalar::Int8(v) => ScalarModel::Int8(v),
            Scalar::UInt8(v) => ScalarModel::UInt8(v),
            Scalar::Int16(v) => ScalarModel::Int16(v),
            Scalar::UInt16(v) => ScalarModel::UInt16(v),
            Scalar::Int32(v) => ScalarModel::Int32(v),
            Scalar::UInt32(v) => ScalarModel::UInt32(v),
            Scalar::Int64(v) => ScalarModel::Int64(v),
            Scalar::UInt64(v) => ScalarModel::UInt64(v),
            Scalar::Real32(v) => ScalarModel::Real32(v),
            Scalar::Real64(v) => ScalarModel::Real64(v),
            Scalar::Bool(v) => ScalarModel::Bool(v),
            Scalar::Binary(v) => ScalarModel::Binary(v@),
            Scalar::Guid(v) => ScalarModel::Guid(v),
            Scalar::FileTime(v) => ScalarModel::FileTime(v),
            Scalar::SysTime(v) => ScalarModel::SysTime(v),
            Scalar::Sid(v) => ScalarModel::Sid(v@),
            Scalar::HexInt32(v) => ScalarModel::HexInt32(v),
            Scalar::HexInt64(v) => ScalarModel::HexInt64(v),
        }
    }
}

impl DeepView for Scalar {
    type V = ScalarModel;

    open spec fn deep_view(&self) -> ScalarModel {
        self@
    }
}

impl Clone for Scalar {
    fn clone(&self) -> (r: Self)
        ensures
            r@ == self@,
    {
        match self {
            Scalar::Text(s) => Scalar::Text(s.clone()),
            Scalar::Ansi(s) => Scalar::Ansi(s.clone()),
            Scalar::Int8(v) => Scalar::Int8(*v),
            Scalar::UInt8(v) => Scalar::UInt8(*v),
            Scalar::Int16(v) => Scalar::Int16(*v),
            Scalar::UInt16(v) => Scalar::UInt16(*v),
            Scalar::Int32(v) => Scalar::Int32(*v),
            Scalar::UInt32(v) => Scalar::UInt32(*v),
            Scalar::Int64(v) => Scalar::Int64(*v),
            Scalar::UInt64(v) => Scalar::UInt64(*v),
            Scalar::Real32(v) => Scalar::Real32(*v),
            Scalar::Real64(v) => Scalar::Real64(*v),
            Scalar::Bool(v) => Scalar::Bool(*v),
            Scalar::Binary(v) => Scalar::Binary(v.clone()),
            Scalar::Guid(v) => Scalar::Guid(*v),
            Scalar::FileTime(v) => Scalar::FileTime(*v),
            Scalar::SysTime(v) => Scalar::SysTime(*v),
            Scalar::Sid(v) => Scalar::Sid(v.clone()),
            Scalar::HexInt32(v) => Scalar::HexInt32(*v),
            Scalar::HexInt64(v) => Scalar::HexInt64(*v),
        }
    }
}

/// A decoded value: nothing, one scalar, or an array of scalars of one type,
/// held with the tag of that type.
#[derive(Debug, PartialEq, Eq)]
pub enum BinXmlValue {
    Null,
    Scalar(Scalar),
    Array(u8, Vec<Scalar>),
}

/// What a [`BinXmlValue`] holds.
pub enum ValueModel {
    Null,
    Scalar(ScalarModel),
    Array(u8, Seq<ScalarModel>),
}

impl View for BinXmlValue {
    type V = ValueModel;

    open spec fn view(&self) -> ValueModel {
        match *self {
            BinXmlValue::Null => ValueModel::Null,
            BinXmlValue::Scalar(s) => ValueModel::Scalar(s@),
            BinXmlValue::Array(t, items) => ValueModel::Array(t, items.deep_view()),
        }
    }
}

impl DeepView for BinXmlValue {
    type V = ValueModel;

    open spec fn deep_view(&self) -> ValueModel {
        self@
    }
}

/// Copies a list of scalars.
pub fn clone_scalars(items: &Vec<Scalar>) -> (r: Vec<Scalar>)
    ensures
        r.deep_view() == items.deep_view(),
{
    let mut out: Vec<Scalar> = Vec::new();
    let mut i: usize = 0;
    while i < items.len()
        invariant
            i <= items.len(),
            out.len() == i,
            forall|k: int| 0 <= k < i ==> out[k]@ == items[k]@,
        decreases items.len() - i,
    {
        out.push(items[i].clone());
        i = i + 1;
    }
    assert(out.deep_view() =~= items.deep_view());
    out
}

impl Clone for BinXmlValue {
    fn clone(&self) -> (r: Self)
        ensures
            r@ == self@,
    {
        match self {
            BinXmlValue::Null => BinXmlValue::Null,
            BinXmlValue::Scalar(s) => BinXmlValue::Scalar(s.clone()),
            BinXmlValue::Array(t, items) => BinXmlValue::Array(*t, clone_scalars(items)),
        }
    }
}

/// The type tag under which a scalar is stored.
pub open spec fn scalar_tag(s: ScalarModel) -> u8 {
    match s {
        ScalarModel::Text(_) => TYPE_STRING,
        ScalarModel::Ansi(_) => TYPE_ANSI_STRING,
        ScalarModel::Int8(_) => TYPE_INT8,
        ScalarModel::UInt8(_) => TYPE_UINT8,
        ScalarModel::Int16(_) => TYPE_INT16,
        ScalarModel::UInt16(_) => TYPE_UINT16,
        ScalarModel::Int32(_) => TYPE_INT32,
        ScalarModel::UInt32(_) => TYPE_UINT32,
        ScalarModel::Int64(_) => TYPE_INT64,
        ScalarModel::UInt64(_) => TYPE_UINT64,
        ScalarModel::Real32(_) => TYPE_REAL32,
        ScalarModel::Real64(_) => TYPE_REAL64,
        ScalarModel::Bool(_) => TYPE_BOOL,
        ScalarModel::Binary(_) => TYPE_BINARY,
        ScalarModel::Guid(_) => TYPE_GUID,
        ScalarModel::FileTime(_) => TYPE_FILETIME,
        ScalarModel::SysTime(_) => TYPE_SYSTIME,
        ScalarModel::Sid(_) => TYPE_SID,
        ScalarModel::HexInt32(_) => TYPE_HEX32,
        ScalarModel::HexInt64(_) => TYPE_HEX64,
    }
}

/// The type tag of a value. An array's tag is its element type's tag with the
/// array mark added.
pub open spec fn value_tag(v: ValueModel) -> u8 {
    match v {
        ValueModel::Null => TYPE_NULL,
        ValueModel::Scalar(s) => scalar_tag(s),
        ValueModel::Array(t, _) => if t < TYPE_ARRAY {
            (t + TYPE_ARRAY) as u8
        } else {
            t
        },
    }
}

impl Scalar {
    /// The type tag under which this scalar is stored.
    pub fn type_tag(&self) -> (t: u8)
        ensures
            t == scalar_tag(self@),
    {
        match self {
            Scalar::Text(_) => TYPE_STRING,
            Scalar::Ansi(_) => TYPE_ANSI_STRING,
            Scalar::Int8(_) => TYPE_INT8,
            Scalar::UInt8(_) => TYPE_UINT8,
            Scalar::Int16(_) => TYPE_INT16,
            Scalar::UInt16(_) => TYPE_UINT16,
            Scalar::Int32(_) => TYPE_INT32,
            Scalar::UInt32(_) => TYPE_UINT32,
            Scalar::Int64(_) => TYPE_INT64,
            Scalar::UInt64(_) => TYPE_UINT64,
            Scalar::Real32(_) => TYPE_REAL32,
            Scalar::Real64(_) => TYPE_REAL64,
            Scalar::Bool(_) => TYPE_BOOL,
            Scalar::Binary(_) => TYPE_BINARY,
            Scalar::Guid(_) => TYPE_GUID,
            Scalar::FileTime(_) => TYPE_FILETIME,
            Scalar::SysTime(_) => TYPE_SYSTIME,
            Scalar::Sid(_) => TYPE_SID,
            Scalar::HexInt32(_) => TYPE_HEX32,
            Scalar::HexInt64(_) => TYPE_HEX64,
        }
    }
}

impl BinXmlValue {
    /// The type tag of this value.
    pub fn type_tag(&self) -> (t: u8)
        ensures
            t == value_tag(self@),
    {
        match self {
            BinXmlValue::Null => TYPE_NULL,
            BinXmlValue::Scalar(s) => s.type_tag(),
            BinXmlValue::Array(t, _) => if *t < TYPE_ARRAY {
                *t + TYPE_ARRAY
            } else {
                *t
            },
        }
    }
}

// ---------------------------------------------------------------------------
// Binary decoding
// ---------------------------------------------------------------------------

/// The two's-complement reading of `v`, where `half` is two to the power of
/// the width less one.
pub open spec fn signed(v: int, half: int) -> int {
    if v >= half {
        v - 2 * half
    } else {
        v
    }
}

/// The big-endian value of the `n` bytes at `pos`.
pub open spec fn be_uint(buf: Seq<u8>, pos: int, n: nat) -> int
    decreases n,
{
    if n == 0 {
        0
    } else {
        256 * be_uint(buf, pos, (n - 1) as nat) + buf[pos + n - 1] as int
    }
}

/// The `count` UTF-16 code units stored from `pos` on.
pub open spec fn units_at(buf: Seq<u8>, pos: int, count: int) -> Seq<u16> {
    Seq::new(count as nat, |k: int| le_u16(buf, pos + 2 * k) as u16)
}

/// The bytes read one for one as characters (ISO 8859-1).
pub open spec fn latin1(bytes: Seq<u8>) -> Seq<char> {
    Seq::new(bytes.len(), |k: int| bytes[k] as char)
}

/// The number of bytes that a value of a fixed-width type takes, and 0 for
/// every other type.
pub open spec fn fixed_width(ty: u8) -> int {
    if ty == TYPE_INT8 || ty == TYPE_UINT8 {
        1
    } else if ty == TYPE_INT16 || ty == TYPE_UINT16 {
        2
    } else if ty == TYPE_INT32 || ty == TYPE_UINT32 || ty == TYPE_REAL32 || ty == TYPE_BOOL || ty
        == TYPE_HEX32 {
        4
    } else if ty == TYPE_INT64 || ty == TYPE_UINT64 || ty == TYPE_REAL64 || ty == TYPE_FILETIME
        || ty == TYPE_HEX64 {
        8
    } else if ty == TYPE_GUID || ty == TYPE_SYSTIME {
        16
    } else {
        0
    }
}

/// The GUID stored in the 16 bytes at `pos`.
pub open spec fn guid_at(buf: Seq<u8>, pos: int) -> Guid {
    Guid {
        data1: le_u32(buf, pos) as u32,
        data2: le_u16(buf, pos + 4) as u16,
        data3: le_u16(buf, pos + 6) as u16,
        data4: be_uint(buf, pos + 8, 8) as u64,
    }
}

/// The value of fixed-width type `ty` stored at `pos`.
pub open spec fn fixed_at(buf: Seq<u8>, pos: int, ty: u8) -> ScalarModel
    recommends
        fixed_width(ty) > 0,
        in_bounds(buf, pos, fixed_width(ty)),
{
    if ty == TYPE_INT8 {
        ScalarModel::Int8(signed(buf[pos] as int, 0x80) as i8)
    } else if ty == TYPE_UINT8 {
        ScalarModel::UInt8(buf[pos])
    } else if ty == TYPE_INT16 {
        ScalarModel::Int16(signed(le_u16(buf, pos), 0x8000) as i16)
    } else if ty == TYPE_UINT16 {
        ScalarModel::UInt16(le_u16(buf, pos) as u16)
    } else if ty == TYPE_INT32 {
        ScalarModel::Int32(signed(le_u32(buf, pos), 0x8000_0000) as i32)
    } else if ty == TYPE_UINT32 {
        ScalarModel::UInt32(le_u32(buf, pos) as u32)
    } else if ty == TYPE_REAL32 {
        ScalarModel::Real32(le_u32(buf, pos) as u32)
    } else if ty == TYPE_BOOL {
        ScalarModel::Bool(le_u32(buf, pos) != 0)
    } else if ty == TYPE_HEX32 {
        ScalarModel::HexInt32(le_u32(buf, pos) as u32)
    } else if ty == TYPE_INT64 {
        ScalarModel::Int64(signed(le_u64(buf, pos), 0x8000_0000_0000_0000) as i64)
    } else if ty == TYPE_UINT64 {
        ScalarModel::UInt64(le_u64(buf, pos) as u64)
    } else if ty == TYPE_REAL64 {
        ScalarModel::Real64(le_u64(buf, pos) as u64)
    } else if ty == TYPE_FILETIME {
        ScalarModel::FileTime(le_u64(buf, pos) as u64)
    } else if ty == TYPE_HEX64 {
        ScalarModel::HexInt64(le_u64(buf, pos) as u64)
    } else if ty == TYPE_GUID {
        ScalarModel::Guid(guid_at(buf, pos))
    } else {
        ScalarModel::SysTime(
            SysTime {
                year: le_u16(buf, pos) as u16,
                month: le_u16(buf, pos + 2) as u16,
                day_of_week: le_u16(buf, pos + 4) as u16,
                day: le_u16(buf, pos + 6) as u16,
                hour: le_u16(buf, pos + 8) as u16,
                minute: le_u16(buf, pos + 10) as u16,
                second: le_u16(buf, pos + 12) as u16,
                millis: le_u16(buf, pos + 14) as u16,
            },
        )
    }
}

/// The security identifier stored in the `len` bytes at `pos`: a revision, a
/// count of sub-authorities, a 48-bit big-endian authority, and the
/// sub-authorities as 32-bit little-endian integers.
pub open spec fn sid_at(buf: Seq<u8>, pos: int, len: int) -> Result<SidModel, TokenError> {
    if len < 8 || len != 8 + 4 * (buf[pos + 1] as int) {
        Err(TokenError::MalformedValue)
    } else {
        Ok(
            SidModel {
                revision: buf[pos],
                authority: be_uint(buf, pos + 2, 6) as u64,
                sub_authorities: Seq::new(
                    buf[pos + 1] as nat,
                    |k: int| le_u32(buf, pos + 8 + 4 * k) as u32,
                ),
            },
        )
    }
}

/// The scalar of type `ty` that the `len` bytes at `pos` encode.
pub open spec fn scalar_at(buf: Seq<u8>, pos: int, len: int, ty: u8) -> Result<
    ScalarModel,
    TokenError,
> {
    if !in_bounds(buf, pos, len) {
        Err(TokenError::UnexpectedEof)
    } else if ty == TYPE_STRING {
        if len % 2 != 0 {
            Err(TokenError::MalformedString)
        } else {
            match utf16_decode(units_at(buf, pos, len / 2)) {
                Some(t) => Ok(ScalarModel::Text(t)),
                None => Err(TokenError::MalformedString),
            }
        }
    } else if ty == TYPE_ANSI_STRING {
        Ok(ScalarModel::Ansi(latin1(buf.subrange(pos, pos + len))))
    } else if ty == TYPE_BINARY {
        Ok(ScalarModel::Binary(buf.subrange(pos, pos + len)))
    } else if ty == TYPE_SID {
        match sid_at(buf, pos, len) {
            Ok(s) => Ok(ScalarModel::Sid(s)),
            Err(e) => Err(e),
        }
    } else if fixed_width(ty) > 0 {
        if len == fixed_width(ty) {
            Ok(fixed_at(buf, pos, ty))
        } else {
            Err(TokenError::MalformedValue)
        }
    } else {
        Err(TokenError::UnsupportedValueType)
    }
}

/// The code units cut into strings: each zero unit ends a string, and what
/// follows the last zero unit, if anything does, is a last string. The units
/// from index `i` on are added to the string `cur` that is being read, and
/// its strings to `acc`.
pub open spec fn split_units(
    units: Seq<u16>,
    i: int,
    cur: Seq<u16>,
    acc: Seq<Seq<u16>>,
) -> Seq<Seq<u16>>
    decreases units.len() - i,
{
    if i < 0 || i >= units.len() {
        if cur.len() > 0 {
            acc.push(cur)
        } else {
            acc
        }
    } else if units[i] == 0 {
        split_units(units, i + 1, Seq::empty(), acc.push(cur))
    } else {
        split_units(units, i + 1, cur.push(units[i]), acc)
    }
}

/// The strings from the `k`-th on decoded and appended to `acc`; none where
/// one of them is not valid UTF-16.
pub open spec fn texts_from(parts: Seq<Seq<u16>>, k: int, acc: Seq<ScalarModel>) -> Option<
    Seq<ScalarModel>,
>
    decreases parts.len() - k,
{
    if k < 0 || k >= parts.len() {
        Some(acc)
    } else {
        match utf16_decode(parts[k]) {
            None => None,
            Some(t) => texts_from(parts, k + 1, acc.push(ScalarModel::Text(t))),
        }
    }
}

/// The array of strings that the `len` bytes at `pos` encode: UTF-16
/// strings, each ended by a zero code unit.
pub open spec fn strings_at(buf: Seq<u8>, pos: int, len: int) -> Result<ValueModel, TokenError> {
    if len % 2 != 0 {
        Err(TokenError::MalformedString)
    } else {
        match texts_from(
            split_units(units_at(buf, pos, len / 2), 0, Seq::empty(), Seq::empty()),
            0,
            Seq::empty(),
        ) {
            None => Err(TokenError::MalformedString),
            Some(items) => Ok(ValueModel::Array(TYPE_STRING, items)),
        }
    }
}

/// The value of type `ty` that the `len` bytes at `pos` encode. The null type
/// takes any length. An array of strings is a run of strings that each end
/// with a zero code unit; an array of another type is a run of fixed-width
/// elements that fills the bytes exactly.
pub open spec fn value_at(buf: Seq<u8>, pos: int, len: int, ty: u8) -> Result<
    ValueModel,
    TokenError,
> {
    if !in_bounds(buf, pos, len) {
        Err(TokenError::UnexpectedEof)
    } else if ty == TYPE_NULL {
        Ok(ValueModel::Null)
    } else if ty == TYPE_ARRAY + TYPE_STRING {
        strings_at(buf, pos, len)
    } else if ty >= TYPE_ARRAY {
        let elem = (ty - TYPE_ARRAY) as u8;
        let w = fixed_width(elem);
        if w == 0 {
            Err(TokenError::UnsupportedValueType)
        } else if len % w != 0 {
            Err(TokenError::MalformedValue)
        } else {
            Ok(
                ValueModel::Array(
                    elem,
                    Seq::new((len / w) as nat, |k: int| fixed_at(buf, pos + k * w, elem)),
                ),
            )
        }
    } else {
        match scalar_at(buf, pos, len, ty) {
            Ok(s) => Ok(ValueModel::Scalar(s)),
            Err(e) => Err(e),
        }
    }
}

/// An executable result agrees with the model's: the same error, or a value
/// whose view is the model's value.
pub open spec fn agrees<T: View>(r: Result<T, TokenError>, m: Result<T::V, TokenError>) -> bool {
    match r {
        Ok(v) => m == Ok::<T::V, TokenError>(v@),
        Err(e) => m == Err::<T::V, TokenError>(e),
    }
}

/// The width in bytes of a fixed-width type, and 0 for every other type.
pub fn width_of(ty: u8) -> (w: usize)
    ensures
        w == fixed_width(ty),
{
    if ty == TYPE_INT8 || ty == TYPE_UINT8 {
        1
    } else if ty == TYPE_INT16 || ty == TYPE_UINT16 {
        2
    } else if ty == TYPE_INT32 || ty == TYPE_UINT32 || ty == TYPE_REAL32 || ty == TYPE_BOOL || ty
        == TYPE_HEX32 {
        4
    } else if ty == TYPE_INT64 || ty == TYPE_UINT64 || ty == TYPE_REAL64 || ty == TYPE_FILETIME
        || ty == TYPE_HEX64 {
        8
    } else if ty == TYPE_GUID || ty == TYPE_SYSTIME {
        16
    } else {
        0
    }
}

/// Reads `n` bytes as one big-endian number.
pub fn read_be(buf: &[u8], pos: usize, n: usize) -> (r: u64)
    requires
        n <= 8,
        in_bounds(buf@, pos as int, n as int),
    ensures
        r == be_uint(buf@, pos as int, n as nat),
{
    proof {
        lemma_buf_len(buf);
    }
    let mut acc: u64 = 0;
    let mut i: usize = 0;
    while i < n
        invariant
            i <= n <= 8,
            in_bounds(buf@, pos as int, n as int),
            buf@.len() <= usize::MAX,
            acc == be_uint(buf@, pos as int, i as nat),
            acc < pow256(i as nat),
        decreases n - i,
    {
        proof {
            lemma_pow256(i as nat);
        }
        acc = acc * 256 + buf[pos + i] as u64;
        i = i + 1;
    }
    acc
}

/// 256 to the power of `n`.
pub open spec fn pow256(n: nat) -> int
    decreases n,
{
    if n == 0 {
        1
    } else {
        256 * pow256((n - 1) as nat)
    }
}

proof fn lemma_pow256(n: nat)
    requires
        n < 8,
    ensures
        pow256(n) * 256 == pow256(n + 1),
        0 < pow256(n + 1) <= 0x1_0000_0000_0000_0000,
{
    reveal_with_fuel(pow256, 10);
}

/// Reads `count` UTF-16 code units.
pub fn read_units(buf: &[u8], pos: usize, count: usize) -> (r: Vec<u16>)
    requires
        in_bounds(buf@, pos as int, 2 * count),
    ensures
        r@ == units_at(buf@, pos as int, count as int),
{
    proof {
        lemma_buf_len(buf);
    }
    let mut out: Vec<u16> = Vec::new();
    let mut i: usize = 0;
    while i < count
        invariant
            i <= count,
            in_bounds(buf@, pos as int, 2 * count),
            buf@.len() <= usize::MAX,
            out.len() == i,
            forall|k: int| 0 <= k < i ==> out[k] == le_u16(buf@, pos + 2 * k) as u16,
        decreases count - i,
    {
        let u: Option<u16> = read_u16(buf, pos + 2 * i);
        out.push(u.unwrap());
        i = i + 1;
    }
    assert(out@ =~= units_at(buf@, pos as int, count as int));
    out
}

fn u16_of(buf: &[u8], pos: usize) -> (r: u16)
    requires
        in_bounds(buf@, pos as int, 2),
    ensures
        r == le_u16(buf@, pos as int) as u16,
{
    proof {
        lemma_buf_len(buf);
    }
    read_u16(buf, pos).unwrap()
}

fn u32_of(buf: &[u8], pos: usize) -> (r: u32)
    requires
        in_bounds(buf@, pos as int, 4),
    ensures
        r == le_u32(buf@, pos as int) as u32,
        r == le_u32(buf@, pos as int),
{
    proof {
        lemma_le_ranges(buf@, pos as int);
        lemma_buf_len(buf);
    }
    read_u32(buf, pos).unwrap()
}

fn u64_of(buf: &[u8], pos: usize) -> (r: u64)
    requires
        in_bounds(buf@, pos as int, 8),
    ensures
        r == le_u64(buf@, pos as int) as u64,
        r == le_u64(buf@, pos as int),
{
    proof {
        lemma_le_ranges(buf@, pos as int);
        lemma_buf_len(buf);
    }
    read_u64(buf, pos).unwrap()
}

/// Reads a GUID.
pub fn read_guid(buf: &[u8], pos: usize) -> (r: Guid)
    requires
        in_bounds(buf@, pos as int, 16),
    ensures
        r == guid_at(buf@, pos as int),
{
    proof {
        lemma_buf_len(buf);
    }
    Guid {
        data1: u32_of(buf, pos),
        data2: u16_of(buf, pos + 4),
        data3: u16_of(buf, pos + 6),
        data4: read_be(buf, pos + 8, 8),
    }
}

/// Decodes a value of a fixed-width type.
pub fn decode_fixed(buf: &[u8], pos: usize, ty: u8) -> (r: Scalar)
    requires
        fixed_width(ty) > 0,
        in_bounds(buf@, pos as int, fixed_width(ty)),
    ensures
        r@ == fixed_at(buf@, pos as int, ty),
{
    proof {
        lemma_le_ranges(buf@, pos as int);
        lemma_buf_len(buf);
    }
    if ty == TYPE_INT8 {
        let b: u8 = buf[pos];
        if b >= 0x80 {
            Scalar::Int8((b as i16 - 0x100) as i8)
        } else {
            Scalar::Int8(b as i8)
        }
    } else if ty == TYPE_UINT8 {
        Scalar::UInt8(buf[pos])
    } else if ty == TYPE_INT16 {
        let v: u16 = u16_of(buf, pos);
        if v >= 0x8000 {
            Scalar::Int16((v as i32 - 0x1_0000) as i16)
        } else {
            Scalar::Int16(v as i16)
        }
    } else if ty == TYPE_UINT16 {
        Scalar::UInt16(u16_of(buf, pos))
    } else if ty == TYPE_INT32 {
        let v: u32 = u32_of(buf, pos);
        if v >= 0x8000_0000 {
            Scalar::Int32((v as i64 - 0x1_0000_0000) as i32)
        } else {
            Scalar::Int32(v as i32)
        }
    } else if ty == TYPE_UINT32 {
        Scalar::UInt32(u32_of(buf, pos))
    } else if ty == TYPE_REAL32 {
        Scalar::Real32(u32_of(buf, pos))
    } else if ty == TYPE_BOOL {
        Scalar::Bool(u32_of(buf, pos) != 0)
    } else if ty == TYPE_HEX32 {
        Scalar::HexInt32(u32_of(buf, pos))
    } else if ty == TYPE_INT64 {
        let v: u64 = u64_of(buf, pos);
        if v >= 0x8000_0000_0000_0000 {
            Scalar::Int64((v as i128 - 0x1_0000_0000_0000_0000) as i64)
        } else {
            Scalar::Int64(v as i64)
        }
    } else if ty == TYPE_UINT64 {
        Scalar::UInt64(u64_of(buf, pos))
    } else if ty == TYPE_REAL64 {
        Scalar::Real64(u64_of(buf, pos))
    } else if ty == TYPE_FILETIME {
        Scalar::FileTime(u64_of(buf, pos))
    } else if ty == TYPE_HEX64 {
        Scalar::HexInt64(u64_of(buf, pos))
    } else if ty == TYPE_GUID {
        Scalar::Guid(read_guid(buf, pos))
    } else {
        Scalar::SysTime(
            SysTime {
                year: u16_of(buf, pos),
                month: u16_of(buf, pos + 2),
                day_of_week: u16_of(buf, pos + 4),
                day: u16_of(buf, pos + 6),
                hour: u16_of(buf, pos + 8),
                minute: u16_of(buf, pos + 10),
                second: u16_of(buf, pos + 12),
                millis: u16_of(buf, pos + 14),
            },
        )
    }
}

/// Copies `len` bytes.
pub fn read_bytes(buf: &[u8], pos: usize, len: usize) -> (r: Vec<u8>)
    requires
        in_bounds(buf@, pos as int, len as int),
    ensures
        r@ == buf@.subrange(pos as int, pos + len),
{
    proof {
        lemma_buf_len(buf);
    }
    let mut out: Vec<u8> = Vec::new();
    let mut i: usize = 0;
    while i < len
        invariant
            i <= len,
            in_bounds(buf@, pos as int, len as int),
            buf@.len() <= usize::MAX,
            out.len() == i,
            forall|k: int| 0 <= k < i ==> out[k] == buf@[pos + k],
        decreases len - i,
    {
        out.push(buf[pos + i]);
        i = i + 1;
    }
    assert(out@ =~= buf@.subrange(pos as int, pos + len));
    out
}

/// Reads `len` bytes one for one as characters.
pub fn read_latin1(buf: &[u8], pos: usize, len: usize) -> (r: String)
    requires
        in_bounds(buf@, pos as int, len as int),
    ensures
        r@ == latin1(buf@.subrange(pos as int, pos + len)),
{
    proof {
        lemma_buf_len(buf);
    }
    let mut out: String = String::new();
    let mut i: usize = 0;
    while i < len
        invariant
            i <= len,
            in_bounds(buf@, pos as int, len as int),
            buf@.len() <= usize::MAX,
            out@.len() == i,
            forall|k: int| 0 <= k < i ==> out@[k] == buf@[pos + k] as char,
        decreases len - i,
    {
        out.push(buf[pos + i] as char);
        i = i + 1;
    }
    assert(out@ =~= latin1(buf@.subrange(pos as int, pos + len)));
    out
}

/// Decodes a security identifier.
pub fn decode_sid(buf: &[u8], pos: usize, len: usize) -> (r: Result<Sid, TokenError>)
    requires
        in_bounds(buf@, pos as int, len as int),
    ensures
        agrees(r, sid_at(buf@, pos as int, len as int)),
{
    proof {
        lemma_buf_len(buf);
    }
    if len < 8 {
        return Err(TokenError::MalformedValue);
    }
    let count: usize = buf[pos + 1] as usize;
    if len != 8 + 4 * count {
        return Err(TokenError::MalformedValue);
    }
    let mut subs: Vec<u32> = Vec::new();
    let mut i: usize = 0;
    while i < count
        invariant
            i <= count,
            len == 8 + 4 * count,
            in_bounds(buf@, pos as int, len as int),
            buf@.len() <= usize::MAX,
            subs.len() == i,
            forall|k: int| 0 <= k < i ==> subs[k] == le_u32(buf@, pos + 8 + 4 * k) as u32,
        decreases count - i,
    {
        subs.push(u32_of(buf, pos + 8 + 4 * i));
        i = i + 1;
    }
    let sid = Sid { revision: buf[pos], authority: read_be(buf, pos + 2, 6), sub_authorities: subs };
    assert(sid@.sub_authorities =~= sid_at(buf@, pos as int, len as int).unwrap().sub_authorities);
    Ok(sid)
}

/// Decodes the scalar of type `ty` held in the `len` bytes at `pos`.
pub fn decode_scalar(buf: &[u8], pos: usize, len: usize, ty: u8) -> (r: Result<Scalar, TokenError>)
    ensures
        agrees(r, scalar_at(buf@, pos as int, len as int, ty)),
{
    if !has_bytes(buf, pos, len) {
        return Err(TokenError::UnexpectedEof);
    }
    if ty == TYPE_STRING {
        if len % 2 != 0 {
            return Err(TokenError::MalformedString);
        }
        let units: Vec<u16> = read_units(buf, pos, len / 2);
        match decode_utf16(&units) {
            Some(s) => Ok(Scalar::Text(s)),
            None => Err(TokenError::MalformedString),
        }
    } else if ty == TYPE_ANSI_STRING {
        Ok(Scalar::Ansi(read_latin1(buf, pos, len)))
    } else if ty == TYPE_BINARY {
        Ok(Scalar::Binary(read_bytes(buf, pos, len)))
    } else if ty == TYPE_SID {
        match decode_sid(buf, pos, len) {
            Ok(s) => Ok(Scalar::Sid(s)),
            Err(e) => Err(e),
        }
    } else {
        let w: usize = width_of(ty);
        if w == 0 {
            Err(TokenError::UnsupportedValueType)
        } else if len == w {
            Ok(decode_fixed(buf, pos, ty))
        } else {
            Err(TokenError::MalformedValue)
        }
    }
}

/// Decodes an array of strings.
pub fn decode_strings(buf: &[u8], pos: usize, len: usize) -> (r: Result<BinXmlValue, TokenError>)
    requires
        in_bounds(buf@, pos as int, len as int),
    ensures
        agrees(r, strings_at(buf@, pos as int, len as int)),
{
    if len % 2 != 0 {
        return Err(TokenError::MalformedString);
    }
    let units: Vec<u16> = read_units(buf, pos, len / 2);
    let mut parts: Vec<Vec<u16>> = Vec::new();
    let mut cur: Vec<u16> = Vec::new();
    let mut i: usize = 0;
    let ghost whole = split_units(units@, 0, Seq::empty(), Seq::empty());
    assert(parts.deep_view() =~= Seq::<Seq<u16>>::empty());
    while i < units.len()
        invariant
            i <= units.len(),
            len % 2 == 0,
            units@ == units_at(buf@, pos as int, (len / 2) as int),
            whole == split_units(units@, 0, Seq::empty(), Seq::empty()),
            split_units(units@, i as int, cur@, parts.deep_view()) == whole,
        decreases units.len() - i,
    {
        let ghost before = parts.deep_view();
        if units[i] == 0 {
            let ghost done = cur@;
            assert(cur.deep_view() =~= done);
            parts.push(cur);
            cur = Vec::new();
            assert(parts.deep_view() =~= before.push(done));
        } else {
            cur.push(units[i]);
        }
        i = i + 1;
    }
    if cur.len() > 0 {
        let ghost before = parts.deep_view();
        let ghost done = cur@;
        assert(cur.deep_view() =~= done);
        parts.push(cur);
        assert(parts.deep_view() =~= before.push(done));
    }
    let mut items: Vec<Scalar> = Vec::new();
    let mut k: usize = 0;
    assert(items.deep_view() =~= Seq::<ScalarModel>::empty());
    while k < parts.len()
        invariant
            k <= parts.len(),
            len % 2 == 0,
            whole == split_units(
                units_at(buf@, pos as int, (len / 2) as int),
                0,
                Seq::empty(),
                Seq::empty(),
            ),
            parts.deep_view() == whole,
            texts_from(whole, k as int, items.deep_view()) == texts_from(whole, 0, Seq::empty()),
        decreases parts.len() - k,
    {
        assert(whole[k as int] == parts[k as int].deep_view());
        assert(parts[k as int].deep_view() =~= parts[k as int]@);
        match decode_utf16(&parts[k]) {
            None => {
                return Err(TokenError::MalformedString);
            },
            Some(t) => {
                let ghost before = items.deep_view();
                let item = Scalar::Text(t);
                items.push(item);
                assert(items.deep_view() =~= before.push(item@));
            },
        }
        k = k + 1;
    }
    Ok(BinXmlValue::Array(TYPE_STRING, items))
}

/// Decodes the value of type `ty` held in the `len` bytes at `pos`.
pub fn decode_value(buf: &[u8], pos: usize, len: usize, ty: u8) -> (r: Result<BinXmlValue, TokenError>)
    ensures
        agrees(r, value_at(buf@, pos as int, len as int, ty)),
{
    if !has_bytes(buf, pos, len) {
        return Err(TokenError::UnexpectedEof);
    }
    if ty == TYPE_NULL {
        Ok(BinXmlValue::Null)
    } else if ty == TYPE_ARRAY + TYPE_STRING {
        decode_strings(buf, pos, len)
    } else if ty >= TYPE_ARRAY {
        let elem: u8 = ty - TYPE_ARRAY;
        let w: usize = width_of(elem);
        if w == 0 {
            return Err(TokenError::UnsupportedValueType);
        }
        if len % w != 0 {
            return Err(TokenError::MalformedValue);
        }
        let n: usize = len / w;
        let mut items: Vec<Scalar> = Vec::new();
        let mut i: usize = 0;
        while i < n
            invariant
                i <= n,
                w == fixed_width(elem),
                w > 0,
                n == len / w,
                len % w == 0,
                in_bounds(buf@, pos as int, len as int),
                pos + len <= usize::MAX,
                items.len() == i,
                forall|k: int| 0 <= k < i ==> items[k]@ == fixed_at(buf@, pos + k * w, elem),
            decreases n - i,
        {
            assert(i * w + w <= len) by (nonlinear_arith)
                requires
                    i < n,
                    n == len / w,
                    w > 0,
            ;
            items.push(decode_fixed(buf, pos + i * w, elem));
            i = i + 1;
        }
        let v = BinXmlValue::Array(elem, items);
        assert(items.deep_view() =~= Seq::new(
            (len / w) as nat,
            |k: int| fixed_at(buf@, pos + k * w, elem),
        ));
        Ok(v)
    } else {
        match decode_scalar(buf, pos, len, ty) {
            Ok(s) => Ok(BinXmlValue::Scalar(s)),
            Err(e) => Err(e),
        }
    }
}

} // verus!
