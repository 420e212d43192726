//! The text of a value, as it appears in character content.

use vstd::prelude::*;
use vstd::string::StringExecFns;
use crate::text::{
    decimal, signed_decimal, decimal_fixed, hex_fixed, push_decimal, push_signed_decimal,
    push_decimal_fixed, push_hex_fixed,
};
use crate::value::{Guid, SysTime, Sid, SidModel, Scalar, ScalarModel, BinXmlValue, ValueModel};

verus! {

/// Two upper-case hexadecimal digits for each byte.
pub open spec fn hex_bytes(b: Seq<u8>) -> Seq<char>
    decreases b.len(),
{
    if b.len() == 0 {
        Seq::empty()
    } else {
        hex_bytes(b.drop_last()) + hex_fixed(b.last() as nat, 2)
    }
}

/// Each number in decimal with `-` in front of it.
pub open spec fn dashed(subs: Seq<u32>) -> Seq<char>
    decreases subs.len(),
{
    if subs.len() == 0 {
        Seq::empty()
    } else {
        dashed(subs.drop_last()) + seq!['-'] + decimal(subs.last() as nat)
    }
}

/// `XXXXXXXX-XXXX-XXXX-XXXX-XXXXXXXXXXXX`, in upper case.
pub open spec fn guid_text(g: Guid) -> Seq<char> {
    hex_fixed(g.data1 as nat, 8) + seq!['-'] + hex_fixed(g.data2 as nat, 4) + seq!['-']
        + hex_fixed(g.data3 as nat, 4) + seq!['-'] + hex_fixed(
        (g.data4 / 0x1_0000_0000_0000) as nat,
        4,
    ) + seq!['-'] + hex_fixed(g.data4 as nat, 12)
}

/// `YYYY-MM-DDTHH:MM:SS.mmmZ`, each field zero-padded to its width.
pub open spec fn systime_text(t: SysTime) -> Seq<char> {
    decimal_fixed(t.year as nat, 4) + seq!['-'] + decimal_fixed(t.month as nat, 2) + seq!['-']
        + decimal_fixed(t.day as nat, 2) + seq!['T'] + decimal_fixed(t.hour as nat, 2) + seq![':']
        + decimal_fixed(t.minute as nat, 2) + seq![':'] + decimal_fixed(t.second as nat, 2)
        + seq!['.'] + decimal_fixed(t.millis as nat, 3) + seq!['Z']
}

/// `S-` revision `-` authority, then `-` and each sub-authority, in decimal.
pub open spec fn sid_text(s: SidModel) -> Seq<char> {
    seq!['S', '-'] + decimal(s.revision as nat) + seq!['-'] + decimal(s.authority as nat) + dashed(
        s.sub_authorities,
    )
}

/// `0x` and `width` upper-case hexadecimal digits.
pub open spec fn hex_text(v: nat, width: nat) -> Seq<char> {
    seq!['0', 'x'] + hex_fixed(v, width)
}

/// The text of a scalar. Integers are decimal; the hexadecimal types and the
/// bits of the floating-point types are `0x` and digits of full width; a
/// FILETIME is its count of ticks in decimal.
pub open spec fn scalar_text(s: ScalarModel) -> Seq<char> {
    match s {
        ScalarModel::Text(t) => t,
        ScalarModel::Ansi(t) => t,
        ScalarModel::Int8(v) => signed_decimal(v as int),
        ScalarModel::UInt8(v) => decimal(v as nat),
        ScalarModel::Int16(v) => signed_decimal(v as int),
        ScalarModel::UInt16(v) => decimal(v as nat),
        ScalarModel::Int32(v) => signed_decimal(v as int),
        ScalarModel::UInt32(v) => decimal(v as nat),
        ScalarModel::Int64(v) => signed_decimal(v as int),
        ScalarModel::UInt64(v) => decimal(v as nat),
        ScalarModel::Real32(v) => hex_text(v as nat, 8),
        ScalarModel::Real64(v) => hex_text(v as nat, 16),
        ScalarModel::Bool(v) => if v {
            seq!['t', 'r', 'u', 'e']
        } else {
            seq!['f', 'a', 'l', 's', 'e']
        },
        ScalarModel::Binary(b) => hex_bytes(b),
        ScalarModel::Guid(g) => guid_text(g),
        ScalarModel::FileTime(v) => decimal(v as nat),
        ScalarModel::SysTime(t) => systime_text(t),
        ScalarModel::Sid(s) => sid_text(s),
        ScalarModel::HexInt32(v) => hex_text(v as nat, 8),
        ScalarModel::HexInt64(v) => hex_text(v as nat, 16),
    }
}

/// The texts of the items with `,` between them.
pub open spec fn joined(items: Seq<ScalarModel>) -> Seq<char>
    decreases items.len(),
{
    if items.len() == 0 {
        Seq::empty()
    } else if items.len() == 1 {
        scalar_text(items[0])
    } else {
        joined(items.drop_last()) + seq![','] + scalar_text(items.last())
    }
}

/// The text of a value: empty for null, the items joined by `,` for an array.
pub open spec fn value_text(v: ValueModel) -> Seq<char> {
    match v {
        ValueModel::Null => Seq::empty(),
        ValueModel::Scalar(s) => scalar_text(s),
        ValueModel::Array(_, items) => joined(items),
    }
}

fn push_hex_bytes(out: &mut String, b: &Vec<u8>)
    ensures
        final(out)@ == old(out)@ + hex_bytes(b@),
{
    let mut i: usize = 0;
    assert(b@.take(0) =~= Seq::<u8>::empty());
    while i < b.len()
        invariant
            i <= b.len(),
            out@ == old(out)@ + hex_bytes(b@.take(i as int)),
        decreases b.len() - i,
    {
        push_hex_fixed(out, b[i] as u64, 2);
        proof {
            assert(b@.take(i + 1).drop_last() =~= b@.take(i as int));
            assert(out@ =~= old(out)@ + hex_bytes(b@.take(i + 1)));
        }
        i = i + 1;
    }
    assert(b@.take(b.len() as int) =~= b@);
}

fn push_dashed(out: &mut String, subs: &Vec<u32>)
    ensures
        final(out)@ == old(out)@ + dashed(subs@),
{
    let mut i: usize = 0;
    assert(subs@.take(0) =~= Seq::<u32>::empty());
    while i < subs.len()
        invariant
            i <= subs.len(),
            out@ == old(out)@ + dashed(subs@.take(i as int)),
        decreases subs.len() - i,
    {
        out.push('-');
        push_decimal(out, subs[i] as u64);
        proof {
            assert(subs@.take(i + 1).drop_last() =~= subs@.take(i as int));
            assert(out@ =~= old(out)@ + dashed(subs@.take(i + 1)));
        }
        i = i + 1;
    }
    assert(subs@.take(subs.len() as int) =~= subs@);
}

fn push_guid(out: &mut String, g: &Guid)
    ensures
        final(out)@ == old(out)@ + guid_text(*g),
{
    push_hex_fixed(out, g.data1 as u64, 8);
    out.push('-');
    push_hex_fixed(out, g.data2 as u64, 4);
    out.push('-');
    push_hex_fixed(out, g.data3 as u64, 4);
    out.push('-');
    push_hex_fixed(out, g.data4 / 0x1_0000_0000_0000, 4);
    out.push('-');
    push_hex_fixed(out, g.data4, 12);
    assert(out@ =~= old(out)@ + guid_text(*g));
}

fn push_systime(out: &mut String, t: &SysTime)
    ensures
        final(out)@ == old(out)@ + systime_text(*t),
{
    push_decimal_fixed(out, t.year as u64, 4);
    out.push('-');
    push_decimal_fixed(out, t.month as u64, 2);
    out.push('-');
    push_decimal_fixed(out, t.day as u64, 2);
    out.push('T');
    push_decimal_fixed(out, t.hour as u64, 2);
    out.push(':');
    push_decimal_fixed(out, t.minute as u64, 2);
    out.push(':');
    push_decimal_fixed(out, t.second as u64, 2);
    out.push('.');
    push_decimal_fixed(out, t.millis as u64, 3);
    out.push('Z');
    assert(out@ =~= old(out)@ + systime_text(*t));
}

fn push_sid(out: &mut String, s: &Sid)
    ensures
        final(out)@ == old(out)@ + sid_text(s@),
{
    out.push('S');
    out.push('-');
    push_decimal(out, s.revision as u64);
    out.push('-');
    push_decimal(out, s.authority);
    push_dashed(out, &s.sub_authorities);
    assert(out@ =~= old(out)@ + sid_text(s@));
}

fn push_hex_text(out: &mut String, v: u64, width: u8)
    ensures
        final(out)@ == old(out)@ + hex_text(v as nat, width as nat),
{
    out.push('0');
    out.push('x');
    push_hex_fixed(out, v, width);
    assert(out@ =~= old(out)@ + hex_text(v as nat, width as nat));
}

/// Appends the text of a scalar.
pub fn push_scalar(out: &mut String, s: &Scalar)
    ensures
        final(out)@ == old(out)@ + scalar_text(s@),
{
    match s {
        Scalar::Text(t) => out.append(t.as_str()),
        Scalar::Ansi(t) => out.append(t.as_str()),
        Scalar::Int8(v) => push_signed_decimal(out, *v as i64),
        Scalar::UInt8(v) => push_decimal(out, *v as u64),
        Scalar::Int16(v) => push_signed_decimal(out, *v as i64),
        Scalar::UInt16(v) => push_decimal(out, *v as u64),
        Scalar::Int32(v) => push_signed_decimal(out, *v as i64),
        Scalar::UInt32(v) => push_decimal(out, *v as u64),
        Scalar::Int64(v) => push_signed_decimal(out, *v),
        Scalar::UInt64(v) => push_decimal(out, *v),
        Scalar::Real32(v) => push_hex_text(out, *v as u64, 8),
        Scalar::Real64(v) => push_hex_text(out, *v, 16),
        Scalar::Bool(v) => {
            if *v {
                out.push('t');
                out.push('r');
                out.push('u');
                out.push('e');
            } else {
                out.push('f');
                out.push('a');
                out.push('l');
                out.push('s');
                out.push('e');
            }
            assert(out@ =~= old(out)@ + scalar_text(s@));
        },
        Scalar::Binary(b) => push_hex_bytes(out, b),
        Scalar::Guid(g) => push_guid(out, g),
        Scalar::FileTime(v) => push_decimal(out, *v),
        Scalar::SysTime(t) => push_systime(out, t),
        Scalar::Sid(sid) => push_sid(out, sid),
        Scalar::HexInt32(v) => push_hex_text(out, *v as u64, 8),
        Scalar::HexInt64(v) => push_hex_text(out, *v, 16),
    }
}

fn push_joined(out: &mut String, items: &Vec<Scalar>)
    ensures
        final(out)@ == old(out)@ + joined(items.deep_view()),
{
    let ghost all = items.deep_view();
    let mut i: usize = 0;
    assert(all.take(0) =~= Seq::<ScalarModel>::empty());
    while i < items.len()
        invariant
            i <= items.len(),
            all == items.deep_view(),
            out@ == old(out)@ + joined(all.take(i as int)),
        decreases items.len() - i,
    {
        if i > 0 {
            out.push(',');
        }
        push_scalar(out, &items[i]);
        proof {
            assert(all.take(i + 1).drop_last() =~= all.take(i as int));
            assert(all.take(i + 1).last() == items[i as int]@);
            assert(all.take(i + 1)[0] == all[0]);
            assert(out@ =~= old(out)@ + joined(all.take(i + 1)));
        }
        i = i + 1;
    }
    assert(all.take(items.len() as int) =~= all);
}

impl Scalar {
    /// The text of this scalar.
    pub fn render(&self) -> (r: String)
        ensures
            r@ == scalar_text(self@),
    {
        let mut out: String = String::new();
        push_scalar(&mut out, self);
        assert(out@ =~= scalar_text(self@));
        out
    }
}

impl BinXmlValue {
    /// The text of this value, as character content carries it.
    pub fn render(&self) -> (r: String)
        ensures
            r@ == value_text(self@),
    {
        let mut out: String = String::new();
        match self {
            BinXmlValue::Null => {},
            BinXmlValue::Scalar(s) => {
                push_scalar(&mut out, s);
            },
            BinXmlValue::Array(_, items) => {
                push_joined(&mut out, items);
            },
        }
        assert(out@ =~= value_text(self@));
        out
    }
}

} // verus!
