use evtx::crc::{checksum, crc_feed};
use evtx::err::TokenError;
use evtx::instantiate::{bind_nodes, bind_one, coerce_value, emit_document, emit_one, lookup_value};
use evtx::model::{Attribute, Call, Node, NodeAttr, Placeholder, Slot};
use evtx::reader::{has_bytes, read_u16, read_u32, read_u64, read_u8};
use evtx::settings::{ParserSettings, DEFAULT_MAX_NESTING_DEPTH};
use evtx::text::{decode_utf16, push_decimal, push_decimal_fixed, push_hex_fixed, push_signed_decimal};
use evtx::value::{
    decode_fixed, decode_scalar, decode_sid, decode_value, read_be, read_bytes, read_guid,
    read_latin1, read_units, width_of, BinXmlValue, Guid, Scalar, Sid, SysTime,
};

fn scalar(v: Scalar) -> BinXmlValue {
    BinXmlValue::Scalar(v)
}

fn decoded(ty: u8, bytes: &[u8]) -> Result<BinXmlValue, TokenError> {
    // The value stands behind three bytes of something else.
    let mut buf = vec![0xAA, 0xBB, 0xCC];
    buf.extend_from_slice(bytes);
    buf.push(0xDD);
    decode_value(&buf, 3, bytes.len(), ty)
}

#[test]
fn little_endian_reads_are_bounds_checked() {
    let buf = [0x01, 0x02, 0x03, 0x04, 0x05, 0x06, 0x07, 0x08, 0x09];
    assert_eq!(read_u8(&buf, 8), Some(0x09));
    assert_eq!(read_u8(&buf, 9), None);
    assert_eq!(read_u16(&buf, 1), Some(0x0302));
    assert_eq!(read_u16(&buf, 8), None);
    assert_eq!(read_u32(&buf, 0), Some(0x0403_0201));
    assert_eq!(read_u32(&buf, 5), Some(0x0908_0706));
    assert_eq!(read_u32(&buf, 6), None);
    assert_eq!(read_u64(&buf, 1), Some(0x0908_0706_0504_0302));
    assert_eq!(read_u64(&buf, 2), None);
    assert_eq!(read_u64(&buf, usize::MAX), None);
    assert!(has_bytes(&buf, 9, 0));
    assert!(!has_bytes(&buf, 10, 0));
    assert!(!has_bytes(&buf, 1, usize::MAX));
}

#[test]
fn integers_are_decoded_by_width_and_sign() {
    assert_eq!(decoded(0x03, &[0x80]), Ok(scalar(Scalar::Int8(-128))));
    assert_eq!(decoded(0x03, &[0x7F]), Ok(scalar(Scalar::Int8(127))));
    assert_eq!(decoded(0x04, &[0xFF]), Ok(scalar(Scalar::UInt8(255))));
    assert_eq!(decoded(0x05, &[0xFE, 0xFF]), Ok(scalar(Scalar::Int16(-2))));
    assert_eq!(decoded(0x06, &[0xFE, 0xFF]), Ok(scalar(Scalar::UInt16(65534))));
    assert_eq!(decoded(0x07, &[0x00, 0x00, 0x00, 0x80]), Ok(scalar(Scalar::Int32(i32::MIN))));
    assert_eq!(decoded(0x08, &[0x10, 0x12, 0x00, 0x00]), Ok(scalar(Scalar::UInt32(4624))));
    assert_eq!(decoded(0x09, &[0xFF; 8]), Ok(scalar(Scalar::Int64(-1))));
    assert_eq!(
        decoded(0x09, &[0, 0, 0, 0, 0, 0, 0, 0x80]),
        Ok(scalar(Scalar::Int64(i64::MIN)))
    );
    assert_eq!(decoded(0x0A, &[0xFF; 8]), Ok(scalar(Scalar::UInt64(u64::MAX))));
}

#[test]
fn the_other_fixed_types_are_decoded() {
    assert_eq!(
        decoded(0x0B, &[0x00, 0x00, 0x80, 0x3F]),
        Ok(scalar(Scalar::Real32(0x3F80_0000)))
    );
    assert_eq!(f32::from_bits(0x3F80_0000), 1.0);
    assert_eq!(
        decoded(0x0C, &[0, 0, 0, 0, 0, 0, 0xF0, 0x3F]),
        Ok(scalar(Scalar::Real64(0x3FF0_0000_0000_0000)))
    );
    assert_eq!(f64::from_bits(0x3FF0_0000_0000_0000), 1.0);
    assert_eq!(decoded(0x0D, &[0, 0, 0, 0]), Ok(scalar(Scalar::Bool(false))));
    assert_eq!(decoded(0x0D, &[0, 1, 0, 0]), Ok(scalar(Scalar::Bool(true))));
    assert_eq!(decoded(0x14, &[0x1A, 0, 0, 0]), Ok(scalar(Scalar::HexInt32(26))));
    assert_eq!(decoded(0x15, &[0x1A, 0, 0, 0, 0, 0, 0, 1]), Ok(scalar(Scalar::HexInt64(0x0100_0000_0000_001A))));
    assert_eq!(
        decoded(0x11, &[0x80, 0x3E, 0xD5, 0xDE, 0xB1, 0x9D, 0x01, 0x00]),
        Ok(scalar(Scalar::FileTime(0x0001_9DB1_DED5_3E80)))
    );
    let guid: Vec<u8> = (0u8..16).map(|i| i * 0x11).collect();
    assert_eq!(
        decoded(0x0F, &guid),
        Ok(scalar(Scalar::Guid(Guid {
            data1: 0x3322_1100,
            data2: 0x5544,
            data3: 0x7766,
            data4: 0x8899_AABB_CCDD_EEFF
        })))
    );
    let mut time = Vec::new();
    for field in [2019u16, 3, 4, 7, 15, 4, 5, 6] {
        time.extend_from_slice(&field.to_le_bytes());
    }
    assert_eq!(
        decoded(0x12, &time),
        Ok(scalar(Scalar::SysTime(SysTime {
            year: 2019,
            month: 3,
            day_of_week: 4,
            day: 7,
            hour: 15,
            minute: 4,
            second: 5,
            millis: 6
        })))
    );
}

#[test]
fn the_types_of_free_length_are_decoded() {
    assert_eq!(decoded(0x00, &[]), Ok(BinXmlValue::Null));
    assert_eq!(decoded(0x00, &[1, 2, 3]), Ok(BinXmlValue::Null));
    assert_eq!(
        decoded(0x01, &[0x68, 0x00, 0xE9, 0x00, 0x3D, 0xD8, 0x00, 0xDE]),
        Ok(scalar(Scalar::Text("h\u{e9}\u{1F600}".to_string())))
    );
    assert_eq!(decoded(0x01, &[]), Ok(scalar(Scalar::Text(String::new()))));
    assert_eq!(decoded(0x02, &[0x41, 0xE9]), Ok(scalar(Scalar::Ansi("A\u{e9}".to_string()))));
    assert_eq!(decoded(0x0E, &[0xDE, 0xAD]), Ok(scalar(Scalar::Binary(vec![0xDE, 0xAD]))));
    let sid = [1, 2, 0, 0, 0, 0, 0, 5, 21, 0, 0, 0, 0x39, 0x30, 0, 0];
    assert_eq!(
        decoded(0x13, &sid),
        Ok(scalar(Scalar::Sid(Sid { revision: 1, authority: 5, sub_authorities: vec![21, 12345] })))
    );
    assert_eq!(
        decoded(0x86, &[1, 0, 2, 0, 3, 0]),
        Ok(BinXmlValue::Array(0x06, vec![Scalar::UInt16(1), Scalar::UInt16(2), Scalar::UInt16(3)]))
    );
    assert_eq!(decoded(0x88, &[]), Ok(BinXmlValue::Array(0x08, vec![])));
}

fn texts(items: &[&str]) -> BinXmlValue {
    BinXmlValue::Array(0x01, items.iter().map(|t| Scalar::Text(t.to_string())).collect())
}

#[test]
fn an_array_of_strings_is_cut_at_the_zero_units() {
    let units = |s: &str| -> Vec<u8> {
        let mut out = Vec::new();
        for u in s.encode_utf16() {
            out.extend_from_slice(&u.to_le_bytes());
        }
        out
    };
    assert_eq!(decoded(0x81, &units("ab\0cd\0")), Ok(texts(&["ab", "cd"])));
    // The last string may lack its zero unit.
    assert_eq!(decoded(0x81, &units("ab\0cd")), Ok(texts(&["ab", "cd"])));
    assert_eq!(decoded(0x81, &units("one")), Ok(texts(&["one"])));
    // Every zero unit ends a string, an empty one too.
    assert_eq!(decoded(0x81, &units("\0a\0\0")), Ok(texts(&["", "a", ""])));
    assert_eq!(decoded(0x81, &units("")), Ok(texts(&[])));
    assert_eq!(
        decoded(0x81, &units("gr\u{fc}n\0\u{1F600}\0")),
        Ok(texts(&["gr\u{fc}n", "\u{1F600}"]))
    );
    assert_eq!(texts(&["ab", "cd"]).render(), "ab,cd");
    assert_eq!(texts(&["ab", "cd"]).type_tag(), 0x81);
}

#[test]
fn values_that_do_not_fit_their_type_are_refused() {
    assert_eq!(decoded(0x08, &[1, 2, 3]), Err(TokenError::MalformedValue));
    assert_eq!(decoded(0x03, &[]), Err(TokenError::MalformedValue));
    assert_eq!(decoded(0x0F, &[0; 15]), Err(TokenError::MalformedValue));
    assert_eq!(decoded(0x13, &[1, 2, 0, 0, 0, 0, 0, 5]), Err(TokenError::MalformedValue));
    assert_eq!(decoded(0x13, &[1, 0, 0]), Err(TokenError::MalformedValue));
    assert_eq!(decoded(0x86, &[1, 0, 2]), Err(TokenError::MalformedValue));
    assert_eq!(decoded(0x01, &[0x41]), Err(TokenError::MalformedString));
    assert_eq!(decoded(0x01, &[0x00, 0xDC]), Err(TokenError::MalformedString));
    assert_eq!(decoded(0x01, &[0x00, 0xD8, 0x41, 0x00]), Err(TokenError::MalformedString));
    assert_eq!(decoded(0x10, &[0; 4]), Err(TokenError::UnsupportedValueType));
    assert_eq!(decoded(0x21, &[]), Err(TokenError::UnsupportedValueType));
    assert_eq!(decoded(0x8E, &[0x41, 0]), Err(TokenError::UnsupportedValueType));
    assert_eq!(decoded(0x93, &[]), Err(TokenError::UnsupportedValueType));
    assert_eq!(decoded(0x81, &[0x41]), Err(TokenError::MalformedString));
    assert_eq!(decoded(0x81, &[0x41, 0, 0, 0, 0x00, 0xD8, 0, 0]), Err(TokenError::MalformedString));
    let buf = [0u8; 8];
    assert_eq!(decode_value(&buf, 5, 4, 0x08), Err(TokenError::UnexpectedEof));
    assert_eq!(decode_value(&buf, 9, 0, 0x00), Err(TokenError::UnexpectedEof));
    assert_eq!(decode_scalar(&buf, 7, 2, 0x06), Err(TokenError::UnexpectedEof));
    assert_eq!(decode_scalar(&buf, 6, 2, 0x06), Ok(Scalar::UInt16(0)));
}

#[test]
fn the_parts_of_decoding_can_be_used_alone() {
    let buf = [0x12, 0x34, 0x56, 0x78, 0x9A, 0xBC, 0xDE, 0xF0, 0x41, 0x00, 0x42, 0x00];
    assert_eq!(read_be(&buf, 0, 6), 0x1234_5678_9ABC);
    assert_eq!(read_be(&buf, 7, 0), 0);
    assert_eq!(read_be(&buf, 0, 8), 0x1234_5678_9ABC_DEF0);
    assert_eq!(read_units(&buf, 8, 2), vec![0x41, 0x42]);
    assert_eq!(read_bytes(&buf, 1, 3), vec![0x34, 0x56, 0x78]);
    assert_eq!(read_latin1(&buf, 8, 3), "A\0B");
    assert_eq!(decode_fixed(&buf, 0, 0x06), Scalar::UInt16(0x3412));
    assert_eq!(width_of(0x06), 2);
    assert_eq!(width_of(0x0F), 16);
    assert_eq!(width_of(0x01), 0);
    assert_eq!(width_of(0x13), 0);
    let guid_bytes: Vec<u8> = (1u8..=16).collect();
    assert_eq!(
        read_guid(&guid_bytes, 0),
        Guid { data1: 0x0403_0201, data2: 0x0605, data3: 0x0807, data4: 0x090A_0B0C_0D0E_0F10 }
    );
    assert_eq!(
        decode_sid(&[1, 0, 0, 0, 0, 0, 0, 5], 0, 8),
        Ok(Sid { revision: 1, authority: 5, sub_authorities: vec![] })
    );
    assert_eq!(decode_utf16(&vec![0x48, 0x69]), Some("Hi".to_string()));
    assert_eq!(decode_utf16(&vec![0xDC00]), None);
    assert_eq!(decode_utf16(&vec![0xD83D]), None);
    assert_eq!(decode_utf16(&vec![0xD83D, 0xDE00]), Some("\u{1F600}".to_string()));
    assert_eq!(decode_utf16(&vec![0xFFFF, 0xD7FF, 0xE000]), Some("\u{FFFF}\u{D7FF}\u{E000}".to_string()));
}

#[test]
fn type_tags_are_those_of_the_format() {
    assert_eq!(BinXmlValue::Null.type_tag(), 0x00);
    assert_eq!(scalar(Scalar::Text(String::new())).type_tag(), 0x01);
    assert_eq!(scalar(Scalar::Ansi(String::new())).type_tag(), 0x02);
    assert_eq!(scalar(Scalar::Int8(0)).type_tag(), 0x03);
    assert_eq!(scalar(Scalar::UInt64(0)).type_tag(), 0x0A);
    assert_eq!(scalar(Scalar::Real32(0)).type_tag(), 0x0B);
    assert_eq!(scalar(Scalar::Bool(true)).type_tag(), 0x0D);
    assert_eq!(scalar(Scalar::Binary(vec![])).type_tag(), 0x0E);
    assert_eq!(scalar(Scalar::FileTime(0)).type_tag(), 0x11);
    assert_eq!(scalar(Scalar::HexInt64(0)).type_tag(), 0x15);
    assert_eq!(BinXmlValue::Array(0x08, vec![]).type_tag(), 0x88);
    assert_eq!(Scalar::Sid(Sid { revision: 1, authority: 5, sub_authorities: vec![] }).type_tag(), 0x13);
}

#[test]
fn every_type_has_its_text() {
    assert_eq!(BinXmlValue::Null.render(), "");
    assert_eq!(Scalar::Text("a<b".to_string()).render(), "a<b");
    assert_eq!(Scalar::Ansi("caf\u{e9}".to_string()).render(), "caf\u{e9}");
    assert_eq!(Scalar::Int8(-128).render(), "-128");
    assert_eq!(Scalar::UInt8(0).render(), "0");
    assert_eq!(Scalar::Int16(-1).render(), "-1");
    assert_eq!(Scalar::UInt16(65535).render(), "65535");
    assert_eq!(Scalar::Int32(i32::MIN).render(), "-2147483648");
    assert_eq!(Scalar::UInt32(4624).render(), "4624");
    assert_eq!(Scalar::Int64(i64::MIN).render(), "-9223372036854775808");
    assert_eq!(Scalar::Int64(i64::MAX).render(), "9223372036854775807");
    assert_eq!(Scalar::UInt64(u64::MAX).render(), "18446744073709551615");
    assert_eq!(Scalar::Real32(0x3F80_0000).render(), "0x3F800000");
    assert_eq!(Scalar::Real64(0x3FF0_0000_0000_0000).render(), "0x3FF0000000000000");
    assert_eq!(Scalar::Bool(true).render(), "true");
    assert_eq!(Scalar::Bool(false).render(), "false");
    assert_eq!(Scalar::Binary(vec![0xDE, 0xAD, 0x00, 0x0F]).render(), "DEAD000F");
    assert_eq!(Scalar::Binary(vec![]).render(), "");
    assert_eq!(
        Scalar::Guid(Guid {
            data1: 0x3322_1100,
            data2: 0x5544,
            data3: 0x7766,
            data4: 0x8899_AABB_CCDD_EEFF
        })
        .render(),
        "33221100-5544-7766-8899-AABBCCDDEEFF"
    );
    assert_eq!(Scalar::FileTime(132_011_764_077_297_664).render(), "132011764077297664");
    assert_eq!(
        Scalar::SysTime(SysTime {
            year: 2019,
            month: 3,
            day_of_week: 4,
            day: 7,
            hour: 15,
            minute: 4,
            second: 5,
            millis: 6
        })
        .render(),
        "2019-03-07T15:04:05.006Z"
    );
    assert_eq!(
        Scalar::Sid(Sid { revision: 1, authority: 5, sub_authorities: vec![21, 12345, 0] }).render(),
        "S-1-5-21-12345-0"
    );
    assert_eq!(Scalar::Sid(Sid { revision: 1, authority: 5, sub_authorities: vec![] }).render(), "S-1-5");
    assert_eq!(Scalar::HexInt32(26).render(), "0x0000001A");
    assert_eq!(Scalar::HexInt64(0xABCDEF).render(), "0x0000000000ABCDEF");
    assert_eq!(
        BinXmlValue::Array(0x06, vec![Scalar::UInt16(1), Scalar::UInt16(20), Scalar::UInt16(300)])
            .render(),
        "1,20,300"
    );
    assert_eq!(BinXmlValue::Array(0x06, vec![Scalar::UInt16(7)]).render(), "7");
    assert_eq!(BinXmlValue::Array(0x06, vec![]).render(), "");
    assert_eq!(scalar(Scalar::Int8(-5)).render(), "-5");
}

#[test]
fn numbers_are_appended_to_what_is_there() {
    let mut s = String::from("n=");
    push_decimal(&mut s, 0);
    push_decimal(&mut s, 1234567890);
    assert_eq!(s, "n=01234567890");
    let mut s = String::from("x");
    push_signed_decimal(&mut s, -42);
    push_signed_decimal(&mut s, 42);
    assert_eq!(s, "x-4242");
    let mut s = String::new();
    push_decimal_fixed(&mut s, 7, 3);
    push_decimal_fixed(&mut s, 12345, 2);
    push_decimal_fixed(&mut s, 9, 0);
    assert_eq!(s, "00745");
    let mut s = String::new();
    push_hex_fixed(&mut s, 0xBEEF, 6);
    push_hex_fixed(&mut s, 0x1234, 2);
    assert_eq!(s, "00BEEF34");
}

#[test]
fn the_checksum_is_crc_32() {
    assert_eq!(checksum(b"123456789", 0, 9), 0xCBF4_3926);
    assert_eq!(checksum(b"123456789", 4, 4), 0);
    assert_eq!(checksum(b"a", 0, 1), 0xE8B7_BE43);
    assert_eq!(checksum(b"xx123456789yy", 2, 11), 0xCBF4_3926);
    // Two runs fed one after the other are their concatenation.
    let first = crc_feed(0xFFFF_FFFF, b"12345", 0, 5);
    assert_eq!(crc_feed(first, b"6789", 0, 4) ^ 0xFFFF_FFFF, 0xCBF4_3926);
}

fn placeholder(index: u16, ty: u8, optional: bool) -> Placeholder {
    Placeholder { index, ty, optional }
}

#[test]
fn coercion_follows_its_table() {
    let normal = |ty| placeholder(0, ty, false);
    let number = scalar(Scalar::UInt32(70000));
    // The declared type, and the untyped placeholder.
    assert_eq!(coerce_value(normal(0x08), &number), Ok(scalar(Scalar::UInt32(70000))));
    assert_eq!(coerce_value(normal(0x00), &number), Ok(scalar(Scalar::UInt32(70000))));
    assert_eq!(coerce_value(normal(0x00), &BinXmlValue::Null), Ok(BinXmlValue::Null));
    // Null.
    assert_eq!(coerce_value(placeholder(0, 0x08, true), &BinXmlValue::Null), Ok(BinXmlValue::Null));
    assert_eq!(coerce_value(normal(0x08), &BinXmlValue::Null), Err(TokenError::TypeMismatch));
    // Unsigned to unsigned and to hexadecimal, where the number fits.
    assert_eq!(coerce_value(normal(0x0A), &number), Ok(scalar(Scalar::UInt64(70000))));
    assert_eq!(coerce_value(normal(0x14), &number), Ok(scalar(Scalar::HexInt32(70000))));
    assert_eq!(coerce_value(normal(0x15), &number), Ok(scalar(Scalar::HexInt64(70000))));
    assert_eq!(coerce_value(normal(0x06), &number), Err(TokenError::TypeMismatch));
    assert_eq!(
        coerce_value(normal(0x04), &scalar(Scalar::UInt64(255))),
        Ok(scalar(Scalar::UInt8(255)))
    );
    assert_eq!(
        coerce_value(normal(0x04), &scalar(Scalar::UInt64(256))),
        Err(TokenError::TypeMismatch)
    );
    // Signed to signed.
    assert_eq!(coerce_value(normal(0x09), &scalar(Scalar::Int8(-3))), Ok(scalar(Scalar::Int64(-3))));
    assert_eq!(
        coerce_value(normal(0x03), &scalar(Scalar::Int32(-129))),
        Err(TokenError::TypeMismatch)
    );
    assert_eq!(coerce_value(normal(0x03), &scalar(Scalar::Int32(-128))), Ok(scalar(Scalar::Int8(-128))));
    // Nothing else.
    assert_eq!(coerce_value(normal(0x07), &number), Err(TokenError::TypeMismatch));
    assert_eq!(coerce_value(normal(0x08), &scalar(Scalar::Int8(1))), Err(TokenError::TypeMismatch));
    assert_eq!(
        coerce_value(normal(0x08), &scalar(Scalar::Text("1".to_string()))),
        Err(TokenError::TypeMismatch)
    );
    assert_eq!(
        coerce_value(normal(0x08), &BinXmlValue::Array(0x08, vec![])),
        Err(TokenError::TypeMismatch)
    );
    assert_eq!(
        coerce_value(normal(0x88), &BinXmlValue::Array(0x08, vec![Scalar::UInt32(1)])),
        Ok(BinXmlValue::Array(0x08, vec![Scalar::UInt32(1)]))
    );
}

#[test]
fn a_placeholder_takes_its_value_by_ordinal() {
    let subs = vec![scalar(Scalar::UInt8(1)), scalar(Scalar::Text("two".to_string()))];
    assert_eq!(lookup_value(placeholder(1, 0x01, false), &subs), Ok(scalar(Scalar::Text("two".to_string()))));
    assert_eq!(lookup_value(placeholder(0, 0x06, false), &subs), Ok(scalar(Scalar::UInt16(1))));
    assert_eq!(lookup_value(placeholder(2, 0x01, true), &subs), Err(TokenError::MissingSubstitution));
    assert_eq!(lookup_value(placeholder(1, 0x08, false), &subs), Err(TokenError::TypeMismatch));
}

fn template() -> Vec<Node> {
    vec![
        Node::Open {
            name: "Event".to_string(),
            attributes: vec![
                NodeAttr { name: "fixed".to_string(), value: Slot::Literal(scalar(Scalar::Bool(true))) },
                NodeAttr { name: "id".to_string(), value: Slot::Sub(placeholder(0, 0x08, false)) },
            ],
        },
        Node::Chars("text".to_string()),
        Node::Sub(placeholder(1, 0x00, true)),
        Node::Close,
    ]
}

#[test]
fn binding_replaces_placeholders_and_nothing_else() {
    let nodes = template();
    let subs = vec![scalar(Scalar::UInt32(9)), scalar(Scalar::HexInt32(255))];
    let bound = bind_nodes(&nodes, &subs).unwrap();
    assert_eq!(
        bound,
        vec![
            Node::Open {
                name: "Event".to_string(),
                attributes: vec![
                    NodeAttr {
                        name: "fixed".to_string(),
                        value: Slot::Literal(scalar(Scalar::Bool(true)))
                    },
                    NodeAttr { name: "id".to_string(), value: Slot::Literal(scalar(Scalar::UInt32(9))) },
                ],
            },
            Node::Chars("text".to_string()),
            Node::Chars("0x000000FF".to_string()),
            Node::Close,
        ]
    );
    assert_eq!(bind_one(&nodes[3], &subs), Ok(Node::Close));
    assert_eq!(bind_one(&nodes[2], &vec![]), Err(TokenError::MissingSubstitution));
    // The first node that cannot be bound gives the error.
    let bad = vec![scalar(Scalar::Text("x".to_string()))];
    assert_eq!(bind_nodes(&nodes, &bad), Err(TokenError::TypeMismatch));
    assert_eq!(bind_nodes(&vec![], &bad), Ok(vec![]));
}

#[test]
fn bound_nodes_become_calls_one_for_one() {
    let nodes = template();
    let subs = vec![scalar(Scalar::UInt32(9)), BinXmlValue::Null];
    let bound = bind_nodes(&nodes, &subs).unwrap();
    assert_eq!(
        emit_document(&bound),
        Ok(vec![
            Call::StartOfStream,
            Call::OpenStartElement {
                name: "Event".to_string(),
                attributes: vec![
                    Attribute { name: "fixed".to_string(), value: scalar(Scalar::Bool(true)) },
                    Attribute { name: "id".to_string(), value: scalar(Scalar::UInt32(9)) },
                ],
            },
            Call::Characters("text".to_string()),
            Call::Characters(String::new()),
            Call::CloseElement,
            Call::EndOfStream,
        ])
    );
    assert_eq!(emit_document(&nodes), Err(TokenError::UnboundSubstitution));
    assert_eq!(emit_one(&nodes[2]), Err(TokenError::UnboundSubstitution));
    assert_eq!(emit_one(&nodes[1]), Ok(Call::Characters("text".to_string())));
    assert_eq!(emit_document(&vec![]), Ok(vec![Call::StartOfStream, Call::EndOfStream]));
}

#[test]
fn settings_are_built_step_by_step() {
    let defaults = ParserSettings::new();
    assert_eq!(defaults.get_num_threads(), 1);
    assert!(!defaults.should_validate_checksums());
    assert!(!defaults.should_separate_json_attributes());
    assert_eq!(defaults.get_max_nesting_depth(), DEFAULT_MAX_NESTING_DEPTH);
    assert_eq!(DEFAULT_MAX_NESTING_DEPTH, 256);
    let changed = defaults
        .num_threads(4)
        .validate_checksums(true)
        .separate_json_attributes(true)
        .max_nesting_depth(8);
    assert_eq!(changed.get_num_threads(), 4);
    assert!(changed.should_validate_checksums());
    assert!(changed.should_separate_json_attributes());
    assert_eq!(changed.get_max_nesting_depth(), 8);
    // No threads at all is one thread.
    assert_eq!(changed.num_threads(0).get_num_threads(), 1);
    assert_eq!(
        changed,
        ParserSettings {
            thread_count: 4,
            validate_checksums: true,
            separate_attributes_in_output: true,
            max_nesting_depth: 8
        }
    );
}
