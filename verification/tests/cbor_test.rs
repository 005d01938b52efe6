use mkit::cbor::{Cbor, Info, Key, SimpleValue, Tag};
use mkit::convert::{FromCbor, IntoCbor};
use mkit::Error;
use std::cmp::Ordering;

fn encode(val: &Cbor) -> (Vec<u8>, usize) {
    let mut buf: Vec<u8> = vec![];
    let n = val.encode(&mut buf).unwrap();
    (buf, n)
}

fn roundtrip(val: Cbor) {
    let (buf, n) = encode(&val);
    let (back, m) = Cbor::decode(&buf).unwrap();
    assert_eq!(n, m);
    assert_eq!(val, back);
}

#[test]
fn test_concrete_cases() {
    let (buf, n) = encode(&23u64.into_cbor().unwrap());
    assert_eq!(buf, vec![0x17]);
    assert_eq!(n, 1);

    let (buf, n) = encode(&24u64.into_cbor().unwrap());
    assert_eq!(buf, vec![0x18, 0x18]);
    assert_eq!(n, 2);

    let (buf, n) = encode(&(-1i64).into_cbor().unwrap());
    assert_eq!(buf, vec![0x20]);
    assert_eq!(n, 1);

    let (buf, n) = encode(&"ab".into_cbor().unwrap());
    assert_eq!(buf, vec![0x62, b'a', b'b']);
    assert_eq!(n, 3);
}

#[test]
fn test_map_key_sorting() {
    // A map re-keyed and sorted by the canonical key order places the
    // boolean entry before the unsigned-integer entry.
    let mut entries = vec![
        (Key::U64(5), 2u64.into_cbor().unwrap()),
        (Key::Bool(true), 1u64.into_cbor().unwrap()),
    ];
    entries.sort_by(|a, b| a.0.cmp(&b.0));
    assert_eq!(entries[0].0, Key::Bool(true));
    assert_eq!(entries[1].0, Key::U64(5));
    roundtrip(entries.into_cbor().unwrap());
}

#[test]
fn test_roundtrip_values() {
    roundtrip(0u64.into_cbor().unwrap());
    roundtrip(23u64.into_cbor().unwrap());
    roundtrip(24u64.into_cbor().unwrap());
    roundtrip(255u64.into_cbor().unwrap());
    roundtrip(256u64.into_cbor().unwrap());
    roundtrip(65535u64.into_cbor().unwrap());
    roundtrip(65536u64.into_cbor().unwrap());
    roundtrip(u64::MAX.into_cbor().unwrap());
    roundtrip((-1i64).into_cbor().unwrap());
    roundtrip(i64::MIN.into_cbor().unwrap());
    roundtrip(true.into_cbor().unwrap());
    roundtrip(false.into_cbor().unwrap());
    roundtrip(SimpleValue::Null.into_cbor().unwrap());
    roundtrip(SimpleValue::F32(1.5f32.to_bits()).into_cbor().unwrap());
    roundtrip(SimpleValue::F64(f64::NAN.to_bits()).into_cbor().unwrap());
    roundtrip(Cbor::bytes_into_cbor(vec![1, 2, 3]).unwrap());
    roundtrip("hello world".to_string().into_cbor().unwrap());
    roundtrip(vec![1u64, 2, 3].into_cbor().unwrap());
    roundtrip(Vec::<u64>::new().into_cbor().unwrap());

    let map = vec![
        (Key::Bool(false), 1u64.into_cbor().unwrap()),
        (Key::N64(-42), "x".into_cbor().unwrap()),
        (Key::U64(7), vec![9u64].into_cbor().unwrap()),
        (Key::F32(2.5f32.to_bits()), 3u64.into_cbor().unwrap()),
        (Key::F64(6.5f64.to_bits()), 4u64.into_cbor().unwrap()),
        (Key::Bytes(vec![0xde, 0xad]), 5u64.into_cbor().unwrap()),
        (Key::Text("k".to_string()), 6u64.into_cbor().unwrap()),
    ];
    roundtrip(map.into_cbor().unwrap());

    let tagged = Cbor::Major6(Info::from_u64(77), Tag::from_value(77));
    roundtrip(tagged);
    let ident = Tag::from_identifier(42u64.into_cbor().unwrap());
    let num = ident.to_tag_value();
    roundtrip(Cbor::Major6(Info::from_u64(num), ident));
}

#[test]
fn test_minimal_width() {
    // The encoder picks the smallest width class: header plus 0/1/2/4/8
    // additional bytes.
    for (v, len) in [
        (0u64, 1),
        (23u64, 1),
        (24u64, 2),
        (255u64, 2),
        (256u64, 3),
        (65535u64, 3),
        (65536u64, 5),
        (0xFFFF_FFFFu64, 5),
        (0x1_0000_0000u64, 9),
        (u64::MAX, 9),
    ] {
        let (buf, n) = encode(&v.into_cbor().unwrap());
        assert_eq!(buf.len(), len);
        assert_eq!(n, len);
    }
}

#[test]
fn test_recursion_guard() {
    // Nested exactly to the recursion limit: encodes and decodes.
    let mut val = 1u64.into_cbor().unwrap();
    for _ in 0..999 {
        val = Cbor::Major4(Info::from_u64(1), vec![val]);
    }
    let (buf, n) = encode(&val);
    let (back, m) = Cbor::decode(&buf).unwrap();
    assert_eq!(n, m);
    assert_eq!(val, back);

    // One level past the limit: a structural error on encode...
    let deeper = Cbor::Major4(Info::from_u64(1), vec![val]);
    let mut out: Vec<u8> = vec![];
    assert_eq!(deeper.encode(&mut out), Err(Error::FailCbor));

    // ... and on decode, never a stack overflow.
    let mut bytes = vec![0x81u8; 1000];
    bytes.push(0x01);
    assert_eq!(Cbor::decode(&bytes), Err(Error::FailCbor));
    let mut bytes = vec![0x81u8; 999];
    bytes.push(0x01);
    assert!(Cbor::decode(&bytes).is_ok());
}

#[test]
fn test_indefinite_stream() {
    // Three indefinite chunks of lengths 2, 0 and 3 decode to one 5-byte
    // string, concatenated in order; the count covers all 10 bytes read,
    // the Break terminator's included.
    let bytes = vec![0x5f, 0x42, 1, 2, 0x40, 0x43, 3, 4, 5, 0xff];
    let (val, n) = Cbor::decode(&bytes).unwrap();
    assert_eq!(n, 10);
    match val {
        Cbor::Major2(Info::Indefinite, data) => assert_eq!(data, vec![1, 2, 3, 4, 5]),
        other => panic!("{:?}", other),
    }

    // Same for text chunks.
    let bytes = vec![0x7f, 0x62, b'a', b'b', 0x61, b'c', 0xff];
    let (val, n) = Cbor::decode(&bytes).unwrap();
    assert_eq!(n, 7);
    match val {
        Cbor::Major3(Info::Indefinite, data) => assert_eq!(data, b"abc".to_vec()),
        other => panic!("{:?}", other),
    }

    // Indefinite arrays and maps gather until a Break.
    let bytes = vec![0x9f, 0x01, 0x02, 0xff];
    let (val, n) = Cbor::decode(&bytes).unwrap();
    assert_eq!(n, 4);
    match val {
        Cbor::Major4(Info::Indefinite, items) => assert_eq!(items.len(), 2),
        other => panic!("{:?}", other),
    }
    // One pair, then a terminating pair whose value half is a Break: its key
    // is discarded but its bytes are counted.
    let bytes = vec![0xbf, 0x01, 0x02, 0x01, 0xff];
    let (val, n) = Cbor::decode(&bytes).unwrap();
    assert_eq!(n, 5);
    match val {
        Cbor::Major5(Info::Indefinite, entries) => {
            assert_eq!(entries.len(), 1);
            assert_eq!(entries[0].0, Key::U64(1));
        },
        other => panic!("{:?}", other),
    }

    // A Break in key position is a protocol violation.
    let bytes = vec![0xbf, 0xff, 0x01, 0x02, 0xff];
    assert_eq!(Cbor::decode(&bytes), Err(Error::FailCbor));

    // A mismatched chunk shape is a structural error.
    let bytes = vec![0x5f, 0x62, b'a', b'b', 0xff];
    assert_eq!(Cbor::decode(&bytes), Err(Error::FailConvert));
}

#[test]
fn test_indefinite_nested() {
    // An indefinite byte string nested in a definite array: the stream
    // position steps past the Break, so the element after it is read
    // correctly.
    let bytes = vec![0x82, 0x5f, 0x41, 1, 0xff, 0x05];
    let (val, n) = Cbor::decode(&bytes).unwrap();
    assert_eq!(n, 6);
    match val {
        Cbor::Major4(_, items) => {
            assert_eq!(items.len(), 2);
            assert_eq!(items[0], Cbor::Major2(Info::Indefinite, vec![1]));
            assert_eq!(items[1], 5u64.into_cbor().unwrap());
        },
        other => panic!("{:?}", other),
    }

    // The same array with its second element missing is a truncated stream.
    let bytes = vec![0x82, 0x5f, 0x41, 1, 0xff];
    assert_eq!(Cbor::decode(&bytes), Err(Error::IOError));

    // An indefinite array nested in a definite one.
    let bytes = vec![0x81, 0x9f, 0x01, 0xff];
    let (val, n) = Cbor::decode(&bytes).unwrap();
    assert_eq!(n, 4);
    match val {
        Cbor::Major4(_, items) => {
            assert_eq!(items.len(), 1);
            assert_eq!(items[0], Cbor::Major4(Info::Indefinite, vec![1u64.into_cbor().unwrap()]));
        },
        other => panic!("{:?}", other),
    }

    // An indefinite map nested in a definite array, followed by one more
    // element.
    let bytes = vec![0x82, 0xbf, 0x01, 0x02, 0x01, 0xff, 0x07];
    let (val, n) = Cbor::decode(&bytes).unwrap();
    assert_eq!(n, 7);
    match val {
        Cbor::Major4(_, items) => {
            assert_eq!(items.len(), 2);
            assert_eq!(items[1], 7u64.into_cbor().unwrap());
        },
        other => panic!("{:?}", other),
    }
}

#[test]
fn test_optional_collapse() {
    // None and Some(Null) produce byte-identical output.
    let none: Option<SimpleValue> = None;
    let some_null: Option<SimpleValue> = Some(SimpleValue::Null);
    let (b1, _) = encode(&none.into_cbor().unwrap());
    let (b2, _) = encode(&some_null.into_cbor().unwrap());
    assert_eq!(b1, b2);

    let round: Option<u64> = Option::from_cbor(Some(9u64).into_cbor().unwrap()).unwrap();
    assert_eq!(round, Some(9));
    let round: Option<u64> = Option::from_cbor(None::<u64>.into_cbor().unwrap()).unwrap();
    assert_eq!(round, None);
}

#[test]
fn test_decode_errors() {
    // Reserved info codes are always invalid structural failures.
    for b in [0x1c, 0x1d, 0x1e, 0xfc, 0xfd, 0xfe] {
        assert_eq!(Cbor::decode(&[b]), Err(Error::FailCbor), "{:#x}", b);
    }
    // Short reads fail, never panic.
    assert_eq!(Cbor::decode(&[]), Err(Error::IOError));
    assert_eq!(Cbor::decode(&[0x18]), Err(Error::IOError));
    assert_eq!(Cbor::decode(&[0x62, b'a']), Err(Error::IOError));
    // Unsupported simple values: undefined, unassigned, one-byte form,
    // half-precision float. All are structural failures.
    for b in [0xf7, 0xf0, 0xf8, 0xf9] {
        assert_eq!(Cbor::decode(&[b, 0, 0]), Err(Error::FailCbor), "{:#x}", b);
    }
    // A non-key-capable value in key position fails the map with a
    // conversion error.
    let bytes = vec![0xa1, 0x80, 0x01];
    assert_eq!(Cbor::decode(&bytes), Err(Error::FailConvert));
}

#[test]
fn test_array_conversions() {
    // A fixed-size array converts through the generic list form.
    let arr: [u16; 3] = [7, 300, 9];
    let val = arr.into_cbor().unwrap();
    let (buf, _) = encode(&val);
    let (back, _) = Cbor::decode(&buf).unwrap();
    let out: [u16; 3] = <[u16; 3]>::from_cbor(back).unwrap();
    assert_eq!(out, arr);

    // A count mismatch is a conversion failure.
    let val = vec![1u64, 2].into_cbor().unwrap();
    assert_eq!(<[u64; 3]>::from_cbor(val), Err(Error::FailConvert));
}

#[test]
fn test_clone_values() {
    let val = vec![
        (Key::Text("k".to_string()), vec![1u64, 2].into_cbor().unwrap()),
    ].into_cbor().unwrap();
    let copy = val.clone();
    assert_eq!(copy, val);
    let tag = Tag::from_identifier(5u64.into_cbor().unwrap());
    assert_eq!(tag.clone(), tag);
}

#[test]
fn test_simple_value_order() {
    assert_eq!(SimpleValue::Unassigned.to_type_order(), 4);
    assert_eq!(SimpleValue::True.to_type_order(), 8);
    assert_eq!(SimpleValue::False.to_type_order(), 12);
    assert_eq!(SimpleValue::Null.to_type_order(), 16);
    assert_eq!(SimpleValue::Undefined.to_type_order(), 20);
    assert_eq!(SimpleValue::Reserved24(9).to_type_order(), 24);
    assert_eq!(SimpleValue::F16(9).to_type_order(), 28);
    assert_eq!(SimpleValue::F32(0).to_type_order(), 32);
    assert_eq!(SimpleValue::F64(0).to_type_order(), 36);
    assert_eq!(SimpleValue::Break.to_type_order(), 40);

    // Encoding is refused for the decode-side placeholders.
    assert!(SimpleValue::Unassigned.into_cbor().is_err());
    assert!(SimpleValue::Undefined.into_cbor().is_err());
    assert!(SimpleValue::Reserved24(0).into_cbor().is_err());
    assert!(SimpleValue::F16(0).into_cbor().is_err());
}

#[test]
fn test_key_total_order() {
    let keys = vec![
        Key::Bool(false),
        Key::Bool(true),
        Key::N64(-10),
        Key::N64(-1),
        Key::U64(0),
        Key::U64(10),
        Key::F32(f32::NEG_INFINITY.to_bits()),
        Key::F32((-0.0f32).to_bits()),
        Key::F32(0.0f32.to_bits()),
        Key::F32(1.5f32.to_bits()),
        Key::F32(f32::NAN.to_bits()),
        Key::F64((-2.0f64).to_bits()),
        Key::F64(2.0f64.to_bits()),
        Key::Bytes(vec![]),
        Key::Bytes(vec![1]),
        Key::Bytes(vec![1, 2]),
        Key::Bytes(vec![2]),
        Key::Text("".to_string()),
        Key::Text("ab".to_string()),
        Key::Text("b".to_string()),
    ];
    for i in 0..keys.len() {
        assert_eq!(keys[i].cmp(&keys[i]), Ordering::Equal);
        for j in (i + 1)..keys.len() {
            assert_eq!(keys[i].cmp(&keys[j]), Ordering::Less, "{:?} {:?}", keys[i], keys[j]);
            assert_eq!(keys[j].cmp(&keys[i]), Ordering::Greater, "{:?} {:?}", keys[i], keys[j]);
        }
    }

    assert_eq!(Key::Bool(true).to_type_order(), 4);
    assert_eq!(Key::N64(-1).to_type_order(), 8);
    assert_eq!(Key::U64(1).to_type_order(), 8);
    assert_eq!(Key::F32(0).to_type_order(), 12);
    assert_eq!(Key::F64(0).to_type_order(), 16);
    assert_eq!(Key::Bytes(vec![]).to_type_order(), 20);
    assert_eq!(Key::Text(String::new()).to_type_order(), 24);
}

#[test]
fn test_conversions() {
    let v: u64 = u64::from_cbor(7u64.into_cbor().unwrap()).unwrap();
    assert_eq!(v, 7);
    let v: u8 = u8::from_cbor(255u8.into_cbor().unwrap()).unwrap();
    assert_eq!(v, 255);
    assert!(u8::from_cbor(256u64.into_cbor().unwrap()).is_err());
    let v: i64 = i64::from_cbor((-123i64).into_cbor().unwrap()).unwrap();
    assert_eq!(v, -123);
    let v: i32 = i32::from_cbor((-40i32).into_cbor().unwrap()).unwrap();
    assert_eq!(v, -40);
    assert!(i8::from_cbor(1000i64.into_cbor().unwrap()).is_err());
    let v: bool = bool::from_cbor(true.into_cbor().unwrap()).unwrap();
    assert!(v);
    assert!(bool::from_cbor(1u64.into_cbor().unwrap()).is_err());

    let v: String = String::from_cbor("héllo".to_string().into_cbor().unwrap()).unwrap();
    assert_eq!(v, "héllo");
    // Invalid UTF-8 is rejected only on conversion out to text.
    let raw = Cbor::Major3(Info::from_u64(2), vec![0xff, 0xfe]);
    let (buf, _) = encode(&raw);
    let (back, _) = Cbor::decode(&buf).unwrap();
    assert!(String::from_cbor(back).is_err());

    // A byte buffer has two legal encodings: major 2 via the bytes entry
    // point, or major 4, a list of small integers, via the generic path.
    let as_bytes = Cbor::bytes_into_cbor(vec![1u8, 2]).unwrap();
    let as_list = vec![1u8, 2].into_cbor().unwrap();
    let (b1, _) = encode(&as_bytes);
    let (b2, _) = encode(&as_list);
    assert_eq!(b1, vec![0x42, 1, 2]);
    assert_eq!(b2, vec![0x82, 1, 2]);
    assert_eq!(as_bytes.into_bytes().unwrap(), vec![1u8, 2]);
    assert!(as_list.into_bytes().is_err());

    let v: Vec<u64> = Vec::from_cbor(vec![1u64, 2, 3].into_cbor().unwrap()).unwrap();
    assert_eq!(v, vec![1, 2, 3]);

    let k = Key::from_cbor((-5i64).into_cbor().unwrap()).unwrap();
    assert_eq!(k, Key::N64(-5));
    assert!(Key::from_cbor(vec![1u64].into_cbor().unwrap()).is_err());
    assert!(Key::N64(5).into_cbor().is_err());
}

#[test]
fn test_tag_values() {
    assert_eq!(Tag::from_value(12).to_tag_value(), 12);
    let t = Tag::from_identifier(3u64.into_cbor().unwrap());
    assert_eq!(t.to_tag_value(), 39);
}
