use parity_scale_codec::{Decode, Encode};
use sp_tracing::{
    DecodeError, WasmEntryAttributes, WasmFieldName, WasmFields, WasmLevel, WasmMetadata,
    WasmValue, WasmValuesSet,
};

fn sample_metadata() -> WasmMetadata {
    WasmMetadata {
        name: b"req".to_vec(),
        target: b"net".to_vec(),
        level: WasmLevel::WARN,
        file: b"net.rs".to_vec(),
        line: 42,
        mod_path: b"net::handler".to_vec(),
        is_span: false,
        fields: WasmFields::from(vec!["status"]),
    }
}

fn sample_entry() -> WasmEntryAttributes {
    WasmEntryAttributes {
        parent_id: Some(9),
        metadata: sample_metadata(),
        fields: WasmValuesSet::from(vec![(&"status", Some(WasmValue::U32(200)))]),
    }
}

#[test]
fn levels_are_written_as_their_rank() {
    assert_eq!(WasmLevel::ERROR.encode(), vec![0]);
    assert_eq!(WasmLevel::WARN.encode(), vec![1]);
    assert_eq!(WasmLevel::INFO.encode(), vec![2]);
    assert_eq!(WasmLevel::DEBUG.encode(), vec![3]);
    assert_eq!(WasmLevel::TRACE.encode(), vec![4]);
    assert_eq!(WasmLevel::TRACE.tag(), 4);
}

#[test]
fn levels_are_read_back() {
    let all = [
        WasmLevel::ERROR,
        WasmLevel::WARN,
        WasmLevel::INFO,
        WasmLevel::DEBUG,
        WasmLevel::TRACE,
    ];
    for level in all {
        let bytes = level.encode();
        assert_eq!(WasmLevel::decode(&bytes), Ok((level, &[][..])));
    }
}

#[test]
fn unknown_level_is_refused() {
    assert_eq!(WasmLevel::decode(&[5]), Err(DecodeError::UnknownLevel));
    assert_eq!(WasmLevel::decode(&[255]), Err(DecodeError::UnknownLevel));
}

#[test]
fn empty_input_is_refused() {
    assert_eq!(WasmLevel::decode(&[]), Err(DecodeError::UnexpectedEnd));
    assert_eq!(WasmValue::decode(&[]), Err(DecodeError::UnexpectedEnd));
    assert_eq!(WasmFieldName::decode(&[]), Err(DecodeError::UnexpectedEnd));
    assert_eq!(WasmFields::decode(&[]), Err(DecodeError::UnexpectedEnd));
    assert_eq!(WasmValuesSet::decode(&[]), Err(DecodeError::UnexpectedEnd));
    assert_eq!(WasmMetadata::decode(&[]), Err(DecodeError::UnexpectedEnd));
    assert_eq!(WasmEntryAttributes::decode(&[]), Err(DecodeError::UnexpectedEnd));
}

#[test]
fn integers_have_fixed_little_endian_width() {
    assert_eq!(WasmValue::U8(200).encode(), Some(vec![0, 200]));
    assert_eq!(WasmValue::I8(-1).encode(), Some(vec![1, 255]));
    assert_eq!(WasmValue::I8(-128).encode(), Some(vec![1, 128]));
    assert_eq!(WasmValue::U32(200).encode(), Some(vec![2, 200, 0, 0, 0]));
    assert_eq!(WasmValue::U32(0x0102_0304).encode(), Some(vec![2, 4, 3, 2, 1]));
    assert_eq!(WasmValue::I32(-2).encode(), Some(vec![3, 254, 255, 255, 255]));
    assert_eq!(
        WasmValue::I64(-2).encode(),
        Some(vec![4, 254, 255, 255, 255, 255, 255, 255, 255])
    );
    assert_eq!(
        WasmValue::U64(0x0102_0304_0506_0708).encode(),
        Some(vec![5, 8, 7, 6, 5, 4, 3, 2, 1])
    );
    assert_eq!(WasmValue::Bool(true).encode(), Some(vec![6, 1]));
    assert_eq!(WasmValue::Bool(false).encode(), Some(vec![6, 0]));
}

#[test]
fn equal_numbers_of_different_width_differ_on_the_wire() {
    assert_ne!(WasmValue::U32(1).encode(), WasmValue::U64(1).encode());
    assert_ne!(WasmValue::I32(1).encode(), WasmValue::I64(1).encode());
    assert_ne!(WasmValue::U8(1).encode(), WasmValue::I8(1).encode());
}

#[test]
fn byte_payloads_carry_a_length_prefix() {
    assert_eq!(WasmValue::Str(b"hi".to_vec()).encode(), Some(vec![7, 8, b'h', b'i']));
    assert_eq!(WasmValue::Formatted(b"hi".to_vec()).encode(), Some(vec![8, 8, b'h', b'i']));
    assert_eq!(WasmValue::Encoded(vec![1, 2, 3]).encode(), Some(vec![9, 12, 1, 2, 3]));
    assert_eq!(WasmValue::Str(Vec::new()).encode(), Some(vec![7, 0]));
}

#[test]
fn length_prefix_widens_at_its_limits() {
    let short = WasmFieldName::from(vec![7u8; 63]).encode().unwrap();
    assert_eq!(short.len(), 1 + 63);
    assert_eq!(short[0], 252);
    let two = WasmFieldName::from(vec![7u8; 64]).encode().unwrap();
    assert_eq!(two.len(), 2 + 64);
    assert_eq!(&two[..2], &[1, 1]);
    let two_max = WasmFieldName::from(vec![7u8; 16383]).encode().unwrap();
    assert_eq!(two_max.len(), 2 + 16383);
    assert_eq!(&two_max[..2], &[253, 255]);
    let four = WasmFieldName::from(vec![7u8; 16384]).encode().unwrap();
    assert_eq!(four.len(), 4 + 16384);
    assert_eq!(&four[..4], &[2, 0, 1, 0]);
}

#[test]
fn every_value_form_is_read_back() {
    let values = vec![
        WasmValue::U8(0),
        WasmValue::U8(255),
        WasmValue::I8(-128),
        WasmValue::I8(127),
        WasmValue::U32(u32::MAX),
        WasmValue::I32(i32::MIN),
        WasmValue::I32(-1),
        WasmValue::I64(i64::MIN),
        WasmValue::I64(i64::MAX),
        WasmValue::U64(u64::MAX),
        WasmValue::Bool(true),
        WasmValue::Bool(false),
        WasmValue::Str(b"text".to_vec()),
        WasmValue::Str(vec![0xff]),
        WasmValue::Formatted(vec![b'x'; 70]),
        WasmValue::Encoded(vec![0u8; 20000]),
    ];
    for value in values {
        let bytes = value.encode().unwrap();
        assert_eq!(WasmValue::decode(&bytes), Ok((value, &[][..])));
    }
}

#[test]
fn decoding_leaves_what_follows() {
    assert_eq!(
        WasmValue::decode(&[2, 200, 0, 0, 0, 77, 78]),
        Ok((WasmValue::U32(200), &[77u8, 78][..]))
    );
    assert_eq!(WasmLevel::decode(&[1, 9]), Ok((WasmLevel::WARN, &[9u8][..])));
}

#[test]
fn unknown_value_form_is_refused() {
    assert_eq!(WasmValue::decode(&[10, 0, 0, 0, 0]), Err(DecodeError::UnknownValue));
    assert_eq!(WasmValue::decode(&[200]), Err(DecodeError::UnknownValue));
}

#[test]
fn truncated_value_is_refused() {
    assert_eq!(WasmValue::decode(&[2, 200, 0, 0]), Err(DecodeError::UnexpectedEnd));
    assert_eq!(WasmValue::decode(&[5, 1, 2, 3, 4, 5, 6, 7]), Err(DecodeError::UnexpectedEnd));
    assert_eq!(WasmValue::decode(&[7, 12, b'a']), Err(DecodeError::UnexpectedEnd));
    assert_eq!(WasmValue::decode(&[0]), Err(DecodeError::UnexpectedEnd));
}

#[test]
fn invalid_boolean_is_refused() {
    assert_eq!(WasmValue::decode(&[6, 2]), Err(DecodeError::InvalidBool));
}

#[test]
fn invalid_presence_byte_is_refused() {
    assert_eq!(WasmValuesSet::decode(&[4, 4, b'a', 2]), Err(DecodeError::InvalidOption));
    assert_eq!(WasmEntryAttributes::decode(&[2, 0]), Err(DecodeError::InvalidOption));
}

#[test]
fn overlong_length_prefix_is_refused() {
    assert_eq!(WasmFieldName::decode(&[1, 0]), Err(DecodeError::InvalidLength));
    assert_eq!(WasmFieldName::decode(&[2, 0, 0, 0]), Err(DecodeError::InvalidLength));
    assert_eq!(WasmFieldName::decode(&[3, 1, 0, 0, 0]), Err(DecodeError::InvalidLength));
    assert_eq!(WasmFieldName::decode(&[7, 0, 0, 0, 0]), Err(DecodeError::InvalidLength));
}

#[test]
fn field_list_is_written_in_order() {
    let fields = WasmFields::from(vec!["b", "a", "b"]);
    assert_eq!(fields.encode(), Some(vec![12, 4, b'b', 4, b'a', 4, b'b']));
    let bytes = fields.encode().unwrap();
    assert_eq!(WasmFields::decode(&bytes), Ok((fields, &[][..])));
}

#[test]
fn empty_collections_are_one_byte() {
    assert_eq!(WasmFields::empty().encode(), Some(vec![0]));
    assert_eq!(WasmValuesSet::empty().encode(), Some(vec![0]));
    assert_eq!(WasmFields::decode(&[0]), Ok((WasmFields::empty(), &[][..])));
    assert_eq!(WasmValuesSet::decode(&[0]), Ok((WasmValuesSet::empty(), &[][..])));
}

#[test]
fn value_set_round_trip_keeps_presence_and_absence() {
    let set = WasmValuesSet::from(vec![(&"a", Some(WasmValue::U8(1))), (&"b", None)]);
    let bytes = set.encode().unwrap();
    assert_eq!(bytes, vec![8, 4, b'a', 1, 0, 1, 4, b'b', 0]);
    let (back, rest) = WasmValuesSet::decode(&bytes).unwrap();
    assert!(rest.is_empty());
    assert_eq!(back, set);
    assert_eq!(
        back,
        WasmValuesSet::from(vec![
            (WasmFieldName::from("a"), Some(WasmValue::U8(1))),
            (WasmFieldName::from("b"), None),
        ])
    );
    assert_ne!(
        back,
        WasmValuesSet::from(vec![(&"b", None), (&"a", Some(WasmValue::U8(1)))])
    );
}

#[test]
fn metadata_is_written_member_by_member() {
    let bytes = sample_metadata().encode().unwrap();
    let mut expected: Vec<u8> = Vec::new();
    expected.extend_from_slice(&[12, b'r', b'e', b'q']);
    expected.extend_from_slice(&[12, b'n', b'e', b't']);
    expected.push(1);
    expected.extend_from_slice(&[24, b'n', b'e', b't', b'.', b'r', b's']);
    expected.extend_from_slice(&[42, 0, 0, 0]);
    expected.push(48);
    expected.extend_from_slice(b"net::handler");
    expected.push(0);
    expected.extend_from_slice(&[4, 24, b's', b't', b'a', b't', b'u', b's']);
    assert_eq!(bytes, expected);
    assert_eq!(WasmMetadata::decode(&bytes), Ok((sample_metadata(), &[][..])));
}

#[test]
fn entry_round_trip() {
    let entry = sample_entry();
    let bytes = entry.encode().unwrap();
    assert_eq!(WasmEntryAttributes::decode(&bytes), Ok((entry, &[][..])));
    let mut without_parent = sample_entry();
    without_parent.parent_id = None;
    let bytes = without_parent.encode().unwrap();
    assert_eq!(bytes[0], 0);
    assert_eq!(WasmEntryAttributes::decode(&bytes), Ok((without_parent, &[][..])));
}

#[test]
fn entry_with_unknown_level_is_refused() {
    let mut bytes = sample_entry().encode().unwrap();
    let level_at = 1 + 8 + 4 + 4;
    assert_eq!(bytes[level_at], 1);
    bytes[level_at] = 5;
    assert_eq!(WasmEntryAttributes::decode(&bytes), Err(DecodeError::UnknownLevel));
}

#[test]
fn entry_with_unknown_value_form_is_refused() {
    let mut bytes = sample_entry().encode().unwrap();
    let tag_at = bytes.len() - 5;
    assert_eq!(bytes[tag_at], 2);
    bytes[tag_at] = 10;
    assert_eq!(WasmEntryAttributes::decode(&bytes), Err(DecodeError::UnknownValue));
}

#[test]
fn truncated_entry_is_refused() {
    let bytes = sample_entry().encode().unwrap();
    for cut in 0..bytes.len() {
        assert_eq!(WasmEntryAttributes::decode(&bytes[..cut]), Err(DecodeError::UnexpectedEnd));
    }
}

#[test]
fn bytes_agree_with_the_scale_codec() {
    assert_eq!(WasmValue::U32(200).encode().unwrap(), (2u8, 200u32).encode());
    assert_eq!(WasmValue::I32(-2).encode().unwrap(), (3u8, -2i32).encode());
    assert_eq!(WasmValue::I64(i64::MIN).encode().unwrap(), (4u8, i64::MIN).encode());
    assert_eq!(WasmValue::U64(u64::MAX).encode().unwrap(), (5u8, u64::MAX).encode());
    assert_eq!(WasmValue::I8(-3).encode().unwrap(), (1u8, -3i8).encode());
    assert_eq!(WasmValue::Bool(true).encode().unwrap(), (6u8, true).encode());
    for len in [0usize, 1, 63, 64, 65, 16383, 16384, 16385, 70000] {
        let payload = vec![0xabu8; len];
        assert_eq!(WasmFieldName::from(payload.clone()).encode().unwrap(), payload.encode());
        assert_eq!(
            WasmValue::Encoded(payload.clone()).encode().unwrap(),
            (9u8, payload).encode()
        );
    }
}

#[test]
fn entry_bytes_agree_with_the_scale_codec() {
    let by_codec = (
        Some(9u64),
        (
            b"req".to_vec(),
            b"net".to_vec(),
            1u8,
            b"net.rs".to_vec(),
            42u32,
            b"net::handler".to_vec(),
            false,
            vec![b"status".to_vec()],
        ),
        vec![(b"status".to_vec(), Some((2u8, 200u32)))],
    )
        .encode();
    assert_eq!(sample_entry().encode().unwrap(), by_codec);
}

#[test]
fn what_the_scale_codec_wrote_is_read() {
    let many: Vec<Vec<u8>> = (0..100u8).map(|i| vec![i; i as usize]).collect();
    let bytes = many.encode();
    let (fields, rest) = WasmFields::decode(&bytes).unwrap();
    assert!(rest.is_empty());
    let seen: Vec<Vec<u8>> = fields.iter().map(|n| n.as_bytes().to_vec()).collect();
    assert_eq!(seen, many);
    let set = vec![(b"k".to_vec(), None::<(u8, u64)>), (b"k".to_vec(), Some((5u8, 77u64)))];
    assert_eq!(
        WasmValuesSet::decode(&set.encode()),
        Ok((
            WasmValuesSet::from(vec![(&"k", None), (&"k", Some(WasmValue::U64(77)))]),
            &[][..]
        ))
    );
}

#[test]
fn what_this_wrote_is_read_by_the_scale_codec() {
    let bytes = WasmFields::from(vec!["b", "a", "b"]).encode().unwrap();
    let back = Vec::<Vec<u8>>::decode(&mut &bytes[..]).unwrap();
    assert_eq!(back, vec![b"b".to_vec(), b"a".to_vec(), b"b".to_vec()]);
    let bytes = WasmValue::I64(-5).encode().unwrap();
    assert_eq!(<(u8, i64)>::decode(&mut &bytes[..]).unwrap(), (4u8, -5i64));
}

#[test]
fn refusals_agree_with_the_scale_codec() {
    let malformed: Vec<Vec<u8>> = vec![
        vec![],
        vec![1, 0],
        vec![2, 0, 0, 0],
        vec![3, 1, 0, 0, 0],
        vec![7, 0, 0, 0, 0],
        vec![8, 1],
        vec![1],
    ];
    for bytes in malformed {
        assert!(WasmFieldName::decode(&bytes).is_err());
        assert!(Vec::<u8>::decode(&mut &bytes[..]).is_err());
    }
}

fn next_byte(state: &mut u64) -> u8 {
    *state = state.wrapping_mul(6364136223846793005).wrapping_add(1442695040888963407);
    (*state >> 33) as u8
}

fn next_u64(state: &mut u64) -> u64 {
    let mut v = 0u64;
    for _ in 0..8 {
        v = (v << 8) | next_byte(state) as u64;
    }
    v
}

fn value_by_codec(input: &[u8]) -> Option<(WasmValue, Vec<u8>)> {
    let mut cursor = input;
    let tag = u8::decode(&mut cursor).ok()?;
    let value = match tag {
        0 => WasmValue::U8(u8::decode(&mut cursor).ok()?),
        1 => WasmValue::I8(i8::decode(&mut cursor).ok()?),
        2 => WasmValue::U32(u32::decode(&mut cursor).ok()?),
        3 => WasmValue::I32(i32::decode(&mut cursor).ok()?),
        4 => WasmValue::I64(i64::decode(&mut cursor).ok()?),
        5 => WasmValue::U64(u64::decode(&mut cursor).ok()?),
        6 => WasmValue::Bool(bool::decode(&mut cursor).ok()?),
        7 => WasmValue::Str(Vec::<u8>::decode(&mut cursor).ok()?),
        8 => WasmValue::Formatted(Vec::<u8>::decode(&mut cursor).ok()?),
        9 => WasmValue::Encoded(Vec::<u8>::decode(&mut cursor).ok()?),
        _ => return None,
    };
    Some((value, cursor.to_vec()))
}

#[test]
fn length_prefix_agrees_with_the_scale_codec_on_every_start() {
    for first in 0..=255u8 {
        for second in 0..=255u8 {
            let mut input = vec![first, second, 1, 0, 0];
            input.extend_from_slice(&[7u8; 300]);
            let mut cursor = &input[..];
            let theirs = Vec::<u8>::decode(&mut cursor);
            match (WasmFieldName::decode(&input), theirs) {
                (Ok((name, rest)), Ok(bytes)) => {
                    assert_eq!(name.as_bytes(), &bytes[..]);
                    assert_eq!(rest, cursor);
                }
                (Err(_), Err(_)) => {}
                (mine, theirs) => {
                    panic!("{} {}: {:?} against {:?}", first, second, mine, theirs.is_ok())
                }
            }
        }
    }
}

#[test]
fn long_byte_strings_are_read_as_the_scale_codec_wrote_them() {
    for len in [16384usize, 16385, 70000] {
        let payload: Vec<u8> = (0..len).map(|i| (i % 251) as u8).collect();
        let mut bytes = payload.encode();
        bytes.extend_from_slice(&[1, 2, 3]);
        let (name, rest) = WasmFieldName::decode(&bytes).unwrap();
        assert_eq!(name.as_bytes(), &payload[..]);
        assert_eq!(rest, &[1u8, 2, 3][..]);
    }
}

#[test]
fn value_decoding_agrees_with_the_scale_codec_on_arbitrary_bytes() {
    let mut state = 1u64;
    for _ in 0..50000 {
        let len = (next_byte(&mut state) % 14) as usize;
        let mut input: Vec<u8> = (0..len).map(|_| next_byte(&mut state)).collect();
        if !input.is_empty() {
            input[0] %= 12;
        }
        if input.len() > 1 && input[0] >= 6 {
            input[1] %= 48;
        }
        match (WasmValue::decode(&input), value_by_codec(&input)) {
            (Ok((value, rest)), Some((theirs, their_rest))) => {
                assert_eq!(value, theirs);
                assert_eq!(rest, &their_rest[..]);
            }
            (Err(_), None) => {}
            (mine, theirs) => panic!("{:?}: {:?} against {:?}", input, mine, theirs),
        }
    }
}

#[test]
fn number_encoding_agrees_with_the_scale_codec_on_arbitrary_numbers() {
    let mut state = 7u64;
    for _ in 0..20000 {
        let n = next_u64(&mut state);
        assert_eq!(WasmValue::U64(n).encode().unwrap(), (5u8, n).encode());
        assert_eq!(WasmValue::I64(n as i64).encode().unwrap(), (4u8, n as i64).encode());
        assert_eq!(WasmValue::U32(n as u32).encode().unwrap(), (2u8, n as u32).encode());
        assert_eq!(WasmValue::I32(n as i32).encode().unwrap(), (3u8, n as i32).encode());
        assert_eq!(WasmValue::I8(n as i8).encode().unwrap(), (1u8, n as i8).encode());
        assert_eq!(WasmValue::U8(n as u8).encode().unwrap(), (0u8, n as u8).encode());
    }
}

#[test]
fn collection_lengths_agree_with_the_scale_codec() {
    for count in [0usize, 1, 2, 63, 64, 65, 300, 16383, 16384, 16385] {
        let names: Vec<Vec<u8>> = (0..count).map(|i| vec![(i % 256) as u8; i % 3]).collect();
        let fields = WasmFields::from(
            names.iter().map(|n| WasmFieldName::from(n.clone())).collect::<Vec<_>>(),
        );
        let bytes = fields.encode().unwrap();
        assert_eq!(bytes, names.encode());
        assert_eq!(WasmFields::decode(&bytes), Ok((fields, &[][..])));
    }
}
