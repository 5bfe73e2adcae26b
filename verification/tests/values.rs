use sp_tracing::{CaptureError, WasmFieldName, WasmFields, WasmValue, WasmValuesSet};

#[test]
fn each_native_type_has_its_own_variant() {
    assert_eq!(WasmValue::from(7u8), WasmValue::U8(7));
    assert_eq!(WasmValue::from(-7i8), WasmValue::I8(-7));
    assert_eq!(WasmValue::from(&-7i8), WasmValue::I8(-7));
    assert_eq!(WasmValue::from(7u32), WasmValue::U32(7));
    assert_eq!(WasmValue::from(&7u32), WasmValue::U32(7));
    assert_eq!(WasmValue::from(-7i32), WasmValue::I32(-7));
    assert_eq!(WasmValue::from(&-7i32), WasmValue::I32(-7));
    assert_eq!(WasmValue::from(7u64), WasmValue::U64(7));
    assert_eq!(WasmValue::from(-7i64), WasmValue::I64(-7));
    assert_eq!(WasmValue::from(true), WasmValue::Bool(true));
    assert_eq!(WasmValue::from(false), WasmValue::Bool(false));
}

#[test]
fn widths_are_not_conflated() {
    assert_ne!(WasmValue::from(1i8), WasmValue::from(1i32));
    assert_ne!(WasmValue::from(1u8), WasmValue::from(1u32));
    assert_ne!(WasmValue::from(1u32), WasmValue::from(1u64));
    assert_ne!(WasmValue::from(1i32), WasmValue::from(1i64));
    assert_ne!(WasmValue::from(1u8), WasmValue::from(1i8));
}

#[test]
fn extreme_integers_are_kept() {
    assert_eq!(WasmValue::from(u8::MAX), WasmValue::U8(255));
    assert_eq!(WasmValue::from(i8::MIN), WasmValue::I8(-128));
    assert_eq!(WasmValue::from(u32::MAX), WasmValue::U32(4294967295));
    assert_eq!(WasmValue::from(i32::MIN), WasmValue::I32(-2147483648));
    assert_eq!(WasmValue::from(u64::MAX), WasmValue::U64(18446744073709551615));
    assert_eq!(WasmValue::from(i64::MIN), WasmValue::I64(-9223372036854775808));
}

#[test]
fn text_becomes_str_with_its_bytes() {
    assert_eq!(WasmValue::from("hello"), WasmValue::Str(b"hello".to_vec()));
    assert_eq!(WasmValue::from(&"hello"), WasmValue::Str(b"hello".to_vec()));
    assert_eq!(WasmValue::from(""), WasmValue::Str(Vec::new()));
    assert_eq!(WasmValue::from("ü"), WasmValue::Str(vec![0xc3, 0xbc]));
}

#[test]
fn conversion_is_stable_when_repeated() {
    assert_eq!(WasmValue::from(42u32), WasmValue::from(42u32));
    assert_eq!(WasmValue::from("x"), WasmValue::from("x"));
    assert_eq!(WasmValue::from(&"x"), WasmValue::from("x"));
}

#[test]
fn rendered_output_becomes_formatted() {
    assert_eq!(
        WasmValue::from_rendered(Some(b"a=1".to_vec())),
        Ok(WasmValue::Formatted(b"a=1".to_vec()))
    );
    assert_eq!(WasmValue::from_rendered(Some(Vec::new())), Ok(WasmValue::Formatted(Vec::new())));
}

#[test]
fn failed_rendering_is_reported() {
    assert_eq!(WasmValue::from_rendered(None), Err(CaptureError));
}

#[test]
fn field_name_keeps_its_bytes() {
    assert_eq!(WasmFieldName::from("status").as_bytes(), b"status");
    assert_eq!(WasmFieldName::from(vec![0xffu8, 0x00]).as_bytes(), &[0xffu8, 0x00][..]);
    assert_eq!(WasmFieldName::from("a"), WasmFieldName::from(vec![97u8]));
}

#[test]
fn field_list_keeps_order_and_duplicates() {
    let fields = WasmFields::from(vec!["b", "a", "b"]);
    let seen: Vec<Vec<u8>> = fields.iter().map(|n| n.as_bytes().to_vec()).collect();
    assert_eq!(seen, vec![b"b".to_vec(), b"a".to_vec(), b"b".to_vec()]);
}

#[test]
fn field_list_from_names_keeps_order() {
    let names = vec![
        WasmFieldName::from("z"),
        WasmFieldName::from("y"),
        WasmFieldName::from("z"),
        WasmFieldName::from("a"),
    ];
    let fields = WasmFields::from(names.clone());
    let seen: Vec<WasmFieldName> = fields.iter().cloned().collect();
    assert_eq!(seen, names);
    assert_eq!(fields, WasmFields::from(vec!["z", "y", "z", "a"]));
}

#[test]
fn empty_field_list_has_no_names() {
    assert_eq!(WasmFields::empty().iter().count(), 0);
    assert_eq!(WasmFields::empty(), WasmFields::from(Vec::<&str>::new()));
}

#[test]
fn value_set_constructors_agree() {
    let a = WasmFieldName::from("a");
    let b = WasmFieldName::from("b");
    let owned = WasmValuesSet::from(vec![
        (a.clone(), Some(WasmValue::U8(1))),
        (b.clone(), None),
    ]);
    let by_name = WasmValuesSet::from(vec![(&&a, Some(WasmValue::U8(1))), (&&b, None)]);
    let by_text = WasmValuesSet::from(vec![(&"a", Some(WasmValue::U8(1))), (&"b", None)]);
    assert_eq!(owned, by_name);
    assert_eq!(owned, by_text);
}

#[test]
fn value_set_order_matters() {
    let ab = WasmValuesSet::from(vec![(&"a", Some(WasmValue::U8(1))), (&"b", None)]);
    let ba = WasmValuesSet::from(vec![(&"b", None), (&"a", Some(WasmValue::U8(1)))]);
    assert_ne!(ab, ba);
}

#[test]
fn empty_value_set_has_no_entries() {
    assert_eq!(
        WasmValuesSet::empty(),
        WasmValuesSet::from(Vec::<(WasmFieldName, Option<WasmValue>)>::new())
    );
    assert_eq!(WasmValuesSet::empty().render(), "WasmValuesSet([])");
}
