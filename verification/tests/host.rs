use sp_tracing::host::{
    DESCRIPTOR_COUNT, GENERIC_FIELDS, WASM_NAME_KEY, WASM_TARGET_KEY, WASM_TRACE_IDENTIFIER,
};
use sp_tracing::text::lossy_text;
use sp_tracing::{
    Descriptor, HostSpan, WasmEntryAttributes, WasmFields, WasmLevel, WasmMetadata, WasmValue,
    WasmValuesSet,
};

fn entry(is_span: bool) -> WasmEntryAttributes {
    WasmEntryAttributes {
        parent_id: None,
        metadata: WasmMetadata {
            name: b"req".to_vec(),
            target: b"net".to_vec(),
            level: WasmLevel::WARN,
            file: b"net.rs".to_vec(),
            line: 42,
            mod_path: b"net::handler".to_vec(),
            is_span,
            fields: WasmFields::from(vec!["status"]),
        },
        fields: WasmValuesSet::from(vec![(&"status", Some(WasmValue::U32(200)))]),
    }
}

fn levels() -> [WasmLevel; 5] {
    [WasmLevel::ERROR, WasmLevel::WARN, WasmLevel::INFO, WasmLevel::DEBUG, WasmLevel::TRACE]
}

fn all_descriptors() -> [Descriptor; 10] {
    [
        Descriptor::SpanError,
        Descriptor::SpanWarn,
        Descriptor::SpanInfo,
        Descriptor::SpanDebug,
        Descriptor::SpanTrace,
        Descriptor::EventError,
        Descriptor::EventWarn,
        Descriptor::EventInfo,
        Descriptor::EventDebug,
        Descriptor::EventTrace,
    ]
}

#[test]
fn selection_matches_level_and_kind() {
    for level in levels() {
        for is_span in [true, false] {
            let mut e = entry(is_span);
            e.metadata.level = level;
            let d = Descriptor::from(&e.metadata);
            assert_eq!(d.level(), level);
            assert_eq!(d.is_span(), is_span);
        }
    }
}

#[test]
fn ten_pairs_select_ten_descriptors() {
    let mut seen: Vec<Descriptor> = Vec::new();
    let mut slots: Vec<usize> = Vec::new();
    for level in levels() {
        for is_span in [true, false] {
            let mut e = entry(is_span);
            e.metadata.level = level;
            let d = Descriptor::from(&e.metadata);
            assert!(!seen.contains(&d));
            assert!(d.slot() < DESCRIPTOR_COUNT);
            assert!(!slots.contains(&d.slot()));
            seen.push(d);
            slots.push(d.slot());
        }
    }
    assert_eq!(seen.len(), 10);
    for d in all_descriptors() {
        assert!(seen.contains(&d));
    }
}

#[test]
fn selection_picks_the_named_descriptor() {
    let mut e = entry(true);
    e.metadata.level = WasmLevel::ERROR;
    assert_eq!(Descriptor::from(&e.metadata), Descriptor::SpanError);
    e.metadata.level = WasmLevel::TRACE;
    assert_eq!(Descriptor::from(&e.metadata), Descriptor::SpanTrace);
    e.metadata.is_span = false;
    assert_eq!(Descriptor::from(&e.metadata), Descriptor::EventTrace);
    e.metadata.level = WasmLevel::INFO;
    assert_eq!(Descriptor::from(&e.metadata), Descriptor::EventInfo);
    e.metadata.level = WasmLevel::DEBUG;
    assert_eq!(Descriptor::from(&e.metadata), Descriptor::EventDebug);
}

#[test]
fn table_order_is_spans_then_events_by_severity() {
    let slots: Vec<usize> = all_descriptors().iter().map(|d| d.slot()).collect();
    assert_eq!(slots, vec![0, 1, 2, 3, 4, 5, 6, 7, 8, 9]);
    assert_eq!(Descriptor::SpanWarn.level(), WasmLevel::WARN);
    assert!(Descriptor::SpanWarn.is_span());
    assert_eq!(Descriptor::EventDebug.level(), WasmLevel::DEBUG);
    assert!(!Descriptor::EventDebug.is_span());
}

#[test]
fn table_lookup_inverts_slot() {
    for d in all_descriptors() {
        assert_eq!(Descriptor::at(d.slot()), Some(d));
    }
    assert_eq!(Descriptor::at(10), None);
    assert_eq!(Descriptor::at(usize::MAX), None);
    assert_eq!(Descriptor::at(6), Some(Descriptor::EventWarn));
}

#[test]
fn every_descriptor_carries_the_same_name_target_and_fields() {
    for d in all_descriptors() {
        assert_eq!(d.name(), "wasm_tracing");
        assert_eq!(d.target(), "wasm_tracing");
        assert_eq!(d.fields(), ["target", "name", "file", "line", "module_path", "params"]);
    }
}

#[test]
fn declared_fields_do_not_depend_on_the_entry() {
    let mut e = entry(false);
    e.metadata.name = b"other".to_vec();
    e.metadata.target = b"elsewhere".to_vec();
    e.metadata.fields = WasmFields::from(vec!["x", "y"]);
    let d = Descriptor::from(&e.metadata);
    assert_eq!(d, Descriptor::EventWarn);
    assert_eq!(d.name(), WASM_TRACE_IDENTIFIER);
    assert_eq!(d.target(), WASM_TRACE_IDENTIFIER);
    assert_eq!(d.fields(), GENERIC_FIELDS);
    assert_eq!(GENERIC_FIELDS[0], WASM_TARGET_KEY);
    assert_eq!(GENERIC_FIELDS[1], WASM_NAME_KEY);
    assert_eq!(GENERIC_FIELDS.len(), 6);
}

#[test]
fn fixed_keys() {
    assert_eq!(WASM_TRACE_IDENTIFIER, "wasm_tracing");
    assert_eq!(WASM_NAME_KEY, "name");
    assert_eq!(WASM_TARGET_KEY, "target");
}

#[test]
fn invalid_utf8_reads_as_empty_text() {
    assert_eq!(lossy_text(&[0xff]), "");
    assert_eq!(lossy_text(&[b'a', 0xc3]), "");
    assert_eq!(lossy_text(b"net::handler"), "net::handler");
    assert_eq!(lossy_text(&[0xc3, 0xbc]), "ü");
    assert_eq!(lossy_text(&[]), "");
}

#[test]
fn one_bad_text_does_not_spoil_the_others() {
    let mut e = entry(false);
    e.metadata.file = vec![0xff];
    let record = e.emit().record;
    assert_eq!(record.file, "");
    assert_eq!(record.name, "req");
    assert_eq!(record.target, "net");
    assert_eq!(record.mod_path, "net::handler");
    assert_eq!(record.line, 42);
    assert_eq!(record.params, "WasmValuesSet([(WasmFieldName(status), Some(U32(200)))])");
}

#[test]
fn every_text_degrades_on_its_own() {
    let mut e = entry(true);
    e.metadata.name = vec![0xff];
    e.metadata.target = vec![0xfe];
    e.metadata.mod_path = vec![0x80];
    e.fields = WasmValuesSet::from(vec![(
        sp_tracing::WasmFieldName::from(vec![0xffu8]),
        Some(WasmValue::Str(vec![0xff])),
    )]);
    let record = HostSpan::from(e).record;
    assert_eq!(record.name, "");
    assert_eq!(record.target, "");
    assert_eq!(record.mod_path, "");
    assert_eq!(record.file, "net.rs");
    assert_eq!(record.params, "WasmValuesSet([(WasmFieldName(), Some(Str()))])");
}

#[test]
fn event_scenario() {
    let event = entry(false).emit();
    let record = event.record;
    assert_eq!(record.descriptor, Descriptor::EventWarn);
    assert_eq!(record.descriptor.level(), WasmLevel::WARN);
    assert!(!record.descriptor.is_span());
    assert_eq!(record.descriptor.slot(), 6);
    assert_eq!(record.name, "req");
    assert_eq!(record.target, "net");
    assert_eq!(record.file, "net.rs");
    assert_eq!(record.line, 42);
    assert_eq!(record.mod_path, "net::handler");
    assert!(record.params.contains("status"));
    assert!(record.params.contains("200"));
    assert_eq!(record.parent_id, None);
}

#[test]
fn span_scenario() {
    let span: HostSpan = entry(true).into();
    let record = span.record;
    assert_eq!(record.descriptor, Descriptor::SpanWarn);
    assert_eq!(record.descriptor.level(), WasmLevel::WARN);
    assert!(record.descriptor.is_span());
    assert_eq!(record.descriptor.slot(), 1);
    assert_eq!(record.parent_id, None);
    assert!(record.parent().is_none());
    assert_eq!(record.name, "req");
    assert_eq!(record.line, 42);
    assert_eq!(record, entry(true).emit().record);
}

#[test]
fn explicit_parent_is_passed_on() {
    let mut e = entry(true);
    e.parent_id = Some(7);
    let record = HostSpan::from(e).record;
    assert_eq!(record.parent_id, Some(7));
    assert_eq!(record.parent().map(|id| id.into_u64()), Some(7));
    let mut e = entry(false);
    e.parent_id = Some(u64::MAX);
    assert_eq!(e.emit().record.parent().map(|id| id.into_u64()), Some(u64::MAX));
}

#[test]
fn parent_zero_has_no_host_identifier() {
    let mut e = entry(false);
    e.parent_id = Some(0);
    let record = e.emit().record;
    assert_eq!(record.parent_id, Some(0));
    assert!(record.parent().is_none());
}

#[test]
fn values_are_rendered_by_form() {
    let set = WasmValuesSet::from(vec![
        (&"a", Some(WasmValue::U8(255))),
        (&"b", Some(WasmValue::I8(-128))),
        (&"c", Some(WasmValue::U32(0))),
        (&"d", Some(WasmValue::I32(-2147483648))),
        (&"e", Some(WasmValue::I64(i64::MIN))),
        (&"f", Some(WasmValue::U64(u64::MAX))),
        (&"g", Some(WasmValue::Bool(true))),
        (&"h", Some(WasmValue::Bool(false))),
        (&"i", Some(WasmValue::Str(b"text".to_vec()))),
        (&"j", Some(WasmValue::Formatted(b"x = 1".to_vec()))),
        (&"k", Some(WasmValue::Encoded(vec![1, 20, 255]))),
        (&"l", Some(WasmValue::Encoded(Vec::new()))),
        (&"m", Some(WasmValue::Encoded(vec![0]))),
        (&"n", None),
    ]);
    let expected = [
        "WasmValuesSet([",
        "(WasmFieldName(a), Some(U8(255))), ",
        "(WasmFieldName(b), Some(I8(-128))), ",
        "(WasmFieldName(c), Some(U32(0))), ",
        "(WasmFieldName(d), Some(I32(-2147483648))), ",
        "(WasmFieldName(e), Some(I64(-9223372036854775808))), ",
        "(WasmFieldName(f), Some(U64(18446744073709551615))), ",
        "(WasmFieldName(g), Some(Bool(true))), ",
        "(WasmFieldName(h), Some(Bool(false))), ",
        "(WasmFieldName(i), Some(Str(text))), ",
        "(WasmFieldName(j), Some(Formatted(x = 1))), ",
        "(WasmFieldName(k), Some(Encoded([1, 20, 255]))), ",
        "(WasmFieldName(l), Some(Encoded([]))), ",
        "(WasmFieldName(m), Some(Encoded([0]))), ",
        "(WasmFieldName(n), None)",
        "])",
    ]
    .concat();
    assert_eq!(set.render(), expected);
}

#[test]
fn rendering_keeps_order_and_duplicates() {
    let set = WasmValuesSet::from(vec![
        (&"b", None),
        (&"a", Some(WasmValue::U8(1))),
        (&"b", Some(WasmValue::U8(2))),
    ]);
    assert_eq!(
        set.render(),
        "WasmValuesSet([(WasmFieldName(b), None), (WasmFieldName(a), Some(U8(1))), (WasmFieldName(b), Some(U8(2)))])"
    );
}

#[test]
fn decoded_entry_reads_like_the_entry_written() {
    let bytes = entry(false).encode().unwrap();
    let (back, rest) = WasmEntryAttributes::decode(&bytes).unwrap();
    assert!(rest.is_empty());
    assert_eq!(back.emit(), entry(false).emit());
}
