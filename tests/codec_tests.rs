use ftu_mixer::codec::{
    encode_input, first_channel_matches_target, infer_control_kind, normalized_range,
    parse_enum_value_index, read_values_for_kind, resolve_db_range, DbReport, ElemInfo,
    ElemTypeTag, RawValues,
};
use ftu_mixer::models::ControlKind;
use ftu_mixer::text::{
    contains_lowercased, eq_ignore_ascii_case, format_i64, format_u64, parse_i64,
    parse_unsigned,
};

fn info(elem_type: ElemTypeTag, count: u32, min: i64, max: i64, step: i64, items: u32) -> ElemInfo {
    ElemInfo { elem_type, type_label: "Bytes".to_string(), count, min, max, step, items }
}

fn no_db() -> DbReport {
    DbReport { direct: None, at_min: None, at_max: None }
}

fn strings(v: &[&str]) -> Vec<String> {
    v.iter().map(|s| s.to_string()).collect()
}

#[test]
fn degenerate_integer_range_is_widened() {
    let kind = infer_control_kind(&info(ElemTypeTag::Integer, 2, 10, 10, 0, 0), &no_db());
    assert_eq!(
        kind,
        ControlKind::Integer { min: 10, max: 11, step: 1, channels: 2, db_range: None }
    );
    let inverted = infer_control_kind(&info(ElemTypeTag::Integer64, 1, 5, -3, 2, 0), &no_db());
    assert_eq!(
        inverted,
        ControlKind::Integer { min: 5, max: 6, step: 2, channels: 1, db_range: None }
    );
}

#[test]
fn normalized_range_keeps_a_proper_range() {
    assert_eq!(normalized_range(0, 100), (0, 100));
    assert_eq!(normalized_range(7, 7), (7, 8));
}

#[test]
fn db_range_prefers_direct_query() {
    let db = DbReport { direct: Some((-6000, 0)), at_min: Some(-100), at_max: Some(0) };
    assert_eq!(resolve_db_range(&db), Some((-6000, 0)));
    let kind = infer_control_kind(&info(ElemTypeTag::Integer, 1, 0, 100, 1, 0), &db);
    assert_eq!(
        kind,
        ControlKind::Integer { min: 0, max: 100, step: 1, channels: 1, db_range: Some((-6000, 0)) }
    );
}

#[test]
fn db_range_falls_back_to_endpoint_conversion() {
    let db = DbReport { direct: Some((0, 0)), at_min: Some(-4800), at_max: Some(600) };
    assert_eq!(resolve_db_range(&db), Some((-4800, 600)));
    let flat = DbReport { direct: None, at_min: Some(0), at_max: Some(0) };
    assert_eq!(resolve_db_range(&flat), None);
    let half = DbReport { direct: None, at_min: Some(-100), at_max: None };
    assert_eq!(resolve_db_range(&half), None);
}

#[test]
fn integer64_kind_resolves_db_range() {
    let db = DbReport { direct: Some((-6000, 0)), at_min: None, at_max: None };
    let kind = infer_control_kind(&info(ElemTypeTag::Integer64, 0, 0, 10, 1, 0), &db);
    assert_eq!(
        kind,
        ControlKind::Integer { min: 0, max: 10, step: 1, channels: 1, db_range: Some((-6000, 0)) }
    );
    let converted = DbReport { direct: None, at_min: Some(-300), at_max: Some(0) };
    let kind = infer_control_kind(&info(ElemTypeTag::Integer64, 1, 0, 10, 1, 0), &converted);
    assert_eq!(
        kind,
        ControlKind::Integer { min: 0, max: 10, step: 1, channels: 1, db_range: Some((-300, 0)) }
    );
}

#[test]
fn non_integer_kinds_accept_any_range() {
    let sw = infer_control_kind(&info(ElemTypeTag::Boolean, 1, i64::MAX, 0, 0, 0), &no_db());
    assert_eq!(sw, ControlKind::Boolean { channels: 1 });
}

#[test]
fn enumerated_kind_gets_ordinal_labels() {
    let kind = infer_control_kind(&info(ElemTypeTag::Enumerated, 1, 0, 0, 0, 3), &no_db());
    assert_eq!(kind, ControlKind::Enumerated { items: strings(&["0", "1", "2"]), channels: 1 });
    let empty = infer_control_kind(&info(ElemTypeTag::Enumerated, 2, 0, 0, 0, 0), &no_db());
    assert_eq!(empty, ControlKind::Enumerated { items: strings(&["0"]), channels: 2 });
}

#[test]
fn other_types_are_unknown() {
    let kind = infer_control_kind(&info(ElemTypeTag::Other, 0, 0, 0, 0, 0), &no_db());
    assert_eq!(kind, ControlKind::Unknown { type_label: "Bytes".to_string(), channels: 1 });
    let sw = infer_control_kind(&info(ElemTypeTag::Boolean, 2, 0, 1, 1, 0), &no_db());
    assert_eq!(sw, ControlKind::Boolean { channels: 2 });
}

#[test]
fn reading_formats_each_kind() {
    let int_kind = ControlKind::Integer { min: -10, max: 10, step: 1, channels: 2, db_range: None };
    assert_eq!(read_values_for_kind(&int_kind, &RawValues::Integer(vec![-7, 3])), strings(&["-7", "3"]));
    assert_eq!(
        read_values_for_kind(&int_kind, &RawValues::Integer64(vec![123456789012, 0])),
        strings(&["123456789012", "0"])
    );
    let sw = ControlKind::Boolean { channels: 2 };
    assert_eq!(read_values_for_kind(&sw, &RawValues::Boolean(vec![true, false])), strings(&["on", "off"]));
    let en = ControlKind::Enumerated { items: strings(&["Low", "High"]), channels: 2 };
    assert_eq!(read_values_for_kind(&en, &RawValues::Enumerated(vec![1, 7])), strings(&["High", "7"]));
    let unknown = ControlKind::Unknown { type_label: "Bytes".to_string(), channels: 1 };
    assert_eq!(read_values_for_kind(&unknown, &RawValues::Enumerated(vec![4])), strings(&["4"]));
    assert_eq!(read_values_for_kind(&unknown, &RawValues::Boolean(vec![true])), strings(&["on"]));
}

#[test]
fn reading_pads_missing_channels() {
    let int_kind = ControlKind::Integer { min: 0, max: 10, step: 1, channels: 3, db_range: None };
    assert_eq!(read_values_for_kind(&int_kind, &RawValues::Integer(vec![5])), strings(&["5", "0", "0"]));
    let sw = ControlKind::Boolean { channels: 2 };
    assert_eq!(read_values_for_kind(&sw, &RawValues::Other), strings(&["off", "off"]));
}

#[test]
fn integer_write_is_clamped_to_kind_range() {
    let kind = ControlKind::Integer { min: 0, max: 40, step: 1, channels: 1, db_range: None };
    let r = encode_input(ElemTypeTag::Integer, 1, &strings(&["50"]), Some(&kind));
    match r {
        Some(RawValues::Integer(v)) => assert_eq!(v, vec![40]),
        other => panic!("unexpected {:?}", other),
    }
    let after = RawValues::Integer(vec![40]);
    assert!(first_channel_matches_target(Some(&after), ElemTypeTag::Integer, &strings(&["50"]), Some(&kind)));
    let stale = RawValues::Integer(vec![12]);
    assert!(!first_channel_matches_target(Some(&stale), ElemTypeTag::Integer, &strings(&["50"]), Some(&kind)));
    assert!(!first_channel_matches_target(None, ElemTypeTag::Integer, &strings(&["50"]), Some(&kind)));
}

#[test]
fn integer_write_saturates_to_native_width() {
    let r = encode_input(ElemTypeTag::Integer, 2, &strings(&["99999999999", "-99999999999"]), None);
    match r {
        Some(RawValues::Integer(v)) => assert_eq!(v, vec![i32::MAX, i32::MIN]),
        other => panic!("unexpected {:?}", other),
    }
    let r64 = encode_input(ElemTypeTag::Integer64, 1, &strings(&["99999999999"]), None);
    match r64 {
        Some(RawValues::Integer64(v)) => assert_eq!(v, vec![99999999999]),
        other => panic!("unexpected {:?}", other),
    }
}

#[test]
fn malformed_integer_input_becomes_zero() {
    let r = encode_input(ElemTypeTag::Integer, 1, &strings(&["loud"]), None);
    match r {
        Some(RawValues::Integer(v)) => assert_eq!(v, vec![0]),
        other => panic!("unexpected {:?}", other),
    }
}

#[test]
fn missing_channel_input_broadcasts_first() {
    let r = encode_input(ElemTypeTag::Boolean, 2, &strings(&["1"]), Some(&ControlKind::Boolean { channels: 2 }));
    match r {
        Some(RawValues::Boolean(v)) => {
            assert_eq!(v, vec![true, true]);
            let shown = read_values_for_kind(&ControlKind::Boolean { channels: 2 }, &RawValues::Boolean(v));
            assert_eq!(shown, strings(&["on", "on"]));
        }
        other => panic!("unexpected {:?}", other),
    }
    let defaulted = encode_input(ElemTypeTag::Integer, 2, &Vec::new(), None);
    match defaulted {
        Some(RawValues::Integer(v)) => assert_eq!(v, vec![0, 0]),
        other => panic!("unexpected {:?}", other),
    }
}

#[test]
fn boolean_input_words() {
    let r = encode_input(ElemTypeTag::Boolean, 5, &strings(&["ON", "True", "1", "yes", "off"]), None);
    match r {
        Some(RawValues::Boolean(v)) => assert_eq!(v, vec![true, true, true, false, false]),
        other => panic!("unexpected {:?}", other),
    }
}

#[test]
fn enumerated_input_by_label_then_ordinal() {
    let kind = ControlKind::Enumerated { items: strings(&["Off", "Hall", "Room"]), channels: 1 };
    assert_eq!(parse_enum_value_index("room", Some(&kind)), 2);
    assert_eq!(parse_enum_value_index("1", Some(&kind)), 1);
    assert_eq!(parse_enum_value_index("nothing", Some(&kind)), 0);
    assert_eq!(parse_enum_value_index("4294967297", Some(&kind)), 1);
    assert_eq!(parse_enum_value_index("4294967297", None), 0);
    assert_eq!(parse_enum_value_index("+3", None), 3);
}

#[test]
fn other_element_types_are_written_back_unchanged() {
    assert!(encode_input(ElemTypeTag::Other, 4, &strings(&["1"]), None).is_none());
    assert!(first_channel_matches_target(Some(&RawValues::Other), ElemTypeTag::Other, &Vec::new(), None));
}

#[test]
fn decimal_parsing_follows_std() {
    for s in ["0", "-0", "+17", "-9223372036854775808", "9223372036854775807", "9223372036854775808", "", "-", "+", "1 ", "12a", "007"] {
        assert_eq!(parse_i64(s), s.parse::<i64>().ok(), "input {:?}", s);
    }
    for s in ["0", "+5", "-5", "4294967295", "4294967296", "", "+"] {
        assert_eq!(parse_unsigned(s, u32::MAX as u64).map(|v| v as u32), s.parse::<u32>().ok(), "input {:?}", s);
    }
    assert_eq!(parse_unsigned("18446744073709551615", u64::MAX), Some(u64::MAX));
    assert_eq!(parse_unsigned("18446744073709551616", u64::MAX), None);
}

#[test]
fn decimal_formatting_follows_std() {
    for v in [0i64, 7, -7, 10, 1234567890, i64::MIN, i64::MAX] {
        assert_eq!(format_i64(v), v.to_string());
    }
    assert_eq!(format_u64(u64::MAX), u64::MAX.to_string());
}

#[test]
fn ascii_case_insensitive_text() {
    assert!(eq_ignore_ascii_case("On", "oN"));
    assert!(!eq_ignore_ascii_case("on", "one"));
    assert!(eq_ignore_ascii_case("Ä", "Ä"));
    assert!(!eq_ignore_ascii_case("Ä", "ä"));
    assert!(contains_lowercased("Reverb FX Return", "fx"));
    assert!(contains_lowercased("abc", ""));
    assert!(!contains_lowercased("f x", "fx"));
    for hay in ["FAST TRAC\u{212A}", "Fast Track Ultra", "dİn1", "DIN1", "İ", "Straße FX"] {
        for needle in ["fast track", "din", "i", "fx", "ss"] {
            assert_eq!(contains_lowercased(hay, needle), hay.to_lowercase().contains(needle), "{:?} {:?}", hay, needle);
        }
    }
}
