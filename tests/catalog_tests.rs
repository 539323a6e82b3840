use ftu_mixer::catalog::{build_catalog, describe_element, name_less, ElemSnapshot};
use ftu_mixer::codec::{DbReport, ElemInfo, ElemTypeTag, RawValues};
use ftu_mixer::models::{channels_from_kind, ControlDescriptor, ControlKind};
use ftu_mixer::routing::{build_routing_index, group_label, match_route_name};
use ftu_mixer::session::{carry_forward, KindCache};

fn elem(numid: u32, name: Option<&str>, elem_type: ElemTypeTag, count: u32, reading: RawValues) -> ElemSnapshot {
    ElemSnapshot {
        numid,
        name: name.map(|s| s.to_string()),
        iface: "Mixer".to_string(),
        index: 0,
        device: 0,
        subdevice: 0,
        info: ElemInfo {
            elem_type,
            type_label: "Bytes".to_string(),
            count,
            min: 0,
            max: 127,
            step: 1,
            items: 2,
        },
        db: DbReport { direct: None, at_min: None, at_max: None },
        reading,
    }
}

fn sample_elements() -> Vec<ElemSnapshot> {
    vec![
        elem(7, Some("DIn1 - Out2"), ElemTypeTag::Integer, 1, RawValues::Integer(vec![64])),
        elem(3, Some("AIn2 - Out1 Playback Volume"), ElemTypeTag::Integer, 2, RawValues::Integer(vec![10])),
        elem(9, None, ElemTypeTag::Boolean, 0, RawValues::Boolean(vec![])),
        elem(5, Some("AIn1 - Out1"), ElemTypeTag::Integer, 1, RawValues::Integer(vec![127])),
        elem(2, Some("Effect Program"), ElemTypeTag::Enumerated, 1, RawValues::Enumerated(vec![1])),
        elem(4, Some("AIn1 - Out1"), ElemTypeTag::Integer, 1, RawValues::Integer(vec![0])),
    ]
}

fn keys(c: &[ControlDescriptor]) -> Vec<(String, u32)> {
    c.iter().map(|d| (d.name.clone(), d.numid)).collect()
}

#[test]
fn catalog_values_match_channel_count() {
    let catalog = build_catalog(&sample_elements());
    assert_eq!(catalog.len(), 6);
    for c in &catalog {
        assert_eq!(c.values.len(), channels_from_kind(&c.kind), "control {}", c.name);
    }
    let two = catalog.iter().find(|c| c.numid == 3).unwrap();
    assert_eq!(two.values, vec!["10".to_string(), "0".to_string()]);
    let unnamed = catalog.iter().find(|c| c.numid == 9).unwrap();
    assert_eq!(unnamed.values, vec!["off".to_string()]);
}

#[test]
fn catalog_is_sorted_by_name_then_numid() {
    let catalog = build_catalog(&sample_elements());
    assert_eq!(
        keys(&catalog),
        vec![
            ("AIn1 - Out1".to_string(), 4),
            ("AIn1 - Out1".to_string(), 5),
            ("AIn2 - Out1 Playback Volume".to_string(), 3),
            ("DIn1 - Out2".to_string(), 7),
            ("Effect Program".to_string(), 2),
            ("numid=9".to_string(), 9),
        ]
    );
}

#[test]
fn catalog_order_is_stable_across_builds() {
    let first = build_catalog(&sample_elements());
    let second = build_catalog(&sample_elements());
    assert_eq!(keys(&first), keys(&second));
    let mut reversed = sample_elements();
    reversed.reverse();
    let third = build_catalog(&reversed);
    assert_eq!(keys(&first), keys(&third));
}

#[test]
fn descriptor_fields_and_labels() {
    let d = describe_element(&elem(2, Some("Effect Program"), ElemTypeTag::Enumerated, 1, RawValues::Enumerated(vec![1])));
    assert_eq!(d.kind, ControlKind::Enumerated { items: vec!["0".to_string(), "1".to_string()], channels: 1 });
    assert_eq!(d.values, vec!["1".to_string()]);
    assert_eq!(d.grouped_label, "Effects");
    assert_eq!(d.iface, "Mixer");
    assert!(!d.favorite);
    let unnamed = describe_element(&elem(12, None, ElemTypeTag::Boolean, 1, RawValues::Boolean(vec![true])));
    assert_eq!(unnamed.name, "numid=12");
    assert_eq!(unnamed.grouped_label, "Other");
}

#[test]
fn group_labels_follow_name() {
    assert_eq!(group_label("AIn3 - Out4"), "Analog Routing");
    assert_eq!(group_label("DIn1 - Out1"), "Digital Routing");
    assert_eq!(group_label("Reverb FX Volume"), "Effects");
    assert_eq!(group_label("EFFECT Duration"), "Effects");
    assert_eq!(group_label("ain1 lowercase"), "Other");
    assert_eq!(group_label("Clock Source"), "Other");
}

#[test]
fn name_order_is_code_point_order() {
    let names = ["", "A", "AB", "B", "a", "Ä", "é"];
    for x in names {
        for y in names {
            assert_eq!(name_less(x, y), x < y, "{:?} < {:?}", x, y);
        }
    }
}

#[test]
fn routing_index_from_names() {
    let mut controls = Vec::new();
    for (i, name) in ["AIn1 - Out1", "AIn2 - Out1 Foo", "Unrelated"].iter().enumerate() {
        let mut d = describe_element(&elem(i as u32 + 1, Some(name), ElemTypeTag::Integer, 1, RawValues::Integer(vec![0])));
        d.name = name.to_string();
        controls.push(d);
    }
    let index = build_routing_index(&controls);
    assert_eq!(index.analog_routes.len(), 2);
    assert_eq!((index.analog_routes[0].input, index.analog_routes[0].output, index.analog_routes[0].control_index), (0, 0, 0));
    assert_eq!((index.analog_routes[1].input, index.analog_routes[1].output, index.analog_routes[1].control_index), (1, 0, 1));
    assert!(index.digital_routes.is_empty());
}

#[test]
fn routing_names_edge_cases() {
    assert_eq!(match_route_name("DIn3 - Out4", "DIn"), Some((2, 3)));
    assert_eq!(match_route_name("AIn12-Out10", "AIn"), Some((11, 9)));
    assert_eq!(match_route_name("AIn0 - Out0", "AIn"), Some((0, 0)));
    assert_eq!(match_route_name("AIn1  -  Out2 Playback Volume", "AIn"), Some((0, 1)));
    assert_eq!(match_route_name("AIn1 - Out2x", "AIn"), None);
    assert_eq!(match_route_name("AIn1 - Out2_b", "AIn"), None);
    assert_eq!(match_route_name("AIn - Out2", "AIn"), None);
    assert_eq!(match_route_name("AIn1 - Out", "AIn"), None);
    assert_eq!(match_route_name("AIn1 - Out2\nmore", "AIn"), None);
    assert_eq!(match_route_name("AIn1 - Out2", "DIn"), None);
    assert_eq!(match_route_name("AIn99999999999999999999 - Out2", "AIn"), Some((0, 1)));
    assert_eq!(match_route_name("In3 - Out1", "In"), Some((2, 0)));
    assert_eq!(match_route_name("Aux In2 - Out5", "Aux In"), Some((1, 4)));
}

#[test]
fn routing_names_follow_unicode_classes() {
    assert_eq!(match_route_name("AIn1 - Out2\u{e9}", "AIn"), None);
    assert_eq!(match_route_name("AIn1 - Out2 \u{e9}", "AIn"), Some((0, 1)));
    assert_eq!(match_route_name("AIn\u{661} - Out1", "AIn"), Some((0, 0)));
    assert_eq!(match_route_name("AIn3 - Out\u{662}\u{663}", "AIn"), Some((2, 0)));
    assert_eq!(match_route_name("AIn3\u{3000}-\u{a0}Out4", "AIn"), Some((2, 3)));
    assert_eq!(match_route_name("AIn1 - Out2\u{2014}left", "AIn"), Some((0, 1)));
}

#[test]
fn favorites_and_labels_survive_rebuild() {
    let mut previous = build_catalog(&sample_elements());
    for c in previous.iter_mut() {
        if c.numid == 5 {
            c.favorite = true;
            c.grouped_label = "Monitoring".to_string();
        }
    }
    let mut elements = sample_elements();
    elements.push(elem(40, Some("New Control"), ElemTypeTag::Boolean, 1, RawValues::Boolean(vec![false])));
    let mut fresh = build_catalog(&elements);
    carry_forward(&previous, &mut fresh);
    let kept = fresh.iter().find(|c| c.numid == 5).unwrap();
    assert!(kept.favorite);
    assert_eq!(kept.grouped_label, "Monitoring");
    let newcomer = fresh.iter().find(|c| c.numid == 40).unwrap();
    assert!(!newcomer.favorite);
    assert_eq!(newcomer.grouped_label, "Other");
    let other = fresh.iter().find(|c| c.numid == 4).unwrap();
    assert!(!other.favorite);
    assert_eq!(other.grouped_label, "Analog Routing");
}

#[test]
fn kind_cache_is_rebuilt_wholesale() {
    let catalog = build_catalog(&sample_elements());
    let mut cache = KindCache::new();
    assert!(cache.lookup(3).is_none());
    cache.rebuild(&catalog);
    assert_eq!(
        cache.lookup(3),
        Some(ControlKind::Integer { min: 0, max: 127, step: 1, channels: 2, db_range: None })
    );
    assert_eq!(cache.lookup(9), Some(ControlKind::Boolean { channels: 1 }));
    cache.rebuild(&catalog[..1].to_vec());
    assert!(cache.lookup(3).is_none());
    assert!(cache.lookup(4).is_some());
}
