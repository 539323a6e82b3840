use ftu_mixer::codec::{ElemTypeTag, RawValues};
use ftu_mixer::config::{AppUserConfig, RenameTarget};
use ftu_mixer::text::trim_spaces;
use ftu_mixer::models::{CardInfo, ControlDescriptor, ControlKind, PresetControlValue, PresetFile};
use ftu_mixer::presets::{preset_writes, to_preset};
use ftu_mixer::scaling::linear_percent;
use ftu_mixer::session::{catalog_changed, choose_card, refresh_control_values, reload_control, LiveReading, MixerError};
use ftu_mixer::watch::{after_send, after_wait, SendOutcome, WaitOutcome, WatchStep};
use ftu_mixer::write::{WriteAction, WriteEvent, WriteProtocol, WriteStep, RETRY_BACKOFF_MS};

fn strings(v: &[&str]) -> Vec<String> {
    v.iter().map(|s| s.to_string()).collect()
}

fn control(numid: u32, name: &str, kind: ControlKind, values: &[&str]) -> ControlDescriptor {
    ControlDescriptor {
        numid,
        name: name.to_string(),
        iface: "Mixer".to_string(),
        index: 0,
        device: 0,
        subdevice: 0,
        kind,
        values: strings(values),
        grouped_label: "Other".to_string(),
        favorite: false,
    }
}

fn volume(channels: usize) -> ControlKind {
    ControlKind::Integer { min: 0, max: 40, step: 1, channels, db_range: None }
}

fn card(index: u32, name: &str) -> CardInfo {
    CardInfo { index, name: name.to_string() }
}

#[test]
fn card_choice_rules() {
    let cards = vec![card(0, "HDA Intel PCH"), card(2, "Fast Track Ultra 8R"), card(3, "F8R")];
    assert_eq!(choose_card(&cards, None).unwrap().index, 2);
    assert_eq!(choose_card(&cards, Some(3)).unwrap().index, 3);
    assert_eq!(choose_card(&cards, Some(9)).unwrap_err(), MixerError::CardNotFound { index: 9 });
    let plain = vec![card(1, "USB Audio"), card(4, "HDMI")];
    assert_eq!(choose_card(&plain, None).unwrap().name, "USB Audio");
    assert_eq!(choose_card(&Vec::new(), None).unwrap_err(), MixerError::DeviceEnumerationFailed);
}

#[test]
fn reload_keeps_fields_and_rereads_values() {
    let mut before = control(8, "AIn1 - Out1", volume(2), &["1", "2"]);
    before.favorite = true;
    before.grouped_label = "Monitoring".to_string();
    let live = vec![
        LiveReading { numid: 3, reading: RawValues::Integer(vec![9, 9]) },
        LiveReading { numid: 8, reading: RawValues::Integer(vec![30, 31]) },
    ];
    let reloaded = reload_control(&before, &live).unwrap();
    assert_eq!(reloaded.values, strings(&["30", "31"]));
    assert!(reloaded.favorite);
    assert_eq!(reloaded.grouped_label, "Monitoring");
    assert_eq!(reloaded.name, "AIn1 - Out1");
    let missing = reload_control(&before, &live[..1].to_vec());
    assert_eq!(missing.unwrap_err(), MixerError::ControlNotFound { numid: 8 });
}

#[test]
fn refresh_counts_changed_controls() {
    let mut controls = vec![
        control(1, "A", volume(1), &["5"]),
        control(2, "B", ControlKind::Boolean { channels: 2 }, &["on", "on"]),
        control(3, "C", volume(1), &["7"]),
    ];
    let live = vec![
        LiveReading { numid: 2, reading: RawValues::Boolean(vec![true, false]) },
        LiveReading { numid: 1, reading: RawValues::Integer(vec![5]) },
    ];
    let changed = refresh_control_values(&mut controls, &live);
    assert_eq!(changed, 1);
    assert_eq!(controls[0].values, strings(&["5"]));
    assert_eq!(controls[1].values, strings(&["on", "off"]));
    assert_eq!(controls[2].values, strings(&["7"]));
    assert_eq!(refresh_control_values(&mut controls, &live), 0);
}

#[test]
fn write_protocol_clamps_and_verifies() {
    let inputs = strings(&["50"]);
    let mut p = WriteProtocol::new(11, &inputs, Some(volume(1)));
    let first = p.step(WriteEvent::Located { elem_type: ElemTypeTag::Integer, count: 1, current: RawValues::Integer(vec![3]) });
    match first {
        WriteAction::Write(RawValues::Integer(v)) => assert_eq!(v, vec![40]),
        other => panic!("unexpected {:?}", other),
    }
    assert!(matches!(p.step(WriteEvent::Written), WriteAction::ReadBack));
    match p.step(WriteEvent::ReadBack(Some(RawValues::Integer(vec![40])))) {
        WriteAction::Finish(r) => assert_eq!(r, Ok(())),
        other => panic!("unexpected {:?}", other),
    }
    assert_eq!(p.step, WriteStep::Finished);
}

#[test]
fn write_protocol_retries_once_then_succeeds() {
    let inputs = strings(&["1"]);
    let mut p = WriteProtocol::new(4, &inputs, Some(ControlKind::Boolean { channels: 2 }));
    match p.step(WriteEvent::Located { elem_type: ElemTypeTag::Boolean, count: 2, current: RawValues::Boolean(vec![false, false]) }) {
        WriteAction::Write(RawValues::Boolean(v)) => assert_eq!(v, vec![true, true]),
        other => panic!("unexpected {:?}", other),
    }
    assert!(matches!(p.step(WriteEvent::Written), WriteAction::ReadBack));
    match p.step(WriteEvent::ReadBack(Some(RawValues::Boolean(vec![false, false])))) {
        WriteAction::WaitThenReread { millis } => assert_eq!(millis, RETRY_BACKOFF_MS),
        other => panic!("unexpected {:?}", other),
    }
    match p.step(WriteEvent::Reread(RawValues::Boolean(vec![false, true]))) {
        WriteAction::Write(RawValues::Boolean(v)) => assert_eq!(v, vec![true, true]),
        other => panic!("unexpected {:?}", other),
    }
    match p.step(WriteEvent::Written) {
        WriteAction::Finish(r) => assert_eq!(r, Ok(())),
        other => panic!("unexpected {:?}", other),
    }
}

#[test]
fn write_protocol_failed_readback_retries() {
    let inputs = strings(&["2"]);
    let mut p = WriteProtocol::new(4, &inputs, None);
    let _ = p.step(WriteEvent::Located { elem_type: ElemTypeTag::Enumerated, count: 1, current: RawValues::Enumerated(vec![0]) });
    let _ = p.step(WriteEvent::Written);
    assert!(matches!(p.step(WriteEvent::ReadBack(None)), WriteAction::WaitThenReread { .. }));
}

#[test]
fn write_protocol_missing_and_unexpected() {
    let mut p = WriteProtocol::new(77, &Vec::new(), None);
    match p.step(WriteEvent::Missing) {
        WriteAction::Finish(r) => assert_eq!(r, Err(MixerError::ControlNotFound { numid: 77 })),
        other => panic!("unexpected {:?}", other),
    }
    let mut q = WriteProtocol::new(1, &Vec::new(), None);
    match q.step(WriteEvent::Written) {
        WriteAction::Finish(r) => assert_eq!(r, Err(MixerError::UnexpectedEvent)),
        other => panic!("unexpected {:?}", other),
    }
}

#[test]
fn write_protocol_other_type_writes_current_back() {
    let mut p = WriteProtocol::new(5, &strings(&["9"]), None);
    match p.step(WriteEvent::Located { elem_type: ElemTypeTag::Other, count: 1, current: RawValues::Other }) {
        WriteAction::Write(RawValues::Other) => {}
        other => panic!("unexpected {:?}", other),
    }
}

#[test]
fn preset_projection_and_apply_plan() {
    let controls = vec![
        control(1, "A", volume(1), &["5"]),
        control(2, "B", ControlKind::Boolean { channels: 2 }, &["on", "off"]),
    ];
    let preset = to_preset("Ultra", &controls);
    assert_eq!(preset.schema_version, 1);
    assert_eq!(preset.card_name, "Ultra");
    assert_eq!(preset.controls.len(), 2);
    assert_eq!(preset.controls[1].numid, 2);
    assert_eq!(preset.controls[1].values, strings(&["on", "off"]));

    let incoming = PresetFile {
        schema_version: 1,
        card_name: "Ultra".to_string(),
        controls: vec![
            PresetControlValue { numid: 2, values: strings(&["off", "off"]) },
            PresetControlValue { numid: 99, values: strings(&["1"]) },
            PresetControlValue { numid: 2, values: strings(&["on", "on"]) },
        ],
    };
    let writes = preset_writes(&incoming, &controls);
    assert_eq!(writes.len(), 1);
    assert_eq!(writes[0].numid, 2);
    assert_eq!(writes[0].values, strings(&["on", "on"]));
}

#[test]
fn linear_percent_values() {
    assert_eq!(linear_percent(50, 0, 100), 50);
    assert_eq!(linear_percent(-5, 0, 100), 0);
    assert_eq!(linear_percent(500, 0, 100), 100);
    assert_eq!(linear_percent(1, 0, 3), 33);
    assert_eq!(linear_percent(0, i64::MIN, i64::MAX), 50);
    assert_eq!(linear_percent(3, 5, 5), 0);
}

#[test]
fn watcher_decisions() {
    assert_eq!(after_wait(WaitOutcome::Ready { handled: 2 }, 70), WatchStep::Signal);
    assert_eq!(after_wait(WaitOutcome::Ready { handled: 2 }, 69), WatchStep::Continue);
    assert_eq!(after_wait(WaitOutcome::Ready { handled: 0 }, 1000), WatchStep::Continue);
    assert_eq!(after_wait(WaitOutcome::TimedOut, 1000), WatchStep::Continue);
    assert_eq!(after_wait(WaitOutcome::Failed, 0), WatchStep::Stop);
    assert_eq!(after_wait(WaitOutcome::DrainFailed, 1000), WatchStep::Stop);
    assert_eq!(after_send(SendOutcome::Sent), (true, WatchStep::Continue));
    assert_eq!(after_send(SendOutcome::Full), (false, WatchStep::Continue));
    assert_eq!(after_send(SendOutcome::Disconnected), (false, WatchStep::Stop));
}

#[test]
fn default_user_config_is_empty() {
    let cfg = AppUserConfig::default();
    assert_eq!(cfg.schema_version, 1);
    assert!(cfg.ain_aliases.is_empty() && cfg.din_aliases.is_empty() && cfg.out_aliases.is_empty());
}

#[test]
fn error_messages_name_the_subject() {
    assert_eq!(MixerError::ControlNotFound { numid: 12 }.message(), "control numid=12 not found in native backend");
    assert_eq!(MixerError::CardNotFound { index: 3 }.message(), "requested card index 3 not found");
}

#[test]
fn alias_rename_trims_and_clears() {
    let mut cfg = AppUserConfig::default();
    cfg.commit_alias_rename(RenameTarget::Ain(0), "  Vocal Mic \t");
    cfg.commit_alias_rename(RenameTarget::Out(1), "Monitors");
    assert_eq!(cfg.alias(RenameTarget::Ain(0)), Some("Vocal Mic".to_string()));
    assert_eq!(cfg.alias(RenameTarget::Din(0)), None);
    assert_eq!(cfg.alias(RenameTarget::Out(1)), Some("Monitors".to_string()));
    cfg.commit_alias_rename(RenameTarget::Ain(0), "   ");
    assert_eq!(cfg.alias(RenameTarget::Ain(0)), None);
    assert_eq!(cfg.alias(RenameTarget::Out(1)), Some("Monitors".to_string()));
    cfg.clear_aliases();
    assert!(cfg.out_aliases.is_empty());
}

#[test]
fn trimming_follows_std() {
    for s in ["", "   ", " a ", "\u{3000}x y\u{00A0}", "\tkeep\n", "no-trim"] {
        assert_eq!(trim_spaces(s), s.trim(), "input {:?}", s);
    }
}

#[test]
fn catalog_change_flag() {
    let a = vec![control(1, "A", volume(1), &["5"]), control(2, "B", volume(1), &["6"])];
    let same = vec![control(1, "A", volume(1), &["5"]), control(2, "B", volume(1), &["6"])];
    assert!(!catalog_changed(&a, &same));
    let moved = vec![control(1, "A", volume(1), &["5"]), control(2, "B", volume(1), &["7"])];
    assert!(catalog_changed(&a, &moved));
    let renumbered = vec![control(1, "A", volume(1), &["5"]), control(3, "B", volume(1), &["6"])];
    assert!(catalog_changed(&a, &renumbered));
    assert!(catalog_changed(&a, &a[..1].to_vec()));
}

#[test]
fn card_choice_lowercases_like_std() {
    let cards = vec![card(0, "HDA Intel"), card(5, "FAST TRAC\u{212A} USB")];
    assert_eq!(choose_card(&cards, None).unwrap().index, 5);
}
