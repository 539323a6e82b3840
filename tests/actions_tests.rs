use ftu_mixer::actions::{
    apply_integer_route, find_fx_send_map, is_channel_fx_send, is_fx_control, plan_disable_fx,
    plan_panic_mute, plan_route_action, RouteRule,
};
use ftu_mixer::models::{ControlDescriptor, ControlKind, RouteRef};

fn strings(v: &[&str]) -> Vec<String> {
    v.iter().map(|s| s.to_string()).collect()
}

fn control(numid: u32, name: &str, kind: ControlKind) -> ControlDescriptor {
    ControlDescriptor {
        numid,
        name: name.to_string(),
        iface: "Mixer".to_string(),
        index: 0,
        device: 0,
        subdevice: 0,
        kind,
        values: Vec::new(),
        grouped_label: "Other".to_string(),
        favorite: false,
    }
}

fn gain(min: i64, max: i64, channels: usize) -> ControlKind {
    ControlKind::Integer { min, max, step: 1, channels, db_range: None }
}

fn route(input: usize, output: usize, control_index: usize) -> RouteRef {
    RouteRef { input, output, control_index }
}

fn plan(p: Vec<ftu_mixer::actions::PlannedWrite>) -> Vec<(usize, Vec<String>)> {
    p.into_iter().map(|w| (w.control_index, w.values)).collect()
}

#[test]
fn integer_route_values_are_clamped() {
    assert_eq!(apply_integer_route(&gain(10, 100, 2), 0), Some(strings(&["10", "10"])));
    assert_eq!(apply_integer_route(&gain(-20, 0, 1), 5), Some(strings(&["0"])));
    assert_eq!(apply_integer_route(&ControlKind::Boolean { channels: 1 }, 0), None);
}

#[test]
fn route_actions_select_and_target() {
    let controls = vec![
        control(1, "AIn1 - Out1", gain(0, 127, 1)),
        control(2, "AIn1 - Out3", gain(0, 127, 1)),
        control(3, "DIn2 - Out2", gain(0, 64, 2)),
        control(4, "DIn1 - Out2", ControlKind::Boolean { channels: 1 }),
    ];
    let analog = vec![route(0, 0, 0), route(0, 2, 1), route(0, 0, 9)];
    let digital = vec![route(1, 1, 2), route(0, 1, 3)];
    assert_eq!(
        plan(plan_route_action(&controls, &analog, RouteRule::MuteAll)),
        vec![(0, strings(&["0"])), (1, strings(&["0"]))]
    );
    assert_eq!(plan(plan_route_action(&controls, &analog, RouteRule::PassThrough)), vec![(0, strings(&["127"]))]);
    assert_eq!(plan(plan_route_action(&controls, &digital, RouteRule::MuteCrossed)), Vec::new());
    assert_eq!(
        plan(plan_panic_mute(&controls, &analog, &digital)),
        vec![(0, strings(&["0"])), (1, strings(&["0"])), (2, strings(&["0", "0"]))]
    );
}

#[test]
fn disabling_effects() {
    let controls = vec![
        control(1, "FX Return", gain(0, 127, 2)),
        control(2, "Effect Switch", ControlKind::Boolean { channels: 1 }),
        control(3, "Effect Program", ControlKind::Enumerated { items: strings(&["0"]), channels: 1 }),
        control(4, "Reverb Time", gain(0, 10, 1)),
    ];
    assert_eq!(
        plan(plan_disable_fx(&controls)),
        vec![(0, strings(&["0", "0"])), (1, strings(&["off"]))]
    );
}

#[test]
fn effect_name_classes() {
    assert!(is_fx_control("Reverb Time"));
    assert!(is_fx_control("Chorus Depth"));
    assert!(!is_fx_control("Clock Source"));
    assert!(is_channel_fx_send("AIn1 FX Send"));
    assert!(!is_channel_fx_send("FX Send"));
    assert!(!is_channel_fx_send("AIn1 FX Return"));
}

#[test]
fn fx_sends_by_input() {
    let controls = vec![
        control(1, "AIn1 FX Out", gain(0, 127, 1)),
        control(2, "AIn1 FX Send Volume", gain(0, 127, 1)),
        control(3, "AIn2 Effect Aux", gain(0, 127, 1)),
        control(4, "AIn2 Effect Send", ControlKind::Boolean { channels: 1 }),
        control(5, "DIn1 FX Send", gain(0, 127, 1)),
    ];
    let analog = vec![route(0, 0, 0), route(2, 1, 0)];
    assert_eq!(find_fx_send_map(&controls, &analog, false), vec![(0, 1), (1, 2)]);
    assert_eq!(find_fx_send_map(&controls, &Vec::new(), true), vec![(0, 4)]);
}
