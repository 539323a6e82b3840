//! Quick actions over a catalog and its routing index: each one is a plan of
//! writes (control index and per-channel values) that the caller applies.
use vstd::prelude::*;

use crate::catalog::views;
use crate::codec::spec_clamp;
use crate::models::{strings_view, ControlDescriptor, ControlKind, DescriptorModel, KindModel, RouteRef};
use crate::text::{contains_lowercased, lower_contains, format_i64, format_u64, spec_decimal};

verus! {

/// One write of a plan: the values for the control at `control_index`.
#[derive(Debug, Clone)]
pub struct PlannedWrite {
    pub control_index: usize,
    pub values: Vec<String>,
}

pub open spec fn plan_view(p: Seq<PlannedWrite>) -> Seq<(usize, Seq<Seq<char>>)> {
    p.map_values(|w: PlannedWrite| (w.control_index, strings_view(w.values@)))
}

/// `n` copies of one text.
pub open spec fn repeated(text: Seq<char>, n: nat) -> Seq<Seq<char>> {
    Seq::new(n, |i: int| text)
}

/// The values that set an integer kind to `target`, clamped to its range, on
/// every channel; none for another kind.
pub open spec fn integer_route_write(kind: KindModel, target: int) -> Option<Seq<Seq<char>>> {
    match kind {
        KindModel::Integer { min, max, channels, .. } => Some(
            repeated(spec_decimal(spec_clamp(target, min as int, max as int)), channels as nat),
        ),
        _ => None,
    }
}

/// The write that sets the control at `idx` to `target`, where that control
/// exists and is an integer.
pub open spec fn route_write(cs: Seq<DescriptorModel>, idx: int, target: int) -> Option<
    Seq<Seq<char>>,
> {
    if 0 <= idx < cs.len() {
        integer_route_write(cs[idx].kind, target)
    } else {
        None
    }
}

fn repeat_text(text: &String, n: usize) -> (r: Vec<String>)
    ensures
        strings_view(r@) == repeated(text@, n as nat),
{
    let mut r: Vec<String> = Vec::new();
    let mut i: usize = 0;
    while i < n
        invariant
            i <= n,
            r@.len() == i,
            forall|j: int| 0 <= j < i ==> #[trigger] r@[j]@ == text@,
        decreases n - i,
    {
        r.push(text.clone());
        i = i + 1;
    }
    assert(strings_view(r@) =~= repeated(text@, n as nat));
    r
}

/// The values that set an integer control to `target`, clamped to its range,
/// on every channel; none for a control of another kind.
pub fn apply_integer_route(kind: &ControlKind, target: i64) -> (r: Option<Vec<String>>)
    ensures
        match integer_route_write(kind@, target as int) {
            Some(v) => r is Some && strings_view(r->0@) == v,
            None => r is None,
        },
{
    match kind {
        ControlKind::Integer { min, max, channels, .. } => {
            let v = if target < *min {
                *min
            } else if target > *max {
                *max
            } else {
                target
            };
            let text = format_i64(v);
            Some(repeat_text(&text, *channels))
        },
        _ => None,
    }
}

fn plan_route(controls: &Vec<ControlDescriptor>, idx: usize, target: i64, plan: &mut Vec<
    PlannedWrite,
>)
    ensures
        plan_view(final(plan)@) == match route_write(views(controls@), idx as int, target as int) {
            Some(v) => plan_view(old(plan)@).push((idx, v)),
            None => plan_view(old(plan)@),
        },
{
    let ghost before = plan@;
    if idx < controls.len() {
        assert(views(controls@)[idx as int] == controls@[idx as int]@);
        match apply_integer_route(&controls[idx].kind, target) {
            Some(values) => {
                plan.push(PlannedWrite { control_index: idx, values });
                assert(plan_view(plan@) =~= plan_view(before).push(
                    (idx, route_write(views(controls@), idx as int, target as int)->0),
                ));
            },
            None => {},
        }
    }
}

/// The writes that set to `target` each route of the first `n` that `keep`
/// selects (see `route_selected`), in route order.
pub open spec fn routes_plan(
    cs: Seq<DescriptorModel>,
    routes: Seq<RouteRef>,
    rule: RouteRule,
    n: int,
) -> Seq<(usize, Seq<Seq<char>>)>
    decreases n,
{
    if n <= 0 {
        Seq::empty()
    } else {
        let earlier = routes_plan(cs, routes, rule, n - 1);
        let r = routes[n - 1];
        if route_selected(rule, r) && route_target(cs, rule, r) is Some {
            match route_write(cs, r.control_index as int, route_target(cs, rule, r)->0) {
                Some(v) => earlier.push((r.control_index, v)),
                None => earlier,
            }
        } else {
            earlier
        }
    }
}

/// Which routes an action touches and what it sets them to.
#[derive(Debug, Clone, Copy, PartialEq, Eq, Structural)]
pub enum RouteRule {
    /// Every route, to 0.
    MuteAll,
    /// Routes to the first two outputs, to the control's maximum.
    PassThrough,
    /// Routes whose input and output differ, to 0.
    MuteCrossed,
}

pub open spec fn route_selected(rule: RouteRule, r: RouteRef) -> bool {
    match rule {
        RouteRule::MuteAll => true,
        RouteRule::PassThrough => r.output <= 1,
        RouteRule::MuteCrossed => r.input != r.output,
    }
}

/// The target of a route: 0 for the mutes; for pass-through the control's
/// maximum where it is an integer, else 100.
pub open spec fn route_target(cs: Seq<DescriptorModel>, rule: RouteRule, r: RouteRef) -> Option<int> {
    match rule {
        RouteRule::PassThrough => if (r.control_index as int) < cs.len() && cs[r.control_index as int].kind is Integer {
            Some(cs[r.control_index as int].kind->Integer_max as int)
        } else {
            Some(100)
        },
        _ => Some(0),
    }
}

/// The writes of a route action: for each route that the rule selects, in route
/// order, its control set to the rule's target (clamped to its range) on every
/// channel; routes whose control is missing or not an integer are skipped.
pub fn plan_route_action(
    controls: &Vec<ControlDescriptor>,
    routes: &Vec<RouteRef>,
    rule: RouteRule,
) -> (r: Vec<PlannedWrite>)
    ensures
        plan_view(r@) == routes_plan(views(controls@), routes@, rule, routes@.len() as int),
{
    let ghost cs = views(controls@);
    let mut plan: Vec<PlannedWrite> = Vec::new();
    let mut i: usize = 0;
    while i < routes.len()
        invariant
            i <= routes@.len(),
            cs == views(controls@),
            plan_view(plan@) == routes_plan(cs, routes@, rule, i as int),
        decreases routes@.len() - i,
    {
        let r = routes[i];
        let selected = match rule {
            RouteRule::MuteAll => true,
            RouteRule::PassThrough => r.output <= 1,
            RouteRule::MuteCrossed => r.input != r.output,
        };
        if selected {
            let target: i64 = match rule {
                RouteRule::PassThrough => {
                    if r.control_index < controls.len() {
                        assert(cs[r.control_index as int] == controls@[r.control_index as int]@);
                        match &controls[r.control_index].kind {
                            ControlKind::Integer { max, .. } => *max,
                            _ => 100,
                        }
                    } else {
                        100
                    }
                },
                _ => 0,
            };
            plan_route(controls, r.control_index, target, &mut plan);
        }
        i = i + 1;
    }
    plan
}

/// Whether some route of either list uses the control at `idx`.
pub open spec fn routed(analog: Seq<RouteRef>, digital: Seq<RouteRef>, idx: int) -> bool {
    (exists|k: int| 0 <= k < analog.len() && (#[trigger] analog[k]).control_index == idx) || (
    exists|k: int| 0 <= k < digital.len() && (#[trigger] digital[k]).control_index == idx)
}

/// The writes that mute every routed control among the first `n`, in control
/// order, each control once.
pub open spec fn panic_plan(
    cs: Seq<DescriptorModel>,
    analog: Seq<RouteRef>,
    digital: Seq<RouteRef>,
    n: int,
) -> Seq<(usize, Seq<Seq<char>>)>
    decreases n,
{
    if n <= 0 {
        Seq::empty()
    } else {
        let earlier = panic_plan(cs, analog, digital, n - 1);
        if routed(analog, digital, n - 1) && route_write(cs, n - 1, 0) is Some {
            earlier.push(((n - 1) as usize, route_write(cs, n - 1, 0)->0))
        } else {
            earlier
        }
    }
}

fn uses_control(routes: &Vec<RouteRef>, idx: usize) -> (r: bool)
    ensures
        r == exists|k: int| 0 <= k < routes@.len() && (#[trigger] routes@[k]).control_index == idx,
{
    let mut k: usize = 0;
    while k < routes.len()
        invariant
            k <= routes@.len(),
            forall|j: int| 0 <= j < k ==> (#[trigger] routes@[j]).control_index != idx,
        decreases routes@.len() - k,
    {
        if routes[k].control_index == idx {
            return true;
        }
        k = k + 1;
    }
    false
}

/// The writes that mute all monitoring: every control that an analog or a
/// digital route uses, once each, in control order, set to its lowest value
/// at or above 0 (0 clamped to its range) on every channel.
pub fn plan_panic_mute(
    controls: &Vec<ControlDescriptor>,
    analog: &Vec<RouteRef>,
    digital: &Vec<RouteRef>,
) -> (r: Vec<PlannedWrite>)
    ensures
        plan_view(r@) == panic_plan(views(controls@), analog@, digital@, controls@.len() as int),
{
    let ghost cs = views(controls@);
    let mut plan: Vec<PlannedWrite> = Vec::new();
    let mut i: usize = 0;
    while i < controls.len()
        invariant
            i <= controls@.len(),
            cs == views(controls@),
            plan_view(plan@) == panic_plan(cs, analog@, digital@, i as int),
        decreases controls@.len() - i,
    {
        if uses_control(analog, i) || uses_control(digital, i) {
            plan_route(controls, i, 0, &mut plan);
        }
        i = i + 1;
    }
    plan
}

// ---- effects ----

pub open spec fn is_fx_name(name: Seq<char>) -> bool {
    lower_contains(name, seq!['f', 'x']) || lower_contains(
        name,
        seq!['e', 'f', 'f', 'e', 'c', 't'],
    ) || lower_contains(name, seq!['r', 'e', 'v', 'e', 'r', 'b']) || lower_contains(
        name,
        seq!['d', 'e', 'l', 'a', 'y'],
    ) || lower_contains(name, seq!['c', 'h', 'o', 'r', 'u', 's'])
}

/// Whether a control belongs to the effects section: its name mentions fx,
/// effect, reverb, delay or chorus (in the lowered name).
pub fn is_fx_control(name: &str) -> (r: bool)
    ensures
        r == is_fx_name(name@),
{
    proof {
        reveal_strlit("fx");
        reveal_strlit("effect");
        reveal_strlit("reverb");
        reveal_strlit("delay");
        reveal_strlit("chorus");
    }
    assert("fx"@ =~= seq!['f', 'x']);
    assert("effect"@ =~= seq!['e', 'f', 'f', 'e', 'c', 't']);
    assert("reverb"@ =~= seq!['r', 'e', 'v', 'e', 'r', 'b']);
    assert("delay"@ =~= seq!['d', 'e', 'l', 'a', 'y']);
    assert("chorus"@ =~= seq!['c', 'h', 'o', 'r', 'u', 's']);
    contains_lowercased(name, "fx") || contains_lowercased(name, "effect")
        || contains_lowercased(name, "reverb") || contains_lowercased(name, "delay")
        || contains_lowercased(name, "chorus")
}

pub open spec fn is_fx_send_name(name: Seq<char>) -> bool {
    is_fx_name(name) && (lower_contains(name, seq!['a', 'i', 'n']) || lower_contains(
        name,
        seq!['d', 'i', 'n'],
    )) && (lower_contains(name, seq!['s', 'e', 'n', 'd']) || lower_contains(
        name,
        seq!['a', 'u', 'x'],
    ) || lower_contains(name, seq!['t', 'o', ' ', 'f', 'x']))
}

/// Whether a control is a channel's send to the effects: an effects control
/// whose name mentions an analog or digital input and a send, an aux or "to fx".
pub fn is_channel_fx_send(name: &str) -> (r: bool)
    ensures
        r == is_fx_send_name(name@),
{
    proof {
        reveal_strlit("ain");
        reveal_strlit("din");
        reveal_strlit("send");
        reveal_strlit("aux");
        reveal_strlit("to fx");
    }
    assert("ain"@ =~= seq!['a', 'i', 'n']);
    assert("din"@ =~= seq!['d', 'i', 'n']);
    assert("send"@ =~= seq!['s', 'e', 'n', 'd']);
    assert("aux"@ =~= seq!['a', 'u', 'x']);
    assert("to fx"@ =~= seq!['t', 'o', ' ', 'f', 'x']);
    let fx = is_fx_control(name);
    let has_channel = contains_lowercased(name, "ain") || contains_lowercased(
        name,
        "din",
    );
    let send_like = contains_lowercased(name, "send") || contains_lowercased(
        name,
        "aux",
    ) || contains_lowercased(name, "to fx");
    fx && has_channel && send_like
}

pub open spec fn disable_fx_write(c: DescriptorModel) -> Option<Seq<Seq<char>>> {
    if lower_contains(c.name, seq!['f', 'x']) || lower_contains(
        c.name,
        seq!['e', 'f', 'f', 'e', 'c', 't'],
    ) {
        match c.kind {
            KindModel::Integer { channels, .. } => Some(repeated(seq!['0'], channels as nat)),
            KindModel::Boolean { channels } => Some(repeated(seq!['o', 'f', 'f'], channels as nat)),
            _ => None,
        }
    } else {
        None
    }
}

/// The writes that switch the effects off among the first `n` controls.
pub open spec fn disable_fx_plan(cs: Seq<DescriptorModel>, n: int) -> Seq<(usize, Seq<Seq<char>>)>
    decreases n,
{
    if n <= 0 {
        Seq::empty()
    } else {
        let earlier = disable_fx_plan(cs, n - 1);
        match disable_fx_write(cs[n - 1]) {
            Some(v) => earlier.push(((n - 1) as usize, v)),
            None => earlier,
        }
    }
}

/// The writes that switch the effects off: every control whose name mentions
/// fx or effect (in the lowered name), in control order; an integer set to "0"
/// and a switch to "off" on every channel; other kinds are left alone.
pub fn plan_disable_fx(controls: &Vec<ControlDescriptor>) -> (r: Vec<PlannedWrite>)
    ensures
        plan_view(r@) == disable_fx_plan(views(controls@), controls@.len() as int),
{
    proof {
        reveal_strlit("fx");
        reveal_strlit("effect");
        reveal_strlit("0");
        reveal_strlit("off");
    }
    assert("fx"@ =~= seq!['f', 'x']);
    assert("effect"@ =~= seq!['e', 'f', 'f', 'e', 'c', 't']);
    let ghost cs = views(controls@);
    let mut plan: Vec<PlannedWrite> = Vec::new();
    let mut i: usize = 0;
    while i < controls.len()
        invariant
            i <= controls@.len(),
            cs == views(controls@),
            "fx"@ == seq!['f', 'x'],
            "effect"@ == seq!['e', 'f', 'f', 'e', 'c', 't'],
            "0"@ == seq!['0'],
            "off"@ == seq!['o', 'f', 'f'],
            plan_view(plan@) == disable_fx_plan(cs, i as int),
        decreases controls@.len() - i,
    {
        let c = &controls[i];
        assert(cs[i as int] == c@);
        if contains_lowercased(c.name.as_str(), "fx") || contains_lowercased(
            c.name.as_str(),
            "effect",
        ) {
            let text: Option<String> = match &c.kind {
                ControlKind::Integer { .. } => Some(String::from_str("0")),
                ControlKind::Boolean { .. } => Some(String::from_str("off")),
                _ => None,
            };
            match text {
                Some(t) => {
                    let n = crate::models::channels_from_kind(&c.kind);
                    let values = repeat_text(&t, n);
                    let ghost before = plan@;
                    plan.push(PlannedWrite { control_index: i, values });
                    assert(plan_view(plan@) =~= plan_view(before).push(
                        (i, disable_fx_write(cs[i as int])->0),
                    ));
                },
                None => {},
            }
        }
        i = i + 1;
    }
    plan
}

// ---- effect sends ----

/// The token that names a channel in an effect-send control: `ain<k>` or
/// `din<k>`, with `k` the 1-based input number.
pub open spec fn fx_token(digital: bool, input: int) -> Seq<char> {
    (if digital {
        seq!['d', 'i', 'n']
    } else {
        seq!['a', 'i', 'n']
    }) + spec_decimal(input + 1)
}

/// How well a control's name reads as a send: send counts 5, aux 3, "to fx" 2,
/// and out takes 1 away.
pub open spec fn fx_send_score(name: Seq<char>) -> int {
    (if lower_contains(name, seq!['s', 'e', 'n', 'd']) {
        5int
    } else {
        0int
    }) + (if lower_contains(name, seq!['a', 'u', 'x']) {
        3int
    } else {
        0int
    }) + (if lower_contains(name, seq!['t', 'o', ' ', 'f', 'x']) {
        2int
    } else {
        0int
    }) - (if lower_contains(name, seq!['o', 'u', 't']) {
        1int
    } else {
        0int
    })
}

pub open spec fn fx_send_candidate(c: DescriptorModel, token: Seq<char>) -> bool {
    c.kind is Integer && lower_contains(c.name, token) && is_fx_name(c.name)
}

/// The best send among the first `n` controls for a token: the first candidate
/// of the highest score.
pub open spec fn best_send(cs: Seq<DescriptorModel>, token: Seq<char>, n: int) -> Option<int>
    decreases n,
{
    if n <= 0 {
        None
    } else {
        let earlier = best_send(cs, token, n - 1);
        if fx_send_candidate(cs[n - 1], token) && (earlier is None || fx_send_score(cs[n - 1].name)
            > fx_send_score(cs[earlier->0].name)) {
            Some(n - 1)
        } else {
            earlier
        }
    }
}

/// The (input, control index) pairs for the first `n` inputs that have a send.
pub open spec fn send_map(cs: Seq<DescriptorModel>, digital: bool, n: int) -> Seq<(usize, usize)>
    decreases n,
{
    if n <= 0 {
        Seq::empty()
    } else {
        let earlier = send_map(cs, digital, n - 1);
        match best_send(cs, fx_token(digital, n - 1), cs.len() as int) {
            Some(idx) => earlier.push(((n - 1) as usize, idx as usize)),
            None => earlier,
        }
    }
}

/// The highest input of the first `n` routes, 0 where there is none.
pub open spec fn max_input(routes: Seq<RouteRef>, n: int) -> int
    decreases n,
{
    if n <= 0 {
        0
    } else {
        let earlier = max_input(routes, n - 1);
        if routes[n - 1].input as int > earlier {
            routes[n - 1].input as int
        } else {
            earlier
        }
    }
}

fn score_of(name: &str) -> (r: i32)
    ensures
        r as int == fx_send_score(name@),
{
    proof {
        reveal_strlit("send");
        reveal_strlit("aux");
        reveal_strlit("to fx");
        reveal_strlit("out");
    }
    assert("send"@ =~= seq!['s', 'e', 'n', 'd']);
    assert("aux"@ =~= seq!['a', 'u', 'x']);
    assert("to fx"@ =~= seq!['t', 'o', ' ', 'f', 'x']);
    assert("out"@ =~= seq!['o', 'u', 't']);
    let mut score: i32 = 0;
    if contains_lowercased(name, "send") {
        score = score + 5;
    }
    if contains_lowercased(name, "aux") {
        score = score + 3;
    }
    if contains_lowercased(name, "to fx") {
        score = score + 2;
    }
    if contains_lowercased(name, "out") {
        score = score - 1;
    }
    score
}

fn send_token(digital: bool, input: usize) -> (r: String)
    requires
        input < usize::MAX,
    ensures
        r@ == fx_token(digital, input as int),
{
    proof {
        reveal_strlit("din");
        reveal_strlit("ain");
    }
    let mut s = if digital {
        String::from_str("din")
    } else {
        String::from_str("ain")
    };
    let n = format_u64((input + 1) as u64);
    s.append(n.as_str());
    s
}

fn find_best_send(controls: &Vec<ControlDescriptor>, token: &str) -> (r: Option<usize>)
    ensures
        match best_send(views(controls@), token@, controls@.len() as int) {
            Some(i) => r == Some(i as usize),
            None => r is None,
        },
{
    let ghost cs = views(controls@);
    let mut best: Option<(i32, usize)> = None;
    let mut i: usize = 0;
    while i < controls.len()
        invariant
            i <= controls@.len(),
            cs == views(controls@),
            match best_send(cs, token@, i as int) {
                Some(b) => best matches Some(p) && p.1 == b && p.0 as int == fx_send_score(cs[b].name)
                    && b < i,
                None => best is None,
            },
        decreases controls@.len() - i,
    {
        let c = &controls[i];
        assert(cs[i as int] == c@);
        let is_int = match &c.kind {
            ControlKind::Integer { .. } => true,
            _ => false,
        };
        if is_int && contains_lowercased(c.name.as_str(), token) && is_fx_control(
            c.name.as_str(),
        ) {
            let score = score_of(c.name.as_str());
            let better = match best {
                None => true,
                Some((s, _)) => score > s,
            };
            if better {
                best = Some((score, i));
            }
        }
        i = i + 1;
    }
    match best {
        Some((_, idx)) => Some(idx),
        None => None,
    }
}

fn highest_input(routes: &Vec<RouteRef>) -> (r: usize)
    ensures
        r as int == max_input(routes@, routes@.len() as int),
{
    let mut m: usize = 0;
    let mut i: usize = 0;
    while i < routes.len()
        invariant
            i <= routes@.len(),
            m as int == max_input(routes@, i as int),
        decreases routes@.len() - i,
    {
        if routes[i].input > m {
            m = routes[i].input;
        }
        i = i + 1;
    }
    m
}

/// For each input from 0 to the highest input of `routes`, the control that
/// best serves as its send to the effects, where one does: an integer effects
/// control whose name holds the input's token (`ain<k>` or `din<k>`), the first
/// of the highest score. The pairs are in input order.
pub fn find_fx_send_map(controls: &Vec<ControlDescriptor>, routes: &Vec<RouteRef>, digital: bool) -> (r:
    Vec<(usize, usize)>)
    requires
        forall|k: int| 0 <= k < routes@.len() ==> (#[trigger] routes@[k]).input < usize::MAX - 1,
    ensures
        r@ == send_map(views(controls@), digital, max_input(routes@, routes@.len() as int) + 1),
{
    proof {
        lemma_max_input_bound(routes@, routes@.len() as int);
    }
    let top = highest_input(routes);
    let ghost cs = views(controls@);
    let mut out: Vec<(usize, usize)> = Vec::new();
    let mut input: usize = 0;
    while input <= top
        invariant
            top < usize::MAX - 1,
            input <= top + 1,
            cs == views(controls@),
            out@ == send_map(cs, digital, input as int),
        decreases top + 1 - input,
    {
        let token = send_token(digital, input);
        match find_best_send(controls, token.as_str()) {
            Some(idx) => {
                out.push((input, idx));
            },
            None => {},
        }
        input = input + 1;
    }
    out
}

proof fn lemma_max_input_bound(routes: Seq<RouteRef>, n: int)
    requires
        0 <= n <= routes.len(),
        forall|k: int| 0 <= k < routes.len() ==> (#[trigger] routes[k]).input < usize::MAX - 1,
    ensures
        0 <= max_input(routes, n) < usize::MAX - 1,
    decreases n,
{
    if n > 0 {
        lemma_max_input_bound(routes, n - 1);
    }
}

} // verus!
