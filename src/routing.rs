//! Routing topology recovered from control names, and the grouping label that a
//! name suggests.
use vstd::prelude::*;

use crate::models::{ControlDescriptor, RouteRef, RoutingIndex};
use crate::text::{
    all_digits, contains_lowercased, lower_contains, digits_saturated, digits_value,
    space_run, space_run_end, starts_with_chars,
};

verus! {

// A decimal digit in Unicode's sense (general category Nd), as the regex class
// `\d` has it.
pub uninterp spec fn is_unicode_digit(c: char) -> bool;

// A word character in Unicode's sense, as the regex class `\w` has it.
pub uninterp spec fn is_unicode_word(c: char) -> bool;

/// Relies on regex's `\d` class: whether the character is a Unicode decimal
/// digit (Nd); among ASCII characters these are exactly `0` to `9`.
#[verifier::external_body]
fn unicode_digit(c: char) -> (r: bool)
    ensures
        r == is_unicode_digit(c),
        (c as u32) < 128 ==> (r <==> ('0' <= c && c <= '9')),
{
    let mut buf = [0u8; 4];
    regex::Regex::new(r"\A\d\z").map(|re| re.is_match(c.encode_utf8(&mut buf))).unwrap_or(false)
}

/// Relies on regex's `\w` class: whether the character is a Unicode word
/// character; among ASCII characters these are exactly letters, digits and `_`.
#[verifier::external_body]
fn unicode_word(c: char) -> (r: bool)
    ensures
        r == is_unicode_word(c),
        (c as u32) < 128 ==> (r <==> (('0' <= c && c <= '9') || ('a' <= c && c <= 'z') || ('A'
            <= c && c <= 'Z') || c == '_')),
{
    let mut buf = [0u8; 4];
    regex::Regex::new(r"\A\w\z").map(|re| re.is_match(c.encode_utf8(&mut buf))).unwrap_or(false)
}

/// The end of the run of digits that starts at `from`.
pub open spec fn digit_run_end(s: Seq<char>, from: int) -> int
    decreases s.len() - from,
{
    if 0 <= from < s.len() && is_unicode_digit(s[from]) {
        digit_run_end(s, from + 1)
    } else {
        from
    }
}

pub open spec fn no_newline_from(s: Seq<char>, from: int) -> bool {
    forall|i: int| from <= i < s.len() ==> #[trigger] s[i] != '\n'
}

/// The two digit strings of a routing name `<prefix><N> - Out<M>`: the prefix,
/// a run of digits, white space, `-`, white space, `Out`, a run of digits, then
/// the end of the name or a character that is not a word character, followed
/// by anything but a line break. Digits, white space and word characters are
/// meant in Unicode's sense.
pub open spec fn route_numbers(name: Seq<char>, prefix: Seq<char>) -> Option<
    (Seq<char>, Seq<char>),
> {
    let p = prefix.len() as int;
    let e1 = digit_run_end(name, p);
    let e2 = space_run_end(name, e1);
    let e3 = space_run_end(name, e2 + 1);
    let e4 = digit_run_end(name, e3 + 3);
    if p <= name.len() && name.subrange(0, p) == prefix && e1 > p && e2 < name.len() && name[e2]
        == '-' && e3 + 3 <= name.len() && name[e3] == 'O' && name[e3 + 1] == 'u' && name[e3 + 2]
        == 't' && e4 > e3 + 3 && (e4 == name.len() || !is_unicode_word(name[e4]))
        && no_newline_from(name, e4) {
        Some((name.subrange(p, e1), name.subrange(e3 + 3, e4)))
    } else {
        None
    }
}

/// A 1-based number from a name as a 0-based index: one less, never below zero,
/// and zero for a number too large for an index.
pub open spec fn index_from_number(n: nat) -> usize {
    if n <= usize::MAX {
        if n == 0 {
            0
        } else {
            (n - 1) as usize
        }
    } else {
        0
    }
}

/// The index that a captured digit string gives: the 0-based index of its
/// number where it reads as a `usize` in ASCII digits, else 0.
pub open spec fn index_of_digits(s: Seq<char>) -> usize {
    if all_digits(s) {
        index_from_number(digits_value(s))
    } else {
        0
    }
}

/// The 0-based (input, output) pair that a routing name gives.
pub open spec fn route_of_name(name: Seq<char>, prefix: Seq<char>) -> Option<(usize, usize)> {
    match route_numbers(name, prefix) {
        Some((i, o)) => Some((index_of_digits(i), index_of_digits(o))),
        None => None,
    }
}

pub open spec fn analog_prefix() -> Seq<char> {
    seq!['A', 'I', 'n']
}

pub open spec fn digital_prefix() -> Seq<char> {
    seq!['D', 'I', 'n']
}

/// The routes that the first `n` names give for one prefix, in name order.
pub open spec fn routes_of(names: Seq<Seq<char>>, prefix: Seq<char>, n: int) -> Seq<RouteRef>
    decreases n,
{
    if n <= 0 {
        Seq::empty()
    } else {
        let earlier = routes_of(names, prefix, n - 1);
        match route_of_name(names[n - 1], prefix) {
            Some((input, output)) => earlier.push(
                RouteRef { output, input, control_index: (n - 1) as usize },
            ),
            None => earlier,
        }
    }
}

pub open spec fn catalog_names(controls: Seq<ControlDescriptor>) -> Seq<Seq<char>> {
    controls.map_values(|c: ControlDescriptor| c.name@)
}

fn digit_run(s: &str, from: usize, n: usize) -> (r: usize)
    requires
        n == s@.len(),
        from <= n,
    ensures
        r as int == digit_run_end(s@, from as int),
        from <= r <= n,
    decreases n - from,
{
    if from < n {
        if unicode_digit(s.get_char(from)) {
            return digit_run(s, from + 1, n);
        }
    }
    from
}

fn newline_from(s: &str, from: usize, n: usize) -> (r: bool)
    requires
        n == s@.len(),
        from <= n,
    ensures
        r == !no_newline_from(s@, from as int),
    decreases n - from,
{
    if from == n {
        return false;
    }
    if s.get_char(from) == '\n' {
        return true;
    }
    let rest = newline_from(s, from + 1, n);
    assert(no_newline_from(s@, from as int) == no_newline_from(s@, from + 1)) by {
        if no_newline_from(s@, from + 1) {
            assert forall|i: int| from <= i < s@.len() implies #[trigger] s@[i] != '\n' by {
                if i > from {
                    assert(s@[i] != '\n');
                }
            }
        }
    }
    rest
}

fn index_from_digits(s: &str, from: usize, to: usize) -> (r: usize)
    requires
        from <= to <= s@.len(),
    ensures
        r == index_of_digits(s@.subrange(from as int, to as int)),
{
    let cap: u128 = usize::MAX as u128 + 1;
    match digits_saturated(s, from, to, cap) {
        Some(v) => if v < cap {
            if v == 0 {
                0
            } else {
                (v - 1) as usize
            }
        } else {
            0
        },
        None => 0,
    }
}

/// Reads a routing name `<prefix><N> - Out<M>` and gives its 0-based input and
/// output.
pub fn match_route_name(name: &str, prefix: &str) -> (r: Option<(usize, usize)>)
    ensures
        r == route_of_name(name@, prefix@),
{
    let n = name.unicode_len();
    let p: usize = prefix.unicode_len();
    if !starts_with_chars(name, prefix) {
        return None;
    }
    let e1 = digit_run(name, p, n);
    if e1 == p {
        return None;
    }
    let e2 = space_run(name, e1, n);
    if e2 >= n || name.get_char(e2) != '-' {
        return None;
    }
    let e3 = space_run(name, e2 + 1, n);
    if n - e3 < 3 || name.get_char(e3) != 'O' || name.get_char(e3 + 1) != 'u' || name.get_char(
        e3 + 2,
    ) != 't' {
        return None;
    }
    let e4 = digit_run(name, e3 + 3, n);
    if e4 == e3 + 3 {
        return None;
    }
    if e4 < n && unicode_word(name.get_char(e4)) {
        return None;
    }
    if newline_from(name, e4, n) {
        return None;
    }
    let input = index_from_digits(name, p, e1);
    let output = index_from_digits(name, e3 + 3, e4);
    Some((input, output))
}

/// Derives the analog and digital routing cells of a catalog from the names of
/// its controls, in catalog order: `AIn<N> - Out<M>` is an analog route from
/// input N-1 to output M-1, `DIn<N> - Out<M>` a digital one; other controls
/// are in neither list.
pub fn build_routing_index(controls: &Vec<ControlDescriptor>) -> (r: RoutingIndex)
    ensures
        r.analog_routes@ == routes_of(
            catalog_names(controls@),
            analog_prefix(),
            controls@.len() as int,
        ),
        r.digital_routes@ == routes_of(
            catalog_names(controls@),
            digital_prefix(),
            controls@.len() as int,
        ),
{
    proof {
        reveal_strlit("AIn");
        reveal_strlit("DIn");
    }
    assert("AIn"@ =~= analog_prefix());
    assert("DIn"@ =~= digital_prefix());
    let ghost names = catalog_names(controls@);
    let mut index = RoutingIndex::new();
    let mut i: usize = 0;
    while i < controls.len()
        invariant
            i <= controls@.len(),
            names == catalog_names(controls@),
            "AIn"@ == analog_prefix(),
            "DIn"@ == digital_prefix(),
            index.analog_routes@ == routes_of(names, analog_prefix(), i as int),
            index.digital_routes@ == routes_of(names, digital_prefix(), i as int),
        decreases controls@.len() - i,
    {
        let name = controls[i].name.as_str();
        assert(names[i as int] == name@);
        match match_route_name(name, "AIn") {
            Some((input, output)) => {
                index.analog_routes.push(RouteRef { output, input, control_index: i });
            },
            None => {},
        }
        match match_route_name(name, "DIn") {
            Some((input, output)) => {
                index.digital_routes.push(RouteRef { output, input, control_index: i });
            },
            None => {},
        }
        i = i + 1;
    }
    index
}

pub open spec fn label_analog() -> Seq<char> {
    seq!['A', 'n', 'a', 'l', 'o', 'g', ' ', 'R', 'o', 'u', 't', 'i', 'n', 'g']
}

pub open spec fn label_digital() -> Seq<char> {
    seq!['D', 'i', 'g', 'i', 't', 'a', 'l', ' ', 'R', 'o', 'u', 't', 'i', 'n', 'g']
}

pub open spec fn label_effects() -> Seq<char> {
    seq!['E', 'f', 'f', 'e', 'c', 't', 's']
}

pub open spec fn label_other() -> Seq<char> {
    seq!['O', 't', 'h', 'e', 'r']
}

/// The group that a control's name suggests.
pub open spec fn spec_group_label(name: Seq<char>) -> Seq<char> {
    if name.len() >= 3 && name.subrange(0, 3) == analog_prefix() {
        label_analog()
    } else if name.len() >= 3 && name.subrange(0, 3) == digital_prefix() {
        label_digital()
    } else if lower_contains(name, seq!['f', 'x']) || lower_contains(
        name,
        seq!['e', 'f', 'f', 'e', 'c', 't'],
    ) {
        label_effects()
    } else {
        label_other()
    }
}

/// The group that a control's name suggests: a name that begins with `AIn` is
/// analog routing, `DIn` digital routing; one whose lowered form holds `fx` or `effect`
/// is an effect; the rest is other.
pub fn group_label(name: &str) -> (r: String)
    ensures
        r@ == spec_group_label(name@),
{
    proof {
        reveal_strlit("AIn");
        reveal_strlit("DIn");
        reveal_strlit("fx");
        reveal_strlit("effect");
        reveal_strlit("Analog Routing");
        reveal_strlit("Digital Routing");
        reveal_strlit("Effects");
        reveal_strlit("Other");
    }
    assert("AIn"@ =~= analog_prefix());
    assert("DIn"@ =~= digital_prefix());
    assert("fx"@ =~= seq!['f', 'x']);
    assert("effect"@ =~= seq!['e', 'f', 'f', 'e', 'c', 't']);
    assert("Analog Routing"@ =~= label_analog());
    assert("Digital Routing"@ =~= label_digital());
    assert("Effects"@ =~= label_effects());
    assert("Other"@ =~= label_other());
    if starts_with_chars(name, "AIn") {
        String::from_str("Analog Routing")
    } else if starts_with_chars(name, "DIn") {
        String::from_str("Digital Routing")
    } else if contains_lowercased(name, "fx") || contains_lowercased(name, "effect") {
        String::from_str("Effects")
    } else {
        String::from_str("Other")
    }
}

} // verus!
