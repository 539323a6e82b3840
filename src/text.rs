//! Decimal numbers, ASCII case-insensitive comparison, and token search in
//! lowered text, on character sequences.
use vstd::prelude::*;

verus! {

pub open spec fn is_digit(c: char) -> bool {
    '0' <= c && c <= '9'
}

pub open spec fn digit_value(c: char) -> nat {
    (c as u32 - '0' as u32) as nat
}

pub open spec fn all_digits(s: Seq<char>) -> bool {
    forall|i: int| 0 <= i < s.len() ==> is_digit(#[trigger] s[i])
}

/// The number that a string of decimal digits denotes.
pub open spec fn digits_value(s: Seq<char>) -> nat
    decreases s.len(),
{
    if s.len() == 0 {
        0
    } else {
        digits_value(s.drop_last()) * 10 + digit_value(s.last())
    }
}

/// An unsigned decimal number: an optional `+`, then at least one digit.
pub open spec fn spec_parse_unsigned(s: Seq<char>) -> Option<nat> {
    let body = if s.len() > 0 && s[0] == '+' {
        s.drop_first()
    } else {
        s
    };
    if body.len() > 0 && all_digits(body) {
        Some(digits_value(body))
    } else {
        None
    }
}

/// A signed decimal number that fits in an `i64`: an optional `+` or `-`, then at
/// least one digit.
pub open spec fn spec_parse_i64(s: Seq<char>) -> Option<int> {
    let neg = s.len() > 0 && s[0] == '-';
    let body = if s.len() > 0 && (s[0] == '+' || s[0] == '-') {
        s.drop_first()
    } else {
        s
    };
    if body.len() > 0 && all_digits(body) {
        let v: int = if neg {
            -(digits_value(body) as int)
        } else {
            digits_value(body) as int
        };
        if i64::MIN <= v <= i64::MAX {
            Some(v)
        } else {
            None
        }
    } else {
        None
    }
}

pub open spec fn digit_char(d: nat) -> char {
    if d == 0 {
        '0'
    } else if d == 1 {
        '1'
    } else if d == 2 {
        '2'
    } else if d == 3 {
        '3'
    } else if d == 4 {
        '4'
    } else if d == 5 {
        '5'
    } else if d == 6 {
        '6'
    } else if d == 7 {
        '7'
    } else if d == 8 {
        '8'
    } else {
        '9'
    }
}

/// The decimal digits of `n`, without leading zeros.
pub open spec fn spec_digits(n: nat) -> Seq<char>
    decreases n,
{
    if n < 10 {
        seq![digit_char(n)]
    } else {
        spec_digits(n / 10).push(digit_char(n % 10))
    }
}

/// The decimal text of an integer, with a `-` before a negative one.
pub open spec fn spec_decimal(v: int) -> Seq<char> {
    if v < 0 {
        seq!['-'] + spec_digits((-v) as nat)
    } else {
        spec_digits(v as nat)
    }
}

pub open spec fn is_ascii_upper(c: char) -> bool {
    'A' <= c && c <= 'Z'
}

/// Two characters that are equal once ASCII letters are folded to lower case.
pub open spec fn char_eq_ignore_case(a: char, b: char) -> bool {
    a == b || (is_ascii_upper(a) && a as u32 + 32 == b as u32) || (is_ascii_upper(b) && b as u32
        + 32 == a as u32)
}

pub open spec fn seq_eq_ignore_case(a: Seq<char>, b: Seq<char>) -> bool {
    a.len() == b.len() && forall|i: int| 0 <= i < a.len() ==> char_eq_ignore_case(#[trigger] a[i], b[i])
}

/// The code points that lowering a character yields, as far as ASCII text can
/// tell them apart: ASCII capitals and KELVIN SIGN lower to an ASCII letter,
/// LATIN CAPITAL LETTER I WITH DOT ABOVE to `i` and a combining dot; every other
/// character is kept, since its lowercase form holds no ASCII character.
pub open spec fn lowered_codes(c: char) -> Seq<u32> {
    let u = c as u32;
    if 0x41 <= u && u <= 0x5A {
        seq![(u + 32) as u32]
    } else if u == 0x212A {
        seq![0x6Bu32]
    } else if u == 0x130 {
        seq![0x69u32, 0x307u32]
    } else {
        seq![u]
    }
}

/// The code points of a text once lowered (see `lowered_codes`).
pub open spec fn lowered_text(s: Seq<char>) -> Seq<u32>
    decreases s.len(),
{
    if s.len() == 0 {
        Seq::empty()
    } else {
        lowered_text(s.drop_last()) + lowered_codes(s.last())
    }
}

pub open spec fn codes_of(s: Seq<char>) -> Seq<u32> {
    s.map_values(|c: char| c as u32)
}

/// The lowered text of `hay` holds `needle` (a lowercase ASCII token), as
/// `hay.to_lowercase().contains(needle)` finds it.
pub open spec fn lower_contains(hay: Seq<char>, needle: Seq<char>) -> bool {
    exists|start: int|
        0 <= start && start + needle.len() <= lowered_text(hay).len() && #[trigger] lowered_text(
            hay,
        ).subrange(start, start + needle.len()) == codes_of(needle)
}

pub fn char_eq_ignore_ascii_case(a: char, b: char) -> (r: bool)
    ensures
        r == char_eq_ignore_case(a, b),
{
    let x = a as u32;
    let y = b as u32;
    x == y || ('A' <= a && a <= 'Z' && x + 32 == y) || ('A' <= b && b <= 'Z' && y + 32 == x)
}

/// Equality of two strings once ASCII letters are folded to lower case.
pub fn eq_ignore_ascii_case(a: &str, b: &str) -> (r: bool)
    ensures
        r == seq_eq_ignore_case(a@, b@),
{
    let n = a.unicode_len();
    if n != b.unicode_len() {
        return false;
    }
    let mut i: usize = 0;
    while i < n
        invariant
            n == a@.len(),
            n == b@.len(),
            i <= n,
            forall|j: int| 0 <= j < i ==> char_eq_ignore_case(#[trigger] a@[j], b@[j]),
        decreases n - i,
    {
        if !char_eq_ignore_ascii_case(a.get_char(i), b.get_char(i)) {
            return false;
        }
        i = i + 1;
    }
    true
}

fn lowered(s: &str) -> (r: Vec<u32>)
    ensures
        r@ == lowered_text(s@),
{
    let n = s.unicode_len();
    let mut r: Vec<u32> = Vec::new();
    let mut i: usize = 0;
    assert(s@.subrange(0, 0) =~= Seq::<char>::empty());
    while i < n
        invariant
            n == s@.len(),
            i <= n,
            r@ == lowered_text(s@.subrange(0, i as int)),
        decreases n - i,
    {
        let c = s.get_char(i);
        let u = c as u32;
        let ghost before = r@;
        if 0x41 <= u && u <= 0x5A {
            r.push(u + 32);
        } else if u == 0x212A {
            r.push(0x6B);
        } else if u == 0x130 {
            r.push(0x69);
            r.push(0x307);
        } else {
            r.push(u);
        }
        assert(r@ =~= before + lowered_codes(c));
        assert(s@.subrange(0, i + 1).drop_last() =~= s@.subrange(0, i as int));
        i = i + 1;
    }
    assert(s@.subrange(0, n as int) =~= s@);
    r
}

/// Whether the text lowered as `str::to_lowercase` lowers it holds `needle`, a
/// lowercase ASCII token.
pub fn contains_lowercased(hay: &str, needle: &str) -> (r: bool)
    ensures
        r == lower_contains(hay@, needle@),
{
    let h = lowered(hay);
    let ghost codes = codes_of(needle@);
    let n = h.len();
    let m = needle.unicode_len();
    if m > n {
        assert forall|start: int|
            0 <= start && start + m <= h@.len() implies #[trigger] h@.subrange(start, start + m)
            != codes by {}
        return false;
    }
    let mut start: usize = 0;
    while start <= n - m
        invariant
            n == h@.len(),
            h@ == lowered_text(hay@),
            m == needle@.len(),
            codes == codes_of(needle@),
            m <= n,
            start <= n - m + 1,
            forall|s: int| 0 <= s < start ==> #[trigger] h@.subrange(s, s + m) != codes,
        decreases n - m + 1 - start,
    {
        let mut j: usize = 0;
        let mut ok = true;
        while j < m
            invariant
                n == h@.len(),
                m == needle@.len(),
                codes == codes_of(needle@),
                start + m <= n,
                j <= m,
                ok == forall|k: int| 0 <= k < j ==> #[trigger] h@[start + k] == codes[k],
            decreases m - j,
        {
            if ok && h[start + j] != needle.get_char(j) as u32 {
                ok = false;
            }
            j = j + 1;
        }
        let ghost window = h@.subrange(start as int, start + m);
        assert(ok == (window == codes)) by {
            if ok {
                assert forall|k: int| 0 <= k < m implies #[trigger] window[k] == codes[k] by {
                    assert(window[k] == h@[start + k]);
                }
                assert(window =~= codes);
            } else {
                let k = choose|k: int| 0 <= k < m && h@[start + k] != codes[k];
                assert(window[k] == h@[start + k]);
            }
        }
        if ok {
            return true;
        }
        start = start + 1;
    }
    assert forall|s: int|
        0 <= s && s + m <= h@.len() implies #[trigger] h@.subrange(s, s + m) != codes by {
        assert(s < start);
    }
    false
}

/// Whether `s` begins with `prefix`, character for character.
pub fn starts_with_chars(s: &str, prefix: &str) -> (r: bool)
    ensures
        r == (prefix@.len() <= s@.len() && s@.subrange(0, prefix@.len() as int) == prefix@),
{
    let n = s.unicode_len();
    let m = prefix.unicode_len();
    if m > n {
        return false;
    }
    let mut i: usize = 0;
    while i < m
        invariant
            n == s@.len(),
            m == prefix@.len(),
            m <= n,
            i <= m,
            forall|j: int| 0 <= j < i ==> s@[j] == prefix@[j],
        decreases m - i,
    {
        if s.get_char(i) != prefix.get_char(i) {
            assert(s@.subrange(0, m as int)[i as int] != prefix@[i as int]);
            return false;
        }
        i = i + 1;
    }
    assert(s@.subrange(0, m as int) =~= prefix@);
    true
}

proof fn lemma_digits_value_push(s: Seq<char>, c: char)
    ensures
        digits_value(s.push(c)) == digits_value(s) * 10 + digit_value(c),
{
    assert(s.push(c).drop_last() =~= s);
}

proof fn lemma_saturated_step(v: nat, d: nat, cap: nat)
    requires
        d < 10,
        cap > 0,
    ensures
        (if v < cap { v } else { cap }) * 10 + d >= cap <==> v * 10 + d >= cap,
        (if v < cap { v } else { cap }) * 10 + d < cap ==> v * 10 + d == (if v < cap { v } else { cap }) * 10 + d,
{
    if v >= cap {
        assert(v * 10 + d >= cap) by (nonlinear_arith)
            requires v >= cap;
        assert(cap * 10 + d >= cap) by (nonlinear_arith)
            requires cap > 0;
    }
}

/// The value of the decimal digits `s[from..to]`, or `cap` if that value is
/// `cap` or more.
pub(crate) fn digits_saturated(s: &str, from: usize, to: usize, cap: u128) -> (r: Option<u128>)
    requires
        from <= to <= s@.len(),
        0 < cap <= 0x1_0000_0000_0000_0000,
    ensures
        r is None <==> !all_digits(s@.subrange(from as int, to as int)),
        r matches Some(v) ==> v == (if digits_value(s@.subrange(from as int, to as int)) < cap {
            digits_value(s@.subrange(from as int, to as int))
        } else {
            cap as nat
        }),
{
    let n = to;
    let mut acc: u128 = 0;
    let mut i: usize = from;
    while i < n
        invariant
            n <= s@.len(),
            n == to,
            from <= i <= n,
            0 < cap <= 0x1_0000_0000_0000_0000,
            all_digits(s@.subrange(from as int, i as int)),
            acc == (if digits_value(s@.subrange(from as int, i as int)) < cap {
                digits_value(s@.subrange(from as int, i as int))
            } else {
                cap as nat
            }),
        decreases n - i,
    {
        let c = s.get_char(i);
        if !('0' <= c && c <= '9') {
            assert(s@.subrange(from as int, n as int)[i - from] == c);
            return None;
        }
        let d = (c as u32 - '0' as u32) as u128;
        let ghost prev = s@.subrange(from as int, i as int);
        assert(s@.subrange(from as int, i + 1) =~= prev.push(c));
        proof {
            lemma_digits_value_push(prev, c);
            lemma_saturated_step(digits_value(prev), d as nat, cap as nat);
        }
        let wide: u128 = acc * 10 + d;
        acc = if wide < cap {
            wide
        } else {
            cap
        };
        i = i + 1;
    }
    Some(acc)
}

/// Parses an unsigned decimal number no greater than `limit`, as `str::parse`
/// does for unsigned integer types bounded by `limit`.
pub fn parse_unsigned(s: &str, limit: u64) -> (r: Option<u64>)
    ensures
        r == (match spec_parse_unsigned(s@) {
            Some(n) => if n <= limit {
                Some(n as u64)
            } else {
                None
            },
            None => None,
        }),
{
    let n = s.unicode_len();
    let from: usize = if n > 0 && s.get_char(0) == '+' {
        1
    } else {
        0
    };
    if from == n {
        return None;
    }
    assert(s@.subrange(from as int, n as int) =~= (if s@.len() > 0 && s@[0] == '+' {
        s@.drop_first()
    } else {
        s@
    }));
    match digits_saturated(s, from, n, limit as u128 + 1) {
        None => None,
        Some(v) => if v <= limit as u128 {
            Some(v as u64)
        } else {
            None
        },
    }
}

/// Parses a signed decimal `i64`, as `str::parse::<i64>` does.
pub fn parse_i64(s: &str) -> (r: Option<i64>)
    ensures
        r == (match spec_parse_i64(s@) {
            Some(v) => Some(v as i64),
            None => None,
        }),
{
    let n = s.unicode_len();
    let neg = n > 0 && s.get_char(0) == '-';
    let from: usize = if n > 0 && (s.get_char(0) == '+' || s.get_char(0) == '-') {
        1
    } else {
        0
    };
    if from == n {
        return None;
    }
    assert(s@.subrange(from as int, n as int) =~= (if s@.len() > 0 && (s@[0] == '+' || s@[0]
        == '-') {
        s@.drop_first()
    } else {
        s@
    }));
    let cap: u128 = if neg {
        0x8000_0000_0000_0001
    } else {
        0x8000_0000_0000_0000
    };
    match digits_saturated(s, from, n, cap) {
        None => None,
        Some(v) => if v < cap {
            if neg {
                Some((-(v as i128)) as i64)
            } else {
                Some(v as i64)
            }
        } else {
            None
        },
    }
}

fn digit_str(d: u64) -> (r: &'static str)
    requires
        d < 10,
    ensures
        r@ == seq![digit_char(d as nat)],
{
    proof {
        reveal_strlit("0");
        reveal_strlit("1");
        reveal_strlit("2");
        reveal_strlit("3");
        reveal_strlit("4");
        reveal_strlit("5");
        reveal_strlit("6");
        reveal_strlit("7");
        reveal_strlit("8");
        reveal_strlit("9");
    }
    if d == 0 {
        "0"
    } else if d == 1 {
        "1"
    } else if d == 2 {
        "2"
    } else if d == 3 {
        "3"
    } else if d == 4 {
        "4"
    } else if d == 5 {
        "5"
    } else if d == 6 {
        "6"
    } else if d == 7 {
        "7"
    } else if d == 8 {
        "8"
    } else {
        "9"
    }
}

fn push_digits(out: &mut String, n: u64)
    ensures
        final(out)@ == old(out)@ + spec_digits(n as nat),
    decreases n,
{
    if n >= 10 {
        push_digits(out, n / 10);
    }
    out.append(digit_str(n % 10));
    assert(spec_digits(n as nat) == if n < 10 {
        seq![digit_char(n as nat)]
    } else {
        spec_digits((n / 10) as nat).push(digit_char((n % 10) as nat))
    });
    if n < 10 {
        assert(n % 10 == n);
    }
}

/// The decimal text of an unsigned integer.
pub fn format_u64(n: u64) -> (r: String)
    ensures
        r@ == spec_decimal(n as int),
{
    let mut out = String::new();
    push_digits(&mut out, n);
    assert(out@ =~= spec_digits(n as nat));
    out
}

/// The decimal text of a signed integer, as `i64::to_string` writes it.
pub fn format_i64(v: i64) -> (r: String)
    ensures
        r@ == spec_decimal(v as int),
{
    if v < 0 {
        proof {
            reveal_strlit("-");
        }
        let mut out = String::from_str("-");
        let mag: u64 = (-(v as i128)) as u64;
        push_digits(&mut out, mag);
        out
    } else {
        let mut out = String::new();
        push_digits(&mut out, v as u64);
        assert(out@ =~= spec_digits(v as nat));
        out
    }
}

/// White space: the ASCII and Unicode space characters.
pub open spec fn is_space(c: char) -> bool {
    let u = c as u32;
    (0x09 <= u && u <= 0x0D) || u == 0x20 || u == 0x85 || u == 0xA0 || u == 0x1680 || (0x2000
        <= u && u <= 0x200A) || u == 0x2028 || u == 0x2029 || u == 0x202F || u == 0x205F || u
        == 0x3000
}

/// The end of the run of white space that starts at `from`.
pub open spec fn space_run_end(s: Seq<char>, from: int) -> int
    decreases s.len() - from,
{
    if 0 <= from < s.len() && is_space(s[from]) {
        space_run_end(s, from + 1)
    } else {
        from
    }
}

pub fn space_run(s: &str, from: usize, n: usize) -> (r: usize)
    requires
        n == s@.len(),
        from <= n,
    ensures
        r as int == space_run_end(s@, from as int),
        from <= r <= n,
    decreases n - from,
{
    if from < n {
        let c = s.get_char(from);
        let u = c as u32;
        let space = (0x09 <= u && u <= 0x0D) || u == 0x20 || u == 0x85 || u == 0xA0 || u == 0x1680
            || (0x2000 <= u && u <= 0x200A) || u == 0x2028 || u == 0x2029 || u == 0x202F || u
            == 0x205F || u == 0x3000;
        if space {
            return space_run(s, from + 1, n);
        }
    }
    from
}

/// The end of `s[..n]` once trailing white space is dropped.
pub open spec fn trim_end_from(s: Seq<char>, n: int) -> int
    decreases n,
{
    if n > 0 && n <= s.len() && is_space(s[n - 1]) {
        trim_end_from(s, n - 1)
    } else {
        n
    }
}

/// `s` without white space at either end.
pub open spec fn spec_trim(s: Seq<char>) -> Seq<char> {
    let a = space_run_end(s, 0);
    let b = trim_end_from(s, s.len() as int);
    if a < b {
        s.subrange(a, b)
    } else {
        Seq::empty()
    }
}

fn trim_end_run(s: &str, n: usize) -> (r: usize)
    requires
        n <= s@.len(),
    ensures
        r as int == trim_end_from(s@, n as int),
        r <= n,
    decreases n,
{
    if n > 0 {
        let u = s.get_char(n - 1) as u32;
        let space = (0x09 <= u && u <= 0x0D) || u == 0x20 || u == 0x85 || u == 0xA0 || u == 0x1680
            || (0x2000 <= u && u <= 0x200A) || u == 0x2028 || u == 0x2029 || u == 0x202F || u
            == 0x205F || u == 0x3000;
        if space {
            return trim_end_run(s, n - 1);
        }
    }
    n
}

/// A copy of `s` without white space at either end, as `str::trim` gives it.
pub fn trim_spaces(s: &str) -> (r: String)
    ensures
        r@ == spec_trim(s@),
{
    let n = s.unicode_len();
    let a = space_run(s, 0, n);
    let b = trim_end_run(s, n);
    if a < b {
        String::from_str(s.substring_char(a, b))
    } else {
        String::new()
    }
}

} // verus!
