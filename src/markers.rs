//! Season/episode markers (`S10E04`, `[S01E08]`) and year markers (`(2017)`)
//! inside plain text.
use vstd::prelude::*;

use crate::text::find_char;
use crate::text::lemma_find_char_bounds;

verus! {

/// Characters of the Unicode decimal digit class (`Decimal_Number`), the
/// digits of regular expressions.
pub uninterp spec fn is_decimal_digit(c: char) -> bool;

/// Relies on `regex::Regex::new` and `Regex::is_match`: the pattern `^\d$`
/// matches a one-character text exactly when the character is a Unicode
/// decimal digit, `0` to `9` among them. The pattern is valid, so compiling
/// it does not fail.
#[verifier::external_body]
fn decimal_digit(c: char) -> (r: bool)
    ensures
        r == is_decimal_digit(c),
        '0' <= c && c <= '9' ==> r,
{
    let mut buf = [0u8; 4];
    regex::Regex::new(r"^\d$").map_or(false, |re| re.is_match(c.encode_utf8(&mut buf)))
}

/// ASCII decimal digits, the only ones a number is read from.
pub open spec fn is_digit(c: char) -> bool {
    '0' <= c && c <= '9'
}

pub open spec fn digit_value(c: char) -> nat {
    ((c as u32) - ('0' as u32)) as nat
}

/// First index at or after `i` that does not hold a decimal digit.
pub open spec fn skip_digits(s: Seq<char>, i: int) -> int
    decreases s.len() - i,
{
    if 0 <= i < s.len() && is_decimal_digit(s[i]) {
        skip_digits(s, i + 1)
    } else {
        i
    }
}

/// The decimal value of the digits `s[from..to]`.
pub open spec fn digits_value(s: Seq<char>, from: int, to: int) -> nat
    decreases to - from,
{
    if to <= from {
        0
    } else {
        digits_value(s, from, to - 1) * 10 + digit_value(s[to - 1])
    }
}

/// All of `s[from..to]` are ASCII digits.
pub open spec fn ascii_digits(s: Seq<char>, from: int, to: int) -> bool {
    forall|k: int| from <= k < to ==> is_digit(#[trigger] s[k])
}

/// The number a captured run of digits stands for: its decimal value when
/// every digit is ASCII, else 0 (the run cannot be read as a number).
pub open spec fn capture_value(s: Seq<char>, from: int, to: int) -> nat {
    if ascii_digits(s, from, to) {
        digits_value(s, from, to)
    } else {
        0
    }
}

/// A bracketed marker `[S<1-2 digits>E<1-2 digits>]` starting at `i`, with its
/// season and episode numbers.
pub open spec fn bracket_marker_at(s: Seq<char>, i: int) -> Option<(nat, nat)> {
    if 0 <= i && i + 1 < s.len() && s[i] == '[' && s[i + 1] == 'S' {
        let e1 = skip_digits(s, i + 2);
        if 1 <= e1 - (i + 2) <= 2 && e1 < s.len() && s[e1] == 'E' {
            let e2 = skip_digits(s, e1 + 1);
            if 1 <= e2 - (e1 + 1) <= 2 && e2 < s.len() && s[e2] == ']' {
                Some((capture_value(s, i + 2, e1), capture_value(s, e1 + 1, e2)))
            } else {
                None
            }
        } else {
            None
        }
    } else {
        None
    }
}

/// The leftmost bracketed marker at or after `i`.
pub open spec fn first_bracket_marker(s: Seq<char>, i: int) -> Option<(nat, nat)>
    decreases s.len() - i,
{
    if i < 0 || i >= s.len() {
        None
    } else if bracket_marker_at(s, i) is Some {
        bracket_marker_at(s, i)
    } else {
        first_bracket_marker(s, i + 1)
    }
}

/// An unbracketed marker `S<1-2 digits>E<digits>` starting at `i`; of the
/// episode digits, the first two count.
pub open spec fn plain_marker_at(s: Seq<char>, i: int) -> Option<(nat, nat)> {
    if 0 <= i < s.len() && s[i] == 'S' {
        let e1 = skip_digits(s, i + 1);
        if 1 <= e1 - (i + 1) <= 2 && e1 < s.len() && s[e1] == 'E' {
            let e2 = skip_digits(s, e1 + 1);
            if e2 > e1 + 1 {
                let end = if e2 - (e1 + 1) > 2 {
                    e1 + 3
                } else {
                    e2
                };
                Some((capture_value(s, i + 1, e1), capture_value(s, e1 + 1, end)))
            } else {
                None
            }
        } else {
            None
        }
    } else {
        None
    }
}

/// The first index at or after `i` where an unbracketed marker starts, or the length.
pub open spec fn first_plain_marker_pos(s: Seq<char>, i: int) -> int
    decreases s.len() - i,
{
    if 0 <= i < s.len() && plain_marker_at(s, i) is None {
        first_plain_marker_pos(s, i + 1)
    } else {
        i
    }
}

/// The rightmost unbracketed marker starting in `[lo, hi)`.
pub open spec fn last_plain_marker(s: Seq<char>, lo: int, hi: int) -> Option<(nat, nat)>
    decreases hi - lo,
{
    if hi <= lo {
        None
    } else if plain_marker_at(s, hi - 1) is Some {
        plain_marker_at(s, hi - 1)
    } else {
        last_plain_marker(s, lo, hi - 1)
    }
}

/// The marker of a heading: the rightmost unbracketed marker on the first line
/// that has one.
pub open spec fn heading_marker(s: Seq<char>) -> Option<(nat, nat)> {
    let q = first_plain_marker_pos(s, 0);
    if q >= s.len() {
        None
    } else {
        last_plain_marker(s, q, find_char(s, '\n', q))
    }
}

/// Season and episode of a marker; both zero when there is none.
pub open spec fn numbers_of(m: Option<(nat, nat)>) -> (u8, u16) {
    match m {
        Some((a, b)) => (a as u8, b as u16),
        None => (0u8, 0u16),
    }
}

/// A year in parentheses, `(dddd)`, starting at `i`.
pub open spec fn year_at(s: Seq<char>, i: int) -> bool {
    0 <= i && i + 5 < s.len() && s[i] == '(' && is_decimal_digit(s[i + 1]) && is_decimal_digit(
        s[i + 2],
    ) && is_decimal_digit(s[i + 3]) && is_decimal_digit(s[i + 4]) && s[i + 5] == ')'
}

/// The digits of the rightmost year in parentheses starting before `hi`.
pub open spec fn last_year(s: Seq<char>, hi: int) -> Option<Seq<char>>
    decreases hi,
{
    if hi <= 0 {
        None
    } else if year_at(s, hi - 1) {
        Some(s.subrange(hi, hi + 4))
    } else {
        last_year(s, hi - 1)
    }
}

/// What stands for the year: its four digits when `s` holds a year in
/// parentheses, else `s` itself.
pub open spec fn year_text(s: Seq<char>) -> Seq<char> {
    match last_year(s, s.len() as int) {
        Some(y) => y,
        None => s,
    }
}

// ---------------------------------------------------------------------------
// Proof helpers
// ---------------------------------------------------------------------------

proof fn lemma_skip_digits_bounds(s: Seq<char>, i: int)
    requires
        0 <= i <= s.len(),
    ensures
        i <= skip_digits(s, i) <= s.len(),
    decreases s.len() - i,
{
    if i < s.len() && is_decimal_digit(s[i]) {
        lemma_skip_digits_bounds(s, i + 1);
    }
}

proof fn lemma_digits_value_small(s: Seq<char>, from: int, to: int)
    requires
        0 <= from <= to <= from + 2,
        to <= s.len(),
        forall|k: int| from <= k < to ==> is_digit(#[trigger] s[k]),
    ensures
        digits_value(s, from, to) < 100,
{
    if to > from {
        assert(digits_value(s, from, to) == digits_value(s, from, to - 1) * 10 + digit_value(
            s[to - 1],
        ));
        assert(digit_value(s[to - 1]) <= 9);
        if to - 1 > from {
            assert(digit_value(s[to - 2]) <= 9);
            assert(digits_value(s, from, to - 2) == 0);
            assert(digits_value(s, from, to - 1) == digits_value(s, from, to - 2) * 10
                + digit_value(s[to - 2]));
        }
    }
}

// ---------------------------------------------------------------------------
// Executable scanners
// ---------------------------------------------------------------------------

fn is_digit_exec(c: char) -> (r: bool)
    ensures
        r == is_digit(c),
{
    '0' <= c && c <= '9'
}

fn skip_digits_exec(s: &Vec<char>, i: usize) -> (r: usize)
    requires
        i <= s@.len(),
    ensures
        r as int == skip_digits(s@, i as int),
{
    let mut j: usize = i;
    while j < s.len() && decimal_digit(s[j])
        invariant
            i <= j <= s@.len(),
            skip_digits(s@, j as int) == skip_digits(s@, i as int),
        decreases s@.len() - j,
    {
        j = j + 1;
    }
    j
}

/// The value of one or two ASCII digits.
fn small_number(s: &Vec<char>, from: usize, to: usize) -> (r: u8)
    requires
        from < to <= from + 2,
        to <= s@.len(),
        forall|k: int| from <= k < to ==> is_digit(#[trigger] s@[k]),
    ensures
        r as nat == digits_value(s@, from as int, to as int),
        r < 100,
{
    proof {
        lemma_digits_value_small(s@, from as int, to as int);
    }
    let mut v: u8 = 0;
    let mut k: usize = from;
    while k < to
        invariant
            from <= k <= to,
            to <= s@.len(),
            forall|m: int| from <= m < to ==> is_digit(#[trigger] s@[m]),
            to <= from + 2,
            v as nat == digits_value(s@, from as int, k as int),
            v < 10 || k == to,
            k < to ==> k - from <= 1,
            k == from + 1 ==> v < 10,
            k == from ==> v == 0,
        decreases to - k,
    {
        let d: u8 = ((s[k] as u32) - ('0' as u32)) as u8;
        proof {
            assert(is_digit(s@[k as int]));
        }
        v = v * 10 + d;
        k = k + 1;
    }
    v
}

/// The number that the captured digits `s[from..to]` stand for.
fn capture_number(s: &Vec<char>, from: usize, to: usize) -> (r: u8)
    requires
        from < to <= from + 2,
        to <= s@.len(),
    ensures
        r as nat == capture_value(s@, from as int, to as int),
        r < 100,
{
    let mut k: usize = from;
    while k < to
        invariant
            from <= k <= to,
            to <= s@.len(),
            forall|m: int| from <= m < k ==> is_digit(#[trigger] s@[m]),
        decreases to - k,
    {
        if !is_digit_exec(s[k]) {
            return 0;
        }
        k = k + 1;
    }
    small_number(s, from, to)
}

/// Season and episode of the leftmost bracketed marker of `s`; zeros when it has none.
pub fn bracket_numbers(s: &Vec<char>) -> (r: (u8, u16))
    ensures
        r == numbers_of(first_bracket_marker(s@, 0)),
{
    let n: usize = s.len();
    let mut i: usize = 0;
    while i < n
        invariant
            n == s@.len(),
            i <= n,
            first_bracket_marker(s@, i as int) == first_bracket_marker(s@, 0),
        decreases n - i,
    {
        if n - i >= 2 && s[i] == '[' && s[i + 1] == 'S' {
            let e1: usize = skip_digits_exec(s, i + 2);
            proof {
                lemma_skip_digits_bounds(s@, i + 2);
            }
            if e1 - (i + 2) >= 1 && e1 - (i + 2) <= 2 && e1 < n && s[e1] == 'E' {
                let e2: usize = skip_digits_exec(s, e1 + 1);
                proof {
                    lemma_skip_digits_bounds(s@, e1 + 1);
                }
                if e2 - (e1 + 1) >= 1 && e2 - (e1 + 1) <= 2 && e2 < n && s[e2] == ']' {
                    let season: u8 = capture_number(s, i + 2, e1);
                    let episode: u8 = capture_number(s, e1 + 1, e2);
                    return (season, episode as u16);
                }
            }
        }
        i = i + 1;
    }
    (0, 0)
}

/// The unbracketed marker starting at `i`, if any.
fn plain_marker_exec(s: &Vec<char>, i: usize) -> (r: Option<(u8, u16)>)
    requires
        i < s@.len(),
    ensures
        r is Some <==> plain_marker_at(s@, i as int) is Some,
        r is Some ==> numbers_of(plain_marker_at(s@, i as int)) == r->0,
{
    let n: usize = s.len();
    if s[i] != 'S' {
        return None;
    }
    let e1: usize = skip_digits_exec(s, i + 1);
    proof {
        lemma_skip_digits_bounds(s@, i + 1);
    }
    if e1 - (i + 1) >= 1 && e1 - (i + 1) <= 2 && e1 < n && s[e1] == 'E' {
        let e2: usize = skip_digits_exec(s, e1 + 1);
        proof {
            lemma_skip_digits_bounds(s@, e1 + 1);
        }
        if e2 > e1 + 1 {
            let end: usize = if e2 - (e1 + 1) > 2 {
                e1 + 3
            } else {
                e2
            };
            let season: u8 = capture_number(s, i + 1, e1);
            let episode: u8 = capture_number(s, e1 + 1, end);
            return Some((season, episode as u16));
        }
    }
    None
}

/// Season and episode of the marker of a heading; zeros when it has none.
pub fn heading_numbers(s: &Vec<char>) -> (r: (u8, u16))
    ensures
        r == numbers_of(heading_marker(s@)),
{
    let n: usize = s.len();
    let mut q: usize = 0;
    while q < n && plain_marker_exec(s, q).is_none()
        invariant
            n == s@.len(),
            q <= n,
            first_plain_marker_pos(s@, q as int) == first_plain_marker_pos(s@, 0),
        decreases n - q,
    {
        q = q + 1;
    }
    proof {
        if q < n {
            assert(first_plain_marker_pos(s@, q as int) == q);
        }
    }
    if q >= n {
        return (0, 0);
    }
    let mut hi: usize = q;
    while hi < n && s[hi] != '\n'
        invariant
            n == s@.len(),
            q <= hi <= n,
            q == first_plain_marker_pos(s@, 0),
            find_char(s@, '\n', hi as int) == find_char(s@, '\n', q as int),
        decreases n - hi,
    {
        hi = hi + 1;
    }
    proof {
        lemma_find_char_bounds(s@, '\n', q as int);
        assert(find_char(s@, '\n', hi as int) == hi);
        assert(s@[q as int] == 'S');
    }
    while hi > q
        invariant
            q < n == s@.len(),
            q < hi <= n,
            q == first_plain_marker_pos(s@, 0),
            plain_marker_at(s@, q as int) is Some,
            last_plain_marker(s@, q as int, hi as int) == last_plain_marker(
                s@,
                q as int,
                find_char(s@, '\n', q as int),
            ),
        decreases hi,
    {
        match plain_marker_exec(s, hi - 1) {
            Some(m) => {
                return m;
            },
            None => {},
        }
        hi = hi - 1;
    }
    // the marker at `q` itself is found by the loop above
    proof {
        assert(false);
    }
    (0, 0)
}

/// The four digits of the rightmost year in parentheses in `s`, else `s` itself.
pub fn year_of(s: &Vec<char>) -> (r: Vec<char>)
    ensures
        r@ == year_text(s@),
{
    let n: usize = s.len();
    let mut hi: usize = n;
    while hi > 0
        invariant
            n == s@.len(),
            hi <= n,
            last_year(s@, hi as int) == last_year(s@, n as int),
        decreases hi,
    {
        let i: usize = hi - 1;
        if n - i > 5 && s[i] == '(' && decimal_digit(s[i + 1]) && decimal_digit(s[i + 2])
            && decimal_digit(s[i + 3]) && decimal_digit(s[i + 4]) && s[i + 5] == ')' {
            let y: Vec<char> = vec![s[i + 1], s[i + 2], s[i + 3], s[i + 4]];
            proof {
                assert(y@ =~= s@.subrange(hi as int, hi + 4));
            }
            return y;
        }
        hi = i;
    }
    s.clone()
}

} // verus!
