//! Auto-close timer durations such as `30m`, `2h` or `1week`.

use vstd::prelude::*;

use crate::plist::opt_chars;
use crate::text::{
    ascii_lower, ascii_lowercase, ascii_uppercase, chars_of, copy_range, ends_with,
    has_suffix, is_ascii_text, is_white_space, lowercase, parse_u64, parse_u64_spec,
    strip_suffix, to_lowercase, trim, trim_chars, trim_end, trim_start, views, is_digit,
};
use crate::store::{decimal, lemma_decimal_digits, law_decimal_parses_back};


verus! {

/// The first of `suffixes` that `s` ends with, stripped from `s`.
pub open spec fn strip_first(s: Seq<char>, suffixes: Seq<Seq<char>>) -> Option<Seq<char>>
    decreases suffixes.len(),
{
    if suffixes.len() == 0 {
        None
    } else {
        match strip_suffix(s, suffixes[0]) {
            Some(r) => Some(r),
            None => strip_first(s, suffixes.drop_first()),
        }
    }
}

/// `w`, `week`, `weeks`
pub open spec fn week_suffixes() -> Seq<Seq<char>> {
    seq![seq!['w'], seq!['w', 'e', 'e', 'k'], seq!['w', 'e', 'e', 'k', 's']]
}

/// `d`, `day`, `days`
pub open spec fn day_suffixes() -> Seq<Seq<char>> {
    seq![seq!['d'], seq!['d', 'a', 'y'], seq!['d', 'a', 'y', 's']]
}

/// `h`, `hour`, `hours`
pub open spec fn hour_suffixes() -> Seq<Seq<char>> {
    seq![seq!['h'], seq!['h', 'o', 'u', 'r'], seq!['h', 'o', 'u', 'r', 's']]
}

/// `m`, `min`, `mins`, `minute`, `minutes`
pub open spec fn minute_suffixes() -> Seq<Seq<char>> {
    seq![
        seq!['m'],
        seq!['m', 'i', 'n'],
        seq!['m', 'i', 'n', 's'],
        seq!['m', 'i', 'n', 'u', 't', 'e'],
        seq!['m', 'i', 'n', 'u', 't', 'e', 's'],
    ]
}

/// `s`, `sec`, `secs`, `second`, `seconds`
pub open spec fn second_suffixes() -> Seq<Seq<char>> {
    seq![
        seq!['s'],
        seq!['s', 'e', 'c'],
        seq!['s', 'e', 'c', 's'],
        seq!['s', 'e', 'c', 'o', 'n', 'd'],
        seq!['s', 'e', 'c', 'o', 'n', 'd', 's'],
    ]
}

/// Seconds in a week.
pub const SECONDS_PER_WEEK: u64 = 604800;

/// Seconds in a day.
pub const SECONDS_PER_DAY: u64 = 86400;

/// Seconds in an hour.
pub const SECONDS_PER_HOUR: u64 = 3600;

/// Seconds in a minute.
pub const SECONDS_PER_MINUTE: u64 = 60;

/// A count paired with its unit in seconds.
pub open spec fn counted(n: Option<u64>, unit: u64) -> Option<(u64, u64)> {
    match n {
        Some(v) => Some((v, unit)),
        None => None,
    }
}

/// A timer text, trimmed and in lower case.
pub open spec fn normalized_timer(timer: Seq<char>) -> Seq<char> {
    lowercase(trim(timer))
}

/// The count and the unit (in seconds) of a timer text.
pub open spec fn timer_parts(timer: Seq<char>) -> Option<(u64, u64)> {
    normalized_parts(normalized_timer(timer))
}

/// The count and the unit (in seconds) of an ASCII timer text: what
/// `timer_parts` is for such a text, lower-casing being ASCII's.
pub open spec fn ascii_timer_parts(timer: Seq<char>) -> Option<(u64, u64)> {
    normalized_parts(ascii_lowercase(trim(timer)))
}

/// The count and the unit (in seconds) of a trimmed, lower-case timer text.
/// The unit suffixes are tried group by group (weeks, days, hours, minutes,
/// seconds) and within a group in the order listed; the first group with a
/// matching suffix decides, and the rest must be a count. Without any suffix
/// the whole text is a count of seconds.
pub open spec fn normalized_parts(s: Seq<char>) -> Option<(u64, u64)> {
    match strip_first(s, week_suffixes()) {
        Some(n) => counted(parse_u64_spec(n), SECONDS_PER_WEEK),
        None => match strip_first(s, day_suffixes()) {
            Some(n) => counted(parse_u64_spec(n), SECONDS_PER_DAY),
            None => match strip_first(s, hour_suffixes()) {
                Some(n) => counted(parse_u64_spec(n), SECONDS_PER_HOUR),
                None => match strip_first(s, minute_suffixes()) {
                    Some(n) => counted(parse_u64_spec(n), SECONDS_PER_MINUTE),
                    None => match strip_first(s, second_suffixes()) {
                        Some(n) => counted(parse_u64_spec(n), 1),
                        None => counted(parse_u64_spec(s), 1),
                    },
                },
            },
        },
    }
}

/// The duration in seconds that a timer text gives.
pub open spec fn timer_seconds(timer: Seq<char>) -> Option<int> {
    match timer_parts(timer) {
        Some((n, unit)) => Some(n * unit),
        None => None,
    }
}

/// The duration that a timer text gives fits in 64 bits (or the text gives none).
pub open spec fn timer_fits(timer: Seq<char>) -> bool {
    timer_seconds(timer) matches Some(v) ==> v <= u64::MAX
}

/// `s` without the suffix `p`, if it ends with `p`.
fn strip_suffix_of(s: &[char], p: &[char]) -> (r: Option<Vec<char>>)
    ensures
        opt_chars(r) == strip_suffix(s@, p@),
{
    if ends_with(s, p) {
        Some(copy_range(s, 0, s.len() - p.len()))
    } else {
        None
    }
}

/// `s` without the first of `suffixes` that it ends with.
fn strip_first_of(s: &[char], suffixes: &Vec<Vec<char>>) -> (r: Option<Vec<char>>)
    ensures
        opt_chars(r) == strip_first(s@, views(suffixes@)),
{
    let ghost all = views(suffixes@);
    let mut i: usize = 0;
    assert(all.subrange(0, all.len() as int) =~= all);
    while i < suffixes.len()
        invariant
            i <= suffixes@.len(),
            all == views(suffixes@),
            strip_first(s@, all) == strip_first(s@, all.subrange(i as int, all.len() as int)),
        decreases suffixes@.len() - i,
    {
        let ghost rest = all.subrange(i as int, all.len() as int);
        assert(rest[0] == suffixes@[i as int]@);
        let r = strip_suffix_of(s, &suffixes[i]);
        if r.is_some() {
            return r;
        }
        assert(rest.drop_first() =~= all.subrange(i + 1, all.len() as int));
        i += 1;
    }
    None
}

fn week_units() -> (v: Vec<Vec<char>>)
    ensures
        views(v@) == week_suffixes(),
{
    let u0 = vec!['w'];
    let u1 = vec!['w', 'e', 'e', 'k'];
    let u2 = vec!['w', 'e', 'e', 'k', 's'];
    proof {
        assert(u0@ =~= seq!['w']);
        assert(u1@ =~= seq!['w', 'e', 'e', 'k']);
        assert(u2@ =~= seq!['w', 'e', 'e', 'k', 's']);
    }
    let mut v: Vec<Vec<char>> = Vec::new();
    v.push(u0);
    v.push(u1);
    v.push(u2);
    assert(views(v@) =~= week_suffixes());
    v
}

fn day_units() -> (v: Vec<Vec<char>>)
    ensures
        views(v@) == day_suffixes(),
{
    let u0 = vec!['d'];
    let u1 = vec!['d', 'a', 'y'];
    let u2 = vec!['d', 'a', 'y', 's'];
    proof {
        assert(u0@ =~= seq!['d']);
        assert(u1@ =~= seq!['d', 'a', 'y']);
        assert(u2@ =~= seq!['d', 'a', 'y', 's']);
    }
    let mut v: Vec<Vec<char>> = Vec::new();
    v.push(u0);
    v.push(u1);
    v.push(u2);
    assert(views(v@) =~= day_suffixes());
    v
}

fn hour_units() -> (v: Vec<Vec<char>>)
    ensures
        views(v@) == hour_suffixes(),
{
    let u0 = vec!['h'];
    let u1 = vec!['h', 'o', 'u', 'r'];
    let u2 = vec!['h', 'o', 'u', 'r', 's'];
    proof {
        assert(u0@ =~= seq!['h']);
        assert(u1@ =~= seq!['h', 'o', 'u', 'r']);
        assert(u2@ =~= seq!['h', 'o', 'u', 'r', 's']);
    }
    let mut v: Vec<Vec<char>> = Vec::new();
    v.push(u0);
    v.push(u1);
    v.push(u2);
    assert(views(v@) =~= hour_suffixes());
    v
}

fn minute_units() -> (v: Vec<Vec<char>>)
    ensures
        views(v@) == minute_suffixes(),
{
    let u0 = vec!['m'];
    let u1 = vec!['m', 'i', 'n'];
    let u2 = vec!['m', 'i', 'n', 's'];
    let u3 = vec!['m', 'i', 'n', 'u', 't', 'e'];
    let u4 = vec!['m', 'i', 'n', 'u', 't', 'e', 's'];
    proof {
        assert(u0@ =~= seq!['m']);
        assert(u1@ =~= seq!['m', 'i', 'n']);
        assert(u2@ =~= seq!['m', 'i', 'n', 's']);
        assert(u3@ =~= seq!['m', 'i', 'n', 'u', 't', 'e']);
        assert(u4@ =~= seq!['m', 'i', 'n', 'u', 't', 'e', 's']);
    }
    let mut v: Vec<Vec<char>> = Vec::new();
    v.push(u0);
    v.push(u1);
    v.push(u2);
    v.push(u3);
    v.push(u4);
    assert(views(v@) =~= minute_suffixes());
    v
}

fn second_units() -> (v: Vec<Vec<char>>)
    ensures
        views(v@) == second_suffixes(),
{
    let u0 = vec!['s'];
    let u1 = vec!['s', 'e', 'c'];
    let u2 = vec!['s', 'e', 'c', 's'];
    let u3 = vec!['s', 'e', 'c', 'o', 'n', 'd'];
    let u4 = vec!['s', 'e', 'c', 'o', 'n', 'd', 's'];
    proof {
        assert(u0@ =~= seq!['s']);
        assert(u1@ =~= seq!['s', 'e', 'c']);
        assert(u2@ =~= seq!['s', 'e', 'c', 's']);
        assert(u3@ =~= seq!['s', 'e', 'c', 'o', 'n', 'd']);
        assert(u4@ =~= seq!['s', 'e', 'c', 'o', 'n', 'd', 's']);
    }
    let mut v: Vec<Vec<char>> = Vec::new();
    v.push(u0);
    v.push(u1);
    v.push(u2);
    v.push(u3);
    v.push(u4);
    assert(views(v@) =~= second_suffixes());
    v
}

fn with_unit(n: Option<u64>, unit: u64) -> (r: Option<(u64, u64)>)
    ensures
        r == counted(n, unit),
{
    match n {
        Some(v) => Some((v, unit)),
        None => None,
    }
}

/// Splits a timer text such as `30m`, `2 hours` or `1week` into its count and
/// its unit in seconds. Returns `None` if the format is unrecognized.
pub fn parse_timer_parts(timer: &str) -> (r: Option<(u64, u64)>)
    ensures
        r == timer_parts(timer@),
        is_ascii_text(timer@) ==> r == ascii_timer_parts(timer@),
{
    let t = chars_of(timer);
    let trimmed = trim_chars(&t);
    proof {
        if is_ascii_text(timer@) {
            crate::text::lemma_trim_ascii(timer@);
        }
    }
    let s = to_lowercase(&trimmed);
    parts_of_normalized(&s)
}

/// Splits a trimmed, lower-case timer text into its count and its unit in
/// seconds.
pub fn parts_of_normalized(s: &[char]) -> (r: Option<(u64, u64)>)
    ensures
        r == normalized_parts(s@),
{
    if let Some(n) = strip_first_of(s, &week_units()) {
        with_unit(parse_u64(&n), SECONDS_PER_WEEK)
    } else if let Some(n) = strip_first_of(s, &day_units()) {
        with_unit(parse_u64(&n), SECONDS_PER_DAY)
    } else if let Some(n) = strip_first_of(s, &hour_units()) {
        with_unit(parse_u64(&n), SECONDS_PER_HOUR)
    } else if let Some(n) = strip_first_of(s, &minute_units()) {
        with_unit(parse_u64(&n), SECONDS_PER_MINUTE)
    } else if let Some(n) = strip_first_of(s, &second_units()) {
        with_unit(parse_u64(&n), 1)
    } else {
        with_unit(parse_u64(s), 1)
    }
}

/// Parses a timer text like `30m`, `1h`, `2d` into seconds. Returns `None` if
/// the format is unrecognized. The duration must fit in 64 bits.
pub fn parse_timer_seconds(timer: &str) -> (r: Option<u64>)
    requires
        timer_fits(timer@),
    ensures
        match timer_seconds(timer@) {
            Some(v) => r == Some(v as u64),
            None => r is None,
        },
        is_ascii_text(timer@) ==> match ascii_timer_parts(timer@) {
            Some((n, unit)) => r == Some((n * unit) as u64),
            None => r is None,
        },
{
    match parse_timer_parts(timer) {
        Some((n, unit)) => Some(n * unit),
        None => None,
    }
}


/// The duration of a timer text where it fits in 64 bits: `None` exactly when
/// it does not, and otherwise what `parse_timer_seconds` gives.
pub fn parse_timer_seconds_checked(timer: &str) -> (r: Option<Option<u64>>)
    ensures
        r is None <==> !timer_fits(timer@),
        r matches Some(v) ==> match timer_seconds(timer@) {
            Some(s) => v == Some(s as u64),
            None => v is None,
        },
{
    match parse_timer_parts(timer) {
        Some((n, unit)) => {
            if n.checked_mul(unit).is_none() {
                None
            } else {
                Some(parse_timer_seconds(timer))
            }
        },
        None => Some(parse_timer_seconds(timer)),
    }
}


/// White space around a timer text changes nothing.
pub proof fn law_timer_ignores_space(timer: Seq<char>)
    ensures
        timer_parts(seq![' ', '\t'] + timer + seq!['\n']) == timer_parts(timer),
        ascii_timer_parts(seq![' ', '\t'] + timer + seq!['\n']) == ascii_timer_parts(timer),
{
    crate::text::lemma_trim_padding(timer);
}

/// The case of the letters of an ASCII timer text changes nothing.
pub proof fn law_timer_ignores_case(timer: Seq<char>)
    requires
        is_ascii_text(timer),
    ensures
        is_ascii_text(ascii_uppercase(timer)),
        ascii_timer_parts(ascii_uppercase(timer)) == ascii_timer_parts(timer),
{
    let up = ascii_uppercase(timer);
    assert forall|i: int| 0 <= i < up.len() implies (#[trigger] up[i] as u32) < 0x80 by {
        crate::text::lemma_upper_white_space(timer[i]);
    }
    crate::text::lemma_trim_uppercase(timer);
    let t = trim(timer);
    let a = ascii_lowercase(ascii_uppercase(t));
    let b = ascii_lowercase(t);
    assert forall|i: int| 0 <= i < a.len() implies a[i] == b[i] by {
        crate::text::lemma_upper_white_space(t[i]);
    }
    assert(a =~= b);
}

/// The unit suffixes that give their unit exactly, with the seconds in each
/// (the empty suffix: a plain count of seconds).
pub open spec fn unit_seconds(u: Seq<char>) -> Option<u64> {
    if u == seq!['w'] || u == seq!['w', 'e', 'e', 'k'] || u == seq!['w', 'e', 'e', 'k', 's'] {
        Some(SECONDS_PER_WEEK)
    } else if u == seq!['d'] || u == seq!['d', 'a', 'y'] || u == seq!['d', 'a', 'y', 's'] {
        Some(SECONDS_PER_DAY)
    } else if u == seq!['h'] || u == seq!['h', 'o', 'u', 'r'] || u == seq!['h', 'o', 'u', 'r', 's'] {
        Some(SECONDS_PER_HOUR)
    } else if u == seq!['m'] || u == seq!['m', 'i', 'n'] || u == seq!['m', 'i', 'n', 's'] || u
        == seq!['m', 'i', 'n', 'u', 't', 'e'] || u == seq!['m', 'i', 'n', 'u', 't', 'e', 's'] {
        Some(SECONDS_PER_MINUTE)
    } else if u == Seq::<char>::empty() || u == seq!['s'] || u == seq!['s', 'e', 'c'] {
        Some(1)
    } else {
        None
    }
}

/// The last two characters of a text agree with those of each of its suffixes.
proof fn lemma_suffix_ends(s: Seq<char>, p: Seq<char>)
    requires
        has_suffix(s, p),
    ensures
        p.len() >= 1 ==> s.last() == p.last(),
        p.len() >= 2 ==> s[s.len() - 2] == p[p.len() - 2],
{
    let tail = s.subrange(s.len() - p.len(), s.len() as int);
    if p.len() >= 1 {
        assert(tail[p.len() - 1] == s.last());
    }
    if p.len() >= 2 {
        assert(tail[p.len() - 2] == s[s.len() - 2]);
    }
}

/// A text does not end with a suffix whose last, or next to last, character
/// differs from its own.
proof fn lemma_not_suffix(s: Seq<char>, p: Seq<char>)
    requires
        s.len() >= 1,
        p.len() >= 1,
        s.last() != p.last() || (p.len() >= 2 && s.len() >= 2 && s[s.len() - 2] != p[p.len()
            - 2]),
    ensures
        !has_suffix(s, p),
{
    if has_suffix(s, p) {
        lemma_suffix_ends(s, p);
    }
}

/// A text that ends with none of `suffixes` has none stripped.
proof fn lemma_strip_first_none(s: Seq<char>, suffixes: Seq<Seq<char>>)
    requires
        forall|i: int| 0 <= i < suffixes.len() ==> !has_suffix(s, #[trigger] suffixes[i]),
    ensures
        strip_first(s, suffixes) is None,
    decreases suffixes.len(),
{
    if suffixes.len() > 0 {
        let rest = suffixes.drop_first();
        assert(!has_suffix(s, suffixes[0]));
        assert forall|i: int| 0 <= i < rest.len() implies !has_suffix(s, #[trigger] rest[i]) by {
            assert(rest[i] == suffixes[i + 1]);
        }
        lemma_strip_first_none(s, rest);
    }
}

/// A text that ends with `suffixes[k]` and with none listed before it has
/// that one stripped.
proof fn lemma_strip_first_at(s: Seq<char>, suffixes: Seq<Seq<char>>, k: int)
    requires
        0 <= k < suffixes.len(),
        has_suffix(s, suffixes[k]),
        forall|i: int| 0 <= i < k ==> !has_suffix(s, #[trigger] suffixes[i]),
    ensures
        strip_first(s, suffixes) == strip_suffix(s, suffixes[k]),
    decreases k,
{
    if k > 0 {
        let rest = suffixes.drop_first();
        assert(!has_suffix(s, suffixes[0]));
        assert(rest[k - 1] == suffixes[k]);
        assert forall|i: int| 0 <= i < k - 1 implies !has_suffix(s, #[trigger] rest[i]) by {
            assert(rest[i] == suffixes[i + 1]);
        }
        lemma_strip_first_at(s, rest, k - 1);
    }
}

/// No week suffix ends a text whose last two characters rule each one out.
proof fn lemma_no_week(t: Seq<char>)
    requires
        t.len() >= 1,
        t.last() != 'w' && t.last() != 'k',
        t.last() == 's' ==> t.len() >= 2 && t[t.len() - 2] != 'k',
    ensures
        strip_first(t, week_suffixes()) is None,
{
    let g = week_suffixes();
    assert forall|i: int| 0 <= i < g.len() implies !has_suffix(t, #[trigger] g[i]) by {
        lemma_not_suffix(t, g[i]);
    }
    lemma_strip_first_none(t, g);
}

/// No day suffix ends a text whose last two characters rule each one out.
proof fn lemma_no_day(t: Seq<char>)
    requires
        t.len() >= 1,
        t.last() != 'd' && t.last() != 'y',
        t.last() == 's' ==> t.len() >= 2 && t[t.len() - 2] != 'y',
    ensures
        strip_first(t, day_suffixes()) is None,
{
    let g = day_suffixes();
    assert forall|i: int| 0 <= i < g.len() implies !has_suffix(t, #[trigger] g[i]) by {
        lemma_not_suffix(t, g[i]);
    }
    lemma_strip_first_none(t, g);
}

/// No hour suffix ends a text whose last two characters rule each one out.
proof fn lemma_no_hour(t: Seq<char>)
    requires
        t.len() >= 1,
        t.last() != 'h' && t.last() != 'r',
        t.last() == 's' ==> t.len() >= 2 && t[t.len() - 2] != 'r',
    ensures
        strip_first(t, hour_suffixes()) is None,
{
    let g = hour_suffixes();
    assert forall|i: int| 0 <= i < g.len() implies !has_suffix(t, #[trigger] g[i]) by {
        lemma_not_suffix(t, g[i]);
    }
    lemma_strip_first_none(t, g);
}

/// No minute suffix ends a text whose last two characters rule each one out.
proof fn lemma_no_minute(t: Seq<char>)
    requires
        t.len() >= 1,
        t.last() != 'm' && t.last() != 'n' && t.last() != 'e',
        t.last() == 's' ==> t.len() >= 2 && t[t.len() - 2] != 'n' && t[t.len() - 2] != 'e',
    ensures
        strip_first(t, minute_suffixes()) is None,
{
    let g = minute_suffixes();
    assert forall|i: int| 0 <= i < g.len() implies !has_suffix(t, #[trigger] g[i]) by {
        lemma_not_suffix(t, g[i]);
    }
    lemma_strip_first_none(t, g);
}

/// No second suffix ends a text whose last character rules each one out.
proof fn lemma_no_second(t: Seq<char>)
    requires
        t.len() >= 1,
        t.last() != 's' && t.last() != 'c' && t.last() != 'd',
    ensures
        strip_first(t, second_suffixes()) is None,
{
    let g = second_suffixes();
    assert forall|i: int| 0 <= i < g.len() implies !has_suffix(t, #[trigger] g[i]) by {
        lemma_not_suffix(t, g[i]);
    }
    lemma_strip_first_none(t, g);
}

/// A count in decimal followed by the lower-case letters `u`: its shape as
/// the timer parser sees it.
proof fn lemma_count_text(n: u64, u: Seq<char>)
    requires
        forall|i: int| 0 <= i < u.len() ==> 97 <= (#[trigger] u[i]) as u32 <= 122,
    ensures
        ({
            let d = decimal(n as nat);
            let t = d + u;
            &&& is_ascii_text(t)
            &&& ascii_lowercase(trim(t)) == t
            &&& t.len() >= 1
            &&& has_suffix(t, u)
            &&& strip_suffix(t, u) == Some(d)
            &&& parse_u64_spec(d) == Some(n)
            &&& u.len() == 0 ==> t == d && is_digit(t.last())
            &&& u.len() >= 1 ==> t.len() >= 2 && t.last() == u.last()
            &&& u.len() == 1 ==> is_digit(t[t.len() - 2])
            &&& u.len() >= 2 ==> t[t.len() - 2] == u[u.len() - 2]
        }),
{
    let d = decimal(n as nat);
    lemma_decimal_digits(n as nat);
    law_decimal_parses_back(n);
    let t = d + u;
    assert forall|i: int| 0 <= i < d.len() implies 48 <= (#[trigger] d[i]) as u32 <= 57 by {
        assert(is_digit(d[i]));
    }
    assert forall|i: int| 0 <= i < t.len() implies (#[trigger] t[i] as u32) < 0x80 && ascii_lower(
        t[i],
    ) == t[i] && !is_white_space(t[i]) by {
        if i < d.len() {
            assert(t[i] == d[i]);
        } else {
            assert(t[i] == u[i - d.len()]);
        }
    }
    assert(!is_white_space(t[0]));
    assert(!is_white_space(t.last()));
    assert(trim_start(t) == t);
    assert(trim_end(t) == t);
    assert(ascii_lowercase(t) =~= t);
    assert(t.subrange(t.len() - u.len(), t.len() as int) =~= u);
    assert(t.subrange(0, t.len() - u.len()) =~= d);
    if u.len() == 0 {
        assert(t =~= d);
        assert(is_digit(d.last()));
    }
    if u.len() == 1 {
        assert(t[t.len() - 2] == d.last());
        assert(is_digit(d.last()));
    }
    if u.len() >= 2 {
        assert(t[t.len() - 2] == u[u.len() - 2]);
    }
}

/// `counted` of a count read back from its decimal text.
proof fn lemma_counted(n: u64, unit: u64)
    ensures
        counted(parse_u64_spec(decimal(n as nat)), unit) == Some((n, unit)),
{
    law_decimal_parses_back(n);
}

proof fn lemma_count_weeks(n: u64, u: Seq<char>)
    requires
        u == seq!['w'] || u == seq!['w', 'e', 'e', 'k'] || u == seq!['w', 'e', 'e', 'k', 's'],
    ensures
        ascii_timer_parts(decimal(n as nat) + u) == Some((n, SECONDS_PER_WEEK)),
{
    lemma_count_text(n, u);
    let t = decimal(n as nat) + u;
    let g = week_suffixes();
    if u == seq!['w'] {
        lemma_strip_first_at(t, g, 0);
    } else if u == seq!['w', 'e', 'e', 'k'] {
        lemma_not_suffix(t, g[0]);
        lemma_strip_first_at(t, g, 1);
    } else {
        lemma_not_suffix(t, g[0]);
        lemma_not_suffix(t, g[1]);
        lemma_strip_first_at(t, g, 2);
    }
    lemma_counted(n, SECONDS_PER_WEEK);
}

proof fn lemma_count_days(n: u64, u: Seq<char>)
    requires
        u == seq!['d'] || u == seq!['d', 'a', 'y'] || u == seq!['d', 'a', 'y', 's'],
    ensures
        ascii_timer_parts(decimal(n as nat) + u) == Some((n, SECONDS_PER_DAY)),
{
    lemma_count_text(n, u);
    let t = decimal(n as nat) + u;
    let g = day_suffixes();
    lemma_no_week(t);
    if u == seq!['d'] {
        lemma_strip_first_at(t, g, 0);
    } else if u == seq!['d', 'a', 'y'] {
        lemma_not_suffix(t, g[0]);
        lemma_strip_first_at(t, g, 1);
    } else {
        lemma_not_suffix(t, g[0]);
        lemma_not_suffix(t, g[1]);
        lemma_strip_first_at(t, g, 2);
    }
    lemma_counted(n, SECONDS_PER_DAY);
}

proof fn lemma_count_hours(n: u64, u: Seq<char>)
    requires
        u == seq!['h'] || u == seq!['h', 'o', 'u', 'r'] || u == seq!['h', 'o', 'u', 'r', 's'],
    ensures
        ascii_timer_parts(decimal(n as nat) + u) == Some((n, SECONDS_PER_HOUR)),
{
    lemma_count_text(n, u);
    let t = decimal(n as nat) + u;
    let g = hour_suffixes();
    lemma_no_week(t);
    lemma_no_day(t);
    if u == seq!['h'] {
        lemma_strip_first_at(t, g, 0);
    } else if u == seq!['h', 'o', 'u', 'r'] {
        lemma_not_suffix(t, g[0]);
        lemma_strip_first_at(t, g, 1);
    } else {
        lemma_not_suffix(t, g[0]);
        lemma_not_suffix(t, g[1]);
        lemma_strip_first_at(t, g, 2);
    }
    lemma_counted(n, SECONDS_PER_HOUR);
}

proof fn lemma_count_minutes(n: u64, u: Seq<char>)
    requires
        u == seq!['m'] || u == seq!['m', 'i', 'n'] || u == seq!['m', 'i', 'n', 's'] || u
            == seq!['m', 'i', 'n', 'u', 't', 'e'] || u == seq!['m', 'i', 'n', 'u', 't', 'e', 's'],
    ensures
        ascii_timer_parts(decimal(n as nat) + u) == Some((n, SECONDS_PER_MINUTE)),
{
    lemma_count_text(n, u);
    let t = decimal(n as nat) + u;
    let g = minute_suffixes();
    lemma_no_week(t);
    lemma_no_day(t);
    lemma_no_hour(t);
    if u == seq!['m'] {
        lemma_strip_first_at(t, g, 0);
    } else if u == seq!['m', 'i', 'n'] {
        lemma_not_suffix(t, g[0]);
        lemma_strip_first_at(t, g, 1);
    } else if u == seq!['m', 'i', 'n', 's'] {
        lemma_not_suffix(t, g[0]);
        lemma_not_suffix(t, g[1]);
        lemma_strip_first_at(t, g, 2);
    } else if u == seq!['m', 'i', 'n', 'u', 't', 'e'] {
        lemma_not_suffix(t, g[0]);
        lemma_not_suffix(t, g[1]);
        lemma_not_suffix(t, g[2]);
        lemma_strip_first_at(t, g, 3);
    } else {
        lemma_not_suffix(t, g[0]);
        lemma_not_suffix(t, g[1]);
        lemma_not_suffix(t, g[2]);
        lemma_not_suffix(t, g[3]);
        lemma_strip_first_at(t, g, 4);
    }
    lemma_counted(n, SECONDS_PER_MINUTE);
}

proof fn lemma_count_seconds(n: u64, u: Seq<char>)
    requires
        u == Seq::<char>::empty() || u == seq!['s'] || u == seq!['s', 'e', 'c'],
    ensures
        ascii_timer_parts(decimal(n as nat) + u) == Some((n, 1u64)),
{
    lemma_count_text(n, u);
    let t = decimal(n as nat) + u;
    let g = second_suffixes();
    lemma_no_week(t);
    lemma_no_day(t);
    lemma_no_hour(t);
    lemma_no_minute(t);
    if u == Seq::<char>::empty() {
        lemma_no_second(t);
    } else if u == seq!['s'] {
        lemma_strip_first_at(t, g, 0);
    } else {
        lemma_not_suffix(t, g[0]);
        lemma_strip_first_at(t, g, 1);
    }
    lemma_counted(n, 1);
}

/// A count written in decimal followed by a listed unit suffix gives that
/// count of that unit: `30m` is 30 minutes, `2weeks` 2 weeks, `45` 45 seconds.
pub proof fn law_timer_count_with_unit(n: u64, u: Seq<char>, unit: u64)
    requires
        unit_seconds(u) == Some(unit),
    ensures
        is_ascii_text(decimal(n as nat) + u),
        ascii_timer_parts(decimal(n as nat) + u) == Some((n, unit)),
{
    if u == seq!['w'] || u == seq!['w', 'e', 'e', 'k'] || u == seq!['w', 'e', 'e', 'k', 's'] {
        lemma_count_weeks(n, u);
    } else if u == seq!['d'] || u == seq!['d', 'a', 'y'] || u == seq!['d', 'a', 'y', 's'] {
        lemma_count_days(n, u);
    } else if u == seq!['h'] || u == seq!['h', 'o', 'u', 'r'] || u == seq!['h', 'o', 'u', 'r', 's'] {
        lemma_count_hours(n, u);
    } else if u == seq!['m'] || u == seq!['m', 'i', 'n'] || u == seq!['m', 'i', 'n', 's'] || u
        == seq!['m', 'i', 'n', 'u', 't', 'e'] || u == seq!['m', 'i', 'n', 'u', 't', 'e', 's'] {
        lemma_count_minutes(n, u);
    } else {
        lemma_count_seconds(n, u);
    }
    lemma_count_text(n, u);
}

} // verus!
