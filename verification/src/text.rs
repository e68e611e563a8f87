//! Character-sequence primitives shared by the parsers of this crate.

use vstd::prelude::*;
use vstd::utf8::{decode_utf8, valid_utf8};

verus! {

/// `pat` occurs in `s` at index `i`.
pub open spec fn occurs_at(s: Seq<char>, pat: Seq<char>, i: int) -> bool {
    0 <= i && i + pat.len() <= s.len() && s.subrange(i, i + pat.len()) == pat
}

/// The first index at or after `start` where `pat` occurs in `s`.
pub open spec fn find_from(s: Seq<char>, pat: Seq<char>, start: int) -> Option<int>
    decreases s.len() + 1 - start,
{
    if start < 0 || start + pat.len() > s.len() {
        None
    } else if occurs_at(s, pat, start) {
        Some(start)
    } else {
        find_from(s, pat, start + 1)
    }
}

/// The first index where `pat` occurs in `s`.
pub open spec fn find(s: Seq<char>, pat: Seq<char>) -> Option<int> {
    find_from(s, pat, 0)
}

/// `find_from` yields the least occurrence at or after `start`.
pub proof fn lemma_find_from(s: Seq<char>, pat: Seq<char>, start: int)
    requires
        0 <= start,
    ensures
        match find_from(s, pat, start) {
            Some(i) => start <= i && occurs_at(s, pat, i) && forall|j: int|
                start <= j < i ==> !occurs_at(s, pat, j),
            None => forall|j: int| start <= j ==> !occurs_at(s, pat, j),
        },
    decreases s.len() + 1 - start,
{
    if start + pat.len() > s.len() {
    } else if occurs_at(s, pat, start) {
    } else {
        lemma_find_from(s, pat, start + 1);
    }
}

/// Whether `pat` occurs in `s` at index `i`.
pub fn matches_at(s: &[char], pat: &[char], i: usize) -> (b: bool)
    ensures
        b == occurs_at(s@, pat@, i as int),
{
    if i > s.len() || pat.len() > s.len() - i {
        return false;
    }
    let mut k: usize = 0;
    while k < pat.len()
        invariant
            i + pat@.len() <= s@.len(),
            s@.len() == s.len(),
            pat@.len() == pat.len(),
            k <= pat@.len(),
            forall|j: int| 0 <= j < k ==> s@[i + j] == pat@[j],
        decreases pat@.len() - k,
    {
        if s[i + k] != pat[k] {
            assert(s@.subrange(i as int, i + pat@.len())[k as int] != pat@[k as int]);
            return false;
        }
        k += 1;
    }
    assert(s@.subrange(i as int, i + pat@.len()) =~= pat@);
    true
}

/// The first index at or after `start` where `pat` occurs in `s`.
pub fn find_chars(s: &[char], pat: &[char], start: usize) -> (r: Option<usize>)
    ensures
        match r {
            Some(i) => find_from(s@, pat@, start as int) == Some(i as int),
            None => find_from(s@, pat@, start as int) is None,
        },
{
    if start > s.len() {
        return None;
    }
    if pat.len() == 0 {
        assert(occurs_at(s@, pat@, start as int)) by {
            assert(s@.subrange(start as int, start as int) =~= pat@);
        }
        return Some(start);
    }
    let mut i: usize = start;
    while i < s.len() && pat.len() <= s.len() - i
        invariant
            start <= i <= s@.len(),
            pat@.len() > 0,
            find_from(s@, pat@, start as int) == find_from(s@, pat@, i as int),
        decreases s@.len() - i,
    {
        if matches_at(s, pat, i) {
            return Some(i);
        }
        i += 1;
    }
    None
}


/// `s` begins with `p`.
pub open spec fn has_prefix(s: Seq<char>, p: Seq<char>) -> bool {
    p.len() <= s.len() && s.subrange(0, p.len() as int) == p
}

/// `s` ends with `p`.
pub open spec fn has_suffix(s: Seq<char>, p: Seq<char>) -> bool {
    p.len() <= s.len() && s.subrange(s.len() - p.len(), s.len() as int) == p
}

/// `s` without the suffix `p`, if `s` ends with `p`.
pub open spec fn strip_suffix(s: Seq<char>, p: Seq<char>) -> Option<Seq<char>> {
    if has_suffix(s, p) {
        Some(s.subrange(0, s.len() - p.len()))
    } else {
        None
    }
}

/// Whether `s` begins with `p`.
pub fn starts_with(s: &[char], p: &[char]) -> (b: bool)
    ensures
        b == has_prefix(s@, p@),
{
    matches_at(s, p, 0)
}

/// Whether `s` ends with `p`.
pub fn ends_with(s: &[char], p: &[char]) -> (b: bool)
    ensures
        b == has_suffix(s@, p@),
{
    if p.len() > s.len() {
        false
    } else {
        matches_at(s, p, s.len() - p.len())
    }
}

/// Whether `a` and `b` hold the same characters.
pub fn chars_eq(a: &[char], b: &[char]) -> (r: bool)
    ensures
        r == (a@ == b@),
{
    if a.len() != b.len() {
        return false;
    }
    let r = matches_at(a, b, 0);
    assert(a@.subrange(0, b@.len() as int) =~= a@);
    r
}

/// `a` followed by `b`, as a new vector.
pub fn concat_chars(a: &[char], b: &[char]) -> (r: Vec<char>)
    ensures
        r@ == a@ + b@,
{
    let mut r = copy_range(a, 0, a.len());
    let mut i: usize = 0;
    assert(a@.subrange(0, a@.len() as int) =~= a@);
    while i < b.len()
        invariant
            i <= b@.len(),
            r@ == a@ + b@.subrange(0, i as int),
        decreases b@.len() - i,
    {
        r.push(b[i]);
        i += 1;
        assert(r@ =~= a@ + b@.subrange(0, i as int));
    }
    assert(b@.subrange(0, i as int) =~= b@);
    r
}

/// The elements of `s` from `lo` up to `hi`, as a new vector.
pub fn copy_range(s: &[char], lo: usize, hi: usize) -> (r: Vec<char>)
    requires
        lo <= hi <= s@.len(),
    ensures
        r@ == s@.subrange(lo as int, hi as int),
{
    let mut r: Vec<char> = Vec::new();
    let mut i: usize = lo;
    while i < hi
        invariant
            lo <= i <= hi <= s@.len(),
            r@ == s@.subrange(lo as int, i as int),
        decreases hi - i,
    {
        r.push(s[i]);
        i += 1;
        assert(r@ =~= s@.subrange(lo as int, i as int));
    }
    r
}

/// A character with the Unicode `White_Space` property, which is what
/// `char::is_whitespace` tests.
pub open spec fn is_white_space(c: char) -> bool {
    let u = c as u32;
    ||| 0x9 <= u <= 0xd
    ||| u == 0x20
    ||| u == 0x85
    ||| u == 0xa0
    ||| u == 0x1680
    ||| 0x2000 <= u <= 0x200a
    ||| u == 0x2028
    ||| u == 0x2029
    ||| u == 0x202f
    ||| u == 0x205f
    ||| u == 0x3000
}

/// Whether `c` is white space.
pub fn white_space(c: char) -> (b: bool)
    ensures
        b == is_white_space(c),
{
    let u = c as u32;
    (0x9 <= u && u <= 0xd) || u == 0x20 || u == 0x85 || u == 0xa0 || u == 0x1680 || (0x2000 <= u
        && u <= 0x200a) || u == 0x2028 || u == 0x2029 || u == 0x202f || u == 0x205f || u == 0x3000
}

/// `s` without its leading white space.
pub open spec fn trim_start(s: Seq<char>) -> Seq<char>
    decreases s.len(),
{
    if s.len() > 0 && is_white_space(s[0]) {
        trim_start(s.drop_first())
    } else {
        s
    }
}

/// `s` without its trailing white space.
pub open spec fn trim_end(s: Seq<char>) -> Seq<char>
    decreases s.len(),
{
    if s.len() > 0 && is_white_space(s.last()) {
        trim_end(s.drop_last())
    } else {
        s
    }
}

/// `s` without leading and trailing white space, as `str::trim` gives it.
pub open spec fn trim(s: Seq<char>) -> Seq<char> {
    trim_end(trim_start(s))
}

/// What trimming the start leaves begins with no white space.
pub proof fn lemma_trim_start(s: Seq<char>)
    ensures
        trim_start(s).len() > 0 ==> !is_white_space(trim_start(s)[0]),
        trim_start(s).len() <= s.len(),
        trim_start(s) == s.subrange(s.len() - trim_start(s).len(), s.len() as int),
    decreases s.len(),
{
    if s.len() > 0 && is_white_space(s[0]) {
        lemma_trim_start(s.drop_first());
        let t = trim_start(s.drop_first());
        assert(s.drop_first().subrange(s.len() - 1 - t.len(), s.len() - 1) =~= s.subrange(
            s.len() - t.len(),
            s.len() as int,
        ));
    } else {
        assert(s.subrange(0, s.len() as int) =~= s);
    }
}

/// What trimming the end leaves is a prefix ending in no white space.
pub proof fn lemma_trim_end(s: Seq<char>)
    ensures
        trim_end(s).len() > 0 ==> !is_white_space(trim_end(s).last()),
        trim_end(s).len() <= s.len(),
        trim_end(s) == s.subrange(0, trim_end(s).len() as int),
    decreases s.len(),
{
    if s.len() > 0 && is_white_space(s.last()) {
        lemma_trim_end(s.drop_last());
        let t = trim_end(s.drop_last());
        assert(s.drop_last().subrange(0, t.len() as int) =~= s.subrange(0, t.len() as int));
    } else {
        assert(s.subrange(0, s.len() as int) =~= s);
    }
}

/// Trimming twice is trimming once.
pub proof fn lemma_trim_idempotent(s: Seq<char>)
    ensures
        trim(trim(s)) == trim(s),
{
    let a = trim_start(s);
    let x = trim_end(a);
    lemma_trim_start(s);
    lemma_trim_end(a);
    if x.len() > 0 {
        assert(x[0] == a[0]);
        assert(trim_start(x) == x);
        assert(trim_end(x) == x);
    } else {
        assert(trim_start(x) == x);
        assert(trim_end(x) == x);
    }
}

/// Trimming keeps a text ASCII.
pub proof fn lemma_trim_ascii(s: Seq<char>)
    requires
        is_ascii_text(s),
    ensures
        is_ascii_text(trim(s)),
{
    lemma_trim_start(s);
    let a = trim_start(s);
    lemma_trim_end(a);
    let t = trim(s);
    assert forall|i: int| 0 <= i < t.len() implies (#[trigger] t[i] as u32) < 0x80 by {
        assert(t[i] == a[i]);
        assert(a[i] == s[s.len() - a.len() + i]);
    }
}

/// Changing ASCII letters to upper case does not change what is white space.
pub proof fn lemma_upper_white_space(c: char)
    ensures
        is_white_space(ascii_upper(c)) == is_white_space(c),
        (c as u32) < 0x80 ==> (ascii_upper(c) as u32) < 0x80,
        ascii_lower(ascii_upper(c)) == ascii_lower(c),
{
}

/// Trimming commutes with changing ASCII letters to upper case.
pub proof fn lemma_trim_uppercase(s: Seq<char>)
    ensures
        trim_start(ascii_uppercase(s)) == ascii_uppercase(trim_start(s)),
        trim_end(ascii_uppercase(s)) == ascii_uppercase(trim_end(s)),
        trim(ascii_uppercase(s)) == ascii_uppercase(trim(s)),
    decreases s.len(),
{
    let u = ascii_uppercase(s);
    if s.len() > 0 {
        lemma_upper_white_space(s[0]);
        lemma_upper_white_space(s.last());
        assert(u[0] == ascii_upper(s[0]));
        assert(u.last() == ascii_upper(s.last()));
        assert(u.drop_first() =~= ascii_uppercase(s.drop_first()));
        assert(u.drop_last() =~= ascii_uppercase(s.drop_last()));
        lemma_trim_uppercase(s.drop_first());
        lemma_trim_uppercase(s.drop_last());
    } else {
        assert(u =~= s);
    }
    lemma_trim_end_uppercase(trim_start(s));
}

/// Trimming the end commutes with changing ASCII letters to upper case.
proof fn lemma_trim_end_uppercase(s: Seq<char>)
    ensures
        trim_end(ascii_uppercase(s)) == ascii_uppercase(trim_end(s)),
    decreases s.len(),
{
    let u = ascii_uppercase(s);
    if s.len() > 0 {
        lemma_upper_white_space(s.last());
        assert(u.last() == ascii_upper(s.last()));
        assert(u.drop_last() =~= ascii_uppercase(s.drop_last()));
        lemma_trim_end_uppercase(s.drop_last());
    } else {
        assert(u =~= s);
    }
}

/// White space after a text does not change it once trimmed.
proof fn lemma_trim_trailing_space(s: Seq<char>, c: char)
    requires
        is_white_space(c),
    ensures
        trim_end(trim_start(s.push(c))) == trim_end(trim_start(s)),
    decreases s.len(),
{
    if s.len() == 0 {
        assert(s.push(c).drop_first() =~= s);
    } else if is_white_space(s[0]) {
        assert(s.push(c).drop_first() =~= s.drop_first().push(c));
        lemma_trim_trailing_space(s.drop_first(), c);
    } else {
        assert(s.push(c)[0] == s[0]);
        assert(s.push(c).drop_last() =~= s);
    }
}

/// White space around a text does not change it once trimmed.
pub proof fn lemma_trim_padding(s: Seq<char>)
    ensures
        trim(seq![' ', '\t'] + s + seq!['\n']) == trim(s),
{
    let p = seq![' ', '\t'] + s + seq!['\n'];
    assert(p.drop_first().drop_first() =~= s.push('\n'));
    assert(p[0] == ' ');
    assert(p.drop_first()[0] == '\t');
    assert(is_white_space(' '));
    assert(is_white_space('\t'));
    assert(is_white_space('\n'));
    assert(trim_start(p) == trim_start(p.drop_first()));
    assert(trim_start(p.drop_first()) == trim_start(p.drop_first().drop_first()));
    assert(trim_start(p) == trim_start(s.push('\n')));
    lemma_trim_trailing_space(s, '\n');
}

/// The bounds of `s` once leading and trailing white space are removed.
pub fn trim_bounds(s: &[char]) -> (r: (usize, usize))
    ensures
        r.0 <= r.1 <= s@.len(),
        s@.subrange(r.0 as int, r.1 as int) == trim(s@),
{
    let len = s.len();
    let mut lo: usize = 0;
    assert(s@.subrange(0, len as int) =~= s@);
    while lo < len && white_space(s[lo])
        invariant
            lo <= len == s@.len(),
            trim_start(s@) == trim_start(s@.subrange(lo as int, len as int)),
        decreases len - lo,
    {
        assert(s@.subrange(lo as int, len as int).drop_first() =~= s@.subrange(
            lo + 1,
            len as int,
        ));
        lo += 1;
    }
    let mut hi: usize = len;
    while hi > lo && white_space(s[hi - 1])
        invariant
            lo <= hi <= len == s@.len(),
            trim_start(s@) == s@.subrange(lo as int, len as int),
            trim_end(s@.subrange(lo as int, len as int)) == trim_end(
                s@.subrange(lo as int, hi as int),
            ),
        decreases hi - lo,
    {
        assert(s@.subrange(lo as int, hi as int).drop_last() =~= s@.subrange(
            lo as int,
            hi - 1,
        ));
        hi -= 1;
    }
    (lo, hi)
}

/// `s` without leading and trailing white space.
pub fn trim_chars(s: &[char]) -> (r: Vec<char>)
    ensures
        r@ == trim(s@),
{
    let (lo, hi) = trim_bounds(s);
    copy_range(s, lo, hi)
}

/// The numeric value of a decimal digit.
pub open spec fn digit_value(c: char) -> int {
    c as int - 48
}

/// A decimal digit.
pub open spec fn is_digit(c: char) -> bool {
    48 <= c as int <= 57
}

/// The value of a sequence of decimal digits.
pub open spec fn digits_value(d: Seq<char>) -> int
    decreases d.len(),
{
    if d.len() == 0 {
        0
    } else {
        digits_value(d.drop_last()) * 10 + digit_value(d.last())
    }
}

/// Every character of `d` is a decimal digit.
pub open spec fn all_digits(d: Seq<char>) -> bool {
    forall|i: int| 0 <= i < d.len() ==> is_digit(#[trigger] d[i])
}

/// `s` without a leading `+`.
pub open spec fn unsigned_digits(s: Seq<char>) -> Seq<char> {
    if s.len() > 0 && s[0] == '+' {
        s.drop_first()
    } else {
        s
    }
}

/// What `u64::from_str` makes of `s`: an optional `+`, then one or more decimal
/// digits whose value fits in 64 bits.
pub open spec fn parse_u64_spec(s: Seq<char>) -> Option<u64> {
    let d = unsigned_digits(s);
    if d.len() > 0 && all_digits(d) && digits_value(d) <= u64::MAX {
        Some(digits_value(d) as u64)
    } else {
        None
    }
}

/// A longer all-digit sequence has a value at least that of its prefixes.
proof fn lemma_digits_value_grows(d: Seq<char>, k: int)
    requires
        0 <= k <= d.len(),
        forall|i: int| 0 <= i < d.len() ==> is_digit(#[trigger] d[i]),
    ensures
        digits_value(d.take(k)) <= digits_value(d),
        0 <= digits_value(d.take(k)),
    decreases d.len(),
{
    if d.len() == 0 {
        assert(d.take(k) =~= d);
    } else {
        let e = d.drop_last();
        assert forall|i: int| 0 <= i < e.len() implies is_digit(#[trigger] e[i]) by {
            assert(e[i] == d[i]);
        }
        lemma_digits_value_grows(e, e.len() as int);
        assert(e.take(e.len() as int) =~= e);
        assert(is_digit(d[d.len() - 1]));
        if k == d.len() {
            assert(d.take(k) =~= d);
        } else {
            lemma_digits_value_grows(e, k);
            assert(d.take(k) =~= e.take(k));
        }
    }
}

/// The value of digits is never negative.
pub proof fn lemma_digits_value_nonneg(d: Seq<char>)
    requires
        all_digits(d),
    ensures
        digits_value(d) >= 0,
{
    lemma_digits_value_grows(d, d.len() as int);
    assert(d.take(d.len() as int) =~= d);
}

/// A character that is no digit makes the parse fail.
proof fn lemma_non_digit_rejected(s: Seq<char>, d: Seq<char>, k: int)
    requires
        d == unsigned_digits(s),
        0 <= k < d.len(),
        !is_digit(d[k]),
    ensures
        parse_u64_spec(s) is None,
{
}

/// Parses `s` as `u64::from_str` does.
pub fn parse_u64(s: &[char]) -> (r: Option<u64>)
    ensures
        r == parse_u64_spec(s@),
{
    let len = s.len();
    let start: usize = if len > 0 && s[0] == '+' {
        1
    } else {
        0
    };
    let ghost d = if s@.len() > 0 && s@[0] == '+' {
        s@.drop_first()
    } else {
        s@
    };
    assert(d =~= s@.subrange(start as int, len as int));
    if start >= len {
        return None;
    }
    let mut acc: u64 = 0;
    let mut i: usize = start;
    assert(d.take(0) =~= Seq::<char>::empty());
    while i < len
        invariant
            start <= i <= len == s@.len(),
            d == s@.subrange(start as int, len as int),
            d == unsigned_digits(s@),
            forall|j: int| 0 <= j < i - start ==> is_digit(#[trigger] d[j]),
            acc == digits_value(d.take(i - start)),
        decreases len - i,
    {
        let c = s[i];
        if c < '0' || c > '9' {
            assert(d[i - start] == s@[i as int]);
            assert(!is_digit(d[i - start]));
            proof {
                lemma_non_digit_rejected(s@, d, i - start);
            }
            return None;
        }
        let v = (c as u32 - 48) as u64;
        assert(d[i - start] == c);
        assert(d.take(i - start + 1).drop_last() =~= d.take(i - start));
        if acc > (u64::MAX - v) / 10 {
            proof {
                assert(acc * 10 + v > u64::MAX) by (nonlinear_arith)
                    requires
                        acc > (u64::MAX - v) / 10,
                        v <= 9,
                ;
                if all_digits(d) {
                    lemma_digits_value_grows(d, i - start + 1);
                }
                assert(parse_u64_spec(s@) is None);
            }
            return None;
        }
        acc = acc * 10 + v;
        i += 1;
    }
    assert(d.take(len - start) =~= d);
    Some(acc)
}

/// The line that ends just before a line break: without a final `\r`.
pub open spec fn strip_cr(line: Seq<char>) -> Seq<char> {
    if line.len() > 0 && line.last() == '\r' {
        line.drop_last()
    } else {
        line
    }
}

/// A one-character sequence holding a line feed.
pub open spec fn newline() -> Seq<char> {
    seq!['\n']
}

/// The lines of `s` from index `pos` on.
pub open spec fn lines_from(s: Seq<char>, pos: int) -> Seq<Seq<char>>
    decreases s.len() - pos,
{
    if pos < 0 || pos >= s.len() {
        seq![]
    } else {
        match find_from(s, newline(), pos) {
            None => seq![s.subrange(pos, s.len() as int)],
            Some(i) => {
                proof {
                    lemma_find_from(s, newline(), pos);
                }
                seq![strip_cr(s.subrange(pos, i))] + lines_from(s, i + 1)
            },
        }
    }
}

/// The lines of `s` as `str::lines` yields them: `s` split at each line feed, a
/// carriage return just before a line feed dropped, and no empty line after a
/// final line feed.
pub open spec fn lines(s: Seq<char>) -> Seq<Seq<char>> {
    lines_from(s, 0)
}

/// The texts held by a sequence of character vectors.
pub open spec fn views(v: Seq<Vec<char>>) -> Seq<Seq<char>> {
    v.map_values(|l: Vec<char>| l@)
}

/// Searching a suffix of `s` finds what searching `s` from the same place finds.
pub proof fn lemma_find_from_shift(s: Seq<char>, pat: Seq<char>, k: int, j: int)
    requires
        0 <= k <= s.len(),
        0 <= j,
    ensures
        find_from(s, pat, k + j) == match find_from(s.subrange(k, s.len() as int), pat, j) {
            Some(i) => Some(i + k),
            None => None::<int>,
        },
    decreases s.len() + 1 - (k + j),
{
    let t = s.subrange(k, s.len() as int);
    if k + j + pat.len() > s.len() {
    } else {
        assert(s.subrange(k + j, k + j + pat.len()) =~= t.subrange(j, j + pat.len()));
        if !occurs_at(s, pat, k + j) {
            lemma_find_from_shift(s, pat, k, j + 1);
        }
    }
}

/// The lines of a suffix of `s` are the lines of `s` from the same place.
pub proof fn lemma_lines_from_shift(s: Seq<char>, k: int, j: int)
    requires
        0 <= k <= s.len(),
        0 <= j,
    ensures
        lines_from(s, k + j) == lines_from(s.subrange(k, s.len() as int), j),
    decreases s.len() - (k + j),
{
    let t = s.subrange(k, s.len() as int);
    if k + j >= s.len() {
    } else {
        lemma_find_from_shift(s, newline(), k, j);
        lemma_find_from(t, newline(), j);
        match find_from(t, newline(), j) {
            None => {
                assert(s.subrange(k + j, s.len() as int) =~= t.subrange(j, t.len() as int));
            },
            Some(i) => {
                assert(s.subrange(k + j, i + k) =~= t.subrange(j, i));
                lemma_lines_from_shift(s, k, i + 1);
            },
        }
    }
}

/// The lines of `s`.
pub fn split_lines(s: &[char]) -> (r: Vec<Vec<char>>)
    ensures
        views(r@) == lines(s@),
{
    let nl = vec!['\n'];
    assert(nl@ =~= newline());
    let mut r: Vec<Vec<char>> = Vec::new();
    let mut pos: usize = 0;
    while pos < s.len()
        invariant
            pos <= s@.len(),
            nl@ == newline(),
            lines(s@) == views(r@) + lines_from(s@, pos as int),
        decreases s@.len() - pos,
    {
        let ghost old_r = views(r@);
        match find_chars(s, &nl, pos) {
            None => {
                let line = copy_range(s, pos, s.len());
                r.push(line);
                assert(views(r@) =~= old_r + lines_from(s@, pos as int));
                assert(lines_from(s@, s@.len() as int) =~= Seq::<Seq<char>>::empty());
                pos = s.len();
            },
            Some(i) => {
                proof {
                    lemma_find_from(s@, newline(), pos as int);
                }
                let end: usize = if i > pos && s[i - 1] == '\r' {
                    i - 1
                } else {
                    i
                };
                let line = copy_range(s, pos, end);
                assert(line@ =~= strip_cr(s@.subrange(pos as int, i as int)));
                r.push(line);
                assert(views(r@) =~= old_r + seq![strip_cr(s@.subrange(pos as int, i as int))]);
                assert(lines(s@) =~= views(r@) + lines_from(s@, i + 1));
                pos = i + 1;
            },
        }
    }
    assert(lines_from(s@, pos as int) =~= Seq::<Seq<char>>::empty());
    assert(lines(s@) =~= views(r@));
    r
}

/// Name for what `String::from_utf8_lossy` makes of a byte sequence.
pub uninterp spec fn utf8_lossy(bytes: Seq<u8>) -> Seq<char>;

/// Calls `String::from_utf8_lossy`: claims that the text is the one named by
/// `utf8_lossy`, and that valid UTF-8 is decoded unchanged. What it makes of
/// invalid sequences is left to the name.
#[verifier::external_body]
pub(crate) fn decode_lossy(data: &[u8]) -> (chars: Vec<char>)
    ensures
        chars@ == utf8_lossy(data@),
        valid_utf8(data@) ==> chars@ == decode_utf8(data@),
{
    String::from_utf8_lossy(data).chars().collect()
}

/// Calls `str::chars`: claims that the characters are those of `s`.
#[verifier::external_body]
pub(crate) fn chars_of(s: &str) -> (v: Vec<char>)
    ensures
        v@ == s@,
{
    s.chars().collect()
}

/// Calls `FromIterator<char>` for `String`: claims that the string holds the
/// characters of `v`, in order.
#[verifier::external_body]
pub(crate) fn string_of(v: &[char]) -> (s: String)
    ensures
        s@ == v@,
{
    v.iter().collect()
}

/// Name for what `str::to_lowercase` makes of a text.
pub uninterp spec fn lowercase(s: Seq<char>) -> Seq<char>;

/// Every character of `s` is ASCII.
pub open spec fn is_ascii_text(s: Seq<char>) -> bool {
    forall|i: int| 0 <= i < s.len() ==> (#[trigger] s[i] as u32) < 0x80
}

/// An ASCII upper-case letter in lower case; any other character unchanged.
pub open spec fn ascii_lower(c: char) -> char {
    if 0x41 <= c as u32 <= 0x5a {
        ((c as u32) + 0x20) as char
    } else {
        c
    }
}

/// An ASCII lower-case letter in upper case; any other character unchanged.
pub open spec fn ascii_upper(c: char) -> char {
    if 0x61 <= c as u32 <= 0x7a {
        ((c as u32) - 0x20) as char
    } else {
        c
    }
}

/// `s` with each ASCII upper-case letter in lower case.
pub open spec fn ascii_lowercase(s: Seq<char>) -> Seq<char> {
    s.map_values(|c: char| ascii_lower(c))
}

/// `s` with each ASCII lower-case letter in upper case.
pub open spec fn ascii_uppercase(s: Seq<char>) -> Seq<char> {
    s.map_values(|c: char| ascii_upper(c))
}

/// Calls `str::to_lowercase`: claims that the result is the one named by
/// `lowercase`, and, as the documentation of `to_lowercase` gives it, that
/// an ASCII text comes back with `A`-`Z` mapped to `a`-`z` one for one and
/// every other character kept. The Unicode case mapping of other texts is
/// left to the name.
#[verifier::external_body]
pub(crate) fn to_lowercase(s: &[char]) -> (r: Vec<char>)
    ensures
        r@ == lowercase(s@),
        is_ascii_text(s@) ==> r@ == ascii_lowercase(s@),
{
    s.iter().collect::<String>().to_lowercase().chars().collect()
}

} // verus!
