//! What this crate reads out of `gpg`'s output, and the tomb password that
//! `gpg` protects.

use rand::Rng;
use vstd::prelude::*;

use crate::plist::opt_string;
use crate::text::{
    chars_eq, chars_of, copy_range, decode_lossy, find, find_chars, has_prefix, is_white_space,
    lemma_find_from, lines, split_lines, starts_with, string_of, trim, trim_chars, utf8_lossy,
    views, white_space,
};

verus! {

/// `encrypted with`
pub open spec fn encrypted_with() -> Seq<char> {
    seq!['e', 'n', 'c', 'r', 'y', 'p', 't', 'e', 'd', ' ', 'w', 'i', 't', 'h']
}

/// `key ID`
pub open spec fn key_id_marker() -> Seq<char> {
    seq!['k', 'e', 'y', ' ', 'I', 'D']
}

/// The text of `s` up to its first `,` or space.
pub open spec fn first_field(s: Seq<char>) -> Seq<char>
    decreases s.len(),
{
    if s.len() == 0 || s[0] == ',' || s[0] == ' ' {
        seq![]
    } else {
        seq![s[0]] + first_field(s.drop_first())
    }
}

/// A line that names an encryption key: it holds both `encrypted with` and
/// `key ID`.
pub open spec fn names_key_id(line: Seq<char>) -> bool {
    find(line, encrypted_with()) is Some && find(line, key_id_marker()) is Some
}

/// The character that follows the first `key ID` of a line naming a key is a
/// single byte in UTF-8, so that the text after it can be cut out.
pub open spec fn key_id_line_ok(line: Seq<char>) -> bool {
    names_key_id(line) ==> {
        let k = find(line, key_id_marker()).unwrap();
        k + 6 < line.len() && (line[k + 6] as u32) < 0x80
    }
}

/// The key ID that a line like `gpg: encrypted with ... key ID DEADBEEF, ...`
/// names: after the first `key ID` and the character that follows it, the
/// trimmed text up to the first `,` or space, when that is not empty.
pub open spec fn key_id_in_line(line: Seq<char>) -> Option<Seq<char>> {
    if names_key_id(line) {
        let k = find(line, key_id_marker()).unwrap();
        let id = first_field(trim(line.subrange(k + 7, line.len() as int)));
        if id.len() > 0 {
            Some(id)
        } else {
            None
        }
    } else {
        None
    }
}

/// The text of `s` up to its first `,` or space.
fn first_field_of(s: &[char]) -> (r: Vec<char>)
    ensures
        r@ == first_field(s@),
{
    let len = s.len();
    let mut i: usize = 0;
    assert(s@.subrange(0, len as int) =~= s@);
    assert(s@.subrange(0, 0) =~= Seq::<char>::empty());
    while i < len && s[i] != ',' && s[i] != ' '
        invariant
            i <= len == s@.len(),
            first_field(s@) == s@.subrange(0, i as int) + first_field(
                s@.subrange(i as int, len as int),
            ),
        decreases len - i,
    {
        let ghost rest = s@.subrange(i as int, len as int);
        assert(rest.drop_first() =~= s@.subrange(i + 1, len as int));
        assert(s@.subrange(0, i + 1) =~= s@.subrange(0, i as int) + seq![rest[0]]);
        i += 1;
    }
    assert(first_field(s@.subrange(i as int, len as int)) =~= Seq::<char>::empty());
    copy_range(s, 0, i)
}

/// Parses a line like `gpg: encrypted with ... key ID DEADBEEF, ...` for the
/// key ID it names.
pub fn extract_key_id_from_line(line: &str) -> (r: Option<String>)
    requires
        key_id_line_ok(line@),
    ensures
        opt_string(r) == key_id_in_line(line@),
{
    let l = chars_of(line);
    let enc = vec!['e', 'n', 'c', 'r', 'y', 'p', 't', 'e', 'd', ' ', 'w', 'i', 't', 'h'];
    let marker = vec!['k', 'e', 'y', ' ', 'I', 'D'];
    assert(enc@ =~= encrypted_with());
    assert(marker@ =~= key_id_marker());
    if find_chars(&l, &enc, 0).is_none() {
        return None;
    }
    let k = match find_chars(&l, &marker, 0) {
        None => return None,
        Some(k) => k,
    };
    proof {
        lemma_find_from(l@, marker@, 0);
    }
    let rest = copy_range(&l, k + 7, l.len());
    let trimmed = trim_chars(&rest);
    let id = first_field_of(&trimmed);
    if id.len() > 0 {
        Some(string_of(&id))
    } else {
        None
    }
}

/// The longest prefix of `s` without white space.
pub open spec fn leading_word(s: Seq<char>) -> Seq<char>
    decreases s.len(),
{
    if s.len() == 0 || is_white_space(s[0]) {
        seq![]
    } else {
        seq![s[0]] + leading_word(s.drop_first())
    }
}

/// A leading word is a prefix of the text.
pub proof fn lemma_leading_word(s: Seq<char>)
    ensures
        leading_word(s).len() <= s.len(),
        leading_word(s) == s.subrange(0, leading_word(s).len() as int),
        s.len() > 0 && !is_white_space(s[0]) ==> leading_word(s).len() > 0,
        leading_word(s).len() < s.len() ==> is_white_space(s[leading_word(s).len() as int]),
    decreases s.len(),
{
    if s.len() == 0 || is_white_space(s[0]) {
        assert(s.subrange(0, 0) =~= Seq::<char>::empty());
    } else {
        lemma_leading_word(s.drop_first());
        let w = leading_word(s.drop_first());
        assert(s.subrange(0, w.len() + 1 as int) =~= seq![s[0]] + s.drop_first().subrange(0, w.len() as int));
    }
}

/// The words of `s`, as `str::split_whitespace` yields them: the maximal runs
/// of characters that are not white space.
pub open spec fn words(s: Seq<char>) -> Seq<Seq<char>>
    decreases s.len(),
{
    if s.len() == 0 {
        seq![]
    } else if is_white_space(s[0]) {
        words(s.drop_first())
    } else {
        let w = leading_word(s);
        proof {
            lemma_leading_word(s);
        }
        seq![w] + words(s.subrange(w.len() as int, s.len() as int))
    }
}

/// The words of `s`.
pub fn split_words(s: &[char]) -> (r: Vec<Vec<char>>)
    ensures
        views(r@) == words(s@),
{
    let len = s.len();
    let mut r: Vec<Vec<char>> = Vec::new();
    let mut pos: usize = 0;
    assert(s@.subrange(0, len as int) =~= s@);
    while pos < len
        invariant
            pos <= len == s@.len(),
            words(s@) == views(r@) + words(s@.subrange(pos as int, len as int)),
        decreases len - pos,
    {
        let ghost rest = s@.subrange(pos as int, len as int);
        if white_space(s[pos]) {
            assert(rest.drop_first() =~= s@.subrange(pos + 1, len as int));
            pos += 1;
        } else {
            let mut j: usize = pos;
            while j < len && !white_space(s[j])
                invariant
                    pos <= j <= len == s@.len(),
                    rest == s@.subrange(pos as int, len as int),
                    leading_word(rest) == s@.subrange(pos as int, j as int) + leading_word(
                        s@.subrange(j as int, len as int),
                    ),
                decreases len - j,
            {
                let ghost tail = s@.subrange(j as int, len as int);
                assert(tail.drop_first() =~= s@.subrange(j + 1, len as int));
                assert(s@.subrange(pos as int, j + 1) =~= s@.subrange(pos as int, j as int) + seq![
                    tail[0],
                ]);
                j += 1;
            }
            assert(leading_word(s@.subrange(j as int, len as int)) =~= Seq::<char>::empty());
            let w = copy_range(s, pos, j);
            let ghost old_r = views(r@);
            r.push(w);
            proof {
                lemma_leading_word(rest);
                assert(views(r@) =~= old_r + seq![leading_word(rest)]);
                assert(rest.subrange(j - pos, rest.len() as int) =~= s@.subrange(
                    j as int,
                    len as int,
                ));
            }
            pos = j;
        }
    }
    assert(words(s@.subrange(len as int, len as int)) =~= Seq::<Seq<char>>::empty());
    assert(views(r@) + Seq::<Seq<char>>::empty() =~= views(r@));
    r
}


/// Lexicographic order on texts, by code point: the order of `String`.
pub open spec fn text_lt(a: Seq<char>, b: Seq<char>) -> bool
    decreases a.len(),
{
    if a.len() == 0 {
        b.len() > 0
    } else if b.len() == 0 {
        false
    } else if a[0] != b[0] {
        (a[0] as int) < (b[0] as int)
    } else {
        text_lt(a.drop_first(), b.drop_first())
    }
}

/// No text precedes itself.
pub proof fn lemma_text_lt_irreflexive(a: Seq<char>)
    ensures
        !text_lt(a, a),
    decreases a.len(),
{
    if a.len() > 0 {
        lemma_text_lt_irreflexive(a.drop_first());
    }
}

/// The order is transitive.
pub proof fn lemma_text_lt_transitive(a: Seq<char>, b: Seq<char>, c: Seq<char>)
    requires
        text_lt(a, b),
        text_lt(b, c),
    ensures
        text_lt(a, c),
    decreases a.len(),
{
    if a.len() > 0 && b.len() > 0 && c.len() > 0 && a[0] == b[0] && b[0] == c[0] {
        lemma_text_lt_transitive(a.drop_first(), b.drop_first(), c.drop_first());
    }
}

/// Of two different texts, one precedes the other.
pub proof fn lemma_text_lt_total(a: Seq<char>, b: Seq<char>)
    ensures
        a == b || text_lt(a, b) || text_lt(b, a),
    decreases a.len(),
{
    if a.len() > 0 && b.len() > 0 && a[0] == b[0] {
        lemma_text_lt_total(a.drop_first(), b.drop_first());
        if a.drop_first() == b.drop_first() {
            assert(a =~= seq![a[0]] + a.drop_first());
            assert(b =~= seq![b[0]] + b.drop_first());
        }
    } else if a.len() == 0 && b.len() == 0 {
        assert(a =~= b);
    }
}

/// Whether `a` precedes `b`.
pub fn text_less(a: &[char], b: &[char]) -> (r: bool)
    ensures
        r == text_lt(a@, b@),
{
    let mut i: usize = 0;
    assert(a@.subrange(0, a@.len() as int) =~= a@);
    assert(b@.subrange(0, b@.len() as int) =~= b@);
    while i < a.len() && i < b.len() && a[i] == b[i]
        invariant
            i <= a@.len(),
            i <= b@.len(),
            text_lt(a@, b@) == text_lt(
                a@.subrange(i as int, a@.len() as int),
                b@.subrange(i as int, b@.len() as int),
            ),
        decreases a@.len() - i,
    {
        assert(a@.subrange(i as int, a@.len() as int).drop_first() =~= a@.subrange(
            i + 1,
            a@.len() as int,
        ));
        assert(b@.subrange(i as int, b@.len() as int).drop_first() =~= b@.subrange(
            i + 1,
            b@.len() as int,
        ));
        i += 1;
    }
    if i == a.len() {
        i < b.len()
    } else if i == b.len() {
        false
    } else {
        assert(a@.subrange(i as int, a@.len() as int)[0] == a@[i as int]);
        assert(b@.subrange(i as int, b@.len() as int)[0] == b@[i as int]);
        a[i] < b[i]
    }
}

/// Each text precedes the next: sorted, with no text twice.
pub open spec fn strictly_sorted(s: Seq<Seq<char>>) -> bool {
    forall|i: int, j: int| 0 <= i < j < s.len() ==> text_lt(s[i], s[j])
}

/// Adds `k` to the sorted texts `r`, unless it is there already.
fn insert_sorted(r: &mut Vec<Vec<char>>, k: Vec<char>)
    requires
        strictly_sorted(views(old(r)@)),
    ensures
        strictly_sorted(views(final(r)@)),
        forall|x: Seq<char>|
            views(final(r)@).contains(x) <==> (views(old(r)@).contains(x) || x == k@),
{
    let ghost old_v = views(r@);
    let mut i: usize = 0;
    while i < r.len() && text_less(&r[i], &k)
        invariant
            i <= r@.len(),
            old_v == views(r@),
            forall|j: int| 0 <= j < i ==> text_lt(#[trigger] old_v[j], k@),
        decreases r@.len() - i,
    {
        i += 1;
    }
    if i < r.len() && chars_eq(&r[i], &k) {
        assert(old_v[i as int] == k@);
        return;
    }
    proof {
        if i < old_v.len() {
            lemma_text_lt_total(old_v[i as int], k@);
        }
    }
    r.insert(i, k);
    let ghost new_v = views(r@);
    assert(new_v =~= old_v.insert(i as int, k@));
    assert forall|a: int, b: int| 0 <= a < b < new_v.len() implies text_lt(new_v[a], new_v[b]) by {
        if b > i {
            assert(new_v[b] == old_v[b - 1]);
            if b - 1 > i {
                lemma_text_lt_transitive(k@, old_v[i as int], old_v[b - 1]);
            }
            assert(text_lt(k@, new_v[b]));
            if a < i {
                lemma_text_lt_transitive(new_v[a], k@, new_v[b]);
            }
        }
    }
    assert forall|x: Seq<char>| new_v.contains(x) <==> (old_v.contains(x) || x == k@) by {
        if new_v.contains(x) {
            let j = choose|j: int| 0 <= j < new_v.len() && #[trigger] new_v[j] == x;
            if j < i {
                assert(old_v[j] == x);
            } else if j > i {
                assert(old_v[j - 1] == x);
            }
        }
        if old_v.contains(x) {
            let j = choose|j: int| 0 <= j < old_v.len() && #[trigger] old_v[j] == x;
            if j < i {
                assert(new_v[j] == x);
            } else {
                assert(new_v[j + 1] == x);
            }
        }
        if x == k@ {
            assert(new_v[i as int] == x);
        }
    }
}

/// The texts held by a sequence of strings.
pub open spec fn string_views(v: Seq<String>) -> Seq<Seq<char>> {
    v.map_values(|s: String| s@)
}

/// `[GNUPG:] ENC_TO`
pub open spec fn enc_to_marker() -> Seq<char> {
    seq!['[', 'G', 'N', 'U', 'P', 'G', ':', ']', ' ', 'E', 'N', 'C', '_', 'T', 'O']
}

/// The key IDs that the status lines of `gpg --status-fd` name: the third word
/// of each line that starts with `[GNUPG:] ENC_TO` and has one.
pub open spec fn enc_to_ids(ls: Seq<Seq<char>>) -> Seq<Seq<char>>
    decreases ls.len(),
{
    if ls.len() == 0 {
        seq![]
    } else {
        let rest = enc_to_ids(ls.drop_first());
        if has_prefix(ls[0], enc_to_marker()) && words(ls[0]).len() >= 3 {
            seq![words(ls[0])[2]] + rest
        } else {
            rest
        }
    }
}

/// The key IDs that `gpg`'s messages name, line by line.
pub open spec fn message_key_ids(ls: Seq<Seq<char>>) -> Seq<Seq<char>>
    decreases ls.len(),
{
    if ls.len() == 0 {
        seq![]
    } else {
        let rest = message_key_ids(ls.drop_first());
        match key_id_in_line(ls[0]) {
            Some(id) => seq![id] + rest,
            None => rest,
        }
    }
}

/// The key IDs that a key file was encrypted to, as `gpg --list-only --decrypt`
/// reports them: from its status lines, or, where those name none, from its
/// messages.
pub open spec fn listed_key_ids(stdout: Seq<char>, stderr: Seq<char>) -> Seq<Seq<char>> {
    let ids = enc_to_ids(lines(stdout));
    if ids.len() > 0 {
        ids
    } else {
        message_key_ids(lines(stderr))
    }
}

/// Every line of the messages can be read for a key ID, where they are read.
pub open spec fn recipient_output_ok(stdout: Seq<char>, stderr: Seq<char>) -> bool {
    enc_to_ids(lines(stdout)).len() == 0 ==> forall|i: int|
        0 <= i < lines(stderr).len() ==> key_id_line_ok(#[trigger] lines(stderr)[i])
}

/// What can go wrong reading `gpg`'s output.
#[derive(Debug)]
pub enum GpgError {
    /// No recipient could be found for the key file.
    NoRecipients,
}

fn enc_to_ids_of(ls: &Vec<Vec<char>>) -> (r: Vec<Vec<char>>)
    ensures
        views(r@) == enc_to_ids(views(ls@)),
{
    let marker = vec!['[', 'G', 'N', 'U', 'P', 'G', ':', ']', ' ', 'E', 'N', 'C', '_', 'T', 'O'];
    assert(marker@ =~= enc_to_marker());
    let ghost all = views(ls@);
    let mut r: Vec<Vec<char>> = Vec::new();
    let mut i: usize = ls.len();
    assert(all.subrange(all.len() as int, all.len() as int) =~= Seq::<Seq<char>>::empty());
    assert(all.subrange(0, all.len() as int) =~= all);
    while i > 0
        invariant
            i <= ls@.len(),
            all == views(ls@),
            marker@ == enc_to_marker(),
            views(r@) == enc_to_ids(all.subrange(i as int, all.len() as int)),
        decreases i,
    {
        i -= 1;
        let ghost tail = all.subrange(i as int, all.len() as int);
        assert(tail.drop_first() =~= all.subrange(i + 1, all.len() as int));
        assert(tail[0] == ls@[i as int]@);
        let line = &ls[i];
        if starts_with(line, &marker) {
            let ws = split_words(line);
            if ws.len() >= 3 {
                let w = copy_range(&ws[2], 0, ws[2].len());
                assert(w@ =~= ws@[2]@);
                let ghost old_r = views(r@);
                r.insert(0, w);
                assert(views(r@) =~= seq![w@] + old_r);
            }
        }
    }
    r
}

fn message_key_ids_of(ls: &Vec<Vec<char>>) -> (r: Vec<Vec<char>>)
    requires
        forall|i: int| 0 <= i < views(ls@).len() ==> key_id_line_ok(#[trigger] views(ls@)[i]),
    ensures
        views(r@) == message_key_ids(views(ls@)),
{
    let ghost all = views(ls@);
    let mut r: Vec<Vec<char>> = Vec::new();
    let mut i: usize = ls.len();
    assert(all.subrange(all.len() as int, all.len() as int) =~= Seq::<Seq<char>>::empty());
    assert(all.subrange(0, all.len() as int) =~= all);
    while i > 0
        invariant
            i <= ls@.len(),
            all == views(ls@),
            forall|j: int| 0 <= j < all.len() ==> key_id_line_ok(#[trigger] all[j]),
            views(r@) == message_key_ids(all.subrange(i as int, all.len() as int)),
        decreases i,
    {
        i -= 1;
        let ghost tail = all.subrange(i as int, all.len() as int);
        assert(tail.drop_first() =~= all.subrange(i + 1, all.len() as int));
        assert(tail[0] == ls@[i as int]@);
        assert(key_id_line_ok(all[i as int]));
        let line = string_of(&ls[i]);
        if let Some(id) = extract_key_id_from_line(line.as_str()) {
            let w = chars_of(id.as_str());
            let ghost old_r = views(r@);
            r.insert(0, w);
            assert(views(r@) =~= seq![w@] + old_r);
        }
    }
    r
}

/// The recipients of a key file, from the output of
/// `gpg --batch --status-fd 1 --list-only --decrypt` (its standard output and
/// error, as text): the key IDs listed, sorted, each once. It is an error when
/// none is listed.
pub fn recipients_from_gpg_output(stdout: &str, stderr: &str) -> (r: Result<Vec<String>, GpgError>)
    requires
        recipient_output_ok(stdout@, stderr@),
    ensures
        ({
            let ids = listed_key_ids(stdout@, stderr@);
            &&& r is Err <==> ids.len() == 0
            &&& r matches Ok(v) ==> {
                &&& strictly_sorted(string_views(v@))
                &&& forall|x: Seq<char>| string_views(v@).contains(x) <==> ids.contains(x)
            }
        }),
{
    let out = chars_of(stdout);
    let err = chars_of(stderr);
    let out_lines = split_lines(&out);
    let mut ids = enc_to_ids_of(&out_lines);
    if ids.len() == 0 {
        let err_lines = split_lines(&err);
        ids = message_key_ids_of(&err_lines);
    }
    let ghost listed = views(ids@);
    assert(listed == listed_key_ids(out@, err@));
    if ids.len() == 0 {
        return Err(GpgError::NoRecipients);
    }
    let mut sorted: Vec<Vec<char>> = Vec::new();
    let mut i: usize = 0;
    while i < ids.len()
        invariant
            i <= ids@.len(),
            listed == views(ids@),
            strictly_sorted(views(sorted@)),
            forall|x: Seq<char>|
                views(sorted@).contains(x) <==> listed.subrange(0, i as int).contains(x),
        decreases ids@.len() - i,
    {
        let k = copy_range(&ids[i], 0, ids[i].len());
        assert(k@ =~= listed[i as int]);
        let ghost before = views(sorted@);
        insert_sorted(&mut sorted, k);
        let ghost pre0 = listed.subrange(0, i as int);
        let ghost pre1 = listed.subrange(0, i + 1);
        assert forall|x: Seq<char>| pre1.contains(x) <==> (pre0.contains(x) || x == listed[i as int]) by {
            if pre1.contains(x) {
                let j = choose|j: int| 0 <= j < pre1.len() && #[trigger] pre1[j] == x;
                if j < i {
                    assert(pre0[j] == x);
                }
            }
            if pre0.contains(x) {
                let j = choose|j: int| 0 <= j < pre0.len() && #[trigger] pre0[j] == x;
                assert(pre1[j] == x);
            }
            if x == listed[i as int] {
                assert(pre1[i as int] == x);
            }
        }
        i += 1;
    }
    assert(listed.subrange(0, i as int) =~= listed);
    let mut result: Vec<String> = Vec::new();
    let mut j: usize = 0;
    while j < sorted.len()
        invariant
            j <= sorted@.len(),
            string_views(result@) == views(sorted@).subrange(0, j as int),
        decreases sorted@.len() - j,
    {
        let ghost before = string_views(result@);
        let t = string_of(&sorted[j]);
        result.push(t);
        assert(string_views(result@) =~= before.push(sorted@[j as int]@));
        j += 1;
        assert(string_views(result@) =~= views(sorted@).subrange(0, j as int));
    }
    assert(views(sorted@).subrange(0, j as int) =~= views(sorted@));
    Ok(result)
}

/// `pub:`
pub open spec fn pub_marker() -> Seq<char> {
    seq!['p', 'u', 'b', ':']
}

/// The text of `s` up to its first `:`.
pub open spec fn up_to_colon(s: Seq<char>) -> Seq<char>
    decreases s.len(),
{
    if s.len() == 0 || s[0] == ':' {
        seq![]
    } else {
        seq![s[0]] + up_to_colon(s.drop_first())
    }
}

/// The trust level that a key listing (`gpg --with-colons --list-keys`) gives:
/// the second `:`-separated field of its first line that starts with `pub:`.
pub open spec fn listing_trust(ls: Seq<Seq<char>>) -> Option<Seq<char>>
    decreases ls.len(),
{
    if ls.len() == 0 {
        None
    } else if has_prefix(ls[0], pub_marker()) {
        Some(up_to_colon(ls[0].subrange(4, ls[0].len() as int)))
    } else {
        listing_trust(ls.drop_first())
    }
}

fn up_to_colon_of(s: &[char], from: usize) -> (r: Vec<char>)
    requires
        from <= s@.len(),
    ensures
        r@ == up_to_colon(s@.subrange(from as int, s@.len() as int)),
{
    let len = s.len();
    let mut i: usize = from;
    assert(s@.subrange(from as int, from as int) =~= Seq::<char>::empty());
    while i < len && s[i] != ':'
        invariant
            from <= i <= len == s@.len(),
            up_to_colon(s@.subrange(from as int, len as int)) == s@.subrange(from as int, i as int)
                + up_to_colon(s@.subrange(i as int, len as int)),
        decreases len - i,
    {
        let ghost rest = s@.subrange(i as int, len as int);
        assert(rest.drop_first() =~= s@.subrange(i + 1, len as int));
        assert(s@.subrange(from as int, i + 1) =~= s@.subrange(from as int, i as int) + seq![
            rest[0],
        ]);
        i += 1;
    }
    assert(up_to_colon(s@.subrange(i as int, len as int)) =~= Seq::<char>::empty());
    copy_range(s, from, i)
}

/// The trust level of a key, from the output of
/// `gpg --with-colons --batch --list-keys ID`; `None` when no line gives one.
pub fn trust_level_from_listing(stdout: &[u8]) -> (r: Option<String>)
    ensures
        opt_string(r) == listing_trust(lines(utf8_lossy(stdout@))),
{
    let text = decode_lossy(stdout);
    let ls = split_lines(&text);
    let marker = vec!['p', 'u', 'b', ':'];
    assert(marker@ =~= pub_marker());
    let ghost all = views(ls@);
    let mut i: usize = 0;
    assert(all.subrange(0, all.len() as int) =~= all);
    while i < ls.len()
        invariant
            i <= ls@.len(),
            all == views(ls@),
            all == lines(utf8_lossy(stdout@)),
            marker@ == pub_marker(),
            listing_trust(all) == listing_trust(all.subrange(i as int, all.len() as int)),
        decreases ls@.len() - i,
    {
        let ghost tail = all.subrange(i as int, all.len() as int);
        assert(tail[0] == ls@[i as int]@);
        if starts_with(&ls[i], &marker) {
            let field = up_to_colon_of(&ls[i], 4);
            return Some(string_of(&field));
        }
        assert(tail.drop_first() =~= all.subrange(i + 1, all.len() as int));
        i += 1;
    }
    None
}

/// A trust level that is enough to encrypt to the key: one of `m`, `f`, `u`,
/// `w`, `s`.
pub open spec fn sufficient_trust(t: Seq<char>) -> bool {
    t.len() == 1 && (t[0] == 'm' || t[0] == 'f' || t[0] == 'u' || t[0] == 'w' || t[0] == 's')
}

/// Whether a trust level is enough to encrypt to the key.
pub fn is_trusted_level(trust: &str) -> (r: bool)
    ensures
        r == sufficient_trust(trust@),
        r == trusted_levels().contains(trust@),
{
    proof {
        law_trusted_levels(trust@);
    }
    let t = chars_of(trust);
    t.len() == 1 && (t[0] == 'm' || t[0] == 'f' || t[0] == 'u' || t[0] == 'w' || t[0] == 's')
}

/// The trust levels that let a key protect a tomb: marginal, full, ultimate,
/// well-known and special (`m`, `f`, `u`, `w`, `s`).
pub open spec fn trusted_levels() -> Set<Seq<char>> {
    set![seq!['m'], seq!['f'], seq!['u'], seq!['w'], seq!['s']]
}

/// A trust level is sufficient exactly when it is one of the five texts `m`,
/// `f`, `u`, `w`, `s`; every other level (`o`, `-`, `q`, `n`, `e`, `r`, `i`,
/// `d`, a longer text, the empty text) is rejected.
pub proof fn law_trusted_levels(t: Seq<char>)
    ensures
        sufficient_trust(t) == trusted_levels().contains(t),
{
    if t.len() == 1 {
        if t[0] == 'm' {
            assert(t =~= seq!['m']);
        } else if t[0] == 'f' {
            assert(t =~= seq!['f']);
        } else if t[0] == 'u' {
            assert(t =~= seq!['u']);
        } else if t[0] == 'w' {
            assert(t =~= seq!['w']);
        } else if t[0] == 's' {
            assert(t =~= seq!['s']);
        }
    }
    if trusted_levels().contains(t) {
        assert(t.len() == 1);
    }
}

/// Why a key may not be used for the tomb.
#[derive(Debug)]
pub enum TrustError {
    /// No `pub:` line gave the key's trust level.
    Unknown,
    /// The key is not trusted enough; its trust level is given.
    Insufficient(String),
}

/// Checks the trust of a key from its listing (`gpg --with-colons --batch
/// --list-keys ID`): the level must be known and be one of `m`, `f`, `u`,
/// `w`, `s`.
pub fn check_key_trust(listing: &[u8]) -> (r: Result<(), TrustError>)
    ensures
        match listing_trust(lines(utf8_lossy(listing@))) {
            None => r matches Err(TrustError::Unknown),
            Some(t) => if sufficient_trust(t) {
                r is Ok
            } else {
                r matches Err(TrustError::Insufficient(level)) && level@ == t
            },
        },
{
    match trust_level_from_listing(listing) {
        None => Err(TrustError::Unknown),
        Some(t) => if is_trusted_level(t.as_str()) {
            Ok(())
        } else {
            Err(TrustError::Insufficient(t))
        },
    }
}

/// A key listing (`gpg --with-colons --batch --list-keys ID`, `None` where
/// gpg refused the ID) that lets the key protect a tomb: its trust level is
/// known and sufficient.
pub open spec fn listing_accepted(listing: Option<Vec<u8>>) -> bool {
    match listing {
        None => false,
        Some(b) => match listing_trust(lines(utf8_lossy(b@))) {
            Some(t) => sufficient_trust(t),
            None => false,
        },
    }
}

/// `r` is the error that rejects the ID `id` for its listing `listing`.
pub open spec fn rejected_as(r: Result<(), GpgIdError>, id: Seq<char>, listing: Option<Vec<u8>>) -> bool {
    match listing {
        None => r matches Err(GpgIdError::NotValidKeyId(x)) && x@ == id,
        Some(b) => match listing_trust(lines(utf8_lossy(b@))) {
            None => r matches Err(GpgIdError::UnknownTrust(x)) && x@ == id,
            Some(t) => r matches Err(GpgIdError::NotTrusted(x, level)) && x@ == id && level@ == t,
        },
    }
}

/// Why a set of GPG IDs cannot protect a tomb.
#[derive(Debug)]
pub enum GpgIdError {
    /// gpg does not know this ID.
    NotValidKeyId(String),
    /// No trust level could be read for this ID's key.
    UnknownTrust(String),
    /// This ID's key is not trusted enough; its trust level is given.
    NotTrusted(String, String),
    /// None of the IDs has a secret key here.
    NoSecretKey,
}

/// Decides whether the GPG IDs `ids` may protect a tomb, given for each ID
/// its key listing (`None` where gpg refused the ID) and whether a secret key
/// for it is present. The IDs are checked in order and the first one whose
/// key is unknown or not trusted enough is reported; when all pass, at least
/// one of them must have a secret key.
pub fn validate_gpg_ids(ids: &[String], listings: &[Option<Vec<u8>>], has_secret: &[bool]) -> (r:
    Result<(), GpgIdError>)
    requires
        listings.len() == ids.len(),
        has_secret.len() == ids.len(),
    ensures
        forall|k: int|
            0 <= k < ids.len() && !#[trigger] listing_accepted(listings@[k]) && (forall|j: int|
                0 <= j < k ==> listing_accepted(listings@[j])) ==> rejected_as(
                r,
                ids@[k]@,
                listings@[k],
            ),
        (forall|k: int| 0 <= k < ids.len() ==> listing_accepted(#[trigger] listings@[k])) ==> {
            &&& r is Ok <==> has_secret@.contains(true)
            &&& r is Err ==> r matches Err(GpgIdError::NoSecretKey)
        },
{
    let mut i: usize = 0;
    while i < ids.len()
        invariant
            i <= ids@.len(),
            listings@.len() == ids@.len(),
            forall|j: int| 0 <= j < i ==> listing_accepted(#[trigger] listings@[j]),
        decreases ids@.len() - i,
    {
        if let Some(b) = &listings[i] {
            match check_key_trust(b.as_slice()) {
                Ok(()) => {},
                Err(TrustError::Unknown) => {
                    return Err(GpgIdError::UnknownTrust(ids[i].clone()));
                },
                Err(TrustError::Insufficient(t)) => {
                    return Err(GpgIdError::NotTrusted(ids[i].clone(), t));
                },
            }
        } else {
            return Err(GpgIdError::NotValidKeyId(ids[i].clone()));
        }
        i += 1;
    }
    let mut j: usize = 0;
    while j < has_secret.len()
        invariant
            j <= has_secret@.len(),
            listings@.len() == ids@.len(),
            forall|k: int| 0 <= k < ids@.len() ==> listing_accepted(#[trigger] listings@[k]),
            forall|m: int| 0 <= m < j ==> !has_secret@[m],
        decreases has_secret@.len() - j,
    {
        if has_secret[j] {
            assert(has_secret@[j as int]);
            return Ok(());
        }
        j += 1;
    }
    Err(GpgIdError::NoSecretKey)
}

/// The characters a tomb password is drawn from.
pub open spec fn password_alphabet() -> Seq<char> {
    seq!['A', 'B', 'C', 'D', 'E', 'F', 'G', 'H', 'I', 'J', 'K', 'L', 'M', 'N', 'O', 'P', 'Q', 'R', 'S', 'T', 'U', 'V', 'W', 'X', 'Y', 'Z', 'a', 'b', 'c', 'd', 'e', 'f', 'g', 'h', 'i', 'j', 'k', 'l', 'm', 'n', 'o', 'p', 'q', 'r', 's', 't', 'u', 'v', 'w', 'x', 'y', 'z', '0', '1', '2', '3', '4', '5', '6', '7', '8', '9', '!', '@', '#', '$', '%', '^', '&', '*', '(', ')', '-', '_', '=', '+']
}

/// No character of the password alphabet is white space.
pub proof fn lemma_password_alphabet_printable(i: int)
    requires
        0 <= i < password_alphabet().len(),
    ensures
        0x21 <= password_alphabet()[i] as u32 <= 0x7e,
        !is_white_space(password_alphabet()[i]),
{
}

/// The number of characters in the password alphabet.
pub const PASSWORD_ALPHABET_LEN: usize = 76;

/// The length of a tomb password.
pub const TOMB_PASSWORD_LEN: usize = 64;

/// Calls `Rng::gen_range` on the thread's random number generator: claims only
/// that the number lies below `bound`; which one comes is chance.
#[verifier::external_body]
fn random_below(bound: usize) -> (r: usize)
    requires
        bound > 0,
    ensures
        r < bound,
{
    rand::thread_rng().gen_range(0..bound)
}

/// Draws below the size of the password alphabet.
pub open spec fn valid_draws(draws: Seq<usize>) -> bool {
    forall|i: int| 0 <= i < draws.len() ==> (#[trigger] draws[i]) < password_alphabet().len()
}

/// The password that picks, for each draw, the alphabet's character at it.
pub open spec fn password_of(draws: Seq<usize>) -> Seq<char> {
    Seq::new(draws.len(), |i: int| password_alphabet()[draws[i] as int])
}

/// The password spelled by `draws`: for each draw, the character of
/// `password_alphabet()` at that index.
pub fn password_from_draws(draws: &[usize]) -> (p: String)
    requires
        valid_draws(draws@),
    ensures
        p@ == password_of(draws@),
{
    let alphabet = vec!['A', 'B', 'C', 'D', 'E', 'F', 'G', 'H', 'I', 'J', 'K', 'L', 'M', 'N', 'O', 'P', 'Q', 'R', 'S', 'T', 'U', 'V', 'W', 'X', 'Y', 'Z', 'a', 'b', 'c', 'd', 'e', 'f', 'g', 'h', 'i', 'j', 'k', 'l', 'm', 'n', 'o', 'p', 'q', 'r', 's', 't', 'u', 'v', 'w', 'x', 'y', 'z', '0', '1', '2', '3', '4', '5', '6', '7', '8', '9', '!', '@', '#', '$', '%', '^', '&', '*', '(', ')', '-', '_', '=', '+'];
    assert(alphabet@ =~= password_alphabet());
    let mut chars: Vec<char> = Vec::new();
    let mut n: usize = 0;
    while n < draws.len()
        invariant
            n <= draws@.len(),
            chars@.len() == n,
            alphabet@ == password_alphabet(),
            valid_draws(draws@),
            forall|i: int| 0 <= i < n ==> #[trigger] chars@[i] == password_alphabet()[draws@[i] as int],
        decreases draws@.len() - n,
    {
        let k = draws[n];
        assert(draws@[n as int] < password_alphabet().len());
        chars.push(alphabet[k]);
        n += 1;
    }
    assert(chars@ =~= password_of(draws@));
    string_of(&chars)
}

/// A password spelled by valid draws has only characters of the alphabet,
/// none of them white space.
pub proof fn lemma_password_of_printable(draws: Seq<usize>)
    requires
        valid_draws(draws),
    ensures
        forall|i: int|
            0 <= i < draws.len() ==> password_alphabet().contains(#[trigger] password_of(draws)[i]),
        forall|i: int| 0 <= i < draws.len() ==> !is_white_space(#[trigger] password_of(draws)[i]),
{
    assert forall|i: int| 0 <= i < draws.len() implies password_alphabet().contains(
        #[trigger] password_of(draws)[i],
    ) && !is_white_space(password_of(draws)[i]) by {
        let k = draws[i] as int;
        assert(password_of(draws)[i] == password_alphabet()[k]);
        lemma_password_alphabet_printable(k);
    }
}

/// `TOMB_PASSWORD_LEN` random draws below the size of the password alphabet.
fn password_draws() -> (d: Vec<usize>)
    ensures
        d@.len() == TOMB_PASSWORD_LEN,
        valid_draws(d@),
{
    let mut d: Vec<usize> = Vec::new();
    let mut n: usize = 0;
    while n < TOMB_PASSWORD_LEN
        invariant
            n <= TOMB_PASSWORD_LEN,
            d@.len() == n,
            valid_draws(d@),
        decreases TOMB_PASSWORD_LEN - n,
    {
        assert(password_alphabet().len() == PASSWORD_ALPHABET_LEN);
        let k = random_below(PASSWORD_ALPHABET_LEN);
        d.push(k);
        n += 1;
    }
    d
}

/// Generates a random tomb password (used for the `hdiutil` disk image): 64
/// characters, each drawn at random from `password_alphabet()`.
pub fn generate_tomb_password() -> (p: String)
    ensures
        exists|draws: Seq<usize>|
            draws.len() == TOMB_PASSWORD_LEN && valid_draws(draws) && p@ == #[trigger] password_of(
                draws,
            ),
        p@.len() == TOMB_PASSWORD_LEN,
        forall|i: int| 0 <= i < p@.len() ==> password_alphabet().contains(#[trigger] p@[i]),
        forall|i: int| 0 <= i < p@.len() ==> !is_white_space(#[trigger] p@[i]),
{
    let draws = password_draws();
    let p = password_from_draws(&draws);
    proof {
        lemma_password_of_printable(draws@);
    }
    p
}

} // verus!
