//! Scanning of the XML property lists that `hdiutil` prints.

use vstd::prelude::*;

use crate::text::{chars_of, copy_range, find, find_chars, find_from, lemma_find_from, occurs_at, string_of};

verus! {

/// `<key>`
pub open spec fn key_open() -> Seq<char> {
    seq!['<', 'k', 'e', 'y', '>']
}

/// `</key>`
pub open spec fn key_close() -> Seq<char> {
    seq!['<', '/', 'k', 'e', 'y', '>']
}

/// `<string>`
pub open spec fn string_open() -> Seq<char> {
    seq!['<', 's', 't', 'r', 'i', 'n', 'g', '>']
}

/// `</string>`
pub open spec fn string_close() -> Seq<char> {
    seq!['<', '/', 's', 't', 'r', 'i', 'n', 'g', '>']
}

/// `<dict>`
pub open spec fn dict_open() -> Seq<char> {
    seq!['<', 'd', 'i', 'c', 't', '>']
}

/// `</dict>`
pub open spec fn dict_close() -> Seq<char> {
    seq!['<', '/', 'd', 'i', 'c', 't', '>']
}

/// `<array>`
pub open spec fn array_open() -> Seq<char> {
    seq!['<', 'a', 'r', 'r', 'a', 'y', '>']
}

/// `</array>`
pub open spec fn array_close() -> Seq<char> {
    seq!['<', '/', 'a', 'r', 'r', 'a', 'y', '>']
}

/// `mount-point`
pub open spec fn mount_point_key() -> Seq<char> {
    seq!['m', 'o', 'u', 'n', 't', '-', 'p', 'o', 'i', 'n', 't']
}

/// `image-path`
pub open spec fn image_path_key() -> Seq<char> {
    seq!['i', 'm', 'a', 'g', 'e', '-', 'p', 'a', 't', 'h']
}

/// The element that names `key`: `<key>KEY</key>`.
pub open spec fn key_element(key: Seq<char>) -> Seq<char> {
    key_open() + key + key_close()
}

/// The string value that a plist snippet gives `key`: the text between the
/// first `<string>` after the first `<key>KEY</key>` and the next `</string>`.
pub open spec fn plist_string(xml: Seq<char>, key: Seq<char>) -> Option<Seq<char>> {
    match find(xml, key_element(key)) {
        None => None,
        Some(k) => match find_from(xml, string_open(), k + key_element(key).len()) {
            None => None,
            Some(o) => match find_from(xml, string_close(), o + string_open().len()) {
                None => None,
                Some(c) => Some(xml.subrange(o + string_open().len(), c)),
            },
        },
    }
}

/// Where a block ends whose opening tag lies before `pos`, `depth` levels deep:
/// from `pos`, each `open` met before the next `close` goes one level deeper,
/// each `close` one level out, and the block ends just after the `close` that
/// takes the depth to zero. Where no `close` follows, the scan stops at `pos`.
pub open spec fn block_end(s: Seq<char>, open: Seq<char>, close: Seq<char>, depth: nat, pos: int) -> int
    decreases s.len() - pos,
{
    if depth == 0 || open.len() == 0 || close.len() == 0 || pos < 0 || pos > s.len() {
        pos
    } else {
        match find_from(s, close, pos) {
            None => pos,
            Some(c) => {
                proof {
                    lemma_find_from(s, close, pos);
                    lemma_find_from(s, open, pos);
                }
                match find_from(s, open, pos) {
                    Some(o) => if o < c {
                        block_end(s, open, close, depth + 1, o + open.len())
                    } else {
                        block_end(s, open, close, (depth - 1) as nat, c + close.len())
                    },
                    None => block_end(s, open, close, (depth - 1) as nat, c + close.len()),
                }
            },
        }
    }
}

/// The end of a block lies between where the scan starts and the end of the text.
pub proof fn lemma_block_end_bounds(s: Seq<char>, open: Seq<char>, close: Seq<char>, depth: nat, pos: int)
    requires
        0 <= pos <= s.len(),
    ensures
        pos <= block_end(s, open, close, depth, pos) <= s.len(),
    decreases s.len() - pos,
{
    if depth == 0 || open.len() == 0 || close.len() == 0 {
    } else {
        lemma_find_from(s, close, pos);
        lemma_find_from(s, open, pos);
        match find_from(s, close, pos) {
            None => {},
            Some(c) => match find_from(s, open, pos) {
                Some(o) => if o < c {
                    lemma_block_end_bounds(s, open, close, depth + 1, o + open.len());
                } else {
                    lemma_block_end_bounds(s, open, close, (depth - 1) as nat, c + close.len());
                },
                None => lemma_block_end_bounds(s, open, close, (depth - 1) as nat, c + close.len()),
            },
        }
    }
}

/// The mount point that the arrays of a dict give, searching the arrays that
/// start at or after `pos`, outermost first.
pub open spec fn array_mount_point_from(d: Seq<char>, pos: int) -> Option<Seq<char>>
    decreases d.len() - pos,
{
    if pos < 0 || pos > d.len() {
        None
    } else {
        match find_from(d, array_open(), pos) {
            None => None,
            Some(a) => {
                let e = block_end(d, array_open(), array_close(), 1, a + array_open().len());
                proof {
                    lemma_find_from(d, array_open(), pos);
                    lemma_block_end_bounds(d, array_open(), array_close(), 1, a + array_open().len());
                }
                match plist_string(d.subrange(a, e), mount_point_key()) {
                    Some(m) => Some(m),
                    None => array_mount_point_from(d, e),
                }
            },
        }
    }
}

/// The mount point of a dict: its own `mount-point` entry, or else the first
/// one held in one of its arrays.
pub open spec fn nested_mount_point(d: Seq<char>) -> Option<Seq<char>> {
    match plist_string(d, mount_point_key()) {
        Some(m) => Some(m),
        None => array_mount_point_from(d, 0),
    }
}

/// The text of an optional character vector.
pub open spec fn opt_chars(o: Option<Vec<char>>) -> Option<Seq<char>> {
    match o {
        Some(v) => Some(v@),
        None => None,
    }
}

/// The text of an optional string.
pub open spec fn opt_string(o: Option<String>) -> Option<Seq<char>> {
    match o {
        Some(v) => Some(v@),
        None => None,
    }
}

fn string_open_tag() -> (v: Vec<char>)
    ensures
        v@ == string_open(),
{
    let v = vec!['<', 's', 't', 'r', 'i', 'n', 'g', '>'];
    assert(v@ =~= string_open());
    v
}

fn string_close_tag() -> (v: Vec<char>)
    ensures
        v@ == string_close(),
{
    let v = vec!['<', '/', 's', 't', 'r', 'i', 'n', 'g', '>'];
    assert(v@ =~= string_close());
    v
}

pub(crate) fn dict_open_tag() -> (v: Vec<char>)
    ensures
        v@ == dict_open(),
{
    let v = vec!['<', 'd', 'i', 'c', 't', '>'];
    assert(v@ =~= dict_open());
    v
}

pub(crate) fn dict_close_tag() -> (v: Vec<char>)
    ensures
        v@ == dict_close(),
{
    let v = vec!['<', '/', 'd', 'i', 'c', 't', '>'];
    assert(v@ =~= dict_close());
    v
}

fn array_open_tag() -> (v: Vec<char>)
    ensures
        v@ == array_open(),
{
    let v = vec!['<', 'a', 'r', 'r', 'a', 'y', '>'];
    assert(v@ =~= array_open());
    v
}

fn array_close_tag() -> (v: Vec<char>)
    ensures
        v@ == array_close(),
{
    let v = vec!['<', '/', 'a', 'r', 'r', 'a', 'y', '>'];
    assert(v@ =~= array_close());
    v
}

pub(crate) fn mount_point_name() -> (v: Vec<char>)
    ensures
        v@ == mount_point_key(),
{
    let v = vec!['m', 'o', 'u', 'n', 't', '-', 'p', 'o', 'i', 'n', 't'];
    assert(v@ =~= mount_point_key());
    v
}

pub(crate) fn image_path_name() -> (v: Vec<char>)
    ensures
        v@ == image_path_key(),
{
    let v = vec!['i', 'm', 'a', 'g', 'e', '-', 'p', 'a', 't', 'h'];
    assert(v@ =~= image_path_key());
    v
}

fn key_element_of(key: &[char]) -> (v: Vec<char>)
    ensures
        v@ == key_element(key@),
{
    let mut v = vec!['<', 'k', 'e', 'y', '>'];
    let mut i: usize = 0;
    while i < key.len()
        invariant
            i <= key@.len(),
            v@ == key_open() + key@.subrange(0, i as int),
        decreases key@.len() - i,
    {
        v.push(key[i]);
        i += 1;
        assert(v@ =~= key_open() + key@.subrange(0, i as int));
    }
    let close = vec!['<', '/', 'k', 'e', 'y', '>'];
    let mut j: usize = 0;
    assert(key@.subrange(0, i as int) =~= key@);
    assert(v@ =~= key_open() + key@ + close@.subrange(0, 0));
    while j < close.len()
        invariant
            j <= close@.len(),
            close@ == key_close(),
            v@ == key_open() + key@ + close@.subrange(0, j as int),
        decreases close@.len() - j,
    {
        v.push(close[j]);
        j += 1;
        assert(v@ =~= key_open() + key@ + close@.subrange(0, j as int));
    }
    assert(close@.subrange(0, j as int) =~= key_close());
    v
}

/// The string value that `xml` gives `key`.
pub fn plist_string_of(xml: &[char], key: &[char]) -> (r: Option<Vec<char>>)
    ensures
        opt_chars(r) == plist_string(xml@, key@),
{
    let xml_len = xml.len();
    let element = key_element_of(key);
    let k = match find_chars(xml, &element, 0) {
        None => return None,
        Some(k) => k,
    };
    proof {
        lemma_find_from(xml@, element@, 0);
    }
    let open = string_open_tag();
    let o = match find_chars(xml, &open, k + element.len()) {
        None => return None,
        Some(o) => o,
    };
    proof {
        lemma_find_from(xml@, open@, k + element@.len());
    }
    let close = string_close_tag();
    let c = match find_chars(xml, &close, o + open.len()) {
        None => return None,
        Some(c) => c,
    };
    proof {
        lemma_find_from(xml@, close@, o + open@.len());
    }
    Some(copy_range(xml, o + open.len(), c))
}

/// Where the block ends whose opening tag ends at `pos`.
pub fn block_end_of(s: &[char], open: &[char], close: &[char], pos: usize) -> (e: usize)
    requires
        0 < pos <= s@.len(),
        open@.len() > 0,
        close@.len() > 0,
    ensures
        e == block_end(s@, open@, close@, 1, pos as int),
{
    let mut depth: usize = 1;
    let mut p: usize = pos;
    let s_len = s.len();
    while depth > 0
        invariant
            s_len == s@.len(),
            depth <= p <= s@.len(),
            open@.len() > 0,
            close@.len() > 0,
            block_end(s@, open@, close@, 1, pos as int) == block_end(
                s@,
                open@,
                close@,
                depth as nat,
                p as int,
            ),
        ensures
            block_end(s@, open@, close@, 1, pos as int) == p,
        decreases s@.len() - p, depth,
    {
        let next_close = find_chars(s, close, p);
        let next_open = find_chars(s, open, p);
        proof {
            lemma_find_from(s@, close@, p as int);
            lemma_find_from(s@, open@, p as int);
        }
        match next_close {
            None => {
                break;
            },
            Some(c) => {
                match next_open {
                    Some(o) => {
                        if o < c {
                            depth += 1;
                            p = o + open.len();
                        } else {
                            depth -= 1;
                            p = c + close.len();
                        }
                    },
                    None => {
                        depth -= 1;
                        p = c + close.len();
                    },
                }
            },
        }
    }
    p
}

/// The mount point of a dict.
pub fn nested_mount_point_of(d: &[char]) -> (r: Option<Vec<char>>)
    ensures
        opt_chars(r) == nested_mount_point(d@),
{
    let key = mount_point_name();
    let direct = plist_string_of(d, &key);
    if direct.is_some() {
        return direct;
    }
    let open = array_open_tag();
    let close = array_close_tag();
    let mut pos: usize = 0;
    while pos <= d.len()
        invariant
            pos <= d@.len(),
            key@ == mount_point_key(),
            open@ == array_open(),
            close@ == array_close(),
            nested_mount_point(d@) == array_mount_point_from(d@, pos as int),
        decreases d@.len() - pos,
    {
        let a = match find_chars(d, &open, pos) {
            None => return None,
            Some(a) => a,
        };
        proof {
            lemma_find_from(d@, open@, pos as int);
        }
        let e = block_end_of(d, &open, &close, a + open.len());
        proof {
            lemma_block_end_bounds(d@, open@, close@, 1, a + open@.len());
        }
        let content = copy_range(d, a, e);
        let found = plist_string_of(&content, &key);
        if found.is_some() {
            return found;
        }
        pos = e;
    }
    None
}

/// The string value that the plist snippet `dict_xml` gives `key`.
pub fn extract_plist_string(dict_xml: &str, key: &str) -> (r: Option<String>)
    ensures
        opt_string(r) == plist_string(dict_xml@, key@),
{
    let xml = chars_of(dict_xml);
    let k = chars_of(key);
    match plist_string_of(&xml, &k) {
        Some(v) => Some(string_of(&v)),
        None => None,
    }
}

/// The mount point that the dict `dict_xml` names, directly or in one of its
/// arrays.
pub fn find_nested_mount_point(dict_xml: &str) -> (r: Option<String>)
    ensures
        opt_string(r) == nested_mount_point(dict_xml@),
{
    let xml = chars_of(dict_xml);
    match nested_mount_point_of(&xml) {
        Some(v) => Some(string_of(&v)),
        None => None,
    }
}

/// An occurrence of `pat` in the window `d[a..e]` is one in `d`, shifted by `a`.
proof fn lemma_occurs_in_window(d: Seq<char>, a: int, e: int, pat: Seq<char>, i: int)
    requires
        0 <= a <= e <= d.len(),
        occurs_at(d.subrange(a, e), pat, i),
    ensures
        occurs_at(d, pat, a + i),
{
    let w = d.subrange(a, e);
    assert(d.subrange(a + i, a + i + pat.len()) =~= w.subrange(i, i + pat.len()));
}

/// Where `pat` occurs at `j`, a search from any `start` up to `j` finds an
/// occurrence no later than `j`.
proof fn lemma_find_reaches(s: Seq<char>, pat: Seq<char>, start: int, j: int)
    requires
        0 <= start <= j,
        occurs_at(s, pat, j),
    ensures
        find_from(s, pat, start) matches Some(i) && start <= i <= j,
{
    lemma_find_from(s, pat, start);
}

/// A value that a window of a snippet gives a key, the whole snippet gives the
/// key as well (perhaps another one, met earlier).
proof fn lemma_window_value(d: Seq<char>, a: int, e: int, key: Seq<char>)
    requires
        0 <= a <= e <= d.len(),
        plist_string(d.subrange(a, e), key) is Some,
    ensures
        plist_string(d, key) is Some,
{
    let w = d.subrange(a, e);
    let ke = key_element(key);
    lemma_find_from(w, ke, 0);
    let k = find(w, ke)->0;
    lemma_occurs_in_window(d, a, e, ke, k);
    lemma_find_reaches(d, ke, 0, a + k);
    let kd = find(d, ke)->0;
    assert(kd <= a + k);
    lemma_find_from(w, string_open(), k + ke.len());
    let o = find_from(w, string_open(), k + ke.len())->0;
    assert(k + ke.len() <= o);
    lemma_occurs_in_window(d, a, e, string_open(), o);
    lemma_find_reaches(d, string_open(), kd + ke.len(), a + o);
    let od = find_from(d, string_open(), kd + ke.len())->0;
    assert(od <= a + o);
    lemma_find_from(w, string_close(), o + string_open().len());
    let c = find_from(w, string_close(), o + string_open().len())->0;
    assert(o + string_open().len() <= c);
    lemma_occurs_in_window(d, a, e, string_close(), c);
    lemma_find_reaches(d, string_close(), od + string_open().len(), a + c);
}

/// Where a dict gives no mount point of its own, none of its arrays gives one.
proof fn lemma_arrays_add_nothing(d: Seq<char>, pos: int)
    requires
        plist_string(d, mount_point_key()) is None,
    ensures
        array_mount_point_from(d, pos) is None,
    decreases d.len() - pos,
{
    if 0 <= pos <= d.len() {
        lemma_find_from(d, array_open(), pos);
        match find_from(d, array_open(), pos) {
            None => {},
            Some(a) => {
                let e = block_end(d, array_open(), array_close(), 1, a + array_open().len());
                lemma_block_end_bounds(d, array_open(), array_close(), 1, a + array_open().len());
                if plist_string(d.subrange(a, e), mount_point_key()) is Some {
                    lemma_window_value(d, a, e, mount_point_key());
                }
                lemma_arrays_add_nothing(d, e);
            },
        }
    }
}

/// The search through a dict's arrays finds no mount point that the direct
/// search of the dict misses: both give the same answer on every text.
pub proof fn law_nested_search_adds_nothing(d: Seq<char>)
    ensures
        nested_mount_point(d) == plist_string(d, mount_point_key()),
{
    if plist_string(d, mount_point_key()) is None {
        lemma_arrays_add_nothing(d, 0);
    }
}

} // verus!
