//! Tombs: the encrypted disk images that hold the password store, and what
//! `hdiutil` reports about them.

use vstd::prelude::*;

use crate::plist::{
    block_end, block_end_of, dict_close, dict_close_tag, dict_open, dict_open_tag,
    image_path_key, image_path_name, lemma_block_end_bounds, mount_point_key, mount_point_name,
    nested_mount_point, nested_mount_point_of, opt_string, plist_string,
    plist_string_of,
};
use crate::text::{find, chars_eq, chars_of, concat_chars, copy_range, ends_with, has_suffix, decode_lossy, find_chars, find_from, lemma_find_from, string_of, utf8_lossy};

verus! {

/// Default size for a new tomb.
pub const DEFAULT_TOMB_SIZE: &'static str = "50m";

/// Default volume name for the disk image.
pub const DEFAULT_VOLUME_NAME: &'static str = "pass-tomb";

/// The filename extension for tomb disk images.
pub const TOMB_EXTENSION: &'static str = ".dmg";

/// What can go wrong with a tomb.
#[derive(Debug)]
pub enum TombError {
    /// The tomb file is not mounted anywhere.
    NotMounted,
}

/// Information about an open (mounted) tomb.
#[derive(Debug, Clone)]
pub struct TombInfo {
    /// The tomb file path (if determinable).
    pub image_path: Option<String>,
    /// The mount point.
    pub mount_point: String,
    /// The volume name.
    pub volume_name: String,
}

/// What a `TombInfo` holds, as texts.
pub ghost struct TombInfoView {
    pub image_path: Option<Seq<char>>,
    pub mount_point: Seq<char>,
    pub volume_name: Seq<char>,
}

impl View for TombInfo {
    type V = TombInfoView;

    open spec fn view(&self) -> TombInfoView {
        TombInfoView {
            image_path: opt_string(self.image_path),
            mount_point: self.mount_point@,
            volume_name: self.volume_name@,
        }
    }
}

/// The texts of a sequence of tomb records.
pub open spec fn tomb_views(v: Seq<TombInfo>) -> Seq<TombInfoView> {
    v.map_values(|t: TombInfo| t@)
}


/// The part of `s` after its last `/`, or all of `s` when it has none: what
/// `rsplit('/').next()` yields.
pub open spec fn last_segment(s: Seq<char>) -> Seq<char>
    decreases s.len(),
{
    if s.len() == 0 {
        s
    } else if s.last() == '/' {
        seq![]
    } else {
        last_segment(s.drop_last()).push(s.last())
    }
}

/// The part of `s` after its last `/`.
pub fn last_segment_of(s: &[char]) -> (r: Vec<char>)
    ensures
        r@ == last_segment(s@),
{
    let len = s.len();
    let mut i: usize = len;
    assert(s@.subrange(0, len as int) =~= s@);
    assert(s@.subrange(len as int, len as int) =~= Seq::<char>::empty());
    while i > 0 && s[i - 1] != '/'
        invariant
            i <= len == s@.len(),
            last_segment(s@) == last_segment(s@.subrange(0, i as int)) + s@.subrange(
                i as int,
                len as int,
            ),
        decreases i,
    {
        let ghost pre = s@.subrange(0, i as int);
        assert(pre.drop_last() =~= s@.subrange(0, i - 1));
        assert(s@.subrange(i - 1, len as int) =~= seq![pre.last()] + s@.subrange(i as int, len as int));
        i -= 1;
    }
    if i > 0 {
        assert(s@.subrange(0, i as int).last() == '/');
    }
    assert(last_segment(s@.subrange(0, i as int)) =~= Seq::<char>::empty());
    copy_range(s, i, len)
}

/// The record for a mounted image at `image_path` mounted on `mount_point`.
pub open spec fn tomb_entry(image_path: Seq<char>, mount_point: Seq<char>) -> TombInfoView {
    TombInfoView {
        image_path: Some(image_path),
        mount_point,
        volume_name: last_segment(mount_point),
    }
}

/// The mounted images that the dicts of `s` describe, from `pos` on: each dict
/// met while scanning, with its nested dicts, gives a record when it has an
/// `image-path` and a mount point.
pub open spec fn info_entries_from(s: Seq<char>, pos: int) -> Seq<TombInfoView>
    decreases s.len() - pos,
{
    if pos < 0 || pos > s.len() {
        seq![]
    } else {
        match find_from(s, dict_open(), pos) {
            None => seq![],
            Some(a) => {
                let e = block_end(s, dict_open(), dict_close(), 1, a + dict_open().len());
                proof {
                    lemma_find_from(s, dict_open(), pos);
                    lemma_block_end_bounds(s, dict_open(), dict_close(), 1, a + dict_open().len());
                }
                let d = s.subrange(a, e);
                let rest = info_entries_from(s, e);
                match (plist_string(d, image_path_key()), nested_mount_point(d)) {
                    (Some(ip), Some(mp)) => seq![tomb_entry(ip, mp)] + rest,
                    _ => rest,
                }
            },
        }
    }
}

/// The mounted images that the output of `hdiutil info -plist` describes.
pub open spec fn info_entries(s: Seq<char>) -> Seq<TombInfoView> {
    info_entries_from(s, 0)
}

/// Parses the mount point out of the output of `hdiutil attach -plist`: the
/// string that follows its first `mount-point` key.
pub fn parse_attach_plist(data: &[u8]) -> (r: Result<Option<String>, TombError>)
    ensures
        r matches Ok(p) && opt_string(p) == plist_string(utf8_lossy(data@), mount_point_key()),
{
    let text = decode_lossy(data);
    let key = mount_point_name();
    match plist_string_of(&text, &key) {
        Some(v) => Ok(Some(string_of(&v))),
        None => Ok(None),
    }
}

/// Parses the output of `hdiutil info -plist` into the mounted images it lists.
pub fn parse_info_plist(data: &[u8]) -> (r: Result<Vec<TombInfo>, TombError>)
    ensures
        r matches Ok(v) && tomb_views(v@) == info_entries(utf8_lossy(data@)),
{
    let text = decode_lossy(data);
    let open = dict_open_tag();
    let close = dict_close_tag();
    let image_key = image_path_name();
    let mut results: Vec<TombInfo> = Vec::new();
    let mut pos: usize = 0;
    let ghost s = text@;
    while pos <= text.len()
        invariant
            s == text@,
            pos <= s.len(),
            open@ == dict_open(),
            close@ == dict_close(),
            image_key@ == image_path_key(),
            info_entries(s) == tomb_views(results@) + info_entries_from(s, pos as int),
        ensures
            info_entries(s) == tomb_views(results@),
        decreases s.len() - pos,
    {
        let a = match find_chars(&text, &open, pos) {
            None => {
                assert(tomb_views(results@) + info_entries_from(s, pos as int) =~= tomb_views(
                    results@,
                ));
                break;
            },
            Some(a) => a,
        };
        proof {
            lemma_find_from(s, open@, pos as int);
        }
        let e = block_end_of(&text, &open, &close, a + open.len());
        proof {
            lemma_block_end_bounds(s, open@, close@, 1, a + open@.len());
        }
        let d = copy_range(&text, a, e);
        let ghost old_results = tomb_views(results@);
        let image = plist_string_of(&d, &image_key);
        if let Some(ip) = image {
            if let Some(mp) = nested_mount_point_of(&d) {
                let volume = last_segment_of(&mp);
                let info = TombInfo {
                    image_path: Some(string_of(&ip)),
                    mount_point: string_of(&mp),
                    volume_name: string_of(&volume),
                };
                results.push(info);
                assert(tomb_views(results@) =~= old_results + seq![tomb_entry(ip@, mp@)]);
            }
        }
        pos = e;
    }
    Ok(results)
}


/// The mount point of the first of `tombs` whose image path is `image`; none
/// where `image` is unknown (a path that did not resolve matches nothing).
pub open spec fn mount_point_for(tombs: Seq<TombInfoView>, image: Option<Seq<char>>) -> Option<
    Seq<char>,
>
    decreases tombs.len(),
{
    if tombs.len() == 0 || image is None {
        None
    } else if tombs[0].image_path == image {
        Some(tombs[0].mount_point)
    } else {
        mount_point_for(tombs.drop_first(), image)
    }
}

/// Whether two resolved paths are known and the same.
fn same_path(a: &Option<String>, b: &Option<String>) -> (r: bool)
    ensures
        r == (opt_string(*a) is Some && opt_string(*a) == opt_string(*b)),
{
    match a {
        Some(x) => match b {
            Some(y) => x.eq(y),
            None => false,
        },
        None => false,
    }
}

/// Finds where a tomb file is mounted. `tombs` are the open tombs, each image
/// path resolved as `tomb` is (canonical paths; `None` where a path cannot be
/// resolved); the result is the mount point of the first whose image path
/// equals `tomb`. A tomb whose path did not resolve is never found.
pub fn find_mount_point(tombs: &[TombInfo], tomb: &Option<String>) -> (r: Option<String>)
    ensures
        opt_string(r) == mount_point_for(tomb_views(tombs@), opt_string(*tomb)),
        tomb is None ==> r is None,
{
    let mut i: usize = 0;
    let ghost all = tomb_views(tombs@);
    assert(all.subrange(0, all.len() as int) =~= all);
    while i < tombs.len()
        invariant
            i <= tombs@.len(),
            all == tomb_views(tombs@),
            mount_point_for(all, opt_string(*tomb)) == mount_point_for(
                all.subrange(i as int, all.len() as int),
                opt_string(*tomb),
            ),
        decreases tombs@.len() - i,
    {
        let ghost rest = all.subrange(i as int, all.len() as int);
        assert(rest[0] == tombs@[i as int]@);
        if same_path(&tombs[i].image_path, tomb) {
            return Some(tombs[i].mount_point.clone());
        }
        assert(rest.drop_first() =~= all.subrange(i + 1, all.len() as int));
        i += 1;
    }
    None
}

/// Whether a tomb file is mounted: whether `find_mount_point` finds it.
pub fn is_mounted(tombs: &[TombInfo], tomb: &Option<String>) -> (r: bool)
    ensures
        r == mount_point_for(tomb_views(tombs@), opt_string(*tomb)) is Some,
{
    find_mount_point(tombs, tomb).is_some()
}

/// `dmg`
pub open spec fn dmg_extension() -> Seq<char> {
    seq!['d', 'm', 'g']
}

/// `.dmg`
pub open spec fn dmg_suffix() -> Seq<char> {
    seq!['.', 'd', 'm', 'g']
}

/// Name for what `Path::extension` gives for a path: the part of its file name
/// after the final `.`, if any.
pub uninterp spec fn path_extension(path: Seq<char>) -> Option<Seq<char>>;

/// Calls `Path::extension`: claims that the extension, as text, is the one
/// named by `path_extension`. How the file name is found is left to the name.
#[verifier::external_body]
pub(crate) fn extension_of(path: &str) -> (r: Option<String>)
    ensures
        opt_string(r) == path_extension(path@),
{
    std::path::Path::new(path).extension().map(|e| e.to_string_lossy().into_owned())
}

/// Whether `path` has the extension `dmg`.
pub fn has_dmg_extension(path: &str) -> (r: bool)
    ensures
        r == (path_extension(path@) == Some(dmg_extension())),
{
    match extension_of(path) {
        Some(e) => {
            let ext = chars_of(e.as_str());
            let dmg = vec!['d', 'm', 'g'];
            assert(dmg@ =~= dmg_extension());
            chars_eq(&ext, &dmg)
        },
        None => false,
    }
}

/// `path` with `.dmg` appended unless it already ends with it.
pub open spec fn with_dmg(path: Seq<char>) -> Seq<char> {
    if has_suffix(path, dmg_suffix()) {
        path
    } else {
        path + dmg_suffix()
    }
}

/// Ensures the tomb path ends with `.dmg` (`hdiutil` always creates a `.dmg` file).
pub fn ensure_dmg(path: &str) -> (r: String)
    ensures
        r@ == with_dmg(path@),
        ends_in_dmg(path@) ==> r@ == path@,
        !ends_in_dmg(path@) ==> r@ == path@ + seq!['.', 'd', 'm', 'g'],
{
    proof {
        law_with_dmg_appends(path@);
    }
    let p = chars_of(path);
    let suffix = vec!['.', 'd', 'm', 'g'];
    assert(suffix@ =~= dmg_suffix());
    if ends_with(&p, &suffix) {
        string_of(&p)
    } else {
        string_of(&concat_chars(&p, &suffix))
    }
}

/// Ensuring the `.dmg` ending twice changes nothing more, and the result always
/// ends with `.dmg`.
pub proof fn law_ensure_dmg_idempotent(path: Seq<char>)
    ensures
        with_dmg(with_dmg(path)) == with_dmg(path),
        has_suffix(with_dmg(path), dmg_suffix()),
{
    if !has_suffix(path, dmg_suffix()) {
        let r = path + dmg_suffix();
        assert(r.subrange(r.len() - 4, r.len() as int) =~= dmg_suffix());
    }
}

/// Which mount point to detach to close the tomb at `path`: for a `.dmg` file,
/// where `find_mount_point` finds it mounted (an error when it is not);
/// otherwise `path` itself, taken as a mount point.
pub fn close_tomb(path: &str, tombs: &[TombInfo], tomb: &Option<String>) -> (r: Result<
    String,
    TombError,
>)
    ensures
        path_extension(path@) == Some(dmg_extension()) ==> match mount_point_for(
            tomb_views(tombs@),
            opt_string(*tomb),
        ) {
            Some(m) => (r matches Ok(p) && p@ == m),
            None => r matches Err(TombError::NotMounted),
        },
        path_extension(path@) != Some(dmg_extension()) ==> (r matches Ok(p) && p@ == path@),
{
    if has_dmg_extension(path) {
        match find_mount_point(tombs, tomb) {
            Some(m) => Ok(m),
            None => Err(TombError::NotMounted),
        }
    } else {
        Ok(string_of(&chars_of(path)))
    }
}

/// Options for creating a new tomb.
pub struct CreateOptions {
    /// Path where the tomb .dmg file will be created.
    pub tomb_path: String,
    /// Size of the disk image (e.g. "50m", "100m", "1g").
    pub size: String,
    /// Volume name (label shown when mounted).
    pub volume_name: String,
    /// Filesystem type (default "APFS").
    pub filesystem: String,
}

impl Default for CreateOptions {
    fn default() -> (o: CreateOptions)
        ensures
            o.tomb_path@ == seq!['p', 'a', 's', 's', '-', 't', 'o', 'm', 'b', '.', 'd', 'm', 'g'],
            o.size@ == seq!['5', '0', 'm'],
            o.volume_name@ == seq!['p', 'a', 's', 's', '-', 't', 'o', 'm', 'b'],
            o.filesystem@ == seq!['A', 'P', 'F', 'S'],
    {
        let tomb_path = vec!['p', 'a', 's', 's', '-', 't', 'o', 'm', 'b', '.', 'd', 'm', 'g'];
        let size = vec!['5', '0', 'm'];
        let volume_name = vec!['p', 'a', 's', 's', '-', 't', 'o', 'm', 'b'];
        let filesystem = vec!['A', 'P', 'F', 'S'];
        CreateOptions {
            tomb_path: string_of(&tomb_path),
            size: string_of(&size),
            volume_name: string_of(&volume_name),
            filesystem: string_of(&filesystem),
        }
    }
}


/// A mounted tomb answers to `name`: its volume is named so, or its mount point
/// contains it.
pub open spec fn answers_to(t: TombInfoView, name: Seq<char>) -> bool {
    t.volume_name == name || find(t.mount_point, name) is Some
}

/// The mount point of the first of `tombs` that answers to `name`.
pub open spec fn mount_point_named(tombs: Seq<TombInfoView>, name: Seq<char>) -> Option<Seq<char>>
    decreases tombs.len(),
{
    if tombs.len() == 0 {
        None
    } else if answers_to(tombs[0], name) {
        Some(tombs[0].mount_point)
    } else {
        mount_point_named(tombs.drop_first(), name)
    }
}

/// Which mount point to detach to close the tomb named `name`: that of the
/// first open tomb whose volume is so named or whose mount point contains the
/// name.
pub fn mount_point_by_name(tombs: &[TombInfo], name: &str) -> (r: Option<String>)
    ensures
        opt_string(r) == mount_point_named(tomb_views(tombs@), name@),
{
    let n = chars_of(name);
    let mut i: usize = 0;
    let ghost all = tomb_views(tombs@);
    assert(all.subrange(0, all.len() as int) =~= all);
    while i < tombs.len()
        invariant
            i <= tombs@.len(),
            all == tomb_views(tombs@),
            n@ == name@,
            mount_point_named(all, name@) == mount_point_named(
                all.subrange(i as int, all.len() as int),
                name@,
            ),
        decreases tombs@.len() - i,
    {
        let ghost rest = all.subrange(i as int, all.len() as int);
        assert(rest[0] == tombs@[i as int]@);
        let volume = chars_of(tombs[i].volume_name.as_str());
        let mount = chars_of(tombs[i].mount_point.as_str());
        if chars_eq(&volume, &n) || find_chars(&mount, &n, 0).is_some() {
            return Some(tombs[i].mount_point.clone());
        }
        assert(rest.drop_first() =~= all.subrange(i + 1, all.len() as int));
        i += 1;
    }
    None
}

/// Where a volume named `name` is mounted by default: `/Volumes/{name}`.
pub fn volume_path(name: &str) -> (r: String)
    ensures
        r@ == "/Volumes/"@ + name@,
{
    string_of(&concat_chars(&chars_of("/Volumes/"), &chars_of(name)))
}

/// `path`'s last four characters are `.dmg`.
pub open spec fn ends_in_dmg(path: Seq<char>) -> bool {
    path.len() >= 4 && path.subrange(path.len() - 4, path.len() as int) == seq!['.', 'd', 'm', 'g']
}

/// A path that does not end in `.dmg` gets exactly `.dmg` appended (it stays
/// a prefix of the result, nothing of it is cut); one that does is kept.
pub proof fn law_with_dmg_appends(path: Seq<char>)
    ensures
        !ends_in_dmg(path) ==> with_dmg(path) == path + seq!['.', 'd', 'm', 'g'],
        !ends_in_dmg(path) ==> with_dmg(path).len() == path.len() + 4 && with_dmg(path).subrange(
            0,
            path.len() as int,
        ) == path,
        ends_in_dmg(path) ==> with_dmg(path) == path,
{
    assert(dmg_suffix() =~= seq!['.', 'd', 'm', 'g']);
    if !ends_in_dmg(path) {
        let r = path + seq!['.', 'd', 'm', 'g'];
        assert(r.subrange(0, path.len() as int) =~= path);
    }
}

/// `name` occurs in `s`, at some index.
pub open spec fn occurs_in(s: Seq<char>, name: Seq<char>) -> bool {
    exists|i: int| 0 <= i && i + name.len() <= s.len() && #[trigger] s.subrange(i, i + name.len()) == name
}

/// A tomb record names `name`: its volume name is `name`, or its mount point
/// holds `name` anywhere.
pub open spec fn tomb_named(t: TombInfoView, name: Seq<char>) -> bool {
    t.volume_name == name || occurs_in(t.mount_point, name)
}

/// A tomb answers to a name exactly when its volume name is that name or its
/// mount point contains the name at some position.
pub proof fn law_answers_to(t: TombInfoView, name: Seq<char>)
    ensures
        answers_to(t, name) == tomb_named(t, name),
{
    crate::text::lemma_find_from(t.mount_point, name, 0);
    if occurs_in(t.mount_point, name) {
        let i = choose|i: int|
            0 <= i && i + name.len() <= t.mount_point.len() && #[trigger] t.mount_point.subrange(
                i,
                i + name.len(),
            ) == name;
        assert(crate::text::occurs_at(t.mount_point, name, i));
    }
    if find(t.mount_point, name) is Some {
        let i = find(t.mount_point, name)->0;
        assert(t.mount_point.subrange(i, i + name.len()) == name);
    }
}

/// Closing by name picks the first open tomb that names it (its volume name
/// equals it, or its mount point contains it anywhere), and none when no tomb
/// does.
pub proof fn law_mount_point_named(tombs: Seq<TombInfoView>, name: Seq<char>)
    ensures
        forall|k: int|
            0 <= k < tombs.len() && tomb_named(#[trigger] tombs[k], name) && (forall|j: int|
                0 <= j < k ==> !tomb_named(tombs[j], name)) ==> mount_point_named(tombs, name) == Some(
                tombs[k].mount_point,
            ),
        (forall|k: int| 0 <= k < tombs.len() ==> !tomb_named(#[trigger] tombs[k], name))
            ==> mount_point_named(tombs, name) is None,
    decreases tombs.len(),
{
    if tombs.len() > 0 {
        let rest = tombs.drop_first();
        law_mount_point_named(rest, name);
        law_answers_to(tombs[0], name);
        assert forall|k: int|
            0 <= k < tombs.len() && tomb_named(#[trigger] tombs[k], name) && (forall|j: int|
                0 <= j < k ==> !tomb_named(tombs[j], name)) implies mount_point_named(tombs, name)
            == Some(tombs[k].mount_point) by {
            if k > 0 {
                assert(!tomb_named(tombs[0], name));
                assert(rest[k - 1] == tombs[k]);
                assert forall|j: int| 0 <= j < k - 1 implies !tomb_named(#[trigger] rest[j], name) by {
                    assert(rest[j] == tombs[j + 1]);
                }
            }
        }
        if forall|k: int| 0 <= k < tombs.len() ==> !tomb_named(#[trigger] tombs[k], name) {
            assert(!tomb_named(tombs[0], name));
            assert forall|k: int| 0 <= k < rest.len() implies !tomb_named(#[trigger] rest[k], name) by {
                assert(rest[k] == tombs[k + 1]);
            }
        }
    }
}

/// Finding a tomb file's mount point picks the first open tomb whose image
/// path is the (known) tomb path, and none when no image path is, or when the
/// tomb path is unknown.
pub proof fn law_mount_point_for(tombs: Seq<TombInfoView>, image: Option<Seq<char>>)
    ensures
        forall|k: int|
            0 <= k < tombs.len() && image is Some && (#[trigger] tombs[k]).image_path == image && (
            forall|j: int| 0 <= j < k ==> tombs[j].image_path != image) ==> mount_point_for(
                tombs,
                image,
            ) == Some(tombs[k].mount_point),
        (image is None || forall|k: int| 0 <= k < tombs.len() ==> (#[trigger] tombs[k]).image_path
            != image) ==> mount_point_for(tombs, image) is None,
    decreases tombs.len(),
{
    if tombs.len() > 0 {
        let rest = tombs.drop_first();
        law_mount_point_for(rest, image);
        assert forall|k: int|
            0 <= k < tombs.len() && image is Some && (#[trigger] tombs[k]).image_path == image && (
            forall|j: int| 0 <= j < k ==> tombs[j].image_path != image) implies mount_point_for(
            tombs,
            image,
        ) == Some(tombs[k].mount_point) by {
            if k > 0 {
                assert(tombs[0].image_path != image);
                assert(rest[k - 1] == tombs[k]);
                assert forall|j: int| 0 <= j < k - 1 implies (#[trigger] rest[j]).image_path != image by {
                    assert(rest[j] == tombs[j + 1]);
                }
            }
        }
        if image is Some && forall|k: int| 0 <= k < tombs.len() ==> (#[trigger] tombs[k]).image_path
            != image {
            assert(tombs[0].image_path != image);
            assert forall|k: int| 0 <= k < rest.len() implies (#[trigger] rest[k]).image_path != image by {
                assert(rest[k] == tombs[k + 1]);
            }
        }
    }
}

/// The volume name read from a mount point is its text after the last `/`:
/// the mount point ends with it, it holds no `/`, and what precedes it is a
/// `/` (or nothing: it is the whole mount point). Any other character, a
/// space among them, is kept.
pub proof fn law_last_segment(s: Seq<char>)
    ensures
        last_segment(s).len() <= s.len(),
        s.subrange(s.len() - last_segment(s).len(), s.len() as int) == last_segment(s),
        forall|i: int| 0 <= i < last_segment(s).len() ==> #[trigger] last_segment(s)[i] != '/',
        last_segment(s).len() == s.len() || s[s.len() - last_segment(s).len() - 1] == '/',
    decreases s.len(),
{
    if s.len() > 0 && s.last() != '/' {
        let pre = s.drop_last();
        law_last_segment(pre);
        let v = last_segment(pre);
        assert(last_segment(s) == v.push(s.last()));
        assert(s.subrange(s.len() - v.len() - 1, s.len() as int) =~= pre.subrange(
            pre.len() - v.len(),
            pre.len() as int,
        ).push(s.last()));
        assert forall|i: int| 0 <= i < last_segment(s).len() implies #[trigger] last_segment(s)[i]
            != '/' by {
            if i < v.len() {
                assert(last_segment(s)[i] == v[i]);
            }
        }
        if v.len() < pre.len() {
            assert(s[s.len() - last_segment(s).len() - 1] == pre[pre.len() - v.len() - 1]);
        }
    } else if s.len() > 0 {
        assert(s.subrange(s.len() as int, s.len() as int) =~= last_segment(s));
    } else {
        assert(s.subrange(0, 0) =~= last_segment(s));
    }
}

} // verus!
