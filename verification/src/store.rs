//! The decisions behind the `pass tomb`, `pass open`, `pass close` and
//! `pass timer` commands: paths, checks, command lines and file contents.
//! Running programs and touching files is left to the caller.

use vstd::prelude::*;
use vstd::utf8::{decode_utf8, encode_utf8, encode_utf8_decode_utf8, encode_utf8_valid_utf8, valid_utf8};

use crate::text::{
    all_digits, chars_eq, chars_of, concat_chars, digits_value, has_prefix, parse_u64,
    parse_u64_spec, starts_with, string_of, trim, trim_chars, unsigned_digits,
};
use crate::tomb::{dmg_extension, ensure_dmg, has_dmg_extension, path_extension, with_dmg};
use crate::timer::{parse_timer_seconds, timer_fits, timer_seconds};

verus! {

/// The decimal digits of `n`, without leading zeros (`0` for zero).
pub open spec fn decimal(n: nat) -> Seq<char>
    decreases n,
{
    if n < 10 {
        seq![((n + 48) as u32) as char]
    } else {
        decimal(n / 10).push((((n % 10) + 48) as u32) as char)
    }
}

/// Decimal digits carry their values.
pub proof fn lemma_decimal_digits(n: nat)
    ensures
        decimal(n).len() > 0,
        all_digits(decimal(n)),
        digits_value(decimal(n)) == n,
        decimal(n)[0] != '+',
    decreases n,
{
    if n < 10 {
        let d = decimal(n);
        assert(d.drop_last() =~= Seq::<char>::empty());
        assert(d.last() as int == n + 48);
        assert(digits_value(d.drop_last()) == 0);
        assert(digits_value(d) == n);
    } else {
        lemma_decimal_digits(n / 10);
        let d = decimal(n);
        let c = (((n % 10) + 48) as u32) as char;
        assert(d.drop_last() =~= decimal(n / 10));
        assert(d.last() == c);
        assert(c as int == (n % 10) + 48);
        assert(crate::text::digit_value(c) == n % 10);
        assert(n == (n / 10) * 10 + n % 10);
        assert(digits_value(d) == digits_value(decimal(n / 10)) * 10 + crate::text::digit_value(c));
        assert(d[0] == decimal(n / 10)[0]);
        assert forall|i: int| 0 <= i < d.len() implies crate::text::is_digit(#[trigger] d[i]) by {
            if i < d.len() - 1 {
                assert(d[i] == decimal(n / 10)[i]);
            }
        }
    }
}

/// Writing a number in decimal and reading it back, as `u64::from_str` reads,
/// gives the number.
pub proof fn law_decimal_parses_back(n: u64)
    ensures
        parse_u64_spec(decimal(n as nat)) == Some(n),
{
    lemma_decimal_digits(n as nat);
    assert(unsigned_digits(decimal(n as nat)) == decimal(n as nat));
}

/// Writes `n` in decimal.
pub fn decimal_text(n: u64) -> (r: Vec<char>)
    ensures
        r@ == decimal(n as nat),
    decreases n,
{
    if n < 10 {
        let c = char_of_digit(n);
        vec![c]
    } else {
        let mut r = decimal_text(n / 10);
        r.push(char_of_digit(n % 10));
        r
    }
}

fn char_of_digit(d: u64) -> (c: char)
    requires
        d < 10,
    ensures
        c == ((d + 48) as u32) as char,
{
    let digits = vec!['0', '1', '2', '3', '4', '5', '6', '7', '8', '9'];
    let c = digits[d as usize];
    c
}


/// What can go wrong in the store commands.
#[derive(Debug)]
pub enum StoreError {
    /// No GPG ID was given to create a tomb.
    MissingGpgIds,
    /// The tomb key already exists; it is not overwritten.
    KeyExists,
    /// The tomb already exists; it is not overwritten.
    TombExists,
    /// The tomb would be smaller than the minimum size.
    TooSmall,
    /// The decrypted tomb key is not UTF-8 text.
    KeyNotUtf8,
    /// An empty password was given.
    EmptyPassword,
    /// The new password and its confirmation differ.
    PasswordsDiffer,
    /// The timer text gives no duration.
    InvalidTimer,
}

/// `path` joined onto `base` as `PathBuf::push` does on Unix: an absolute
/// `path` replaces `base`; otherwise a `/` separates them unless `base` is
/// empty or already ends with one.
pub open spec fn path_join(base: Seq<char>, path: Seq<char>) -> Seq<char> {
    if path.len() > 0 && path[0] == '/' {
        path
    } else if base.len() == 0 || base.last() == '/' {
        base + path
    } else {
        base + seq!['/'] + path
    }
}

/// Joins `path` onto `base`.
pub fn join_path(base: &str, path: &str) -> (r: String)
    ensures
        r@ == path_join(base@, path@),
{
    let b = chars_of(base);
    let p = chars_of(path);
    if p.len() > 0 && p[0] == '/' {
        string_of(&p)
    } else if b.len() == 0 || b[b.len() - 1] == '/' {
        string_of(&concat_chars(&b, &p))
    } else {
        let sep = vec!['/'];
        string_of(&concat_chars(&concat_chars(&b, &sep), &p))
    }
}

/// A path from the environment, or else `name` under the home directory.
pub open spec fn env_or_home(env: Option<Seq<char>>, home: Seq<char>, name: Seq<char>) -> Seq<char> {
    match env {
        Some(p) => p,
        None => path_join(home, name),
    }
}

fn env_or_home_path(env: Option<&str>, home: &str, name: &str) -> (r: String)
    ensures
        r@ == env_or_home(
            match env {
                Some(p) => Some(p@),
                None => None,
            },
            home@,
            name@,
        ),
{
    match env {
        Some(p) => string_of(&chars_of(p)),
        None => join_path(home, name),
    }
}

/// An optional text.
pub open spec fn opt_str(o: Option<&str>) -> Option<Seq<char>> {
    match o {
        Some(s) => Some(s@),
        None => None,
    }
}

/// The password store directory: `PASSWORD_STORE_DIR` (given as `env`), or
/// `~/.password-store`.
pub fn store_dir(env: Option<&str>, home: &str) -> (r: String)
    ensures
        r@ == env_or_home(opt_str(env), home@, ".password-store"@),
{
    env_or_home_path(env, home, ".password-store")
}

/// The tomb file: `PASSWORD_STORE_TOMB_FILE` (given as `env`), or
/// `~/.password.tomb`.
pub fn tomb_file(env: Option<&str>, home: &str) -> (r: String)
    ensures
        r@ == env_or_home(opt_str(env), home@, ".password.tomb"@),
{
    env_or_home_path(env, home, ".password.tomb")
}

/// The tomb key file: `PASSWORD_STORE_TOMB_KEY` (given as `env`), or
/// `~/.password.key.tomb`.
pub fn tomb_key(env: Option<&str>, home: &str) -> (r: String)
    ensures
        r@ == env_or_home(opt_str(env), home@, ".password.key.tomb"@),
{
    env_or_home_path(env, home, ".password.key.tomb")
}

/// The persistent timer file, kept outside the disk image:
/// `PASSWORD_STORE_TOMB_TIMER` (given as `env`), or `~/.password.tomb.timer`.
pub fn tomb_timer_path(env: Option<&str>, home: &str) -> (r: String)
    ensures
        r@ == env_or_home(opt_str(env), home@, ".password.tomb.timer"@),
{
    env_or_home_path(env, home, ".password.tomb.timer")
}

/// What `usize::from_str` makes of `s`.
pub open spec fn parse_usize_spec(s: Seq<char>) -> Option<usize> {
    let d = unsigned_digits(s);
    if d.len() > 0 && all_digits(d) && digits_value(d) <= usize::MAX {
        Some(digits_value(d) as usize)
    } else {
        None
    }
}

/// Parses `s` as `usize::from_str` does.
pub fn parse_usize(s: &str) -> (r: Option<usize>)
    ensures
        r == parse_usize_spec(s@),
{
    let c = chars_of(s);
    assert(usize::MAX <= u64::MAX);
    let max: u64 = usize::MAX as u64;
    assert(max == usize::MAX);
    match parse_u64(&c) {
        Some(v) => if v <= max {
            proof {
                crate::text::lemma_digits_value_nonneg(unsigned_digits(s@));
            }
            Some(v as usize)
        } else {
            proof {
                crate::text::lemma_digits_value_nonneg(unsigned_digits(s@));
            }
            None
        },
        None => None,
    }
}

/// The default tomb size in MB when none is asked for.
pub const DEFAULT_SIZE_MB: usize = 30;

/// The smallest tomb, in MB.
pub const MIN_SIZE_MB: usize = 10;

/// A size in MB, or the fallback when it is absent or no number.
pub open spec fn size_or(size: Option<Seq<char>>, fallback: usize) -> usize {
    match size {
        Some(s) => match parse_usize_spec(s) {
            Some(n) => n,
            None => fallback,
        },
        None => fallback,
    }
}

/// The tomb size in MB: `PASSWORD_STORE_TOMB_SIZE` (given as `env`) if it is
/// a number, else 30.
pub fn tomb_size_mb(env: Option<&str>) -> (r: usize)
    ensures
        r == size_or(opt_str(env), DEFAULT_SIZE_MB),
{
    match env {
        Some(s) => match parse_usize(s) {
            Some(n) => n,
            None => DEFAULT_SIZE_MB,
        },
        None => DEFAULT_SIZE_MB,
    }
}

/// The size of a new tomb: the one asked for if it is a number, else the
/// default.
pub fn tomb_size(size: Option<&str>, default_mb: usize) -> (r: usize)
    ensures
        r == size_or(opt_str(size), default_mb),
{
    match size {
        Some(s) => match parse_usize(s) {
            Some(n) => n,
            None => default_mb,
        },
        None => default_mb,
    }
}

/// The tomb to work on: the path asked for or else the default, ending in
/// `.dmg`.
pub fn resolve_tomb_path(asked: Option<&str>, default: &str) -> (r: String)
    ensures
        r@ == with_dmg(
            match asked {
                Some(p) => p@,
                None => default@,
            },
        ),
{
    match asked {
        Some(p) => ensure_dmg(p),
        None => ensure_dmg(default),
    }
}

/// The key to work on: the path asked for or else the default.
pub fn resolve_key_path(asked: Option<&str>, default: &str) -> (r: String)
    ensures
        r@ == (match asked {
            Some(p) => p@,
            None => default@,
        }),
{
    match asked {
        Some(p) => string_of(&chars_of(p)),
        None => string_of(&chars_of(default)),
    }
}

/// The checks before a new tomb is forged, in order: unless forced, the key
/// must not exist and the tomb must not exist (forcing overwrites them); the
/// size must be at least 10 MB.
pub fn check_new_tomb(force: bool, key_exists: bool, tomb_exists: bool, size_mb: usize) -> (r: Result<
    (),
    StoreError,
>)
    ensures
        !force && key_exists ==> r matches Err(StoreError::KeyExists),
        !force && !key_exists && tomb_exists ==> r matches Err(StoreError::TombExists),
        (force || (!key_exists && !tomb_exists)) && size_mb < MIN_SIZE_MB ==> r matches Err(
            StoreError::TooSmall,
        ),
        (force || (!key_exists && !tomb_exists)) && size_mb >= MIN_SIZE_MB ==> r is Ok,
{
    if !force && key_exists {
        Err(StoreError::KeyExists)
    } else if !force && tomb_exists {
        Err(StoreError::TombExists)
    } else if size_mb < MIN_SIZE_MB {
        Err(StoreError::TooSmall)
    } else {
        Ok(())
    }
}

/// A new tomb needs at least one GPG ID.
pub fn check_gpg_ids_given(count: usize) -> (r: Result<(), StoreError>)
    ensures
        count == 0 <==> r matches Err(StoreError::MissingGpgIds),
        count > 0 <==> r is Ok,
{
    if count == 0 {
        Err(StoreError::MissingGpgIds)
    } else {
        Ok(())
    }
}

/// A size of `mb` megabytes as `hdiutil` takes it: `{mb}m`.
pub open spec fn size_text(mb: nat) -> Seq<char> {
    decimal(mb) + seq!['m']
}

/// The options for a new tomb at `tomb_path` of `size_mb` MB: volume name
/// `pass-tomb`, file system APFS.
pub fn new_tomb_options(tomb_path: &str, size_mb: usize) -> (o: crate::tomb::CreateOptions)
    ensures
        o.tomb_path@ == tomb_path@,
        o.size@ == size_text(size_mb as nat),
        o.volume_name@ == "pass-tomb"@,
        o.filesystem@ == "APFS"@,
{
    let digits = decimal_text(size_mb as u64);
    let m = vec!['m'];
    crate::tomb::CreateOptions {
        tomb_path: string_of(&chars_of(tomb_path)),
        size: string_of(&concat_chars(&digits, &m)),
        volume_name: string_of(&chars_of("pass-tomb")),
        filesystem: string_of(&chars_of("APFS")),
    }
}

/// The texts of a sequence of strings.
pub open spec fn texts(v: Seq<String>) -> Seq<Seq<char>> {
    v.map_values(|s: String| s@)
}

fn push_text(v: &mut Vec<String>, s: &str)
    ensures
        texts(final(v)@) == texts(old(v)@).push(s@),
{
    v.push(string_of(&chars_of(s)));
    assert(texts(v@) =~= texts(old(v)@).push(s@));
}

/// The arguments of `hdiutil` that create the encrypted disk image, reading
/// its password from standard input.
pub open spec fn create_args(o: crate::tomb::CreateOptions) -> Seq<Seq<char>> {
    seq![
        "create"@,
        "-size"@,
        o.size@,
        "-fs"@,
        o.filesystem@,
        "-volname"@,
        o.volume_name@,
        "-encryption"@,
        "AES-256"@,
        "-stdinpass"@,
        o.tomb_path@,
    ]
}

/// The `hdiutil` command line that creates the tomb.
pub fn hdiutil_create_args(o: &crate::tomb::CreateOptions) -> (r: Vec<String>)
    ensures
        texts(r@) == create_args(*o),
{
    let mut r: Vec<String> = Vec::new();
    push_text(&mut r, "create");
    push_text(&mut r, "-size");
    push_text(&mut r, o.size.as_str());
    push_text(&mut r, "-fs");
    push_text(&mut r, o.filesystem.as_str());
    push_text(&mut r, "-volname");
    push_text(&mut r, o.volume_name.as_str());
    push_text(&mut r, "-encryption");
    push_text(&mut r, "AES-256");
    push_text(&mut r, "-stdinpass");
    push_text(&mut r, o.tomb_path.as_str());
    assert(texts(r@) =~= create_args(*o));
    r
}

/// The `gpg` arguments that encrypt standard input to `recipients`, armored,
/// into `output`.
pub open spec fn encrypt_args(recipients: Seq<Seq<char>>, output: Seq<char>) -> Seq<Seq<char>>
    decreases recipients.len(),
{
    if recipients.len() == 0 {
        seq![
            "--batch"@,
            "--no-tty"@,
            "--yes"@,
            "--trust-model"@,
            "always"@,
            "--encrypt"@,
            "--armor"@,
            "--output"@,
            output,
        ]
    } else {
        encrypt_args(recipients.drop_last(), output) + seq!["--recipient"@, recipients.last()]
    }
}

/// The `gpg` command line that encrypts data for `recipients` into `output`.
pub fn gpg_encrypt_args(recipients: &[String], output: &str) -> (r: Vec<String>)
    ensures
        texts(r@) == encrypt_args(texts(recipients@), output@),
{
    let mut r: Vec<String> = Vec::new();
    push_text(&mut r, "--batch");
    push_text(&mut r, "--no-tty");
    push_text(&mut r, "--yes");
    push_text(&mut r, "--trust-model");
    push_text(&mut r, "always");
    push_text(&mut r, "--encrypt");
    push_text(&mut r, "--armor");
    push_text(&mut r, "--output");
    push_text(&mut r, output);
    let ghost all = texts(recipients@);
    assert(texts(r@) =~= encrypt_args(all.subrange(0, 0), output@));
    let mut i: usize = 0;
    while i < recipients.len()
        invariant
            i <= recipients@.len(),
            all == texts(recipients@),
            texts(r@) == encrypt_args(all.subrange(0, i as int), output@),
        decreases recipients@.len() - i,
    {
        push_text(&mut r, "--recipient");
        push_text(&mut r, recipients[i].as_str());
        assert(all.subrange(0, i + 1).drop_last() =~= all.subrange(0, i as int));
        i += 1;
    }
    assert(all.subrange(0, i as int) =~= all);
    r
}

/// Texts joined with line feeds between them.
pub open spec fn join_lines(v: Seq<Seq<char>>) -> Seq<char>
    decreases v.len(),
{
    if v.len() == 0 {
        seq![]
    } else if v.len() == 1 {
        v[0]
    } else {
        join_lines(v.drop_last()) + seq!['\n'] + v.last()
    }
}

/// The content of the store's `.gpg-id` file: one GPG ID per line.
pub fn gpg_id_file(gpg_ids: &[String]) -> (r: String)
    ensures
        r@ == join_lines(texts(gpg_ids@)),
{
    let ghost all = texts(gpg_ids@);
    let mut acc: Vec<char> = Vec::new();
    let nl = vec!['\n'];
    let mut i: usize = 0;
    while i < gpg_ids.len()
        invariant
            i <= gpg_ids@.len(),
            all == texts(gpg_ids@),
            nl@ == seq!['\n'],
            acc@ == join_lines(all.subrange(0, i as int)),
        decreases gpg_ids@.len() - i,
    {
        let id = chars_of(gpg_ids[i].as_str());
        assert(all.subrange(0, i + 1).drop_last() =~= all.subrange(0, i as int));
        if i == 0 {
            acc = id;
            assert(all.subrange(0, 1)[0] == all[0]);
        } else {
            acc = concat_chars(&concat_chars(&acc, &nl), &id);
        }
        i += 1;
    }
    assert(all.subrange(0, i as int) =~= all);
    string_of(&acc)
}

/// A text that `lines` gives back whole: not empty, without line feeds, and
/// not ending in a carriage return.
pub open spec fn single_line(t: Seq<char>) -> bool {
    &&& t.len() > 0
    &&& forall|i: int| 0 <= i < t.len() ==> #[trigger] t[i] != '\n'
    &&& t.last() != '\r'
}

/// Joining at least two texts puts the first, a line feed, then the rest.
proof fn lemma_join_lines_front(v: Seq<Seq<char>>)
    requires
        v.len() >= 2,
    ensures
        join_lines(v) == v[0] + seq!['\n'] + join_lines(v.drop_first()),
    decreases v.len(),
{
    if v.len() == 2 {
        assert(v.drop_last() =~= seq![v[0]]);
        assert(v.drop_first() =~= seq![v[1]]);
        assert(join_lines(v.drop_last()) == v[0]);
        assert(join_lines(v.drop_first()) == v[1]);
    } else {
        let w = v.drop_last();
        lemma_join_lines_front(w);
        assert(w.drop_first() =~= v.drop_first().drop_last());
        assert(v.drop_first().last() == v.last());
        assert(w[0] == v[0]);
        assert(join_lines(v.drop_first()) == join_lines(w.drop_first()) + seq!['\n'] + v.last());
        assert(join_lines(v) =~= v[0] + seq!['\n'] + join_lines(v.drop_first()));
    }
}

/// The `.gpg-id` file reads back, line by line, as the GPG IDs it was written
/// from, when each ID is a single line.
pub proof fn law_gpg_id_file_lines(ids: Seq<Seq<char>>)
    requires
        forall|i: int| 0 <= i < ids.len() ==> single_line(#[trigger] ids[i]),
    ensures
        crate::text::lines(join_lines(ids)) == ids,
    decreases ids.len(),
{
    let nl = crate::text::newline();
    if ids.len() == 0 {
    } else {
        let a = ids[0];
        assert(single_line(a));
        let rest = ids.drop_first();
        assert forall|i: int| 0 <= i < rest.len() implies single_line(#[trigger] rest[i]) by {
            assert(rest[i] == ids[i + 1]);
        }
        law_gpg_id_file_lines(rest);
        let s = if ids.len() == 1 {
            a
        } else {
            a + seq!['\n'] + join_lines(rest)
        };
        if ids.len() >= 2 {
            lemma_join_lines_front(ids);
        }
        assert(join_lines(ids) == s);
        crate::text::lemma_find_from(s, nl, 0);
        assert forall|j: int| 0 <= j < a.len() implies !crate::text::occurs_at(s, nl, j) by {
            assert(s[j] == a[j]);
            assert(s.subrange(j, j + 1)[0] == s[j]);
        }
        if ids.len() == 1 {
            assert(crate::text::find_from(s, nl, 0) is None);
            assert(s.subrange(0, s.len() as int) =~= s);
            assert(rest =~= Seq::<Seq<char>>::empty());
            assert(ids =~= seq![a]);
        } else {
            assert(crate::text::occurs_at(s, nl, a.len() as int)) by {
                assert(s.subrange(a.len() as int, a.len() + 1int) =~= nl);
            }
            assert(crate::text::find_from(s, nl, 0) == Some(a.len() as int));
            assert(s.subrange(0, a.len() as int) =~= a);
            assert(crate::text::strip_cr(a) == a);
            crate::text::lemma_lines_from_shift(s, a.len() + 1int, 0);
            assert(s.subrange(a.len() + 1int, s.len() as int) =~= join_lines(rest));
            assert(ids =~= seq![a] + rest);
        }
    }
}

/// The shell command that detaches `mount` after `seconds`, surviving the
/// process that starts it.
pub open spec fn auto_close_command(seconds: nat, mount: Seq<char>) -> Seq<char> {
    "nohup sh -c 'sleep "@ + decimal(seconds) + " && /usr/bin/hdiutil detach "@ + mount
        + "' >/dev/null 2>&1 &"@
}

/// The shell command for the auto-close timer.
pub fn auto_close_command_line(seconds: u64, mount: &str) -> (r: String)
    ensures
        r@ == auto_close_command(seconds as nat, mount@),
{
    let a = chars_of("nohup sh -c 'sleep ");
    let b = decimal_text(seconds);
    let c = chars_of(" && /usr/bin/hdiutil detach ");
    let d = chars_of(mount);
    let e = chars_of("' >/dev/null 2>&1 &");
    let r = concat_chars(&concat_chars(&concat_chars(&concat_chars(&a, &b), &c), &d), &e);
    string_of(&r)
}

/// The owner argument of `chown`: `uid:gid`.
pub fn ownership_arg(uid: u32, gid: u32) -> (r: String)
    ensures
        r@ == decimal(uid as nat) + seq![':'] + decimal(gid as nat),
{
    let colon = vec![':'];
    string_of(&concat_chars(&concat_chars(&decimal_text(uid as u64), &colon), &decimal_text(gid as u64)))
}

/// Calls `String::from_utf8`: claims that it succeeds exactly on valid UTF-8,
/// with the text that the bytes encode.
#[verifier::external_body]
fn utf8_text(bytes: &[u8]) -> (r: Option<String>)
    ensures
        r is Some <==> valid_utf8(bytes@),
        r matches Some(s) ==> s@ == decode_utf8(bytes@),
{
    String::from_utf8(bytes.to_vec()).ok()
}

/// The tomb password that a decrypted key file holds: its text, trimmed. It is
/// an error when the key is not UTF-8.
pub fn tomb_password_from_key(decrypted: &[u8]) -> (r: Result<String, StoreError>)
    ensures
        !valid_utf8(decrypted@) <==> r matches Err(StoreError::KeyNotUtf8),
        valid_utf8(decrypted@) ==> (r matches Ok(p) && p@ == trim(decode_utf8(decrypted@))),
{
    match utf8_text(decrypted) {
        Some(s) => {
            let c = chars_of(s.as_str());
            Ok(string_of(&trim_chars(&c)))
        },
        None => Err(StoreError::KeyNotUtf8),
    }
}

/// A tomb password without white space, stored in the key file as UTF-8, is
/// what opening reads back from the decrypted key: the bytes are valid UTF-8
/// and, trimmed, decode to the password.
pub proof fn law_tomb_password_reads_back(password: Seq<char>)
    requires
        forall|i: int| 0 <= i < password.len() ==> !crate::text::is_white_space(#[trigger] password[i]),
    ensures
        valid_utf8(encode_utf8(password)),
        trim(decode_utf8(encode_utf8(password))) == password,
{
    encode_utf8_valid_utf8(password);
    encode_utf8_decode_utf8(password);
    if password.len() > 0 {
        assert(!crate::text::is_white_space(password[0]));
        assert(crate::text::trim_start(password) == password);
        assert(!crate::text::is_white_space(password.last()));
        assert(crate::text::trim_end(password) == password);
    } else {
        assert(crate::text::trim_start(password) == password);
        assert(crate::text::trim_end(password) == password);
    }
}

/// A password typed at the prompt must not be empty.
pub fn check_prompted_password(password: &str) -> (r: Result<(), StoreError>)
    ensures
        password@.len() == 0 <==> r matches Err(StoreError::EmptyPassword),
        password@.len() > 0 <==> r is Ok,
{
    if password.is_empty() {
        Err(StoreError::EmptyPassword)
    } else {
        Ok(())
    }
}

/// A new password and its confirmation must agree, and must not be empty.
pub fn check_new_password(new_pass: &str, confirm: &str) -> (r: Result<(), StoreError>)
    ensures
        new_pass@ != confirm@ ==> r matches Err(StoreError::PasswordsDiffer),
        new_pass@ == confirm@ && new_pass@.len() == 0 ==> r matches Err(
            StoreError::EmptyPassword,
        ),
        r is Ok <==> new_pass@ == confirm@ && new_pass@.len() > 0,
{
    let a = chars_of(new_pass);
    let b = chars_of(confirm);
    if !chars_eq(&a, &b) {
        Err(StoreError::PasswordsDiffer)
    } else if a.len() == 0 {
        Err(StoreError::EmptyPassword)
    } else {
        Ok(())
    }
}


/// The auto-close timer that opening a tomb sets up: the text to announce and
/// the seconds to wait, if any.
pub struct TimerPlan {
    /// The timer as it will be announced.
    pub announce: Option<String>,
    /// The seconds after which the tomb is closed.
    pub seconds: Option<u64>,
}

/// A duration in seconds that fits in 64 bits.
pub open spec fn seconds_of(timer: Seq<char>) -> Option<u64> {
    match timer_seconds(timer) {
        Some(v) => Some(v as u64),
        None => None,
    }
}

/// The timer to open with: a one-shot timer if one was asked for, else the
/// persistent timer from the timer file (trimmed; an empty file sets none).
pub open spec fn opening_timer(one_shot: Option<Seq<char>>, persistent: Option<Seq<char>>) -> Option<
    Seq<char>,
> {
    match one_shot {
        Some(t) => Some(t),
        None => match persistent {
            Some(p) => if trim(p).len() > 0 {
                Some(trim(p))
            } else {
                None
            },
            None => None,
        },
    }
}

/// Plans the auto-close timer of `pass open`. `one_shot` is the timer given on
/// the command line; `persistent` the content of the timer file, if it could
/// be read. The duration, where there is one, must fit in 64 bits.
pub fn open_timer_plan(one_shot: Option<&str>, persistent: Option<&str>) -> (r: TimerPlan)
    requires
        opening_timer(opt_str(one_shot), opt_str(persistent)) matches Some(t) ==> timer_fits(t),
    ensures
        opt_string_text(r.announce) == opening_timer(opt_str(one_shot), opt_str(persistent)),
        r.seconds == (match opening_timer(opt_str(one_shot), opt_str(persistent)) {
            Some(t) => seconds_of(t),
            None => None,
        }),
{
    match one_shot {
        Some(t) => TimerPlan {
            announce: Some(string_of(&chars_of(t))),
            seconds: parse_timer_seconds(t),
        },
        None => match persistent {
            Some(p) => {
                let c = chars_of(p);
                let trimmed = trim_chars(&c);
                if trimmed.len() > 0 {
                    let t = string_of(&trimmed);
                    let seconds = parse_timer_seconds(t.as_str());
                    TimerPlan { announce: Some(t), seconds }
                } else {
                    TimerPlan { announce: None, seconds: None }
                }
            },
            None => TimerPlan { announce: None, seconds: None },
        },
    }
}

/// A timer that `pass timer` stores is the one `pass open` then uses: opening
/// with the stored text (white space around it aside) sets up the same
/// duration that storing it computed.
pub proof fn law_stored_timer_reopens(stored: Seq<char>)
    requires
        trim(stored).len() > 0,
    ensures
        opening_timer(None, Some(stored)) == Some(trim(stored)),
        seconds_of(trim(stored)) == seconds_of(stored),
{
    crate::text::lemma_trim_idempotent(stored);
}

/// The text of an optional string.
pub open spec fn opt_string_text(o: Option<String>) -> Option<Seq<char>> {
    match o {
        Some(s) => Some(s@),
        None => None,
    }
}

/// The timer shown by `pass timer`: the trimmed content of the timer file,
/// unless that is empty.
pub fn shown_timer(content: &str) -> (r: Option<String>)
    ensures
        opt_string_text(r) == (if trim(content@).len() > 0 {
            Some(trim(content@))
        } else {
            None
        }),
{
    let c = chars_of(content);
    let t = trim_chars(&c);
    if t.len() > 0 {
        Some(string_of(&t))
    } else {
        None
    }
}

/// The seconds of a timer that `pass timer` is to set; an error when the text
/// gives no duration. The duration must fit in 64 bits.
pub fn timer_to_set(value: &str) -> (r: Result<u64, StoreError>)
    requires
        timer_fits(value@),
    ensures
        match seconds_of(value@) {
            Some(v) => r == Ok::<u64, StoreError>(v),
            None => r matches Err(StoreError::InvalidTimer),
        },
{
    match parse_timer_seconds(value) {
        Some(v) => Ok(v),
        None => Err(StoreError::InvalidTimer),
    }
}

/// The tomb that `pass close` closes: the path given when it names a `.dmg`
/// file, else the default tomb; in both cases ending in `.dmg`.
pub fn close_tomb_path(store_path: Option<&str>, default_tomb: &str) -> (r: String)
    ensures
        r@ == with_dmg(
            match store_path {
                Some(p) => if path_extension(p@) == Some(dmg_extension()) {
                    p@
                } else {
                    default_tomb@
                },
                None => default_tomb@,
            },
        ),
{
    match store_path {
        Some(p) => if has_dmg_extension(p) {
            ensure_dmg(p)
        } else {
            ensure_dmg(default_tomb)
        },
        None => ensure_dmg(default_tomb),
    }
}

/// The password store that `pass close` is asked to close: the path given
/// when it does not name a `.dmg` file (a store directory, detached as the
/// tomb's mount point).
pub fn close_store_path(store_path: Option<&str>) -> (r: Option<String>)
    ensures
        match store_path {
            Some(p) => if path_extension(p@) == Some(dmg_extension()) {
                r is None
            } else {
                r matches Some(d) && d@ == p@
            },
            None => r is None,
        },
{
    match store_path {
        Some(p) => if has_dmg_extension(p) {
            None
        } else {
            Some(string_of(&chars_of(p)))
        },
        None => None,
    }
}

/// How far `pass close` has got.
pub enum CloseState {
    /// Nothing tried yet.
    Start {
        /// Whether a store directory to close was given.
        store_given: bool,
        /// Whether the tomb file exists.
        tomb_exists: bool,
    },
    /// Detaching the store directory that was given was tried.
    GivenStoreTried {
        /// Whether that closed the tomb.
        closed: bool,
    },
    /// Detaching the tomb's mount point was tried (when one was found).
    MountTried {
        /// Whether that closed the tomb.
        closed: bool,
        /// Whether the store directory exists.
        store_exists: bool,
    },
    /// Detaching the store directory was tried.
    StoreTried {
        /// Whether that closed the tomb.
        closed: bool,
    },
}

/// What `pass close` does next.
#[derive(Debug, PartialEq, Eq, Structural)]
pub enum CloseAction {
    /// Close the tomb by its default volume name, and stop.
    CloseByName,
    /// Detach the store directory that was given.
    DetachGivenStore,
    /// Find where the tomb file is mounted and detach that.
    DetachMountPoint,
    /// Detach the store directory.
    DetachStore,
    /// The tomb is closed.
    Done,
}

/// The next step of `pass close`. Given a store directory, detach it. Else,
/// with no tomb file, close by the default volume name; with one, detach its
/// mount point, then the store directory. Close by name only when nothing
/// detached worked.
pub fn close_step(state: &CloseState) -> (a: CloseAction)
    ensures
        match *state {
            CloseState::Start { store_given, tomb_exists } => a == if store_given {
                CloseAction::DetachGivenStore
            } else if tomb_exists {
                CloseAction::DetachMountPoint
            } else {
                CloseAction::CloseByName
            },
            CloseState::GivenStoreTried { closed } => a == if closed {
                CloseAction::Done
            } else {
                CloseAction::CloseByName
            },
            CloseState::MountTried { closed, store_exists } => a == if closed {
                CloseAction::Done
            } else if store_exists {
                CloseAction::DetachStore
            } else {
                CloseAction::CloseByName
            },
            CloseState::StoreTried { closed } => a == if closed {
                CloseAction::Done
            } else {
                CloseAction::CloseByName
            },
        },
{
    match state {
        CloseState::Start { store_given, tomb_exists } => if *store_given {
            CloseAction::DetachGivenStore
        } else if *tomb_exists {
            CloseAction::DetachMountPoint
        } else {
            CloseAction::CloseByName
        },
        CloseState::GivenStoreTried { closed } => if *closed {
            CloseAction::Done
        } else {
            CloseAction::CloseByName
        },
        CloseState::MountTried { closed, store_exists } => if *closed {
            CloseAction::Done
        } else if *store_exists {
            CloseAction::DetachStore
        } else {
            CloseAction::CloseByName
        },
        CloseState::StoreTried { closed } => if *closed {
            CloseAction::Done
        } else {
            CloseAction::CloseByName
        },
    }
}

/// Whether a file is an armored GPG message: it starts with
/// `-----BEGIN PGP MESSAGE-----`.
pub fn is_armored_pgp_message(content: &str) -> (r: bool)
    ensures
        r == has_prefix(content@, "-----BEGIN PGP MESSAGE-----"@),
{
    let c = chars_of(content);
    let p = chars_of("-----BEGIN PGP MESSAGE-----");
    starts_with(&c, &p)
}

/// Where the store is mounted: the store directory, or the subfolder asked
/// for within it.
pub fn mount_target(store: &str, subfolder: &str) -> (r: String)
    ensures
        r@ == if subfolder@.len() == 0 {
            store@
        } else {
            path_join(store@, subfolder@)
        },
{
    if subfolder.is_empty() {
        string_of(&chars_of(store))
    } else {
        join_path(store, subfolder)
    }
}

/// The commands that get an extension wrapper.
pub open spec fn extension_command_names() -> Seq<Seq<char>> {
    seq!["tomb"@, "open"@, "close"@, "timer"@]
}

/// The commands that get an extension wrapper: `tomb`, `open`, `close`,
/// `timer`.
pub fn extension_commands() -> (r: Vec<String>)
    ensures
        texts(r@) == extension_command_names(),
{
    let mut r: Vec<String> = Vec::new();
    push_text(&mut r, "tomb");
    push_text(&mut r, "open");
    push_text(&mut r, "close");
    push_text(&mut r, "timer");
    assert(texts(r@) =~= extension_command_names());
    r
}

/// The file name of the wrapper for `cmd`: `{cmd}.bash`.
pub fn wrapper_file_name(cmd: &str) -> (r: String)
    ensures
        r@ == cmd@ + ".bash"@,
{
    string_of(&concat_chars(&chars_of(cmd), &chars_of(".bash")))
}

/// The program that the wrapper for `cmd` runs: `pass-{cmd}`.
pub fn wrapper_binary_name(cmd: &str) -> (r: String)
    ensures
        r@ == "pass-"@ + cmd@,
{
    string_of(&concat_chars(&chars_of("pass-"), &chars_of(cmd)))
}

/// A bash script that runs `bin_path` with its arguments.
pub fn wrapper_script(bin_path: &str) -> (r: String)
    ensures
        r@ == "#!/bin/bash\nexec "@ + bin_path@ + " \"$@\"\n"@,
{
    let a = chars_of("#!/bin/bash\nexec ");
    let b = chars_of(bin_path);
    let c = chars_of(" \"$@\"\n");
    string_of(&concat_chars(&concat_chars(&a, &b), &c))
}

/// Whether the wrappers inside the store are (re)installed: only when the
/// store exists, and, unless forced, only when the extension directory does
/// not exist yet.
pub fn install_into_store(store_exists: bool, extensions_exist: bool, force: bool) -> (r: bool)
    ensures
        r == (store_exists && (!extensions_exist || force)),
{
    store_exists && (!extensions_exist || force)
}

/// Whether one wrapper is written: unless forced, only when it is missing.
pub fn write_wrapper(wrapper_exists: bool, force: bool) -> (r: bool)
    ensures
        r == (!wrapper_exists || force),
{
    !wrapper_exists || force
}

} // verus!
