use pass_tomb::store::{
    auto_close_command_line, check_gpg_ids_given, check_new_password, check_new_tomb,
    check_prompted_password, close_step, close_store_path, close_tomb_path, decimal_text, extension_commands,
    gpg_encrypt_args, gpg_id_file, hdiutil_create_args, install_into_store,
    is_armored_pgp_message, join_path, mount_target, new_tomb_options, open_timer_plan,
    ownership_arg, parse_usize, resolve_key_path, resolve_tomb_path, shown_timer, store_dir,
    timer_to_set, tomb_file, tomb_key, tomb_password_from_key, tomb_size, tomb_size_mb,
    tomb_timer_path, wrapper_binary_name, wrapper_file_name, wrapper_script, write_wrapper,
    CloseAction, CloseState, StoreError,
};

fn strings(v: &[&str]) -> Vec<String> {
    v.iter().map(|s| s.to_string()).collect()
}

#[test]
fn default_paths() {
    assert_eq!(store_dir(None, "/home/u"), "/home/u/.password-store");
    assert_eq!(store_dir(Some("/s"), "/home/u"), "/s");
    assert_eq!(tomb_file(None, "/home/u/"), "/home/u/.password.tomb");
    assert_eq!(tomb_key(None, "."), "./.password.key.tomb");
    assert_eq!(tomb_timer_path(None, "/h"), "/h/.password.tomb.timer");
    assert_eq!(tomb_timer_path(Some("/t"), "/h"), "/t");
}

#[test]
fn join_follows_pathbuf() {
    assert_eq!(join_path("/a", "b"), "/a/b");
    assert_eq!(join_path("/a/", "b"), "/a/b");
    assert_eq!(join_path("", "b"), "b");
    assert_eq!(join_path("/a", "/b"), "/b");
    assert_eq!(mount_target("/s", ""), "/s");
    assert_eq!(mount_target("/s", "work"), "/s/work");
}

#[test]
fn sizes() {
    assert_eq!(tomb_size_mb(None), 30);
    assert_eq!(tomb_size_mb(Some("100")), 100);
    assert_eq!(tomb_size_mb(Some("lots")), 30);
    assert_eq!(tomb_size(Some("64"), 30), 64);
    assert_eq!(tomb_size(Some("64m"), 30), 30);
    assert_eq!(tomb_size(None, 12), 12);
    assert_eq!(parse_usize("+7"), Some(7));
    assert_eq!(parse_usize("-7"), None);
    assert_eq!(parse_usize(" 7"), None);
}

#[test]
fn tomb_and_key_paths() {
    assert_eq!(resolve_tomb_path(Some("/x/t"), "/d"), "/x/t.dmg");
    assert_eq!(resolve_tomb_path(None, "/d.dmg"), "/d.dmg");
    assert_eq!(resolve_key_path(None, "/k"), "/k");
    assert_eq!(resolve_key_path(Some("/j"), "/k"), "/j");
}

#[test]
fn new_tomb_checks_in_order() {
    assert!(matches!(check_gpg_ids_given(0), Err(StoreError::MissingGpgIds)));
    assert!(check_gpg_ids_given(2).is_ok());
    assert!(matches!(check_new_tomb(false, true, true, 1), Err(StoreError::KeyExists)));
    assert!(matches!(check_new_tomb(false, false, true, 1), Err(StoreError::TombExists)));
    assert!(matches!(check_new_tomb(false, false, false, 9), Err(StoreError::TooSmall)));
    assert!(check_new_tomb(false, false, false, 10).is_ok());
}

#[test]
fn forced_new_tomb_skips_only_existence_checks() {
    assert!(check_new_tomb(true, true, true, 30).is_ok());
    assert!(check_new_tomb(true, true, false, 10).is_ok());
    assert!(check_new_tomb(true, false, true, 10).is_ok());
    assert!(matches!(check_new_tomb(true, true, true, 5), Err(StoreError::TooSmall)));
    assert!(matches!(check_new_tomb(true, false, false, 9), Err(StoreError::TooSmall)));
}

#[test]
fn hdiutil_create_command() {
    let o = new_tomb_options("/t.dmg", 30);
    assert_eq!(o.size, "30m");
    assert_eq!(
        hdiutil_create_args(&o),
        strings(&[
            "create", "-size", "30m", "-fs", "APFS", "-volname", "pass-tomb", "-encryption",
            "AES-256", "-stdinpass", "/t.dmg"
        ])
    );
}

#[test]
fn gpg_encrypt_command() {
    let r = gpg_encrypt_args(&strings(&["A", "B"]), "/k");
    assert_eq!(
        r,
        strings(&[
            "--batch", "--no-tty", "--yes", "--trust-model", "always", "--encrypt", "--armor",
            "--output", "/k", "--recipient", "A", "--recipient", "B"
        ])
    );
}

#[test]
fn gpg_id_file_lists_ids() {
    assert_eq!(gpg_id_file(&strings(&["a@b", "c@d"])), "a@b\nc@d");
    assert_eq!(gpg_id_file(&strings(&["a@b"])), "a@b");
    assert_eq!(gpg_id_file(&[]), "");
}

#[test]
fn numbers_in_text() {
    assert_eq!(decimal_text(0), vec!['0']);
    assert_eq!(decimal_text(1800).iter().collect::<String>(), "1800");
    assert_eq!(
        decimal_text(u64::MAX).iter().collect::<String>().parse::<u64>().unwrap(),
        u64::MAX
    );
    assert_eq!(ownership_arg(501, 20), "501:20");
    assert_eq!(
        auto_close_command_line(1800, "/Volumes/pass-tomb"),
        "nohup sh -c 'sleep 1800 && /usr/bin/hdiutil detach /Volumes/pass-tomb' >/dev/null 2>&1 &"
    );
}

#[test]
fn key_password() {
    assert_eq!(tomb_password_from_key(b"  secret\n").unwrap(), "secret");
    assert!(matches!(
        tomb_password_from_key(&[0x66, 0xff]),
        Err(StoreError::KeyNotUtf8)
    ));
    assert!(matches!(check_prompted_password(""), Err(StoreError::EmptyPassword)));
    assert!(check_prompted_password("x").is_ok());
    assert!(matches!(check_new_password("a", "b"), Err(StoreError::PasswordsDiffer)));
    assert!(matches!(check_new_password("", ""), Err(StoreError::EmptyPassword)));
    assert!(check_new_password("a", "a").is_ok());
}

#[test]
fn timers_for_open() {
    let p = open_timer_plan(Some("30m"), Some("1h"));
    assert_eq!(p.announce, Some("30m".to_string()));
    assert_eq!(p.seconds, Some(1800));
    let p = open_timer_plan(None, Some(" 1h\n"));
    assert_eq!(p.announce, Some("1h".to_string()));
    assert_eq!(p.seconds, Some(3600));
    let p = open_timer_plan(None, Some("  \n"));
    assert_eq!(p.announce, None);
    assert_eq!(p.seconds, None);
    let p = open_timer_plan(Some("soon"), None);
    assert_eq!(p.announce, Some("soon".to_string()));
    assert_eq!(p.seconds, None);
}

#[test]
fn stored_timer_reopens_with_same_duration() {
    let stored = "2h";
    let set = timer_to_set(stored).unwrap();
    let p = open_timer_plan(None, Some(stored));
    assert_eq!(p.seconds, Some(set));
}

#[test]
fn timer_command() {
    assert_eq!(timer_to_set("5m").unwrap(), 300);
    assert!(matches!(timer_to_set("later"), Err(StoreError::InvalidTimer)));
    assert_eq!(shown_timer(" 30m\n"), Some("30m".to_string()));
    assert_eq!(shown_timer("\n"), None);
}

#[test]
fn close_sequence() {
    assert_eq!(close_tomb_path(Some("/x/t.dmg"), "/d"), "/x/t.dmg");
    assert_eq!(close_tomb_path(Some("/store"), "/d"), "/d.dmg");
    assert_eq!(close_tomb_path(None, "/d.dmg"), "/d.dmg");
    assert_eq!(close_store_path(Some("/store")), Some("/store".to_string()));
    assert_eq!(close_store_path(Some("/x/t.dmg")), None);
    assert_eq!(close_store_path(None), None);
    assert_eq!(
        close_step(&CloseState::Start { store_given: false, tomb_exists: false }),
        CloseAction::CloseByName
    );
    assert_eq!(
        close_step(&CloseState::Start { store_given: false, tomb_exists: true }),
        CloseAction::DetachMountPoint
    );
    assert_eq!(
        close_step(&CloseState::Start { store_given: true, tomb_exists: true }),
        CloseAction::DetachGivenStore
    );
    assert_eq!(close_step(&CloseState::GivenStoreTried { closed: true }), CloseAction::Done);
    assert_eq!(
        close_step(&CloseState::GivenStoreTried { closed: false }),
        CloseAction::CloseByName
    );
    assert_eq!(
        close_step(&CloseState::MountTried { closed: true, store_exists: true }),
        CloseAction::Done
    );
    assert_eq!(
        close_step(&CloseState::MountTried { closed: false, store_exists: true }),
        CloseAction::DetachStore
    );
    assert_eq!(
        close_step(&CloseState::MountTried { closed: false, store_exists: false }),
        CloseAction::CloseByName
    );
    assert_eq!(close_step(&CloseState::StoreTried { closed: false }), CloseAction::CloseByName);
    assert_eq!(close_step(&CloseState::StoreTried { closed: true }), CloseAction::Done);
}

#[test]
fn import_checks_armor() {
    assert!(is_armored_pgp_message("-----BEGIN PGP MESSAGE-----\n\nabc"));
    assert!(!is_armored_pgp_message("hello"));
}

#[test]
fn extension_wrappers() {
    assert_eq!(extension_commands(), strings(&["tomb", "open", "close", "timer"]));
    assert_eq!(wrapper_file_name("open"), "open.bash");
    assert_eq!(wrapper_binary_name("open"), "pass-open");
    assert_eq!(
        wrapper_script("/usr/local/bin/pass-open"),
        "#!/bin/bash\nexec /usr/local/bin/pass-open \"$@\"\n"
    );
    assert!(install_into_store(true, false, false));
    assert!(!install_into_store(true, true, false));
    assert!(install_into_store(true, true, true));
    assert!(!install_into_store(false, false, true));
    assert!(write_wrapper(false, false));
    assert!(!write_wrapper(true, false));
    assert!(write_wrapper(true, true));
}

#[test]
fn generated_password_reads_back_from_key() {
    let password = pass_tomb::gpg::generate_tomb_password();
    let stored = password.as_bytes().to_vec();
    assert_eq!(tomb_password_from_key(&stored).unwrap(), password);
}

#[test]
fn gpg_id_file_reads_back_line_by_line() {
    let ids = strings(&["alice@example.org", "0xDEADBEEF", "bob"]);
    let content = gpg_id_file(&ids);
    let read: Vec<String> = content.lines().map(|l| l.to_string()).collect();
    assert_eq!(read, ids);
}
