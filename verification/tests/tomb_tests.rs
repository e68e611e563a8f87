use pass_tomb::tomb::{
    close_tomb, ensure_dmg, find_mount_point, has_dmg_extension, is_mounted, mount_point_by_name,
    parse_attach_plist, parse_info_plist, volume_path, CreateOptions, TombError, TombInfo,
};

#[test]
fn test_parse_attach_plist() {
    let xml = r#"<?xml version="1.0" encoding="UTF-8"?>
<!DOCTYPE plist PUBLIC "-//Apple//DTD PLIST 1.0//EN" "http://www.apple.com/DTDs/PropertyList-1.0.dtd">
<plist version="1.0">
<dict>
    <key>system-entities</key>
    <array>
        <dict>
            <key>content-hint</key>
            <string>GUID_partition_scheme</string>
            <key>image-path</key>
            <string>/Users/test/pass-tomb.dmg</string>
            <key>mount-point</key>
            <string>/Volumes/pass-tomb</string>
        </dict>
    </array>
</dict>
</plist>"#;

    let result = parse_attach_plist(xml.as_bytes()).unwrap();
    assert_eq!(result, Some(String::from("/Volumes/pass-tomb")));
}

#[test]
fn test_parse_info_plist() {
    let xml = r#"<?xml version="1.0" encoding="UTF-8"?>
<!DOCTYPE plist PUBLIC "-//Apple//DTD PLIST 1.0//EN" "http://www.apple.com/DTDs/PropertyList-1.0.dtd">
<plist version="1.0">
<array>
    <dict>
        <key>agent</key>
        <string>com.apple.DiskArbitrarion.diskarbitrationd</string>
        <key>image-path</key>
        <string>/Users/test/pass-tomb.dmg</string>
        <key>system-entities</key>
        <array>
            <dict>
                <key>mount-point</key>
                <string>/Volumes/pass-tomb</string>
            </dict>
        </array>
    </dict>
</array>
</plist>"#;

    let result = parse_info_plist(xml.as_bytes()).unwrap();
    assert_eq!(result.len(), 1);
    assert_eq!(result[0].mount_point, String::from("/Volumes/pass-tomb"));
    assert_eq!(
        result[0].image_path,
        Some(String::from("/Users/test/pass-tomb.dmg"))
    );
}

#[test]
fn info_plist_gives_volume_name_and_skips_entries_without_mount() {
    let xml = "<array><dict><key>image-path</key><string>/a.dmg</string>\
<key>system-entities</key><array><dict><key>content-hint</key><string>x</string></dict>\
<dict><key>mount-point</key><string>/Volumes/first</string></dict></array></dict>\
<dict><key>image-path</key><string>/b.dmg</string></dict>\
<dict><key>image-path</key><string>/c.dmg</string><key>mount-point</key><string>/mnt/c</string></dict></array>";
    let result = parse_info_plist(xml.as_bytes()).unwrap();
    assert_eq!(result.len(), 2);
    assert_eq!(result[0].image_path, Some("/a.dmg".to_string()));
    assert_eq!(result[0].mount_point, "/Volumes/first");
    assert_eq!(result[0].volume_name, "first");
    assert_eq!(result[1].image_path, Some("/c.dmg".to_string()));
    assert_eq!(result[1].mount_point, "/mnt/c");
    assert_eq!(result[1].volume_name, "c");
}

#[test]
fn info_plist_without_dicts_is_empty() {
    assert!(parse_info_plist(b"<plist><array></array></plist>").unwrap().is_empty());
    assert!(parse_info_plist(b"").unwrap().is_empty());
}

#[test]
fn attach_plist_without_mount_point_is_none() {
    let xml = "<dict><key>image-path</key><string>/a.dmg</string></dict>";
    assert_eq!(parse_attach_plist(xml.as_bytes()).unwrap(), None);
    let unterminated = "<key>mount-point</key><string>/Volumes/x";
    assert_eq!(parse_attach_plist(unterminated.as_bytes()).unwrap(), None);
}

#[test]
fn attach_plist_reads_invalid_utf8_lossily() {
    let mut data = b"<key>mount-point</key><string>/Volumes/a".to_vec();
    data.push(0xff);
    data.extend_from_slice(b"b</string>");
    assert_eq!(
        parse_attach_plist(&data).unwrap(),
        Some("/Volumes/a\u{fffd}b".to_string())
    );
}

#[test]
fn ensure_dmg_appends_once() {
    assert_eq!(ensure_dmg("/tmp/tomb"), "/tmp/tomb.dmg");
    assert_eq!(ensure_dmg("/tmp/tomb.dmg"), "/tmp/tomb.dmg");
    assert_eq!(ensure_dmg(&ensure_dmg("x")), ensure_dmg("x"));
    assert_eq!(ensure_dmg(""), ".dmg");
}

#[test]
fn dmg_extension_follows_path_rules() {
    assert!(has_dmg_extension("/tmp/a.dmg"));
    assert!(!has_dmg_extension("/tmp/a.dmgx"));
    assert!(!has_dmg_extension("/tmp/.dmg"));
    assert!(!has_dmg_extension("/tmp/store"));
}

fn sample_tombs() -> Vec<TombInfo> {
    vec![
        TombInfo {
            image_path: Some("/other.dmg".to_string()),
            mount_point: "/Volumes/other".to_string(),
            volume_name: "other".to_string(),
        },
        TombInfo {
            image_path: Some("/home/u/.password.tomb.dmg".to_string()),
            mount_point: "/home/u/.password-store".to_string(),
            volume_name: ".password-store".to_string(),
        },
        TombInfo {
            image_path: None,
            mount_point: "/Volumes/pass-tomb".to_string(),
            volume_name: "pass-tomb".to_string(),
        },
    ]
}

#[test]
fn find_mount_point_matches_image_path() {
    let tombs = sample_tombs();
    let tomb = Some("/home/u/.password.tomb.dmg".to_string());
    assert_eq!(
        find_mount_point(&tombs, &tomb),
        Some("/home/u/.password-store".to_string())
    );
    assert!(is_mounted(&tombs, &tomb));
    let missing = Some("/nowhere.dmg".to_string());
    assert_eq!(find_mount_point(&tombs, &missing), None);
    assert!(!is_mounted(&tombs, &missing));
    assert_eq!(find_mount_point(&tombs, &None), None);
    assert!(!is_mounted(&tombs, &None));
}

#[test]
fn close_tomb_picks_mount_point() {
    let tombs = sample_tombs();
    let tomb = Some("/home/u/.password.tomb.dmg".to_string());
    assert_eq!(
        close_tomb("/home/u/.password.tomb.dmg", &tombs, &tomb).unwrap(),
        "/home/u/.password-store"
    );
    assert!(matches!(
        close_tomb("/x.dmg", &tombs, &Some("/x.dmg".to_string())),
        Err(TombError::NotMounted)
    ));
    assert_eq!(
        close_tomb("/Volumes/pass-tomb", &tombs, &None).unwrap(),
        "/Volumes/pass-tomb"
    );
}

#[test]
fn close_by_name_matches_volume_or_mount_point() {
    let tombs = sample_tombs();
    assert_eq!(
        mount_point_by_name(&tombs, "pass-tomb"),
        Some("/Volumes/pass-tomb".to_string())
    );
    assert_eq!(
        mount_point_by_name(&tombs, "password-store"),
        Some("/home/u/.password-store".to_string())
    );
    assert_eq!(mount_point_by_name(&tombs, "absent"), None);
    assert_eq!(volume_path("pass-tomb"), "/Volumes/pass-tomb");
}

#[test]
fn create_options_default() {
    let o = CreateOptions::default();
    assert_eq!(o.tomb_path, "pass-tomb.dmg");
    assert_eq!(o.size, "50m");
    assert_eq!(o.volume_name, "pass-tomb");
    assert_eq!(o.filesystem, "APFS");
}
