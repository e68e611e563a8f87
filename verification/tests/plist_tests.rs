use pass_tomb::plist::{extract_plist_string, find_nested_mount_point};

#[test]
fn extract_plist_string_reads_value_after_key() {
    let xml = "<dict><key>a</key><string>1</string><key>b</key><string>2</string></dict>";
    assert_eq!(extract_plist_string(xml, "a"), Some("1".to_string()));
    assert_eq!(extract_plist_string(xml, "b"), Some("2".to_string()));
    assert_eq!(extract_plist_string(xml, "c"), None);
    assert_eq!(extract_plist_string("<key>a</key><true/>", "a"), None);
}

#[test]
fn nested_mount_point_prefers_direct_then_arrays() {
    let direct = "<dict><key>mount-point</key><string>/d</string></dict>";
    assert_eq!(find_nested_mount_point(direct), Some("/d".to_string()));
    let nested = "<dict><key>x</key><array><dict><key>y</key><string>1</string></dict></array>\
<array><array><dict><key>mount-point</key><string>/n</string></dict></array></array></dict>";
    assert_eq!(find_nested_mount_point(nested), Some("/n".to_string()));
    assert_eq!(find_nested_mount_point("<dict></dict>"), None);
}

#[test]
fn nested_search_agrees_with_direct_search() {
    let samples = [
        "<dict><key>mount-point</key><string>/d</string></dict>",
        "<dict><array><dict><key>mount-point</key><string>/a</string></dict></array></dict>",
        "<dict><array><array></dict>",
        "</array><array><key>mount-point</key><string>/x",
        "<dict><key>x</key><array><string>1</string></array></dict>",
    ];
    for s in samples {
        assert_eq!(find_nested_mount_point(s), extract_plist_string(s, "mount-point"));
    }
    assert_eq!(
        find_nested_mount_point(samples[1]),
        Some("/a".to_string())
    );
}
