use pass_tomb::timer::{parse_timer_parts, parse_timer_seconds, parse_timer_seconds_checked};

#[test]
fn timer_units() {
    assert_eq!(parse_timer_seconds("30m"), Some(1800));
    assert_eq!(parse_timer_seconds("1h"), Some(3600));
    assert_eq!(parse_timer_seconds("2d"), Some(172800));
    assert_eq!(parse_timer_seconds("1w"), Some(604800));
    assert_eq!(parse_timer_seconds("2weeks"), Some(1209600));
    assert_eq!(parse_timer_seconds("3days"), Some(259200));
    assert_eq!(parse_timer_seconds("2hours"), Some(7200));
    assert_eq!(parse_timer_seconds("5mins"), Some(300));
    assert_eq!(parse_timer_seconds("2minutes"), Some(120));
    assert_eq!(parse_timer_seconds("1s"), Some(1));
    assert_eq!(parse_timer_seconds("10sec"), Some(10));
    assert_eq!(parse_timer_seconds("45"), Some(45));
}

#[test]
fn timer_is_trimmed_and_lowercased() {
    assert_eq!(parse_timer_seconds("  5M \n"), Some(300));
    assert_eq!(parse_timer_seconds("1H"), Some(3600));
    assert_eq!(parse_timer_parts("+7D"), Some((7, 86400)));
}

#[test]
fn timer_suffix_order_quirks() {
    // The single-letter suffix of a group is tried before the longer ones.
    assert_eq!(parse_timer_seconds("10secs"), None);
    assert_eq!(parse_timer_seconds("10seconds"), None);
    assert_eq!(parse_timer_seconds("10second"), None);
    assert_eq!(parse_timer_seconds("abc"), None);
    assert_eq!(parse_timer_seconds(""), None);
    assert_eq!(parse_timer_seconds("-5m"), None);
    assert_eq!(parse_timer_seconds("m"), None);
}

#[test]
fn timer_parts_give_count_and_unit() {
    assert_eq!(parse_timer_parts("30m"), Some((30, 60)));
    assert_eq!(
        parse_timer_parts("18446744073709551615s"),
        Some((u64::MAX, 1))
    );
    assert_eq!(parse_timer_parts("18446744073709551616"), None);
}

#[test]
fn checked_timer_reports_overflow() {
    assert_eq!(parse_timer_seconds_checked("30m"), Some(Some(1800)));
    assert_eq!(parse_timer_seconds_checked("soon"), Some(None));
    assert_eq!(parse_timer_seconds_checked("18446744073709551615m"), None);
}

#[test]
fn timer_ignores_ascii_case_and_surrounding_space() {
    assert_eq!(parse_timer_seconds("30M"), Some(1800));
    assert_eq!(parse_timer_seconds("2WEEKS"), parse_timer_seconds("2weeks"));
    assert_eq!(parse_timer_seconds(" \t2h\n"), Some(7200));
    assert_eq!(parse_timer_seconds(" \t10SEC\n"), parse_timer_seconds("10sec"));
    assert_eq!(parse_timer_parts("3Days"), Some((3, 86400)));
}

#[test]
fn timer_count_with_each_unit() {
    assert_eq!(parse_timer_parts("7week"), Some((7, 604800)));
    assert_eq!(parse_timer_parts("7day"), Some((7, 86400)));
    assert_eq!(parse_timer_parts("7hour"), Some((7, 3600)));
    assert_eq!(parse_timer_parts("7hours"), Some((7, 3600)));
    assert_eq!(parse_timer_parts("7min"), Some((7, 60)));
    assert_eq!(parse_timer_parts("7minute"), Some((7, 60)));
    assert_eq!(parse_timer_parts("0s"), Some((0, 1)));
    assert_eq!(parse_timer_parts("0"), Some((0, 1)));
}
