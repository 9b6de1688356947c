use apk_disguise::prefixes::{package_prefix, scan_trusted_prefixes};

#[test]
fn two_segment_prefix_is_first_two_segments() {
    assert_eq!(package_prefix("com.example.app"), Some("com.example".to_string()));
    assert_eq!(package_prefix("a.b"), Some("a.b".to_string()));
    assert_eq!(package_prefix("left.right.center.more"), Some("left.right".to_string()));
    assert_eq!(package_prefix("single"), None);
    assert_eq!(package_prefix(""), None);
}

#[test]
fn curated_entries_lead_even_on_empty_scan() {
    let r = scan_trusted_prefixes("");
    assert_eq!(r.len(), 2);
    assert_eq!(r[0].prefix, "cn.chinapost");
    assert_eq!(r[0].count, 999);
    assert_eq!(r[0].source, "recommended");
    assert_eq!(r[1].prefix, "com.nlscan");
    assert_eq!(r[1].count, 100);
    assert_eq!(r[1].source, "recommended");
}

#[test]
fn single_occurrence_prefixes_are_excluded() {
    let out = "package:org.lonely.app\npackage:com.pair.one\npackage:com.pair.two\n";
    let r = scan_trusted_prefixes(out);
    assert_eq!(r.len(), 3);
    assert_eq!(r[2].prefix, "com.pair");
    assert_eq!(r[2].count, 2);
    assert_eq!(r[2].source, "device_scan");
    assert!(r.iter().all(|e| e.prefix != "org.lonely"));
}

#[test]
fn denylisted_prefixes_are_excluded() {
    let out = "package:com.android.a\npackage:com.android.b\npackage:com.google.x\npackage:com.google.y\npackage:vendor.mediatek.p\npackage:vendor.mediatek.q\npackage:android.hardware.s\npackage:android.hardware.t\npackage:net.ok.a\npackage:net.ok.b\n";
    let r = scan_trusted_prefixes(out);
    assert_eq!(r.len(), 3);
    assert_eq!(r[2].prefix, "net.ok");
    assert_eq!(r[2].count, 2);
}

#[test]
fn scan_orders_by_descending_count() {
    let out = "package:aa.x.1\npackage:aa.x.2\npackage:bb.y.1\npackage:bb.y.2\npackage:bb.y.3\n";
    let r = scan_trusted_prefixes(out);
    assert_eq!(r.len(), 4);
    assert_eq!(r[2].prefix, "bb.y");
    assert_eq!(r[2].count, 3);
    assert_eq!(r[3].prefix, "aa.x");
    assert_eq!(r[3].count, 2);
}

#[test]
fn scan_ignores_lines_without_marker_and_short_names() {
    let out = "garbage\npackage:nodots\npackage:nodots\npackage:two.seg\npackage:two.seg\n";
    let r = scan_trusted_prefixes(out);
    assert_eq!(r.len(), 3);
    assert_eq!(r[2].prefix, "two.seg");
}
