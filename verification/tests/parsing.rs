use apk_disguise::devices::{check_adb, get_devices};
use apk_disguise::inventory::{derive_display_name, get_installed_apps, uninstall_app};

#[test]
fn devices_header_is_dropped() {
    let out = "List of devices attached\nabc123 device product:sdk\n";
    let r = get_devices(out);
    assert_eq!(r.len(), 1);
    assert_eq!(r[0], "abc123");
}

#[test]
fn devices_blank_and_unrecognized_lines_are_dropped() {
    let out = "List of devices attached\n\n   \nserial1\tdevice usb:1\nserial2 offline\nserial3 unauthorized\n";
    let r = get_devices(out);
    assert_eq!(r, vec!["serial1".to_string()]);
}

#[test]
fn devices_extra_whitespace_is_tolerated() {
    let out = "List of devices attached\n   padded  \t device  \n";
    let r = get_devices(out);
    assert_eq!(r, vec!["padded".to_string()]);
}

#[test]
fn devices_empty_output_gives_no_devices() {
    assert!(get_devices("").is_empty());
    assert!(get_devices("List of devices attached\n").is_empty());
}

#[test]
fn adb_probe_verdicts() {
    assert!(check_adb(Some(true)));
    assert!(!check_adb(Some(false)));
    assert!(!check_adb(None));
}

#[test]
fn uninstall_success_marker_decides() {
    assert!(uninstall_app("Success\n"));
    assert!(!uninstall_app("Failure [DELETE_FAILED_INTERNAL_ERROR]\n"));
    assert!(!uninstall_app(""));
}

#[test]
fn display_name_spaces_before_inner_uppercase() {
    assert_eq!(derive_display_name("com.test.myCoolApp"), "my Cool App");
}

#[test]
fn display_name_underscores_become_spaces() {
    assert_eq!(derive_display_name("org.demo.legacy_tool"), "legacy tool");
}

#[test]
fn display_name_leading_uppercase_gets_no_space() {
    assert_eq!(derive_display_name("a.b.Launcher"), "Launcher");
}

#[test]
fn inventory_parses_classifies_and_sorts() {
    let all = "package:/data/app/x=y.apk=com.test.myCoolApp\npackage:/a=b/path.apk=org.demo.legacy_tool\nnoise line\n";
    let sys = "package:org.demo.legacy_tool\n";
    let apps = get_installed_apps(all, sys);
    assert_eq!(apps.len(), 2);
    assert_eq!(apps[0].app_name, "legacy tool");
    assert_eq!(apps[0].package_name, "org.demo.legacy_tool");
    assert!(apps[0].is_system);
    assert_eq!(apps[0].version, "");
    assert_eq!(apps[1].app_name, "my Cool App");
    assert_eq!(apps[1].package_name, "com.test.myCoolApp");
    assert!(!apps[1].is_system);
}

#[test]
fn inventory_takes_name_after_last_equals() {
    let all = "package:/weird=dir/app.apk=com.x.target\n";
    let apps = get_installed_apps(all, "");
    assert_eq!(apps.len(), 1);
    assert_eq!(apps[0].package_name, "com.x.target");
}

#[test]
fn inventory_sorts_case_insensitively() {
    let all = "package:/p.apk=a.a.Zeta\npackage:/q.apk=a.a.alpha\n";
    let apps = get_installed_apps(all, "");
    assert_eq!(apps[0].app_name, "alpha");
    assert_eq!(apps[1].app_name, "Zeta");
}
