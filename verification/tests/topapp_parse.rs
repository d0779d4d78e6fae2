use fas_rs::topapp::get_top_pkgname;

const DUMP: &str = "\
WINDOW MANAGER VISIBLE APPS\n\
  Window #0 package=com.game.alpha appop=NONE\n\
    mOwnerCanReceiveKeys=true canReceiveKeys()=true\n\
  Window #1 package=com.status.bar appop=SYSTEM\n\
    mOwnerCanReceiveKeys=false canReceiveKeys()=false\n\
  Window #2 package=com.ime.board appop=NONE\n\
    mOwnerCanReceiveKeys=true canReceiveKeys()=true\n";

#[test]
fn focused_packages_are_extracted_in_order() {
    assert_eq!(
        get_top_pkgname(DUMP),
        vec!["com.game.alpha".to_string(), "com.ime.board".to_string()]
    );
}

#[test]
fn unfocused_packages_are_dropped() {
    let pkgs = get_top_pkgname(DUMP);
    assert!(!pkgs.contains(&"com.status.bar".to_string()));
}

#[test]
fn empty_dump_yields_no_candidates() {
    assert_eq!(get_top_pkgname(""), Vec::<String>::new());
}

#[test]
fn package_value_stops_at_next_equals() {
    let dump = "a b package=com.x=y z\nfocus canReceiveKeys()=true\n";
    assert_eq!(get_top_pkgname(dump), vec!["com.x".to_string()]);
}

#[test]
fn malformed_package_line_contributes_nothing() {
    // Too few tokens on the package line: it is skipped, not a panic.
    let dump = "package=\nfocus canReceiveKeys()=true\n";
    assert_eq!(get_top_pkgname(dump), Vec::<String>::new());
}

#[test]
fn surplus_focus_lines_are_ignored() {
    let dump = "w 0 package=com.solo\nx canReceiveKeys()=true\ny canReceiveKeys()=true\n";
    assert_eq!(get_top_pkgname(dump), vec!["com.solo".to_string()]);
}
