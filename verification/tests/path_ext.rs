use ere::{keep_entry, max_depth, PathExt};

#[test]
fn entries_that_begin_with_a_dot_are_hidden() {
    assert!(".a".is_hidden());
    assert!("dir/.a".is_hidden());
    assert!("/root/.config".is_hidden());
    assert!(".hidden/".is_hidden());
    assert!("...".is_hidden());
}

#[test]
fn other_entries_are_not_hidden() {
    assert!(!"a".is_hidden());
    assert!(!"a.b".is_hidden());
    assert!(!".dir/a".is_hidden());
    assert!(!"dir/a.".is_hidden());
}

#[test]
fn paths_without_a_file_name_are_not_hidden() {
    assert!(!"".is_hidden());
    assert!(!".".is_hidden());
    assert!(!"..".is_hidden());
    assert!(!"/".is_hidden());
    assert!(!"a/..".is_hidden());
}

#[test]
fn hidden_entries_are_left_out_unless_asked_for() {
    assert!(!keep_entry(false, false, "dir/.a"));
    assert!(keep_entry(false, true, "dir/.a"));
    assert!(keep_entry(true, false, "dir/.a"));
    assert!(keep_entry(false, false, "dir/a"));
    assert!(keep_entry(false, false, "."));
}

#[test]
fn a_scan_goes_one_level_deep_unless_it_is_recursive() {
    assert_eq!(max_depth(false), 1);
    assert_eq!(max_depth(true), usize::MAX);
}
