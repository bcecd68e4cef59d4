use omega_daemon::workspace::{member_dirs, path_less, unit_names, PatternError};

fn dir(path: &str) -> Vec<String> {
    path.split('/').map(|c| c.to_string()).collect()
}

fn error(pattern: &str) -> PatternError {
    PatternError::Expand { pattern: pattern.to_string(), dir: "/w".to_string(), reason: "denied".to_string() }
}

#[test]
fn members_are_sorted_deduplicated_and_excluded() {
    let members = vec![
        Ok(vec![dir("w/plugins/b"), dir("w/plugins/a")]),
        Ok(vec![dir("w/plugins/a"), dir("w/tools")]),
    ];
    let excluded = vec![Ok(vec![dir("w/tools")])];
    let dirs = member_dirs(&members, &excluded).unwrap();
    assert_eq!(dirs, vec![dir("w/plugins/a"), dir("w/plugins/b")]);
    assert!(member_dirs(&vec![], &vec![]).unwrap().is_empty());
}

#[test]
fn paths_are_ordered_by_component() {
    // As paths, "a" and everything under it come before "a-b".
    let dirs = member_dirs(&vec![Ok(vec![dir("w/a-b"), dir("w/a/b"), dir("w/a")])], &vec![]).unwrap();
    assert_eq!(dirs, vec![dir("w/a"), dir("w/a/b"), dir("w/a-b")]);
    assert!(path_less(&dir("w/a/b"), &dir("w/a-b")));
    assert!(!path_less(&dir("w/a"), &dir("w/a")));
}

#[test]
fn the_first_pattern_that_cannot_be_expanded_is_the_answer() {
    let members = vec![Ok(vec![dir("w/a")]), Err(error("m*")), Err(error("n*"))];
    let excluded = vec![Ok(vec![]), Err(error("x*"))];
    let failure = member_dirs(&members, &excluded).unwrap_err();
    assert_eq!(failure.describe(), "cannot expand \"x*\" in /w: denied");
    let failure = member_dirs(&members, &vec![]).unwrap_err();
    assert_eq!(failure.describe(), "cannot expand \"m*\" in /w: denied");
}

#[test]
fn only_direct_children_of_the_units_directory_are_units() {
    let dirs = vec![dir("w/units/clock"), dir("w/lib"), dir("w/units/bar"), dir("w/units/bar/inner"), dir("w/units/clock")];
    assert_eq!(unit_names(&dirs, &dir("w/units")), vec!["bar".to_string(), "clock".to_string()]);
    assert!(unit_names(&vec![dir("w/lib")], &dir("w/units")).is_empty());
}
