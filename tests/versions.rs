use spawn::metadata::resolve_dynamic_version;
use spawn::version::{compare_versions, matches_range, max_in_range, select_winner, VersionOrder};

fn cs(s: &str) -> Vec<char> {
    s.chars().collect()
}

#[test]
fn version_compare_orders_numerically() {
    assert_eq!(compare_versions(&cs("1.10"), &cs("1.9")), Some(VersionOrder::Greater));
    assert_eq!(compare_versions(&cs("1.2.3"), &cs("1.2.3")), Some(VersionOrder::Equal));
    assert_eq!(compare_versions(&cs("1.2.3"), &cs("1.2.4")), Some(VersionOrder::Less));
}

#[test]
fn range_bounds() {
    assert!(matches_range(&cs("1.5"), &cs("[1.0,2.0)")));
    assert!(matches_range(&cs("1.0"), &cs("[1.0,2.0)")));
    assert!(!matches_range(&cs("2.0"), &cs("[1.0,2.0)")));
    assert!(!matches_range(&cs("1.0"), &cs("(1.0,2.0)")));
    assert!(matches_range(&cs("2.0"), &cs("(1.0,2.0]")));
    assert!(matches_range(&cs("9.0"), &cs("[1.0,)")));
    assert!(matches_range(&cs("0.1"), &cs("(,1.0]")));
    assert!(!matches_range(&cs("0.9"), &cs("[1.0,)")));
}

#[test]
fn bare_version_matches_only_itself() {
    assert!(matches_range(&cs("1.5"), &cs("1.5")));
    assert!(!matches_range(&cs("1.6"), &cs("1.5")));
}

#[test]
fn winner_is_highest_version() {
    let vs = vec![cs("1.0"), cs("2.0"), cs("1.5")];
    assert_eq!(select_winner(&vs), 1);
    let single = vec![cs("3.1")];
    assert_eq!(select_winner(&single), 0);
}

#[test]
fn equal_versions_choose_by_text_in_any_order() {
    let a = vec![cs("1.0"), cs("1.0.0"), cs("0.9")];
    let b = vec![cs("1.0.0"), cs("0.9"), cs("1.0")];
    assert_eq!(a[select_winner(&a)], cs("1.0.0"));
    assert_eq!(b[select_winner(&b)], cs("1.0.0"));
}

#[test]
fn range_text_is_trimmed() {
    assert!(matches_range(&cs("1.0"), &cs(" [1.0,2.0) ")));
    assert!(!matches_range(&cs("2.0"), &cs("\t[1.0,2.0)")));
    assert!(matches_range(&cs("1.5"), &cs(" 1.5 ")));
}

#[test]
fn highest_in_range() {
    let vs = vec![cs("1.0"), cs("1.5"), cs("2.0"), cs("1.9")];
    assert_eq!(max_in_range(&vs, &cs("[1.0,2.0)")), Some(cs("1.9")));
    assert_eq!(max_in_range(&vs, &cs("[3.0,)")), None);
}

const LISTING: &str = "<metadata><groupId>g</groupId><versioning>\
    <latest>2.1-beta</latest><release>2.0</release>\
    <versions><version>1.0</version><version>1.5</version><version>2.0</version><version>2.1-beta</version></versions>\
    </versioning></metadata>";

#[test]
fn dynamic_latest_and_release() {
    assert_eq!(resolve_dynamic_version("LATEST", LISTING), Ok("2.1-beta".to_string()));
    assert_eq!(resolve_dynamic_version("RELEASE", LISTING), Ok("2.0".to_string()));
}

#[test]
fn dynamic_range_takes_highest_match() {
    assert_eq!(resolve_dynamic_version("[1.0,2.0)", LISTING), Ok("1.5".to_string()));
    assert_eq!(resolve_dynamic_version("[1.0,2.0]", LISTING), Ok("2.0".to_string()));
}

#[test]
fn dynamic_failures() {
    let empty = "<metadata><versioning><versions><version>1.0</version></versions></versioning></metadata>";
    assert_eq!(resolve_dynamic_version("LATEST", empty), Err(spawn::error::ErrorKind::VersionResolution));
    assert_eq!(resolve_dynamic_version("[5.0,)", empty), Err(spawn::error::ErrorKind::VersionResolution));
}
