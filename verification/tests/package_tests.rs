use incremental_cargo_update::order::{str_compare, Cmp};
use incremental_cargo_update::package::PackageInfo;

fn pkg(name: &str, version: &str) -> PackageInfo {
    PackageInfo { name: name.to_string(), version: version.to_string() }
}

#[test]
fn str_compare_is_lexicographic() {
    assert_eq!(str_compare("abc", "abd"), Cmp::Less);
    assert_eq!(str_compare("abc", "abc"), Cmp::Equal);
    assert_eq!(str_compare("abd", "abc"), Cmp::Greater);
    assert_eq!(str_compare("ab", "abc"), Cmp::Less);
    assert_eq!(str_compare("abc", "ab"), Cmp::Greater);
    assert_eq!(str_compare("", ""), Cmp::Equal);
    assert_eq!(str_compare("", "a"), Cmp::Less);
}

#[test]
fn package_compare_is_by_name_first() {
    assert_eq!(pkg("alpha", "9.9.9").compare(&pkg("beta", "0.0.1")), Cmp::Less);
    assert_eq!(pkg("beta", "0.0.1").compare(&pkg("alpha", "9.9.9")), Cmp::Greater);
}

#[test]
fn package_compare_breaks_name_ties_by_version() {
    assert_eq!(pkg("alpha", "1.0.0").compare(&pkg("alpha", "1.0.1")), Cmp::Less);
    assert_eq!(pkg("alpha", "1.0.1").compare(&pkg("alpha", "1.0.0")), Cmp::Greater);
    assert_eq!(pkg("alpha", "1.0.0").compare(&pkg("alpha", "1.0.0")), Cmp::Equal);
}

#[test]
fn clone_preserves_identity() {
    let p = pkg("alpha", "1.0.0");
    assert_eq!(p.clone(), p);
}
