use incremental_cargo_update::package::PackageInfo;
use incremental_cargo_update::snapshot::{find_updated_packages, Snapshot};

fn pkg(name: &str, version: &str) -> PackageInfo {
    PackageInfo { name: name.to_string(), version: version.to_string() }
}

fn snap(entries: &[(&str, &str)]) -> Snapshot {
    let v: Vec<PackageInfo> = entries.iter().map(|(n, ver)| pkg(n, ver)).collect();
    Snapshot::from_vec(v)
}

#[test]
fn from_vec_sorts_by_name_then_version() {
    let s = snap(&[("gamma", "1.0.0"), ("alpha", "2.0.0"), ("beta", "1.5.0"), ("alpha", "1.0.0")]);
    assert_eq!(s.len(), 4);
    assert_eq!(s.get(0), &pkg("alpha", "1.0.0"));
    assert_eq!(s.get(1), &pkg("alpha", "2.0.0"));
    assert_eq!(s.get(2), &pkg("beta", "1.5.0"));
    assert_eq!(s.get(3), &pkg("gamma", "1.0.0"));
}

#[test]
fn from_vec_deduplicates_equal_identities() {
    let s = snap(&[("alpha", "1.0.0"), ("alpha", "1.0.0"), ("beta", "1.0.0")]);
    assert_eq!(s.len(), 2);
    assert_eq!(s.get(0), &pkg("alpha", "1.0.0"));
    assert_eq!(s.get(1), &pkg("beta", "1.0.0"));
}

#[test]
fn from_vec_keeps_same_name_different_versions() {
    // two exact versions of one package are two distinct identities
    let s = snap(&[("serde", "1.0.0"), ("serde", "0.9.9")]);
    assert_eq!(s.len(), 2);
    assert_eq!(s.get(0), &pkg("serde", "0.9.9"));
    assert_eq!(s.get(1), &pkg("serde", "1.0.0"));
}

#[test]
fn from_vec_of_nothing_is_empty() {
    let s = snap(&[]);
    assert_eq!(s.len(), 0);
    assert_eq!(s, Snapshot::empty());
}

#[test]
fn contains_is_by_exact_identity() {
    let s = snap(&[("alpha", "1.0.0"), ("beta", "2.0.0")]);
    assert!(s.contains(&pkg("alpha", "1.0.0")));
    assert!(s.contains(&pkg("beta", "2.0.0")));
    assert!(!s.contains(&pkg("alpha", "1.0.1")));
    assert!(!s.contains(&pkg("gamma", "1.0.0")));
}

#[test]
fn find_updated_packages_diffs_against_the_old_snapshot() {
    let initial = snap(&[("a", "1"), ("b", "1"), ("c", "1")]);
    let current = snap(&[("a", "2"), ("b", "1"), ("c", "1"), ("e", "1")]);
    let changed = find_updated_packages(&initial, &current);
    assert_eq!(changed, vec![pkg("a", "1")]);
}

#[test]
fn find_updated_packages_counts_removed_packages_as_changed() {
    // a package that vanished outright also no longer has its old
    // identity present, so it counts
    let initial = snap(&[("a", "1"), ("b", "1")]);
    let current = snap(&[("a", "1")]);
    let changed = find_updated_packages(&initial, &current);
    assert_eq!(changed, vec![pkg("b", "1")]);
}

#[test]
fn find_updated_packages_of_identical_snapshots_is_empty() {
    let initial = snap(&[("a", "1"), ("b", "1")]);
    let current = snap(&[("a", "1"), ("b", "1")]);
    assert_eq!(find_updated_packages(&initial, &current), vec![]);
}

#[test]
fn find_updated_packages_returns_sorted_order() {
    let initial = snap(&[("z", "1"), ("m", "1"), ("a", "1")]);
    let current = snap(&[("q", "9")]);
    let changed = find_updated_packages(&initial, &current);
    assert_eq!(changed, vec![pkg("a", "1"), pkg("m", "1"), pkg("z", "1")]);
}
