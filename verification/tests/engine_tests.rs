use incremental_cargo_update::engine::{Engine, EngineAction, NetworkMode, UpdateTarget,
    UpdaterCall};
use incremental_cargo_update::package::PackageInfo;
use incremental_cargo_update::snapshot::Snapshot;

fn pkg(name: &str, version: &str) -> PackageInfo {
    PackageInfo { name: name.to_string(), version: version.to_string() }
}

fn snap(entries: &[(&str, &str)]) -> Snapshot {
    let v: Vec<PackageInfo> = entries.iter().map(|(n, ver)| pkg(n, ver)).collect();
    Snapshot::from_vec(v)
}

fn only_offline(name: &str, version: &str) -> EngineAction {
    EngineAction::RunUpdater(UpdaterCall {
        target: UpdateTarget::Only(pkg(name, version)),
        network: NetworkMode::Offline,
    })
}

#[test]
fn bulk_within_limit_finishes_without_revert() {
    // initial {A@1, B@1}, limit 5; the bulk update changes one package:
    // done at once, count 1, no revert requested
    let s0 = snap(&[("a", "1.0.0"), ("b", "1.0.0")]);
    let (mut eng, call) = Engine::new(s0, 5);
    assert!(matches!(call.target, UpdateTarget::All));
    assert!(matches!(call.network, NetworkMode::Online));
    let bulk = snap(&[("a", "2.0.0"), ("b", "1.0.0")]);
    let action = eng.on_snapshot(&bulk);
    assert_eq!(action, EngineAction::Finish(1));
    assert!(eng.is_terminal());
}

#[test]
fn bulk_at_exact_limit_finishes_without_revert() {
    let s0 = snap(&[("a", "1.0.0"), ("b", "1.0.0")]);
    let (mut eng, _) = Engine::new(s0, 2);
    let bulk = snap(&[("a", "2.0.0"), ("b", "2.0.0")]);
    let action = eng.on_snapshot(&bulk);
    assert_eq!(action, EngineAction::Finish(2));
}

#[test]
fn bulk_with_no_changes_finishes_with_zero() {
    let s0 = snap(&[("a", "1.0.0")]);
    let (mut eng, _) = Engine::new(s0, 3);
    let bulk = snap(&[("a", "1.0.0")]);
    let action = eng.on_snapshot(&bulk);
    assert_eq!(action, EngineAction::Finish(0));
}

#[test]
fn fallback_overrun_is_accepted() {
    // initial {A@1, B@1, C@1}, limit 1; the bulk update changes A and B:
    // 2 > 1, so revert; targeting A alone pulls B forward too, so the
    // first fallback snapshot already counts 2 >= 1 and the session
    // finishes with 2 — the documented accepted overrun
    let s0 = snap(&[("a", "1"), ("b", "1"), ("c", "1")]);
    let (mut eng, _) = Engine::new(s0, 1);

    let bulk = snap(&[("a", "2"), ("b", "2"), ("c", "1")]);
    let action = eng.on_snapshot(&bulk);
    assert_eq!(action, EngineAction::RevertLockfile);

    let reverted = snap(&[("a", "1"), ("b", "1"), ("c", "1")]);
    let action = eng.on_snapshot(&reverted);
    assert_eq!(action, only_offline("a", "1"));

    let after_a = snap(&[("a", "2"), ("b", "2"), ("c", "1")]);
    let action = eng.on_snapshot(&after_a);
    assert_eq!(action, EngineAction::Finish(2));
    assert!(eng.is_terminal());
}

#[test]
fn fallback_skips_disappeared_package_without_double_count() {
    // limit 3; the bulk update changes all four packages, so fall back.
    // Updating A pulls B forward as a side effect; the later iteration
    // that would target B must skip it silently (targeting a package
    // absent from the lockfile would fail) and go on to C, and B is not
    // counted twice: the count stays the size of the diff against the
    // initial snapshot
    let s0 = snap(&[("a", "1"), ("b", "1"), ("c", "1"), ("d", "1")]);
    let (mut eng, _) = Engine::new(s0, 3);

    let bulk = snap(&[("a", "2"), ("b", "2"), ("c", "2"), ("d", "2")]);
    let action = eng.on_snapshot(&bulk);
    assert_eq!(action, EngineAction::RevertLockfile);

    let reverted = snap(&[("a", "1"), ("b", "1"), ("c", "1"), ("d", "1")]);
    let action = eng.on_snapshot(&reverted);
    assert_eq!(action, only_offline("a", "1"));

    // A's own update also moved B to 2.0: count so far is 2 < 3
    let after_a = snap(&[("a", "2"), ("b", "2"), ("c", "1"), ("d", "1")]);
    let action = eng.on_snapshot(&after_a);
    assert_eq!(action, only_offline("c", "1"));

    let after_c = snap(&[("a", "2"), ("b", "2"), ("c", "2"), ("d", "1")]);
    let action = eng.on_snapshot(&after_c);
    assert_eq!(action, EngineAction::Finish(3));
}

#[test]
fn fallback_targets_follow_sorted_order() {
    // the menu is walked in (name, version) order whatever order the
    // initial snapshot was built in
    let s0 = snap(&[("zeta", "1"), ("beta", "1"), ("alpha", "1")]);
    let (mut eng, _) = Engine::new(s0, 1);

    let bulk = snap(&[("zeta", "2"), ("beta", "2"), ("alpha", "2")]);
    let action = eng.on_snapshot(&bulk);
    assert_eq!(action, EngineAction::RevertLockfile);

    let reverted = snap(&[("zeta", "1"), ("beta", "1"), ("alpha", "1")]);
    let action = eng.on_snapshot(&reverted);
    assert_eq!(action, only_offline("alpha", "1"));
}

#[test]
fn fallback_gives_up_when_menu_is_exhausted() {
    // every menu package is already gone from the current snapshot and
    // the count never reached the limit: the engine reports the
    // invariant violation instead of looping
    let s0 = snap(&[("a", "1"), ("b", "1")]);
    let (mut eng, _) = Engine::new(s0, 1);

    let bulk = snap(&[("a", "2"), ("b", "2")]);
    let action = eng.on_snapshot(&bulk);
    assert_eq!(action, EngineAction::RevertLockfile);

    // a revert that somehow left neither menu package in place
    let odd = snap(&[("x", "9")]);
    let action = eng.on_snapshot(&odd);
    assert_eq!(action, EngineAction::GiveUp);
    assert!(eng.is_terminal());
}

#[test]
fn limit_zero_finishes_immediately_on_unchanged_bulk() {
    let s0 = snap(&[("a", "1")]);
    let (mut eng, _) = Engine::new(s0, 0);
    let bulk = snap(&[("a", "1")]);
    let action = eng.on_snapshot(&bulk);
    assert_eq!(action, EngineAction::Finish(0));
}
