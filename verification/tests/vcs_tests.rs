use incremental_cargo_update::engine::{NetworkMode, UpdateTarget, UpdaterCall};
use incremental_cargo_update::package::PackageInfo;
use incremental_cargo_update::vcs::{cargo_update_args, find_git_repo_root, git_checkout_file_args,
    git_commit_all_args, git_status_args, git_worktree_add_args, git_worktree_remove_args,
    status_output_is_dirty};

fn pkg(name: &str, version: &str) -> PackageInfo {
    PackageInfo { name: name.to_string(), version: version.to_string() }
}

#[test]
fn bulk_online_update_arguments() {
    let call = UpdaterCall { target: UpdateTarget::All, network: NetworkMode::Online };
    assert_eq!(cargo_update_args(&call), vec!["update"]);
}

#[test]
fn single_package_offline_update_arguments() {
    let call = UpdaterCall {
        target: UpdateTarget::Only(pkg("serde", "1.0.190")),
        network: NetworkMode::Offline,
    };
    assert_eq!(
        cargo_update_args(&call),
        vec!["update", "--package", "serde@1.0.190", "--offline"]
    );
}

#[test]
fn bulk_offline_update_arguments() {
    let call = UpdaterCall { target: UpdateTarget::All, network: NetworkMode::Offline };
    assert_eq!(cargo_update_args(&call), vec!["update", "--offline"]);
}

#[test]
fn update_spec_string_joins_name_and_version() {
    assert_eq!(pkg("serde", "1.0.0").update_spec_string(), "serde@1.0.0");
}

#[test]
fn git_argument_lists() {
    assert_eq!(git_status_args(), vec!["status", "--porcelain"]);
    assert_eq!(git_checkout_file_args("Cargo.lock"), vec!["checkout", "--", "Cargo.lock"]);
    assert_eq!(
        git_worktree_add_args("/tmp/wt", "main"),
        vec!["worktree", "add", "--force", "/tmp/wt", "main"]
    );
    assert_eq!(
        git_worktree_remove_args("/tmp/wt"),
        vec!["worktree", "remove", "--force", "/tmp/wt"]
    );
    assert_eq!(
        git_commit_all_args("bump dependencies"),
        vec!["commit", "-a", "-m", "bump dependencies"]
    );
}

#[test]
fn empty_status_output_is_clean() {
    assert!(!status_output_is_dirty(&Vec::new()));
}

#[test]
fn whitespace_only_status_output_is_clean() {
    assert!(!status_output_is_dirty(&b" \t\r\n \x0c".to_vec()));
}

#[test]
fn modified_file_in_status_output_is_dirty() {
    assert!(status_output_is_dirty(&b" M Cargo.lock\n".to_vec()));
}

#[test]
fn repo_root_is_nearest_ancestor_with_git_entry() {
    // the directory itself has no .git, its parent does
    assert_eq!(find_git_repo_root(&vec![false, true, true]), Some(1));
    assert_eq!(find_git_repo_root(&vec![true, false]), Some(0));
}

#[test]
fn no_git_ancestor_means_no_repo_root() {
    assert_eq!(find_git_repo_root(&vec![false, false, false]), None);
    assert_eq!(find_git_repo_root(&Vec::new()), None);
}
