//! The exact command lines handed to the version-control tool and the
//! external updater, and the decisions read off their output.
//!
//! Running the processes is the caller's business; what is asked of them
//! — every argument, and what their output means — is pinned down here.

use crate::engine::{NetworkMode, UpdateTarget, UpdaterCall};
use vstd::prelude::*;

verus! {

/// The character sequences of a list of strings, in order.
pub open spec fn string_views(s: Seq<String>) -> Seq<Seq<char>> {
    Seq::new(s.len(), |i: int| s[i]@)
}

/// The argument list of one updater invocation: `update`, then
/// `--package name@version` for a single-package update, then
/// `--offline` when the registry cache must not be refreshed.
pub open spec fn updater_args_of(call: UpdaterCall) -> Seq<Seq<char>> {
    let base = match call.target {
        UpdateTarget::All => seq!["update"@],
        UpdateTarget::Only(p) => seq!["update"@, "--package"@, p.name@ + seq!['@'] + p.version@],
    };
    match call.network {
        NetworkMode::Online => base,
        NetworkMode::Offline => base + seq!["--offline"@],
    }
}

/// Builds the exact arguments for one invocation of the external updater,
/// to be run in the lockfile's directory.
pub fn cargo_update_args(call: &UpdaterCall) -> (r: Vec<String>)
    ensures
        string_views(r@) == updater_args_of(*call),
{
    let mut args: Vec<String> = Vec::new();
    args.push("update".to_owned());
    match &call.target {
        UpdateTarget::All => {},
        UpdateTarget::Only(p) => {
            args.push("--package".to_owned());
            args.push(p.update_spec_string());
        },
    }
    match call.network {
        NetworkMode::Online => {},
        NetworkMode::Offline => {
            args.push("--offline".to_owned());
        },
    }
    proof {
        assert(string_views(args@) =~= updater_args_of(*call));
    }
    args
}

/// Arguments of the cleanliness check: `git status --porcelain`, run in
/// the repository root.
pub fn git_status_args() -> (r: Vec<String>)
    ensures
        string_views(r@) == seq!["status"@, "--porcelain"@],
{
    let mut args: Vec<String> = Vec::new();
    args.push("status".to_owned());
    args.push("--porcelain".to_owned());
    proof {
        assert(string_views(args@) =~= seq!["status"@, "--porcelain"@]);
    }
    args
}

/// Arguments of the revert step: `git checkout -- <file>`, run in the
/// file's parent directory.
pub fn git_checkout_file_args(file_name: &str) -> (r: Vec<String>)
    ensures
        string_views(r@) == seq!["checkout"@, "--"@, file_name@],
{
    let mut args: Vec<String> = Vec::new();
    args.push("checkout".to_owned());
    args.push("--".to_owned());
    args.push(file_name.to_owned());
    proof {
        assert(string_views(args@) =~= seq!["checkout"@, "--"@, file_name@]);
    }
    args
}

/// Arguments of the isolated-checkout creation: a forced worktree-add, so
/// a stale directory or lock does not block it.
pub fn git_worktree_add_args(dir: &str, checkout_ref: &str) -> (r: Vec<String>)
    ensures
        string_views(r@) == seq!["worktree"@, "add"@, "--force"@, dir@, checkout_ref@],
{
    let mut args: Vec<String> = Vec::new();
    args.push("worktree".to_owned());
    args.push("add".to_owned());
    args.push("--force".to_owned());
    args.push(dir.to_owned());
    args.push(checkout_ref.to_owned());
    proof {
        assert(string_views(args@) =~= seq![
            "worktree"@,
            "add"@,
            "--force"@,
            dir@,
            checkout_ref@,
        ]);
    }
    args
}

/// Arguments of the isolated-checkout teardown: a forced worktree-remove.
pub fn git_worktree_remove_args(dir: &str) -> (r: Vec<String>)
    ensures
        string_views(r@) == seq!["worktree"@, "remove"@, "--force"@, dir@],
{
    let mut args: Vec<String> = Vec::new();
    args.push("worktree".to_owned());
    args.push("remove".to_owned());
    args.push("--force".to_owned());
    args.push(dir.to_owned());
    proof {
        assert(string_views(args@) =~= seq!["worktree"@, "remove"@, "--force"@, dir@]);
    }
    args
}

/// Arguments of the commit step: `git commit -a -m <message>`, run in the
/// working tree whose pending changes are to be committed.
pub fn git_commit_all_args(message: &str) -> (r: Vec<String>)
    ensures
        string_views(r@) == seq!["commit"@, "-a"@, "-m"@, message@],
{
    let mut args: Vec<String> = Vec::new();
    args.push("commit".to_owned());
    args.push("-a".to_owned());
    args.push("-m".to_owned());
    args.push(message.to_owned());
    proof {
        assert(string_views(args@) =~= seq!["commit"@, "-a"@, "-m"@, message@]);
    }
    args
}

/// An ASCII whitespace byte: space, tab, line feed, form feed or
/// carriage return.
pub open spec fn is_ascii_whitespace_byte(b: u8) -> bool {
    b == 32 || b == 9 || b == 10 || b == 12 || b == 13
}

/// Reads the verdict of the cleanliness check off the captured output of
/// `git status --porcelain`: any non-whitespace byte means uncommitted
/// changes, which makes an in-place run unsafe to start.
pub fn status_output_is_dirty(stdout: &Vec<u8>) -> (r: bool)
    ensures
        r == exists|i: int|
            0 <= i < stdout@.len() && !is_ascii_whitespace_byte(#[trigger] stdout@[i]),
{
    let n = stdout.len();
    let mut i: usize = 0;
    while i < n
        invariant
            n == stdout@.len(),
            i <= n,
            forall|j: int| 0 <= j < i ==> is_ascii_whitespace_byte(#[trigger] stdout@[j]),
        decreases n - i,
    {
        let b = stdout[i];
        if !(b == 32 || b == 9 || b == 10 || b == 12 || b == 13) {
            return true;
        }
        i += 1;
    }
    false
}

/// Walks from a directory up toward the filesystem root looking for the
/// enclosing repository. The caller reports, for the directory itself and
/// then each ancestor in turn, whether it holds a `.git` entry; the
/// result is how many steps up the nearest repository root lies.
pub fn find_git_repo_root(ancestor_has_git: &Vec<bool>) -> (r: Option<usize>)
    ensures
        r matches Some(i) ==> i < ancestor_has_git@.len() && ancestor_has_git@[i as int]
            && forall|j: int| 0 <= j < i ==> !ancestor_has_git@[j],
        r is None ==> forall|j: int| 0 <= j < ancestor_has_git@.len() ==> !ancestor_has_git@[j],
{
    let n = ancestor_has_git.len();
    let mut i: usize = 0;
    while i < n
        invariant
            n == ancestor_has_git@.len(),
            i <= n,
            forall|j: int| 0 <= j < i ==> !ancestor_has_git@[j],
        decreases n - i,
    {
        if ancestor_has_git[i] {
            return Some(i);
        }
        i += 1;
    }
    None
}

} // verus!
