//! Reading lockfile snapshots.
//!
//! The lockfile's TOML syntax is handed to the `cargo_lock` crate; what it
//! parses out is then filtered down to the default-registry packages and
//! canonicalised into a sorted [`Snapshot`]. Only the parse itself is
//! trusted; the filtering and ordering are verified here.

use crate::package::{PackageInfo, PkgId};
use crate::snapshot::{lemma_sorted_unique, views_of, Snapshot};
use vstd::prelude::*;

verus! {

/// One package entry as it stands in the lockfile: its name, its exact
/// version, and whether its source is the default public registry.
#[derive(Debug, PartialEq, Eq)]
pub struct LockfileEntry {
    pub name: String,
    pub version: String,
    pub from_default_registry: bool,
}

impl View for LockfileEntry {
    type V = (Seq<char>, Seq<char>, bool);

    open spec fn view(&self) -> (Seq<char>, Seq<char>, bool) {
        (self.name@, self.version@, self.from_default_registry)
    }
}

/// The entry identities of a sequence of lockfile entries, in order.
pub open spec fn entry_views(s: Seq<LockfileEntry>) -> Seq<(Seq<char>, Seq<char>, bool)> {
    Seq::new(s.len(), |i: int| s[i]@)
}

/// The lockfile was missing, unreadable or malformed; fatal, with no
/// partial-snapshot recovery.
#[derive(Debug, PartialEq, Eq)]
pub struct LockfileReadError {
    pub message: String,
}

/// What parsing a given lockfile text yields: `None` when the text is not
/// a well-formed lockfile, otherwise every package entry in file order,
/// as (name, version, is-from-the-default-registry). A function of the
/// text alone.
pub uninterp spec fn lockfile_entries(text: Seq<char>) -> Option<
    Seq<(Seq<char>, Seq<char>, bool)>,
>;

/// Relies on `cargo_lock::Lockfile`'s `FromStr` to parse lockfile text,
/// on `cargo_lock::package::SourceId::is_default_registry` to classify
/// each entry's source, and on the `name`/`version` fields' string forms;
/// the outcome is a function of the text alone.
#[verifier::external_body]
fn parse_lockfile_text(text: &str) -> (r: Result<Vec<LockfileEntry>, LockfileReadError>)
    ensures
        r is Ok <==> lockfile_entries(text@) is Some,
        r matches Ok(v) ==> lockfile_entries(text@) == Some(entry_views(v@)),
{
    let lockfile: cargo_lock::Lockfile = match text.parse() {
        Ok(l) => l,
        Err(e) => return Err(LockfileReadError { message: e.to_string() }),
    };
    let mut out = Vec::new();
    for p in lockfile.packages {
        out.push(LockfileEntry {
            name: p.name.as_str().to_owned(),
            version: p.version.to_string(),
            from_default_registry: p.source.as_ref().map_or(false, |s| s.is_default_registry()),
        });
    }
    Ok(out)
}

/// The snapshot `snap` holds exactly the identities that the lockfile
/// entries `entries` declare as coming from the default registry.
pub open spec fn snapshot_matches_entries(
    snap: Seq<PkgId>,
    entries: Seq<(Seq<char>, Seq<char>, bool)>,
) -> bool {
    forall|x: PkgId| #[trigger] snap.contains(x) <==> entries.contains((x.0, x.1, true))
}

/// Membership in a prefix extended by one element.
proof fn lemma_subrange_extend<T>(s: Seq<T>, i: int)
    requires
        0 <= i < s.len(),
    ensures
        forall|x: T|
            #[trigger] s.subrange(0, i + 1).contains(x) <==> s.subrange(0, i).contains(x) || x
                == s[i],
{
    let pre = s.subrange(0, i);
    let pre1 = s.subrange(0, i + 1);
    assert forall|x: T| #[trigger] pre1.contains(x) implies pre.contains(x) || x == s[i] by {
        let k = choose|k: int| 0 <= k < pre1.len() && pre1[k] == x;
        if k < i {
            assert(pre[k] == x);
        }
    }
    assert forall|x: T| pre.contains(x) || x == s[i] implies #[trigger] pre1.contains(x) by {
        if pre.contains(x) {
            let k = choose|k: int| 0 <= k < pre.len() && pre[k] == x;
            assert(pre1[k] == x);
        } else {
            assert(pre1[i] == x);
        }
    }
}

/// Reads the packages of a lockfile given as text: parses it, keeps the
/// entries resolved from the default registry, and returns them as a
/// sorted, deduplicated snapshot. Fails exactly when the text is not a
/// well-formed lockfile.
pub fn parse_cargo_lock_packages(text: &str) -> (r: Result<Snapshot, LockfileReadError>)
    ensures
        r is Ok <==> lockfile_entries(text@) is Some,
        r matches Ok(s) ==> s.wf() && snapshot_matches_entries(
            s@,
            lockfile_entries(text@)->Some_0,
        ),
{
    let entries = match parse_lockfile_text(text) {
        Ok(v) => v,
        Err(e) => {
            return Err(e);
        },
    };
    let ghost evs = entry_views(entries@);
    let mut pkgs: Vec<PackageInfo> = Vec::new();
    let n = entries.len();
    let mut i: usize = 0;
    while i < n
        invariant
            n == entries@.len(),
            i <= n,
            evs == entry_views(entries@),
            forall|x: PkgId| #[trigger]
                views_of(pkgs@).contains(x) <==> evs.subrange(0, i as int).contains(
                    (x.0, x.1, true),
                ),
        decreases n - i,
    {
        let ghost pre_pkgs = views_of(pkgs@);
        let e = &entries[i];
        if e.from_default_registry {
            pkgs.push(PackageInfo { name: e.name.clone(), version: e.version.clone() });
        }
        proof {
            lemma_subrange_extend(evs, i as int);
            assert(evs[i as int] == entries@[i as int]@);
            if e.from_default_registry {
                assert forall|x: PkgId| #[trigger] views_of(pkgs@).contains(x) implies pre_pkgs
                    .contains(x) || x == (e.name@, e.version@) by {
                    let k = choose|k: int| 0 <= k < views_of(pkgs@).len() && views_of(pkgs@)[k]
                        == x;
                    if k < pre_pkgs.len() {
                        assert(pre_pkgs[k] == x);
                    }
                }
                assert forall|x: PkgId| pre_pkgs.contains(x) || x == (
                    e.name@,
                    e.version@,
                ) implies #[trigger] views_of(pkgs@).contains(x) by {
                    if pre_pkgs.contains(x) {
                        let k = choose|k: int| 0 <= k < pre_pkgs.len() && pre_pkgs[k] == x;
                        assert(views_of(pkgs@)[k] == x);
                    } else {
                        assert(views_of(pkgs@)[pre_pkgs.len() as int] == x);
                    }
                }
            }
        }
        i += 1;
    }
    proof {
        assert(evs.subrange(0, n as int) =~= evs);
    }
    Ok(Snapshot::from_vec(pkgs))
}

/// Reading is idempotent: with no mutation in between, two snapshots read
/// from the same lockfile text are structurally equal.
pub proof fn lemma_read_deterministic(text: Seq<char>, a: Snapshot, b: Snapshot)
    requires
        a.wf(),
        b.wf(),
        lockfile_entries(text) is Some,
        snapshot_matches_entries(a@, lockfile_entries(text)->Some_0),
        snapshot_matches_entries(b@, lockfile_entries(text)->Some_0),
    ensures
        a@ == b@,
{
    let entries = lockfile_entries(text)->Some_0;
    assert forall|x: PkgId| #[trigger] a@.contains(x) <==> #[trigger] b@.contains(x) by {
        assert(a@.contains(x) <==> entries.contains((x.0, x.1, true)));
        assert(b@.contains(x) <==> entries.contains((x.0, x.1, true)));
    }
    lemma_sorted_unique(a@, b@);
}

} // verus!
