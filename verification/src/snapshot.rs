//! Lockfile snapshots and snapshot diffing.
//!
//! A snapshot is the sorted, deduplicated list of default-registry package
//! identities read from a lockfile. Snapshots are compared as sets: a
//! package "changed" when its exact (name, version) pair from the old
//! snapshot no longer appears in the new one.

use crate::order::Cmp;
use crate::package::{lemma_pkg_lt_transitive, lemma_pkg_lt_trichotomy, pkg_lt, PackageInfo,
    PkgId};
use vstd::prelude::*;

verus! {

/// The identities of a sequence of packages, in the same order.
pub open spec fn views_of(s: Seq<PackageInfo>) -> Seq<PkgId> {
    Seq::new(s.len(), |i: int| s[i]@)
}

/// Strictly ascending by `pkg_lt`: sorted, with no duplicate identity.
pub open spec fn strictly_sorted(s: Seq<PkgId>) -> bool {
    forall|i: int, j: int| 0 <= i < j < s.len() ==> pkg_lt(s[i], s[j])
}

/// The identities of `s0` that are absent from `s1`, in `s0`'s order:
/// the packages that changed between the two snapshots.
pub open spec fn changed_of(s0: Seq<PkgId>, s1: Seq<PkgId>) -> Seq<PkgId>
    decreases s0.len(),
{
    if s0.len() == 0 {
        Seq::empty()
    } else {
        let rest = changed_of(s0.drop_last(), s1);
        if s1.contains(s0.last()) {
            rest
        } else {
            rest.push(s0.last())
        }
    }
}

/// How many packages of `s0` changed between the two snapshots.
pub open spec fn changed_count(s0: Seq<PkgId>, s1: Seq<PkgId>) -> int {
    changed_of(s0, s1).len() as int
}

/// Membership in `changed_of`: exactly the identities of `s0` that `s1`
/// lacks.
pub proof fn lemma_changed_of_contains(s0: Seq<PkgId>, s1: Seq<PkgId>)
    ensures
        forall|x: PkgId|
            #[trigger] changed_of(s0, s1).contains(x) <==> s0.contains(x) && !s1.contains(x),
    decreases s0.len(),
{
    if s0.len() > 0 {
        let d = s0.drop_last();
        lemma_changed_of_contains(d, s1);
        let c = changed_of(s0, s1);
        let cd = changed_of(d, s1);
        assert forall|x: PkgId| #[trigger] c.contains(x) implies s0.contains(x) && !s1.contains(
            x,
        ) by {
            let i = choose|i: int| 0 <= i < c.len() && c[i] == x;
            if i < cd.len() {
                assert(cd[i] == x);
                assert(cd.contains(x));
                let j = choose|j: int| 0 <= j < d.len() && d[j] == x;
                assert(s0[j] == x);
            } else {
                assert(x == s0.last());
                assert(s0[s0.len() - 1] == x);
            }
        }
        assert forall|x: PkgId| s0.contains(x) && !s1.contains(x) implies #[trigger] c.contains(
            x,
        ) by {
            let i = choose|i: int| 0 <= i < s0.len() && s0[i] == x;
            if i < s0.len() - 1 {
                assert(d[i] == x);
                assert(d.contains(x));
                assert(cd.contains(x));
                let j = choose|j: int| 0 <= j < cd.len() && cd[j] == x;
                assert(c[j] == x);
            } else {
                assert(c[c.len() - 1] == x);
            }
        }
    }
}

/// Diffing a sorted snapshot yields a sorted changed list.
pub proof fn lemma_changed_of_sorted(s0: Seq<PkgId>, s1: Seq<PkgId>)
    requires
        strictly_sorted(s0),
    ensures
        strictly_sorted(changed_of(s0, s1)),
    decreases s0.len(),
{
    if s0.len() > 0 {
        let d = s0.drop_last();
        assert(strictly_sorted(d));
        lemma_changed_of_sorted(d, s1);
        if !s1.contains(s0.last()) {
            let cd = changed_of(d, s1);
            let c = changed_of(s0, s1);
            lemma_changed_of_contains(d, s1);
            assert forall|i: int, j: int| 0 <= i < j < c.len() implies pkg_lt(c[i], c[j]) by {
                if j < cd.len() {
                    assert(c[i] == cd[i] && c[j] == cd[j]);
                } else {
                    assert(c[j] == s0.last());
                    assert(cd.contains(cd[i]));
                    assert(d.contains(c[i]));
                    let k = choose|k: int| 0 <= k < d.len() && d[k] == c[i];
                    assert(s0[k] == c[i]);
                    assert(pkg_lt(s0[k], s0[s0.len() - 1]));
                }
            }
        }
    }
}

/// No package is ever counted twice: the changed list of a sorted
/// snapshot holds pairwise distinct identities, so its length counts
/// each changed package exactly once.
pub proof fn lemma_changed_of_distinct(s0: Seq<PkgId>, s1: Seq<PkgId>)
    requires
        strictly_sorted(s0),
    ensures
        forall|i: int, j: int|
            0 <= i < j < changed_of(s0, s1).len() ==> changed_of(s0, s1)[i] != changed_of(
                s0,
                s1,
            )[j],
{
    lemma_changed_of_sorted(s0, s1);
    let c = changed_of(s0, s1);
    assert forall|i: int, j: int| 0 <= i < j < c.len() implies c[i] != c[j] by {
        assert(pkg_lt(c[i], c[j]));
        lemma_pkg_lt_trichotomy(c[i], c[j]);
    }
}

/// A strictly sorted sequence is determined by its members: two sorted
/// snapshots over the same set of identities are equal.
pub proof fn lemma_sorted_unique(a: Seq<PkgId>, b: Seq<PkgId>)
    requires
        strictly_sorted(a),
        strictly_sorted(b),
        forall|x: PkgId| #[trigger] a.contains(x) <==> #[trigger] b.contains(x),
    ensures
        a == b,
    decreases a.len(),
{
    if a.len() == 0 {
        if b.len() > 0 {
            assert(b.contains(b[0]));
            assert(a.contains(b[0]));
            assert(false);
        }
        assert(a =~= b);
    } else {
        assert(a.contains(a[0]));
        assert(b.contains(a[0]));
        assert(b.len() > 0);
        if a[0] != b[0] {
            let i = choose|i: int| 0 <= i < b.len() && b[i] == a[0];
            assert(b.contains(b[0]));
            assert(a.contains(b[0]));
            let j = choose|j: int| 0 <= j < a.len() && a[j] == b[0];
            assert(i >= 1 && j >= 1);
            assert(pkg_lt(b[0], b[i]) && pkg_lt(a[0], a[j]));
            lemma_pkg_lt_trichotomy(a[0], b[0]);
            assert(false);
        }
        let at = a.drop_first();
        let bt = b.drop_first();
        assert(forall|k: int| 0 <= k < at.len() ==> at[k] == a[k + 1]);
        assert(forall|k: int| 0 <= k < bt.len() ==> bt[k] == b[k + 1]);
        assert(strictly_sorted(at));
        assert(strictly_sorted(bt));
        assert forall|x: PkgId| #[trigger] at.contains(x) implies #[trigger] bt.contains(x) by {
            let k = choose|k: int| 0 <= k < at.len() && at[k] == x;
            assert(a[k + 1] == x);
            assert(a.contains(x));
            assert(pkg_lt(a[0], x));
            lemma_pkg_lt_trichotomy(a[0], x);
            assert(b.contains(x));
            let m = choose|m: int| 0 <= m < b.len() && b[m] == x;
            assert(m >= 1);
            assert(bt[m - 1] == x);
        }
        assert forall|x: PkgId| #[trigger] bt.contains(x) implies #[trigger] at.contains(x) by {
            let k = choose|k: int| 0 <= k < bt.len() && bt[k] == x;
            assert(b[k + 1] == x);
            assert(b.contains(x));
            assert(pkg_lt(b[0], x));
            lemma_pkg_lt_trichotomy(b[0], x);
            assert(a.contains(x));
            let m = choose|m: int| 0 <= m < a.len() && a[m] == x;
            assert(m >= 1);
            assert(at[m - 1] == x);
        }
        lemma_sorted_unique(at, bt);
        assert(a =~= b) by {
            assert(forall|k: int| 1 <= k < a.len() ==> a[k] == at[k - 1] && b[k] == bt[k - 1]);
        }
    }
}

/// A sorted, deduplicated view of the default-registry packages of a
/// lockfile, read fresh from disk and never mutated in place.
#[derive(Debug, PartialEq, Eq)]
pub struct Snapshot {
    items: Vec<PackageInfo>,
}

impl View for Snapshot {
    type V = Seq<PkgId>;

    closed spec fn view(&self) -> Seq<PkgId> {
        views_of(self.items@)
    }
}

impl Snapshot {
    /// A snapshot is well formed when its identities are strictly sorted.
    pub open spec fn wf(&self) -> bool {
        strictly_sorted(self@)
    }

    /// Number of tracked packages.
    pub fn len(&self) -> (n: usize)
        ensures
            n == self@.len(),
    {
        self.items.len()
    }

    /// The package at a position, in (name, version) order.
    pub fn get(&self, i: usize) -> (p: &PackageInfo)
        requires
            i < self@.len(),
        ensures
            p@ == self@[i as int],
    {
        &self.items[i]
    }

    /// Whether a package with exactly this identity is present.
    pub fn contains(&self, p: &PackageInfo) -> (r: bool)
        ensures
            r == self@.contains(p@),
    {
        let n = self.items.len();
        let mut i: usize = 0;
        while i < n
            invariant
                n == self.items@.len(),
                i <= n,
                forall|j: int| 0 <= j < i ==> views_of(self.items@)[j] != p@,
            decreases n - i,
        {
            match self.items[i].compare(p) {
                Cmp::Equal => {
                    proof {
                        assert(self@[i as int] == p@);
                    }
                    return true;
                },
                _ => {},
            }
            i += 1;
        }
        proof {
            assert(forall|j: int| 0 <= j < self@.len() ==> self@[j] != p@);
        }
        false
    }

    /// Builds the snapshot holding exactly the identities of `v`, sorted
    /// and deduplicated.
    pub fn from_vec(v: Vec<PackageInfo>) -> (s: Snapshot)
        ensures
            s.wf(),
            forall|x: PkgId| #[trigger] s@.contains(x) <==> views_of(v@).contains(x),
    {
        let mut items: Vec<PackageInfo> = Vec::new();
        let n = v.len();
        let mut i: usize = 0;
        while i < n
            invariant
                n == v@.len(),
                i <= n,
                strictly_sorted(views_of(items@)),
                forall|x: PkgId| #[trigger]
                    views_of(items@).contains(x) <==> views_of(v@).subrange(
                        0,
                        i as int,
                    ).contains(x),
            decreases n - i,
        {
            let ghost pre = views_of(v@).subrange(0, i as int);
            let ghost pre1 = views_of(v@).subrange(0, i as int + 1);
            insert_sorted(&mut items, v[i].clone());
            proof {
                assert forall|x: PkgId| #[trigger] pre1.contains(x) implies pre.contains(x) || x
                    == views_of(v@)[i as int] by {
                    let k = choose|k: int| 0 <= k < pre1.len() && pre1[k] == x;
                    if k < i {
                        assert(pre[k] == x);
                    }
                }
                assert forall|x: PkgId| pre.contains(x) implies #[trigger] pre1.contains(x) by {
                    let k = choose|k: int| 0 <= k < pre.len() && pre[k] == x;
                    assert(pre1[k] == x);
                }
                assert(pre1[i as int] == views_of(v@)[i as int]);
                assert(pre1.contains(views_of(v@)[i as int]));
            }
            i += 1;
        }
        proof {
            assert(views_of(v@).subrange(0, n as int) =~= views_of(v@));
        }
        Snapshot { items }
    }

    /// The empty snapshot.
    pub fn empty() -> (s: Snapshot)
        ensures
            s.wf(),
            s@ == Seq::<PkgId>::empty(),
    {
        let items: Vec<PackageInfo> = Vec::new();
        proof {
            assert(views_of(items@) =~= Seq::<PkgId>::empty());
        }
        Snapshot { items }
    }
}

/// Index of the first element of a sorted `items` that is not below `p`:
/// the position at which `p` belongs.
fn lower_bound(items: &Vec<PackageInfo>, p: &PackageInfo) -> (i: usize)
    requires
        strictly_sorted(views_of(items@)),
    ensures
        i <= items@.len(),
        forall|j: int| 0 <= j < i ==> pkg_lt(views_of(items@)[j], p@),
        i < items@.len() ==> !pkg_lt(views_of(items@)[i as int], p@),
{
    let n = items.len();
    let mut i: usize = 0;
    while i < n
        invariant
            n == items@.len(),
            i <= n,
            forall|j: int| 0 <= j < i ==> pkg_lt(views_of(items@)[j], p@),
        decreases n - i,
    {
        match items[i].compare(p) {
            Cmp::Less => {
                i += 1;
            },
            Cmp::Equal => {
                proof {
                    lemma_pkg_lt_trichotomy(views_of(items@)[i as int], p@);
                }
                return i;
            },
            Cmp::Greater => {
                proof {
                    lemma_pkg_lt_trichotomy(views_of(items@)[i as int], p@);
                }
                return i;
            },
        }
    }
    i
}

/// Inserts `p` into a sorted vector, keeping it sorted; a package already
/// present under the same identity is left alone.
fn insert_sorted(items: &mut Vec<PackageInfo>, p: PackageInfo)
    requires
        strictly_sorted(views_of(old(items)@)),
    ensures
        strictly_sorted(views_of(final(items)@)),
        forall|x: PkgId| #[trigger]
            views_of(final(items)@).contains(x) <==> views_of(old(items)@).contains(x) || x == p@,
{
    let ghost olds = views_of(items@);
    let i = lower_bound(items, &p);
    if i < items.len() {
        match items[i].compare(&p) {
            Cmp::Equal => {
                proof {
                    assert(olds[i as int] == p@);
                    assert(olds.contains(p@));
                }
                return ;
            },
            _ => {},
        }
    }
    proof {
        if i < olds.len() {
            lemma_pkg_lt_trichotomy(olds[i as int], p@);
            assert(pkg_lt(p@, olds[i as int]));
        }
    }
    items.insert(i, p);
    proof {
        let news = views_of(items@);
        assert(news.len() == olds.len() + 1);
        assert(forall|k: int| 0 <= k < i ==> news[k] == olds[k]);
        assert(news[i as int] == p@);
        assert(forall|k: int| i < k < news.len() ==> news[k] == olds[k - 1]);
        assert forall|a: int, b: int| 0 <= a < b < news.len() implies pkg_lt(news[a], news[b]) by {
            if a < i && b < i {
            } else if a < i && b == i {
                assert(pkg_lt(olds[a], p@));
            } else if a < i && b > i {
                if b - 1 == a {
                    assert(pkg_lt(olds[a], p@) && pkg_lt(p@, olds[b - 1]));
                    assert(false);
                } else {
                    assert(pkg_lt(olds[a], olds[b - 1]));
                }
            } else if a == i {
                assert(pkg_lt(p@, olds[i as int]));
                if b - 1 == i {
                } else {
                    lemma_pkg_lt_transitive(p@, olds[i as int], olds[b - 1]);
                }
            } else {
                assert(pkg_lt(olds[a - 1], olds[b - 1]));
            }
        }
        assert forall|x: PkgId| #[trigger] news.contains(x) implies olds.contains(x) || x
            == p@ by {
            let k = choose|k: int| 0 <= k < news.len() && news[k] == x;
            if k < i {
                assert(olds[k] == x);
            } else if k > i {
                assert(olds[k - 1] == x);
            }
        }
        assert forall|x: PkgId| olds.contains(x) || x == p@ implies #[trigger] news.contains(
            x,
        ) by {
            if x == p@ {
                assert(news[i as int] == x);
            } else {
                let k = choose|k: int| 0 <= k < olds.len() && olds[k] == x;
                if k < i {
                    assert(news[k] == x);
                } else {
                    assert(news[k + 1] == x);
                }
            }
        }
    }
}

/// The packages of `initial` whose identity no longer appears in
/// `current`, in `initial`'s order.
pub fn find_updated_packages(initial: &Snapshot, current: &Snapshot) -> (r: Vec<PackageInfo>)
    ensures
        views_of(r@) == changed_of(initial@, current@),
{
    let mut out: Vec<PackageInfo> = Vec::new();
    let n = initial.len();
    let mut i: usize = 0;
    while i < n
        invariant
            n == initial@.len(),
            i <= n,
            views_of(out@) == changed_of(initial@.subrange(0, i as int), current@),
        decreases n - i,
    {
        let ghost pre_out = views_of(out@);
        let p = initial.get(i);
        let present = current.contains(p);
        if !present {
            out.push(p.clone());
        }
        proof {
            let pre = initial@.subrange(0, i as int);
            let pre1 = initial@.subrange(0, i as int + 1);
            assert(pre1.drop_last() =~= pre);
            assert(pre1.last() == initial@[i as int]);
            if !present {
                assert(views_of(out@) =~= pre_out.push(initial@[i as int]));
            }
        }
        i += 1;
    }
    proof {
        assert(initial@.subrange(0, n as int) =~= initial@);
    }
    out
}

} // verus!
