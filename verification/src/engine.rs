//! The bounded update engine.
//!
//! A state machine over lockfile snapshots. The caller owns every side
//! effect: it runs the external updater, reverts the lockfile, and reads
//! snapshots; the engine makes every decision. After each requested
//! action the caller reads the lockfile afresh and feeds the snapshot to
//! [`Engine::on_snapshot`], which answers with the next action.
//!
//! The session starts with one online bulk update attempt. If at most
//! `max_updates` packages changed, the engine finishes with that count and
//! never asks for a revert. Otherwise it asks for a revert and re-applies
//! the originally-observed changed packages one at a time, offline, in
//! sorted order — skipping any that an earlier step already pulled
//! forward — until the cumulative change count against the initial
//! snapshot first reaches the limit.

use crate::package::{PackageInfo, PkgId};
use crate::snapshot::{changed_count, changed_of, find_updated_packages, lemma_changed_of_sorted,
    strictly_sorted, views_of, Snapshot};
use vstd::prelude::*;

verus! {

/// Whether the external updater may contact the remote registry.
#[derive(Debug, Clone, Copy, PartialEq, Eq)]
pub enum NetworkMode {
    /// May refresh the registry cache over the network.
    Online,
    /// Must resolve from the already-cached registry metadata.
    Offline,
}

/// Which packages the external updater is asked to update.
#[derive(Debug, PartialEq, Eq)]
pub enum UpdateTarget {
    /// Try to update every package.
    All,
    /// Try to update exactly this package, with whatever transitive
    /// re-resolution it needs, but not aggressively.
    Only(PackageInfo),
}

/// One invocation of the external updater.
#[derive(Debug, PartialEq, Eq)]
pub struct UpdaterCall {
    pub target: UpdateTarget,
    pub network: NetworkMode,
}

/// What the engine asks its caller to do next.
#[derive(Debug, PartialEq, Eq)]
pub enum EngineAction {
    /// Run the external updater as described, then read a fresh snapshot
    /// and feed it back in.
    RunUpdater(UpdaterCall),
    /// Revert the lockfile to its last committed state, then read a fresh
    /// snapshot and feed it back in.
    RevertLockfile,
    /// The session is over; this many packages were updated.
    Finish(usize),
    /// The fallback loop ran out of packages before the change count
    /// reached the limit. One-at-a-time updates cannot make less total
    /// progress than the bulk attempt they replay, so this is an
    /// invariant violation for the caller to abort on, not an error to
    /// recover from.
    GiveUp,
}

/// What the fallback loop is specified to return over the snapshots it
/// observes in turn: the change count of the first snapshot whose count
/// against the initial snapshot reaches the limit, if any does.
pub open spec fn fallback_outcome(
    initial: Seq<PkgId>,
    snaps: Seq<Seq<PkgId>>,
    limit: int,
) -> Option<int>
    decreases snaps.len(),
{
    if snaps.len() == 0 {
        Option::None
    } else if changed_count(initial, snaps.first()) >= limit {
        Option::Some(changed_count(initial, snaps.first()))
    } else {
        fallback_outcome(initial, snaps.drop_first(), limit)
    }
}

/// The returned count is the first prefix-cumulative count that reaches
/// the limit: when every snapshot of `snaps` keeps the count below the
/// limit and the next one reaches it, the loop's outcome over the whole
/// trace is exactly that first reaching count.
pub proof fn lemma_fallback_outcome_at_first_reach(
    initial: Seq<PkgId>,
    snaps: Seq<Seq<PkgId>>,
    last: Seq<PkgId>,
    limit: int,
)
    requires
        forall|k: int| 0 <= k < snaps.len() ==> changed_count(initial, #[trigger] snaps[k]) < limit,
        changed_count(initial, last) >= limit,
    ensures
        fallback_outcome(initial, snaps.push(last), limit) == Some(changed_count(initial, last)),
    decreases snaps.len(),
{
    let trace = snaps.push(last);
    if snaps.len() == 0 {
        assert(trace.first() == last);
    } else {
        assert(trace.first() == snaps[0]);
        assert(trace.drop_first() =~= snaps.drop_first().push(last));
        assert(forall|k: int|
            0 <= k < snaps.drop_first().len() ==> changed_count(
                initial,
                #[trigger] snaps.drop_first()[k],
            ) < limit);
        lemma_fallback_outcome_at_first_reach(initial, snaps.drop_first(), last, limit);
    }
}

enum Phase {
    AwaitBulk,
    AwaitRevert { remaining: Vec<PackageInfo> },
    AwaitStep { remaining: Vec<PackageInfo>, idx: usize },
    Done { count: usize },
    Stuck,
}

/// The bounded update engine; see the module description for the protocol.
pub struct Engine {
    limit: usize,
    initial: Snapshot,
    phase: Phase,
    history: Ghost<Seq<Seq<PkgId>>>,
}

impl Engine {
    /// The soft limit on the number of changed packages.
    pub closed spec fn limit(&self) -> int {
        self.limit as int
    }

    /// The initial snapshot: the stable baseline every change count is
    /// measured against.
    pub closed spec fn initial(&self) -> Seq<PkgId> {
        self.initial@
    }

    /// Awaiting the snapshot read after the bulk update attempt.
    pub closed spec fn awaiting_bulk(&self) -> bool {
        self.phase is AwaitBulk
    }

    /// Awaiting the snapshot read after the revert.
    pub closed spec fn awaiting_revert(&self) -> bool {
        self.phase is AwaitRevert
    }

    /// Awaiting the snapshot read after a single-package update.
    pub closed spec fn in_fallback(&self) -> bool {
        self.phase is AwaitStep
    }

    /// The session finished with a count.
    pub closed spec fn done(&self) -> bool {
        self.phase is Done
    }

    /// The session aborted on the exhausted fallback loop.
    pub closed spec fn stuck(&self) -> bool {
        self.phase is Stuck
    }

    /// The fixed menu of packages the fallback loop walks: the packages
    /// the bulk attempt was observed to change, in sorted order.
    pub closed spec fn remaining(&self) -> Seq<PkgId> {
        match self.phase {
            Phase::AwaitRevert { remaining } => views_of(remaining@),
            Phase::AwaitStep { remaining, .. } => views_of(remaining@),
            _ => Seq::<PkgId>::empty(),
        }
    }

    /// The index into `remaining` of the package whose update is in
    /// flight.
    pub closed spec fn next_index(&self) -> int {
        match self.phase {
            Phase::AwaitStep { idx, .. } => idx as int,
            _ => 0,
        }
    }

    /// The final count, once done.
    pub closed spec fn done_count(&self) -> int {
        match self.phase {
            Phase::Done { count } => count as int,
            _ => 0,
        }
    }

    /// The snapshots observed after the single-package updates that did
    /// not end the session.
    pub closed spec fn observed(&self) -> Seq<Seq<PkgId>> {
        self.history@
    }

    /// Every snapshot observed so far in the fallback loop left the
    /// change count below the limit: the loop never runs past the first
    /// snapshot that reaches it.
    pub open spec fn observed_below_limit(&self) -> bool {
        forall|k: int|
            0 <= k < self.observed().len() ==> changed_count(
                self.initial(),
                #[trigger] self.observed()[k],
            ) < self.limit()
    }

    pub closed spec fn inv(&self) -> bool {
        &&& self.initial.wf()
        &&& strictly_sorted(self.remaining())
        &&& self.observed_below_limit()
        &&& match self.phase {
            Phase::AwaitBulk => self.history@.len() == 0,
            Phase::AwaitRevert { remaining } => remaining@.len() > self.limit as int
                && self.history@.len() == 0,
            Phase::AwaitStep { remaining, idx } => idx < remaining@.len(),
            _ => true,
        }
    }

    /// Starts a bounded-update session against the packages of
    /// `initial`. The returned call is the session's one online bulk
    /// update attempt; the caller runs it, reads a fresh snapshot and
    /// hands it to [`Engine::on_snapshot`].
    pub fn new(initial: Snapshot, max_updates: usize) -> (r: (Engine, UpdaterCall))
        requires
            initial.wf(),
        ensures
            r.0.inv(),
            r.0.awaiting_bulk(),
            !r.0.done() && !r.0.stuck(),
            r.0.initial() == initial@,
            r.0.limit() == max_updates as int,
            r.0.observed() == Seq::<Seq<PkgId>>::empty(),
            r.1.target is All,
            r.1.network is Online,
    {
        let engine = Engine {
            limit: max_updates,
            initial,
            phase: Phase::AwaitBulk,
            history: Ghost(Seq::empty()),
        };
        let call = UpdaterCall { target: UpdateTarget::All, network: NetworkMode::Online };
        (engine, call)
    }

    /// Whether the session has ended, by finishing or by giving up.
    pub fn is_terminal(&self) -> (r: bool)
        ensures
            r == (self.done() || self.stuck()),
    {
        match &self.phase {
            Phase::Done { .. } => true,
            Phase::Stuck => true,
            _ => false,
        }
    }

    /// Feeds the engine the snapshot read after its previously requested
    /// action, and returns the next action.
    ///
    /// After the bulk attempt: a change count within the limit finishes
    /// with exactly that count and no revert is ever requested; a count
    /// over the limit asks for a revert, and the observed changed list
    /// becomes the fallback menu. After the revert, and after each
    /// single-package update that leaves the count below the limit, the
    /// next still-present package of the menu is targeted offline;
    /// packages whose identity already disappeared are skipped, exactly
    /// those. The session finishes at the first fallback snapshot whose
    /// cumulative count against the initial snapshot reaches the limit.
    pub fn on_snapshot(&mut self, snap: &Snapshot) -> (a: EngineAction)
        requires
            old(self).inv(),
            !old(self).done(),
            !old(self).stuck(),
        ensures
            final(self).inv(),
            final(self).initial() == old(self).initial(),
            final(self).limit() == old(self).limit(),
            final(self).observed_below_limit(),
            // after the bulk attempt, within the limit: finish, no revert
            (old(self).awaiting_bulk() && changed_count(old(self).initial(), snap@) <= old(
                self,
            ).limit()) ==> {
                &&& (a matches EngineAction::Finish(c) && c as int == changed_count(
                    old(self).initial(),
                    snap@,
                ))
                &&& final(self).done()
                &&& final(self).done_count() == changed_count(old(self).initial(), snap@)
            },
            // after the bulk attempt, over the limit: revert, and the
            // observed changed packages become the fallback menu
            (old(self).awaiting_bulk() && changed_count(old(self).initial(), snap@) > old(
                self,
            ).limit()) ==> {
                &&& a is RevertLockfile
                &&& final(self).awaiting_revert()
                &&& final(self).remaining() == changed_of(old(self).initial(), snap@)
            },
            // after the revert: target the first menu package still
            // present, skipping exactly the absent ones
            old(self).awaiting_revert() ==> final(self).observed() == old(self).observed() && (
            final(self).in_fallback() ==> final(self).remaining() == old(self).remaining()),
            (old(self).awaiting_revert() && (exists|i: int|
                0 <= i < old(self).remaining().len() && snap@.contains(
                    #[trigger] old(self).remaining()[i],
                ))) ==> {
                &&& final(self).in_fallback()
                &&& 0 <= final(self).next_index() < old(self).remaining().len()
                &&& snap@.contains(old(self).remaining()[final(self).next_index()])
                &&& forall|j: int|
                    0 <= j < final(self).next_index() ==> !snap@.contains(
                        #[trigger] old(self).remaining()[j],
                    )
                &&& (a matches EngineAction::RunUpdater(call) && call.network is Offline && (
                call.target matches UpdateTarget::Only(p) && p@ == old(self).remaining()[
                    final(self).next_index()
                ]))
            },
            (old(self).awaiting_revert() && (forall|i: int|
                0 <= i < old(self).remaining().len() ==> !snap@.contains(
                    #[trigger] old(self).remaining()[i],
                ))) ==> a is GiveUp && final(self).stuck(),
            // in the fallback loop, the count reached the limit: finish
            // with exactly the cumulative count; every earlier observed
            // count stayed below the limit
            (old(self).in_fallback() && changed_count(old(self).initial(), snap@) >= old(
                self,
            ).limit()) ==> {
                &&& (a matches EngineAction::Finish(c) && c as int == changed_count(
                    old(self).initial(),
                    snap@,
                ))
                &&& final(self).done()
                &&& final(self).done_count() == changed_count(old(self).initial(), snap@)
                &&& final(self).observed() == old(self).observed()
                &&& fallback_outcome(
                    old(self).initial(),
                    old(self).observed().push(snap@),
                    old(self).limit(),
                ) == Some(changed_count(old(self).initial(), snap@))
            },
            // in the fallback loop, still under the limit: record the
            // snapshot and target the next still-present menu package
            (old(self).in_fallback() && changed_count(old(self).initial(), snap@) < old(
                self,
            ).limit()) ==> {
                &&& final(self).observed() == old(self).observed().push(snap@)
                &&& (final(self).in_fallback() ==> final(self).remaining() == old(
                    self,
                ).remaining())
            },
            (old(self).in_fallback() && changed_count(old(self).initial(), snap@) < old(
                self,
            ).limit() && (exists|i: int|
                old(self).next_index() < i < old(self).remaining().len() && snap@.contains(
                    #[trigger] old(self).remaining()[i],
                ))) ==> {
                &&& final(self).in_fallback()
                &&& old(self).next_index() < final(self).next_index() < old(
                    self,
                ).remaining().len()
                &&& snap@.contains(old(self).remaining()[final(self).next_index()])
                &&& forall|j: int|
                    old(self).next_index() < j < final(self).next_index() ==> !snap@.contains(
                        #[trigger] old(self).remaining()[j],
                    )
                &&& (a matches EngineAction::RunUpdater(call) && call.network is Offline && (
                call.target matches UpdateTarget::Only(p) && p@ == old(self).remaining()[
                    final(self).next_index()
                ]))
            },
            (old(self).in_fallback() && changed_count(old(self).initial(), snap@) < old(
                self,
            ).limit() && (forall|i: int|
                old(self).next_index() < i < old(self).remaining().len() ==> !snap@.contains(
                    #[trigger] old(self).remaining()[i],
                ))) ==> a is GiveUp && final(self).stuck(),
    {
        let changed = find_updated_packages(&self.initial, snap);
        let c = changed.len();
        proof {
            assert(views_of(changed@).len() == changed@.len());
        }
        match &self.phase {
            Phase::AwaitBulk => {
                if c <= self.limit {
                    self.phase = Phase::Done { count: c };
                    proof { assert(self.observed_below_limit()); assert(self.inv()); }
                    EngineAction::Finish(c)
                } else {
                    proof {
                        lemma_changed_of_sorted(self.initial@, snap@);
                    }
                    self.phase = Phase::AwaitRevert { remaining: changed };
                    proof { assert(self.observed_below_limit()); assert(self.inv()); }
                    EngineAction::RevertLockfile
                }
            },
            Phase::AwaitRevert { remaining } => {
                let rem = clone_packages(remaining);
                match scan_next(&rem, snap, 0) {
                    Some(i) => {
                        let p = rem[i].clone();
                        self.phase = Phase::AwaitStep { remaining: rem, idx: i };
                        EngineAction::RunUpdater(
                            UpdaterCall {
                                target: UpdateTarget::Only(p),
                                network: NetworkMode::Offline,
                            },
                        )
                    },
                    None => {
                        self.phase = Phase::Stuck;
                        EngineAction::GiveUp
                    },
                }
            },
            Phase::AwaitStep { remaining, idx } => {
                let idx = *idx;
                if c >= self.limit {
                    self.phase = Phase::Done { count: c };
                    proof {
                        assert(old(self).observed_below_limit());
                        assert(self.observed() == old(self).observed());
                        assert(self.observed_below_limit());
                        lemma_fallback_outcome_at_first_reach(
                            self.initial(),
                            old(self).observed(),
                            snap@,
                            self.limit(),
                        );
                    }
                    EngineAction::Finish(c)
                } else {
                    let rem = clone_packages(remaining);
                    let n = rem.len();
                    assert(idx < n);
                    self.history = Ghost(self.history@.push(snap@));
                    proof {
                        assert(old(self).observed_below_limit());
                        assert(changed_count(self.initial(), snap@) == c as int);
                        assert(self.observed() == old(self).observed().push(snap@));
                        assert forall|k: int|
                            0 <= k < self.observed().len() implies changed_count(
                            self.initial(),
                            #[trigger] self.observed()[k],
                        ) < self.limit() by {
                            if k < old(self).observed().len() {
                                assert(old(self).observed()[k] == self.observed()[k]);
                                assert(changed_count(
                                    old(self).initial(),
                                    old(self).observed()[k],
                                ) < old(self).limit());
                            } else {
                                assert(self.observed()[k] == snap@);
                            }
                        }
                    }
                    match scan_next(&rem, snap, idx + 1) {
                        Some(i) => {
                            let p = rem[i].clone();
                            self.phase = Phase::AwaitStep { remaining: rem, idx: i };
                                EngineAction::RunUpdater(
                                UpdaterCall {
                                    target: UpdateTarget::Only(p),
                                    network: NetworkMode::Offline,
                                },
                            )
                        },
                        None => {
                            self.phase = Phase::Stuck;
                                EngineAction::GiveUp
                        },
                    }
                }
            },
            Phase::Done { .. } => {
                proof {
                    assert(false);
                }
                EngineAction::GiveUp
            },
            Phase::Stuck => {
                proof {
                    assert(false);
                }
                EngineAction::GiveUp
            },
        }
    }
}

/// An element-wise copy of a package list.
fn clone_packages(v: &Vec<PackageInfo>) -> (r: Vec<PackageInfo>)
    ensures
        r@ == v@,
{
    let mut out: Vec<PackageInfo> = Vec::new();
    let n = v.len();
    let mut i: usize = 0;
    while i < n
        invariant
            n == v@.len(),
            i <= n,
            out@ =~= v@.subrange(0, i as int),
        decreases n - i,
    {
        out.push(v[i].clone());
        proof {
            assert(out@ =~= v@.subrange(0, i as int + 1));
        }
        i += 1;
    }
    proof {
        assert(v@.subrange(0, n as int) =~= v@);
    }
    out
}

/// The first package of `remaining` at or after `start` whose identity is
/// still present in `snap` — the fallback loop's next target. The
/// packages before it are exactly the ones to skip: already gone.
fn scan_next(remaining: &Vec<PackageInfo>, snap: &Snapshot, start: usize) -> (r: Option<usize>)
    requires
        start <= remaining@.len(),
    ensures
        r matches Some(i) ==> {
            &&& start <= i < remaining@.len()
            &&& snap@.contains(views_of(remaining@)[i as int])
            &&& forall|j: int|
                start <= j < i ==> !snap@.contains(#[trigger] views_of(remaining@)[j])
        },
        r is None ==> forall|j: int|
            start <= j < remaining@.len() ==> !snap@.contains(#[trigger] views_of(remaining@)[j]),
{
    let n = remaining.len();
    let mut i = start;
    while i < n
        invariant
            n == remaining@.len(),
            start <= i <= n,
            forall|j: int| start <= j < i ==> !snap@.contains(#[trigger] views_of(remaining@)[j]),
        decreases n - i,
    {
        if snap.contains(&remaining[i]) {
            return Some(i);
        }
        i += 1;
    }
    None
}

} // verus!
