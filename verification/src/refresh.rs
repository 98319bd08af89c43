//! The refresh policy. A `ScanTask` drives one scan-and-write pass under
//! the advisory scan lock: if the lock is busy another scan is already in
//! flight, and the task finishes at once without scanning. A `Refresh`
//! drives one read: a cache hit is returned immediately while a single
//! background scan keeps the cache warm; only a miss scans synchronously,
//! and a busy lock there falls back to a widened-TTL read instead of
//! issuing a duplicate scan. The lock, the scanner and the file system are
//! driven outside; each step's outcome is fed in as a plain value.

use vstd::prelude::*;
use crate::types::{AccessPoint, AccessPointView};

verus! {

// ───────────────────────── one scan-and-write pass ─────────────────────────

/// Where a scan-and-write pass stands; the actions the driver owes are in
/// each variant's name.
#[derive(Debug)]
pub enum ScanPhase {
    /// Try the advisory lock, without blocking.
    NeedLock,
    /// The lock is held: trigger the scanner and collect its list.
    Scanning,
    /// Write this list to the cache, atomically.
    NeedWrite { aps: Vec<AccessPoint> },
    /// Release the lock, whatever happened.
    NeedUnlock,
    /// Finished. `ran_scan` says whether this pass executed the scanner.
    Done { ran_scan: bool },
}

pub enum ScanPhaseView {
    NeedLock,
    Scanning,
    NeedWrite { aps: Seq<AccessPointView> },
    NeedUnlock,
    Done { ran_scan: bool },
}

impl View for ScanPhase {
    type V = ScanPhaseView;

    open spec fn view(&self) -> ScanPhaseView {
        match self {
            ScanPhase::NeedLock => ScanPhaseView::NeedLock,
            ScanPhase::Scanning => ScanPhaseView::Scanning,
            ScanPhase::NeedWrite { aps } => ScanPhaseView::NeedWrite { aps: aps.deep_view() },
            ScanPhase::NeedUnlock => ScanPhaseView::NeedUnlock,
            ScanPhase::Done { ran_scan } => ScanPhaseView::Done { ran_scan: *ran_scan },
        }
    }
}

/// One scan-and-write pass. `lock_held` mirrors the advisory lock, so the
/// invariant can say that scanning happens only under it.
#[derive(Debug)]
pub struct ScanTask {
    pub phase: ScanPhase,
    pub lock_held: bool,
}

pub struct ScanTaskView {
    pub phase: ScanPhaseView,
    pub lock_held: bool,
}

impl View for ScanTask {
    type V = ScanTaskView;

    open spec fn view(&self) -> ScanTaskView {
        ScanTaskView { phase: self.phase@, lock_held: self.lock_held }
    }
}

/// Mutual exclusion, machine-side: the scanner runs and the cache is
/// written only while this pass holds the lock.
pub open spec fn scan_wf(t: ScanTaskView) -> bool {
    &&& (t.phase is Scanning || t.phase is NeedWrite || t.phase is NeedUnlock) ==> t.lock_held
    &&& (t.phase is NeedLock || t.phase is Done) ==> !t.lock_held
}

impl ScanTask {
    pub fn new() -> (t: ScanTask)
        ensures
            scan_wf(t@),
            t@.phase is NeedLock,
    {
        ScanTask { phase: ScanPhase::NeedLock, lock_held: false }
    }

    /// Feeds in whether the non-blocking lock attempt succeeded. A busy
    /// lock finishes the pass at once: the second of two concurrent passes
    /// never reaches the scanner and never waits.
    pub fn lock_result(&mut self, acquired: bool)
        requires
            scan_wf(old(self)@),
            old(self)@.phase is NeedLock,
        ensures
            scan_wf(final(self)@),
            acquired ==> final(self)@.phase is Scanning && final(self)@.lock_held,
            !acquired ==> final(self)@.phase == (ScanPhaseView::Done { ran_scan: false })
                && !final(self)@.lock_held,
    {
        if acquired {
            self.lock_held = true;
            self.phase = ScanPhase::Scanning;
        } else {
            self.phase = ScanPhase::Done { ran_scan: false };
        }
    }

    /// Feeds in the scanner's parsed list, or `None` for a failed scan,
    /// which is swallowed: the pass still unlocks and finishes quietly.
    pub fn scan_result(&mut self, aps: Option<Vec<AccessPoint>>)
        requires
            scan_wf(old(self)@),
            old(self)@.phase is Scanning,
        ensures
            scan_wf(final(self)@),
            final(self)@.lock_held,
            aps matches Some(l) ==> final(self)@.phase == (ScanPhaseView::NeedWrite {
                aps: l.deep_view(),
            }),
            aps is None ==> final(self)@.phase is NeedUnlock,
    {
        match aps {
            Some(l) => {
                self.phase = ScanPhase::NeedWrite { aps: l };
            },
            None => {
                self.phase = ScanPhase::NeedUnlock;
            },
        }
    }

    /// Feeds in that the cache write finished (a failed write is swallowed
    /// the same way).
    pub fn written(&mut self)
        requires
            scan_wf(old(self)@),
            old(self)@.phase is NeedWrite,
        ensures
            scan_wf(final(self)@),
            final(self)@.phase is NeedUnlock,
            final(self)@.lock_held,
    {
        self.phase = ScanPhase::NeedUnlock;
    }

    /// Feeds in that the lock was released: the pass is done and it did run
    /// the scanner.
    pub fn unlocked(&mut self)
        requires
            scan_wf(old(self)@),
            old(self)@.phase is NeedUnlock,
        ensures
            scan_wf(final(self)@),
            final(self)@.phase == (ScanPhaseView::Done { ran_scan: true }),
            !final(self)@.lock_held,
    {
        self.lock_held = false;
        self.phase = ScanPhase::Done { ran_scan: true };
    }
}

// ───────────────────────── the read policy ─────────────────────────

/// Where one read of the network list stands.
#[derive(Debug)]
pub enum RefreshPhase {
    /// A forced refresh: delete the cache file first.
    NeedInvalidate,
    /// Read the cache with the configured TTL.
    NeedRead,
    /// The read missed: run a scan-and-write pass and wait for it.
    NeedSyncScan,
    /// The pass finished (or was skipped on a busy lock): read again with
    /// the widened TTL rather than returning nothing.
    NeedWideRead,
    /// The list to hand to the caller. `background_refresh` says whether a
    /// single detached scan-and-write pass is owed; its outcome is never
    /// awaited and never reported to this caller.
    Done { aps: Vec<AccessPoint>, background_refresh: bool },
}

pub enum RefreshPhaseView {
    NeedInvalidate,
    NeedRead,
    NeedSyncScan,
    NeedWideRead,
    Done { aps: Seq<AccessPointView>, background_refresh: bool },
}

impl View for RefreshPhase {
    type V = RefreshPhaseView;

    open spec fn view(&self) -> RefreshPhaseView {
        match self {
            RefreshPhase::NeedInvalidate => RefreshPhaseView::NeedInvalidate,
            RefreshPhase::NeedRead => RefreshPhaseView::NeedRead,
            RefreshPhase::NeedSyncScan => RefreshPhaseView::NeedSyncScan,
            RefreshPhase::NeedWideRead => RefreshPhaseView::NeedWideRead,
            RefreshPhase::Done { aps, background_refresh } => RefreshPhaseView::Done {
                aps: aps.deep_view(),
                background_refresh: *background_refresh,
            },
        }
    }
}

/// One stale-while-revalidate read.
#[derive(Debug)]
pub struct Refresh {
    pub phase: RefreshPhase,
    /// The configured TTL in seconds.
    pub ttl: u64,
}

pub struct RefreshView {
    pub phase: RefreshPhaseView,
    pub ttl: u64,
}

impl View for Refresh {
    type V = RefreshView;

    open spec fn view(&self) -> RefreshView {
        RefreshView { phase: self.phase@, ttl: self.ttl }
    }
}

/// The widened TTL used after lock contention: ten times the configured
/// one, a tunable heuristic, saturating rather than overflowing.
pub open spec fn wide_ttl_spec(ttl: u64) -> u64 {
    if ttl * 10 <= u64::MAX {
        (ttl * 10) as u64
    } else {
        u64::MAX
    }
}

pub fn wide_ttl(ttl: u64) -> (r: u64)
    ensures
        r == wide_ttl_spec(ttl),
{
    if ttl <= u64::MAX / 10 {
        proof {
            assert(ttl * 10 <= (u64::MAX / 10) * 10 <= u64::MAX) by (nonlinear_arith)
                requires
                    ttl <= u64::MAX / 10,
            ;
        }
        ttl * 10
    } else {
        proof {
            assert(ttl * 10 > u64::MAX) by (nonlinear_arith)
                requires
                    ttl > u64::MAX / 10,
            ;
        }
        u64::MAX
    }
}

impl Refresh {
    /// Opens a read; a forced one invalidates the cache before reading.
    pub fn new(force: bool, ttl: u64) -> (r: Refresh)
        ensures
            r@.ttl == ttl,
            force ==> r@.phase is NeedInvalidate,
            !force ==> r@.phase is NeedRead,
    {
        Refresh {
            phase: if force {
                RefreshPhase::NeedInvalidate
            } else {
                RefreshPhase::NeedRead
            },
            ttl,
        }
    }

    /// Feeds in that the cache file was removed (or was already absent).
    pub fn invalidated(&mut self)
        requires
            old(self)@.phase is NeedInvalidate,
        ensures
            final(self)@.phase is NeedRead,
            final(self)@.ttl == old(self)@.ttl,
    {
        self.phase = RefreshPhase::NeedRead;
    }

    /// Feeds in the cache read's outcome. A hit is handed back unchanged
    /// and immediately — the caller never waits on a refresh it did not
    /// need — while exactly one detached scan-and-write pass is requested
    /// to keep the cache warm. A miss proceeds to a synchronous scan.
    pub fn read_result(&mut self, cached: Option<Vec<AccessPoint>>)
        requires
            old(self)@.phase is NeedRead,
        ensures
            final(self)@.ttl == old(self)@.ttl,
            cached matches Some(aps) ==> final(self)@.phase == (RefreshPhaseView::Done {
                aps: aps.deep_view(),
                background_refresh: true,
            }),
            cached is None ==> final(self)@.phase is NeedSyncScan,
    {
        match cached {
            Some(aps) => {
                self.phase = RefreshPhase::Done { aps, background_refresh: true };
            },
            None => {
                self.phase = RefreshPhase::NeedSyncScan;
            },
        }
    }

    /// Feeds in that the synchronous scan-and-write pass came to rest,
    /// whether it scanned or found the lock busy: either way the cache is
    /// re-read with the widened TTL, so lock contention degrades to a
    /// slightly stale list instead of an empty one.
    pub fn scan_finished(&mut self)
        requires
            old(self)@.phase is NeedSyncScan,
        ensures
            final(self)@.phase is NeedWideRead,
            final(self)@.ttl == old(self)@.ttl,
    {
        self.phase = RefreshPhase::NeedWideRead;
    }

    /// Feeds in the widened re-read's outcome: its hit is the answer, and
    /// a miss degrades to the empty list, never to an error.
    pub fn wide_read_result(&mut self, cached: Option<Vec<AccessPoint>>)
        requires
            old(self)@.phase is NeedWideRead,
        ensures
            final(self)@.ttl == old(self)@.ttl,
            cached matches Some(aps) ==> final(self)@.phase == (RefreshPhaseView::Done {
                aps: aps.deep_view(),
                background_refresh: false,
            }),
            cached is None ==> final(self)@.phase == (RefreshPhaseView::Done {
                aps: Seq::<AccessPointView>::empty(),
                background_refresh: false,
            }),
    {
        match cached {
            Some(aps) => {
                self.phase = RefreshPhase::Done { aps, background_refresh: false };
            },
            None => {
                let empty: Vec<AccessPoint> = Vec::new();
                proof {
                    assert(empty.deep_view() =~= Seq::<AccessPointView>::empty());
                }
                self.phase = RefreshPhase::Done { aps: empty, background_refresh: false };
            },
        }
    }
}

} // verus!
