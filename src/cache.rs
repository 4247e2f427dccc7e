use vstd::prelude::*;

use crate::batch::{
    code_lookup, entries_lookup, lookup_code, lookup_slot, BatchData, BatchDiff, BatchDiffView,
    BatchExecuteData, BatchExecuteDataView, BatchNumber, SlotKey,
};

verus! {

/// A preloaded batch, as values.
pub struct PendingBatch {
    pub batch: BatchNumber,
    pub execute_data: BatchExecuteDataView,
    pub diff: BatchDiffView,
}

/// The shared cache state, as values.
pub struct CacheView {
    /// Whether a local snapshot exists yet.
    pub has_snapshot: bool,
    /// The batch whose effects the snapshot holds, with those of all earlier ones.
    pub floor: BatchNumber,
    /// Preloaded batches above the floor, by increasing number.
    pub pending: Seq<PendingBatch>,
}

/// A preloaded batch as values.
pub open spec fn pending_entry(n: BatchNumber, d: BatchData) -> PendingBatch {
    PendingBatch { batch: n, execute_data: d.execute_data@, diff: d.diff@ }
}

/// Preloaded batches as values.
pub open spec fn pending_view(s: Seq<(BatchNumber, BatchData)>) -> Seq<PendingBatch> {
    s.map_values(|e: (BatchNumber, BatchData)| pending_entry(e.0, e.1))
}

/// The last preloaded batch numbered `n`, if any.
pub open spec fn find_batch(pending: Seq<PendingBatch>, n: BatchNumber) -> Option<PendingBatch>
    decreases pending.len(),
{
    if pending.len() == 0 {
        None
    } else if pending.last().batch == n {
        Some(pending.last())
    } else {
        find_batch(pending.drop_last(), n)
    }
}

/// Diffs of the preloaded batches numbered at most `n`, oldest first.
pub open spec fn diffs_upto(pending: Seq<PendingBatch>, n: BatchNumber) -> Seq<BatchDiffView>
    decreases pending.len(),
{
    if pending.len() == 0 {
        Seq::empty()
    } else if pending.last().batch <= n {
        diffs_upto(pending.drop_last(), n).push(pending.last().diff)
    } else {
        diffs_upto(pending.drop_last(), n)
    }
}

/// Value that a stack of diffs gives a slot: the newest diff that touched it wins.
pub open spec fn overlay_value(diffs: Seq<BatchDiffView>, key: SlotKey) -> Option<u64>
    decreases diffs.len(),
{
    if diffs.len() == 0 {
        None
    } else {
        match entries_lookup(diffs.last().state_diff, key) {
            Some(v) => Some(v),
            None => overlay_value(diffs.drop_last(), key),
        }
    }
}

/// Write index that a stack of diffs assigns a slot, newest diff first.
pub open spec fn overlay_enum_index(diffs: Seq<BatchDiffView>, key: SlotKey) -> Option<u64>
    decreases diffs.len(),
{
    if diffs.len() == 0 {
        None
    } else {
        match entries_lookup(diffs.last().enum_index_diff, key) {
            Some(v) => Some(v),
            None => overlay_enum_index(diffs.drop_last(), key),
        }
    }
}

/// Code that a stack of diffs publishes under a hash, newest diff first.
pub open spec fn overlay_code(diffs: Seq<BatchDiffView>, hash: u64) -> Option<Seq<u8>>
    decreases diffs.len(),
{
    if diffs.len() == 0 {
        None
    } else {
        match code_lookup(diffs.last().factory_dep_diff, hash) {
            Some(c) => Some(c),
            None => overlay_code(diffs.drop_last(), hash),
        }
    }
}

impl CacheView {
    /// Preloaded batches are strictly increasing and all above the floor.
    pub open spec fn wf(&self) -> bool {
        &&& forall|i: int, j: int|
            0 <= i < j < self.pending.len() ==> (#[trigger] self.pending[i]).batch
                < (#[trigger] self.pending[j]).batch
        &&& forall|i: int| 0 <= i < self.pending.len() ==> (#[trigger] self.pending[i]).batch > self.floor
    }

    /// The preloaded batches are exactly `floor + 1`, `floor + 2`, ... with no gap.
    pub open spec fn contiguous(&self) -> bool {
        forall|i: int| 0 <= i < self.pending.len() ==> (#[trigger] self.pending[i]).batch == self.floor + 1 + i
    }

    /// Numbers of the preloaded batches, in order.
    pub open spec fn batches(&self) -> Seq<BatchNumber> {
        self.pending.map_values(|p: PendingBatch| p.batch)
    }

    /// Whether the snapshot and the diffs can serve reads as of the end of batch `n`.
    pub open spec fn can_serve(&self, n: BatchNumber) -> bool {
        n == self.floor || find_batch(self.pending, n) is Some
    }

    /// The first batch number that a preload pass fetches.
    pub open spec fn next_to_preload(&self) -> int {
        if self.pending.len() == 0 {
            self.floor + 1
        } else {
            self.pending.last().batch + 1
        }
    }
}

/// The preloaded batches above `f`, in order.
pub open spec fn kept_above(pending: Seq<PendingBatch>, f: BatchNumber) -> Seq<PendingBatch> {
    pending.filter(|p: PendingBatch| p.batch > f)
}

/// Where the batches at most `f` form a prefix of length `k`, the batches above `f`
/// are the rest.
proof fn lemma_kept_above(s: Seq<PendingBatch>, k: int, f: BatchNumber)
    requires
        0 <= k <= s.len(),
        forall|j: int| 0 <= j < k ==> (#[trigger] s[j]).batch <= f,
        forall|j: int| k <= j < s.len() ==> (#[trigger] s[j]).batch > f,
    ensures
        kept_above(s, f) == s.subrange(k, s.len() as int),
    decreases s.len(),
{
    reveal(Seq::filter);
    if s.len() == 0 {
        assert(s.subrange(k, 0) =~= s);
    } else if s.len() == k {
        lemma_kept_above(s.drop_last(), k - 1, f);
        assert(s.subrange(k, k) =~= s.drop_last().subrange(k - 1, k - 1));
    } else {
        lemma_kept_above(s.drop_last(), k, f);
        assert(s.subrange(k, s.len() as int) =~= s.drop_last().subrange(k, s.len() - 1).push(
            s.last(),
        ));
    }
}

/// Index at which `find_batch` finds batch `n`.
proof fn lemma_find_index(s: Seq<PendingBatch>, n: BatchNumber) -> (i: int)
    requires
        find_batch(s, n) is Some,
    ensures
        0 <= i < s.len(),
        find_batch(s, n) == Some(s[i]),
        s[i].batch == n,
    decreases s.len(),
{
    if s.last().batch == n {
        s.len() - 1
    } else {
        let i = lemma_find_index(s.drop_last(), n);
        assert(s.drop_last()[i] == s[i]);
        i
    }
}

/// No diff applies as of a batch below every preloaded one.
proof fn lemma_diffs_below(s: Seq<PendingBatch>, n: BatchNumber)
    requires
        forall|j: int| 0 <= j < s.len() ==> (#[trigger] s[j]).batch > n,
    ensures
        diffs_upto(s, n) == Seq::<BatchDiffView>::empty(),
    decreases s.len(),
{
    if s.len() > 0 {
        assert(s.last() == s[s.len() - 1]);
        lemma_diffs_below(s.drop_last(), n);
    }
}

/// As of the first preloaded batch, when all others are above it, its diff alone
/// applies.
proof fn lemma_diffs_first(s: Seq<PendingBatch>, n: BatchNumber)
    requires
        s.len() > 0,
        s[0].batch == n,
        forall|j: int| 1 <= j < s.len() ==> (#[trigger] s[j]).batch > n,
    ensures
        diffs_upto(s, n) == seq![s[0].diff],
    decreases s.len(),
{
    if s.len() == 1 {
        lemma_diffs_below(s.drop_last(), n);
        assert(diffs_upto(s, n) =~= seq![s[0].diff]);
    } else {
        assert(s.last() == s[s.len() - 1]);
        lemma_diffs_first(s.drop_last(), n);
    }
}

/// A snapshot at floor `F` with base value `V0` for `key`, and batch `F + 1` preloaded
/// with a diff that sets `key` to `v1`: the view as of `F + 1` reads `v1` from its
/// diffs, while the view as of `F` has no diff for `key` and reads `V0` from the
/// snapshot. Both views are available.
pub proof fn lemma_view_composition(c: CacheView, key: SlotKey, v1: u64)
    requires
        c.wf(),
        c.floor < u32::MAX,
        match find_batch(c.pending, (c.floor + 1) as BatchNumber) {
            Some(p) => entries_lookup(p.diff.state_diff, key) == Some(v1),
            None => false,
        },
    ensures
        c.can_serve(c.floor),
        c.can_serve((c.floor + 1) as BatchNumber),
        overlay_value(diffs_upto(c.pending, (c.floor + 1) as BatchNumber), key) == Some(v1),
        overlay_value(diffs_upto(c.pending, c.floor), key) is None,
{
    let n = (c.floor + 1) as BatchNumber;
    let i = lemma_find_index(c.pending, n);
    if i > 0 {
        assert(c.pending[0].batch < c.pending[i].batch);
        assert(c.pending[0].batch > c.floor);
    }
    assert forall|j: int| 1 <= j < c.pending.len() implies (#[trigger] c.pending[j]).batch > n by {
        assert(c.pending[0].batch < c.pending[j].batch);
    }
    lemma_diffs_first(c.pending, n);
    lemma_diffs_below(c.pending, c.floor);
    let ds = seq![c.pending[0].diff];
    assert(ds.drop_last() =~= Seq::<BatchDiffView>::empty());
    assert(overlay_value(ds, key) == Some(v1));
}

/// With the snapshot at floor `F`, no view exists as of a batch below `F`, whose diff
/// the floor's advance dropped, nor as of a batch above the floor and above every
/// preloaded batch.
pub proof fn lemma_unavailable(c: CacheView, n: BatchNumber)
    requires
        c.wf(),
        n < c.floor || (n > c.floor && forall|j: int|
            0 <= j < c.pending.len() ==> (#[trigger] c.pending[j]).batch < n),
    ensures
        !c.can_serve(n),
{
    if find_batch(c.pending, n) is Some {
        let i = lemma_find_index(c.pending, n);
        assert(c.pending[i].batch > c.floor);
    }
}

/// Diffs as values.
pub open spec fn diffs_view(v: Seq<BatchDiff>) -> Seq<BatchDiffView> {
    v.map_values(|d: BatchDiff| d@)
}

/// What a reader reads the state through, as of the end of one batch.
pub enum StorageView<S> {
    /// The source of truth, queried as of the end of `batch`.
    SourceOfTruth { batch: BatchNumber },
    /// The local snapshot at `floor`, overlaid with `diffs`, oldest first.
    Layered { snapshot: S, floor: BatchNumber, diffs: Vec<BatchDiff> },
}

impl<S> StorageView<S> {
    /// Diffs that stand above the base store, oldest first.
    pub open spec fn overlay(&self) -> Seq<BatchDiffView> {
        match self {
            StorageView::SourceOfTruth { .. } => Seq::empty(),
            StorageView::Layered { diffs, .. } => diffs_view(diffs@),
        }
    }

    /// Value of `key` in the diffs; `None` means that the base store answers.
    pub fn overlay_value(&self, key: SlotKey) -> (r: Option<u64>)
        ensures
            r == overlay_value(self.overlay(), key),
    {
        match self {
            StorageView::SourceOfTruth { .. } => None,
            StorageView::Layered { diffs, .. } => {
                let mut i: usize = diffs.len();
                assert(diffs_view(diffs@.subrange(0, i as int)) =~= diffs_view(diffs@));
                while i > 0
                    invariant
                        i <= diffs.len(),
                        self.overlay() == diffs_view(diffs@),
                        overlay_value(diffs_view(diffs@), key) == overlay_value(
                            diffs_view(diffs@.subrange(0, i as int)),
                            key,
                        ),
                    decreases i,
                {
                    assert(diffs_view(diffs@.subrange(0, i as int)).drop_last() =~= diffs_view(
                        diffs@.subrange(0, i - 1),
                    ));
                    assert(diffs_view(diffs@.subrange(0, i as int)).last() == diffs@[i - 1]@);
                    let found = lookup_slot(&diffs[i - 1].state_diff, key);
                    if found.is_some() {
                        return found;
                    }
                    i = i - 1;
                }
                None
            },
        }
    }

    /// Write index of `key` in the diffs; `None` means that the base store answers.
    pub fn overlay_enum_index(&self, key: SlotKey) -> (r: Option<u64>)
        ensures
            r == overlay_enum_index(self.overlay(), key),
    {
        match self {
            StorageView::SourceOfTruth { .. } => None,
            StorageView::Layered { diffs, .. } => {
                let mut i: usize = diffs.len();
                assert(diffs_view(diffs@.subrange(0, i as int)) =~= diffs_view(diffs@));
                while i > 0
                    invariant
                        i <= diffs.len(),
                        self.overlay() == diffs_view(diffs@),
                        overlay_enum_index(diffs_view(diffs@), key) == overlay_enum_index(
                            diffs_view(diffs@.subrange(0, i as int)),
                            key,
                        ),
                    decreases i,
                {
                    assert(diffs_view(diffs@.subrange(0, i as int)).drop_last() =~= diffs_view(
                        diffs@.subrange(0, i - 1),
                    ));
                    assert(diffs_view(diffs@.subrange(0, i as int)).last() == diffs@[i - 1]@);
                    let found = lookup_slot(&diffs[i - 1].enum_index_diff, key);
                    if found.is_some() {
                        return found;
                    }
                    i = i - 1;
                }
                None
            },
        }
    }

    /// Code published under `hash` in the diffs; `None` means that the base store answers.
    pub fn overlay_code(&self, hash: u64) -> (r: Option<Vec<u8>>)
        ensures
            match r {
                Some(c) => overlay_code(self.overlay(), hash) == Some(c@),
                None => overlay_code(self.overlay(), hash) is None,
            },
    {
        match self {
            StorageView::SourceOfTruth { .. } => None,
            StorageView::Layered { diffs, .. } => {
                let mut i: usize = diffs.len();
                assert(diffs_view(diffs@.subrange(0, i as int)) =~= diffs_view(diffs@));
                while i > 0
                    invariant
                        i <= diffs.len(),
                        self.overlay() == diffs_view(diffs@),
                        overlay_code(diffs_view(diffs@), hash) == overlay_code(
                            diffs_view(diffs@.subrange(0, i as int)),
                            hash,
                        ),
                    decreases i,
                {
                    assert(diffs_view(diffs@.subrange(0, i as int)).drop_last() =~= diffs_view(
                        diffs@.subrange(0, i - 1),
                    ));
                    assert(diffs_view(diffs@.subrange(0, i as int)).last() == diffs@[i - 1]@);
                    let found = lookup_code(&diffs[i - 1].factory_dep_diff, hash);
                    if found.is_some() {
                        return found;
                    }
                    i = i - 1;
                }
                None
            },
        }
    }
}

/// Where the execute data of a batch comes from.
#[derive(Debug)]
pub enum BatchSource {
    /// No snapshot exists yet: the source of truth answers directly.
    Store,
    /// The batch is preloaded.
    Cached(BatchExecuteData),
    /// The batch is below the floor or not preloaded yet.
    Unavailable,
}

/// Why a change to the cache was refused.
#[derive(Clone, Copy, Debug, PartialEq, Eq, Structural)]
pub enum SyncError {
    /// The snapshot would move below the batch that it already holds.
    FloorRegression { floor: BatchNumber, requested: BatchNumber },
    /// Batches are preloaded above the floor and above every batch already held.
    OutOfOrder { batch: BatchNumber, next: u64 },
}

/// The shared state of the cache: an optional snapshot handle of type `S`, the batch
/// it holds, and the preloaded batches above it.
#[derive(Debug)]
pub struct CacheState<S> {
    snapshot: Option<S>,
    floor: BatchNumber,
    pending: Vec<(BatchNumber, BatchData)>,
}

impl<S> View for CacheState<S> {
    type V = CacheView;

    closed spec fn view(&self) -> CacheView {
        CacheView {
            has_snapshot: self.snapshot is Some,
            floor: self.floor,
            pending: pending_view(self.pending@),
        }
    }
}

impl<S> CacheState<S> {
    /// An empty cache: no snapshot, floor 0, nothing preloaded.
    pub fn new() -> (r: Self)
        ensures
            r@ == (CacheView { has_snapshot: false, floor: 0, pending: Seq::empty() }),
            r@.wf(),
            r@.contiguous(),
    {
        let r = CacheState { snapshot: None, floor: 0, pending: Vec::new() };
        assert(r@.pending =~= Seq::<PendingBatch>::empty());
        r
    }

    /// The batch whose effects the snapshot holds.
    pub fn floor(&self) -> (r: BatchNumber)
        ensures
            r == self@.floor,
    {
        self.floor
    }

    /// Whether a snapshot exists yet.
    pub fn has_snapshot(&self) -> (r: bool)
        ensures
            r == self@.has_snapshot,
    {
        self.snapshot.is_some()
    }

    /// Numbers of the preloaded batches, in increasing order.
    pub fn pending_batches(&self) -> (r: Vec<BatchNumber>)
        ensures
            r@ == self@.batches(),
    {
        let mut r: Vec<BatchNumber> = Vec::new();
        let mut i: usize = 0;
        while i < self.pending.len()
            invariant
                i <= self.pending.len(),
                r.len() == i,
                forall|j: int| 0 <= j < i ==> #[trigger] r@[j] == self.pending@[j].0,
            decreases self.pending.len() - i,
        {
            r.push(self.pending[i].0);
            i = i + 1;
        }
        assert(r@ =~= self@.batches());
        r
    }

    /// Position of the preloaded batch `n`, if it is held.
    fn position_of(&self, n: BatchNumber) -> (r: Option<usize>)
        ensures
            match r {
                Some(i) => i < self.pending.len() && find_batch(self@.pending, n) == Some(
                    self@.pending[i as int],
                ),
                None => find_batch(self@.pending, n) is None,
            },
    {
        let mut i: usize = self.pending.len();
        assert(pending_view(self.pending@.subrange(0, i as int)) =~= self@.pending);
        while i > 0
            invariant
                i <= self.pending.len(),
                find_batch(self@.pending, n) == find_batch(
                    pending_view(self.pending@.subrange(0, i as int)),
                    n,
                ),
            decreases i,
        {
            assert(pending_view(self.pending@.subrange(0, i as int)).drop_last() =~= pending_view(
                self.pending@.subrange(0, i - 1),
            ));
            if self.pending[i - 1].0 == n {
                return Some(i - 1);
            }
            i = i - 1;
        }
        None
    }

    /// Whether the cache can serve reads as of the end of batch `n`: `n` is the floor
    /// or a preloaded batch.
    pub fn can_be_used_for_batch(&self, n: BatchNumber) -> (r: bool)
        ensures
            r == self@.can_serve(n),
    {
        n == self.floor || self.position_of(n).is_some()
    }

    /// Diffs of the preloaded batches numbered at most `n`, oldest first.
    fn collect_diffs(&self, n: BatchNumber) -> (r: Vec<BatchDiff>)
        ensures
            diffs_view(r@) == diffs_upto(self@.pending, n),
    {
        let mut r: Vec<BatchDiff> = Vec::new();
        let mut i: usize = 0;
        while i < self.pending.len()
            invariant
                i <= self.pending.len(),
                diffs_view(r@) == diffs_upto(pending_view(self.pending@.subrange(0, i as int)), n),
            decreases self.pending.len() - i,
        {
            assert(pending_view(self.pending@.subrange(0, i + 1)).drop_last() =~= pending_view(
                self.pending@.subrange(0, i as int),
            ));
            let e = &self.pending[i];
            if e.0 <= n {
                r.push(e.1.diff.copy());
                assert(diffs_view(r@) =~= diffs_upto(
                    pending_view(self.pending@.subrange(0, i + 1)),
                    n,
                ));
            }
            i = i + 1;
        }
        assert(pending_view(self.pending@.subrange(0, i as int)) =~= self@.pending);
        r
    }

    /// Position of the first preloaded batch above `f`; all batches before it are at
    /// most `f`.
    fn first_above(&self, f: BatchNumber) -> (k: usize)
        requires
            self@.wf(),
        ensures
            k <= self.pending.len(),
            forall|j: int| 0 <= j < k ==> (#[trigger] self@.pending[j]).batch <= f,
            forall|j: int| k <= j < self.pending.len() ==> (#[trigger] self@.pending[j]).batch > f,
    {
        let mut k: usize = 0;
        while k < self.pending.len() && self.pending[k].0 <= f
            invariant
                k <= self.pending.len(),
                forall|j: int| 0 <= j < k ==> (#[trigger] self@.pending[j]).batch <= f,
            decreases self.pending.len() - k,
        {
            k = k + 1;
        }
        proof {
            if k < self.pending.len() {
                assert forall|j: int| k <= j < self.pending.len() implies (
                #[trigger] self@.pending[j]).batch > f by {
                    if j > k {
                        assert(self@.pending[k as int].batch < self@.pending[j].batch);
                    }
                }
            }
        }
        k
    }

    /// Moves the snapshot to `latest_processed` and drops the preloaded batches that
    /// it now holds. The floor never goes down: a lower `latest_processed` is refused
    /// and leaves the cache as it was.
    pub fn advance(&mut self, snapshot: S, latest_processed: BatchNumber) -> (r: Result<(), SyncError>)
        requires
            old(self)@.wf(),
        ensures
            final(self)@.wf(),
            old(self)@.contiguous() ==> final(self)@.contiguous(),
            final(self)@.floor >= old(self)@.floor,
            latest_processed < old(self)@.floor ==> {
                &&& r == Err::<(), SyncError>(
                    SyncError::FloorRegression { floor: old(self)@.floor, requested: latest_processed },
                )
                &&& final(self)@ == old(self)@
            },
            latest_processed >= old(self)@.floor ==> {
                &&& r is Ok
                &&& final(self)@ == (CacheView {
                    has_snapshot: true,
                    floor: latest_processed,
                    pending: kept_above(old(self)@.pending, latest_processed),
                })
            },
    {
        if latest_processed < self.floor {
            return Err(SyncError::FloorRegression { floor: self.floor, requested: latest_processed });
        }
        let k = self.first_above(latest_processed);
        let ghost before = self@.pending;
        let kept = self.pending.split_off(k);
        self.pending = kept;
        self.floor = latest_processed;
        self.snapshot = Some(snapshot);
        proof {
            lemma_kept_above(before, k as int, latest_processed);
            assert(self@.pending =~= before.subrange(k as int, before.len() as int));
            if old(self)@.contiguous() && k < before.len() {
                if k > 0 {
                    assert(before[k - 1].batch <= latest_processed);
                }
                assert(before[k as int].batch > latest_processed);
                assert forall|i: int| 0 <= i < self@.pending.len() implies (
                #[trigger] self@.pending[i]).batch == self@.floor + 1 + i by {
                    assert(self@.pending[i] == before[k + i]);
                }
            }
        }
        Ok(())
    }

    /// The first batch number that a preload pass fetches: one above the last
    /// preloaded batch, or above the floor when none is.
    pub fn next_to_preload(&self) -> (r: u64)
        ensures
            r == self@.next_to_preload(),
    {
        if self.pending.len() == 0 {
            self.floor as u64 + 1
        } else {
            self.pending[self.pending.len() - 1].0 as u64 + 1
        }
    }

    /// Adds batch `n` above every batch held. A number below `next_to_preload` is
    /// refused and leaves the cache as it was.
    pub fn insert_preloaded(&mut self, n: BatchNumber, data: BatchData) -> (r: Result<(), SyncError>)
        requires
            old(self)@.wf(),
        ensures
            final(self)@.wf(),
            old(self)@.contiguous() && n == old(self)@.next_to_preload() ==> final(self)@.contiguous(),
            n >= old(self)@.next_to_preload() ==> {
                &&& r is Ok
                &&& final(self)@ == (CacheView {
                    has_snapshot: old(self)@.has_snapshot,
                    floor: old(self)@.floor,
                    pending: old(self)@.pending.push(pending_entry(n, data)),
                })
            },
            n < old(self)@.next_to_preload() ==> {
                &&& r == Err::<(), SyncError>(
                    SyncError::OutOfOrder { batch: n, next: old(self)@.next_to_preload() as u64 },
                )
                &&& final(self)@ == old(self)@
            },
    {
        let next = self.next_to_preload();
        if (n as u64) < next {
            return Err(SyncError::OutOfOrder { batch: n, next });
        }
        let ghost before = self.pending@;
        self.pending.push((n, data));
        assert(self@.pending =~= pending_view(before).push(pending_entry(n, data)));
        Ok(())
    }

    /// One preload pass: `fetched[i]` is what the source of truth holds for batch
    /// `next_to_preload() + i`. Batches are added in order up to `last_ready`; the pass
    /// stops at the first batch that has no data and adds none after it. Returns how
    /// many were added.
    pub fn preload_pass(&mut self, last_ready: BatchNumber, fetched: &Vec<Option<BatchData>>) -> (count: usize)
        requires
            old(self)@.wf(),
        ensures
            final(self)@.wf(),
            old(self)@.contiguous() ==> final(self)@.contiguous(),
            final(self)@.has_snapshot == old(self)@.has_snapshot,
            final(self)@.floor == old(self)@.floor,
            count <= fetched.len(),
            count == 0 || old(self)@.next_to_preload() + count <= last_ready + 1,
            count < fetched.len() && old(self)@.next_to_preload() + count <= last_ready
                ==> fetched@[count as int] is None,
            final(self)@.pending.len() == old(self)@.pending.len() + count,
            final(self)@.pending.subrange(0, old(self)@.pending.len() as int) == old(self)@.pending,
            forall|i: int|
                0 <= i < count ==> match #[trigger] fetched@[i] {
                    Some(d) => final(self)@.pending[old(self)@.pending.len() + i] == pending_entry(
                        (old(self)@.next_to_preload() + i) as BatchNumber,
                        d,
                    ),
                    None => false,
                },
    {
        let start = self.next_to_preload();
        let ghost before = self@;
        if start > last_ready as u64 {
            assert(self@.pending.subrange(0, before.pending.len() as int) =~= before.pending);
            return 0;
        }
        let span: u64 = last_ready as u64 - start + 1;
        let mut i: usize = 0;
        while i < fetched.len()
            invariant
                self@.wf(),
                before.contiguous() ==> self@.contiguous(),
                before == old(self)@,
                before.wf(),
                start == before.next_to_preload(),
                span == last_ready + 1 - start,
                start <= last_ready + 1,
                self@.has_snapshot == before.has_snapshot,
                self@.floor == before.floor,
                i <= fetched.len(),
                i <= span,
                self@.next_to_preload() == start + i,
                self@.pending.len() == before.pending.len() + i,
                self@.pending.subrange(0, before.pending.len() as int) == before.pending,
                forall|j: int|
                    0 <= j < i ==> match #[trigger] fetched@[j] {
                        Some(d) => self@.pending[before.pending.len() + j] == pending_entry(
                            (start + j) as BatchNumber,
                            d,
                        ),
                        None => false,
                    },
            decreases fetched.len() - i,
        {
            if i as u64 >= span {
                return i;
            }
            match &fetched[i] {
                None => {
                    return i;
                },
                Some(d) => {
                    let n = (start + i as u64) as BatchNumber;
                    let ghost mid = self@;
                    let res = self.insert_preloaded(n, d.copy());
                    assert(res is Ok);
                    assert(self@.pending.subrange(0, before.pending.len() as int)
                        =~= mid.pending.subrange(0, before.pending.len() as int));
                    i = i + 1;
                },
            }
        }
        i
    }

    /// Whether a sync step has nothing to do: the snapshot's next batch is the one
    /// after `latest_processed`, and batch `last_ready` is preloaded.
    pub fn is_caught_up(
        &self,
        latest_processed: BatchNumber,
        snapshot_next_batch: Option<BatchNumber>,
        last_ready: BatchNumber,
    ) -> (r: bool)
        ensures
            r == ((snapshot_next_batch matches Some(b) && b == latest_processed + 1)
                && find_batch(self@.pending, last_ready) is Some),
    {
        match snapshot_next_batch {
            Some(b) => b as u64 == latest_processed as u64 + 1 && self.position_of(last_ready).is_some(),
            None => false,
        }
    }

    /// What to read the state through as of the end of batch `n`.
    ///
    /// Before a snapshot exists, the source of truth. Then, where `n` is the floor or a
    /// preloaded batch, the snapshot overlaid with the diffs of the preloaded batches
    /// up to `n`; else nothing. A caller must drop the view once the floor passes `n`.
    pub fn resolve_view(&self, n: BatchNumber) -> (r: Option<StorageView<S>>)
        where
            S: Clone,
        requires
            self@.wf(),
        ensures
            !self@.has_snapshot ==> r is Some,
            match r {
                Some(StorageView::SourceOfTruth { batch }) => !self@.has_snapshot && batch == n,
                Some(StorageView::Layered { floor, diffs, .. }) => {
                    &&& self@.has_snapshot
                    &&& self@.can_serve(n)
                    &&& floor == self@.floor
                    &&& diffs_view(diffs@) == diffs_upto(self@.pending, n)
                },
                None => self@.has_snapshot && !self@.can_serve(n),
            },
    {
        match &self.snapshot {
            None => Some(StorageView::SourceOfTruth { batch: n }),
            Some(snapshot) => {
                if !self.can_be_used_for_batch(n) {
                    return None;
                }
                let diffs = self.collect_diffs(n);
                Some(StorageView::Layered { snapshot: snapshot.clone(), floor: self.floor, diffs })
            },
        }
    }

    /// Where the execute data of batch `n` comes from: the source of truth before a
    /// snapshot exists, then the preloaded batch `n` if it is held.
    pub fn load_batch(&self, n: BatchNumber) -> (r: BatchSource)
        requires
            self@.wf(),
        ensures
            match r {
                BatchSource::Store => !self@.has_snapshot,
                BatchSource::Cached(d) => self@.has_snapshot && (match find_batch(self@.pending, n) {
                    Some(p) => d@ == p.execute_data,
                    None => false,
                }),
                BatchSource::Unavailable => self@.has_snapshot && find_batch(self@.pending, n) is None,
            },
    {
        if self.snapshot.is_none() {
            return BatchSource::Store;
        }
        match self.position_of(n) {
            Some(i) => BatchSource::Cached(self.pending[i].1.execute_data.copy()),
            None => BatchSource::Unavailable,
        }
    }
}

} // verus!
