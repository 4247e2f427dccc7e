use vstd::prelude::*;

verus! {

/// Number of a sealed batch.
pub type BatchNumber = u32;

/// A storage position: a slot of a contract.
#[derive(Clone, Copy, Debug, PartialEq, Eq, Structural)]
pub struct SlotKey {
    pub contract: u64,
    pub slot: u64,
}

/// Value that the last entry for `key` assigns, if any: later entries win.
pub open spec fn entries_lookup(entries: Seq<(SlotKey, u64)>, key: SlotKey) -> Option<u64>
    decreases entries.len(),
{
    if entries.len() == 0 {
        None
    } else if entries.last().0 == key {
        Some(entries.last().1)
    } else {
        entries_lookup(entries.drop_last(), key)
    }
}

/// Code that the last entry for `hash` publishes, if any: later entries win.
pub open spec fn code_lookup(entries: Seq<(u64, Seq<u8>)>, hash: u64) -> Option<Seq<u8>>
    decreases entries.len(),
{
    if entries.len() == 0 {
        None
    } else if entries.last().0 == hash {
        Some(entries.last().1)
    } else {
        code_lookup(entries.drop_last(), hash)
    }
}

/// Looks `key` up in a list of slot entries.
pub fn lookup_slot(entries: &Vec<(SlotKey, u64)>, key: SlotKey) -> (r: Option<u64>)
    ensures
        r == entries_lookup(entries@, key),
{
    let mut i: usize = entries.len();
    assert(entries@.subrange(0, i as int) =~= entries@);
    while i > 0
        invariant
            i <= entries.len(),
            entries_lookup(entries@, key) == entries_lookup(entries@.subrange(0, i as int), key),
        decreases i,
    {
        let e = entries[i - 1];
        assert(entries@.subrange(0, i as int).drop_last() =~= entries@.subrange(0, i - 1));
        if e.0 == key {
            return Some(e.1);
        }
        i = i - 1;
    }
    None
}

/// Looks the code published under `hash` up in a list of published code.
pub fn lookup_code(entries: &Vec<(u64, Vec<u8>)>, hash: u64) -> (r: Option<Vec<u8>>)
    ensures
        match r {
            Some(b) => code_lookup(code_view(entries@), hash) == Some(b@),
            None => code_lookup(code_view(entries@), hash) is None,
        },
{
    let mut i: usize = entries.len();
    assert(code_view(entries@.subrange(0, i as int)) =~= code_view(entries@));
    while i > 0
        invariant
            i <= entries.len(),
            code_lookup(code_view(entries@), hash) == code_lookup(
                code_view(entries@.subrange(0, i as int)),
                hash,
            ),
        decreases i,
    {
        let e = &entries[i - 1];
        assert(code_view(entries@.subrange(0, i as int)).drop_last() =~= code_view(
            entries@.subrange(0, i - 1),
        ));
        if e.0 == hash {
            return Some(copy_bytes(&e.1));
        }
        i = i - 1;
    }
    None
}

/// Copies a byte string.
pub fn copy_bytes(b: &Vec<u8>) -> (r: Vec<u8>)
    ensures
        r@ == b@,
{
    let mut r: Vec<u8> = Vec::new();
    let mut i: usize = 0;
    while i < b.len()
        invariant
            i <= b.len(),
            r@ == b@.subrange(0, i as int),
        decreases b.len() - i,
    {
        r.push(b[i]);
        i = i + 1;
        assert(r@ =~= b@.subrange(0, i as int));
    }
    assert(r@ =~= b@);
    r
}

/// Copies a list of slot entries.
pub fn copy_entries(v: &Vec<(SlotKey, u64)>) -> (r: Vec<(SlotKey, u64)>)
    ensures
        r@ == v@,
{
    let mut r: Vec<(SlotKey, u64)> = Vec::new();
    let mut i: usize = 0;
    while i < v.len()
        invariant
            i <= v.len(),
            r@ == v@.subrange(0, i as int),
        decreases v.len() - i,
    {
        r.push(v[i]);
        i = i + 1;
        assert(r@ =~= v@.subrange(0, i as int));
    }
    assert(r@ =~= v@);
    r
}

/// The byte strings of a list, as values.
pub open spec fn bytes_view(v: Seq<Vec<u8>>) -> Seq<Seq<u8>> {
    v.map_values(|b: Vec<u8>| b@)
}

/// Copies a list of byte strings.
pub fn copy_byte_list(v: &Vec<Vec<u8>>) -> (r: Vec<Vec<u8>>)
    ensures
        bytes_view(r@) == bytes_view(v@),
{
    let mut r: Vec<Vec<u8>> = Vec::new();
    let mut i: usize = 0;
    while i < v.len()
        invariant
            i <= v.len(),
            r.len() == i,
            forall|j: int| 0 <= j < i ==> (#[trigger] r@[j])@ == v@[j]@,
        decreases v.len() - i,
    {
        r.push(copy_bytes(&v[i]));
        i = i + 1;
    }
    assert(bytes_view(r@) =~= bytes_view(v@));
    r
}

/// The published code of a list, as values.
pub open spec fn code_view(v: Seq<(u64, Vec<u8>)>) -> Seq<(u64, Seq<u8>)> {
    v.map_values(|e: (u64, Vec<u8>)| (e.0, e.1@))
}

/// Copies a list of published code.
pub fn copy_code_list(v: &Vec<(u64, Vec<u8>)>) -> (r: Vec<(u64, Vec<u8>)>)
    ensures
        code_view(r@) == code_view(v@),
{
    let mut r: Vec<(u64, Vec<u8>)> = Vec::new();
    let mut i: usize = 0;
    while i < v.len()
        invariant
            i <= v.len(),
            r.len() == i,
            forall|j: int| 0 <= j < i ==> (#[trigger] r@[j]).0 == v@[j].0 && r@[j].1@ == v@[j].1@,
        decreases v.len() - i,
    {
        let e = &v[i];
        r.push((e.0, copy_bytes(&e.1)));
        i = i + 1;
    }
    assert(code_view(r@) =~= code_view(v@));
    r
}

/// What one batch changed, as values.
pub struct BatchDiffView {
    pub state_diff: Seq<(SlotKey, u64)>,
    pub enum_index_diff: Seq<(SlotKey, u64)>,
    pub factory_dep_diff: Seq<(u64, Seq<u8>)>,
}

/// Everything that a snapshot lacks for one batch.
#[derive(Debug)]
pub struct BatchDiff {
    /// Values of every slot the batch touched.
    pub state_diff: Vec<(SlotKey, u64)>,
    /// Sequential write index of every slot the batch wrote for the first time.
    pub enum_index_diff: Vec<(SlotKey, u64)>,
    /// Code published in the batch, by its hash.
    pub factory_dep_diff: Vec<(u64, Vec<u8>)>,
}

impl View for BatchDiff {
    type V = BatchDiffView;

    open spec fn view(&self) -> BatchDiffView {
        BatchDiffView {
            state_diff: self.state_diff@,
            enum_index_diff: self.enum_index_diff@,
            factory_dep_diff: code_view(self.factory_dep_diff@),
        }
    }
}

impl BatchDiff {
    /// A copy of this diff.
    pub fn copy(&self) -> (r: BatchDiff)
        ensures
            r@ == self@,
    {
        BatchDiff {
            state_diff: copy_entries(&self.state_diff),
            enum_index_diff: copy_entries(&self.enum_index_diff),
            factory_dep_diff: copy_code_list(&self.factory_dep_diff),
        }
    }
}

/// Parameters of a batch's execution environment.
#[derive(Clone, Copy, Debug, PartialEq, Eq, Structural)]
pub struct BatchEnv {
    pub number: BatchNumber,
    pub timestamp: u64,
    pub fee_account: u64,
    pub l1_gas_price: u64,
    pub fair_l2_gas_price: u64,
}

/// Parameters of the execution process.
#[derive(Clone, Copy, Debug, PartialEq, Eq, Structural)]
pub struct SystemEnv {
    pub chain_id: u64,
    pub protocol_version: u16,
    pub bootloader_gas_limit: u32,
    pub validation_computational_gas_limit: u32,
}

/// One sub-unit of a batch, as values.
pub struct L2BlockView {
    pub number: u32,
    pub timestamp: u64,
    pub txs: Seq<Seq<u8>>,
}

/// One sub-unit of a batch with its encoded transactions, in execution order.
#[derive(Debug)]
pub struct L2BlockData {
    pub number: u32,
    pub timestamp: u64,
    pub txs: Vec<Vec<u8>>,
}

impl View for L2BlockData {
    type V = L2BlockView;

    open spec fn view(&self) -> L2BlockView {
        L2BlockView { number: self.number, timestamp: self.timestamp, txs: bytes_view(self.txs@) }
    }
}

impl L2BlockData {
    /// A copy of this block.
    pub fn copy(&self) -> (r: L2BlockData)
        ensures
            r@ == self@,
    {
        L2BlockData { number: self.number, timestamp: self.timestamp, txs: copy_byte_list(&self.txs) }
    }
}

/// The blocks of a list, as values.
pub open spec fn blocks_view(v: Seq<L2BlockData>) -> Seq<L2BlockView> {
    v.map_values(|b: L2BlockData| b@)
}

/// Input needed to re-execute one batch, as values.
pub struct BatchExecuteDataView {
    pub l1_batch_env: BatchEnv,
    pub system_env: SystemEnv,
    pub l2_blocks: Seq<L2BlockView>,
}

/// Data needed to execute a batch.
#[derive(Debug)]
pub struct BatchExecuteData {
    /// Parameters of the batch this data belongs to.
    pub l1_batch_env: BatchEnv,
    /// Execution process parameters.
    pub system_env: SystemEnv,
    /// Sub-units and their transactions, in the order they were executed.
    pub l2_blocks: Vec<L2BlockData>,
}

impl View for BatchExecuteData {
    type V = BatchExecuteDataView;

    open spec fn view(&self) -> BatchExecuteDataView {
        BatchExecuteDataView {
            l1_batch_env: self.l1_batch_env,
            system_env: self.system_env,
            l2_blocks: blocks_view(self.l2_blocks@),
        }
    }
}

impl BatchExecuteData {
    /// A copy of this data.
    pub fn copy(&self) -> (r: BatchExecuteData)
        ensures
            r@ == self@,
    {
        let mut blocks: Vec<L2BlockData> = Vec::new();
        let mut i: usize = 0;
        while i < self.l2_blocks.len()
            invariant
                i <= self.l2_blocks.len(),
                blocks.len() == i,
                forall|j: int| 0 <= j < i ==> (#[trigger] blocks@[j])@ == self.l2_blocks@[j]@,
            decreases self.l2_blocks.len() - i,
        {
            blocks.push(self.l2_blocks[i].copy());
            i = i + 1;
        }
        assert(blocks_view(blocks@) =~= blocks_view(self.l2_blocks@));
        BatchExecuteData {
            l1_batch_env: self.l1_batch_env,
            system_env: self.system_env,
            l2_blocks: blocks,
        }
    }
}

/// A preloaded batch: what executing it needs and what it changed.
#[derive(Debug)]
pub struct BatchData {
    pub execute_data: BatchExecuteData,
    pub diff: BatchDiff,
}

impl BatchData {
    /// A copy of this batch.
    pub fn copy(&self) -> (r: BatchData)
        ensures
            r.execute_data@ == self.execute_data@,
            r.diff@ == self.diff@,
    {
        BatchData { execute_data: self.execute_data.copy(), diff: self.diff.copy() }
    }
}

} // verus!
