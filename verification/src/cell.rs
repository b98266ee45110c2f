//! The cell model: statuses of cells under a view of the chain, providers
//! that compute them, and the transaction resolver.

use vstd::prelude::*;

use crate::block::{Block, BlockView};
use crate::capacity::{Capacity, CapacityError};
use crate::codec::spec_tx_hash;
use crate::hash::H256;
use crate::transaction::{
    outputs_capacity_sum, CellInput, CellOutput, CellOutputView, OutPoint, Transaction,
    TransactionView,
};

verus! {

// ---------------------------------------------------------------------
// byte and structure cloning helpers
// ---------------------------------------------------------------------

pub fn clone_bytes(v: &Vec<u8>) -> (r: Vec<u8>)
    ensures
        r@ == v@,
{
    let mut r: Vec<u8> = Vec::new();
    let mut i: usize = 0;
    while i < v.len()
        invariant
            i <= v.len(),
            r@ == v@.take(i as int),
        decreases v.len() - i,
    {
        r.push(v[i]);
        proof {
            assert(r@ =~= v@.take(i + 1 as int));
        }
        i = i + 1;
    }
    proof {
        assert(r@ =~= v@);
    }
    r
}

impl Clone for crate::transaction::Script {
    fn clone(&self) -> (r: Self)
        ensures
            r@ == self@,
    {
        let r = crate::transaction::Script { version: self.version, binary: clone_bytes(
            &self.binary,
        ) };
        proof {
            assert(r@.binary =~= self@.binary);
        }
        r
    }
}

impl Clone for CellOutput {
    fn clone(&self) -> (r: Self)
        ensures
            r@ == self@,
    {
        CellOutput {
            capacity: self.capacity,
            data: clone_bytes(&self.data),
            lock: self.lock.clone(),
            type_: match &self.type_ {
                Some(s) => Some(s.clone()),
                None => None,
            },
        }
    }
}

pub fn clone_outputs(v: &Vec<CellOutput>) -> (r: Vec<CellOutput>)
    ensures
        r@.len() == v@.len(),
        forall|k: int| 0 <= k < v@.len() ==> #[trigger] r@[k]@ == v@[k]@,
    decreases v.len(),
{
    let mut r: Vec<CellOutput> = Vec::new();
    let mut i: usize = 0;
    while i < v.len()
        invariant
            i <= v.len(),
            r@.len() == i,
            forall|k: int| 0 <= k < i ==> #[trigger] r@[k]@ == v@[k]@,
        decreases v.len() - i,
    {
        r.push(v[i].clone());
        i = i + 1;
    }
    r
}

pub fn clone_outpoints(v: &Vec<OutPoint>) -> (r: Vec<OutPoint>)
    ensures
        r@ == v@,
{
    let mut r: Vec<OutPoint> = Vec::new();
    let mut i: usize = 0;
    while i < v.len()
        invariant
            i <= v.len(),
            r@ == v@.take(i as int),
        decreases v.len() - i,
    {
        r.push(v[i]);
        proof {
            assert(r@ =~= v@.take(i + 1 as int));
        }
        i = i + 1;
    }
    proof {
        assert(r@ =~= v@);
    }
    r
}

pub fn clone_inputs(v: &Vec<CellInput>) -> (r: Vec<CellInput>)
    ensures
        r@ == v@,
{
    let mut r: Vec<CellInput> = Vec::new();
    let mut i: usize = 0;
    while i < v.len()
        invariant
            i <= v.len(),
            r@ == v@.take(i as int),
        decreases v.len() - i,
    {
        r.push(v[i]);
        proof {
            assert(r@ =~= v@.take(i + 1 as int));
        }
        i = i + 1;
    }
    proof {
        assert(r@ =~= v@);
    }
    r
}

impl Clone for Transaction {
    fn clone(&self) -> (r: Self)
        ensures
            r@ == self@,
    {
        let r = Transaction {
            version: self.version,
            deps: clone_outpoints(&self.deps),
            inputs: clone_inputs(&self.inputs),
            outputs: clone_outputs(&self.outputs),
        };
        proof {
            assert(r@.outputs =~= self@.outputs);
        }
        r
    }
}

// ---------------------------------------------------------------------
// cell metadata and status
// ---------------------------------------------------------------------

/// A cell output enveloped with lookup metadata: the number of the block
/// that minted it, absent when the cell is not yet in a committed block,
/// and whether it came from a cellbase.
#[derive(PartialEq, Eq, Debug)]
pub struct CellMeta {
    pub cell_output: CellOutput,
    pub block_number: Option<u64>,
    pub cellbase: bool,
}

/// The mathematical value of a [`CellMeta`].
pub struct CellMetaView {
    pub cell_output: CellOutputView,
    pub block_number: Option<u64>,
    pub cellbase: bool,
}

impl View for CellMeta {
    type V = CellMetaView;

    open spec fn view(&self) -> CellMetaView {
        CellMetaView {
            cell_output: self.cell_output@,
            block_number: self.block_number,
            cellbase: self.cellbase,
        }
    }
}

impl Clone for CellMeta {
    fn clone(&self) -> (r: Self)
        ensures
            r@ == self@,
    {
        CellMeta {
            cell_output: self.cell_output.clone(),
            block_number: self.block_number,
            cellbase: self.cellbase,
        }
    }
}

impl CellMeta {
    pub fn is_cellbase(&self) -> (r: bool)
        ensures
            r == self@.cellbase,
    {
        self.cellbase
    }

    pub fn capacity(&self) -> (r: Capacity)
        ensures
            r == self@.cell_output.capacity,
    {
        self.cell_output.capacity
    }
}

/// The status of a cell under one view of the chain.
#[derive(PartialEq, Eq, Debug)]
pub enum CellStatus {
    /// The output exists and is unspent under this view.
    Live(CellMeta),
    /// The output exists, or would exist, but has been consumed under this
    /// view, including by a sibling input of the same block or transaction.
    Dead,
    /// This view has no evidence of the outpoint.
    Unknown,
}

/// The mathematical value of a [`CellStatus`].
pub enum CellStatusView {
    Live(CellMetaView),
    Dead,
    Unknown,
}

impl View for CellStatus {
    type V = CellStatusView;

    open spec fn view(&self) -> CellStatusView {
        match self {
            CellStatus::Live(m) => CellStatusView::Live(m@),
            CellStatus::Dead => CellStatusView::Dead,
            CellStatus::Unknown => CellStatusView::Unknown,
        }
    }
}

impl Clone for CellStatus {
    fn clone(&self) -> (r: Self)
        ensures
            r@ == self@,
    {
        match self {
            CellStatus::Live(m) => CellStatus::Live(m.clone()),
            CellStatus::Dead => CellStatus::Dead,
            CellStatus::Unknown => CellStatus::Unknown,
        }
    }
}

impl CellStatus {
    /// Wraps an output that is live under the current view.
    pub fn live_output(cell_output: CellOutput, block_number: Option<u64>, cellbase: bool) -> (r:
        CellStatus)
        ensures
            r@ == CellStatusView::Live(
                CellMetaView { cell_output: cell_output@, block_number, cellbase },
            ),
    {
        CellStatus::Live(CellMeta { cell_output, block_number, cellbase })
    }

    pub fn is_live(&self) -> (r: bool)
        ensures
            r == (self@ is Live),
    {
        match self {
            CellStatus::Live(_) => true,
            _ => false,
        }
    }

    pub fn is_dead(&self) -> (r: bool)
        ensures
            r == (self@ is Dead),
    {
        match self {
            CellStatus::Dead => true,
            _ => false,
        }
    }

    pub fn is_unknown(&self) -> (r: bool)
        ensures
            r == (self@ is Unknown),
    {
        match self {
            CellStatus::Unknown => true,
            _ => false,
        }
    }

    pub fn get_live_output(&self) -> (r: Option<&CellOutput>)
        ensures
            match r {
                Some(o) => self@ matches CellStatusView::Live(m) && o@ == m.cell_output,
                None => !(self@ is Live),
            },
    {
        match self {
            CellStatus::Live(cell_meta) => Some(&cell_meta.cell_output),
            _ => None,
        }
    }
}

/// The views of a vector of statuses, elementwise.
pub open spec fn statuses_view(v: Seq<CellStatus>) -> Seq<CellStatusView> {
    v.map_values(|c: CellStatus| c@)
}

// ---------------------------------------------------------------------
// the provider capability
// ---------------------------------------------------------------------

/// A transaction together with the statuses its inputs and dependencies
/// resolved to under one fixed view.
pub struct ResolvedTransaction {
    pub transaction: Transaction,
    pub dep_cells: Vec<CellStatus>,
    pub input_cells: Vec<CellStatus>,
}

/// The mathematical value of a [`ResolvedTransaction`].
pub struct ResolvedTransactionView {
    pub transaction: TransactionView,
    pub dep_cells: Seq<CellStatusView>,
    pub input_cells: Seq<CellStatusView>,
}

impl View for ResolvedTransaction {
    type V = ResolvedTransactionView;

    open spec fn view(&self) -> ResolvedTransactionView {
        ResolvedTransactionView {
            transaction: self.transaction@,
            dep_cells: statuses_view(self.dep_cells@),
            input_cells: statuses_view(self.input_cells@),
        }
    }
}

/// A capability mapping an outpoint to its status under one fixed view.
/// `cell_spec` is the view's mathematical content; `cell` computes it.
pub trait CellProvider {
    spec fn cell_spec(&self, o: OutPoint) -> CellStatusView;

    fn cell(&self, out_point: &OutPoint) -> (r: CellStatus)
        ensures
            r@ == self.cell_spec(*out_point),
    ;

    fn get_cell_status(&self, out_point: &OutPoint) -> (r: CellStatus)
        ensures
            r@ == self.cell_spec(*out_point),
    {
        self.cell(out_point)
    }

    /// Resolves a transaction under this view: a cellbase contributes no
    /// input cells; otherwise each input's outpoint is looked up in
    /// declared order, and every dependency outpoint likewise.
    fn resolve_transaction(&self, transaction: &Transaction) -> (r: ResolvedTransaction)
        ensures
            r@.transaction == transaction@,
            transaction@.is_cellbase() ==> r@.input_cells.len() == 0,
            !transaction@.is_cellbase() ==> r@.input_cells.len() == transaction@.inputs.len(),
            !transaction@.is_cellbase() ==> forall|k: int|
                0 <= k < transaction@.inputs.len() ==> #[trigger] r@.input_cells[k]
                    == self.cell_spec(transaction@.inputs[k].previous_output),
            r@.dep_cells.len() == transaction@.deps.len(),
            forall|k: int|
                0 <= k < transaction@.deps.len() ==> #[trigger] r@.dep_cells[k] == self.cell_spec(
                    transaction@.deps[k],
                ),
    {
        let input_cells: Vec<CellStatus> = if transaction.is_cellbase() {
            Vec::new()
        } else {
            let pts = transaction.input_pts();
            let mut cells: Vec<CellStatus> = Vec::new();
            let mut i: usize = 0;
            while i < pts.len()
                invariant
                    i <= pts.len(),
                    pts@ == transaction@.input_pts(),
                    statuses_view(cells@).len() == i,
                    forall|k: int|
                        0 <= k < i ==> #[trigger] statuses_view(cells@)[k] == self.cell_spec(
                            pts@[k],
                        ),
                decreases pts.len() - i,
            {
                let ghost prev = statuses_view(cells@);
                let c = self.get_cell_status(&pts[i]);
                let ghost cv = c@;
                cells.push(c);
                proof {
                    assert(statuses_view(cells@) =~= prev.push(cv));
                }
                i = i + 1;
            }
            cells
        };
        let deps = transaction.dep_pts();
        let mut dep_cells: Vec<CellStatus> = Vec::new();
        let mut i: usize = 0;
        while i < deps.len()
            invariant
                i <= deps.len(),
                deps@ == transaction@.deps,
                statuses_view(dep_cells@).len() == i,
                forall|k: int|
                    0 <= k < i ==> #[trigger] statuses_view(dep_cells@)[k] == self.cell_spec(
                        deps@[k],
                    ),
            decreases deps.len() - i,
        {
            let ghost prev = statuses_view(dep_cells@);
            let c = self.get_cell_status(&deps[i]);
            let ghost cv = c@;
            dep_cells.push(c);
            proof {
                assert(statuses_view(dep_cells@) =~= prev.push(cv));
            }
            i = i + 1;
        }
        ResolvedTransaction { transaction: transaction.clone(), input_cells, dep_cells }
    }
}

// ---------------------------------------------------------------------
// the overlay provider
// ---------------------------------------------------------------------

/// Two stacked views: the overlay is authoritative whenever it has an
/// opinion and transparent only on `Unknown`.
pub struct OverlayCellProvider<'a, A, B> {
    pub overlay: &'a A,
    pub cell_provider: &'a B,
}

impl<'a, A: CellProvider, B: CellProvider> OverlayCellProvider<'a, A, B> {
    pub fn new(overlay: &'a A, cell_provider: &'a B) -> (r: Self)
        ensures
            r.overlay == overlay,
            r.cell_provider == cell_provider,
    {
        Self { overlay, cell_provider }
    }
}

impl<'a, A: CellProvider, B: CellProvider> CellProvider for OverlayCellProvider<'a, A, B> {
    open spec fn cell_spec(&self, o: OutPoint) -> CellStatusView {
        match self.overlay.cell_spec(o) {
            CellStatusView::Live(m) => CellStatusView::Live(m),
            CellStatusView::Dead => CellStatusView::Dead,
            CellStatusView::Unknown => self.cell_provider.cell_spec(o),
        }
    }

    fn cell(&self, out_point: &OutPoint) -> (r: CellStatus)
        ensures
            r@ == self.cell_spec(*out_point),
    {
        match self.overlay.get_cell_status(out_point) {
            CellStatus::Live(co) => CellStatus::Live(co),
            CellStatus::Dead => CellStatus::Dead,
            CellStatus::Unknown => self.cell_provider.get_cell_status(out_point),
        }
    }
}

/// Overlay composition law: for any outpoint, the composite answers as the
/// overlay does whenever the overlay's answer is not `Unknown`, and as the
/// bottom view does otherwise.
pub proof fn lemma_overlay_composition<'a, A: CellProvider, B: CellProvider>(
    p: OverlayCellProvider<'a, A, B>,
    o: OutPoint,
)
    ensures
        !(p.overlay.cell_spec(o) is Unknown) ==> p.cell_spec(o) == p.overlay.cell_spec(o),
        p.overlay.cell_spec(o) is Unknown ==> p.cell_spec(o) == p.cell_provider.cell_spec(o),
{
}

// ---------------------------------------------------------------------
// occurrence counting
// ---------------------------------------------------------------------

/// How many entries of `v` equal `o`.
pub open spec fn occ_seq(v: Seq<OutPoint>, o: OutPoint) -> int
    decreases v.len(),
{
    if v.len() == 0 {
        0
    } else {
        occ_seq(v.drop_last(), o) + if v.last() == o {
            1int
        } else {
            0int
        }
    }
}

/// How many inputs of the transaction consume `o`.
pub open spec fn occ_inputs(inputs: Seq<CellInput>, o: OutPoint) -> int
    decreases inputs.len(),
{
    if inputs.len() == 0 {
        0
    } else {
        occ_inputs(inputs.drop_last(), o) + if inputs.last().previous_output == o {
            1int
        } else {
            0int
        }
    }
}

/// How many inputs across all the transactions consume `o`.
pub open spec fn occ_txs(txs: Seq<TransactionView>, o: OutPoint) -> int
    decreases txs.len(),
{
    if txs.len() == 0 {
        0
    } else {
        occ_txs(txs.drop_last(), o) + occ_inputs(txs.last().inputs, o)
    }
}

/// Counts the entries of `v` equal to `o`, capped so the count fits.
fn count_occurrences(v: &Vec<OutPoint>, o: &OutPoint) -> (r: usize)
    ensures
        r == occ_seq(v@, *o),
{
    let mut r: usize = 0;
    let mut i: usize = 0;
    while i < v.len()
        invariant
            i <= v.len(),
            r == occ_seq(v@.take(i as int), *o),
            r <= i,
        decreases v.len() - i,
    {
        proof {
            assert(v@.take(i + 1 as int).drop_last() =~= v@.take(i as int));
            assert(v@.take(i + 1 as int).last() == v@[i as int]);
        }
        if v[i] == *o {
            r = r + 1;
        }
        i = i + 1;
    }
    proof {
        assert(v@.take(v@.len() as int) =~= v@);
    }
    r
}

// ---------------------------------------------------------------------
// the block provider
// ---------------------------------------------------------------------

/// The first position in the table whose hash matches, if any.
pub open spec fn lookup_index(t: Seq<(H256, usize)>, h: H256) -> Option<usize>
    decreases t.len(),
{
    if t.len() == 0 {
        None
    } else if t[0].0 == h {
        Some(t[0].1)
    } else {
        lookup_index(t.subrange(1, t.len() as int), h)
    }
}

/// A view of a candidate block itself: outputs created by the block's own
/// transactions are live, and an outpoint consumed by two or more of the
/// block's inputs is dead, shadowing, by overlay composition, whatever the
/// store believes.
pub struct BlockCellProvider<'a> {
    /// For each transaction, its hash paired with its position.
    pub output_indices: Vec<(H256, usize)>,
    /// Every outpoint consumed by any input of the block, in order.
    pub input_occurrences: Vec<OutPoint>,
    pub block: &'a Block,
}

impl<'a> BlockCellProvider<'a> {
    /// The tables agree with the block they were built from.
    pub open spec fn wf(self) -> bool {
        &&& forall|o: OutPoint| #[trigger] occ_seq(self.input_occurrences@, o) == occ_txs(
            self.block@.transactions,
            o,
        )
        &&& self.output_indices@.len() == self.block@.transactions.len()
        &&& forall|k: int|
            0 <= k < self.output_indices@.len() ==> (#[trigger] self.output_indices@[k]).0
                == spec_tx_hash(self.block@.transactions[k]) && self.output_indices@[k].1 == k
    }

    pub fn new(block: &'a Block) -> (r: Self)
        ensures
            r.wf(),
            r.block == block,
    {
        let mut output_indices: Vec<(H256, usize)> = Vec::new();
        let mut input_occurrences: Vec<OutPoint> = Vec::new();
        let ghost txs = block@.transactions;
        let mut i: usize = 0;
        while i < block.transactions.len()
            invariant
                i <= block.transactions.len(),
                txs == block@.transactions,
                txs.len() == block.transactions@.len(),
                output_indices@.len() == i,
                forall|k: int|
                    0 <= k < i ==> (#[trigger] output_indices@[k]).0 == spec_tx_hash(txs[k])
                        && output_indices@[k].1 == k,
                forall|o: OutPoint| #[trigger] occ_seq(input_occurrences@, o) == occ_txs(
                    txs.take(i as int),
                    o,
                ),
            decreases block.transactions.len() - i,
        {
            let tx = &block.transactions[i];
            let h = tx.hash();
            output_indices.push((h, i));
            let ghost inputs = txs[i as int].inputs;
            let mut j: usize = 0;
            while j < tx.inputs.len()
                invariant
                    j <= tx.inputs.len(),
                    0 <= i < txs.len(),
                    txs[i as int] == tx@,
                    inputs == tx@.inputs,
                    inputs.len() == tx.inputs@.len(),
                    forall|o: OutPoint| #[trigger] occ_seq(input_occurrences@, o) == occ_txs(
                        txs.take(i as int),
                        o,
                    ) + occ_inputs(inputs.take(j as int), o),
                decreases tx.inputs.len() - j,
            {
                let ghost prev = input_occurrences@;
                input_occurrences.push(tx.inputs[j].previous_output);
                proof {
                    assert forall|o: OutPoint| #[trigger] occ_seq(input_occurrences@, o) == occ_txs(
                        txs.take(i as int),
                        o,
                    ) + occ_inputs(inputs.take(j + 1 as int), o) by {
                        assert(occ_seq(prev, o) == occ_txs(txs.take(i as int), o) + occ_inputs(
                            inputs.take(j as int),
                            o,
                        ));
                        assert(input_occurrences@.drop_last() =~= prev);
                        assert(input_occurrences@.last() == inputs[j as int].previous_output);
                        assert(inputs.take(j + 1 as int).drop_last() =~= inputs.take(j as int));
                        assert(inputs.take(j + 1 as int).last() == inputs[j as int]);
                    }
                }
                j = j + 1;
            }
            proof {
                assert(inputs.take(inputs.len() as int) =~= inputs);
                assert(txs.take(i + 1 as int).drop_last() =~= txs.take(i as int));
                assert(txs.take(i + 1 as int).last() == txs[i as int]);
                assert forall|o: OutPoint| #[trigger] occ_seq(input_occurrences@, o) == occ_txs(
                    txs.take(i + 1 as int),
                    o,
                ) by {
                    assert(occ_seq(input_occurrences@, o) == occ_txs(txs.take(i as int), o)
                        + occ_inputs(inputs.take(inputs.len() as int), o));
                }
            }
            i = i + 1;
        }
        proof {
            assert(txs.take(txs.len() as int) =~= txs);
        }
        Self { output_indices, input_occurrences, block }
    }
}

/// Scans the table for the first entry with this hash.
fn scan_index(t: &Vec<(H256, usize)>, h: &H256) -> (r: Option<usize>)
    ensures
        r == lookup_index(t@, *h),
{
    let mut i: usize = 0;
    proof {
        assert(t@.subrange(0, t@.len() as int) =~= t@);
    }
    while i < t.len()
        invariant
            i <= t.len(),
            lookup_index(t@, *h) == lookup_index(t@.subrange(i as int, t@.len() as int), *h),
            forall|k: int| 0 <= k < i ==> (#[trigger] t@[k]).0 != *h,
        decreases t.len() - i,
    {
        proof {
            let rest = t@.subrange(i as int, t@.len() as int);
            assert(rest[0] == t@[i as int]);
            assert(rest.subrange(1, rest.len() as int) =~= t@.subrange(
                i + 1 as int,
                t@.len() as int,
            ));
        }
        if t[i].0 == *h {
            return Some(t[i].1);
        }
        i = i + 1;
    }
    proof {
        assert(t@.subrange(t@.len() as int, t@.len() as int) =~= Seq::<(H256, usize)>::empty());
    }
    None
}

impl<'a> CellProvider for BlockCellProvider<'a> {
    open spec fn cell_spec(&self, o: OutPoint) -> CellStatusView {
        if occ_seq(self.input_occurrences@, o) >= 2 {
            CellStatusView::Dead
        } else {
            match lookup_index(self.output_indices@, o.tx_hash) {
                Some(i) => if i < self.block@.transactions.len() && (o.index as int)
                    < self.block@.transactions[i as int].outputs.len() {
                    CellStatusView::Live(
                        CellMetaView {
                            cell_output: self.block@.transactions[i as int].outputs[o.index as int],
                            block_number: Some(self.block@.header.number),
                            cellbase: i == 0,
                        },
                    )
                } else {
                    CellStatusView::Unknown
                },
                None => CellStatusView::Unknown,
            }
        }
    }

    fn cell(&self, out_point: &OutPoint) -> (r: CellStatus)
        ensures
            r@ == self.cell_spec(*out_point),
    {
        let n = count_occurrences(&self.input_occurrences, out_point);
        if n >= 2 {
            return CellStatus::Dead;
        }
        match scan_index(&self.output_indices, &out_point.tx_hash) {
            Some(i) => {
                if i < self.block.transactions.len() && (out_point.index as usize)
                    < self.block.transactions[i].outputs.len() {
                    let output = self.block.transactions[i].outputs[out_point.index as usize]
                        .clone();
                    CellStatus::live_output(output, Some(self.block.header.number), i == 0)
                } else {
                    CellStatus::Unknown
                }
            },
            None => CellStatus::Unknown,
        }
    }
}

/// Intra-block double spend: an outpoint consumed by two or more inputs
/// across the block's transactions is dead under the block's own provider,
/// whatever else the block contains.
pub proof fn lemma_block_provider_double_spend(p: BlockCellProvider, o: OutPoint)
    requires
        p.wf(),
        occ_txs(p.block@.transactions, o) >= 2,
    ensures
        p.cell_spec(o) is Dead,
{
}

// ---------------------------------------------------------------------
// the single-transaction provider
// ---------------------------------------------------------------------

/// A degenerate block view carrying only the duplicate-input discipline of
/// one transaction: an outpoint the transaction consumes more than once is
/// dead, everything else is unknown.
pub struct TransactionCellProvider {
    /// Every outpoint consumed by an input of the transaction, in order.
    pub input_occurrences: Vec<OutPoint>,
}

impl TransactionCellProvider {
    pub fn new(transaction: &Transaction) -> (r: Self)
        ensures
            forall|o: OutPoint| #[trigger] occ_seq(r.input_occurrences@, o) == occ_inputs(
                transaction@.inputs,
                o,
            ),
    {
        let mut input_occurrences: Vec<OutPoint> = Vec::new();
        let ghost inputs = transaction@.inputs;
        let mut j: usize = 0;
        while j < transaction.inputs.len()
            invariant
                j <= transaction.inputs.len(),
                inputs == transaction@.inputs,
                inputs.len() == transaction.inputs@.len(),
                forall|o: OutPoint| #[trigger] occ_seq(input_occurrences@, o) == occ_inputs(
                    inputs.take(j as int),
                    o,
                ),
            decreases transaction.inputs.len() - j,
        {
            let ghost prev = input_occurrences@;
            input_occurrences.push(transaction.inputs[j].previous_output);
            proof {
                assert forall|o: OutPoint| #[trigger] occ_seq(input_occurrences@, o) == occ_inputs(
                    inputs.take(j + 1 as int),
                    o,
                ) by {
                    assert(occ_seq(prev, o) == occ_inputs(inputs.take(j as int), o));
                    assert(input_occurrences@.drop_last() =~= prev);
                    assert(input_occurrences@.last() == inputs[j as int].previous_output);
                    assert(inputs.take(j + 1 as int).drop_last() =~= inputs.take(j as int));
                    assert(inputs.take(j + 1 as int).last() == inputs[j as int]);
                }
            }
            j = j + 1;
        }
        proof {
            assert(inputs.take(inputs.len() as int) =~= inputs);
        }
        Self { input_occurrences }
    }
}

impl CellProvider for TransactionCellProvider {
    open spec fn cell_spec(&self, o: OutPoint) -> CellStatusView {
        if occ_seq(self.input_occurrences@, o) >= 2 {
            CellStatusView::Dead
        } else {
            CellStatusView::Unknown
        }
    }

    fn cell(&self, out_point: &OutPoint) -> (r: CellStatus)
        ensures
            r@ == self.cell_spec(*out_point),
    {
        let n = count_occurrences(&self.input_occurrences, out_point);
        if n >= 2 {
            CellStatus::Dead
        } else {
            CellStatus::Unknown
        }
    }
}

// ---------------------------------------------------------------------
// an in-memory provider
// ---------------------------------------------------------------------

/// The first binding for `o`, if any: `Some(Some(m))` a live cell,
/// `Some(None)` a spent one, `None` no evidence.
pub open spec fn cells_lookup(t: Seq<(OutPoint, Option<CellMeta>)>, o: OutPoint) -> Option<
    Option<CellMeta>,
>
    decreases t.len(),
{
    if t.len() == 0 {
        None
    } else if t[0].0 == o {
        Some(t[0].1)
    } else {
        cells_lookup(t.subrange(1, t.len() as int), o)
    }
}

/// A provider backed by a plain in-memory table, for resolving against a
/// hand-built view.
pub struct CellMemoryDb {
    pub cells: Vec<(OutPoint, Option<CellMeta>)>,
}

impl CellMemoryDb {
    pub fn new() -> (r: CellMemoryDb)
        ensures
            r.cells@.len() == 0,
    {
        CellMemoryDb { cells: Vec::new() }
    }

    /// Binds `o`, shadowing any earlier binding.
    pub fn insert(&mut self, o: OutPoint, m: Option<CellMeta>)
        ensures
            final(self).cells@.len() == old(self).cells@.len() + 1,
            cells_lookup(final(self).cells@, o) matches Some(b) && (match m {
                Some(meta) => b matches Some(bm) && bm@ == meta@,
                None => b is None,
            }),
            forall|p: OutPoint|
                p != o ==> #[trigger] cells_lookup(final(self).cells@, p) == cells_lookup(
                    old(self).cells@,
                    p,
                ),
    {
        let ghost prev = self.cells@;
        self.cells.insert(0, (o, m));
        proof {
            assert(self.cells@[0].0 == o);
            assert(self.cells@.subrange(1, self.cells@.len() as int) =~= prev);
        }
    }
}

impl CellProvider for CellMemoryDb {
    open spec fn cell_spec(&self, o: OutPoint) -> CellStatusView {
        match cells_lookup(self.cells@, o) {
            Some(b) => match b {
                Some(m) => CellStatusView::Live(m@),
                None => CellStatusView::Dead,
            },
            None => CellStatusView::Unknown,
        }
    }

    fn cell(&self, out_point: &OutPoint) -> (r: CellStatus)
        ensures
            r@ == self.cell_spec(*out_point),
    {
        let mut i: usize = 0;
        proof {
            assert(self.cells@.subrange(0, self.cells@.len() as int) =~= self.cells@);
        }
        while i < self.cells.len()
            invariant
                i <= self.cells.len(),
                cells_lookup(self.cells@, *out_point) == cells_lookup(
                    self.cells@.subrange(i as int, self.cells@.len() as int),
                    *out_point,
                ),
            decreases self.cells.len() - i,
        {
            proof {
                let rest = self.cells@.subrange(i as int, self.cells@.len() as int);
                assert(rest[0] == self.cells@[i as int]);
                assert(rest.subrange(1, rest.len() as int) =~= self.cells@.subrange(
                    i + 1 as int,
                    self.cells@.len() as int,
                ));
            }
            if self.cells[i].0 == *out_point {
                return match &self.cells[i].1 {
                    Some(m) => CellStatus::Live(m.clone()),
                    None => CellStatus::Dead,
                };
            }
            i = i + 1;
        }
        proof {
            assert(self.cells@.subrange(self.cells@.len() as int, self.cells@.len() as int) =~= Seq::<
                (OutPoint, Option<CellMeta>),
            >::empty());
        }
        CellStatus::Unknown
    }
}

// ---------------------------------------------------------------------
// derived queries on a resolved transaction
// ---------------------------------------------------------------------

/// The sum of the capacities of the live statuses, as an unbounded integer;
/// non-live statuses contribute zero.
pub open spec fn live_capacity_sum(cells: Seq<CellStatusView>) -> int
    decreases cells.len(),
{
    if cells.len() == 0 {
        0
    } else {
        live_capacity_sum(cells.drop_last()) + match cells.last() {
            CellStatusView::Live(m) => m.cell_output.capacity.0 as int,
            _ => 0,
        }
    }
}

/// Every partial sum of live capacities is at most the full sum.
pub proof fn lemma_live_capacity_sum_take(cells: Seq<CellStatusView>, i: int)
    requires
        0 <= i <= cells.len(),
    ensures
        live_capacity_sum(cells.take(i)) <= live_capacity_sum(cells),
        live_capacity_sum(cells.take(i)) >= 0,
    decreases cells.len(),
{
    if cells.len() == 0 {
        assert(cells.take(i) =~= cells);
    } else if i == cells.len() {
        assert(cells.take(i) =~= cells);
        lemma_live_capacity_sum_take(cells.drop_last(), i - 1);
    } else {
        assert(cells.take(i) =~= cells.drop_last().take(i));
        lemma_live_capacity_sum_take(cells.drop_last(), i);
    }
}

impl ResolvedTransaction {
    /// A resolved cellbase is recognizable by its empty input list.
    pub fn is_cellbase(&self) -> (r: bool)
        ensures
            r == (self@.input_cells.len() == 0),
    {
        self.input_cells.is_empty()
    }

    /// Checked sum of the capacities of the inputs that resolved live:
    /// `ArithmeticOverflow` exactly when the mathematical sum does not fit
    /// in 64 bits.  Non-live inputs contribute zero; rejecting them is the
    /// verifier's business, not this layer's.
    pub fn inputs_capacity(&self) -> (r: Result<Capacity, CapacityError>)
        ensures
            live_capacity_sum(self@.input_cells) <= u64::MAX ==> r == Ok::<Capacity, CapacityError>(
                Capacity(live_capacity_sum(self@.input_cells) as u64),
            ),
            live_capacity_sum(self@.input_cells) > u64::MAX ==> r == Err::<Capacity, CapacityError>(
                CapacityError::ArithmeticOverflow,
            ),
    {
        let ghost all = self@.input_cells;
        let mut sum = Capacity::zero();
        let mut i: usize = 0;
        while i < self.input_cells.len()
            invariant
                i <= self.input_cells.len(),
                all == self@.input_cells,
                self.input_cells@.len() == all.len(),
                sum.0 == live_capacity_sum(all.take(i as int)),
            decreases self.input_cells.len() - i,
        {
            proof {
                assert(all.take(i + 1 as int).drop_last() =~= all.take(i as int));
                assert(all.take(i + 1 as int).last() == all[i as int]);
                assert(all[i as int] == statuses_view(self.input_cells@)[i as int]);
            }
            let step = match &self.input_cells[i] {
                CellStatus::Live(cell_meta) => cell_meta.capacity(),
                _ => Capacity::zero(),
            };
            match sum.safe_add(step) {
                Ok(s) => {
                    sum = s;
                },
                Err(e) => {
                    proof {
                        lemma_live_capacity_sum_take(all, i + 1 as int);
                    }
                    return Err(e);
                },
            }
            i = i + 1;
        }
        proof {
            assert(all.take(self.input_cells@.len() as int) =~= all);
        }
        Ok(sum)
    }

    /// The fee: what the live inputs carry beyond what the outputs claim,
    /// never below zero, with every sum checked.
    pub fn fee(&self) -> (r: Result<Capacity, CapacityError>)
        ensures
            live_capacity_sum(self@.input_cells) > u64::MAX ==> r == Err::<Capacity, CapacityError>(
                CapacityError::ArithmeticOverflow,
            ),
            live_capacity_sum(self@.input_cells) <= u64::MAX && outputs_capacity_sum(
                self@.transaction.outputs,
            ) > u64::MAX ==> r == Err::<Capacity, CapacityError>(CapacityError::ArithmeticOverflow),
            live_capacity_sum(self@.input_cells) <= u64::MAX && outputs_capacity_sum(
                self@.transaction.outputs,
            ) <= u64::MAX ==> r == Ok::<Capacity, CapacityError>(
                Capacity(
                    if live_capacity_sum(self@.input_cells) > outputs_capacity_sum(
                        self@.transaction.outputs,
                    ) {
                        (live_capacity_sum(self@.input_cells) - outputs_capacity_sum(
                            self@.transaction.outputs,
                        )) as u64
                    } else {
                        0u64
                    },
                ),
            ),
    {
        match self.inputs_capacity() {
            Err(e) => Err(e),
            Ok(x) => match self.transaction.outputs_capacity() {
                Err(e) => Err(e),
                Ok(y) => {
                    proof {
                        let ins = self@.input_cells;
                        let outs = self@.transaction.outputs;
                        lemma_live_capacity_sum_take(ins, ins.len() as int);
                        assert(ins.take(ins.len() as int) =~= ins);
                        crate::transaction::lemma_outputs_capacity_sum_take(
                            outs,
                            outs.len() as int,
                        );
                        assert(outs.take(outs.len() as int) =~= outs);
                        assert(x.0 == live_capacity_sum(ins));
                        assert(y.0 == outputs_capacity_sum(outs));
                    }
                    if x.as_u64() > y.as_u64() {
                        x.safe_sub(y)
                    } else {
                        Ok(Capacity::zero())
                    }
                },
            },
        }
    }
}

} // verus!
