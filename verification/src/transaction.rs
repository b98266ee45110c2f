use vstd::prelude::*;

use crate::capacity::{Capacity, CapacityError};
use crate::hash::H256;

verus! {

/// A pair `(tx_hash, index)` naming one output of one transaction: the
/// universal key into the cell graph.
#[derive(Clone, Copy, PartialEq, Eq, Structural, Hash, Debug)]
pub struct OutPoint {
    pub tx_hash: H256,
    pub index: u32,
}

impl OutPoint {
    pub open spec fn null_spec() -> OutPoint {
        OutPoint { tx_hash: H256::zero_spec(), index: u32::MAX }
    }

    /// The reserved outpoint named by a cellbase input: the zero hash and the
    /// largest index.
    pub fn null() -> (r: OutPoint)
        ensures
            r == OutPoint::null_spec(),
    {
        OutPoint { tx_hash: H256::zero(), index: u32::MAX }
    }

    pub open spec fn is_null_spec(self) -> bool {
        self == OutPoint::null_spec()
    }

    pub fn is_null(&self) -> (r: bool)
        ensures
            r == self.is_null_spec(),
    {
        self.tx_hash.is_zero() && self.index == u32::MAX
    }
}

/// A transaction input, naming the output it consumes.
#[derive(Clone, Copy, PartialEq, Eq, Structural, Hash, Debug)]
pub struct CellInput {
    pub previous_output: OutPoint,
}

/// A script controlling how a cell may be spent or created.
#[derive(PartialEq, Eq, Hash, Debug)]
pub struct Script {
    pub version: u32,
    pub binary: Vec<u8>,
}

/// The mathematical value of a [`Script`].
pub struct ScriptView {
    pub version: u32,
    pub binary: Seq<u8>,
}

impl View for Script {
    type V = ScriptView;

    open spec fn view(&self) -> ScriptView {
        ScriptView { version: self.version, binary: self.binary@ }
    }
}

impl Script {
    /// The empty script: version zero, no bytes.
    pub fn new_empty() -> (r: Script)
        ensures
            r@.version == 0,
            r@.binary == Seq::<u8>::empty(),
    {
        Script { version: 0, binary: Vec::new() }
    }
}

/// A transaction output: a cell, with its capacity, opaque data payload, the
/// lock script controlling spendability and an optional type script
/// governing creation and burn.
#[derive(PartialEq, Eq, Hash, Debug)]
pub struct CellOutput {
    pub capacity: Capacity,
    pub data: Vec<u8>,
    pub lock: Script,
    pub type_: Option<Script>,
}

/// The mathematical value of a [`CellOutput`].
pub struct CellOutputView {
    pub capacity: Capacity,
    pub data: Seq<u8>,
    pub lock: ScriptView,
    pub type_: Option<ScriptView>,
}

impl View for CellOutput {
    type V = CellOutputView;

    open spec fn view(&self) -> CellOutputView {
        CellOutputView {
            capacity: self.capacity,
            data: self.data@,
            lock: self.lock@,
            type_: match self.type_ {
                Some(s) => Some(s@),
                None => None,
            },
        }
    }
}

/// A ten-byte short identifier of a proposed transaction: the first ten
/// bytes of its hash.
#[derive(Clone, Copy, PartialEq, Eq, Structural, Hash, Debug)]
pub struct ProposalShortId {
    pub hi: u64,
    pub lo: u16,
}

impl ProposalShortId {
    pub open spec fn from_tx_hash_spec(h: H256) -> ProposalShortId {
        ProposalShortId { hi: h.w0, lo: (h.w1 & 0xffff) as u16 }
    }

    /// The short id of the transaction with hash `h`: its first ten bytes.
    pub fn from_tx_hash(h: &H256) -> (r: ProposalShortId)
        ensures
            r == ProposalShortId::from_tx_hash_spec(*h),
    {
        ProposalShortId { hi: h.w0, lo: (h.w1 & 0xffff) as u16 }
    }
}

/// A transaction: read-only dependencies, inputs consuming cells, and
/// outputs creating cells.
#[derive(PartialEq, Eq, Hash, Debug)]
pub struct Transaction {
    pub version: u32,
    pub deps: Vec<OutPoint>,
    pub inputs: Vec<CellInput>,
    pub outputs: Vec<CellOutput>,
}

/// The mathematical value of a [`Transaction`].
pub struct TransactionView {
    pub version: u32,
    pub deps: Seq<OutPoint>,
    pub inputs: Seq<CellInput>,
    pub outputs: Seq<CellOutputView>,
}

impl View for Transaction {
    type V = TransactionView;

    open spec fn view(&self) -> TransactionView {
        TransactionView {
            version: self.version,
            deps: self.deps@,
            inputs: self.inputs@,
            outputs: self.outputs@.map_values(|o: CellOutput| o@),
        }
    }
}

impl TransactionView {
    /// A transaction is a cellbase exactly when it has the reserved coinbase
    /// input shape: one input naming the null outpoint.
    pub open spec fn is_cellbase(self) -> bool {
        self.inputs.len() == 1 && self.inputs[0].previous_output.is_null_spec()
    }

    /// The outpoints named by the inputs, in declared order.
    pub open spec fn input_pts(self) -> Seq<OutPoint> {
        self.inputs.map_values(|i: CellInput| i.previous_output)
    }
}

impl Transaction {
    /// A transaction with no dependencies, inputs or outputs.
    pub fn new_empty(version: u32) -> (r: Transaction)
        ensures
            r@.version == version,
            r@.deps == Seq::<OutPoint>::empty(),
            r@.inputs == Seq::<CellInput>::empty(),
            r@.outputs == Seq::<CellOutputView>::empty(),
    {
        let r = Transaction { version, deps: Vec::new(), inputs: Vec::new(), outputs: Vec::new() };
        proof {
            assert(r@.outputs =~= Seq::<CellOutputView>::empty());
        }
        r
    }

    pub fn is_cellbase(&self) -> (r: bool)
        ensures
            r == self@.is_cellbase(),
    {
        self.inputs.len() == 1 && self.inputs[0].previous_output.is_null()
    }

    /// The outpoints named by the inputs, in declared order.
    pub fn input_pts(&self) -> (r: Vec<OutPoint>)
        ensures
            r@ == self@.input_pts(),
    {
        let mut r: Vec<OutPoint> = Vec::new();
        let mut i: usize = 0;
        while i < self.inputs.len()
            invariant
                i <= self.inputs.len(),
                r@ == self@.input_pts().take(i as int),
            decreases self.inputs.len() - i,
        {
            r.push(self.inputs[i].previous_output);
            proof {
                assert(r@ =~= self@.input_pts().take(i + 1 as int));
            }
            i = i + 1;
        }
        proof {
            assert(r@ =~= self@.input_pts());
        }
        r
    }

    /// The read-only dependency outpoints, in declared order.
    pub fn dep_pts(&self) -> (r: Vec<OutPoint>)
        ensures
            r@ == self@.deps,
    {
        let mut r: Vec<OutPoint> = Vec::new();
        let mut i: usize = 0;
        while i < self.deps.len()
            invariant
                i <= self.deps.len(),
                r@ == self@.deps.take(i as int),
            decreases self.deps.len() - i,
        {
            r.push(self.deps[i]);
            proof {
                assert(r@ =~= self@.deps.take(i + 1 as int));
            }
            i = i + 1;
        }
        proof {
            assert(r@ =~= self@.deps);
        }
        r
    }
}

/// The sum of the capacities of a sequence of outputs, as an unbounded
/// integer.
pub open spec fn outputs_capacity_sum(outputs: Seq<CellOutputView>) -> int
    decreases outputs.len(),
{
    if outputs.len() == 0 {
        0
    } else {
        outputs_capacity_sum(outputs.drop_last()) + outputs.last().capacity.0
    }
}

/// Every partial sum of capacities is at most the full sum, the summands
/// being non-negative.
pub proof fn lemma_outputs_capacity_sum_take(outputs: Seq<CellOutputView>, i: int)
    requires
        0 <= i <= outputs.len(),
    ensures
        outputs_capacity_sum(outputs.take(i)) <= outputs_capacity_sum(outputs),
        outputs_capacity_sum(outputs.take(i)) >= 0,
    decreases outputs.len(),
{
    if outputs.len() == 0 {
        assert(outputs.take(i) =~= outputs);
    } else if i == outputs.len() {
        assert(outputs.take(i) =~= outputs);
        lemma_outputs_capacity_sum_take(outputs.drop_last(), i - 1);
    } else {
        assert(outputs.take(i) =~= outputs.drop_last().take(i));
        lemma_outputs_capacity_sum_take(outputs.drop_last(), i);
    }
}

impl Transaction {
    /// Checked sum of the capacities of this transaction's outputs:
    /// `ArithmeticOverflow` exactly when the mathematical sum does not fit
    /// in 64 bits.
    pub fn outputs_capacity(&self) -> (r: Result<Capacity, CapacityError>)
        ensures
            outputs_capacity_sum(self@.outputs) <= u64::MAX ==> r == Ok::<
                Capacity,
                CapacityError,
            >(Capacity(outputs_capacity_sum(self@.outputs) as u64)),
            outputs_capacity_sum(self@.outputs) > u64::MAX ==> r == Err::<
                Capacity,
                CapacityError,
            >(CapacityError::ArithmeticOverflow),
    {
        let ghost all = self@.outputs;
        let mut sum = Capacity::zero();
        let mut i: usize = 0;
        while i < self.outputs.len()
            invariant
                i <= self.outputs.len(),
                all == self@.outputs,
                self.outputs@.len() == all.len(),
                sum.0 == outputs_capacity_sum(all.take(i as int)),
            decreases self.outputs.len() - i,
        {
            proof {
                assert(all.take(i + 1 as int).drop_last() =~= all.take(i as int));
                assert(all.take(i + 1 as int).last() == all[i as int]);
                assert(all[i as int] == self.outputs@.map_values(|o: CellOutput| o@)[i as int]);
            }
            match sum.safe_add(self.outputs[i].capacity) {
                Ok(s) => {
                    sum = s;
                },
                Err(e) => {
                    proof {
                        lemma_outputs_capacity_sum_take(all, i + 1 as int);
                    }
                    return Err(e);
                },
            }
            i = i + 1;
        }
        proof {
            assert(all.take(self.outputs@.len() as int) =~= all);
        }
        Ok(sum)
    }
}

} // verus!
