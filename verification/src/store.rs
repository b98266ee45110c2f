//! The chain store: the durable column layout, typed reads, and the atomic
//! write-batch operations that attach and detach blocks.

use vstd::prelude::*;

use crate::block::{Block, BlockView, Header, UncleBlock};
use crate::cell::clone_bytes;
use crate::codec::{
    dec_address_vec, dec_ext, dec_header, dec_psid_vec, dec_tx, dec_tx_addr, dec_u64,
    dec_uncle_vec, enc_address_vec, enc_header, enc_psid_vec, enc_tx_addr, enc_u64, enc_uncle_vec,
    flat_serialize, serialized_addresses, spec_dec_address_vec, spec_dec_ext, spec_dec_h256,
    spec_dec_header, spec_dec_psid_vec, spec_dec_tx, spec_dec_tx_addr, spec_dec_u64,
    spec_dec_uncle_vec, spec_enc_address_vec, spec_enc_ext, spec_enc_h256, spec_enc_header,
    spec_enc_psid_vec, spec_enc_tx_addr, spec_enc_u64, spec_enc_uncle_vec, spec_flat_addrs,
    spec_enc_tx, spec_flat_body, spec_header_hash, spec_tx_hash, txs_view,
};
use crate::extras::{Address, BlockExt, TransactionAddress};
use crate::hash::H256;
use crate::kv::{
    apply_op, apply_ops, ops_view, Col, MemoryDbBatch, MemoryKeyValueDB, OpView, StoreView,
};
use crate::transaction::{ProposalShortId, Transaction, TransactionView};

verus! {

// ---------------------------------------------------------------------
// the column layout
// ---------------------------------------------------------------------

pub const COLUMN_BLOCK_HEADER: Col = 0;
pub const COLUMN_BLOCK_UNCLE: Col = 1;
pub const COLUMN_BLOCK_PROPOSAL_IDS: Col = 2;
pub const COLUMN_BLOCK_BODY: Col = 3;
pub const COLUMN_BLOCK_TRANSACTION_ADDRESSES: Col = 4;
pub const COLUMN_EXT: Col = 5;
pub const COLUMN_INDEX: Col = 6;
pub const COLUMN_TRANSACTION_ADDR: Col = 7;
pub const COLUMN_META: Col = 8;

/// How many columns the store uses.
pub const COLUMNS: u32 = 9;

/// The key of the tip pointer in the META column: the bytes of
/// `TIP_HEADER`.
pub open spec fn spec_tip_key() -> Seq<u8> {
    seq![0x54u8, 0x49u8, 0x50u8, 0x5fu8, 0x48u8, 0x45u8, 0x41u8, 0x44u8, 0x45u8, 0x52u8]
}

pub fn tip_key() -> (r: Vec<u8>)
    ensures
        r@ == spec_tip_key(),
{
    let mut r: Vec<u8> = Vec::new();
    r.push(0x54);
    r.push(0x49);
    r.push(0x50);
    r.push(0x5f);
    r.push(0x48);
    r.push(0x45);
    r.push(0x41);
    r.push(0x44);
    r.push(0x45);
    r.push(0x52);
    proof {
        assert(r@ =~= spec_tip_key());
    }
    r
}

// ---------------------------------------------------------------------
// the mathematical content of the store
// ---------------------------------------------------------------------

/// The raw bytes bound to `k` in column `c`, if any.
pub open spec fn col_get(v: StoreView, c: Col, k: Seq<u8>) -> Option<Seq<u8>> {
    if (c as int) < v.len() && v[c as int].contains_key(k) {
        Some(v[c as int][k])
    } else {
        None
    }
}

pub open spec fn stored_header(v: StoreView, h: H256) -> Option<Header> {
    match col_get(v, COLUMN_BLOCK_HEADER, spec_enc_h256(h)) {
        Some(raw) => spec_dec_header(raw),
        None => None,
    }
}

pub open spec fn stored_uncles(v: StoreView, h: H256) -> Option<Seq<UncleBlock>> {
    match col_get(v, COLUMN_BLOCK_UNCLE, spec_enc_h256(h)) {
        Some(raw) => spec_dec_uncle_vec(raw),
        None => None,
    }
}

pub open spec fn stored_proposals(v: StoreView, h: H256) -> Option<Seq<ProposalShortId>> {
    match col_get(v, COLUMN_BLOCK_PROPOSAL_IDS, spec_enc_h256(h)) {
        Some(raw) => spec_dec_psid_vec(raw),
        None => None,
    }
}

pub open spec fn stored_ext(v: StoreView, h: H256) -> Option<BlockExt> {
    match col_get(v, COLUMN_EXT, spec_enc_h256(h)) {
        Some(raw) => spec_dec_ext(raw),
        None => None,
    }
}

pub open spec fn stored_body_addrs(v: StoreView, h: H256) -> Option<Seq<Address>> {
    match col_get(v, COLUMN_BLOCK_TRANSACTION_ADDRESSES, spec_enc_h256(h)) {
        Some(raw) => spec_dec_address_vec(raw),
        None => None,
    }
}

/// Decodes each recorded window of a flat body back into a transaction.
pub open spec fn spec_windows(body: Seq<u8>, addrs: Seq<Address>) -> Option<Seq<TransactionView>>
    decreases addrs.len(),
{
    if addrs.len() == 0 {
        Some(Seq::empty())
    } else {
        match spec_windows(body, addrs.drop_last()) {
            Some(ts) => {
                let a = addrs.last();
                if a.offset + a.length <= body.len() {
                    match spec_dec_tx(body.subrange(a.offset as int, a.offset + a.length)) {
                        Some(t) => Some(ts.push(t)),
                        None => None,
                    }
                } else {
                    None
                }
            },
            None => None,
        }
    }
}

pub open spec fn stored_body(v: StoreView, h: H256) -> Option<Seq<TransactionView>> {
    match stored_body_addrs(v, h) {
        Some(addrs) => match col_get(v, COLUMN_BLOCK_BODY, spec_enc_h256(h)) {
            Some(body) => spec_windows(body, addrs),
            None => None,
        },
        None => None,
    }
}

pub open spec fn stored_block(v: StoreView, h: H256) -> Option<BlockView> {
    match stored_header(v, h) {
        Some(header) => match stored_body(v, h) {
            Some(transactions) => match stored_uncles(v, h) {
                Some(uncles) => match stored_proposals(v, h) {
                    Some(proposals) => Some(BlockView { header, uncles, transactions, proposals }),
                    None => None,
                },
                None => None,
            },
            None => None,
        },
        None => None,
    }
}

pub open spec fn stored_block_hash(v: StoreView, n: u64) -> Option<H256> {
    match col_get(v, COLUMN_INDEX, spec_enc_u64(n)) {
        Some(raw) => spec_dec_h256(raw),
        None => None,
    }
}

pub open spec fn stored_block_number(v: StoreView, h: H256) -> Option<u64> {
    match col_get(v, COLUMN_INDEX, spec_enc_h256(h)) {
        Some(raw) => spec_dec_u64(raw),
        None => None,
    }
}

pub open spec fn stored_tx_addr(v: StoreView, h: H256) -> Option<TransactionAddress> {
    match col_get(v, COLUMN_TRANSACTION_ADDR, spec_enc_h256(h)) {
        Some(raw) => spec_dec_tx_addr(raw),
        None => None,
    }
}

pub open spec fn stored_transaction(v: StoreView, h: H256) -> Option<TransactionView> {
    match stored_tx_addr(v, h) {
        Some(a) => match col_get(v, COLUMN_BLOCK_BODY, spec_enc_h256(a.block_hash)) {
            Some(body) => if a.offset + a.length <= body.len() {
                spec_dec_tx(body.subrange(a.offset as int, a.offset + a.length))
            } else {
                None
            },
            None => None,
        },
        None => None,
    }
}

pub open spec fn stored_tip_header(v: StoreView) -> Option<Header> {
    match col_get(v, COLUMN_META, spec_tip_key()) {
        Some(raw) => match spec_dec_h256(raw) {
            Some(h) => stored_header(v, h),
            None => None,
        },
        None => None,
    }
}

// ---------------------------------------------------------------------
// integrity of the stored bytes
// ---------------------------------------------------------------------
//
// A well-typed column holding bytes that do not decode is a
// store-integrity fault: the store is corrupted, and spec.-level absence
// would misreport it.  The read operations therefore require the bytes
// they touch to decode; the write operations only ever store encodings.

pub open spec fn header_integrity(v: StoreView, h: H256) -> bool {
    match col_get(v, COLUMN_BLOCK_HEADER, spec_enc_h256(h)) {
        Some(raw) => spec_dec_header(raw) is Some,
        None => true,
    }
}

pub open spec fn uncles_integrity(v: StoreView, h: H256) -> bool {
    match col_get(v, COLUMN_BLOCK_UNCLE, spec_enc_h256(h)) {
        Some(raw) => spec_dec_uncle_vec(raw) is Some,
        None => true,
    }
}

pub open spec fn proposals_integrity(v: StoreView, h: H256) -> bool {
    match col_get(v, COLUMN_BLOCK_PROPOSAL_IDS, spec_enc_h256(h)) {
        Some(raw) => spec_dec_psid_vec(raw) is Some,
        None => true,
    }
}

pub open spec fn ext_integrity(v: StoreView, h: H256) -> bool {
    match col_get(v, COLUMN_EXT, spec_enc_h256(h)) {
        Some(raw) => spec_dec_ext(raw) is Some,
        None => true,
    }
}

/// If the window vector is present, it decodes, the body is present, and
/// every window decodes to a transaction.
pub open spec fn body_integrity(v: StoreView, h: H256) -> bool {
    match col_get(v, COLUMN_BLOCK_TRANSACTION_ADDRESSES, spec_enc_h256(h)) {
        Some(raw) => spec_dec_address_vec(raw) matches Some(addrs) && (col_get(
            v,
            COLUMN_BLOCK_BODY,
            spec_enc_h256(h),
        ) matches Some(body) && spec_windows(body, addrs) is Some),
        None => true,
    }
}

/// If the header is present, its companion columns are present and sound:
/// a header without them is a store-integrity fault.
pub open spec fn block_integrity(v: StoreView, h: H256) -> bool {
    &&& header_integrity(v, h)
    &&& uncles_integrity(v, h)
    &&& proposals_integrity(v, h)
    &&& body_integrity(v, h)
    &&& (stored_header(v, h) is Some ==> stored_uncles(v, h) is Some && stored_proposals(v, h)
        is Some && stored_body(v, h) is Some)
}

pub open spec fn index_hash_integrity(v: StoreView, n: u64) -> bool {
    match col_get(v, COLUMN_INDEX, spec_enc_u64(n)) {
        Some(raw) => spec_dec_h256(raw) is Some,
        None => true,
    }
}

pub open spec fn index_number_integrity(v: StoreView, h: H256) -> bool {
    match col_get(v, COLUMN_INDEX, spec_enc_h256(h)) {
        Some(raw) => spec_dec_u64(raw) is Some,
        None => true,
    }
}

/// If a transaction address is present, it decodes and its window points
/// into a stored body that decodes.
pub open spec fn tx_addr_integrity(v: StoreView, h: H256) -> bool {
    match col_get(v, COLUMN_TRANSACTION_ADDR, spec_enc_h256(h)) {
        Some(raw) => spec_dec_tx_addr(raw) matches Some(a) && (col_get(
            v,
            COLUMN_BLOCK_BODY,
            spec_enc_h256(a.block_hash),
        ) matches Some(body) && a.offset + a.length <= body.len() && spec_dec_tx(
            body.subrange(a.offset as int, a.offset + a.length),
        ) is Some),
        None => true,
    }
}

/// If the tip pointer is present, it holds a hash whose header is sound.
pub open spec fn tip_integrity(v: StoreView) -> bool {
    match col_get(v, COLUMN_META, spec_tip_key()) {
        Some(raw) => spec_dec_h256(raw) matches Some(h) && header_integrity(v, h),
        None => true,
    }
}

// ---------------------------------------------------------------------
// the store
// ---------------------------------------------------------------------

/// The single error the engine reports to callers; key absence is never an
/// error.
#[derive(Clone, Copy, PartialEq, Eq, Structural, Debug)]
pub enum StoreError {
    Engine,
}

/// A chain store over a column-oriented key/value engine.
pub struct ChainKVStore {
    pub db: MemoryKeyValueDB,
}

impl ChainKVStore {
    pub open spec fn wf(self) -> bool {
        &&& self.db.wf()
        &&& self.db.view_spec().len() == COLUMNS
    }

    pub open spec fn view_spec(self) -> StoreView {
        self.db.view_spec()
    }

    pub fn new(db: MemoryKeyValueDB) -> (r: ChainKVStore)
        ensures
            r.db == db,
    {
        ChainKVStore { db }
    }

    /// A fresh store over an empty engine.
    pub fn open() -> (r: ChainKVStore)
        ensures
            r.wf(),
            forall|c: int| 0 <= c < COLUMNS ==> #[trigger] r.view_spec()[c] == Map::<
                Seq<u8>,
                Seq<u8>,
            >::empty(),
    {
        ChainKVStore { db: MemoryKeyValueDB::open(COLUMNS) }
    }

    /// Raw point read of one key in one column.
    pub fn get(&self, col: Col, key: &Vec<u8>) -> (r: Option<Vec<u8>>)
        requires
            self.wf(),
            col < COLUMNS,
        ensures
            match r {
                Some(v) => col_get(self.view_spec(), col, key@) == Some(v@),
                None => col_get(self.view_spec(), col, key@) is None,
            },
    {
        match self.db.read(col, key) {
            Some(v) => Some(clone_bytes(v)),
            None => None,
        }
    }

    /// Raw partial read: the bytes of the window `start .. end` of the
    /// value, when the key is bound and the window lies inside it.
    pub fn partial_get(&self, col: Col, key: &Vec<u8>, start: usize, end: usize) -> (r: Option<
        Vec<u8>,
    >)
        requires
            self.wf(),
            col < COLUMNS,
        ensures
            match r {
                Some(v) => col_get(self.view_spec(), col, key@) matches Some(raw) && start <= end
                    <= raw.len() && v@ == raw.subrange(start as int, end as int),
                None => !(col_get(self.view_spec(), col, key@) matches Some(raw) && start <= end
                    <= raw.len()),
            },
    {
        match self.db.read(col, key) {
            Some(v) => {
                if start <= end && end <= v.len() {
                    let mut out: Vec<u8> = Vec::new();
                    let mut i: usize = start;
                    while i < end
                        invariant
                            start <= i <= end <= v@.len(),
                            out@ == v@.subrange(start as int, i as int),
                        decreases end - i,
                    {
                        out.push(v[i]);
                        proof {
                            assert(out@ =~= v@.subrange(start as int, i + 1 as int));
                        }
                        i = i + 1;
                    }
                    Some(out)
                } else {
                    None
                }
            },
            None => None,
        }
    }

    /// Point read of a header; absence is not an error.
    pub fn get_header(&self, h: &H256) -> (r: Option<Header>)
        requires
            self.wf(),
            header_integrity(self.view_spec(), *h),
        ensures
            r == stored_header(self.view_spec(), *h),
    {
        let key = h.as_bytes();
        match self.get(COLUMN_BLOCK_HEADER, &key) {
            None => None,
            Some(raw) => match dec_header(&raw) {
                Some(hd) => Some(hd),
                None => {
                    proof {
                        assert(false);
                    }
                    None
                },
            },
        }
    }

    pub fn get_block_uncles(&self, h: &H256) -> (r: Option<Vec<UncleBlock>>)
        requires
            self.wf(),
            uncles_integrity(self.view_spec(), *h),
        ensures
            match r {
                Some(v) => stored_uncles(self.view_spec(), *h) == Some(v@),
                None => stored_uncles(self.view_spec(), *h) is None,
            },
    {
        let key = h.as_bytes();
        match self.get(COLUMN_BLOCK_UNCLE, &key) {
            None => None,
            Some(raw) => match dec_uncle_vec(&raw) {
                Some(v) => Some(v),
                None => {
                    proof {
                        assert(false);
                    }
                    None
                },
            },
        }
    }

    pub fn get_block_proposal_txs_ids(&self, h: &H256) -> (r: Option<Vec<ProposalShortId>>)
        requires
            self.wf(),
            proposals_integrity(self.view_spec(), *h),
        ensures
            match r {
                Some(v) => stored_proposals(self.view_spec(), *h) == Some(v@),
                None => stored_proposals(self.view_spec(), *h) is None,
            },
    {
        let key = h.as_bytes();
        match self.get(COLUMN_BLOCK_PROPOSAL_IDS, &key) {
            None => None,
            Some(raw) => match dec_psid_vec(&raw) {
                Some(v) => Some(v),
                None => {
                    proof {
                        assert(false);
                    }
                    None
                },
            },
        }
    }

    pub fn get_block_ext(&self, h: &H256) -> (r: Option<BlockExt>)
        requires
            self.wf(),
            ext_integrity(self.view_spec(), *h),
        ensures
            r == stored_ext(self.view_spec(), *h),
    {
        let key = h.as_bytes();
        match self.get(COLUMN_EXT, &key) {
            None => None,
            Some(raw) => match dec_ext(&raw) {
                Some(e) => Some(e),
                None => {
                    proof {
                        assert(false);
                    }
                    None
                },
            },
        }
    }

    /// Number-to-hash direction of the bidirectional height index.
    pub fn get_block_hash(&self, number: u64) -> (r: Option<H256>)
        requires
            self.wf(),
            index_hash_integrity(self.view_spec(), number),
        ensures
            r == stored_block_hash(self.view_spec(), number),
    {
        let mut key: Vec<u8> = Vec::new();
        enc_u64(number, &mut key);
        match self.get(COLUMN_INDEX, &key) {
            None => None,
            Some(raw) => match H256::from_slice(&raw) {
                Some(h) => Some(h),
                None => {
                    proof {
                        assert(false);
                    }
                    None
                },
            },
        }
    }

    /// Hash-to-number direction of the bidirectional height index.
    pub fn get_block_number(&self, hash: &H256) -> (r: Option<u64>)
        requires
            self.wf(),
            index_number_integrity(self.view_spec(), *hash),
        ensures
            r == stored_block_number(self.view_spec(), *hash),
    {
        let key = hash.as_bytes();
        match self.get(COLUMN_INDEX, &key) {
            None => None,
            Some(raw) => match dec_u64(&raw) {
                Some(n) => Some(n),
                None => {
                    proof {
                        assert(false);
                    }
                    None
                },
            },
        }
    }

    pub fn get_transaction_address(&self, h: &H256) -> (r: Option<TransactionAddress>)
        requires
            self.wf(),
            tx_addr_integrity(self.view_spec(), *h),
        ensures
            r == stored_tx_addr(self.view_spec(), *h),
    {
        let key = h.as_bytes();
        match self.get(COLUMN_TRANSACTION_ADDR, &key) {
            None => None,
            Some(raw) => match dec_tx_addr(&raw) {
                Some(a) => Some(a),
                None => {
                    proof {
                        assert(false);
                    }
                    None
                },
            },
        }
    }

    /// Reads the tip pointer, then the tip's header.
    pub fn get_tip_header(&self) -> (r: Option<Header>)
        requires
            self.wf(),
            tip_integrity(self.view_spec()),
        ensures
            r == stored_tip_header(self.view_spec()),
    {
        let key = tip_key();
        match self.get(COLUMN_META, &key) {
            None => None,
            Some(raw) => match H256::from_slice(&raw) {
                Some(h) => self.get_header(&h),
                None => {
                    proof {
                        assert(false);
                    }
                    None
                },
            },
        }
    }
}

/// A prefix of a window list that decodes whole still decodes.
pub proof fn lemma_windows_take(body: Seq<u8>, addrs: Seq<Address>, i: int)
    requires
        0 <= i <= addrs.len(),
        spec_windows(body, addrs) is Some,
    ensures
        spec_windows(body, addrs.take(i)) is Some,
    decreases addrs.len() - i,
{
    if i == addrs.len() {
        assert(addrs.take(i) =~= addrs);
    } else {
        lemma_windows_take(body, addrs, i + 1);
        assert(addrs.take(i + 1).drop_last() =~= addrs.take(i));
    }
}

/// The bytes of the window `offset .. offset + length`, when it lies
/// inside the buffer.
fn slice_window(body: &Vec<u8>, offset: u64, length: u64) -> (r: Option<Vec<u8>>)
    ensures
        match r {
            Some(w) => offset + length <= body@.len() && w@ == body@.subrange(
                offset as int,
                offset + length,
            ),
            None => offset + length > body@.len(),
        },
{
    let blen = body.len();
    if length <= u64::MAX - offset && offset + length <= blen as u64 {
        let start = offset as usize;
        let end = (offset + length) as usize;
        let mut out: Vec<u8> = Vec::new();
        let mut i: usize = start;
        while i < end
            invariant
                start <= i <= end <= body@.len(),
                out@ == body@.subrange(start as int, i as int),
            decreases end - i,
        {
            out.push(body[i]);
            proof {
                assert(out@ =~= body@.subrange(start as int, i + 1 as int));
            }
            i = i + 1;
        }
        Some(out)
    } else {
        None
    }
}

impl ChainKVStore {
    /// Reads the window vector, then the flat body, and reconstructs the
    /// transactions; absence of either column is absence of the body.
    pub fn get_block_body(&self, h: &H256) -> (r: Option<Vec<Transaction>>)
        requires
            self.wf(),
            body_integrity(self.view_spec(), *h),
        ensures
            match r {
                Some(txs) => stored_body(self.view_spec(), *h) == Some(txs_view(txs@)),
                None => stored_body(self.view_spec(), *h) is None,
            },
    {
        let key = h.as_bytes();
        let raw_addrs = match self.get(COLUMN_BLOCK_TRANSACTION_ADDRESSES, &key) {
            None => {
                return None;
            },
            Some(r) => r,
        };
        let addrs = match dec_address_vec(&raw_addrs) {
            Some(a) => a,
            None => {
                proof {
                    assert(false);
                }
                return None;
            },
        };
        let body = match self.get(COLUMN_BLOCK_BODY, &key) {
            Some(b) => b,
            None => {
                proof {
                    assert(false);
                }
                return None;
            },
        };
        let mut txs: Vec<Transaction> = Vec::new();
        let mut i: usize = 0;
        proof {
            assert(txs_view(txs@) =~= Seq::<TransactionView>::empty());
            assert(addrs@.take(0) =~= Seq::<Address>::empty());
        }
        while i < addrs.len()
            invariant
                i <= addrs@.len(),
                spec_windows(body@, addrs@.take(i as int)) == Some(txs_view(txs@)),
                spec_windows(body@, addrs@) is Some,
            decreases addrs@.len() - i,
        {
            proof {
                lemma_windows_take(body@, addrs@, i + 1 as int);
                assert(addrs@.take(i + 1 as int).drop_last() =~= addrs@.take(i as int));
                assert(addrs@.take(i + 1 as int).last() == addrs@[i as int]);
            }
            let a = addrs[i];
            let w = match slice_window(&body, a.offset, a.length) {
                Some(w) => w,
                None => {
                    proof {
                        assert(false);
                    }
                    return None;
                },
            };
            match dec_tx(&w) {
                Some(t) => {
                    let ghost prev = txs_view(txs@);
                    let ghost tv = t@;
                    txs.push(t);
                    proof {
                        assert(txs_view(txs@) =~= prev.push(tv));
                    }
                },
                None => {
                    proof {
                        assert(false);
                    }
                    return None;
                },
            }
            i = i + 1;
        }
        proof {
            assert(addrs@.take(addrs@.len() as int) =~= addrs@);
        }
        Some(txs)
    }

    /// Composes header, body, uncles and proposals into the stored block.
    /// If the header exists, the companion columns must exist for the same
    /// hash: a violation is a store-integrity failure.
    pub fn get_block(&self, h: &H256) -> (r: Option<Block>)
        requires
            self.wf(),
            block_integrity(self.view_spec(), *h),
        ensures
            match r {
                Some(b) => stored_block(self.view_spec(), *h) == Some(b@),
                None => stored_block(self.view_spec(), *h) is None,
            },
    {
        match self.get_header(h) {
            None => None,
            Some(header) => {
                let transactions = match self.get_block_body(h) {
                    Some(t) => t,
                    None => {
                        proof {
                            assert(false);
                        }
                        return None;
                    },
                };
                let uncles = match self.get_block_uncles(h) {
                    Some(u) => u,
                    None => {
                        proof {
                            assert(false);
                        }
                        return None;
                    },
                };
                let proposals = match self.get_block_proposal_txs_ids(h) {
                    Some(p) => p,
                    None => {
                        proof {
                            assert(false);
                        }
                        return None;
                    },
                };
                Some(Block { header, uncles, transactions, proposals })
            },
        }
    }

    /// One point read of the address, then one window read of the flat
    /// body: the whole body is never deserialized.
    pub fn get_transaction(&self, h: &H256) -> (r: Option<Transaction>)
        requires
            self.wf(),
            tx_addr_integrity(self.view_spec(), *h),
        ensures
            match r {
                Some(t) => stored_transaction(self.view_spec(), *h) == Some(t@),
                None => stored_transaction(self.view_spec(), *h) is None,
            },
    {
        match self.get_transaction_address(h) {
            None => None,
            Some(d) => {
                let bkey = d.block_hash.as_bytes();
                let body = match self.get(COLUMN_BLOCK_BODY, &bkey) {
                    Some(b) => b,
                    None => {
                        proof {
                            assert(false);
                        }
                        return None;
                    },
                };
                let w = match slice_window(&body, d.offset, d.length) {
                    Some(w) => w,
                    None => {
                        proof {
                            assert(false);
                        }
                        return None;
                    },
                };
                match dec_tx(&w) {
                    Some(t) => Some(t),
                    None => {
                        proof {
                            assert(false);
                        }
                        None
                    },
                }
            },
        }
    }
}

// ---------------------------------------------------------------------
// batches
// ---------------------------------------------------------------------

/// The writes that store a block's content under its hash.
pub open spec fn spec_insert_block_ops(b: BlockView) -> Seq<OpView> {
    let hk = spec_enc_h256(spec_header_hash(b.header));
    seq![
        OpView::Insert {
            col: COLUMN_BLOCK_HEADER as int,
            key: hk,
            value: spec_enc_header(b.header),
        },
        OpView::Insert {
            col: COLUMN_BLOCK_UNCLE as int,
            key: hk,
            value: spec_enc_uncle_vec(b.uncles),
        },
        OpView::Insert {
            col: COLUMN_BLOCK_PROPOSAL_IDS as int,
            key: hk,
            value: spec_enc_psid_vec(b.proposals),
        },
        OpView::Insert {
            col: COLUMN_BLOCK_BODY as int,
            key: hk,
            value: spec_flat_body(b.transactions),
        },
        OpView::Insert {
            col: COLUMN_BLOCK_TRANSACTION_ADDRESSES as int,
            key: hk,
            value: spec_enc_address_vec(spec_flat_addrs(b.transactions)),
        },
    ]
}

/// The write that stores derived block bookkeeping under a hash.
pub open spec fn spec_insert_ext_ops(h: H256, e: BlockExt) -> Seq<OpView> {
    seq![
        OpView::Insert { col: COLUMN_EXT as int, key: spec_enc_h256(h), value: spec_enc_ext(e) },
    ]
}

/// The write that moves the tip pointer to a header's hash.
pub open spec fn spec_insert_tip_ops(h: Header) -> Seq<OpView> {
    seq![
        OpView::Insert {
            col: COLUMN_META as int,
            key: spec_tip_key(),
            value: spec_enc_h256(spec_header_hash(h)),
        },
    ]
}

/// The per-transaction address writes of attaching a block.
pub open spec fn spec_attach_tx_ops(b: BlockView) -> Seq<OpView> {
    Seq::new(
        b.transactions.len(),
        |i: int|
            OpView::Insert {
                col: COLUMN_TRANSACTION_ADDR as int,
                key: spec_enc_h256(spec_tx_hash(b.transactions[i])),
                value: spec_enc_tx_addr(
                    TransactionAddress {
                        block_hash: spec_header_hash(b.header),
                        offset: spec_flat_addrs(b.transactions)[i].offset,
                        length: spec_flat_addrs(b.transactions)[i].length,
                    },
                ),
            },
    )
}

/// The writes that install a block's main-chain membership: each
/// transaction's address and both directions of the height index.
pub open spec fn spec_attach_ops(b: BlockView) -> Seq<OpView> {
    spec_attach_tx_ops(b) + seq![
        OpView::Insert {
            col: COLUMN_INDEX as int,
            key: spec_enc_u64(b.header.number),
            value: spec_enc_h256(spec_header_hash(b.header)),
        },
        OpView::Insert {
            col: COLUMN_INDEX as int,
            key: spec_enc_h256(spec_header_hash(b.header)),
            value: spec_enc_u64(b.header.number),
        },
    ]
}

/// The per-transaction address removals of detaching a block.
pub open spec fn spec_detach_tx_ops(b: BlockView) -> Seq<OpView> {
    Seq::new(
        b.transactions.len(),
        |i: int|
            OpView::Delete {
                col: COLUMN_TRANSACTION_ADDR as int,
                key: spec_enc_h256(spec_tx_hash(b.transactions[i])),
            },
    )
}

/// The exact inverse of [`spec_attach_ops`]: the same keys, removed.
/// Content columns are untouched; a detached block stays addressable by
/// hash.
pub open spec fn spec_detach_ops(b: BlockView) -> Seq<OpView> {
    spec_detach_tx_ops(b) + seq![
        OpView::Delete { col: COLUMN_INDEX as int, key: spec_enc_u64(b.header.number) },
        OpView::Delete { col: COLUMN_INDEX as int, key: spec_enc_h256(spec_header_hash(b.header)) },
    ]
}

/// A unit of atomicity over the store: operations are recorded in order
/// and take effect only at commit; a batch dropped uncommitted writes
/// nothing.
pub struct DefaultStoreBatch {
    pub inner: MemoryDbBatch,
}

impl DefaultStoreBatch {
    /// Writes the block's header, uncles, proposals, flat body and window
    /// vector under the block's hash.  Indices and tip are not touched.
    #[verifier::rlimit(100)]
    pub fn insert_block(&mut self, b: &Block) -> (r: Result<(), StoreError>)
        ensures
            r is Ok,
            ops_view(final(self).inner.ops@) == ops_view(old(self).inner.ops@)
                + spec_insert_block_ops(b@),
    {
        let ghost base = ops_view(self.inner.ops@);
        let hash = b.header.hash();
        let hb = hash.as_bytes();
        let mut buf: Vec<u8> = Vec::new();
        enc_header(&b.header, &mut buf);
        self.inner.insert(COLUMN_BLOCK_HEADER, clone_bytes(&hb), buf);
        let mut buf: Vec<u8> = Vec::new();
        enc_uncle_vec(&b.uncles, &mut buf);
        self.inner.insert(COLUMN_BLOCK_UNCLE, clone_bytes(&hb), buf);
        let mut buf: Vec<u8> = Vec::new();
        enc_psid_vec(&b.proposals, &mut buf);
        self.inner.insert(COLUMN_BLOCK_PROPOSAL_IDS, clone_bytes(&hb), buf);
        let (body, addrs) = flat_serialize(&b.transactions);
        self.inner.insert(COLUMN_BLOCK_BODY, clone_bytes(&hb), body);
        let mut buf: Vec<u8> = Vec::new();
        enc_address_vec(&addrs, &mut buf);
        self.inner.insert(COLUMN_BLOCK_TRANSACTION_ADDRESSES, hb, buf);
        proof {
            assert(ops_view(self.inner.ops@) =~= base + spec_insert_block_ops(b@));
        }
        Ok(())
    }

    /// Writes derived bookkeeping for the block with this hash.
    pub fn insert_block_ext(&mut self, block_hash: &H256, ext: &BlockExt) -> (r: Result<
        (),
        StoreError,
    >)
        ensures
            r is Ok,
            ops_view(final(self).inner.ops@) == ops_view(old(self).inner.ops@)
                + spec_insert_ext_ops(*block_hash, *ext),
    {
        let ghost base = ops_view(self.inner.ops@);
        let mut buf: Vec<u8> = Vec::new();
        crate::codec::enc_ext(ext, &mut buf);
        self.inner.insert(COLUMN_EXT, block_hash.as_bytes(), buf);
        proof {
            assert(ops_view(self.inner.ops@) =~= base + spec_insert_ext_ops(*block_hash, *ext));
        }
        Ok(())
    }

    /// Moves the tip pointer to this header's hash.
    pub fn insert_tip_header(&mut self, h: &Header) -> (r: Result<(), StoreError>)
        ensures
            r is Ok,
            ops_view(final(self).inner.ops@) == ops_view(old(self).inner.ops@)
                + spec_insert_tip_ops(*h),
    {
        let ghost base = ops_view(self.inner.ops@);
        let hash = h.hash();
        self.inner.insert(COLUMN_META, tip_key(), hash.as_bytes());
        proof {
            assert(ops_view(self.inner.ops@) =~= base + spec_insert_tip_ops(*h));
        }
        Ok(())
    }

    /// Installs the block's main-chain membership: for each transaction
    /// the window of its bytes in the flat body, and both directions of
    /// the height index.
    #[verifier::rlimit(100)]
    pub fn attach_block(&mut self, block: &Block) -> (r: Result<(), StoreError>)
        ensures
            r is Ok,
            ops_view(final(self).inner.ops@) == ops_view(old(self).inner.ops@) + spec_attach_ops(
                block@,
            ),
    {
        let ghost base = ops_view(self.inner.ops@);
        let hash = block.header.hash();
        let addresses = serialized_addresses(&block.transactions);
        proof {
            crate::codec::lemma_flat_addrs_len(block@.transactions);
        }
        let mut i: usize = 0;
        while i < block.transactions.len()
            invariant
                i <= block.transactions@.len(),
                hash == spec_header_hash(block@.header),
                addresses@ == spec_flat_addrs(block@.transactions),
                addresses@.len() == block.transactions@.len(),
                ops_view(self.inner.ops@) == base + spec_attach_tx_ops(block@).take(i as int),
            decreases block.transactions@.len() - i,
        {
            let ghost pre = ops_view(self.inner.ops@);
            let txh = block.transactions[i].hash();
            let address = TransactionAddress {
                block_hash: hash,
                offset: addresses[i].offset,
                length: addresses[i].length,
            };
            let mut buf: Vec<u8> = Vec::new();
            enc_tx_addr(&address, &mut buf);
            self.inner.insert(COLUMN_TRANSACTION_ADDR, txh.as_bytes(), buf);
            proof {
                assert(block.transactions@[i as int]@ == block@.transactions[i as int]);
                assert(ops_view(self.inner.ops@) =~= base + spec_attach_tx_ops(block@).take(
                    i + 1 as int,
                ));
            }
            i = i + 1;
        }
        let mut nkey: Vec<u8> = Vec::new();
        enc_u64(block.header.number, &mut nkey);
        self.inner.insert(COLUMN_INDEX, nkey, hash.as_bytes());
        let mut nval: Vec<u8> = Vec::new();
        enc_u64(block.header.number, &mut nval);
        self.inner.insert(COLUMN_INDEX, hash.as_bytes(), nval);
        proof {
            assert(spec_attach_tx_ops(block@).take(block.transactions@.len() as int)
                =~= spec_attach_tx_ops(block@));
            assert(ops_view(self.inner.ops@) =~= base + spec_attach_ops(block@));
        }
        Ok(())
    }

    /// The exact inverse of [`Self::attach_block`]: deletes every
    /// transaction address and both height-index entries.  Content columns
    /// are untouched, so forks and reorg history stay addressable by hash.
    #[verifier::rlimit(100)]
    pub fn detach_block(&mut self, block: &Block) -> (r: Result<(), StoreError>)
        ensures
            r is Ok,
            ops_view(final(self).inner.ops@) == ops_view(old(self).inner.ops@) + spec_detach_ops(
                block@,
            ),
    {
        let ghost base = ops_view(self.inner.ops@);
        let hash = block.header.hash();
        let mut i: usize = 0;
        while i < block.transactions.len()
            invariant
                i <= block.transactions@.len(),
                hash == spec_header_hash(block@.header),
                ops_view(self.inner.ops@) == base + spec_detach_tx_ops(block@).take(i as int),
            decreases block.transactions@.len() - i,
        {
            let txh = block.transactions[i].hash();
            self.inner.delete(COLUMN_TRANSACTION_ADDR, txh.as_bytes());
            proof {
                assert(block.transactions@[i as int]@ == block@.transactions[i as int]);
                assert(ops_view(self.inner.ops@) =~= base + spec_detach_tx_ops(block@).take(
                    i + 1 as int,
                ));
            }
            i = i + 1;
        }
        let mut nkey: Vec<u8> = Vec::new();
        enc_u64(block.header.number, &mut nkey);
        self.inner.delete(COLUMN_INDEX, nkey);
        self.inner.delete(COLUMN_INDEX, hash.as_bytes());
        proof {
            assert(spec_detach_tx_ops(block@).take(block.transactions@.len() as int)
                =~= spec_detach_tx_ops(block@));
            assert(ops_view(self.inner.ops@) =~= base + spec_detach_ops(block@));
        }
        Ok(())
    }

    /// Consumes the batch and applies every recorded write, in order,
    /// atomically.
    pub fn commit(self, store: &mut ChainKVStore) -> (r: Result<(), StoreError>)
        requires
            old(store).wf(),
        ensures
            r is Ok,
            final(store).wf(),
            final(store).view_spec() == apply_ops(
                old(store).view_spec(),
                ops_view(self.inner.ops@),
            ),
    {
        proof {
            crate::kv::lemma_apply_ops_len(store.view_spec(), ops_view(self.inner.ops@));
        }
        store.db.commit(self.inner);
        Ok(())
    }
}

impl ChainKVStore {
    /// A fresh, empty batch over this store.
    pub fn new_batch(&self) -> (r: Result<DefaultStoreBatch, StoreError>)
        ensures
            r matches Ok(b) && b.inner.ops@.len() == 0,
    {
        Ok(DefaultStoreBatch { inner: self.db.batch() })
    }
}

// ---------------------------------------------------------------------
// genesis
// ---------------------------------------------------------------------

/// The bookkeeping written beside a genesis block: received at its own
/// timestamp, total difficulty its own, no uncles yet, transactions taken
/// as verified.
pub open spec fn spec_genesis_ext(h: Header) -> BlockExt {
    BlockExt {
        received_at: h.timestamp,
        total_difficulty: h.difficulty,
        total_uncles_count: 0,
        txs_verified: Some(true),
    }
}

/// Every write of [`ChainKVStore::init`], in order.
pub open spec fn spec_init_ops(b: BlockView) -> Seq<OpView> {
    spec_insert_block_ops(b) + spec_insert_ext_ops(
        spec_header_hash(b.header),
        spec_genesis_ext(b.header),
    ) + spec_insert_tip_ops(b.header) + spec_attach_ops(b)
}

impl ChainKVStore {
    /// Stores the genesis block, its bookkeeping, the tip pointer, and its
    /// main-chain membership, in one atomic batch.
    pub fn init(&mut self, genesis: &Block) -> (r: Result<(), StoreError>)
        requires
            old(self).wf(),
        ensures
            r is Ok,
            final(self).wf(),
            final(self).view_spec() == apply_ops(old(self).view_spec(), spec_init_ops(genesis@)),
    {
        let mut batch = match self.new_batch() {
            Ok(b) => b,
            Err(e) => {
                proof {
                    assert(false);
                }
                return Err(e);
            },
        };
        let genesis_hash = genesis.header.hash();
        let ext = BlockExt {
            received_at: genesis.header.timestamp,
            total_difficulty: genesis.header.difficulty,
            total_uncles_count: 0,
            txs_verified: Some(true),
        };
        let _ = batch.insert_block(genesis);
        let _ = batch.insert_block_ext(&genesis_hash, &ext);
        let _ = batch.insert_tip_header(&genesis.header);
        let _ = batch.attach_block(genesis);
        proof {
            assert(ops_view(batch.inner.ops@) =~= spec_init_ops(genesis@));
        }
        batch.commit(self)
    }
}

// ---------------------------------------------------------------------
// laws of the batch operations
// ---------------------------------------------------------------------

/// The bytes bound to `k`, if any: pointwise reading of one column.
pub open spec fn mget(m: Map<Seq<u8>, Seq<u8>>, k: Seq<u8>) -> Option<Seq<u8>> {
    if m.contains_key(k) {
        Some(m[k])
    } else {
        None
    }
}

/// Applying a concatenation is applying the parts in order.
pub proof fn lemma_apply_ops_concat(v: StoreView, a: Seq<OpView>, b: Seq<OpView>)
    ensures
        apply_ops(v, a + b) == apply_ops(apply_ops(v, a), b),
    decreases b.len(),
{
    if b.len() == 0 {
        assert(a + b =~= a);
    } else {
        lemma_apply_ops_concat(v, a, b.drop_last());
        assert((a + b).drop_last() =~= a + b.drop_last());
        assert((a + b).last() == b.last());
    }
}

/// One more operation on a prefix.
pub proof fn lemma_apply_ops_step(v: StoreView, ops: Seq<OpView>, n: int)
    requires
        0 <= n < ops.len(),
    ensures
        apply_ops(v, ops.take(n + 1)) == apply_op(apply_ops(v, ops.take(n)), ops[n]),
{
    assert(ops.take(n + 1).drop_last() =~= ops.take(n));
    assert(ops.take(n + 1).last() == ops[n]);
}

pub open spec fn op_col(op: OpView) -> int {
    match op {
        OpView::Insert { col, .. } => col,
        OpView::Delete { col, .. } => col,
    }
}

/// Operations that never touch column `c` leave it as it was.
pub proof fn lemma_apply_ops_avoid(v: StoreView, ops: Seq<OpView>, c: int)
    requires
        forall|i: int| 0 <= i < ops.len() ==> op_col(#[trigger] ops[i]) != c,
    ensures
        apply_ops(v, ops).len() == v.len(),
        0 <= c < v.len() ==> apply_ops(v, ops)[c] == v[c],
    decreases ops.len(),
{
    crate::kv::lemma_apply_ops_len(v, ops);
    if ops.len() > 0 {
        lemma_apply_ops_avoid(v, ops.drop_last(), c);
    }
}

/// The effect of a run of operations all on one column, folded over that
/// column's map alone.
pub open spec fn fold_col(m: Map<Seq<u8>, Seq<u8>>, ops: Seq<OpView>) -> Map<Seq<u8>, Seq<u8>>
    decreases ops.len(),
{
    if ops.len() == 0 {
        m
    } else {
        match ops.last() {
            OpView::Insert { col, key, value } => fold_col(m, ops.drop_last()).insert(key, value),
            OpView::Delete { col, key } => fold_col(m, ops.drop_last()).remove(key),
        }
    }
}

/// A run of operations on one column updates that column to the fold and
/// leaves every other column alone.
pub proof fn lemma_apply_ops_on_col(v: StoreView, ops: Seq<OpView>, c: int)
    requires
        0 <= c < v.len(),
        forall|i: int| 0 <= i < ops.len() ==> op_col(#[trigger] ops[i]) == c,
    ensures
        apply_ops(v, ops) == v.update(c, fold_col(v[c], ops)),
    decreases ops.len(),
{
    if ops.len() == 0 {
        assert(v.update(c, v[c]) =~= v);
    } else {
        lemma_apply_ops_on_col(v, ops.drop_last(), c);
        let mid = v.update(c, fold_col(v[c], ops.drop_last()));
        assert(op_col(ops.last()) == c);
        assert(apply_op(mid, ops.last()) =~= v.update(c, fold_col(v[c], ops)));
    }
}

/// A run of inserts of `vals` under `keys`, in order, on column `c`.
pub open spec fn ins_run(c: int, keys: Seq<Seq<u8>>, vals: Seq<Seq<u8>>) -> Seq<OpView> {
    Seq::new(keys.len(), |i: int| OpView::Insert { col: c, key: keys[i], value: vals[i] })
}

/// A run of deletes of `keys`, in order, on column `c`.
pub open spec fn del_run(c: int, keys: Seq<Seq<u8>>) -> Seq<OpView> {
    Seq::new(keys.len(), |i: int| OpView::Delete { col: c, key: keys[i] })
}

/// A key outside the run keeps its binding.
pub proof fn lemma_ins_run_outside(
    m: Map<Seq<u8>, Seq<u8>>,
    c: int,
    keys: Seq<Seq<u8>>,
    vals: Seq<Seq<u8>>,
    k: Seq<u8>,
)
    requires
        vals.len() == keys.len(),
        forall|i: int| 0 <= i < keys.len() ==> keys[i] != k,
    ensures
        mget(fold_col(m, ins_run(c, keys, vals)), k) == mget(m, k),
    decreases keys.len(),
{
    if keys.len() > 0 {
        lemma_ins_run_outside(m, c, keys.drop_last(), vals.drop_last(), k);
        assert(ins_run(c, keys, vals).drop_last() =~= ins_run(
            c,
            keys.drop_last(),
            vals.drop_last(),
        ));
    }
}

/// With distinct keys, the run binds each key to its own value.
pub proof fn lemma_ins_run_at(
    m: Map<Seq<u8>, Seq<u8>>,
    c: int,
    keys: Seq<Seq<u8>>,
    vals: Seq<Seq<u8>>,
    i: int,
)
    requires
        vals.len() == keys.len(),
        0 <= i < keys.len(),
        forall|p: int, q: int| 0 <= p < q < keys.len() ==> keys[p] != keys[q],
    ensures
        mget(fold_col(m, ins_run(c, keys, vals)), keys[i]) == Some(vals[i]),
    decreases keys.len(),
{
    assert(ins_run(c, keys, vals).drop_last() =~= ins_run(c, keys.drop_last(), vals.drop_last()));
    if i < keys.len() - 1 {
        lemma_ins_run_at(m, c, keys.drop_last(), vals.drop_last(), i);
        assert(keys[i] != keys[keys.len() - 1]);
    }
}

/// After the delete run, every key of the run is unbound and every other
/// key keeps its binding.
pub proof fn lemma_del_run(m: Map<Seq<u8>, Seq<u8>>, c: int, keys: Seq<Seq<u8>>, k: Seq<u8>)
    ensures
        mget(fold_col(m, del_run(c, keys)), k) == if exists|i: int|
            0 <= i < keys.len() && keys[i] == k {
            None
        } else {
            mget(m, k)
        },
    decreases keys.len(),
{
    if keys.len() > 0 {
        lemma_del_run(m, c, keys.drop_last(), k);
        assert(del_run(c, keys).drop_last() =~= del_run(c, keys.drop_last()));
        let n = keys.len() as int;
        if keys[n - 1] == k {
            assert(exists|i: int| 0 <= i < n && keys[i] == k);
        } else {
            if exists|i: int| 0 <= i < n && keys[i] == k {
                let i = choose|i: int| 0 <= i < n && keys[i] == k;
                assert(0 <= i < n - 1 && keys.drop_last()[i] == k);
            } else {
                assert(!(exists|i: int| 0 <= i < n - 1 && keys.drop_last()[i] == k)) by {
                    if exists|i: int| 0 <= i < n - 1 && keys.drop_last()[i] == k {
                        let i = choose|i: int| 0 <= i < n - 1 && keys.drop_last()[i] == k;
                        assert(keys[i] == k);
                    }
                }
            }
        }
    }
}

/// The key written for transaction `i` when a block is attached.
pub open spec fn attach_key(b: BlockView, i: int) -> Seq<u8> {
    spec_enc_h256(spec_tx_hash(b.transactions[i]))
}

/// The address written for transaction `i` when a block is attached.
pub open spec fn attach_val(b: BlockView, i: int) -> Seq<u8> {
    spec_enc_tx_addr(
        TransactionAddress {
            block_hash: spec_header_hash(b.header),
            offset: spec_flat_addrs(b.transactions)[i].offset,
            length: spec_flat_addrs(b.transactions)[i].length,
        },
    )
}

pub open spec fn attach_keys(b: BlockView) -> Seq<Seq<u8>> {
    Seq::new(b.transactions.len(), |i: int| attach_key(b, i))
}

pub open spec fn attach_vals(b: BlockView) -> Seq<Seq<u8>> {
    Seq::new(b.transactions.len(), |i: int| attach_val(b, i))
}

/// How attaching reshapes the store: the fold of the address writes on
/// the TX_ADDR column, then the two height-index entries.
#[verifier::rlimit(100)]
#[verifier::spinoff_prover]
pub proof fn lemma_attach_shape(v: StoreView, b: BlockView)
    requires
        v.len() == COLUMNS,
    ensures
        apply_ops(v, spec_attach_ops(b)) == v.update(
            COLUMN_TRANSACTION_ADDR as int,
            fold_col(
                v[COLUMN_TRANSACTION_ADDR as int],
                ins_run(COLUMN_TRANSACTION_ADDR as int, attach_keys(b), attach_vals(b)),
            ),
        ).update(
            COLUMN_INDEX as int,
            v[COLUMN_INDEX as int].insert(
                spec_enc_u64(b.header.number),
                spec_enc_h256(spec_header_hash(b.header)),
            ).insert(
                spec_enc_h256(spec_header_hash(b.header)),
                spec_enc_u64(b.header.number),
            ),
        ),
{
    let ta = COLUMN_TRANSACTION_ADDR as int;
    let ix = COLUMN_INDEX as int;
    let nk = spec_enc_u64(b.header.number);
    let hk = spec_enc_h256(spec_header_hash(b.header));
    let atx = ins_run(ta, attach_keys(b), attach_vals(b));
    let idx_ins = seq![
        OpView::Insert { col: ix, key: nk, value: hk },
        OpView::Insert { col: ix, key: hk, value: nk },
    ];
    assert(spec_attach_tx_ops(b) =~= atx);
    assert(spec_attach_ops(b) =~= atx + idx_ins);
    lemma_apply_ops_concat(v, atx, idx_ins);
    lemma_apply_ops_on_col(v, atx, ta);
    let v1 = v.update(ta, fold_col(v[ta], atx));
    lemma_apply_ops_on_col(v1, idx_ins, ix);
    assert(v1[ix] == v[ix]);
    assert(idx_ins.drop_last() =~= seq![idx_ins[0]]);
    assert(seq![idx_ins[0]].drop_last() =~= Seq::<OpView>::empty());
    assert(fold_col(v1[ix], Seq::<OpView>::empty()) == v1[ix]);
    assert(seq![idx_ins[0]].last() == idx_ins[0]);
    assert(fold_col(v1[ix], seq![idx_ins[0]]) == fold_col(
        v1[ix],
        seq![idx_ins[0]].drop_last(),
    ).insert(nk, hk));
    assert(fold_col(v1[ix], seq![idx_ins[0]]) == v[ix].insert(nk, hk));
    assert(idx_ins.last() == idx_ins[1]);
    assert(fold_col(v1[ix], idx_ins) == fold_col(v1[ix], idx_ins.drop_last()).insert(hk, nk));
    assert(fold_col(v1[ix], idx_ins) == v[ix].insert(nk, hk).insert(hk, nk));
}

/// How detaching reshapes the store: the address keys removed, then both
/// height-index entries removed.
#[verifier::rlimit(100)]
#[verifier::spinoff_prover]
pub proof fn lemma_detach_shape(v: StoreView, b: BlockView)
    requires
        v.len() == COLUMNS,
    ensures
        apply_ops(v, spec_detach_ops(b)) == v.update(
            COLUMN_TRANSACTION_ADDR as int,
            fold_col(
                v[COLUMN_TRANSACTION_ADDR as int],
                del_run(COLUMN_TRANSACTION_ADDR as int, attach_keys(b)),
            ),
        ).update(
            COLUMN_INDEX as int,
            v[COLUMN_INDEX as int].remove(spec_enc_u64(b.header.number)).remove(
                spec_enc_h256(spec_header_hash(b.header)),
            ),
        ),
{
    let ta = COLUMN_TRANSACTION_ADDR as int;
    let ix = COLUMN_INDEX as int;
    let nk = spec_enc_u64(b.header.number);
    let hk = spec_enc_h256(spec_header_hash(b.header));
    let dtx = del_run(ta, attach_keys(b));
    let idx_del = seq![
        OpView::Delete { col: ix, key: nk },
        OpView::Delete { col: ix, key: hk },
    ];
    assert(spec_detach_tx_ops(b) =~= dtx);
    assert(spec_detach_ops(b) =~= dtx + idx_del);
    lemma_apply_ops_concat(v, dtx, idx_del);
    lemma_apply_ops_on_col(v, dtx, ta);
    let v1 = v.update(ta, fold_col(v[ta], dtx));
    lemma_apply_ops_on_col(v1, idx_del, ix);
    assert(v1[ix] == v[ix]);
    assert(idx_del.drop_last() =~= seq![idx_del[0]]);
    assert(seq![idx_del[0]].drop_last() =~= Seq::<OpView>::empty());
    assert(fold_col(v1[ix], Seq::<OpView>::empty()) == v1[ix]);
    assert(seq![idx_del[0]].last() == idx_del[0]);
    assert(fold_col(v1[ix], seq![idx_del[0]]) == fold_col(
        v1[ix],
        seq![idx_del[0]].drop_last(),
    ).remove(nk));
    assert(fold_col(v1[ix], seq![idx_del[0]]) == v[ix].remove(nk));
    assert(idx_del.last() == idx_del[1]);
    assert(fold_col(v1[ix], idx_del) == fold_col(v1[ix], idx_del.drop_last()).remove(hk));
    assert(fold_col(v1[ix], idx_del) == v[ix].remove(nk).remove(hk));
}

/// Attach then detach leaves the whole store exactly as it was, provided
/// the keys the pair touches were absent beforehand.
#[verifier::rlimit(100)]
pub proof fn lemma_attach_detach_symmetry(v: StoreView, b: BlockView)
    requires
        v.len() == COLUMNS,
        forall|i: int|
            0 <= i < b.transactions.len() ==> !v[COLUMN_TRANSACTION_ADDR as int].contains_key(
                #[trigger] attach_key(b, i),
            ),
        !v[COLUMN_INDEX as int].contains_key(spec_enc_u64(b.header.number)),
        !v[COLUMN_INDEX as int].contains_key(spec_enc_h256(spec_header_hash(b.header))),
    ensures
        apply_ops(apply_ops(v, spec_attach_ops(b)), spec_detach_ops(b)) == v,
{
    let ta = COLUMN_TRANSACTION_ADDR as int;
    let ix = COLUMN_INDEX as int;
    let nk = spec_enc_u64(b.header.number);
    let hk = spec_enc_h256(spec_header_hash(b.header));
    let keys = attach_keys(b);
    let vals = attach_vals(b);
    lemma_attach_shape(v, b);
    let m_ins = fold_col(v[ta], ins_run(ta, keys, vals));
    let v2 = v.update(ta, m_ins).update(ix, v[ix].insert(nk, hk).insert(hk, nk));
    lemma_detach_shape(v2, b);
    let m_del = fold_col(v2[ta], del_run(ta, keys));
    assert(v2[ta] == m_ins);
    assert(m_del =~= v[ta]) by {
        assert forall|k: Seq<u8>| #[trigger] mget(m_del, k) == mget(v[ta], k) by {
            lemma_del_run(m_ins, ta, keys, k);
            if exists|i: int| 0 <= i < keys.len() && keys[i] == k {
                let i = choose|i: int| 0 <= i < keys.len() && keys[i] == k;
                assert(attach_key(b, i) == k);
                assert(!v[ta].contains_key(k));
            } else {
                assert forall|i: int| 0 <= i < keys.len() implies keys[i] != k by {
                    if keys[i] == k {
                        assert(exists|j: int| 0 <= j < keys.len() && keys[j] == k);
                    }
                }
                lemma_ins_run_outside(v[ta], ta, keys, vals, k);
            }
        }
        assert forall|k: Seq<u8>| #[trigger] m_del.contains_key(k) == v[ta].contains_key(k) by {
            assert(mget(m_del, k) == mget(v[ta], k));
        }
        assert forall|k: Seq<u8>| v[ta].contains_key(k) implies #[trigger] m_del[k] == v[ta][k] by {
            assert(mget(m_del, k) == mget(v[ta], k));
        }
    }
    assert(v2[ix] == v[ix].insert(nk, hk).insert(hk, nk));
    assert(v2[ix].remove(nk).remove(hk) =~= v[ix]);
    assert(v2.update(ta, m_del).update(ix, v2[ix].remove(nk).remove(hk)) =~= v);
}

// ---------------------------------------------------------------------
// the bidirectional height index
// ---------------------------------------------------------------------

/// The index column binds `n`'s key to a hash whose reverse entry leads
/// back to `n`.  The two key shapes have different lengths, eight bytes
/// against thirty-two, so they never collide inside the one column.
pub open spec fn index_pair_ok(m: Map<Seq<u8>, Seq<u8>>, n: u64) -> bool {
    mget(m, spec_enc_u64(n)) matches Some(raw) ==> (spec_dec_h256(raw) matches Some(h) && mget(
        m,
        spec_enc_h256(h),
    ) == Some(spec_enc_u64(n)))
}

/// Every number the height index knows leads to a hash that leads back.
pub open spec fn index_consistent(v: StoreView) -> bool {
    &&& v.len() == COLUMNS
    &&& forall|n: u64| #[trigger] index_pair_ok(v[COLUMN_INDEX as int], n)
}

/// Bidirectional index: whenever the number-to-hash direction is defined,
/// the hash-to-number direction leads back to the same number.
pub proof fn lemma_bidirectional_index(v: StoreView, n: u64)
    requires
        index_consistent(v),
        stored_block_hash(v, n) is Some,
    ensures
        stored_block_number(v, stored_block_hash(v, n)->Some_0) == Some(n),
{
    assert(index_pair_ok(v[COLUMN_INDEX as int], n));
    crate::codec::lemma_dec_enc_u64(n);
}

/// Inserting a fresh number/hash pair keeps the index consistent at `n`.
#[verifier::rlimit(100)]
pub proof fn lemma_index_pair_insert(m: Map<Seq<u8>, Seq<u8>>, num: u64, bh: H256, n: u64)
    requires
        index_pair_ok(m, n),
        !m.contains_key(spec_enc_u64(num)),
        !m.contains_key(spec_enc_h256(bh)),
    ensures
        index_pair_ok(
            m.insert(spec_enc_u64(num), spec_enc_h256(bh)).insert(
                spec_enc_h256(bh),
                spec_enc_u64(num),
            ),
            n,
        ),
{
    let nk = spec_enc_u64(num);
    let hk = spec_enc_h256(bh);
    let m2 = m.insert(nk, hk).insert(hk, nk);
    crate::codec::lemma_dec_enc_h256(bh);
    crate::codec::lemma_dec_enc_u64(num);
    crate::codec::lemma_dec_enc_u64(n);
    assert(spec_enc_u64(n).len() == 8 && hk.len() == 32);
    if n == num {
        assert(mget(m2, nk) == Some(hk));
        assert(mget(m2, hk) == Some(nk));
    } else {
        assert(spec_enc_u64(n) != nk) by {
            if spec_enc_u64(n) == nk {
                assert(spec_dec_u64(spec_enc_u64(n)) == spec_dec_u64(nk));
            }
        }
        assert(spec_enc_u64(n) != hk);
        if mget(m, spec_enc_u64(n)) is Some {
            let raw = mget(m, spec_enc_u64(n))->Some_0;
            let h = spec_dec_h256(raw)->Some_0;
            assert(mget(m, spec_enc_h256(h)) == Some(spec_enc_u64(n)));
            assert(h != bh) by {
                if h == bh {
                    assert(m.contains_key(hk));
                }
            }
            crate::codec::lemma_dec_enc_h256(h);
            assert(spec_enc_h256(h) != hk) by {
                if spec_enc_h256(h) == hk {
                    assert(spec_dec_h256(spec_enc_h256(h)) == spec_dec_h256(hk));
                }
            }
            assert(spec_enc_h256(h).len() == 32 && nk.len() == 8);
            assert(mget(m2, spec_enc_u64(n)) == Some(raw));
            assert(mget(m2, spec_enc_h256(h)) == Some(spec_enc_u64(n)));
        }
    }
}

/// Removing a mutually present pair keeps the index consistent at `n`.
#[verifier::rlimit(100)]
pub proof fn lemma_index_pair_remove(m: Map<Seq<u8>, Seq<u8>>, num: u64, bh: H256, n: u64)
    requires
        index_pair_ok(m, n),
        mget(m, spec_enc_u64(num)) == Some(spec_enc_h256(bh)),
        mget(m, spec_enc_h256(bh)) == Some(spec_enc_u64(num)),
    ensures
        index_pair_ok(
            m.remove(spec_enc_u64(num)).remove(spec_enc_h256(bh)),
            n,
        ),
{
    let nk = spec_enc_u64(num);
    let hk = spec_enc_h256(bh);
    let m2 = m.remove(nk).remove(hk);
    crate::codec::lemma_dec_enc_h256(bh);
    crate::codec::lemma_dec_enc_u64(num);
    crate::codec::lemma_dec_enc_u64(n);
    assert(spec_enc_u64(n).len() == 8 && hk.len() == 32);
    if mget(m2, spec_enc_u64(n)) is Some {
        assert(n != num) by {
            if n == num {
                assert(!m2.contains_key(nk));
            }
        }
        assert(spec_enc_u64(n) != nk) by {
            if spec_enc_u64(n) == nk {
                assert(spec_dec_u64(spec_enc_u64(n)) == spec_dec_u64(nk));
            }
        }
        let raw = mget(m, spec_enc_u64(n))->Some_0;
        let h = spec_dec_h256(raw)->Some_0;
        assert(mget(m, spec_enc_h256(h)) == Some(spec_enc_u64(n)));
        assert(h != bh) by {
            if h == bh {
                assert(mget(m, hk) == Some(spec_enc_u64(n)));
                assert(spec_enc_u64(n) == nk);
            }
        }
        crate::codec::lemma_dec_enc_h256(h);
        assert(spec_enc_h256(h) != hk) by {
            if spec_enc_h256(h) == hk {
                assert(spec_dec_h256(spec_enc_h256(h)) == spec_dec_h256(hk));
            }
        }
        assert(spec_enc_h256(h).len() == 32 && nk.len() == 8);
        assert(mget(m2, spec_enc_u64(n)) == Some(raw));
        assert(mget(m2, spec_enc_h256(h)) == Some(spec_enc_u64(n)));
    }
}

/// Writes that never touch the INDEX column preserve index consistency.
pub proof fn lemma_avoid_preserves_index(v: StoreView, ops: Seq<OpView>)
    requires
        index_consistent(v),
        forall|i: int| 0 <= i < ops.len() ==> op_col(#[trigger] ops[i]) != COLUMN_INDEX as int,
    ensures
        index_consistent(apply_ops(v, ops)),
{
    lemma_apply_ops_avoid(v, ops, COLUMN_INDEX as int);
    let v2 = apply_ops(v, ops);
    assert forall|n: u64| #[trigger] index_pair_ok(v2[COLUMN_INDEX as int], n) by {
        assert(index_pair_ok(v[COLUMN_INDEX as int], n));
        assert(v2[COLUMN_INDEX as int] == v[COLUMN_INDEX as int]);
    }
}

/// Attaching a block whose index keys are fresh preserves index
/// consistency.
pub proof fn lemma_attach_preserves_index(v: StoreView, b: BlockView)
    requires
        index_consistent(v),
        !v[COLUMN_INDEX as int].contains_key(spec_enc_u64(b.header.number)),
        !v[COLUMN_INDEX as int].contains_key(spec_enc_h256(spec_header_hash(b.header))),
    ensures
        index_consistent(apply_ops(v, spec_attach_ops(b))),
{
    lemma_attach_shape(v, b);
    let ix = COLUMN_INDEX as int;
    let v2 = apply_ops(v, spec_attach_ops(b));
    let m2 = v[ix].insert(
        spec_enc_u64(b.header.number),
        spec_enc_h256(spec_header_hash(b.header)),
    ).insert(spec_enc_h256(spec_header_hash(b.header)), spec_enc_u64(b.header.number));
    assert(v2[ix] == m2);
    assert forall|n: u64| #[trigger] index_pair_ok(v2[ix], n) by {
        assert(index_pair_ok(v[ix], n));
        lemma_index_pair_insert(v[ix], b.header.number, spec_header_hash(b.header), n);
    }
}

/// Detaching a block whose index pair is mutually present preserves index
/// consistency.
pub proof fn lemma_detach_preserves_index(v: StoreView, b: BlockView)
    requires
        index_consistent(v),
        mget(v[COLUMN_INDEX as int], spec_enc_u64(b.header.number)) == Some(
            spec_enc_h256(spec_header_hash(b.header)),
        ),
        mget(v[COLUMN_INDEX as int], spec_enc_h256(spec_header_hash(b.header))) == Some(
            spec_enc_u64(b.header.number),
        ),
    ensures
        index_consistent(apply_ops(v, spec_detach_ops(b))),
{
    lemma_detach_shape(v, b);
    let ix = COLUMN_INDEX as int;
    let v2 = apply_ops(v, spec_detach_ops(b));
    let m2 = v[ix].remove(spec_enc_u64(b.header.number)).remove(
        spec_enc_h256(spec_header_hash(b.header)),
    );
    assert(v2[ix] == m2);
    assert forall|n: u64| #[trigger] index_pair_ok(v2[ix], n) by {
        assert(index_pair_ok(v[ix], n));
        lemma_index_pair_remove(v[ix], b.header.number, spec_header_hash(b.header), n);
    }
}

// ---------------------------------------------------------------------
// round trips through the store
// ---------------------------------------------------------------------

/// A block value small enough for every count and byte-length prefix the
/// store writes for it.  Every block held in memory satisfies this.
pub open spec fn block_wf(b: BlockView) -> bool {
    &&& b.transactions.len() <= usize::MAX
    &&& b.uncles.len() <= usize::MAX
    &&& b.proposals.len() <= usize::MAX
    &&& (forall|k: int|
        0 <= k < b.transactions.len() ==> crate::codec::tx_wf(#[trigger] b.transactions[k]))
    &&& spec_flat_body(b.transactions).len() <= u64::MAX
}

/// What the five writes of `insert_block` leave in each column.
#[verifier::rlimit(100)]
pub proof fn lemma_insert_block_effect(v: StoreView, b: BlockView)
    requires
        v.len() == COLUMNS,
    ensures
        ({
            let v5 = apply_ops(v, spec_insert_block_ops(b));
            let hk = spec_enc_h256(spec_header_hash(b.header));
            &&& v5.len() == COLUMNS
            &&& col_get(v5, COLUMN_BLOCK_HEADER, hk) == Some(spec_enc_header(b.header))
            &&& col_get(v5, COLUMN_BLOCK_UNCLE, hk) == Some(spec_enc_uncle_vec(b.uncles))
            &&& col_get(v5, COLUMN_BLOCK_PROPOSAL_IDS, hk) == Some(spec_enc_psid_vec(b.proposals))
            &&& col_get(v5, COLUMN_BLOCK_BODY, hk) == Some(spec_flat_body(b.transactions))
            &&& col_get(v5, COLUMN_BLOCK_TRANSACTION_ADDRESSES, hk) == Some(
                spec_enc_address_vec(spec_flat_addrs(b.transactions)),
            )
            &&& v5[COLUMN_EXT as int] == v[COLUMN_EXT as int]
            &&& v5[COLUMN_INDEX as int] == v[COLUMN_INDEX as int]
            &&& v5[COLUMN_TRANSACTION_ADDR as int] == v[COLUMN_TRANSACTION_ADDR as int]
            &&& v5[COLUMN_META as int] == v[COLUMN_META as int]
        }),
{
    let ops = spec_insert_block_ops(b);
    assert(ops.take(0) =~= Seq::<OpView>::empty());
    lemma_apply_ops_step(v, ops, 0);
    lemma_apply_ops_step(v, ops, 1);
    lemma_apply_ops_step(v, ops, 2);
    lemma_apply_ops_step(v, ops, 3);
    lemma_apply_ops_step(v, ops, 4);
    assert(ops.take(5) =~= ops);
}

/// Extending the flat body does not disturb windows that already decode.
pub proof fn lemma_windows_extend(a: Seq<u8>, ext: Seq<u8>, addrs: Seq<Address>)
    requires
        spec_windows(a, addrs) is Some,
    ensures
        spec_windows(a + ext, addrs) == spec_windows(a, addrs),
    decreases addrs.len(),
{
    if addrs.len() > 0 {
        lemma_windows_extend(a, ext, addrs.drop_last());
        let ad = addrs.last();
        assert((a + ext).subrange(ad.offset as int, ad.offset + ad.length) =~= a.subrange(
            ad.offset as int,
            ad.offset + ad.length,
        ));
    }
}

/// The recorded windows of a flat body decode back to exactly the
/// transactions that were packed.
#[verifier::rlimit(100)]
pub proof fn lemma_windows_flat(txs: Seq<TransactionView>)
    requires
        forall|k: int| 0 <= k < txs.len() ==> crate::codec::tx_wf(#[trigger] txs[k]),
        spec_flat_body(txs).len() <= u64::MAX,
    ensures
        spec_windows(spec_flat_body(txs), spec_flat_addrs(txs)) == Some(txs),
    decreases txs.len(),
{
    if txs.len() > 0 {
        let dl = txs.drop_last();
        assert(spec_flat_body(txs).len() == spec_flat_body(dl).len() + spec_enc_tx(
            txs.last(),
        ).len());
        lemma_windows_flat(dl);
        lemma_windows_extend(spec_flat_body(dl), spec_enc_tx(txs.last()), spec_flat_addrs(dl));
        let body = spec_flat_body(txs);
        let addrs = spec_flat_addrs(txs);
        assert(addrs.drop_last() =~= spec_flat_addrs(dl));
        let a = addrs.last();
        assert(a.offset == spec_flat_body(dl).len() && a.length == spec_enc_tx(txs.last()).len());
        assert(body.subrange(a.offset as int, a.offset + a.length) =~= spec_enc_tx(txs.last()));
        crate::codec::lemma_dec_enc_tx(txs.last());
        assert(spec_windows(body, addrs.drop_last()) == Some(dl));
        assert(dl.push(txs.last()) =~= txs);
    }
}

/// Round trip: committing a batch that holds `insert_block(b)` makes the
/// stored block at `b`'s hash exactly `b`.
#[verifier::rlimit(100)]
pub proof fn lemma_insert_block_round_trip(v: StoreView, b: BlockView)
    requires
        v.len() == COLUMNS,
        block_wf(b),
    ensures
        stored_block(apply_ops(v, spec_insert_block_ops(b)), spec_header_hash(b.header)) == Some(b),
{
    lemma_insert_block_effect(v, b);
    crate::codec::lemma_dec_enc_header(b.header);
    crate::codec::lemma_dec_enc_uncle_vec(b.uncles);
    crate::codec::lemma_dec_enc_psid_vec(b.proposals);
    crate::codec::lemma_flat_addrs_len(b.transactions);
    crate::codec::lemma_dec_enc_address_vec(spec_flat_addrs(b.transactions));
    lemma_windows_flat(b.transactions);
}

/// Flat body lookup: once a block is stored and attached, each of its
/// transactions is readable by hash from the one window its address
/// records.
#[verifier::rlimit(100)]
pub proof fn lemma_attached_transaction_lookup(v: StoreView, b: BlockView, i: int)
    requires
        v.len() == COLUMNS,
        block_wf(b),
        0 <= i < b.transactions.len(),
        forall|p: int, q: int|
            0 <= p < q < b.transactions.len() ==> spec_tx_hash(#[trigger] b.transactions[p])
                != spec_tx_hash(#[trigger] b.transactions[q]),
    ensures
        stored_transaction(
            apply_ops(v, spec_insert_block_ops(b) + spec_attach_ops(b)),
            spec_tx_hash(b.transactions[i]),
        ) == Some(b.transactions[i]),
{
    let ta = COLUMN_TRANSACTION_ADDR as int;
    lemma_apply_ops_concat(v, spec_insert_block_ops(b), spec_attach_ops(b));
    lemma_insert_block_effect(v, b);
    let v5 = apply_ops(v, spec_insert_block_ops(b));
    lemma_attach_shape(v5, b);
    let v6 = apply_ops(v5, spec_attach_ops(b));
    let keys = attach_keys(b);
    let vals = attach_vals(b);
    assert forall|p: int, q: int| 0 <= p < q < keys.len() implies keys[p] != keys[q] by {
        crate::codec::lemma_dec_enc_h256(spec_tx_hash(b.transactions[p]));
        crate::codec::lemma_dec_enc_h256(spec_tx_hash(b.transactions[q]));
    }
    lemma_ins_run_at(v5[ta], ta, keys, vals, i);
    assert(mget(v6[ta], attach_key(b, i)) == Some(attach_val(b, i)));
    let addr = TransactionAddress {
        block_hash: spec_header_hash(b.header),
        offset: spec_flat_addrs(b.transactions)[i].offset,
        length: spec_flat_addrs(b.transactions)[i].length,
    };
    crate::codec::lemma_dec_enc_tx_addr(addr);
    assert(stored_tx_addr(v6, spec_tx_hash(b.transactions[i])) == Some(addr));
    assert(v6[COLUMN_BLOCK_BODY as int] == v5[COLUMN_BLOCK_BODY as int]);
    crate::codec::lemma_flat_window(b.transactions, i);
    crate::codec::lemma_dec_enc_tx(b.transactions[i]);
}

} // verus!
