use chain_core::block::{Block, Header, UncleBlock};
use chain_core::capacity::{Capacity, CapacityError};
use chain_core::cell::{
    BlockCellProvider, CellMemoryDb, CellMeta, CellProvider, CellStatus, OverlayCellProvider,
    ResolvedTransaction, TransactionCellProvider,
};
use chain_core::extras::BlockExt;
use chain_core::hash::H256;
use chain_core::store::ChainKVStore;
use chain_core::transaction::{CellInput, CellOutput, OutPoint, ProposalShortId, Script, Transaction};

fn empty_output(capacity: Capacity) -> CellOutput {
    CellOutput { capacity, data: vec![], lock: Script::new_empty(), type_: None }
}

fn header(number: u64) -> Header {
    Header { version: 0, parent_hash: H256::zero(), timestamp: 10, number, difficulty: 100 }
}

fn block_with(number: u64, transactions: Vec<Transaction>) -> Block {
    Block { header: header(number), uncles: vec![], transactions, proposals: vec![] }
}

#[test]
fn cell_provider_trait_works() {
    let mut db = CellMemoryDb::new();

    let p1 = OutPoint { tx_hash: H256::zero(), index: 1 };
    let p2 = OutPoint { tx_hash: H256::zero(), index: 2 };
    let p3 = OutPoint { tx_hash: H256::zero(), index: 3 };
    let o = CellMeta {
        block_number: Some(1),
        cell_output: empty_output(Capacity::bytes(2).unwrap()),
        cellbase: false,
    };

    db.insert(p1.clone(), Some(o.clone()));
    db.insert(p2.clone(), None);

    assert_eq!(CellStatus::Live(o), db.get_cell_status(&p1));
    assert_eq!(CellStatus::Dead, db.get_cell_status(&p2));
    assert_eq!(CellStatus::Unknown, db.get_cell_status(&p3));
}

#[test]
fn save_and_get_block() {
    let mut store = ChainKVStore::open();
    let block = block_with(0, vec![Transaction::new_empty(0)]);

    let hash = block.header.hash();
    let mut batch = store.new_batch().unwrap();
    batch.insert_block(&block).unwrap();
    batch.commit(&mut store).unwrap();
    assert_eq!(block, store.get_block(&hash).unwrap());
}

#[test]
fn save_and_get_block_with_transactions() {
    let mut store = ChainKVStore::open();
    let block = block_with(
        0,
        vec![Transaction::new_empty(0), Transaction::new_empty(1), Transaction::new_empty(2)],
    );

    let hash = block.header.hash();
    let mut batch = store.new_batch().unwrap();
    batch.insert_block(&block).unwrap();
    batch.commit(&mut store).unwrap();
    assert_eq!(block, store.get_block(&hash).unwrap());
}

#[test]
fn save_and_get_block_ext() {
    let mut store = ChainKVStore::open();
    let block = block_with(0, vec![Transaction::new_empty(0)]);

    let ext = BlockExt {
        received_at: block.header.timestamp,
        total_difficulty: block.header.difficulty,
        total_uncles_count: block.uncles.len() as u64,
        txs_verified: Some(true),
    };

    let hash = block.header.hash();
    let mut batch = store.new_batch().unwrap();
    batch.insert_block_ext(&hash, &ext).unwrap();
    batch.commit(&mut store).unwrap();
    assert_eq!(ext, store.get_block_ext(&hash).unwrap());
}

#[test]
fn index_store() {
    let mut store = ChainKVStore::open();
    let block = block_with(0, vec![Transaction::new_empty(0)]);
    let hash = block.header.hash();
    store.init(&block).unwrap();
    assert_eq!(hash, store.get_block_hash(0).unwrap());

    assert_eq!(block.header.difficulty, store.get_block_ext(&hash).unwrap().total_difficulty);

    assert_eq!(block.header.number, store.get_block_number(&hash).unwrap());

    assert_eq!(block.header, store.get_tip_header().unwrap());
}

#[test]
fn unknown_cell_in_empty_store() {
    let db = CellMemoryDb::new();
    let p = OutPoint { tx_hash: H256::zero(), index: 1 };
    assert_eq!(CellStatus::Unknown, db.get_cell_status(&p));
}

#[test]
fn overlay_shadowing() {
    let mut store_view = CellMemoryDb::new();
    let mut overlay_view = CellMemoryDb::new();
    let o = OutPoint { tx_hash: H256::zero(), index: 0 };
    let meta = CellMeta {
        block_number: Some(1),
        cell_output: empty_output(Capacity(7)),
        cellbase: false,
    };
    store_view.insert(o.clone(), Some(meta));
    overlay_view.insert(o.clone(), None);
    let stacked = OverlayCellProvider::new(&overlay_view, &store_view);
    assert_eq!(CellStatus::Dead, stacked.cell(&o));
}

#[test]
fn overlay_transparent_on_unknown() {
    let mut store_view = CellMemoryDb::new();
    let overlay_view = CellMemoryDb::new();
    let o = OutPoint { tx_hash: H256::zero(), index: 0 };
    let meta = CellMeta {
        block_number: Some(1),
        cell_output: empty_output(Capacity(7)),
        cellbase: false,
    };
    store_view.insert(o.clone(), Some(meta.clone()));
    let stacked = OverlayCellProvider::new(&overlay_view, &store_view);
    assert_eq!(CellStatus::Live(meta), stacked.cell(&o));
}

#[test]
fn live_then_dead() {
    // a transaction minting one output, confirmed in block zero
    let minting = Transaction {
        version: 0,
        deps: vec![],
        inputs: vec![],
        outputs: vec![empty_output(Capacity(10))],
    };
    let minted = OutPoint { tx_hash: minting.hash(), index: 0 };
    let mut store_view = CellMemoryDb::new();
    store_view.insert(
        minted.clone(),
        Some(CellMeta {
            block_number: Some(0),
            cell_output: empty_output(Capacity(10)),
            cellbase: false,
        }),
    );

    // under the store view alone the cell is live
    let spender = Transaction {
        version: 0,
        deps: vec![],
        inputs: vec![CellInput { previous_output: minted.clone() }],
        outputs: vec![],
    };
    let rtx = store_view.resolve_transaction(&spender);
    assert_eq!(1, rtx.input_cells.len());
    assert!(rtx.input_cells[0].is_live());

    // a candidate block with two transactions both spending it
    let other = Transaction {
        version: 1,
        deps: vec![],
        inputs: vec![CellInput { previous_output: minted.clone() }],
        outputs: vec![],
    };
    let candidate = block_with(1, vec![spender, other.clone()]);
    let block_view = BlockCellProvider::new(&candidate);
    let stacked = OverlayCellProvider::new(&block_view, &store_view);
    let rtx2 = stacked.resolve_transaction(&other);
    assert_eq!(1, rtx2.input_cells.len());
    assert!(rtx2.input_cells[0].is_dead());
}

#[test]
fn block_provider_mints_own_outputs() {
    let minting = Transaction {
        version: 0,
        deps: vec![],
        inputs: vec![],
        outputs: vec![empty_output(Capacity(5))],
    };
    let minted = OutPoint { tx_hash: minting.hash(), index: 0 };
    let candidate = block_with(3, vec![minting]);
    let provider = BlockCellProvider::new(&candidate);
    match provider.cell(&minted) {
        CellStatus::Live(meta) => {
            assert_eq!(Some(3), meta.block_number);
            assert!(meta.cellbase);
            assert_eq!(5, meta.cell_output.capacity.as_u64());
        },
        other => panic!("expected a live cell, got {:?}", other),
    }
    let missing = OutPoint { tx_hash: minted.tx_hash.clone(), index: 9 };
    assert_eq!(CellStatus::Unknown, provider.cell(&missing));
}

#[test]
fn transaction_provider_detects_double_spend() {
    let o = OutPoint { tx_hash: H256::zero(), index: 4 };
    let tx = Transaction {
        version: 0,
        deps: vec![],
        inputs: vec![
            CellInput { previous_output: o.clone() },
            CellInput { previous_output: o.clone() },
        ],
        outputs: vec![],
    };
    let provider = TransactionCellProvider::new(&tx);
    assert_eq!(CellStatus::Dead, provider.cell(&o));
    let other = OutPoint { tx_hash: H256::zero(), index: 5 };
    assert_eq!(CellStatus::Unknown, provider.cell(&other));
}

fn resolved_with_inputs(caps: Vec<u64>, outs: Vec<u64>) -> ResolvedTransaction {
    let transaction = Transaction {
        version: 0,
        deps: vec![],
        inputs: vec![],
        outputs: outs.into_iter().map(|c| empty_output(Capacity(c))).collect(),
    };
    ResolvedTransaction {
        transaction,
        dep_cells: vec![],
        input_cells: caps
            .into_iter()
            .map(|c| {
                CellStatus::Live(CellMeta {
                    block_number: Some(1),
                    cell_output: empty_output(Capacity(c)),
                    cellbase: false,
                })
            })
            .collect(),
    }
}

#[test]
fn fee_computation() {
    let rtx = resolved_with_inputs(vec![4, 6], vec![3, 4]);
    assert_eq!(Ok(Capacity(3)), rtx.fee());

    let rtx = resolved_with_inputs(vec![5], vec![3, 4]);
    assert_eq!(Ok(Capacity(0)), rtx.fee());

    let rtx = resolved_with_inputs(vec![u64::MAX, 1], vec![]);
    assert_eq!(Err(CapacityError::ArithmeticOverflow), rtx.fee());

    let rtx = resolved_with_inputs(vec![1], vec![u64::MAX, 1]);
    assert_eq!(Err(CapacityError::ArithmeticOverflow), rtx.fee());
}

#[test]
fn transaction_round_trip_by_hash() {
    let mut store = ChainKVStore::open();
    let tx = Transaction {
        version: 7,
        deps: vec![OutPoint { tx_hash: H256::zero(), index: 2 }],
        inputs: vec![CellInput { previous_output: OutPoint { tx_hash: H256::zero(), index: 0 } }],
        outputs: vec![CellOutput {
            capacity: Capacity(11),
            data: vec![1, 2, 3],
            lock: Script { version: 1, binary: vec![9] },
            type_: Some(Script::new_empty()),
        }],
    };
    let block = block_with(2, vec![Transaction::new_empty(0), tx.clone()]);
    let mut batch = store.new_batch().unwrap();
    batch.insert_block(&block).unwrap();
    batch.attach_block(&block).unwrap();
    batch.commit(&mut store).unwrap();
    assert_eq!(tx, store.get_transaction(&tx.hash()).unwrap());
    let addr = store.get_transaction_address(&tx.hash()).unwrap();
    assert_eq!(block.header.hash(), addr.block_hash);
}

#[test]
fn detach_removes_indices_but_keeps_content() {
    let mut store = ChainKVStore::open();
    let block = block_with(5, vec![Transaction::new_empty(0)]);
    let hash = block.header.hash();
    let mut batch = store.new_batch().unwrap();
    batch.insert_block(&block).unwrap();
    batch.attach_block(&block).unwrap();
    batch.commit(&mut store).unwrap();
    assert_eq!(hash, store.get_block_hash(5).unwrap());

    let mut batch = store.new_batch().unwrap();
    batch.detach_block(&block).unwrap();
    batch.commit(&mut store).unwrap();
    assert!(store.get_block_hash(5).is_none());
    assert!(store.get_block_number(&hash).is_none());
    assert!(store.get_transaction(&block.transactions[0].hash()).is_none());
    assert_eq!(block, store.get_block(&hash).unwrap());
}

#[test]
fn uncles_and_proposals_round_trip() {
    let mut store = ChainKVStore::open();
    let mut block = block_with(1, vec![Transaction::new_empty(0)]);
    block.uncles.push(UncleBlock { header: header(0) });
    block.proposals.push(ProposalShortId::from_tx_hash(&H256::zero()));
    let hash = block.header.hash();
    let mut batch = store.new_batch().unwrap();
    batch.insert_block(&block).unwrap();
    batch.commit(&mut store).unwrap();
    assert_eq!(block, store.get_block(&hash).unwrap());
}
