//! An in-memory column-oriented key/value engine with atomic batches.
//!
//! Each column is an association list with unique keys, viewed as a map
//! from byte strings to byte strings.  A batch is an ordered list of
//! insert and delete operations; committing applies them all, and a batch
//! dropped without commit discards all its writes.

use vstd::prelude::*;

verus! {

/// A column index.
pub type Col = u32;

/// The mathematical state of the whole engine: one map per column.
pub type StoreView = Seq<Map<Seq<u8>, Seq<u8>>>;

// ---------------------------------------------------------------------
// byte-string comparison
// ---------------------------------------------------------------------

pub fn bytes_eq(a: &Vec<u8>, b: &Vec<u8>) -> (r: bool)
    ensures
        r == (a@ == b@),
{
    if a.len() != b.len() {
        return false;
    }
    let mut i: usize = 0;
    while i < a.len()
        invariant
            i <= a.len(),
            a@.len() == b@.len(),
            forall|k: int| 0 <= k < i ==> a@[k] == b@[k],
        decreases a.len() - i,
    {
        if a[i] != b[i] {
            return false;
        }
        i = i + 1;
    }
    proof {
        assert(a@ =~= b@);
    }
    true
}

// ---------------------------------------------------------------------
// association-list columns
// ---------------------------------------------------------------------

/// No two entries bind the same key.
pub open spec fn unique_keys(t: Seq<(Vec<u8>, Vec<u8>)>) -> bool {
    forall|a: int, b: int| 0 <= a < b < t.len() ==> (#[trigger] t[a]).0@ != (#[trigger] t[b]).0@
}

/// The map bound by an association list; a later binding would win, and
/// with unique keys the order never matters.
pub open spec fn entries_map(t: Seq<(Vec<u8>, Vec<u8>)>) -> Map<Seq<u8>, Seq<u8>>
    decreases t.len(),
{
    if t.len() == 0 {
        Map::empty()
    } else {
        entries_map(t.drop_last()).insert(t.last().0@, t.last().1@)
    }
}

pub proof fn lemma_entries_map_present(t: Seq<(Vec<u8>, Vec<u8>)>, i: int)
    requires
        unique_keys(t),
        0 <= i < t.len(),
    ensures
        entries_map(t).contains_key(t[i].0@),
        entries_map(t)[t[i].0@] == t[i].1@,
    decreases t.len(),
{
    if i == t.len() - 1 {
    } else {
        lemma_entries_map_present(t.drop_last(), i);
        assert(t.drop_last()[i] == t[i]);
        assert(t[i].0@ != t.last().0@);
    }
}

pub proof fn lemma_entries_map_absent(t: Seq<(Vec<u8>, Vec<u8>)>, k: Seq<u8>)
    requires
        forall|i: int| 0 <= i < t.len() ==> (#[trigger] t[i]).0@ != k,
    ensures
        !entries_map(t).contains_key(k),
    decreases t.len(),
{
    if t.len() > 0 {
        lemma_entries_map_absent(t.drop_last(), k);
    }
}

/// Removing entry `i` removes exactly its key from the bound map.
pub proof fn lemma_entries_map_remove(t: Seq<(Vec<u8>, Vec<u8>)>, i: int)
    requires
        unique_keys(t),
        0 <= i < t.len(),
    ensures
        unique_keys(t.remove(i)),
        entries_map(t.remove(i)) == entries_map(t).remove(t[i].0@),
    decreases t.len(),
{
    let k = t[i].0@;
    let r = t.remove(i);
    assert(unique_keys(r)) by {
        assert forall|a: int, b: int| 0 <= a < b < r.len() implies (#[trigger] r[a]).0@ != (
        #[trigger] r[b]).0@ by {
            let a0 = if a < i {
                a
            } else {
                a + 1
            };
            let b0 = if b < i {
                b
            } else {
                b + 1
            };
            assert(r[a] == t[a0] && r[b] == t[b0]);
        }
    }
    if i == t.len() - 1 {
        assert(r =~= t.drop_last());
        lemma_entries_map_absent_of_unique(t, i);
        assert(entries_map(t.drop_last()).remove(k) =~= entries_map(t.drop_last()));
        assert(entries_map(t).remove(k) =~= entries_map(t.drop_last()));
    } else {
        lemma_entries_map_remove(t.drop_last(), i);
        assert(r.drop_last() =~= t.drop_last().remove(i));
        assert(r.last() == t.last());
        assert(t[i] == t.drop_last()[i]);
        assert(entries_map(r) == entries_map(t.drop_last()).remove(k).insert(
            t.last().0@,
            t.last().1@,
        ));
        assert(t.last().0@ != k);
        assert(entries_map(t.drop_last()).remove(k).insert(t.last().0@, t.last().1@)
            =~= entries_map(t.drop_last()).insert(t.last().0@, t.last().1@).remove(k));
    }
}

/// With unique keys, the key of entry `i` is bound nowhere else.
pub proof fn lemma_entries_map_absent_of_unique(t: Seq<(Vec<u8>, Vec<u8>)>, i: int)
    requires
        unique_keys(t),
        0 <= i < t.len(),
    ensures
        !entries_map(t.remove(i)).contains_key(t[i].0@),
{
    let r = t.remove(i);
    assert forall|j: int| 0 <= j < r.len() implies (#[trigger] r[j]).0@ != t[i].0@ by {
        let j0 = if j < i {
            j
        } else {
            j + 1
        };
        assert(r[j] == t[j0]);
    }
    lemma_entries_map_absent(r, t[i].0@);
}

/// One column of the engine.
pub struct Column {
    pub entries: Vec<(Vec<u8>, Vec<u8>)>,
}

impl Column {
    pub open spec fn wf(self) -> bool {
        unique_keys(self.entries@)
    }

    pub open spec fn map(self) -> Map<Seq<u8>, Seq<u8>> {
        entries_map(self.entries@)
    }

    /// The position of the binding for `key`, if any.
    fn find(&self, key: &Vec<u8>) -> (r: Option<usize>)
        ensures
            match r {
                Some(i) => i < self.entries@.len() && self.entries@[i as int].0@ == key@,
                None => forall|i: int|
                    0 <= i < self.entries@.len() ==> (#[trigger] self.entries@[i]).0@ != key@,
            },
    {
        let mut i: usize = 0;
        while i < self.entries.len()
            invariant
                i <= self.entries.len(),
                forall|k: int| 0 <= k < i ==> (#[trigger] self.entries@[k]).0@ != key@,
            decreases self.entries.len() - i,
        {
            if bytes_eq(&self.entries[i].0, key) {
                return Some(i);
            }
            i = i + 1;
        }
        None
    }

    /// Reads the value bound to `key`.
    pub fn read(&self, key: &Vec<u8>) -> (r: Option<&Vec<u8>>)
        requires
            self.wf(),
        ensures
            match r {
                Some(v) => self.map().contains_key(key@) && self.map()[key@] == v@,
                None => !self.map().contains_key(key@),
            },
    {
        match self.find(key) {
            Some(i) => {
                proof {
                    lemma_entries_map_present(self.entries@, i as int);
                }
                Some(&self.entries[i].1)
            },
            None => {
                proof {
                    lemma_entries_map_absent(self.entries@, key@);
                }
                None
            },
        }
    }

    /// Binds `key` to `value`, replacing any earlier binding.
    pub fn insert(&mut self, key: Vec<u8>, value: Vec<u8>)
        requires
            old(self).wf(),
        ensures
            final(self).wf(),
            final(self).map() == old(self).map().insert(key@, value@),
    {
        let ghost k = key@;
        match self.find(&key) {
            Some(i) => {
                proof {
                    lemma_entries_map_remove(self.entries@, i as int);
                    lemma_entries_map_absent_of_unique(self.entries@, i as int);
                }
                let ghost pre = self.entries@;
                self.entries.remove(i);
                let ghost mid = self.entries@;
                self.entries.push((key, value));
                proof {
                    assert(self.entries@.drop_last() =~= mid);
                    assert(unique_keys(self.entries@)) by {
                        assert forall|a: int, b: int|
                            0 <= a < b < self.entries@.len() implies (
                        #[trigger] self.entries@[a]).0@ != (#[trigger] self.entries@[b]).0@ by {
                            if b == self.entries@.len() - 1 {
                                assert(self.entries@[a] == mid[a]);
                            } else {
                                assert(self.entries@[a] == mid[a] && self.entries@[b] == mid[b]);
                            }
                        }
                    }
                    assert(entries_map(self.entries@) =~= entries_map(pre).insert(k, value@));
                }
            },
            None => {
                proof {
                    lemma_entries_map_absent(self.entries@, k);
                }
                let ghost pre = self.entries@;
                self.entries.push((key, value));
                proof {
                    assert(self.entries@.drop_last() =~= pre);
                    assert(unique_keys(self.entries@)) by {
                        assert forall|a: int, b: int|
                            0 <= a < b < self.entries@.len() implies (
                        #[trigger] self.entries@[a]).0@ != (#[trigger] self.entries@[b]).0@ by {
                            if b == self.entries@.len() - 1 {
                                assert(self.entries@[a] == pre[a]);
                            } else {
                                assert(self.entries@[a] == pre[a] && self.entries@[b] == pre[b]);
                            }
                        }
                    }
                }
            },
        }
    }

    /// Unbinds `key`; absent keys are left as they are.
    pub fn delete(&mut self, key: &Vec<u8>)
        requires
            old(self).wf(),
        ensures
            final(self).wf(),
            final(self).map() == old(self).map().remove(key@),
    {
        match self.find(key) {
            Some(i) => {
                proof {
                    lemma_entries_map_remove(self.entries@, i as int);
                }
                self.entries.remove(i);
            },
            None => {
                proof {
                    lemma_entries_map_absent(self.entries@, key@);
                    assert(self.map().remove(key@) =~= self.map());
                }
            },
        }
    }
}

// ---------------------------------------------------------------------
// the engine
// ---------------------------------------------------------------------

/// The whole engine: a fixed family of columns.
pub struct MemoryKeyValueDB {
    pub columns: Vec<Column>,
}

impl MemoryKeyValueDB {
    pub open spec fn wf(self) -> bool {
        forall|c: int| 0 <= c < self.columns@.len() ==> (#[trigger] self.columns@[c]).wf()
    }

    pub open spec fn view_spec(self) -> StoreView {
        Seq::new(self.columns@.len(), |c: int| self.columns@[c].map())
    }

    /// A fresh engine with `cols` empty columns.
    pub fn open(cols: u32) -> (r: MemoryKeyValueDB)
        ensures
            r.wf(),
            r.view_spec().len() == cols,
            forall|c: int| 0 <= c < cols ==> #[trigger] r.view_spec()[c] == Map::<
                Seq<u8>,
                Seq<u8>,
            >::empty(),
    {
        let mut columns: Vec<Column> = Vec::new();
        let mut i: u32 = 0;
        while i < cols
            invariant
                i <= cols,
                columns@.len() == i,
                forall|c: int| 0 <= c < i ==> (#[trigger] columns@[c]).entries@.len() == 0,
            decreases cols - i,
        {
            columns.push(Column { entries: Vec::new() });
            i = i + 1;
        }
        let r = MemoryKeyValueDB { columns };
        proof {
            assert forall|c: int| 0 <= c < cols implies #[trigger] r.view_spec()[c] == Map::<
                Seq<u8>,
                Seq<u8>,
            >::empty() by {
                assert(r.columns@[c].entries@.len() == 0);
            }
        }
        r
    }

    /// Point read of one key in one column.
    pub fn read(&self, col: Col, key: &Vec<u8>) -> (r: Option<&Vec<u8>>)
        requires
            self.wf(),
            (col as int) < self.view_spec().len(),
        ensures
            match r {
                Some(v) => self.view_spec()[col as int].contains_key(key@)
                    && self.view_spec()[col as int][key@] == v@,
                None => !self.view_spec()[col as int].contains_key(key@),
            },
    {
        self.columns[col as usize].read(key)
    }

    /// A fresh, empty batch.
    pub fn batch(&self) -> (r: MemoryDbBatch)
        ensures
            r.ops@.len() == 0,
    {
        MemoryDbBatch { ops: Vec::new() }
    }

    /// Applies every operation of the batch, in order, atomically: the
    /// batch is consumed and the engine steps to the batch's effect.
    pub fn commit(&mut self, batch: MemoryDbBatch)
        requires
            old(self).wf(),
        ensures
            final(self).wf(),
            final(self).view_spec() == apply_ops(old(self).view_spec(), ops_view(batch.ops@)),
    {
        let ghost base = self.view_spec();
        let ghost allops = ops_view(batch.ops@);
        let mut k: usize = 0;
        let ops = batch.ops;
        proof {
            assert(allops.take(0) =~= Seq::<OpView>::empty());
        }
        while k < ops.len()
            invariant
                k <= ops.len(),
                allops == ops_view(ops@),
                allops.len() == ops@.len(),
                self.wf(),
                self.view_spec() == apply_ops(base, allops.take(k as int)),
                self.view_spec().len() == base.len(),
                self.columns@.len() == base.len(),
            decreases ops.len() - k,
        {
            let ghost pre = self.view_spec();
            proof {
                assert(allops.take(k + 1 as int).drop_last() =~= allops.take(k as int));
                assert(allops.take(k + 1 as int).last() == allops[k as int]);
                assert(allops[k as int] == ops@[k as int]@);
            }
            match &ops[k] {
                BatchOp::Insert { col, key, value } => {
                    if (*col as usize) < self.columns.len() {
                        let c = *col as usize;
                        let k2 = crate::cell::clone_bytes(key);
                        let v2 = crate::cell::clone_bytes(value);
                        self.columns[c].insert(k2, v2);
                        proof {
                            assert(self.view_spec() =~= pre.update(
                                c as int,
                                pre[c as int].insert(key@, value@),
                            ));
                        }
                    } else {
                        proof {
                            assert(self.view_spec() =~= pre);
                        }
                    }
                },
                BatchOp::Delete { col, key } => {
                    if (*col as usize) < self.columns.len() {
                        let c = *col as usize;
                        self.columns[c].delete(key);
                        proof {
                            assert(self.view_spec() =~= pre.update(
                                c as int,
                                pre[c as int].remove(key@),
                            ));
                        }
                    } else {
                        proof {
                            assert(self.view_spec() =~= pre);
                        }
                    }
                },
            }
            k = k + 1;
        }
        proof {
            assert(allops.take(ops@.len() as int) =~= allops);
        }
    }
}

// ---------------------------------------------------------------------
// batches
// ---------------------------------------------------------------------

/// One write of a batch.
pub enum BatchOp {
    Insert { col: Col, key: Vec<u8>, value: Vec<u8> },
    Delete { col: Col, key: Vec<u8> },
}

/// The mathematical value of a [`BatchOp`].
pub enum OpView {
    Insert { col: int, key: Seq<u8>, value: Seq<u8> },
    Delete { col: int, key: Seq<u8> },
}

impl View for BatchOp {
    type V = OpView;

    open spec fn view(&self) -> OpView {
        match self {
            BatchOp::Insert { col, key, value } => OpView::Insert {
                col: *col as int,
                key: key@,
                value: value@,
            },
            BatchOp::Delete { col, key } => OpView::Delete { col: *col as int, key: key@ },
        }
    }
}

/// The views of a list of operations, elementwise.
pub open spec fn ops_view(v: Seq<BatchOp>) -> Seq<OpView> {
    v.map_values(|o: BatchOp| o@)
}

/// The effect of one operation on the engine's state.  A column index out
/// of range writes nothing.
pub open spec fn apply_op(s: StoreView, op: OpView) -> StoreView {
    match op {
        OpView::Insert { col, key, value } => if 0 <= col < s.len() {
            s.update(col, s[col].insert(key, value))
        } else {
            s
        },
        OpView::Delete { col, key } => if 0 <= col < s.len() {
            s.update(col, s[col].remove(key))
        } else {
            s
        },
    }
}

/// The effect of a list of operations, first to last.
pub open spec fn apply_ops(s: StoreView, ops: Seq<OpView>) -> StoreView
    decreases ops.len(),
{
    if ops.len() == 0 {
        s
    } else {
        apply_op(apply_ops(s, ops.drop_last()), ops.last())
    }
}

/// Applying operations never changes how many columns there are.
pub proof fn lemma_apply_ops_len(s: StoreView, ops: Seq<OpView>)
    ensures
        apply_ops(s, ops).len() == s.len(),
    decreases ops.len(),
{
    if ops.len() > 0 {
        lemma_apply_ops_len(s, ops.drop_last());
    }
}

/// An ordered list of writes, applied atomically by
/// [`MemoryKeyValueDB::commit`].
pub struct MemoryDbBatch {
    pub ops: Vec<BatchOp>,
}

impl MemoryDbBatch {
    /// Records a write of `value` under `key` in `col`.
    pub fn insert(&mut self, col: Col, key: Vec<u8>, value: Vec<u8>)
        ensures
            ops_view(final(self).ops@) == ops_view(old(self).ops@).push(
                OpView::Insert { col: col as int, key: key@, value: value@ },
            ),
    {
        let ghost pre = ops_view(self.ops@);
        let ghost opv = OpView::Insert { col: col as int, key: key@, value: value@ };
        self.ops.push(BatchOp::Insert { col, key, value });
        proof {
            assert(ops_view(self.ops@) =~= pre.push(opv));
        }
    }

    /// Records a removal of `key` from `col`.
    pub fn delete(&mut self, col: Col, key: Vec<u8>)
        ensures
            ops_view(final(self).ops@) == ops_view(old(self).ops@).push(
                OpView::Delete { col: col as int, key: key@ },
            ),
    {
        let ghost pre = ops_view(self.ops@);
        let ghost opv = OpView::Delete { col: col as int, key: key@ };
        self.ops.push(BatchOp::Delete { col, key });
        proof {
            assert(ops_view(self.ops@) =~= pre.push(opv));
        }
    }
}

} // verus!
