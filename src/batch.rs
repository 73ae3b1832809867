//! Buffered writes into one destination column, and a progress counter.
use vstd::prelude::*;
use crate::store::{Database, rows_map, row_views};

verus! {

/// Adding one row at the end of the rows applied over `base` inserts that row.
pub proof fn lemma_apply_step(base: Map<Seq<u8>, Seq<u8>>, rows: Seq<(Seq<u8>, Seq<u8>)>, i: int)
    requires
        0 <= i < rows.len(),
    ensures
        base.union_prefer_right(rows_map(rows.take(i + 1))) == base.union_prefer_right(
            rows_map(rows.take(i)),
        ).insert(rows[i].0, rows[i].1),
{
    assert(rows.take(i + 1).drop_last() =~= rows.take(i));
    assert(base.union_prefer_right(rows_map(rows.take(i + 1))) =~= base.union_prefer_right(
        rows_map(rows.take(i)),
    ).insert(rows[i].0, rows[i].1));
}

/// Rows waiting to be written into one column of a destination store. They
/// reach the store together, when the buffer is full or on `commit`.
pub struct Batch {
    column: usize,
    size: usize,
    pending: Vec<(Vec<u8>, Vec<u8>)>,
}

impl Batch {
    /// The column this batch writes into.
    pub closed spec fn column(&self) -> nat {
        self.column as nat
    }

    /// Number of rows after which the batch writes itself out.
    pub closed spec fn size(&self) -> nat {
        self.size as nat
    }

    /// The buffered rows, oldest first.
    pub closed spec fn pending(&self) -> Seq<(Seq<u8>, Seq<u8>)> {
        row_views(self.pending@)
    }

    /// The buffer never holds a full batch.
    pub closed spec fn wf(&self) -> bool {
        0 < self.size && self.pending@.len() < self.size
    }

    /// What the store's columns hold once the buffered rows are written.
    pub open spec fn effective(&self, db: Seq<Map<Seq<u8>, Seq<u8>>>) -> Seq<Map<Seq<u8>, Seq<u8>>> {
        db.update(
            self.column() as int,
            db[self.column() as int].union_prefer_right(rows_map(self.pending())),
        )
    }

    /// An empty batch for `column` that writes out every `size` rows.
    pub fn new(column: usize, size: usize) -> (r: Batch)
        requires
            size > 0,
        ensures
            r.wf(),
            r.column() == column,
            r.size() == size,
            r.pending() == Seq::<(Seq<u8>, Seq<u8>)>::empty(),
    {
        let r = Batch { column, size, pending: Vec::new() };
        assert(r.pending() =~= Seq::<(Seq<u8>, Seq<u8>)>::empty());
        r
    }

    /// Number of rows waiting.
    pub fn pending_len(&self) -> (r: usize)
        ensures
            r == self.pending().len(),
    {
        self.pending.len()
    }

    /// Buffers a row, writing the whole batch out when it is full.
    pub fn insert(&mut self, key: Vec<u8>, value: Vec<u8>, dest: &mut Database)
        requires
            old(self).wf(),
            old(dest).wf(),
            old(self).column() < old(dest)@.len(),
        ensures
            final(self).wf(),
            final(dest).wf(),
            final(self).column() == old(self).column(),
            final(self).size() == old(self).size(),
            final(dest)@.len() == old(dest)@.len(),
            final(self).effective(final(dest)@) == old(self).effective(old(dest)@).update(
                old(self).column() as int,
                old(self).effective(old(dest)@)[old(self).column() as int].insert(key@, value@),
            ),
            final(dest)@ == old(dest)@ || final(self).pending().len() == 0,
    {
        let ghost kv = key@;
        let ghost vv = value@;
        self.pending.push((key, value));
        proof {
            let c = self.column as int;
            let db = old(dest)@;
            assert(self.pending() =~= old(self).pending().push((kv, vv)));
            assert(self.pending().drop_last() =~= old(self).pending());
            assert(db[c].union_prefer_right(rows_map(self.pending())) =~= db[c].union_prefer_right(
                rows_map(old(self).pending()),
            ).insert(kv, vv));
            assert(self.effective(db) =~= old(self).effective(db).update(
                c,
                old(self).effective(db)[c].insert(kv, vv),
            ));
        }
        if self.pending.len() >= self.size {
            let ghost mid = self.effective(dest@);
            self.commit(dest);
            proof {
                let c = self.column as int;
                assert(self.pending() =~= Seq::<(Seq<u8>, Seq<u8>)>::empty());
                assert(dest@[c].union_prefer_right(rows_map(self.pending())) =~= dest@[c]);
                assert(self.effective(dest@) =~= mid);
            }
        }
    }

    /// Writes every buffered row into the store and empties the buffer.
    pub fn commit(&mut self, dest: &mut Database)
        requires
            0 < old(self).size(),
            old(dest).wf(),
            old(self).column() < old(dest)@.len(),
        ensures
            final(self).wf(),
            final(dest).wf(),
            final(self).column() == old(self).column(),
            final(self).size() == old(self).size(),
            final(self).pending().len() == 0,
            final(dest)@ == old(self).effective(old(dest)@),
    {
        let mut rows: Vec<(Vec<u8>, Vec<u8>)> = Vec::new();
        std::mem::swap(&mut rows, &mut self.pending);
        let ghost c = self.column as int;
        let ghost base = old(dest)@[c];
        let ghost all = row_views(rows@);
        assert(all == old(self).pending());
        proof {
            assert(all.take(0) =~= Seq::<(Seq<u8>, Seq<u8>)>::empty());
            assert(base.union_prefer_right(rows_map(all.take(0))) =~= base);
            assert(old(dest)@.update(c, base) =~= old(dest)@);
        }
        let mut i: usize = 0;
        while i < rows.len()
            invariant
                i <= rows@.len(),
                all == row_views(rows@),
                all.len() == rows@.len(),
                c == self.column,
                0 <= c < dest@.len(),
                c < old(dest)@.len(),
                base == old(dest)@[c],
                dest.wf(),
                dest@ == old(dest)@.update(c, base.union_prefer_right(rows_map(all.take(i as int)))),
            decreases rows@.len() - i,
        {
            let k = rows[i].0.clone();
            let v = rows[i].1.clone();
            assert(k@ =~= all[i as int].0);
            assert(v@ =~= all[i as int].1);
            let ghost prev = dest@;
            dest.put(self.column, k, v);
            proof {
                lemma_apply_step(base, all, i as int);
                assert(prev[c] == base.union_prefer_right(rows_map(all.take(i as int))));
                assert(dest@ == prev.update(c, prev[c].insert(all[i as int].0, all[i as int].1)));
                assert(dest@ =~= old(dest)@.update(
                    c,
                    base.union_prefer_right(rows_map(all.take(i as int + 1))),
                ));
            }
            i = i + 1;
        }
        proof {
            assert(all.take(rows@.len() as int) =~= all);
            assert(self.pending() =~= Seq::<(Seq<u8>, Seq<u8>)>::empty());
        }
    }
}

/// `start` advanced by `n` ticks, stopping at the largest count a counter holds.
pub open spec fn ticked(start: nat, n: nat) -> nat {
    if start + n <= u64::MAX {
        start + n
    } else {
        u64::MAX as nat
    }
}

/// Counts processed rows; for observation only.
pub struct Progress {
    ticks: u64,
}

impl Progress {
    /// Number of ticks counted.
    pub closed spec fn count(&self) -> nat {
        self.ticks as nat
    }

    /// A count never exceeds what the counter holds.
    pub proof fn lemma_count_bounded(&self)
        ensures
            self.count() <= u64::MAX,
    {
    }

    /// A counter at zero.
    pub fn new() -> (r: Progress)
        ensures
            r.count() == 0,
    {
        Progress { ticks: 0 }
    }

    /// Counts one more row, stopping at the largest count it can hold.
    pub fn tick(&mut self)
        ensures
            final(self).count() == ticked(old(self).count(), 1),
    {
        self.ticks = self.ticks.saturating_add(1);
    }

    /// Number of ticks counted.
    pub fn ticks(&self) -> (r: u64)
        ensures
            r == self.count(),
    {
        self.ticks
    }
}

} // verus!
