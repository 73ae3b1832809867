//! An in-memory column store: each column maps byte keys to byte values.
use vstd::prelude::*;

verus! {

/// The mapping that a sequence of rows describes, a later row for a key
/// taking the place of an earlier one.
pub open spec fn rows_map(rows: Seq<(Seq<u8>, Seq<u8>)>) -> Map<Seq<u8>, Seq<u8>>
    decreases rows.len(),
{
    if rows.len() == 0 {
        Map::empty()
    } else {
        rows_map(rows.drop_last()).insert(rows.last().0, rows.last().1)
    }
}

/// The rows of a column, as key and value views.
pub open spec fn row_views(rows: Seq<(Vec<u8>, Vec<u8>)>) -> Seq<(Seq<u8>, Seq<u8>)> {
    rows.map_values(|r: (Vec<u8>, Vec<u8>)| (r.0@, r.1@))
}

/// No two rows share a key.
pub open spec fn keys_unique(rows: Seq<(Seq<u8>, Seq<u8>)>) -> bool {
    forall|i: int, j: int| 0 <= i < j < rows.len() ==> rows[i].0 != rows[j].0
}

/// A key is in the mapping exactly when some row holds it.
pub proof fn lemma_rows_map_dom(rows: Seq<(Seq<u8>, Seq<u8>)>, k: Seq<u8>)
    ensures
        rows_map(rows).contains_key(k) <==> exists|i: int| 0 <= i < rows.len() && rows[i].0 == k,
    decreases rows.len(),
{
    if rows.len() > 0 {
        let init = rows.drop_last();
        lemma_rows_map_dom(init, k);
        if rows_map(init).contains_key(k) {
            let i = choose|i: int| 0 <= i < init.len() && init[i].0 == k;
            assert(rows[i].0 == k);
        }
        if exists|i: int| 0 <= i < rows.len() && rows[i].0 == k {
            let i = choose|i: int| 0 <= i < rows.len() && rows[i].0 == k;
            if i < init.len() {
                assert(init[i].0 == k);
            }
        }
    }
}

/// With unique keys, the mapping gives each row's key that row's value.
pub proof fn lemma_rows_map_at(rows: Seq<(Seq<u8>, Seq<u8>)>, i: int)
    requires
        keys_unique(rows),
        0 <= i < rows.len(),
    ensures
        rows_map(rows).contains_key(rows[i].0),
        rows_map(rows)[rows[i].0] == rows[i].1,
    decreases rows.len(),
{
    let init = rows.drop_last();
    if i < rows.len() - 1 {
        assert(keys_unique(init));
        assert(init[i] == rows[i]);
        lemma_rows_map_at(init, i);
    }
}

/// With unique keys, overwriting the value of one row is an insert.
pub proof fn lemma_rows_map_update(rows: Seq<(Seq<u8>, Seq<u8>)>, i: int, v: Seq<u8>)
    requires
        keys_unique(rows),
        0 <= i < rows.len(),
    ensures
        rows_map(rows.update(i, (rows[i].0, v))) == rows_map(rows).insert(rows[i].0, v),
    decreases rows.len(),
{
    let k = rows[i].0;
    let new_rows = rows.update(i, (k, v));
    let init = rows.drop_last();
    if i == rows.len() - 1 {
        assert(new_rows.drop_last() =~= init);
        assert(rows_map(init).insert(k, rows.last().1).insert(k, v) =~= rows_map(init).insert(k, v));
    } else {
        assert(keys_unique(init));
        lemma_rows_map_update(init, i, v);
        assert(new_rows.drop_last() =~= init.update(i, (k, v)));
        assert(rows.last().0 != k);
        assert(rows_map(init).insert(k, v).insert(rows.last().0, rows.last().1) =~= rows_map(
            init,
        ).insert(rows.last().0, rows.last().1).insert(k, v));
    }
}

/// A key-value store partitioned into a fixed number of columns.
pub struct Database {
    columns: Vec<Vec<(Vec<u8>, Vec<u8>)>>,
}

impl Database {
    /// The rows of column `col`.
    pub closed spec fn rows(&self, col: int) -> Seq<(Seq<u8>, Seq<u8>)> {
        row_views(self.columns@[col]@)
    }

    /// Each column's rows have unique keys.
    pub closed spec fn wf(&self) -> bool {
        forall|c: int| 0 <= c < self.columns@.len() ==> keys_unique(#[trigger] self.rows(c))
    }

    /// The contents of each column.
    pub closed spec fn view(&self) -> Seq<Map<Seq<u8>, Seq<u8>>> {
        Seq::new(self.columns@.len(), |c: int| rows_map(self.rows(c)))
    }

    /// Number of rows of column `col`.
    pub closed spec fn row_count(&self, col: int) -> nat {
        self.columns@[col]@.len()
    }

    /// Each column's contents are the mapping of its rows.
    pub proof fn lemma_view_rows(&self, c: int)
        requires
            0 <= c < self@.len(),
        ensures
            self@[c] == rows_map(self.rows(c)),
    {
    }

    /// A store of `n` empty columns.
    pub fn new(n: usize) -> (r: Database)
        ensures
            r.wf(),
            r@.len() == n,
            forall|c: int| 0 <= c < n ==> (#[trigger] r@[c]) == Map::<Seq<u8>, Seq<u8>>::empty(),
    {
        let mut columns: Vec<Vec<(Vec<u8>, Vec<u8>)>> = Vec::new();
        let mut i: usize = 0;
        while i < n
            invariant
                i <= n,
                columns@.len() == i,
                forall|c: int| 0 <= c < i ==> (#[trigger] columns@[c])@.len() == 0,
            decreases n - i,
        {
            columns.push(Vec::new());
            i = i + 1;
        }
        let r = Database { columns };
        assert forall|c: int| 0 <= c < n implies (#[trigger] r@[c]) == Map::<
            Seq<u8>,
            Seq<u8>,
        >::empty() by {
            assert(r.rows(c) =~= Seq::<(Seq<u8>, Seq<u8>)>::empty());
        }
        r
    }

    /// Number of columns.
    pub fn num_columns(&self) -> (r: usize)
        ensures
            r == self@.len(),
    {
        self.columns.len()
    }

    /// Number of rows stored in column `col`.
    pub fn column_len(&self, col: usize) -> (r: usize)
        requires
            col < self@.len(),
        ensures
            r == self.row_count(col as int),
            r == self.rows(col as int).len(),
    {
        self.columns[col].len()
    }

    /// The row at position `i` of column `col`, copied out.
    pub fn row(&self, col: usize, i: usize) -> (r: (Vec<u8>, Vec<u8>))
        requires
            col < self@.len(),
            i < self.row_count(col as int),
        ensures
            (r.0@, r.1@) == self.rows(col as int)[i as int],
    {
        let k = self.columns[col][i].0.clone();
        let v = self.columns[col][i].1.clone();
        assert(k@ =~= self.columns@[col as int]@[i as int].0@);
        assert(v@ =~= self.columns@[col as int]@[i as int].1@);
        (k, v)
    }

    /// Position of the row holding `key` in column `col`, if any.
    fn find(&self, col: usize, key: &Vec<u8>) -> (r: Option<usize>)
        requires
            col < self@.len(),
        ensures
            match r {
                Some(i) => i < self.row_count(col as int) && self.rows(col as int)[i as int].0
                    == key@,
                None => forall|i: int|
                    0 <= i < self.row_count(col as int) ==> self.rows(col as int)[i].0 != key@,
            },
    {
        let rows = &self.columns[col];
        let mut i: usize = 0;
        while i < rows.len()
            invariant
                i <= rows@.len(),
                rows == self.columns@[col as int],
                forall|j: int| 0 <= j < i ==> self.rows(col as int)[j].0 != key@,
            decreases rows@.len() - i,
        {
            if bytes_eq(&rows[i].0, key) {
                return Some(i);
            }
            i = i + 1;
        }
        None
    }

    /// The value stored under `key` in column `col`.
    pub fn get(&self, col: usize, key: &Vec<u8>) -> (r: Option<Vec<u8>>)
        requires
            self.wf(),
            col < self@.len(),
        ensures
            match r {
                Some(v) => self@[col as int].contains_key(key@) && v@ == self@[col as int][key@],
                None => !self@[col as int].contains_key(key@),
            },
    {
        proof {
            lemma_rows_map_dom(self.rows(col as int), key@);
        }
        match self.find(col, key) {
            Some(i) => {
                proof {
                    lemma_rows_map_at(self.rows(col as int), i as int);
                }
                let v = self.columns[col][i].1.clone();
                assert(v@ =~= self.columns@[col as int]@[i as int].1@);
                Some(v)
            },
            None => None,
        }
    }

    /// Stores `value` under `key` in column `col`, replacing any earlier value.
    pub fn put(&mut self, col: usize, key: Vec<u8>, value: Vec<u8>)
        requires
            old(self).wf(),
            col < old(self)@.len(),
        ensures
            final(self).wf(),
            final(self)@ == old(self)@.update(col as int, old(self)@[col as int].insert(key@, value@)),
    {
        let ghost old_rows = self.rows(col as int);
        let ghost kv = key@;
        let ghost vv = value@;
        let found = self.find(col, &key);
        let mut column: Vec<(Vec<u8>, Vec<u8>)> = Vec::new();
        std::mem::swap(&mut column, &mut self.columns[col]);
        assert(row_views(column@) == old_rows);
        match found {
            Some(i) => {
                column[i] = (key, value);
                proof {
                    assert(row_views(column@) =~= old_rows.update(i as int, (old_rows[i as int].0, vv)));
                    lemma_rows_map_update(old_rows, i as int, vv);
                }
            },
            None => {
                column.push((key, value));
                proof {
                    assert(row_views(column@) =~= old_rows.push((kv, vv)));
                    assert(row_views(column@).drop_last() =~= old_rows);
                }
            },
        }
        self.columns[col] = column;
        proof {
            assert forall|c: int| 0 <= c < self.columns@.len() implies keys_unique(
                #[trigger] self.rows(c),
            ) by {
                if c != col {
                    assert(self.rows(c) == old(self).rows(c));
                }
            }
            assert(self@ =~= old(self)@.update(col as int, old(self)@[col as int].insert(kv, vv)));
        }
    }
}

/// Byte-wise equality of two byte strings.
pub fn bytes_eq(a: &Vec<u8>, b: &Vec<u8>) -> (r: bool)
    ensures
        r == (a@ == b@),
{
    if a.len() != b.len() {
        return false;
    }
    let mut i: usize = 0;
    while i < a.len()
        invariant
            i <= a@.len(),
            a@.len() == b@.len(),
            forall|j: int| 0 <= j < i ==> a@[j] == b@[j],
        decreases a@.len() - i,
    {
        if a[i] != b[i] {
            return false;
        }
        i = i + 1;
    }
    assert(a@ =~= b@);
    true
}

} // verus!
