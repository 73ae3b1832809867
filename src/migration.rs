//! Column copy, state-derived indexes, and the versioned migrations.
use vstd::prelude::*;
use crate::batch::{Batch, Progress, lemma_apply_step, ticked};
use crate::bloom::{AccountBloom, bloom_of, tests_positive, lemma_bloom_len, lemma_bloom_no_false_negatives};
use crate::codec::{encode_uint, list_item, rlp_list_item, rlp_uint};
use crate::key::{combine_key, combined};
use crate::hashdb::{HashLookup, HashSource};
use crate::store::{Database, bytes_eq, rows_map};

verus! {

/// Column of trie nodes and per-account entries.
pub const COL_STATE: usize = 0;

/// Column of block headers, keyed by block hash.
pub const COL_HEADERS: usize = 1;

/// Column of block bodies.
pub const COL_BODIES: usize = 2;

/// Column of chain metadata, among it the best block hash.
pub const COL_EXTRA: usize = 3;

/// Column of execution traces.
pub const COL_TRACE: usize = 4;

/// Number of numbered columns of the store.
pub const NUM_COLUMNS: usize = 5;

/// Slot of the store's default column, which stands beside the numbered
/// columns and is not counted among them; it holds the account bloom.
pub const COL_DEFAULT: usize = 5;

/// Number of column slots of a store: the numbered columns and the default one.
pub const STORE_SLOTS: usize = 6;

/// Position of the state root in an encoded block header.
pub const HEADER_STATE_ROOT_FIELD: usize = 3;

/// Position of the code hash in an encoded account record.
pub const ACCOUNT_CODE_HASH_FIELD: usize = 3;

/// Why a migration stopped.
pub enum MigrationError {
    /// A structural invariant of the source store does not hold.
    Corrupted(String),
    /// Reading or writing a store failed.
    Io(String),
}

/// Settings of one migration run.
pub struct Config {
    /// Number of rows after which buffered writes are committed.
    pub batch_size: usize,
}

/// One leaf of the state trie: an account hash and its encoded record.
pub struct TrieLeaf {
    pub key: Vec<u8>,
    pub value: Vec<u8>,
}

/// A trie node that could not be resolved while reading the trie.
pub struct MissingNode {
    pub hash: Vec<u8>,
}

/// What a migration of one column asks of its driver next.
pub enum Step {
    /// The column is migrated.
    Done,
    /// The state trie at this root is to be read, and its leaves handed to
    /// the migration's `finish`.
    ReadTrie(Vec<u8>),
}

/// Key of the best block hash in the metadata column.
pub open spec fn best_key() -> Seq<u8> {
    seq![98u8, 101u8, 115u8, 116u8]
}

/// Key of the account bloom in the default column.
pub open spec fn bloom_key() -> Seq<u8> {
    seq![97u8, 99u8, 99u8, 111u8, 117u8, 110u8, 116u8, 115u8, 95u8, 98u8, 108u8, 111u8, 111u8, 109u8]
}

/// Keccak-256 of the empty byte string: the code hash of an account without code.
pub open spec fn empty_code_hash() -> Seq<u8> {
    seq![
        0xc5u8, 0xd2u8, 0x46u8, 0x01u8, 0x86u8, 0xf7u8, 0x23u8, 0x3cu8,
        0x92u8, 0x7eu8, 0x7du8, 0xb2u8, 0xdcu8, 0xc7u8, 0x03u8, 0xc0u8,
        0xe5u8, 0x00u8, 0xb6u8, 0x53u8, 0xcau8, 0x82u8, 0x27u8, 0x3bu8,
        0x7bu8, 0xfau8, 0xd8u8, 0x04u8, 0x5du8, 0x85u8, 0xa4u8, 0x70u8,
    ]
}

/// The logical key under which an account's code size is stored, before
/// mangling with the account hash.
pub open spec fn code_size_sentinel() -> Seq<u8> {
    Seq::new(32, |i: int| 0xffu8)
}

/// The state root of the best block: `Some(None)` where no best block is
/// recorded, `None` where the best block's header is missing or malformed.
pub open spec fn state_root_of(db: Seq<Map<Seq<u8>, Seq<u8>>>) -> Option<Option<Seq<u8>>> {
    if !db[COL_EXTRA as int].contains_key(best_key()) {
        Some(None)
    } else {
        let h = db[COL_EXTRA as int][best_key()];
        if !db[COL_HEADERS as int].contains_key(h) {
            None
        } else {
            match rlp_list_item(db[COL_HEADERS as int][h], HEADER_STATE_ROOT_FIELD as nat) {
                Some(root) => if root.len() == 32 {
                    Some(Some(root))
                } else {
                    None
                },
                None => None,
            }
        }
    }
}

/// The account hashes of the trie's leaves, or `None` where a node was
/// missing or a leaf key is not a hash.
pub open spec fn leaf_hashes(items: Seq<Result<TrieLeaf, MissingNode>>) -> Option<Seq<Seq<u8>>>
    decreases items.len(),
{
    if items.len() == 0 {
        Some(Seq::empty())
    } else {
        match (leaf_hashes(items.drop_last()), items.last()) {
            (Some(hs), Ok(leaf)) => if leaf.key@.len() == 32 {
                Some(hs.push(leaf.key@))
            } else {
                None
            },
            _ => None,
        }
    }
}

/// The code-size entry of one trie item: `None` where the item is broken,
/// `Some(None)` for an account without code.
pub open spec fn code_size_entry(state: Map<Seq<u8>, Seq<u8>>, item: Result<TrieLeaf, MissingNode>) -> Option<
    Option<(Seq<u8>, Seq<u8>)>,
> {
    match item {
        Err(_) => None,
        Ok(leaf) => if leaf.key@.len() != 32 {
            None
        } else {
            match rlp_list_item(leaf.value@, ACCOUNT_CODE_HASH_FIELD as nat) {
                None => None,
                Some(ch) => if ch.len() != 32 {
                    None
                } else if ch == empty_code_hash() {
                    Some(None)
                } else if !state.contains_key(combined(leaf.key@, ch)) {
                    None
                } else {
                    Some(
                        Some(
                            (
                                combined(leaf.key@, code_size_sentinel()),
                                rlp_uint(state[combined(leaf.key@, ch)].len()),
                            ),
                        ),
                    )
                },
            }
        },
    }
}

/// The code-size entries of all trie items, in order, or `None` where one is broken.
pub open spec fn code_size_entries(
    state: Map<Seq<u8>, Seq<u8>>,
    items: Seq<Result<TrieLeaf, MissingNode>>,
) -> Option<Seq<(Seq<u8>, Seq<u8>)>>
    decreases items.len(),
{
    if items.len() == 0 {
        Some(Seq::empty())
    } else {
        match (code_size_entries(state, items.drop_last()), code_size_entry(state, items.last())) {
            (Some(es), Some(None)) => Some(es),
            (Some(es), Some(Some(e))) => Some(es.push(e)),
            _ => None,
        }
    }
}

/// A column as a migration driver names it: a numbered column, or `None`
/// for the default column.
pub open spec fn valid_column(col: Option<u32>) -> bool {
    match col {
        Some(c) => c < NUM_COLUMNS,
        None => true,
    }
}

/// The store slot of a column.
pub open spec fn slot_of(col: Option<u32>) -> int {
    match col {
        Some(c) => c as int,
        None => COL_DEFAULT as int,
    }
}

/// The store slot of a column.
pub fn column_slot(col: Option<u32>) -> (r: usize)
    requires
        valid_column(col),
    ensures
        r == slot_of(col),
        r < STORE_SLOTS,
{
    match col {
        Some(c) => c as usize,
        None => COL_DEFAULT,
    }
}

/// A store shaped as the migrations expect.
pub open spec fn is_store(db: &Database) -> bool {
    db.wf() && db@.len() == STORE_SLOTS
}

fn best_key_bytes() -> (r: Vec<u8>)
    ensures
        r@ == best_key(),
{
    let r: Vec<u8> = vec![98u8, 101u8, 115u8, 116u8];
    assert(r@ =~= best_key());
    r
}

fn bloom_key_bytes() -> (r: Vec<u8>)
    ensures
        r@ == bloom_key(),
{
    let r: Vec<u8> = vec![97u8, 99u8, 99u8, 111u8, 117u8, 110u8, 116u8, 115u8, 95u8, 98u8, 108u8, 111u8, 111u8, 109u8];
    assert(r@ =~= bloom_key());
    r
}

fn empty_code_hash_bytes() -> (r: Vec<u8>)
    ensures
        r@ == empty_code_hash(),
{
    let r: Vec<u8> = vec![
        0xc5u8, 0xd2u8, 0x46u8, 0x01u8, 0x86u8, 0xf7u8, 0x23u8, 0x3cu8,
        0x92u8, 0x7eu8, 0x7du8, 0xb2u8, 0xdcu8, 0xc7u8, 0x03u8, 0xc0u8,
        0xe5u8, 0x00u8, 0xb6u8, 0x53u8, 0xcau8, 0x82u8, 0x27u8, 0x3bu8,
        0x7bu8, 0xfau8, 0xd8u8, 0x04u8, 0x5du8, 0x85u8, 0xa4u8, 0x70u8,
    ];
    assert(r@ =~= empty_code_hash());
    r
}

fn code_size_sentinel_bytes() -> (r: Vec<u8>)
    ensures
        r@ == code_size_sentinel(),
{
    let mut r: Vec<u8> = Vec::new();
    let mut i: usize = 0;
    while i < 32
        invariant
            i <= 32,
            r@.len() == i,
            forall|k: int| 0 <= k < i ==> r@[k] == 0xffu8,
        decreases 32 - i,
    {
        r.push(0xffu8);
        i = i + 1;
    }
    assert(r@ =~= code_size_sentinel());
    r
}


/// Copies every row of column `col` of `source` into the same column of
/// `dest`, through a batch of `batch_size` rows, ticking once per row.
pub fn copy_column(
    source: &Database,
    dest: &mut Database,
    col: usize,
    batch_size: usize,
    progress: &mut Progress,
)
    requires
        source.wf(),
        old(dest).wf(),
        col < source@.len(),
        col < old(dest)@.len(),
        batch_size > 0,
    ensures
        final(dest).wf(),
        final(dest)@ == old(dest)@.update(col as int, old(dest)@[col as int].union_prefer_right(source@[col as int])),
        final(progress).count() == ticked(old(progress).count(), source.rows(col as int).len()),
{
    let mut batch = Batch::new(col, batch_size);
    let n = source.column_len(col);
    let ghost rows = source.rows(col as int);
    let ghost base = old(dest)@[col as int];
    proof {
        assert(rows.take(0) =~= Seq::<(Seq<u8>, Seq<u8>)>::empty());
        assert(base.union_prefer_right(rows_map(rows.take(0))) =~= base);
        assert(old(dest)@.update(col as int, base) =~= old(dest)@);
        assert(batch.pending() =~= Seq::<(Seq<u8>, Seq<u8>)>::empty());
        assert(dest@[col as int].union_prefer_right(rows_map(batch.pending())) =~= dest@[col as int]);
        assert(batch.effective(dest@) =~= dest@);
        progress.lemma_count_bounded();
    }
    let mut i: usize = 0;
    while i < n
        invariant
            i <= n,
            n == rows.len(),
            n == source.row_count(col as int),
            rows == source.rows(col as int),
            source.wf(),
            col < source@.len(),
            dest.wf(),
            batch.wf(),
            batch.column() == col,
            batch.size() == batch_size,
            dest@.len() == old(dest)@.len(),
            col < old(dest)@.len(),
            base == old(dest)@[col as int],
            batch.effective(dest@) == old(dest)@.update(
                col as int,
                base.union_prefer_right(rows_map(rows.take(i as int))),
            ),
            progress.count() == ticked(old(progress).count(), i as nat),
        decreases n - i,
    {
        let (k, v) = source.row(col, i);
        batch.insert(k, v, dest);
        progress.tick();
        proof {
            lemma_apply_step(base, rows, i as int);
            assert(batch.effective(dest@) =~= old(dest)@.update(
                col as int,
                base.union_prefer_right(rows_map(rows.take(i as int + 1))),
            ));
        }
        i = i + 1;
    }
    batch.commit(dest);
    proof {
        source.lemma_view_rows(col as int);
        assert(rows.take(n as int) =~= rows);
    }
}

/// Copying a column into a fresh destination gives exactly the source
/// column, so two copies from one source into fresh destinations agree.
pub proof fn lemma_copy_into_fresh(source: Map<Seq<u8>, Seq<u8>>)
    ensures
        Map::<Seq<u8>, Seq<u8>>::empty().union_prefer_right(source) == source,
{
    assert(Map::<Seq<u8>, Seq<u8>>::empty().union_prefer_right(source) =~= source);
}

/// Reads the state root of the best block. `Ok(None)` where no best block is
/// recorded; a missing or malformed header is a corrupted database.
pub fn best_state_root(source: &Database) -> (r: Result<Option<Vec<u8>>, MigrationError>)
    requires
        is_store(source),
    ensures
        match r {
            Ok(None) => state_root_of(source@) == Some(None::<Seq<u8>>),
            Ok(Some(root)) => state_root_of(source@) == Some(Some(root@)),
            Err(e) => state_root_of(source@) is None && e is Corrupted,
        },
{
    let best = best_key_bytes();
    let hash = match source.get(COL_EXTRA, &best) {
        None => {
            return Ok(None);
        },
        Some(h) => h,
    };
    let header = match source.get(COL_HEADERS, &hash) {
        None => {
            return Err(MigrationError::Corrupted("no header for the best block".to_string()));
        },
        Some(h) => h,
    };
    match list_item(&header, HEADER_STATE_ROOT_FIELD) {
        Some(root) => {
            if root.len() == 32 {
                Ok(Some(root))
            } else {
                Err(MigrationError::Corrupted("state root of the best block is not a hash".to_string()))
            }
        },
        None => Err(MigrationError::Corrupted("best block header is malformed".to_string())),
    }
}

/// Builds the account bloom of the trie's leaves, stopping at the first
/// missing node or malformed leaf key.
pub fn account_bloom(items: &Vec<Result<TrieLeaf, MissingNode>>) -> (r: Result<AccountBloom, MigrationError>)
    ensures
        r is Ok <==> leaf_hashes(items@) is Some,
        match r {
            Ok(b) => b@ == bloom_of(leaf_hashes(items@).unwrap()) && forall|i: int|
                0 <= i < leaf_hashes(items@).unwrap().len() ==> tests_positive(
                    b@,
                    #[trigger] leaf_hashes(items@).unwrap()[i],
                ),
            Err(e) => e is Corrupted,
        },
{
    let mut bloom = AccountBloom::new();
    let ghost mut hs: Seq<Seq<u8>> = Seq::empty();
    let mut i: usize = 0;
    while i < items.len()
        invariant
            i <= items@.len(),
            leaf_hashes(items@.take(i as int)) == Some(hs),
            forall|k: int| 0 <= k < hs.len() ==> (#[trigger] hs[k]).len() == 32,
            bloom@ == bloom_of(hs),
        decreases items@.len() - i,
    {
        proof {
            assert(items@.take(i as int + 1).drop_last() =~= items@.take(i as int));
            lemma_bloom_len(hs);
        }
        match &items[i] {
            Err(_) => {
                proof {
                    lemma_leaf_hashes_stays_none(items@, i as int + 1);
                }
                return Err(MigrationError::Corrupted("missing trie node".to_string()));
            },
            Ok(leaf) => {
                if leaf.key.len() != 32 {
                    proof {
                        lemma_leaf_hashes_stays_none(items@, i as int + 1);
                    }
                    return Err(MigrationError::Corrupted("trie leaf key is not a hash".to_string()));
                }
                bloom.accrue(&leaf.key);
                proof {
                    let prev = hs;
                    hs = hs.push(leaf.key@);
                    assert(hs.drop_last() =~= prev);
                }
            },
        }
        i = i + 1;
    }
    proof {
        assert(items@.take(items@.len() as int) =~= items@);
        assert forall|k: int| 0 <= k < hs.len() implies tests_positive(bloom@, #[trigger] hs[k]) by {
            lemma_bloom_no_false_negatives(hs, k);
        }
    }
    Ok(bloom)
}

/// Once a prefix of the items is broken, every longer prefix is too.
pub proof fn lemma_leaf_hashes_stays_none(items: Seq<Result<TrieLeaf, MissingNode>>, n: int)
    requires
        0 <= n <= items.len(),
        leaf_hashes(items.take(n)) is None,
    ensures
        leaf_hashes(items) is None,
    decreases items.len() - n,
{
    if n < items.len() {
        assert(items.take(n + 1).drop_last() =~= items.take(n));
        lemma_leaf_hashes_stays_none(items, n + 1);
    } else {
        assert(items.take(n) =~= items);
    }
}

/// Once a prefix of the items is broken, the code-size entries of all of them are too.
pub proof fn lemma_code_size_entries_stays_none(
    state: Map<Seq<u8>, Seq<u8>>,
    items: Seq<Result<TrieLeaf, MissingNode>>,
    n: int,
)
    requires
        0 <= n <= items.len(),
        code_size_entries(state, items.take(n)) is None,
    ensures
        code_size_entries(state, items) is None,
    decreases items.len() - n,
{
    if n < items.len() {
        assert(items.take(n + 1).drop_last() =~= items.take(n));
        lemma_code_size_entries_stays_none(state, items, n + 1);
    } else {
        assert(items.take(n) =~= items);
    }
}

/// Writes, for every account of the trie that has code, the length of its
/// code under the account's code-size key in the state column of `dest`.
/// Code is looked up through `lookup`; a missing node, a
/// malformed leaf or record, or missing code is a corrupted database.
pub fn write_code_sizes<S: HashSource>(
    lookup: &S,
    items: &Vec<Result<TrieLeaf, MissingNode>>,
    batch_size: usize,
    dest: &mut Database,
) -> (r: Result<(), MigrationError>)
    requires
        lookup.ready(),
        is_store(old(dest)),
        batch_size > 0,
    ensures
        is_store(final(dest)),
        r is Ok <==> code_size_entries(lookup.contents(), items@) is Some,
        match r {
            Ok(_) => final(dest)@ == old(dest)@.update(
                COL_STATE as int,
                old(dest)@[COL_STATE as int].union_prefer_right(
                    rows_map(code_size_entries(lookup.contents(), items@).unwrap()),
                ),
            ),
            Err(e) => e is Corrupted,
        },
{
    let empty = empty_code_hash_bytes();
    let sentinel = code_size_sentinel_bytes();
    let mut batch = Batch::new(COL_STATE, batch_size);
    let ghost state = lookup.contents();
    let ghost base = old(dest)@[COL_STATE as int];
    let ghost mut es: Seq<(Seq<u8>, Seq<u8>)> = Seq::empty();
    proof {
        assert(items@.take(0) =~= Seq::<Result<TrieLeaf, MissingNode>>::empty());
        assert(base.union_prefer_right(rows_map(es)) =~= base);
        assert(old(dest)@.update(COL_STATE as int, base) =~= old(dest)@);
        assert(batch.pending() =~= Seq::<(Seq<u8>, Seq<u8>)>::empty());
        assert(dest@[COL_STATE as int].union_prefer_right(rows_map(batch.pending())) =~= dest@[COL_STATE as int]);
        assert(batch.effective(dest@) =~= dest@);
    }
    let mut i: usize = 0;
    while i < items.len()
        invariant
            i <= items@.len(),
            lookup.ready(),
            is_store(dest),
            state == lookup.contents(),
            empty@ == empty_code_hash(),
            sentinel@ == code_size_sentinel(),
            batch.wf(),
            batch.column() == COL_STATE,
            batch.size() == batch_size,
            old(dest)@.len() == STORE_SLOTS,
            base == old(dest)@[COL_STATE as int],
            code_size_entries(state, items@.take(i as int)) == Some(es),
            batch.effective(dest@) == old(dest)@.update(
                COL_STATE as int,
                base.union_prefer_right(rows_map(es)),
            ),
        decreases items@.len() - i,
    {
        proof {
            assert(items@.take(i as int + 1).drop_last() =~= items@.take(i as int));
            assert(items@.take(i as int + 1).last() == items@[i as int]);
        }
        match &items[i] {
            Err(_) => {
                proof {
                    lemma_code_size_entries_stays_none(state, items@, i as int + 1);
                }
                return Err(MigrationError::Corrupted("missing trie node".to_string()));
            },
            Ok(leaf) => {
                if leaf.key.len() != 32 {
                    proof {
                        lemma_code_size_entries_stays_none(state, items@, i as int + 1);
                    }
                    return Err(MigrationError::Corrupted("trie leaf key is not a hash".to_string()));
                }
                let code_hash = match list_item(&leaf.value, ACCOUNT_CODE_HASH_FIELD) {
                    Some(h) => h,
                    None => {
                        proof {
                            lemma_code_size_entries_stays_none(state, items@, i as int + 1);
                        }
                        return Err(MigrationError::Corrupted("malformed account record".to_string()));
                    },
                };
                if code_hash.len() != 32 {
                    proof {
                        lemma_code_size_entries_stays_none(state, items@, i as int + 1);
                    }
                    return Err(MigrationError::Corrupted("account code hash is not a hash".to_string()));
                }
                if !bytes_eq(&code_hash, &empty) {
                    let code_key = combine_key(&leaf.key, &code_hash);
                    let code = match lookup.lookup(&code_key) {
                        Some(c) => c,
                        None => {
                            proof {
                                lemma_code_size_entries_stays_none(state, items@, i as int + 1);
                            }
                            return Err(MigrationError::Corrupted("missing account code".to_string()));
                        },
                    };
                    let size_key = combine_key(&leaf.key, &sentinel);
                    let size = encode_uint(code.len());
                    let ghost entry = (size_key@, size@);
                    batch.insert(size_key, size, dest);
                    proof {
                        let prev = es;
                        es = es.push(entry);
                        assert(es.drop_last() =~= prev);
                        assert(base.union_prefer_right(rows_map(es)) =~= base.union_prefer_right(
                            rows_map(prev),
                        ).insert(entry.0, entry.1));
                        assert(batch.effective(dest@) =~= old(dest)@.update(
                            COL_STATE as int,
                            base.union_prefer_right(rows_map(es)),
                        ));
                    }
                }
            },
        }
        i = i + 1;
    }
    batch.commit(dest);
    proof {
        assert(items@.take(items@.len() as int) =~= items@);
    }
    Ok(())
}

/// Mangling one logical key with two account hashes gives the same key only
/// where the hashes agree in their low-order twenty bytes.
pub proof fn lemma_combined_collision(a: Seq<u8>, b: Seq<u8>, key: Seq<u8>)
    requires
        a.len() == 32,
        b.len() == 32,
        key.len() == 32,
        combined(a, key) == combined(b, key),
    ensures
        a.subrange(12, 32) == b.subrange(12, 32),
{
    assert forall|i: int| 12 <= i < 32 implies a[i] == b[i] by {
        let k = key[i];
        let x = a[i];
        let y = b[i];
        assert(combined(a, key)[i] == k ^ x);
        assert(combined(b, key)[i] == k ^ y);
        assert((k ^ x) == (k ^ y) ==> x == y) by (bit_vector);
    }
    assert(a.subrange(12, 32) =~= b.subrange(12, 32));
}

/// For an account of the trie with code of length `L`, the migrated state
/// column holds the encoding of `L` under the account's code-size key,
/// provided no later account hash agrees with it in its low-order twenty bytes.
pub proof fn lemma_code_size_recorded(
    state: Map<Seq<u8>, Seq<u8>>,
    items: Seq<Result<TrieLeaf, MissingNode>>,
    i: int,
    leaf: TrieLeaf,
    code_hash: Seq<u8>,
    dest: Map<Seq<u8>, Seq<u8>>,
)
    requires
        code_size_entries(state, items) is Some,
        0 <= i < items.len(),
        items[i] == Ok::<TrieLeaf, MissingNode>(leaf),
        rlp_list_item(leaf.value@, ACCOUNT_CODE_HASH_FIELD as nat) == Some(code_hash),
        code_hash != empty_code_hash(),
        forall|j: int|
            i < j < items.len() ==> (#[trigger] items[j]) is Ok && items[j]->Ok_0.key@.subrange(12, 32)
                != leaf.key@.subrange(12, 32),
    ensures
        leaf.key@.len() == 32,
        state.contains_key(combined(leaf.key@, code_hash)),
        ({
            let size_key = combined(leaf.key@, code_size_sentinel());
            let migrated = dest.union_prefer_right(rows_map(code_size_entries(state, items).unwrap()));
            &&& migrated.contains_key(size_key)
            &&& migrated[size_key] == rlp_uint(state[combined(leaf.key@, code_hash)].len())
        }),
    decreases items.len(),
{
    let init = items.drop_last();
    let es = code_size_entries(state, items).unwrap();
    let size_key = combined(leaf.key@, code_size_sentinel());
    if i == items.len() - 1 {
        assert(items.last() == Ok::<TrieLeaf, MissingNode>(leaf));
        let e = (size_key, rlp_uint(state[combined(leaf.key@, code_hash)].len()));
        assert(code_size_entry(state, items.last()) == Some(Some(e)));
        assert(es.drop_last() =~= code_size_entries(state, init).unwrap());
        assert(es.last() == e);
    } else {
        assert(init[i] == items[i]);
        assert forall|j: int| i < j < init.len() implies (#[trigger] init[j]) is Ok && init[j]->Ok_0.key@.subrange(
            12,
            32,
        ) != leaf.key@.subrange(12, 32) by {
            assert(init[j] == items[j]);
        }
        lemma_code_size_recorded(state, init, i, leaf, code_hash, dest);
        let prev = code_size_entries(state, init).unwrap();
        let last = items.last();
        assert(last == items[items.len() - 1]);
        let other = last->Ok_0;
        match code_size_entry(state, last) {
            Some(Some(e)) => {
                assert(es == prev.push(e));
                assert(es.drop_last() =~= prev);
                assert(e.0 == combined(other.key@, code_size_sentinel()));
                if e.0 == size_key {
                    lemma_combined_collision(other.key@, leaf.key@, code_size_sentinel());
                }
            },
            _ => {
                assert(es == prev);
            },
        }
    }
}

/// Copies column `col` of `source` into `dest` (`None`: the default column);
/// for the state column it then locates the state root of the best block,
/// which the caller reads the trie at.
pub fn migrate_column(
    source: &Database,
    config: &Config,
    dest: &mut Database,
    col: Option<u32>,
    progress: &mut Progress,
) -> (r: Result<Step, MigrationError>)
    requires
        is_store(source),
        is_store(old(dest)),
        valid_column(col),
        config.batch_size > 0,
    ensures
        is_store(final(dest)),
        final(dest)@ == old(dest)@.update(
            slot_of(col),
            old(dest)@[slot_of(col)].union_prefer_right(source@[slot_of(col)]),
        ),
        col != Some(COL_STATE as u32) ==> r matches Ok(Step::Done),
        col == Some(COL_STATE as u32) ==> match state_root_of(source@) {
            Some(None) => r matches Ok(Step::Done),
            Some(Some(root)) => r matches Ok(Step::ReadTrie(v)) && v@ == root,
            None => r matches Err(e) && e is Corrupted,
        },
{
    let slot = column_slot(col);
    copy_column(source, dest, slot, config.batch_size, progress);
    match col {
        Some(c) => {
            if c != COL_STATE as u32 {
                return Ok(Step::Done);
            }
        },
        None => {
            return Ok(Step::Done);
        },
    }
    match best_state_root(source) {
        Ok(None) => Ok(Step::Done),
        Ok(Some(root)) => Ok(Step::ReadTrie(root)),
        Err(e) => Err(e),
    }
}

/// Migration that adds the account bloom to the state database.
pub struct ToV10 {
    progress: Progress,
}

impl ToV10 {
    /// A migration that has not run yet.
    pub fn new() -> (r: ToV10) {
        ToV10 { progress: Progress::new() }
    }

    /// Number of columns of the store it migrates.
    pub fn columns(&self) -> (r: Option<u32>)
        ensures
            r == Some(5u32),
    {
        Some(NUM_COLUMNS as u32)
    }

    /// The schema version it migrates to.
    pub fn version(&self) -> (r: u32)
        ensures
            r == 10,
    {
        10
    }

    /// Copies column `col` (`None`: the default column); for the state
    /// column, asks for the trie at the best block's state root, or is done
    /// where no best block is recorded.
    pub fn migrate(&mut self, source: &Database, config: &Config, dest: &mut Database, col: Option<u32>) -> (r:
        Result<Step, MigrationError>)
        requires
            is_store(source),
            is_store(old(dest)),
            valid_column(col),
            config.batch_size > 0,
        ensures
            is_store(final(dest)),
            final(dest)@ == old(dest)@.update(
                slot_of(col),
                old(dest)@[slot_of(col)].union_prefer_right(source@[slot_of(col)]),
            ),
            col != Some(COL_STATE as u32) ==> r matches Ok(Step::Done),
            col == Some(COL_STATE as u32) ==> match state_root_of(source@) {
                Some(None) => r matches Ok(Step::Done),
                Some(Some(root)) => r matches Ok(Step::ReadTrie(v)) && v@ == root,
                None => r matches Err(e) && e is Corrupted,
            },
    {
        migrate_column(source, config, dest, col, &mut self.progress)
    }

    /// Stores the bloom of every account of the trie's leaves in the
    /// default column; writes nothing where a leaf is broken.
    pub fn finish(&mut self, items: &Vec<Result<TrieLeaf, MissingNode>>, dest: &mut Database) -> (r: Result<
        (),
        MigrationError,
    >)
        requires
            is_store(old(dest)),
        ensures
            is_store(final(dest)),
            r is Ok <==> leaf_hashes(items@) is Some,
            match r {
                Ok(_) => final(dest)@ == old(dest)@.update(
                    COL_DEFAULT as int,
                    old(dest)@[COL_DEFAULT as int].insert(bloom_key(), bloom_of(leaf_hashes(items@).unwrap())),
                ),
                Err(e) => final(dest)@ == old(dest)@ && e is Corrupted,
            },
    {
        let bloom = account_bloom(items)?;
        dest.put(COL_DEFAULT, bloom_key_bytes(), bloom.to_bytes());
        Ok(())
    }
}

/// Migration that adds a code-size entry for every account with code.
pub struct ToCodeSize {
    version: u32,
    progress: Progress,
}

impl ToCodeSize {
    /// The target version, as given at construction.
    pub closed spec fn target(&self) -> u32 {
        self.version
    }

    /// A migration to schema version `version` that has not run yet.
    pub fn new(version: u32) -> (r: ToCodeSize)
        ensures
            r.target() == version,
    {
        ToCodeSize { version, progress: Progress::new() }
    }

    /// Number of columns of the store it migrates.
    pub fn columns(&self) -> (r: Option<u32>)
        ensures
            r == Some(5u32),
    {
        Some(NUM_COLUMNS as u32)
    }

    /// The schema version it migrates to.
    pub fn version(&self) -> (r: u32)
        ensures
            r == self.target(),
    {
        self.version
    }

    /// Copies column `col` (`None`: the default column); for the state
    /// column, asks for the trie at the best block's state root, or is done
    /// where no best block is recorded.
    pub fn migrate(&mut self, source: &Database, config: &Config, dest: &mut Database, col: Option<u32>) -> (r:
        Result<Step, MigrationError>)
        requires
            is_store(source),
            is_store(old(dest)),
            valid_column(col),
            config.batch_size > 0,
        ensures
            is_store(final(dest)),
            final(dest)@ == old(dest)@.update(
                slot_of(col),
                old(dest)@[slot_of(col)].union_prefer_right(source@[slot_of(col)]),
            ),
            col != Some(COL_STATE as u32) ==> r matches Ok(Step::Done),
            col == Some(COL_STATE as u32) ==> match state_root_of(source@) {
                Some(None) => r matches Ok(Step::Done),
                Some(Some(root)) => r matches Ok(Step::ReadTrie(v)) && v@ == root,
                None => r matches Err(e) && e is Corrupted,
            },
    {
        migrate_column(source, config, dest, col, &mut self.progress)
    }

    /// Writes the code-size entries of the trie's leaves into the state column.
    pub fn finish(
        &mut self,
        source: &Database,
        items: &Vec<Result<TrieLeaf, MissingNode>>,
        config: &Config,
        dest: &mut Database,
    ) -> (r: Result<(), MigrationError>)
        requires
            is_store(source),
            is_store(old(dest)),
            config.batch_size > 0,
        ensures
            is_store(final(dest)),
            r is Ok <==> code_size_entries(source@[COL_STATE as int], items@) is Some,
            match r {
                Ok(_) => final(dest)@ == old(dest)@.update(
                    COL_STATE as int,
                    old(dest)@[COL_STATE as int].union_prefer_right(
                        rows_map(code_size_entries(source@[COL_STATE as int], items@).unwrap()),
                    ),
                ),
                Err(e) => e is Corrupted,
            },
    {
        let lookup = HashLookup::new(source, COL_STATE);
        write_code_sizes(&lookup, items, config.batch_size, dest)
    }
}

} // verus!
