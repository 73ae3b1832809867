use state_migration::batch::{Batch, Progress};
use state_migration::hashdb::{HashLookup, HashSource, SharedHashLookup};
use state_migration::key::combine_key;
use state_migration::launch::{
    open_dapp, plan_run, ui_allowed, DappsConfiguration, HttpConfiguration, UiConfiguration,
};
use state_migration::migration::{
    account_bloom, best_state_root, copy_column, write_code_sizes, Config, MigrationError, MissingNode, Step, ToCodeSize,
    ToV10, TrieLeaf, COL_DEFAULT, COL_EXTRA, COL_HEADERS, COL_STATE, NUM_COLUMNS, STORE_SLOTS,
};
use state_migration::store::Database;

fn h(byte: u8) -> Vec<u8> {
    (0..32u8).map(|i| i.wrapping_mul(7).wrapping_add(byte)).collect()
}

fn header_with_root(root: &Vec<u8>) -> Vec<u8> {
    let mut s = rlp::RlpStream::new_list(5);
    s.append(&vec![1u8; 32]);
    s.append(&vec![2u8; 32]);
    s.append(&vec![3u8; 20]);
    s.append(root);
    s.append(&vec![4u8; 32]);
    s.out().to_vec()
}

fn account(code_hash: &Vec<u8>) -> Vec<u8> {
    let mut s = rlp::RlpStream::new_list(4);
    s.append(&5u64);
    s.append(&1000u64);
    s.append(&vec![9u8; 32]);
    s.append(code_hash);
    s.out().to_vec()
}

fn empty_code() -> Vec<u8> {
    keccak_hash::KECCAK_EMPTY.as_bytes().to_vec()
}

fn size_sentinel() -> Vec<u8> {
    vec![0xffu8; 32]
}

fn leaf(key: Vec<u8>, value: Vec<u8>) -> Result<TrieLeaf, MissingNode> {
    Ok(TrieLeaf { key, value })
}

fn config() -> Config {
    Config { batch_size: 2 }
}

#[test]
fn combine_key_is_self_inverse() {
    let a = h(3);
    let k = h(200);
    let once = combine_key(&a, &k);
    assert_ne!(once, k);
    assert_eq!(&once[..12], &k[..12]);
    for i in 12..32 {
        assert_eq!(once[i], k[i] ^ a[i]);
    }
    assert_eq!(combine_key(&a, &once), k);
}

#[test]
fn copy_twice_gives_identical_columns() {
    let mut source = Database::new(STORE_SLOTS);
    for i in 0..5u8 {
        source.put(COL_HEADERS, vec![i], vec![i, i, i]);
    }
    source.put(COL_HEADERS, vec![2], vec![7]);
    let mut first = Database::new(STORE_SLOTS);
    let mut second = Database::new(STORE_SLOTS);
    let mut progress = Progress::new();
    copy_column(&source, &mut first, COL_HEADERS, 2, &mut progress);
    copy_column(&source, &mut second, COL_HEADERS, 3, &mut progress);
    assert_eq!(progress.ticks(), 10);
    assert_eq!(first.column_len(COL_HEADERS), 5);
    assert_eq!(second.column_len(COL_HEADERS), 5);
    for i in 0..5u8 {
        assert_eq!(first.get(COL_HEADERS, &vec![i]), second.get(COL_HEADERS, &vec![i]));
        assert_eq!(first.get(COL_HEADERS, &vec![i]), source.get(COL_HEADERS, &vec![i]));
    }
    assert_eq!(first.get(COL_HEADERS, &vec![2]), Some(vec![7]));
    assert_eq!(first.column_len(COL_STATE), 0);
}

#[test]
fn no_best_block_skips_derivation() {
    let mut source = Database::new(STORE_SLOTS);
    source.put(COL_STATE, h(1), vec![1, 2, 3]);
    source.put(COL_DEFAULT, b"meta".to_vec(), vec![9]);
    let mut dest = Database::new(STORE_SLOTS);
    let mut migration = ToV10::new();
    assert_eq!(migration.columns(), Some(5));
    for col in (0..NUM_COLUMNS as u32).map(Some).chain(std::iter::once(None)) {
        let step = migration.migrate(&source, &config(), &mut dest, col);
        assert!(matches!(step, Ok(Step::Done)));
    }
    assert_eq!(dest.get(COL_STATE, &h(1)), Some(vec![1, 2, 3]));
    assert_eq!(dest.column_len(COL_STATE), 1);
    assert_eq!(dest.get(COL_DEFAULT, &b"meta".to_vec()), Some(vec![9]));
    assert_eq!(dest.column_len(COL_DEFAULT), 1);
}

#[test]
fn best_block_without_header_is_corrupted() {
    let mut source = Database::new(STORE_SLOTS);
    source.put(COL_EXTRA, b"best".to_vec(), h(8));
    let mut dest = Database::new(STORE_SLOTS);
    let mut migration = ToV10::new();
    let step = migration.migrate(&source, &config(), &mut dest, Some(COL_STATE as u32));
    assert!(matches!(step, Err(MigrationError::Corrupted(_))));
    assert_eq!(dest.column_len(COL_DEFAULT), 0);
    assert_eq!(dest.column_len(COL_STATE), 0);
    let extra = migration.migrate(&source, &config(), &mut dest, Some(COL_EXTRA as u32));
    assert!(matches!(extra, Ok(Step::Done)));
    assert_eq!(dest.get(COL_EXTRA, &b"best".to_vec()), Some(h(8)));
}

#[test]
fn best_block_with_malformed_header_is_corrupted() {
    let mut source = Database::new(STORE_SLOTS);
    source.put(COL_EXTRA, b"best".to_vec(), h(8));
    source.put(COL_HEADERS, h(8), vec![0x01]);
    assert!(matches!(best_state_root(&source), Err(MigrationError::Corrupted(_))));
}

#[test]
fn best_block_state_root_is_found() {
    let mut source = Database::new(STORE_SLOTS);
    source.put(COL_EXTRA, b"best".to_vec(), h(8));
    source.put(COL_HEADERS, h(8), header_with_root(&h(50)));
    match best_state_root(&source) {
        Ok(Some(root)) => assert_eq!(root, h(50)),
        _ => panic!("state root expected"),
    }
    let mut dest = Database::new(STORE_SLOTS);
    let mut migration = ToV10::new();
    match migration.migrate(&source, &config(), &mut dest, Some(COL_STATE as u32)) {
        Ok(Step::ReadTrie(root)) => assert_eq!(root, h(50)),
        _ => panic!("trie read expected"),
    }
}

#[test]
fn bloom_has_no_false_negatives() {
    let items: Vec<Result<TrieLeaf, MissingNode>> =
        (0..40u8).map(|i| leaf(h(i.wrapping_mul(11)), account(&empty_code()))).collect();
    let bloom = match account_bloom(&items) {
        Ok(b) => b,
        Err(_) => panic!("bloom expected"),
    };
    for i in 0..40u8 {
        assert!(bloom.contains(&h(i.wrapping_mul(11))));
    }
    let bytes = bloom.to_bytes();
    assert_eq!(bytes.len(), 16384);
    assert!(bytes.iter().any(|b| *b != 0));
}

#[test]
fn bloom_bit_positions() {
    let mut key = vec![0u8; 32];
    key[2] = 1;
    key[5] = 9;
    key[8] = 16;
    let bloom = match account_bloom(&vec![leaf(key.clone(), account(&empty_code()))]) {
        Ok(b) => b,
        Err(_) => panic!("bloom expected"),
    };
    let bytes = bloom.to_bytes();
    let mut expected = vec![0u8; 16384];
    expected[16383] |= 1 << 1;
    expected[16382] |= 1 << 1;
    expected[16381] |= 1 << 0;
    assert_eq!(bytes, expected);
}

#[test]
fn bloom_written_by_finish() {
    let items = vec![leaf(h(1), account(&empty_code())), leaf(h(2), account(&empty_code()))];
    let mut dest = Database::new(STORE_SLOTS);
    let mut migration = ToV10::new();
    assert!(migration.finish(&items, &mut dest).is_ok());
    let stored = dest.get(COL_DEFAULT, &b"accounts_bloom".to_vec()).expect("bloom stored");
    assert_eq!(stored.len(), 16384);
    assert_eq!(migration.version(), 10);
    assert_eq!(migration.columns(), Some(5));
}

#[test]
fn missing_trie_node_writes_no_bloom() {
    let items = vec![leaf(h(1), account(&empty_code())), Err(MissingNode { hash: h(4) })];
    let mut dest = Database::new(STORE_SLOTS);
    let mut migration = ToV10::new();
    assert!(matches!(migration.finish(&items, &mut dest), Err(MigrationError::Corrupted(_))));
    assert_eq!(dest.column_len(COL_DEFAULT), 0);
}

#[test]
fn short_leaf_key_is_corrupted() {
    let items = vec![leaf(vec![1, 2, 3], account(&empty_code()))];
    assert!(matches!(account_bloom(&items), Err(MigrationError::Corrupted(_))));
}

#[test]
fn code_size_entry_holds_code_length() {
    let address = h(20);
    let code_hash = h(77);
    let mut source = Database::new(STORE_SLOTS);
    source.put(COL_STATE, combine_key(&address, &code_hash), vec![0xab; 200]);
    let items = vec![leaf(address.clone(), account(&code_hash))];
    let mut dest = Database::new(STORE_SLOTS);
    let mut migration = ToCodeSize::new(11);
    assert!(migration.finish(&source, &items, &config(), &mut dest).is_ok());
    let size_key = combine_key(&address, &size_sentinel());
    let stored = dest.get(COL_STATE, &size_key).expect("size entry");
    assert_eq!(stored, vec![0x81, 200]);
    assert_eq!(rlp::decode::<u64>(&stored).unwrap(), 200);
    assert_eq!(migration.version(), 11);
    assert_eq!(migration.columns(), Some(5));
}

#[test]
fn missing_code_is_corrupted() {
    let items = vec![leaf(h(20), account(&h(77)))];
    let source = Database::new(STORE_SLOTS);
    let mut dest = Database::new(STORE_SLOTS);
    let mut migration = ToCodeSize::new(11);
    let r = migration.finish(&source, &items, &config(), &mut dest);
    assert!(matches!(r, Err(MigrationError::Corrupted(_))));
}

#[test]
fn malformed_account_record_is_corrupted() {
    let items = vec![leaf(h(20), vec![0x05])];
    let source = Database::new(STORE_SLOTS);
    let mut dest = Database::new(STORE_SLOTS);
    let mut migration = ToCodeSize::new(11);
    let r = migration.finish(&source, &items, &config(), &mut dest);
    assert!(matches!(r, Err(MigrationError::Corrupted(_))));
}

#[test]
fn end_to_end_code_sizes() {
    let best = h(100);
    let root = h(101);
    let x = h(30);
    let y = h(31);
    let c = h(32);
    let mut source = Database::new(STORE_SLOTS);
    source.put(COL_EXTRA, b"best".to_vec(), best.clone());
    source.put(COL_HEADERS, best.clone(), header_with_root(&root));
    source.put(COL_STATE, root.clone(), vec![0xc0]);
    source.put(COL_STATE, combine_key(&y, &c), vec![0x60; 42]);
    let mut dest = Database::new(STORE_SLOTS);
    let mut migration = ToCodeSize::new(11);
    let mut trie_root = None;
    for col in (0..NUM_COLUMNS as u32).map(Some).chain(std::iter::once(None)) {
        match migration.migrate(&source, &config(), &mut dest, col) {
            Ok(Step::Done) => {},
            Ok(Step::ReadTrie(r)) => trie_root = Some(r),
            Err(_) => panic!("migration failed"),
        }
    }
    assert_eq!(trie_root, Some(root.clone()));
    let items = vec![leaf(x.clone(), account(&empty_code())), leaf(y.clone(), account(&c))];
    assert!(migration.finish(&source, &items, &config(), &mut dest).is_ok());
    let y_size = dest.get(COL_STATE, &combine_key(&y, &size_sentinel())).expect("size of y");
    assert_eq!(y_size, vec![42]);
    assert_eq!(rlp::decode::<u64>(&y_size).unwrap(), 42);
    assert_eq!(dest.get(COL_STATE, &combine_key(&x, &size_sentinel())), None);
    assert_eq!(dest.column_len(COL_STATE), 3);
    assert_eq!(dest.get(COL_HEADERS, &best), Some(header_with_root(&root)));
}

#[test]
fn batch_commits_when_full() {
    let mut dest = Database::new(STORE_SLOTS);
    let mut batch = Batch::new(COL_STATE, 2);
    batch.insert(vec![1], vec![10], &mut dest);
    assert_eq!(dest.get(COL_STATE, &vec![1]), None);
    assert_eq!(batch.pending_len(), 1);
    batch.insert(vec![2], vec![20], &mut dest);
    assert_eq!(batch.pending_len(), 0);
    assert_eq!(dest.get(COL_STATE, &vec![1]), Some(vec![10]));
    assert_eq!(dest.get(COL_STATE, &vec![2]), Some(vec![20]));
    batch.insert(vec![1], vec![11], &mut dest);
    assert_eq!(dest.get(COL_STATE, &vec![1]), Some(vec![10]));
    batch.commit(&mut dest);
    assert_eq!(dest.get(COL_STATE, &vec![1]), Some(vec![11]));
    assert_eq!(dest.column_len(COL_STATE), 2);
}

#[test]
fn open_dapp_builds_url() {
    let rpc = HttpConfiguration { interface: "127.0.0.1".to_string(), port: 8545 };
    let on = DappsConfiguration { enabled: true };
    assert_eq!(open_dapp(&on, &rpc, "wallet"), Ok("http://127.0.0.1:8545/wallet/".to_string()));
    let off = DappsConfiguration { enabled: false };
    assert_eq!(
        open_dapp(&off, &rpc, "wallet"),
        Err("Cannot use DAPP command with Dapps turned off.".to_string())
    );
}

#[test]
fn lookups_read_one_column() {
    let mut db = Database::new(STORE_SLOTS);
    db.put(COL_STATE, h(1), vec![1]);
    db.put(COL_HEADERS, h(2), vec![2]);
    let borrowed = HashLookup::new(&db, COL_STATE);
    assert_eq!(borrowed.lookup(&h(1)), Some(vec![1]));
    assert_eq!(borrowed.lookup(&h(2)), None);
    let shared = SharedHashLookup::new(std::sync::Arc::new(db), COL_HEADERS);
    assert_eq!(shared.lookup(&h(2)), Some(vec![2]));
    assert_eq!(shared.lookup(&h(1)), None);
}

#[test]
fn code_sizes_through_shared_lookup() {
    let address = h(40);
    let code_hash = h(41);
    let mut source = Database::new(STORE_SLOTS);
    source.put(COL_STATE, combine_key(&address, &code_hash), vec![1; 5]);
    let shared = SharedHashLookup::new(std::sync::Arc::new(source), COL_STATE);
    let mut dest = Database::new(STORE_SLOTS);
    let items = vec![leaf(address.clone(), account(&code_hash))];
    assert!(write_code_sizes(&shared, &items, 1, &mut dest).is_ok());
    assert_eq!(dest.get(COL_STATE, &combine_key(&address, &size_sentinel())), Some(vec![5]));
}

#[test]
fn empty_code_size_encodes_as_empty_string() {
    let address = h(50);
    let code_hash = h(51);
    let mut source = Database::new(STORE_SLOTS);
    source.put(COL_STATE, combine_key(&address, &code_hash), vec![]);
    let items = vec![leaf(address.clone(), account(&code_hash))];
    let mut dest = Database::new(STORE_SLOTS);
    let mut migration = ToCodeSize::new(11);
    assert!(migration.finish(&source, &items, &config(), &mut dest).is_ok());
    let stored = dest.get(COL_STATE, &combine_key(&address, &size_sentinel())).expect("size entry");
    assert_eq!(stored, vec![0x80]);
}

#[test]
fn run_plan_follows_settings() {
    let ui_conf = UiConfiguration { enabled: true, info_page_only: false };
    let dapps = DappsConfiguration { enabled: true };
    let plan = plan_run(&ui_conf, true, &dapps, false);
    assert!(plan.warn_deprecated_ui);
    assert!(plan.probe_running_instance);
    assert!(plan.open_ui);
    assert!(!plan.open_dapp);
    let quiet = UiConfiguration { enabled: true, info_page_only: true };
    let off = DappsConfiguration { enabled: false };
    let plan = plan_run(&quiet, true, &off, true);
    assert!(!plan.warn_deprecated_ui);
    assert!(!plan.probe_running_instance);
    assert!(plan.open_dapp);
}

#[test]
fn ui_refused_when_off() {
    let off = UiConfiguration { enabled: false, info_page_only: false };
    assert_eq!(ui_allowed(&off), Err("Cannot use UI command with UI turned off.".to_string()));
    let on = UiConfiguration { enabled: true, info_page_only: false };
    assert_eq!(ui_allowed(&on), Ok(()));
}

#[test]
fn accounts_agreeing_in_low_bytes_share_a_size_key() {
    let first = h(60);
    let mut second = first.clone();
    second[0] ^= 0xff;
    let code_a = h(61);
    let code_b = h(62);
    let mut source = Database::new(STORE_SLOTS);
    source.put(COL_STATE, combine_key(&first, &code_a), vec![1; 3]);
    source.put(COL_STATE, combine_key(&second, &code_b), vec![1; 4]);
    let items = vec![leaf(first.clone(), account(&code_a)), leaf(second.clone(), account(&code_b))];
    let mut dest = Database::new(STORE_SLOTS);
    let mut migration = ToCodeSize::new(11);
    assert!(migration.finish(&source, &items, &config(), &mut dest).is_ok());
    let first_key = combine_key(&first, &size_sentinel());
    assert_eq!(first_key, combine_key(&second, &size_sentinel()));
    assert_eq!(dest.get(COL_STATE, &first_key), Some(vec![4]));
}
