//! Hash-addressed, read-only views of one column of a store.
use vstd::prelude::*;
use crate::store::Database;
use std::sync::Arc;

verus! {

/// A read-only mapping from hashes to blobs. A missing key and a failed read
/// of the underlying store both come back as absent.
pub trait HashSource {
    /// The blobs, by hash.
    spec fn contents(&self) -> Map<Seq<u8>, Seq<u8>>;

    /// Whether lookups can be made.
    spec fn ready(&self) -> bool;

    /// The blob stored under `hash`.
    fn lookup(&self, hash: &Vec<u8>) -> (r: Option<Vec<u8>>)
        requires
            self.ready(),
        ensures
            match r {
                Some(v) => self.contents().contains_key(hash@) && v@ == self.contents()[hash@],
                None => !self.contents().contains_key(hash@),
            },
    ;
}

/// Lookup over a column of a borrowed store.
pub struct HashLookup<'a> {
    db: &'a Database,
    column: usize,
}

impl<'a> HashLookup<'a> {
    /// A lookup over column `column` of `db`.
    pub fn new(db: &'a Database, column: usize) -> (r: HashLookup<'a>)
        requires
            db.wf(),
            column < db@.len(),
        ensures
            r.ready(),
            r.contents() == db@[column as int],
    {
        HashLookup { db, column }
    }
}

impl<'a> HashSource for HashLookup<'a> {
    closed spec fn contents(&self) -> Map<Seq<u8>, Seq<u8>> {
        self.db@[self.column as int]
    }

    closed spec fn ready(&self) -> bool {
        self.db.wf() && self.column < self.db@.len()
    }

    fn lookup(&self, hash: &Vec<u8>) -> (r: Option<Vec<u8>>) {
        self.db.get(self.column, hash)
    }
}

/// Lookup over a column of a store whose ownership is shared.
pub struct SharedHashLookup {
    db: Arc<Database>,
    column: usize,
}

impl SharedHashLookup {
    /// A lookup over column `column` of the shared store `db`.
    pub fn new(db: Arc<Database>, column: usize) -> (r: SharedHashLookup)
        requires
            db.wf(),
            column < db@.len(),
        ensures
            r.ready(),
            r.contents() == db@[column as int],
    {
        SharedHashLookup { db, column }
    }
}

impl HashSource for SharedHashLookup {
    closed spec fn contents(&self) -> Map<Seq<u8>, Seq<u8>> {
        self.db@[self.column as int]
    }

    closed spec fn ready(&self) -> bool {
        self.db.wf() && self.column < self.db@.len()
    }

    fn lookup(&self, hash: &Vec<u8>) -> (r: Option<Vec<u8>>) {
        self.db.get(self.column, hash)
    }
}

} // verus!
