//! A fixed-size bloom filter over account hashes.
use vstd::prelude::*;

verus! {

/// Size of the filter in bytes.
pub const BLOOM_BYTES: usize = 16384;

/// Size of the filter in bits.
pub const BLOOM_BITS: usize = 131072;

/// Number of bit positions derived from each hash.
pub const BLOOM_HASH_COUNT: usize = 3;

/// Number of hash bytes that make up one bit position.
pub const INDEX_BYTES: usize = 3;

/// Bit position `j` of hash `h`: three big-endian bytes of the hash, taken
/// modulo the filter size.
pub open spec fn bloom_index(h: Seq<u8>, j: int) -> int {
    (h[3 * j] as int * 65536 + h[3 * j + 1] as int * 256 + h[3 * j + 2] as int) % (
    BLOOM_BITS as int)
}

/// The byte that holds bit `idx`; bit 0 lives in the last byte.
pub open spec fn byte_of(idx: int) -> int {
    BLOOM_BYTES as int - 1 - idx / 8
}

/// The mask of bit `idx` within its byte.
pub open spec fn mask_of(idx: int) -> u8 {
    (1u8 << ((idx % 8) as u8)) as u8
}

/// Whether bit `idx` is set.
pub open spec fn bit_set(bits: Seq<u8>, idx: int) -> bool {
    bits[byte_of(idx)] & mask_of(idx) != 0
}

/// `bits` with bit `idx` set.
pub open spec fn with_bit(bits: Seq<u8>, idx: int) -> Seq<u8> {
    bits.update(byte_of(idx), bits[byte_of(idx)] | mask_of(idx))
}

/// `bits` with the first `n` positions of `h` set.
pub open spec fn with_hash_prefix(bits: Seq<u8>, h: Seq<u8>, n: nat) -> Seq<u8>
    decreases n,
{
    if n == 0 {
        bits
    } else {
        with_bit(with_hash_prefix(bits, h, (n - 1) as nat), bloom_index(h, n - 1))
    }
}

/// `bits` with every position of `h` set.
pub open spec fn with_hash(bits: Seq<u8>, h: Seq<u8>) -> Seq<u8> {
    with_hash_prefix(bits, h, BLOOM_HASH_COUNT as nat)
}

/// The filter that holds every hash of `hs`, starting from an empty one.
pub open spec fn bloom_of(hs: Seq<Seq<u8>>) -> Seq<u8>
    decreases hs.len(),
{
    if hs.len() == 0 {
        Seq::new(BLOOM_BYTES as nat, |i: int| 0u8)
    } else {
        with_hash(bloom_of(hs.drop_last()), hs.last())
    }
}

/// Whether every position of `h` is set in `bits`.
pub open spec fn tests_positive(bits: Seq<u8>, h: Seq<u8>) -> bool {
    forall|j: int| 0 <= j < BLOOM_HASH_COUNT as int ==> bit_set(bits, #[trigger] bloom_index(h, j))
}

/// Every bit set in `a` is set in `b`.
pub open spec fn bits_within(a: Seq<u8>, b: Seq<u8>) -> bool {
    forall|idx: int| 0 <= idx < BLOOM_BITS as int && #[trigger] bit_set(a, idx) ==> bit_set(b, idx)
}

proof fn lemma_or_keeps(b: u8, m: u8, t: u8)
    requires
        b & t != 0,
    ensures
        (b | m) & t != 0,
{
    assert((b | m) & t != 0) by (bit_vector)
        requires
            b & t != 0,
    ;
}

proof fn lemma_or_sets(b: u8, m: u8)
    requires
        m != 0,
    ensures
        (b | m) & m != 0,
{
    assert((b | m) & m != 0) by (bit_vector)
        requires
            m != 0,
    ;
}

proof fn lemma_mask_nonzero(idx: int)
    requires
        0 <= idx,
    ensures
        mask_of(idx) != 0,
{
    let s = (idx % 8) as u8;
    assert(s < 8);
    assert(s < 8 ==> (1u8 << s) != 0) by (bit_vector);
}

/// Setting a bit sets it and keeps every bit already set.
pub proof fn lemma_with_bit(bits: Seq<u8>, idx: int)
    requires
        bits.len() == BLOOM_BYTES as nat,
        0 <= idx < BLOOM_BITS as int,
    ensures
        with_bit(bits, idx).len() == BLOOM_BYTES as nat,
        bit_set(with_bit(bits, idx), idx),
        bits_within(bits, with_bit(bits, idx)),
{
    let nb = with_bit(bits, idx);
    lemma_mask_nonzero(idx);
    lemma_or_sets(bits[byte_of(idx)], mask_of(idx));
    assert forall|t: int| 0 <= t < BLOOM_BITS as int && #[trigger] bit_set(bits, t) implies bit_set(
        nb,
        t,
    ) by {
        if byte_of(t) == byte_of(idx) {
            lemma_or_keeps(bits[byte_of(t)], mask_of(idx), mask_of(t));
        }
    }
}

/// Adding positions of a hash keeps every bit already set, and sets them.
pub proof fn lemma_with_hash_prefix(bits: Seq<u8>, h: Seq<u8>, n: nat)
    requires
        bits.len() == BLOOM_BYTES as nat,
        h.len() == 32,
        n <= BLOOM_HASH_COUNT,
    ensures
        with_hash_prefix(bits, h, n).len() == BLOOM_BYTES as nat,
        bits_within(bits, with_hash_prefix(bits, h, n)),
        forall|j: int| 0 <= j < n ==> bit_set(with_hash_prefix(bits, h, n), #[trigger] bloom_index(h, j)),
    decreases n,
{
    if n > 0 {
        let prev = with_hash_prefix(bits, h, (n - 1) as nat);
        lemma_with_hash_prefix(bits, h, (n - 1) as nat);
        let idx = bloom_index(h, n - 1);
        lemma_with_bit(prev, idx);
        let next = with_bit(prev, idx);
        assert forall|j: int| 0 <= j < n implies bit_set(next, #[trigger] bloom_index(h, j)) by {
            if j < n - 1 {
                assert(bit_set(prev, bloom_index(h, j)));
            }
        }
    }
}

/// A filter built from a list of hashes tests positive for each of them.
pub proof fn lemma_bloom_no_false_negatives(hs: Seq<Seq<u8>>, i: int)
    requires
        forall|k: int| 0 <= k < hs.len() ==> (#[trigger] hs[k]).len() == 32,
        0 <= i < hs.len(),
    ensures
        bloom_of(hs).len() == BLOOM_BYTES as nat,
        tests_positive(bloom_of(hs), hs[i]),
    decreases hs.len(),
{
    lemma_bloom_len(hs.drop_last());
    let prev = bloom_of(hs.drop_last());
    lemma_with_hash_prefix(prev, hs.last(), BLOOM_HASH_COUNT as nat);
    if i < hs.len() - 1 {
        assert(hs.drop_last()[i] == hs[i]);
        lemma_bloom_no_false_negatives(hs.drop_last(), i);
        assert forall|j: int| 0 <= j < BLOOM_HASH_COUNT as int implies bit_set(
            bloom_of(hs),
            #[trigger] bloom_index(hs[i], j),
        ) by {
            assert(bit_set(prev, bloom_index(hs[i], j)));
        }
    }
}

/// Every filter built this way has the full size.
pub proof fn lemma_bloom_len(hs: Seq<Seq<u8>>)
    requires
        forall|k: int| 0 <= k < hs.len() ==> (#[trigger] hs[k]).len() == 32,
    ensures
        bloom_of(hs).len() == BLOOM_BYTES as nat,
    decreases hs.len(),
{
    if hs.len() > 0 {
        lemma_bloom_len(hs.drop_last());
        lemma_with_hash_prefix(bloom_of(hs.drop_last()), hs.last(), BLOOM_HASH_COUNT as nat);
    }
}

/// Filter of account hashes: no account that was added ever tests negative.
pub struct AccountBloom {
    bits: Vec<u8>,
}

impl AccountBloom {
    /// The filter's bytes.
    pub closed spec fn view(&self) -> Seq<u8> {
        self.bits@
    }

    /// An empty filter.
    pub fn new() -> (r: AccountBloom)
        ensures
            r@ == bloom_of(Seq::empty()),
    {
        let mut bits: Vec<u8> = Vec::new();
        let mut i: usize = 0;
        while i < BLOOM_BYTES
            invariant
                i <= BLOOM_BYTES,
                bits@.len() == i,
                forall|k: int| 0 <= k < i ==> bits@[k] == 0u8,
            decreases BLOOM_BYTES - i,
        {
            bits.push(0u8);
            i = i + 1;
        }
        let r = AccountBloom { bits };
        assert(r@ =~= bloom_of(Seq::empty()));
        r
    }

    fn set_bit(&mut self, idx: usize)
        requires
            old(self)@.len() == BLOOM_BYTES as nat,
            idx < BLOOM_BITS,
        ensures
            final(self)@ == with_bit(old(self)@, idx as int),
    {
        let byte = BLOOM_BYTES - 1 - idx / 8;
        let mask: u8 = 1u8 << ((idx % 8) as u8);
        let b = self.bits[byte];
        self.bits[byte] = b | mask;
        assert(self@ =~= with_bit(old(self)@, idx as int));
    }

    /// Bit position `j` of `hash`.
    fn index(hash: &Vec<u8>, j: usize) -> (r: usize)
        requires
            hash@.len() == 32,
            j < BLOOM_HASH_COUNT,
        ensures
            r == bloom_index(hash@, j as int),
            r < BLOOM_BITS,
    {
        let p = INDEX_BYTES * j;
        let v: usize = (hash[p] as usize) * 65536 + (hash[p + 1] as usize) * 256 + (hash[p + 2] as usize);
        v % BLOOM_BITS
    }

    /// Sets every bit position of `hash`.
    pub fn accrue(&mut self, hash: &Vec<u8>)
        requires
            old(self)@.len() == BLOOM_BYTES as nat,
            hash@.len() == 32,
        ensures
            final(self)@ == with_hash(old(self)@, hash@),
    {
        let mut j: usize = 0;
        while j < BLOOM_HASH_COUNT
            invariant
                j <= BLOOM_HASH_COUNT,
                hash@.len() == 32,
                old(self)@.len() == BLOOM_BYTES as nat,
                self@ == with_hash_prefix(old(self)@, hash@, j as nat),
            decreases BLOOM_HASH_COUNT - j,
        {
            proof {
                lemma_with_hash_prefix(old(self)@, hash@, j as nat);
            }
            let idx = Self::index(hash, j);
            self.set_bit(idx);
            j = j + 1;
        }
    }

    /// Whether every bit position of `hash` is set.
    pub fn contains(&self, hash: &Vec<u8>) -> (r: bool)
        requires
            self@.len() == BLOOM_BYTES as nat,
            hash@.len() == 32,
        ensures
            r == tests_positive(self@, hash@),
    {
        let mut j: usize = 0;
        while j < BLOOM_HASH_COUNT
            invariant
                j <= BLOOM_HASH_COUNT,
                hash@.len() == 32,
                self@.len() == BLOOM_BYTES as nat,
                forall|k: int| 0 <= k < j ==> bit_set(self@, #[trigger] bloom_index(hash@, k)),
            decreases BLOOM_HASH_COUNT - j,
        {
            let idx = Self::index(hash, j);
            let byte = BLOOM_BYTES - 1 - idx / 8;
            let mask: u8 = 1u8 << ((idx % 8) as u8);
            if self.bits[byte] & mask == 0 {
                return false;
            }
            j = j + 1;
        }
        true
    }

    /// The filter's bytes, for storing.
    pub fn to_bytes(&self) -> (r: Vec<u8>)
        ensures
            r@ == self@,
    {
        let r = self.bits.clone();
        assert(r@ =~= self@);
        r
    }
}

} // verus!
