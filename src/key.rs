//! Per-account key mangling inside the shared state column.
use vstd::prelude::*;

verus! {

/// Length in bytes of a 256-bit hash.
pub const HASH_LEN: usize = 32;

/// Number of high-order bytes of a key that mangling leaves untouched.
pub const KEPT_PREFIX_LEN: usize = 12;

/// A byte string of the length of a 256-bit hash.
pub open spec fn is_hash(h: Seq<u8>) -> bool {
    h.len() == HASH_LEN as nat
}

/// The mangled key: the first twelve bytes of `key` as they are, each later
/// byte XORed with the byte of `address_hash` at the same position.
pub open spec fn combined(address_hash: Seq<u8>, key: Seq<u8>) -> Seq<u8> {
    Seq::new(
        HASH_LEN as nat,
        |i: int|
            if i < KEPT_PREFIX_LEN as int {
                key[i]
            } else {
                key[i] ^ address_hash[i]
            },
    )
}

/// Mangles `key` with `address_hash`, so that secondary entries of different
/// accounts for the same logical key never share a key in the state column.
pub fn combine_key(address_hash: &Vec<u8>, key: &Vec<u8>) -> (r: Vec<u8>)
    requires
        is_hash(address_hash@),
        is_hash(key@),
    ensures
        r@ == combined(address_hash@, key@),
{
    let mut r: Vec<u8> = Vec::new();
    let mut i: usize = 0;
    while i < HASH_LEN
        invariant
            i <= HASH_LEN,
            is_hash(address_hash@),
            is_hash(key@),
            r@.len() == i,
            forall|j: int| 0 <= j < i ==> r@[j] == combined(address_hash@, key@)[j],
        decreases HASH_LEN - i,
    {
        if i < KEPT_PREFIX_LEN {
            r.push(key[i]);
        } else {
            r.push(key[i] ^ address_hash[i]);
        }
        i = i + 1;
    }
    assert(r@ =~= combined(address_hash@, key@));
    r
}

/// Mangling twice with the same address hash gives the key back, and the
/// twelve high-order bytes of the key are never changed.
pub proof fn lemma_combine_key_self_inverse(address_hash: Seq<u8>, key: Seq<u8>)
    requires
        is_hash(address_hash),
        is_hash(key),
    ensures
        combined(address_hash, combined(address_hash, key)) == key,
        combined(address_hash, key).subrange(0, KEPT_PREFIX_LEN as int) == key.subrange(
            0,
            KEPT_PREFIX_LEN as int,
        ),
{
    let once = combined(address_hash, key);
    let twice = combined(address_hash, once);
    assert forall|i: int| 0 <= i < HASH_LEN as int implies twice[i] == key[i] by {
        if i >= KEPT_PREFIX_LEN as int {
            let k = key[i];
            let a = address_hash[i];
            assert((k ^ a) ^ a == k) by (bit_vector);
        }
    }
    assert(twice =~= key);
    assert(once.subrange(0, KEPT_PREFIX_LEN as int) =~= key.subrange(0, KEPT_PREFIX_LEN as int));
}

} // verus!
