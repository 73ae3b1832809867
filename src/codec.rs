//! The parts of the RLP encoding that the migrations read and write.
use vstd::prelude::*;

verus! {

/// The payload of item `index` of the RLP list `bytes` (for a nested list, its
/// encoded contents); `None` where `bytes` is not a well-formed list up to
/// that item, the list is shorter, or the item's header is malformed.
pub uninterp spec fn rlp_list_item(bytes: Seq<u8>, index: nat) -> Option<Seq<u8>>;

/// Big-endian bytes of `n` without leading zero bytes (empty for zero).
pub open spec fn minimal_be(n: nat) -> Seq<u8>
    decreases n,
{
    if n == 0 {
        Seq::empty()
    } else {
        minimal_be(n / 256).push((n % 256) as u8)
    }
}

/// The RLP encoding of an unsigned integer: a single byte below 0x80 stands
/// for itself; otherwise a length prefix is followed by the minimal bytes.
pub open spec fn rlp_uint(n: nat) -> Seq<u8> {
    let b = minimal_be(n);
    if b.len() == 1 && b[0] < 0x80 {
        b
    } else {
        seq![(0x80 + b.len()) as u8] + b
    }
}

/// Relies on rlp::Rlp::at and rlp::Rlp::data: the payload of one item of an
/// encoded list, read from the bytes alone.
#[verifier::external_body]
pub(crate) fn list_item(bytes: &Vec<u8>, index: usize) -> (r: Option<Vec<u8>>)
    ensures
        match r {
            Some(v) => rlp_list_item(bytes@, index as nat) == Some(v@),
            None => rlp_list_item(bytes@, index as nat) is None,
        },
{
    let list = rlp::Rlp::new(bytes.as_slice());
    match list.at(index) {
        Ok(item) => match item.data() {
            Ok(d) => Some(d.to_vec()),
            Err(_) => None,
        },
        Err(_) => None,
    }
}

/// Relies on rlp::encode for u64, which holds every usize: minimal
/// big-endian bytes under a string header, a single small byte standing for itself.
#[verifier::external_body]
pub(crate) fn encode_uint(n: usize) -> (r: Vec<u8>)
    ensures
        r@ == rlp_uint(n as nat),
{
    rlp::encode(&(n as u64)).to_vec()
}

} // verus!
