use vstd::prelude::*;
use vstd::bytes::*;

use crate::accounts::Address;
use crate::store::{append_bytes, be_word_of, u128_to_be_word};

verus! {

/// The Keccak-256 digest of `data`.
pub uninterp spec fn keccak256_of(data: Seq<u8>) -> Seq<u8>;

/// Relies on sha3's `Keccak256` digest: it depends on the bytes alone and is
/// 32 bytes long.
#[verifier::external_body]
fn keccak256(data: &[u8]) -> (r: Vec<u8>)
    ensures
        r@ == keccak256_of(data@),
        r@.len() == 32,
{
    <sha3::Keccak256 as sha3::Digest>::digest(data).to_vec()
}

/// The EVM address of a host account: the last 20 bytes of the digest of its id.
pub fn near_account_to_evm_address(account: &[u8]) -> (r: Address)
    ensures
        r@ == keccak256_of(account@).skip(12),
{
    let h = keccak256(account);
    let mut a: Address = [0u8; 20];
    let mut i: usize = 0;
    while i < 20
        invariant
            h@.len() == 32,
            i <= 20,
            forall|j: int| 0 <= j < i ==> a@[j] == h@[12 + j],
        decreases 20 - i,
    {
        a.set(i, h[12 + i]);
        i = i + 1;
    }
    assert(a@ =~= h@.skip(12));
    a
}

/// A block height as eight big-endian bytes.
pub open spec fn u64_be(h: u64) -> Seq<u8> {
    Seq::new(8, |i: int| spec_u64_to_le_bytes(h)[7 - i])
}

/// What the hash of block `height` is taken over: the chain id as a 32-byte
/// word, the height, and the engine's account id.
pub open spec fn block_hash_preimage(chain_id: u128, height: u64, account: Seq<u8>) -> Seq<u8> {
    be_word_of(chain_id) + u64_be(height) + account
}

/// The hash of block `height` as the EVM sees it.
pub fn compute_block_hash(chain_id: u128, height: u64, account: &[u8]) -> (r: Vec<u8>)
    ensures
        r@ == keccak256_of(block_hash_preimage(chain_id, height, account@)),
{
    proof {
        lemma_auto_spec_u64_to_from_le_bytes();
    }
    let mut data = u128_to_be_word(chain_id);
    let le = u64_to_le_bytes(height);
    let mut be: Vec<u8> = Vec::new();
    let mut i: usize = 0;
    while i < 8
        invariant
            le@ == spec_u64_to_le_bytes(height),
            le@.len() == 8,
            i <= 8,
            be@.len() == i,
            forall|j: int| 0 <= j < i ==> be@[j] == le@[7 - j],
        decreases 8 - i,
    {
        be.push(le[7 - i]);
        i = i + 1;
    }
    assert(be@ =~= u64_be(height));
    append_bytes(&mut data, be.as_slice());
    append_bytes(&mut data, account);
    keccak256(data.as_slice())
}

} // verus!
