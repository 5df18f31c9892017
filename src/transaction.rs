use vstd::prelude::*;

use crate::accounts::{Address, H256};

verus! {

pub const GAS_TRANSACTION_CALL: u64 = 21_000;
pub const GAS_TRANSACTION_CREATE: u64 = 53_000;
pub const GAS_TRANSACTION_ZERO_DATA: u64 = 4;
pub const GAS_TRANSACTION_NON_ZERO_DATA: u64 = 16;
pub const GAS_ACCESS_LIST_ADDRESS: u64 = 2_400;
pub const GAS_ACCESS_LIST_STORAGE_KEY: u64 = 1_900;

/// An address and the storage slots of it that a transaction declares up front.
pub struct AccessTuple {
    pub address: Address,
    pub storage_keys: Vec<H256>,
}

/// A signed transaction of any kind, in one normalised shape.
pub struct NormalizedEthTransaction {
    /// The recovered signer; `None` where recovery failed.
    pub address: Option<Address>,
    /// The chain id that the signature commits to, if any.
    pub chain_id: Option<u64>,
    pub nonce: u128,
    pub gas_limit: u128,
    pub max_priority_fee_per_gas: u128,
    pub max_fee_per_gas: u128,
    /// The callee; `None` for a contract deployment.
    pub to: Option<Address>,
    pub value: u128,
    pub data: Vec<u8>,
    pub access_list: Vec<AccessTuple>,
}

pub open spec fn zero_bytes(s: Seq<u8>) -> nat
    decreases s.len(),
{
    if s.len() == 0 {
        0
    } else {
        zero_bytes(s.drop_last()) + if s.last() == 0 {
            1nat
        } else {
            0nat
        }
    }
}

pub open spec fn access_list_gas(l: Seq<AccessTuple>) -> nat
    decreases l.len(),
{
    if l.len() == 0 {
        0
    } else {
        (access_list_gas(l.drop_last()) + GAS_ACCESS_LIST_ADDRESS + GAS_ACCESS_LIST_STORAGE_KEY
            * l.last().storage_keys@.len()) as nat
    }
}

/// The gas that a transaction costs before any code runs.
pub open spec fn intrinsic_gas_of(tx: NormalizedEthTransaction) -> nat {
    let base: nat = if tx.to.is_none() {
        GAS_TRANSACTION_CREATE as nat
    } else {
        GAS_TRANSACTION_CALL as nat
    };
    let zeros = zero_bytes(tx.data@);
    (base + GAS_TRANSACTION_ZERO_DATA * zeros + GAS_TRANSACTION_NON_ZERO_DATA * (tx.data@.len()
        - zeros) + access_list_gas(tx.access_list@)) as nat
}

proof fn lemma_access_list_gas_monotone(l: Seq<AccessTuple>, i: int)
    requires
        0 <= i <= l.len(),
    ensures
        access_list_gas(l.take(i)) <= access_list_gas(l),
    decreases l.len() - i,
{
    if i < l.len() {
        lemma_access_list_gas_monotone(l, i + 1);
        assert(l.take(i + 1).drop_last() =~= l.take(i));
    } else {
        assert(l.take(i) =~= l);
    }
}

impl NormalizedEthTransaction {
    /// The intrinsic gas, or `None` where it does not fit in 64 bits.
    pub fn intrinsic_gas(&self) -> (r: Option<u64>)
        ensures
            intrinsic_gas_of(*self) <= u64::MAX ==> r == Some(intrinsic_gas_of(*self) as u64),
            intrinsic_gas_of(*self) > u64::MAX ==> r.is_none(),
    {
        let mut zeros: usize = 0;
        let mut i: usize = 0;
        while i < self.data.len()
            invariant
                i <= self.data@.len(),
                zeros == zero_bytes(self.data@.take(i as int)),
                zeros <= i,
            decreases self.data@.len() - i,
        {
            assert(self.data@.take(i + 1).drop_last() =~= self.data@.take(i as int));
            if self.data[i] == 0 {
                zeros = zeros + 1;
            }
            i = i + 1;
        }
        assert(self.data@.take(i as int) =~= self.data@);
        let base: u128 = if self.to.is_none() {
            GAS_TRANSACTION_CREATE as u128
        } else {
            GAS_TRANSACTION_CALL as u128
        };
        let mut total: u128 = base + (GAS_TRANSACTION_ZERO_DATA as u128) * (zeros as u128)
            + (GAS_TRANSACTION_NON_ZERO_DATA as u128) * ((self.data.len() - zeros) as u128);
        let ghost fixed = total;
        proof {
            lemma_access_list_gas_monotone(self.access_list@, 0);
            assert(self.access_list@.take(0) =~= Seq::<AccessTuple>::empty());
        }
        if total > u64::MAX as u128 {
            return None;
        }
        let mut k: usize = 0;
        while k < self.access_list.len()
            invariant
                k <= self.access_list@.len(),
                total == fixed + access_list_gas(self.access_list@.take(k as int)),
                fixed + access_list_gas(self.access_list@) == intrinsic_gas_of(*self),
                total <= u64::MAX,
            decreases self.access_list@.len() - k,
        {
            proof {
                lemma_access_list_gas_monotone(self.access_list@, k + 1);
                assert(self.access_list@.take(k + 1).drop_last() =~= self.access_list@.take(
                    k as int,
                ));
            }
            let n = self.access_list[k].storage_keys.len() as u128;
            let step: u128 = (GAS_ACCESS_LIST_ADDRESS as u128) + (GAS_ACCESS_LIST_STORAGE_KEY
                as u128) * n;
            if step > (u64::MAX as u128) - total {
                return None;
            }
            total = total + step;
            k = k + 1;
        }
        assert(self.access_list@.take(k as int) =~= self.access_list@);
        Some(total as u64)
    }
}

} // verus!
