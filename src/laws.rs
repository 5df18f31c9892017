use vstd::prelude::*;
use vstd::bytes::*;

use crate::accounts::{
    storage_wf,
    balance_key, balance_of, code_key, code_of, generation_key, generation_of, is_zero_word,
    nonce_key, nonce_of, slot_value, storage_key, Address,
};
use crate::bridge::{deposited, erc20_for, nep141_for, proof_key, registered, FinishDepositArgs};
use crate::engine::{
    code_stage_key, lemma_key_injective, staged_height, upgrade_outcome, EngineError, EngineState,
};
use crate::store::{be_word_of, lemma_be_word_round_trip, lemma_prefix_distinct, KeyPrefix};
use crate::submit::{
    admission_error, admitted_store, applied, applied_all, credited, effective_gas_price,
    finished_store, is_origin, lemma_applied_wf, out_of_fund, prepaid_of, refund_of, reward_of, signer, write_slots,
    Apply, Charge,
};
use crate::transaction::NormalizedEthTransaction;

verus! {

/// Writing a zero word to a slot leaves no key for it, and the slot reads as zero.
pub proof fn lemma_zero_write_clears_slot(
    m: Map<Seq<u8>, Seq<u8>>,
    a: Seq<u8>,
    g: u32,
    slot: Seq<u8>,
)
    ensures
        ({
            let k = storage_key(a, g, slot);
            let m2 = m.remove(k);
            &&& !m2.contains_key(k)
            &&& slot_value(m2, k) == Seq::new(32, |i: int| 0u8)
            &&& is_zero_word(slot_value(m2, k))
        }),
{
}

/// After a host token is associated with a contract, each side looks up the
/// other, and associating the host token again fails.
pub proof fn lemma_token_map_round_trip(
    m: Map<Seq<u8>, Seq<u8>>,
    a: Seq<u8>,
    n: Seq<u8>,
    other: Seq<u8>,
)
    requires
        registered(m, a, n).is_ok(),
    ensures
        erc20_for(registered(m, a, n).unwrap(), n) == Some(a),
        nep141_for(registered(m, a, n).unwrap(), a) == Some(n),
        registered(registered(m, a, n).unwrap(), other, n) == Err::<
            Map<Seq<u8>, Seq<u8>>,
            EngineError,
        >(EngineError::AlreadyRegistered),
{
    lemma_prefix_distinct(KeyPrefix::Nep141Erc20Map, KeyPrefix::Erc20Nep141Map, n, a);
}

/// A deposit whose proof was consumed before mints nothing.
pub proof fn lemma_consumed_proof_does_not_mint(m: Map<Seq<u8>, Seq<u8>>, args: FinishDepositArgs)
    requires
        m.contains_key(proof_key(args.proof_key@)),
    ensures
        deposited(m, args) == Err::<Map<Seq<u8>, Seq<u8>>, EngineError>(
            EngineError::ProofAlreadyUsed,
        ),
{
}

/// A staged upgrade is refused up to the staged height plus the delay, is
/// granted after it, and is granted only once.
pub proof fn lemma_upgrade_window(
    st: EngineState,
    m: Map<Seq<u8>, Seq<u8>>,
    height: u64,
    later: u64,
)
    requires
        staged_height(m).is_ok(),
        m.contains_key(crate::engine::staged_code_key()),
    ensures
        height <= staged_height(m)->Ok_0 + st.upgrade_delay_blocks ==> upgrade_outcome(
            Some(st),
            m,
            height,
        ) == Err::<Seq<u8>, EngineError>(EngineError::TooEarly),
        height > staged_height(m)->Ok_0 + st.upgrade_delay_blocks ==> upgrade_outcome(
            Some(st),
            m,
            height,
        ) == Ok::<Seq<u8>, EngineError>(m[crate::engine::staged_code_key()]),
        upgrade_outcome(Some(st), m, height).is_ok() ==> upgrade_outcome(
            Some(st),
            m.remove(code_stage_key()),
            later,
        ) == Err::<Seq<u8>, EngineError>(EngineError::NoUpgrade),
{
}

/// A transaction signed for another chain is rejected before any change.
pub proof fn lemma_wrong_chain_rejected(
    st: EngineState,
    m: Map<Seq<u8>, Seq<u8>>,
    tx: NormalizedEthTransaction,
)
    requires
        tx.chain_id.is_some(),
        tx.chain_id.unwrap() as u128 != st.chain_id,
    ensures
        admission_error(Some(st), m, tx) == Some(EngineError::InvalidChainId),
{
}

/// Slot writes leave every key outside the storage table as it was.
proof fn lemma_write_slots_keeps(
    m: Map<Seq<u8>, Seq<u8>>,
    a: Seq<u8>,
    g: u32,
    w: Seq<(crate::accounts::H256, crate::accounts::H256)>,
    p: KeyPrefix,
    body: Seq<u8>,
)
    requires
        p != KeyPrefix::Storage,
    ensures
        ({
            let k = crate::store::key_of(p, body);
            let m2 = write_slots(m, a, g, w);
            &&& m2.contains_key(k) == m.contains_key(k)
            &&& m.contains_key(k) ==> m2[k] == m[k]
        }),
    decreases w.len(),
{
    if w.len() > 0 {
        lemma_write_slots_keeps(m, a, g, w.drop_last(), p, body);
        lemma_prefix_distinct(
            p,
            KeyPrefix::Storage,
            body,
            a + spec_u32_to_le_bytes(g) + w.last().0@,
        );
    }
}

/// Keys `k` that two key spaces hold alike.
pub open spec fn same_at(m: Map<Seq<u8>, Seq<u8>>, m2: Map<Seq<u8>, Seq<u8>>, k: Seq<u8>) -> bool {
    &&& m2.contains_key(k) == m.contains_key(k)
    &&& m.contains_key(k) ==> m2[k] == m[k]
}

/// A committed state change leaves the nonce of the origin as it was.
proof fn lemma_applied_keeps_origin_nonce(m: Map<Seq<u8>, Seq<u8>>, ap: Apply, o: Address)
    requires
        applied(m, ap, Some(o)).is_ok(),
    ensures
        same_at(m, applied(m, ap, Some(o)).unwrap(), nonce_key(o@)),
{
    let k = nonce_key(o@);
    match ap {
        Apply::Modify { address, balance, nonce, code, storage, reset_storage } => {
            let a = address@;
            lemma_prefix_distinct(KeyPrefix::Nonce, KeyPrefix::Balance, o@, a);
            lemma_prefix_distinct(KeyPrefix::Nonce, KeyPrefix::Code, o@, a);
            lemma_prefix_distinct(KeyPrefix::Nonce, KeyPrefix::Generation, o@, a);
            if !is_origin(Some(o), a) {
                lemma_key_injective(KeyPrefix::Nonce, o@, a);
            }
            let m1 = m.insert(balance_key(a), be_word_of(balance));
            let m2 = if is_origin(Some(o), a) {
                m1
            } else {
                m1.insert(nonce_key(a), be_word_of(nonce))
            };
            let m3 = match code {
                Some(c) => m2.insert(code_key(a), c@),
                None => m2,
            };
            let g = generation_of(m3, a).unwrap();
            if reset_storage {
                let m4 = m3.insert(generation_key(a), spec_u32_to_le_bytes((g + 1) as u32));
                lemma_write_slots_keeps(m4, a, (g + 1) as u32, storage@, KeyPrefix::Nonce, o@);
            } else {
                lemma_write_slots_keeps(m3, a, g, storage@, KeyPrefix::Nonce, o@);
            }
        },
        Apply::Delete { address } => {
            let a = address@;
            lemma_prefix_distinct(KeyPrefix::Nonce, KeyPrefix::Balance, o@, a);
            lemma_prefix_distinct(KeyPrefix::Nonce, KeyPrefix::Code, o@, a);
            lemma_prefix_distinct(KeyPrefix::Nonce, KeyPrefix::Generation, o@, a);
            if !is_origin(Some(o), a) {
                lemma_key_injective(KeyPrefix::Nonce, o@, a);
            }
        },
    }
}

/// Committed state changes leave the nonce of the origin as it was.
proof fn lemma_applied_all_keeps_origin_nonce(m: Map<Seq<u8>, Seq<u8>>, aps: Seq<Apply>, o: Address)
    requires
        applied_all(m, aps, Some(o)).is_ok(),
    ensures
        same_at(m, applied_all(m, aps, Some(o)).unwrap(), nonce_key(o@)),
    decreases aps.len(),
{
    if aps.len() > 0 {
        lemma_applied_all_keeps_origin_nonce(m, aps.drop_last(), o);
        let m0 = applied_all(m, aps.drop_last(), Some(o)).unwrap();
        lemma_applied_keeps_origin_nonce(m0, aps.last(), o);
    }
}

/// A credit touches the credited balance alone.
proof fn lemma_credited_keeps(m: Map<Seq<u8>, Seq<u8>>, a: Seq<u8>, amount: u128, k: Seq<u8>)
    requires
        credited(m, a, amount).is_ok(),
        k != balance_key(a),
    ensures
        same_at(m, credited(m, a, amount).unwrap(), k),
{
}

/// Every accepted transaction advances its sender's nonce by exactly one,
/// whether it runs out of funds, reverts or succeeds.
pub proof fn lemma_submit_advances_nonce(
    st: Option<EngineState>,
    m: Map<Seq<u8>, Seq<u8>>,
    tx: NormalizedEthTransaction,
    c: Charge,
    succeeded: bool,
    gas_used: u64,
    aps: Seq<Apply>,
    relayer: Seq<u8>,
)
    requires
        admission_error(st, m, tx).is_none(),
        c.sender == tx.address.unwrap(),
    ensures
        nonce_of(admitted_store(m, tx), signer(tx)) == Some((tx.nonce + 1) as u128),
        finished_store(admitted_store(m, tx), c, succeeded, gas_used, aps, relayer).is_ok()
            ==> nonce_of(
            finished_store(admitted_store(m, tx), c, succeeded, gas_used, aps, relayer).unwrap(),
            signer(tx),
        ) == Some((tx.nonce + 1) as u128),
{
    let s = signer(tx);
    let k = nonce_key(s);
    lemma_be_word_round_trip((tx.nonce + 1) as u128);
    lemma_prefix_distinct(KeyPrefix::Nonce, KeyPrefix::Balance, s, s);
    let m0 = admitted_store(m, tx);
    assert(m0.contains_key(k) && m0[k] == be_word_of((tx.nonce + 1) as u128));
    let f = finished_store(m0, c, succeeded, gas_used, aps, relayer);
    if f.is_ok() {
        let m1 = if succeeded {
            applied_all(m0, aps, Some(c.sender)).unwrap()
        } else {
            m0
        };
        if succeeded {
            lemma_applied_all_keeps_origin_nonce(m0, aps, c.sender);
        }
        let m2 = credited(m1, s, refund_of(c, gas_used) as u128).unwrap();
        lemma_credited_keeps(m1, s, refund_of(c, gas_used) as u128, k);
        lemma_prefix_distinct(KeyPrefix::Nonce, KeyPrefix::Balance, s, relayer);
        lemma_credited_keeps(m2, relayer, reward_of(c, gas_used) as u128, k);
    }
}

/// For an admitted transaction that did not run out of funds, the sender
/// pays the value that the execution moved out of its account plus the used
/// gas at the effective price; the unused gas comes back.
pub proof fn lemma_submit_charges_sender(
    st: Option<EngineState>,
    m: Map<Seq<u8>, Seq<u8>>,
    tx: NormalizedEthTransaction,
    c: Charge,
    succeeded: bool,
    gas_used: u64,
    aps: Seq<Apply>,
    relayer: Seq<u8>,
    value_sent: u128,
)
    requires
        admission_error(st, m, tx).is_none(),
        !out_of_fund(m, tx),
        c.sender == tx.address.unwrap(),
        c.gas_limit == tx.gas_limit,
        c.gas_price == effective_gas_price(tx),
        c.prepaid == prepaid_of(tx),
        relayer != signer(tx),
        !succeeded ==> value_sent == 0,
        succeeded && applied_all(admitted_store(m, tx), aps, Some(c.sender)).is_ok() ==> {
            let after = applied_all(admitted_store(m, tx), aps, Some(c.sender)).unwrap();
            &&& balance_of(after, signer(tx)).is_some()
            &&& balance_of(after, signer(tx)).unwrap() + value_sent == balance_of(
                admitted_store(m, tx),
                signer(tx),
            ).unwrap()
        },
        finished_store(admitted_store(m, tx), c, succeeded, gas_used, aps, relayer).is_ok(),
    ensures
        balance_of(m, signer(tx)).unwrap() - balance_of(
            finished_store(admitted_store(m, tx), c, succeeded, gas_used, aps, relayer).unwrap(),
            signer(tx),
        ).unwrap() == value_sent + gas_used * effective_gas_price(tx),
{
    let s = signer(tx);
    let pre = balance_of(m, s).unwrap();
    let prepaid = prepaid_of(tx);
    let m0 = admitted_store(m, tx);
    lemma_be_word_round_trip((pre - prepaid) as u128);
    lemma_prefix_distinct(KeyPrefix::Balance, KeyPrefix::Nonce, s, s);
    assert(balance_of(m0, s) == Some((pre - prepaid) as u128));
    let m1 = if succeeded {
        applied_all(m0, aps, Some(c.sender)).unwrap()
    } else {
        m0
    };
    let b1 = balance_of(m1, s).unwrap();
    assert(b1 + value_sent == pre - prepaid);
    let gl = c.gas_limit as int;
    let gu = gas_used as int;
    let p = c.gas_price as int;
    assert((gl - gu) * p == gl * p - gu * p) by (nonlinear_arith);
    let refund = refund_of(c, gas_used);
    assert(refund == gl * p - gu * p);
    assert(refund >= 0) by (nonlinear_arith)
        requires
            gl >= gu,
            p >= 0,
            refund == (gl - gu) * p,
    ;
    assert(refund <= u128::MAX) by (nonlinear_arith)
        requires
            gl >= gu,
            gu >= 0,
            p >= 0,
            refund == (gl - gu) * p,
            gl * p <= u128::MAX,
    ;
    let m2 = credited(m1, s, refund as u128).unwrap();
    lemma_be_word_round_trip((b1 + refund) as u128);
    assert(balance_of(m2, s) == Some((b1 + refund) as u128));
    lemma_key_injective(KeyPrefix::Balance, relayer, s);
    lemma_credited_keeps(m2, relayer, reward_of(c, gas_used) as u128, balance_key(s));
}

/// After an account is destroyed, its code is empty, its balance zero, and
/// every slot reads as zero in its current generation: no slot was ever
/// written in the generation it moved to. The storage invariant, which every
/// commit keeps, carries over.
pub proof fn lemma_selfdestruct_clears_account(
    m: Map<Seq<u8>, Seq<u8>>,
    a: Address,
    origin: Option<Address>,
    slot: Seq<u8>,
)
    requires
        storage_wf(m),
        applied(m, Apply::Delete { address: a }, origin).is_ok(),
    ensures
        ({
            let m2 = applied(m, Apply::Delete { address: a }, origin).unwrap();
            let g = generation_of(m2, a@).unwrap();
            &&& code_of(m2, a@) == Seq::<u8>::empty()
            &&& balance_of(m2, a@) == Some(0u128)
            &&& generation_of(m2, a@).is_some()
            &&& g == generation_of(m, a@).unwrap() + 1
            &&& slot_value(m2, storage_key(a@, g, slot)) == Seq::new(32, |i: int| 0u8)
            &&& storage_wf(m2)
        }),
{
    lemma_applied_wf(m, Apply::Delete { address: a }, origin);
    let x = a@;
    lemma_prefix_distinct(KeyPrefix::Generation, KeyPrefix::Nonce, x, x);
    lemma_prefix_distinct(KeyPrefix::Generation, KeyPrefix::Balance, x, x);
    lemma_prefix_distinct(KeyPrefix::Generation, KeyPrefix::Code, x, x);
    lemma_prefix_distinct(KeyPrefix::Code, KeyPrefix::Generation, x, x);
    lemma_prefix_distinct(KeyPrefix::Balance, KeyPrefix::Generation, x, x);
    vstd::bytes::lemma_auto_spec_u32_to_from_le_bytes();
    let g0 = generation_of(m, x).unwrap();
    let m0 = if is_origin(origin, x) {
        m
    } else {
        m.remove(nonce_key(x))
    };
    let m1 = m0.remove(balance_key(x)).remove(code_key(x));
    assert(generation_of(m1, x) == Some(g0));
    let m2 = m1.insert(generation_key(x), spec_u32_to_le_bytes((g0 + 1) as u32));
    assert(generation_of(m2, x) == Some((g0 + 1) as u32));
    let k = storage_key(x, (g0 + 1) as u32, slot);
    if m.contains_key(k) {
        assert(x.len() == 20);
    }
    assert(!m.contains_key(k));
    lemma_prefix_distinct(KeyPrefix::Storage, KeyPrefix::Generation, x + spec_u32_to_le_bytes((g0 + 1) as u32) + slot, x);
    assert(!m2.contains_key(k));
}

/// The two directions of the token map agree: a host token maps to a
/// contract exactly where that contract maps back to it.
pub open spec fn token_map_consistent(m: Map<Seq<u8>, Seq<u8>>) -> bool {
    forall|n: Seq<u8>, a: Seq<u8>|
        #![trigger erc20_for(m, n), nep141_for(m, a)]
        (erc20_for(m, n) == Some(a)) == (nep141_for(m, a) == Some(n))
}

/// A consistent token map is injective both ways.
pub proof fn lemma_token_map_injective(m: Map<Seq<u8>, Seq<u8>>, n1: Seq<u8>, n2: Seq<u8>, a1: Seq<u8>, a2: Seq<u8>)
    requires
        token_map_consistent(m),
    ensures
        erc20_for(m, n1).is_some() && erc20_for(m, n1) == erc20_for(m, n2) ==> n1 == n2,
        nep141_for(m, a1).is_some() && nep141_for(m, a1) == nep141_for(m, a2) ==> a1 == a2,
{
    if erc20_for(m, n1).is_some() && erc20_for(m, n1) == erc20_for(m, n2) {
        let a = erc20_for(m, n1).unwrap();
        assert((erc20_for(m, n1) == Some(a)) == (nep141_for(m, a) == Some(n1)));
        assert((erc20_for(m, n2) == Some(a)) == (nep141_for(m, a) == Some(n2)));
    }
    if nep141_for(m, a1).is_some() && nep141_for(m, a1) == nep141_for(m, a2) {
        let n = nep141_for(m, a1).unwrap();
        assert((erc20_for(m, n) == Some(a1)) == (nep141_for(m, a1) == Some(n)));
        assert((erc20_for(m, n) == Some(a2)) == (nep141_for(m, a2) == Some(n)));
    }
}

/// Registering a token keeps the token map consistent, hence injective both ways.
pub proof fn lemma_register_keeps_token_map_consistent(m: Map<Seq<u8>, Seq<u8>>, a: Seq<u8>, n: Seq<u8>)
    requires
        token_map_consistent(m),
        registered(m, a, n).is_ok(),
    ensures
        token_map_consistent(registered(m, a, n).unwrap()),
{
    let m2 = registered(m, a, n).unwrap();
    assert forall|n2: Seq<u8>, a2: Seq<u8>|
        #![trigger erc20_for(m2, n2), nep141_for(m2, a2)]
        (erc20_for(m2, n2) == Some(a2)) == (nep141_for(m2, a2) == Some(n2)) by {
        lemma_prefix_distinct(KeyPrefix::Nep141Erc20Map, KeyPrefix::Erc20Nep141Map, n2, a);
        lemma_prefix_distinct(KeyPrefix::Erc20Nep141Map, KeyPrefix::Nep141Erc20Map, a2, n);
        if n2 != n {
            lemma_key_injective(KeyPrefix::Nep141Erc20Map, n2, n);
        }
        if a2 != a {
            lemma_key_injective(KeyPrefix::Erc20Nep141Map, a2, a);
        }
        assert((erc20_for(m, n2) == Some(a2)) == (nep141_for(m, a2) == Some(n2)));
        assert((erc20_for(m, n) == Some(a2)) == (nep141_for(m, a2) == Some(n)));
        assert((erc20_for(m, n2) == Some(a)) == (nep141_for(m, a) == Some(n2)));
    }
}

/// Gas accounting moves balance and creates none: for an admitted
/// transaction whose execution committed nothing, what the sender and the
/// relayer hold together is what they held before, and every other balance
/// stays.
pub proof fn lemma_gas_accounting_conserves_balances(
    st: Option<EngineState>,
    m: Map<Seq<u8>, Seq<u8>>,
    tx: NormalizedEthTransaction,
    c: Charge,
    gas_used: u64,
    aps: Seq<Apply>,
    relayer: Seq<u8>,
    other: Seq<u8>,
)
    requires
        admission_error(st, m, tx).is_none(),
        !out_of_fund(m, tx),
        c.sender == tx.address.unwrap(),
        c.gas_limit == tx.gas_limit,
        c.gas_price == effective_gas_price(tx),
        c.prepaid == prepaid_of(tx),
        relayer != signer(tx),
        other != signer(tx),
        other != relayer,
        finished_store(admitted_store(m, tx), c, false, gas_used, aps, relayer).is_ok(),
    ensures
        ({
            let m2 = finished_store(admitted_store(m, tx), c, false, gas_used, aps, relayer).unwrap();
            &&& balance_of(m2, signer(tx)).unwrap() + balance_of(m2, relayer).unwrap()
                == balance_of(m, signer(tx)).unwrap() + balance_of(m, relayer).unwrap()
            &&& balance_of(m2, other) == balance_of(m, other)
        }),
{
    let s = signer(tx);
    let pre = balance_of(m, s).unwrap();
    let prepaid = prepaid_of(tx);
    let m0 = admitted_store(m, tx);
    lemma_be_word_round_trip((pre - prepaid) as u128);
    lemma_prefix_distinct(KeyPrefix::Balance, KeyPrefix::Nonce, s, s);
    lemma_prefix_distinct(KeyPrefix::Balance, KeyPrefix::Nonce, relayer, s);
    lemma_prefix_distinct(KeyPrefix::Balance, KeyPrefix::Nonce, other, s);
    lemma_key_injective(KeyPrefix::Balance, relayer, s);
    lemma_key_injective(KeyPrefix::Balance, other, s);
    lemma_key_injective(KeyPrefix::Balance, other, relayer);
    assert(balance_of(m0, s) == Some((pre - prepaid) as u128));
    assert(balance_of(m0, relayer) == balance_of(m, relayer));
    assert(balance_of(m0, other) == balance_of(m, other));
    let gl = c.gas_limit as int;
    let gu = gas_used as int;
    let p = c.gas_price as int;
    assert((gl - gu) * p + gu * p == gl * p) by (nonlinear_arith);
    assert(gu * p >= 0 && (gl - gu) * p >= 0) by (nonlinear_arith)
        requires
            gl >= gu,
            gu >= 0,
            p >= 0,
    ;
    let refund = refund_of(c, gas_used);
    let reward = reward_of(c, gas_used);
    let m1 = credited(m0, s, refund as u128).unwrap();
    lemma_be_word_round_trip((pre - prepaid + refund) as u128);
    assert(balance_of(m1, s) == Some((pre - prepaid + refund) as u128));
    assert(balance_of(m1, relayer) == balance_of(m, relayer));
    assert(balance_of(m1, other) == balance_of(m, other));
    let r0 = balance_of(m, relayer).unwrap();
    lemma_be_word_round_trip((r0 + reward) as u128);
}

} // verus!
