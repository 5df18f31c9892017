use vstd::prelude::*;
use vstd::bytes::*;

use crate::accounts::{
    lemma_storage_wf_bump, lemma_storage_wf_other_key, lemma_storage_wf_slot, storage_wf,
    balance_key, balance_of, bump_generation, code_key, generation_key, generation_of,
    get_balance, get_generation, get_nonce, is_zero_word, nonce_key, nonce_of, set_balance,
    set_code, set_nonce, set_storage, storage_key, AccountError, Address, H256,
};
use crate::bridge::FinishDepositArgs;
use crate::engine::{Engine, EngineError, EngineState};
use crate::env::HostContext;
use crate::keccak::{keccak256_of, near_account_to_evm_address};
use crate::store::{be_word_of, bytes_eq, bytes_to_key, copy_bytes, KeyPrefix, Store};
use crate::transaction::{intrinsic_gas_of, NormalizedEthTransaction};

verus! {

/// How an execution ended.
pub enum TransactionStatus {
    Succeed(Vec<u8>),
    Revert(Vec<u8>),
    OutOfGas,
    OutOfFund,
    OutOfOffset,
    CallTooDeep,
}

/// A log entry emitted by an execution.
pub struct ResultLog {
    pub address: Address,
    pub topics: Vec<H256>,
    pub data: Vec<u8>,
}

/// The outcome of a transaction as reported to its caller.
pub struct SubmitResult {
    pub status: TransactionStatus,
    pub gas_used: u64,
    pub logs: Vec<ResultLog>,
}

impl SubmitResult {
    pub fn new(status: TransactionStatus, gas_used: u64, logs: Vec<ResultLog>) -> (r: Self)
        ensures
            r.status == status,
            r.gas_used == gas_used,
            r.logs == logs,
    {
        SubmitResult { status, gas_used, logs }
    }
}

/// A state change that an execution hands back to be committed.
pub enum Apply {
    /// Sets an account's balance and nonce, optionally its code, optionally
    /// moves it to a fresh storage generation, then writes storage slots.
    Modify {
        address: Address,
        balance: u128,
        nonce: u128,
        code: Option<Vec<u8>>,
        storage: Vec<(H256, H256)>,
        reset_storage: bool,
    },
    /// Destroys an account: its nonce, balance and code go, and its storage
    /// moves to a fresh generation.
    Delete { address: Address },
}

/// The deposit that backs an account set up by `mint_account`: the account
/// whose `verify_log_entry` is asked, the account whose `finish_deposit` is
/// called back, and that callback's arguments.
pub struct MintAccountPromise {
    pub verify_account: Vec<u8>,
    pub callback_account: Vec<u8>,
    pub finish: FinishDepositArgs,
}

/// What the pre-charge took from the sender.
pub struct Charge {
    pub sender: Address,
    pub gas_limit: u64,
    pub gas_price: u128,
    pub prepaid: u128,
}

/// The result of admitting a transaction.
pub enum Admission {
    /// The sender could not pay for the gas: the nonce advanced and nothing ran.
    OutOfFund(SubmitResult),
    /// Gas was paid for; the transaction is to be executed.
    Execute(Charge),
}

pub open spec fn account_error(e: AccountError) -> EngineError {
    match e {
        AccountError::InvalidEncoding => EngineError::InvalidEncoding,
        AccountError::GenerationOverflow => EngineError::GenerationOverflow,
    }
}

pub fn from_account_error(e: AccountError) -> (r: EngineError)
    ensures
        r == account_error(e),
{
    match e {
        AccountError::InvalidEncoding => EngineError::InvalidEncoding,
        AccountError::GenerationOverflow => EngineError::GenerationOverflow,
    }
}

// ---------------------------------------------------------------------------
// Committing state changes
// ---------------------------------------------------------------------------

/// The key space after writing the slots `w` of `a` in generation `g`, in order.
pub open spec fn write_slots(m: Map<Seq<u8>, Seq<u8>>, a: Seq<u8>, g: u32, w: Seq<(H256, H256)>)
    -> Map<Seq<u8>, Seq<u8>>
    decreases w.len(),
{
    if w.len() == 0 {
        m
    } else {
        let m0 = write_slots(m, a, g, w.drop_last());
        let k = storage_key(a, g, w.last().0@);
        if is_zero_word(w.last().1@) {
            m0.remove(k)
        } else {
            m0.insert(k, w.last().1@)
        }
    }
}

pub open spec fn is_origin(origin: Option<Address>, a: Seq<u8>) -> bool {
    origin.is_some() && origin.unwrap()@ == a
}

/// The key space after one state change. The nonce of `origin` is never
/// touched: the transaction pipeline advances it itself.
pub open spec fn applied(m: Map<Seq<u8>, Seq<u8>>, ap: Apply, origin: Option<Address>) -> Result<
    Map<Seq<u8>, Seq<u8>>,
    EngineError,
> {
    match ap {
        Apply::Modify { address, balance, nonce, code, storage, reset_storage } => {
            let a = address@;
            let m1 = m.insert(balance_key(a), be_word_of(balance));
            let m2 = if is_origin(origin, a) {
                m1
            } else {
                m1.insert(nonce_key(a), be_word_of(nonce))
            };
            let m3 = match code {
                Some(c) => m2.insert(code_key(a), c@),
                None => m2,
            };
            match generation_of(m3, a) {
                None => Err(EngineError::InvalidEncoding),
                Some(g) => if !reset_storage {
                    Ok(write_slots(m3, a, g, storage@))
                } else if g == u32::MAX {
                    Err(EngineError::GenerationOverflow)
                } else {
                    Ok(
                        write_slots(
                            m3.insert(generation_key(a), spec_u32_to_le_bytes((g + 1) as u32)),
                            a,
                            (g + 1) as u32,
                            storage@,
                        ),
                    )
                },
            }
        },
        Apply::Delete { address } => {
            let a = address@;
            let m0 = if is_origin(origin, a) {
                m
            } else {
                m.remove(nonce_key(a))
            };
            let m1 = m0.remove(balance_key(a)).remove(code_key(a));
            match generation_of(m1, a) {
                None => Err(EngineError::InvalidEncoding),
                Some(g) => if g == u32::MAX {
                    Err(EngineError::GenerationOverflow)
                } else {
                    Ok(m1.insert(generation_key(a), spec_u32_to_le_bytes((g + 1) as u32)))
                },
            }
        },
    }
}

/// The key space after a list of state changes, committed in order.
pub open spec fn applied_all(m: Map<Seq<u8>, Seq<u8>>, aps: Seq<Apply>, origin: Option<Address>)
    -> Result<Map<Seq<u8>, Seq<u8>>, EngineError>
    decreases aps.len(),
{
    if aps.len() == 0 {
        Ok(m)
    } else {
        match applied_all(m, aps.drop_last(), origin) {
            Err(e) => Err(e),
            Ok(m0) => applied(m0, aps.last(), origin),
        }
    }
}

proof fn lemma_write_slots_wf(m: Map<Seq<u8>, Seq<u8>>, a: Seq<u8>, g: u32, w: Seq<(H256, H256)>)
    requires
        storage_wf(m),
        a.len() == 20,
        generation_of(m, a) == Some(g),
    ensures
        storage_wf(write_slots(m, a, g, w)),
        generation_of(write_slots(m, a, g, w), a) == Some(g),
    decreases w.len(),
{
    if w.len() > 0 {
        lemma_write_slots_wf(m, a, g, w.drop_last());
        lemma_storage_wf_slot(write_slots(m, a, g, w.drop_last()), a, g, w.last().0@, w.last().1@);
    }
}

/// Committing a state change keeps the storage invariant.
pub proof fn lemma_applied_wf(m: Map<Seq<u8>, Seq<u8>>, ap: Apply, origin: Option<Address>)
    requires
        storage_wf(m),
        applied(m, ap, origin).is_ok(),
    ensures
        storage_wf(applied(m, ap, origin).unwrap()),
{
    match ap {
        Apply::Modify { address, balance, nonce, code, storage, reset_storage } => {
            let a = address@;
            let m1 = m.insert(balance_key(a), be_word_of(balance));
            lemma_storage_wf_other_key(m, KeyPrefix::Balance, a, be_word_of(balance));
            let m2 = if is_origin(origin, a) {
                m1
            } else {
                lemma_storage_wf_other_key(m1, KeyPrefix::Nonce, a, be_word_of(nonce));
                m1.insert(nonce_key(a), be_word_of(nonce))
            };
            let m3 = match code {
                Some(c) => {
                    lemma_storage_wf_other_key(m2, KeyPrefix::Code, a, c@);
                    m2.insert(code_key(a), c@)
                },
                None => m2,
            };
            let g = generation_of(m3, a).unwrap();
            if reset_storage {
                lemma_storage_wf_bump(m3, a, g);
                let m4 = m3.insert(generation_key(a), spec_u32_to_le_bytes((g + 1) as u32));
                lemma_write_slots_wf(m4, a, (g + 1) as u32, storage@);
            } else {
                lemma_write_slots_wf(m3, a, g, storage@);
            }
        },
        Apply::Delete { address } => {
            let a = address@;
            let m0 = if is_origin(origin, a) {
                m
            } else {
                lemma_storage_wf_other_key(m, KeyPrefix::Nonce, a, Seq::empty());
                m.remove(nonce_key(a))
            };
            lemma_storage_wf_other_key(m0, KeyPrefix::Balance, a, Seq::empty());
            let m1a = m0.remove(balance_key(a));
            lemma_storage_wf_other_key(m1a, KeyPrefix::Code, a, Seq::empty());
            let m1 = m1a.remove(code_key(a));
            lemma_storage_wf_bump(m1, a, generation_of(m1, a).unwrap());
        },
    }
}

/// Committing a list of state changes keeps the storage invariant.
pub proof fn lemma_applied_all_wf(m: Map<Seq<u8>, Seq<u8>>, aps: Seq<Apply>, origin: Option<Address>)
    requires
        storage_wf(m),
        applied_all(m, aps, origin).is_ok(),
    ensures
        storage_wf(applied_all(m, aps, origin).unwrap()),
    decreases aps.len(),
{
    if aps.len() > 0 {
        lemma_applied_all_wf(m, aps.drop_last(), origin);
        lemma_applied_wf(applied_all(m, aps.drop_last(), origin).unwrap(), aps.last(), origin);
    }
}

fn write_slot_list(store: &mut Store, a: &Address, g: u32, w: &Vec<(H256, H256)>)
    ensures
        final(store)@ == write_slots(old(store)@, a@, g, w@),
{
    let ghost base = store@;
    let mut i: usize = 0;
    while i < w.len()
        invariant
            i <= w@.len(),
            store@ == write_slots(base, a@, g, w@.take(i as int)),
        decreases w@.len() - i,
    {
        assert(w@.take(i + 1).drop_last() =~= w@.take(i as int));
        set_storage(store, a, &w[i].0, g, &w[i].1);
        i = i + 1;
    }
    assert(w@.take(i as int) =~= w@);
}

fn origin_matches(origin: Option<Address>, a: &Address) -> (r: bool)
    ensures
        r == is_origin(origin, a@),
{
    match origin {
        Some(o) => bytes_eq(&o, a),
        None => false,
    }
}

/// Commits one state change.
pub fn apply_one(store: &mut Store, ap: &Apply, origin: Option<Address>) -> (r: Result<
    (),
    EngineError,
>)
    ensures
        match applied(old(store)@, *ap, origin) {
            Ok(m) => r.is_ok() && final(store)@ == m,
            Err(e) => r == Err::<(), EngineError>(e),
        },
        storage_wf(old(store)@) && r.is_ok() ==> storage_wf(final(store)@),
{
    proof {
        if storage_wf(old(store)@) && applied(old(store)@, *ap, origin).is_ok() {
            lemma_applied_wf(old(store)@, *ap, origin);
        }
    }
    match ap {
        Apply::Modify { address, balance, nonce, code, storage, reset_storage } => {
            set_balance(store, address, *balance);
            if !origin_matches(origin, address) {
                set_nonce(store, address, *nonce);
            }
            match code {
                Some(c) => set_code(store, address, c.as_slice()),
                None => {},
            }
            let g = match get_generation(store, address) {
                Ok(g) => g,
                Err(e) => {
                    return Err(from_account_error(e));
                },
            };
            let g2 = if *reset_storage {
                match bump_generation(store, address) {
                    Ok(n) => n,
                    Err(e) => {
                        return Err(from_account_error(e));
                    },
                }
            } else {
                g
            };
            write_slot_list(store, address, g2, storage);
            Ok(())
        },
        Apply::Delete { address } => {
            if !origin_matches(origin, address) {
                store.remove(bytes_to_key(KeyPrefix::Nonce, address).as_slice());
            }
            store.remove(bytes_to_key(KeyPrefix::Balance, address).as_slice());
            store.remove(bytes_to_key(KeyPrefix::Code, address).as_slice());
            match bump_generation(store, address) {
                Ok(_) => Ok(()),
                Err(e) => Err(from_account_error(e)),
            }
        },
    }
}

/// Commits a list of state changes in order.
pub fn apply_all(store: &mut Store, aps: &Vec<Apply>, origin: Option<Address>) -> (r: Result<
    (),
    EngineError,
>)
    ensures
        match applied_all(old(store)@, aps@, origin) {
            Ok(m) => r.is_ok() && final(store)@ == m,
            Err(e) => r == Err::<(), EngineError>(e),
        },
        storage_wf(old(store)@) && r.is_ok() ==> storage_wf(final(store)@),
{
    proof {
        if storage_wf(old(store)@) && applied_all(old(store)@, aps@, origin).is_ok() {
            lemma_applied_all_wf(old(store)@, aps@, origin);
        }
    }
    let mut i: usize = 0;
    while i < aps.len()
        invariant
            i <= aps@.len(),
            applied_all(old(store)@, aps@.take(i as int), origin) == Ok::<
                Map<Seq<u8>, Seq<u8>>,
                EngineError,
            >(store@),
        decreases aps@.len() - i,
    {
        assert(aps@.take(i + 1).drop_last() =~= aps@.take(i as int));
        let r = apply_one(store, &aps[i], origin);
        if r.is_err() {
            proof {
                lemma_applied_all_err_extends(old(store)@, aps@, origin, i + 1);
            }
            return r;
        }
        i = i + 1;
    }
    assert(aps@.take(i as int) =~= aps@);
    Ok(())
}

proof fn lemma_applied_all_err_extends(
    m: Map<Seq<u8>, Seq<u8>>,
    aps: Seq<Apply>,
    origin: Option<Address>,
    i: int,
)
    requires
        0 <= i <= aps.len(),
        applied_all(m, aps.take(i), origin).is_err(),
    ensures
        applied_all(m, aps, origin) == applied_all(m, aps.take(i), origin),
    decreases aps.len() - i,
{
    if i < aps.len() {
        assert(aps.take(i + 1).drop_last() =~= aps.take(i));
        lemma_applied_all_err_extends(m, aps, origin, i + 1);
    } else {
        assert(aps.take(i) =~= aps);
    }
}

/// Fails unless the stored nonce of `a` is `expected`.
pub fn check_nonce(store: &Store, a: &Address, expected: u128) -> (r: Result<(), EngineError>)
    ensures
        match nonce_of(store@, a@) {
            None => r == Err::<(), EngineError>(EngineError::InvalidEncoding),
            Some(n) => if n == expected {
                r.is_ok()
            } else {
                r == Err::<(), EngineError>(EngineError::IncorrectNonce)
            },
        },
{
    match get_nonce(store, a) {
        Ok(n) => if n == expected {
            Ok(())
        } else {
            Err(EngineError::IncorrectNonce)
        },
        Err(e) => Err(from_account_error(e)),
    }
}

// ---------------------------------------------------------------------------
// Admission and pre-charge
// ---------------------------------------------------------------------------

/// The signer of a transaction, where recovery succeeded.
pub open spec fn signer(tx: NormalizedEthTransaction) -> Seq<u8> {
    tx.address.unwrap()@
}

/// The price of one unit of gas: the base fee is zero, so the priority fee.
pub open spec fn effective_gas_price(tx: NormalizedEthTransaction) -> u128 {
    tx.max_priority_fee_per_gas
}

pub open spec fn prepaid_of(tx: NormalizedEthTransaction) -> int {
    tx.gas_limit * effective_gas_price(tx)
}

/// The first check that rejects `tx` against configuration `st` and key space `m`.
pub open spec fn admission_error(
    st: Option<EngineState>,
    m: Map<Seq<u8>, Seq<u8>>,
    tx: NormalizedEthTransaction,
) -> Option<EngineError> {
    if st.is_none() {
        Some(EngineError::NotInitialised)
    } else if tx.chain_id.is_some() && tx.chain_id.unwrap() as u128 != st.unwrap().chain_id {
        Some(EngineError::InvalidChainId)
    } else if tx.address.is_none() {
        Some(EngineError::InvalidSignature)
    } else if nonce_of(m, signer(tx)).is_none() {
        Some(EngineError::InvalidEncoding)
    } else if nonce_of(m, signer(tx)).unwrap() != tx.nonce {
        Some(EngineError::IncorrectNonce)
    } else if intrinsic_gas_of(tx) > u64::MAX {
        Some(EngineError::GasOverflow)
    } else if tx.gas_limit < intrinsic_gas_of(tx) {
        Some(EngineError::IntrinsicGas)
    } else if tx.max_priority_fee_per_gas > tx.max_fee_per_gas {
        Some(EngineError::MaxPriorityFeeGreater)
    } else if prepaid_of(tx) > u128::MAX {
        Some(EngineError::GasOverflow)
    } else if balance_of(m, signer(tx)).is_none() {
        Some(EngineError::InvalidEncoding)
    } else if tx.nonce == u128::MAX {
        Some(EngineError::GasOverflow)
    } else if balance_of(m, signer(tx)).unwrap() >= prepaid_of(tx) && tx.gas_limit > u64::MAX {
        Some(EngineError::GasOverflow)
    } else {
        None
    }
}

/// Whether an admitted `tx` leaves the sender out of funds.
pub open spec fn out_of_fund(m: Map<Seq<u8>, Seq<u8>>, tx: NormalizedEthTransaction) -> bool {
    balance_of(m, signer(tx)).unwrap() < prepaid_of(tx)
}

/// The key space after admitting `tx`: the nonce advances by one, and the
/// prepaid gas leaves the sender's balance unless the sender is out of funds.
pub open spec fn admitted_store(m: Map<Seq<u8>, Seq<u8>>, tx: NormalizedEthTransaction) -> Map<
    Seq<u8>,
    Seq<u8>,
> {
    let a = signer(tx);
    let bumped = m.insert(nonce_key(a), be_word_of((tx.nonce + 1) as u128));
    if out_of_fund(m, tx) {
        bumped
    } else {
        bumped.insert(
            balance_key(a),
            be_word_of((balance_of(m, a).unwrap() - prepaid_of(tx)) as u128),
        )
    }
}

// ---------------------------------------------------------------------------
// Refund
// ---------------------------------------------------------------------------

/// The key space after crediting `amount` to `a`.
pub open spec fn credited(m: Map<Seq<u8>, Seq<u8>>, a: Seq<u8>, amount: u128) -> Result<
    Map<Seq<u8>, Seq<u8>>,
    EngineError,
> {
    match balance_of(m, a) {
        None => Err(EngineError::InvalidEncoding),
        Some(b) => if b + amount > u128::MAX {
            Err(EngineError::BalanceOverflow)
        } else {
            Ok(m.insert(balance_key(a), be_word_of((b + amount) as u128)))
        },
    }
}

/// Credits `amount` to the balance of `a`.
pub fn credit(store: &mut Store, a: &Address, amount: u128) -> (r: Result<(), EngineError>)
    ensures
        match credited(old(store)@, a@, amount) {
            Ok(m) => r.is_ok() && final(store)@ == m,
            Err(e) => r == Err::<(), EngineError>(e) && final(store)@ == old(store)@,
        },
{
    let b = match get_balance(store, a) {
        Ok(b) => b,
        Err(e) => {
            return Err(from_account_error(e));
        },
    };
    match b.checked_add(amount) {
        Some(v) => {
            set_balance(store, a, v);
            Ok(())
        },
        None => Err(EngineError::BalanceOverflow),
    }
}

/// The unused gas returned to the sender.
pub open spec fn refund_of(c: Charge, gas_used: u64) -> int {
    (c.gas_limit - gas_used) * c.gas_price
}

/// The fee for the gas used, paid to the relayer.
pub open spec fn reward_of(c: Charge, gas_used: u64) -> int {
    gas_used * c.gas_price
}

pub open spec fn is_succeed(s: TransactionStatus) -> bool {
    match s {
        TransactionStatus::Succeed(_) => true,
        _ => false,
    }
}

/// The key space after an execution has finished: its state changes are
/// committed where it succeeded, then the unused gas goes back to the sender
/// and the fee for the used gas to the relayer.
pub open spec fn finished_store(
    m: Map<Seq<u8>, Seq<u8>>,
    c: Charge,
    succeeded: bool,
    gas_used: u64,
    aps: Seq<Apply>,
    relayer: Seq<u8>,
) -> Result<Map<Seq<u8>, Seq<u8>>, EngineError> {
    if gas_used > c.gas_limit {
        Err(EngineError::GasOverflow)
    } else {
        let after = if succeeded {
            applied_all(m, aps, Some(c.sender))
        } else {
            Ok(m)
        };
        match after {
            Err(e) => Err(e),
            Ok(m1) => match credited(m1, c.sender@, refund_of(c, gas_used) as u128) {
                Err(e) => Err(e),
                Ok(m2) => credited(m2, relayer, reward_of(c, gas_used) as u128),
            },
        }
    }
}

pub open spec fn charge_wf(c: Charge) -> bool {
    c.prepaid == c.gas_limit * c.gas_price
}

impl Engine {
    /// Sets the nonce and balance of `address` directly, as a test fixture
    /// does, and returns the deposit that backs the new balance: the engine
    /// asks itself to verify an empty proof, with `finish_deposit` crediting
    /// the amount to the engine's own address without fee.
    pub fn mint_account(&mut self, ctx: &HostContext, address: &Address, nonce: u128, balance: u128)
        -> (r: Result<MintAccountPromise, EngineError>)
        ensures
            final(self).state == old(self).state,
            ({
                let m1 = old(self).store@.insert(balance_key(address@), be_word_of(balance)).insert(
                    nonce_key(address@),
                    be_word_of(nonce),
                );
                match generation_of(m1, address@) {
                    Some(_) => r.is_ok() && final(self).store@ == m1 && ({
                        let p = r.unwrap();
                        let own = keccak256_of(ctx.current_account_id@).skip(12);
                        &&& p.verify_account@ == ctx.current_account_id@
                        &&& p.callback_account@ == ctx.current_account_id@
                        &&& p.finish.new_owner@ == own
                        &&& p.finish.relayer@ == own
                        &&& p.finish.amount == balance
                        &&& p.finish.fee == 0
                        &&& p.finish.proof_key@.len() == 0
                    }),
                    None => r == Err::<MintAccountPromise, EngineError>(EngineError::InvalidEncoding)
                        && final(self).store@ == old(self).store@,
                }
            }),
    {
        let change = Apply::Modify {
            address: *address,
            balance,
            nonce,
            code: None,
            storage: Vec::new(),
            reset_storage: false,
        };
        let mut work = self.store.snapshot();
        let r = apply_one(&mut work, &change, None);
        proof {
            match change {
                Apply::Modify { storage, .. } => {
                    assert(storage@ =~= Seq::<(H256, H256)>::empty());
                },
                _ => {},
            }
        }
        r?;
        self.store = work;
        let own = near_account_to_evm_address(ctx.current_account_id.as_slice());
        Ok(
            MintAccountPromise {
                verify_account: copy_bytes(ctx.current_account_id.as_slice()),
                callback_account: copy_bytes(ctx.current_account_id.as_slice()),
                finish: FinishDepositArgs {
                    new_owner: own,
                    amount: balance,
                    proof_key: Vec::new(),
                    relayer: own,
                    fee: 0,
                },
            },
        )
    }

    /// Admits a signed transaction: checks its chain id, signature, nonce,
    /// intrinsic gas and fee ordering, then advances the sender's nonce and
    /// takes the prepaid gas. A sender who cannot pay gets `OutOfFund` with
    /// the nonce advanced and nothing else changed.
    pub fn begin_submit(&mut self, tx: &NormalizedEthTransaction) -> (r: Result<
        Admission,
        EngineError,
    >)
        ensures
            final(self).state == old(self).state,
            tx.chain_id.is_some() && old(self).state.is_some() && tx.chain_id.unwrap() as u128
                != old(self).state.unwrap().chain_id ==> r == Err::<Admission, EngineError>(
                EngineError::InvalidChainId,
            ),
            match admission_error(old(self).state, old(self).store@, *tx) {
                Some(e) => r == Err::<Admission, EngineError>(e) && final(self).store@ == old(self).store@,
                None => {
                    &&& final(self).store@ == admitted_store(old(self).store@, *tx)
                    &&& out_of_fund(old(self).store@, *tx) ==> match r {
                        Ok(Admission::OutOfFund(res)) => res.status == TransactionStatus::OutOfFund
                            && res.gas_used == 0 && res.logs@.len() == 0,
                        _ => false,
                    }
                    &&& !out_of_fund(old(self).store@, *tx) ==> match r {
                        Ok(Admission::Execute(c)) => c.sender == tx.address.unwrap()
                            && c.gas_limit == tx.gas_limit && c.gas_price
                            == effective_gas_price(*tx) && c.prepaid == prepaid_of(*tx),
                        _ => false,
                    }
                },
            },
    {
        let state = match &self.state {
            Some(s) => s,
            None => {
                return Err(EngineError::NotInitialised);
            },
        };
        match tx.chain_id {
            Some(id) => {
                if id as u128 != state.chain_id {
                    return Err(EngineError::InvalidChainId);
                }
            },
            None => {},
        }
        let sender = match tx.address {
            Some(a) => a,
            None => {
                return Err(EngineError::InvalidSignature);
            },
        };
        let nonce = match get_nonce(&self.store, &sender) {
            Ok(n) => n,
            Err(e) => {
                return Err(from_account_error(e));
            },
        };
        if nonce != tx.nonce {
            return Err(EngineError::IncorrectNonce);
        }
        match tx.intrinsic_gas() {
            None => {
                return Err(EngineError::GasOverflow);
            },
            Some(g) => {
                if tx.gas_limit < g as u128 {
                    return Err(EngineError::IntrinsicGas);
                }
            },
        }
        if tx.max_priority_fee_per_gas > tx.max_fee_per_gas {
            return Err(EngineError::MaxPriorityFeeGreater);
        }
        let price = tx.max_priority_fee_per_gas;
        let prepaid = match tx.gas_limit.checked_mul(price) {
            Some(p) => p,
            None => {
                return Err(EngineError::GasOverflow);
            },
        };
        let balance = match get_balance(&self.store, &sender) {
            Ok(b) => b,
            Err(e) => {
                return Err(from_account_error(e));
            },
        };
        if nonce == u128::MAX {
            return Err(EngineError::GasOverflow);
        }
        if balance < prepaid {
            set_nonce(&mut self.store, &sender, nonce + 1);
            return Ok(Admission::OutOfFund(SubmitResult::new(TransactionStatus::OutOfFund, 0, Vec::new())));
        }
        if tx.gas_limit > u64::MAX as u128 {
            return Err(EngineError::GasOverflow);
        }
        set_nonce(&mut self.store, &sender, nonce + 1);
        set_balance(&mut self.store, &sender, balance - prepaid);
        Ok(
            Admission::Execute(
                Charge { sender, gas_limit: tx.gas_limit as u64, gas_price: price, prepaid },
            ),
        )
    }

    /// Finishes an admitted transaction once the EVM has run it: commits the
    /// state changes where it succeeded, returns the unused gas to the sender
    /// and pays the used gas to `relayer`.
    pub fn finish_submit(
        &mut self,
        charge: &Charge,
        status: TransactionStatus,
        gas_used: u64,
        logs: Vec<ResultLog>,
        applies: &Vec<Apply>,
        relayer: &Address,
    ) -> (r: Result<SubmitResult, EngineError>)
        requires
            charge_wf(*charge),
        ensures
            final(self).state == old(self).state,
            match finished_store(
                old(self).store@,
                *charge,
                is_succeed(status),
                gas_used,
                applies@,
                relayer@,
            ) {
                Ok(m) => r.is_ok() && final(self).store@ == m && r.unwrap().status == status
                    && r.unwrap().gas_used == gas_used && r.unwrap().logs == logs,
                Err(e) => r.is_err() && r->Err_0 == e && final(self).store@ == old(self).store@,
            },
    {
        if gas_used > charge.gas_limit {
            return Err(EngineError::GasOverflow);
        }
        let mut work = self.store.snapshot();
        let succeeded = match &status {
            TransactionStatus::Succeed(_) => true,
            _ => false,
        };
        if succeeded {
            apply_all(&mut work, applies, Some(charge.sender))?;
        }
        proof {
            assert((charge.gas_limit - gas_used) * charge.gas_price <= charge.gas_limit
                * charge.gas_price) by (nonlinear_arith)
                requires
                    gas_used <= charge.gas_limit,
                    charge.gas_price >= 0,
            ;
            assert(gas_used * charge.gas_price <= charge.gas_limit * charge.gas_price) by (
            nonlinear_arith)
                requires
                    gas_used <= charge.gas_limit,
                    charge.gas_price >= 0,
            ;
        }
        let refund: u128 = ((charge.gas_limit - gas_used) as u128) * charge.gas_price;
        let reward: u128 = (gas_used as u128) * charge.gas_price;
        credit(&mut work, &charge.sender, refund)?;
        credit(&mut work, relayer, reward)?;
        self.store = work;
        Ok(SubmitResult::new(status, gas_used, logs))
    }
}

} // verus!
