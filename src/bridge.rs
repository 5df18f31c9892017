use vstd::prelude::*;

use crate::accounts::Address;
use crate::engine::{Engine, EngineError};
use crate::env::HostContext;
use crate::keccak::{block_hash_preimage, compute_block_hash, keccak256_of};
use crate::accounts::stored_amount;
use crate::store::{
    append_bytes, be_word_of, be_word_to_u128, bytes_to_key, copy_bytes, key_of, u128_to_be_word,
    KeyPrefix, Store,
};
use crate::submit::{credit, credited, TransactionStatus};

verus! {

/// Selector of the ERC-20 `mint(address,uint256)` function.
pub const ERC20_MINT_SELECTOR: [u8; 4] = [0x40, 0xc1, 0x0f, 0x19];

/// The outcome of a promise, as a callback sees it.
pub enum PromiseResult {
    NotReady,
    Successful(Vec<u8>),
    Failed,
}

// ---------------------------------------------------------------------------
// Outside encoders
// ---------------------------------------------------------------------------

/// What ethabi makes of the constructor arguments of the bridged ERC-20
/// contract: name, symbol, decimals and admin address.
pub uninterp spec fn abi_constructor_args(
    name: Seq<char>,
    symbol: Seq<char>,
    decimals: u8,
    admin: Seq<u8>,
) -> Seq<u8>;

/// Relies on ethabi::encode of a string, a string, a uint and an address:
/// the result depends on those values alone.
#[verifier::external_body]
fn abi_encode_constructor(name: &str, symbol: &str, decimals: u8, admin: &Address) -> (r: Vec<u8>)
    ensures
        r@ == abi_constructor_args(name@, symbol@, decimals, admin@),
{
    ethabi::encode(
        &[
            ethabi::Token::String(name.to_string()),
            ethabi::Token::String(symbol.to_string()),
            ethabi::Token::Uint(ethabi::Uint::from(decimals)),
            ethabi::Token::Address(ethabi::Address::from(*admin)),
        ],
    )
}

/// The ABI encoding of an address and a uint: two 32-byte words, the address
/// left-padded with zeros and the amount big-endian.
pub open spec fn abi_address_uint(a: Seq<u8>, amount: u128) -> Seq<u8> {
    Seq::new(12, |i: int| 0u8) + a + be_word_of(amount)
}

/// Relies on ethabi::encode of an address token and a uint token: each
/// becomes one 32-byte word, the address after twelve zero bytes and the uint
/// big-endian.
#[verifier::external_body]
fn abi_encode_address_uint(a: &Address, amount: u128) -> (r: Vec<u8>)
    ensures
        r@ == abi_address_uint(a@, amount),
{
    ethabi::encode(
        &[
            ethabi::Token::Address(ethabi::Address::from(*a)),
            ethabi::Token::Uint(ethabi::Uint::from(amount)),
        ],
    )
}

/// The borsh encoding of a `bool`: exactly one byte, zero or one.
pub open spec fn borsh_bool(s: Seq<u8>) -> Option<bool> {
    if s == seq![0u8] {
        Some(false)
    } else if s == seq![1u8] {
        Some(true)
    } else {
        None
    }
}

/// Relies on borsh's `BorshDeserialize::try_from_slice` for `bool`: it reads
/// one byte, 0 or 1, and fails on any other byte or on bytes left over.
#[verifier::external_body]
fn borsh_decode_bool(s: &[u8]) -> (r: Option<bool>)
    ensures
        r == borsh_bool(s@),
{
    <bool as borsh::BorshDeserialize>::try_from_slice(s).ok()
}

/// The input of an ERC-20 `mint` call that gives `amount` to `recipient`.
pub open spec fn mint_input_of(recipient: Seq<u8>, amount: u128) -> Seq<u8> {
    ERC20_MINT_SELECTOR@ + abi_address_uint(recipient, amount)
}

pub fn mint_call_input(recipient: &Address, amount: u128) -> (r: Vec<u8>)
    ensures
        r@ == mint_input_of(recipient@, amount),
{
    let mut r = copy_bytes(&ERC20_MINT_SELECTOR);
    let args = abi_encode_address_uint(recipient, amount);
    append_bytes(&mut r, args.as_slice());
    r
}

/// The init code that deploys the bridged ERC-20 contract with `admin` as its
/// mint authority.
pub fn erc20_deploy_input(bytecode: &[u8], admin: &Address) -> (r: Vec<u8>)
    ensures
        r@ == bytecode@ + abi_constructor_args("Empty"@, "EMPTY"@, 0, admin@),
{
    let mut r = copy_bytes(bytecode);
    let args = abi_encode_constructor("Empty", "EMPTY", 0, admin);
    append_bytes(&mut r, args.as_slice());
    r
}

// ---------------------------------------------------------------------------
// The token map
// ---------------------------------------------------------------------------

pub open spec fn nep141_key(n: Seq<u8>) -> Seq<u8> {
    key_of(KeyPrefix::Nep141Erc20Map, n)
}

pub open spec fn erc20_key(a: Seq<u8>) -> Seq<u8> {
    key_of(KeyPrefix::Erc20Nep141Map, a)
}

pub open spec fn erc20_for(m: Map<Seq<u8>, Seq<u8>>, n: Seq<u8>) -> Option<Seq<u8>> {
    if m.contains_key(nep141_key(n)) {
        Some(m[nep141_key(n)])
    } else {
        None
    }
}

pub open spec fn nep141_for(m: Map<Seq<u8>, Seq<u8>>, a: Seq<u8>) -> Option<Seq<u8>> {
    if m.contains_key(erc20_key(a)) {
        Some(m[erc20_key(a)])
    } else {
        None
    }
}

/// The key space after associating host token `n` with contract `a`; either
/// side already present refuses the association.
pub open spec fn registered(m: Map<Seq<u8>, Seq<u8>>, a: Seq<u8>, n: Seq<u8>) -> Result<
    Map<Seq<u8>, Seq<u8>>,
    EngineError,
> {
    if m.contains_key(nep141_key(n)) || m.contains_key(erc20_key(a)) {
        Err(EngineError::AlreadyRegistered)
    } else {
        Ok(m.insert(nep141_key(n), a).insert(erc20_key(a), n))
    }
}

pub open spec fn proof_key(p: Seq<u8>) -> Seq<u8> {
    key_of(KeyPrefix::Proof, p)
}

/// Arguments of the deposit callback.
pub struct FinishDepositArgs {
    /// The EVM address that receives the bridged amount.
    pub new_owner: Address,
    pub amount: u128,
    /// The key under which the consumed proof is recorded.
    pub proof_key: Vec<u8>,
    /// The EVM address of the relayer that submitted the proof.
    pub relayer: Address,
    /// The part of `amount` that goes to the relayer.
    pub fee: u128,
}

/// Config key of the total supply of bridged ETH inside the EVM.
pub const TOTAL_SUPPLY_KEY: [u8; 12] = [0x54, 0x4f, 0x54, 0x41, 0x4c, 0x5f, 0x53, 0x55, 0x50, 0x50, 0x4c, 0x59];

pub open spec fn total_supply_key() -> Seq<u8> {
    key_of(KeyPrefix::Config, TOTAL_SUPPLY_KEY@)
}

/// The total supply of bridged ETH: zero where none is recorded.
pub open spec fn total_supply(m: Map<Seq<u8>, Seq<u8>>) -> Option<u128> {
    stored_amount(m, total_supply_key())
}

/// The key space after the total supply grows by `amount`.
pub open spec fn supply_grown(m: Map<Seq<u8>, Seq<u8>>, amount: u128) -> Result<
    Map<Seq<u8>, Seq<u8>>,
    EngineError,
> {
    match total_supply(m) {
        None => Err(EngineError::InvalidEncoding),
        Some(t) => if t + amount > u128::MAX {
            Err(EngineError::BalanceOverflow)
        } else {
            Ok(m.insert(total_supply_key(), be_word_of((t + amount) as u128)))
        },
    }
}

/// The key space after a verified deposit: the proof is recorded as
/// consumed, the amount less the fee goes to the new owner, the fee to the
/// relayer, and the total supply grows by the amount.
pub open spec fn deposited(m: Map<Seq<u8>, Seq<u8>>, args: FinishDepositArgs) -> Result<
    Map<Seq<u8>, Seq<u8>>,
    EngineError,
> {
    if m.contains_key(proof_key(args.proof_key@)) {
        Err(EngineError::ProofAlreadyUsed)
    } else if args.fee > args.amount {
        Err(EngineError::FeeTooHigh)
    } else {
        let m1 = m.insert(proof_key(args.proof_key@), Seq::empty());
        match credited(m1, args.new_owner@, (args.amount - args.fee) as u128) {
            Err(e) => Err(e),
            Ok(m2) => match credited(m2, args.relayer@, args.fee) {
                Err(e) => Err(e),
                Ok(m3) => supply_grown(m3, args.amount),
            },
        }
    }
}

fn grow_supply(store: &mut Store, amount: u128) -> (r: Result<(), EngineError>)
    ensures
        match supply_grown(old(store)@, amount) {
            Ok(m) => r.is_ok() && final(store)@ == m,
            Err(e) => r == Err::<(), EngineError>(e),
        },
{
    let key = bytes_to_key(KeyPrefix::Config, &TOTAL_SUPPLY_KEY);
    let t: u128 = match store.read(key.as_slice()) {
        None => 0,
        Some(v) => match be_word_to_u128(v.as_slice()) {
            Some(x) => x,
            None => {
                return Err(EngineError::InvalidEncoding);
            },
        },
    };
    match t.checked_add(amount) {
        Some(n) => {
            let w = u128_to_be_word(n);
            store.write(key.as_slice(), w.as_slice());
            Ok(())
        },
        None => Err(EngineError::BalanceOverflow),
    }
}

/// The verdict of the proof check handed to a deposit callback.
pub open spec fn proof_verdict(ctx: HostContext, results: Seq<PromiseResult>) -> Result<
    (),
    EngineError,
> {
    if ctx.predecessor_account_id@ != ctx.current_account_id@ {
        Err(EngineError::PrivateCall)
    } else if results.len() != 1 {
        Err(EngineError::PromiseCount)
    } else {
        match results[0] {
            PromiseResult::Successful(b) => match borsh_bool(b@) {
                None => Err(EngineError::PromiseEncoding),
                Some(false) => Err(EngineError::VerifyProof),
                Some(true) => Ok(()),
            },
            _ => Err(EngineError::PromiseFailed),
        }
    }
}

/// A promise to the bridge prover with a callback into this contract.
pub struct DepositPromise {
    /// The prover account whose `verify_log_entry` checks the proof.
    pub prover: Vec<u8>,
    pub proof: Vec<u8>,
    /// The account whose `finish_deposit` receives the verdict.
    pub callback_account: Vec<u8>,
}

/// What an incoming host-token transfer asks for.
pub enum OnTransferAction {
    /// Hand this amount back to the token contract.
    Refund(u128),
    /// Mint the tokens: call `erc20` with `input`; the amount handed back
    /// then follows from the call's outcome.
    MintErc20 { erc20: Vec<u8>, input: Vec<u8> },
}

/// Arguments of the refund callback of an exit to the host.
pub struct RefundCallArgs {
    pub recipient_address: Address,
    /// The token contract of an ERC-20 exit; `None` for a native-token exit.
    pub erc20_address: Option<Address>,
    pub amount: u128,
}

/// What a refund callback asks the EVM to do.
pub enum RefundAction {
    /// The exit succeeded: nothing to refund.
    Nothing,
    /// Re-mint the burned tokens: call `erc20` with `input` as the admin.
    MintErc20 { erc20: Address, input: Vec<u8> },
    /// Return native tokens from the exit precompile to the recipient.
    ReturnEth { to: Address, amount: u128 },
}

impl Engine {
    /// Associates host token `nep141` with ERC-20 contract `erc20`, both ways.
    pub fn register_token(&mut self, erc20: &Address, nep141: &[u8]) -> (r: Result<
        (),
        EngineError,
    >)
        ensures
            final(self).state == old(self).state,
            match registered(old(self).store@, erc20@, nep141@) {
                Ok(m) => r.is_ok() && final(self).store@ == m,
                Err(e) => r == Err::<(), EngineError>(e) && final(self).store@ == old(self).store@,
            },
    {
        let nk = bytes_to_key(KeyPrefix::Nep141Erc20Map, nep141);
        let ek = bytes_to_key(KeyPrefix::Erc20Nep141Map, erc20);
        if self.store.has_key(nk.as_slice()) || self.store.has_key(ek.as_slice()) {
            return Err(EngineError::AlreadyRegistered);
        }
        self.store.write(nk.as_slice(), erc20);
        self.store.write(ek.as_slice(), nep141);
        Ok(())
    }

    pub fn get_erc20_from_nep141(&self, nep141: &[u8]) -> (r: Result<Vec<u8>, EngineError>)
        ensures
            match erc20_for(self.store@, nep141@) {
                Some(a) => r.is_ok() && r.unwrap()@ == a,
                None => r == Err::<Vec<u8>, EngineError>(EngineError::NotFound),
            },
    {
        match self.store.read(bytes_to_key(KeyPrefix::Nep141Erc20Map, nep141).as_slice()) {
            Some(v) => Ok(v),
            None => Err(EngineError::NotFound),
        }
    }

    pub fn get_nep141_from_erc20(&self, erc20: &Address) -> (r: Result<Vec<u8>, EngineError>)
        ensures
            match nep141_for(self.store@, erc20@) {
                Some(n) => r.is_ok() && r.unwrap()@ == n,
                None => r == Err::<Vec<u8>, EngineError>(EngineError::NotFound),
            },
    {
        match self.store.read(bytes_to_key(KeyPrefix::Erc20Nep141Map, erc20).as_slice()) {
            Some(v) => Ok(v),
            None => Err(EngineError::NotFound),
        }
    }

    /// Finishes the deployment of a bridged ERC-20 contract: the deployment
    /// must have succeeded and returned the 20-byte contract address, which is
    /// then associated with `nep141`.
    pub fn finish_erc20_deploy(&mut self, status: &TransactionStatus, nep141: &[u8]) -> (r: Result<
        Address,
        EngineError,
    >)
        ensures
            final(self).state == old(self).state,
            match status {
                TransactionStatus::Succeed(ret) => if ret@.len() != 20 {
                    r == Err::<Address, EngineError>(EngineError::InvalidAddress) && final(self).store@ == old(self).store@
                } else {
                    match registered(old(self).store@, ret@, nep141@) {
                        Ok(m) => r.is_ok() && r.unwrap()@ == ret@ && final(self).store@ == m,
                        Err(e) => r == Err::<Address, EngineError>(e) && final(self).store@ == old(self).store@,
                    }
                },
                _ => r == Err::<Address, EngineError>(EngineError::DeployFailed) && final(self).store@ == old(self).store@,
            },
    {
        let ret = match status {
            TransactionStatus::Succeed(ret) => ret,
            _ => {
                return Err(EngineError::DeployFailed);
            },
        };
        if ret.len() != 20 {
            return Err(EngineError::InvalidAddress);
        }
        let mut a: Address = [0u8; 20];
        let mut i: usize = 0;
        while i < 20
            invariant
                ret@.len() == 20,
                i <= 20,
                forall|j: int| 0 <= j < i ==> a@[j] == ret@[j],
            decreases 20 - i,
        {
            a.set(i, ret[i]);
            i = i + 1;
        }
        assert(a@ =~= ret@);
        self.register_token(&a, nep141)?;
        Ok(a)
    }

    /// Whether the proof recorded under `key` has been consumed.
    pub fn is_used_proof(&self, key: &[u8]) -> (r: bool)
        ensures
            r == self.store@.contains_key(proof_key(key@)),
    {
        self.store.has_key(bytes_to_key(KeyPrefix::Proof, key).as_slice())
    }

    /// Starts a deposit: the proof must not have been consumed; the prover is
    /// then asked to verify it, with `finish_deposit` as the callback.
    pub fn deposit(&self, ctx: &HostContext, key: &[u8], raw_proof: &[u8]) -> (r: Result<
        DepositPromise,
        EngineError,
    >)
        ensures
            self.state.is_none() ==> r == Err::<DepositPromise, EngineError>(
                EngineError::NotInitialised,
            ),
            self.state.is_some() && self.store@.contains_key(proof_key(key@)) ==> r == Err::<
                DepositPromise,
                EngineError,
            >(EngineError::ProofAlreadyUsed),
            self.state.is_some() && !self.store@.contains_key(proof_key(key@)) ==> r.is_ok()
                && r.unwrap().prover@ == self.state.unwrap().bridge_prover_id@ && r.unwrap().proof@
                == raw_proof@ && r.unwrap().callback_account@ == ctx.current_account_id@,
    {
        let prover = self.get_bridge_prover()?;
        if self.is_used_proof(key) {
            return Err(EngineError::ProofAlreadyUsed);
        }
        Ok(
            DepositPromise {
                prover,
                proof: copy_bytes(raw_proof),
                callback_account: copy_bytes(ctx.current_account_id.as_slice()),
            },
        )
    }

    /// The deposit callback: it must be a private call with exactly one
    /// promise result, which must be a successful, borsh-encoded `true`. Then
    /// the proof is consumed, the amount less the fee is credited to the new
    /// owner and the fee to the relayer, and the total supply grows; a proof
    /// consumed before mints nothing. A rejected callback changes nothing.
    pub fn finish_deposit(
        &mut self,
        ctx: &HostContext,
        results: &Vec<PromiseResult>,
        args: &FinishDepositArgs,
    ) -> (r: Result<(), EngineError>)
        ensures
            final(self).state == old(self).state,
            match proof_verdict(*ctx, results@) {
                Err(e) => r == Err::<(), EngineError>(e) && final(self).store@ == old(self).store@,
                Ok(_) => match deposited(old(self).store@, *args) {
                    Ok(m) => r.is_ok() && final(self).store@ == m,
                    Err(e) => r == Err::<(), EngineError>(e) && final(self).store@ == old(
                        self).store@,
                },
            },
    {
        if ctx.assert_private_call().is_err() {
            return Err(EngineError::PrivateCall);
        }
        if results.len() != 1 {
            return Err(EngineError::PromiseCount);
        }
        match &results[0] {
            PromiseResult::Successful(b) => match borsh_decode_bool(b.as_slice()) {
                None => {
                    return Err(EngineError::PromiseEncoding);
                },
                Some(false) => {
                    return Err(EngineError::VerifyProof);
                },
                Some(true) => {},
            },
            _ => {
                return Err(EngineError::PromiseFailed);
            },
        }
        let pk = bytes_to_key(KeyPrefix::Proof, args.proof_key.as_slice());
        if self.store.has_key(pk.as_slice()) {
            return Err(EngineError::ProofAlreadyUsed);
        }
        if args.fee > args.amount {
            return Err(EngineError::FeeTooHigh);
        }
        let mut work = self.store.snapshot();
        let consumed: Vec<u8> = Vec::new();
        work.write(pk.as_slice(), consumed.as_slice());
        assert(consumed@ =~= Seq::<u8>::empty());
        credit(&mut work, &args.new_owner, args.amount - args.fee)?;
        credit(&mut work, &args.relayer, args.fee)?;
        grow_supply(&mut work, args.amount)?;
        self.store = work;
        Ok(())
    }

    /// The total supply of bridged ETH inside the EVM.
    pub fn ft_total_eth_supply_on_aurora(&self) -> (r: Result<u128, EngineError>)
        ensures
            match total_supply(self.store@) {
                Some(t) => r == Ok::<u128, EngineError>(t),
                None => r == Err::<u128, EngineError>(EngineError::InvalidEncoding),
            },
    {
        match self.store.read(bytes_to_key(KeyPrefix::Config, &TOTAL_SUPPLY_KEY).as_slice()) {
            None => Ok(0),
            Some(v) => match be_word_to_u128(v.as_slice()) {
                Some(x) => Ok(x),
                None => Err(EngineError::InvalidEncoding),
            },
        }
    }

    /// Handles host tokens sent to the engine. Bridged ETH, sent by the
    /// engine's own token, is credited to `recipient` in the EVM and nothing
    /// is handed back. Any other host token is minted to `recipient` as its
    /// associated ERC-20; where none is associated, the whole amount is handed
    /// back to the token contract and nothing changes.
    pub fn ft_on_transfer(&mut self, ctx: &HostContext, recipient: &Address, amount: u128) -> (r:
        Result<OnTransferAction, EngineError>)
        ensures
            final(self).state == old(self).state,
            ctx.predecessor_account_id@ == ctx.current_account_id@ ==> match credited(
                old(self).store@,
                recipient@,
                amount,
            ) {
                Ok(m) => r == Ok::<OnTransferAction, EngineError>(OnTransferAction::Refund(0))
                    && final(self).store@ == m,
                Err(e) => r == Err::<OnTransferAction, EngineError>(e) && final(self).store@ == old(
                    self).store@,
            },
            ctx.predecessor_account_id@ != ctx.current_account_id@ ==> final(self).store@ == old(
                self).store@ && match erc20_for(old(self).store@, ctx.predecessor_account_id@) {
                Some(a) => match r {
                    Ok(OnTransferAction::MintErc20 { erc20, input }) => erc20@ == a && input@
                        == mint_input_of(recipient@, amount),
                    _ => false,
                },
                None => r == Ok::<OnTransferAction, EngineError>(OnTransferAction::Refund(amount)),
            },
    {
        if ctx.assert_private_call().is_ok() {
            credit(&mut self.store, recipient, amount)?;
            return Ok(OnTransferAction::Refund(0));
        }
        match self.get_erc20_from_nep141(ctx.predecessor_account_id.as_slice()) {
            Ok(erc20) => Ok(OnTransferAction::MintErc20 { erc20, input: mint_call_input(recipient, amount) }),
            Err(_) => Ok(OnTransferAction::Refund(amount)),
        }
    }

    /// The hash of block `height`, under the configured chain id.
    pub fn get_block_hash(&self, height: u64, account: &[u8]) -> (r: Result<Vec<u8>, EngineError>)
        ensures
            match self.state {
                Some(s) => r.is_ok() && r.unwrap()@ == keccak256_of(
                    block_hash_preimage(s.chain_id, height, account@),
                ),
                None => r == Err::<Vec<u8>, EngineError>(EngineError::NotInitialised),
            },
    {
        let chain_id = self.get_chain_id()?;
        Ok(compute_block_hash(chain_id, height, account))
    }
}

/// The amount handed back to the token contract once the ERC-20 mint of an
/// incoming transfer has run: none where the mint succeeded, all of it where
/// it did not.
pub fn ft_on_transfer_refund(status: &TransactionStatus, amount: u128) -> (r: u128)
    ensures
        r == (match status {
            TransactionStatus::Succeed(_) => 0u128,
            _ => amount,
        }),
{
    match status {
        TransactionStatus::Succeed(_) => 0,
        _ => amount,
    }
}

/// The refund callback of an exit to the host: a private call with exactly
/// one promise result. Where the exit failed, the tokens go back to the
/// sender of the exit, re-minted for an ERC-20 exit, returned for a native one.
pub fn refund_on_error(ctx: &HostContext, results: &Vec<PromiseResult>, args: &RefundCallArgs) -> (r:
    Result<RefundAction, EngineError>)
    ensures
        ctx.predecessor_account_id@ != ctx.current_account_id@ ==> r == Err::<
            RefundAction,
            EngineError,
        >(EngineError::PrivateCall),
        ctx.predecessor_account_id@ == ctx.current_account_id@ && results@.len() != 1 ==> r
            == Err::<RefundAction, EngineError>(EngineError::PromiseCount),
        ctx.predecessor_account_id@ == ctx.current_account_id@ && results@.len() == 1 ==> {
            match results@[0] {
                PromiseResult::Successful(_) => r == Ok::<RefundAction, EngineError>(
                    RefundAction::Nothing,
                ),
                _ => match args.erc20_address {
                    Some(t) => match r {
                        Ok(RefundAction::MintErc20 { erc20, input }) => erc20 == t && input@
                            == mint_input_of(args.recipient_address@, args.amount),
                        _ => false,
                    },
                    None => r == Ok::<RefundAction, EngineError>(
                        RefundAction::ReturnEth { to: args.recipient_address, amount: args.amount },
                    ),
                },
            }
        },
{
    if ctx.assert_private_call().is_err() {
        return Err(EngineError::PrivateCall);
    }
    if results.len() != 1 {
        return Err(EngineError::PromiseCount);
    }
    match &results[0] {
        PromiseResult::Successful(_) => Ok(RefundAction::Nothing),
        _ => match args.erc20_address {
            Some(t) => Ok(
                RefundAction::MintErc20 {
                    erc20: t,
                    input: mint_call_input(&args.recipient_address, args.amount),
                },
            ),
            None => Ok(RefundAction::ReturnEth { to: args.recipient_address, amount: args.amount }),
        },
    }
}

/// A refund must itself succeed.
pub fn check_refund_result(status: &TransactionStatus) -> (r: Result<(), EngineError>)
    ensures
        r.is_ok() == match status {
            TransactionStatus::Succeed(_) => true,
            _ => false,
        },
        r.is_err() ==> r == Err::<(), EngineError>(EngineError::RefundFailure),
{
    match status {
        TransactionStatus::Succeed(_) => Ok(()),
        _ => Err(EngineError::RefundFailure),
    }
}

} // verus!
