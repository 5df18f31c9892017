use vstd::prelude::*;
use vstd::bytes::*;

use crate::accounts::{balance_key, set_balance, Address};
use crate::store::{bytes_eq, copy_bytes, bytes_to_key, key_of, KeyPrefix, ReadU64Error, Store};

verus! {

/// Config key of the staged contract code.
pub const CODE_KEY: [u8; 4] = [0x43, 0x4f, 0x44, 0x45];

/// Config key of the block height at which code was staged.
pub const CODE_STAGE_KEY: [u8; 10] = [0x43, 0x4f, 0x44, 0x45, 0x5f, 0x53, 0x54, 0x41, 0x47, 0x45];

/// Everything that makes the engine reject an invocation; the host rolls back
/// every write of a rejected invocation.
#[derive(Clone, Copy, Debug, PartialEq, Eq, Structural)]
pub enum EngineError {
    NotInitialised,
    NotAllowed,
    TooEarly,
    NoUpgrade,
    InvalidUpgrade,
    UpgradeIndexOverflow,
    InvalidEncoding,
    GenerationOverflow,
    InvalidChainId,
    InvalidSignature,
    IncorrectNonce,
    IntrinsicGas,
    GasOverflow,
    MaxPriorityFeeGreater,
    BalanceOverflow,
    PrivateCall,
    PromiseCount,
    PromiseFailed,
    PromiseEncoding,
    VerifyProof,
    ProofAlreadyUsed,
    FeeTooHigh,
    AlreadyRegistered,
    NotFound,
    InvalidAddress,
    DeployFailed,
    RefundFailure,
}

/// The message with which the host aborts an invocation rejected with `e`.
pub open spec fn error_message(e: EngineError) -> Seq<char> {
    match e {
        EngineError::NotInitialised => "ERR_STATE_NOT_FOUND"@,
        EngineError::NotAllowed => "ERR_NOT_ALLOWED"@,
        EngineError::TooEarly => "ERR_NOT_ALLOWED:TOO_EARLY"@,
        EngineError::NoUpgrade => "ERR_NO_UPGRADE"@,
        EngineError::InvalidUpgrade => "ERR_INVALID_UPGRADE"@,
        EngineError::UpgradeIndexOverflow => "ERR_UPGRADE_INDEX_OVERFLOW"@,
        EngineError::InvalidEncoding => "ERR_INVALID_ENCODING"@,
        EngineError::GenerationOverflow => "ERR_GENERATION_OVERFLOW"@,
        EngineError::InvalidChainId => "ERR_INVALID_CHAIN_ID"@,
        EngineError::InvalidSignature => "ERR_INVALID_ECDSA_SIGNATURE"@,
        EngineError::IncorrectNonce => "ERR_INCORRECT_NONCE"@,
        EngineError::IntrinsicGas => "ERR_INTRINSIC_GAS"@,
        EngineError::GasOverflow => "ERR_GAS_OVERFLOW"@,
        EngineError::MaxPriorityFeeGreater => "ERR_MAX_PRIORITY_FEE_GREATER"@,
        EngineError::BalanceOverflow => "ERR_BALANCE_OVERFLOW"@,
        EngineError::PrivateCall => "ERR_PRIVATE_CALL"@,
        EngineError::PromiseCount => "ERR_PROMISE_COUNT"@,
        EngineError::PromiseFailed => "ERR_PROMISE_FAILED"@,
        EngineError::PromiseEncoding => "ERR_PROMISE_ENCODING"@,
        EngineError::VerifyProof => "ERR_VERIFY_PROOF"@,
        EngineError::ProofAlreadyUsed => "ERR_PROOF_EXIST"@,
        EngineError::FeeTooHigh => "ERR_NOT_ENOUGH_BALANCE_FOR_FEE"@,
        EngineError::AlreadyRegistered => "ERR_ALREADY_REGISTERED"@,
        EngineError::NotFound => "ERR_NOT_FOUND"@,
        EngineError::InvalidAddress => "ERR_INVALID_ADDRESS"@,
        EngineError::DeployFailed => "ERR_DEPLOY_FAILED"@,
        EngineError::RefundFailure => "ERR_REFUND_FAILURE"@,
    }
}

impl EngineError {
    /// The message with which the host aborts an invocation rejected with this error.
    pub fn message(&self) -> (r: &'static str)
        ensures
            r@ == error_message(*self),
    {
        match self {
            EngineError::NotInitialised => "ERR_STATE_NOT_FOUND",
            EngineError::NotAllowed => "ERR_NOT_ALLOWED",
            EngineError::TooEarly => "ERR_NOT_ALLOWED:TOO_EARLY",
            EngineError::NoUpgrade => "ERR_NO_UPGRADE",
            EngineError::InvalidUpgrade => "ERR_INVALID_UPGRADE",
            EngineError::UpgradeIndexOverflow => "ERR_UPGRADE_INDEX_OVERFLOW",
            EngineError::InvalidEncoding => "ERR_INVALID_ENCODING",
            EngineError::GenerationOverflow => "ERR_GENERATION_OVERFLOW",
            EngineError::InvalidChainId => "ERR_INVALID_CHAIN_ID",
            EngineError::InvalidSignature => "ERR_INVALID_ECDSA_SIGNATURE",
            EngineError::IncorrectNonce => "ERR_INCORRECT_NONCE",
            EngineError::IntrinsicGas => "ERR_INTRINSIC_GAS",
            EngineError::GasOverflow => "ERR_GAS_OVERFLOW",
            EngineError::MaxPriorityFeeGreater => "ERR_MAX_PRIORITY_FEE_GREATER",
            EngineError::BalanceOverflow => "ERR_BALANCE_OVERFLOW",
            EngineError::PrivateCall => "ERR_PRIVATE_CALL",
            EngineError::PromiseCount => "ERR_PROMISE_COUNT",
            EngineError::PromiseFailed => "ERR_PROMISE_FAILED",
            EngineError::PromiseEncoding => "ERR_PROMISE_ENCODING",
            EngineError::VerifyProof => "ERR_VERIFY_PROOF",
            EngineError::ProofAlreadyUsed => "ERR_PROOF_EXIST",
            EngineError::FeeTooHigh => "ERR_NOT_ENOUGH_BALANCE_FOR_FEE",
            EngineError::AlreadyRegistered => "ERR_ALREADY_REGISTERED",
            EngineError::NotFound => "ERR_NOT_FOUND",
            EngineError::InvalidAddress => "ERR_INVALID_ADDRESS",
            EngineError::DeployFailed => "ERR_DEPLOY_FAILED",
            EngineError::RefundFailure => "ERR_REFUND_FAILURE",
        }
    }
}

/// The engine's persistent configuration.
pub struct EngineState {
    /// The chain id that signed transactions must carry.
    pub chain_id: u128,
    /// The account allowed to change the configuration.
    pub owner_id: Vec<u8>,
    /// The account that verifies deposit proofs.
    pub bridge_prover_id: Vec<u8>,
    /// How many blocks a staged upgrade waits before it may be deployed.
    pub upgrade_delay_blocks: u64,
}

impl EngineState {
    pub fn clone_state(&self) -> (r: EngineState)
        ensures
            r.chain_id == self.chain_id,
            r.owner_id@ == self.owner_id@,
            r.bridge_prover_id@ == self.bridge_prover_id@,
            r.upgrade_delay_blocks == self.upgrade_delay_blocks,
    {
        EngineState {
            chain_id: self.chain_id,
            owner_id: copy_bytes(self.owner_id.as_slice()),
            bridge_prover_id: copy_bytes(self.bridge_prover_id.as_slice()),
            upgrade_delay_blocks: self.upgrade_delay_blocks,
        }
    }
}

/// The engine: its configuration singleton and the flat key space.
pub struct Engine {
    pub state: Option<EngineState>,
    pub store: Store,
}

pub open spec fn code_stage_key() -> Seq<u8> {
    key_of(KeyPrefix::Config, CODE_STAGE_KEY@)
}

pub open spec fn staged_code_key() -> Seq<u8> {
    key_of(KeyPrefix::Config, CODE_KEY@)
}

/// The staged block height: `Err(NoUpgrade)` where none is recorded,
/// `Err(InvalidUpgrade)` where the record is not eight bytes.
pub open spec fn staged_height(m: Map<Seq<u8>, Seq<u8>>) -> Result<u64, EngineError> {
    if !m.contains_key(code_stage_key()) {
        Err(EngineError::NoUpgrade)
    } else if m[code_stage_key()].len() != 8 {
        Err(EngineError::InvalidUpgrade)
    } else {
        Ok(spec_u64_from_le_bytes(m[code_stage_key()]))
    }
}

/// What deploying the staged upgrade at `height` yields: the staged code,
/// once `height` exceeds the staged height plus the upgrade delay.
pub open spec fn upgrade_outcome(st: Option<EngineState>, m: Map<Seq<u8>, Seq<u8>>, height: u64)
    -> Result<Seq<u8>, EngineError> {
    if st.is_none() {
        Err(EngineError::NotInitialised)
    } else {
        match staged_height(m) {
            Err(e) => Err(e),
            Ok(h) => if height <= h + st.unwrap().upgrade_delay_blocks {
                Err(EngineError::TooEarly)
            } else if !m.contains_key(staged_code_key()) {
                Err(EngineError::NoUpgrade)
            } else {
                Ok(m[staged_code_key()])
            },
        }
    }
}

/// The balance that a genesis allocation gives to `a`: that of its last entry for `a`.
pub open spec fn genesis_balance(g: Seq<(Address, u128)>, a: Seq<u8>) -> Option<u128>
    decreases g.len(),
{
    if g.len() == 0 {
        None
    } else if g.last().0@ == a {
        Some(g.last().1)
    } else {
        genesis_balance(g.drop_last(), a)
    }
}

/// Every key other than the balance key of a genesis account holds the same
/// value in `m2` as in `m1`.
pub open spec fn keeps_all_but_genesis(
    m1: Map<Seq<u8>, Seq<u8>>,
    m2: Map<Seq<u8>, Seq<u8>>,
    g: Seq<(Address, u128)>,
) -> bool {
    forall|k: Seq<u8>|
        #![trigger m2.contains_key(k)]
        (forall|j: int| 0 <= j < g.len() ==> k != balance_key(g[j].0@)) ==> (m2.contains_key(k)
            == m1.contains_key(k) && (m1.contains_key(k) ==> m2[k] == m1[k]))
}

/// Keys of one table differ where their bodies differ.
pub proof fn lemma_key_injective(p: KeyPrefix, a: Seq<u8>, b: Seq<u8>)
    requires
        a != b,
    ensures
        key_of(p, a) != key_of(p, b),
{
    if key_of(p, a) == key_of(p, b) {
        assert(key_of(p, a).skip(1) =~= a);
        assert(key_of(p, b).skip(1) =~= b);
    }
}

/// Fails unless `predecessor` owns the engine.
pub fn require_owner_only(state: &EngineState, predecessor: &[u8]) -> (r: Result<(), EngineError>)
    ensures
        r.is_ok() == (state.owner_id@ == predecessor@),
        r.is_err() ==> r == Err::<(), EngineError>(EngineError::NotAllowed),
{
    if bytes_eq(state.owner_id.as_slice(), predecessor) {
        Ok(())
    } else {
        Err(EngineError::NotAllowed)
    }
}

impl Engine {
    /// An engine with no configuration and an empty key space.
    pub fn empty() -> (r: Engine)
        ensures
            r.state.is_none(),
            r.store@ == Map::<Seq<u8>, Seq<u8>>::empty(),
    {
        Engine { state: None, store: Store::new() }
    }

    /// Sets the configuration. Once one is set, only its owner may replace it.
    pub fn new_state(&mut self, predecessor: &[u8], args: EngineState) -> (r: Result<
        (),
        EngineError,
    >)
        ensures
            final(self).store@ == old(self).store@,
            match old(self).state {
                Some(s) => if s.owner_id@ == predecessor@ {
                    r.is_ok() && final(self).state == Some(args)
                } else {
                    r == Err::<(), EngineError>(EngineError::NotAllowed) && final(self).state
                        == old(self).state
                },
                None => r.is_ok() && final(self).state == Some(args),
            },
    {
        match &self.state {
            Some(s) => {
                require_owner_only(s, predecessor)?;
            },
            None => {},
        }
        self.state = Some(args);
        Ok(())
    }

    pub fn get_state(&self) -> (r: Result<&EngineState, EngineError>)
        ensures
            match self.state {
                Some(s) => r == Ok::<&EngineState, EngineError>(&s),
                None => r == Err::<&EngineState, EngineError>(EngineError::NotInitialised),
            },
    {
        match &self.state {
            Some(s) => Ok(s),
            None => Err(EngineError::NotInitialised),
        }
    }

    pub fn get_owner(&self) -> (r: Result<Vec<u8>, EngineError>)
        ensures
            match self.state {
                Some(s) => r.is_ok() && r.unwrap()@ == s.owner_id@,
                None => r == Err::<Vec<u8>, EngineError>(EngineError::NotInitialised),
            },
    {
        let s = self.get_state()?;
        Ok(copy_bytes(s.owner_id.as_slice()))
    }

    pub fn get_bridge_prover(&self) -> (r: Result<Vec<u8>, EngineError>)
        ensures
            match self.state {
                Some(s) => r.is_ok() && r.unwrap()@ == s.bridge_prover_id@,
                None => r == Err::<Vec<u8>, EngineError>(EngineError::NotInitialised),
            },
    {
        let s = self.get_state()?;
        Ok(copy_bytes(s.bridge_prover_id.as_slice()))
    }

    pub fn get_chain_id(&self) -> (r: Result<u128, EngineError>)
        ensures
            match self.state {
                Some(s) => r == Ok::<u128, EngineError>(s.chain_id),
                None => r == Err::<u128, EngineError>(EngineError::NotInitialised),
            },
    {
        let s = self.get_state()?;
        Ok(s.chain_id)
    }

    /// The block height recorded by the last staging.
    pub fn internal_get_upgrade_index(&self) -> (r: Result<u64, EngineError>)
        ensures
            r == staged_height(self.store@),
    {
        match self.store.read_u64(bytes_to_key(KeyPrefix::Config, &CODE_STAGE_KEY).as_slice()) {
            Ok(h) => Ok(h),
            Err(ReadU64Error::InvalidU64) => Err(EngineError::InvalidUpgrade),
            Err(ReadU64Error::MissingValue) => Err(EngineError::NoUpgrade),
        }
    }

    /// The first block height at which the staged code may be deployed, less one.
    pub fn get_upgrade_index(&self) -> (r: Result<u64, EngineError>)
        ensures
            self.state.is_none() ==> r == Err::<u64, EngineError>(EngineError::NotInitialised),
            self.state.is_some() && staged_height(self.store@).is_err() ==> r == Err::<
                u64,
                EngineError,
            >(staged_height(self.store@)->Err_0),
            self.state.is_some() && staged_height(self.store@).is_ok() ==> {
                let sum = staged_height(self.store@)->Ok_0
                    + self.state.unwrap().upgrade_delay_blocks;
                &&& sum <= u64::MAX ==> r == Ok::<u64, EngineError>(sum as u64)
                &&& sum > u64::MAX ==> r == Err::<u64, EngineError>(
                    EngineError::UpgradeIndexOverflow,
                )
            },
    {
        let s = self.get_state()?;
        let index = self.internal_get_upgrade_index()?;
        match index.checked_add(s.upgrade_delay_blocks) {
            Some(v) => Ok(v),
            None => Err(EngineError::UpgradeIndexOverflow),
        }
    }

    /// Stages `code` for a later upgrade, recording the current block height.
    pub fn stage_upgrade(&mut self, predecessor: &[u8], block_height: u64, code: &[u8]) -> (r:
        Result<(), EngineError>)
        ensures
            final(self).state == old(self).state,
            r.is_ok() == (old(self).state.is_some() && old(self).state.unwrap().owner_id@
                == predecessor@),
            r.is_err() ==> final(self).store@ == old(self).store@,
            old(self).state.is_none() ==> r == Err::<(), EngineError>(
                EngineError::NotInitialised,
            ),
            old(self).state.is_some() && r.is_err() ==> r == Err::<(), EngineError>(
                EngineError::NotAllowed,
            ),
            r.is_ok() ==> final(self).store@ == old(self).store@.insert(
                staged_code_key(),
                code@,
            ).insert(code_stage_key(), spec_u64_to_le_bytes(block_height)),
            r.is_ok() ==> staged_height(final(self).store@) == Ok::<u64, EngineError>(
                block_height,
            ),
    {
        let s = self.get_state()?;
        require_owner_only(s, predecessor)?;
        self.store.write(bytes_to_key(KeyPrefix::Config, &CODE_KEY).as_slice(), code);
        let h = u64_to_le_bytes(block_height);
        self.store.write(bytes_to_key(KeyPrefix::Config, &CODE_STAGE_KEY).as_slice(), h.as_slice());
        proof {
            lemma_auto_spec_u64_to_from_le_bytes();
        }
        Ok(())
    }

    /// Takes the staged code for deployment once the upgrade delay has passed
    /// (the height must exceed the staged height plus the delay). The stage
    /// record is consumed, so each staging is deployed at most once.
    pub fn deploy_upgrade(&mut self, block_height: u64) -> (r: Result<Vec<u8>, EngineError>)
        ensures
            final(self).state == old(self).state,
            match upgrade_outcome(old(self).state, old(self).store@, block_height) {
                Ok(code) => r.is_ok() && r.unwrap()@ == code && final(self).store@ == old(
                    self).store@.remove(code_stage_key()),
                Err(e) => r == Err::<Vec<u8>, EngineError>(e) && final(self).store@ == old(
                    self).store@,
            },
    {
        let s = self.get_state()?;
        let delay = s.upgrade_delay_blocks;
        let index = self.internal_get_upgrade_index()?;
        if (block_height as u128) <= (index as u128) + (delay as u128) {
            return Err(EngineError::TooEarly);
        }
        let code = match self.store.read(bytes_to_key(KeyPrefix::Config, &CODE_KEY).as_slice()) {
            Some(c) => c,
            None => {
                return Err(EngineError::NoUpgrade);
            },
        };
        self.store.remove(bytes_to_key(KeyPrefix::Config, &CODE_STAGE_KEY).as_slice());
        Ok(code)
    }

    /// Records the EVM address that rewards for `relayer_account` go to.
    pub fn register_relayer(&mut self, relayer_account: &[u8], address: &Address)
        ensures
            final(self).state == old(self).state,
            final(self).store@ == old(self).store@.insert(
                key_of(KeyPrefix::RelayerEvmAddressMap, relayer_account@),
                address@,
            ),
    {
        let key = bytes_to_key(KeyPrefix::RelayerEvmAddressMap, relayer_account);
        self.store.write(key.as_slice(), address);
    }

    /// The EVM address registered for `relayer_account`, if any.
    pub fn get_relayer(&self, relayer_account: &[u8]) -> (r: Option<Vec<u8>>)
        ensures
            match r {
                Some(a) => self.store@.contains_key(
                    key_of(KeyPrefix::RelayerEvmAddressMap, relayer_account@),
                ) && a@ == self.store@[key_of(KeyPrefix::RelayerEvmAddressMap, relayer_account@)],
                None => !self.store@.contains_key(
                    key_of(KeyPrefix::RelayerEvmAddressMap, relayer_account@),
                ),
            },
    {
        self.store.read(bytes_to_key(KeyPrefix::RelayerEvmAddressMap, relayer_account).as_slice())
    }

    /// Owner-only: sets the chain id and the genesis balances. The owner, the
    /// bridge prover and the upgrade delay stay, and so does every key other
    /// than the balance keys of the genesis accounts.
    pub fn begin_chain(&mut self, predecessor: &[u8], chain_id: u128, genesis: &Vec<(Address, u128)>)
        -> (r: Result<(), EngineError>)
        ensures
            old(self).state.is_none() ==> r == Err::<(), EngineError>(
                EngineError::NotInitialised,
            ),
            old(self).state.is_some() && old(self).state.unwrap().owner_id@ != predecessor@ ==> r
                == Err::<(), EngineError>(EngineError::NotAllowed),
            r.is_ok() == (old(self).state.is_some() && old(self).state.unwrap().owner_id@
                == predecessor@),
            r.is_err() ==> final(self).store@ == old(self).store@ && final(self).state == old(self).state,
            r.is_ok() ==> final(self).state == Some(
                (EngineState { chain_id, ..old(self).state.unwrap() }),
            ),
            r.is_ok() ==> forall|a: Seq<u8>|
                #![trigger genesis_balance(genesis@, a)]
                genesis_balance(genesis@, a).is_some() ==> crate::accounts::balance_of(
                    final(self).store@,
                    a,
                ) == genesis_balance(genesis@, a),
            r.is_ok() ==> keeps_all_but_genesis(old(self).store@, final(self).store@, genesis@),
    {
        match &self.state {
            None => {
                return Err(EngineError::NotInitialised);
            },
            Some(s) => {
                require_owner_only(s, predecessor)?;
            },
        }
        match &mut self.state {
            Some(s) => {
                s.chain_id = chain_id;
            },
            None => {},
        }
        let ghost start = self.store@;
        let mut i: usize = 0;
        while i < genesis.len()
            invariant
                i <= genesis@.len(),
                self.state == Some((EngineState { chain_id, ..old(self).state.unwrap() })),
                old(self).state.is_some(),
                start == old(self).store@,
                keeps_all_but_genesis(start, self.store@, genesis@.take(i as int)),
                forall|a: Seq<u8>|
                    #![trigger genesis_balance(genesis@.take(i as int), a)]
                    genesis_balance(genesis@.take(i as int), a).is_some() ==> crate::accounts::balance_of(
                        self.store@,
                        a,
                    ) == genesis_balance(genesis@.take(i as int), a),
            decreases genesis@.len() - i,
        {
            let (a, v) = genesis[i];
            let ghost before = self.store@;
            set_balance(&mut self.store, &a, v);
            proof {
                let t = genesis@.take(i + 1);
                assert(t.drop_last() =~= genesis@.take(i as int));
                assert(t.last() == genesis@[i as int]);
                assert(a == genesis@[i as int].0 && v == genesis@[i as int].1);
                assert forall|b: Seq<u8>|
                    #![trigger genesis_balance(t, b)]
                    genesis_balance(t, b).is_some() implies crate::accounts::balance_of(
                        self.store@,
                        b,
                    ) == genesis_balance(t, b) by {
                    if b != a@ {
                        lemma_key_injective(KeyPrefix::Balance, a@, b);
                        assert(genesis_balance(t, b) == genesis_balance(genesis@.take(i as int), b));
                        assert(crate::accounts::balance_of(self.store@, b)
                            == crate::accounts::balance_of(before, b));
                    }
                }
                assert forall|k: Seq<u8>|
                    #![trigger self.store@.contains_key(k)]
                    (forall|j: int| 0 <= j < t.len() ==> k != balance_key(t[j].0@)) implies (
                    self.store@.contains_key(k) == start.contains_key(k) && (start.contains_key(k)
                        ==> self.store@[k] == start[k])) by {
                    assert(k != balance_key(t[i as int].0@));
                    assert forall|j: int| 0 <= j < i implies k != balance_key(
                        genesis@.take(i as int)[j].0@,
                    ) by {
                        assert(genesis@.take(i as int)[j] == t[j]);
                    }
                }
            }
            i = i + 1;
        }
        assert(genesis@.take(genesis@.len() as int) =~= genesis@);
        Ok(())
    }

    /// Owner-only: marks the start of a block; nothing else is recorded.
    pub fn begin_block(&self, predecessor: &[u8]) -> (r: Result<(), EngineError>)
        ensures
            r.is_ok() == (self.state.is_some() && self.state.unwrap().owner_id@ == predecessor@),
    {
        let s = self.get_state()?;
        require_owner_only(s, predecessor)
    }
}

} // verus!
