use aurora_engine::accounts::{
    get_balance, get_code, get_generation, get_nonce, get_storage_at, set_balance, set_code,
    set_nonce, set_storage, Address,
};
use aurora_engine::bridge::{
    check_refund_result, erc20_deploy_input, ft_on_transfer_refund, OnTransferAction, mint_call_input, refund_on_error, FinishDepositArgs,
    PromiseResult, RefundAction, RefundCallArgs, ERC20_MINT_SELECTOR,
};
use aurora_engine::engine::{Engine, EngineError, EngineState};
use aurora_engine::env::{HostContext, Timestamp};
use aurora_engine::store::{
    be_word_to_u128, bytes_to_key, u128_to_be_word, KeyPrefix, ReadU64Error, Store,
};
use aurora_engine::submit::{Admission, Apply, TransactionStatus};
use aurora_engine::transaction::{AccessTuple, NormalizedEthTransaction};

const SENDER: Address = [0x11; 20];
const RELAYER: Address = [0x22; 20];
const TARGET: Address = [0x33; 20];

fn engine(chain_id: u128) -> Engine {
    let mut e = Engine::empty();
    let st = EngineState {
        chain_id,
        owner_id: b"owner.near".to_vec(),
        bridge_prover_id: b"prover.near".to_vec(),
        upgrade_delay_blocks: 10,
    };
    e.new_state(b"anyone", st).unwrap();
    e
}

fn tx(chain_id: Option<u64>, nonce: u128, gas_limit: u128, fee: u128) -> NormalizedEthTransaction {
    NormalizedEthTransaction {
        address: Some(SENDER),
        chain_id,
        nonce,
        gas_limit,
        max_priority_fee_per_gas: fee,
        max_fee_per_gas: fee,
        to: Some(TARGET),
        value: 0,
        data: Vec::new(),
        access_list: Vec::new(),
    }
}

fn ctx(predecessor: &[u8], deposit: u128) -> HostContext {
    HostContext {
        signer_account_id: b"user.near".to_vec(),
        current_account_id: b"aurora".to_vec(),
        predecessor_account_id: predecessor.to_vec(),
        block_height: 100,
        block_timestamp_ns: 0,
        attached_deposit: deposit,
    }
}

#[test]
fn timestamp_units() {
    let t = Timestamp::new(3_500_000_000);
    assert_eq!(t.nanos(), 3_500_000_000);
    assert_eq!(t.millis(), 3_500);
    assert_eq!(t.secs(), 3);
}

#[test]
fn store_write_read_remove() {
    let mut s = Store::new();
    assert_eq!(s.read(b"k"), None);
    s.write(b"k", b"v1");
    s.write(b"k", b"v2");
    assert_eq!(s.read(b"k"), Some(b"v2".to_vec()));
    s.remove(b"k");
    assert_eq!(s.read(b"k"), None);
    assert!(!s.has_key(b"k"));
}

#[test]
fn store_read_u64_errors() {
    let mut s = Store::new();
    assert_eq!(s.read_u64(b"h"), Err(ReadU64Error::MissingValue));
    s.write(b"h", &[1, 2, 3]);
    assert_eq!(s.read_u64(b"h"), Err(ReadU64Error::InvalidU64));
    s.write(b"h", &7u64.to_le_bytes());
    assert_eq!(s.read_u64(b"h"), Ok(7));
}

#[test]
fn keys_are_prefixed() {
    assert_eq!(bytes_to_key(KeyPrefix::Config, b"CODE"), vec![0, b'C', b'O', b'D', b'E']);
    assert_eq!(bytes_to_key(KeyPrefix::Storage, &[9]), vec![4, 9]);
}

#[test]
fn big_endian_word_round_trip() {
    let w = u128_to_be_word(0x0102);
    assert_eq!(w.len(), 32);
    assert_eq!(w[30], 1);
    assert_eq!(w[31], 2);
    assert!(w[..30].iter().all(|b| *b == 0));
    assert_eq!(be_word_to_u128(&w), Some(0x0102));
    let mut high = w.clone();
    high[0] = 1;
    assert_eq!(be_word_to_u128(&high), None);
    assert_eq!(be_word_to_u128(&[0; 31]), None);
}

#[test]
fn zero_storage_write_deletes_key() {
    let mut s = Store::new();
    let slot = [5u8; 32];
    let mut value = [0u8; 32];
    value[31] = 9;
    set_storage(&mut s, &SENDER, &slot, 0, &value);
    assert_eq!(get_storage_at(&s, &SENDER, &slot).unwrap(), value.to_vec());
    set_storage(&mut s, &SENDER, &slot, 0, &[0u8; 32]);
    assert_eq!(get_storage_at(&s, &SENDER, &slot).unwrap(), vec![0u8; 32]);
    let mut key = vec![4u8];
    key.extend_from_slice(&SENDER);
    key.extend_from_slice(&0u32.to_le_bytes());
    key.extend_from_slice(&slot);
    assert!(!s.has_key(&key));
}

#[test]
fn intrinsic_gas_values() {
    let mut t = tx(None, 0, 0, 0);
    assert_eq!(t.intrinsic_gas(), Some(21_000));
    t.data = vec![0, 0, 1];
    assert_eq!(t.intrinsic_gas(), Some(21_000 + 4 + 4 + 16));
    t.to = None;
    assert_eq!(t.intrinsic_gas(), Some(53_000 + 24));
    t.access_list = vec![AccessTuple { address: TARGET, storage_keys: vec![[0u8; 32], [1u8; 32]] }];
    assert_eq!(t.intrinsic_gas(), Some(53_000 + 24 + 2_400 + 2 * 1_900));
}

#[test]
fn wrong_chain_id_is_rejected_without_writes() {
    let mut e = engine(1);
    set_balance(&mut e.store, &SENDER, 1_000_000);
    let r = e.begin_submit(&tx(Some(2), 0, 21_000, 1));
    assert!(matches!(r, Err(EngineError::InvalidChainId)));
    assert_eq!(get_nonce(&e.store, &SENDER), Ok(0));
    assert_eq!(get_balance(&e.store, &SENDER), Ok(1_000_000));
}

#[test]
fn out_of_fund_advances_nonce_only() {
    let mut e = engine(1);
    let r = e.begin_submit(&tx(Some(1), 0, 21_000, 1));
    match r {
        Ok(Admission::OutOfFund(res)) => {
            assert!(matches!(res.status, TransactionStatus::OutOfFund));
            assert_eq!(res.gas_used, 0);
            assert!(res.logs.is_empty());
        }
        _ => panic!("expected OutOfFund"),
    }
    assert_eq!(get_nonce(&e.store, &SENDER), Ok(1));
    assert_eq!(get_balance(&e.store, &SENDER), Ok(0));
}

#[test]
fn admission_errors() {
    let mut e = engine(1);
    set_balance(&mut e.store, &SENDER, 1_000_000);
    assert!(matches!(e.begin_submit(&tx(None, 3, 21_000, 1)), Err(EngineError::IncorrectNonce)));
    assert!(matches!(e.begin_submit(&tx(None, 0, 20_999, 1)), Err(EngineError::IntrinsicGas)));
    let mut t = tx(None, 0, 21_000, 2);
    t.max_fee_per_gas = 1;
    assert!(matches!(e.begin_submit(&t), Err(EngineError::MaxPriorityFeeGreater)));
    let mut t = tx(None, 0, 21_000, 1);
    t.address = None;
    assert!(matches!(e.begin_submit(&t), Err(EngineError::InvalidSignature)));
    let t = tx(None, 0, u128::MAX, 2);
    assert!(matches!(e.begin_submit(&t), Err(EngineError::GasOverflow)));
    let mut fresh = Engine::empty();
    assert!(matches!(fresh.begin_submit(&tx(None, 0, 21_000, 1)), Err(EngineError::NotInitialised)));
    assert_eq!(get_nonce(&e.store, &SENDER), Ok(0));
}

#[test]
fn submit_charges_gas_and_refunds() {
    let mut e = engine(1);
    set_balance(&mut e.store, &SENDER, 1_000_000);
    let mut t = tx(Some(1), 0, 50_000, 2);
    t.value = 100;
    let charge = match e.begin_submit(&t) {
        Ok(Admission::Execute(c)) => c,
        _ => panic!("expected execution"),
    };
    assert_eq!(charge.prepaid, 100_000);
    assert_eq!(get_balance(&e.store, &SENDER), Ok(900_000));
    assert_eq!(get_nonce(&e.store, &SENDER), Ok(1));
    // The EVM moved the value to the target and bumped the sender's nonce.
    let applies = vec![
        Apply::Modify {
            address: SENDER,
            balance: 900_000 - 100,
            nonce: 2,
            code: None,
            storage: Vec::new(),
            reset_storage: false,
        },
        Apply::Modify {
            address: TARGET,
            balance: 100,
            nonce: 0,
            code: None,
            storage: Vec::new(),
            reset_storage: false,
        },
    ];
    let res = e
        .finish_submit(&charge, TransactionStatus::Succeed(vec![1]), 30_000, Vec::new(), &applies, &RELAYER)
        .unwrap();
    assert_eq!(res.gas_used, 30_000);
    assert_eq!(get_nonce(&e.store, &SENDER), Ok(1));
    assert_eq!(get_balance(&e.store, &SENDER), Ok(1_000_000 - 100 - 60_000));
    assert_eq!(get_balance(&e.store, &TARGET), Ok(100));
    assert_eq!(get_balance(&e.store, &RELAYER), Ok(60_000));
}

#[test]
fn reverted_execution_discards_changes() {
    let mut e = engine(1);
    set_balance(&mut e.store, &SENDER, 1_000_000);
    let charge = match e.begin_submit(&tx(None, 0, 21_000, 1)) {
        Ok(Admission::Execute(c)) => c,
        _ => panic!("expected execution"),
    };
    let applies = vec![Apply::Delete { address: TARGET }];
    set_code(&mut e.store, &TARGET, &[0x60]);
    e.finish_submit(&charge, TransactionStatus::Revert(Vec::new()), 21_000, Vec::new(), &applies, &RELAYER)
        .unwrap();
    assert_eq!(get_code(&e.store, &TARGET), vec![0x60]);
    assert_eq!(get_balance(&e.store, &SENDER), Ok(1_000_000 - 21_000));
    assert_eq!(get_nonce(&e.store, &SENDER), Ok(1));
    let too_much = e.finish_submit(&charge, TransactionStatus::OutOfGas, 21_001, Vec::new(), &Vec::new(), &RELAYER);
    assert!(matches!(too_much, Err(EngineError::GasOverflow)));
}

#[test]
fn selfdestruct_hides_old_slots() {
    let mut e = engine(1);
    let slot = [1u8; 32];
    let value = [7u8; 32];
    set_code(&mut e.store, &TARGET, &[0x60, 0x00]);
    set_balance(&mut e.store, &TARGET, 5);
    set_storage(&mut e.store, &TARGET, &slot, 0, &value);
    assert_eq!(get_storage_at(&e.store, &TARGET, &slot).unwrap(), value.to_vec());
    aurora_engine::submit::apply_all(&mut e.store, &vec![Apply::Delete { address: TARGET }], None).unwrap();
    assert_eq!(get_generation(&e.store, &TARGET), Ok(1));
    assert_eq!(get_storage_at(&e.store, &TARGET, &slot).unwrap(), vec![0u8; 32]);
    assert!(get_code(&e.store, &TARGET).is_empty());
    assert_eq!(get_balance(&e.store, &TARGET), Ok(0));
}

#[test]
fn modify_with_reset_and_code() {
    let mut s = Store::new();
    set_nonce(&mut s, &TARGET, 4);
    let mut v = [0u8; 32];
    v[0] = 1;
    let change = Apply::Modify {
        address: TARGET,
        balance: 9,
        nonce: 5,
        code: Some(vec![0xfe]),
        storage: vec![([2u8; 32], v)],
        reset_storage: true,
    };
    aurora_engine::submit::apply_one(&mut s, &change, None).unwrap();
    assert_eq!(get_nonce(&s, &TARGET), Ok(5));
    assert_eq!(get_balance(&s, &TARGET), Ok(9));
    assert_eq!(get_code(&s, &TARGET), vec![0xfe]);
    assert_eq!(get_generation(&s, &TARGET), Ok(1));
    assert_eq!(get_storage_at(&s, &TARGET, &[2u8; 32]).unwrap(), v.to_vec());
}

#[test]
fn token_map_registration() {
    let mut e = engine(1);
    let erc20: Address = [0xaa; 20];
    e.register_token(&erc20, b"usdc.test").unwrap();
    assert_eq!(e.get_erc20_from_nep141(b"usdc.test").unwrap(), erc20.to_vec());
    assert_eq!(e.get_nep141_from_erc20(&erc20).unwrap(), b"usdc.test".to_vec());
    assert!(matches!(e.register_token(&[0xbb; 20], b"usdc.test"), Err(EngineError::AlreadyRegistered)));
    assert!(matches!(e.register_token(&erc20, b"dai.test"), Err(EngineError::AlreadyRegistered)));
    assert!(matches!(e.get_erc20_from_nep141(b"dai.test"), Err(EngineError::NotFound)));
}

#[test]
fn erc20_deploy_registers_returned_address() {
    let mut e = engine(1);
    let addr = vec![0xcc; 20];
    let a = e.finish_erc20_deploy(&TransactionStatus::Succeed(addr.clone()), b"usdc.test").unwrap();
    assert_eq!(a.to_vec(), addr);
    assert_eq!(e.get_nep141_from_erc20(&a).unwrap(), b"usdc.test".to_vec());
    assert!(matches!(
        e.finish_erc20_deploy(&TransactionStatus::Succeed(vec![1, 2]), b"x"),
        Err(EngineError::InvalidAddress)
    ));
    assert!(matches!(
        e.finish_erc20_deploy(&TransactionStatus::OutOfGas, b"x"),
        Err(EngineError::DeployFailed)
    ));
}

#[test]
fn erc20_deploy_input_appends_constructor_args() {
    let code = vec![0x60, 0x80];
    let input = erc20_deploy_input(&code, &[0x44; 20]);
    assert_eq!(&input[..2], &code[..]);
    // name offset, symbol offset, decimals, admin, then the two strings.
    assert_eq!(input.len(), 2 + 8 * 32);
    assert_eq!(&input[2 + 3 * 32 + 12..2 + 4 * 32], &[0x44; 20]);
}

#[test]
fn mint_input_layout() {
    let input = mint_call_input(&[0x55; 20], 1000);
    assert_eq!(input.len(), 4 + 64);
    assert_eq!(&input[..4], &ERC20_MINT_SELECTOR);
    assert_eq!(&input[4..16], &[0u8; 12]);
    assert_eq!(&input[16..36], &[0x55; 20]);
    assert_eq!(input[66], 0x03);
    assert_eq!(input[67], 0xe8);
}

#[test]
fn ft_on_transfer_mints_associated_token() {
    let mut e = engine(1);
    let erc20: Address = [0xaa; 20];
    e.register_token(&erc20, b"usdc.test").unwrap();
    match e.ft_on_transfer(&ctx(b"usdc.test", 0), &SENDER, 1000).unwrap() {
        OnTransferAction::MintErc20 { erc20: target, input } => {
            assert_eq!(target, erc20.to_vec());
            assert_eq!(input, mint_call_input(&SENDER, 1000));
        }
        _ => panic!("expected a mint"),
    }
    assert_eq!(ft_on_transfer_refund(&TransactionStatus::Succeed(Vec::new()), 1000), 0);
    assert_eq!(ft_on_transfer_refund(&TransactionStatus::Revert(Vec::new()), 1000), 1000);
    assert_eq!(ft_on_transfer_refund(&TransactionStatus::OutOfGas, 1000), 1000);
}

#[test]
fn ft_on_transfer_of_unmapped_token_hands_everything_back() {
    let mut e = engine(1);
    assert!(matches!(e.ft_on_transfer(&ctx(b"other.test", 0), &SENDER, 7), Ok(OnTransferAction::Refund(7))));
    assert_eq!(get_balance(&e.store, &SENDER), Ok(0));
}

#[test]
fn ft_on_transfer_of_bridged_eth_credits_balance() {
    let mut e = engine(1);
    assert!(matches!(e.ft_on_transfer(&ctx(b"aurora", 0), &SENDER, 250), Ok(OnTransferAction::Refund(0))));
    assert_eq!(get_balance(&e.store, &SENDER), Ok(250));
    set_balance(&mut e.store, &TARGET, u128::MAX);
    assert!(matches!(e.ft_on_transfer(&ctx(b"aurora", 0), &TARGET, 1), Err(EngineError::BalanceOverflow)));
    assert_eq!(get_balance(&e.store, &TARGET), Ok(u128::MAX));
}

#[test]
fn block_hash_uses_configured_chain() {
    let e = engine(1313161554);
    assert_eq!(
        e.get_block_hash(10, b"aurora").unwrap(),
        aurora_engine::keccak::compute_block_hash(1313161554, 10, b"aurora")
    );
    assert!(matches!(Engine::empty().get_block_hash(10, b"aurora"), Err(EngineError::NotInitialised)));
}

#[test]
fn deposit_then_finish_deposit() {
    let mut e = engine(1);
    let p = e.deposit(&ctx(b"user.near", 0), b"proof-1", b"raw").unwrap();
    assert_eq!(p.prover, b"prover.near".to_vec());
    assert_eq!(p.proof, b"raw".to_vec());
    assert_eq!(p.callback_account, b"aurora".to_vec());
    let args = FinishDepositArgs {
        new_owner: SENDER,
        amount: 77,
        proof_key: b"proof-1".to_vec(),
        relayer: RELAYER,
        fee: 7,
    };
    let ok = vec![PromiseResult::Successful(vec![1])];
    e.finish_deposit(&ctx(b"aurora", 0), &ok, &args).unwrap();
    assert_eq!(get_balance(&e.store, &SENDER), Ok(70));
    assert_eq!(get_balance(&e.store, &RELAYER), Ok(7));
    assert_eq!(e.ft_total_eth_supply_on_aurora(), Ok(77));
    assert!(e.is_used_proof(b"proof-1"));
    assert!(matches!(e.finish_deposit(&ctx(b"aurora", 0), &ok, &args), Err(EngineError::ProofAlreadyUsed)));
    assert_eq!(get_balance(&e.store, &SENDER), Ok(70));
    assert_eq!(e.ft_total_eth_supply_on_aurora(), Ok(77));
    assert!(matches!(e.deposit(&ctx(b"user.near", 0), b"proof-1", b"raw"), Err(EngineError::ProofAlreadyUsed)));
}

#[test]
fn finish_deposit_guards() {
    let mut e = engine(1);
    let args = FinishDepositArgs { new_owner: SENDER, amount: 1, proof_key: b"k".to_vec(), relayer: RELAYER, fee: 0 };
    let ok = vec![PromiseResult::Successful(vec![1])];
    assert!(matches!(e.finish_deposit(&ctx(b"mallory", 0), &ok, &args), Err(EngineError::PrivateCall)));
    assert!(matches!(e.finish_deposit(&ctx(b"aurora", 0), &Vec::new(), &args), Err(EngineError::PromiseCount)));
    let no = vec![PromiseResult::Successful(vec![0])];
    assert!(matches!(e.finish_deposit(&ctx(b"aurora", 0), &no, &args), Err(EngineError::VerifyProof)));
    let bad = vec![PromiseResult::Successful(vec![2])];
    assert!(matches!(e.finish_deposit(&ctx(b"aurora", 0), &bad, &args), Err(EngineError::PromiseEncoding)));
    let long = vec![PromiseResult::Successful(vec![1, 0])];
    assert!(matches!(e.finish_deposit(&ctx(b"aurora", 0), &long, &args), Err(EngineError::PromiseEncoding)));
    let failed = vec![PromiseResult::Failed];
    assert!(matches!(e.finish_deposit(&ctx(b"aurora", 0), &failed, &args), Err(EngineError::PromiseFailed)));
    assert!(!e.is_used_proof(b"k"));
    let greedy = FinishDepositArgs { new_owner: SENDER, amount: 1, proof_key: b"k".to_vec(), relayer: RELAYER, fee: 2 };
    let ok = vec![PromiseResult::Successful(vec![1])];
    assert!(matches!(e.finish_deposit(&ctx(b"aurora", 0), &ok, &greedy), Err(EngineError::FeeTooHigh)));
    set_balance(&mut e.store, &SENDER, u128::MAX);
    assert!(matches!(e.finish_deposit(&ctx(b"aurora", 0), &ok, &args), Err(EngineError::BalanceOverflow)));
    assert!(!e.is_used_proof(b"k"));
}

#[test]
fn refund_on_failed_exit() {
    let args = RefundCallArgs { recipient_address: SENDER, erc20_address: None, amount: 5 };
    let failed = vec![PromiseResult::Failed];
    match refund_on_error(&ctx(b"aurora", 0), &failed, &args) {
        Ok(RefundAction::ReturnEth { to, amount }) => {
            assert_eq!(to, SENDER);
            assert_eq!(amount, 5);
        }
        _ => panic!("expected a native refund"),
    }
    let ok = vec![PromiseResult::Successful(Vec::new())];
    assert!(matches!(refund_on_error(&ctx(b"aurora", 0), &ok, &args), Ok(RefundAction::Nothing)));
    assert!(matches!(refund_on_error(&ctx(b"aurora", 0), &vec![], &args), Err(EngineError::PromiseCount)));
    assert!(matches!(refund_on_error(&ctx(b"x", 0), &failed, &args), Err(EngineError::PrivateCall)));
    let erc = RefundCallArgs { recipient_address: SENDER, erc20_address: Some(TARGET), amount: 5 };
    match refund_on_error(&ctx(b"aurora", 0), &failed, &erc) {
        Ok(RefundAction::MintErc20 { erc20, input }) => {
            assert_eq!(erc20, TARGET);
            assert_eq!(input, mint_call_input(&SENDER, 5));
        }
        _ => panic!("expected a re-mint"),
    }
    assert!(check_refund_result(&TransactionStatus::Succeed(Vec::new())).is_ok());
    assert!(matches!(check_refund_result(&TransactionStatus::OutOfGas), Err(EngineError::RefundFailure)));
}

#[test]
fn upgrade_is_staged_then_deployed_once() {
    let mut e = engine(1);
    assert!(matches!(e.stage_upgrade(b"mallory", 100, b"code"), Err(EngineError::NotAllowed)));
    assert!(matches!(e.deploy_upgrade(200), Err(EngineError::NoUpgrade)));
    e.stage_upgrade(b"owner.near", 100, b"code").unwrap();
    assert_eq!(e.get_upgrade_index(), Ok(110));
    assert!(matches!(e.deploy_upgrade(105), Err(EngineError::TooEarly)));
    assert!(matches!(e.deploy_upgrade(110), Err(EngineError::TooEarly)));
    assert_eq!(e.deploy_upgrade(111).unwrap(), b"code".to_vec());
    assert!(matches!(e.deploy_upgrade(112), Err(EngineError::NoUpgrade)));
}

#[test]
fn owner_controls_configuration() {
    let mut e = engine(1);
    assert_eq!(e.get_owner().unwrap(), b"owner.near".to_vec());
    assert_eq!(e.get_bridge_prover().unwrap(), b"prover.near".to_vec());
    assert_eq!(e.get_chain_id(), Ok(1));
    let other = EngineState {
        chain_id: 9,
        owner_id: b"x".to_vec(),
        bridge_prover_id: b"y".to_vec(),
        upgrade_delay_blocks: 0,
    };
    assert!(matches!(e.new_state(b"mallory", other), Err(EngineError::NotAllowed)));
    assert_eq!(e.get_chain_id(), Ok(1));
    e.begin_chain(b"owner.near", 7, &vec![(SENDER, 10), (TARGET, 20), (SENDER, 30)]).unwrap();
    assert_eq!(e.get_chain_id(), Ok(7));
    assert_eq!(get_balance(&e.store, &SENDER), Ok(30));
    assert_eq!(get_balance(&e.store, &TARGET), Ok(20));
    assert!(matches!(e.begin_block(b"mallory"), Err(EngineError::NotAllowed)));
    assert!(e.begin_block(b"owner.near").is_ok());
    assert!(matches!(Engine::empty().get_owner(), Err(EngineError::NotInitialised)));
}

#[test]
fn relayer_and_account_fixture() {
    let mut e = engine(1);
    e.register_relayer(b"relayer.near", &RELAYER);
    assert_eq!(e.store.read(&bytes_to_key(KeyPrefix::RelayerEvmAddressMap, b"relayer.near")), Some(RELAYER.to_vec()));
    assert_eq!(e.get_relayer(b"relayer.near"), Some(RELAYER.to_vec()));
    assert_eq!(e.get_relayer(b"other.near"), None);
    let p = e.mint_account(&ctx(b"x", 0), &SENDER, 3, 44).unwrap();
    assert_eq!(p.verify_account, b"aurora".to_vec());
    assert_eq!(p.callback_account, b"aurora".to_vec());
    assert_eq!(p.finish.amount, 44);
    assert_eq!(p.finish.fee, 0);
    assert!(p.finish.proof_key.is_empty());
    assert_eq!(p.finish.new_owner, aurora_engine::keccak::near_account_to_evm_address(b"aurora"));
    e.finish_deposit(&ctx(b"aurora", 0), &vec![PromiseResult::Successful(vec![1])], &p.finish).unwrap();
    assert_eq!(e.ft_total_eth_supply_on_aurora(), Ok(44));
    assert_eq!(get_nonce(&e.store, &SENDER), Ok(3));
    assert_eq!(get_balance(&e.store, &SENDER), Ok(44));
}

#[test]
fn host_guards() {
    assert!(ctx(b"aurora", 0).assert_private_call().is_ok());
    assert!(ctx(b"other", 0).assert_private_call().is_err());
    assert!(ctx(b"x", 1).assert_one_yocto().is_ok());
    assert!(ctx(b"x", 2).assert_one_yocto().is_err());
}

#[test]
fn rejection_messages() {
    assert_eq!(EngineError::InvalidChainId.message(), "ERR_INVALID_CHAIN_ID");
    assert_eq!(EngineError::IntrinsicGas.message(), "ERR_INTRINSIC_GAS");
    assert_eq!(EngineError::MaxPriorityFeeGreater.message(), "ERR_MAX_PRIORITY_FEE_GREATER");
    assert_eq!(EngineError::GasOverflow.message(), "ERR_GAS_OVERFLOW");
    assert_eq!(EngineError::InvalidSignature.message(), "ERR_INVALID_ECDSA_SIGNATURE");
    assert_eq!(EngineError::IncorrectNonce.message(), "ERR_INCORRECT_NONCE");
    assert_eq!(EngineError::PromiseCount.message(), "ERR_PROMISE_COUNT");
    assert_eq!(EngineError::RefundFailure.message(), "ERR_REFUND_FAILURE");
    assert_eq!(EngineError::TooEarly.message(), "ERR_NOT_ALLOWED:TOO_EARLY");
}

#[test]
fn nonce_check() {
    let mut s = Store::new();
    assert!(aurora_engine::submit::check_nonce(&s, &SENDER, 0).is_ok());
    set_nonce(&mut s, &SENDER, 4);
    assert!(matches!(aurora_engine::submit::check_nonce(&s, &SENDER, 3), Err(EngineError::IncorrectNonce)));
    s.write(&bytes_to_key(KeyPrefix::Nonce, &SENDER), &[1, 2]);
    assert!(matches!(aurora_engine::submit::check_nonce(&s, &SENDER, 0), Err(EngineError::InvalidEncoding)));
}

#[test]
fn begin_chain_keeps_other_configuration() {
    let mut e = engine(1);
    set_code(&mut e.store, &TARGET, &[0x60]);
    e.begin_chain(b"owner.near", 5, &vec![(SENDER, 1)]).unwrap();
    assert_eq!(e.get_owner().unwrap(), b"owner.near".to_vec());
    assert_eq!(e.get_bridge_prover().unwrap(), b"prover.near".to_vec());
    assert_eq!(e.state.as_ref().unwrap().upgrade_delay_blocks, 10);
    assert_eq!(get_code(&e.store, &TARGET), vec![0x60]);
    assert!(matches!(e.begin_chain(b"mallory", 6, &vec![(TARGET, 9)]), Err(EngineError::NotAllowed)));
    assert_eq!(e.get_chain_id(), Ok(5));
    assert_eq!(get_balance(&e.store, &TARGET), Ok(0));
}

#[test]
fn failed_finish_changes_nothing() {
    let mut e = engine(1);
    set_balance(&mut e.store, &SENDER, 1_000_000);
    let charge = match e.begin_submit(&tx(None, 0, 21_000, 1)) {
        Ok(Admission::Execute(c)) => c,
        _ => panic!("expected execution"),
    };
    set_balance(&mut e.store, &RELAYER, u128::MAX);
    let applies = vec![Apply::Modify {
        address: TARGET,
        balance: 5,
        nonce: 1,
        code: None,
        storage: Vec::new(),
        reset_storage: false,
    }];
    let r = e.finish_submit(&charge, TransactionStatus::Succeed(Vec::new()), 21_000, Vec::new(), &applies, &RELAYER);
    assert!(matches!(r, Err(EngineError::BalanceOverflow)));
    assert_eq!(get_balance(&e.store, &TARGET), Ok(0));
    assert_eq!(get_balance(&e.store, &SENDER), Ok(1_000_000 - 21_000));
}
