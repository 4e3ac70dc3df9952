use uopool::overhead::Overhead;
use uopool::primitives::{Address, CodeHash, UserOperation, UserOperationHash};
use uopool::reputation::{
    Reputation, ReputationEntry, Status, BAN_SLACK, MIN_INCLUSION_RATE_DENOMINATOR,
    THROTTLING_SLACK,
};
use uopool::sanity::{
    CallGas, ChainFacts, DepositInfo, EntityKind, SanityCheckError, SenderAdmission,
    SimulationOutcome, UoPoolService,
};
use uopool::uint::U256;

fn hex(s: &str) -> Vec<u8> {
    let s = s.trim_start_matches("0x");
    (0..s.len())
        .step_by(2)
        .map(|i| u8::from_str_radix(&s[i..i + 2], 16).unwrap())
        .collect()
}

fn addr(s: &str) -> Address {
    let b = hex(s);
    let mut bytes = [0u8; 20];
    bytes.copy_from_slice(&b);
    Address { bytes }
}

fn u(v: u64) -> U256 {
    U256::from_u64(v)
}

const BASE_FEE: u64 = 1_000_000_000;

fn valid_operation() -> UserOperation {
    UserOperation {
        sender: addr("0xeF5b78898D61b7020A6DB5a39608C4B02f95b50f"),
        nonce: U256::zero(),
        init_code: hex("0xed886f2d1bbb38b4914e8c545471216a40cce9385fbfb9cf000000000000000000000000ae72a48c1a36bd18af168541c53037965d26e4a8000000000000000000000000000000000000000000000000000001861645d91d"),
        call_data: hex("0xb61d27f6000000000000000000000000ef5b78898d61b7020a6db5a39608c4b02f95b50f000000000000000000000000000000000000000000000000000000000000000000000000000000000000000000000000000000000000000000000000000000600000000000000000000000000000000000000000000000000000000000000004affed0e000000000000000000000000000000000000000000000000000000000"),
        call_gas_limit: u(22016),
        verification_gas_limit: u(413910),
        pre_verification_gas: u(48480),
        max_fee_per_gas: u(1500000000 + BASE_FEE),
        max_priority_fee_per_gas: u(1500000000),
        paymaster_and_data: vec![],
        signature: vec![],
    }
}

fn zero_deposit() -> DepositInfo {
    DepositInfo { deposit: U256::zero(), staked: false, stake: U256::zero(), unstake_delay_sec: U256::zero() }
}

/// The chain as it stands for a counterfactual sender: no code yet, a
/// simulation that needs 1000 gas of execution beyond its pre-execution gas.
fn facts() -> ChainFacts {
    let price: u64 = 1500000000 + BASE_FEE;
    ChainFacts {
        sender_code_empty: true,
        paymaster_code_empty: false,
        factory_deposit: Some(DepositInfo { stake: u(1), staked: true, ..zero_deposit() }),
        paymaster_deposit: Some(DepositInfo { deposit: u(1_000_000_000_000_000_000), ..zero_deposit() }),
        sender_deposit: Some(zero_deposit()),
        base_fee: u(BASE_FEE),
        simulation: SimulationOutcome::Executed { paid: u((100_000 + 1000) * price), pre_op_gas: u(100_000) },
    }
}

fn reputation() -> Reputation {
    Reputation::new(
        MIN_INCLUSION_RATE_DENOMINATOR,
        THROTTLING_SLACK,
        BAN_SLACK,
        U256::zero(),
        U256::zero(),
        vec![],
        vec![],
    )
}

fn service() -> UoPoolService {
    UoPoolService::new(
        addr("0x602aB3881Ff3Fa8dA60a8F44Cf633e91bA1FdB69"),
        u(5),
        u(1500000),
        u(2),
        reputation(),
    )
}

#[test]
fn user_operation_sanity_check() {
    let svc = service();
    let valid = valid_operation();
    let f = facts();

    // valid user operation, with its factory staked
    assert!(svc.validate_user_operation(&valid, &f).unwrap().factory_verified);

    // sender or init_code
    let uo = UserOperation { init_code: vec![], ..valid.clone() };
    assert!(matches!(
        svc.validate_user_operation(&uo, &f).unwrap_err(),
        SanityCheckError::SenderOrInitCode { .. }
    ));
    let deployed = ChainFacts { sender_code_empty: false, ..f };
    let uo = UserOperation { sender: addr("0x6f55C6b12CdF6D77A77bc3b8639Ac77468b3f5e9"), ..valid.clone() };
    assert!(matches!(
        svc.validate_user_operation(&uo, &deployed).unwrap_err(),
        SanityCheckError::SenderOrInitCode { .. }
    ));

    // verification gas
    let uo = UserOperation { verification_gas_limit: u(2000000), ..valid.clone() };
    assert!(matches!(
        svc.validate_user_operation(&uo, &f).unwrap_err(),
        SanityCheckError::HighVerificationGasLimit { .. }
    ));
    let uo = UserOperation { pre_verification_gas: u(25000), ..valid.clone() };
    assert!(matches!(
        svc.validate_user_operation(&uo, &f).unwrap_err(),
        SanityCheckError::LowPreVerificationGas { .. }
    ));

    // paymaster verification
    let pv = UserOperation { paymaster_and_data: hex("0x83DAc8e36D8FDeCF69CD78f9f86f25664EEE72f4"), ..valid.clone() };
    let res = svc.validate_user_operation(&pv, &f).unwrap();
    assert!(res.paymaster_verified);
    assert!(res.factory_verified);
    let unstaked = ChainFacts { factory_deposit: Some(zero_deposit()), ..f };
    assert!(!svc.validate_user_operation(&pv, &unstaked).unwrap().factory_verified);

    // call gas limit
    let uo = UserOperation { call_gas_limit: u(12000), ..valid.clone() };
    assert!(matches!(
        svc.validate_user_operation(&uo, &f).unwrap_err(),
        SanityCheckError::LowCallGasLimit { .. }
    ));

    // max fee per gas and max priority fee per gas
    let uo = UserOperation { max_priority_fee_per_gas: u(1500000000 * 100), ..valid.clone() };
    assert!(matches!(
        svc.validate_user_operation(&uo, &f).unwrap_err(),
        SanityCheckError::HighMaxPriorityFeePerGas { .. }
    ));
    let uo = UserOperation { max_fee_per_gas: u(1500000000 + 10), ..valid.clone() };
    assert!(matches!(
        svc.validate_user_operation(&uo, &f).unwrap_err(),
        SanityCheckError::LowMaxFeePerGas { .. }
    ));
    let uo = UserOperation { max_priority_fee_per_gas: u(1), ..valid.clone() };
    assert!(matches!(
        svc.validate_user_operation(&uo, &f).unwrap_err(),
        SanityCheckError::LowMaxPriorityFeePerGas { .. }
    ));

    // sender verification: a staked sender may add a second operation
    let mut svc = service();
    let sv = UserOperation { sender: addr("0x1a31f86F876a8b1c90E7DC2aB77A5335D43392Eb"), ..valid.clone() };
    let h = svc.mempool.add(sv.clone(), &svc.entry_point.clone(), &svc.chain_id.clone()).unwrap();
    assert_eq!(h, sv.hash(&svc.entry_point, &svc.chain_id));
    let staked = ChainFacts {
        sender_deposit: Some(DepositInfo { stake: u(10), unstake_delay_sec: u(100), ..zero_deposit() }),
        ..f
    };
    let res = svc.validate_user_operation(&sv, &staked).unwrap();
    assert_eq!(res.sender, SenderAdmission::Staked);
}

#[test]
fn admission_counts_entities() {
    let mut svc = service();
    let uo = valid_operation();
    let h = svc.add_user_operation(uo.clone(), &facts()).unwrap();
    assert_eq!(svc.mempool.get(&h).unwrap(), uo);
    let sender = svc.reputation.get_entry(&uo.sender).unwrap();
    assert_eq!((sender.uo_seen, sender.uo_included), (1, 0));
    let factory = addr("0xed886f2d1bbb38b4914e8c545471216a40cce938");
    assert_eq!(svc.reputation.get_entry(&factory).unwrap().uo_seen, 1);
    // a rejected operation leaves the counters alone
    let bad = UserOperation { verification_gas_limit: u(2000000), nonce: u(1), ..uo.clone() };
    assert!(svc.add_user_operation(bad, &facts()).is_err());
    assert_eq!(svc.reputation.get_entry(&uo.sender).unwrap().uo_seen, 1);
    assert_eq!(svc.reputation.get_all().len(), 2);
}

#[test]
fn replacement_requires_bump() {
    let mut svc = service();
    let first = valid_operation();
    let first_hash = svc.add_user_operation(first.clone(), &facts()).unwrap();
    let again = UserOperation { call_data: vec![1, 2, 3], ..first.clone() };
    assert_eq!(
        svc.add_user_operation(again, &facts()).unwrap_err(),
        SanityCheckError::SenderVerification { sender: first.sender }
    );
    let bumped = UserOperation {
        max_priority_fee_per_gas: u(1650000000),
        max_fee_per_gas: u(1650000000 + BASE_FEE),
        ..first.clone()
    };
    let f = ChainFacts {
        simulation: SimulationOutcome::Executed {
            paid: u((100_000 + 1000) * (1650000000 + BASE_FEE)),
            pre_op_gas: u(100_000),
        },
        ..facts()
    };
    let res = svc.validate_user_operation(&bumped, &f).unwrap();
    assert_eq!(res.sender, SenderAdmission::Replaces(first_hash));
    let h = svc.add_user_operation(bumped.clone(), &f).unwrap();
    assert_eq!(svc.mempool.get_all().len(), 1);
    assert_eq!(svc.mempool.get(&h).unwrap(), bumped);
    assert!(svc.mempool.get(&first_hash).is_none());
}

#[test]
fn replacement_needs_equal_uplift() {
    let mut svc = service();
    let first = valid_operation();
    svc.add_user_operation(first.clone(), &facts()).unwrap();
    let uneven = UserOperation {
        max_priority_fee_per_gas: u(1650000000),
        max_fee_per_gas: u(1700000000 + BASE_FEE),
        ..first.clone()
    };
    assert!(matches!(
        svc.verify_sender(&uneven, Some(zero_deposit())).unwrap_err(),
        SanityCheckError::SenderVerification { .. }
    ));
    let small = UserOperation {
        max_priority_fee_per_gas: u(1600000000),
        max_fee_per_gas: u(1600000000 + BASE_FEE),
        ..first.clone()
    };
    assert!(svc.verify_sender(&small, Some(zero_deposit())).is_err());
}

#[test]
fn sender_deposit_lookup_failure_rejects() {
    let mut svc = service();
    let first = valid_operation();
    svc.add_user_operation(first.clone(), &facts()).unwrap();
    let bumped = UserOperation {
        max_priority_fee_per_gas: u(1650000000),
        max_fee_per_gas: u(1650000000 + BASE_FEE),
        ..first.clone()
    };
    assert!(matches!(svc.verify_sender(&bumped, Some(zero_deposit())), Ok(SenderAdmission::Replaces(_))));
    assert_eq!(
        svc.verify_sender(&bumped, None),
        Err(SanityCheckError::SenderVerification { sender: first.sender })
    );
    let fresh = UserOperation { sender: addr("0x1a31f86F876a8b1c90E7DC2aB77A5335D43392Eb"), ..first.clone() };
    assert_eq!(svc.verify_sender(&fresh, None), Ok(SenderAdmission::Fresh));
}

#[test]
fn banned_paymaster_rejected() {
    let mut svc = service();
    let pm = addr("0x83DAc8e36D8FDeCF69CD78f9f86f25664EEE72f4");
    svc.reputation.set_reputation(&vec![ReputationEntry { address: pm, uo_seen: 1000, uo_included: 0 }]);
    assert_eq!(svc.reputation.get_status(&pm), Status::BANNED);
    let uo = UserOperation { paymaster_and_data: pm.bytes.to_vec(), ..valid_operation() };
    assert_eq!(
        svc.add_user_operation(uo, &facts()).unwrap_err(),
        SanityCheckError::EntityBanned { entity: EntityKind::Paymaster, address: pm }
    );
    assert_eq!(svc.mempool.get_all().len(), 0);
}

#[test]
fn throttled_entity_limited() {
    let mut svc = service();
    let factory = addr("0xed886f2d1bbb38b4914e8c545471216a40cce938");
    svc.reputation.set_reputation(&vec![ReputationEntry { address: factory, uo_seen: 300, uo_included: 0 }]);
    assert_eq!(svc.reputation.get_status(&factory), Status::THROTTLED);
    let ep = svc.entry_point;
    let chain = svc.chain_id;
    for n in 0..4u64 {
        let uo = UserOperation { sender: addr("0x1a31f86F876a8b1c90E7DC2aB77A5335D43392Eb"), nonce: u(n), ..valid_operation() };
        svc.mempool.add(uo, &ep, &chain).unwrap();
    }
    assert_eq!(
        svc.validate_user_operation(&valid_operation(), &facts()).unwrap_err(),
        SanityCheckError::ThrottledLimit { entity: EntityKind::Factory, address: factory }
    );
}

#[test]
fn factory_and_paymaster_named_in_full() {
    let svc = service();
    let short = UserOperation { init_code: vec![1, 2, 3], ..valid_operation() };
    assert_eq!(svc.verify_factory(&short, Some(zero_deposit())), Err(SanityCheckError::FactoryVerification));
    assert_eq!(svc.verify_factory(&valid_operation(), None), Err(SanityCheckError::FactoryVerification));
    let short = UserOperation { paymaster_and_data: vec![1; 19], ..valid_operation() };
    assert_eq!(svc.verify_paymaster(&short, false, Some(zero_deposit())), Err(SanityCheckError::PaymasterVerification));
    let pm = UserOperation { paymaster_and_data: vec![1; 20], ..valid_operation() };
    assert_eq!(svc.verify_paymaster(&pm, true, Some(zero_deposit())), Err(SanityCheckError::PaymasterVerification));
    assert_eq!(svc.verify_paymaster(&pm, false, Some(zero_deposit())), Ok(false));
}

fn executed(paid: U256, pre_op_gas: U256) -> SimulationOutcome {
    SimulationOutcome::Executed { paid, pre_op_gas }
}

#[test]
fn call_gas_formula() {
    let uo = valid_operation();
    // price = min(2.5 gwei, 1.5 gwei + 1 gwei); (paid - 100000 * price) / price = 1016
    let price: u64 = 2_500_000_000;
    let paid = u(101_016 * price + price - 1);
    assert_eq!(CallGas.check_user_operation(&uo, executed(paid, u(100_000)), &u(BASE_FEE)), Ok(()));
    let paid = u(101_017 * price);
    assert_eq!(
        CallGas.check_user_operation(&uo, executed(paid, u(100_000)), &u(BASE_FEE)),
        Err(SanityCheckError::LowCallGasLimit { call_gas_limit: u(22016), call_gas_limit_expected: Some(u(22017)) })
    );
    // paid below the pre-execution cost cannot be priced
    assert_eq!(
        CallGas.check_user_operation(&uo, executed(u(1), u(100_000)), &u(BASE_FEE)),
        Err(SanityCheckError::UnknownError)
    );
    // a zero price cannot be divided by
    let free = UserOperation { max_fee_per_gas: U256::zero(), ..uo.clone() };
    assert_eq!(
        CallGas.check_user_operation(&free, executed(u(1), U256::zero()), &u(BASE_FEE)),
        Err(SanityCheckError::UnknownError)
    );
    // a need beyond 256 bits is more than any limit
    let max = U256 { l0: u64::MAX, l1: u64::MAX, l2: u64::MAX, l3: u64::MAX };
    let cheap = UserOperation { max_fee_per_gas: u(1), max_priority_fee_per_gas: U256::zero(), ..uo.clone() };
    assert_eq!(
        CallGas.check_user_operation(&cheap, executed(max, U256::zero()), &u(1)),
        Err(SanityCheckError::LowCallGasLimit { call_gas_limit: u(22016), call_gas_limit_expected: None })
    );
    // the entry point's rejection and a failed simulation
    assert_eq!(CallGas.check_user_operation(&uo, SimulationOutcome::FailedOp, &u(BASE_FEE)), Err(SanityCheckError::Validation));
    assert_eq!(CallGas.check_user_operation(&uo, SimulationOutcome::Failed, &u(BASE_FEE)), Err(SanityCheckError::UnknownError));
}

#[test]
fn call_gas_limit_against_estimate() {
    let svc = service();
    let uo = valid_operation();
    assert_eq!(svc.call_gas_limit(&uo, &u(22016)), Ok(()));
    assert_eq!(
        svc.call_gas_limit(&uo, &u(22017)),
        Err(SanityCheckError::LowCallGasLimit { call_gas_limit: u(22016), call_gas_limit_expected: Some(u(22017)) })
    );
}

#[test]
fn max_fee_overflow_is_too_low() {
    let svc = service();
    let max = U256 { l0: u64::MAX, l1: u64::MAX, l2: u64::MAX, l3: u64::MAX };
    let uo = UserOperation { max_fee_per_gas: max, max_priority_fee_per_gas: max, ..valid_operation() };
    assert_eq!(svc.max_fee_per_gas(&uo, &u(1)), Err(SanityCheckError::LowMaxFeePerGas { max_fee_per_gas: max, base_fee: u(1) }));
    assert_eq!(svc.max_fee_per_gas(&uo, &U256::zero()), Ok(()));
}

#[test]
fn pre_verification_gas_of_operation() {
    let ov = Overhead::default_overhead();
    let uo = valid_operation();
    assert_eq!(uo.pack().len(), 800);
    assert_eq!(ov.calculate_pre_verification_gas(&uo), u(44076));
    let svc = service();
    assert_eq!(svc.verification_gas(&UserOperation { pre_verification_gas: u(44076), ..uo.clone() }), Ok(()));
    assert_eq!(
        svc.verification_gas(&UserOperation { pre_verification_gas: u(44075), ..uo.clone() }),
        Err(SanityCheckError::LowPreVerificationGas { pre_verification_gas: u(44075), calculated_pre_verification_gas: u(44076) })
    );
    assert_eq!(
        svc.verification_gas(&UserOperation { verification_gas_limit: u(1500001), ..uo.clone() }),
        Err(SanityCheckError::HighVerificationGasLimit { verification_gas_limit: u(1500001), max_verification_gas: u(1500000) })
    );
}

#[test]
fn remove_user_operations_is_idempotent() {
    let mut svc = service();
    let h = svc.add_user_operation(valid_operation(), &facts()).unwrap();
    let other = UserOperationHash { bytes: [7; 32] };
    svc.remove_user_operations(&vec![h, other]);
    assert!(svc.mempool.get(&h).is_none());
    svc.remove_user_operations(&vec![h]);
    assert_eq!(svc.mempool.get_all().len(), 0);
}

#[test]
fn eviction_on_code_change() {
    let mut svc = service();
    let h = svc.add_user_operation(valid_operation(), &facts()).unwrap();
    let factory = addr("0xed886f2d1bbb38b4914e8c545471216a40cce938");
    let recorded = vec![CodeHash { address: factory, hash: [1; 32] }];
    assert!(!svc.evict_if_code_changed(&h, &vec![]));
    svc.mempool.set_code_hashes(&h, &recorded);
    assert!(!svc.evict_if_code_changed(&h, &recorded));
    assert!(svc.mempool.get(&h).is_some());
    let changed = vec![CodeHash { address: factory, hash: [2; 32] }];
    assert!(svc.evict_if_code_changed(&h, &changed));
    assert!(svc.mempool.get(&h).is_none());
    assert!(!svc.mempool.has_code_hashes(&h));
}
