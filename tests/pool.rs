use uopool::mempool::{MemoryMempool, MempoolError};
use uopool::primitives::{Address, CodeHash, UserOperation, UserOperationHash};
use uopool::reputation::{
    Reputation, ReputationEntry, ReputationError, StakeInfo, Status, BAN_SLACK,
    MIN_INCLUSION_RATE_DENOMINATOR, THROTTLING_SLACK,
};
use uopool::uint::U256;

fn u(v: u64) -> U256 {
    U256::from_u64(v)
}

fn address(b: u8) -> Address {
    Address { bytes: [b; 20] }
}

fn operation(sender: u8, nonce: u64, tip: u64) -> UserOperation {
    UserOperation {
        sender: address(sender),
        nonce: u(nonce),
        init_code: vec![],
        call_data: vec![],
        call_gas_limit: u(100000),
        verification_gas_limit: u(100000),
        pre_verification_gas: u(50000),
        max_fee_per_gas: u(tip + 1000),
        max_priority_fee_per_gas: u(tip),
        paymaster_and_data: vec![],
        signature: vec![],
    }
}

fn with_entities(mut uo: UserOperation, factory: u8, paymaster: u8) -> UserOperation {
    uo.init_code = vec![factory; 24];
    uo.paymaster_and_data = vec![paymaster; 20];
    uo
}

fn reputation() -> Reputation {
    Reputation::new(
        MIN_INCLUSION_RATE_DENOMINATOR,
        THROTTLING_SLACK,
        BAN_SLACK,
        u(1),
        u(10),
        vec![address(0xaa)],
        vec![address(0xbb)],
    )
}

#[test]
fn memory_mempool() {
    let ep = address(0x60);
    let chain = u(5);
    let mut pool = MemoryMempool::new();

    let uo = with_entities(operation(1, 0, 10), 7, 8);
    let h = pool.add(uo.clone(), &ep, &chain).unwrap();
    assert_eq!(h, uo.hash(&ep, &chain));
    assert_eq!(pool.get(&h).unwrap(), uo);
    assert_eq!(pool.get_number_by_sender(&address(1)), 1);
    assert_eq!(pool.get_number_by_entity(&address(7)), 1);
    assert_eq!(pool.get_number_by_entity(&address(8)), 1);
    assert_eq!(pool.get_all_by_sender(&address(1)), vec![uo.clone()]);
    assert_eq!(pool.get_all_by_sender(&address(2)), vec![]);

    let second = operation(1, 1, 20);
    let h2 = pool.add(second.clone(), &ep, &chain).unwrap();
    assert_eq!(pool.get_number_by_sender(&address(1)), 2);
    assert_eq!(pool.get_all().len(), 2);

    let codes = vec![CodeHash { address: address(7), hash: [3; 32] }];
    assert!(!pool.has_code_hashes(&h));
    pool.set_code_hashes(&h, &codes);
    assert!(pool.has_code_hashes(&h));
    assert_eq!(pool.get_code_hashes(&h), codes);
    assert_eq!(pool.get_code_hashes(&h2), vec![]);

    assert_eq!(pool.remove(&h), Ok(()));
    assert!(pool.get(&h).is_none());
    assert!(!pool.has_code_hashes(&h));
    assert_eq!(pool.get_number_by_sender(&address(1)), 1);
    assert_eq!(pool.get_number_by_entity(&address(7)), 0);
    assert_eq!(pool.remove(&h), Err(MempoolError::NotFound));

    pool.clear();
    assert_eq!(pool.get_all().len(), 0);
    assert_eq!(pool.get_number_by_sender(&address(1)), 0);
}

#[test]
fn re_adding_replaces_same_hash() {
    let ep = address(0x60);
    let mut pool = MemoryMempool::new();
    let uo = operation(1, 0, 10);
    let h = pool.add(uo.clone(), &ep, &u(5)).unwrap();
    let signed = UserOperation { signature: vec![9; 65], ..uo.clone() };
    assert_eq!(pool.add(signed.clone(), &ep, &u(5)).unwrap(), h);
    assert_eq!(pool.get_all().len(), 1);
    assert_eq!(pool.get_number_by_sender(&address(1)), 1);
    assert_eq!(pool.get(&h).unwrap(), signed);
}

#[test]
fn re_adding_keeps_code_hashes() {
    let ep = address(0x60);
    let mut pool = MemoryMempool::new();
    let uo = operation(1, 0, 10);
    let h = pool.add(uo.clone(), &ep, &u(5)).unwrap();
    let codes = vec![CodeHash { address: address(7), hash: [3; 32] }];
    pool.set_code_hashes(&h, &codes);
    pool.add(uo, &ep, &u(5)).unwrap();
    assert_eq!(pool.get_code_hashes(&h), codes);
    pool.remove(&h).unwrap();
    assert!(!pool.has_code_hashes(&h));
}

#[test]
fn same_factory_and_paymaster_indexed_once() {
    let mut pool = MemoryMempool::new();
    let uo = with_entities(operation(1, 0, 10), 7, 7);
    pool.add(uo, &address(0x60), &u(5)).unwrap();
    assert_eq!(pool.get_number_by_entity(&address(7)), 1);
}

#[test]
fn remove_by_entity_drops_named_operations() {
    let ep = address(0x60);
    let mut pool = MemoryMempool::new();
    let a = pool.add(with_entities(operation(1, 0, 10), 7, 8), &ep, &u(5)).unwrap();
    let b = pool.add(with_entities(operation(2, 0, 10), 9, 7), &ep, &u(5)).unwrap();
    let c = pool.add(with_entities(operation(3, 0, 10), 9, 8), &ep, &u(5)).unwrap();
    assert_eq!(pool.remove_by_entity(&address(7)), Ok(()));
    assert!(pool.get(&a).is_none());
    assert!(pool.get(&b).is_none());
    assert!(pool.get(&c).is_some());
    assert_eq!(pool.get_number_by_entity(&address(7)), 0);
    assert_eq!(pool.get_number_by_entity(&address(8)), 1);
    assert_eq!(pool.get_number_by_entity(&address(9)), 1);
    assert_eq!(pool.get_number_by_sender(&address(1)), 0);
    assert_eq!(pool.get_number_by_sender(&address(3)), 1);
    assert_eq!(pool.remove_by_entity(&address(42)), Ok(()));
}

#[test]
fn sorted_by_tip_then_nonce() {
    let ep = address(0x60);
    let mut pool = MemoryMempool::new();
    for (s, n, t) in [(1u8, 5u64, 10u64), (2, 1, 30), (3, 2, 10), (4, 0, 20), (5, 1, 10)] {
        pool.add(operation(s, n, t), &ep, &u(5)).unwrap();
    }
    let order: Vec<(Address, U256)> = pool
        .get_sorted()
        .iter()
        .map(|uo| (uo.sender, uo.max_priority_fee_per_gas))
        .collect();
    assert_eq!(
        order,
        vec![
            (address(2), u(30)),
            (address(4), u(20)),
            (address(5), u(10)),
            (address(3), u(10)),
            (address(1), u(10)),
        ]
    );
}

#[test]
fn hash_is_deterministic() {
    let uo = with_entities(operation(1, 0, 10), 7, 8);
    let ep = address(0x60);
    assert_eq!(uo.hash(&ep, &u(5)), uo.clone().hash(&ep, &u(5)));
    assert_ne!(uo.hash(&ep, &u(5)), uo.hash(&ep, &u(1)));
    assert_ne!(uo.hash(&ep, &u(5)), uo.hash(&address(0x61), &u(5)));
    assert_ne!(uo.hash(&ep, &u(5)), operation(1, 1, 10).hash(&ep, &u(5)));
    // a signature is not part of the hash
    let signed = UserOperation { signature: vec![1; 65], ..uo.clone() };
    assert_eq!(uo.hash(&ep, &u(5)), signed.hash(&ep, &u(5)));
}

#[test]
fn packing_digests_byte_strings() {
    let uo = operation(1, 0, 10);
    let packed = uo.pack_without_signature();
    assert_eq!(packed.len(), 320);
    // Keccak-256 of the empty init code
    let empty_digest: Vec<u8> = (0..32)
        .map(|i| u8::from_str_radix(&"c5d2460186f7233c927e7db2dcc703c0e500b653ca82273b7bfad8045d85a470"[2 * i..2 * i + 2], 16).unwrap())
        .collect();
    assert_eq!(packed[64..96].to_vec(), empty_digest);
    assert_eq!(packed[12..32].to_vec(), vec![1u8; 20]);
    let h = UserOperationHash { bytes: uo.hash(&address(0x60), &u(5)).bytes };
    assert_ne!(h.bytes.to_vec(), packed[0..32].to_vec());
}

#[test]
fn reputation_status_from_counters() {
    let mut rep = reputation();
    let a = address(1);
    assert_eq!(rep.get_status(&a), Status::OK);
    rep.set_reputation(&vec![ReputationEntry { address: a, uo_seen: 200, uo_included: 10 }]);
    assert_eq!(rep.get_status(&a), Status::OK);
    rep.set_reputation(&vec![ReputationEntry { address: a, uo_seen: 210, uo_included: 10 }]);
    assert_eq!(rep.get_status(&a), Status::THROTTLED);
    rep.set_reputation(&vec![ReputationEntry { address: a, uo_seen: 600, uo_included: 9 }]);
    assert_eq!(rep.get_status(&a), Status::BANNED);
    rep.set_reputation(&vec![ReputationEntry { address: a, uo_seen: 1000, uo_included: 0 }]);
    assert_eq!(rep.get_status(&a), Status::BANNED);
    assert_eq!(rep.get_status(&address(0xaa)), Status::OK);
    assert_eq!(rep.get_status(&address(0xbb)), Status::BANNED);
    rep.set_reputation(&vec![ReputationEntry { address: address(0xaa), uo_seen: 1000, uo_included: 0 }]);
    assert_eq!(rep.get_status(&address(0xaa)), Status::OK);
    assert_eq!(rep.get_all().len(), 2);
}

#[test]
fn reputation_counters() {
    let mut rep = reputation();
    let a = address(1);
    rep.increment_seen(&a);
    rep.increment_seen(&a);
    rep.increment_included(&a);
    assert_eq!(rep.get_entry(&a), Some(ReputationEntry { address: a, uo_seen: 2, uo_included: 1 }));
    rep.update_handle_ops_reverted(&a);
    rep.update_handle_ops_reverted(&a);
    assert_eq!(rep.get_entry(&a).unwrap().uo_included, 0);
    rep.increment_included(&address(2));
    assert_eq!(rep.get_entry(&address(2)).unwrap().uo_seen, 0);
    rep.set_reputation(&vec![ReputationEntry { address: a, uo_seen: u64::MAX, uo_included: 0 }]);
    rep.increment_seen(&a);
    assert_eq!(rep.get_entry(&a).unwrap().uo_seen, u64::MAX);
    rep.update_handle_ops_reverted(&address(3));
    assert_eq!(rep.get_entry(&address(3)), None);
}

#[test]
fn reputation_decay_to_zero() {
    let mut rep = reputation();
    let a = address(1);
    rep.set_reputation(&vec![ReputationEntry { address: a, uo_seen: 24, uo_included: 24 }]);
    rep.tick();
    assert_eq!(rep.get_entry(&a), Some(ReputationEntry { address: a, uo_seen: 23, uo_included: 23 }));
    for _ in 0..22 {
        rep.tick();
    }
    assert_eq!(rep.get_entry(&a), Some(ReputationEntry { address: a, uo_seen: 1, uo_included: 1 }));
    rep.tick();
    assert_eq!(rep.get_entry(&a), None);
    assert_eq!(rep.get_all().len(), 0);
}

#[test]
fn decay_keeps_large_counters_exact() {
    let mut rep = reputation();
    let a = address(1);
    rep.set_reputation(&vec![ReputationEntry { address: a, uo_seen: u64::MAX, uo_included: 1000 }]);
    rep.tick();
    assert_eq!(
        rep.get_entry(&a),
        Some(ReputationEntry { address: a, uo_seen: ((u64::MAX as u128) * 23 / 24) as u64, uo_included: 958 })
    );
}

#[test]
fn stake_checks() {
    let mut rep = reputation();
    let info = |a: Address, stake: u64, delay: u64| Some(StakeInfo { address: a, stake: u(stake), unstake_delay: u(delay) });
    assert_eq!(rep.verify_stake(None), Ok(()));
    assert_eq!(rep.verify_stake(info(address(1), 5, 10)), Ok(()));
    assert_eq!(rep.verify_stake(info(address(1), 0, 10)), Err(ReputationError::StakeIsZero { address: address(1) }));
    assert_eq!(
        rep.verify_stake(info(address(1), 5, 9)),
        Err(ReputationError::UnstakeDelayTooLow { address: address(1), unstake_delay: u(9), min_unstake_delay: u(10) })
    );
    assert_eq!(rep.verify_stake(info(address(0xaa), 0, 0)), Ok(()));
    assert_eq!(rep.verify_stake(info(address(0xbb), 5, 10)), Err(ReputationError::EntityBanned { address: address(0xbb) }));
    rep.min_stake = u(100);
    assert_eq!(
        rep.verify_stake(info(address(1), 5, 10)),
        Err(ReputationError::StakeTooLow { address: address(1), stake: u(5), min_stake: u(100) })
    );
}

#[test]
fn wide_integers_compare_by_value() {
    let big = U256 { l0: 0, l1: 0, l2: 0, l3: 1 };
    let small = U256 { l0: u64::MAX, l1: u64::MAX, l2: u64::MAX, l3: 0 };
    assert!(small.lt(&big));
    assert!(!big.lt(&small));
    assert!(big.le(&big));
    assert_eq!(big.min(&small), small);
    assert!(U256::zero().is_zero());
    assert!(!big.is_zero());
    assert_eq!(U256::from_u128(u128::MAX), U256 { l0: u64::MAX, l1: u64::MAX, l2: 0, l3: 0 });
}
