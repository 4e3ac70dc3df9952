//! Sanity checks that a user operation passes before it enters the pool,
//! and its admission.

use vstd::prelude::*;

use crate::encoding::abi_encoding;
use crate::mempool::{
    collect_hashes, count_for, hashes_under, lemma_count_hashes, lemma_hashes_under, lemma_op_at,
    MemoryMempool,
};
use crate::overhead::{pre_verification_gas_of, Overhead};
use crate::mempool::codes_for;
use crate::primitives::{Address, CodeHash, UserOperation, UserOperationHash, UserOperationView};
use crate::reputation::{
    entry_of, seen_once, seen_times, Reputation, ReputationEntry, StakeInfo, Status, THROTTLED_ENTITY_MEMPOOL_COUNT,
};
use crate::uint::{checked_add, checked_div, checked_mul, checked_sub, u256_bound, U256};

verus! {

/// Gas that the call phase needs beyond what the simulation charged.
pub const CALL_STIPEND: u64 = 21000;

/// Percentage by which a replacement must raise the priority fee.
pub const REPLACE_BUMP_PCT: u64 = 10;

/// Why an operation failed a sanity check.
#[derive(Clone, Copy, Debug, PartialEq, Eq)]
pub enum SanityCheckError {
    SenderOrInitCode { sender: Address },
    FactoryVerification,
    HighVerificationGasLimit { verification_gas_limit: U256, max_verification_gas: U256 },
    LowPreVerificationGas { pre_verification_gas: U256, calculated_pre_verification_gas: U256 },
    PaymasterVerification,
    /// The call gas limit is below what the simulation needs; the need is
    /// absent where it does not fit in 256 bits.
    LowCallGasLimit { call_gas_limit: U256, call_gas_limit_expected: Option<U256> },
    HighMaxPriorityFeePerGas { max_priority_fee_per_gas: U256, max_fee_per_gas: U256 },
    LowMaxFeePerGas { max_fee_per_gas: U256, base_fee: U256 },
    LowMaxPriorityFeePerGas { max_priority_fee_per_gas: U256, min_priority_fee_per_gas: U256 },
    SenderVerification { sender: Address },
    EntityBanned { entity: EntityKind, address: Address },
    ThrottledLimit { entity: EntityKind, address: Address },
    /// The entry point rejected the operation in simulation.
    Validation,
    UnknownError,
}

/// The role in which an operation names an address.
#[derive(Clone, Copy, Debug, PartialEq, Eq, Structural)]
pub enum EntityKind {
    Sender,
    Factory,
    Paymaster,
}

/// What simulating the operation's execution at the entry point gave.
#[derive(Clone, Copy, Debug, PartialEq, Eq)]
pub enum SimulationOutcome {
    /// It ran: what it paid, and its gas before execution.
    Executed { paid: U256, pre_op_gas: U256 },
    /// The entry point rejected the operation.
    FailedOp,
    /// The simulation could not be run.
    Failed,
}

/// The 256-bit integer with value `x`.
pub open spec fn u256_with_value(x: int) -> U256 {
    choose|u: U256| u.value() == x
}

/// A 256-bit integer is the one with its value.
pub proof fn lemma_u256_with_value(u: U256)
    ensures
        u256_with_value(u.value()) == u,
{
    let c = u256_with_value(u.value());
    crate::uint::lemma_limbs_eq(c, u);
}

/// What the entry point reports of an entity's deposit.
#[derive(Clone, Copy, Debug, PartialEq, Eq)]
pub struct DepositInfo {
    pub deposit: U256,
    pub staked: bool,
    pub stake: U256,
    pub unstake_delay_sec: U256,
}

/// How the sender rule admitted an operation.
#[derive(Clone, Copy, Debug, PartialEq, Eq)]
pub enum SenderAdmission {
    /// The sender has nothing in the pool.
    Fresh,
    /// The sender is staked and may have several operations.
    Staked,
    /// The operation replaces the sender's one under this hash.
    Replaces(UserOperationHash),
}

/// What the checks learnt of an operation that passed them.
#[derive(Clone, Copy, Debug, PartialEq, Eq)]
pub struct SanityCheckResults {
    pub factory_verified: bool,
    pub paymaster_verified: bool,
    pub sender: SenderAdmission,
}

/// What the chain and the entry point said of an operation, gathered
/// before the checks run.
#[derive(Clone, Copy, Debug, PartialEq, Eq)]
pub struct ChainFacts {
    /// The sender has no code on chain.
    pub sender_code_empty: bool,
    /// The paymaster has no code on chain.
    pub paymaster_code_empty: bool,
    /// Deposits of the factory, the paymaster and the sender; `None` where
    /// the lookup failed.
    pub factory_deposit: Option<DepositInfo>,
    pub paymaster_deposit: Option<DepositInfo>,
    pub sender_deposit: Option<DepositInfo>,
    /// Base fee of the latest block.
    pub base_fee: U256,
    /// What simulating the operation's execution gave.
    pub simulation: SimulationOutcome,
}

/// How many of the entities an operation names are `b`: its sender, its
/// factory and its paymaster each count.
pub open spec fn times_named(uo: UserOperationView, b: Address) -> nat {
    (if uo.sender == b { 1nat } else { 0nat }) + (if uo.factory_address() == Some(b) {
        1nat
    } else {
        0nat
    }) + (if uo.paymaster_address() == Some(b) {
        1nat
    } else {
        0nat
    })
}

/// `ry` is `rx` after one more operation was seen from `a`, if there is an `a`.
pub open spec fn seen_step(rx: Seq<ReputationEntry>, ry: Seq<ReputationEntry>, a: Option<Address>) -> bool {
    match a {
        Some(a) => entry_of(ry, a) == seen_once(entry_of(rx, a), a) && forall|b: Address|
            b != a ==> entry_of(ry, b) == entry_of(rx, b),
        None => ry == rx,
    }
}

/// Counting the sender, then the factory, then the paymaster of `uo` as seen
/// counts each address as often as `uo` names it.
pub proof fn lemma_seen_steps(
    r0: Seq<ReputationEntry>,
    r1: Seq<ReputationEntry>,
    r2: Seq<ReputationEntry>,
    r3: Seq<ReputationEntry>,
    uo: UserOperationView,
)
    requires
        seen_step(r0, r1, Some(uo.sender)),
        seen_step(r1, r2, uo.factory_address()),
        seen_step(r2, r3, uo.paymaster_address()),
    ensures
        forall|b: Address|
            entry_of(r3, b) == seen_times(entry_of(r0, b), b, #[trigger] times_named(uo, b)),
{
    assert forall|b: Address|
        entry_of(r3, b) == seen_times(entry_of(r0, b), b, #[trigger] times_named(uo, b)) by {
        let n1: nat = if uo.sender == b { 1 } else { 0 };
        let n2: nat = n1 + if uo.factory_address() == Some(b) { 1nat } else { 0nat };
        let n3: nat = n2 + if uo.paymaster_address() == Some(b) { 1nat } else { 0nat };
        assert(seen_times(entry_of(r0, b), b, 0) == entry_of(r0, b));
        assert(entry_of(r1, b) == seen_times(entry_of(r0, b), b, n1));
        assert(seen_times(entry_of(r0, b), b, n1 + 1) == seen_once(seen_times(entry_of(r0, b), b, n1), b));
        assert(entry_of(r2, b) == seen_times(entry_of(r0, b), b, n2));
        assert(seen_times(entry_of(r0, b), b, n2 + 1) == seen_once(seen_times(entry_of(r0, b), b, n2), b));
        assert(entry_of(r3, b) == seen_times(entry_of(r0, b), b, n3));
    }
}

/// The stake that a deposit gives address `a`.
pub open spec fn stake_of(a: Address, d: DepositInfo) -> StakeInfo {
    StakeInfo { address: a, stake: d.stake, unstake_delay: d.unstake_delay_sec }
}

/// Exactly one of: the sender has code, the operation carries init code.
pub open spec fn sender_or_init_code_spec(uo: UserOperationView, sender_code_empty: bool) -> Result<
    (),
    SanityCheckError,
> {
    if sender_code_empty == (uo.init_code.len() == 0) {
        Err(SanityCheckError::SenderOrInitCode { sender: uo.sender })
    } else {
        Ok(())
    }
}

/// The effective gas price: the fee cap, or the base fee plus the tip if lower.
pub open spec fn effective_gas_price(uo: UserOperationView, base_fee: U256) -> int {
    let t = uo.max_priority_fee_per_gas.value() + base_fee.value();
    if uo.max_fee_per_gas.value() <= t {
        uo.max_fee_per_gas.value()
    } else {
        t
    }
}

/// Call gas that the simulation shows the operation needs; none where the
/// price is zero or the simulation paid less than its pre-execution gas.
pub open spec fn required_call_gas(paid: int, pre_op_gas: int, price: int) -> Option<int> {
    if price == 0 || pre_op_gas * price > paid {
        None
    } else {
        Some((paid - pre_op_gas * price) / price + CALL_STIPEND)
    }
}

pub open spec fn call_gas_spec(uo: UserOperationView, sim: SimulationOutcome, base_fee: U256) -> Result<
    (),
    SanityCheckError,
> {
    match sim {
        SimulationOutcome::FailedOp => Err(SanityCheckError::Validation),
        SimulationOutcome::Failed => Err(SanityCheckError::UnknownError),
        SimulationOutcome::Executed { paid, pre_op_gas } => match required_call_gas(
            paid.value(),
            pre_op_gas.value(),
            effective_gas_price(uo, base_fee),
        ) {
            None => Err(SanityCheckError::UnknownError),
            Some(r) => if uo.call_gas_limit.value() >= r {
                Ok(())
            } else {
                Err(
                    SanityCheckError::LowCallGasLimit {
                        call_gas_limit: uo.call_gas_limit,
                        call_gas_limit_expected: if r < u256_bound() {
                            Some(u256_with_value(r))
                        } else {
                            None
                        },
                    },
                )
            },
        },
    }
}

/// The new operation may replace `prev`: same sender and nonce, a priority
/// fee raised by at least the bump, and the fee cap raised by as much.
pub open spec fn replaces(prev: UserOperationView, new: UserOperationView) -> bool {
    let pt = prev.max_priority_fee_per_gas.value();
    let nt = new.max_priority_fee_per_gas.value();
    &&& prev.sender == new.sender
    &&& prev.nonce.value() == new.nonce.value()
    &&& nt > pt
    &&& (nt - pt) * 100 >= pt * REPLACE_BUMP_PCT
    &&& new.max_fee_per_gas.value() - prev.max_fee_per_gas.value() == nt - pt
}

/// The sanity checks on one pool.
pub struct UoPoolService {
    pub entry_point: Address,
    pub chain_id: U256,
    pub max_verification_gas: U256,
    pub min_priority_fee_per_gas: U256,
    pub mempool: MemoryMempool,
    pub reputation: Reputation,
}

/// The sanity check on the gas that the call phase needs.
pub struct CallGas;

/// The sanity check on the reputation of the entities an operation names.
#[derive(Clone, Copy)]
pub struct Entities;

impl UoPoolService {
    /// Both have the same entry point, chain, limits, and reputation
    /// parameters and lists.
    pub open spec fn same_settings(&self, o: UoPoolService) -> bool {
        &&& self.entry_point == o.entry_point
        &&& self.chain_id == o.chain_id
        &&& self.max_verification_gas == o.max_verification_gas
        &&& self.min_priority_fee_per_gas == o.min_priority_fee_per_gas
        &&& self.reputation.same_config(o.reputation)
    }

    /// The pool is well formed and the reputation can derive a status.
    pub open spec fn wf(&self) -> bool {
        self.mempool.wf() && self.reputation.wf()
    }

    pub open spec fn factory_spec(&self, uo: UserOperationView, deposit: Option<DepositInfo>) -> Result<
        bool,
        SanityCheckError,
    > {
        if uo.init_code.len() == 0 {
            Ok(false)
        } else if uo.init_code.len() < 20 {
            Err(SanityCheckError::FactoryVerification)
        } else {
            match deposit {
                None => Err(SanityCheckError::FactoryVerification),
                Some(d) => Ok(
                    self.reputation.stake_outcome(
                        Some(stake_of(uo.factory_address().unwrap(), d)),
                    ) is Ok,
                ),
            }
        }
    }

    pub open spec fn verification_gas_spec(&self, uo: UserOperationView) -> Result<
        (),
        SanityCheckError,
    > {
        if uo.verification_gas_limit.value() > self.max_verification_gas.value() {
            Err(
                SanityCheckError::HighVerificationGasLimit {
                    verification_gas_limit: uo.verification_gas_limit,
                    max_verification_gas: self.max_verification_gas,
                },
            )
        } else if uo.pre_verification_gas.value() < pre_verification_gas_of(
            default_overhead_spec(),
            abi_encoding(uo),
        ) {
            Err(
                SanityCheckError::LowPreVerificationGas {
                    pre_verification_gas: uo.pre_verification_gas,
                    calculated_pre_verification_gas: u256_with_value(
                        pre_verification_gas_of(default_overhead_spec(), abi_encoding(uo)),
                    ),
                },
            )
        } else {
            Ok(())
        }
    }

    pub open spec fn paymaster_spec(
        &self,
        uo: UserOperationView,
        code_empty: bool,
        deposit: Option<DepositInfo>,
    ) -> Result<bool, SanityCheckError> {
        if uo.paymaster_and_data.len() == 0 {
            Ok(false)
        } else if uo.paymaster_and_data.len() < 20 || code_empty {
            Err(SanityCheckError::PaymasterVerification)
        } else {
            match deposit {
                None => Err(SanityCheckError::PaymasterVerification),
                Some(d) => Ok(
                    d.deposit.value() > uo.max_fee_per_gas.value() && self.reputation.status_spec(
                        uo.paymaster_address().unwrap(),
                    ) != Status::BANNED,
                ),
            }
        }
    }

    pub open spec fn max_fee_spec(&self, uo: UserOperationView, base_fee: U256) -> Result<
        (),
        SanityCheckError,
    > {
        let tip = uo.max_priority_fee_per_gas.value();
        if tip > uo.max_fee_per_gas.value() {
            Err(
                SanityCheckError::HighMaxPriorityFeePerGas {
                    max_priority_fee_per_gas: uo.max_priority_fee_per_gas,
                    max_fee_per_gas: uo.max_fee_per_gas,
                },
            )
        } else if base_fee.value() + tip > uo.max_fee_per_gas.value() {
            Err(SanityCheckError::LowMaxFeePerGas { max_fee_per_gas: uo.max_fee_per_gas, base_fee })
        } else if tip < self.min_priority_fee_per_gas.value() {
            Err(
                SanityCheckError::LowMaxPriorityFeePerGas {
                    max_priority_fee_per_gas: uo.max_priority_fee_per_gas,
                    min_priority_fee_per_gas: self.min_priority_fee_per_gas,
                },
            )
        } else {
            Ok(())
        }
    }

    /// The operation that the sender has first in the pool.
    pub open spec fn first_of_sender(&self, sender: Address) -> UserOperationHash {
        hashes_under(self.mempool.by_sender(), sender)[0]
    }

    pub open spec fn sender_spec(&self, uo: UserOperationView, deposit: Option<DepositInfo>) -> Result<
        SenderAdmission,
        SanityCheckError,
    > {
        if count_for(self.mempool.by_sender(), uo.sender) == 0 {
            Ok(SenderAdmission::Fresh)
        } else if deposit is None {
            Err(SanityCheckError::SenderVerification { sender: uo.sender })
        } else if self.reputation.stake_outcome(Some(stake_of(uo.sender, deposit.unwrap()))) is Ok {
            Ok(SenderAdmission::Staked)
        } else if replaces(self.mempool.pool()[self.first_of_sender(uo.sender)], uo) {
            Ok(SenderAdmission::Replaces(self.first_of_sender(uo.sender)))
        } else {
            Err(SanityCheckError::SenderVerification { sender: uo.sender })
        }
    }

    /// Outcome of all checks, in order, on `uo` given what the chain said.
    pub open spec fn validation_spec(&self, uo: UserOperationView, facts: ChainFacts) -> Result<
        SanityCheckResults,
        SanityCheckError,
    > {
        if sender_or_init_code_spec(uo, facts.sender_code_empty) is Err {
            Err(sender_or_init_code_spec(uo, facts.sender_code_empty)->Err_0)
        } else if self.factory_spec(uo, facts.factory_deposit) is Err {
            Err(self.factory_spec(uo, facts.factory_deposit)->Err_0)
        } else if self.verification_gas_spec(uo) is Err {
            Err(self.verification_gas_spec(uo)->Err_0)
        } else if self.paymaster_spec(uo, facts.paymaster_code_empty, facts.paymaster_deposit) is Err {
            Err(self.paymaster_spec(uo, facts.paymaster_code_empty, facts.paymaster_deposit)->Err_0)
        } else if self.max_fee_spec(uo, facts.base_fee) is Err {
            Err(self.max_fee_spec(uo, facts.base_fee)->Err_0)
        } else if call_gas_spec(uo, facts.simulation, facts.base_fee) is Err {
            Err(call_gas_spec(uo, facts.simulation, facts.base_fee)->Err_0)
        } else if entities_spec(&self.reputation, &self.mempool, uo) is Err {
            Err(entities_spec(&self.reputation, &self.mempool, uo)->Err_0)
        } else if self.sender_spec(uo, facts.sender_deposit) is Err {
            Err(self.sender_spec(uo, facts.sender_deposit)->Err_0)
        } else {
            Ok(
                SanityCheckResults {
                    factory_verified: self.factory_spec(uo, facts.factory_deposit)->Ok_0,
                    paymaster_verified: self.paymaster_spec(
                        uo,
                        facts.paymaster_code_empty,
                        facts.paymaster_deposit,
                    )->Ok_0,
                    sender: self.sender_spec(uo, facts.sender_deposit)->Ok_0,
                },
            )
        }
    }
}

pub open spec fn default_overhead_spec() -> Overhead {
    Overhead {
        fixed: 21000,
        per_user_operation: 18300,
        per_user_operation_word: 4,
        zero_byte: 4,
        non_zero_byte: 16,
        bundle_size: 1,
        sig_size: 65,
    }
}

/// Outcome of the reputation rules for one entity.
pub open spec fn entity_spec(
    rep: &Reputation,
    pool: &MemoryMempool,
    kind: EntityKind,
    a: Address,
) -> Result<(), SanityCheckError> {
    let st = rep.status_spec(a);
    if st == Status::BANNED {
        Err(SanityCheckError::EntityBanned { entity: kind, address: a })
    } else if st == Status::THROTTLED && count_for(pool.by_sender(), a) + count_for(
        pool.by_entity(),
        a,
    ) >= THROTTLED_ENTITY_MEMPOOL_COUNT {
        Err(SanityCheckError::ThrottledLimit { entity: kind, address: a })
    } else {
        Ok(())
    }
}

/// Outcome of the reputation rules for the sender, then the factory, then the paymaster.
pub open spec fn entities_spec(rep: &Reputation, pool: &MemoryMempool, uo: UserOperationView) -> Result<
    (),
    SanityCheckError,
> {
    if entity_spec(rep, pool, EntityKind::Sender, uo.sender) is Err {
        entity_spec(rep, pool, EntityKind::Sender, uo.sender)
    } else if uo.factory_address() is Some && entity_spec(
        rep,
        pool,
        EntityKind::Factory,
        uo.factory_address().unwrap(),
    ) is Err {
        entity_spec(rep, pool, EntityKind::Factory, uo.factory_address().unwrap())
    } else if uo.paymaster_address() is Some {
        entity_spec(rep, pool, EntityKind::Paymaster, uo.paymaster_address().unwrap())
    } else {
        Ok(())
    }
}

impl Entities {
    /// Status of an entity.
    pub fn get_status(&self, a: &Address, reputation: &Reputation) -> (r: Status)
        requires
            reputation.wf(),
        ensures
            r == reputation.status_spec(*a),
    {
        reputation.get_status(a)
    }

    /// A banned entity may not enter the pool.
    pub fn check_banned(&self, kind: EntityKind, a: &Address, status: Status) -> (r: Result<
        (),
        SanityCheckError,
    >)
        ensures
            r == if status == Status::BANNED {
                Err(SanityCheckError::EntityBanned { entity: kind, address: *a })
            } else {
                Ok(())
            },
    {
        if status == Status::BANNED {
            return Err(SanityCheckError::EntityBanned { entity: kind, address: *a });
        }
        Ok(())
    }

    /// A throttled entity may have only a few operations in the pool.
    pub fn check_throttled(
        &self,
        kind: EntityKind,
        a: &Address,
        status: Status,
        mempool: &MemoryMempool,
    ) -> (r: Result<
        (),
        SanityCheckError,
    >)
        ensures
            r == if status == Status::THROTTLED && count_for(mempool.by_sender(), *a) + count_for(
                mempool.by_entity(),
                *a,
            ) >= THROTTLED_ENTITY_MEMPOOL_COUNT {
                Err(SanityCheckError::ThrottledLimit { entity: kind, address: *a })
            } else {
                Ok(())
            },
    {
        if status == Status::THROTTLED && (mempool.get_number_by_sender(a) as u128)
            + (mempool.get_number_by_entity(a) as u128) >= THROTTLED_ENTITY_MEMPOOL_COUNT as u128 {
            return Err(SanityCheckError::ThrottledLimit { entity: kind, address: *a });
        }
        Ok(())
    }

    fn check_entity(
        &self,
        kind: EntityKind,
        a: &Address,
        mempool: &MemoryMempool,
        reputation: &Reputation,
    ) -> (r: Result<(), SanityCheckError>)
        requires
            reputation.wf(),
        ensures
            r == entity_spec(reputation, mempool, kind, *a),
    {
        let status = self.get_status(a, reputation);
        self.check_banned(kind, a, status)?;
        self.check_throttled(kind, a, status, mempool)
    }

    /// The reputation rules for the sender, the factory and the paymaster,
    /// in that order: a banned entity fails, and so does a throttled one
    /// with too many operations in the pool.
    pub fn check_user_operation(
        &self,
        uo: &UserOperation,
        mempool: &MemoryMempool,
        reputation: &Reputation,
    ) -> (r: Result<(), SanityCheckError>)
        requires
            reputation.wf(),
        ensures
            r == entities_spec(reputation, mempool, uo@),
    {
        let (sender, factory, paymaster) = uo.get_entities();
        self.check_entity(EntityKind::Sender, &sender, mempool, reputation)?;
        match factory {
            Some(f) => {
                self.check_entity(EntityKind::Factory, &f, mempool, reputation)?;
            },
            None => {},
        }
        match paymaster {
            Some(p) => self.check_entity(EntityKind::Paymaster, &p, mempool, reputation),
            None => Ok(()),
        }
    }
}

impl CallGas {
    /// The call gas limit covers what the simulation shows the call needs:
    /// what it paid less the pre-execution gas at the effective gas price,
    /// in gas, plus the call stipend. A simulation that the entry point
    /// rejected fails validation; one that could not run is an unknown error.
    pub fn check_user_operation(&self, uo: &UserOperation, sim: SimulationOutcome, base_fee: &U256) -> (r:
        Result<(), SanityCheckError>)
        ensures
            r == call_gas_spec(uo@, sim, *base_fee),
    {
        let (paid, pre_op_gas) = match sim {
            SimulationOutcome::Executed { paid, pre_op_gas } => (paid, pre_op_gas),
            SimulationOutcome::FailedOp => {
                return Err(SanityCheckError::Validation);
            },
            SimulationOutcome::Failed => {
                return Err(SanityCheckError::UnknownError);
            },
        };
        proof {
            crate::uint::lemma_value_bound(paid);
            crate::uint::lemma_value_bound(uo.max_fee_per_gas);
            crate::uint::lemma_value_bound(uo.call_gas_limit);
        }
        let price = match checked_add(&uo.max_priority_fee_per_gas, base_fee) {
            Some(t) => uo.max_fee_per_gas.min(&t),
            None => uo.max_fee_per_gas,
        };
        assert(price.value() == effective_gas_price(uo@, *base_fee));
        let cost = match checked_mul(&pre_op_gas, &price) {
            Some(c) => c,
            None => {
                return Err(SanityCheckError::UnknownError);
            },
        };
        let rest = match checked_sub(&paid, &cost) {
            Some(d) => d,
            None => {
                return Err(SanityCheckError::UnknownError);
            },
        };
        let gas = match checked_div(&rest, &price) {
            Some(q) => q,
            None => {
                return Err(SanityCheckError::UnknownError);
            },
        };
        let required = match checked_add(&gas, &U256::from_u64(CALL_STIPEND)) {
            Some(v) => v,
            None => {
                return Err(
                    SanityCheckError::LowCallGasLimit {
                        call_gas_limit: uo.call_gas_limit,
                        call_gas_limit_expected: None,
                    },
                );
            },
        };
        if required.le(&uo.call_gas_limit) {
            return Ok(());
        }
        proof {
            crate::uint::lemma_value_bound(required);
            lemma_u256_with_value(required);
        }
        Err(
            SanityCheckError::LowCallGasLimit {
                call_gas_limit: uo.call_gas_limit,
                call_gas_limit_expected: Some(required),
            },
        )
    }
}

impl UoPoolService {
    /// Either the sender has code or the operation deploys it, not both.
    pub fn sender_or_init_code(&self, uo: &UserOperation, sender_code_empty: bool) -> (r: Result<
        (),
        SanityCheckError,
    >)
        ensures
            r == sender_or_init_code_spec(uo@, sender_code_empty),
    {
        if sender_code_empty == (uo.init_code.len() == 0) {
            return Err(SanityCheckError::SenderOrInitCode { sender: uo.sender });
        }
        Ok(())
    }

    /// Init code, where there is any, starts with a factory whose deposit
    /// could be read; the result says whether the factory is staked.
    pub fn verify_factory(&self, uo: &UserOperation, deposit: Option<DepositInfo>) -> (r: Result<
        bool,
        SanityCheckError,
    >)
        requires
            self.wf(),
        ensures
            r == self.factory_spec(uo@, deposit),
    {
        if uo.init_code.len() == 0 {
            return Ok(false);
        }
        let factory = match crate::primitives::address_prefix(&uo.init_code) {
            Some(f) => f,
            None => {
                return Err(SanityCheckError::FactoryVerification);
            },
        };
        match deposit {
            None => Err(SanityCheckError::FactoryVerification),
            Some(d) => {
                let staked = self.reputation.verify_stake(
                    Some(
                        StakeInfo {
                            address: factory,
                            stake: d.stake,
                            unstake_delay: d.unstake_delay_sec,
                        },
                    ),
                );
                Ok(staked.is_ok())
            },
        }
    }

    /// The verification gas limit is at most the pool's maximum, and the
    /// pre-verification gas covers the operation's calldata and overheads.
    pub fn verification_gas(&self, uo: &UserOperation) -> (r: Result<(), SanityCheckError>)
        ensures
            r == self.verification_gas_spec(uo@),
    {
        if self.max_verification_gas.lt(&uo.verification_gas_limit) {
            return Err(
                SanityCheckError::HighVerificationGasLimit {
                    verification_gas_limit: uo.verification_gas_limit,
                    max_verification_gas: self.max_verification_gas,
                },
            );
        }
        let calculated = Overhead::default_overhead().calculate_pre_verification_gas(uo);
        if uo.pre_verification_gas.lt(&calculated) {
            proof {
                lemma_u256_with_value(calculated);
            }
            return Err(
                SanityCheckError::LowPreVerificationGas {
                    pre_verification_gas: uo.pre_verification_gas,
                    calculated_pre_verification_gas: calculated,
                },
            );
        }
        Ok(())
    }

    /// A paymaster, where there is one, is named in full, has code, and its
    /// deposit could be read; the result says whether the deposit covers
    /// the fee cap and the paymaster is not banned.
    pub fn verify_paymaster(
        &self,
        uo: &UserOperation,
        code_empty: bool,
        deposit: Option<DepositInfo>,
    ) -> (r: Result<bool, SanityCheckError>)
        requires
            self.wf(),
        ensures
            r == self.paymaster_spec(uo@, code_empty, deposit),
    {
        if uo.paymaster_and_data.len() == 0 {
            return Ok(false);
        }
        let paymaster = match crate::primitives::address_prefix(&uo.paymaster_and_data) {
            Some(p) => p,
            None => {
                return Err(SanityCheckError::PaymasterVerification);
            },
        };
        if code_empty {
            return Err(SanityCheckError::PaymasterVerification);
        }
        match deposit {
            None => Err(SanityCheckError::PaymasterVerification),
            Some(d) => Ok(
                uo.max_fee_per_gas.lt(&d.deposit) && self.reputation.get_status(&paymaster)
                    != Status::BANNED,
            ),
        }
    }

    /// The call gas limit is at least the gas that a call was estimated to need.
    pub fn call_gas_limit(&self, uo: &UserOperation, estimation: &U256) -> (r: Result<
        (),
        SanityCheckError,
    >)
        ensures
            r is Err == (uo.call_gas_limit.value() < estimation.value()),
            r is Err ==> r == Err::<(), SanityCheckError>(
                SanityCheckError::LowCallGasLimit {
                    call_gas_limit: uo.call_gas_limit,
                    call_gas_limit_expected: Some(*estimation),
                },
            ),
    {
        if uo.call_gas_limit.lt(estimation) {
            return Err(
                SanityCheckError::LowCallGasLimit {
                    call_gas_limit: uo.call_gas_limit,
                    call_gas_limit_expected: Some(*estimation),
                },
            );
        }
        Ok(())
    }

    /// The priority fee is at most the fee cap, the base fee plus the
    /// priority fee fit under the cap, and the priority fee reaches the
    /// pool's minimum.
    pub fn max_fee_per_gas(&self, uo: &UserOperation, base_fee: &U256) -> (r: Result<
        (),
        SanityCheckError,
    >)
        ensures
            r == self.max_fee_spec(uo@, *base_fee),
    {
        if uo.max_fee_per_gas.lt(&uo.max_priority_fee_per_gas) {
            return Err(
                SanityCheckError::HighMaxPriorityFeePerGas {
                    max_priority_fee_per_gas: uo.max_priority_fee_per_gas,
                    max_fee_per_gas: uo.max_fee_per_gas,
                },
            );
        }
        proof {
            crate::uint::lemma_value_bound(uo.max_fee_per_gas);
        }
        let too_low = match checked_add(base_fee, &uo.max_priority_fee_per_gas) {
            Some(t) => uo.max_fee_per_gas.lt(&t),
            None => true,
        };
        if too_low {
            return Err(
                SanityCheckError::LowMaxFeePerGas { max_fee_per_gas: uo.max_fee_per_gas, base_fee: *base_fee },
            );
        }
        if uo.max_priority_fee_per_gas.lt(&self.min_priority_fee_per_gas) {
            return Err(
                SanityCheckError::LowMaxPriorityFeePerGas {
                    max_priority_fee_per_gas: uo.max_priority_fee_per_gas,
                    min_priority_fee_per_gas: self.min_priority_fee_per_gas,
                },
            );
        }
        Ok(())
    }
}

/// Whether `new` may replace `prev` under the replacement rule.
fn may_replace(prev: &UserOperation, new: &UserOperation) -> (r: bool)
    ensures
        r == replaces(prev@, new@),
{
    if !(prev.sender == new.sender) || !prev.nonce.eq_value(&new.nonce) {
        return false;
    }
    if !prev.max_priority_fee_per_gas.lt(&new.max_priority_fee_per_gas) {
        return false;
    }
    if new.max_fee_per_gas.lt(&prev.max_fee_per_gas) {
        return false;
    }
    let tip_rise = match checked_sub(&new.max_priority_fee_per_gas, &prev.max_priority_fee_per_gas) {
        Some(d) => d,
        None => {
            return false;
        },
    };
    let cap_rise = match checked_sub(&new.max_fee_per_gas, &prev.max_fee_per_gas) {
        Some(d) => d,
        None => {
            return false;
        },
    };
    proof {
        crate::uint::lemma_value_bound(prev.max_priority_fee_per_gas);
    }
    let bumped = match checked_mul(&tip_rise, &U256::from_u64(100 / REPLACE_BUMP_PCT)) {
        Some(p) => prev.max_priority_fee_per_gas.le(&p),
        None => true,
    };
    bumped && cap_rise.eq_value(&tip_rise)
}

impl UoPoolService {
    /// A service over an empty pool.
    pub fn new(
        entry_point: Address,
        chain_id: U256,
        max_verification_gas: U256,
        min_priority_fee_per_gas: U256,
        reputation: Reputation,
    ) -> (r: UoPoolService)
        requires
            reputation.wf(),
        ensures
            r.wf(),
            r.entry_point == entry_point,
            r.chain_id == chain_id,
            r.max_verification_gas == max_verification_gas,
            r.min_priority_fee_per_gas == min_priority_fee_per_gas,
            r.mempool.pool() == Map::<UserOperationHash, UserOperationView>::empty(),
            r.reputation == reputation,
    {
        UoPoolService {
            entry_point,
            chain_id,
            max_verification_gas,
            min_priority_fee_per_gas,
            mempool: MemoryMempool::new(),
            reputation,
        }
    }

    /// A sender with nothing in the pool passes. One with an operation in
    /// the pool fails when its deposit could not be read; a staked one
    /// passes; an unstaked one passes only by replacing its operation under
    /// the replacement rule.
    pub fn verify_sender(&self, uo: &UserOperation, deposit: Option<DepositInfo>) -> (r: Result<
        SenderAdmission,
        SanityCheckError,
    >)
        requires
            self.wf(),
        ensures
            r == self.sender_spec(uo@, deposit),
            r matches Ok(SenderAdmission::Replaces(h)) ==> self.mempool.pool().contains_key(h)
                && replaces(self.mempool.pool()[h], uo@),
    {
        if self.mempool.get_number_by_sender(&uo.sender) == 0 {
            return Ok(SenderAdmission::Fresh);
        }
        match deposit {
            Some(d) => {
                let staked = self.reputation.verify_stake(
                    Some(
                        StakeInfo {
                            address: uo.sender,
                            stake: d.stake,
                            unstake_delay: d.unstake_delay_sec,
                        },
                    ),
                );
                if staked.is_ok() {
                    return Ok(SenderAdmission::Staked);
                }
            },
            None => {
                return Err(SanityCheckError::SenderVerification { sender: uo.sender });
            },
        }
        let hs = collect_hashes(&self.mempool.user_operations_by_sender, &uo.sender);
        proof {
            lemma_count_hashes(self.mempool.by_sender(), uo.sender);
            lemma_hashes_under(self.mempool.by_sender(), uo.sender);
            let g = hs@[0];
            assert(self.mempool.by_sender().contains((uo.sender, g)));
            let k = choose|k: int|
                0 <= k < self.mempool.by_sender().len() && self.mempool.by_sender()[k] == (
                uo.sender, g);
            assert(self.mempool.by_sender()[k].1 == g);
            let i = choose|i: int|
                0 <= i < self.mempool.ops().len() && self.mempool.ops()[i].hash
                    == self.mempool.by_sender()[k].1 && self.mempool.ops()[i].uo.sender
                    == self.mempool.by_sender()[k].0;
            lemma_op_at(&self.mempool, i);
        }
        let h = hs[0];
        match self.mempool.get(&h) {
            Some(prev) => {
                if may_replace(&prev, uo) {
                    Ok(SenderAdmission::Replaces(h))
                } else {
                    Err(SanityCheckError::SenderVerification { sender: uo.sender })
                }
            },
            None => Err(SanityCheckError::UnknownError),
        }
    }

    /// Runs every sanity check on `uo`, in order, and stops at the first
    /// that fails.
    pub fn validate_user_operation(&self, uo: &UserOperation, facts: &ChainFacts) -> (r: Result<
        SanityCheckResults,
        SanityCheckError,
    >)
        requires
            self.wf(),
        ensures
            r == self.validation_spec(uo@, *facts),
    {
        self.sender_or_init_code(uo, facts.sender_code_empty)?;
        let factory_verified = self.verify_factory(uo, facts.factory_deposit)?;
        self.verification_gas(uo)?;
        let paymaster_verified = self.verify_paymaster(
            uo,
            facts.paymaster_code_empty,
            facts.paymaster_deposit,
        )?;
        self.max_fee_per_gas(uo, &facts.base_fee)?;
        CallGas.check_user_operation(uo, facts.simulation, &facts.base_fee)?;
        Entities.check_user_operation(uo, &self.mempool, &self.reputation)?;
        let sender = self.verify_sender(uo, facts.sender_deposit)?;
        Ok(SanityCheckResults { factory_verified, paymaster_verified, sender })
    }

    /// Admits `uo` if it passes every check: it enters the pool, in place of
    /// the operation it replaces, and each entity it names is counted as seen
    /// (an address named twice, twice). A rejected operation changes nothing.
    #[verifier::rlimit(50)]
    pub fn add_user_operation(&mut self, uo: UserOperation, facts: &ChainFacts) -> (r: Result<
        UserOperationHash,
        SanityCheckError,
    >)
        requires
            old(self).wf(),
        ensures
            final(self).wf(),
            r is Ok == old(self).validation_spec(uo@, *facts) is Ok,
            r is Err ==> r->Err_0 == old(self).validation_spec(uo@, *facts)->Err_0,
            r is Err ==> final(self).mempool.pool() == old(self).mempool.pool(),
            r is Err ==> final(self).reputation == old(self).reputation,
            final(self).same_settings(*old(self)),
            r is Ok ==> forall|b: Address|
                entry_of(final(self).reputation.entities@, b) == seen_times(
                    entry_of(old(self).reputation.entities@, b),
                    b,
                    #[trigger] times_named(uo@, b),
                ),
            r matches Ok(h) ==> h.bytes@ == crate::encoding::user_operation_hash(
                uo@,
                old(self).entry_point,
                old(self).chain_id,
            ) && final(self).mempool.pool() == match old(self).validation_spec(
                uo@,
                *facts,
            )->Ok_0.sender {
                SenderAdmission::Replaces(g) => old(self).mempool.pool().remove(g),
                _ => old(self).mempool.pool(),
            }.insert(h, uo@),
    {
        let checked = self.validate_user_operation(&uo, facts);
        let results = match checked {
            Ok(res) => res,
            Err(e) => {
                return Err(e);
            },
        };
        match results.sender {
            SenderAdmission::Replaces(g) => {
                let _ = self.mempool.remove(&g);
            },
            _ => {},
        }
        let (sender, factory, paymaster) = uo.get_entities();
        let ghost uo_view = uo@;
        let ep = self.entry_point;
        let chain_id = self.chain_id;
        let h = match self.mempool.add(uo, &ep, &chain_id) {
            Ok(h) => h,
            Err(_) => {
                return Err(SanityCheckError::UnknownError);
            },
        };
        let ghost r0 = self.reputation.entities@;
        self.reputation.increment_seen(&sender);
        let ghost r1 = self.reputation.entities@;
        match factory {
            Some(f) => self.reputation.increment_seen(&f),
            None => {},
        }
        let ghost r2 = self.reputation.entities@;
        match paymaster {
            Some(p) => self.reputation.increment_seen(&p),
            None => {},
        }
        proof {
            assert(seen_step(r0, r1, Some(sender)));
            assert(seen_step(r1, r2, factory));
            assert(seen_step(r2, self.reputation.entities@, paymaster));
            lemma_seen_steps(r0, r1, r2, self.reputation.entities@, uo_view);
        }
        Ok(h)
    }
}

impl UoPoolService {
    /// Removes each operation held under one of `hashes`; hashes that the
    /// pool does not hold are passed over.
    pub fn remove_user_operations(&mut self, hashes: &Vec<UserOperationHash>)
        requires
            old(self).wf(),
        ensures
            final(self).wf(),
            final(self).same_settings(*old(self)),
            final(self).reputation == old(self).reputation,
            forall|g: UserOperationHash| #[trigger]
                final(self).mempool.pool().contains_key(g) == (old(self).mempool.pool().contains_key(
                    g,
                ) && !hashes@.contains(g)),
            forall|g: UserOperationHash| #[trigger]
                final(self).mempool.pool().contains_key(g) ==> final(self).mempool.pool()[g] == old(
                    self,
                ).mempool.pool()[g],
    {
        let mut j: usize = 0;
        while j < hashes.len()
            invariant
                self.wf(),
                self.same_settings(*old(self)),
                self.reputation == old(self).reputation,
                j <= hashes@.len(),
                forall|g: UserOperationHash| #[trigger]
                    self.mempool.pool().contains_key(g) == (old(self).mempool.pool().contains_key(g)
                        && !hashes@.subrange(0, j as int).contains(g)),
                forall|g: UserOperationHash| #[trigger]
                    self.mempool.pool().contains_key(g) ==> self.mempool.pool()[g] == old(
                        self,
                    ).mempool.pool()[g],
            decreases hashes@.len() - j,
        {
            let _ = self.mempool.remove(&hashes[j]);
            proof {
                let s1 = hashes@.subrange(0, j + 1);
                let s0 = hashes@.subrange(0, j as int);
                assert forall|g: UserOperationHash| #[trigger] s1.contains(g) == (s0.contains(g)
                    || g == hashes@[j as int]) by {
                    if s1.contains(g) {
                        let t = choose|t: int| 0 <= t < s1.len() && s1[t] == g;
                        if t < j {
                            assert(s0[t] == g);
                        }
                    }
                    if s0.contains(g) {
                        let t = choose|t: int| 0 <= t < s0.len() && s0[t] == g;
                        assert(s1[t] == g);
                    }
                    if g == hashes@[j as int] {
                        assert(s1[j as int] == g);
                    }
                }
            }
            j = j + 1;
        }
        proof {
            assert(hashes@.subrange(0, hashes@.len() as int) =~= hashes@);
        }
    }
}

fn same_code_hash(a: &CodeHash, b: &CodeHash) -> (r: bool)
    ensures
        r == (*a == *b),
{
    if !(a.address == b.address) {
        return false;
    }
    let mut i: usize = 0;
    while i < 32
        invariant
            i <= 32,
            forall|j: int| 0 <= j < i ==> a.hash@[j] == b.hash@[j],
        decreases 32 - i,
    {
        if a.hash[i] != b.hash[i] {
            return false;
        }
        i = i + 1;
    }
    proof {
        assert(a.hash@ =~= b.hash@);
        assert(a.hash == b.hash);
    }
    true
}

fn same_code_hashes(a: &Vec<CodeHash>, b: &Vec<CodeHash>) -> (r: bool)
    ensures
        r == (a@ == b@),
{
    if a.len() != b.len() {
        return false;
    }
    let mut i: usize = 0;
    while i < a.len()
        invariant
            i <= a@.len(),
            a@.len() == b@.len(),
            forall|j: int| 0 <= j < i ==> a@[j] == b@[j],
        decreases a@.len() - i,
    {
        if !same_code_hash(&a[i], &b[i]) {
            return false;
        }
        i = i + 1;
    }
    proof {
        assert(a@ =~= b@);
    }
    true
}

impl UoPoolService {
    /// After a new block: evicts the operation held under `h` when code
    /// hashes were recorded for it and the chain now reports `current` in
    /// their place, as read again for the same contracts in the same order.
    /// Returns whether it was evicted.
    pub fn evict_if_code_changed(&mut self, h: &UserOperationHash, current: &Vec<CodeHash>) -> (r:
        bool)
        requires
            old(self).wf(),
        ensures
            final(self).wf(),
            final(self).same_settings(*old(self)),
            final(self).reputation == old(self).reputation,
            r == (old(self).mempool.pool().contains_key(*h) && codes_for(
                old(self).mempool.codes(),
                *h,
            ).len() > 0 && codes_for(old(self).mempool.codes(), *h) != current@),
            final(self).mempool.pool() == if r {
                old(self).mempool.pool().remove(*h)
            } else {
                old(self).mempool.pool()
            },
    {
        if !self.mempool.has_code_hashes(h) {
            return false;
        }
        let recorded = self.mempool.get_code_hashes(h);
        if same_code_hashes(&recorded, current) {
            return false;
        }
        match self.mempool.remove(h) {
            Ok(()) => true,
            Err(_) => false,
        }
    }
}

/// Once an unstaked sender has an operation in the pool, an operation of
/// that sender passes the checks only as a replacement of it: same nonce, a
/// strictly higher priority fee, raised by at least the bump, and a fee cap
/// raised by exactly as much as the priority fee.
pub proof fn lemma_replacement_monotone(svc: UoPoolService, uo: UserOperationView, facts: ChainFacts)
    requires
        svc.wf(),
        svc.validation_spec(uo, facts) is Ok,
        count_for(svc.mempool.by_sender(), uo.sender) > 0,
        facts.sender_deposit is Some,
        svc.reputation.stake_outcome(Some(stake_of(uo.sender, facts.sender_deposit.unwrap()))) is Err,
    ensures
        svc.validation_spec(uo, facts)->Ok_0.sender == SenderAdmission::Replaces(
            svc.first_of_sender(uo.sender),
        ),
        svc.mempool.pool()[svc.first_of_sender(uo.sender)].sender == uo.sender,
        svc.mempool.pool()[svc.first_of_sender(uo.sender)].nonce.value() == uo.nonce.value(),
        uo.max_priority_fee_per_gas.value() > svc.mempool.pool()[svc.first_of_sender(
            uo.sender,
        )].max_priority_fee_per_gas.value(),
        uo.max_fee_per_gas.value() - svc.mempool.pool()[svc.first_of_sender(
            uo.sender,
        )].max_fee_per_gas.value() == uo.max_priority_fee_per_gas.value() - svc.mempool.pool()[svc.first_of_sender(
            uo.sender,
        )].max_priority_fee_per_gas.value(),
{
}

} // verus!
