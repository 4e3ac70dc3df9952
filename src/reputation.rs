//! Per-address reputation: counters of operations seen and included, the
//! status derived from them, stake checks, and hourly decay.

use vstd::prelude::*;

use crate::primitives::Address;
use crate::uint::U256;

verus! {

/// Below one included operation in this many seen, an entity falls behind.
pub const MIN_INCLUSION_RATE_DENOMINATOR: u64 = 10;

/// How far an entity may fall behind before it is throttled.
pub const THROTTLING_SLACK: u64 = 10;

/// How far an entity may fall behind before it is banned.
pub const BAN_SLACK: u64 = 50;

/// Most operations a throttled entity may have in the mempool.
pub const THROTTLED_ENTITY_MEMPOOL_COUNT: usize = 4;

/// Reputation counters of one address.
#[derive(Clone, Copy, Debug, PartialEq, Eq)]
pub struct ReputationEntry {
    pub address: Address,
    pub uo_seen: u64,
    pub uo_included: u64,
}

/// Standing of an entity.
#[allow(non_camel_case_types)]
#[derive(Clone, Copy, Debug, PartialEq, Eq, Structural)]
pub enum Status {
    OK,
    THROTTLED,
    BANNED,
}

/// Stake that an entity holds in the entry point.
#[derive(Clone, Copy, Debug, PartialEq, Eq)]
pub struct StakeInfo {
    pub address: Address,
    pub stake: U256,
    pub unstake_delay: U256,
}

/// Why an entity failed a reputation or stake check.
#[derive(Clone, Copy, Debug, PartialEq, Eq)]
pub enum ReputationError {
    EntityBanned { address: Address },
    ThrottledLimit { address: Address },
    StakeTooLow { address: Address, stake: U256, min_stake: U256 },
    UnstakeDelayTooLow { address: Address, unstake_delay: U256, min_unstake_delay: U256 },
    StakeIsZero { address: Address },
}

/// Status from the counters alone.
pub open spec fn status_of(seen: int, included: int, den: int, throttling: int, ban: int) -> Status {
    let min_expected = seen / den;
    if included + throttling >= min_expected {
        Status::OK
    } else if included + ban < min_expected {
        Status::BANNED
    } else {
        Status::THROTTLED
    }
}

/// `i` is the first position of `s` that holds an entry for `a`.
pub open spec fn is_first(s: Seq<ReputationEntry>, a: Address, i: int) -> bool {
    0 <= i < s.len() && s[i].address == a && forall|j: int| 0 <= j < i ==> s[j].address != a
}

/// No entry of `s` is for `a`.
pub open spec fn absent(s: Seq<ReputationEntry>, a: Address) -> bool {
    forall|j: int| 0 <= j < s.len() ==> s[j].address != a
}

/// The entry that `s` holds for `a`: its first one.
pub open spec fn entry_of(s: Seq<ReputationEntry>, a: Address) -> Option<ReputationEntry> {
    if exists|i: int| is_first(s, a, i) {
        Some(s[choose|i: int| is_first(s, a, i)])
    } else {
        None
    }
}

/// The entry for `a` after one more operation from `a` was seen.
pub open spec fn seen_once(e: Option<ReputationEntry>, a: Address) -> Option<ReputationEntry> {
    Some(
        match e {
            Some(e) => ReputationEntry {
                uo_seen: if e.uo_seen == u64::MAX {
                    e.uo_seen
                } else {
                    (e.uo_seen + 1) as u64
                },
                ..e
            },
            None => ReputationEntry { address: a, uo_seen: 1, uo_included: 0 },
        },
    )
}

/// The entry for `a` after `n` more operations from `a` were seen.
pub open spec fn seen_times(e: Option<ReputationEntry>, a: Address, n: nat) -> Option<ReputationEntry>
    decreases n,
{
    if n == 0 {
        e
    } else {
        seen_once(seen_times(e, a, (n - 1) as nat), a)
    }
}

/// No two entries are for the same address.
pub open spec fn unique_addresses(s: Seq<ReputationEntry>) -> bool {
    forall|i: int, j: int| 0 <= i < j < s.len() ==> s[i].address != s[j].address
}

/// An entry decayed by one reputation hour.
pub open spec fn decayed(e: ReputationEntry) -> ReputationEntry {
    ReputationEntry {
        address: e.address,
        uo_seen: (e.uo_seen * 23 / 24) as u64,
        uo_included: (e.uo_included * 23 / 24) as u64,
    }
}

/// The entries that remain after one reputation hour: each decayed, and
/// those whose counters both reached zero dropped.
pub open spec fn decay_all(s: Seq<ReputationEntry>) -> Seq<ReputationEntry>
    decreases s.len(),
{
    if s.len() == 0 {
        s
    } else {
        let d = decayed(s.last());
        let rest = decay_all(s.drop_last());
        if d.uo_seen > 0 || d.uo_included > 0 {
            rest.push(d)
        } else {
            rest
        }
    }
}

/// Outside the lists, an address whose included count is at least the
/// expected count less the throttling slack is OK, and one whose included
/// count is below the expected count less the ban slack is BANNED (the ban
/// slack being no smaller than the throttling slack).
pub proof fn lemma_status_bounds(seen: u64, included: u64, den: u64, throttling: u64, ban: u64)
    requires
        den > 0,
    ensures
        included >= seen / den - throttling ==> status_of(
            seen as int,
            included as int,
            den as int,
            throttling as int,
            ban as int,
        ) == Status::OK,
        throttling <= ban && included < seen / den - ban ==> status_of(
            seen as int,
            included as int,
            den as int,
            throttling as int,
            ban as int,
        ) == Status::BANNED,
{
}

/// After a reputation hour each remaining entry is an old entry with both
/// counters at 23/24 of their value, rounded down; every old entry whose
/// decayed counters are not both zero remains; no remaining entry is zero
/// on both counters.
pub proof fn lemma_decay(s: Seq<ReputationEntry>)
    ensures
        forall|k: int|
            0 <= k < decay_all(s).len() ==> exists|i: int|
                0 <= i < s.len() && #[trigger] decay_all(s)[k] == decayed(s[i]),
        forall|i: int|
            0 <= i < s.len() && (decayed(s[i]).uo_seen > 0 || decayed(s[i]).uo_included > 0)
                ==> decay_all(s).contains(#[trigger] decayed(s[i])),
        forall|k: int|
            0 <= k < decay_all(s).len() ==> (#[trigger] decay_all(s)[k]).uo_seen > 0 || decay_all(
                s,
            )[k].uo_included > 0,
    decreases s.len(),
{
    if s.len() > 0 {
        let p = s.drop_last();
        lemma_decay(p);
        let d = decayed(s.last());
        let r = decay_all(s);
        let q = decay_all(p);
        assert forall|k: int| 0 <= k < r.len() implies exists|i: int|
            0 <= i < s.len() && #[trigger] r[k] == decayed(s[i]) by {
            if k < q.len() {
                let i = choose|i: int| 0 <= i < p.len() && q[k] == decayed(p[i]);
                assert(r[k] == decayed(s[i]));
            } else {
                assert(r[k] == decayed(s[s.len() - 1]));
            }
        }
        assert forall|i: int|
            0 <= i < s.len() && (decayed(s[i]).uo_seen > 0 || decayed(s[i]).uo_included
                > 0) implies r.contains(#[trigger] decayed(s[i])) by {
            if i < p.len() {
                assert(p[i] == s[i]);
                let k = choose|k: int| 0 <= k < q.len() && q[k] == decayed(p[i]);
                assert(r[k] == q[k]);
            } else {
                assert(r[r.len() - 1] == d);
            }
        }
    }
}

/// Decay keeps addresses unique.
pub proof fn lemma_decay_unique(s: Seq<ReputationEntry>)
    requires
        unique_addresses(s),
    ensures
        unique_addresses(decay_all(s)),
    decreases s.len(),
{
    if s.len() > 0 {
        let p = s.drop_last();
        assert(unique_addresses(p));
        lemma_decay_unique(p);
        lemma_decay(p);
        let q = decay_all(p);
        let d = decayed(s.last());
        if d.uo_seen > 0 || d.uo_included > 0 {
            let r = q.push(d);
            assert forall|i: int, j: int| 0 <= i < j < r.len() implies r[i].address
                != r[j].address by {
                if j == q.len() {
                    let t = choose|t: int| 0 <= t < p.len() && #[trigger] q[i] == decayed(p[t]);
                    assert(s[t].address != s[s.len() - 1].address);
                } else {
                    assert(r[i] == q[i] && r[j] == q[j]);
                }
            }
        }
    }
}

/// Per address: after a reputation hour the entry of `a` is its old entry
/// decayed, unless both decayed counters are zero, in which case `a` has no
/// entry; an address without an entry still has none.
pub proof fn lemma_decay_entry(s: Seq<ReputationEntry>, a: Address)
    requires
        unique_addresses(s),
    ensures
        entry_of(decay_all(s), a) == match entry_of(s, a) {
            Some(e) => if decayed(e).uo_seen > 0 || decayed(e).uo_included > 0 {
                Some(decayed(e))
            } else {
                None
            },
            None => None,
        },
{
    lemma_decay(s);
    lemma_decay_unique(s);
    let q = decay_all(s);
    if exists|i: int| 0 <= i < s.len() && s[i].address == a {
        let i = choose|i: int| 0 <= i < s.len() && s[i].address == a;
        assert(is_first(s, a, i));
        let k0 = choose|k: int| is_first(s, a, k);
        lemma_first_unique(s, a, i, k0);
        let e = s[i];
        assert(entry_of(s, a) == Some(e));
        if decayed(e).uo_seen > 0 || decayed(e).uo_included > 0 {
            assert(q.contains(decayed(s[i])));
            let k = choose|k: int| 0 <= k < q.len() && q[k] == decayed(s[i]);
            assert(is_first(q, a, k));
            let k1 = choose|k: int| is_first(q, a, k);
            lemma_first_unique(q, a, k, k1);
        } else {
            assert forall|k: int| 0 <= k < q.len() implies q[k].address != a by {
                let t = choose|t: int| 0 <= t < s.len() && #[trigger] q[k] == decayed(s[t]);
                if q[k].address == a {
                    assert(s[t].address == s[i].address);
                    assert(t == i);
                }
            }
            assert(!exists|k: int| is_first(q, a, k));
        }
    } else {
        assert(!exists|k: int| is_first(s, a, k));
        assert forall|k: int| 0 <= k < q.len() implies q[k].address != a by {
            let t = choose|t: int| 0 <= t < s.len() && #[trigger] q[k] == decayed(s[t]);
        }
        assert(!exists|k: int| is_first(q, a, k));
    }
}

/// The first position holding `a` is unique.
pub proof fn lemma_first_unique(s: Seq<ReputationEntry>, a: Address, i: int, k: int)
    requires
        is_first(s, a, i),
        is_first(s, a, k),
    ensures
        i == k,
{
}

/// Reputation of the entities that one mempool has seen.
pub struct Reputation {
    pub min_inclusion_denominator: u64,
    pub throttling_slack: u64,
    pub ban_slack: u64,
    pub min_stake: U256,
    pub min_unstake_delay: U256,
    pub whitelist: Vec<Address>,
    pub blacklist: Vec<Address>,
    pub entities: Vec<ReputationEntry>,
}

fn contains_address(v: &Vec<Address>, a: &Address) -> (r: bool)
    ensures
        r == v@.contains(*a),
{
    let mut i: usize = 0;
    while i < v.len()
        invariant
            i <= v@.len(),
            forall|j: int| 0 <= j < i ==> v@[j] != *a,
        decreases v@.len() - i,
    {
        if v[i] == *a {
            return true;
        }
        i = i + 1;
    }
    false
}

impl Reputation {
    /// The configuration can derive a status (its denominator is not zero),
    /// and each address has at most one entry.
    pub open spec fn wf(&self) -> bool {
        self.min_inclusion_denominator > 0 && unique_addresses(self.entities@)
    }

    /// Both have the same parameters and lists.
    pub open spec fn same_config(&self, o: Reputation) -> bool {
        &&& self.min_inclusion_denominator == o.min_inclusion_denominator
        &&& self.throttling_slack == o.throttling_slack
        &&& self.ban_slack == o.ban_slack
        &&& self.min_stake == o.min_stake
        &&& self.min_unstake_delay == o.min_unstake_delay
        &&& self.whitelist@ == o.whitelist@
        &&& self.blacklist@ == o.blacklist@
    }

    /// Status of `a` as the lists and the counters give it.
    pub open spec fn status_spec(&self, a: Address) -> Status {
        if self.whitelist@.contains(a) {
            Status::OK
        } else if self.blacklist@.contains(a) {
            Status::BANNED
        } else {
            match entry_of(self.entities@, a) {
                None => Status::OK,
                Some(e) => status_of(
                    e.uo_seen as int,
                    e.uo_included as int,
                    self.min_inclusion_denominator as int,
                    self.throttling_slack as int,
                    self.ban_slack as int,
                ),
            }
        }
    }

    /// An empty reputation with the given parameters and lists.
    pub fn new(
        min_inclusion_denominator: u64,
        throttling_slack: u64,
        ban_slack: u64,
        min_stake: U256,
        min_unstake_delay: U256,
        whitelist: Vec<Address>,
        blacklist: Vec<Address>,
    ) -> (r: Reputation)
        ensures
            r.min_inclusion_denominator == min_inclusion_denominator,
            r.throttling_slack == throttling_slack,
            r.ban_slack == ban_slack,
            r.min_stake == min_stake,
            r.min_unstake_delay == min_unstake_delay,
            r.whitelist@ == whitelist@,
            r.blacklist@ == blacklist@,
            r.entities@.len() == 0,
    {
        Reputation {
            min_inclusion_denominator,
            throttling_slack,
            ban_slack,
            min_stake,
            min_unstake_delay,
            whitelist,
            blacklist,
            entities: Vec::new(),
        }
    }

    /// Position of the entry for `a`, if there is one.
    fn find(&self, a: &Address) -> (r: Option<usize>)
        ensures
            r matches Some(i) ==> is_first(self.entities@, *a, i as int),
            r is None ==> absent(self.entities@, *a),
    {
        let mut i: usize = 0;
        while i < self.entities.len()
            invariant
                i <= self.entities@.len(),
                forall|j: int| 0 <= j < i ==> self.entities@[j].address != *a,
            decreases self.entities@.len() - i,
        {
            if self.entities[i].address == *a {
                return Some(i);
            }
            i = i + 1;
        }
        None
    }

    /// The entry for `a`, if there is one.
    pub fn get_entry(&self, a: &Address) -> (r: Option<ReputationEntry>)
        ensures
            r == entry_of(self.entities@, *a),
    {
        match self.find(a) {
            Some(i) => {
                proof {
                    let k = choose|k: int| is_first(self.entities@, *a, k);
                    lemma_first_unique(self.entities@, *a, i as int, k);
                }
                Some(self.entities[i])
            },
            None => None,
        }
    }

    /// Status from counters, without the lists.
    pub fn status_from(&self, seen: u64, included: u64) -> (r: Status)
        requires
            self.wf(),
        ensures
            r == status_of(
                seen as int,
                included as int,
                self.min_inclusion_denominator as int,
                self.throttling_slack as int,
                self.ban_slack as int,
            ),
    {
        let min_expected: u64 = seen / self.min_inclusion_denominator;
        if (included as u128) + (self.throttling_slack as u128) >= min_expected as u128 {
            Status::OK
        } else if (included as u128) + (self.ban_slack as u128) < min_expected as u128 {
            Status::BANNED
        } else {
            Status::THROTTLED
        }
    }

    /// Status of `a`: whitelisted addresses are OK, blacklisted ones BANNED,
    /// others go by their counters, and an address never seen is OK.
    pub fn get_status(&self, a: &Address) -> (r: Status)
        requires
            self.wf(),
        ensures
            r == self.status_spec(*a),
    {
        if contains_address(&self.whitelist, a) {
            Status::OK
        } else if contains_address(&self.blacklist, a) {
            Status::BANNED
        } else {
            match self.get_entry(a) {
                None => Status::OK,
                Some(e) => self.status_from(e.uo_seen, e.uo_included),
            }
        }
    }

    /// Stores `e` as the entry for its address, in place of an earlier one.
    pub fn set_entry(&mut self, e: ReputationEntry)
        ensures
            final(self).entities@ == match entry_of(old(self).entities@, e.address) {
                Some(_) => old(self).entities@.update(
                    choose|i: int| is_first(old(self).entities@, e.address, i),
                    e,
                ),
                None => old(self).entities@.push(e),
            },
            entry_of(final(self).entities@, e.address) == Some(e),
            forall|b: Address|
                b != e.address ==> entry_of(final(self).entities@, b) == entry_of(
                    old(self).entities@,
                    b,
                ),
            old(self).wf() ==> final(self).wf(),
            final(self).same_config(*old(self)),
    {
        let ghost s = self.entities@;
        match self.find(&e.address) {
            Some(i) => {
                proof {
                    let k = choose|k: int| is_first(s, e.address, k);
                    lemma_first_unique(s, e.address, i as int, k);
                }
                self.entities.set(i, e);
                proof {
                    let t = self.entities@;
                    assert(s[i as int].address == e.address);
                    assert forall|j: int| 0 <= j < t.len() implies t[j].address == s[j].address by {}
                    assert(is_first(t, e.address, i as int));
                    assert forall|b: Address| b != e.address implies entry_of(t, b) == entry_of(
                        s,
                        b,
                    ) by {
                        assert forall|j: int| 0 <= j < t.len() implies (t[j].address == b) == (
                        s[j].address == b) by {
                            if j == i {
                                assert(s[j].address == e.address);
                            }
                        }
                        assert forall|k: int| is_first(t, b, k) == is_first(s, b, k) by {}
                    }
                }
            },
            None => {
                self.entities.push(e);
                proof {
                    let t = self.entities@;
                    assert forall|j: int| 0 <= j < s.len() implies t[j] == s[j] by {}
                    assert(is_first(t, e.address, s.len() as int));
                    assert forall|b: Address| b != e.address implies entry_of(t, b) == entry_of(
                        s,
                        b,
                    ) by {
                        assert forall|j: int| 0 <= j < s.len() implies t[j] == s[j] by {}
                        assert forall|k: int| is_first(t, b, k) == is_first(s, b, k) by {
                            if k == s.len() {
                                assert(t[k].address == e.address);
                            }
                        }
                    }
                }
            },
        }
    }

    /// Counts one more operation seen from `a`, saturating.
    pub fn increment_seen(&mut self, a: &Address)
        ensures
            entry_of(final(self).entities@, *a) == seen_once(entry_of(old(self).entities@, *a), *a),
            forall|b: Address|
                b != *a ==> entry_of(final(self).entities@, b) == entry_of(old(self).entities@, b),
            old(self).wf() ==> final(self).wf(),
            final(self).same_config(*old(self)),
    {
        let e = match self.get_entry(a) {
            Some(e) => ReputationEntry { uo_seen: e.uo_seen.saturating_add(1), ..e },
            None => ReputationEntry { address: *a, uo_seen: 1, uo_included: 0 },
        };
        proof {
            match entry_of(self.entities@, *a) {
                Some(x) => {
                    let k = choose|k: int| is_first(self.entities@, *a, k);
                    assert(x.address == *a);
                },
                None => {},
            }
        }
        self.set_entry(e);
    }

    /// Counts one more operation included from `a`, saturating.
    pub fn increment_included(&mut self, a: &Address)
        ensures
            entry_of(final(self).entities@, *a) == Some(
                match entry_of(old(self).entities@, *a) {
                    Some(e) => ReputationEntry {
                        uo_included: if e.uo_included == u64::MAX {
                            e.uo_included
                        } else {
                            (e.uo_included + 1) as u64
                        },
                        ..e
                    },
                    None => ReputationEntry { address: *a, uo_seen: 0, uo_included: 1 },
                },
            ),
            forall|b: Address|
                b != *a ==> entry_of(final(self).entities@, b) == entry_of(old(self).entities@, b),
            old(self).wf() ==> final(self).wf(),
            final(self).same_config(*old(self)),
    {
        let e = match self.get_entry(a) {
            Some(e) => ReputationEntry { uo_included: e.uo_included.saturating_add(1), ..e },
            None => ReputationEntry { address: *a, uo_seen: 0, uo_included: 1 },
        };
        proof {
            match entry_of(self.entities@, *a) {
                Some(x) => {
                    let k = choose|k: int| is_first(self.entities@, *a, k);
                    assert(x.address == *a);
                },
                None => {},
            }
        }
        self.set_entry(e);
    }

    /// Blames `a` for a reverted bundle: one included operation less, not
    /// below zero. An address without an entry is left alone.
    pub fn update_handle_ops_reverted(&mut self, a: &Address)
        ensures
            entry_of(final(self).entities@, *a) == match entry_of(old(self).entities@, *a) {
                Some(e) => Some(
                    ReputationEntry {
                        uo_included: if e.uo_included == 0 {
                            0
                        } else {
                            (e.uo_included - 1) as u64
                        },
                        ..e
                    },
                ),
                None => None,
            },
            forall|b: Address|
                b != *a ==> entry_of(final(self).entities@, b) == entry_of(old(self).entities@, b),
            old(self).wf() ==> final(self).wf(),
            final(self).same_config(*old(self)),
    {
        match self.get_entry(a) {
            Some(e) => {
                proof {
                    let k = choose|k: int| is_first(self.entities@, *a, k);
                }
                self.set_entry(ReputationEntry { uo_included: e.uo_included.saturating_sub(1), ..e });
            },
            None => {},
        }
    }

    /// Checks that an entity is staked enough: whitelisted entities pass;
    /// otherwise a banned one fails first, then a zero stake, a stake below
    /// the minimum, and an unstake delay below the minimum. Without stake
    /// information there is nothing to check.
    pub fn verify_stake(&self, info: Option<StakeInfo>) -> (r: Result<(), ReputationError>)
        requires
            self.wf(),
        ensures
            r == self.stake_outcome(info),
    {
        match info {
            None => Ok(()),
            Some(info) => {
                if contains_address(&self.whitelist, &info.address) {
                    Ok(())
                } else if self.get_status(&info.address) == Status::BANNED {
                    Err(ReputationError::EntityBanned { address: info.address })
                } else if info.stake.is_zero() {
                    Err(ReputationError::StakeIsZero { address: info.address })
                } else if info.stake.lt(&self.min_stake) {
                    Err(
                        ReputationError::StakeTooLow {
                            address: info.address,
                            stake: info.stake,
                            min_stake: self.min_stake,
                        },
                    )
                } else if info.unstake_delay.lt(&self.min_unstake_delay) {
                    Err(
                        ReputationError::UnstakeDelayTooLow {
                            address: info.address,
                            unstake_delay: info.unstake_delay,
                            min_unstake_delay: self.min_unstake_delay,
                        },
                    )
                } else {
                    Ok(())
                }
            },
        }
    }

    pub open spec fn stake_outcome(&self, info: Option<StakeInfo>) -> Result<(), ReputationError> {
        match info {
            None => Ok(()),
            Some(info) => if self.whitelist@.contains(info.address) {
                Ok(())
            } else if self.status_spec(info.address) == Status::BANNED {
                Err(ReputationError::EntityBanned { address: info.address })
            } else if info.stake.value() == 0 {
                Err(ReputationError::StakeIsZero { address: info.address })
            } else if info.stake.value() < self.min_stake.value() {
                Err(
                    ReputationError::StakeTooLow {
                        address: info.address,
                        stake: info.stake,
                        min_stake: self.min_stake,
                    },
                )
            } else if info.unstake_delay.value() < self.min_unstake_delay.value() {
                Err(
                    ReputationError::UnstakeDelayTooLow {
                        address: info.address,
                        unstake_delay: info.unstake_delay,
                        min_unstake_delay: self.min_unstake_delay,
                    },
                )
            } else {
                Ok(())
            },
        }
    }

    /// Stores each of `entries`, in order, as the entry for its address.
    pub fn set_reputation(&mut self, entries: &Vec<ReputationEntry>)
        ensures
            forall|b: Address|
                !(exists|i: int| 0 <= i < entries@.len() && entries@[i].address == b)
                    ==> entry_of(final(self).entities@, b) == entry_of(old(self).entities@, b),
            forall|i: int|
                0 <= i < entries@.len() && (forall|j: int|
                    i < j < entries@.len() ==> entries@[j].address != entries@[i].address)
                    ==> entry_of(final(self).entities@, entries@[i].address) == Some(entries@[i]),
            old(self).wf() ==> final(self).wf(),
            final(self).same_config(*old(self)),
    {
        let mut k: usize = 0;
        while k < entries.len()
            invariant
                k <= entries@.len(),
                forall|b: Address|
                    !(exists|i: int| 0 <= i < k && entries@[i].address == b) ==> entry_of(
                        self.entities@,
                        b,
                    ) == entry_of(old(self).entities@, b),
                forall|i: int|
                    0 <= i < k && (forall|j: int|
                        i < j < k ==> entries@[j].address != entries@[i].address) ==> entry_of(
                        self.entities@,
                        entries@[i].address,
                    ) == Some(entries@[i]),
                old(self).wf() ==> self.wf(),
                self.same_config(*old(self)),
            decreases entries@.len() - k,
        {
            let e = entries[k];
            self.set_entry(e);
            k = k + 1;
        }
    }

    /// All entries.
    pub fn get_all(&self) -> (r: Vec<ReputationEntry>)
        ensures
            r@ == self.entities@,
    {
        self.entities.clone()
    }

    /// One reputation hour passes: both counters of each entry fall to 23/24
    /// of their value, rounded down, and entries that reach zero on both go.
    pub fn tick(&mut self)
        ensures
            final(self).entities@ == decay_all(old(self).entities@),
            old(self).wf() ==> forall|a: Address|
                #[trigger] entry_of(final(self).entities@, a) == match entry_of(
                    old(self).entities@,
                    a,
                ) {
                    Some(e) => if decayed(e).uo_seen > 0 || decayed(e).uo_included > 0 {
                        Some(decayed(e))
                    } else {
                        None
                    },
                    None => None,
                },
            old(self).wf() ==> final(self).wf(),
            final(self).same_config(*old(self)),
    {
        let mut out: Vec<ReputationEntry> = Vec::new();
        let mut i: usize = 0;
        while i < self.entities.len()
            invariant
                i <= self.entities@.len(),
                self.entities@ == old(self).entities@,
                out@ == decay_all(self.entities@.subrange(0, i as int)),
            decreases self.entities@.len() - i,
        {
            let e = self.entities[i];
            let seen: u64 = ((e.uo_seen as u128) * 23 / 24) as u64;
            let included: u64 = ((e.uo_included as u128) * 23 / 24) as u64;
            let d = ReputationEntry { address: e.address, uo_seen: seen, uo_included: included };
            proof {
                assert(self.entities@.subrange(0, i + 1).drop_last() =~= self.entities@.subrange(
                    0,
                    i as int,
                ));
            }
            if seen > 0 || included > 0 {
                out.push(d);
            }
            i = i + 1;
        }
        proof {
            assert(self.entities@.subrange(0, self.entities@.len() as int) =~= self.entities@);
            if unique_addresses(self.entities@) {
                lemma_decay_unique(self.entities@);
                assert forall|a: Address| #[trigger] entry_of(decay_all(self.entities@), a) == match entry_of(
                    self.entities@,
                    a,
                ) {
                    Some(e) => if decayed(e).uo_seen > 0 || decayed(e).uo_included > 0 {
                        Some(decayed(e))
                    } else {
                        None
                    },
                    None => None,
                } by {
                    lemma_decay_entry(self.entities@, a);
                }
            }
        }
        self.entities = out;
    }
}

} // verus!
