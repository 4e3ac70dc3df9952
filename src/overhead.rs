//! Gas overheads of the bundle transaction, and the pre-verification gas
//! that an operation must pay for its share of them.

use vstd::prelude::*;

use crate::encoding::abi_encoding;
use crate::primitives::UserOperation;
use crate::uint::U256;

verus! {

/// Gas overheads that pre-verification gas must cover.
#[derive(Clone, Copy, Debug, PartialEq, Eq)]
pub struct Overhead {
    pub fixed: u32,
    pub per_user_operation: u32,
    pub per_user_operation_word: u32,
    pub zero_byte: u32,
    pub non_zero_byte: u32,
    pub bundle_size: u32,
    pub sig_size: u32,
}

/// Calldata cost of a byte string: one price for zero bytes, another for the rest.
pub open spec fn calldata_cost(ov: Overhead, s: Seq<u8>) -> int
    decreases s.len(),
{
    if s.len() == 0 {
        0
    } else {
        calldata_cost(ov, s.drop_last()) + if s.last() == 0 {
            ov.zero_byte as int
        } else {
            ov.non_zero_byte as int
        }
    }
}

/// Pre-verification gas for an operation whose encoding is `packed`: its
/// share of the fixed cost, its calldata, a per-operation cost and a cost
/// per 32-byte word.
pub open spec fn pre_verification_gas_of(ov: Overhead, packed: Seq<u8>) -> int {
    ov.fixed / ov.bundle_size + calldata_cost(ov, packed) + ov.per_user_operation + (packed.len()
        + 31) / 32 * ov.per_user_operation_word
}

impl Overhead {
    /// The overheads of the ERC-4337 reference bundler.
    pub fn default_overhead() -> (r: Overhead)
        ensures
            r.fixed == 21000,
            r.per_user_operation == 18300,
            r.per_user_operation_word == 4,
            r.zero_byte == 4,
            r.non_zero_byte == 16,
            r.bundle_size == 1,
            r.sig_size == 65,
    {
        Overhead {
            fixed: 21000,
            per_user_operation: 18300,
            per_user_operation_word: 4,
            zero_byte: 4,
            non_zero_byte: 16,
            bundle_size: 1,
            sig_size: 65,
        }
    }

    /// The pre-verification gas that `uo` must at least carry.
    pub fn calculate_pre_verification_gas(&self, uo: &UserOperation) -> (r: U256)
        requires
            self.bundle_size > 0,
        ensures
            r.value() == pre_verification_gas_of(*self, abi_encoding(uo@)),
    {
        let packed = uo.pack();
        let mut cost: u128 = 0;
        let mut i: usize = 0;
        while i < packed.len()
            invariant
                i <= packed@.len(),
                cost == calldata_cost(*self, packed@.subrange(0, i as int)),
                cost <= i * 0x1_0000_0000,
            decreases packed@.len() - i,
        {
            proof {
                assert(packed@.subrange(0, i + 1).drop_last() =~= packed@.subrange(0, i as int));
            }
            if packed[i] == 0 {
                cost = cost + self.zero_byte as u128;
            } else {
                cost = cost + self.non_zero_byte as u128;
            }
            i = i + 1;
        }
        proof {
            assert(packed@.subrange(0, packed@.len() as int) =~= packed@);
        }
        let words: u128 = ((packed.len() as u128) + 31) / 32;
        assert(words * (self.per_user_operation_word as u128) < 0x1_0000_0000_0000_0000_0000_0000)
            by (nonlinear_arith)
            requires
                words <= 0x1_0000_0000_0000_0000,
                self.per_user_operation_word < 0x1_0000_0000,
        ;
        let total: u128 = (self.fixed / self.bundle_size) as u128 + cost
            + self.per_user_operation as u128 + words * (self.per_user_operation_word as u128);
        U256::from_u128(total)
    }
}

} // verus!
