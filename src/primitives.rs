//! Addresses, hashes and the user operation itself.

use vstd::prelude::*;

use crate::uint::U256;

verus! {

broadcast use vstd::array::group_array_axioms;

/// A 20-byte account address.
#[derive(Clone, Copy, Debug, Eq)]
pub struct Address {
    pub bytes: [u8; 20],
}

impl PartialEq for Address {
    fn eq(&self, o: &Address) -> (r: bool) {
        let mut i: usize = 0;
        while i < 20
            invariant
                i <= 20,
                forall|j: int| 0 <= j < i ==> self.bytes@[j] == o.bytes@[j],
            decreases 20 - i,
        {
            if self.bytes[i] != o.bytes[i] {
                return false;
            }
            i = i + 1;
        }
        proof {
            assert(self.bytes@ =~= o.bytes@);
            assert(self.bytes == o.bytes);
        }
        true
    }
}

impl vstd::std_specs::cmp::PartialEqSpecImpl for Address {
    open spec fn obeys_eq_spec() -> bool {
        true
    }

    open spec fn eq_spec(&self, o: &Address) -> bool {
        *self == *o
    }
}

/// Addresses with the same bytes are the same address.
pub proof fn lemma_address_ext(a: Address, b: Address)
    requires
        a.bytes@ == b.bytes@,
    ensures
        a == b,
{
    assert(a.bytes@ =~= b.bytes@);
    assert(a.bytes == b.bytes);
}

/// The 32-byte identifier of a user operation.
#[derive(Clone, Copy, Debug, Eq)]
pub struct UserOperationHash {
    pub bytes: [u8; 32],
}

impl PartialEq for UserOperationHash {
    fn eq(&self, o: &UserOperationHash) -> (r: bool) {
        let mut i: usize = 0;
        while i < 32
            invariant
                i <= 32,
                forall|j: int| 0 <= j < i ==> self.bytes@[j] == o.bytes@[j],
            decreases 32 - i,
        {
            if self.bytes[i] != o.bytes[i] {
                return false;
            }
            i = i + 1;
        }
        proof {
            assert(self.bytes@ =~= o.bytes@);
            assert(self.bytes == o.bytes);
        }
        true
    }
}

impl vstd::std_specs::cmp::PartialEqSpecImpl for UserOperationHash {
    open spec fn obeys_eq_spec() -> bool {
        true
    }

    open spec fn eq_spec(&self, o: &UserOperationHash) -> bool {
        *self == *o
    }
}

/// The code hash of a contract touched while an operation was simulated.
#[derive(Clone, Copy, Debug, PartialEq, Eq)]
pub struct CodeHash {
    pub address: Address,
    pub hash: [u8; 32],
}

/// An ERC-4337 user operation.
#[derive(Clone, Debug, PartialEq, Eq)]
pub struct UserOperation {
    pub sender: Address,
    pub nonce: U256,
    pub init_code: Vec<u8>,
    pub call_data: Vec<u8>,
    pub call_gas_limit: U256,
    pub verification_gas_limit: U256,
    pub pre_verification_gas: U256,
    pub max_fee_per_gas: U256,
    pub max_priority_fee_per_gas: U256,
    pub paymaster_and_data: Vec<u8>,
    pub signature: Vec<u8>,
}

/// A user operation with its byte strings as sequences.
pub struct UserOperationView {
    pub sender: Address,
    pub nonce: U256,
    pub init_code: Seq<u8>,
    pub call_data: Seq<u8>,
    pub call_gas_limit: U256,
    pub verification_gas_limit: U256,
    pub pre_verification_gas: U256,
    pub max_fee_per_gas: U256,
    pub max_priority_fee_per_gas: U256,
    pub paymaster_and_data: Seq<u8>,
    pub signature: Seq<u8>,
}

impl View for UserOperation {
    type V = UserOperationView;

    open spec fn view(&self) -> UserOperationView {
        UserOperationView {
            sender: self.sender,
            nonce: self.nonce,
            init_code: self.init_code@,
            call_data: self.call_data@,
            call_gas_limit: self.call_gas_limit,
            verification_gas_limit: self.verification_gas_limit,
            pre_verification_gas: self.pre_verification_gas,
            max_fee_per_gas: self.max_fee_per_gas,
            max_priority_fee_per_gas: self.max_priority_fee_per_gas,
            paymaster_and_data: self.paymaster_and_data@,
            signature: self.signature@,
        }
    }
}

/// The address that a byte string names in its first 20 bytes, if it is that long.
pub open spec fn leading_address(b: Seq<u8>) -> Option<Seq<u8>> {
    if b.len() >= 20 {
        Some(b.subrange(0, 20))
    } else {
        None
    }
}

impl UserOperationView {
    /// The factory: the address that starts `init_code`.
    pub open spec fn factory(self) -> Option<Seq<u8>> {
        leading_address(self.init_code)
    }

    /// The paymaster: the address that starts `paymaster_and_data`.
    pub open spec fn paymaster(self) -> Option<Seq<u8>> {
        leading_address(self.paymaster_and_data)
    }

    /// The factory as an address.
    pub open spec fn factory_address(self) -> Option<Address> {
        leading_address_of(self.init_code)
    }

    /// The paymaster as an address.
    pub open spec fn paymaster_address(self) -> Option<Address> {
        leading_address_of(self.paymaster_and_data)
    }

    /// Whether `a` is the factory or the paymaster of this operation.
    pub open spec fn names_entity(self, a: Seq<u8>) -> bool {
        self.factory() == Some(a) || self.paymaster() == Some(a)
    }
}

/// The address whose bytes are `s`.
pub open spec fn addr_of(s: Seq<u8>) -> Address {
    choose|a: Address| a.bytes@ == s
}

/// The address that a byte string names in its first 20 bytes, if it is that long.
pub open spec fn leading_address_of(b: Seq<u8>) -> Option<Address> {
    match leading_address(b) {
        Some(s) => Some(addr_of(s)),
        None => None,
    }
}

/// Reads the address at the start of `b`, if `b` holds at least 20 bytes.
pub fn address_prefix(b: &Vec<u8>) -> (r: Option<Address>)
    ensures
        r.is_some() == leading_address(b@).is_some(),
        r matches Some(a) ==> leading_address(b@) == Some(a.bytes@),
        r == leading_address_of(b@),
{
    if b.len() >= 20 {
        let a = Address {
            bytes: [
                b[0], b[1], b[2], b[3], b[4], b[5], b[6], b[7], b[8], b[9],
                b[10], b[11], b[12], b[13], b[14], b[15], b[16], b[17], b[18], b[19],
            ],
        };
        assert(a.bytes@ =~= b@.subrange(0, 20));
        proof {
            let c = addr_of(a.bytes@);
            assert(c.bytes@ == a.bytes@);
            lemma_address_ext(c, a);
        }
        Some(a)
    } else {
        None
    }
}

impl UserOperation {
    /// A field-by-field copy.
    pub fn duplicate(&self) -> (r: UserOperation)
        ensures
            r@ == self@,
    {
        let r = UserOperation {
            sender: self.sender,
            nonce: self.nonce,
            init_code: self.init_code.clone(),
            call_data: self.call_data.clone(),
            call_gas_limit: self.call_gas_limit,
            verification_gas_limit: self.verification_gas_limit,
            pre_verification_gas: self.pre_verification_gas,
            max_fee_per_gas: self.max_fee_per_gas,
            max_priority_fee_per_gas: self.max_priority_fee_per_gas,
            paymaster_and_data: self.paymaster_and_data.clone(),
            signature: self.signature.clone(),
        };
        assert(r.init_code@ =~= self.init_code@);
        assert(r.call_data@ =~= self.call_data@);
        assert(r.paymaster_and_data@ =~= self.paymaster_and_data@);
        assert(r.signature@ =~= self.signature@);
        r
    }

    /// The sender, and the factory and paymaster where the operation names them.
    pub fn get_entities(&self) -> (r: (Address, Option<Address>, Option<Address>))
        ensures
            r.0 == self.sender,
            r.1.is_some() == self@.factory().is_some(),
            r.1 matches Some(f) ==> self@.factory() == Some(f.bytes@),
            r.2.is_some() == self@.paymaster().is_some(),
            r.2 matches Some(p) ==> self@.paymaster() == Some(p.bytes@),
            r.1 == self@.factory_address(),
            r.2 == self@.paymaster_address(),
    {
        (self.sender, address_prefix(&self.init_code), address_prefix(&self.paymaster_and_data))
    }
}

} // verus!
