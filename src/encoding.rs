//! Byte encodings of user operations: the packing behind the operation
//! hash, and the full ABI encoding whose size prices pre-verification gas.

use vstd::prelude::*;

use crate::primitives::{Address, UserOperation, UserOperationHash, UserOperationView};
use crate::uint::U256;
use ethers::abi::Token;
use ethers::types::{H160, U256 as EthWord};

verus! {

/// The Keccak-256 digest of a byte string.
pub uninterp spec fn keccak_of(data: Seq<u8>) -> Seq<u8>;

/// Relies on `ethers::utils::keccak256`: the Keccak-256 digest of the bytes,
/// which depends on the bytes alone.
#[verifier::external_body]
fn keccak256(data: &[u8]) -> (r: [u8; 32])
    ensures
        r@ == keccak_of(data@),
{
    ethers::utils::keccak256(data)
}

/// Big-endian bytes of a 64-bit limb.
pub open spec fn be8(x: u64) -> Seq<u8> {
    seq![
        (x >> 56u64) as u8,
        (x >> 48u64) as u8,
        (x >> 40u64) as u8,
        (x >> 32u64) as u8,
        (x >> 24u64) as u8,
        (x >> 16u64) as u8,
        (x >> 8u64) as u8,
        x as u8,
    ]
}

/// A 256-bit integer as one big-endian 32-byte word.
pub open spec fn word_u256(u: U256) -> Seq<u8> {
    be8(u.l3) + be8(u.l2) + be8(u.l1) + be8(u.l0)
}

/// An address as a 32-byte word: twelve zero bytes, then the address.
pub open spec fn word_address(a: Address) -> Seq<u8> {
    Seq::new(12, |i: int| 0u8) + a.bytes@
}

/// Packing of an operation without its signature, byte strings replaced by
/// their digests: the preimage of the operation's own digest.
pub open spec fn packed_for_hash(uo: UserOperationView) -> Seq<u8> {
    word_address(uo.sender) + word_u256(uo.nonce) + keccak_of(uo.init_code) + keccak_of(
        uo.call_data,
    ) + word_u256(uo.call_gas_limit) + word_u256(uo.verification_gas_limit) + word_u256(
        uo.pre_verification_gas,
    ) + word_u256(uo.max_fee_per_gas) + word_u256(uo.max_priority_fee_per_gas) + keccak_of(
        uo.paymaster_and_data,
    )
}

/// The hash of an operation for one entry point on one chain.
pub open spec fn user_operation_hash(uo: UserOperationView, ep: Address, chain_id: U256) -> Seq<
    u8,
> {
    keccak_of(keccak_of(packed_for_hash(uo)) + word_address(ep) + word_u256(chain_id))
}

/// The ABI encoding of an operation as one dynamic tuple, fields in the
/// ERC-4337 order.
pub uninterp spec fn abi_encoding(uo: UserOperationView) -> Seq<u8>;

/// Relies on `ethers::abi::encode` of the operation as a one-element list
/// holding its tuple of fields; the bytes depend on the fields alone.
#[verifier::external_body]
fn abi_encode(uo: &UserOperation) -> (r: Vec<u8>)
    ensures
        r@ == abi_encoding(uo@),
{
    let w = |v: &U256| Token::Uint(EthWord([v.l0, v.l1, v.l2, v.l3]));
    let b = |v: &Vec<u8>| Token::Bytes(v.clone());
    ethers::abi::encode(&[Token::Tuple(vec![
        Token::Address(H160(uo.sender.bytes)), w(&uo.nonce),
        b(&uo.init_code), b(&uo.call_data), w(&uo.call_gas_limit),
        w(&uo.verification_gas_limit), w(&uo.pre_verification_gas), w(&uo.max_fee_per_gas),
        w(&uo.max_priority_fee_per_gas), b(&uo.paymaster_and_data), b(&uo.signature),
    ])])
}

fn push_be8(out: &mut Vec<u8>, x: u64)
    ensures
        final(out)@ == old(out)@ + be8(x),
{
    out.push((x >> 56u64) as u8);
    out.push((x >> 48u64) as u8);
    out.push((x >> 40u64) as u8);
    out.push((x >> 32u64) as u8);
    out.push((x >> 24u64) as u8);
    out.push((x >> 16u64) as u8);
    out.push((x >> 8u64) as u8);
    out.push(x as u8);
    assert(out@ =~= old(out)@ + be8(x));
}

fn push_word_u256(out: &mut Vec<u8>, u: &U256)
    ensures
        final(out)@ == old(out)@ + word_u256(*u),
{
    push_be8(out, u.l3);
    push_be8(out, u.l2);
    push_be8(out, u.l1);
    push_be8(out, u.l0);
    assert(out@ =~= old(out)@ + word_u256(*u));
}

fn push_word_address(out: &mut Vec<u8>, a: &Address)
    ensures
        final(out)@ == old(out)@ + word_address(*a),
{
    let mut i: usize = 0;
    while i < 12
        invariant
            i <= 12,
            out@ == old(out)@ + Seq::new(i as nat, |j: int| 0u8),
        decreases 12 - i,
    {
        out.push(0u8);
        i = i + 1;
        assert(out@ =~= old(out)@ + Seq::new(i as nat, |j: int| 0u8));
    }
    push_bytes(out, a.bytes.as_slice());
    assert(out@ =~= old(out)@ + word_address(*a));
}

fn push_bytes(out: &mut Vec<u8>, b: &[u8])
    ensures
        final(out)@ == old(out)@ + b@,
{
    let mut i: usize = 0;
    while i < b.len()
        invariant
            i <= b@.len(),
            out@ == old(out)@ + b@.subrange(0, i as int),
        decreases b@.len() - i,
    {
        out.push(b[i]);
        i = i + 1;
        assert(out@ =~= old(out)@ + b@.subrange(0, i as int));
    }
    assert(b@.subrange(0, b@.len() as int) =~= b@);
}

impl UserOperation {
    /// The packing of this operation without its signature.
    pub fn pack_without_signature(&self) -> (r: Vec<u8>)
        ensures
            r@ == packed_for_hash(self@),
    {
        let mut out: Vec<u8> = Vec::new();
        push_word_address(&mut out, &self.sender);
        push_word_u256(&mut out, &self.nonce);
        let h = keccak256(self.init_code.as_slice());
        push_bytes(&mut out, h.as_slice());
        let h = keccak256(self.call_data.as_slice());
        push_bytes(&mut out, h.as_slice());
        push_word_u256(&mut out, &self.call_gas_limit);
        push_word_u256(&mut out, &self.verification_gas_limit);
        push_word_u256(&mut out, &self.pre_verification_gas);
        push_word_u256(&mut out, &self.max_fee_per_gas);
        push_word_u256(&mut out, &self.max_priority_fee_per_gas);
        let h = keccak256(self.paymaster_and_data.as_slice());
        push_bytes(&mut out, h.as_slice());
        assert(out@ =~= packed_for_hash(self@));
        out
    }

    /// The ABI encoding of this operation as a dynamic tuple.
    pub fn pack(&self) -> (r: Vec<u8>)
        ensures
            r@ == abi_encoding(self@),
    {
        abi_encode(self)
    }

    /// The hash that identifies this operation for entry point `ep` on chain `chain_id`.
    pub fn hash(&self, ep: &Address, chain_id: &U256) -> (r: UserOperationHash)
        ensures
            r.bytes@ == user_operation_hash(self@, *ep, *chain_id),
    {
        let packed = self.pack_without_signature();
        let inner = keccak256(packed.as_slice());
        let mut buf: Vec<u8> = Vec::new();
        push_bytes(&mut buf, inner.as_slice());
        push_word_address(&mut buf, ep);
        push_word_u256(&mut buf, chain_id);
        assert(buf@ =~= keccak_of(packed_for_hash(self@)) + word_address(*ep) + word_u256(
            *chain_id,
        ));
        UserOperationHash { bytes: keccak256(buf.as_slice()) }
    }
}

/// Hashing depends on the operation, the entry point and the chain alone:
/// equal inputs give the same 32 bytes.
pub proof fn lemma_hash_determinism(
    a: UserOperation,
    b: UserOperation,
    ep: Address,
    chain_id: U256,
)
    requires
        a@ == b@,
    ensures
        user_operation_hash(a@, ep, chain_id) == user_operation_hash(b@, ep, chain_id),
{
}

} // verus!
