//! Deterministic address virtualization: the keccak digest of a native
//! address, reinterpreted as an account of the other space, and the
//! hash-based derivation of created contract addresses.
use vstd::prelude::*;

use crate::abi::be_word;
use crate::bytes::{append_bytes, copy_range};
use crate::types::{AddressWithSpace, Space};

verus! {

/// The Keccak-256 digest of a byte string; a function of the input alone.
pub uninterp spec fn keccak_of(b: Seq<u8>) -> Seq<u8>;

/// Relies on keccak_hash::keccak: the 32-byte Keccak-256 digest of the
/// input, which depends on the input bytes alone.
#[verifier::external_body]
pub fn keccak_bytes(b: &Vec<u8>) -> (r: Vec<u8>)
    ensures
        r@ == keccak_of(b@),
        r@.len() == 32,
{
    keccak_hash::keccak(b.as_slice()).0.to_vec()
}

/// The other-space counterpart of an address: the low 20 bytes of its
/// keccak digest. One-way by design; it has no defined inverse.
pub open spec fn evm_map_spec(address: Seq<u8>) -> Seq<u8> {
    keccak_of(address).subrange(12, 32)
}

/// Maps a native address to its EVM-space pseudo-account.
pub fn evm_map(address: &Vec<u8>) -> (r: AddressWithSpace)
    ensures
        r.address@ == evm_map_spec(address@),
        r.address@.len() == 20,
        r.space == Space::Ethereum,
{
    let digest = keccak_bytes(address);
    let mapped = copy_range(&digest, 12, 32);
    AddressWithSpace { address: mapped, space: Space::Ethereum }
}

/// Address of a contract created without a salt: derived from the sender
/// and its nonce.
pub open spec fn create_address_spec(sender: Seq<u8>, nonce: u128) -> Seq<u8> {
    keccak_of(sender + be_word(nonce)).subrange(12, 32)
}

/// Address of a contract created with a salt: derived from the sender, the
/// salt and the hash of the init code.
pub open spec fn create2_address_spec(sender: Seq<u8>, salt: Seq<u8>, init: Seq<u8>) -> Seq<u8> {
    keccak_of(seq![0xffu8] + sender + salt + keccak_of(init)).subrange(12, 32)
}

pub fn create_address(sender: &Vec<u8>, nonce: u128) -> (r: Vec<u8>)
    ensures
        r@ == create_address_spec(sender@, nonce),
        r@.len() == 20,
{
    let mut buf = crate::bytes::copy_bytes(sender);
    crate::abi::append_word(&mut buf, nonce);
    let digest = keccak_bytes(&buf);
    copy_range(&digest, 12, 32)
}

pub fn create2_address(sender: &Vec<u8>, salt: &Vec<u8>, init: &Vec<u8>) -> (r: Vec<u8>)
    ensures
        r@ == create2_address_spec(sender@, salt@, init@),
        r@.len() == 20,
{
    let mut buf: Vec<u8> = Vec::new();
    buf.push(0xff);
    append_bytes(&mut buf, sender);
    append_bytes(&mut buf, salt);
    let init_hash = keccak_bytes(init);
    append_bytes(&mut buf, &init_hash);
    proof {
        assert(buf@ =~= seq![0xffu8] + sender@ + salt@ + keccak_of(init@));
    }
    let digest = keccak_bytes(&buf);
    copy_range(&digest, 12, 32)
}

/// The mapping is a pure function: equal inputs give equal outputs, on
/// every call and in every run.
pub proof fn lemma_evm_map_deterministic(a: Seq<u8>, b: Seq<u8>)
    requires
        a == b,
    ensures
        evm_map_spec(a) == evm_map_spec(b),
{
}

} // verus!
