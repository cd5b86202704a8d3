//! Gas-overhead accounting for bridge operations: the extra cost a
//! cross-space call or create incurs beyond the callee's own execution,
//! the forwarded/reserved split of the remaining gas, and the intrinsic
//! charge of a transaction.
use vstd::prelude::*;

verus! {

/// The per-operation cost table and limits of the virtual machine.
pub struct VmSpec {
    pub create_gas: u64,
    pub sha3_gas: u64,
    pub sha3_word_gas: u64,
    pub log_gas: u64,
    pub log_topic_gas: u64,
    pub log_data_gas: u64,
    pub call_gas: u64,
    pub call_new_account_gas: u64,
    pub evm_gas_ratio: u64,
    pub call_value_transfer_gas: u64,
    pub call_stipend: u64,
    pub memory_gas: u64,
    pub tx_gas: u64,
    pub tx_create_gas: u64,
    pub tx_data_zero_gas: u64,
    pub tx_data_non_zero_gas: u64,
    pub max_depth: u64,
    pub account_start_nonce: u128,
    pub cross_space_gas_ratio: u64,
}

impl VmSpec {
    /// Every cost entry is small enough that the overhead formulas cannot
    /// overflow a 128-bit accumulator, and the gas ratio divides.
    pub open spec fn wf(self) -> bool {
        &&& self.create_gas <= 0x1_0000_0000
        &&& self.sha3_gas <= 0x1_0000_0000
        &&& self.sha3_word_gas <= 0x1_0000_0000
        &&& self.log_gas <= 0x1_0000_0000
        &&& self.log_topic_gas <= 0x1_0000_0000
        &&& self.log_data_gas <= 0x1_0000_0000
        &&& self.call_gas <= 0x1_0000_0000
        &&& self.call_new_account_gas <= 0x1_0000_0000
        &&& self.evm_gas_ratio <= 0x100
        &&& self.call_value_transfer_gas <= 0x1_0000_0000
        &&& self.call_stipend <= 0x1_0000_0000
        &&& self.memory_gas <= 0x1_0000_0000
        &&& self.tx_gas <= 0x1_0000_0000
        &&& self.tx_create_gas <= 0x1_0000_0000
        &&& self.tx_data_zero_gas <= 0x1_0000_0000
        &&& self.tx_data_non_zero_gas <= 0x1_0000_0000
        &&& self.cross_space_gas_ratio >= 1
    }
}

/// Gas overhead of a bridged contract creation: the create base cost, the
/// keccak cost of hashing `hash_len` bytes of init code, the address-mapping
/// hashes, and the cost of the creation event whose payload carries the
/// init code behind four reserved 32-byte topic slots.
pub open spec fn spec_create_gas(s: VmSpec, code_len: nat, hash_len: nat) -> int {
    s.create_gas + s.sha3_gas + s.sha3_word_gas * ((hash_len + 31) / 32) + 3 * s.sha3_gas
        + s.log_gas + 3 * s.log_topic_gas + s.log_data_gas * (128 + code_len)
}

/// Gas forwarded to the sub-execution: a ratio share of the remaining gas,
/// plus the call stipend when value is attached.
pub open spec fn spec_forwarded(gas_left: u128, s: VmSpec, has_value: bool) -> int {
    gas_left as int / s.cross_space_gas_ratio as int
        + if has_value { s.call_stipend as int } else { 0 }
}

/// Gas reserved for the caller's own finalization.
pub open spec fn spec_reserved(gas_left: u128, s: VmSpec) -> int {
    gas_left - gas_left as int / s.cross_space_gas_ratio as int
}

/// Per-byte data charge of the intrinsic transaction cost.
pub open spec fn spec_data_gas(data: Seq<u8>, s: VmSpec) -> int
    decreases data.len(),
{
    if data.len() == 0 {
        0
    } else {
        spec_data_gas(data.drop_last(), s)
            + if data.last() == 0 {
                s.tx_data_zero_gas as int
            } else {
                s.tx_data_non_zero_gas as int
            }
    }
}

/// The fixed, execution-independent charge of a transaction: a base that
/// depends on whether it creates a contract, plus the per-byte data charge.
pub open spec fn spec_intrinsic_gas(is_create: bool, data: Seq<u8>, s: VmSpec) -> int {
    (if is_create { s.tx_create_gas as int } else { s.tx_gas as int }) + spec_data_gas(data, s)
}

pub proof fn lemma_data_gas_bound(data: Seq<u8>, s: VmSpec)
    requires
        s.wf(),
    ensures
        0 <= spec_data_gas(data, s) <= data.len() * 0x1_0000_0000,
    decreases data.len(),
{
    if data.len() > 0 {
        lemma_data_gas_bound(data.drop_last(), s);
        assert((data.len() - 1) * 0x1_0000_0000 + 0x1_0000_0000 == data.len() * 0x1_0000_0000)
            by (nonlinear_arith);
    }
}

/// Gas overhead of a bridged creation; exactly `spec_create_gas`.
pub fn create_gas(s: &VmSpec, code_length: usize, hash_length: usize) -> (r: u128)
    requires
        s.wf(),
    ensures
        r as int == spec_create_gas(*s, code_length as nat, hash_length as nat),
{
    let base_gas: u128 = s.create_gas as u128;
    let hash_words: u128 = (hash_length as u128 + 31) / 32;
    proof {
        assert(hash_words <= 0x1000_0000_0000_0000);
        assert(s.sha3_word_gas as u128 * hash_words <= 0x1_0000_0000u128 * 0x1000_0000_0000_0000)
            by (nonlinear_arith)
            requires
                s.sha3_word_gas <= 0x1_0000_0000,
                hash_words <= 0x1000_0000_0000_0000,
        ;
    }
    let keccak_code_gas: u128 = s.sha3_gas as u128 + s.sha3_word_gas as u128 * hash_words;
    let address_mapping_gas: u128 = s.sha3_gas as u128 * 3;
    let log_data_length: u128 = 128 + code_length as u128;
    proof {
        assert(s.log_data_gas as u128 * log_data_length
            <= 0x1_0000_0000u128 * 0x2_0000_0000_0000_0000)
            by (nonlinear_arith)
            requires
                s.log_data_gas <= 0x1_0000_0000,
                log_data_length <= 0x2_0000_0000_0000_0000,
        ;
    }
    let log_gas: u128 = s.log_gas as u128 + 3 * s.log_topic_gas as u128
        + s.log_data_gas as u128 * log_data_length;
    base_gas + keccak_code_gas + address_mapping_gas + log_gas
}

/// Splits the remaining gas into (forwarded, reserved); exactly
/// `spec_forwarded` and `spec_reserved`.
pub fn cross_space_split(gas_left: u128, s: &VmSpec, has_value: bool) -> (r: (u128, u128))
    requires
        s.wf(),
        gas_left + s.call_stipend <= u128::MAX,
    ensures
        r.0 as int == spec_forwarded(gas_left, *s, has_value),
        r.1 as int == spec_reserved(gas_left, *s),
{
    let ratio: u128 = s.cross_space_gas_ratio as u128;
    let share: u128 = gas_left / ratio;
    proof {
        assert(share <= gas_left) by (nonlinear_arith)
            requires
                ratio >= 1,
                share == gas_left / ratio,
        ;
    }
    let forwarded: u128 = if has_value {
        share + s.call_stipend as u128
    } else {
        share
    };
    (forwarded, gas_left - share)
}

/// Intrinsic transaction charge; exactly `spec_intrinsic_gas`.
pub fn gas_required_for(is_create: bool, data: &Vec<u8>, s: &VmSpec) -> (r: u128)
    requires
        s.wf(),
    ensures
        r as int == spec_intrinsic_gas(is_create, data@, *s),
{
    let base: u128 = if is_create {
        s.tx_create_gas as u128
    } else {
        s.tx_gas as u128
    };
    let mut acc: u128 = 0;
    let mut i: usize = 0;
    proof {
        lemma_data_gas_bound(data@, *s);
    }
    while i < data.len()
        invariant
            s.wf(),
            i <= data.len(),
            acc as int == spec_data_gas(data@.take(i as int), *s),
            acc <= i * 0x1_0000_0000,
        decreases data.len() - i,
    {
        let charge: u128 = if data[i] == 0 {
            s.tx_data_zero_gas as u128
        } else {
            s.tx_data_non_zero_gas as u128
        };
        proof {
            assert(data@.take(i + 1).drop_last() =~= data@.take(i as int));
            assert(data@.take(i + 1).last() == data@[i as int]);
            assert(i * 0x1_0000_0000 + 0x1_0000_0000 == (i + 1) * 0x1_0000_0000)
                by (nonlinear_arith);
            assert((i + 1) * 0x1_0000_0000 <= 0x1_0000_0000_0000_0000_0000_0000u128) by (nonlinear_arith)
                requires
                    i + 1 <= usize::MAX,
            ;
        }
        acc = acc + charge;
        i = i + 1;
    }
    proof {
        assert(data@.take(data@.len() as int) =~= data@);
        lemma_data_gas_bound(data@, *s);
        assert(data@.len() * 0x1_0000_0000 <= 0x1_0000_0000_0000_0000_0000_0000u128)
            by (nonlinear_arith)
            requires
                data@.len() <= usize::MAX,
        ;
    }
    base + acc
}

/// The forwarded and reserved portions partition the remaining gas: their
/// sum is the gas left plus the stipend exactly when value is attached.
pub proof fn lemma_split_conservation(gas_left: u128, s: VmSpec, has_value: bool)
    requires
        s.wf(),
    ensures
        spec_forwarded(gas_left, s, has_value) + spec_reserved(gas_left, s)
            == gas_left + if has_value { s.call_stipend as int } else { 0 },
{
}

/// The creation overhead never decreases when the init code or the hashed
/// input grows, and zero-length inputs give the fixed base cost.
pub proof fn lemma_create_gas_monotonic(s: VmSpec, c1: nat, h1: nat, c2: nat, h2: nat)
    requires
        s.wf(),
        c1 <= c2,
        h1 <= h2,
    ensures
        spec_create_gas(s, c1, h1) <= spec_create_gas(s, c2, h2),
        spec_create_gas(s, 0, 0) == s.create_gas + 4 * s.sha3_gas + s.log_gas
            + 3 * s.log_topic_gas + 128 * s.log_data_gas,
{
    assert((h1 + 31) / 32 <= (h2 + 31) / 32) by (nonlinear_arith)
        requires
            h1 <= h2,
    ;
    assert(s.sha3_word_gas * ((h1 + 31) / 32) <= s.sha3_word_gas * ((h2 + 31) / 32))
        by (nonlinear_arith)
        requires
            (h1 + 31) / 32 <= (h2 + 31) / 32,
    ;
    assert(s.log_data_gas * (128 + c1) <= s.log_data_gas * (128 + c2)) by (nonlinear_arith)
        requires
            c1 <= c2,
    ;
    assert((0 + 31) as nat / 32 == 0);
    assert(s.sha3_word_gas * ((0 + 31) as nat / 32) == 0);
    assert(s.log_data_gas * (128 + 0) == 128 * s.log_data_gas) by (nonlinear_arith);
}

/// A longer data payload never lowers the intrinsic charge, and empty data
/// gives the fixed base alone.
pub proof fn lemma_intrinsic_gas_monotonic(is_create: bool, d1: Seq<u8>, d2: Seq<u8>, s: VmSpec)
    requires
        s.wf(),
        d1 == d2.take(d1.len() as int),
        d1.len() <= d2.len(),
    ensures
        spec_intrinsic_gas(is_create, d1, s) <= spec_intrinsic_gas(is_create, d2, s),
        spec_intrinsic_gas(is_create, Seq::<u8>::empty(), s)
            == if is_create { s.tx_create_gas as int } else { s.tx_gas as int },
    decreases d2.len(),
{
    if d1.len() < d2.len() {
        lemma_data_gas_bound(d2, s);
        assert(d1 == d2.drop_last().take(d1.len() as int));
        lemma_intrinsic_gas_monotonic(is_create, d1, d2.drop_last(), s);
    } else {
        assert(d1 =~= d2);
    }
}

} // verus!

