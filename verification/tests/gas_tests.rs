use cross_space::bridge::call_gas;
use cross_space::gas::{create_gas, cross_space_split, gas_required_for, VmSpec};
use cross_space::ledger::Ledger;
use cross_space::types::{ActionParams, CallKind, ParamsKind, Space};

fn spec_table() -> VmSpec {
    VmSpec {
        create_gas: 32000,
        sha3_gas: 30,
        sha3_word_gas: 6,
        log_gas: 375,
        log_topic_gas: 375,
        log_data_gas: 8,
        call_gas: 700,
        call_new_account_gas: 25000,
        evm_gas_ratio: 2,
        call_value_transfer_gas: 9000,
        call_stipend: 2300,
        memory_gas: 3,
        tx_gas: 21000,
        tx_create_gas: 53000,
        tx_data_zero_gas: 4,
        tx_data_non_zero_gas: 68,
        max_depth: 512,
        account_start_nonce: 0,
        cross_space_gas_ratio: 10,
    }
}

fn addr(b: u8) -> Vec<u8> {
    vec![b; 20]
}

fn params_with_value(value: u128) -> ActionParams {
    ActionParams {
        space: Space::Native,
        sender: addr(0x11),
        address: addr(0x20),
        code_address: addr(0x20),
        original_sender: addr(0x11),
        storage_owner: addr(0x20),
        value,
        gas: 0,
        gas_price: 1,
        code: None,
        code_hash: None,
        data: None,
        call_kind: Some(CallKind::Call),
        create_kind: None,
        params_kind: ParamsKind::Separate,
    }
}

#[test]
fn split_conserves_gas_with_value() {
    let s = spec_table();
    for gas_left in [0u128, 1, 7, 99, 100, 12345, 1_000_000] {
        let (forwarded, reserved) = cross_space_split(gas_left, &s, true);
        assert_eq!(forwarded + reserved, gas_left + 2300);
    }
}

#[test]
fn split_conserves_gas_without_value() {
    let s = spec_table();
    for gas_left in [0u128, 1, 7, 99, 100, 12345, 1_000_000] {
        let (forwarded, reserved) = cross_space_split(gas_left, &s, false);
        assert_eq!(forwarded + reserved, gas_left);
    }
}

#[test]
fn split_exact_division() {
    let s = spec_table();
    let (forwarded, reserved) = cross_space_split(1000, &s, false);
    assert_eq!(forwarded, 100);
    assert_eq!(reserved, 900);
    let (forwarded, reserved) = cross_space_split(1009, &s, true);
    assert_eq!(forwarded, 100 + 2300);
    assert_eq!(reserved, 909);
}

#[test]
fn create_gas_zero_lengths_is_base() {
    let s = spec_table();
    // create base + keccak base + 3 mapping hashes + log base, 3 topics,
    // and the 128 reserved payload bytes.
    let expected = 32000 + 30 + 3 * 30 + 375 + 3 * 375 + 8 * 128;
    assert_eq!(create_gas(&s, 0, 0), expected);
}

#[test]
fn create_gas_exact_formula() {
    let s = spec_table();
    // 33 hash bytes round up to 2 words; 10 code bytes extend the payload.
    let expected = 32000 + (30 + 6 * 2) + 3 * 30 + (375 + 3 * 375 + 8 * (128 + 10));
    assert_eq!(create_gas(&s, 10, 33), expected);
}

#[test]
fn create_gas_monotonic_samples() {
    let s = spec_table();
    let mut last = create_gas(&s, 0, 0);
    for len in [1usize, 31, 32, 33, 64, 1000] {
        let g = create_gas(&s, len, len);
        assert!(g >= last);
        last = g;
    }
}

#[test]
fn call_gas_new_account_and_transfer() {
    let s = spec_table();
    let l = Ledger::new(0);
    let receiver = addr(0x22);
    let p = params_with_value(5);
    // Inactive receiver, value attached, not static: every part applies.
    let g = call_gas(&receiver, &p, &l, &s, 4, false);
    let expected = 700 + 25000 * 2 + 9000 + 4 * 30 + (375 + 3 * 375 + 8 * (128 + 4));
    assert_eq!(g, expected);
}

#[test]
fn call_gas_active_receiver_skips_new_account() {
    let s = spec_table();
    let mut l = Ledger::new(0);
    let receiver = addr(0x22);
    l.set_account(Space::Ethereum, &receiver, 1, 0, None);
    let p = params_with_value(0);
    let g = call_gas(&receiver, &p, &l, &s, 0, false);
    let expected = 700 + 4 * 30 + (375 + 3 * 375 + 8 * 128);
    assert_eq!(g, expected);
}

#[test]
fn call_gas_static_skips_log_and_new_account() {
    let s = spec_table();
    let l = Ledger::new(0);
    let receiver = addr(0x22);
    let p = params_with_value(0);
    let g = call_gas(&receiver, &p, &l, &s, 100, true);
    assert_eq!(g, 700 + 4 * 30);
}

#[test]
fn call_gas_monotonic_in_data_length() {
    let s = spec_table();
    let l = Ledger::new(0);
    let receiver = addr(0x22);
    let p = params_with_value(0);
    let mut last = call_gas(&receiver, &p, &l, &s, 0, false);
    for len in [1usize, 32, 100, 4096] {
        let g = call_gas(&receiver, &p, &l, &s, len, false);
        assert!(g >= last);
        last = g;
    }
}

#[test]
fn intrinsic_gas_base_costs() {
    let s = spec_table();
    assert_eq!(gas_required_for(false, &vec![], &s), 21000);
    assert_eq!(gas_required_for(true, &vec![], &s), 53000);
}

#[test]
fn intrinsic_gas_counts_zero_and_nonzero_bytes() {
    let s = spec_table();
    assert_eq!(gas_required_for(false, &vec![0, 1, 0, 2], &s), 21000 + 2 * 4 + 2 * 68);
}
