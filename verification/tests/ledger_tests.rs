use cross_space::hashing::{evm_map, keccak_bytes};
use cross_space::ledger::Ledger;
use cross_space::registry::{reserved_address, ReservedSlot};
use cross_space::types::Space;

fn addr(b: u8) -> Vec<u8> {
    vec![b; 20]
}

#[test]
fn fresh_ledger_reads_defaults() {
    let l = Ledger::new(5);
    let a = addr(1);
    assert_eq!(l.balance(Space::Native, &a), 0);
    assert_eq!(l.nonce(Space::Native, &a), 5);
    assert!(l.code(Space::Native, &a).is_none());
    assert!(l.code_hash(Space::Native, &a).is_none());
    assert!(!l.exists_and_not_null(Space::Native, &a));
}

#[test]
fn set_account_and_read_back() {
    let mut l = Ledger::new(0);
    let a = addr(1);
    l.set_account(Space::Ethereum, &a, 42, 7, Some(vec![1, 2, 3]));
    assert_eq!(l.balance(Space::Ethereum, &a), 42);
    assert_eq!(l.nonce(Space::Ethereum, &a), 7);
    assert_eq!(l.code(Space::Ethereum, &a), Some(vec![1, 2, 3]));
    assert_eq!(l.code_hash(Space::Ethereum, &a), Some(keccak_bytes(&vec![1, 2, 3])));
    // The same address in the other space is a different account.
    assert_eq!(l.balance(Space::Native, &a), 0);
}

#[test]
fn transfer_moves_balance_only() {
    let mut l = Ledger::new(0);
    let a = addr(1);
    let b = addr(2);
    l.set_account(Space::Native, &a, 100, 3, None);
    l.transfer_balance(Space::Native, &a, Space::Ethereum, &b, 60);
    assert_eq!(l.balance(Space::Native, &a), 40);
    assert_eq!(l.balance(Space::Ethereum, &b), 60);
    assert_eq!(l.nonce(Space::Native, &a), 3);
    assert_eq!(l.nonce(Space::Ethereum, &b), 0);
}

#[test]
fn inc_nonce_creates_at_start_nonce() {
    let mut l = Ledger::new(9);
    let a = addr(1);
    l.inc_nonce(Space::Ethereum, &a);
    assert_eq!(l.nonce(Space::Ethereum, &a), 10);
    assert_eq!(l.balance(Space::Ethereum, &a), 0);
    l.inc_nonce(Space::Ethereum, &a);
    assert_eq!(l.nonce(Space::Ethereum, &a), 11);
}

#[test]
fn exists_and_not_null_cases() {
    let mut l = Ledger::new(0);
    let a = addr(1);
    l.set_account(Space::Native, &a, 0, 0, None);
    assert!(!l.exists_and_not_null(Space::Native, &a));
    l.set_account(Space::Native, &a, 1, 0, None);
    assert!(l.exists_and_not_null(Space::Native, &a));
    l.set_account(Space::Native, &a, 0, 1, None);
    assert!(l.exists_and_not_null(Space::Native, &a));
    l.set_account(Space::Native, &a, 0, 0, Some(vec![0x60]));
    assert!(l.exists_and_not_null(Space::Native, &a));
}

#[test]
fn evm_map_is_deterministic_and_one_way() {
    let a = addr(0x11);
    let m1 = evm_map(&a);
    let m2 = evm_map(&a);
    assert_eq!(m1.address, m2.address);
    assert_eq!(m1.space, Space::Ethereum);
    assert_eq!(m1.address.len(), 20);
    // The mapped form is a digest, not the input carried through.
    assert_ne!(m1.address, a);
}

#[test]
fn evm_map_distinct_inputs_distinct_outputs() {
    let mut seen: Vec<Vec<u8>> = Vec::new();
    for b in 0..32u8 {
        let m = evm_map(&addr(b));
        assert!(!seen.contains(&m.address));
        seen.push(m.address);
    }
}

#[test]
fn reserved_addresses_are_distinct() {
    let slots = [
        ReservedSlot::AntiReentrancyConfig,
        ReservedSlot::Reserved8,
        ReservedSlot::Reserved9,
        ReservedSlot::Reserved10,
        ReservedSlot::Reserved11,
    ];
    let mut seen: Vec<Vec<u8>> = Vec::new();
    for slot in slots {
        let a = reserved_address(slot);
        assert_eq!(a.len(), 20);
        assert_eq!(a[0], 0x08);
        assert_eq!(a[1], 0x88);
        assert!(!seen.contains(&a));
        seen.push(a);
    }
}
