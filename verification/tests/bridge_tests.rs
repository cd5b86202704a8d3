use cross_space::abi::decode_return_payload;
use cross_space::bridge::{
    call_to_evmcore, create_to_evmcore, mapped_balance, mapped_nonce, process_trap,
    withdraw_from_evmcore, ContractCreateResult, ExecTrap, GasLeft, MessageCallResult, Resume,
    TrapResult,
};
use cross_space::events::LogEntry;
use cross_space::gas::VmSpec;
use cross_space::hashing::{create2_address, create_address, evm_map, keccak_bytes};
use cross_space::ledger::Ledger;
use cross_space::types::{ActionParams, BridgeError, CallKind, CreateKind, ParamsKind, Space};

fn spec_table() -> VmSpec {
    VmSpec {
        create_gas: 32000,
        sha3_gas: 30,
        sha3_word_gas: 6,
        log_gas: 375,
        log_topic_gas: 375,
        log_data_gas: 8,
        call_gas: 700,
        call_new_account_gas: 25000,
        evm_gas_ratio: 2,
        call_value_transfer_gas: 9000,
        call_stipend: 2300,
        memory_gas: 3,
        tx_gas: 21000,
        tx_create_gas: 53000,
        tx_data_zero_gas: 4,
        tx_data_non_zero_gas: 68,
        max_depth: 512,
        account_start_nonce: 0,
        cross_space_gas_ratio: 10,
    }
}

fn addr(b: u8) -> Vec<u8> {
    vec![b; 20]
}

fn bridge_params(value: u128) -> ActionParams {
    ActionParams {
        space: Space::Native,
        sender: addr(0x11),
        address: addr(0x20),
        code_address: addr(0x20),
        original_sender: addr(0x11),
        storage_owner: addr(0x20),
        value,
        gas: 100000,
        gas_price: 2,
        code: None,
        code_hash: None,
        data: None,
        call_kind: Some(CallKind::Call),
        create_kind: None,
        params_kind: ParamsKind::Separate,
    }
}

#[test]
fn call_depth_exceeded_mutates_nothing() {
    let s = spec_table();
    let mut l = Ledger::new(0);
    let mut logs: Vec<LogEntry> = Vec::new();
    let p = bridge_params(0);
    let r = call_to_evmcore(&addr(0x22), vec![], CallKind::Call, &p, 1000, 512, &s, &mut l, &mut logs);
    assert!(matches!(r, Err(BridgeError::DepthExceeded)));
    assert_eq!(logs.len(), 0);
    assert_eq!(mapped_nonce(&p.sender, &l), 0);
}

#[test]
fn call_builds_frame_and_moves_value() {
    let s = spec_table();
    let mut l = Ledger::new(0);
    let mut logs: Vec<LogEntry> = Vec::new();
    let p = bridge_params(100);
    l.set_account(Space::Native, &p.address, 1000, 0, None);
    let receiver = addr(0x22);
    l.set_account(Space::Ethereum, &receiver, 0, 0, Some(vec![0x60, 0x00]));
    let r = call_to_evmcore(&receiver, vec![1, 2], CallKind::Call, &p, 1000, 0, &s, &mut l, &mut logs)
        .unwrap();
    match r {
        ExecTrap::Call(np, resume) => {
            let mapped = evm_map(&p.sender);
            assert_eq!(np.space, Space::Ethereum);
            assert_eq!(np.sender, mapped.address);
            assert_eq!(np.address, receiver);
            assert_eq!(np.code_address, receiver);
            assert_eq!(np.storage_owner, mapped.address);
            assert_eq!(np.original_sender, evm_map(&p.original_sender).address);
            assert_eq!(np.value, 100);
            // 1000 / 10 plus the stipend, value being attached.
            assert_eq!(np.gas, 100 + 2300);
            assert_eq!(np.gas_price, 2);
            assert_eq!(np.code, Some(vec![0x60, 0x00]));
            assert_eq!(np.code_hash, Some(keccak_bytes(&vec![0x60, 0x00])));
            assert_eq!(np.data, Some(vec![1, 2]));
            assert_eq!(np.call_kind, Some(CallKind::Call));
            assert_eq!(np.create_kind, None);
            assert_eq!(np.params_kind, ParamsKind::Separate);
            assert_eq!(resume.gas_retained, 900);
            assert_eq!(resume.params.sender, p.sender);
        },
        ExecTrap::Create(_, _) => panic!("a call must suspend as a call"),
    }
    assert_eq!(logs.len(), 1);
    assert_eq!(l.balance(Space::Native, &p.address), 900);
    assert_eq!(mapped_balance(&p.sender, &l), 100);
    assert_eq!(mapped_nonce(&p.sender, &l), 1);
}

#[test]
fn static_call_emits_no_event() {
    let s = spec_table();
    let mut l = Ledger::new(0);
    let mut logs: Vec<LogEntry> = Vec::new();
    let p = bridge_params(0);
    let r = call_to_evmcore(&addr(0x22), vec![], CallKind::StaticCall, &p, 1000, 0, &s, &mut l, &mut logs);
    assert!(r.is_ok());
    assert_eq!(logs.len(), 0);
    assert_eq!(mapped_nonce(&p.sender, &l), 1);
}

#[test]
fn create_derives_address_from_sender_and_nonce() {
    let s = spec_table();
    let mut l = Ledger::new(0);
    let mut logs: Vec<LogEntry> = Vec::new();
    let p = bridge_params(0);
    let init = vec![0x60, 0x80];
    let r = create_to_evmcore(init.clone(), None, &p, 1000, 0, &s, &mut l, &mut logs).unwrap();
    match r {
        ExecTrap::Create(np, resume) => {
            let mapped = evm_map(&p.sender);
            let derived = create_address(&mapped.address, 0);
            assert_eq!(np.address, derived);
            assert_eq!(np.code_address, derived);
            assert_eq!(np.create_kind, Some(CreateKind::Create));
            assert_eq!(np.call_kind, None);
            assert_eq!(np.params_kind, ParamsKind::Embedded);
            assert_eq!(np.storage_owner, vec![0u8; 20]);
            assert_eq!(np.code, Some(init.clone()));
            assert_eq!(np.code_hash, Some(keccak_bytes(&init)));
            assert_eq!(np.data, None);
            assert_eq!(resume.gas_retained, 900);
        },
        ExecTrap::Call(_, _) => panic!("a create must suspend as a create"),
    }
    // Create events are unconditional.
    assert_eq!(logs.len(), 1);
}

#[test]
fn create2_derives_address_from_salt_and_code_hash() {
    let s = spec_table();
    let mut l = Ledger::new(0);
    let mut logs: Vec<LogEntry> = Vec::new();
    let p = bridge_params(0);
    let init = vec![0x60, 0x80];
    let salt = vec![0x5Au8; 32];
    let r = create_to_evmcore(init.clone(), Some(salt.clone()), &p, 1000, 0, &s, &mut l, &mut logs)
        .unwrap();
    match r {
        ExecTrap::Create(np, _) => {
            let mapped = evm_map(&p.sender);
            assert_eq!(np.address, create2_address(&mapped.address, &salt, &init));
            assert_eq!(np.create_kind, Some(CreateKind::Create2));
        },
        ExecTrap::Call(_, _) => panic!("a create must suspend as a create"),
    }
}

#[test]
fn withdraw_insufficient_balance_fails_fast() {
    let s = spec_table();
    let mut l = Ledger::new(s.account_start_nonce);
    let mut logs: Vec<LogEntry> = Vec::new();
    let sender = addr(0x11);
    let p = bridge_params(0);
    let r = withdraw_from_evmcore(&sender, 1, &p, &mut l, &mut logs);
    assert!(matches!(r, Err(BridgeError::InsufficientBalance)));
    assert_eq!(logs.len(), 0);
    assert_eq!(l.balance(Space::Native, &sender), 0);
}

#[test]
fn withdraw_moves_value_back_and_bumps_nonce() {
    let s = spec_table();
    let mut l = Ledger::new(s.account_start_nonce);
    let mut logs: Vec<LogEntry> = Vec::new();
    let sender = addr(0x11);
    let mapped = evm_map(&sender);
    l.set_account(Space::Ethereum, &mapped.address, 100, 4, None);
    let p = bridge_params(0);
    let r = withdraw_from_evmcore(&sender, 60, &p, &mut l, &mut logs);
    assert!(r.is_ok());
    assert_eq!(mapped_balance(&sender, &l), 40);
    assert_eq!(l.balance(Space::Native, &sender), 60);
    assert_eq!(mapped_nonce(&sender, &l), 5);
    assert_eq!(logs.len(), 1);
}

#[test]
fn process_trap_routes_both_ways() {
    let p = bridge_params(0);
    let trap = ExecTrap::Call(bridge_params(0), Resume { params: p, gas_retained: 9 });
    match process_trap::<GasLeft>(Ok(trap)) {
        TrapResult::SubCallCreate(ExecTrap::Call(_, resume)) => assert_eq!(resume.gas_retained, 9),
        _ => panic!("a built frame must suspend"),
    }
    match process_trap::<GasLeft>(Err(BridgeError::DepthExceeded)) {
        TrapResult::Return(Err(BridgeError::DepthExceeded)) => {},
        _ => panic!("an initiation error must return"),
    }
}

#[test]
fn resume_call_success_encodes_output() {
    let p = bridge_params(0);
    let resume = Resume { params: p, gas_retained: 90 };
    let pr = resume.resume_call(MessageCallResult::Success(10, vec![7; 5]));
    assert_eq!(pr.gas_left, 10);
    assert!(pr.apply_state);
    let encoded = pr.return_data.as_ref().unwrap();
    assert_eq!(encoded.len(), 96);
    assert_eq!(encoded[31], 32);
    assert_eq!(encoded[63], 5);
    assert_eq!(&encoded[64..69], &[7, 7, 7, 7, 7]);
}

#[test]
fn resume_create_encodes_created_address() {
    let p = bridge_params(0);
    let resume = Resume { params: p, gas_retained: 0 };
    let pr = resume.resume_create(ContractCreateResult::Created(addr(0x33), 5));
    assert_eq!(pr.gas_left, 5);
    assert!(pr.apply_state);
    let encoded = pr.return_data.as_ref().unwrap();
    assert_eq!(encoded.len(), 32);
    assert_eq!(&encoded[..20], addr(0x33).as_slice());
    assert!(encoded[20..].iter().all(|b| *b == 0));
}

#[test]
fn resume_failed_and_reverted() {
    let p1 = bridge_params(0);
    let pr = Resume { params: p1, gas_retained: 0 }.resume_call(MessageCallResult::Failed(
        BridgeError::SubExecution,
    ));
    assert_eq!(pr.gas_left, 0);
    assert!(!pr.apply_state);
    assert!(matches!(pr.return_data, Err(BridgeError::SubExecution)));

    let p2 = bridge_params(0);
    let pr = Resume { params: p2, gas_retained: 0 }.resume_call(MessageCallResult::Reverted(
        3,
        vec![0xEE, 0xFF],
    ));
    assert_eq!(pr.gas_left, 3);
    assert!(!pr.apply_state);
    assert_eq!(pr.return_data.unwrap(), vec![0xEE, 0xFF]);
}

#[test]
fn finalization_returns_available_minus_memory_cost() {
    let s = spec_table();
    let mut l = Ledger::new(0);
    let mut logs: Vec<LogEntry> = Vec::new();
    let resume = Resume { params: bridge_params(0), gas_retained: 90 };
    let pr = resume.resume_call(MessageCallResult::Success(10, vec![7; 5]));
    let r = pr.exec(&mut l, &mut logs, &s);
    // The payload is 96 encoded bytes: 3 words at 3 gas each, against 100.
    match r {
        TrapResult::Return(Ok(g)) => {
            assert_eq!(g.gas_left, 100 - 9);
            assert!(g.apply_state);
            assert_eq!(g.data.len(), 96);
        },
        _ => panic!("finalization with enough gas must return a value"),
    }
    assert_eq!(logs.len(), 1);
    // The completion event reports success.
    assert_eq!(decode_return_payload(&logs[0].data), Some((0, 10, true)));
}

#[test]
fn finalization_out_of_gas_still_emits_the_event() {
    let s = spec_table();
    let mut l = Ledger::new(0);
    let mut logs: Vec<LogEntry> = Vec::new();
    let resume = Resume { params: bridge_params(0), gas_retained: 0 };
    let pr = resume.resume_call(MessageCallResult::Success(1, vec![7; 5]));
    let r = pr.exec(&mut l, &mut logs, &s);
    assert!(matches!(r, TrapResult::Return(Err(BridgeError::OutOfGas))));
    // The completion event still stands, and the mapped sender's nonce
    // moved: the log stream stays well-formed. The event carries
    // success = false, since the payload was discarded.
    assert_eq!(logs.len(), 1);
    assert_eq!(decode_return_payload(&logs[0].data), Some((0, 1, false)));
    let sender = addr(0x11);
    assert_eq!(mapped_nonce(&sender, &l), 1);
}

#[test]
fn finalization_passes_sub_execution_error_through() {
    let s = spec_table();
    let mut l = Ledger::new(0);
    let mut logs: Vec<LogEntry> = Vec::new();
    let resume = Resume { params: bridge_params(0), gas_retained: 50 };
    let pr = resume.resume_call(MessageCallResult::Failed(BridgeError::SubExecution));
    let r = pr.exec(&mut l, &mut logs, &s);
    assert!(matches!(r, TrapResult::Return(Err(BridgeError::SubExecution))));
    assert_eq!(logs.len(), 1);
}
