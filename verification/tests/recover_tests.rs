use cross_space::abi::encode_transfer_payload;
use cross_space::bloom::bloom_of_logs_exec;
use cross_space::bridge::{call_to_evmcore, MessageCallResult, TrapResult};
use cross_space::events::{
    bridge_address, call_event_sig, emit_call_event, emit_return_event, emit_withdraw_event,
    make_topic, LogEntry,
};
use cross_space::gas::{gas_required_for, VmSpec};
use cross_space::ledger::Ledger;
use cross_space::phantom::{recover_phantom, Action, OutcomeStatus, RecoveryError};
use cross_space::types::{ActionParams, CallKind, ParamsKind, Space};

fn spec_table() -> VmSpec {
    VmSpec {
        create_gas: 32000,
        sha3_gas: 30,
        sha3_word_gas: 6,
        log_gas: 375,
        log_topic_gas: 375,
        log_data_gas: 8,
        call_gas: 700,
        call_new_account_gas: 25000,
        evm_gas_ratio: 2,
        call_value_transfer_gas: 9000,
        call_stipend: 2300,
        memory_gas: 3,
        tx_gas: 21000,
        tx_create_gas: 53000,
        tx_data_zero_gas: 4,
        tx_data_non_zero_gas: 68,
        max_depth: 512,
        account_start_nonce: 0,
        cross_space_gas_ratio: 10,
    }
}

fn addr(b: u8) -> Vec<u8> {
    vec![b; 20]
}

#[test]
fn call_then_return_yields_funding_call_and_refund() {
    let s = spec_table();
    let a = addr(0xAA);
    let b = addr(0xBB);
    let mut logs: Vec<LogEntry> = Vec::new();
    emit_call_event(&mut logs, &a, &b, 100, 5, 21000, &vec![]);
    emit_return_event(&mut logs, 5, 5000, true);
    let txs = recover_phantom(&logs, &s, 1).unwrap();
    assert_eq!(txs.len(), 3);
    let intrinsic = gas_required_for(false, &vec![], &s);
    assert_eq!(intrinsic, 21000);
    let adjusted = 21000 + intrinsic;

    // The funding transfer pre-funds the caller's budget.
    assert_eq!(txs[0].from, vec![0u8; 20]);
    assert_eq!(txs[0].nonce, 0);
    assert_eq!(txs[0].value, 100 + adjusted * 1);
    match &txs[0].action {
        Action::Call(to) => assert_eq!(to, &a),
        Action::Create => panic!("a funding transfer is a call"),
    }

    // The reconstructed call itself.
    assert_eq!(txs[1].from, a);
    assert_eq!(txs[1].nonce, 5);
    assert_eq!(txs[1].value, 100);
    assert_eq!(txs[1].gas_limit, adjusted);
    assert_eq!(txs[1].gas_used, adjusted - 5000);
    assert_eq!(txs[1].outcome_status, OutcomeStatus::Success);
    assert!(txs[1].logs.is_empty());
    match &txs[1].action {
        Action::Call(to) => assert_eq!(to, &b),
        Action::Create => panic!("a call event opens a call"),
    }

    // The refund of the unused, already funded gas.
    assert_eq!(txs[2].from, a);
    assert_eq!(txs[2].nonce, 5);
    assert_eq!(txs[2].value, 5000 * 1);
}

#[test]
fn failed_return_marks_exception_with_nonce_bump() {
    let s = spec_table();
    let mut logs: Vec<LogEntry> = Vec::new();
    emit_call_event(&mut logs, &addr(1), &addr(2), 0, 0, 1000, &vec![]);
    emit_return_event(&mut logs, 0, 0, false);
    let txs = recover_phantom(&logs, &s, 3).unwrap();
    assert_eq!(txs.len(), 3);
    assert_eq!(txs[1].outcome_status, OutcomeStatus::ExceptionWithNonceBump);
    assert_eq!(txs[1].gas_used, txs[1].gas_limit);
    assert_eq!(txs[2].value, 0);
}

#[test]
fn lone_withdraw_yields_one_transfer() {
    let s = spec_table();
    let a = addr(0xAA);
    let mut logs: Vec<LogEntry> = Vec::new();
    emit_withdraw_event(&mut logs, &a, &addr(0x01), 777, 4);
    let txs = recover_phantom(&logs, &s, 1).unwrap();
    assert_eq!(txs.len(), 1);
    assert_eq!(txs[0].from, a);
    assert_eq!(txs[0].value, 777);
    assert_eq!(txs[0].nonce, 4);
    match &txs[0].action {
        Action::Call(to) => assert_eq!(to, &vec![0u8; 20]),
        Action::Create => panic!("a withdraw transfer is a call"),
    }
}

#[test]
fn consecutive_calls_trip_the_reentrancy_fault() {
    let s = spec_table();
    let mut logs: Vec<LogEntry> = Vec::new();
    emit_call_event(&mut logs, &addr(1), &addr(2), 0, 0, 100, &vec![]);
    emit_call_event(&mut logs, &addr(3), &addr(4), 0, 1, 100, &vec![]);
    assert!(matches!(recover_phantom(&logs, &s, 1), Err(RecoveryError::NonReentrancyViolated)));
}

#[test]
fn return_without_open_phantom_is_a_fault() {
    let s = spec_table();
    let mut logs: Vec<LogEntry> = Vec::new();
    emit_return_event(&mut logs, 0, 0, true);
    assert!(matches!(recover_phantom(&logs, &s, 1), Err(RecoveryError::NoOpenPhantom)));
}

#[test]
fn bridge_log_without_topics_is_a_fault() {
    let s = spec_table();
    let logs = vec![LogEntry {
        address: bridge_address(),
        space: Space::Native,
        topics: vec![],
        data: vec![],
    }];
    assert!(matches!(recover_phantom(&logs, &s, 1), Err(RecoveryError::MalformedEvent)));
}

#[test]
fn undecodable_payload_is_a_fault() {
    let s = spec_table();
    let logs = vec![LogEntry {
        address: bridge_address(),
        space: Space::Native,
        topics: vec![call_event_sig(), make_topic(&addr(1)), make_topic(&addr(2))],
        data: vec![0u8; 10],
    }];
    assert!(matches!(recover_phantom(&logs, &s, 1), Err(RecoveryError::MalformedEvent)));
}

#[test]
fn gas_limit_overflow_is_a_fault() {
    let s = spec_table();
    let logs = vec![LogEntry {
        address: bridge_address(),
        space: Space::Native,
        topics: vec![call_event_sig(), make_topic(&addr(1)), make_topic(&addr(2))],
        data: encode_transfer_payload(0, 0, u128::MAX, &vec![]),
    }];
    assert!(matches!(recover_phantom(&logs, &s, 1), Err(RecoveryError::GasOverflow)));
}

#[test]
fn gas_left_above_limit_is_a_fault() {
    let s = spec_table();
    let mut logs: Vec<LogEntry> = Vec::new();
    emit_call_event(&mut logs, &addr(1), &addr(2), 0, 0, 0, &vec![]);
    emit_return_event(&mut logs, 0, 100000, true);
    assert!(matches!(recover_phantom(&logs, &s, 1), Err(RecoveryError::GasOverflow)));
}

#[test]
fn unknown_signatures_and_foreign_logs_are_ignored() {
    let s = spec_table();
    let logs = vec![
        LogEntry {
            address: bridge_address(),
            space: Space::Native,
            topics: vec![vec![0xFFu8; 32]],
            data: vec![],
        },
        LogEntry { address: addr(0x30), space: Space::Native, topics: vec![], data: vec![] },
        // An EVM-space log with no phantom open is dropped too.
        LogEntry { address: addr(0x31), space: Space::Ethereum, topics: vec![], data: vec![] },
    ];
    let txs = recover_phantom(&logs, &s, 1).unwrap();
    assert!(txs.is_empty());
}

#[test]
fn open_phantom_collects_evm_logs_and_their_bloom() {
    let s = spec_table();
    let mut logs: Vec<LogEntry> = Vec::new();
    emit_call_event(&mut logs, &addr(1), &addr(2), 0, 0, 1000, &vec![]);
    logs.push(LogEntry {
        address: addr(0x30),
        space: Space::Ethereum,
        topics: vec![vec![1u8; 32], vec![2u8; 32]],
        data: vec![9],
    });
    logs.push(LogEntry {
        address: addr(0x31),
        space: Space::Ethereum,
        topics: vec![],
        data: vec![],
    });
    // A native-space log of another contract is not attached.
    logs.push(LogEntry { address: addr(0x32), space: Space::Native, topics: vec![], data: vec![] });
    emit_return_event(&mut logs, 0, 10, true);
    let txs = recover_phantom(&logs, &s, 1).unwrap();
    assert_eq!(txs.len(), 3);
    let done = &txs[1];
    assert_eq!(done.logs.len(), 2);
    assert_eq!(done.logs[0].address, addr(0x30));
    assert_eq!(done.logs[1].address, addr(0x31));
    assert_eq!(done.log_bloom, bloom_of_logs_exec(&done.logs));
    assert_ne!(done.log_bloom, vec![0u8; 256]);
    // The simple transfers carry no logs and an empty bloom.
    assert_eq!(txs[0].log_bloom, vec![0u8; 256]);
}

#[test]
fn producer_and_reconstructor_agree_end_to_end() {
    let s = spec_table();
    let mut l = Ledger::new(0);
    let mut logs: Vec<LogEntry> = Vec::new();
    let p = ActionParams {
        space: Space::Native,
        sender: addr(0x11),
        address: addr(0x20),
        code_address: addr(0x20),
        original_sender: addr(0x11),
        storage_owner: addr(0x20),
        value: 40,
        gas: 100000,
        gas_price: 1,
        code: None,
        code_hash: None,
        data: None,
        call_kind: Some(CallKind::Call),
        create_kind: None,
        params_kind: ParamsKind::Separate,
    };
    l.set_account(Space::Native, &p.address, 1000, 0, None);
    let trap = call_to_evmcore(&addr(0x22), vec![5], CallKind::Call, &p, 1000, 0, &s, &mut l, &mut logs)
        .unwrap();
    let resume = match trap {
        cross_space::bridge::ExecTrap::Call(np, resume) => {
            assert_eq!(np.gas, 100 + 2300);
            resume
        },
        _ => panic!("a call must suspend as a call"),
    };
    let pr = resume.resume_call(MessageCallResult::Success(50, vec![]));
    let fin = pr.exec(&mut l, &mut logs, &s);
    assert!(matches!(fin, TrapResult::Return(Ok(_))));

    let txs = recover_phantom(&logs, &s, p.gas_price).unwrap();
    assert_eq!(txs.len(), 3);
    let intrinsic = gas_required_for(false, &vec![5], &s);
    assert_eq!(txs[1].value, 40);
    assert_eq!(txs[1].gas_limit, (100 + 2300) + intrinsic);
    assert_eq!(txs[1].gas_used, txs[1].gas_limit - 50);
    assert_eq!(txs[1].outcome_status, OutcomeStatus::Success);
    assert_eq!(txs[2].value, 50 * p.gas_price);
}

#[test]
fn dangling_open_phantom_is_dropped_from_the_output() {
    let s = spec_table();
    let mut logs: Vec<LogEntry> = Vec::new();
    emit_call_event(&mut logs, &addr(1), &addr(2), 0, 0, 1000, &vec![]);
    let txs = recover_phantom(&logs, &s, 1).unwrap();
    // Only the funding transfer was emitted; the call never closed.
    assert_eq!(txs.len(), 1);
}

#[test]
fn out_of_gas_finalization_closes_the_phantom_as_failed() {
    let s = spec_table();
    let mut l = Ledger::new(0);
    let mut logs: Vec<LogEntry> = Vec::new();
    let p = ActionParams {
        space: Space::Native,
        sender: addr(0x11),
        address: addr(0x20),
        code_address: addr(0x20),
        original_sender: addr(0x11),
        storage_owner: addr(0x20),
        value: 0,
        gas: 100000,
        gas_price: 1,
        code: None,
        code_hash: None,
        data: None,
        call_kind: Some(CallKind::Call),
        create_kind: None,
        params_kind: ParamsKind::Separate,
    };
    let trap = call_to_evmcore(&addr(0x22), vec![], CallKind::Call, &p, 10, 0, &s, &mut l, &mut logs)
        .unwrap();
    let resume = match trap {
        cross_space::bridge::ExecTrap::Call(_, resume) => resume,
        _ => panic!("a call must suspend as a call"),
    };
    // The sub-call succeeds, but finalizing its 192-byte encoded payload
    // costs more than gas left plus reserved (1 + 9 against 18).
    let pr = resume.resume_call(MessageCallResult::Success(1, vec![7; 100]));
    let fin = pr.exec(&mut l, &mut logs, &s);
    assert!(matches!(fin, TrapResult::Return(Err(_))));

    // The completion event closed the phantom with success = false, so the
    // reconstruction marks it failed rather than successful.
    let txs = recover_phantom(&logs, &s, p.gas_price).unwrap();
    assert_eq!(txs.len(), 3);
    assert_eq!(txs[1].outcome_status, OutcomeStatus::ExceptionWithNonceBump);
}
