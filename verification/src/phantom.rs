//! Single-pass reconstruction of synthetic transactions from an ordered
//! event log: one open-phantom slot, a funding transfer and an opened
//! phantom per call or create event, a standalone transfer per withdraw
//! event, and a finalized phantom plus a refund per completion event.
//! A violation of the producer's invariants is an integrity fault.
use vstd::prelude::*;

use crate::abi::{dec_return_payload, dec_transfer_payload, dec_withdraw_payload,
    decode_return_payload, decode_transfer_payload, decode_withdraw_payload};
use crate::bloom::{bloom_of_logs, bloom_of_logs_exec, zero_bloom};
use crate::bytes::{bytes_eq, copy_bytes, copy_range, zero_bytes};
use crate::events::{
    bridge_address, bridge_address_spec, call_event_sig, call_sig, create_event_sig, create_sig,
    lviews, return_event_sig, return_sig, withdraw_event_sig, withdraw_sig, LogEntry, LogV,
};
use crate::gas::{gas_required_for, spec_intrinsic_gas, VmSpec};
use crate::types::Space;

verus! {

/// What a phantom transaction does: a plain call or a creation.
pub enum Action {
    Call(Vec<u8>),
    Create,
}

#[verifier::ext_equal]
pub enum ActionV {
    Call(Seq<u8>),
    Create,
}

impl View for Action {
    type V = ActionV;

    open spec fn view(&self) -> ActionV {
        match self {
            Action::Call(to) => ActionV::Call(to@),
            Action::Create => ActionV::Create,
        }
    }
}

/// Outcome field of a finalized phantom, encoded as a real receipt's.
#[derive(Clone, Copy, PartialEq, Eq, Structural, Debug)]
pub enum OutcomeStatus {
    Success,
    ExceptionWithNonceBump,
}

/// A synthetic transaction rebuilt from the bridge's events, shaped so
/// that downstream consumers cannot tell it from a real one.
pub struct PhantomTransaction {
    pub from: Vec<u8>,
    pub nonce: u128,
    pub action: Action,
    pub gas_limit: u128,
    pub value: u128,
    pub data: Vec<u8>,
    pub gas_used: u128,
    pub log_bloom: Vec<u8>,
    pub logs: Vec<LogEntry>,
    pub outcome_status: OutcomeStatus,
}

/// Mathematical image of a phantom transaction.
#[verifier::ext_equal]
pub struct PhantomV {
    pub from: Seq<u8>,
    pub nonce: u128,
    pub action: ActionV,
    pub gas_limit: u128,
    pub value: u128,
    pub data: Seq<u8>,
    pub gas_used: u128,
    pub log_bloom: Seq<u8>,
    pub logs: Seq<LogV>,
    pub outcome_status: OutcomeStatus,
}

impl View for PhantomTransaction {
    type V = PhantomV;

    open spec fn view(&self) -> PhantomV {
        PhantomV {
            from: self.from@,
            nonce: self.nonce,
            action: self.action@,
            gas_limit: self.gas_limit,
            value: self.value,
            data: self.data@,
            gas_used: self.gas_used,
            log_bloom: self.log_bloom@,
            logs: lviews(self.logs@),
            outcome_status: self.outcome_status,
        }
    }
}

/// The images of a sequence of phantom transactions.
pub open spec fn pviews(s: Seq<PhantomTransaction>) -> Seq<PhantomV> {
    s.map_values(|p: PhantomTransaction| p@)
}

/// The all-zero 20-byte address: the value-source and value-sink of
/// funding and refund transfers.
pub open spec fn zero_address() -> Seq<u8> {
    Seq::new(20, |i: int| 0u8)
}

/// A plain transfer phantom: full intrinsic gas, no data, no logs.
pub open spec fn simple_transfer_v(from: Seq<u8>, to: Seq<u8>, nonce: u128, value: u128, s: VmSpec) -> PhantomV {
    PhantomV {
        from,
        nonce,
        action: ActionV::Call(to),
        gas_limit: s.tx_gas as u128,
        value,
        data: Seq::empty(),
        gas_used: s.tx_gas as u128,
        log_bloom: zero_bloom(),
        logs: Seq::empty(),
        outcome_status: OutcomeStatus::Success,
    }
}

impl PhantomTransaction {
    /// A plain transfer phantom; exactly `simple_transfer_v`.
    pub fn simple_transfer(from: Vec<u8>, to: Vec<u8>, nonce: u128, value: u128, s: &VmSpec) -> (r: PhantomTransaction)
        ensures
            r@ == simple_transfer_v(from@, to@, nonce, value, *s),
    {
        let r = PhantomTransaction {
            from,
            nonce,
            action: Action::Call(to),
            gas_limit: s.tx_gas as u128,
            value,
            data: Vec::new(),
            gas_used: s.tx_gas as u128,
            log_bloom: zero_bytes(256),
            logs: Vec::new(),
            outcome_status: OutcomeStatus::Success,
        };
        proof {
            assert(r@.logs =~= Seq::<LogV>::empty());
            assert(r@ =~~= simple_transfer_v(r.from@, r@.action->Call_0, nonce, value, *s));
        }
        r
    }
}

/// Why reconstruction aborts: the producer's invariants were violated.
#[derive(Clone, Copy, PartialEq, Eq, Structural, Debug)]
pub enum RecoveryError {
    /// A call or create event arrived while a phantom was still open.
    NonReentrancyViolated,
    /// A completion event arrived with no phantom open.
    NoOpenPhantom,
    /// A bridge event's topics or payload do not decode.
    MalformedEvent,
    /// The event's figures overflow the gas or value arithmetic.
    GasOverflow,
}

/// The reconstructor's state: the open phantom, if any, and the finished
/// output in emission order.
#[verifier::ext_equal]
pub struct RunSt {
    pub open_tx: Option<PhantomV>,
    pub out: Seq<PhantomV>,
}

/// How one log advances the reconstruction.
pub open spec fn step(st: RunSt, l: LogV, s: VmSpec, price: u128) -> Result<RunSt, RecoveryError> {
    if l.address == bridge_address_spec() {
        if l.topics.len() == 0 {
            Result::Err(RecoveryError::MalformedEvent)
        } else {
            let sig = l.topics[0];
            if sig == call_sig() || sig == create_sig() {
                if st.open_tx is Some {
                    Result::Err(RecoveryError::NonReentrancyViolated)
                } else if l.topics.len() < 3 || l.topics[1].len() != 32 || l.topics[2].len() != 32 {
                    Result::Err(RecoveryError::MalformedEvent)
                } else {
                    match dec_transfer_payload(l.data) {
                        Option::None => Result::Err(RecoveryError::MalformedEvent),
                        Option::Some((value, nonce, gas_limit, data)) => {
                            let is_create = sig == create_sig();
                            let from = l.topics[1].subrange(0, 20);
                            let to = l.topics[2].subrange(0, 20);
                            let intrinsic = spec_intrinsic_gas(is_create, data, s);
                            if gas_limit + intrinsic > u128::MAX {
                                Result::Err(RecoveryError::GasOverflow)
                            } else {
                                let adjusted = (gas_limit + intrinsic) as u128;
                                if value + adjusted * price > u128::MAX {
                                    Result::Err(RecoveryError::GasOverflow)
                                } else {
                                    let funding = simple_transfer_v(
                                        zero_address(),
                                        from,
                                        0,
                                        (value + adjusted * price) as u128,
                                        s,
                                    );
                                    let opened = PhantomV {
                                        from,
                                        nonce,
                                        action: if is_create {
                                            ActionV::Create
                                        } else {
                                            ActionV::Call(to)
                                        },
                                        gas_limit: adjusted,
                                        value,
                                        data,
                                        gas_used: 0,
                                        log_bloom: zero_bloom(),
                                        logs: Seq::empty(),
                                        outcome_status: OutcomeStatus::Success,
                                    };
                                    Result::Ok(
                                        RunSt {
                                            open_tx: Option::Some(opened),
                                            out: st.out.push(funding),
                                        },
                                    )
                                }
                            }
                        },
                    }
                }
            } else if sig == withdraw_sig() {
                if l.topics.len() < 2 || l.topics[1].len() != 32 {
                    Result::Err(RecoveryError::MalformedEvent)
                } else {
                    match dec_withdraw_payload(l.data) {
                        Option::None => Result::Err(RecoveryError::MalformedEvent),
                        Option::Some((value, nonce)) => Result::Ok(
                            RunSt {
                                open_tx: st.open_tx,
                                out: st.out.push(
                                    simple_transfer_v(
                                        l.topics[1].subrange(0, 20),
                                        zero_address(),
                                        nonce,
                                        value,
                                        s,
                                    ),
                                ),
                            },
                        ),
                    }
                }
            } else if sig == return_sig() {
                match dec_return_payload(l.data) {
                    Option::None => Result::Err(RecoveryError::MalformedEvent),
                    Option::Some((nonce, gas_left, success)) => match st.open_tx {
                        Option::None => Result::Err(RecoveryError::NoOpenPhantom),
                        Option::Some(w) => {
                            if gas_left > w.gas_limit {
                                Result::Err(RecoveryError::GasOverflow)
                            } else if gas_left * price > u128::MAX {
                                Result::Err(RecoveryError::GasOverflow)
                            } else {
                                let done = PhantomV {
                                    from: w.from,
                                    nonce: w.nonce,
                                    action: w.action,
                                    gas_limit: w.gas_limit,
                                    value: w.value,
                                    data: w.data,
                                    gas_used: (w.gas_limit - gas_left) as u128,
                                    log_bloom: bloom_of_logs(w.logs),
                                    logs: w.logs,
                                    outcome_status: if success {
                                        OutcomeStatus::Success
                                    } else {
                                        OutcomeStatus::ExceptionWithNonceBump
                                    },
                                };
                                let refund = simple_transfer_v(
                                    w.from,
                                    zero_address(),
                                    nonce,
                                    (gas_left * price) as u128,
                                    s,
                                );
                                Result::Ok(
                                    RunSt {
                                        open_tx: Option::None,
                                        out: st.out.push(done).push(refund),
                                    },
                                )
                            }
                        },
                    },
                }
            } else {
                Result::Ok(st)
            }
        }
    } else if l.space == Space::Ethereum && st.open_tx is Some {
        let w = st.open_tx->Some_0;
        Result::Ok(
            RunSt {
                open_tx: Option::Some(
                    PhantomV {
                        from: w.from,
                        nonce: w.nonce,
                        action: w.action,
                        gas_limit: w.gas_limit,
                        value: w.value,
                        data: w.data,
                        gas_used: w.gas_used,
                        log_bloom: w.log_bloom,
                        logs: w.logs.push(l),
                        outcome_status: w.outcome_status,
                    },
                ),
                out: st.out,
            },
        )
    } else {
        Result::Ok(st)
    }
}

/// The reconstruction of a whole log stream, or the fault it trips on.
pub open spec fn run(logs: Seq<LogV>, s: VmSpec, price: u128) -> Result<RunSt, RecoveryError>
    decreases logs.len(),
{
    if logs.len() == 0 {
        Result::Ok(RunSt { open_tx: Option::None, out: Seq::empty() })
    } else {
        match run(logs.drop_last(), s, price) {
            Result::Err(e) => Result::Err(e),
            Result::Ok(st) => step(st, logs.last(), s, price),
        }
    }
}

pub open spec fn st_of(r: Result<RunSt, RecoveryError>) -> RunSt {
    match r {
        Result::Ok(st) => st,
        Result::Err(e) => RunSt { open_tx: Option::None, out: Seq::empty() },
    }
}

/// A fault at any prefix is the fault of the whole stream.
proof fn lemma_run_err(logs: Seq<LogV>, i: int, s: VmSpec, price: u128)
    requires
        0 <= i <= logs.len(),
        run(logs.take(i), s, price) is Err,
    ensures
        run(logs, s, price) == run(logs.take(i), s, price),
    decreases logs.len() - i,
{
    if i == logs.len() {
        assert(logs.take(i) =~= logs);
    } else {
        assert(logs.take(i + 1).drop_last() =~= logs.take(i));
        lemma_run_err(logs, i + 1, s, price);
    }
}

fn clone_log(l: &LogEntry) -> (r: LogEntry)
    ensures
        r@ == l@,
{
    let mut topics: Vec<Vec<u8>> = Vec::new();
    let mut i: usize = 0;
    while i < l.topics.len()
        invariant
            i <= l.topics@.len(),
            topics@.len() == i,
            forall|j: int| 0 <= j < i ==> #[trigger] topics@[j]@ == l.topics@[j]@,
        decreases l.topics@.len() - i,
    {
        topics.push(copy_bytes(&l.topics[i]));
        i = i + 1;
    }
    let r = LogEntry {
        address: copy_bytes(&l.address),
        space: l.space,
        topics,
        data: copy_bytes(&l.data),
    };
    proof {
        assert(r@.topics =~= l@.topics);
        assert(r@ =~~= l@);
    }
    r
}

pub open spec fn opt_pv(o: Option<PhantomTransaction>) -> Option<PhantomV> {
    match o {
        Option::None => Option::None,
        Option::Some(p) => Option::Some(p@),
    }
}

/// Rebuilds the phantom transactions of one transaction's ordered log
/// stream, in emission order, or reports the integrity fault the stream
/// trips on. The result is exactly what `run` states.
pub fn recover_phantom(logs: &Vec<LogEntry>, s: &VmSpec, gas_price: u128) -> (r: Result<
    Vec<PhantomTransaction>,
    RecoveryError,
>)
    requires
        s.wf(),
    ensures
        match r {
            Result::Ok(txs) => run(lviews(logs@), *s, gas_price) is Ok && pviews(txs@) == st_of(
                run(lviews(logs@), *s, gas_price),
            ).out,
            Result::Err(e) => run(lviews(logs@), *s, gas_price) == Result::<
                RunSt,
                RecoveryError,
            >::Err(e),
        },
{
    let ghost lvs = lviews(logs@);
    let bridge_addr = bridge_address();
    let sig_call = call_event_sig();
    let sig_create = create_event_sig();
    let sig_withdraw = withdraw_event_sig();
    let sig_return = return_event_sig();
    let mut out: Vec<PhantomTransaction> = Vec::new();
    let mut working: Option<PhantomTransaction> = Option::None;
    let mut i: usize = 0;
    proof {
        assert(lvs.take(0) =~= Seq::<LogV>::empty());
        assert(pviews(out@) =~= Seq::<PhantomV>::empty());
    }
    while i < logs.len()
        invariant
            i <= logs@.len(),
            s.wf(),
            lvs == lviews(logs@),
            bridge_addr@ == bridge_address_spec(),
            sig_call@ == call_sig(),
            sig_create@ == create_sig(),
            sig_withdraw@ == withdraw_sig(),
            sig_return@ == return_sig(),
            run(lvs.take(i as int), *s, gas_price) is Ok,
            st_of(run(lvs.take(i as int), *s, gas_price)).out == pviews(out@),
            st_of(run(lvs.take(i as int), *s, gas_price)).open_tx == opt_pv(working),
        decreases logs@.len() - i,
    {
        let ghost stp = st_of(run(lvs.take(i as int), *s, gas_price));
        let ghost lv = lvs[i as int];
        proof {
            assert(lv == logs@[i as int]@);
            assert(lvs.take(i + 1).drop_last() =~= lvs.take(i as int));
            assert(lvs.take(i + 1).last() == lv);
            assert(run(lvs.take(i + 1), *s, gas_price) == step(stp, lv, *s, gas_price));
        }
        let lg = &logs[i];
        if bytes_eq(&lg.address, &bridge_addr) {
            if lg.topics.len() == 0 {
                proof {
                    assert(lv.topics.len() == 0);
                    lemma_run_err(lvs, i + 1, *s, gas_price);
                }
                return Result::Err(RecoveryError::MalformedEvent);
            }
            proof {
                assert(lv.topics[0] == lg.topics@[0]@);
            }
            let is_call = bytes_eq(&lg.topics[0], &sig_call);
            let is_create = bytes_eq(&lg.topics[0], &sig_create);
            if is_call || is_create {
                if working.is_some() {
                    proof {
                        lemma_run_err(lvs, i + 1, *s, gas_price);
                    }
                    return Result::Err(RecoveryError::NonReentrancyViolated);
                }
                if lg.topics.len() < 3 {
                    proof {
                        lemma_run_err(lvs, i + 1, *s, gas_price);
                    }
                    return Result::Err(RecoveryError::MalformedEvent);
                }
                proof {
                    assert(lv.topics[1] == lg.topics@[1]@);
                    assert(lv.topics[2] == lg.topics@[2]@);
                }
                if lg.topics[1].len() != 32 || lg.topics[2].len() != 32 {
                    proof {
                        lemma_run_err(lvs, i + 1, *s, gas_price);
                    }
                    return Result::Err(RecoveryError::MalformedEvent);
                }
                match decode_transfer_payload(&lg.data) {
                    Option::None => {
                        proof {
                            lemma_run_err(lvs, i + 1, *s, gas_price);
                        }
                        return Result::Err(RecoveryError::MalformedEvent);
                    },
                    Option::Some((value, nonce, gas_limit, data)) => {
                        let from = copy_range(&lg.topics[1], 0, 20);
                        let to = copy_range(&lg.topics[2], 0, 20);
                        let intrinsic = gas_required_for(is_create, &data, s);
                        let adjusted = match gas_limit.checked_add(intrinsic) {
                            Option::Some(x) => x,
                            Option::None => {
                                proof {
                                    lemma_run_err(lvs, i + 1, *s, gas_price);
                                }
                                return Result::Err(RecoveryError::GasOverflow);
                            },
                        };
                        let fee = match adjusted.checked_mul(gas_price) {
                            Option::Some(x) => x,
                            Option::None => {
                                proof {
                                    assert(value + adjusted * gas_price > u128::MAX);
                                    lemma_run_err(lvs, i + 1, *s, gas_price);
                                }
                                return Result::Err(RecoveryError::GasOverflow);
                            },
                        };
                        let total = match value.checked_add(fee) {
                            Option::Some(x) => x,
                            Option::None => {
                                proof {
                                    lemma_run_err(lvs, i + 1, *s, gas_price);
                                }
                                return Result::Err(RecoveryError::GasOverflow);
                            },
                        };
                        let funding = PhantomTransaction::simple_transfer(
                            zero_bytes(20),
                            copy_bytes(&from),
                            0,
                            total,
                            s,
                        );
                        let opened = PhantomTransaction {
                            from,
                            nonce,
                            action: if is_create {
                                Action::Create
                            } else {
                                Action::Call(to)
                            },
                            gas_limit: adjusted,
                            value,
                            data,
                            gas_used: 0,
                            log_bloom: zero_bytes(256),
                            logs: Vec::new(),
                            outcome_status: OutcomeStatus::Success,
                        };
                        proof {
                            assert(Seq::new(20, |j: int| 0u8) =~= zero_address());
                            assert(opened@.logs =~= Seq::<LogV>::empty());
                            let st2 = st_of(step(stp, lv, *s, gas_price));
                            assert(step(stp, lv, *s, gas_price) is Ok);
                            assert(st2.open_tx =~~= opt_pv(Option::Some(opened)));
                            assert(st2.out =~~= pviews(out@.push(funding)));
                        }
                        out.push(funding);
                        working = Option::Some(opened);
                    },
                }
            } else if bytes_eq(&lg.topics[0], &sig_withdraw) {
                if lg.topics.len() < 2 {
                    proof {
                        lemma_run_err(lvs, i + 1, *s, gas_price);
                    }
                    return Result::Err(RecoveryError::MalformedEvent);
                }
                proof {
                    assert(lv.topics[1] == lg.topics@[1]@);
                }
                if lg.topics[1].len() != 32 {
                    proof {
                        lemma_run_err(lvs, i + 1, *s, gas_price);
                    }
                    return Result::Err(RecoveryError::MalformedEvent);
                }
                match decode_withdraw_payload(&lg.data) {
                    Option::None => {
                        proof {
                            lemma_run_err(lvs, i + 1, *s, gas_price);
                        }
                        return Result::Err(RecoveryError::MalformedEvent);
                    },
                    Option::Some((value, nonce)) => {
                        let from = copy_range(&lg.topics[1], 0, 20);
                        let tx = PhantomTransaction::simple_transfer(
                            from,
                            zero_bytes(20),
                            nonce,
                            value,
                            s,
                        );
                        proof {
                            assert(Seq::new(20, |j: int| 0u8) =~= zero_address());
                            let st2 = st_of(step(stp, lv, *s, gas_price));
                            assert(step(stp, lv, *s, gas_price) is Ok);
                            assert(st2.out =~~= pviews(out@.push(tx)));
                        }
                        out.push(tx);
                    },
                }
            } else if bytes_eq(&lg.topics[0], &sig_return) {
                match decode_return_payload(&lg.data) {
                    Option::None => {
                        proof {
                            lemma_run_err(lvs, i + 1, *s, gas_price);
                        }
                        return Result::Err(RecoveryError::MalformedEvent);
                    },
                    Option::Some((nonce, gas_left, success)) => {
                        let w = match working {
                            Option::Some(w) => w,
                            Option::None => {
                                proof {
                                    lemma_run_err(lvs, i + 1, *s, gas_price);
                                }
                                return Result::Err(RecoveryError::NoOpenPhantom);
                            },
                        };
                        working = Option::None;
                        if gas_left > w.gas_limit {
                            proof {
                                lemma_run_err(lvs, i + 1, *s, gas_price);
                            }
                            return Result::Err(RecoveryError::GasOverflow);
                        }
                        let refund_value = match gas_left.checked_mul(gas_price) {
                            Option::Some(x) => x,
                            Option::None => {
                                proof {
                                    lemma_run_err(lvs, i + 1, *s, gas_price);
                                }
                                return Result::Err(RecoveryError::GasOverflow);
                            },
                        };
                        let from2 = copy_bytes(&w.from);
                        let bloom = bloom_of_logs_exec(&w.logs);
                        let done = PhantomTransaction {
                            from: w.from,
                            nonce: w.nonce,
                            action: w.action,
                            gas_limit: w.gas_limit,
                            value: w.value,
                            data: w.data,
                            gas_used: w.gas_limit - gas_left,
                            log_bloom: bloom,
                            logs: w.logs,
                            outcome_status: if success {
                                OutcomeStatus::Success
                            } else {
                                OutcomeStatus::ExceptionWithNonceBump
                            },
                        };
                        let refund = PhantomTransaction::simple_transfer(
                            from2,
                            zero_bytes(20),
                            nonce,
                            refund_value,
                            s,
                        );
                        proof {
                            assert(Seq::new(20, |j: int| 0u8) =~= zero_address());
                            let st2 = st_of(step(stp, lv, *s, gas_price));
                            assert(step(stp, lv, *s, gas_price) is Ok);
                            assert(st2.out =~~= pviews(out@.push(done).push(refund)));
                        }
                        out.push(done);
                        out.push(refund);
                    },
                }
            } else {
                proof {
                    assert(step(stp, lv, *s, gas_price) == Result::<
                        RunSt,
                        RecoveryError,
                    >::Ok(stp));
                }
            }
        } else {
            let is_eth = match lg.space {
                Space::Ethereum => true,
                Space::Native => false,
            };
            if is_eth && working.is_some() {
                match &mut working {
                    Option::Some(w) => {
                        let cl = clone_log(lg);
                        w.logs.push(cl);
                        proof {
                            let st2 = st_of(step(stp, lv, *s, gas_price));
                            assert(step(stp, lv, *s, gas_price) is Ok);
                            assert(st2.open_tx =~~= opt_pv(working));
                        }
                    },
                    Option::None => {},
                }
            } else {
                proof {
                    assert(step(stp, lv, *s, gas_price) == Result::<
                        RunSt,
                        RecoveryError,
                    >::Ok(stp));
                }
            }
        }
        i = i + 1;
    }
    proof {
        assert(lvs.take(logs@.len() as int) =~= lvs);
    }
    Result::Ok(out)
}

/// Every finished phantom's bloom is the OR-accrual of its own logs'
/// contributions.
pub open spec fn blooms_ok(txs: Seq<PhantomV>) -> bool {
    forall|i: int|
        0 <= i < txs.len() ==> (#[trigger] txs[i]).log_bloom == bloom_of_logs(txs[i].logs)
}

/// The bloom law: whatever log stream the reconstruction is run on, every
/// emitted phantom's `log_bloom` equals the OR-accrual of its attached
/// logs' bloom contributions.
pub proof fn lemma_recovered_blooms(logs: Seq<LogV>, s: VmSpec, price: u128)
    requires
        run(logs, s, price) is Ok,
    ensures
        blooms_ok(st_of(run(logs, s, price)).out),
    decreases logs.len(),
{
    if logs.len() == 0 {
    } else {
        let prefix = logs.drop_last();
        lemma_recovered_blooms(prefix, s, price);
        let stp = st_of(run(prefix, s, price));
        let st2 = st_of(run(logs, s, price));
        assert(run(logs, s, price) == step(stp, logs.last(), s, price));
        assert(bloom_of_logs(Seq::<LogV>::empty()) == zero_bloom());
        assert forall|i: int| 0 <= i < st2.out.len() implies (#[trigger] st2.out[i]).log_bloom
            == bloom_of_logs(st2.out[i].logs) by {
            if i < stp.out.len() {
                assert(stp.out[i].log_bloom == bloom_of_logs(stp.out[i].logs));
            }
        }
    }
}


/// The non-reentrancy invariant, re-asserted over whole streams: when a
/// prefix of the log leaves a phantom open and the next log is a bridge
/// call or create event, reconstruction of the whole stream aborts with
/// the non-reentrancy fault, whatever follows.
pub proof fn lemma_reentrancy_aborts(logs: Seq<LogV>, i: int, s: VmSpec, price: u128)
    requires
        0 <= i < logs.len(),
        run(logs.take(i), s, price) matches Result::Ok(st) && st.open_tx is Some,
        logs[i].address == bridge_address_spec(),
        logs[i].topics.len() > 0,
        logs[i].topics[0] == call_sig() || logs[i].topics[0] == create_sig(),
    ensures
        run(logs, s, price) == Result::<RunSt, RecoveryError>::Err(
            RecoveryError::NonReentrancyViolated,
        ),
{
    assert(logs.take(i + 1).drop_last() =~= logs.take(i));
    assert(logs.take(i + 1).last() == logs[i]);
    let st = st_of(run(logs.take(i), s, price));
    assert(step(st, logs[i], s, price) == Result::<RunSt, RecoveryError>::Err(
        RecoveryError::NonReentrancyViolated,
    ));
    lemma_run_err(logs, i + 1, s, price);
}

/// Emitting and reconstructing agree on calls and creates: a freshly
/// emitted call or create event, arriving with no phantom open, opens a
/// phantom carrying exactly the logged fields, behind a funding transfer
/// of the value plus the adjusted gas budget.
pub proof fn lemma_call_event_recovers(
    st: RunSt,
    from: Seq<u8>,
    to: Seq<u8>,
    value: u128,
    nonce: u128,
    gas_limit: u128,
    data: Seq<u8>,
    is_create: bool,
    s: VmSpec,
    price: u128,
)
    requires
        s.wf(),
        st.open_tx is None,
        from.len() == 20,
        to.len() == 20,
        data.len() <= usize::MAX,
        gas_limit + spec_intrinsic_gas(is_create, data, s) <= u128::MAX,
        value + (gas_limit + spec_intrinsic_gas(is_create, data, s)) * price <= u128::MAX,
    ensures
        ({
            let ev = if is_create {
                crate::events::create_event_v(from, to, value, nonce, gas_limit, data)
            } else {
                crate::events::call_event_v(from, to, value, nonce, gas_limit, data)
            };
            let adjusted = (gas_limit + spec_intrinsic_gas(is_create, data, s)) as u128;
            step(st, ev, s, price) == Result::<RunSt, RecoveryError>::Ok(
                RunSt {
                    open_tx: Option::Some(
                        PhantomV {
                            from,
                            nonce,
                            action: if is_create {
                                ActionV::Create
                            } else {
                                ActionV::Call(to)
                            },
                            gas_limit: adjusted,
                            value,
                            data,
                            gas_used: 0,
                            log_bloom: zero_bloom(),
                            logs: Seq::empty(),
                            outcome_status: OutcomeStatus::Success,
                        },
                    ),
                    out: st.out.push(
                        simple_transfer_v(
                            zero_address(),
                            from,
                            0,
                            (value + adjusted * price) as u128,
                            s,
                        ),
                    ),
                },
            )
        }),
{
    let ev = if is_create {
        crate::events::create_event_v(from, to, value, nonce, gas_limit, data)
    } else {
        crate::events::call_event_v(from, to, value, nonce, gas_limit, data)
    };
    crate::gas::lemma_data_gas_bound(data, s);
    assert(call_sig()[0] == 0x43 && create_sig()[0] == 0x44);
    assert(call_sig() != create_sig());
    assert(ev.topics[0] == if is_create { create_sig() } else { call_sig() });
    assert(ev.topics[1] == crate::events::topic_of(from));
    assert(ev.topics[2] == crate::events::topic_of(to));
    assert(ev.topics[1].len() == 32 && ev.topics[2].len() == 32);
    crate::abi::lemma_transfer_payload_roundtrip(value, nonce, gas_limit, data);
    assert(ev.topics[1].subrange(0, 20) =~= from);
    assert(ev.topics[2].subrange(0, 20) =~= to);
}

/// Emitting and reconstructing agree on withdraws: a freshly emitted
/// withdraw event becomes one standalone transfer phantom with the logged
/// value and nonce, leaving the open-phantom slot alone.
pub proof fn lemma_withdraw_event_recovers(
    st: RunSt,
    from: Seq<u8>,
    to: Seq<u8>,
    value: u128,
    nonce: u128,
    s: VmSpec,
    price: u128,
)
    requires
        from.len() == 20,
    ensures
        step(st, crate::events::withdraw_event_v(from, to, value, nonce), s, price) == Result::<
            RunSt,
            RecoveryError,
        >::Ok(
            RunSt {
                open_tx: st.open_tx,
                out: st.out.push(simple_transfer_v(from, zero_address(), nonce, value, s)),
            },
        ),
{
    let ev = crate::events::withdraw_event_v(from, to, value, nonce);
    assert(withdraw_sig()[0] == 0x57 && call_sig()[0] == 0x43 && create_sig()[0] == 0x44);
    assert(ev.topics[0] == withdraw_sig());
    assert(ev.topics[1] == crate::events::topic_of(from));
    assert(ev.topics[1].len() == 32);
    crate::abi::lemma_withdraw_payload_roundtrip(value, nonce);
    assert(ev.topics[1].subrange(0, 20) =~= from);
}

/// Emitting and reconstructing agree on completions: a freshly emitted
/// return event closes the open phantom, with the gas used computed from
/// the logged gas left, the outcome from the logged flag, the bloom from
/// the attached logs, and a trailing refund of the unused budget.
pub proof fn lemma_return_event_closes(
    st: RunSt,
    w: PhantomV,
    nonce: u128,
    gas_left: u128,
    success: bool,
    s: VmSpec,
    price: u128,
)
    requires
        st.open_tx == Option::Some(w),
        gas_left <= w.gas_limit,
        gas_left * price <= u128::MAX,
    ensures
        step(st, crate::events::return_event_v(nonce, gas_left, success), s, price) == Result::<
            RunSt,
            RecoveryError,
        >::Ok(
            RunSt {
                open_tx: Option::None,
                out: st.out.push(
                    PhantomV {
                        from: w.from,
                        nonce: w.nonce,
                        action: w.action,
                        gas_limit: w.gas_limit,
                        value: w.value,
                        data: w.data,
                        gas_used: (w.gas_limit - gas_left) as u128,
                        log_bloom: bloom_of_logs(w.logs),
                        logs: w.logs,
                        outcome_status: if success {
                            OutcomeStatus::Success
                        } else {
                            OutcomeStatus::ExceptionWithNonceBump
                        },
                    },
                ).push(simple_transfer_v(w.from, zero_address(), nonce, (gas_left * price) as u128, s)),
            },
        ),
{
    let ev = crate::events::return_event_v(nonce, gas_left, success);
    assert(return_sig()[0] == 0x52 && call_sig()[0] == 0x43 && create_sig()[0] == 0x44
        && withdraw_sig()[0] == 0x57);
    assert(ev.topics[0] == return_sig());
    crate::abi::lemma_return_payload_roundtrip(nonce, gas_left, success);
}


} // verus!
