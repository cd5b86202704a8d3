//! Initiation and finalization of cross-space operations: the gas split,
//! the pre-transfer of value, the sub-frame construction, the one-shot
//! continuation, and the completion event that closes every opened call.
use vstd::prelude::*;

use crate::abi::{enc_bytes, enc_bytes20, encode_bytes20_value, encode_bytes_value};
use crate::bytes::copy_bytes;
use crate::events::{
    call_event_v, create_event_v, emit_call_event, emit_create_event, emit_return_event,
    emit_withdraw_event, lviews, return_event_v, withdraw_event_v, LogEntry,
};
use crate::gas::{cross_space_split, spec_forwarded, spec_reserved, VmSpec};
use crate::hashing::{
    create2_address, create2_address_spec, create_address, create_address_spec, evm_map,
    evm_map_spec, keccak_bytes, keccak_of,
};
use crate::ledger::{acct, spec_active, spec_balance, spec_code, spec_nonce, Ledger};
use crate::types::{
    opt_view, ActionParams, BridgeError, CallKind, CreateKind, ParamsKind, Space,
};

verus! {

/// Gas overhead of a bridged call: the call base, the new-account and
/// transfer charges when they apply, the address-mapping hashes, and the
/// call event's cost unless the call is static and logs nothing.
pub open spec fn spec_call_gas(
    l: Ledger,
    s: VmSpec,
    receiver: Seq<u8>,
    value: u128,
    data_len: nat,
    is_static: bool,
) -> int {
    (if !is_static && !spec_active(l, Space::Ethereum, receiver) {
        s.call_new_account_gas * s.evm_gas_ratio
    } else {
        0
    }) + (if value > 0 {
        s.call_value_transfer_gas as int
    } else {
        0
    }) + s.call_gas + 4 * s.sha3_gas + (if !is_static {
        s.log_gas + 3 * s.log_topic_gas + s.log_data_gas * (128 + data_len)
    } else {
        0
    })
}

/// Gas overhead of a bridged call; exactly `spec_call_gas`.
pub fn call_gas(
    receiver: &Vec<u8>,
    params: &ActionParams,
    l: &Ledger,
    s: &VmSpec,
    data_length: usize,
    is_static: bool,
) -> (r: u128)
    requires
        l.wf(),
        s.wf(),
    ensures
        r as int == spec_call_gas(*l, *s, receiver@, params.value, data_length as nat, is_static),
{
    proof {
        assert(s.call_new_account_gas as u128 * s.evm_gas_ratio as u128 <= 0x1_0000_0000u128
            * 0x100) by (nonlinear_arith)
            requires
                s.call_new_account_gas <= 0x1_0000_0000,
                s.evm_gas_ratio <= 0x100,
        ;
    }
    let new_account_gas: u128 = if !is_static && !l.exists_and_not_null(Space::Ethereum, receiver) {
        s.call_new_account_gas as u128 * s.evm_gas_ratio as u128
    } else {
        0
    };
    let transfer_gas: u128 = if params.value > 0 {
        s.call_value_transfer_gas as u128
    } else {
        0
    };
    let base: u128 = s.call_gas as u128 + new_account_gas + transfer_gas;
    let address_mapping_gas: u128 = s.sha3_gas as u128 * 4;
    let log_data_length: u128 = 128 + data_length as u128;
    proof {
        assert(s.log_data_gas as u128 * log_data_length
            <= 0x1_0000_0000u128 * 0x2_0000_0000_0000_0000) by (nonlinear_arith)
            requires
                s.log_data_gas <= 0x1_0000_0000,
                log_data_length <= 0x2_0000_0000_0000_0000,
        ;
    }
    let log_gas: u128 = if !is_static {
        s.log_gas as u128 + 3 * s.log_topic_gas as u128 + s.log_data_gas as u128 * log_data_length
    } else {
        0
    };
    base + address_mapping_gas + log_gas
}

/// The longer the call data, the larger the overhead; zero-length data
/// still pays the fixed parts.
pub proof fn lemma_call_gas_monotonic(
    l: Ledger,
    s: VmSpec,
    receiver: Seq<u8>,
    value: u128,
    d1: nat,
    d2: nat,
    is_static: bool,
)
    requires
        s.wf(),
        d1 <= d2,
    ensures
        spec_call_gas(l, s, receiver, value, d1, is_static) <= spec_call_gas(
            l,
            s,
            receiver,
            value,
            d2,
            is_static,
        ),
{
    assert(s.log_data_gas * (128 + d1) <= s.log_data_gas * (128 + d2)) by (nonlinear_arith)
        requires
            d1 <= d2,
    ;
}

/// The one-shot continuation: the initiating frame's parameters and the
/// gas reserved for finalization. Consumed exactly once by the scheduler.
pub struct Resume {
    pub params: ActionParams,
    pub gas_retained: u128,
}

/// A suspension request: the sub-frame to run and the continuation to
/// invoke with its outcome.
pub enum ExecTrap {
    Call(ActionParams, Resume),
    Create(ActionParams, Resume),
}

/// What the scheduler hands back after a bridged message call.
pub enum MessageCallResult {
    Success(u128, Vec<u8>),
    Failed(BridgeError),
    Reverted(u128, Vec<u8>),
}

/// What the scheduler hands back after a bridged creation.
pub enum ContractCreateResult {
    Created(Vec<u8>, u128),
    Failed(BridgeError),
    Reverted(u128, Vec<u8>),
}

/// The final outcome handed to the original caller's frame.
pub struct GasLeft {
    pub gas_left: u128,
    pub data: Vec<u8>,
    pub apply_state: bool,
}

/// Either a final outcome for the caller or a nested suspension.
pub enum TrapResult<T> {
    Return(Result<T, BridgeError>),
    SubCallCreate(ExecTrap),
}

/// Routes an initiation result to the scheduler: a built sub-frame
/// suspends, an initiation error returns to the caller.
pub fn process_trap<T>(result: Result<ExecTrap, BridgeError>) -> (r: TrapResult<T>)
    ensures
        match result {
            Result::Ok(t) => r == TrapResult::<T>::SubCallCreate(t),
            Result::Err(e) => r == TrapResult::<T>::Return(Result::Err(e)),
        },
{
    match result {
        Result::Ok(trap) => TrapResult::SubCallCreate(trap),
        Result::Err(err) => TrapResult::Return(Result::Err(err)),
    }
}

/// The pending finalization built from a sub-execution outcome.
pub struct PassResult {
    pub resume: Resume,
    pub gas_left: u128,
    pub return_data: Result<Vec<u8>, BridgeError>,
    pub apply_state: bool,
}

impl Resume {
    /// Translates a message call outcome: success encodes the returned
    /// bytes and applies state; failure carries the error and applies
    /// nothing; a revert passes its payload through unchanged.
    pub fn resume_call(self, result: MessageCallResult) -> (r: PassResult)
        requires
            (result matches MessageCallResult::Success(g, d) ==> d@.len() + 96 <= usize::MAX),
        ensures
            r.resume == self,
            match result {
                MessageCallResult::Success(gas_left, data) => {
                    &&& r.gas_left == gas_left
                    &&& r.return_data matches Result::Ok(d) && d@ == enc_bytes(data@)
                    &&& r.apply_state == true
                },
                MessageCallResult::Failed(err) => {
                    &&& r.gas_left == 0
                    &&& r.return_data == Result::<Vec<u8>, BridgeError>::Err(err)
                    &&& r.apply_state == false
                },
                MessageCallResult::Reverted(gas_left, data) => {
                    &&& r.gas_left == gas_left
                    &&& r.return_data matches Result::Ok(d) && d@ == data@
                    &&& r.apply_state == false
                },
            },
    {
        match result {
            MessageCallResult::Success(gas_left, data) => {
                let encoded = encode_bytes_value(&data);
                PassResult { resume: self, gas_left, return_data: Result::Ok(encoded), apply_state: true }
            },
            MessageCallResult::Failed(err) => PassResult {
                resume: self,
                gas_left: 0,
                return_data: Result::Err(err),
                apply_state: false,
            },
            MessageCallResult::Reverted(gas_left, data) => PassResult {
                resume: self,
                gas_left,
                return_data: Result::Ok(data),
                apply_state: false,
            },
        }
    }

    /// Translates a creation outcome: the created address is encoded as
    /// the 20-byte return payload.
    pub fn resume_create(self, result: ContractCreateResult) -> (r: PassResult)
        ensures
            r.resume == self,
            match result {
                ContractCreateResult::Created(address, gas_left) => {
                    &&& r.gas_left == gas_left
                    &&& r.return_data matches Result::Ok(d) && d@ == enc_bytes20(address@)
                    &&& r.apply_state == true
                },
                ContractCreateResult::Failed(err) => {
                    &&& r.gas_left == 0
                    &&& r.return_data == Result::<Vec<u8>, BridgeError>::Err(err)
                    &&& r.apply_state == false
                },
                ContractCreateResult::Reverted(gas_left, data) => {
                    &&& r.gas_left == gas_left
                    &&& r.return_data matches Result::Ok(d) && d@ == data@
                    &&& r.apply_state == false
                },
            },
    {
        match result {
            ContractCreateResult::Created(address, gas_left) => {
                let encoded = encode_bytes20_value(&address);
                PassResult { resume: self, gas_left, return_data: Result::Ok(encoded), apply_state: true }
            },
            ContractCreateResult::Failed(err) => PassResult {
                resume: self,
                gas_left: 0,
                return_data: Result::Err(err),
                apply_state: false,
            },
            ContractCreateResult::Reverted(gas_left, data) => PassResult {
                resume: self,
                gas_left,
                return_data: Result::Ok(data),
                apply_state: false,
            },
        }
    }
}

/// The memory charge of returning `len` bytes.
pub open spec fn spec_return_cost(len: nat, s: VmSpec) -> int {
    ((len + 31) / 32) * s.memory_gas
}

impl PassResult {
    /// Whether finalization runs out of gas: the return payload's memory
    /// cost exceeds gas left plus reserved gas.
    pub open spec fn runs_out_of_gas(self, s: VmSpec) -> bool {
        self.return_data matches Result::Ok(data) && self.gas_left + self.resume.gas_retained
            < spec_return_cost(data@.len(), s)
    }

    /// The state-apply flag the completion event carries: the recorded
    /// flag, forced to false when finalization runs out of gas. The event
    /// must tell the truth about the final outcome, since it is what the
    /// reconstruction reads the phantom's success from.
    pub open spec fn event_apply_flag(self, s: VmSpec) -> bool {
        self.apply_state && !self.runs_out_of_gas(s)
    }

    /// Finalization: reads the mapped sender's nonce, charges the return
    /// payload's memory cost against gas left plus reserved gas, emits the
    /// completion event, and bumps the nonce. Too little gas turns the
    /// outcome into `OutOfGas` with nothing returned - the completion
    /// event is still emitted, with its flag false, so that every opened
    /// call closes and closes truthfully.
    pub fn exec(self, l: &mut Ledger, logs: &mut Vec<LogEntry>, s: &VmSpec) -> (r: TrapResult<
        GasLeft,
    >)
        requires
            old(l).wf(),
            s.wf(),
            self.resume.params.wf(),
            spec_nonce(*old(l), Space::Ethereum, evm_map_spec(self.resume.params.sender@))
                < u128::MAX,
            self.gas_left + self.resume.gas_retained <= u128::MAX,
        ensures
            final(l).wf(),
            final(l).start_nonce == old(l).start_nonce,
            spec_nonce(*final(l), Space::Ethereum, evm_map_spec(self.resume.params.sender@))
                == spec_nonce(*old(l), Space::Ethereum, evm_map_spec(self.resume.params.sender@))
                + 1,
            forall|sp: Space, a: Seq<u8>|
                !(sp == Space::Ethereum && a == evm_map_spec(self.resume.params.sender@))
                    ==> acct(#[trigger] final(l).entries@, sp, a) == acct(old(l).entries@, sp, a),
            forall|sp: Space, a: Seq<u8>|
                spec_balance(*final(l), sp, a) == spec_balance(*old(l), sp, a),
            forall|sp: Space, a: Seq<u8>|
                spec_code(*final(l), sp, a) == spec_code(*old(l), sp, a),
            lviews(final(logs)@) == lviews(old(logs)@).push(
                return_event_v(
                    spec_nonce(*old(l), Space::Ethereum, evm_map_spec(self.resume.params.sender@)),
                    self.gas_left,
                    self.event_apply_flag(*s),
                ),
            ),
            match self.return_data {
                Result::Err(e) => r == TrapResult::<GasLeft>::Return(Result::Err(e)),
                Result::Ok(data) => {
                    let avail = self.gas_left + self.resume.gas_retained;
                    if avail < spec_return_cost(data@.len(), *s) {
                        r == TrapResult::<GasLeft>::Return(
                            Result::Err(BridgeError::OutOfGas),
                        )
                    } else {
                        r matches TrapResult::Return(Result::Ok(g)) && g.gas_left == avail
                            - spec_return_cost(data@.len(), *s) && g.data == data
                            && g.apply_state == self.apply_state
                    }
                },
            },
    {
        let mapped_sender = evm_map(&self.resume.params.sender);
        let nonce = l.nonce(Space::Ethereum, &mapped_sender.address);
        l.inc_nonce(Space::Ethereum, &mapped_sender.address);
        let avail: u128 = self.gas_left + self.resume.gas_retained;
        let return_cost: u128 = match &self.return_data {
            Result::Ok(data) => {
                let len = data.len();
                let words: u128 = (len as u128 + 31) / 32;
                proof {
                    assert(words <= 0x1000_0000_0000_0000);
                    assert(words * s.memory_gas as u128 <= 0x1000_0000_0000_0000u128
                        * 0x1_0000_0000) by (nonlinear_arith)
                        requires
                            words <= 0x1000_0000_0000_0000,
                            s.memory_gas <= 0x1_0000_0000,
                    ;
                }
                words * s.memory_gas as u128
            },
            Result::Err(_) => 0,
        };
        let out_of_gas: bool = match &self.return_data {
            Result::Ok(_) => avail < return_cost,
            Result::Err(_) => false,
        };
        emit_return_event(logs, nonce, self.gas_left, self.apply_state && !out_of_gas);
        match self.return_data {
            Result::Err(e) => TrapResult::Return(Result::Err(e)),
            Result::Ok(data) => {
                if avail < return_cost {
                    TrapResult::Return(Result::Err(BridgeError::OutOfGas))
                } else {
                    TrapResult::Return(
                        Result::Ok(
                            GasLeft {
                                gas_left: avail - return_cost,
                                data,
                                apply_state: self.apply_state,
                            },
                        ),
                    )
                }
            },
        }
    }
}

fn clone_opt_bytes(o: &Option<Vec<u8>>) -> (r: Option<Vec<u8>>)
    ensures
        opt_view(r) == opt_view(*o),
{
    match o {
        Option::None => Option::None,
        Option::Some(v) => Option::Some(copy_bytes(v)),
    }
}

/// A fresh copy of a frame's parameters.
pub fn clone_params(p: &ActionParams) -> (r: ActionParams)
    ensures
        r@ == p@,
{
    ActionParams {
        space: p.space,
        sender: copy_bytes(&p.sender),
        address: copy_bytes(&p.address),
        code_address: copy_bytes(&p.code_address),
        original_sender: copy_bytes(&p.original_sender),
        storage_owner: copy_bytes(&p.storage_owner),
        value: p.value,
        gas: p.gas,
        gas_price: p.gas_price,
        code: clone_opt_bytes(&p.code),
        code_hash: clone_opt_bytes(&p.code_hash),
        data: clone_opt_bytes(&p.data),
        call_kind: p.call_kind,
        create_kind: p.create_kind,
        params_kind: p.params_kind,
    }
}

/// Builds the sub-frame of a cross-space call, pre-transfers the value to
/// the mapped sender, bumps its nonce, logs a call event for plain calls,
/// and returns the suspension request with the reserved gas.
pub fn call_to_evmcore(
    receiver: &Vec<u8>,
    data: Vec<u8>,
    call_kind: CallKind,
    params: &ActionParams,
    gas_left: u128,
    depth: u64,
    s: &VmSpec,
    l: &mut Ledger,
    logs: &mut Vec<LogEntry>,
) -> (r: Result<ExecTrap, BridgeError>)
    requires
        old(l).wf(),
        s.wf(),
        params.wf(),
        receiver@.len() == 20,
        gas_left + s.call_stipend <= u128::MAX,
        data@.len() + 192 <= usize::MAX,
        depth < s.max_depth ==> spec_balance(*old(l), Space::Native, params.address@)
            >= params.value,
        depth < s.max_depth ==> spec_balance(
            *old(l),
            Space::Ethereum,
            evm_map_spec(params.sender@),
        ) + params.value <= u128::MAX,
        depth < s.max_depth ==> spec_nonce(*old(l), Space::Ethereum, evm_map_spec(params.sender@))
            < u128::MAX,
    ensures
        r is Err <==> depth >= s.max_depth,
        r is Err ==> r == Result::<ExecTrap, BridgeError>::Err(BridgeError::DepthExceeded)
            && *final(l) == *old(l) && final(logs)@ == old(logs)@,
        depth < s.max_depth ==> {
            let mapped_sender = evm_map_spec(params.sender@);
            let old_nonce = spec_nonce(*old(l), Space::Ethereum, mapped_sender);
            let forwarded = spec_forwarded(gas_left, *s, params.value > 0);
            &&& final(l).wf()
            &&& final(l).start_nonce == old(l).start_nonce
            &&& spec_balance(*final(l), Space::Native, params.address@) == spec_balance(
                *old(l),
                Space::Native,
                params.address@,
            ) - params.value
            &&& spec_balance(*final(l), Space::Ethereum, mapped_sender) == spec_balance(
                *old(l),
                Space::Ethereum,
                mapped_sender,
            ) + params.value
            &&& spec_nonce(*final(l), Space::Ethereum, mapped_sender) == old_nonce + 1
            &&& forall|sp: Space, a: Seq<u8>|
                !(sp == Space::Native && a == params.address@) && !(sp == Space::Ethereum && a
                    == mapped_sender) ==> acct(#[trigger] final(l).entries@, sp, a) == acct(
                    old(l).entries@,
                    sp,
                    a,
                )
            &&& forall|sp: Space, a: Seq<u8>|
                !(sp == Space::Ethereum && a == mapped_sender) ==> spec_nonce(*final(l), sp, a)
                    == spec_nonce(*old(l), sp, a)
            &&& forall|sp: Space, a: Seq<u8>|
                spec_code(*final(l), sp, a) == spec_code(*old(l), sp, a)
            &&& (if call_kind == CallKind::Call {
                lviews(final(logs)@) == lviews(old(logs)@).push(
                    call_event_v(
                        mapped_sender,
                        receiver@,
                        params.value,
                        old_nonce,
                        forwarded as u128,
                        data@,
                    ),
                )
            } else {
                final(logs)@ == old(logs)@
            })
            &&& r matches Result::Ok(ExecTrap::Call(np, resume)) && {
                &&& np.space == Space::Ethereum
                &&& np.sender@ == mapped_sender
                &&& np.address@ == receiver@
                &&& np.code_address@ == receiver@
                &&& np.original_sender@ == evm_map_spec(params.original_sender@)
                &&& np.storage_owner@ == mapped_sender
                &&& np.value == params.value
                &&& np.gas as int == forwarded
                &&& np.gas_price == params.gas_price
                &&& opt_view(np.code) == spec_code(*old(l), Space::Ethereum, receiver@)
                &&& (match spec_code(*old(l), Space::Ethereum, receiver@) {
                    Option::None => np.code_hash is None,
                    Option::Some(c) => np.code_hash matches Option::Some(h) && h@ == keccak_of(c),
                })
                &&& np.data matches Option::Some(d) && d@ == data@
                &&& np.call_kind == Option::Some(call_kind)
                &&& np.create_kind is None
                &&& np.params_kind == ParamsKind::Separate
                &&& resume.params@ == params@
                &&& resume.gas_retained as int == spec_reserved(gas_left, *s)
            }
        },
{
    if depth >= s.max_depth {
        return Result::Err(BridgeError::DepthExceeded);
    }
    let (forwarded, reserved) = cross_space_split(gas_left, s, params.value > 0);
    let mapped_sender = evm_map(&params.sender);
    let mapped_origin = evm_map(&params.original_sender);
    l.transfer_balance(
        Space::Native,
        &params.address,
        Space::Ethereum,
        &mapped_sender.address,
        params.value,
    );
    let code = l.code(Space::Ethereum, receiver);
    let code_hash = l.code_hash(Space::Ethereum, receiver);
    let nonce = l.nonce(Space::Ethereum, &mapped_sender.address);
    l.inc_nonce(Space::Ethereum, &mapped_sender.address);
    if call_kind == CallKind::Call {
        emit_call_event(
            logs,
            &mapped_sender.address,
            receiver,
            params.value,
            nonce,
            forwarded,
            &data,
        );
    }
    let next_params = ActionParams {
        space: Space::Ethereum,
        sender: copy_bytes(&mapped_sender.address),
        address: copy_bytes(receiver),
        code_address: copy_bytes(receiver),
        original_sender: mapped_origin.address,
        storage_owner: mapped_sender.address,
        value: params.value,
        gas: forwarded,
        gas_price: params.gas_price,
        code,
        code_hash,
        data: Option::Some(data),
        call_kind: Option::Some(call_kind),
        create_kind: Option::None,
        params_kind: ParamsKind::Separate,
    };
    Result::Ok(
        ExecTrap::Call(next_params, Resume { params: clone_params(params), gas_retained: reserved }),
    )
}

/// Builds the sub-frame of a cross-space creation: same split and
/// pre-transfer as a call, the created address derived from the mapped
/// sender and its nonce (or the salt and init-code hash), and an
/// unconditional create event.
pub fn create_to_evmcore(
    init: Vec<u8>,
    salt: Option<Vec<u8>>,
    params: &ActionParams,
    gas_left: u128,
    depth: u64,
    s: &VmSpec,
    l: &mut Ledger,
    logs: &mut Vec<LogEntry>,
) -> (r: Result<ExecTrap, BridgeError>)
    requires
        old(l).wf(),
        s.wf(),
        params.wf(),
        gas_left + s.call_stipend <= u128::MAX,
        init@.len() + 192 <= usize::MAX,
        depth < s.max_depth ==> spec_balance(*old(l), Space::Native, params.address@)
            >= params.value,
        depth < s.max_depth ==> spec_balance(
            *old(l),
            Space::Ethereum,
            evm_map_spec(params.sender@),
        ) + params.value <= u128::MAX,
        depth < s.max_depth ==> spec_nonce(*old(l), Space::Ethereum, evm_map_spec(params.sender@))
            < u128::MAX,
    ensures
        r is Err <==> depth >= s.max_depth,
        r is Err ==> r == Result::<ExecTrap, BridgeError>::Err(BridgeError::DepthExceeded)
            && *final(l) == *old(l) && final(logs)@ == old(logs)@,
        depth < s.max_depth ==> {
            let mapped_sender = evm_map_spec(params.sender@);
            let old_nonce = spec_nonce(*old(l), Space::Ethereum, mapped_sender);
            let forwarded = spec_forwarded(gas_left, *s, params.value > 0);
            let derived = (match opt_view(salt) {
                Option::None => create_address_spec(mapped_sender, old_nonce),
                Option::Some(sv) => create2_address_spec(mapped_sender, sv, init@),
            });
            &&& final(l).wf()
            &&& final(l).start_nonce == old(l).start_nonce
            &&& spec_balance(*final(l), Space::Native, params.address@) == spec_balance(
                *old(l),
                Space::Native,
                params.address@,
            ) - params.value
            &&& spec_balance(*final(l), Space::Ethereum, mapped_sender) == spec_balance(
                *old(l),
                Space::Ethereum,
                mapped_sender,
            ) + params.value
            &&& spec_nonce(*final(l), Space::Ethereum, mapped_sender) == old_nonce + 1
            &&& forall|sp: Space, a: Seq<u8>|
                !(sp == Space::Native && a == params.address@) && !(sp == Space::Ethereum && a
                    == mapped_sender) ==> acct(#[trigger] final(l).entries@, sp, a) == acct(
                    old(l).entries@,
                    sp,
                    a,
                )
            &&& forall|sp: Space, a: Seq<u8>|
                !(sp == Space::Ethereum && a == mapped_sender) ==> spec_nonce(*final(l), sp, a)
                    == spec_nonce(*old(l), sp, a)
            &&& forall|sp: Space, a: Seq<u8>|
                spec_code(*final(l), sp, a) == spec_code(*old(l), sp, a)
            &&& lviews(final(logs)@) == lviews(old(logs)@).push(
                create_event_v(
                    mapped_sender,
                    derived,
                    params.value,
                    old_nonce,
                    forwarded as u128,
                    init@,
                ),
            )
            &&& r matches Result::Ok(ExecTrap::Create(np, resume)) && {
                &&& np.space == Space::Ethereum
                &&& np.sender@ == mapped_sender
                &&& np.address@ == derived
                &&& np.code_address@ == derived
                &&& np.original_sender@ == evm_map_spec(params.original_sender@)
                &&& np.storage_owner@ == Seq::new(20, |i: int| 0u8)
                &&& np.value == params.value
                &&& np.gas as int == forwarded
                &&& np.gas_price == params.gas_price
                &&& np.code matches Option::Some(c) && c@ == init@
                &&& np.code_hash matches Option::Some(h) && h@ == keccak_of(init@)
                &&& np.data is None
                &&& np.call_kind is None
                &&& np.create_kind == Option::Some(
                    match opt_view(salt) {
                        Option::None => CreateKind::Create,
                        Option::Some(sv) => CreateKind::Create2,
                    },
                )
                &&& np.params_kind == ParamsKind::Embedded
                &&& resume.params@ == params@
                &&& resume.gas_retained as int == spec_reserved(gas_left, *s)
            }
        },
{
    if depth >= s.max_depth {
        return Result::Err(BridgeError::DepthExceeded);
    }
    let (forwarded, reserved) = cross_space_split(gas_left, s, params.value > 0);
    let mapped_sender = evm_map(&params.sender);
    let mapped_origin = evm_map(&params.original_sender);
    l.transfer_balance(
        Space::Native,
        &params.address,
        Space::Ethereum,
        &mapped_sender.address,
        params.value,
    );
    let nonce = l.nonce(Space::Ethereum, &mapped_sender.address);
    let (address, create_kind) = match &salt {
        Option::None => (create_address(&mapped_sender.address, nonce), CreateKind::Create),
        Option::Some(sv) => (
            create2_address(&mapped_sender.address, sv, &init),
            CreateKind::Create2,
        ),
    };
    let code_hash = keccak_bytes(&init);
    l.inc_nonce(Space::Ethereum, &mapped_sender.address);
    emit_create_event(logs, &mapped_sender.address, &address, params.value, nonce, forwarded, &init);
    let next_params = ActionParams {
        space: Space::Ethereum,
        sender: copy_bytes(&mapped_sender.address),
        address: copy_bytes(&address),
        code_address: address,
        original_sender: mapped_origin.address,
        storage_owner: crate::bytes::zero_bytes(20),
        value: params.value,
        gas: forwarded,
        gas_price: params.gas_price,
        code: Option::Some(init),
        code_hash: Option::Some(code_hash),
        data: Option::None,
        call_kind: Option::None,
        create_kind: Option::Some(create_kind),
        params_kind: ParamsKind::Embedded,
    };
    Result::Ok(
        ExecTrap::Create(
            next_params,
            Resume { params: clone_params(params), gas_retained: reserved },
        ),
    )
}

/// Moves value back from the mapped pseudo-account to the native sender,
/// synchronously: no suspension. Fails exactly when the pseudo-account
/// holds less than asked, mutating nothing then; otherwise transfers,
/// bumps the pseudo-account's nonce, and logs a withdraw event.
pub fn withdraw_from_evmcore(
    sender: &Vec<u8>,
    value: u128,
    params: &ActionParams,
    l: &mut Ledger,
    logs: &mut Vec<LogEntry>,
) -> (r: Result<(), BridgeError>)
    requires
        old(l).wf(),
        sender@.len() == 20,
        spec_balance(*old(l), Space::Ethereum, evm_map_spec(sender@)) >= value ==> spec_balance(
            *old(l),
            Space::Native,
            sender@,
        ) + value <= u128::MAX,
        spec_balance(*old(l), Space::Ethereum, evm_map_spec(sender@)) >= value
            ==> spec_nonce(*old(l), Space::Ethereum, evm_map_spec(sender@)) < u128::MAX,
    ensures
        r is Err <==> spec_balance(*old(l), Space::Ethereum, evm_map_spec(sender@)) < value,
        r is Err ==> r == Result::<(), BridgeError>::Err(BridgeError::InsufficientBalance)
            && *final(l) == *old(l) && final(logs)@ == old(logs)@,
        r is Ok ==> {
            let mapped = evm_map_spec(sender@);
            let old_nonce = spec_nonce(*old(l), Space::Ethereum, mapped);
            &&& final(l).wf()
            &&& final(l).start_nonce == old(l).start_nonce
            &&& spec_balance(*final(l), Space::Ethereum, mapped) == spec_balance(
                *old(l),
                Space::Ethereum,
                mapped,
            ) - value
            &&& spec_balance(*final(l), Space::Native, sender@) == spec_balance(
                *old(l),
                Space::Native,
                sender@,
            ) + value
            &&& spec_nonce(*final(l), Space::Ethereum, mapped) == old_nonce + 1
            &&& forall|sp: Space, a: Seq<u8>|
                !(sp == Space::Ethereum && a == mapped) && !(sp == Space::Native && a == sender@)
                    ==> acct(#[trigger] final(l).entries@, sp, a) == acct(old(l).entries@, sp, a)
            &&& forall|sp: Space, a: Seq<u8>|
                !(sp == Space::Ethereum && a == mapped) ==> spec_nonce(*final(l), sp, a)
                    == spec_nonce(*old(l), sp, a)
            &&& forall|sp: Space, a: Seq<u8>|
                spec_code(*final(l), sp, a) == spec_code(*old(l), sp, a)
            &&& lviews(final(logs)@) == lviews(old(logs)@).push(
                withdraw_event_v(mapped, sender@, value, old_nonce),
            )
        },
{
    let mapped = evm_map(sender);
    let balance = l.balance(Space::Ethereum, &mapped.address);
    if balance < value {
        return Result::Err(BridgeError::InsufficientBalance);
    }
    l.transfer_balance(Space::Ethereum, &mapped.address, Space::Native, sender, value);
    let nonce = l.nonce(Space::Ethereum, &mapped.address);
    l.inc_nonce(Space::Ethereum, &mapped.address);
    emit_withdraw_event(logs, &mapped.address, sender, value, nonce);
    Result::Ok(())
}

/// Balance of the pseudo-account standing for a native address.
pub fn mapped_balance(address: &Vec<u8>, l: &Ledger) -> (r: u128)
    requires
        l.wf(),
    ensures
        r == spec_balance(*l, Space::Ethereum, evm_map_spec(address@)),
{
    let mapped = evm_map(address);
    l.balance(Space::Ethereum, &mapped.address)
}

/// Nonce of the pseudo-account standing for a native address.
pub fn mapped_nonce(address: &Vec<u8>, l: &Ledger) -> (r: u128)
    requires
        l.wf(),
    ensures
        r == spec_nonce(*l, Space::Ethereum, evm_map_spec(address@)),
{
    let mapped = evm_map(address);
    l.nonce(Space::Ethereum, &mapped.address)
}

} // verus!
