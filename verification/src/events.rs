//! The structured events the bridge emits: fixed 32-byte signature
//! identifiers, 32-byte-aligned indexed topics, and tuple-encoded payloads,
//! appended in emission order to the enclosing transaction's log.
use vstd::prelude::*;

use crate::abi::{
    enc_return_payload, enc_transfer_payload, enc_withdraw_payload, encode_return_payload,
    encode_transfer_payload, encode_withdraw_payload,
};
use crate::bytes::{copy_bytes, push_zeros};
use crate::types::Space;

verus! {

/// One emitted log: the emitting address and space, the indexed topics,
/// and the opaque payload.
pub struct LogEntry {
    pub address: Vec<u8>,
    pub space: Space,
    pub topics: Vec<Vec<u8>>,
    pub data: Vec<u8>,
}

/// Mathematical image of a log entry.
pub struct LogV {
    pub address: Seq<u8>,
    pub space: Space,
    pub topics: Seq<Seq<u8>>,
    pub data: Seq<u8>,
}

impl View for LogEntry {
    type V = LogV;

    open spec fn view(&self) -> LogV {
        LogV {
            address: self.address@,
            space: self.space,
            topics: self.topics@.map_values(|t: Vec<u8>| t@),
            data: self.data@,
        }
    }
}

/// The images of a sequence of log entries.
pub open spec fn lviews(s: Seq<LogEntry>) -> Seq<LogV> {
    s.map_values(|l: LogEntry| l@)
}

/// A 32-byte signature identifier made of one repeated tag byte.
pub open spec fn sig_of(tag: u8) -> Seq<u8> {
    Seq::new(32, |i: int| tag)
}

pub open spec fn call_sig() -> Seq<u8> {
    sig_of(0x43)
}

pub open spec fn create_sig() -> Seq<u8> {
    sig_of(0x44)
}

pub open spec fn withdraw_sig() -> Seq<u8> {
    sig_of(0x57)
}

pub open spec fn return_sig() -> Seq<u8> {
    sig_of(0x52)
}

/// The reserved address the bridge contract lives at, in the native space.
pub open spec fn bridge_address_spec() -> Seq<u8> {
    Seq::new(
        20,
        |i: int|
            if i == 0 {
                0x08u8
            } else if i == 1 {
                0x88u8
            } else if i == 19 {
                0x06u8
            } else {
                0u8
            },
    )
}

fn make_sig(tag: u8) -> (r: Vec<u8>)
    ensures
        r@ == sig_of(tag),
{
    let mut out: Vec<u8> = Vec::new();
    let mut i: usize = 0;
    while i < 32
        invariant
            i <= 32,
            out@.len() == i,
            forall|j: int| 0 <= j < i ==> out@[j] == tag,
        decreases 32 - i,
    {
        out.push(tag);
        i = i + 1;
    }
    proof {
        assert(out@ =~= sig_of(tag));
    }
    out
}

pub fn call_event_sig() -> (r: Vec<u8>)
    ensures
        r@ == call_sig(),
{
    make_sig(0x43)
}

pub fn create_event_sig() -> (r: Vec<u8>)
    ensures
        r@ == create_sig(),
{
    make_sig(0x44)
}

pub fn withdraw_event_sig() -> (r: Vec<u8>)
    ensures
        r@ == withdraw_sig(),
{
    make_sig(0x57)
}

pub fn return_event_sig() -> (r: Vec<u8>)
    ensures
        r@ == return_sig(),
{
    make_sig(0x52)
}

pub fn bridge_address() -> (r: Vec<u8>)
    ensures
        r@ == bridge_address_spec(),
{
    let mut out: Vec<u8> = Vec::new();
    out.push(0x08);
    out.push(0x88);
    push_zeros(&mut out, 17);
    out.push(0x06);
    proof {
        assert(out@ =~= bridge_address_spec());
    }
    out
}

/// An address as an indexed topic: the 20 bytes, zero-padded to 32.
pub open spec fn topic_of(a: Seq<u8>) -> Seq<u8> {
    a + Seq::new(12, |i: int| 0u8)
}

pub fn make_topic(a: &Vec<u8>) -> (r: Vec<u8>)
    ensures
        r@ == topic_of(a@),
{
    let mut out = copy_bytes(a);
    push_zeros(&mut out, 12);
    out
}

/// The event a logged cross-space call emits, keyed by the mapped sender
/// and receiver, carrying (value, nonce, forwarded gas, input data).
pub open spec fn call_event_v(from: Seq<u8>, to: Seq<u8>, value: u128, nonce: u128, gas_limit: u128, data: Seq<u8>) -> LogV {
    LogV {
        address: bridge_address_spec(),
        space: Space::Native,
        topics: seq![call_sig(), topic_of(from), topic_of(to)],
        data: enc_transfer_payload(value, nonce, gas_limit, data),
    }
}

/// The event a cross-space create emits; same shape as a call event under
/// its own signature, carrying the init code as data.
pub open spec fn create_event_v(from: Seq<u8>, to: Seq<u8>, value: u128, nonce: u128, gas_limit: u128, data: Seq<u8>) -> LogV {
    LogV {
        address: bridge_address_spec(),
        space: Space::Native,
        topics: seq![create_sig(), topic_of(from), topic_of(to)],
        data: enc_transfer_payload(value, nonce, gas_limit, data),
    }
}

/// The event a withdraw emits, keyed by the mapped source account and the
/// native receiver, carrying (value, nonce).
pub open spec fn withdraw_event_v(from: Seq<u8>, to: Seq<u8>, value: u128, nonce: u128) -> LogV {
    LogV {
        address: bridge_address_spec(),
        space: Space::Native,
        topics: seq![withdraw_sig(), topic_of(from), topic_of(to)],
        data: enc_withdraw_payload(value, nonce),
    }
}

/// The completion event, keyed by nothing further, carrying
/// (nonce, gas left, state-apply flag).
pub open spec fn return_event_v(nonce: u128, gas_left: u128, success: bool) -> LogV {
    LogV {
        address: bridge_address_spec(),
        space: Space::Native,
        topics: seq![return_sig()],
        data: enc_return_payload(nonce, gas_left, success),
    }
}

fn push_log(logs: &mut Vec<LogEntry>, le: LogEntry, Ghost(lv): Ghost<LogV>)
    requires
        le@ == lv,
    ensures
        final(logs)@.len() == old(logs)@.len() + 1,
        final(logs)@[old(logs)@.len() as int]@ == lv,
        forall|j: int| 0 <= j < old(logs)@.len() ==> final(logs)@[j] == old(logs)@[j],
        lviews(final(logs)@) == lviews(old(logs)@).push(lv),
    {
        logs.push(le);
        proof {
            assert(lviews(logs@) =~= lviews(old(logs)@).push(lv));
        }
    }

/// Appends a call event built from the given fields.
pub fn emit_call_event(logs: &mut Vec<LogEntry>, from: &Vec<u8>, to: &Vec<u8>, value: u128, nonce: u128, gas_limit: u128, data: &Vec<u8>)
    requires
        data@.len() + 192 <= usize::MAX,
    ensures
        lviews(final(logs)@) == lviews(old(logs)@).push(
            call_event_v(from@, to@, value, nonce, gas_limit, data@),
        ),
{
    let mut topics: Vec<Vec<u8>> = Vec::new();
    topics.push(call_event_sig());
    topics.push(make_topic(from));
    topics.push(make_topic(to));
    let le = LogEntry {
        address: bridge_address(),
        space: Space::Native,
        topics,
        data: encode_transfer_payload(value, nonce, gas_limit, data),
    };
    proof {
        assert(le@.topics =~= call_event_v(from@, to@, value, nonce, gas_limit, data@).topics);
    }
    push_log(logs, le, Ghost(call_event_v(from@, to@, value, nonce, gas_limit, data@)));
}

/// Appends a create event built from the given fields.
pub fn emit_create_event(logs: &mut Vec<LogEntry>, from: &Vec<u8>, to: &Vec<u8>, value: u128, nonce: u128, gas_limit: u128, data: &Vec<u8>)
    requires
        data@.len() + 192 <= usize::MAX,
    ensures
        lviews(final(logs)@) == lviews(old(logs)@).push(
            create_event_v(from@, to@, value, nonce, gas_limit, data@),
        ),
{
    let mut topics: Vec<Vec<u8>> = Vec::new();
    topics.push(create_event_sig());
    topics.push(make_topic(from));
    topics.push(make_topic(to));
    let le = LogEntry {
        address: bridge_address(),
        space: Space::Native,
        topics,
        data: encode_transfer_payload(value, nonce, gas_limit, data),
    };
    proof {
        assert(le@.topics =~= create_event_v(from@, to@, value, nonce, gas_limit, data@).topics);
    }
    push_log(logs, le, Ghost(create_event_v(from@, to@, value, nonce, gas_limit, data@)));
}

/// Appends a withdraw event built from the given fields.
pub fn emit_withdraw_event(logs: &mut Vec<LogEntry>, from: &Vec<u8>, to: &Vec<u8>, value: u128, nonce: u128)
    ensures
        lviews(final(logs)@) == lviews(old(logs)@).push(withdraw_event_v(from@, to@, value, nonce)),
{
    let mut topics: Vec<Vec<u8>> = Vec::new();
    topics.push(withdraw_event_sig());
    topics.push(make_topic(from));
    topics.push(make_topic(to));
    let le = LogEntry {
        address: bridge_address(),
        space: Space::Native,
        topics,
        data: encode_withdraw_payload(value, nonce),
    };
    proof {
        assert(le@.topics =~= withdraw_event_v(from@, to@, value, nonce).topics);
    }
    push_log(logs, le, Ghost(withdraw_event_v(from@, to@, value, nonce)));
}

/// Appends a completion event built from the given fields.
pub fn emit_return_event(logs: &mut Vec<LogEntry>, nonce: u128, gas_left: u128, success: bool)
    ensures
        lviews(final(logs)@) == lviews(old(logs)@).push(return_event_v(nonce, gas_left, success)),
{
    let mut topics: Vec<Vec<u8>> = Vec::new();
    topics.push(return_event_sig());
    let le = LogEntry {
        address: bridge_address(),
        space: Space::Native,
        topics,
        data: encode_return_payload(nonce, gas_left, success),
    };
    proof {
        assert(le@.topics =~= return_event_v(nonce, gas_left, success).topics);
    }
    push_log(logs, le, Ghost(return_event_v(nonce, gas_left, success)));
}

} // verus!
