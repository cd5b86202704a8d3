//! The 2048-bit log bloom filter: each input (emitting address or topic)
//! contributes three bits chosen by its keccak digest, and the bloom of a
//! set of logs is the OR-accrual of every contribution.
use vstd::prelude::*;

use crate::events::{lviews, LogEntry, LogV};
use crate::hashing::{keccak_bytes, keccak_of};

verus! {

pub open spec fn bit_mask(k: nat) -> u8 {
    if k == 0 {
        1
    } else if k == 1 {
        2
    } else if k == 2 {
        4
    } else if k == 3 {
        8
    } else if k == 4 {
        16
    } else if k == 5 {
        32
    } else if k == 6 {
        64
    } else {
        128
    }
}

/// Sets bit `i` of the 256-byte filter.
pub open spec fn set_bloom_bit(b: Seq<u8>, i: nat) -> Seq<u8> {
    b.update((i / 8) as int, b[(i / 8) as int] | bit_mask(i % 8))
}

/// The `j`-th bit index a 32-byte digest selects: the low 11 bits of the
/// big-endian pair of bytes 2j and 2j+1.
pub open spec fn bloom_index(d: Seq<u8>, j: nat) -> nat {
    ((d[2 * j as int] as nat) * 256 + (d[2 * j as int + 1] as nat)) % 2048
}

pub open spec fn accrue_hash(b: Seq<u8>, d: Seq<u8>) -> Seq<u8> {
    set_bloom_bit(set_bloom_bit(set_bloom_bit(b, bloom_index(d, 0)), bloom_index(d, 1)), bloom_index(d, 2))
}

/// Accrues one input's three bits, chosen by its keccak digest.
pub open spec fn accrue_input(b: Seq<u8>, input: Seq<u8>) -> Seq<u8> {
    accrue_hash(b, keccak_of(input))
}

pub open spec fn accrue_topics(b: Seq<u8>, topics: Seq<Seq<u8>>) -> Seq<u8>
    decreases topics.len(),
{
    if topics.len() == 0 {
        b
    } else {
        accrue_input(accrue_topics(b, topics.drop_last()), topics.last())
    }
}

/// One log's contribution: its address, then each topic in order.
pub open spec fn accrue_log(b: Seq<u8>, l: LogV) -> Seq<u8> {
    accrue_topics(accrue_input(b, l.address), l.topics)
}

pub open spec fn zero_bloom() -> Seq<u8> {
    Seq::new(256, |i: int| 0u8)
}

/// The OR-accrual of every log's bloom contribution, in order.
pub open spec fn bloom_of_logs(logs: Seq<LogV>) -> Seq<u8>
    decreases logs.len(),
{
    if logs.len() == 0 {
        zero_bloom()
    } else {
        accrue_log(bloom_of_logs(logs.drop_last()), logs.last())
    }
}

fn set_bit(b: &mut Vec<u8>, i: usize)
    requires
        i < 2048,
        old(b)@.len() == 256,
    ensures
        final(b)@ == set_bloom_bit(old(b)@, i as nat),
        final(b)@.len() == 256,
{
    let byte_i: usize = i / 8;
    let k: usize = i % 8;
    let mask: u8 = if k == 0 {
        1
    } else if k == 1 {
        2
    } else if k == 2 {
        4
    } else if k == 3 {
        8
    } else if k == 4 {
        16
    } else if k == 5 {
        32
    } else if k == 6 {
        64
    } else {
        128
    };
    proof {
        assert(mask == bit_mask((i as nat) % 8));
    }
    let v: u8 = b[byte_i] | mask;
    b.set(byte_i, v);
}

fn accrue_hash_exec(b: &mut Vec<u8>, d: &Vec<u8>)
    requires
        d@.len() == 32,
        old(b)@.len() == 256,
    ensures
        final(b)@ == accrue_hash(old(b)@, d@),
        final(b)@.len() == 256,
{
    let mut j: usize = 0;
    let i0: usize = ((d[0] as usize) * 256 + (d[1] as usize)) % 2048;
    let i1: usize = ((d[2] as usize) * 256 + (d[3] as usize)) % 2048;
    let i2: usize = ((d[4] as usize) * 256 + (d[5] as usize)) % 2048;
    proof {
        assert(i0 as nat == bloom_index(d@, 0));
        assert(i1 as nat == bloom_index(d@, 1));
        assert(i2 as nat == bloom_index(d@, 2));
    }
    set_bit(b, i0);
    set_bit(b, i1);
    set_bit(b, i2);
}

fn accrue_input_exec(b: &mut Vec<u8>, input: &Vec<u8>)
    requires
        old(b)@.len() == 256,
    ensures
        final(b)@ == accrue_input(old(b)@, input@),
        final(b)@.len() == 256,
{
    let d = keccak_bytes(input);
    accrue_hash_exec(b, &d);
}

/// Accrues one log's contribution into the running filter.
pub fn accrue_log_exec(b: &mut Vec<u8>, l: &LogEntry)
    requires
        old(b)@.len() == 256,
    ensures
        final(b)@ == accrue_log(old(b)@, l@),
        final(b)@.len() == 256,
{
    accrue_input_exec(b, &l.address);
    let ghost mid = b@;
    let mut j: usize = 0;
    while j < l.topics.len()
        invariant
            j <= l.topics@.len(),
            b@.len() == 256,
            b@ == accrue_topics(mid, l@.topics.take(j as int)),
            mid == accrue_input(old(b)@, l@.address),
        decreases l.topics@.len() - j,
    {
        proof {
            assert(l@.topics.take(j + 1).drop_last() =~= l@.topics.take(j as int));
            assert(l@.topics.take(j + 1).last() == l@.topics[j as int]);
            assert(l@.topics[j as int] == l.topics@[j as int]@);
        }
        accrue_input_exec(b, &l.topics[j]);
        j = j + 1;
    }
    proof {
        assert(l@.topics.take(l.topics@.len() as int) =~= l@.topics);
    }
}

/// The bloom of a list of logs: the OR-accrual of every contribution.
pub fn bloom_of_logs_exec(logs: &Vec<LogEntry>) -> (r: Vec<u8>)
    ensures
        r@ == bloom_of_logs(lviews(logs@)),
        r@.len() == 256,
{
    let mut b = crate::bytes::zero_bytes(256);
    proof {
        assert(b@ =~= zero_bloom());
        assert(lviews(logs@).take(0) =~= Seq::<LogV>::empty());
    }
    let mut i: usize = 0;
    while i < logs.len()
        invariant
            i <= logs@.len(),
            b@.len() == 256,
            b@ == bloom_of_logs(lviews(logs@).take(i as int)),
        decreases logs@.len() - i,
    {
        proof {
            assert(lviews(logs@).take(i + 1).drop_last() =~= lviews(logs@).take(i as int));
            assert(lviews(logs@).take(i + 1).last() == lviews(logs@)[i as int]);
            assert(lviews(logs@)[i as int] == logs@[i as int]@);
        }
        accrue_log_exec(&mut b, &logs[i]);
        i = i + 1;
    }
    proof {
        assert(lviews(logs@).take(logs@.len() as int) =~= lviews(logs@));
    }
    b
}

} // verus!
