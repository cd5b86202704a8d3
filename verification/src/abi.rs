//! The tuple encoding used for the bridge's event payloads: 32-byte
//! big-endian words for integers and booleans, and length-prefixed,
//! zero-padded bytes behind a fixed head offset for dynamic data.
use vstd::prelude::*;

use crate::bytes::{append_bytes, copy_range, push_zeros};

verus! {

pub open spec fn pow256(k: nat) -> nat
    decreases k,
{
    if k == 0 {
        1
    } else {
        256 * pow256((k - 1) as nat)
    }
}

/// The `k`-th byte of `x`, counting from the least significant.
pub open spec fn be_byte(x: u128, k: nat) -> u8 {
    ((x as nat / pow256(k)) % 256) as u8
}

/// The 32-byte big-endian word holding `x`.
pub open spec fn be_word(x: u128) -> Seq<u8> {
    Seq::new(32, |i: int| if i < 16 { 0u8 } else { be_byte(x, (31 - i) as nat) })
}

/// The value of a big-endian byte string.
pub open spec fn be_val(s: Seq<u8>) -> nat
    decreases s.len(),
{
    if s.len() == 0 {
        0
    } else {
        (be_val(s.drop_last()) * 256 + s.last()) as nat
    }
}

/// A 32-byte word fits a 128-bit integer when its high half is zero.
pub open spec fn word_fits(s: Seq<u8>) -> bool {
    forall|i: int| 0 <= i < 16 ==> s[i] == 0
}

/// The value a fitting 32-byte word decodes to.
pub open spec fn word_val(s: Seq<u8>) -> nat {
    be_val(s.subrange(16, 32))
}

pub proof fn lemma_pow256_16()
    ensures
        pow256(15) == 0x100_0000_0000_0000_0000_0000_0000_0000,
        pow256(16) == 0x1_0000_0000_0000_0000_0000_0000_0000_0000,
{
    assert(pow256(0) == 1);
    assert(pow256(1) == 0x100);
    assert(pow256(2) == 0x1_0000);
    assert(pow256(3) == 0x100_0000);
    assert(pow256(4) == 0x1_0000_0000);
    assert(pow256(5) == 0x100_0000_0000);
    assert(pow256(6) == 0x1_0000_0000_0000);
    assert(pow256(7) == 0x100_0000_0000_0000);
    assert(pow256(8) == 0x1_0000_0000_0000_0000);
    assert(pow256(9) == 0x100_0000_0000_0000_0000);
    assert(pow256(10) == 0x1_0000_0000_0000_0000_0000);
    assert(pow256(11) == 0x100_0000_0000_0000_0000_0000);
    assert(pow256(12) == 0x1_0000_0000_0000_0000_0000_0000);
    assert(pow256(13) == 0x100_0000_0000_0000_0000_0000_0000);
    assert(pow256(14) == 0x1_0000_0000_0000_0000_0000_0000_0000);
    assert(pow256(15) == 0x100_0000_0000_0000_0000_0000_0000_0000);
    assert(pow256(16) == 0x1_0000_0000_0000_0000_0000_0000_0000_0000);
}

pub proof fn lemma_pow256_pos(k: nat)
    ensures
        pow256(k) >= 1,
    decreases k,
{
    if k > 0 {
        lemma_pow256_pos((k - 1) as nat);
    }
}

pub proof fn lemma_pow256_mono(a: nat, b: nat)
    requires
        a <= b,
    ensures
        pow256(a) <= pow256(b),
    decreases b,
{
    if a < b {
        lemma_pow256_mono(a, (b - 1) as nat);
        lemma_pow256_pos((b - 1) as nat);
        assert(256 * pow256((b - 1) as nat) >= pow256((b - 1) as nat)) by (nonlinear_arith)
            requires
                pow256((b - 1) as nat) >= 0,
        ;
    }
}

pub proof fn lemma_be_val_bound(s: Seq<u8>)
    ensures
        be_val(s) < pow256(s.len()),
    decreases s.len(),
{
    if s.len() == 0 {
    } else {
        lemma_be_val_bound(s.drop_last());
        let p = pow256((s.len() - 1) as nat);
        assert(be_val(s.drop_last()) * 256 <= (p - 1) * 256) by (nonlinear_arith)
            requires
                be_val(s.drop_last()) <= p - 1,
        ;
    }
}

/// The value of the digit string of `x % 256^n`, most significant first.
proof fn lemma_digits_val(x: nat, n: nat)
    ensures
        be_val(Seq::new(n, |i: int| ((x / pow256((n - 1 - i) as nat)) % 256) as u8))
            == x % pow256(n),
    decreases n,
{
    let s = Seq::new(n, |i: int| ((x / pow256((n - 1 - i) as nat)) % 256) as u8);
    if n == 0 {
        assert(x % pow256(0) == 0) by {
            assert(pow256(0) == 1);
        }
    } else {
        let y = x / 256;
        let t = Seq::new((n - 1) as nat, |i: int| ((y / pow256((n - 2 - i) as nat)) % 256) as u8);
        assert forall|i: int| 0 <= i < n - 1 implies s.drop_last()[i] == t[i] by {
            let k = (n - 2 - i) as nat;
            lemma_pow256_pos(k);
            vstd::arithmetic::div_mod::lemma_div_denominator(x as int, 256, pow256(k) as int);
            assert(pow256((k + 1) as nat) == 256 * pow256(k));
            assert((n - 1 - i) as nat == (k + 1) as nat);
        }
        assert(s.drop_last() =~= t);
        lemma_digits_val(y, (n - 1) as nat);
        assert(s.last() == (x / pow256(0)) % 256);
        assert(pow256(0) == 1);
        assert(x / 1 == x);
        let p = pow256((n - 1) as nat);
        lemma_pow256_pos((n - 1) as nat);
        vstd::arithmetic::div_mod::lemma_mod_breakdown(x as int, 256, p as int);
        assert(pow256(n) == 256 * p);
        assert(be_val(s) == ((x / 256) % p) * 256 + x % 256);
        assert(((x / 256) % p) * 256 == 256 * ((x / 256) % p)) by (nonlinear_arith);
    }
}

/// A word encodes exactly the integer it was built from, and fits.
pub proof fn lemma_word_roundtrip(x: u128)
    ensures
        word_fits(be_word(x)),
        word_val(be_word(x)) == x,
        be_word(x).len() == 32,
{
    lemma_pow256_16();
    assert forall|i: int| 0 <= i < 16 implies be_word(x)[i] == 0 by {
        let k = (31 - i) as nat;
        lemma_pow256_mono(16, k);
        vstd::arithmetic::div_mod::lemma_basic_div(x as int, pow256(k) as int);
    }
    let digits = Seq::new(16, |i: int| ((x as nat / pow256((15 - i) as nat)) % 256) as u8);
    assert(be_word(x).subrange(16, 32) =~= digits);
    lemma_digits_val(x as nat, 16);
    vstd::arithmetic::div_mod::lemma_small_mod(x as nat, pow256(16));
}

/// Writes the 32-byte big-endian word holding `x` to the end of `out`.
pub fn append_word(out: &mut Vec<u8>, x: u128)
    ensures
        final(out)@ == old(out)@ + be_word(x),
{
    let ghost base = out@;
    let mut tmp: Vec<u8> = Vec::new();
    let mut y: u128 = x;
    let mut i: usize = 0;
    proof {
        assert(pow256(0) == 1);
    }
    while i < 16
        invariant
            i <= 16,
            tmp@.len() == i,
            y as nat == x as nat / pow256(i as nat),
            forall|j: int| 0 <= j < i ==> tmp@[j] == be_byte(x, j as nat),
        decreases 16 - i,
    {
        tmp.push((y % 256) as u8);
        proof {
            lemma_pow256_pos(i as nat);
            vstd::arithmetic::div_mod::lemma_div_denominator(x as int, pow256(i as nat) as int, 256);
            assert(pow256((i + 1) as nat) == 256 * pow256(i as nat));
            assert(pow256(i as nat) * 256 == 256 * pow256(i as nat)) by (nonlinear_arith);
        }
        y = y / 256;
        i = i + 1;
    }
    let mut k: usize = 0;
    while k < 16
        invariant
            k <= 16,
            out@.len() == base.len() + k,
            out@ == base + Seq::new(k as nat, |i: int| 0u8),
        decreases 16 - k,
    {
        out.push(0);
        proof {
            assert(out@ =~= base + Seq::new((k + 1) as nat, |i: int| 0u8));
        }
        k = k + 1;
    }
    let mut k: usize = 0;
    while k < 16
        invariant
            k <= 16,
            tmp@.len() == 16,
            forall|j: int| 0 <= j < 16 ==> tmp@[j] == be_byte(x, j as nat),
            out@.len() == base.len() + 16 + k,
            out@.subrange(0, base.len() as int) == base,
            forall|j: int| base.len() <= j < base.len() + 16 ==> out@[j] == 0u8,
            forall|j: int| 0 <= j < k ==> #[trigger] out@[base.len() + 16 + j] == tmp@[15 - j],
        decreases 16 - k,
    {
        let b = tmp[15 - k];
        out.push(b);
        proof {
            assert(out@.subrange(0, base.len() as int) =~= base);
        }
        k = k + 1;
    }
    proof {
        assert forall|i: int| 0 <= i < 32 implies out@[base.len() + i] == be_word(x)[i] by {
            if i >= 16 {
                let j = i - 16;
                assert(out@[base.len() + 16 + j] == tmp@[15 - j]);
            }
        }
        assert(out@ =~= base + be_word(x));
    }
}

/// Reads the 32-byte word at `off`; `None` when it does not fit 128 bits.
pub fn decode_word_at(v: &Vec<u8>, off: usize) -> (r: Option<u128>)
    requires
        off + 32 <= v@.len(),
    ensures
        match r {
            Some(x) => word_fits(v@.subrange(off as int, off + 32)) && x as nat == word_val(
                v@.subrange(off as int, off + 32),
            ),
            None => !word_fits(v@.subrange(off as int, off + 32)),
        },
{
    let ghost w = v@.subrange(off as int, off + 32);
    let n: usize = v.len();
    let mut i: usize = 0;
    while i < 16
        invariant
            i <= 16,
            off + 32 <= v@.len(),
            v@.len() == n,
            w == v@.subrange(off as int, off + 32),
            forall|j: int| 0 <= j < i ==> w[j] == 0u8,
        decreases 16 - i,
    {
        if v[off + i] != 0 {
            proof {
                assert(w[i as int] == v@[off + i]);
            }
            return None;
        }
        proof {
            assert(w[i as int] == v@[off + i]);
        }
        i = i + 1;
    }
    proof {
        lemma_pow256_16();
    }
    let mut acc: u128 = 0;
    let mut i: usize = 0;
    while i < 16
        invariant
            i <= 16,
            off + 32 <= v@.len(),
            v@.len() == n,
            w == v@.subrange(off as int, off + 32),
            acc as nat == be_val(w.subrange(16, 16 + i)),
            (acc as nat) < pow256(i as nat),
            pow256(15) == 0x100_0000_0000_0000_0000_0000_0000_0000,
        decreases 16 - i,
    {
        proof {
            lemma_pow256_mono(i as nat, 15);
            assert(w.subrange(16, 16 + i + 1).drop_last() =~= w.subrange(16, 16 + i));
            assert(w.subrange(16, 16 + i + 1).last() == w[16 + i]);
            assert(w[16 + i] == v@[off + 16 + i]);
            assert(acc as nat * 256 + 255 < pow256((i + 1) as nat)) by (nonlinear_arith)
                requires
                    (acc as nat) < pow256(i as nat),
                    pow256((i + 1) as nat) == 256 * pow256(i as nat),
            ;
            lemma_pow256_mono((i + 1) as nat, 16);
            lemma_pow256_16();
        }
        acc = acc * 256 + (v[off + 16 + i] as u128);
        i = i + 1;
    }
    proof {
        assert(w.subrange(16, 32) =~= w.subrange(16, 16 + (i as int)));
    }
    Some(acc)
}

/// Zero bytes that extend `n` bytes of data to a whole number of words.
pub open spec fn pad_len(n: nat) -> nat {
    if n % 32 == 0 {
        0
    } else {
        (32 - n % 32) as nat
    }
}

pub open spec fn padding(n: nat) -> Seq<u8> {
    Seq::new(pad_len(n), |i: int| 0u8)
}

/// Payload of a call or create event: (value, nonce, gas_limit, data),
/// the dynamic data behind a head offset of 128.
pub open spec fn enc_transfer_payload(value: u128, nonce: u128, gas_limit: u128, data: Seq<u8>) -> Seq<u8> {
    be_word(value) + be_word(nonce) + be_word(gas_limit) + be_word(128)
        + be_word(data.len() as u128) + data + padding(data.len())
}

/// Payload of a withdraw event: (value, nonce).
pub open spec fn enc_withdraw_payload(value: u128, nonce: u128) -> Seq<u8> {
    be_word(value) + be_word(nonce)
}

/// Payload of a return event: (nonce, gas_left, success).
pub open spec fn enc_return_payload(nonce: u128, gas_left: u128, success: bool) -> Seq<u8> {
    be_word(nonce) + be_word(gas_left) + be_word(if success { 1 } else { 0 })
}

pub fn encode_transfer_payload(value: u128, nonce: u128, gas_limit: u128, data: &Vec<u8>) -> (r: Vec<u8>)
    requires
        data@.len() + 192 <= usize::MAX,
    ensures
        r@ == enc_transfer_payload(value, nonce, gas_limit, data@),
{
    let mut out: Vec<u8> = Vec::new();
    append_word(&mut out, value);
    append_word(&mut out, nonce);
    append_word(&mut out, gas_limit);
    append_word(&mut out, 128);
    append_word(&mut out, data.len() as u128);
    append_bytes(&mut out, data);
    let rem: usize = data.len() % 32;
    let pad: usize = if rem == 0 {
        0
    } else {
        32 - rem
    };
    push_zeros(&mut out, pad);
    proof {
        assert(out@ =~= enc_transfer_payload(value, nonce, gas_limit, data@));
    }
    out
}

pub fn encode_withdraw_payload(value: u128, nonce: u128) -> (r: Vec<u8>)
    ensures
        r@ == enc_withdraw_payload(value, nonce),
{
    let mut out: Vec<u8> = Vec::new();
    append_word(&mut out, value);
    append_word(&mut out, nonce);
    proof {
        assert(out@ =~= enc_withdraw_payload(value, nonce));
    }
    out
}

pub fn encode_return_payload(nonce: u128, gas_left: u128, success: bool) -> (r: Vec<u8>)
    ensures
        r@ == enc_return_payload(nonce, gas_left, success),
{
    let mut out: Vec<u8> = Vec::new();
    append_word(&mut out, nonce);
    append_word(&mut out, gas_left);
    append_word(&mut out, if success { 1 } else { 0 });
    proof {
        assert(out@ =~= enc_return_payload(nonce, gas_left, success));
    }
    out
}

/// A dynamic byte string as a standalone encoded value: head offset, then
/// length, then the padded bytes.
pub open spec fn enc_bytes(data: Seq<u8>) -> Seq<u8> {
    be_word(32) + be_word(data.len() as u128) + data + padding(data.len())
}

/// A fixed 20-byte string as one encoded word, left-aligned.
pub open spec fn enc_bytes20(a: Seq<u8>) -> Seq<u8> {
    a + Seq::new(12, |i: int| 0u8)
}

pub fn encode_bytes_value(data: &Vec<u8>) -> (r: Vec<u8>)
    requires
        data@.len() + 96 <= usize::MAX,
    ensures
        r@ == enc_bytes(data@),
{
    let mut out: Vec<u8> = Vec::new();
    append_word(&mut out, 32);
    append_word(&mut out, data.len() as u128);
    append_bytes(&mut out, data);
    let rem: usize = data.len() % 32;
    let pad: usize = if rem == 0 {
        0
    } else {
        32 - rem
    };
    push_zeros(&mut out, pad);
    proof {
        assert(out@ =~= enc_bytes(data@));
    }
    out
}

pub fn encode_bytes20_value(a: &Vec<u8>) -> (r: Vec<u8>)
    ensures
        r@ == enc_bytes20(a@),
{
    let mut out = crate::bytes::copy_bytes(a);
    push_zeros(&mut out, 12);
    proof {
        assert(out@ =~= enc_bytes20(a@));
    }
    out
}

/// Decoded form of a call/create payload, when it is well-formed.
pub open spec fn dec_transfer_payload(s: Seq<u8>) -> Option<(u128, u128, u128, Seq<u8>)> {
    if s.len() < 160 {
        None
    } else if !word_fits(s.subrange(0, 32)) || !word_fits(s.subrange(32, 64)) || !word_fits(
        s.subrange(64, 96),
    ) || !word_fits(s.subrange(128, 160)) {
        None
    } else if s.subrange(96, 128) != be_word(128) {
        None
    } else {
        let l = word_val(s.subrange(128, 160));
        if l > usize::MAX as nat || s.len() != 160 + l + pad_len(l) {
            None
        } else {
            Some(
                (
                    word_val(s.subrange(0, 32)) as u128,
                    word_val(s.subrange(32, 64)) as u128,
                    word_val(s.subrange(64, 96)) as u128,
                    s.subrange(160, 160 + (l as int)),
                ),
            )
        }
    }
}

pub open spec fn dec_withdraw_payload(s: Seq<u8>) -> Option<(u128, u128)> {
    if s.len() != 64 {
        None
    } else if !word_fits(s.subrange(0, 32)) || !word_fits(s.subrange(32, 64)) {
        None
    } else {
        Some((word_val(s.subrange(0, 32)) as u128, word_val(s.subrange(32, 64)) as u128))
    }
}

pub open spec fn dec_return_payload(s: Seq<u8>) -> Option<(u128, u128, bool)> {
    if s.len() != 96 {
        None
    } else if !word_fits(s.subrange(0, 32)) || !word_fits(s.subrange(32, 64)) || !word_fits(
        s.subrange(64, 96),
    ) {
        None
    } else {
        let f = word_val(s.subrange(64, 96));
        if f == 0 {
            Some((word_val(s.subrange(0, 32)) as u128, word_val(s.subrange(32, 64)) as u128, false))
        } else if f == 1 {
            Some((word_val(s.subrange(0, 32)) as u128, word_val(s.subrange(32, 64)) as u128, true))
        } else {
            None
        }
    }
}

proof fn lemma_word_val_fits(s: Seq<u8>)
    requires
        s.len() == 32,
    ensures
        word_val(s) < 0x1_0000_0000_0000_0000_0000_0000_0000_0000,
{
    lemma_be_val_bound(s.subrange(16, 32));
    lemma_pow256_16();
}

pub fn decode_transfer_payload(v: &Vec<u8>) -> (r: Option<(u128, u128, u128, Vec<u8>)>)
    ensures
        match r {
            Some(t) => dec_transfer_payload(v@) == Some((t.0, t.1, t.2, t.3@)),
            None => dec_transfer_payload(v@) is None,
        },
{
    if v.len() < 160 {
        return None;
    }
    let w0 = decode_word_at(v, 0);
    let w1 = decode_word_at(v, 32);
    let w2 = decode_word_at(v, 64);
    let w3 = decode_word_at(v, 96);
    let w4 = decode_word_at(v, 128);
    if w0.is_none() || w1.is_none() || w2.is_none() || w4.is_none() {
        return None;
    }
    proof {
        lemma_word_roundtrip(128);
    }
    match w3 {
        None => {
            proof {
                assert(v@.subrange(96, 128) != be_word(128));
            }
            return None;
        },
        Some(off) => {
            if off != 128 {
                proof {
                    if v@.subrange(96, 128) == be_word(128) {
                        assert(word_val(v@.subrange(96, 128)) == 128nat);
                    }
                }
                return None;
            }
            proof {
                let w = v@.subrange(96, 128);
                lemma_word_val_fits(v@.subrange(96, 128));
                assert forall|i: int| 0 <= i < 32 implies w[i] == be_word(128)[i] by {
                    lemma_word_roundtrip(128);
                    if i < 16 {
                    } else {
                        let digits = Seq::new(
                            16,
                            |j: int| ((128nat / pow256((15 - j) as nat)) % 256) as u8,
                        );
                        assert(w.subrange(16, 32) =~= Seq::new(16, |j: int| w[16 + j]));
                        assert(be_word(128).subrange(16, 32) =~= Seq::new(
                            16,
                            |j: int| be_word(128)[16 + j],
                        ));
                        lemma_be_val_injective(w.subrange(16, 32), be_word(128).subrange(16, 32));
                        assert(w[i] == w.subrange(16, 32)[i - 16]);
                    }
                }
                assert(v@.subrange(96, 128) =~= be_word(128));
            }
        },
    }
    let l128 = w4.unwrap();
    if l128 > usize::MAX as u128 {
        return None;
    }
    let l = l128 as usize;
    let rem: usize = l % 32;
    let pad: usize = if rem == 0 {
        0
    } else {
        32 - rem
    };
    if l > usize::MAX - 160 || usize::MAX - 160 - l < pad {
        proof {
            assert(v@.len() <= usize::MAX);
        }
        return None;
    }
    if v.len() != 160 + l + pad {
        return None;
    }
    let data = copy_range(v, 160, 160 + l);
    Some((w0.unwrap(), w1.unwrap(), w2.unwrap(), data))
}

/// Equal big-endian values of equal length mean equal byte strings.
proof fn lemma_be_val_injective(a: Seq<u8>, b: Seq<u8>)
    requires
        a.len() == b.len(),
        be_val(a) == be_val(b),
    ensures
        a == b,
    decreases a.len(),
{
    if a.len() > 0 {
        let va = be_val(a.drop_last());
        let vb = be_val(b.drop_last());
        assert(va * 256 + a.last() == vb * 256 + b.last());
        assert(va == vb && a.last() == b.last()) by (nonlinear_arith)
            requires
                va * 256 + a.last() == vb * 256 + b.last(),
                a.last() < 256,
                b.last() < 256,
                va >= 0,
                vb >= 0,
        ;
        lemma_be_val_injective(a.drop_last(), b.drop_last());
        assert(a =~= a.drop_last().push(a.last()));
        assert(b =~= b.drop_last().push(b.last()));
    }
}

pub fn decode_withdraw_payload(v: &Vec<u8>) -> (r: Option<(u128, u128)>)
    ensures
        dec_withdraw_payload(v@) == r,
{
    if v.len() != 64 {
        return None;
    }
    let w0 = decode_word_at(v, 0);
    let w1 = decode_word_at(v, 32);
    match (w0, w1) {
        (Some(a), Some(b)) => Some((a, b)),
        _ => None,
    }
}

pub fn decode_return_payload(v: &Vec<u8>) -> (r: Option<(u128, u128, bool)>)
    ensures
        dec_return_payload(v@) == r,
{
    if v.len() != 96 {
        return None;
    }
    let w0 = decode_word_at(v, 0);
    let w1 = decode_word_at(v, 32);
    let w2 = decode_word_at(v, 64);
    match (w0, w1, w2) {
        (Some(a), Some(b), Some(f)) => {
            if f == 0 {
                Some((a, b, false))
            } else if f == 1 {
                Some((a, b, true))
            } else {
                None
            }
        },
        _ => None,
    }
}

/// Decoding a freshly encoded call/create payload gives back its fields.
pub proof fn lemma_transfer_payload_roundtrip(value: u128, nonce: u128, gas_limit: u128, data: Seq<u8>)
    requires
        data.len() <= usize::MAX,
    ensures
        dec_transfer_payload(enc_transfer_payload(value, nonce, gas_limit, data))
            == Some((value, nonce, gas_limit, data)),
{
    let s = enc_transfer_payload(value, nonce, gas_limit, data);
    lemma_word_roundtrip(value);
    lemma_word_roundtrip(nonce);
    lemma_word_roundtrip(gas_limit);
    lemma_word_roundtrip(128);
    lemma_word_roundtrip(data.len() as u128);
    assert(s.subrange(0, 32) =~= be_word(value));
    assert(s.subrange(32, 64) =~= be_word(nonce));
    assert(s.subrange(64, 96) =~= be_word(gas_limit));
    assert(s.subrange(96, 128) =~= be_word(128));
    assert(s.subrange(128, 160) =~= be_word(data.len() as u128));
    assert(s.subrange(160, 160 + (data.len() as int)) =~= data);
}

/// Decoding a freshly encoded withdraw payload gives back its fields.
pub proof fn lemma_withdraw_payload_roundtrip(value: u128, nonce: u128)
    ensures
        dec_withdraw_payload(enc_withdraw_payload(value, nonce)) == Some((value, nonce)),
{
    let s = enc_withdraw_payload(value, nonce);
    lemma_word_roundtrip(value);
    lemma_word_roundtrip(nonce);
    assert(s.subrange(0, 32) =~= be_word(value));
    assert(s.subrange(32, 64) =~= be_word(nonce));
}

/// Decoding a freshly encoded return payload gives back its fields.
pub proof fn lemma_return_payload_roundtrip(nonce: u128, gas_left: u128, success: bool)
    ensures
        dec_return_payload(enc_return_payload(nonce, gas_left, success))
            == Some((nonce, gas_left, success)),
{
    let s = enc_return_payload(nonce, gas_left, success);
    lemma_word_roundtrip(nonce);
    lemma_word_roundtrip(gas_left);
    lemma_word_roundtrip(if success { 1 } else { 0 });
    assert(s.subrange(0, 32) =~= be_word(nonce));
    assert(s.subrange(32, 64) =~= be_word(gas_left));
    assert(s.subrange(64, 96) =~= be_word(if success { 1 } else { 0 }));
}

} // verus!
