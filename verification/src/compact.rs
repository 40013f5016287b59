//! The compact encoding: a variable-length binary form for unsigned
//! integers, minimal in length for every magnitude.
//!
//! The two lowest bits of the first byte select the form: `0b00` packs a
//! value below `2^6` into the single byte, `0b01` and `0b10` pack values
//! below `2^14` and `2^30` into two and four little-endian bytes, and
//! `0b11` announces `n` little-endian payload bytes, `4 <= n <= 16`, whose
//! count is stored as `n - 4` in the upper six bits. Encoding is total over
//! `u128`; decoding accepts exactly the minimal forms and is the inverse.

use vstd::prelude::*;
use crate::errors::DecodeError;

verus! {

/// `256^n`, the number of values that fit in `n` bytes.
pub open spec fn pow256(n: nat) -> nat
    decreases n,
{
    if n == 0 {
        1
    } else {
        256 * pow256((n - 1) as nat)
    }
}

/// The `n` little-endian bytes of `v` (modulo `256^n`).
pub open spec fn le_bytes(v: nat, n: nat) -> Seq<u8>
    decreases n,
{
    if n == 0 {
        Seq::empty()
    } else {
        seq![(v % 256) as u8] + le_bytes(v / 256, (n - 1) as nat)
    }
}

/// The value of a little-endian byte string.
pub open spec fn le_val(s: Seq<u8>) -> nat
    decreases s.len(),
{
    if s.len() == 0 {
        0
    } else {
        s[0] as nat + 256 * le_val(s.skip(1))
    }
}

/// The least number of bytes that can hold `v`; 1 for `v == 0`.
pub open spec fn byte_len(v: nat) -> nat
    decreases v,
{
    if v < 256 {
        1
    } else {
        1 + byte_len(v / 256)
    }
}

/// The unique minimal-length compact encoding of `v`.
pub open spec fn compact_bytes(v: nat) -> Seq<u8> {
    if v < 64 {
        le_bytes(4 * v, 1)
    } else if v < 16384 {
        le_bytes(4 * v + 1, 2)
    } else if v < 1073741824 {
        le_bytes(4 * v + 2, 4)
    } else {
        seq![(3 + 4 * (byte_len(v) - 4)) as u8] + le_bytes(v, byte_len(v))
    }
}

/// What decoding a compact integer from the front of `s` yields: the value
/// and the number of bytes consumed, or the exact error. Only the minimal
/// form of each value is accepted, and only values below `256^16`.
pub open spec fn compact_decode_spec(s: Seq<u8>) -> Result<(nat, nat), DecodeError> {
    if s.len() == 0 {
        Err(DecodeError::Truncated)
    } else {
        let b = s[0] as nat;
        if b % 4 == 0 {
            Ok((b / 4, 1))
        } else if b % 4 == 1 {
            if s.len() < 2 {
                Err(DecodeError::Truncated)
            } else {
                let w = le_val(s.subrange(0, 2));
                if w / 4 >= 64 {
                    Ok((w / 4, 2))
                } else {
                    Err(DecodeError::NonMinimal)
                }
            }
        } else if b % 4 == 2 {
            if s.len() < 4 {
                Err(DecodeError::Truncated)
            } else {
                let w = le_val(s.subrange(0, 4));
                if w / 4 >= 16384 {
                    Ok((w / 4, 4))
                } else {
                    Err(DecodeError::NonMinimal)
                }
            }
        } else {
            let n = b / 4 + 4;
            if n > 16 {
                Err(DecodeError::ValueTooLarge)
            } else if s.len() < 1 + n {
                Err(DecodeError::Truncated)
            } else {
                let v = le_val(s.subrange(1, 1 + n as int));
                if v >= 1073741824 && v >= pow256((n - 1) as nat) {
                    Ok((v, 1 + n))
                } else {
                    Err(DecodeError::NonMinimal)
                }
            }
        }
    }
}

pub proof fn lemma_pow256_pos(n: nat)
    ensures
        pow256(n) >= 1,
    decreases n,
{
    if n > 0 {
        lemma_pow256_pos((n - 1) as nat);
    }
}

pub proof fn lemma_pow256_mono(m: nat, n: nat)
    requires
        m <= n,
    ensures
        pow256(m) <= pow256(n),
    decreases n,
{
    if m < n {
        lemma_pow256_mono(m, (n - 1) as nat);
        lemma_pow256_pos((n - 1) as nat);
    }
}

/// `256^16` is one more than the largest `u128`.
pub proof fn lemma_pow256_16()
    ensures
        pow256(16) == 0x100000000000000000000000000000000,
{
    reveal_with_fuel(pow256, 17);
}

pub proof fn lemma_le_bytes_len(v: nat, n: nat)
    ensures
        le_bytes(v, n).len() == n,
    decreases n,
{
    if n > 0 {
        lemma_le_bytes_len(v / 256, (n - 1) as nat);
    }
}

/// Reading back the `n` little-endian bytes of `v` yields `v % 256^n`.
pub proof fn lemma_le_val_le_bytes(v: nat, n: nat)
    ensures
        le_val(le_bytes(v, n)) == v % pow256(n),
    decreases n,
{
    lemma_pow256_pos(n);
    if n == 0 {
        assert(v % 1 == 0) by {
            vstd::arithmetic::div_mod::lemma_mod_self_0(1);
            vstd::arithmetic::div_mod::lemma_mod_multiples_basic(v as int, 1);
        }
    } else {
        let m = (n - 1) as nat;
        lemma_pow256_pos(m);
        lemma_le_val_le_bytes(v / 256, m);
        lemma_le_bytes_len(v / 256, m);
        let s = le_bytes(v, n);
        assert(s.skip(1) =~= le_bytes(v / 256, m));
        assert(le_val(s) == (v % 256) + 256 * ((v / 256) % pow256(m)));
        vstd::arithmetic::div_mod::lemma_mod_breakdown(v as int, 256, pow256(m) as int);
        assert(v % (256 * pow256(m)) == 256 * ((v / 256) % pow256(m)) + v % 256);
        assert(256 * pow256(m) == pow256(n));
    }
}

/// A little-endian byte string of length `n` holds a value below `256^n`.
pub proof fn lemma_le_val_bound(s: Seq<u8>)
    ensures
        le_val(s) < pow256(s.len()),
    decreases s.len(),
{
    if s.len() == 0 {
    } else {
        lemma_le_val_bound(s.skip(1));
        assert(le_val(s) == s[0] as nat + 256 * le_val(s.skip(1)));
        assert(256 * le_val(s.skip(1)) <= 256 * (pow256((s.len() - 1) as nat) - 1));
    }
}

/// Re-encoding the value of a byte string gives the byte string back.
pub proof fn lemma_le_bytes_le_val(s: Seq<u8>)
    ensures
        le_bytes(le_val(s), s.len()) == s,
    decreases s.len(),
{
    if s.len() == 0 {
        assert(le_bytes(le_val(s), 0) =~= s);
    } else {
        let rest = s.skip(1);
        lemma_le_bytes_le_val(rest);
        let v = le_val(s);
        assert(v == s[0] as nat + 256 * le_val(rest));
        assert(v % 256 == s[0] as nat && v / 256 == le_val(rest)) by {
            vstd::arithmetic::div_mod::lemma_fundamental_div_mod_converse(
                v as int, 256, le_val(rest) as int, s[0] as int);
        }
        assert(le_bytes(v, s.len()) =~= s);
    }
}

/// `byte_len` is exact: `v` fits in `byte_len(v)` bytes and, unless zero,
/// not in fewer.
pub proof fn lemma_byte_len_bounds(v: nat)
    ensures
        v < pow256(byte_len(v)),
        v >= 1 ==> pow256((byte_len(v) - 1) as nat) <= v,
        byte_len(v) >= 1,
    decreases v,
{
    if v < 256 {
        assert(pow256(1) == 256 * pow256(0));
    } else {
        lemma_byte_len_bounds(v / 256);
        let m = byte_len(v / 256);
        vstd::arithmetic::div_mod::lemma_fundamental_div_mod(v as int, 256);
        assert(v == 256 * (v / 256) + v % 256);
        assert(256 * (v / 256) <= 256 * (pow256(m) - 1));
        assert(v / 256 >= 1);
        assert(256 * (v / 256) >= 256 * pow256((m - 1) as nat));
        assert(pow256(m) == 256 * pow256((m - 1) as nat));
    }
}

pub proof fn lemma_le_bytes_2(w: nat)
    requires
        w < 65536,
    ensures
        le_bytes(w, 2) == seq![(w % 256) as u8, (w / 256) as u8],
{
    reveal_with_fuel(le_bytes, 4);
    vstd::arithmetic::div_mod::lemma_remainder_upper(w as int, 256);
    assert(w / 256 < 256);
    vstd::arithmetic::div_mod::lemma_small_mod(w / 256, 256);
    assert(le_bytes(w, 2) =~= seq![(w % 256) as u8, (w / 256) as u8]);
}

pub proof fn lemma_le_bytes_4(w: nat)
    requires
        w < 0x100000000,
    ensures
        le_bytes(w, 4) == seq![
            (w % 256) as u8,
            ((w / 256) % 256) as u8,
            ((w / 65536) % 256) as u8,
            (w / 16777216) as u8,
        ],
{
    reveal_with_fuel(le_bytes, 6);
    vstd::arithmetic::div_mod::lemma_div_denominator(w as int, 256, 256);
    assert((w / 256) / 256 == w / 65536);
    vstd::arithmetic::div_mod::lemma_div_denominator(w as int, 65536, 256);
    assert((w / 65536) / 256 == w / 16777216);
    assert(w / 16777216 < 256);
    vstd::arithmetic::div_mod::lemma_small_mod(w / 16777216, 256);
    assert(le_bytes(w, 4) =~= seq![
        (w % 256) as u8,
        ((w / 256) % 256) as u8,
        ((w / 65536) % 256) as u8,
        (w / 16777216) as u8,
    ]);
}

pub proof fn lemma_le_val_2(s: Seq<u8>)
    requires
        s.len() == 2,
    ensures
        le_val(s) == s[0] as nat + 256 * (s[1] as nat),
{
    reveal_with_fuel(le_val, 4);
    assert(s.skip(1) =~= seq![s[1]]);
    assert(seq![s[1]].skip(1) =~= Seq::<u8>::empty());
}

pub proof fn lemma_le_val_4(s: Seq<u8>)
    requires
        s.len() == 4,
    ensures
        le_val(s) == s[0] as nat + 256 * (s[1] as nat) + 65536 * (s[2] as nat) + 16777216 * (
        s[3] as nat),
{
    assert(s.skip(1).skip(1) =~= s.skip(2));
    assert(s.skip(2).skip(1) =~= s.skip(3));
    lemma_le_val_2(s.skip(2));
    assert(s.skip(2)[0] == s[2] && s.skip(2)[1] == s[3]);
    assert(le_val(s.skip(1)) == s[1] as nat + 256 * le_val(s.skip(2)));
    assert(le_val(s) == s[0] as nat + 256 * le_val(s.skip(1)));
}

/// Appending the next little-endian byte extends the byte string by one.
pub proof fn lemma_le_bytes_snoc(v: nat, i: nat)
    ensures
        le_bytes(v, i + 1) == le_bytes(v, i).push(((v / pow256(i)) % 256) as u8),
    decreases i,
{
    reveal_with_fuel(le_bytes, 4);
    lemma_pow256_pos(i);
    if i == 0 {
        assert(v / pow256(0) == v) by {
            vstd::arithmetic::div_mod::lemma_div_basics(v as int);
        }
        assert(le_bytes(v, 1) =~= le_bytes(v, 0).push((v % 256) as u8));
    } else {
        lemma_le_bytes_snoc(v / 256, (i - 1) as nat);
        lemma_pow256_pos((i - 1) as nat);
        assert((v / 256) / pow256((i - 1) as nat) == v / pow256(i)) by {
            vstd::arithmetic::div_mod::lemma_div_denominator(
                v as int, 256, pow256((i - 1) as nat) as int);
            assert(256 * pow256((i - 1) as nat) == pow256(i));
        }
        assert(le_bytes(v, i + 1) =~= le_bytes(v, i).push(((v / pow256(i)) % 256) as u8));
    }
}

/// Only one byte count is minimal for a given nonzero value.
pub proof fn lemma_byte_len_unique(v: nat, n: nat)
    requires
        n >= 1,
        pow256((n - 1) as nat) <= v,
        v < pow256(n),
    ensures
        byte_len(v) == n,
{
    lemma_byte_len_bounds(v);
    lemma_pow256_pos((n - 1) as nat);
    let k = byte_len(v);
    if k < n {
        lemma_pow256_mono(k, (n - 1) as nat);
    }
    if k > n {
        lemma_pow256_mono(n, (k - 1) as nat);
    }
}

/// The least number of bytes that can hold `v`.
pub fn byte_len_exec(v: u128) -> (r: usize)
    ensures
        r == byte_len(v as nat),
        1 <= r <= 16,
    decreases v,
{
    if v < 256 {
        1
    } else {
        let sub = byte_len_exec(v / 256);
        proof {
            lemma_byte_len_bounds(v as nat);
            lemma_pow256_16();
            if byte_len(v as nat) > 16 {
                lemma_pow256_mono(16, (byte_len(v as nat) - 1) as nat);
            }
        }
        1 + sub
    }
}

/// `256^n` as a machine value.
pub fn pow256_exec(n: usize) -> (r: u128)
    requires
        n <= 15,
    ensures
        r as nat == pow256(n as nat),
{
    let mut r: u128 = 1;
    let mut i: usize = 0;
    while i < n
        invariant
            i <= n,
            n <= 15,
            r as nat == pow256(i as nat),
        decreases n - i,
    {
        proof {
            reveal_with_fuel(pow256, 17);
            lemma_pow256_mono((i + 1) as nat, 15);
        }
        r = r * 256;
        i += 1;
    }
    r
}

/// Encode `v` in its unique minimal-length compact form.
pub fn compact_encode(v: u128) -> (r: Vec<u8>)
    ensures
        r@ == compact_bytes(v as nat),
{
    let mut r: Vec<u8> = Vec::new();
    if v < 64 {
        r.push((v as u8) * 4);
        proof {
            reveal_with_fuel(le_bytes, 3);
            assert(r@ =~= compact_bytes(v as nat));
        }
    } else if v < 16384 {
        let w: u32 = (v as u32) * 4 + 1;
        r.push((w % 256) as u8);
        r.push((w / 256) as u8);
        proof {
            lemma_le_bytes_2(w as nat);
            assert(r@ =~= compact_bytes(v as nat));
        }
    } else if v < 1073741824 {
        let w: u32 = (v as u32) * 4 + 2;
        r.push((w % 256) as u8);
        r.push(((w / 256) % 256) as u8);
        r.push(((w / 65536) % 256) as u8);
        r.push((w / 16777216) as u8);
        proof {
            lemma_le_bytes_4(w as nat);
            assert(r@ =~= compact_bytes(v as nat));
        }
    } else {
        let ghost v0 = v as nat;
        let n = byte_len_exec(v);
        proof {
            lemma_pow256_16();
            lemma_byte_len_bounds(v as nat);
            reveal_with_fuel(pow256, 5);
            if byte_len(v as nat) < 4 {
                lemma_pow256_mono(byte_len(v as nat), 3);
            }
        }
        let first: u8 = 3 + 4 * ((n as u8) - 4);
        r.push(first);
        let mut cur: u128 = v;
        let mut i: usize = 0;
        proof {
            lemma_pow256_pos(0);
            assert(v0 / pow256(0) == v0) by {
                vstd::arithmetic::div_mod::lemma_div_basics(v0 as int);
            }
            assert(r@ =~= seq![first] + le_bytes(v0, 0));
        }
        while i < n
            invariant
                i <= n,
                4 <= n <= 16,
                n == byte_len(v0),
                v0 < pow256(16),
                cur as nat == v0 / pow256(i as nat),
                r@ == seq![first] + le_bytes(v0, i as nat),
            decreases n - i,
        {
            r.push((cur % 256) as u8);
            proof {
                lemma_le_bytes_snoc(v0, i as nat);
                assert(r@ =~= seq![first] + le_bytes(v0, (i + 1) as nat));
                lemma_pow256_pos(i as nat);
                vstd::arithmetic::div_mod::lemma_div_denominator(
                    v0 as int, pow256(i as nat) as int, 256);
                assert(pow256(i as nat) * 256 == pow256((i + 1) as nat));
            }
            cur = cur / 256;
            i += 1;
        }
        proof {
            assert(first as nat == 3 + 4 * (byte_len(v0) - 4));
            assert(r@ =~= compact_bytes(v0));
        }
    }
    r
}

/// Decode a compact integer from `bytes`, starting at `pos`. Returns the
/// value and the position just past its encoding, or the exact error that
/// `compact_decode_spec` assigns to the input.
pub fn compact_decode(bytes: &Vec<u8>, pos: usize) -> (r: Result<(u128, usize), DecodeError>)
    requires
        pos <= bytes@.len(),
    ensures
        match r {
            Ok((v, end)) => {
                &&& compact_decode_spec(bytes@.skip(pos as int)) == Ok::<(nat, nat), DecodeError>(
                    (v as nat, (end - pos) as nat))
                &&& pos < end <= bytes@.len()
            },
            Err(e) => compact_decode_spec(bytes@.skip(pos as int)) == Err::<(nat, nat), DecodeError>(e),
        },
{
    let ghost s = bytes@.skip(pos as int);
    let avail = bytes.len() - pos;
    if avail == 0 {
        return Err(DecodeError::Truncated);
    }
    let b = bytes[pos];
    proof {
        assert(s[0] == b);
    }
    let m = b % 4;
    if m == 0 {
        Ok(((b / 4) as u128, pos + 1))
    } else if m == 1 {
        if avail < 2 {
            return Err(DecodeError::Truncated);
        }
        let w: u32 = (b as u32) + 256 * (bytes[pos + 1] as u32);
        proof {
            lemma_le_val_2(s.subrange(0, 2));
            assert(s.subrange(0, 2)[0] == b);
            assert(s.subrange(0, 2)[1] == bytes@[pos + 1]);
        }
        let v = w / 4;
        if v >= 64 {
            Ok((v as u128, pos + 2))
        } else {
            Err(DecodeError::NonMinimal)
        }
    } else if m == 2 {
        if avail < 4 {
            return Err(DecodeError::Truncated);
        }
        let w: u32 = (b as u32) + 256 * (bytes[pos + 1] as u32) + 65536 * (bytes[pos + 2] as u32)
            + 16777216 * (bytes[pos + 3] as u32);
        proof {
            lemma_le_val_4(s.subrange(0, 4));
            assert(s.subrange(0, 4)[0] == b);
            assert(s.subrange(0, 4)[1] == bytes@[pos + 1]);
            assert(s.subrange(0, 4)[2] == bytes@[pos + 2]);
            assert(s.subrange(0, 4)[3] == bytes@[pos + 3]);
        }
        let v = w / 4;
        if v >= 16384 {
            Ok((v as u128, pos + 4))
        } else {
            Err(DecodeError::NonMinimal)
        }
    } else {
        let n = (b / 4) as usize + 4;
        if n > 16 {
            return Err(DecodeError::ValueTooLarge);
        }
        if avail < 1 + n {
            return Err(DecodeError::Truncated);
        }
        let ghost p = s.subrange(1, 1 + n as int);
        let mut v: u128 = 0;
        let mut j: usize = n;
        proof {
            assert(p.skip(n as int) =~= Seq::<u8>::empty());
            assert(pos + 1 + n <= bytes.len());
        }
        while j > 0
            invariant
                j <= n <= 16,
                1 + n <= avail == bytes@.len() - pos,
                pos + 1 + n <= bytes@.len(),
                pos + 1 + n <= usize::MAX,
                s == bytes@.skip(pos as int),
                p == s.subrange(1, 1 + n as int),
                v as nat == le_val(p.skip(j as int)),
            decreases j,
        {
            proof {
                lemma_le_val_bound(p.skip(j as int));
                lemma_pow256_mono((n - j + 1) as nat, 16);
                lemma_pow256_16();
                assert(256 * le_val(p.skip(j as int)) <= 256 * (pow256((n - j) as nat) - 1));
                assert(256 * pow256((n - j) as nat) == pow256((n - j + 1) as nat));
            }
            let byte = bytes[pos + j];
            proof {
                assert(p.skip(j - 1).skip(1) =~= p.skip(j as int));
                assert(p.skip(j - 1)[0] == p[j - 1] == s[j as int] == byte);
            }
            v = v * 256 + (byte as u128);
            j = j - 1;
        }
        proof {
            assert(p.skip(0) =~= p);
        }
        if v < 1073741824 {
            return Err(DecodeError::NonMinimal);
        }
        let threshold = pow256_exec(n - 1);
        if v < threshold {
            return Err(DecodeError::NonMinimal);
        }
        Ok((v, pos + 1 + n))
    }
}

/// Decoding recovers exactly what `compact_bytes` produced, whatever bytes
/// follow it.
pub proof fn lemma_compact_round_trip(v: nat, rest: Seq<u8>)
    requires
        v < pow256(16),
    ensures
        compact_decode_spec(compact_bytes(v) + rest) == Ok::<(nat, nat), DecodeError>(
            (v, compact_bytes(v).len())),
{
    reveal_with_fuel(pow256, 5);
    let enc = compact_bytes(v);
    let s = enc + rest;
    if v < 64 {
        reveal_with_fuel(le_bytes, 3);
        assert(enc =~= seq![(4 * v) as u8]);
        assert(s[0] as nat == 4 * v);
        assert((4 * v) % 4 == 0 && (4 * v) / 4 == v) by {
            vstd::arithmetic::div_mod::lemma_fundamental_div_mod_converse(
                4 * v as int, 4, v as int, 0);
        }
    } else if v < 16384 {
        let w = 4 * v + 1;
        lemma_le_bytes_2(w);
        lemma_le_bytes_len(w, 2);
        assert(s.subrange(0, 2) =~= enc);
        lemma_le_val_le_bytes(w, 2);
        vstd::arithmetic::div_mod::lemma_small_mod(w, pow256(2));
        assert(le_val(enc) == w);
        assert(s[0] == enc[0]);
        assert(s[0] as nat == w % 256);
        assert(w % 4 == 1 && w / 4 == v) by {
            vstd::arithmetic::div_mod::lemma_fundamental_div_mod_converse(
                w as int, 4, v as int, 1);
        }
        assert((w % 256) % 4 == w % 4) by {
            vstd::arithmetic::div_mod::lemma_fundamental_div_mod(w as int, 256);
            vstd::arithmetic::div_mod::lemma_mod_multiples_vanish(
                64 * (w / 256) as int, (w % 256) as int, 4);
            assert(4 * (64 * (w / 256)) == 256 * (w / 256));
        }
        assert(s.len() >= 2);
    } else if v < 1073741824 {
        let w = 4 * v + 2;
        lemma_le_bytes_len(w, 4);
        assert(s.subrange(0, 4) =~= enc);
        lemma_le_val_le_bytes(w, 4);
        vstd::arithmetic::div_mod::lemma_small_mod(w, pow256(4));
        assert(le_val(enc) == w);
        assert(s[0] == enc[0]);
        assert(s[0] as nat == w % 256);
        assert(w % 4 == 2 && w / 4 == v) by {
            vstd::arithmetic::div_mod::lemma_fundamental_div_mod_converse(
                w as int, 4, v as int, 2);
        }
        assert((w % 256) % 4 == w % 4) by {
            vstd::arithmetic::div_mod::lemma_fundamental_div_mod(w as int, 256);
            vstd::arithmetic::div_mod::lemma_mod_multiples_vanish(
                64 * (w / 256) as int, (w % 256) as int, 4);
            assert(4 * (64 * (w / 256)) == 256 * (w / 256));
        }
        assert(s.len() >= 4);
    } else {
        let n = byte_len(v);
        lemma_byte_len_bounds(v);
        if n < 4 {
            lemma_pow256_mono(n, 3);
        }
        if n > 16 {
            lemma_pow256_mono(16, (n - 1) as nat);
        }
        assert(4 <= n <= 16);
        lemma_le_bytes_len(v, n);
        let first = (3 + 4 * (n - 4)) as nat;
        assert(first < 256);
        assert(s[0] as nat == first);
        assert(first % 4 == 3 && first / 4 == n - 4) by {
            vstd::arithmetic::div_mod::lemma_fundamental_div_mod_converse(
                first as int, 4, (n - 4) as int, 3);
        }
        assert(s.len() >= 1 + n);
        assert(s.subrange(1, 1 + n as int) =~= le_bytes(v, n));
        lemma_le_val_le_bytes(v, n);
        vstd::arithmetic::div_mod::lemma_small_mod(v, pow256(n));
        assert(le_val(s.subrange(1, 1 + n as int)) == v);
        assert(v >= pow256((n - 1) as nat));
    }
}

/// The compact form is canonical: whenever a value decodes from the front
/// of `s`, the bytes consumed are exactly `compact_bytes` of that value.
/// No other representation of the value — in particular no longer one —
/// is accepted, so the encoder is minimal in length.
pub proof fn lemma_compact_canonical(s: Seq<u8>, v: nat, k: nat)
    requires
        compact_decode_spec(s) == Ok::<(nat, nat), DecodeError>((v, k)),
    ensures
        v < pow256(16),
        k == compact_bytes(v).len(),
        s.subrange(0, k as int) == compact_bytes(v),
{
    reveal_with_fuel(pow256, 5);
    lemma_pow256_16();
    let b = s[0] as nat;
    if b % 4 == 0 {
        assert(v == b / 4 && k == 1);
        assert(b == 4 * (b / 4) + b % 4) by {
            vstd::arithmetic::div_mod::lemma_fundamental_div_mod(b as int, 4);
        }
        assert(v < 64);
        reveal_with_fuel(le_bytes, 3);
        assert(compact_bytes(v) =~= seq![(4 * v) as u8]);
        assert(s.subrange(0, 1) =~= seq![s[0]]);
        lemma_pow256_mono(1, 16);
        lemma_pow256_pos(0);
    } else if b % 4 == 1 {
        let t = s.subrange(0, 2);
        let w = le_val(t);
        assert(v == w / 4 && k == 2);
        lemma_le_val_bound(t);
        assert(w < pow256(2));
        lemma_le_val_2(t);
        assert(w % 4 == 1) by {
            vstd::arithmetic::div_mod::lemma_mod_multiples_vanish(
                64 * (t[1] as int), t[0] as int, 4);
            assert(4 * (64 * (t[1] as int)) == 256 * (t[1] as int));
        }
        assert(w == 4 * v + 1) by {
            vstd::arithmetic::div_mod::lemma_fundamental_div_mod(w as int, 4);
        }
        assert(64 <= v < 16384);
        lemma_le_bytes_le_val(t);
        assert(compact_bytes(v) == le_bytes(w, 2));
        lemma_pow256_mono(2, 16);
    } else if b % 4 == 2 {
        let t = s.subrange(0, 4);
        let w = le_val(t);
        assert(v == w / 4 && k == 4);
        lemma_le_val_bound(t);
        assert(w < pow256(4));
        lemma_le_val_4(t);
        assert(w % 4 == 2) by {
            vstd::arithmetic::div_mod::lemma_mod_multiples_vanish(
                64 * (t[1] as int) + 16384 * (t[2] as int) + 4194304 * (t[3] as int),
                t[0] as int, 4);
            assert(4 * (64 * (t[1] as int) + 16384 * (t[2] as int) + 4194304 * (t[3] as int))
                == 256 * (t[1] as int) + 65536 * (t[2] as int) + 16777216 * (t[3] as int));
        }
        assert(w == 4 * v + 2) by {
            vstd::arithmetic::div_mod::lemma_fundamental_div_mod(w as int, 4);
        }
        assert(16384 <= v < 1073741824);
        lemma_le_bytes_le_val(t);
        assert(compact_bytes(v) == le_bytes(w, 4));
        lemma_pow256_mono(4, 16);
    } else {
        let n = b / 4 + 4;
        assert(n <= 16 && s.len() >= 1 + n);
        let t = s.subrange(1, 1 + n as int);
        assert(v == le_val(t) && k == 1 + n);
        lemma_le_val_bound(t);
        assert(v < pow256(n));
        lemma_pow256_mono(n, 16);
        assert(v >= pow256((n - 1) as nat) && v >= 1073741824);
        lemma_pow256_pos((n - 1) as nat);
        lemma_byte_len_unique(v, n);
        assert(byte_len(v) == n);
        lemma_le_bytes_le_val(t);
        assert(le_bytes(v, n) == t);
        assert(b == 4 * (b / 4) + b % 4) by {
            vstd::arithmetic::div_mod::lemma_fundamental_div_mod(b as int, 4);
        }
        assert(b == 3 + 4 * (n - 4));
        lemma_le_bytes_len(v, n);
        assert(s.subrange(0, k as int) =~= seq![(3 + 4 * (byte_len(v) - 4)) as u8] + le_bytes(
            v, byte_len(v)));
    }
}

/// Two values with the same compact encoding are equal.
pub proof fn lemma_compact_injective(v1: nat, v2: nat)
    requires
        v1 < pow256(16),
        v2 < pow256(16),
        compact_bytes(v1) == compact_bytes(v2),
    ensures
        v1 == v2,
{
    lemma_compact_round_trip(v1, Seq::empty());
    lemma_compact_round_trip(v2, Seq::empty());
    assert(compact_bytes(v1) + Seq::empty() =~= compact_bytes(v1));
    assert(compact_bytes(v2) + Seq::empty() =~= compact_bytes(v2));
}

/// No compact encoding is longer than 17 bytes.
pub proof fn lemma_compact_len_bound(v: nat)
    requires
        v < pow256(16),
    ensures
        1 <= compact_bytes(v).len() <= 17,
{
    if v < 64 {
        lemma_le_bytes_len(4 * v, 1);
    } else if v < 16384 {
        lemma_le_bytes_len(4 * v + 1, 2);
    } else if v < 1073741824 {
        lemma_le_bytes_len(4 * v + 2, 4);
    } else {
        lemma_byte_len_bounds(v);
        if byte_len(v) > 16 {
            lemma_pow256_mono(16, (byte_len(v) - 1) as nat);
        }
        lemma_le_bytes_len(v, byte_len(v));
    }
}

} // verus!
