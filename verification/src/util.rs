//! Big-endian fixed-width integer reads and writes over byte slices, together
//! with the specification-level theory of big-endian byte strings that the
//! rest of the crate states its contracts in.

use crate::error::{NetFlowError, ParseResult};
use vstd::arithmetic::div_mod::{
    lemma_fundamental_div_mod, lemma_fundamental_div_mod_converse_div,
    lemma_fundamental_div_mod_converse_mod,
};
use vstd::prelude::*;
use vstd::slice::{slice_index_get, slice_subrange};

verus! {

/// 256 raised to the `n`th power: the number of distinct values of an
/// `n`-byte string.
pub open spec fn pow256(n: nat) -> nat
    decreases n,
{
    if n == 0 {
        1
    } else {
        256 * pow256((n - 1) as nat)
    }
}

/// The numeric value of a byte string read as a big-endian integer.
pub open spec fn be_val(s: Seq<u8>) -> nat
    decreases s.len(),
{
    if s.len() == 0 {
        0
    } else {
        (be_val(s.drop_last()) * 256 + s.last()) as nat
    }
}

/// The `n`-byte big-endian encoding of `v % pow256(n)`, most significant
/// byte first.
pub open spec fn be_bytes(v: nat, n: nat) -> Seq<u8>
    decreases n,
{
    if n == 0 {
        Seq::empty()
    } else {
        be_bytes(v / 256, (n - 1) as nat).push((v % 256) as u8)
    }
}

pub proof fn lemma_pow256_pos(n: nat)
    ensures
        pow256(n) >= 1,
    decreases n,
{
    if n > 0 {
        lemma_pow256_pos((n - 1) as nat);
    }
}

pub proof fn lemma_pow256_increases(a: nat, b: nat)
    requires
        a <= b,
    ensures
        pow256(a) <= pow256(b),
    decreases b,
{
    if a < b {
        lemma_pow256_increases(a, (b - 1) as nat);
        lemma_pow256_pos((b - 1) as nat);
    }
}

pub proof fn lemma_be_bytes_len(v: nat, n: nat)
    ensures
        be_bytes(v, n).len() == n,
    decreases n,
{
    if n > 0 {
        lemma_be_bytes_len(v / 256, (n - 1) as nat);
    }
}

/// A byte string's value is bounded by 256 to its length.
pub proof fn lemma_be_val_bound(s: Seq<u8>)
    ensures
        be_val(s) < pow256(s.len()),
    decreases s.len(),
{
    if s.len() > 0 {
        let d = s.drop_last();
        lemma_be_val_bound(d);
        assert(be_val(d) * 256 + s.last() < pow256(d.len()) * 256) by (nonlinear_arith)
            requires
                be_val(d) < pow256(d.len()),
                s.last() < 256,
        ;
    }
}

/// Reading back the `n`-byte encoding of a value below `pow256(n)` yields
/// the value itself.
pub proof fn lemma_be_val_be_bytes(v: nat, n: nat)
    requires
        v < pow256(n),
    ensures
        be_val(be_bytes(v, n)) == v,
    decreases n,
{
    if n > 0 {
        let t = be_bytes(v / 256, (n - 1) as nat);
        let b = (v % 256) as u8;
        assert(v / 256 < pow256((n - 1) as nat)) by (nonlinear_arith)
            requires
                v < 256 * pow256((n - 1) as nat),
        ;
        lemma_be_val_be_bytes(v / 256, (n - 1) as nat);
        assert(t.push(b).drop_last() =~= t);
        assert(be_val(be_bytes(v, n)) == be_val(t) * 256 + b);
        lemma_fundamental_div_mod(v as int, 256);
    }
}

/// Encoding a byte string's value back at any width `m` up to its length
/// reproduces the trailing `m` bytes; at the full length, the whole string.
pub proof fn lemma_be_bytes_of_be_val(s: Seq<u8>, m: nat)
    requires
        m <= s.len(),
    ensures
        be_bytes(be_val(s), m) =~= s.skip(s.len() - m),
    decreases m,
{
    if m > 0 {
        let d = s.drop_last();
        let v = be_val(s);
        lemma_be_val_bound(d);
        lemma_fundamental_div_mod_converse_div(v as int, 256, be_val(d) as int, s.last() as int);
        lemma_fundamental_div_mod_converse_mod(v as int, 256, be_val(d) as int, s.last() as int);
        assert(v / 256 == be_val(d) && v % 256 == s.last());
        lemma_be_bytes_of_be_val(d, (m - 1) as nat);
        assert(be_bytes(v, m) == be_bytes(be_val(d), (m - 1) as nat).push(s.last()));
        lemma_be_bytes_len(be_val(d), (m - 1) as nat);
    }
}

pub proof fn lemma_be_bytes_zero(n: nat)
    ensures
        be_bytes(0, n) =~= Seq::new(n, |i: int| 0u8),
    decreases n,
{
    if n > 0 {
        lemma_be_bytes_zero((n - 1) as nat);
        lemma_be_bytes_len(0, (n - 1) as nat);
    }
}

/// Encoding a byte string's value at a width at least its length prepends
/// zero bytes: the most significant end is padded.
pub proof fn lemma_be_bytes_pad(s: Seq<u8>, m: nat)
    requires
        m >= s.len(),
    ensures
        be_bytes(be_val(s), m) =~= Seq::new((m - s.len()) as nat, |i: int| 0u8) + s,
    decreases s.len(),
{
    if s.len() == 0 {
        lemma_be_bytes_zero(m);
    } else {
        let d = s.drop_last();
        let v = be_val(s);
        lemma_be_val_bound(d);
        lemma_fundamental_div_mod_converse_div(v as int, 256, be_val(d) as int, s.last() as int);
        lemma_fundamental_div_mod_converse_mod(v as int, 256, be_val(d) as int, s.last() as int);
        lemma_be_bytes_pad(d, (m - 1) as nat);
        lemma_be_bytes_len(be_val(d), (m - 1) as nat);
        assert(be_bytes(v, m) == be_bytes(be_val(d), (m - 1) as nat).push(s.last()));
    }
}

/// Reads the first `n` bytes of `data` as a big-endian integer.
pub fn read_be(data: &[u8], n: usize) -> (v: u128)
    requires
        n <= data@.len(),
        n <= 16,
    ensures
        v as nat == be_val(data@.subrange(0, n as int)),
        (v as nat) < pow256(n as nat),
    decreases n,
{
    proof {
        lemma_be_val_bound(data@.subrange(0, n as int));
    }
    if n == 0 {
        assert(data@.subrange(0, 0) =~= Seq::<u8>::empty());
        0
    } else {
        let prev = read_be(data, n - 1);
        let b = *slice_index_get(data, n - 1);
        proof {
            lemma_pow256_increases((n - 1) as nat, 15);
            assert(pow256(16) == 0x100000000000000000000000000000000) by {
                reveal_with_fuel(pow256, 17);
            }
            assert(pow256(16) == 256 * pow256(15));
            assert(prev * 256 + b < pow256(16)) by (nonlinear_arith)
                requires
                    (prev as nat) < pow256(15),
                    b < 256,
                    pow256(16) == 256 * pow256(15),
            ;
            assert(data@.subrange(0, n as int).drop_last() =~= data@.subrange(0, n - 1));
            assert(data@.subrange(0, n as int).last() == data@[n - 1]);
        }
        prev * 256 + (b as u128)
    }
}

/// Writes `v % pow256(n)` as `n` big-endian bytes.
pub fn write_be(v: u128, n: usize) -> (r: Vec<u8>)
    ensures
        r@ == be_bytes(v as nat, n as nat),
        r@.len() == n,
    decreases n,
{
    proof {
        lemma_be_bytes_len(v as nat, n as nat);
    }
    if n == 0 {
        let r: Vec<u8> = Vec::new();
        assert(r@ =~= be_bytes(v as nat, 0));
        r
    } else {
        let mut r = write_be(v / 256, n - 1);
        r.push((v % 256) as u8);
        assert(r@ =~= be_bytes(v as nat, n as nat));
        r
    }
}

/// Reads a big-endian `u16` from the head of `i`, returning the remainder;
/// fails when fewer than 2 bytes remain.
pub fn take_u16(i: &[u8]) -> (r: ParseResult<u16>)
    ensures
        i@.len() >= 2 ==> (r matches Ok((rest, v)) && v as nat == be_val(i@.subrange(0, 2))
            && rest@ == i@.skip(2)),
        i@.len() < 2 ==> (r matches Err(e) && e is UnexpectedIncomplete),
{
    if i.len() < 2 {
        Err(NetFlowError::UnexpectedIncomplete)
    } else {
        let v = read_be(i, 2);
        proof {
            assert(pow256(2) == 0x10000) by {
                reveal_with_fuel(pow256, 3);
            }
            assert(i@.subrange(2, i@.len() as int) =~= i@.skip(2));
        }
        Ok((slice_subrange(i, 2, i.len()), v as u16))
    }
}

/// Reads a big-endian `u32`; fails when fewer than 4 bytes remain.
pub fn take_u32(i: &[u8]) -> (r: ParseResult<u32>)
    ensures
        i@.len() >= 4 ==> (r matches Ok((rest, v)) && v as nat == be_val(i@.subrange(0, 4))
            && rest@ == i@.skip(4)),
        i@.len() < 4 ==> (r matches Err(e) && e is UnexpectedIncomplete),
{
    if i.len() < 4 {
        Err(NetFlowError::UnexpectedIncomplete)
    } else {
        let v = read_be(i, 4);
        proof {
            assert(pow256(4) == 0x100000000) by {
                reveal_with_fuel(pow256, 5);
            }
            assert(i@.subrange(4, i@.len() as int) =~= i@.skip(4));
        }
        Ok((slice_subrange(i, 4, i.len()), v as u32))
    }
}

/// Reads a big-endian `u64`; fails when fewer than 8 bytes remain.
pub fn take_u64(i: &[u8]) -> (r: ParseResult<u64>)
    ensures
        i@.len() >= 8 ==> (r matches Ok((rest, v)) && v as nat == be_val(i@.subrange(0, 8))
            && rest@ == i@.skip(8)),
        i@.len() < 8 ==> (r matches Err(e) && e is UnexpectedIncomplete),
{
    if i.len() < 8 {
        Err(NetFlowError::UnexpectedIncomplete)
    } else {
        let v = read_be(i, 8);
        proof {
            assert(pow256(8) == 0x10000000000000000) by {
                reveal_with_fuel(pow256, 9);
            }
            assert(i@.subrange(8, i@.len() as int) =~= i@.skip(8));
        }
        Ok((slice_subrange(i, 8, i.len()), v as u64))
    }
}

/// Reads a big-endian `u128`; fails when fewer than 16 bytes remain.
pub fn take_u128(i: &[u8]) -> (r: ParseResult<u128>)
    ensures
        i@.len() >= 16 ==> (r matches Ok((rest, v)) && v as nat == be_val(i@.subrange(0, 16))
            && rest@ == i@.skip(16)),
        i@.len() < 16 ==> (r matches Err(e) && e is InvalidLength),
{
    if i.len() < 16 {
        Err(NetFlowError::InvalidLength)
    } else {
        let v = read_be(i, 16);
        proof {
            assert(i@.subrange(16, i@.len() as int) =~= i@.skip(16));
        }
        Ok((slice_subrange(i, 16, i.len()), v))
    }
}

/// The 2-byte big-endian form of a `u16`.
pub fn u16_to_bytes(src: u16) -> (r: Vec<u8>)
    ensures
        r@ == be_bytes(src as nat, 2),
        r@.len() == 2,
{
    write_be(src as u128, 2)
}

/// The 4-byte big-endian form of a `u32`.
pub fn u32_to_bytes(src: u32) -> (r: Vec<u8>)
    ensures
        r@ == be_bytes(src as nat, 4),
        r@.len() == 4,
{
    write_be(src as u128, 4)
}

/// The 8-byte big-endian form of a `u64`.
pub fn u64_to_bytes(src: u64) -> (r: Vec<u8>)
    ensures
        r@ == be_bytes(src as nat, 8),
        r@.len() == 8,
{
    write_be(src as u128, 8)
}

/// The 16-byte big-endian form of a `u128`.
pub fn u128_to_bytes(src: u128) -> (r: Vec<u8>)
    ensures
        r@ == be_bytes(src as nat, 16),
        r@.len() == 16,
{
    write_be(src, 16)
}

} // verus!
