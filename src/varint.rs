//! Variable-length integers: seven bits per byte, least significant group
//! first, with the high bit of each byte set when another byte follows.
use vstd::prelude::*;

verus! {

/// The encoding of `v`: one byte per seven-bit group, low group first.
pub open spec fn var_u32_bytes(v: nat) -> Seq<u8>
    decreases v,
{
    if v < 128 {
        seq![v as u8]
    } else {
        seq![(v % 128 + 128) as u8] + var_u32_bytes(v / 128)
    }
}

/// Number of bytes in the encoding of `v`.
pub open spec fn var_u32_size(v: nat) -> nat {
    if v < 0x80 {
        1
    } else if v < 0x4000 {
        2
    } else if v < 0x20_0000 {
        3
    } else if v < 0x1000_0000 {
        4
    } else {
        5
    }
}

/// Reads at most `n` groups from the front of `s`: the value and the number
/// of bytes taken, or `None` when no terminating byte comes within `n` bytes.
pub open spec fn var_groups(s: Seq<u8>, n: nat) -> Option<(nat, nat)>
    decreases n,
{
    if n == 0 || s.len() == 0 {
        None
    } else if s[0] < 128 {
        Some((s[0] as nat, 1nat))
    } else {
        match var_groups(s.drop_first(), (n - 1) as nat) {
            Some((v, l)) => Some(((s[0] - 128) as nat + 128 * v, l + 1)),
            None => None,
        }
    }
}

/// Decoding of a `u32` at the front of `s`: at most five bytes, and a value
/// that fits in 32 bits.
pub open spec fn var_u32_decode(s: Seq<u8>) -> Option<(u32, nat)> {
    match var_groups(s, 5) {
        Some((v, l)) => if v < 0x1_0000_0000 {
            Some((v as u32, l))
        } else {
            None
        },
        None => None,
    }
}

pub open spec fn pow128(n: nat) -> nat
    decreases n,
{
    if n == 0 {
        1
    } else {
        128 * pow128((n - 1) as nat)
    }
}

pub proof fn lemma_var_u32_size(v: nat)
    requires
        v < 0x1_0000_0000,
    ensures
        var_u32_bytes(v).len() == var_u32_size(v),
        1 <= var_u32_size(v) <= 5,
    decreases v,
{
    if v >= 128 {
        lemma_var_u32_size(v / 128);
    }
}

/// The groups of an encoding read back as its value and length, whatever
/// bytes follow it.
pub proof fn lemma_var_groups_of_encoding(v: nat, rest: Seq<u8>, n: nat)
    requires
        var_u32_bytes(v).len() <= n,
    ensures
        var_groups(var_u32_bytes(v) + rest, n) == Some((v, var_u32_bytes(v).len())),
    decreases v,
{
    let s = var_u32_bytes(v) + rest;
    if v < 128 {
        assert(s[0] == v as u8);
    } else {
        let tail = var_u32_bytes(v / 128);
        lemma_var_groups_of_encoding(v / 128, rest, (n - 1) as nat);
        assert(s.drop_first() =~= tail + rest);
        assert(s[0] == (v % 128 + 128) as u8);
    }
}

/// A decoded value of `l` groups is below `128^l`.
pub proof fn lemma_var_groups_bound(s: Seq<u8>, n: nat)
    ensures
        var_groups(s, n) matches Some((v, l)) ==> 1 <= l <= n && l <= s.len() && v < pow128(l),
    decreases n,
{
    assert(pow128(1) == 128 * pow128(0));
    if n > 0 && s.len() > 0 && s[0] >= 128 {
        lemma_var_groups_bound(s.drop_first(), (n - 1) as nat);
        if let Some((w, k)) = var_groups(s.drop_first(), (n - 1) as nat) {
            assert(pow128(k + 1) == 128 * pow128(k));
            assert(128 * w <= 128 * (pow128(k) - 1)) by (nonlinear_arith)
                requires
                    w < pow128(k),
            ;
        }
    }
}

/// Decoding an encoding gives back the value and the encoding's length,
/// whatever bytes follow it.
pub proof fn lemma_var_u32_round_trip(v: u32, rest: Seq<u8>)
    ensures
        var_u32_decode(var_u32_bytes(v as nat) + rest) == Some((v, var_u32_size(v as nat))),
{
    lemma_var_u32_size(v as nat);
    lemma_var_groups_of_encoding(v as nat, rest, 5);
}

/// Byte length of the encoding of `value`.
pub fn get_var_u32_size(value: u32) -> (r: usize)
    ensures
        r == var_u32_size(value as nat),
{
    if value < 0x80 {
        1
    } else if value < 0x4000 {
        2
    } else if value < 0x20_0000 {
        3
    } else if value < 0x1000_0000 {
        4
    } else {
        5
    }
}

} // verus!
