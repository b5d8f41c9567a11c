//! Byte-level helpers: little-endian integers, length-prefixed fields, constant-time equality.
use vstd::arithmetic::div_mod::lemma_div_denominator;
use vstd::arithmetic::power::{lemma_pow0, lemma_pow1, lemma_pow_adds, lemma_pow_positive, pow};
use vstd::prelude::*;

verus! {

/// The `n` low-order bytes of `v`, least significant first.
pub open spec fn le_bytes(v: nat, n: nat) -> Seq<u8>
    decreases n,
{
    if n == 0 {
        Seq::empty()
    } else {
        seq![(v % 256) as u8] + le_bytes(v / 256, (n - 1) as nat)
    }
}

/// The integer whose little-endian bytes are `s`.
pub open spec fn le_value(s: Seq<u8>) -> nat
    decreases s.len(),
{
    if s.len() == 0 {
        0
    } else {
        s[0] as nat + 256 * le_value(s.skip(1))
    }
}

/// A variable-length field as it is written: a four-byte length, then the bytes.
pub open spec fn var_bytes(field: Seq<u8>) -> Seq<u8> {
    le_bytes(field.len(), 4) + field
}

pub proof fn lemma_le_bytes_len(v: nat, n: nat)
    ensures
        le_bytes(v, n).len() == n,
    decreases n,
{
    if n > 0 {
        lemma_le_bytes_len(v / 256, (n - 1) as nat);
    }
}

/// Reading back the little-endian bytes of an integer that fits gives the integer.
pub proof fn lemma_le_value_of_bytes(v: nat, n: nat)
    requires
        v < pow(256, n),
    ensures
        le_value(le_bytes(v, n)) == v,
    decreases n,
{
    if n == 0 {
        lemma_pow0(256);
    } else {
        let m = (n - 1) as nat;
        lemma_pow1(256);
        lemma_pow_adds(256, 1, m);
        assert(pow(256, n) == 256 * pow(256, m));
        assert(v / 256 < pow(256, m)) by (nonlinear_arith)
            requires
                v < 256 * pow(256, m),
        ;
        lemma_le_value_of_bytes(v / 256, m);
        assert(le_bytes(v, n).skip(1) =~= le_bytes(v / 256, m));
    }
}

/// Two integers that fit have the same little-endian bytes only if they are equal.
pub proof fn lemma_le_bytes_injective(a: nat, b: nat, n: nat)
    requires
        a < pow(256, n),
        b < pow(256, n),
        le_bytes(a, n) == le_bytes(b, n),
    ensures
        a == b,
{
    lemma_le_value_of_bytes(a, n);
    lemma_le_value_of_bytes(b, n);
}

pub proof fn lemma_pow256()
    ensures
        pow(256, 2) == 0x1_0000,
        pow(256, 4) == 0x1_0000_0000,
        pow(256, 8) == 0x1_0000_0000_0000_0000,
{
    lemma_pow1(256);
    lemma_pow_adds(256, 1, 1);
    assert(pow(256, 2) == 0x1_0000);
    lemma_pow_adds(256, 2, 2);
    assert(pow(256, 4) == 0x1_0000 * 0x1_0000);
    lemma_pow_adds(256, 4, 4);
    assert(pow(256, 8) == 0x1_0000_0000 * 0x1_0000_0000);
}

/// Length-prefixed fields are prefix-free: whatever follows them, two encodings agree only if
/// the fields agree, so a concatenation of such fields has one reading.
pub proof fn lemma_var_bytes_prefix_free(a: Seq<u8>, rest_a: Seq<u8>, b: Seq<u8>, rest_b: Seq<u8>)
    requires
        a.len() <= u32::MAX,
        b.len() <= u32::MAX,
        var_bytes(a) + rest_a == var_bytes(b) + rest_b,
    ensures
        a == b,
        rest_a == rest_b,
{
    let left = var_bytes(a) + rest_a;
    let right = var_bytes(b) + rest_b;
    lemma_le_bytes_len(a.len(), 4);
    lemma_le_bytes_len(b.len(), 4);
    lemma_pow256();
    assert(left.take(4) =~= le_bytes(a.len(), 4));
    assert(right.take(4) =~= le_bytes(b.len(), 4));
    lemma_le_bytes_injective(a.len(), b.len(), 4);
    assert(left.subrange(4, 4 + a.len() as int) =~= a);
    assert(right.subrange(4, 4 + b.len() as int) =~= b);
    assert(left.skip(4 + a.len() as int) =~= rest_a);
    assert(right.skip(4 + b.len() as int) =~= rest_b);
}

/// Appends `bytes` to `buf`.
pub fn append(buf: &mut Vec<u8>, bytes: &[u8])
    ensures
        final(buf)@ == old(buf)@ + bytes@,
{
    buf.extend_from_slice(bytes);
    assert(buf@ =~= old(buf)@ + bytes@);
}

/// The `n` low-order bytes do not see what stands above them.
pub proof fn lemma_le_bytes_low(w: nat, q: nat, n: nat)
    ensures
        le_bytes((w + pow(256, n) * q) as nat, n) == le_bytes(w, n),
    decreases n,
{
    lemma_pow_positive(256, n);
    assert(pow(256, n) * q >= 0) by (nonlinear_arith)
        requires
            pow(256, n) > 0,
    ;
    if n > 0 {
        let m = (n - 1) as nat;
        let t = pow(256, m) * q;
        lemma_pow1(256);
        lemma_pow_adds(256, 1, m);
        assert(pow(256, n) * q == 256 * t) by (nonlinear_arith)
            requires
                pow(256, n) == 256 * pow(256, m),
                t == pow(256, m) * q,
        ;
        let v = (w + 256 * t) as nat;
        assert(v % 256 == w % 256);
        assert(v / 256 == w / 256 + t);
        lemma_le_bytes_low(w / 256, q, m);
    }
}

/// The four-byte little-endian length of `bytes`.
pub fn length_le(bytes: &[u8]) -> (prefix: [u8; 4])
    ensures
        prefix@ == le_bytes(bytes@.len(), 4),
{
    proof {
        let n = bytes@.len();
        lemma_pow256();
        lemma_le_bytes_low(n % 0x1_0000_0000, n / 0x1_0000_0000, 4);
    }
    u32_le((bytes.len() as u64 % 0x1_0000_0000) as u32)
}

/// Appends a variable-length field to `buf` behind a four-byte little-endian length.
///
/// The prefix has four bytes, not two: a deep tree proof can exceed what two bytes count, and a
/// truncating prefix would give distinct fields one encoding.
pub fn push_var(buf: &mut Vec<u8>, field: &[u8])
    ensures
        final(buf)@ == old(buf)@ + var_bytes(field@),
{
    let prefix: [u8; 4] = length_le(field);
    append(buf, prefix.as_slice());
    append(buf, field);
    assert(buf@ =~= old(buf)@ + var_bytes(field@));
}

/// Equality of two 32-byte values, in a time that does not depend on where they differ.
pub fn ct_eq_32(a: &[u8; 32], b: &[u8; 32]) -> (equal: bool)
    ensures
        equal == (a@ == b@),
{
    let mut diff: u8 = 0;
    for i in 0..32usize
        invariant
            diff == 0 <==> forall|j: int| 0 <= j < i ==> a@[j] == b@[j],
    {
        let x: u8 = a[i];
        let y: u8 = b[i];
        assert((diff | (x ^ y)) == 0 <==> diff == 0 && x == y) by (bit_vector);
        diff = diff | (x ^ y);
    }
    assert(diff == 0 ==> a@ =~= b@);
    diff == 0
}

/// The 32 bytes of a slice of that length.
pub fn to_array_32(s: &[u8]) -> (a: [u8; 32])
    requires
        s@.len() == 32,
    ensures
        a@ == s@,
{
    let mut a: [u8; 32] = [0u8; 32];
    for i in 0..32usize
        invariant
            s@.len() == 32,
            forall|j: int| 0 <= j < i ==> a@[j] == s@[j],
    {
        a[i] = s[i];
    }
    assert(a@ =~= s@);
    a
}

/// Little-endian bytes of a 16-bit integer.
pub fn u16_le(v: u16) -> (bytes: [u8; 2])
    ensures
        bytes@ == le_bytes(v as nat, 2),
{
    let bytes: [u8; 2] = [(v % 256) as u8, (v / 256) as u8];
    proof {
        reveal_with_fuel(le_bytes, 3);
        assert(bytes@ =~= le_bytes(v as nat, 2));
    }
    bytes
}

/// Little-endian bytes of a 32-bit integer.
pub fn u32_le(v: u32) -> (bytes: [u8; 4])
    ensures
        bytes@ == le_bytes(v as nat, 4),
{
    let v1: u32 = v / 256;
    let v2: u32 = v1 / 256;
    let v3: u32 = v2 / 256;
    let bytes: [u8; 4] = [(v % 256) as u8, (v1 % 256) as u8, (v2 % 256) as u8, v3 as u8];
    proof {
        reveal_with_fuel(le_bytes, 5);
        assert(bytes@ =~= le_bytes(v as nat, 4));
    }
    bytes
}

/// The 32-bit integer of four little-endian bytes.
pub fn u32_of_le(b: &[u8]) -> (v: u32)
    requires
        b@.len() == 4,
    ensures
        v == le_value(b@),
{
    proof {
        reveal_with_fuel(le_value, 5);
        assert(b@.skip(1).skip(1) =~= b@.skip(2));
        assert(b@.skip(2).skip(1) =~= b@.skip(3));
        assert(b@.skip(3).skip(1) =~= b@.skip(4));
    }
    b[0] as u32 + 256 * (b[1] as u32 + 256 * (b[2] as u32 + 256 * (b[3] as u32)))
}

/// Little-endian bytes of a 64-bit integer.
pub fn u64_le(v: u64) -> (bytes: [u8; 8])
    ensures
        bytes@ == le_bytes(v as nat, 8),
{
    let v1: u64 = v / 256;
    let v2: u64 = v1 / 256;
    let v3: u64 = v2 / 256;
    let v4: u64 = v3 / 256;
    let v5: u64 = v4 / 256;
    let v6: u64 = v5 / 256;
    let v7: u64 = v6 / 256;
    let bytes: [u8; 8] = [
        (v % 256) as u8,
        (v1 % 256) as u8,
        (v2 % 256) as u8,
        (v3 % 256) as u8,
        (v4 % 256) as u8,
        (v5 % 256) as u8,
        (v6 % 256) as u8,
        v7 as u8,
    ];
    proof {
        reveal_with_fuel(le_bytes, 9);
        assert(bytes@ =~= le_bytes(v as nat, 8));
    }
    bytes
}

/// The `i`-th little-endian byte of an integer is its `i`-th digit to the base 256.
pub proof fn lemma_le_bytes_digit(v: nat, n: nat, i: nat)
    requires
        i < n,
    ensures
        le_bytes(v, n).len() == n,
        le_bytes(v, n)[i as int] as int == (v as int / pow(256, i)) % 256,
    decreases n,
{
    lemma_le_bytes_len(v, n);
    if i == 0 {
        lemma_pow0(256);
    } else {
        let j = (i - 1) as nat;
        lemma_le_bytes_digit(v / 256, (n - 1) as nat, j);
        lemma_pow1(256);
        lemma_pow_adds(256, 1, j);
        lemma_pow_positive(256, j);
        lemma_div_denominator(v as int, 256, pow(256, j));
        assert(le_bytes(v, n)[i as int] == le_bytes(v / 256, (n - 1) as nat)[j as int]);
    }
}

/// The value of four little-endian bytes.
pub proof fn lemma_le_value_of_four(s: Seq<u8>)
    requires
        s.len() == 4,
    ensures
        le_value(s) == s[0] + 0x100 * s[1] + 0x1_0000 * s[2] + 0x100_0000 * s[3],
{
    reveal_with_fuel(le_value, 5);
    assert(s.skip(1).skip(1) =~= s.skip(2));
    assert(s.skip(2).skip(1) =~= s.skip(3));
    assert(s.skip(3).skip(1) =~= s.skip(4));
}

/// A variable-length field is its bytes behind four bytes, which count them as far as 32 bits can.
pub proof fn lemma_var_bytes_layout(field: Seq<u8>)
    ensures
        var_bytes(field).len() == field.len() + 4,
        var_bytes(field).skip(4) == field,
        forall|i: int|
            0 <= i < 4 ==> #[trigger] var_bytes(field)[i] as int == (field.len() as int / pow(
                256,
                i as nat,
            )) % 256,
        field.len() <= u32::MAX ==> le_value(var_bytes(field).take(4)) == field.len(),
{
    lemma_le_bytes_len(field.len(), 4);
    assert(var_bytes(field).skip(4) =~= field);
    assert(var_bytes(field).take(4) =~= le_bytes(field.len(), 4));
    assert forall|i: int| 0 <= i < 4 implies #[trigger] var_bytes(field)[i] as int == (
    field.len() as int / pow(256, i as nat)) % 256 by {
        lemma_le_bytes_digit(field.len(), 4, i as nat);
    }
    lemma_pow256();
    if field.len() <= u32::MAX {
        lemma_le_value_of_bytes(field.len(), 4);
    }
}

} // verus!
