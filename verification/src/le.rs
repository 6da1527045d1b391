use vstd::prelude::*;

verus! {

/// The unsigned integer that the bytes `s` encode in little-endian order.
pub open spec fn le_value(s: Seq<u8>) -> nat
    decreases s.len(),
{
    if s.len() == 0 {
        0
    } else {
        s[0] as nat + 256 * le_value(s.drop_first())
    }
}

/// `256^n`.
pub open spec fn pow256(n: nat) -> nat
    decreases n,
{
    if n == 0 {
        1
    } else {
        256 * pow256((n - 1) as nat)
    }
}

proof fn lemma_pow256_monotone(a: nat, b: nat)
    requires
        a <= b,
    ensures
        1 <= pow256(a) <= pow256(b),
    decreases b,
{
    if b > 0 {
        if a < b {
            lemma_pow256_monotone(a, (b - 1) as nat);
        } else {
            lemma_pow256_monotone((a - 1) as nat, (b - 1) as nat);
        }
    }
}

/// The `n`-byte little-endian field of `s` at `off`.
pub open spec fn le_field(s: Seq<u8>, off: int, n: int) -> nat {
    le_value(s.subrange(off, off + n))
}

pub open spec fn le_u16(s: Seq<u8>, off: int) -> u16 {
    le_field(s, off, 2) as u16
}

pub open spec fn le_u32(s: Seq<u8>, off: int) -> u32 {
    le_field(s, off, 4) as u32
}

pub open spec fn le_u64(s: Seq<u8>, off: int) -> u64 {
    le_field(s, off, 8) as u64
}

/// The two's-complement `i32` of the 4 bytes at `off`.
pub open spec fn le_i32(s: Seq<u8>, off: int) -> i32 {
    le_u32(s, off) as i32
}

/// The two's-complement `i64` of the 8 bytes at `off`.
pub open spec fn le_i64(s: Seq<u8>, off: int) -> i64 {
    le_u64(s, off) as i64
}

/// Reads the `n`-byte little-endian unsigned field at `off`.
fn read_le(data: &[u8], off: usize, n: usize) -> (r: u64)
    requires
        off + n <= data@.len(),
        n <= 8,
    ensures
        r == le_field(data@, off as int, n as int),
{
    let mut acc: u64 = 0;
    let mut i: usize = n;
    proof {
        assert(data@.subrange(off + n, off + n).len() == 0);
    }
    while i > 0
        invariant
            i <= n <= 8,
            off + n <= data.len(),
            acc == le_value(data@.subrange(off + i, off + n)),
            acc < pow256((n - i) as nat),
        decreases i,
    {
        i = i - 1;
        let b = data[off + i];
        proof {
            let s = data@.subrange(off + i, off + n);
            assert(s.drop_first() =~= data@.subrange(off + i + 1, off + n));
            lemma_pow256_monotone((n - i) as nat, 8);
            reveal_with_fuel(pow256, 9);
            assert(acc * 256 + b < pow256((n - i) as nat)) by (nonlinear_arith)
                requires
                    acc < pow256((n - i - 1) as nat),
                    b < 256,
                    pow256((n - i) as nat) == 256 * pow256((n - i - 1) as nat),
            ;
        }
        acc = acc * 256 + b as u64;
    }
    acc
}

pub fn read_u8(data: &[u8], off: usize) -> (r: u8)
    requires
        off < data@.len(),
    ensures
        r == data@[off as int],
{
    data[off]
}

pub fn read_u16_le(data: &[u8], off: usize) -> (r: u16)
    requires
        off + 2 <= data@.len(),
    ensures
        r == le_u16(data@, off as int),
{
    proof {
        lemma_field_bound(data@, off as int, 2);
    }
    read_le(data, off, 2) as u16
}

pub fn read_u32_le(data: &[u8], off: usize) -> (r: u32)
    requires
        off + 4 <= data@.len(),
    ensures
        r == le_u32(data@, off as int),
{
    proof {
        lemma_field_bound(data@, off as int, 4);
    }
    read_le(data, off, 4) as u32
}

pub fn read_u64_le(data: &[u8], off: usize) -> (r: u64)
    requires
        off + 8 <= data@.len(),
    ensures
        r == le_u64(data@, off as int),
{
    read_le(data, off, 8)
}

pub fn read_i32_le(data: &[u8], off: usize) -> (r: i32)
    requires
        off + 4 <= data@.len(),
    ensures
        r == le_i32(data@, off as int),
{
    read_u32_le(data, off) as i32
}

pub fn read_i64_le(data: &[u8], off: usize) -> (r: i64)
    requires
        off + 8 <= data@.len(),
    ensures
        r == le_i64(data@, off as int),
{
    read_u64_le(data, off) as i64
}

/// An `n`-byte little-endian field is below `256^n`.
pub proof fn lemma_field_bound(s: Seq<u8>, off: int, n: int)
    requires
        0 <= off,
        0 <= n,
        off + n <= s.len(),
    ensures
        le_field(s, off, n) < pow256(n as nat),
        n == 2 ==> le_field(s, off, n) < 0x1_0000,
        n == 4 ==> le_field(s, off, n) < 0x1_0000_0000,
        n == 8 ==> le_field(s, off, n) < 0x1_0000_0000_0000_0000,
{
    lemma_le_value_bound(s.subrange(off, off + n));
    reveal_with_fuel(pow256, 9);
}

proof fn lemma_le_value_bound(s: Seq<u8>)
    ensures
        le_value(s) < pow256(s.len()),
    decreases s.len(),
{
    if s.len() > 0 {
        lemma_le_value_bound(s.drop_first());
        let rest = le_value(s.drop_first());
        let p = pow256((s.len() - 1) as nat);
        assert(s[0] + 256 * rest < 256 * p) by (nonlinear_arith)
            requires
                rest < p,
                s[0] < 256,
        ;
    }
}

/// Copies the 32 bytes at `off`.
pub fn read_bytes32(data: &[u8], off: usize) -> (r: [u8; 32])
    requires
        off + 32 <= data@.len(),
    ensures
        r@ == data@.subrange(off as int, off + 32),
{
    let mut bytes = [0u8; 32];
    let mut i: usize = 0;
    while i < 32
        invariant
            i <= 32,
            off + 32 <= data.len(),
            bytes@.len() == 32,
            forall|j: int| 0 <= j < i ==> bytes@[j] == data@[off + j],
        decreases 32 - i,
    {
        bytes[i] = data[off + i];
        i = i + 1;
    }
    proof {
        assert(bytes@ =~= data@.subrange(off as int, off + 32));
    }
    bytes
}

/// The unsigned value of the 2 bytes at `off`, least significant first.
pub open spec fn bytes_u16(s: Seq<u8>, off: int) -> int {
    s[off] + 0x100 * s[off + 1]
}

/// The unsigned value of the 4 bytes at `off`, least significant first.
pub open spec fn bytes_u32(s: Seq<u8>, off: int) -> int {
    s[off] + 0x100 * s[off + 1] + 0x1_0000 * s[off + 2] + 0x100_0000 * s[off + 3]
}

/// The unsigned value of the 8 bytes at `off`, least significant first.
pub open spec fn bytes_u64(s: Seq<u8>, off: int) -> int {
    bytes_u32(s, off) + 0x1_0000_0000 * bytes_u32(s, off + 4)
}

/// The two's-complement reading of a 64-bit unsigned value.
pub open spec fn signed64(v: int) -> int {
    if v < 0x8000_0000_0000_0000 {
        v
    } else {
        v - 0x1_0000_0000_0000_0000
    }
}

/// The two's-complement reading of a 32-bit unsigned value.
pub open spec fn signed32(v: int) -> int {
    if v < 0x8000_0000 {
        v
    } else {
        v - 0x1_0000_0000
    }
}

proof fn lemma_le_field_step(s: Seq<u8>, off: int, n: int)
    requires
        0 <= off,
        1 <= n,
        off + n <= s.len(),
    ensures
        le_field(s, off, n) == s[off] + 256 * le_field(s, off + 1, n - 1),
{
    assert(s.subrange(off, off + n).drop_first() =~= s.subrange(off + 1, off + n));
}

proof fn lemma_le_field_empty(s: Seq<u8>, off: int)
    requires
        0 <= off <= s.len(),
    ensures
        le_field(s, off, 0) == 0,
{
    assert(s.subrange(off, off) =~= Seq::<u8>::empty());
}

/// Each little-endian field is the byte polynomial, least significant byte first.
pub proof fn law_le_fields(s: Seq<u8>, off: int)
    requires
        0 <= off,
    ensures
        off + 2 <= s.len() ==> le_u16(s, off) == bytes_u16(s, off),
        off + 4 <= s.len() ==> le_u32(s, off) == bytes_u32(s, off),
        off + 4 <= s.len() ==> le_i32(s, off) == signed32(bytes_u32(s, off)),
        off + 8 <= s.len() ==> le_u64(s, off) == bytes_u64(s, off),
        off + 8 <= s.len() ==> le_i64(s, off) == signed64(bytes_u64(s, off)),
{
    if off + 2 <= s.len() {
        lemma_le_field_step(s, off, 2);
        lemma_le_field_step(s, off + 1, 1);
        lemma_le_field_empty(s, off + 2);
        lemma_field_bound(s, off, 2);
    }
    if off + 4 <= s.len() {
        lemma_le_field_step(s, off, 4);
        lemma_le_field_step(s, off + 1, 3);
        lemma_le_field_step(s, off + 2, 2);
        lemma_le_field_step(s, off + 3, 1);
        lemma_le_field_empty(s, off + 4);
        lemma_field_bound(s, off, 4);
        let v = le_u32(s, off);
        assert(v < 0x8000_0000 ==> v as i32 == v) by (bit_vector);
        assert(v >= 0x8000_0000 ==> (v as i32) as int == v as int - 0x1_0000_0000) by (bit_vector);
    }
    if off + 8 <= s.len() {
        lemma_le_field_step(s, off, 8);
        lemma_le_field_step(s, off + 1, 7);
        lemma_le_field_step(s, off + 2, 6);
        lemma_le_field_step(s, off + 3, 5);
        lemma_le_field_step(s, off + 4, 4);
        lemma_le_field_step(s, off + 5, 3);
        lemma_le_field_step(s, off + 6, 2);
        lemma_le_field_step(s, off + 7, 1);
        lemma_le_field_empty(s, off + 8);
        lemma_field_bound(s, off, 8);
        let v = le_u64(s, off);
        assert(v < 0x8000_0000_0000_0000 ==> v as i64 == v) by (bit_vector);
        assert(v >= 0x8000_0000_0000_0000 ==> (v as i64) as int == v as int - 0x1_0000_0000_0000_0000) by (bit_vector);
    }
}

/// A field read inside a slice of `s` is the field of `s` at the shifted offset.
pub proof fn lemma_field_in_subrange(s: Seq<u8>, lo: int, hi: int, a: int, n: int)
    requires
        0 <= lo <= hi <= s.len(),
        0 <= a,
        0 <= n,
        a + n <= hi - lo,
    ensures
        le_field(s.subrange(lo, hi), a, n) == le_field(s, lo + a, n),
        s.subrange(lo, hi).subrange(a, a + n) == s.subrange(lo + a, lo + a + n),
{
    assert(s.subrange(lo, hi).subrange(a, a + n) =~= s.subrange(lo + a, lo + a + n));
}

} // verus!
