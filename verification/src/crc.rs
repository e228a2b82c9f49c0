//! CRC-32 (IEEE 802.3, reflected polynomial 0xEDB88320) as used by NXP packages.

use vstd::prelude::*;
use crate::seqs::u32_bytes;

verus! {

/// The reflected CRC-32 polynomial.
pub const CRC32_POLY: u32 = 0xEDB8_8320;

/// One bit of the shift register: shift right, folding in the polynomial
/// when the bit shifted out is set.
pub open spec fn crc_bit(c: u32) -> u32 {
    if c & 1 != 0 {
        CRC32_POLY ^ (c >> 1)
    } else {
        c >> 1
    }
}

/// Eight bit steps: the register after one byte has been shifted through.
pub open spec fn crc_byte(c: u32) -> u32 {
    crc_bit(crc_bit(crc_bit(crc_bit(crc_bit(crc_bit(crc_bit(crc_bit(c))))))))
}

/// The shift register after `s` has been fed in, starting from all ones.
pub open spec fn crc32_register(s: Seq<u8>) -> u32
    decreases s.len(),
{
    if s.len() == 0 {
        0xFFFF_FFFFu32
    } else {
        crc_byte(crc32_register(s.drop_last()) ^ (s.last() as u32))
    }
}

/// The CRC-32 checksum of `s`: the final register, inverted.
pub open spec fn crc32(s: Seq<u8>) -> u32 {
    !crc32_register(s)
}

/// The register step only sees the low byte of its input; the high bytes
/// are shifted down unchanged. This is what makes a 256-entry table enough.
proof fn lemma_crc_byte_split(c: u32)
    ensures
        crc_byte(c) == crc_byte(c & 0xff) ^ (c >> 8),
{
    assert(crc_byte(c) == crc_byte(c & 0xff) ^ (c >> 8)) by (bit_vector);
}

fn crc_bit_exec(c: u32) -> (r: u32)
    ensures
        r == crc_bit(c),
{
    if c & 1 != 0 {
        CRC32_POLY ^ (c >> 1)
    } else {
        c >> 1
    }
}

/// The lookup table: entry `i` is the register after shifting the byte `i` through.
pub fn crc32_table() -> (t: Vec<u32>)
    ensures
        t@.len() == 256,
        forall|i: int| 0 <= i < 256 ==> #[trigger] t@[i] == crc_byte(i as u32),
{
    let mut t: Vec<u32> = Vec::new();
    let mut i: u32 = 0;
    while i < 256
        invariant
            i <= 256,
            t@.len() == i,
            forall|k: int| 0 <= k < i ==> #[trigger] t@[k] == crc_byte(k as u32),
        decreases 256 - i,
    {
        let mut crc = i;
        crc = crc_bit_exec(crc);
        crc = crc_bit_exec(crc);
        crc = crc_bit_exec(crc);
        crc = crc_bit_exec(crc);
        crc = crc_bit_exec(crc);
        crc = crc_bit_exec(crc);
        crc = crc_bit_exec(crc);
        crc = crc_bit_exec(crc);
        t.push(crc);
        i = i + 1;
    }
    t
}

/// Computes the CRC-32 checksum of `data`.
pub fn crc32_calc(data: &[u8]) -> (r: u32)
    ensures
        r == crc32(data@),
{
    let table = crc32_table();
    let mut crc: u32 = 0xFFFF_FFFF;
    let mut i: usize = 0;
    while i < data.len()
        invariant
            i <= data@.len(),
            table@.len() == 256,
            forall|k: int| 0 <= k < 256 ==> #[trigger] table@[k] == crc_byte(k as u32),
            crc == crc32_register(data@.take(i as int)),
        decreases data@.len() - i,
    {
        let byte = data[i];
        let idx: u32 = (crc ^ (byte as u32)) & 0xff;
        proof {
            lemma_crc_byte_split(crc ^ (byte as u32));
            assert((crc ^ (byte as u32)) >> 8 == crc >> 8) by (bit_vector);
            assert(data@.take(i + 1).drop_last() =~= data@.take(i as int));
            assert(data@.take(i + 1).last() == byte);
            assert(idx < 256) by (bit_vector)
                requires
                    idx == (crc ^ (byte as u32)) & 0xff,
            ;
            assert(table@[idx as int] == crc_byte(idx));
        }
        crc = table[idx as usize] ^ (crc >> 8);
        i = i + 1;
    }
    assert(data@.take(i as int) =~= data@);
    !crc
}

proof fn lemma_crc_bit_injective(a: u32, b: u32)
    ensures
        crc_bit(a) == crc_bit(b) ==> a == b,
{
    assert(crc_bit(a) == crc_bit(b) ==> a == b) by (bit_vector);
}

/// Different registers stay different after a byte is shifted through.
proof fn lemma_crc_byte_injective(a: u32, b: u32)
    ensures
        crc_byte(a) == crc_byte(b) ==> a == b,
{
    lemma_crc_bit_injective(a, b);
    lemma_crc_bit_injective(crc_bit(a), crc_bit(b));
    lemma_crc_bit_injective(crc_bit(crc_bit(a)), crc_bit(crc_bit(b)));
    lemma_crc_bit_injective(crc_bit(crc_bit(crc_bit(a))), crc_bit(crc_bit(crc_bit(b))));
    lemma_crc_bit_injective(
        crc_bit(crc_bit(crc_bit(crc_bit(a)))),
        crc_bit(crc_bit(crc_bit(crc_bit(b)))),
    );
    lemma_crc_bit_injective(
        crc_bit(crc_bit(crc_bit(crc_bit(crc_bit(a))))),
        crc_bit(crc_bit(crc_bit(crc_bit(crc_bit(b))))),
    );
    lemma_crc_bit_injective(
        crc_bit(crc_bit(crc_bit(crc_bit(crc_bit(crc_bit(a)))))),
        crc_bit(crc_bit(crc_bit(crc_bit(crc_bit(crc_bit(b)))))),
    );
    lemma_crc_bit_injective(
        crc_bit(crc_bit(crc_bit(crc_bit(crc_bit(crc_bit(crc_bit(a))))))),
        crc_bit(crc_bit(crc_bit(crc_bit(crc_bit(crc_bit(crc_bit(b))))))),
    );
}

proof fn lemma_register_step(s: Seq<u8>, k: int)
    requires
        0 <= k < s.len(),
    ensures
        crc32_register(s.take(k + 1)) == crc_byte(crc32_register(s.take(k)) ^ (s[k] as u32)),
{
    assert(s.take(k + 1).drop_last() =~= s.take(k));
    assert(s.take(k + 1).last() == s[k]);
}

proof fn lemma_registers_stay_apart(s1: Seq<u8>, s2: Seq<u8>, j: int, k: int)
    requires
        s1.len() == s2.len(),
        0 <= j < k <= s1.len(),
        crc32_register(s1.take(j + 1)) != crc32_register(s2.take(j + 1)),
        forall|m: int| j < m < s1.len() ==> s1[m] == s2[m],
    ensures
        crc32_register(s1.take(k)) != crc32_register(s2.take(k)),
    decreases k - j,
{
    if k > j + 1 {
        lemma_registers_stay_apart(s1, s2, j, k - 1);
        lemma_register_step(s1, k - 1);
        lemma_register_step(s2, k - 1);
        let a = crc32_register(s1.take(k - 1));
        let b = crc32_register(s2.take(k - 1));
        let x = s1[k - 1] as u32;
        lemma_crc_byte_injective(a ^ x, b ^ x);
        assert(a != b ==> a ^ x != b ^ x) by (bit_vector);
    }
}

/// Two byte sequences of the same length that differ in exactly one byte
/// have different CRC-32 checksums.
pub proof fn lemma_crc32_detects_one_byte(s1: Seq<u8>, s2: Seq<u8>, j: int)
    requires
        s1.len() == s2.len(),
        0 <= j < s1.len(),
        s1[j] != s2[j],
        forall|m: int| 0 <= m < s1.len() && m != j ==> s1[m] == s2[m],
    ensures
        crc32(s1) != crc32(s2),
{
    assert(s1.take(j) =~= s2.take(j));
    lemma_register_step(s1, j);
    lemma_register_step(s2, j);
    let r = crc32_register(s1.take(j));
    let x = s1[j] as u32;
    let y = s2[j] as u32;
    assert(x != y);
    lemma_crc_byte_injective(r ^ x, r ^ y);
    assert(x != y ==> r ^ x != r ^ y) by (bit_vector);
    lemma_registers_stay_apart(s1, s2, j, s1.len() as int);
    assert(s1.take(s1.len() as int) =~= s1);
    assert(s2.take(s2.len() as int) =~= s2);
    let a = crc32_register(s1);
    let b = crc32_register(s2);
    assert(a != b ==> !a != !b) by (bit_vector);
}

proof fn lemma_crc_bit_xor(a: u32, b: u32)
    ensures
        crc_bit(a ^ b) == crc_bit(a) ^ crc_bit(b),
{
    assert(crc_bit(a ^ b) == crc_bit(a) ^ crc_bit(b)) by (bit_vector);
}

/// `n` bit steps.
spec fn crc_bits(c: u32, n: nat) -> u32
    decreases n,
{
    if n == 0 {
        c
    } else {
        crc_bit(crc_bits(c, (n - 1) as nat))
    }
}

proof fn lemma_crc_bits_xor(a: u32, b: u32, n: nat)
    ensures
        crc_bits(a ^ b, n) == crc_bits(a, n) ^ crc_bits(b, n),
    decreases n,
{
    if n > 0 {
        lemma_crc_bits_xor(a, b, (n - 1) as nat);
        lemma_crc_bit_xor(crc_bits(a, (n - 1) as nat), crc_bits(b, (n - 1) as nat));
    }
}

/// The register step is linear: it distributes over exclusive or.
proof fn lemma_crc_byte_xor(a: u32, b: u32)
    ensures
        crc_byte(a ^ b) == crc_byte(a) ^ crc_byte(b),
{
    lemma_crc_bits_xor(a, b, 8);
    lemma_crc_bits_byte(a ^ b);
    lemma_crc_bits_byte(a);
    lemma_crc_bits_byte(b);
}

proof fn lemma_crc_bits_byte(c: u32)
    ensures
        crc_bits(c, 8) == crc_byte(c),
{
    reveal_with_fuel(crc_bits, 9);
}

/// A register whose low byte is zero just shifts down one byte.
proof fn lemma_crc_byte_low_zero(x: u32)
    requires
        x & 0xff == 0,
    ensures
        crc_byte(x) == x >> 8,
{
    lemma_crc_byte_split(x);
    assert(crc_bit(0) == 0) by (bit_vector);
    assert(crc_byte(0) == 0);
    assert(0u32 ^ (x >> 8) == x >> 8) by (bit_vector);
}

/// Shifting one byte of the inverted register through the register.
proof fn lemma_residue_byte(r: u32, k: u32, sh: u32, x: u32, byte: u8)
    requires
        sh == 0 || sh == 8 || sh == 16,
        x == (r >> sh) ^ k,
        byte == (((!r) >> sh) & 0xff) as u8,
    ensures
        crc_byte(x ^ (byte as u32)) == (r >> (sh + 8)) ^ crc_byte(k ^ 0xff),
{
    let y = (r >> sh) ^ ((r >> sh) & 0xff);
    assert(x ^ (byte as u32) == y ^ (k ^ 0xff)) by (bit_vector)
        requires
            y == (r >> sh) ^ ((r >> sh) & 0xff),
            sh == 0 || sh == 8 || sh == 16,
            x == (r >> sh) ^ k,
            byte == (((!r) >> sh) & 0xff) as u8,
    ;
    lemma_crc_byte_xor(y, k ^ 0xff);
    assert(y & 0xff == 0) by (bit_vector)
        requires
            y == (r >> sh) ^ ((r >> sh) & 0xff),
    ;
    lemma_crc_byte_low_zero(y);
    assert(y >> 8 == r >> (sh + 8)) by (bit_vector)
        requires
            y == (r >> sh) ^ ((r >> sh) & 0xff),
            sh == 0 || sh == 8 || sh == 16,
    ;
}

/// The CRC-32 of any bytes followed by their own CRC-32 in little-endian
/// order is the constant residue 0x2144DF1C.
pub proof fn lemma_crc32_residue(d: Seq<u8>)
    ensures
        crc32(d + u32_bytes(crc32(d))) == 0x2144_DF1Cu32,
{
    let c = crc32(d);
    let b = u32_bytes(c);
    let s = d + b;
    let n = d.len() as int;
    let r = crc32_register(d);
    assert(s.take(n) =~= d);
    assert(s[n] == b[0] && s[n + 1] == b[1] && s[n + 2] == b[2] && s[n + 3] == b[3]);
    lemma_register_step(s, n);
    lemma_register_step(s, n + 1);
    lemma_register_step(s, n + 2);
    lemma_register_step(s, n + 3);
    assert(s.take(n + 4) =~= s);
    let b0 = (c & 0xff) as u8;
    let b1 = ((c >> 8) & 0xff) as u8;
    let b2 = ((c >> 16) & 0xff) as u8;
    let b3 = (c >> 24) as u8;
    assert(b0 == (((!r) >> 0) & 0xff) as u8 && b1 == (((!r) >> 8) & 0xff) as u8 && b2 == (((!r) >> 16)
        & 0xff) as u8) by (bit_vector)
        requires
            c == !r,
            b0 == (c & 0xff) as u8,
            b1 == ((c >> 8) & 0xff) as u8,
            b2 == ((c >> 16) & 0xff) as u8,
    ;
    assert(r == (r >> 0) ^ 0) by (bit_vector);
    assert(0u32 ^ 0xff == 0xffu32) by (bit_vector);
    assert(crc_byte(0xff) == 0x2d02_ef8du32) by (bit_vector);
    lemma_residue_byte(r, 0, 0, r, b0);
    let r1 = crc32_register(s.take(n + 1));
    assert(r1 == (r >> 8) ^ 0x2d02_ef8du32);
    lemma_residue_byte(r, 0x2d02_ef8d, 8, r1, b1);
    assert(crc_byte(0x2d02_ef8du32 ^ 0xff) == 0xbe26_12ffu32) by (bit_vector);
    let r2 = crc32_register(s.take(n + 2));
    assert(r2 == (r >> 16) ^ 0xbe26_12ffu32);
    lemma_residue_byte(r, 0xbe26_12ff, 16, r2, b2);
    assert(crc_byte(0xbe26_12ffu32 ^ 0xff) == 0x00be_2612u32) by (bit_vector);
    let r3 = crc32_register(s.take(n + 3));
    assert(r3 == (r >> 24) ^ 0x00be_2612u32);
    assert(r3 ^ (b3 as u32) == 0x00be_2612u32 ^ 0xff) by (bit_vector)
        requires
            r3 == (r >> 24) ^ 0x00be_2612u32,
            c == !r,
            b3 == (c >> 24) as u8,
    ;
    assert(crc_byte(0x00be_2612u32 ^ 0xff) == 0xDEBB_20E3u32) by (bit_vector);
    assert(!0xDEBB_20E3u32 == 0x2144_DF1Cu32) by (bit_vector);
}

} // verus!
