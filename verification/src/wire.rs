//! Byte-level building blocks of the wire format: fixed-width integers in
//! either byte order, bit fields, and checksums.

use vstd::prelude::*;
use crate::ast::{ChecksumAlgorithm, Endianness};

verus! {

/// The low `w` bytes of `x`, least significant first.
pub open spec fn le_bytes(x: nat, w: nat) -> Seq<u8>
    decreases w,
{
    if w == 0 {
        Seq::empty()
    } else {
        seq![(x % 256) as u8] + le_bytes(x / 256, (w - 1) as nat)
    }
}

/// The low `w` bytes of `x` in the given byte order.
pub open spec fn int_bytes(x: nat, w: nat, endian: Endianness) -> Seq<u8> {
    match endian {
        Endianness::Little => le_bytes(x, w),
        Endianness::Big => le_bytes(x, w).reverse(),
    }
}

/// The number that bytes denote, least significant first.
pub open spec fn le_value(bytes: Seq<u8>) -> nat
    decreases bytes.len(),
{
    if bytes.len() == 0 {
        0
    } else {
        bytes[0] as nat + 256 * le_value(bytes.drop_first())
    }
}

/// The number that bytes denote in the given byte order.
pub open spec fn bytes_value(bytes: Seq<u8>, endian: Endianness) -> nat {
    match endian {
        Endianness::Little => le_value(bytes),
        Endianness::Big => le_value(bytes.reverse()),
    }
}

/// `256` to the power `n`.
pub open spec fn pow256(n: nat) -> nat
    decreases n,
{
    if n == 0 {
        1
    } else {
        256 * pow256((n - 1) as nat)
    }
}

pub proof fn lemma_le_bytes_len(x: nat, w: nat)
    ensures
        le_bytes(x, w).len() == w,
    decreases w,
{
    if w > 0 {
        lemma_le_bytes_len(x / 256, (w - 1) as nat);
    }
}

pub proof fn lemma_int_bytes_len(x: nat, w: nat, endian: Endianness)
    ensures
        int_bytes(x, w, endian).len() == w,
{
    lemma_le_bytes_len(x, w);
}

pub proof fn lemma_le_value_bound(bytes: Seq<u8>)
    ensures
        le_value(bytes) < pow256(bytes.len()),
    decreases bytes.len(),
{
    if bytes.len() > 0 {
        let r = bytes.drop_first();
        lemma_le_value_bound(r);
        let v = le_value(r);
        let p = pow256(r.len());
        assert(bytes[0] as nat + 256 * v < 256 * p) by (nonlinear_arith)
            requires
                v < p,
                bytes[0] < 256,
        ;
    }
}

pub proof fn lemma_pow256_values()
    ensures
        pow256(1) == 0x100,
        pow256(2) == 0x1_0000,
        pow256(4) == 0x1_0000_0000,
        pow256(8) == 0x1_0000_0000_0000_0000,
        pow256(16) == 0x1_0000_0000_0000_0000_0000_0000_0000_0000,
{
    reveal_with_fuel(pow256, 17);
}

/// The low `w` bytes of `x` in the given byte order (`w <= 16`).
pub fn write_int(buf: &mut Vec<u8>, x: u128, w: usize, endian: Endianness)
    requires
        w <= 16,
    ensures
        final(buf)@ == old(buf)@ + int_bytes(x as nat, w as nat, endian),
{
    let mut tmp: Vec<u8> = Vec::new();
    let mut rest: u128 = x;
    let mut k: usize = 0;
    proof {
        lemma_le_bytes_len(x as nat, w as nat);
    }
    while k < w
        invariant
            k <= w,
            tmp@ + le_bytes(rest as nat, (w - k) as nat) == le_bytes(x as nat, w as nat),
        decreases w - k,
    {
        let ghost before = tmp@;
        tmp.push((rest % 256) as u8);
        proof {
            assert(le_bytes(rest as nat, (w - k) as nat) == seq![(rest % 256) as u8] + le_bytes(
                (rest / 256) as nat,
                (w - k - 1) as nat,
            ));
            assert(tmp@ + le_bytes((rest / 256) as nat, (w - k - 1) as nat) == before + le_bytes(
                rest as nat,
                (w - k) as nat,
            ));
        }
        rest = rest / 256;
        k = k + 1;
    }
    proof {
        assert(le_bytes(rest as nat, 0) == Seq::<u8>::empty());
        assert(tmp@ == le_bytes(x as nat, w as nat));
    }
    match endian {
        Endianness::Little => {
            let mut i: usize = 0;
            while i < tmp.len()
                invariant
                    i <= tmp@.len(),
                    buf@ == old(buf)@ + tmp@.take(i as int),
                decreases tmp@.len() - i,
            {
                buf.push(tmp[i]);
                i = i + 1;
                proof {
                    assert(tmp@.take(i as int) == tmp@.take(i - 1) + seq![tmp@[i - 1]]);
                }
            }
            proof {
                assert(tmp@.take(tmp@.len() as int) == tmp@);
            }
        },
        Endianness::Big => {
            let mut i: usize = tmp.len();
            while i > 0
                invariant
                    i <= tmp@.len(),
                    buf@ == old(buf)@ + tmp@.reverse().take(tmp@.len() - i),
                decreases i,
            {
                i = i - 1;
                buf.push(tmp[i]);
                proof {
                    let n = tmp@.len() as int;
                    assert(tmp@.reverse().take(n - i) == tmp@.reverse().take(n - i - 1) + seq![
                        tmp@[i as int],
                    ]);
                }
            }
            proof {
                assert(tmp@.reverse().take(tmp@.len() as int) == tmp@.reverse());
            }
        },
    }
}

/// The number held by `data[offset..offset + w]` in the given byte order.
pub fn read_int(data: &[u8], offset: usize, w: usize, endian: Endianness) -> (r: u128)
    requires
        w <= 16,
        offset + w <= data.len(),
    ensures
        r as nat == bytes_value(data@.subrange(offset as int, offset + w), endian),
{
    let ghost bytes = data@.subrange(offset as int, offset + w);
    proof {
        lemma_pow256_values();
    }
    match endian {
        Endianness::Little => {
            let mut acc: u128 = 0;
            let mut k: usize = w;
            while k > 0
                invariant
                    k <= w <= 16,
                    offset + w <= data.len(),
                    bytes == data@.subrange(offset as int, offset + w),
                    acc as nat == le_value(bytes.skip(k as int)),
                    pow256(16) == 0x1_0000_0000_0000_0000_0000_0000_0000_0000,
                decreases k,
            {
                k = k - 1;
                proof {
                    assert(bytes.skip(k as int).drop_first() == bytes.skip(k + 1));
                    lemma_le_value_bound(bytes.skip(k as int));
                    lemma_pow256_mono(bytes.skip(k as int).len(), 16);
                }
                acc = data[offset + k] as u128 + 256 * acc;
            }
            proof {
                assert(bytes.skip(0) == bytes);
            }
            acc
        },
        Endianness::Big => {
            let mut acc: u128 = 0;
            let mut k: usize = 0;
            while k < w
                invariant
                    k <= w <= 16,
                    offset + w <= data.len(),
                    bytes == data@.subrange(offset as int, offset + w),
                    acc as nat == le_value(bytes.reverse().skip(w - k)),
                    pow256(16) == 0x1_0000_0000_0000_0000_0000_0000_0000_0000,
                decreases w - k,
            {
                proof {
                    let rv = bytes.reverse();
                    assert(rv.skip(w - k - 1).drop_first() == rv.skip(w - k));
                    assert(rv.skip(w - k - 1)[0] == bytes[k as int]);
                    lemma_le_value_bound(rv.skip(w - k - 1));
                    lemma_pow256_mono(rv.skip(w - k - 1).len(), 16);
                }
                acc = data[offset + k] as u128 + 256 * acc;
                k = k + 1;
            }
            proof {
                assert(bytes.reverse().skip(0) == bytes.reverse());
            }
            acc
        },
    }
}

/// Reading back the `w` bytes written for `x`, in either byte order, gives
/// `x` modulo `256^w`.
pub proof fn lemma_bytes_value_mod(x: nat, w: nat, endian: Endianness)
    ensures
        bytes_value(int_bytes(x, w, endian), endian) == x % pow256(w),
        int_bytes(x, w, endian).len() == w,
        pow256(w) > 0,
{
    lemma_le_roundtrip(x, w);
    lemma_le_bytes_len(x, w);
    lemma_pow256_pos(w);
    match endian {
        Endianness::Little => {},
        Endianness::Big => {
            lemma_reverse_twice(le_bytes(x, w));
        },
    }
}

proof fn lemma_le_roundtrip(x: nat, w: nat)
    ensures
        le_value(le_bytes(x, w)) == x % pow256(w),
    decreases w,
{
    if w == 0 {
        assert(x % 1 == 0) by (nonlinear_arith);
    } else {
        lemma_le_roundtrip(x / 256, (w - 1) as nat);
        lemma_le_bytes_len(x / 256, (w - 1) as nat);
        let b = le_bytes(x, w);
        assert(b.drop_first() == le_bytes(x / 256, (w - 1) as nat));
        assert(b[0] == (x % 256) as u8);
        let p = pow256((w - 1) as nat);
        lemma_pow256_pos((w - 1) as nat);
        vstd::arithmetic::div_mod::lemma_mod_breakdown(x as int, 256, p as int);
        assert(x % (256 * p) == 256 * ((x / 256) % p) + x % 256);
    }
}

proof fn lemma_pow256_pos(n: nat)
    ensures
        pow256(n) > 0,
    decreases n,
{
    if n > 0 {
        lemma_pow256_pos((n - 1) as nat);
    }
}

proof fn lemma_reverse_twice(s: Seq<u8>)
    ensures
        s.reverse().reverse() == s,
{
    if s.len() > 0 {
        assert(s.reverse().reverse() =~= s);
    } else {
        assert(s.reverse().reverse() =~= s);
    }
}

/// The integer law of the wire format: reading the `w` bytes written for
/// `x` in either byte order gives back `x`, for every `x` below `256^w`.
pub proof fn lemma_int_roundtrip(x: nat, w: nat, endian: Endianness)
    requires
        x < pow256(w),
    ensures
        int_bytes(x, w, endian).len() == w,
        bytes_value(int_bytes(x, w, endian), endian) == x,
{
    lemma_bytes_value_mod(x, w, endian);
    vstd::arithmetic::div_mod::lemma_small_mod(x, pow256(w));
}

pub proof fn lemma_pow256_mono(a: nat, b: nat)
    requires
        a <= b,
    ensures
        pow256(a) <= pow256(b),
    decreases b,
{
    if a < b {
        lemma_pow256_mono(a, (b - 1) as nat);
    }
}

/// The storage width in bits of a bit-field group whose highest bit is `max_bit`.
pub open spec fn storage_key(max_bit: usize) -> usize {
    if max_bit <= 7 {
        8
    } else if max_bit <= 15 {
        16
    } else if max_bit <= 31 {
        32
    } else {
        64
    }
}

/// The storage width in bits of a bit-field group whose highest bit is `max_bit`.
pub fn storage_bits(max_bit: usize) -> (r: usize)
    ensures
        r == storage_key(max_bit),
{
    if max_bit <= 7 {
        8
    } else if max_bit <= 15 {
        16
    } else if max_bit <= 31 {
        32
    } else {
        64
    }
}

/// The bit range `start..=end` can be masked in a `u64` without a shift overflow.
pub open spec fn bit_range_ok(start: usize, end: usize) -> bool {
    start <= end && end - start + 1 < 64 && start < 64
}

/// The mask with ones on bits `start..=end`.
pub open spec fn bit_mask(start: usize, end: usize) -> u64 {
    (((1u64 << (end - start + 1) as u64) - 1) as u64) << start as u64
}

/// The bits `start..=end` of `value`, shifted down to bit 0.
pub open spec fn spec_extract_bits(value: u64, start: usize, end: usize) -> u64 {
    (value & bit_mask(start, end)) >> start as u64
}

/// `word` with bits `start..=end` replaced by the low bits of `new_value`.
pub open spec fn spec_set_bits(word: u64, new_value: u64, start: usize, end: usize) -> u64 {
    (word & !bit_mask(start, end)) | ((new_value << start as u64) & bit_mask(start, end))
}

/// Extracts bits `start..=end` of `value`.
pub fn extract_bits(value: u64, start: usize, end: usize) -> (r: u64)
    requires
        bit_range_ok(start, end),
    ensures
        r == spec_extract_bits(value, start, end),
{
    let w: u64 = (end - start + 1) as u64;
    let s: u64 = start as u64;
    let one: u64 = 1;
    proof {
        assert(one << w >= 1) by (bit_vector)
            requires
                w < 64,
                one == 1,
        ;
    }
    let mask: u64 = ((one << w) - 1) << s;
    (value & mask) >> s
}

/// Replaces bits `start..=end` of `word` with the low bits of `new_value`.
pub fn set_bits(word: u64, new_value: u64, start: usize, end: usize) -> (r: u64)
    requires
        bit_range_ok(start, end),
    ensures
        r == spec_set_bits(word, new_value, start, end),
{
    let w: u64 = (end - start + 1) as u64;
    let s: u64 = start as u64;
    let one: u64 = 1;
    proof {
        assert(one << w >= 1) by (bit_vector)
            requires
                w < 64,
                one == 1,
        ;
    }
    let mask: u64 = ((one << w) - 1) << s;
    (word & !mask) | ((new_value << s) & mask)
}

/// Setting a bit range and then extracting it gives back the low bits of the
/// value written, and leaves the bits outside the range unchanged.
pub proof fn lemma_set_then_extract(word: u64, new_value: u64, start: usize, end: usize)
    requires
        bit_range_ok(start, end),
        end < 64,
    ensures
        spec_extract_bits(spec_set_bits(word, new_value, start, end), start, end)
            == new_value & (((1u64 << (end - start + 1) as u64) - 1) as u64),
        spec_set_bits(word, new_value, start, end) & !bit_mask(start, end) == word
            & !bit_mask(start, end),
{
    let w: u64 = (end - start + 1) as u64;
    let s: u64 = start as u64;
    assert((((word & !((((1u64 << w) - 1) as u64) << s)) | ((new_value << s) & ((((1u64
        << w) - 1) as u64) << s))) & ((((1u64 << w) - 1) as u64) << s)) >> s == new_value & (((1u64
        << w) - 1) as u64)) by (bit_vector)
        requires
            w < 64,
            s < 64,
            w >= 1,
            s + w <= 64,
    ;
    assert(((word & !((((1u64 << w) - 1) as u64) << s)) | ((new_value << s) & ((((1u64 << w)
        - 1) as u64) << s))) & !((((1u64 << w) - 1) as u64) << s) == word & !((((1u64 << w)
        - 1) as u64) << s)) by (bit_vector)
        requires
            w < 64,
            s < 64,
    ;
}

} // verus!

verus! {

/// One shift step of CRC-8 with polynomial 0x07.
pub open spec fn crc8_step(c: u8) -> u8 {
    if c & 0x80u8 != 0 {
        ((c << 1u8) ^ 0x07u8) as u8
    } else {
        (c << 1u8) as u8
    }
}

/// `n` shift steps of CRC-8.
pub open spec fn crc8_steps(c: u8, n: nat) -> u8
    decreases n,
{
    if n == 0 {
        c
    } else {
        crc8_steps(crc8_step(c), (n - 1) as nat)
    }
}

/// CRC-8 (polynomial 0x07, initial value 0, no final xor) of `data`.
pub open spec fn crc8(data: Seq<u8>) -> u8
    decreases data.len(),
{
    if data.len() == 0 {
        0
    } else {
        crc8_steps(crc8(data.drop_last()) ^ data.last(), 8)
    }
}

/// One shift step of the reflected CRC-16 with polynomial 0xA001.
pub open spec fn crc16_step(c: u16) -> u16 {
    if c & 1u16 != 0 {
        (c >> 1u16) ^ 0xA001u16
    } else {
        c >> 1u16
    }
}

/// `n` shift steps of CRC-16.
pub open spec fn crc16_steps(c: u16, n: nat) -> u16
    decreases n,
{
    if n == 0 {
        c
    } else {
        crc16_steps(crc16_step(c), (n - 1) as nat)
    }
}

/// The CRC-16 register after processing `data` from initial value 0xFFFF.
pub open spec fn crc16(data: Seq<u8>) -> u16
    decreases data.len(),
{
    if data.len() == 0 {
        0xFFFFu16
    } else {
        crc16_steps(crc16(data.drop_last()) ^ (data.last() as u16), 8)
    }
}

/// One shift step of the reflected CRC-32 with polynomial 0xEDB88320.
pub open spec fn crc32_step(c: u32) -> u32 {
    if c & 1u32 != 0 {
        (c >> 1u32) ^ 0xEDB88320u32
    } else {
        c >> 1u32
    }
}

/// `n` shift steps of CRC-32.
pub open spec fn crc32_steps(c: u32, n: nat) -> u32
    decreases n,
{
    if n == 0 {
        c
    } else {
        crc32_steps(crc32_step(c), (n - 1) as nat)
    }
}

/// The CRC-32 register after processing `data` from initial value 0xFFFFFFFF
/// (the checksum is its complement).
pub open spec fn crc32_register(data: Seq<u8>) -> u32
    decreases data.len(),
{
    if data.len() == 0 {
        0xFFFF_FFFFu32
    } else {
        crc32_steps(crc32_register(data.drop_last()) ^ (data.last() as u32), 8)
    }
}

/// XOR of all bytes.
pub open spec fn xor_bytes(data: Seq<u8>) -> u8
    decreases data.len(),
{
    if data.len() == 0 {
        0
    } else {
        xor_bytes(data.drop_last()) ^ data.last()
    }
}

/// Sum of all bytes, modulo 2^64.
pub open spec fn sum_bytes(data: Seq<u8>) -> u64
    decreases data.len(),
{
    if data.len() == 0 {
        0
    } else {
        ((sum_bytes(data.drop_last()) + data.last()) % 0x1_0000_0000_0000_0000) as u64
    }
}

/// The checksum of `data` under an algorithm, as a `u64`.
pub open spec fn spec_checksum(data: Seq<u8>, algorithm: ChecksumAlgorithm) -> u64 {
    match algorithm {
        ChecksumAlgorithm::Crc8 => crc8(data) as u64,
        ChecksumAlgorithm::Crc16 => crc16(data) as u64,
        ChecksumAlgorithm::Crc32 => (!crc32_register(data)) as u64,
        ChecksumAlgorithm::Xor => xor_bytes(data) as u64,
        ChecksumAlgorithm::Sum => sum_bytes(data),
    }
}

/// Computes the checksum of `data` under an algorithm.
pub fn calculate_checksum(data: &[u8], algorithm: ChecksumAlgorithm) -> (r: u64)
    ensures
        r == spec_checksum(data@, algorithm),
{
    match algorithm {
        ChecksumAlgorithm::Crc8 => {
            let mut crc: u8 = 0;
            let mut i: usize = 0;
            while i < data.len()
                invariant
                    i <= data@.len(),
                    crc == crc8(data@.take(i as int)),
                decreases data@.len() - i,
            {
                crc = crc ^ data[i];
                let mut k: usize = 0;
                let ghost start = crc;
                while k < 8
                    invariant
                        k <= 8,
                        crc8_steps(crc, (8 - k) as nat) == crc8_steps(start, 8),
                    decreases 8 - k,
                {
                    if crc & 0x80 != 0 {
                        crc = (crc << 1) ^ 0x07;
                    } else {
                        crc = crc << 1;
                    }
                    k = k + 1;
                }
                proof {
                    assert(data@.take(i + 1).drop_last() == data@.take(i as int));
                }
                i = i + 1;
            }
            proof {
                assert(data@.take(data@.len() as int) == data@);
            }
            crc as u64
        },
        ChecksumAlgorithm::Crc16 => {
            let mut crc: u16 = 0xFFFF;
            let mut i: usize = 0;
            while i < data.len()
                invariant
                    i <= data@.len(),
                    crc == crc16(data@.take(i as int)),
                decreases data@.len() - i,
            {
                crc = crc ^ (data[i] as u16);
                let mut k: usize = 0;
                let ghost start = crc;
                while k < 8
                    invariant
                        k <= 8,
                        crc16_steps(crc, (8 - k) as nat) == crc16_steps(start, 8),
                    decreases 8 - k,
                {
                    if crc & 1 != 0 {
                        crc = (crc >> 1) ^ 0xA001;
                    } else {
                        crc = crc >> 1;
                    }
                    k = k + 1;
                }
                proof {
                    assert(data@.take(i + 1).drop_last() == data@.take(i as int));
                }
                i = i + 1;
            }
            proof {
                assert(data@.take(data@.len() as int) == data@);
            }
            crc as u64
        },
        ChecksumAlgorithm::Crc32 => {
            let mut crc: u32 = 0xFFFF_FFFF;
            let mut i: usize = 0;
            while i < data.len()
                invariant
                    i <= data@.len(),
                    crc == crc32_register(data@.take(i as int)),
                decreases data@.len() - i,
            {
                crc = crc ^ (data[i] as u32);
                let mut k: usize = 0;
                let ghost start = crc;
                while k < 8
                    invariant
                        k <= 8,
                        crc32_steps(crc, (8 - k) as nat) == crc32_steps(start, 8),
                    decreases 8 - k,
                {
                    if crc & 1 != 0 {
                        crc = (crc >> 1) ^ 0xEDB88320;
                    } else {
                        crc = crc >> 1;
                    }
                    k = k + 1;
                }
                proof {
                    assert(data@.take(i + 1).drop_last() == data@.take(i as int));
                }
                i = i + 1;
            }
            proof {
                assert(data@.take(data@.len() as int) == data@);
            }
            (!crc) as u64
        },
        ChecksumAlgorithm::Xor => {
            let mut acc: u8 = 0;
            let mut i: usize = 0;
            while i < data.len()
                invariant
                    i <= data@.len(),
                    acc == xor_bytes(data@.take(i as int)),
                decreases data@.len() - i,
            {
                acc = acc ^ data[i];
                proof {
                    assert(data@.take(i + 1).drop_last() == data@.take(i as int));
                }
                i = i + 1;
            }
            proof {
                assert(data@.take(data@.len() as int) == data@);
            }
            acc as u64
        },
        ChecksumAlgorithm::Sum => {
            let mut acc: u64 = 0;
            let mut i: usize = 0;
            while i < data.len()
                invariant
                    i <= data@.len(),
                    acc == sum_bytes(data@.take(i as int)),
                decreases data@.len() - i,
            {
                acc = acc.wrapping_add(data[i] as u64);
                proof {
                    assert(data@.take(i + 1).drop_last() == data@.take(i as int));
                }
                i = i + 1;
            }
            proof {
                assert(data@.take(data@.len() as int) == data@);
            }
            acc
        },
    }
}

/// Appending the XOR checksum of a byte sequence yields a sequence whose XOR is zero.
pub proof fn lemma_xor_checksum_closes(data: Seq<u8>)
    ensures
        xor_bytes(data.push(xor_bytes(data))) == 0,
{
    assert(data.push(xor_bytes(data)).drop_last() == data);
    let x = xor_bytes(data);
    assert(x ^ x == 0u8) by (bit_vector);
}

} // verus!
