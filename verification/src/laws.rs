//! Laws that pin down what the checksums, the validator's checksum rule,
//! hexadecimal literals, the width of an integer given as bytes and the
//! count a `#[len_ref]` field reads mean, stated over their inputs and
//! results.
use vstd::prelude::*;
use crate::ast::{ChecksumAlgorithm, Endianness, FieldAttributeV, FieldV, StructDefV, TypeV};
use crate::decoded::DecodedV;
use crate::error::ErrorView;
use crate::wire::spec_checksum;

verus! {

/// One round of a reflected CRC: the register shifted right by one, with
/// the polynomial xored in when the bit shifted out was set.
pub open spec fn reflected_round(r: u32, poly: u32) -> u32 {
    if r % 2 == 1 {
        (r / 2) ^ poly
    } else {
        r / 2
    }
}

/// A reflected CRC register after taking in byte `b`: the byte xored into
/// the low bits, then eight rounds.
pub open spec fn reflected_byte(r: u32, b: u8, poly: u32) -> u32 {
    let r0 = r ^ (b as u32);
    let r1 = reflected_round(r0, poly);
    let r2 = reflected_round(r1, poly);
    let r3 = reflected_round(r2, poly);
    let r4 = reflected_round(r3, poly);
    let r5 = reflected_round(r4, poly);
    let r6 = reflected_round(r5, poly);
    let r7 = reflected_round(r6, poly);
    reflected_round(r7, poly)
}

/// One round of the CRC-8 with polynomial 0x07: the register doubled
/// (within a byte), with the polynomial xored in when the top bit was set.
pub open spec fn msb_round(r: u8) -> u8 {
    if r >= 0x80 {
        ((2 * r - 0x100) as u8) ^ 0x07u8
    } else {
        (2 * r) as u8
    }
}

/// The CRC-8 register after taking in byte `b`: the byte xored in, then
/// eight rounds.
pub open spec fn msb_byte(r: u8, b: u8) -> u8 {
    let r0 = r ^ b;
    let r1 = msb_round(r0);
    let r2 = msb_round(r1);
    let r3 = msb_round(r2);
    let r4 = msb_round(r3);
    let r5 = msb_round(r4);
    let r6 = msb_round(r5);
    let r7 = msb_round(r6);
    msb_round(r7)
}

proof fn lemma_crc16_round(c: u16)
    ensures
        crate::wire::crc16_step(c) as u32 == reflected_round(c as u32, 0xA001),
{
    let r = c as u32;
    assert((if c & 1u16 != 0 { (c >> 1u16) ^ 0xA001u16 } else { c >> 1u16 }) as u32 == (if r % 2 == 1 {
        (r / 2) ^ 0xA001u32
    } else {
        r / 2
    })) by (bit_vector)
        requires
            r == c as u32,
    ;
}

proof fn lemma_crc16_byte(c: u16, b: u8)
    ensures
        crate::wire::crc16_steps(c ^ (b as u16), 8) as u32 == reflected_byte(c as u32, b, 0xA001),
{
    reveal_with_fuel(crate::wire::crc16_steps, 9);
    let x0 = c ^ (b as u16);
    assert(x0 as u32 == (c as u32) ^ (b as u32)) by (bit_vector)
        requires
            x0 == c ^ (b as u16),
    ;
    let x1 = crate::wire::crc16_step(x0);
    let x2 = crate::wire::crc16_step(x1);
    let x3 = crate::wire::crc16_step(x2);
    let x4 = crate::wire::crc16_step(x3);
    let x5 = crate::wire::crc16_step(x4);
    let x6 = crate::wire::crc16_step(x5);
    let x7 = crate::wire::crc16_step(x6);
    lemma_crc16_round(x0);
    lemma_crc16_round(x1);
    lemma_crc16_round(x2);
    lemma_crc16_round(x3);
    lemma_crc16_round(x4);
    lemma_crc16_round(x5);
    lemma_crc16_round(x6);
    lemma_crc16_round(x7);
}

proof fn lemma_crc32_round(c: u32)
    ensures
        crate::wire::crc32_step(c) == reflected_round(c, 0xEDB88320),
{
    assert((if c & 1u32 != 0 { (c >> 1u32) ^ 0xEDB88320u32 } else { c >> 1u32 }) == (if c % 2 == 1 {
        (c / 2) ^ 0xEDB88320u32
    } else {
        c / 2
    })) by (bit_vector);
}

proof fn lemma_crc32_byte(c: u32, b: u8)
    ensures
        crate::wire::crc32_steps(c ^ (b as u32), 8) == reflected_byte(c, b, 0xEDB88320),
{
    reveal_with_fuel(crate::wire::crc32_steps, 9);
    let x0 = c ^ (b as u32);
    let x1 = crate::wire::crc32_step(x0);
    let x2 = crate::wire::crc32_step(x1);
    let x3 = crate::wire::crc32_step(x2);
    let x4 = crate::wire::crc32_step(x3);
    let x5 = crate::wire::crc32_step(x4);
    let x6 = crate::wire::crc32_step(x5);
    let x7 = crate::wire::crc32_step(x6);
    lemma_crc32_round(x0);
    lemma_crc32_round(x1);
    lemma_crc32_round(x2);
    lemma_crc32_round(x3);
    lemma_crc32_round(x4);
    lemma_crc32_round(x5);
    lemma_crc32_round(x6);
    lemma_crc32_round(x7);
}

proof fn lemma_crc8_round(c: u8)
    ensures
        crate::wire::crc8_step(c) == msb_round(c),
{
    assert((if c & 0x80u8 != 0 { ((c << 1u8) ^ 0x07u8) as u8 } else { (c << 1u8) as u8 }) == (if c
        >= 0x80 {
        ((2 * c - 0x100) as u8) ^ 0x07u8
    } else {
        (2 * c) as u8
    })) by (bit_vector);
}

proof fn lemma_crc8_byte(c: u8, b: u8)
    ensures
        crate::wire::crc8_steps(c ^ b, 8) == msb_byte(c, b),
{
    reveal_with_fuel(crate::wire::crc8_steps, 9);
    let x0 = c ^ b;
    let x1 = crate::wire::crc8_step(x0);
    let x2 = crate::wire::crc8_step(x1);
    let x3 = crate::wire::crc8_step(x2);
    let x4 = crate::wire::crc8_step(x3);
    let x5 = crate::wire::crc8_step(x4);
    let x6 = crate::wire::crc8_step(x5);
    let x7 = crate::wire::crc8_step(x6);
    lemma_crc8_round(x0);
    lemma_crc8_round(x1);
    lemma_crc8_round(x2);
    lemma_crc8_round(x3);
    lemma_crc8_round(x4);
    lemma_crc8_round(x5);
    lemma_crc8_round(x6);
    lemma_crc8_round(x7);
}

/// The `crc16` checksum is CRC-16/MODBUS: a 16-bit register that starts at
/// 0xFFFF (the checksum of no bytes), takes in each byte in turn with eight
/// reflected rounds of the polynomial 0xA001, and is the checksum as it
/// stands, with no final xor.
pub proof fn lemma_crc16_is_modbus(data: Seq<u8>, b: u8)
    ensures
        spec_checksum(Seq::empty(), ChecksumAlgorithm::Crc16) == 0xFFFF,
        spec_checksum(data, ChecksumAlgorithm::Crc16) <= 0xFFFF,
        spec_checksum(data.push(b), ChecksumAlgorithm::Crc16) == reflected_byte(
            spec_checksum(data, ChecksumAlgorithm::Crc16) as u32,
            b,
            0xA001,
        ) as u64,
{
    let c = crate::wire::crc16(data);
    assert(data.push(b).drop_last() == data);
    lemma_crc16_byte(c, b);
}

/// The `crc32` checksum is CRC-32 (IEEE 802.3): a 32-bit register that
/// starts at 0xFFFFFFFF, takes in each byte in turn with eight reflected
/// rounds of the polynomial 0xEDB88320, and whose complement is the
/// checksum; the checksum of no bytes is 0.
pub proof fn lemma_crc32_is_ieee(data: Seq<u8>, b: u8)
    ensures
        spec_checksum(Seq::empty(), ChecksumAlgorithm::Crc32) == 0,
        spec_checksum(data, ChecksumAlgorithm::Crc32) <= 0xFFFF_FFFF,
        spec_checksum(data.push(b), ChecksumAlgorithm::Crc32) == (!reflected_byte(
            !(spec_checksum(data, ChecksumAlgorithm::Crc32) as u32),
            b,
            0xEDB88320,
        )) as u64,
{
    let c = crate::wire::crc32_register(data);
    assert(data.push(b).drop_last() == data);
    lemma_crc32_byte(c, b);
    let e = crate::wire::crc32_register(Seq::<u8>::empty());
    assert(!(0xFFFF_FFFFu32) == 0u32) by (bit_vector);
    let n = crate::wire::crc32_register(data.push(b));
    assert(!(((!n) as u64) as u32) == n) by (bit_vector);
    assert(!(((!c) as u64) as u32) == c) by (bit_vector);
}

/// The `crc8` checksum is the CRC-8 with polynomial 0x07: an 8-bit
/// register that starts at 0, takes in each byte in turn with eight rounds
/// from the top bit, and is the checksum as it stands.
pub proof fn lemma_crc8_is_poly07(data: Seq<u8>, b: u8)
    ensures
        spec_checksum(Seq::empty(), ChecksumAlgorithm::Crc8) == 0,
        spec_checksum(data, ChecksumAlgorithm::Crc8) <= 0xFF,
        spec_checksum(data.push(b), ChecksumAlgorithm::Crc8) == msb_byte(
            spec_checksum(data, ChecksumAlgorithm::Crc8) as u8,
            b,
        ) as u64,
{
    let c = crate::wire::crc8(data);
    assert(data.push(b).drop_last() == data);
    lemma_crc8_byte(c, b);
}

/// The `xor` checksum is the exclusive or of all bytes and the `sum`
/// checksum their sum modulo 2^64: each byte added changes them so, from 0
/// for no bytes.
pub proof fn lemma_xor_and_sum(data: Seq<u8>, b: u8)
    ensures
        spec_checksum(Seq::empty(), ChecksumAlgorithm::Xor) == 0,
        spec_checksum(data.push(b), ChecksumAlgorithm::Xor) == ((spec_checksum(data, ChecksumAlgorithm::Xor)
            as u8) ^ b) as u64,
        spec_checksum(Seq::empty(), ChecksumAlgorithm::Sum) == 0,
        spec_checksum(data.push(b), ChecksumAlgorithm::Sum) == (spec_checksum(data, ChecksumAlgorithm::Sum)
            + b) % 0x1_0000_0000_0000_0000,
{
    assert(data.push(b).drop_last() == data);
    let x = crate::wire::xor_bytes(data);
    assert(((x as u64) as u8) == x) by (bit_vector);
}

/// Over the nine ASCII bytes "123456789" the CRC-16/MODBUS is 0x4B37.
pub proof fn lemma_crc16_check_value()
    ensures
        spec_checksum(
            seq![0x31u8, 0x32u8, 0x33u8, 0x34u8, 0x35u8, 0x36u8, 0x37u8, 0x38u8, 0x39u8],
            ChecksumAlgorithm::Crc16,
        ) == 0x4B37,
{
    let s0 = Seq::<u8>::empty();
    let s1 = s0.push(0x31u8);
    let s2 = s1.push(0x32u8);
    let s3 = s2.push(0x33u8);
    let s4 = s3.push(0x34u8);
    let s5 = s4.push(0x35u8);
    let s6 = s5.push(0x36u8);
    let s7 = s6.push(0x37u8);
    let s8 = s7.push(0x38u8);
    let s9 = s8.push(0x39u8);
    assert(s9 =~= seq![0x31u8, 0x32u8, 0x33u8, 0x34u8, 0x35u8, 0x36u8, 0x37u8, 0x38u8, 0x39u8]);
    assert({
        &&& reflected_byte(0xFFFF, 0x31, 0xA001) == 0x947e
        &&& reflected_byte(0x947e, 0x32, 0xA001) == 0xf595
        &&& reflected_byte(0xf595, 0x33, 0xA001) == 0x7a75
        &&& reflected_byte(0x7a75, 0x34, 0xA001) == 0x30ba
        &&& reflected_byte(0x30ba, 0x35, 0xA001) == 0xa471
        &&& reflected_byte(0xa471, 0x36, 0xA001) == 0x32e4
        &&& reflected_byte(0x32e4, 0x37, 0xA001) == 0x9d73
        &&& reflected_byte(0x9d73, 0x38, 0xA001) == 0x37dd
        &&& reflected_byte(0x37dd, 0x39, 0xA001) == 0x4b37
    }) by (bit_vector);
    lemma_crc16_is_modbus(s0, 0x31u8);
    assert(spec_checksum(s1, ChecksumAlgorithm::Crc16) == 0x947e);
    lemma_crc16_is_modbus(s1, 0x32u8);
    assert(spec_checksum(s2, ChecksumAlgorithm::Crc16) == 0xf595);
    lemma_crc16_is_modbus(s2, 0x33u8);
    assert(spec_checksum(s3, ChecksumAlgorithm::Crc16) == 0x7a75);
    lemma_crc16_is_modbus(s3, 0x34u8);
    assert(spec_checksum(s4, ChecksumAlgorithm::Crc16) == 0x30ba);
    lemma_crc16_is_modbus(s4, 0x35u8);
    assert(spec_checksum(s5, ChecksumAlgorithm::Crc16) == 0xa471);
    lemma_crc16_is_modbus(s5, 0x36u8);
    assert(spec_checksum(s6, ChecksumAlgorithm::Crc16) == 0x32e4);
    lemma_crc16_is_modbus(s6, 0x37u8);
    assert(spec_checksum(s7, ChecksumAlgorithm::Crc16) == 0x9d73);
    lemma_crc16_is_modbus(s7, 0x38u8);
    assert(spec_checksum(s8, ChecksumAlgorithm::Crc16) == 0x37dd);
    lemma_crc16_is_modbus(s8, 0x39u8);
    assert(spec_checksum(s9, ChecksumAlgorithm::Crc16) == 0x4b37);
}

/// Over the nine ASCII bytes "123456789" the CRC-32 is 0xCBF43926.
pub proof fn lemma_crc32_check_value()
    ensures
        spec_checksum(
            seq![0x31u8, 0x32u8, 0x33u8, 0x34u8, 0x35u8, 0x36u8, 0x37u8, 0x38u8, 0x39u8],
            ChecksumAlgorithm::Crc32,
        ) == 0xCBF43926,
{
    let s0 = Seq::<u8>::empty();
    let s1 = s0.push(0x31u8);
    let s2 = s1.push(0x32u8);
    let s3 = s2.push(0x33u8);
    let s4 = s3.push(0x34u8);
    let s5 = s4.push(0x35u8);
    let s6 = s5.push(0x36u8);
    let s7 = s6.push(0x37u8);
    let s8 = s7.push(0x38u8);
    let s9 = s8.push(0x39u8);
    assert(s9 =~= seq![0x31u8, 0x32u8, 0x33u8, 0x34u8, 0x35u8, 0x36u8, 0x37u8, 0x38u8, 0x39u8]);
    assert({
        &&& !(0u32) == 0xFFFF_FFFFu32
        &&& reflected_byte(0xFFFF_FFFF, 0x31, 0xEDB88320) == 0x7c231048
        &&& reflected_byte(0x7c231048, 0x32, 0xEDB88320) == 0xb0acbb32
        &&& reflected_byte(0xb0acbb32, 0x33, 0xEDB88320) == 0x77b79c2d
        &&& reflected_byte(0x77b79c2d, 0x34, 0xEDB88320) == 0x641c1f5c
        &&& reflected_byte(0x641c1f5c, 0x35, 0xEDB88320) == 0x340ac5e3
        &&& reflected_byte(0x340ac5e3, 0x36, 0xEDB88320) == 0xf68d2c9e
        &&& reflected_byte(0xf68d2c9e, 0x37, 0xEDB88320) == 0xaffc9660
        &&& reflected_byte(0xaffc9660, 0x38, 0xEDB88320) == 0x651f2550
        &&& reflected_byte(0x651f2550, 0x39, 0xEDB88320) == 0x340bc6d9
        &&& !(0x7c231048u32) == 0x83dcefb7u32
        &&& !(0xb0acbb32u32) == 0x4f5344cdu32
        &&& !(0x77b79c2du32) == 0x884863d2u32
        &&& !(0x641c1f5cu32) == 0x9be3e0a3u32
        &&& !(0x340ac5e3u32) == 0xcbf53a1cu32
        &&& !(0xf68d2c9eu32) == 0x972d361u32
        &&& !(0xaffc9660u32) == 0x5003699fu32
        &&& !(0x651f2550u32) == 0x9ae0daafu32
        &&& !(0x340bc6d9u32) == 0xcbf43926u32
        &&& !(0x83dcefb7u32) == 0x7c231048u32
        &&& !(0x4f5344cdu32) == 0xb0acbb32u32
        &&& !(0x884863d2u32) == 0x77b79c2du32
        &&& !(0x9be3e0a3u32) == 0x641c1f5cu32
        &&& !(0xcbf53a1cu32) == 0x340ac5e3u32
        &&& !(0x972d361u32) == 0xf68d2c9eu32
        &&& !(0x5003699fu32) == 0xaffc9660u32
        &&& !(0x9ae0daafu32) == 0x651f2550u32
        &&& !(0xcbf43926u32) == 0x340bc6d9u32
    }) by (bit_vector);
    lemma_crc32_is_ieee(s0, 0x31u8);
    assert(spec_checksum(s1, ChecksumAlgorithm::Crc32) == 0x83dcefb7);
    lemma_crc32_is_ieee(s1, 0x32u8);
    assert(spec_checksum(s2, ChecksumAlgorithm::Crc32) == 0x4f5344cd);
    lemma_crc32_is_ieee(s2, 0x33u8);
    assert(spec_checksum(s3, ChecksumAlgorithm::Crc32) == 0x884863d2);
    lemma_crc32_is_ieee(s3, 0x34u8);
    assert(spec_checksum(s4, ChecksumAlgorithm::Crc32) == 0x9be3e0a3);
    lemma_crc32_is_ieee(s4, 0x35u8);
    assert(spec_checksum(s5, ChecksumAlgorithm::Crc32) == 0xcbf53a1c);
    lemma_crc32_is_ieee(s5, 0x36u8);
    assert(spec_checksum(s6, ChecksumAlgorithm::Crc32) == 0x972d361);
    lemma_crc32_is_ieee(s6, 0x37u8);
    assert(spec_checksum(s7, ChecksumAlgorithm::Crc32) == 0x5003699f);
    lemma_crc32_is_ieee(s7, 0x38u8);
    assert(spec_checksum(s8, ChecksumAlgorithm::Crc32) == 0x9ae0daaf);
    lemma_crc32_is_ieee(s8, 0x39u8);
    assert(spec_checksum(s9, ChecksumAlgorithm::Crc32) == 0xcbf43926);
}

/// Over the nine ASCII bytes "123456789" the CRC-8 (polynomial 0x07) is 0xF4.
pub proof fn lemma_crc8_check_value()
    ensures
        spec_checksum(
            seq![0x31u8, 0x32u8, 0x33u8, 0x34u8, 0x35u8, 0x36u8, 0x37u8, 0x38u8, 0x39u8],
            ChecksumAlgorithm::Crc8,
        ) == 0xF4,
{
    let s0 = Seq::<u8>::empty();
    let s1 = s0.push(0x31u8);
    let s2 = s1.push(0x32u8);
    let s3 = s2.push(0x33u8);
    let s4 = s3.push(0x34u8);
    let s5 = s4.push(0x35u8);
    let s6 = s5.push(0x36u8);
    let s7 = s6.push(0x37u8);
    let s8 = s7.push(0x38u8);
    let s9 = s8.push(0x39u8);
    assert(s9 =~= seq![0x31u8, 0x32u8, 0x33u8, 0x34u8, 0x35u8, 0x36u8, 0x37u8, 0x38u8, 0x39u8]);
    assert({
        &&& msb_byte(0, 0x31) == 0x97
        &&& msb_byte(0x97, 0x32) == 0x72
        &&& msb_byte(0x72, 0x33) == 0xc0
        &&& msb_byte(0xc0, 0x34) == 0xc2
        &&& msb_byte(0xc2, 0x35) == 0xcb
        &&& msb_byte(0xcb, 0x36) == 0xfd
        &&& msb_byte(0xfd, 0x37) == 0x78
        &&& msb_byte(0x78, 0x38) == 0xc7
        &&& msb_byte(0xc7, 0x39) == 0xf4
    }) by (bit_vector);
    lemma_crc8_is_poly07(s0, 0x31u8);
    assert(spec_checksum(s1, ChecksumAlgorithm::Crc8) == 0x97);
    lemma_crc8_is_poly07(s1, 0x32u8);
    assert(spec_checksum(s2, ChecksumAlgorithm::Crc8) == 0x72);
    lemma_crc8_is_poly07(s2, 0x33u8);
    assert(spec_checksum(s3, ChecksumAlgorithm::Crc8) == 0xc0);
    lemma_crc8_is_poly07(s3, 0x34u8);
    assert(spec_checksum(s4, ChecksumAlgorithm::Crc8) == 0xc2);
    lemma_crc8_is_poly07(s4, 0x35u8);
    assert(spec_checksum(s5, ChecksumAlgorithm::Crc8) == 0xcb);
    lemma_crc8_is_poly07(s5, 0x36u8);
    assert(spec_checksum(s6, ChecksumAlgorithm::Crc8) == 0xfd);
    lemma_crc8_is_poly07(s6, 0x37u8);
    assert(spec_checksum(s7, ChecksumAlgorithm::Crc8) == 0x78);
    lemma_crc8_is_poly07(s7, 0x38u8);
    assert(spec_checksum(s8, ChecksumAlgorithm::Crc8) == 0xc7);
    lemma_crc8_is_poly07(s8, 0x39u8);
    assert(spec_checksum(s9, ChecksumAlgorithm::Crc8) == 0xf4);
}

/// The validator's checksum rule: a `#[checksum(..)]` attribute is
/// accepted exactly on a field of type `u8`, `u16`, `u32` or `u64` (the
/// types the encoder writes a checksum into), and refused otherwise with
/// error `E008`.
pub proof fn lemma_checksum_field_types(alg: ChecksumAlgorithm, f: FieldV, def: StructDefV)
    ensures
        crate::validator::attribute_error(FieldAttributeV::Checksum(alg), f, def) is None <==> (f.ty
            == TypeV::U8 || f.ty == TypeV::U16 || f.ty == TypeV::U32 || f.ty == TypeV::U64),
        crate::validator::attribute_error(FieldAttributeV::Checksum(alg), f, def) is None
            <==> crate::encode::uint_width(f.ty) is Some,
        crate::validator::attribute_error(FieldAttributeV::Checksum(alg), f, def) matches Some(e) ==> e
            matches ErrorView::Validation { code, .. } && code == "E008"@,
{
}

/// A field whose attributes are all `#[checksum(..)]` and whose type is
/// `u8`, `u16`, `u32` or `u64` passes the attribute checks.
pub proof fn lemma_unsigned_checksum_field_accepted(f: FieldV, def: StructDefV, k: nat)
    requires
        forall|i: int| 0 <= i < f.attributes.len() ==> #[trigger] f.attributes[i] is Checksum,
        f.ty == TypeV::U8 || f.ty == TypeV::U16 || f.ty == TypeV::U32 || f.ty == TypeV::U64,
    ensures
        crate::validator::attributes_error(f, def, k) is None,
    decreases f.attributes.len() - k,
{
    if k < f.attributes.len() {
        let a = f.attributes[k as int];
        lemma_checksum_field_types(a->Checksum_0, f, def);
        lemma_unsigned_checksum_field_accepted(f, def, k + 1);
    }
}

/// The sixteen hexadecimal digits in order, in lower case.
pub open spec fn lower_hex_digits() -> Seq<char> {
    seq!['0', '1', '2', '3', '4', '5', '6', '7', '8', '9', 'a', 'b', 'c', 'd', 'e', 'f']
}

/// The sixteen hexadecimal digits in order, in upper case.
pub open spec fn upper_hex_digits() -> Seq<char> {
    seq!['0', '1', '2', '3', '4', '5', '6', '7', '8', '9', 'A', 'B', 'C', 'D', 'E', 'F']
}

/// Hexadecimal digits denote their position among the sixteen digits, in
/// either case: `k` for the `k`-th digit of `0123456789abcdef` and of
/// `0123456789ABCDEF`.
pub proof fn lemma_hex_digit_values(k: int)
    requires
        0 <= k < 16,
    ensures
        crate::lexer::is_hex_digit(lower_hex_digits()[k]),
        crate::lexer::is_hex_digit(upper_hex_digits()[k]),
        crate::lexer::hex_value(lower_hex_digits()[k]) == k,
        crate::lexer::hex_value(upper_hex_digits()[k]) == k,
{
    let l = lower_hex_digits();
    let u = upper_hex_digits();
    assert(l[0] == '0' && l[1] == '1' && l[2] == '2' && l[3] == '3' && l[4] == '4' && l[5] == '5');
    assert(l[6] == '6' && l[7] == '7' && l[8] == '8' && l[9] == '9' && l[10] == 'a' && l[11] == 'b');
    assert(l[12] == 'c' && l[13] == 'd' && l[14] == 'e' && l[15] == 'f');
    assert(u[10] == 'A' && u[11] == 'B' && u[12] == 'C' && u[13] == 'D' && u[14] == 'E' && u[15] == 'F');
    assert(u[0] == '0' && u[1] == '1' && u[2] == '2' && u[3] == '3' && u[4] == '4' && u[5] == '5');
    assert(u[6] == '6' && u[7] == '7' && u[8] == '8' && u[9] == '9');
}

/// A run of hexadecimal digits denotes its base-16 value: appending the
/// digit at position `k` (in either case) multiplies the value by 16 and
/// adds `k`; no digits denote 0.
pub proof fn lemma_hex_number_value(d: Seq<char>, k: int)
    requires
        0 <= k < 16,
    ensures
        crate::lexer::hexadecimal_value(Seq::empty()) == 0,
        crate::lexer::hexadecimal_value(d.push(lower_hex_digits()[k])) == 16 * crate::lexer::hexadecimal_value(d) + k,
        crate::lexer::hexadecimal_value(d.push(upper_hex_digits()[k])) == 16 * crate::lexer::hexadecimal_value(d) + k,
{
    lemma_hex_digit_values(k);
    assert(d.push(lower_hex_digits()[k]).drop_last() == d);
    assert(d.push(upper_hex_digits()[k]).drop_last() == d);
}

/// The width of an integer given to a `Bytes` field is the least of 1, 2,
/// 4, 8 and 16 bytes that holds it (1 for a negative one).
pub proof fn lemma_integer_byte_width(n: i128)
    ensures
        ({
            let w = crate::encode::spec_integer_to_byte_len(n) as nat;
            &&& w == 1 || w == 2 || w == 4 || w == 8 || w == 16
            &&& n < crate::wire::pow256(w)
            &&& forall|v: nat|
                (v == 1 || v == 2 || v == 4 || v == 8 || v == 16) && v < w ==> n >= crate::wire::pow256(v)
        }),
{
    crate::wire::lemma_pow256_values();
}

/// The count a `#[len_ref(c)]` field reads from its count field `c`: the
/// value of an unsigned `c`, and of a signed `c` when it is not negative;
/// none for a negative signed value or any value of another type.
pub proof fn lemma_count_of_integers(v: DecodedV)
    ensures
        v matches DecodedV::U8(x) ==> crate::receive::count_of(v) == Some(x as usize),
        v matches DecodedV::U16(x) ==> crate::receive::count_of(v) == Some(x as usize),
        v matches DecodedV::U32(x) ==> crate::receive::count_of(v) == Some(x as usize),
        v matches DecodedV::U64(x) ==> crate::receive::count_of(v) == Some(x as usize),
        v matches DecodedV::I8(x) ==> crate::receive::count_of(v) == if x >= 0 {
            Some(x as usize)
        } else {
            None
        },
        v matches DecodedV::I16(x) ==> crate::receive::count_of(v) == if x >= 0 {
            Some(x as usize)
        } else {
            None
        },
        v matches DecodedV::I32(x) ==> crate::receive::count_of(v) == if x >= 0 {
            Some(x as usize)
        } else {
            None
        },
        v matches DecodedV::I64(x) ==> crate::receive::count_of(v) == if x >= 0 {
            Some(x as usize)
        } else {
            None
        },
        crate::receive::count_of(v) is Some ==> (v is U8 || v is U16 || v is U32 || v is U64 || v is I8
            || v is I16 || v is I32 || v is I64),
{
}

/// The count a `#[len_ref(c)]` field takes from the bytes of its count
/// field `c`, of any type the validator accepts for a count: the number
/// the bytes denote in the field's byte order, read as the field's type; a
/// negative signed value gives no count.
pub proof fn lemma_count_from_bytes(ty: TypeV, b: Seq<u8>, e: Endianness)
    requires
        crate::validator::is_count_type(ty),
        b.len() == crate::decode::prim_width(ty)->0,
    ensures
        ({
            let x = crate::wire::bytes_value(b, e);
            let w = crate::decode::prim_width(ty)->0;
            let signed = ty == TypeV::I8 || ty == TypeV::I16 || ty == TypeV::I32 || ty == TypeV::I64;
            crate::receive::count_of(crate::decode::prim_value(ty, b, e)) == if signed && 2 * x
                >= crate::wire::pow256(w) {
                None
            } else {
                Some(x as usize)
            }
        }),
{
    let x = crate::wire::bytes_value(b, e);
    let w = crate::decode::prim_width(ty)->0;
    crate::wire::lemma_pow256_values();
    crate::wire::lemma_le_value_bound(b);
    crate::wire::lemma_le_value_bound(b.reverse());
    assert(x < crate::wire::pow256(w));
    if w == 1 {
        reveal_with_fuel(crate::wire::le_value, 2);
        assert(b.reverse()[0] == b[0]);
        assert(b.drop_first().len() == 0);
        assert(b.reverse().drop_first().len() == 0);
        assert(x == b[0]);
        let y = b[0];
        assert(y < 0x80 ==> (y as i8) >= 0 && ((y as i8) as usize) == (y as usize)) by (bit_vector);
        assert(y >= 0x80 ==> (y as i8) < 0) by (bit_vector);
    } else if w == 2 {
        let y = x as u16;
        assert(y == x);
        assert(y < 0x8000 ==> (y as i16) >= 0 && ((y as i16) as usize) == (y as usize)) by (bit_vector);
        assert(y >= 0x8000 ==> (y as i16) < 0) by (bit_vector);
    } else if w == 4 {
        let y = x as u32;
        assert(y == x);
        assert(y < 0x8000_0000 ==> (y as i32) >= 0 && ((y as i32) as usize) == (y as usize)) by (bit_vector);
        assert(y >= 0x8000_0000 ==> (y as i32) < 0) by (bit_vector);
    } else {
        let y = x as u64;
        assert(y == x);
        assert(y < 0x8000_0000_0000_0000 ==> (y as i64) >= 0 && ((y as i64) as usize) == (y as usize))
            by (bit_vector);
        assert(y >= 0x8000_0000_0000_0000 ==> (y as i64) < 0) by (bit_vector);
    }
}

/// The ten decimal digits in order.
pub open spec fn decimal_digits() -> Seq<char> {
    seq!['0', '1', '2', '3', '4', '5', '6', '7', '8', '9']
}

/// A run of decimal digits denotes its base-10 value: the `k`-th decimal
/// digit denotes `k`, and appending it multiplies the value by 10 and adds
/// `k`; no digits denote 0.
pub proof fn lemma_decimal_number_value(d: Seq<char>, k: int)
    requires
        0 <= k < 10,
    ensures
        crate::lexer::is_digit(decimal_digits()[k]),
        crate::lexer::digit_value(decimal_digits()[k]) == k,
        crate::lexer::decimal_value(Seq::empty()) == 0,
        crate::lexer::decimal_value(d.push(decimal_digits()[k])) == 10 * crate::lexer::decimal_value(d) + k,
{
    let t = decimal_digits();
    assert(t[0] == '0' && t[1] == '1' && t[2] == '2' && t[3] == '3' && t[4] == '4' && t[5] == '5');
    assert(t[6] == '6' && t[7] == '7' && t[8] == '8' && t[9] == '9');
    assert(d.push(t[k]).drop_last() == d);
}

/// The storage width of a bit-field group is the least of 8, 16, 32 and 64
/// bits that holds its highest bit (64 for a bit past 63).
pub proof fn lemma_storage_width(max_bit: usize)
    ensures
        ({
            let k = crate::wire::storage_key(max_bit);
            &&& k == 8 || k == 16 || k == 32 || k == 64
            &&& max_bit < 64 ==> max_bit < k
            &&& k > 8 ==> max_bit >= 8
            &&& k > 16 ==> max_bit >= 16
            &&& k > 32 ==> max_bit >= 32
        }),
{
}

/// The byte at position `i` of the `w` bytes written for `x`: in little
/// endian the `i`-th least significant byte, in big endian the `i`-th most
/// significant.
pub proof fn lemma_byte_positions(x: nat, w: nat, i: nat)
    requires
        i < w,
    ensures
        crate::wire::int_bytes(x, w, Endianness::Little).len() == w,
        crate::wire::int_bytes(x, w, Endianness::Big).len() == w,
        crate::wire::int_bytes(x, w, Endianness::Little)[i as int] == (x / crate::wire::pow256(i)) % 256,
        crate::wire::int_bytes(x, w, Endianness::Big)[i as int] == (x / crate::wire::pow256(
            (w - 1 - i) as nat,
        )) % 256,
{
    lemma_le_byte(x, w, i);
    lemma_le_byte(x, w, (w - 1 - i) as nat);
    crate::wire::lemma_le_bytes_len(x, w);
}

proof fn lemma_pow256_positive(n: nat)
    ensures
        crate::wire::pow256(n) > 0,
    decreases n,
{
    if n > 0 {
        lemma_pow256_positive((n - 1) as nat);
    }
}

proof fn lemma_le_byte(x: nat, w: nat, i: nat)
    requires
        i < w,
    ensures
        crate::wire::le_bytes(x, w).len() == w,
        crate::wire::le_bytes(x, w)[i as int] == (x / crate::wire::pow256(i)) % 256,
    decreases w,
{
    crate::wire::lemma_le_bytes_len(x, w);
    crate::wire::lemma_le_bytes_len(x / 256, (w - 1) as nat);
    let b = crate::wire::le_bytes(x, w);
    let rest = crate::wire::le_bytes(x / 256, (w - 1) as nat);
    assert(b == seq![(x % 256) as u8] + rest);
    if i > 0 {
        lemma_le_byte(x / 256, (w - 1) as nat, (i - 1) as nat);
        lemma_pow256_positive((i - 1) as nat);
        let p = crate::wire::pow256((i - 1) as nat);
        vstd::arithmetic::div_mod::lemma_div_denominator(x as int, 256, p as int);
        assert(crate::wire::pow256(i) == 256 * p);
        assert(b[i as int] == rest[i - 1]);
        assert((x / 256) / p == x / (256 * p));
    } else {
        assert(crate::wire::pow256(0) == 1);
        assert(x / 1 == x);
        assert(b[0] == (x % 256) as u8);
    }
}

/// The length prefix of a string, byte array or `Vec` is, when prefixes
/// are on, four bytes holding the length (modulo 2^32) most significant
/// first, and nothing when they are off.
pub proof fn lemma_length_prefix(schema: crate::ast::SchemaV, n: nat)
    ensures
        schema.is_prefix_enabled() ==> crate::encode::length_prefix(schema, n).len() == 4
            && crate::wire::bytes_value(crate::encode::length_prefix(schema, n), Endianness::Big) == n
            % 0x1_0000_0000,
        schema.is_prefix_enabled() ==> forall|i: nat|
            i < 4 ==> #[trigger] crate::encode::length_prefix(schema, n)[i as int] == (n / crate::wire::pow256(
                (3 - i) as nat,
            )) % 256,
        !schema.is_prefix_enabled() ==> crate::encode::length_prefix(schema, n).len() == 0,
{
    crate::wire::lemma_bytes_value_mod(n, 4, Endianness::Big);
    crate::wire::lemma_pow256_values();
    assert forall|i: nat| i < 4 implies #[trigger] crate::wire::int_bytes(n, 4, Endianness::Big)[i as int] == (n
        / crate::wire::pow256((3 - i) as nat)) % 256 by {
        lemma_byte_positions(n, 4, i);
    }
}

/// The validator's length-reference rule: `#[len_ref(r)]` naming a field
/// of the struct is accepted exactly when that field is an integer of at
/// most 64 bits (`u8` to `u64`, `i8` to `i64`), and refused otherwise with
/// error `E007`, as is a name no field has.
pub proof fn lemma_len_ref_field_types(r: Seq<char>, f: FieldV, def: StructDefV)
    ensures
        crate::encode::find_field(def.fields, r) matches Some(rf) ==> (crate::validator::attribute_error(
            FieldAttributeV::LenRef(r),
            f,
            def,
        ) is None <==> (rf.ty == TypeV::U8 || rf.ty == TypeV::U16 || rf.ty == TypeV::U32 || rf.ty
            == TypeV::U64 || rf.ty == TypeV::I8 || rf.ty == TypeV::I16 || rf.ty == TypeV::I32 || rf.ty
            == TypeV::I64)),
        crate::encode::find_field(def.fields, r) is None ==> crate::validator::attribute_error(
            FieldAttributeV::LenRef(r),
            f,
            def,
        ) is Some,
        crate::validator::attribute_error(FieldAttributeV::LenRef(r), f, def) matches Some(e) ==> e
            matches ErrorView::Validation { code, .. } && code == "E007"@,
{
}

/// The byte width of each scalar type is its size in bits divided by
/// eight (one byte for `bool`); other types have no fixed scalar width.
pub proof fn lemma_scalar_widths(ty: TypeV)
    ensures
        (ty == TypeV::U8 || ty == TypeV::I8 || ty == TypeV::Bool) <==> crate::decode::prim_width(ty)
            == Some(1nat),
        (ty == TypeV::U16 || ty == TypeV::I16) <==> crate::decode::prim_width(ty) == Some(2nat),
        (ty == TypeV::U32 || ty == TypeV::I32 || ty == TypeV::F32) <==> crate::decode::prim_width(ty)
            == Some(4nat),
        (ty == TypeV::U64 || ty == TypeV::I64 || ty == TypeV::F64) <==> crate::decode::prim_width(ty)
            == Some(8nat),
        (ty == TypeV::U128 || ty == TypeV::I128) <==> crate::decode::prim_width(ty) == Some(16nat),
{
}

} // verus!
