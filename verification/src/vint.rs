//! The variable-length integers of EBML: element identifiers, which keep
//! their length marker, and element sizes, which drop it.

use vstd::prelude::*;
use crate::error::MkvError;
use crate::stream::ByteReader;

verus! {

/// Whether the length marker stays in the decoded value.
#[derive(Clone, Copy, Debug, PartialEq, Eq, Structural)]
pub enum VintMode {
    /// An element identifier: the marker bit is part of the value.
    Identifier,
    /// An element size: the marker bit is removed from the value.
    Size,
}

/// The total length, in bytes, that the first byte of an encoding announces:
/// one more than the number of zero bits above its highest set bit, and 0
/// when no bit is set.
pub open spec fn vint_length(first: u8) -> nat {
    if first >= 0x80 {
        1
    } else if first >= 0x40 {
        2
    } else if first >= 0x20 {
        3
    } else if first >= 0x10 {
        4
    } else if first >= 0x08 {
        5
    } else if first >= 0x04 {
        6
    } else if first >= 0x02 {
        7
    } else if first >= 0x01 {
        8
    } else {
        0
    }
}

/// The marker bit in the first byte of an encoding of `length` bytes.
pub open spec fn vint_marker(length: nat) -> nat {
    if length == 1 {
        0x80
    } else if length == 2 {
        0x40
    } else if length == 3 {
        0x20
    } else if length == 4 {
        0x10
    } else if length == 5 {
        0x08
    } else if length == 6 {
        0x04
    } else if length == 7 {
        0x02
    } else if length == 8 {
        0x01
    } else {
        0
    }
}

/// The number that `bytes` spell when read as base-256 digits, most
/// significant first.
pub open spec fn be_value(bytes: Seq<u8>) -> nat
    decreases bytes.len(),
{
    if bytes.len() == 0 {
        0
    } else {
        be_value(bytes.drop_last()) * 256 + bytes.last() as nat
    }
}

/// 256 to the power `n`.
pub open spec fn pow256(n: nat) -> nat
    decreases n,
{
    if n == 0 {
        1
    } else {
        256 * pow256((n - 1) as nat)
    }
}

/// The value of a complete encoding `enc`, whose length its first byte
/// announces: all of its digits for an identifier, and the digits without the
/// marker bit for a size.
pub open spec fn vint_value(enc: Seq<u8>, mode: VintMode) -> nat {
    match mode {
        VintMode::Identifier => be_value(enc),
        VintMode::Size => (be_value(enc) - vint_marker(enc.len()) * pow256((enc.len() - 1) as nat)) as nat,
    }
}

/// Decoding a variable-length integer at offset `pos` of `bytes`: the value (or
/// the failure) and the offset where decoding stopped.
///
/// The first byte is always consumed when there is one. A first byte without a
/// set bit is an invalid encoding. When the announced length runs past the end
/// of the stream, the read of the remaining bytes fails and only the first
/// byte is consumed.
pub open spec fn parse_vint(bytes: Seq<u8>, pos: nat, mode: VintMode) -> (Result<u64, MkvError>, nat) {
    if pos >= bytes.len() {
        (Err(MkvError::UnexpectedEof), pos)
    } else {
        let length = vint_length(bytes[pos as int]);
        if length == 0 {
            (Err(MkvError::InvalidVint), pos + 1)
        } else if pos + length > bytes.len() {
            (Err(MkvError::UnexpectedEof), pos + 1)
        } else {
            (
                Ok(vint_value(bytes.subrange(pos as int, (pos + length) as int), mode) as u64),
                pos + length,
            )
        }
    }
}

/// Decoding an element identifier at offset `pos` of `bytes`: a
/// variable-length integer of one to four bytes with its marker kept.
///
/// A first byte that announces more than four bytes, or none, is an invalid
/// identifier, and only that byte is consumed.
pub open spec fn parse_element_id(bytes: Seq<u8>, pos: nat) -> (Result<u32, MkvError>, nat) {
    if pos >= bytes.len() {
        (Err(MkvError::UnexpectedEof), pos)
    } else {
        let length = vint_length(bytes[pos as int]);
        if length == 0 || length > 4 {
            (Err(MkvError::InvalidElementId), pos + 1)
        } else if pos + length > bytes.len() {
            (Err(MkvError::UnexpectedEof), pos + 1)
        } else {
            (
                Ok(
                    vint_value(bytes.subrange(pos as int, (pos + length) as int), VintMode::Identifier) as u32,
                ),
                pos + length,
            )
        }
    }
}

/// The powers of 256 that fit in 64 bits.
pub proof fn lemma_pow256_values()
    ensures
        pow256(0) == 1,
        pow256(1) == 0x100,
        pow256(2) == 0x1_0000,
        pow256(3) == 0x100_0000,
        pow256(4) == 0x1_0000_0000,
        pow256(5) == 0x100_0000_0000,
        pow256(6) == 0x1_0000_0000_0000,
        pow256(7) == 0x100_0000_0000_0000,
        pow256(8) == 0x1_0000_0000_0000_0000,
{
    reveal_with_fuel(pow256, 10);
}

/// The value of a digit string is below 256 to the power of its length, and
/// lies between its first digit and that digit's successor, each times the
/// weight of the first position.
pub proof fn lemma_be_value_bound(bytes: Seq<u8>)
    ensures
        be_value(bytes) < pow256(bytes.len()),
        bytes.len() > 0 ==> bytes[0] as nat * pow256((bytes.len() - 1) as nat) <= be_value(bytes),
        bytes.len() > 0 ==> be_value(bytes) < (bytes[0] as nat + 1) * pow256(
            (bytes.len() - 1) as nat,
        ),
    decreases bytes.len(),
{
    if bytes.len() == 0 {
    } else if bytes.len() == 1 {
        assert(bytes.drop_last().len() == 0);
        assert(be_value(bytes.drop_last()) == 0);
        assert(be_value(bytes) == bytes[0] as nat);
        assert(pow256(0) == 1);
        assert(pow256(1) == 256 * pow256(0));
        let f = bytes[0] as nat;
        let one = pow256((bytes.len() - 1) as nat);
        assert(f * one == f && (f + 1) * one == f + 1) by (nonlinear_arith)
            requires
                one == 1,
        ;
    } else {
        let init = bytes.drop_last();
        lemma_be_value_bound(init);
        assert(init[0] == bytes[0]);
        let w = pow256((init.len() - 1) as nat);
        assert(pow256(init.len()) == 256 * w);
        assert(pow256((bytes.len() - 1) as nat) == 256 * w);
        assert(pow256(bytes.len()) == 256 * pow256(init.len()));
        let f = bytes[0] as nat;
        let v = be_value(init);
        let total = be_value(bytes);
        assert(total == v * 256 + bytes.last() as nat);
        let top = pow256((bytes.len() - 1) as nat);
        assert(f * w <= v < (f + 1) * w);
        assert(f * top <= v * 256 && v * 256 + 256 <= (f + 1) * top) by (nonlinear_arith)
            requires
                f * w <= v < (f + 1) * w,
                top == 256 * w,
        ;
    }
}

/// Appending a digit multiplies the value by 256 and adds the digit.
pub proof fn lemma_be_value_push(bytes: Seq<u8>, digit: u8)
    ensures
        be_value(bytes.push(digit)) == be_value(bytes) * 256 + digit as nat,
{
    assert(bytes.push(digit).drop_last() =~= bytes);
}

/// The length and the marker of a first byte, and the byte without its marker.
fn classify_first_byte(first: u8) -> (r: (usize, u8))
    ensures
        r.0 == vint_length(first),
        r.1 == vint_marker(vint_length(first)),
        r.1 <= first,
        first != 0 ==> first < 2 * r.1,
{
    if first >= 0x80 {
        (1, 0x80)
    } else if first >= 0x40 {
        (2, 0x40)
    } else if first >= 0x20 {
        (3, 0x20)
    } else if first >= 0x10 {
        (4, 0x10)
    } else if first >= 0x08 {
        (5, 0x08)
    } else if first >= 0x04 {
        (6, 0x04)
    } else if first >= 0x02 {
        (7, 0x02)
    } else if first >= 0x01 {
        (8, 0x01)
    } else {
        (0, 0)
    }
}

/// A larger exponent gives a larger or equal power of 256.
pub proof fn lemma_pow256_monotonic(a: nat, b: nat)
    requires
        a <= b,
    ensures
        pow256(a) <= pow256(b),
        pow256(a) >= 1,
    decreases b,
{
    if a == 0 && b == 0 {
    } else if a == b {
        lemma_pow256_monotonic((a - 1) as nat, (b - 1) as nat);
    } else {
        lemma_pow256_monotonic(a, (b - 1) as nat);
    }
}

/// Reads the bytes that follow the first byte `first` of an encoding, which the
/// stream has just handed out, and joins them to it.
fn finish_vint(reader: &mut ByteReader, first: u8, mode: VintMode) -> (r: Result<(u64, usize), MkvError>)
    requires
        1 <= old(reader).offset() <= old(reader).bytes().len(),
        old(reader).bytes()[old(reader).offset() - 1] == first,
        vint_length(first) >= 1,
    ensures
        final(reader).bytes() == old(reader).bytes(),
        final(reader).offset() <= final(reader).bytes().len(),
        (match r {
            Ok(p) => Ok(p.0),
            Err(e) => Err(e),
        }, final(reader).offset()) == parse_vint(
            old(reader).bytes(),
            (old(reader).offset() - 1) as nat,
            mode,
        ),
        r is Ok ==> r->Ok_0.1 == vint_length(first) && r->Ok_0.0 < 256 * pow256(
            (vint_length(first) - 1) as nat,
        ) && r->Ok_0.0 == vint_value(
            old(reader).bytes().subrange(
                old(reader).offset() - 1,
                old(reader).offset() - 1 + vint_length(first),
            ),
            mode,
        ),
{
    let ghost bytes = reader.bytes();
    let ghost start = (reader.offset() - 1) as nat;
    let (length, marker) = classify_first_byte(first);
    let rest = match reader.read_exact((length - 1) as u64) {
        Ok(v) => v,
        Err(e) => {
            return Err(e);
        },
    };
    let ghost enc = bytes.subrange(start as int, start + length);
    let lead: u8 = match mode {
        VintMode::Identifier => first,
        VintMode::Size => first - marker,
    };
    let mut value: u64 = lead as u64;
    let mut i: usize = 0;
    proof {
        lemma_pow256_values();
        assert(enc.subrange(0, 1) =~= seq![first]);
        assert(seq![first].drop_last() =~= Seq::<u8>::empty());
        assert(be_value(seq![first]) == first as nat) by {
            assert(be_value(Seq::<u8>::empty()) == 0);
            assert(seq![first].last() == first);
        }
    }
    while i < length - 1
        invariant
            1 <= length <= 8,
            i <= length - 1,
            rest@.len() == length - 1,
            enc.len() == length,
            enc[0] == first,
            forall|k: int| 0 <= k < length - 1 ==> enc[k + 1] == #[trigger] rest@[k],
            lead == first || lead == first - marker,
            marker == vint_marker(length as nat),
            marker <= first,
            value + (first - lead) * pow256(i as nat) == be_value(enc.subrange(0, i + 1)),
            value < (lead as nat + 1) * pow256(i as nat),
            lead as nat + 1 <= 256,
        decreases length - 1 - i,
    {
        let b = rest[i];
        proof {
            lemma_pow256_values();
            let prefix = enc.subrange(0, i + 1);
            assert(enc.subrange(0, i + 2) =~= prefix.push(b));
            lemma_be_value_push(prefix, b);
            assert(pow256((i + 1) as nat) == 256 * pow256(i as nat));
            let w = pow256(i as nat);
            let d = (first - lead) as nat;
            assert((value + d * w) * 256 == value * 256 + d * (256 * w)) by (nonlinear_arith);
            assert(value * 256 + 256 <= (lead as nat + 1) * (256 * w)) by (nonlinear_arith)
                requires
                    value < (lead as nat + 1) * w,
            ;
            assert((lead as nat + 1) * (256 * w) <= 256 * (256 * w)) by (nonlinear_arith)
                requires
                    lead as nat + 1 <= 256,
            ;
            assert(i + 1 <= 7);
            assert(256 * w <= pow256(7)) by {
                lemma_pow256_monotonic((i + 1) as nat, 7);
            }
        }
        value = value * 256 + b as u64;
        i = i + 1;
    }
    proof {
        assert(enc.subrange(0, length as int) =~= enc);
        assert(first - lead == 0 || first - lead == marker);
        let w = pow256((length - 1) as nat);
        assert((lead as nat + 1) * w <= 256 * w) by (nonlinear_arith)
            requires
                lead as nat + 1 <= 256,
        ;
    }
    Ok((value, length))
}

/// Decodes the variable-length integer at the stream's offset in the given
/// mode and returns its value with the number of bytes it occupies.
pub fn decode_vint(reader: &mut ByteReader, mode: VintMode) -> (r: Result<(u64, usize), MkvError>)
    ensures
        final(reader).bytes() == old(reader).bytes(),
        final(reader).offset() <= final(reader).bytes().len(),
        (match r {
            Ok(p) => Ok(p.0),
            Err(e) => Err(e),
        }, final(reader).offset()) == parse_vint(old(reader).bytes(), old(reader).offset(), mode),
        r is Ok ==> r->Ok_0.1 == vint_length(old(reader).bytes()[old(reader).offset() as int])
            && final(reader).offset() == old(reader).offset() + r->Ok_0.1,
{
    let first = match reader.read_u8() {
        Ok(b) => b,
        Err(e) => {
            return Err(e);
        },
    };
    let (length, _) = classify_first_byte(first);
    if length == 0 {
        return Err(MkvError::InvalidVint);
    }
    finish_vint(reader, first, mode)
}

/// Reads an element size: a variable-length integer with its marker removed.
pub fn read_vint(reader: &mut ByteReader) -> (r: Result<u64, MkvError>)
    ensures
        final(reader).bytes() == old(reader).bytes(),
        final(reader).offset() <= final(reader).bytes().len(),
        (r, final(reader).offset()) == parse_vint(
            old(reader).bytes(),
            old(reader).offset(),
            VintMode::Size,
        ),
{
    match decode_vint(reader, VintMode::Size) {
        Ok(p) => Ok(p.0),
        Err(e) => Err(e),
    }
}

/// Reads an element identifier: a variable-length integer of at most four
/// bytes with its marker kept.
pub fn read_element_id(reader: &mut ByteReader) -> (r: Result<u32, MkvError>)
    ensures
        final(reader).bytes() == old(reader).bytes(),
        final(reader).offset() <= final(reader).bytes().len(),
        (r, final(reader).offset()) == parse_element_id(old(reader).bytes(), old(reader).offset()),
{
    let first = match reader.read_u8() {
        Ok(b) => b,
        Err(e) => {
            return Err(e);
        },
    };
    let (length, _) = classify_first_byte(first);
    if length == 0 || length > 4 {
        return Err(MkvError::InvalidElementId);
    }
    match finish_vint(reader, first, VintMode::Identifier) {
        Ok(p) => {
            proof {
                lemma_pow256_values();
                lemma_pow256_monotonic((length - 1) as nat, 3);
            }
            Ok(p.0 as u32)
        },
        Err(e) => Err(e),
    }
}

/// The identifier and the declared payload size that stand before an
/// element's payload.
#[derive(Clone, Copy, Debug, PartialEq, Eq, Structural)]
pub struct ElementHeader {
    pub id: u32,
    pub size: u64,
}

/// Decoding an element header at offset `pos` of `bytes`: the identifier, then
/// the size. The offset of a failure is where the failing part stopped.
pub open spec fn parse_element_header(bytes: Seq<u8>, pos: nat) -> (Result<ElementHeader, MkvError>, nat) {
    match parse_element_id(bytes, pos) {
        (Err(e), stop) => (Err(e), stop),
        (Ok(id), after_id) => match parse_vint(bytes, after_id, VintMode::Size) {
            (Err(e), stop) => (Err(e), stop),
            (Ok(size), after_size) => (Ok(ElementHeader { id, size }), after_size),
        },
    }
}

/// Reads the header of the element at the stream's offset.
pub fn read_element_header(reader: &mut ByteReader) -> (r: Result<ElementHeader, MkvError>)
    ensures
        final(reader).bytes() == old(reader).bytes(),
        final(reader).offset() <= final(reader).bytes().len(),
        (r, final(reader).offset()) == parse_element_header(
            old(reader).bytes(),
            old(reader).offset(),
        ),
{
    let id = match read_element_id(reader) {
        Ok(id) => id,
        Err(e) => {
            return Err(e);
        },
    };
    match read_vint(reader) {
        Ok(size) => Ok(ElementHeader { id, size }),
        Err(e) => Err(e),
    }
}

/// The big-endian value of `buffer`, reduced to 64 bits: for a buffer of at
/// most eight bytes, the value itself.
pub fn bytes_to_u64(buffer: &[u8]) -> (value: u64)
    ensures
        value == be_value(buffer@) % 0x1_0000_0000_0000_0000,
        buffer@.len() <= 8 ==> value == be_value(buffer@),
{
    let mut acc: u64 = 0;
    let mut i: usize = 0;
    proof {
        assert(buffer@.subrange(0, 0) =~= Seq::<u8>::empty());
    }
    while i < buffer.len()
        invariant
            i <= buffer@.len(),
            acc == be_value(buffer@.subrange(0, i as int)) % 0x1_0000_0000_0000_0000,
        decreases buffer@.len() - i,
    {
        let b = buffer[i];
        proof {
            let m = 0x1_0000_0000_0000_0000int;
            let prefix = buffer@.subrange(0, i as int);
            let x = be_value(prefix) as int;
            assert(buffer@.subrange(0, i + 1) =~= prefix.push(b));
            lemma_be_value_push(prefix, b);
            vstd::arithmetic::div_mod::lemma_mul_mod_noop_left(x, 256, m);
            vstd::arithmetic::div_mod::lemma_add_mod_noop(x * 256, b as int, m);
            vstd::arithmetic::div_mod::lemma_add_mod_noop((acc as int) * 256, b as int, m);
            vstd::arithmetic::div_mod::lemma_small_mod(b as nat, m as nat);
        }
        acc = acc.wrapping_mul(256).wrapping_add(b as u64);
        i = i + 1;
    }
    proof {
        assert(buffer@.subrange(0, buffer@.len() as int) =~= buffer@);
        if buffer@.len() <= 8 {
            lemma_be_value_bound(buffer@);
            lemma_pow256_values();
            lemma_pow256_monotonic(buffer@.len(), 8);
        }
    }
    acc
}

/// The marker of each length times the weight of the first position: 2 to
/// the power of seven times the length.
pub proof fn lemma_marker_weight(length: nat)
    requires
        1 <= length <= 8,
    ensures
        vint_marker(length) * pow256((length - 1) as nat) <= 0x100_0000_0000_0000,
        vint_marker(length) * pow256((length - 1) as nat) >= 0x80,
        length <= 4 ==> vint_marker(length) * pow256((length - 1) as nat) <= 0x1000_0000,
{
    lemma_pow256_values();
    if length == 1 {
        assert(vint_marker(length) == 0x80 && pow256((length - 1) as nat) == 1);
    } else if length == 2 {
        assert(vint_marker(length) == 0x40 && pow256((length - 1) as nat) == 0x100);
    } else if length == 3 {
        assert(vint_marker(length) == 0x20 && pow256((length - 1) as nat) == 0x1_0000);
    } else if length == 4 {
        assert(vint_marker(length) == 0x10 && pow256((length - 1) as nat) == 0x100_0000);
    } else if length == 5 {
        assert(vint_marker(length) == 0x08 && pow256((length - 1) as nat) == 0x1_0000_0000);
    } else if length == 6 {
        assert(vint_marker(length) == 0x04 && pow256((length - 1) as nat) == 0x100_0000_0000);
    } else if length == 7 {
        assert(vint_marker(length) == 0x02 && pow256((length - 1) as nat) == 0x1_0000_0000_0000);
    } else {
        assert(vint_marker(length) == 0x01 && pow256((length - 1) as nat) == 0x100_0000_0000_0000);
    }
}

/// A complete encoding of a size is worth less than its marker's weight, and
/// the same bytes read as an identifier are worth that weight more.
pub proof fn lemma_vint_value_bound(enc: Seq<u8>)
    requires
        enc.len() >= 1,
        enc.len() == vint_length(enc[0]),
    ensures
        vint_value(enc, VintMode::Size) < vint_marker(enc.len()) * pow256((enc.len() - 1) as nat),
        vint_value(enc, VintMode::Identifier) == vint_value(enc, VintMode::Size) + vint_marker(
            enc.len(),
        ) * pow256((enc.len() - 1) as nat),
        vint_value(enc, VintMode::Identifier) < 0x200_0000_0000_0000,
{
    lemma_be_value_bound(enc);
    lemma_marker_weight(enc.len());
    let w = pow256((enc.len() - 1) as nat);
    let f = enc[0] as nat;
    let m = vint_marker(enc.len());
    assert(m <= f && f + 1 <= 2 * m);
    assert(m * w <= f * w && (f + 1) * w <= 2 * (m * w)) by (nonlinear_arith)
        requires
            m <= f && f + 1 <= 2 * m,
    ;
}

/// The length that a first byte announces is the place of its highest set
/// bit, counted from the top and starting at one: the marker of that length
/// is set and no bit above it is. Without the marker, the byte is what its
/// bits below the marker spell.
pub proof fn lemma_length_is_highest_bit(first: u8)
    ensures
        vint_length(first) == 0 <==> first == 0,
        vint_length(first) == 1 <==> first & 0x80 != 0,
        vint_length(first) == 2 <==> first & 0x40 != 0 && first & 0x80 == 0,
        vint_length(first) == 3 <==> first & 0x20 != 0 && first & 0xC0 == 0,
        vint_length(first) == 4 <==> first & 0x10 != 0 && first & 0xE0 == 0,
        vint_length(first) == 5 <==> first & 0x08 != 0 && first & 0xF0 == 0,
        vint_length(first) == 6 <==> first & 0x04 != 0 && first & 0xF8 == 0,
        vint_length(first) == 7 <==> first & 0x02 != 0 && first & 0xFC == 0,
        vint_length(first) == 8 <==> first & 0x01 != 0 && first & 0xFE == 0,
        vint_length(first) == 1 ==> first - 0x80 == first & 0x7F,
        vint_length(first) == 2 ==> first - 0x40 == first & 0x3F,
        vint_length(first) == 3 ==> first - 0x20 == first & 0x1F,
        vint_length(first) == 4 ==> first - 0x10 == first & 0x0F,
        vint_length(first) == 5 ==> first - 0x08 == first & 0x07,
        vint_length(first) == 6 ==> first - 0x04 == first & 0x03,
        vint_length(first) == 7 ==> first - 0x02 == first & 0x01,
        vint_length(first) == 8 ==> first - 0x01 == first & 0x00,
{
    assert(first >= 0x80 <==> first & 0x80 != 0) by (bit_vector);
    assert(0x40 <= first < 0x80 <==> first & 0x40 != 0 && first & 0x80 == 0) by (bit_vector);
    assert(0x20 <= first < 0x40 <==> first & 0x20 != 0 && first & 0xC0 == 0) by (bit_vector);
    assert(0x10 <= first < 0x20 <==> first & 0x10 != 0 && first & 0xE0 == 0) by (bit_vector);
    assert(0x08 <= first < 0x10 <==> first & 0x08 != 0 && first & 0xF0 == 0) by (bit_vector);
    assert(0x04 <= first < 0x08 <==> first & 0x04 != 0 && first & 0xF8 == 0) by (bit_vector);
    assert(0x02 <= first < 0x04 <==> first & 0x02 != 0 && first & 0xFC == 0) by (bit_vector);
    assert(0x01 <= first < 0x02 <==> first & 0x01 != 0 && first & 0xFE == 0) by (bit_vector);
    assert(first >= 0x80 ==> first - 0x80 == first & 0x7F) by (bit_vector);
    assert(0x40 <= first < 0x80 ==> first - 0x40 == first & 0x3F) by (bit_vector);
    assert(0x20 <= first < 0x40 ==> first - 0x20 == first & 0x1F) by (bit_vector);
    assert(0x10 <= first < 0x20 ==> first - 0x10 == first & 0x0F) by (bit_vector);
    assert(0x08 <= first < 0x10 ==> first - 0x08 == first & 0x07) by (bit_vector);
    assert(0x04 <= first < 0x08 ==> first - 0x04 == first & 0x03) by (bit_vector);
    assert(0x02 <= first < 0x04 ==> first - 0x02 == first & 0x01) by (bit_vector);
    assert(0x01 <= first < 0x02 ==> first - 0x01 == first & 0x00) by (bit_vector);
}

/// Every one-byte encoding `0x80 | n` decodes, as a size, to `n` and occupies
/// exactly one byte.
pub proof fn lemma_one_byte_size(n: u8)
    requires
        n < 128,
    ensures
        parse_vint(seq![0x80u8 | n], 0, VintMode::Size) == (Ok::<u64, MkvError>(n as u64), 1nat),
{
    let first = 0x80u8 | n;
    assert(first == 0x80 + n) by (bit_vector)
        requires
            first == 0x80u8 | n,
            n < 128,
    ;
    let bytes = seq![first];
    let enc = bytes.subrange(0, 1);
    assert(enc =~= bytes);
    assert(bytes.drop_last() =~= Seq::<u8>::empty());
    assert(be_value(Seq::<u8>::empty()) == 0);
    assert(be_value(bytes) == first as nat);
    lemma_pow256_values();
}

/// Identifier decoding never removes the marker: wherever a size decodes, the
/// same bytes decode as a variable-length identifier that ends at the same
/// offset and is worth the size plus the marker bit at its place in the
/// encoding.
pub proof fn lemma_identifier_keeps_marker(bytes: Seq<u8>, pos: nat)
    requires
        parse_vint(bytes, pos, VintMode::Size).0 is Ok,
    ensures
        parse_vint(bytes, pos, VintMode::Identifier).0 is Ok,
        parse_vint(bytes, pos, VintMode::Identifier).1 == parse_vint(bytes, pos, VintMode::Size).1,
        ({
            let length = vint_length(bytes[pos as int]);
            parse_vint(bytes, pos, VintMode::Identifier).0->Ok_0 == parse_vint(
                bytes,
                pos,
                VintMode::Size,
            ).0->Ok_0 + vint_marker(length) * pow256((length - 1) as nat)
        }),
        parse_vint(bytes, pos, VintMode::Identifier).0->Ok_0 > parse_vint(
            bytes,
            pos,
            VintMode::Size,
        ).0->Ok_0,
{
    let length = vint_length(bytes[pos as int]);
    let enc = bytes.subrange(pos as int, (pos + length) as int);
    lemma_vint_value_bound(enc);
    lemma_marker_weight(length);
}

/// A header that decodes occupies at least two bytes and ends inside the
/// stream, and its size is below 2 to the power 56.
pub proof fn lemma_header_extent(bytes: Seq<u8>, pos: nat)
    requires
        parse_element_header(bytes, pos).0 is Ok,
    ensures
        pos + 2 <= parse_element_header(bytes, pos).1 <= bytes.len(),
        parse_element_header(bytes, pos).1 <= pos + 12,
        parse_element_header(bytes, pos).0->Ok_0.size < 0x100_0000_0000_0000,
{
    let after_id = parse_element_id(bytes, pos).1;
    let length = vint_length(bytes[after_id as int]);
    let enc = bytes.subrange(after_id as int, (after_id + length) as int);
    lemma_vint_value_bound(enc);
    lemma_marker_weight(length);
}

} // verus!
