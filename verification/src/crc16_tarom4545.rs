//! Checksum engine for the Tarom4545 line protocol.
//!
//! The controller terminates every datagram with a CRC-16 over all preceding
//! characters, rendered as four hex digits. The variant is non-standard:
//! seed `0x1D0F`, polynomial `0x1021`, MSB first, no reflection, no final
//! XOR, and the checksum of an empty payload is pinned to `0` rather than
//! the generic CRC of an empty string under this seed.

use vstd::prelude::*;

verus! {

/// Initial value of the 16-bit CRC register.
pub const CRC_SEED: u16 = 0x1D0F;

/// Generator polynomial of the CRC, MSB first.
pub const CRC_POLY: u16 = 0x1021;

/// One round of the register update: shift left, folding the polynomial in
/// when the bit shifted out was set.
pub open spec fn crc_round(c: u16) -> u16 {
    if c & 0x8000 != 0 {
        (c << 1) ^ CRC_POLY
    } else {
        c << 1
    }
}

/// `n` successive rounds of the register update.
pub open spec fn crc_rounds(c: u16, n: nat) -> u16
    decreases n,
{
    if n == 0 {
        c
    } else {
        crc_rounds(crc_round(c), (n - 1) as nat)
    }
}

/// Folding one input byte into the register: XOR it into the high 8 bits,
/// then run 8 rounds.
pub open spec fn crc_push_byte(c: u16, b: u8) -> u16 {
    crc_rounds(c ^ ((b as u16) << 8), 8)
}

/// Register value after feeding all of `data`, starting from the seed.
pub open spec fn crc_accum(data: Seq<u8>) -> u16
    decreases data.len(),
{
    if data.len() == 0 {
        CRC_SEED
    } else {
        crc_push_byte(crc_accum(data.drop_last()), data.last())
    }
}

/// The checksum of a payload: `0` for the empty payload (an explicit
/// special case of the protocol), the folded register value otherwise.
pub open spec fn crc16_spec(data: Seq<u8>) -> u16 {
    if data.len() == 0 {
        0
    } else {
        crc_accum(data)
    }
}

proof fn lemma_crc_rounds_snoc(c: u16, n: nat)
    ensures
        crc_rounds(c, n + 1) == crc_round(crc_rounds(c, n)),
    decreases n,
{
    if n == 0 {
        assert(crc_rounds(c, 1) == crc_rounds(crc_round(c), 0));
    } else {
        lemma_crc_rounds_snoc(crc_round(c), (n - 1) as nat);
        assert(crc_rounds(c, n + 1) == crc_rounds(crc_round(c), n));
        assert(crc_rounds(c, n) == crc_rounds(crc_round(c), (n - 1) as nat));
    }
}

/// Computes the CRC-16 (Tarom4545 variant) of `text`.
pub fn crc16_tarom4545(text: &[u8]) -> (crc: u16)
    ensures
        crc == crc16_spec(text@),
{
    if text.len() == 0 {
        return 0;
    }

    let mut crc: u16 = CRC_SEED;
    let mut i: usize = 0;
    while i < text.len()
        invariant
            0 <= i <= text@.len(),
            crc == crc_accum(text@.take(i as int)),
        decreases text@.len() - i,
    {
        let b = text[i];
        let ghost pushed: u16 = crc ^ ((b as u16) << 8);
        crc = crc ^ ((b as u16) << 8);
        let mut k: usize = 0;
        while k < 8
            invariant
                0 <= k <= 8,
                crc == crc_rounds(pushed, k as nat),
            decreases 8 - k,
        {
            let mix = crc & 0x8000;
            let shifted = crc << 1;
            proof {
                lemma_crc_rounds_snoc(pushed, k as nat);
            }
            if mix != 0 {
                crc = shifted ^ CRC_POLY;
            } else {
                crc = shifted;
            }
            k += 1;
        }
        proof {
            assert(text@.take(i + 1).drop_last() =~= text@.take(i as int));
            assert(text@.take(i + 1).last() == text@[i as int]);
        }
        i += 1;
    }
    proof {
        assert(text@.take(text@.len() as int) =~= text@);
    }
    crc
}

/// True for the ASCII digits and letters that stand for a hex digit.
pub open spec fn is_hex_digit(b: u8) -> bool {
    (('0' as u8) <= b && b <= ('9' as u8)) || (('a' as u8) <= b && b <= ('f' as u8)) || (('A' as u8) <= b && b <= ('F' as u8))
}

/// Numeric value of one hex digit (meaningful when `is_hex_digit(b)`).
pub open spec fn hex_digit_val(b: u8) -> u16 {
    if ('0' as u8) <= b && b <= ('9' as u8) {
        (b - ('0' as u8)) as u16
    } else if ('a' as u8) <= b && b <= ('f' as u8) {
        (b - ('a' as u8) + 10) as u16
    } else {
        (b - ('A' as u8) + 10) as u16
    }
}

/// Every byte of `s` is a hex digit.
pub open spec fn all_hex_digits(s: Seq<u8>) -> bool {
    forall|i: int| 0 <= i < s.len() ==> is_hex_digit(s[i])
}

/// The 16-bit value written by four hex digits, most significant first
/// (meaningful when `s.len() == 4` and `all_hex_digits(s)`).
pub open spec fn hex4_val(s: Seq<u8>) -> u16 {
    (hex_digit_val(s[0]) * 0x1000 + hex_digit_val(s[1]) * 0x100 + hex_digit_val(s[2]) * 0x10
        + hex_digit_val(s[3])) as u16
}

/// Numeric value of one hex digit byte, or `None` where the byte is no hex
/// digit.
fn hex_digit(b: u8) -> (r: Option<u16>)
    ensures
        r is Some <==> is_hex_digit(b),
        r matches Some(v) ==> v == hex_digit_val(b) && v < 16,
{
    if ('0' as u8) <= b && b <= ('9' as u8) {
        Some((b - ('0' as u8)) as u16)
    } else if ('a' as u8) <= b && b <= ('f' as u8) {
        Some((b - ('a' as u8) + 10) as u16)
    } else if ('A' as u8) <= b && b <= ('F' as u8) {
        Some((b - ('A' as u8) + 10) as u16)
    } else {
        None
    }
}

/// Reads a 16-bit value from exactly four hex digits.
pub fn parse_hex4(s: &[u8]) -> (r: Option<u16>)
    ensures
        r is Some <==> (s@.len() == 4 && all_hex_digits(s@)),
        r matches Some(v) ==> v == hex4_val(s@),
{
    if s.len() != 4 {
        return None;
    }
    let v0 = match hex_digit(s[0]) {
        Some(v) => v,
        None => {
            return None;
        },
    };
    let v1 = match hex_digit(s[1]) {
        Some(v) => v,
        None => {
            return None;
        },
    };
    let v2 = match hex_digit(s[2]) {
        Some(v) => v,
        None => {
            return None;
        },
    };
    let v3 = match hex_digit(s[3]) {
        Some(v) => v,
        None => {
            return None;
        },
    };
    assert(forall|i: int| 0 <= i < 4 ==> is_hex_digit(s@[i])) by {
        assert(is_hex_digit(s@[0]));
        assert(is_hex_digit(s@[1]));
        assert(is_hex_digit(s@[2]));
        assert(is_hex_digit(s@[3]));
    }
    Some(v0 * 0x1000 + v1 * 0x100 + v2 * 0x10 + v3)
}

/// Why a line failed checksum validation.
#[derive(Clone, Copy, Debug, PartialEq, Eq, Structural)]
pub enum ValidateError {
    /// Fewer than 5 bytes: no room for a 4-hex-digit trailer plus at least
    /// one payload byte.
    TooShort,
    /// The last 4 bytes are not hex digits.
    BadChecksumFormat,
    /// The trailing value differs from the computed CRC of the payload.
    ChecksumMismatch,
}

/// The payload part of a framed line: everything but the 4-byte trailer
/// (meaningful when `line.len() >= 4`).
pub open spec fn payload_of(line: Seq<u8>) -> Seq<u8> {
    line.take(line.len() - 4)
}

/// The 4-byte checksum trailer of a framed line (meaningful when
/// `line.len() >= 4`).
pub open spec fn trailer_of(line: Seq<u8>) -> Seq<u8> {
    line.skip(line.len() - 4)
}

/// Outcome of checksum validation on a whole line.
pub open spec fn validate_result(line: Seq<u8>) -> Result<(), ValidateError> {
    if line.len() < 5 {
        Err(ValidateError::TooShort)
    } else if !all_hex_digits(trailer_of(line)) {
        Err(ValidateError::BadChecksumFormat)
    } else if hex4_val(trailer_of(line)) != crc16_spec(payload_of(line)) {
        Err(ValidateError::ChecksumMismatch)
    } else {
        Ok(())
    }
}

/// A line carries a well-formed trailer that matches the CRC of its payload.
pub open spec fn line_checksum_ok(line: Seq<u8>) -> bool {
    validate_result(line) is Ok
}

/// Four hex digits read injectively, digit by digit: two trailers that
/// agree everywhere but in one digit's value spell different 16-bit values.
pub proof fn lemma_hex4_digit_injective(t1: Seq<u8>, t2: Seq<u8>, j: int)
    requires
        t1.len() == 4,
        t2.len() == 4,
        all_hex_digits(t1),
        all_hex_digits(t2),
        0 <= j < 4,
        forall|i: int| 0 <= i < 4 && i != j ==> t2[i] == t1[i],
        hex_digit_val(t2[j]) != hex_digit_val(t1[j]),
    ensures
        hex4_val(t2) != hex4_val(t1),
{
    assert(hex_digit_val(t1[0]) < 16 && hex_digit_val(t1[1]) < 16 && hex_digit_val(t1[2]) < 16
        && hex_digit_val(t1[3]) < 16);
    assert(hex_digit_val(t2[0]) < 16 && hex_digit_val(t2[1]) < 16 && hex_digit_val(t2[2]) < 16
        && hex_digit_val(t2[3]) < 16);
}

/// Changing any single trailing hex digit of a valid line to one with
/// another value turns validation into a checksum mismatch: the payload
/// still hashes to the old trailer's value, which the new trailer no longer
/// spells.
pub proof fn lemma_trailer_digit_change_mismatch(l1: Seq<u8>, l2: Seq<u8>, j: int)
    requires
        line_checksum_ok(l1),
        l2.len() == l1.len(),
        payload_of(l2) == payload_of(l1),
        all_hex_digits(trailer_of(l2)),
        0 <= j < 4,
        forall|i: int| 0 <= i < 4 && i != j ==> trailer_of(l2)[i] == trailer_of(l1)[i],
        hex_digit_val(trailer_of(l2)[j]) != hex_digit_val(trailer_of(l1)[j]),
    ensures
        validate_result(l2) == Err::<(), ValidateError>(ValidateError::ChecksumMismatch),
{
    lemma_hex4_digit_injective(trailer_of(l1), trailer_of(l2), j);
}

/// Validates the CRC16-Tarom4545 trailer of a line without surrounding
/// whitespace, returning the input unchanged on success. The payload (the
/// line minus its last four bytes) must hash to the value those four hex
/// digits spell.
pub fn validate_line<'a>(line: &'a [u8]) -> (r: Result<&'a [u8], ValidateError>)
    ensures
        (r is Ok) == line_checksum_ok(line@),
        r matches Ok(p) ==> p@ == line@,
        r matches Err(e) ==> validate_result(line@) == Err::<(), ValidateError>(e),
{
    let n = line.len();
    if n < 5 {
        return Err(ValidateError::TooShort);
    }
    let trailer = vstd::slice::slice_subrange(line, n - 4, n);
    let payload = vstd::slice::slice_subrange(line, 0, n - 4);
    proof {
        assert(trailer@ =~= trailer_of(line@));
        assert(payload@ =~= payload_of(line@));
    }
    match parse_hex4(trailer) {
        None => Err(ValidateError::BadChecksumFormat),
        Some(v) => {
            if v == crc16_tarom4545(payload) {
                Ok(line)
            } else {
                Err(ValidateError::ChecksumMismatch)
            }
        },
    }
}

} // verus!
