//! The compute half of the ingestion driver: trimming a raw datagram and
//! decoding it. Receiving the bytes from the network stays with the caller;
//! what it hands over is decoded here, and every datagram — well-formed or
//! not — comes back as exactly one record.

use vstd::prelude::*;

use crate::battery_reading_line::BatteryReadingLine;
use crate::battery_reading_line::extract_spec;
use crate::battery_reading_line::new_spec;
use crate::crc16_tarom4545::line_checksum_ok;

verus! {

/// The whitespace bytes that surround a datagram on the wire: space, tab,
/// line feed, vertical tab, form feed, carriage return.
pub open spec fn is_ascii_space(b: u8) -> bool {
    b == 0x20 || b == 0x09 || b == 0x0A || b == 0x0B || b == 0x0C || b == 0x0D
}

/// `s` with its leading whitespace removed.
pub open spec fn trim_front(s: Seq<u8>) -> Seq<u8>
    decreases s.len(),
{
    if s.len() > 0 && is_ascii_space(s[0]) {
        trim_front(s.skip(1))
    } else {
        s
    }
}

/// `s` with its trailing whitespace removed.
pub open spec fn trim_back(s: Seq<u8>) -> Seq<u8>
    decreases s.len(),
{
    if s.len() > 0 && is_ascii_space(s.last()) {
        trim_back(s.drop_last())
    } else {
        s
    }
}

/// `s` with surrounding whitespace removed.
pub open spec fn trim_spec(s: Seq<u8>) -> Seq<u8> {
    trim_back(trim_front(s))
}

/// Strips surrounding ASCII whitespace from a raw datagram.
pub fn trim_ascii<'a>(line: &'a [u8]) -> (r: &'a [u8])
    ensures
        r@ == trim_spec(line@),
{
    let mut lo: usize = 0;
    proof {
        assert(line@.skip(0) =~= line@);
    }
    while lo < line.len() && (line[lo] == 0x20 || line[lo] == 0x09 || line[lo] == 0x0A
        || line[lo] == 0x0B || line[lo] == 0x0C || line[lo] == 0x0D)
        invariant
            0 <= lo <= line@.len(),
            trim_front(line@) == trim_front(line@.skip(lo as int)),
        decreases line@.len() - lo,
    {
        proof {
            assert(line@.skip(lo as int)[0] == line@[lo as int]);
            assert(line@.skip(lo as int).skip(1) =~= line@.skip(lo + 1));
        }
        lo += 1;
    }
    proof {
        if lo < line@.len() {
            assert(!is_ascii_space(line@.skip(lo as int)[0]));
        }
        assert(trim_front(line@) == line@.skip(lo as int));
    }
    let mut hi: usize = line.len();
    while hi > lo && (line[hi - 1] == 0x20 || line[hi - 1] == 0x09 || line[hi - 1] == 0x0A
        || line[hi - 1] == 0x0B || line[hi - 1] == 0x0C || line[hi - 1] == 0x0D)
        invariant
            lo <= hi <= line@.len(),
            trim_back(line@.skip(lo as int)) == trim_back(line@.subrange(lo as int, hi as int)),
        decreases hi,
    {
        proof {
            let t = line@.subrange(lo as int, hi as int);
            assert(t.last() == line@[hi - 1]);
            assert(t.drop_last() =~= line@.subrange(lo as int, hi - 1));
        }
        hi -= 1;
    }
    proof {
        let t = line@.subrange(lo as int, hi as int);
        if hi > lo {
            assert(t.last() == line@[hi - 1]);
            assert(!is_ascii_space(t.last()));
        }
        assert(trim_back(t) == t);
    }
    vstd::slice::slice_subrange(line, lo, hi)
}

/// The record one raw datagram decodes to: trim, validate, extract; the
/// all-null sentinel on any failure.
pub open spec fn on_datagram_spec(raw: Seq<u8>) -> BatteryReadingLine {
    match new_spec(trim_spec(raw)) {
        Ok(rec) => rec,
        Err(rec) => rec,
    }
}

/// Turns one raw datagram into one reading record: strips surrounding
/// whitespace, then decodes. Never fails outward: a malformed datagram
/// yields the sentinel record, so one bad datagram cannot stop the intake
/// of the next.
pub fn on_datagram(raw: &[u8]) -> (rec: BatteryReadingLine)
    ensures
        rec == on_datagram_spec(raw@),
        rec.erreur_crc16 == false <==> (line_checksum_ok(trim_spec(raw@)) && extract_spec(
            trim_spec(raw@),
        ) is Ok),
        crate::battery_reading_line::record_wf(rec),
{
    proof {
        crate::battery_reading_line::lemma_decode_wf(trim_spec(raw@));
    }
    let line = trim_ascii(raw);
    match BatteryReadingLine::new(line) {
        Ok(rec) => rec,
        Err(rec) => rec,
    }
}

} // verus!
