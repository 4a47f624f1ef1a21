//! The record decoder: one datagram line in, one typed reading record out.
//!
//! A line that passed checksum validation is split on `;` into exactly 27
//! positional fields, and each field is converted by its own rule. Any
//! failure — bad checksum, wrong arity, or one unparsable field — yields the
//! canonical all-null record with its error flag set, never a partially
//! filled one.

use vstd::prelude::*;

use crate::crc16_tarom4545::line_checksum_ok;
use crate::crc16_tarom4545::validate_line;
use crate::fields::Date;
use crate::fields::Decimal;
use crate::fields::Time;
use crate::fields::bool_field;
use crate::fields::char_field;
use crate::fields::convert_type_bool;
use crate::fields::convert_type_char;
use crate::fields::convert_type_date;
use crate::fields::convert_type_decimal;
use crate::fields::convert_type_hex;
use crate::fields::convert_type_time;
use crate::fields::convert_type_u8;
use crate::fields::date_field;
use crate::fields::decimal_field;
use crate::fields::find_byte;
use crate::fields::hex_field;
use crate::fields::lemma_find_byte_at;
use crate::fields::lemma_find_byte_none;
use crate::fields::lemma_find_byte_props;
use crate::fields::time_field;
use crate::fields::u8_field;

verus! {

/// One reading sent by the Steca Tarom4545 battery monitor. Every field but
/// the error flag is independently nullable; `erreur_crc16` is set exactly
/// on the canonical all-null record that stands for a failed decode.
#[derive(Clone, Copy, Debug, PartialEq)]
pub struct BatteryReadingLine {
    pub num_ver: Option<u8>,
    pub jour_sommet: Option<Date>,
    pub heure_sommet: Option<Time>,
    pub tension_bat: Option<Decimal>,
    pub tension_pv1: Option<Decimal>,
    pub tension_pv2: Option<Decimal>,
    pub charge: Option<Decimal>,
    pub test_capacite: Option<Decimal>,
    pub courant_total_charge_decharge: Option<Decimal>,
    pub courant_pv1: Option<Decimal>,
    pub courant_pv2: Option<Decimal>,
    pub courant_entree_appareil: Option<Decimal>,
    pub courant_charge_total: Option<Decimal>,
    pub courant_consommateur: Option<Decimal>,
    pub courant_decharge_total: Option<Decimal>,
    pub temperature: Option<Decimal>,
    pub erreur: Option<u8>,
    pub mode_charge: Option<char>,
    pub etat_commut_sortie_charge: Option<bool>,
    pub etat_commut_aux1: Option<bool>,
    pub etat_commut_aux2: Option<bool>,
    pub entree_energie_24h: Option<Decimal>,
    pub entree_energie_total: Option<Decimal>,
    pub sortie_energie_24h: Option<Decimal>,
    pub sortie_energie_total: Option<Decimal>,
    pub reduction: Option<bool>,
    pub crc16: Option<u16>,
    pub erreur_crc16: bool,
}

/// The views of a sequence of byte slices.
pub open spec fn views_of(fs: Seq<&[u8]>) -> Seq<Seq<u8>> {
    fs.map_values(|f: &[u8]| f@)
}

/// Splitting a line on `;`: the pieces between separators, in order. A line
/// without a separator is one piece; every separator ends a piece, so `n`
/// separators make `n + 1` pieces.
pub open spec fn split_fields(s: Seq<u8>) -> Seq<Seq<u8>>
    decreases s.len(),
{
    let d = find_byte(s, ';' as u8);
    if d < 0 {
        seq![s]
    } else {
        proof {
            lemma_find_byte_props(s, ';' as u8);
        }
        seq![s.take(d)] + split_fields(s.skip(d + 1))
    }
}

/// Splits a record line on the `;` separators.
pub fn split_record<'a>(line: &'a [u8]) -> (fields: Vec<&'a [u8]>)
    ensures
        views_of(fields@) == split_fields(line@),
{
    let mut fields: Vec<&[u8]> = Vec::new();
    let mut start: usize = 0;
    let mut i: usize = 0;
    proof {
        assert(line@.skip(0) =~= line@);
        assert(views_of(fields@) =~= Seq::<Seq<u8>>::empty());
        assert(views_of(fields@) + split_fields(line@) =~= split_fields(line@));
    }
    while i < line.len()
        invariant
            0 <= start <= i <= line@.len(),
            forall|j: int| start <= j < i ==> line@[j] != (';' as u8),
            views_of(fields@) + split_fields(line@.skip(start as int)) == split_fields(line@),
        decreases line@.len() - i,
    {
        if line[i] == (';' as u8) {
            let piece = vstd::slice::slice_subrange(line, start, i);
            proof {
                let t = line@.skip(start as int);
                assert(t[i - start] == line@[i as int]);
                assert forall|j: int| 0 <= j < i - start implies t[j] != (';' as u8) by {
                    assert(t[j] == line@[j + start]);
                }
                lemma_find_byte_at(t, ';' as u8, i - start);
                assert(t.take(i - start) =~= piece@);
                assert(t.skip(i - start + 1) =~= line@.skip(i + 1));
                assert(split_fields(t) == seq![piece@] + split_fields(line@.skip(i + 1)));
                assert(views_of(fields@.push(piece)) =~= views_of(fields@).push(piece@));
                assert(views_of(fields@.push(piece)) + split_fields(line@.skip(i + 1))
                    =~= views_of(fields@) + split_fields(line@.skip(start as int)));
            }
            fields.push(piece);
            start = i + 1;
        }
        i += 1;
    }
    let piece = vstd::slice::slice_subrange(line, start, line.len());
    proof {
        let t = line@.skip(start as int);
        assert forall|j: int| 0 <= j < t.len() implies t[j] != (';' as u8) by {
            assert(t[j] == line@[j + start]);
        }
        lemma_find_byte_none(t, ';' as u8);
        assert(piece@ =~= t);
        assert(views_of(fields@.push(piece)) =~= views_of(fields@).push(piece@));
        assert(views_of(fields@).push(piece@) =~= views_of(fields@) + split_fields(t));
    }
    fields.push(piece);
    fields
}

/// Every one of the 27 positional fields parses under its rule.
pub open spec fn fields_ok(fs: Seq<Seq<u8>>) -> bool {
    &&& fs.len() == 27
    &&& u8_field(fs[0]) is Ok
    &&& date_field(fs[1]) is Ok
    &&& time_field(fs[2]) is Ok
    &&& decimal_field(fs[3]) is Ok
    &&& decimal_field(fs[4]) is Ok
    &&& decimal_field(fs[5]) is Ok
    &&& decimal_field(fs[6]) is Ok
    &&& decimal_field(fs[7]) is Ok
    &&& decimal_field(fs[8]) is Ok
    &&& decimal_field(fs[9]) is Ok
    &&& decimal_field(fs[10]) is Ok
    &&& decimal_field(fs[11]) is Ok
    &&& decimal_field(fs[12]) is Ok
    &&& decimal_field(fs[13]) is Ok
    &&& decimal_field(fs[14]) is Ok
    &&& decimal_field(fs[15]) is Ok
    &&& u8_field(fs[16]) is Ok
    &&& char_field(fs[17]) is Ok
    &&& bool_field(fs[18]) is Ok
    &&& bool_field(fs[19]) is Ok
    &&& bool_field(fs[20]) is Ok
    &&& decimal_field(fs[21]) is Ok
    &&& decimal_field(fs[22]) is Ok
    &&& decimal_field(fs[23]) is Ok
    &&& decimal_field(fs[24]) is Ok
    &&& bool_field(fs[25]) is Ok
    &&& hex_field(fs[26]) is Ok
}

/// The record assembled from 27 parsed fields (meaningful when
/// `fields_ok(fs)`), with the error flag clear.
pub open spec fn record_of(fs: Seq<Seq<u8>>) -> BatteryReadingLine {
    BatteryReadingLine {
        num_ver: u8_field(fs[0])->Ok_0,
        jour_sommet: date_field(fs[1])->Ok_0,
        heure_sommet: time_field(fs[2])->Ok_0,
        tension_bat: decimal_field(fs[3])->Ok_0,
        tension_pv1: decimal_field(fs[4])->Ok_0,
        tension_pv2: decimal_field(fs[5])->Ok_0,
        charge: decimal_field(fs[6])->Ok_0,
        test_capacite: decimal_field(fs[7])->Ok_0,
        courant_total_charge_decharge: decimal_field(fs[8])->Ok_0,
        courant_pv1: decimal_field(fs[9])->Ok_0,
        courant_pv2: decimal_field(fs[10])->Ok_0,
        courant_entree_appareil: decimal_field(fs[11])->Ok_0,
        courant_charge_total: decimal_field(fs[12])->Ok_0,
        courant_consommateur: decimal_field(fs[13])->Ok_0,
        courant_decharge_total: decimal_field(fs[14])->Ok_0,
        temperature: decimal_field(fs[15])->Ok_0,
        erreur: u8_field(fs[16])->Ok_0,
        mode_charge: char_field(fs[17])->Ok_0,
        etat_commut_sortie_charge: bool_field(fs[18])->Ok_0,
        etat_commut_aux1: bool_field(fs[19])->Ok_0,
        etat_commut_aux2: bool_field(fs[20])->Ok_0,
        entree_energie_24h: decimal_field(fs[21])->Ok_0,
        entree_energie_total: decimal_field(fs[22])->Ok_0,
        sortie_energie_24h: decimal_field(fs[23])->Ok_0,
        sortie_energie_total: decimal_field(fs[24])->Ok_0,
        reduction: bool_field(fs[25])->Ok_0,
        crc16: hex_field(fs[26])->Ok_0,
        erreur_crc16: false,
    }
}

/// Field-by-field extraction from a line: the assembled record where the
/// arity is exactly 27 and every field parses, a failure otherwise.
pub open spec fn extract_spec(s: Seq<u8>) -> Result<BatteryReadingLine, ()> {
    let fs = split_fields(s);
    if fields_ok(fs) {
        Ok(record_of(fs))
    } else {
        Err(())
    }
}

/// The canonical all-null record with the error flag set: what every failed
/// decode yields.
pub open spec fn sentinel_spec() -> BatteryReadingLine {
    BatteryReadingLine {
        num_ver: None,
        jour_sommet: None,
        heure_sommet: None,
        tension_bat: None,
        tension_pv1: None,
        tension_pv2: None,
        charge: None,
        test_capacite: None,
        courant_total_charge_decharge: None,
        courant_pv1: None,
        courant_pv2: None,
        courant_entree_appareil: None,
        courant_charge_total: None,
        courant_consommateur: None,
        courant_decharge_total: None,
        temperature: None,
        erreur: None,
        mode_charge: None,
        etat_commut_sortie_charge: None,
        etat_commut_aux1: None,
        etat_commut_aux2: None,
        entree_energie_24h: None,
        entree_energie_total: None,
        sortie_energie_24h: None,
        sortie_energie_total: None,
        reduction: None,
        crc16: None,
        erreur_crc16: true,
    }
}

/// Whole-line decoding: the assembled record where the checksum holds and
/// every field parses, the sentinel otherwise.
pub open spec fn new_spec(s: Seq<u8>) -> Result<BatteryReadingLine, BatteryReadingLine> {
    if line_checksum_ok(s) && extract_spec(s) is Ok {
        Ok(extract_spec(s)->Ok_0)
    } else {
        Err(sentinel_spec())
    }
}

impl BatteryReadingLine {
    /// The canonical all-null record with the error flag set.
    pub fn bad_line_value() -> (r: BatteryReadingLine)
        ensures
            r == sentinel_spec(),
    {
        BatteryReadingLine {
            num_ver: None,
            jour_sommet: None,
            heure_sommet: None,
            tension_bat: None,
            tension_pv1: None,
            tension_pv2: None,
            charge: None,
            test_capacite: None,
            courant_total_charge_decharge: None,
            courant_pv1: None,
            courant_pv2: None,
            courant_entree_appareil: None,
            courant_charge_total: None,
            courant_consommateur: None,
            courant_decharge_total: None,
            temperature: None,
            erreur: None,
            mode_charge: None,
            etat_commut_sortie_charge: None,
            etat_commut_aux1: None,
            etat_commut_aux2: None,
            entree_energie_24h: None,
            entree_energie_total: None,
            sortie_energie_24h: None,
            sortie_energie_total: None,
            reduction: None,
            crc16: None,
            erreur_crc16: true,
        }
    }

    /// Splits a validated line into its 27 fields and converts each by its
    /// rule; atomic: any field failure fails the whole extraction.
    pub fn extract_from_str(battery_line: &[u8]) -> (r: Result<BatteryReadingLine, ()>)
        ensures
            r == extract_spec(battery_line@),
    {
        let fields = split_record(battery_line);
        let ghost fs = split_fields(battery_line@);
        proof {
            assert forall|k: int| 0 <= k < fields@.len() implies fields@[k]@ == fs[k] by {
                assert(views_of(fields@)[k] == fields@[k]@);
            }
        }
        if fields.len() != 27 {
            return Err(());
        }
        let num_ver = match convert_type_u8(fields[0]) {
            Ok(v) => v,
            Err(()) => {
                return Err(());
            },
        };
        let jour_sommet = match convert_type_date(fields[1]) {
            Ok(v) => v,
            Err(()) => {
                return Err(());
            },
        };
        let heure_sommet = match convert_type_time(fields[2]) {
            Ok(v) => v,
            Err(()) => {
                return Err(());
            },
        };
        let tension_bat = match convert_type_decimal(fields[3]) {
            Ok(v) => v,
            Err(()) => {
                return Err(());
            },
        };
        let tension_pv1 = match convert_type_decimal(fields[4]) {
            Ok(v) => v,
            Err(()) => {
                return Err(());
            },
        };
        let tension_pv2 = match convert_type_decimal(fields[5]) {
            Ok(v) => v,
            Err(()) => {
                return Err(());
            },
        };
        let charge = match convert_type_decimal(fields[6]) {
            Ok(v) => v,
            Err(()) => {
                return Err(());
            },
        };
        let test_capacite = match convert_type_decimal(fields[7]) {
            Ok(v) => v,
            Err(()) => {
                return Err(());
            },
        };
        let courant_total_charge_decharge = match convert_type_decimal(fields[8]) {
            Ok(v) => v,
            Err(()) => {
                return Err(());
            },
        };
        let courant_pv1 = match convert_type_decimal(fields[9]) {
            Ok(v) => v,
            Err(()) => {
                return Err(());
            },
        };
        let courant_pv2 = match convert_type_decimal(fields[10]) {
            Ok(v) => v,
            Err(()) => {
                return Err(());
            },
        };
        let courant_entree_appareil = match convert_type_decimal(fields[11]) {
            Ok(v) => v,
            Err(()) => {
                return Err(());
            },
        };
        let courant_charge_total = match convert_type_decimal(fields[12]) {
            Ok(v) => v,
            Err(()) => {
                return Err(());
            },
        };
        let courant_consommateur = match convert_type_decimal(fields[13]) {
            Ok(v) => v,
            Err(()) => {
                return Err(());
            },
        };
        let courant_decharge_total = match convert_type_decimal(fields[14]) {
            Ok(v) => v,
            Err(()) => {
                return Err(());
            },
        };
        let temperature = match convert_type_decimal(fields[15]) {
            Ok(v) => v,
            Err(()) => {
                return Err(());
            },
        };
        let erreur = match convert_type_u8(fields[16]) {
            Ok(v) => v,
            Err(()) => {
                return Err(());
            },
        };
        let mode_charge = match convert_type_char(fields[17]) {
            Ok(v) => v,
            Err(()) => {
                return Err(());
            },
        };
        let etat_commut_sortie_charge = match convert_type_bool(fields[18]) {
            Ok(v) => v,
            Err(()) => {
                return Err(());
            },
        };
        let etat_commut_aux1 = match convert_type_bool(fields[19]) {
            Ok(v) => v,
            Err(()) => {
                return Err(());
            },
        };
        let etat_commut_aux2 = match convert_type_bool(fields[20]) {
            Ok(v) => v,
            Err(()) => {
                return Err(());
            },
        };
        let entree_energie_24h = match convert_type_decimal(fields[21]) {
            Ok(v) => v,
            Err(()) => {
                return Err(());
            },
        };
        let entree_energie_total = match convert_type_decimal(fields[22]) {
            Ok(v) => v,
            Err(()) => {
                return Err(());
            },
        };
        let sortie_energie_24h = match convert_type_decimal(fields[23]) {
            Ok(v) => v,
            Err(()) => {
                return Err(());
            },
        };
        let sortie_energie_total = match convert_type_decimal(fields[24]) {
            Ok(v) => v,
            Err(()) => {
                return Err(());
            },
        };
        let reduction = match convert_type_bool(fields[25]) {
            Ok(v) => v,
            Err(()) => {
                return Err(());
            },
        };
        let crc16 = match convert_type_hex(fields[26]) {
            Ok(v) => v,
            Err(()) => {
                return Err(());
            },
        };
        Ok(
            BatteryReadingLine {
                num_ver,
                jour_sommet,
                heure_sommet,
                tension_bat,
                tension_pv1,
                tension_pv2,
                charge,
                test_capacite,
                courant_total_charge_decharge,
                courant_pv1,
                courant_pv2,
                courant_entree_appareil,
                courant_charge_total,
                courant_consommateur,
                courant_decharge_total,
                temperature,
                erreur,
                mode_charge,
                etat_commut_sortie_charge,
                etat_commut_aux1,
                etat_commut_aux2,
                entree_energie_24h,
                entree_energie_total,
                sortie_energie_24h,
                sortie_energie_total,
                reduction,
                crc16,
                erreur_crc16: false,
            },
        )
    }

    /// Decodes one whole datagram line: checksum validation, then
    /// field-by-field extraction. Any failure yields the all-null sentinel
    /// as the `Err` value, so a caller always holds *a* record and can tell
    /// a failed decode only by the error flag — never by accident from a
    /// record whose fields are all genuinely absent.
    pub fn new(battery_line: &[u8]) -> (r: Result<BatteryReadingLine, BatteryReadingLine>)
        ensures
            r == new_spec(battery_line@),
            r matches Ok(rec) ==> rec.erreur_crc16 == false && record_wf(rec),
            r matches Err(rec) ==> rec == sentinel_spec(),
            r is Ok <==> (line_checksum_ok(battery_line@) && extract_spec(battery_line@) is Ok),
    {
        proof {
            lemma_decode_wf(battery_line@);
        }
        match validate_line(battery_line) {
            Ok(_) => (),
            Err(_) => {
                return Err(BatteryReadingLine::bad_line_value());
            },
        }
        match BatteryReadingLine::extract_from_str(battery_line) {
            Ok(rec) => Ok(rec),
            Err(()) => Err(BatteryReadingLine::bad_line_value()),
        }
    }
}

/// Well-formedness of a record: every date, time and decimal it carries
/// lies inside its type's bounds.
pub open spec fn record_wf(rec: BatteryReadingLine) -> bool {
    &&& (rec.jour_sommet matches Some(d) ==> crate::fields::date_wf(d))
    &&& (rec.heure_sommet matches Some(t) ==> crate::fields::time_wf(t))
    &&& (rec.tension_bat matches Some(x) ==> crate::fields::decimal_wf(x))
    &&& (rec.tension_pv1 matches Some(x) ==> crate::fields::decimal_wf(x))
    &&& (rec.tension_pv2 matches Some(x) ==> crate::fields::decimal_wf(x))
    &&& (rec.charge matches Some(x) ==> crate::fields::decimal_wf(x))
    &&& (rec.test_capacite matches Some(x) ==> crate::fields::decimal_wf(x))
    &&& (rec.courant_total_charge_decharge matches Some(x) ==> crate::fields::decimal_wf(x))
    &&& (rec.courant_pv1 matches Some(x) ==> crate::fields::decimal_wf(x))
    &&& (rec.courant_pv2 matches Some(x) ==> crate::fields::decimal_wf(x))
    &&& (rec.courant_entree_appareil matches Some(x) ==> crate::fields::decimal_wf(x))
    &&& (rec.courant_charge_total matches Some(x) ==> crate::fields::decimal_wf(x))
    &&& (rec.courant_consommateur matches Some(x) ==> crate::fields::decimal_wf(x))
    &&& (rec.courant_decharge_total matches Some(x) ==> crate::fields::decimal_wf(x))
    &&& (rec.temperature matches Some(x) ==> crate::fields::decimal_wf(x))
    &&& (rec.entree_energie_24h matches Some(x) ==> crate::fields::decimal_wf(x))
    &&& (rec.entree_energie_total matches Some(x) ==> crate::fields::decimal_wf(x))
    &&& (rec.sortie_energie_24h matches Some(x) ==> crate::fields::decimal_wf(x))
    &&& (rec.sortie_energie_total matches Some(x) ==> crate::fields::decimal_wf(x))
}

/// Whatever the decoder returns is well formed: a decoded record carries
/// only real calendar dates, real times of day and bounded decimals, and
/// the sentinel, being all null, is well formed too.
pub proof fn lemma_decode_wf(s: Seq<u8>)
    ensures
        new_spec(s) matches Ok(rec) ==> record_wf(rec),
        new_spec(s) matches Err(rec) ==> record_wf(rec),
{
    if line_checksum_ok(s) && extract_spec(s) is Ok {
        let fs = split_fields(s);
        crate::fields::lemma_date_field_wf(fs[1]);
        crate::fields::lemma_time_field_wf(fs[2]);
        crate::fields::lemma_decimal_field_wf(fs[3]);
        crate::fields::lemma_decimal_field_wf(fs[4]);
        crate::fields::lemma_decimal_field_wf(fs[5]);
        crate::fields::lemma_decimal_field_wf(fs[6]);
        crate::fields::lemma_decimal_field_wf(fs[7]);
        crate::fields::lemma_decimal_field_wf(fs[8]);
        crate::fields::lemma_decimal_field_wf(fs[9]);
        crate::fields::lemma_decimal_field_wf(fs[10]);
        crate::fields::lemma_decimal_field_wf(fs[11]);
        crate::fields::lemma_decimal_field_wf(fs[12]);
        crate::fields::lemma_decimal_field_wf(fs[13]);
        crate::fields::lemma_decimal_field_wf(fs[14]);
        crate::fields::lemma_decimal_field_wf(fs[15]);
        crate::fields::lemma_decimal_field_wf(fs[21]);
        crate::fields::lemma_decimal_field_wf(fs[22]);
        crate::fields::lemma_decimal_field_wf(fs[23]);
        crate::fields::lemma_decimal_field_wf(fs[24]);
    }
}

/// Decoding is a pure function of the line alone: any two records that both
/// satisfy the decoder's contract on the same input are equal, bit for bit.
pub proof fn lemma_new_deterministic(
    s: Seq<u8>,
    r1: Result<BatteryReadingLine, BatteryReadingLine>,
    r2: Result<BatteryReadingLine, BatteryReadingLine>,
)
    requires
        r1 == new_spec(s),
        r2 == new_spec(s),
    ensures
        r1 == r2,
{
}

/// A decode never ends half-way: its outcome either carries the error flag
/// clear, or is exactly the all-null sentinel with the flag set.
pub proof fn lemma_decode_atomicity(s: Seq<u8>)
    ensures
        new_spec(s) matches Ok(rec) ==> rec.erreur_crc16 == false,
        new_spec(s) matches Err(rec) ==> rec == sentinel_spec(),
{
}

/// Tri-state boolean fields are strict: on a line of the right arity, a
/// tri-state field outside `#`, `1`, `T`, `0`, `F` fails the whole decode —
/// it never reads as a default value.
pub proof fn lemma_tri_state_strict(s: Seq<u8>, k: int)
    requires
        k == 18 || k == 19 || k == 20 || k == 25,
        split_fields(s).len() == 27,
        split_fields(s)[k] != seq![('#' as u8)],
        split_fields(s)[k] != seq![('1' as u8)],
        split_fields(s)[k] != seq![('T' as u8)],
        split_fields(s)[k] != seq![('0' as u8)],
        split_fields(s)[k] != seq![('F' as u8)],
    ensures
        extract_spec(s) is Err,
        new_spec(s) == Err::<BatteryReadingLine, BatteryReadingLine>(sentinel_spec()),
{
    assert(bool_field(split_fields(s)[k]) is Err);
}

} // verus!
