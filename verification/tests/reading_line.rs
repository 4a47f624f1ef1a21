use batteryudpd::battery_reading_line::BatteryReadingLine;
use batteryudpd::crc16_tarom4545::crc16_tarom4545;
use batteryudpd::fields::{Date, Decimal, Time};
use batteryudpd::ingest::{on_datagram, trim_ascii};

const GOOD_LINE: &str = "1;2021/03/01;23:26;26.2;1.1;#;98.0;#;-0.5;0.0;#;0.0;-0.5;0.5;0.5;3.3;0;F;1;0;0;15.0;10310.5;10.9;6662.4;0;F7BB";

fn dec(negative: bool, units: u64, scale: u8) -> Option<Decimal> {
    Some(Decimal { negative, units, scale })
}

/// Appends the CRC of `payload` as four hex digits, framing a valid line.
fn frame(payload: &str) -> Vec<u8> {
    format!("{}{:04X}", payload, crc16_tarom4545(payload.as_bytes())).into_bytes()
}

#[test]
fn test_line_ok() {
    let battery_reading_line = BatteryReadingLine::new(GOOD_LINE.as_bytes()).unwrap();
    assert_eq!(battery_reading_line.num_ver, Some(1));
    assert_eq!(
        battery_reading_line.jour_sommet,
        Some(Date { year: 2021, month: 3, day: 1 })
    );
    assert_eq!(
        battery_reading_line.heure_sommet,
        Some(Time { hour: 23, minute: 26 })
    );
    assert_eq!(battery_reading_line.tension_bat, dec(false, 262, 1));
    assert_eq!(battery_reading_line.tension_pv1, dec(false, 11, 1));
    assert_eq!(battery_reading_line.tension_pv2, None);
    assert_eq!(battery_reading_line.charge, dec(false, 980, 1));
    assert_eq!(battery_reading_line.test_capacite, None);
    assert_eq!(battery_reading_line.courant_total_charge_decharge, dec(true, 5, 1));
    assert_eq!(battery_reading_line.courant_pv1, dec(false, 0, 1));
    assert_eq!(battery_reading_line.courant_pv2, None);
    assert_eq!(battery_reading_line.courant_entree_appareil, dec(false, 0, 1));
    assert_eq!(battery_reading_line.courant_charge_total, dec(true, 5, 1));
    assert_eq!(battery_reading_line.courant_consommateur, dec(false, 5, 1));
    assert_eq!(battery_reading_line.courant_decharge_total, dec(false, 5, 1));
    assert_eq!(battery_reading_line.temperature, dec(false, 33, 1));
    assert_eq!(battery_reading_line.erreur, Some(0));
    assert_eq!(battery_reading_line.mode_charge, Some('F'));
    assert_eq!(battery_reading_line.etat_commut_sortie_charge, Some(true));
    assert_eq!(battery_reading_line.etat_commut_aux1, Some(false));
    assert_eq!(battery_reading_line.etat_commut_aux2, Some(false));
    assert_eq!(battery_reading_line.entree_energie_24h, dec(false, 150, 1));
    assert_eq!(battery_reading_line.entree_energie_total, dec(false, 103105, 1));
    assert_eq!(battery_reading_line.sortie_energie_24h, dec(false, 109, 1));
    assert_eq!(battery_reading_line.sortie_energie_total, dec(false, 66624, 1));
    assert_eq!(battery_reading_line.reduction, Some(false));
    assert_eq!(battery_reading_line.crc16, Some(0xF7BB));
    assert_eq!(battery_reading_line.erreur_crc16, false);
}

#[test]
fn test_bad_crc() {
    let line_reading = GOOD_LINE.replace("F7BB", "F8BB");
    let result_battery_reading_line = BatteryReadingLine::new(line_reading.as_bytes());
    assert!(result_battery_reading_line.is_err());
    assert_eq!(
        result_battery_reading_line,
        Err(BatteryReadingLine::bad_line_value())
    );
}

#[test]
fn wrong_field_count_yields_sentinel() {
    // The same payload with one `;`-segment removed (26 fields), framed with
    // a correct checksum so that only the arity check can reject it.
    let payload = "1;2021/03/01;23:26;26.2;1.1;#;98.0;#;-0.5;0.0;#;0.0;-0.5;0.5;0.5;3.3;0;F;1;0;15.0;10310.5;10.9;6662.4;0;";
    let line = frame(payload);
    assert_eq!(
        BatteryReadingLine::new(&line),
        Err(BatteryReadingLine::bad_line_value())
    );
}

#[test]
fn decode_is_pure() {
    // Two calls on identical input yield bit-identical records.
    let first = BatteryReadingLine::new(GOOD_LINE.as_bytes());
    let second = BatteryReadingLine::new(GOOD_LINE.as_bytes());
    assert_eq!(first, second);

    let corrupted = GOOD_LINE.replace("F7BB", "F8BB");
    let first_bad = BatteryReadingLine::new(corrupted.as_bytes());
    let second_bad = BatteryReadingLine::new(corrupted.as_bytes());
    assert_eq!(first_bad, second_bad);
}

#[test]
fn tri_state_field_outside_alphabet_yields_sentinel() {
    // Field 19 (the first switch state) replaced by tokens outside
    // {#,0,1,T,F}; the checksum is recomputed each time, so only the field
    // rule can reject the line.
    for bad in ["2", "t", "f", "x", "10", "true", ""] {
        let payload = format!(
            "1;2021/03/01;23:26;26.2;1.1;#;98.0;#;-0.5;0.0;#;0.0;-0.5;0.5;0.5;3.3;0;F;{};0;0;15.0;10310.5;10.9;6662.4;0;",
            bad
        );
        let line = frame(&payload);
        assert_eq!(
            BatteryReadingLine::new(&line),
            Err(BatteryReadingLine::bad_line_value()),
            "token {:?} must be rejected",
            bad
        );
    }
}

#[test]
fn unparsable_field_yields_sentinel_not_partial_record() {
    // A bad date in an otherwise perfect line: the record must roll back to
    // the sentinel, not keep the fields that did parse.
    let payload = "1;2021/02/29;23:26;26.2;1.1;#;98.0;#;-0.5;0.0;#;0.0;-0.5;0.5;0.5;3.3;0;F;1;0;0;15.0;10310.5;10.9;6662.4;0;";
    let line = frame(payload);
    let result = BatteryReadingLine::new(&line);
    assert_eq!(result, Err(BatteryReadingLine::bad_line_value()));
}

#[test]
fn all_missing_fields_decode_without_error_flag() {
    // Every nullable field absent is still a well-formed record, distinct
    // from the sentinel: the error flag stays clear.
    let payload = "#;#;#;#;#;#;#;#;#;#;#;#;#;#;#;#;#;#;#;#;#;#;#;#;#;#;";
    let line = frame(payload);
    let record = BatteryReadingLine::new(&line).unwrap();
    assert_eq!(record.num_ver, None);
    assert_eq!(record.jour_sommet, None);
    assert_eq!(record.reduction, None);
    assert_eq!(record.erreur_crc16, false);
    assert!(record.crc16.is_some());
}

#[test]
fn trim_strips_surrounding_whitespace() {
    assert_eq!(b"abc", trim_ascii(b"  abc\r\n"));
    assert_eq!(b"a b", trim_ascii(b"\ta b\t"));
    assert_eq!(b"", trim_ascii(b" \r\n\t"));
    assert_eq!(b"abc", trim_ascii(b"abc"));
}

#[test]
fn on_datagram_decodes_trimmed_line() {
    let mut raw = Vec::new();
    raw.extend_from_slice(b"  ");
    raw.extend_from_slice(GOOD_LINE.as_bytes());
    raw.extend_from_slice(b"\r\n");
    let record = on_datagram(&raw);
    assert_eq!(record.erreur_crc16, false);
    assert_eq!(record.num_ver, Some(1));
    assert_eq!(record.crc16, Some(0xF7BB));
}

#[test]
fn on_datagram_maps_garbage_to_sentinel() {
    let record = on_datagram(b"  not a datagram \n");
    assert_eq!(record, BatteryReadingLine::bad_line_value());
    assert_eq!(record.erreur_crc16, true);
}
