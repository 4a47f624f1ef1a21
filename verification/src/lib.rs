//! Decoder for the fixed-format telemetry datagrams of a solar-battery
//! charge controller.
//!
//! The heart of the crate is the line protocol: a semicolon-delimited ASCII
//! record of exactly 27 positional fields, terminated by a 16-bit CRC
//! rendered as four hex digits. [`crc16_tarom4545`] holds the checksum
//! engine, [`fields`] the per-field parse rules and the plain value types
//! they produce, [`battery_reading_line`] the field-by-field record decoder,
//! and [`ingest`] the whitespace-trimming entry point that turns one raw
//! datagram into exactly one [`battery_reading_line::BatteryReadingLine`] —
//! the all-null sentinel record when anything about the datagram is wrong.
//! [`config`] carries the process settings that the surrounding host reads
//! from its environment.

pub mod battery_reading_line;
pub mod config;
pub mod crc16_tarom4545;
pub mod fields;
pub mod ingest;
