//! Wire codec and display formatting, on concrete values.

use mp_logger::codec::{
    decode_header, encode, encode_header_fields, level_of_byte, level_to_byte, Header, Level,
    WireError, DEFAULT_MAX_LENGTH, HEADER_SIZE,
};
use mp_logger::view::{key_to_command, level_name, micros_string, pid_hex, u128_to_dec, u64_to_hex, Command};

fn raw_header(seconds: u64, nanos: u32, pid: i32, tid: u64, length: u64, level: u8) -> Vec<u8> {
    let mut b = Vec::new();
    b.extend_from_slice(&seconds.to_le_bytes());
    b.extend_from_slice(&nanos.to_le_bytes());
    b.extend_from_slice(&(pid as u32).to_le_bytes());
    b.extend_from_slice(&tid.to_le_bytes());
    b.extend_from_slice(&length.to_le_bytes());
    b.push(level);
    b
}

#[test]
fn header_layout_is_little_endian() {
    let bytes = encode_header_fields(1, 2, 100, 7, 5, Level::Info);
    assert_eq!(bytes.len(), HEADER_SIZE);
    assert_eq!(bytes, raw_header(1, 2, 100, 7, 5, 3));
}

#[test]
fn round_trip_header() {
    let bytes = encode_header_fields(1700000000, 999999999, -42, u64::MAX, 16, Level::Trace);
    let h = decode_header(&bytes, DEFAULT_MAX_LENGTH).unwrap();
    assert_eq!(
        h,
        Header {
            seconds: 1700000000,
            nanos: 999999999,
            pid: -42,
            tid: u64::MAX,
            length: 16,
            level: Level::Trace,
        }
    );
}

#[test]
fn round_trip_record() {
    let msg = b"hello".to_vec();
    let bytes = encode(1, 2, 100, 7, Level::Info, &msg);
    assert_eq!(bytes.len(), HEADER_SIZE + 5);
    let h = decode_header(&bytes[..HEADER_SIZE], DEFAULT_MAX_LENGTH).unwrap();
    assert_eq!(h.seconds, 1);
    assert_eq!(h.nanos, 2);
    assert_eq!(h.pid, 100);
    assert_eq!(h.tid, 7);
    assert_eq!(h.length, 5);
    assert_eq!(h.level, Level::Info);
    assert_eq!(&bytes[HEADER_SIZE..], b"hello");
}

#[test]
fn rejects_nanos_out_of_range() {
    let b = raw_header(1, 1_000_000_000, 1, 1, 0, 3);
    assert_eq!(decode_header(&b, DEFAULT_MAX_LENGTH), Err(WireError::MalformedHeader));
    let ok = raw_header(1, 999_999_999, 1, 1, 0, 3);
    assert!(decode_header(&ok, DEFAULT_MAX_LENGTH).is_ok());
}

#[test]
fn rejects_oversize_length() {
    let b = raw_header(1, 0, 1, 1, DEFAULT_MAX_LENGTH + 1, 3);
    assert_eq!(decode_header(&b, DEFAULT_MAX_LENGTH), Err(WireError::MalformedHeader));
    let ok = raw_header(1, 0, 1, 1, DEFAULT_MAX_LENGTH, 3);
    assert!(decode_header(&ok, DEFAULT_MAX_LENGTH).is_ok());
}

#[test]
fn rejects_bad_level_byte() {
    for lv in [0u8, 6, 9, 255] {
        let b = raw_header(1, 0, 1, 1, 0, lv);
        assert_eq!(decode_header(&b, DEFAULT_MAX_LENGTH), Err(WireError::MalformedHeader));
    }
}

#[test]
fn level_bytes_map_one_to_one() {
    let levels = [Level::Error, Level::Warn, Level::Info, Level::Debug, Level::Trace];
    for (i, l) in levels.iter().enumerate() {
        let b = level_to_byte(*l);
        assert_eq!(b as usize, i + 1);
        assert_eq!(level_of_byte(b), Some(*l));
    }
    assert_eq!(level_of_byte(0), None);
    assert_eq!(level_of_byte(6), None);
}

#[test]
fn hex_formatting() {
    assert_eq!(u64_to_hex(0), "0");
    assert_eq!(u64_to_hex(10), "a");
    assert_eq!(u64_to_hex(255), "ff");
    assert_eq!(u64_to_hex(0x1234_abcd), "1234abcd");
    assert_eq!(u64_to_hex(u64::MAX), "ffffffffffffffff");
}

#[test]
fn pid_hex_uses_twos_complement_bits() {
    assert_eq!(pid_hex(100), "64");
    assert_eq!(pid_hex(-1), "ffffffff");
    assert_eq!(pid_hex(0), "0");
}

#[test]
fn decimal_formatting() {
    assert_eq!(u128_to_dec(0), "0");
    assert_eq!(u128_to_dec(7), "7");
    assert_eq!(u128_to_dec(1234567890), "1234567890");
}

#[test]
fn micros_from_seconds_and_nanos() {
    assert_eq!(micros_string(0, 0), "0");
    assert_eq!(micros_string(1, 2500), "1000002");
    assert_eq!(micros_string(1700000000, 999999999), "1700000000999999");
}

#[test]
fn level_names_are_uppercase_words() {
    assert_eq!(level_name(Level::Error), "ERROR");
    assert_eq!(level_name(Level::Warn), "WARN");
    assert_eq!(level_name(Level::Info), "INFO");
    assert_eq!(level_name(Level::Debug), "DEBUG");
    assert_eq!(level_name(Level::Trace), "TRACE");
}

#[test]
fn key_bindings() {
    assert_eq!(key_to_command('q'), Some(Command::Quit));
    assert_eq!(key_to_command('w'), Some(Command::PreviousProcess));
    assert_eq!(key_to_command('s'), Some(Command::NextProcess));
    assert_eq!(key_to_command('e'), Some(Command::PreviousThread));
    assert_eq!(key_to_command('d'), Some(Command::NextThread));
    assert_eq!(key_to_command('r'), Some(Command::PreviousLog));
    assert_eq!(key_to_command('f'), Some(Command::NextLog));
    assert_eq!(key_to_command('x'), None);
}
