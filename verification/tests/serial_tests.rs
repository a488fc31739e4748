use serial_monitor::render::RenderSettings;
use serial_monitor::serial_types::{DeviceInfo, Direction, LineEnding, TranslationFormat, TxMode};
use serial_monitor::terminal_buffer::TerminalBuffer;
use serial_monitor::timestamp::Timestamp;
use serial_monitor::tx_parse::{parse_binary, parse_hex};

fn now() -> Timestamp {
    let t = chrono::Local::now();
    Timestamp::new(t.timestamp_millis(), t.offset().local_minus_utc()).unwrap()
}

#[test]
fn test_line_endings() {
    assert_eq!(LineEnding::Empty.as_str(), "");
    assert_eq!(LineEnding::CR.as_str(), "\r");
    assert_eq!(LineEnding::LF.as_str(), "\n");
    assert_eq!(LineEnding::CRLF.as_str(), "\r\n");
}

fn device_info_to_json(info: &DeviceInfo) -> String {
    let mut m = serde_json::Map::new();
    let fields = [
        ("port_name", &info.port_name),
        ("manufacturer", &info.manufacturer),
        ("device_id", &info.device_id),
        ("service", &info.service),
        ("driver_provider", &info.driver_provider),
        ("driver_version", &info.driver_version),
        ("driver_date", &info.driver_date),
        ("port_type", &info.port_type),
        ("vid", &info.vid),
        ("pid", &info.pid),
        ("serial_number", &info.serial_number),
        ("product", &info.product),
    ];
    for (k, v) in fields {
        m.insert(k.to_string(), serde_json::Value::String(v.clone()));
    }
    serde_json::to_string(&serde_json::Value::Object(m)).unwrap()
}

fn device_info_from_json(text: &str) -> DeviceInfo {
    let v: serde_json::Value = serde_json::from_str(text).unwrap();
    let f = |k: &str| v[k].as_str().unwrap().to_string();
    DeviceInfo {
        port_name: f("port_name"),
        manufacturer: f("manufacturer"),
        device_id: f("device_id"),
        service: f("service"),
        driver_provider: f("driver_provider"),
        driver_version: f("driver_version"),
        driver_date: f("driver_date"),
        port_type: f("port_type"),
        vid: f("vid"),
        pid: f("pid"),
        serial_number: f("serial_number"),
        product: f("product"),
    }
}

#[test]
fn test_device_info_serialization() {
    let info = DeviceInfo {
        port_name: "COM15".to_string(),
        manufacturer: "FTDI".to_string(),
        device_id: "FTDIBUS\\VID_0403+PID_6001\\0000".to_string(),
        service: "FTSER2K".to_string(),
        driver_provider: "FTDI".to_string(),
        driver_version: "2.12.36.20".to_string(),
        driver_date: "2024-10-28".to_string(),
        port_type: "USB".to_string(),
        vid: "0x0403".to_string(),
        pid: "0x6001".to_string(),
        serial_number: "A5069RR4".to_string(),
        product: "USB Serial Converter".to_string(),
    };

    let serialized = device_info_to_json(&info);
    let deserialized = device_info_from_json(&serialized);

    assert_eq!(deserialized.port_name, "COM15");
    assert_eq!(deserialized.manufacturer, "FTDI");
    assert_eq!(deserialized.device_id, "FTDIBUS\\VID_0403+PID_6001\\0000");
    assert_eq!(deserialized.service, "FTSER2K");
    assert_eq!(deserialized.driver_provider, "FTDI");
    assert_eq!(deserialized.driver_version, "2.12.36.20");
    assert_eq!(deserialized.driver_date, "2024-10-28");
    assert_eq!(deserialized.port_type, "USB");
    assert_eq!(deserialized.vid, "0x0403");
    assert_eq!(deserialized.pid, "0x6001");
    assert_eq!(deserialized.serial_number, "A5069RR4");
    assert_eq!(deserialized.product, "USB Serial Converter");
}

#[test]
fn test_terminal_buffer_limits() {
    let mut buffer = TerminalBuffer::new(3);

    buffer.push_bytes_and_truncate(b"Line 1\n", now());
    buffer.push_bytes_and_truncate(b"Line 2\n", now());
    buffer.push_bytes_and_truncate(b"Line 3\n", now());
    buffer.push_bytes_and_truncate(b"Line 4\n", now());

    assert_eq!(buffer.entries().len(), 3);

    let formatted = buffer.export_to_string(false, false, true, TranslationFormat::Hex, now());
    assert!(formatted.contains("Line 2"));
    assert!(formatted.contains("Line 3"));
    assert!(formatted.contains("Line 4"));
    assert!(!formatted.contains("Line 1"));
}

#[test]
fn test_unlimited_terminal_buffer() {
    let mut buffer = TerminalBuffer::new(0);

    for i in 0..100 {
        let line = format!("Line {}\n", i);
        buffer.push_bytes_and_truncate(line.as_bytes(), now());
    }

    assert_eq!(buffer.entries().len(), 100);
}

#[test]
fn test_ascii_mode_hex_translation() {
    let raw_ascii = b"Hello\r\n";
    let hex_view: String = raw_ascii
        .iter()
        .map(|b| format!("{:02X}", b))
        .collect::<Vec<_>>()
        .join(" ");
    assert_eq!(hex_view, "48 65 6C 6C 6F 0D 0A");
    assert_eq!(serial_monitor::render::hex_string(raw_ascii), "48 65 6C 6C 6F 0D 0A");
}

#[test]
fn test_hex_send_parsing() {
    // Test valid inputs
    assert_eq!(
        parse_hex("AA 03 10 FF 55").unwrap(),
        vec![0xAA, 0x03, 0x10, 0xFF, 0x55]
    );
    assert_eq!(parse_hex("aa 03 10").unwrap(), vec![0xaa, 0x03, 0x10]);
    assert_eq!(parse_hex("AA0310").unwrap(), vec![0xAA, 0x03, 0x10]);
    assert_eq!(parse_hex("A B").unwrap(), vec![0x0A, 0x0B]);

    // Test invalid inputs
    assert!(parse_hex("AA 0G FF").is_err());
    assert!(parse_hex("AA 035").is_err());
}

#[test]
fn test_binary_send_parsing() {
    // Test valid inputs
    assert_eq!(
        parse_binary("10101010 00000011 00010000").unwrap(),
        vec![0xAA, 0x03, 0x10]
    );

    // Test invalid inputs
    assert!(parse_binary("10101010 0000001").is_err()); // Too short
    assert!(parse_binary("10101010 00000012").is_err()); // Invalid character
}

#[test]
fn test_non_utf8_rx_safe_formatting() {
    let mut buffer = TerminalBuffer::new(10);
    // Non-printable UTF-8 sequence [0xFF, 0x00, 0x7F, b'A']
    let bytes = &[0xFF, 0x00, 0x7F, b'A', b'\n'];
    buffer.push_bytes_and_truncate(bytes, now());

    let formatted = buffer.export_to_string(false, false, true, TranslationFormat::Hex, now());

    // Check Direction indicator
    assert!(formatted.contains("[RX]"));
    // Check printable chars preserved and non-printables safely replaced by '.'
    assert!(formatted.contains("...A"));
    // Check HEX representation correctly formatted
    assert!(formatted.contains("[HEX] FF 00 7F 41"));
}

// ---------------------------------------------------------------------------
// Transmit parsing.
// ---------------------------------------------------------------------------

#[test]
fn hex_error_messages_name_the_token() {
    assert_eq!(parse_hex("AA 0G FF").unwrap_err(), "Invalid HEX token: '0G'");
    assert_eq!(
        parse_hex("AA 035").unwrap_err(),
        "HEX token '035' has invalid odd length"
    );
    assert_eq!(parse_hex("AAZZ").unwrap_err(), "Invalid HEX chunk: 'ZZ'");
    assert_eq!(parse_hex("G").unwrap_err(), "Invalid HEX token: 'G'");
}

#[test]
fn hex_plus_sign_follows_from_str_radix() {
    assert_eq!(parse_hex("+F").unwrap(), vec![0x0F]);
    assert_eq!(parse_hex("AA+F").unwrap(), vec![0xAA, 0x0F]);
    assert!(parse_hex("+").is_err());
    assert!(parse_hex("-1").is_err());
}

#[test]
fn hex_blank_input_is_empty() {
    assert_eq!(parse_hex("").unwrap(), Vec::<u8>::new());
    assert_eq!(parse_hex("  \t ").unwrap(), Vec::<u8>::new());
    assert_eq!(parse_hex(" \u{3000}0A\u{a0}").unwrap(), vec![0x0A]);
}

#[test]
fn hex_non_ascii_tokens() {
    // A two-byte character alone is a two-byte token that is no number.
    assert_eq!(parse_hex("é").unwrap_err(), "Invalid HEX token: 'é'");
    // In a longer token it is a chunk of its own.
    assert_eq!(parse_hex("AAé").unwrap_err(), "Invalid HEX chunk: 'é'");
    // A chunk that would split a character makes the whole token invalid.
    assert_eq!(parse_hex("a€").unwrap_err(), "Invalid HEX token: 'a€'");
    assert_eq!(parse_hex("aéb").unwrap_err(), "Invalid HEX token: 'aéb'");
    assert_eq!(parse_hex("AA 0€").unwrap_err(), "Invalid HEX token: '0€'");
    assert_eq!(parse_hex("€€").unwrap_err(), "Invalid HEX token: '€€'");
    // An earlier refused chunk or token decides first.
    assert_eq!(parse_hex("ZZa€").unwrap_err(), "Invalid HEX chunk: 'ZZ'");
    assert_eq!(parse_hex("ZZ a€").unwrap_err(), "Invalid HEX token: 'ZZ'");
}

#[test]
fn binary_error_messages() {
    assert_eq!(
        parse_binary("10101010 0000001").unwrap_err(),
        "Binary token '0000001' must be exactly 8 bits"
    );
    assert_eq!(
        parse_binary("10101010 00000012").unwrap_err(),
        "Binary token '00000012' must contain only 0 and 1"
    );
    assert_eq!(parse_binary("  ").unwrap(), Vec::<u8>::new());
    assert_eq!(parse_binary("11111111 00000000").unwrap(), vec![0xFF, 0x00]);
}

// ---------------------------------------------------------------------------
// Rendering.
// ---------------------------------------------------------------------------

#[test]
fn render_entry_exact_text() {
    let ts = now();
    let s = serial_monitor::render::render_entry(
        &ts,
        Direction::Tx(TxMode::Hex),
        b"A\x01\r\n",
        Some(42),
        false,
        true,
        TranslationFormat::Binary,
    );
    assert_eq!(
        s,
        "[42] [TX-HEX] A.\n    \u{21b3} [BIN] 01000001 00000001 00001101 00001010\n"
    );
    let plain = serial_monitor::render::render_entry(
        &ts,
        Direction::Rx,
        b"ok",
        None,
        false,
        false,
        TranslationFormat::Hex,
    );
    assert_eq!(plain, "[RX] ok\n");
}

#[test]
fn render_entry_with_timestamp() {
    let ts = Timestamp::new(0, 3600).unwrap();
    let s = serial_monitor::render::render_entry(
        &ts,
        Direction::Rx,
        b"x",
        None,
        true,
        false,
        TranslationFormat::Hex,
    );
    assert_eq!(s, "[1970-01-01 01:00:00.000] [RX] x\n");
    assert!(Timestamp::new(0, 86_400).is_none());
    assert!(Timestamp::new(i64::MAX, 0).is_none());
}

// ---------------------------------------------------------------------------
// Terminal buffer.
// ---------------------------------------------------------------------------

#[test]
fn buffer_splits_lines_and_keeps_pending() {
    let mut b = TerminalBuffer::new(10);
    b.push_bytes(b"ab\ncd", Direction::Rx, now());
    assert_eq!(b.entries().len(), 1);
    assert_eq!(b.entries()[0].data, b"ab\n".to_vec());
    assert_eq!(b.pending(), b"cd");
    b.push_bytes(b"e\nf\n", Direction::Rx, now());
    assert_eq!(b.entries().len(), 3);
    assert_eq!(b.entries()[1].data, b"cde\n".to_vec());
    assert_eq!(b.entries()[2].data, b"f\n".to_vec());
    assert!(b.pending().is_empty());
    assert_eq!(b.total_lines_received(), 3);
}

#[test]
fn buffer_empty_push_changes_nothing() {
    let mut b = TerminalBuffer::new(10);
    let v = b.version();
    b.push_bytes(b"", Direction::Rx, now());
    assert_eq!(b.version(), v);
    b.push_bytes(b"x", Direction::Rx, now());
    assert_eq!(b.version(), v + 1);
}

#[test]
fn buffer_flushes_long_pending() {
    let mut b = TerminalBuffer::new(10);
    let big = vec![b'z'; 5000];
    b.push_bytes(&big, Direction::Rx, now());
    assert_eq!(b.entries().len(), 1);
    assert_eq!(b.entries()[0].data.len(), 5000);
    assert!(b.pending().is_empty());
    let small = vec![b'y'; 4095];
    b.push_bytes(&small, Direction::Rx, now());
    assert_eq!(b.entries().len(), 1);
    assert_eq!(b.pending().len(), 4095);
    b.push_bytes(b"y", Direction::Rx, now());
    assert_eq!(b.entries().len(), 2);
    assert!(b.pending().is_empty());
}

#[test]
fn buffer_export_numbers_lines_and_shows_pending() {
    let mut b = TerminalBuffer::new(2);
    b.push_bytes(b"one\ntwo\nthree\npart", Direction::Rx, now());
    let text = b.export_to_string(true, false, false, TranslationFormat::Hex, now());
    assert_eq!(text, "[2] [RX] two\n[3] [RX] three\n[4] [RX] part\n");
    let hex = b.export_to_string(false, false, true, TranslationFormat::Hex, now());
    assert_eq!(
        hex,
        "[RX] two\n    \u{21b3} [HEX] 74 77 6F 0A\n[RX] three\n    \u{21b3} [HEX] 74 68 72 65 65 0A\n[RX] part\n    \u{21b3} [HEX] 70 61 72 74\n"
    );
}

#[test]
fn buffer_export_is_stable_across_settings() {
    let mut b = TerminalBuffer::new(5);
    b.push_bytes(b"a\nb\n", Direction::Rx, now());
    let first = b.export_to_string(true, false, true, TranslationFormat::Binary, now());
    let _other = b.export_to_string(false, false, false, TranslationFormat::Hex, now());
    let again = b.export_to_string(true, false, true, TranslationFormat::Binary, now());
    assert_eq!(first, again);
}

#[test]
fn buffer_truncation_keeps_cache_consistent() {
    let mut b = TerminalBuffer::new(0);
    for i in 0..30 {
        let line = format!("L{}\n", i);
        b.push_bytes(line.as_bytes(), Direction::Rx, now());
    }
    b.set_max_entries(3);
    assert_eq!(b.entries().len(), 3);
    let text = b.export_to_string(true, false, false, TranslationFormat::Hex, now());
    assert_eq!(text, "[28] [RX] L27\n[29] [RX] L28\n[30] [RX] L29\n");
}

#[test]
fn buffer_unlimited_keeps_every_line() {
    let mut b = TerminalBuffer::new(0);
    let mut data = Vec::new();
    for _ in 0..20_005 {
        data.extend_from_slice(b"x\n");
    }
    b.push_bytes(&data, Direction::Rx, now());
    assert_eq!(b.entries().len(), 20_005);
    b.push_bytes_and_truncate(b"y\n", now());
    assert_eq!(b.entries().len(), 20_006);
    // Going back to a limit drops the oldest lines, keeping the newest.
    b.set_max_entries(3);
    assert_eq!(b.entries().len(), 3);
    assert_eq!(b.entries()[2].data, b"y\n".to_vec());
    b.set_max_entries(0);
    assert_eq!(b.entries().len(), 3);
}

#[test]
fn buffer_clear_resets() {
    let mut b = TerminalBuffer::new(5);
    b.push_bytes(b"a\nrest", Direction::Rx, now());
    b.clear();
    assert_eq!(b.entries().len(), 0);
    assert!(b.pending().is_empty());
    assert_eq!(b.total_lines_received(), 0);
    assert_eq!(b.export_to_string(true, true, true, TranslationFormat::Hex, now()), "");
}

#[test]
fn buffer_tx_entry_is_one_line() {
    let mut b = TerminalBuffer::new(5);
    b.push_bytes(b"wait", Direction::Rx, now());
    b.push_tx_entry(b"hi\nthere", TxMode::Ascii, now());
    assert_eq!(b.entries().len(), 1);
    assert_eq!(b.pending(), b"wait");
    let text = b.export_to_string(false, false, false, TranslationFormat::Hex, now());
    assert_eq!(text, "[TX-ASCII] hithere\n[RX] wait\n");
}

#[test]
fn buffer_format_entry_matches_cache() {
    let mut b = TerminalBuffer::new(5);
    b.push_bytes(b"abc\n", Direction::Rx, now());
    let e = &b.entries()[0];
    let s = TerminalBuffer::format_entry(e, Some(1), true, true, TranslationFormat::Hex);
    assert_eq!(e.formatted_len, s.len());
    let _ = RenderSettings {
        show_line_numbers: true,
        show_timestamps: true,
        enable_translation: true,
        translation_format: TranslationFormat::Hex,
    };
}
