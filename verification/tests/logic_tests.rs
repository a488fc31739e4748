use serial_monitor::device_info::{
    build_device_info, double_backslashes_chars, driver_date_text, find_listed_kind,
    hex_word_string, parse_i64, pnp_entity_query, read_driver_answer, read_entity_answer,
    remove_all_chars, signed_driver_query, wants_driver_query, DriverDetails,
};
use serial_monitor::ports::{
    choose_port, contains_chars, describe_port, selected_display_name, trim_chars, PortDetails,
    PortKind, PortListing, UsbDetails,
};
use serial_monitor::serial_types::{DeviceInfo, LineEnding, SerialSettings, TxMode};
use serial_monitor::session::{
    after_send, apply_event, banner_visible, connect_request, finish_send, history_down,
    history_up, line_limit, record_history, reject_input, tx_payload, validation_error,
    SessionState,
};
use serial_monitor::terminal_buffer::TerminalBuffer;
use serial_monitor::timestamp::{utc_date_text, Timestamp};
use serial_monitor::worker::{
    absorb_read, after_channel_closed, after_command, close_events, command_wait_ms, next_poll_interval, open_events, plan_command,
    read_timeout_ms, should_yield, take_due_batch, take_residual_batch, write_events,
    CommandStep, LoopControl, ReadOutcome, WorkerCommand, WorkerEvent,
};

fn chars(s: &str) -> Vec<char> {
    s.chars().collect()
}

fn epoch() -> Timestamp {
    Timestamp::new(0, 0).unwrap()
}

fn usb(
    vid: u16,
    pid: u16,
    serial: Option<&str>,
    manufacturer: Option<&str>,
    product: Option<&str>,
) -> PortKind {
    PortKind::Usb(UsbDetails {
        vid,
        pid,
        serial_number: serial.map(|s| s.to_string()),
        manufacturer: manufacturer.map(|s| s.to_string()),
        product: product.map(|s| s.to_string()),
    })
}

fn listing(name: &str, kind: PortKind) -> PortListing {
    PortListing {
        port_name: name.to_string(),
        kind,
    }
}

fn details(name: &str, low: bool) -> PortDetails {
    PortDetails {
        port_name: name.to_string(),
        display_name: format!("{}_dev", name),
        is_low_info_or_microsoft: low,
    }
}

// ---------------------------------------------------------------- ports

#[test]
fn port_with_full_usb_info_is_shown_with_trimmed_product() {
    let p = listing(
        "COM15",
        usb(0x0403, 0x6001, Some("A5069RR4"), Some("FTDI"), Some("  USB Serial Converter ")),
    );
    let d = describe_port(&p);
    assert_eq!(d.port_name, "COM15");
    assert_eq!(d.display_name, "COM15_USB Serial Converter");
    assert!(!d.is_low_info_or_microsoft);
}

#[test]
fn port_by_microsoft_in_any_case_is_low_info() {
    let p = listing(
        "COM4",
        usb(0x045E, 0x0001, Some("123"), Some("MicroSoft Corp."), Some("Modem")),
    );
    let d = describe_port(&p);
    assert!(d.is_low_info_or_microsoft);
    assert_eq!(d.display_name, "COM4_Modem");
}

#[test]
fn port_missing_descriptors_is_low_info() {
    let no_serial = describe_port(&listing("A", usb(1, 2, None, Some("Acme"), Some("Widget"))));
    assert!(no_serial.is_low_info_or_microsoft);
    let placeholder = describe_port(&listing(
        "B",
        usb(1, 2, Some("Not available"), Some("Acme"), Some("Widget")),
    ));
    assert!(placeholder.is_low_info_or_microsoft);
    let zero_ids = describe_port(&listing("C", usb(0, 0, Some("1"), Some("Acme"), Some("W"))));
    assert!(zero_ids.is_low_info_or_microsoft);
    let no_maker = describe_port(&listing("D", usb(1, 2, Some("1"), None, Some("W"))));
    assert!(no_maker.is_low_info_or_microsoft);
}

#[test]
fn port_name_part_falls_back_and_skips_placeholders() {
    // No product: the manufacturer names the device.
    let d = describe_port(&listing("COM7", usb(1, 2, Some("1"), Some(" Acme "), None)));
    assert_eq!(d.display_name, "COM7_Acme");
    // A placeholder product in any case, or a blank one, falls back to the
    // manufacturer.
    let d = describe_port(&listing("COM15", usb(1, 2, Some("1"), Some("FTDI"), Some("Not available"))));
    assert_eq!(d.display_name, "COM15_FTDI");
    let d = describe_port(&listing("COM8", usb(1, 2, Some("1"), Some("Acme"), Some("NOT AVAILABLE"))));
    assert_eq!(d.display_name, "COM8_Acme");
    let d = describe_port(&listing("COM9", usb(1, 2, Some("1"), Some("Acme"), Some("   "))));
    assert_eq!(d.display_name, "COM9_Acme");
    // With nothing usable the port stands alone.
    let d = describe_port(&listing("COM10", usb(1, 2, Some("1"), Some(" not available "), Some(""))));
    assert_eq!(d.display_name, "COM10");
    let d = describe_port(&listing("COM11", usb(1, 2, Some("1"), None, None)));
    assert_eq!(d.display_name, "COM11");
}

#[test]
fn port_with_empty_manufacturer_is_low_info() {
    let d = describe_port(&listing("COM12", usb(1, 2, Some("1"), Some(""), Some("Widget"))));
    assert!(d.is_low_info_or_microsoft);
    assert_eq!(d.display_name, "COM12_Widget");
}

#[test]
fn non_usb_ports_are_low_info_and_unnamed() {
    for kind in [PortKind::Pci, PortKind::Bluetooth, PortKind::Unknown] {
        let d = describe_port(&listing("/dev/ttyS0", kind));
        assert!(d.is_low_info_or_microsoft);
        assert_eq!(d.display_name, "/dev/ttyS0");
    }
}

#[test]
fn chosen_port_stays_while_visible() {
    let ports = vec![details("COM1", false), details("COM2", false)];
    assert_eq!(choose_port(&ports, &"COM2".to_string(), true), "COM2");
}

#[test]
fn chosen_port_moves_to_first_visible() {
    let ports = vec![details("COM1", true), details("COM2", false), details("COM3", false)];
    // The current port is filtered out: the first visible one is taken.
    assert_eq!(choose_port(&ports, &"COM1".to_string(), true), "COM2");
    // Without the filter it stays.
    assert_eq!(choose_port(&ports, &"COM1".to_string(), false), "COM1");
    // A port that is gone is replaced.
    assert_eq!(choose_port(&ports, &"COM9".to_string(), false), "COM1");
}

#[test]
fn chosen_port_is_empty_when_nothing_visible() {
    let ports = vec![details("COM1", true)];
    assert_eq!(choose_port(&ports, &"COM1".to_string(), true), "");
    assert_eq!(choose_port(&Vec::new(), &"COM1".to_string(), false), "");
}

#[test]
fn selected_port_shows_its_display_name() {
    let ports = vec![details("COM1", false), details("COM2", true)];
    assert_eq!(selected_display_name(&ports, &"COM2".to_string()), "COM2_dev");
    assert_eq!(selected_display_name(&ports, &"COM5".to_string()), "COM5");
}

#[test]
fn char_helpers_trim_and_search() {
    assert_eq!(trim_chars(&chars("\t a b \u{3000}")), chars("a b"));
    assert_eq!(trim_chars(&chars("   ")), Vec::<char>::new());
    assert!(contains_chars(&chars("big microsoft inc"), &chars("microsoft")));
    assert!(!contains_chars(&chars("micro soft"), &chars("microsoft")));
    assert!(contains_chars(&chars("x"), &Vec::new()));
}

// -------------------------------------------------------------- session

#[test]
fn session_starts_disconnected() {
    let s = SessionState::new();
    assert!(!s.is_connected);
    assert!(!s.is_paused);
    assert_eq!(s.status_message, "Disconnected");
    assert!(s.error_message.is_none());
    assert!(!s.device_info_loading);
    assert!(s.device_info.is_none());
    assert!(!s.show_device_info_dialog);
}

#[test]
fn connected_event_sets_status_and_clears_terminal() {
    let mut s = SessionState::new();
    let mut b = TerminalBuffer::new(10);
    b.push_bytes_and_truncate(b"old\npart", epoch());
    let v = b.version();
    apply_event(&mut s, &mut b, WorkerEvent::Connected("COM3".to_string()), epoch());
    assert!(s.is_connected);
    assert_eq!(s.status_message, "Connected: COM3");
    assert_eq!(b.entries().len(), 0);
    assert!(b.pending().is_empty());
    assert_eq!(b.total_lines_received(), 0);
    assert_eq!(b.version(), v + 1);

    apply_event(&mut s, &mut b, WorkerEvent::Disconnected, epoch());
    assert!(!s.is_connected);
    assert_eq!(s.status_message, "Disconnected");
}

#[test]
fn received_data_is_dropped_while_paused() {
    let mut s = SessionState::new();
    let mut b = TerminalBuffer::new(10);
    s.is_paused = true;
    apply_event(&mut s, &mut b, WorkerEvent::DataReceived(b"a\n".to_vec()), epoch());
    assert_eq!(b.entries().len(), 0);
    assert_eq!(b.version(), 0);
    s.is_paused = false;
    apply_event(&mut s, &mut b, WorkerEvent::DataReceived(b"a\nb".to_vec()), epoch());
    assert_eq!(b.entries().len(), 1);
    assert_eq!(b.entries()[0].data, b"a\n".to_vec());
    assert_eq!(b.pending(), b"b");
}

#[test]
fn error_and_device_events_update_the_session() {
    let mut s = SessionState::new();
    let mut b = TerminalBuffer::new(10);
    apply_event(&mut s, &mut b, WorkerEvent::ErrorOccurred("boom".to_string()), epoch());
    assert_eq!(s.error_message.as_deref(), Some("boom"));
    s.device_info_loading = true;
    let info = build_device_info("COM1".to_string(), None, DriverDetails::none());
    apply_event(&mut s, &mut b, WorkerEvent::DeviceInfo(Box::new(info)), epoch());
    assert!(!s.device_info_loading);
    assert!(s.show_device_info_dialog);
    assert_eq!(s.device_info.as_ref().unwrap().port_name, "COM1");
    assert_eq!(b.version(), 0);
}

#[test]
fn ascii_payload_appends_line_ending() {
    assert_eq!(
        tx_payload("hi", TxMode::Ascii, LineEnding::CRLF).unwrap(),
        b"hi\r\n".to_vec()
    );
    assert_eq!(
        tx_payload("é", TxMode::Ascii, LineEnding::Empty).unwrap(),
        vec![0xC3, 0xA9]
    );
    assert_eq!(tx_payload("AA 0b", TxMode::Hex, LineEnding::LF).unwrap(), vec![0xAA, 0x0B]);
    assert_eq!(
        tx_payload("0101", TxMode::Binary, LineEnding::LF).unwrap_err(),
        "Binary token '0101' must be exactly 8 bits"
    );
}

#[test]
fn validation_only_checks_parsed_modes() {
    assert_eq!(validation_error("", TxMode::Hex), None);
    assert_eq!(validation_error("zz", TxMode::Ascii), None);
    assert_eq!(validation_error("AA FF", TxMode::Hex), None);
    assert_eq!(
        validation_error("AZ", TxMode::Hex),
        Some("Invalid HEX token: 'AZ'".to_string())
    );
    assert_eq!(
        validation_error("2", TxMode::Binary),
        Some("Binary token '2' must be exactly 8 bits".to_string())
    );
}

#[test]
fn history_skips_repeats() {
    let mut h: Vec<String> = Vec::new();
    record_history(&mut h, &"a".to_string());
    record_history(&mut h, &"a".to_string());
    record_history(&mut h, &"b".to_string());
    record_history(&mut h, &"a".to_string());
    assert_eq!(h, vec!["a", "b", "a"]);
}

#[test]
fn history_up_and_down_walk_the_entries() {
    let h: Vec<String> = vec!["one".into(), "two".into(), "three".into()];
    let (i, t) = history_up(&h, None);
    assert_eq!((i, t.as_str()), (2, "three"));
    let (i, t) = history_up(&h, Some(i));
    assert_eq!((i, t.as_str()), (1, "two"));
    let (i0, t0) = history_up(&h, Some(0));
    assert_eq!((i0, t0.as_str()), (0, "one"));
    // Down from 1 comes back to 2, where up started.
    assert_eq!(history_down(&h, Some(i)), Some((Some(2), "three".to_string())));
    // Past the newest the line empties and the selection goes.
    assert_eq!(history_down(&h, Some(2)), Some((None, String::new())));
    assert_eq!(history_down(&h, None), None);
}

#[test]
fn connect_needs_a_port() {
    let mut b = TerminalBuffer::new(10);
    b.push_bytes_and_truncate(b"x\n", epoch());
    assert_eq!(
        connect_request(&String::new(), &mut b),
        Err("No serial port selected".to_string())
    );
    assert_eq!(b.entries().len(), 1);
    assert_eq!(connect_request(&"COM1".to_string(), &mut b), Ok(()));
    assert_eq!(b.entries().len(), 0);
}

#[test]
fn line_limit_and_banner_rules() {
    assert_eq!(line_limit(true, 500), 0);
    assert_eq!(line_limit(false, 500), 500);
    assert!(banner_visible(0));
    assert!(banner_visible(5));
    assert!(!banner_visible(6));
}

#[test]
fn after_send_records_entry_and_history() {
    let mut b = TerminalBuffer::new(10);
    let mut h: Vec<String> = vec!["x".into()];
    let mut idx = Some(0usize);
    let mut input = "AA".to_string();
    after_send(&mut b, &mut h, &mut idx, &mut input, &[0xAA], TxMode::Hex, epoch());
    assert_eq!(b.entries().len(), 1);
    assert_eq!(b.entries()[0].data, vec![0xAA]);
    assert_eq!(b.total_lines_received(), 1);
    assert_eq!(h, vec!["x", "AA"]);
    assert_eq!(idx, None);
    assert!(input.is_empty());
}

// --------------------------------------------------------------- worker

fn settings(poll: u64) -> SerialSettings {
    let mut s = SerialSettings::default_settings();
    s.port_name = "COM3".to_string();
    s.poll_interval_ms = poll;
    s
}

#[test]
fn default_settings_are_115200_8n1() {
    let s = SerialSettings::default_settings();
    assert_eq!(s.port_name, "");
    assert_eq!(s.baud_rate, 115200);
    assert_eq!(s.poll_interval_ms, 10);
}

#[test]
fn timeouts_follow_the_poll_interval() {
    assert_eq!(read_timeout_ms(0), 1);
    assert_eq!(read_timeout_ms(25), 25);
    assert_eq!(command_wait_ms(0), 0);
    assert_eq!(command_wait_ms(1), 1);
    assert_eq!(command_wait_ms(50), 2);
    assert_eq!(next_poll_interval(&WorkerCommand::Connect(settings(7)), 10), 7);
    assert_eq!(next_poll_interval(&WorkerCommand::Disconnect, 10), 10);
    assert!(should_yield(0, false));
    assert!(!should_yield(0, true));
    assert!(!should_yield(5, false));
}

#[test]
fn commands_are_planned() {
    match plan_command(WorkerCommand::Connect(settings(0)), false) {
        CommandStep::Open {
            settings,
            read_timeout_ms,
        } => {
            assert_eq!(settings.port_name, "COM3");
            assert_eq!(read_timeout_ms, 1);
        }
        other => panic!("unexpected {:?}", other),
    }
    assert!(matches!(plan_command(WorkerCommand::Disconnect, true), CommandStep::Close));
    match plan_command(WorkerCommand::WriteData(vec![1, 2]), true) {
        CommandStep::Write(d) => assert_eq!(d, vec![1, 2]),
        other => panic!("unexpected {:?}", other),
    }
    match plan_command(WorkerCommand::WriteData(vec![1]), false) {
        CommandStep::Refuse(m) => assert_eq!(m, "Cannot write: No open port"),
        other => panic!("unexpected {:?}", other),
    }
    match plan_command(WorkerCommand::GetDeviceInfo("COM9".into()), false) {
        CommandStep::Inspect(n) => assert_eq!(n, "COM9"),
        other => panic!("unexpected {:?}", other),
    }
    assert!(matches!(plan_command(WorkerCommand::Exit, true), CommandStep::Stop));
}

#[test]
fn open_close_and_write_events() {
    assert!(close_events(false).is_empty());
    let ev = close_events(true);
    assert_eq!(ev.len(), 1);
    assert!(matches!(ev[0], WorkerEvent::Disconnected));

    let ev = open_events(&"COM3".to_string(), None);
    assert!(matches!(&ev[..], [WorkerEvent::Connected(n)] if n == "COM3"));
    let ev = open_events(&"COM3".to_string(), Some("busy".into()));
    assert!(matches!(&ev[..],
        [WorkerEvent::ErrorOccurred(m), WorkerEvent::Disconnected]
        if m == "Failed to open port COM3: busy"));

    assert!(write_events(None).is_empty());
    let ev = write_events(Some("gone".into()));
    assert!(matches!(&ev[..], [WorkerEvent::ErrorOccurred(m)] if m == "Write failed: gone"));
}

#[test]
fn reads_are_batched() {
    let mut batch = vec![1u8];
    let mut events = Vec::new();
    assert_eq!(absorb_read(&mut batch, ReadOutcome::Data(vec![2, 3]), &mut events), (true, false));
    assert_eq!(absorb_read(&mut batch, ReadOutcome::Data(vec![]), &mut events), (false, false));
    assert_eq!(absorb_read(&mut batch, ReadOutcome::Quiet, &mut events), (false, false));
    assert_eq!(batch, vec![1, 2, 3]);
    assert!(events.is_empty());
    assert_eq!(
        absorb_read(&mut batch, ReadOutcome::Failed("io".into()), &mut events),
        (false, true)
    );
    assert!(matches!(&events[..], [WorkerEvent::ErrorOccurred(m)] if m == "Serial read error: io"));
    assert_eq!(batch, vec![1, 2, 3]);
}

#[test]
fn batches_are_due_by_size_or_age() {
    let mut batch = vec![7u8; 10];
    assert!(take_due_batch(&mut batch, 19, 10).is_none());
    assert_eq!(batch.len(), 10);
    assert!(take_due_batch(&mut batch, 1, 0).is_none());
    match take_due_batch(&mut batch, 2, 0) {
        Some(WorkerEvent::DataReceived(d)) => assert_eq!(d, vec![7u8; 10]),
        other => panic!("unexpected {:?}", other),
    }
    assert!(batch.is_empty());

    let mut big = vec![0u8; 2048];
    assert!(matches!(take_due_batch(&mut big, 0, 10), Some(WorkerEvent::DataReceived(_))));
    let mut empty: Vec<u8> = Vec::new();
    assert!(take_due_batch(&mut empty, 1000, 10).is_none());

    let mut rest = vec![5u8];
    assert!(matches!(take_residual_batch(&mut rest), Some(WorkerEvent::DataReceived(d)) if d == vec![5]));
    assert!(rest.is_empty());
    assert!(take_residual_batch(&mut rest).is_none());
}

// --------------------------------------------------------- device info

#[test]
fn text_helpers_match_std_replace_and_parse() {
    assert_eq!(remove_all_chars(&chars("/Date(123)/"), &chars("/Date(")), chars("123)/"));
    assert_eq!(remove_all_chars(&chars("aaa"), &chars("aa")), chars("a"));
    assert_eq!(double_backslashes_chars(&chars(r"A\B\\C")), chars(r"A\\B\\\\C"));
    assert_eq!(parse_i64(&chars("+5")), Some(5));
    assert_eq!(parse_i64(&chars("-42")), Some(-42));
    assert_eq!(parse_i64(&chars("-9223372036854775808")), Some(i64::MIN));
    assert_eq!(parse_i64(&chars("9223372036854775808")), None);
    assert_eq!(parse_i64(&chars("")), None);
    assert_eq!(parse_i64(&chars("-")), None);
    assert_eq!(parse_i64(&chars("12a")), None);
    assert_eq!(hex_word_string(0x0403), "0x0403");
    assert_eq!(hex_word_string(0xBEEF), "0xBEEF");
}

#[test]
fn driver_dates_read_as_utc_days() {
    assert_eq!(driver_date_text("/Date(1730073600000)/"), Some("2024-10-28".to_string()));
    assert_eq!(driver_date_text("/Date(0)/"), Some("1970-01-01".to_string()));
    assert_eq!(driver_date_text("/Date(x)/"), None);
    assert_eq!(utc_date_text(86_400_000), Some("1970-01-02".to_string()));
    assert_eq!(utc_date_text(i64::MAX), None);
}

#[test]
fn timestamps_need_a_representable_instant() {
    assert!(Timestamp::new(0, 3600).is_some());
    assert!(Timestamp::new(0, 86_400).is_none());
    assert!(Timestamp::new(i64::MAX, 0).is_none());
    let t = Timestamp::new(1_500, -60).unwrap();
    assert_eq!(t.millis(), 1_500);
    assert_eq!(t.offset_secs(), -60);
    assert_eq!(t.entry_prefix(), "[1969-12-31 23:59:01.500] ");
}

#[test]
fn queries_embed_the_port_and_escaped_id() {
    assert_eq!(
        pnp_entity_query("COM15"),
        "Get-CimInstance Win32_PnPEntity | Where-Object { $_.Name -like '*(COM15)*' } | Select-Object Manufacturer, DeviceID, Service | ConvertTo-Json"
    );
    assert_eq!(
        signed_driver_query(r"FTDIBUS\VID_0403"),
        r"Get-CimInstance Win32_PnPSignedDriver | Where-Object { $_.DeviceID -eq 'FTDIBUS\\VID_0403' } | Select-Object DriverProviderName, DriverVersion, DriverDate | ConvertTo-Json"
    );
}

#[test]
fn database_answers_fill_the_details() {
    let mut drv = DriverDetails::none();
    read_entity_answer(
        br#"{"Manufacturer":"FTDI","DeviceID":"FTDIBUS\\VID_0403+PID_6001\\0000","Service":"FTSER2K"}"#,
        true,
        &mut drv,
    );
    assert_eq!(drv.manufacturer.as_deref(), Some("FTDI"));
    assert_eq!(drv.device_id.as_deref(), Some(r"FTDIBUS\VID_0403+PID_6001\0000"));
    assert_eq!(drv.service.as_deref(), Some("FTSER2K"));
    assert!(wants_driver_query(&drv));

    read_driver_answer(
        br#"{"DriverProviderName":"FTDI","DriverVersion":"2.12.36.20","DriverDate":"/Date(1730073600000)/"}"#,
        true,
        &mut drv,
    );
    assert_eq!(drv.driver_provider.as_deref(), Some("FTDI"));
    assert_eq!(drv.driver_version.as_deref(), Some("2.12.36.20"));
    assert_eq!(drv.driver_date.as_deref(), Some("2024-10-28"));
}

#[test]
fn database_failures_leave_details_alone() {
    let mut drv = DriverDetails::none();
    read_entity_answer(br#"{"Manufacturer":"X"}"#, false, &mut drv);
    assert!(drv.manufacturer.is_none());
    read_entity_answer(b"not json", true, &mut drv);
    assert!(drv.device_id.is_none());
    read_entity_answer(br#"{"DeviceID":12}"#, true, &mut drv);
    assert!(drv.device_id.is_none());
    assert!(!wants_driver_query(&drv));
    drv.device_id = Some("Not available".into());
    assert!(!wants_driver_query(&drv));
    read_driver_answer(br#"{"DriverDate":"someday"}"#, true, &mut drv);
    assert!(drv.driver_date.is_none());
}

#[test]
fn device_details_combine_listing_and_database() {
    let ports = vec![
        listing("COM1", PortKind::Pci),
        listing("COM15", usb(0x0403, 0x6001, Some("A5069RR4"), Some("FTDI"), Some("USB Serial Converter"))),
    ];
    let kind = find_listed_kind(&ports, &"COM15".to_string());
    assert!(matches!(kind, Some(PortKind::Usb(_))));
    let info: DeviceInfo = build_device_info("COM15".to_string(), kind, DriverDetails::none());
    assert_eq!(info.port_type, "USB");
    assert_eq!(info.vid, "0x0403");
    assert_eq!(info.pid, "0x6001");
    assert_eq!(info.serial_number, "A5069RR4");
    assert_eq!(info.product, "USB Serial Converter");
    assert_eq!(info.manufacturer, "FTDI");
    assert_eq!(info.device_id, "Not available");
    assert_eq!(info.driver_date, "Not available");

    let mut drv = DriverDetails::none();
    drv.manufacturer = Some("Vendor DB".into());
    let info = build_device_info("COM15".to_string(), find_listed_kind(&ports, &"COM15".to_string()), drv);
    assert_eq!(info.manufacturer, "Vendor DB");

    let info = build_device_info("COM1".to_string(), find_listed_kind(&ports, &"COM1".to_string()), DriverDetails::none());
    assert_eq!(info.port_type, "PCI");
    assert_eq!(info.vid, "Not available");

    assert!(find_listed_kind(&ports, &"COM2".to_string()).is_none());
    let info = build_device_info("COM2".to_string(), None, DriverDetails::none());
    assert_eq!(info.port_type, "Unknown");
    assert_eq!(info.manufacturer, "Not available");
}

// ----------------------------------------------------------------- laws

fn translation_of(text: &str, tag: &str) -> String {
    let start = text.find(tag).unwrap() + tag.len();
    let rest = &text[start..];
    rest[..rest.find('\n').unwrap()].to_string()
}

#[test]
fn hex_translation_reads_back_as_the_same_bytes() {
    let data: Vec<u8> = vec![0x00, 0x0A, 0x7F, 0x80, 0xC3, 0xFF, 0x41];
    let shown = serial_monitor::render::hex_string(&data);
    assert_eq!(serial_monitor::tx_parse::parse_hex(&shown).unwrap(), data);
    assert_eq!(serial_monitor::tx_parse::parse_hex(&serial_monitor::render::hex_string(&[])).unwrap(), Vec::<u8>::new());
}

#[test]
fn binary_translation_reads_back_as_the_same_bytes() {
    let data: Vec<u8> = vec![0x00, 0x01, 0x80, 0xAA, 0xFF];
    let line = serial_monitor::render::render_entry(
        &epoch(),
        serial_monitor::serial_types::Direction::Rx,
        &data,
        None,
        false,
        true,
        serial_monitor::serial_types::TranslationFormat::Binary,
    );
    let shown = translation_of(&line, "[BIN] ");
    assert_eq!(shown, "00000000 00000001 10000000 10101010 11111111");
    assert_eq!(serial_monitor::tx_parse::parse_binary(&shown).unwrap(), data);
}

#[test]
fn validated_lines_are_sent_with_any_line_ending() {
    for (input, mode) in [("AA 0b", TxMode::Hex), ("00000001", TxMode::Binary), ("hello", TxMode::Ascii)] {
        assert_eq!(validation_error(input, mode), None);
        for le in [LineEnding::Empty, LineEnding::CR, LineEnding::LF, LineEnding::CRLF] {
            assert!(tx_payload(input, mode, le).is_ok());
        }
    }
    let refused = validation_error("AX", TxMode::Hex).unwrap();
    assert_eq!(tx_payload("AX", TxMode::Hex, LineEnding::CRLF).unwrap_err(), refused);
}

#[test]
fn send_outcomes_update_history_only_on_success() {
    let mut s = SessionState::new();
    let mut b = TerminalBuffer::new(10);
    let mut h: Vec<String> = vec!["x".into()];
    let mut idx = Some(0usize);
    let mut input = "AA".to_string();
    finish_send(&mut s, &mut b, &mut h, &mut idx, &mut input, &[0xAA], TxMode::Hex, epoch(), Some("closed".into()));
    assert_eq!(s.error_message.as_deref(), Some("Failed to send data: closed"));
    assert_eq!(h, vec!["x"]);
    assert_eq!(idx, Some(0));
    assert_eq!(input, "AA");
    assert_eq!(b.entries().len(), 0);

    let mut s2 = SessionState::new();
    finish_send(&mut s2, &mut b, &mut h, &mut idx, &mut input, &[0xAA], TxMode::Hex, epoch(), None);
    assert!(s2.error_message.is_none());
    assert_eq!(h, vec!["x", "AA"]);
    assert_eq!(idx, None);
    assert!(input.is_empty());
    assert_eq!(b.entries().len(), 1);

    reject_input(&mut s2, "Invalid HEX token: 'ZZ'");
    assert_eq!(s2.error_message.as_deref(), Some("Invalid input: Invalid HEX token: 'ZZ'"));
}

#[test]
fn worker_loop_exit_decisions() {
    assert_eq!(after_command(false, true, 0), LoopControl::Continue);
    assert_eq!(after_command(true, true, 0), LoopControl::Exit { close_port: false });
    assert_eq!(after_command(true, true, 10), LoopControl::Exit { close_port: true });
    assert_eq!(after_command(true, false, 0), LoopControl::Exit { close_port: true });
    assert_eq!(after_channel_closed(), LoopControl::Exit { close_port: true });
}

#[test]
fn hex_run_in_either_case_reads_back() {
    let data: Vec<u8> = vec![0x00, 0x0A, 0x7F, 0x80, 0xC3, 0xFF];
    let lower: String = data.iter().map(|b| format!("{:02x}", b)).collect();
    let upper: String = data.iter().map(|b| format!("{:02X}", b)).collect();
    assert_eq!(serial_monitor::tx_parse::parse_hex(&lower).unwrap(), data);
    assert_eq!(serial_monitor::tx_parse::parse_hex(&upper).unwrap(), data);
    assert_eq!(serial_monitor::tx_parse::parse_hex("ff").unwrap(), vec![0xFF]);
}

#[test]
fn pushing_in_pieces_makes_the_same_lines() {
    let mut one = TerminalBuffer::new(2);
    let mut two = TerminalBuffer::new(2);
    let a = b"ab\ncd\nef";
    let c = b"gh\nij\nk";
    let all: Vec<u8> = [&a[..], &c[..]].concat();
    one.push_bytes(&all, serial_monitor::serial_types::Direction::Rx, epoch());
    two.push_bytes(a, serial_monitor::serial_types::Direction::Rx, epoch());
    two.push_bytes(c, serial_monitor::serial_types::Direction::Rx, epoch());
    let lines = |b: &TerminalBuffer| b.entries().iter().map(|e| e.data.clone()).collect::<Vec<_>>();
    assert_eq!(lines(&one), lines(&two));
    assert_eq!(lines(&one), vec![b"efgh\n".to_vec(), b"ij\n".to_vec()]);
    assert_eq!(one.pending(), two.pending());
    assert_eq!(one.total_lines_received(), two.total_lines_received());
}

#[test]
fn unlimited_buffer_never_drops_a_line() {
    let mut b = TerminalBuffer::new(0);
    for n in 1..=25_000usize {
        b.push_bytes_and_truncate(b"x\n", epoch());
        if n % 5_000 == 0 {
            assert_eq!(b.entries().len(), n);
        }
    }
}

#[test]
fn chrono_range_is_exactly_the_stated_one() {
    let first: i64 = -8_334_601_228_800_000;
    let last: i64 = 8_210_266_876_799_999;
    assert!(Timestamp::new(first, 0).is_some());
    assert!(Timestamp::new(first - 1, 0).is_none());
    assert!(Timestamp::new(last, 0).is_some());
    assert!(Timestamp::new(last + 1, 0).is_none());
    assert!(Timestamp::new(i64::MIN, 0).is_none());
    assert_eq!(utc_date_text(last), Some("+262142-12-31".to_string()));
    assert_eq!(utc_date_text(first), Some("-262143-01-01".to_string()));
    assert_eq!(utc_date_text(last + 1), None);
}

#[test]
fn export_stamps_pending_bytes_with_the_given_instant() {
    let mut b = TerminalBuffer::new(10);
    b.push_bytes_and_truncate(b"ab", epoch());
    let at = Timestamp::new(3_600_000, 0).unwrap();
    assert_eq!(
        b.export_to_string(true, true, false, serial_monitor::serial_types::TranslationFormat::Hex, at),
        "[1] [1970-01-01 01:00:00.000] [RX] ab\n"
    );
}

#[test]
fn worker_batching_loses_no_byte() {
    let reads: Vec<Vec<u8>> = vec![vec![1, 2], vec![], vec![3; 3000], vec![4], vec![5, 6, 7]];
    let mut batch = Vec::new();
    let mut events = Vec::new();
    let mut delivered: Vec<u8> = Vec::new();
    let mut all: Vec<u8> = Vec::new();
    for (i, r) in reads.iter().enumerate() {
        all.extend_from_slice(r);
        absorb_read(&mut batch, ReadOutcome::Data(r.clone()), &mut events);
        if let Some(WorkerEvent::DataReceived(d)) = take_due_batch(&mut batch, (i as u64) * 7, 10) {
            assert!(!d.is_empty());
            delivered.extend(d);
        }
        let mut seen = delivered.clone();
        seen.extend_from_slice(&batch);
        assert_eq!(seen, all);
    }
    if let Some(WorkerEvent::DataReceived(d)) = take_residual_batch(&mut batch) {
        delivered.extend(d);
    }
    assert_eq!(delivered, all);
    assert!(events.is_empty());
}
