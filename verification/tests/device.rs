use minivna::device::{
    is_tiny_firmware, line_timeout_message, query_next, query_timeout_message, quiet_next,
    resolve_port, to_device_config, unsolicited_message, LineAction, LineRead, LineReader, Metric,
    PortEntry, QueryAction, QuietAction, QuietRead, UsbIdentity,
};
use minivna::scan::ReadFault;

fn names(list: &[&str]) -> Vec<String> {
    list.iter().map(|name| name.to_string()).collect()
}

fn usb(name: &str, vid: u16, pid: u16) -> PortEntry {
    PortEntry { name: name.to_owned(), usb: Some(UsbIdentity { vid, pid }) }
}

#[test]
fn explicit_port_does_not_require_discovery() {
    assert_eq!(resolve_port("/dev/example", &vec![], &vec![]).unwrap(), "/dev/example");
}

#[test]
fn the_only_stable_name_is_used() {
    let found = names(&["usb-Other", "usb-FTDI_FT230X_Basic_UART_D1-if00"]);
    assert_eq!(
        resolve_port("auto", &found, &vec![]).unwrap(),
        "/dev/serial/by-id/usb-FTDI_FT230X_Basic_UART_D1-if00"
    );
}

#[test]
fn several_stable_names_are_listed_in_order() {
    let found = names(&["b-FTDI_FT230X_Basic_UART", "a-FTDI_FT230X_Basic_UART"]);
    assert_eq!(
        resolve_port("auto", &found, &vec![]).unwrap_err(),
        "multiple FT230X devices found (/dev/serial/by-id/a-FTDI_FT230X_Basic_UART, /dev/serial/by-id/b-FTDI_FT230X_Basic_UART); select one with --port"
    );
}

#[test]
fn usb_ports_are_looked_at_next() {
    let serial = PortEntry { name: "/dev/ttyS0".to_owned(), usb: None };
    let entries = vec![
        serial,
        usb("/dev/ttyUSB1", 0x0403, 0x6001),
        usb("/dev/ttyUSB0", 0x0403, 0x6015),
    ];
    assert_eq!(resolve_port("auto", &vec![], &entries).unwrap(), "/dev/ttyUSB0");
    assert_eq!(
        resolve_port("auto", &names(&["usb-Other"]), &vec![]).unwrap_err(),
        "no miniVNA FT230X serial port found; connect it or pass --port explicitly"
    );
    let entries = vec![
        usb("/dev/ttyUSB10", 0x0403, 0x6015),
        usb("/dev/ttyUSB2", 0x0403, 0x6015),
        usb("/dev/ttyUSB1", 0x0403, 0x6015),
    ];
    assert_eq!(
        resolve_port("auto", &vec![], &entries).unwrap_err(),
        "multiple FT230X ports found (/dev/ttyUSB1, /dev/ttyUSB10, /dev/ttyUSB2); select one with --port"
    );
}

#[test]
fn values_are_complete_with_two_bytes() {
    assert_eq!(query_next(&vec![], None, 0, 10), QueryAction::Read { max: 2 });
    assert_eq!(query_next(&vec![0x89], None, 9, 10), QueryAction::Read { max: 1 });
    assert_eq!(query_next(&vec![0x89], None, 10, 10), QueryAction::TimedOut);
    assert_eq!(query_next(&vec![0x89, 0x01], None, 10, 10), QueryAction::Done(0x0189));
    let fault = |fault| query_next(&vec![0x89], Some(fault), 9, 10);
    assert_eq!(fault(ReadFault::TimedOut), QueryAction::Read { max: 1 });
    assert_eq!(fault(ReadFault::Other), QueryAction::Fail);
    assert_eq!(
        query_timeout_message(Metric::Supply, 1_000_000_000, 1),
        "supply query timed out after 1000 ms (1/2 bytes)"
    );
}

#[test]
fn queries_have_their_commands() {
    assert_eq!(Metric::Temperature.command(), b"10\r");
    assert_eq!(Metric::Supply.command(), b"8\r");
    assert_eq!(Metric::Temperature.name(), "temperature");
}

#[test]
fn unsolicited_bytes_are_shown() {
    assert_eq!(
        unsolicited_message(&[0x0a, 0xff]),
        "received 2 unsolicited byte(s) while waiting for an idle device (first bytes: 0a ff); an older scan is still streaming"
    );
    assert!(unsolicited_message(&[1; 9]).contains("(first bytes: 01 01 01 01 01 01 01 01)"));
    assert!(unsolicited_message(&[1; 9]).starts_with("received 9 "));
}

#[test]
fn the_input_is_quiet_only_if_nothing_arrives_for_the_whole_window() {
    let silent = Some(QuietRead::Bytes { count: 0 });
    let passing = Some(QuietRead::Fault(ReadFault::TimedOut));
    assert_eq!(quiet_next(None, 0, 250), QuietAction::Read);
    assert_eq!(quiet_next(silent, 249, 250), QuietAction::Read);
    assert_eq!(quiet_next(passing, 249, 250), QuietAction::Read);
    assert_eq!(quiet_next(silent, 250, 250), QuietAction::Quiet);
    assert_eq!(quiet_next(passing, 250, 250), QuietAction::Quiet);
    assert_eq!(quiet_next(None, 0, 0), QuietAction::Quiet);
    for elapsed in [0, 249, 250, 1_000] {
        assert_eq!(
            quiet_next(Some(QuietRead::Bytes { count: 1 }), elapsed, 250),
            QuietAction::Refuse
        );
        assert_eq!(
            quiet_next(Some(QuietRead::Fault(ReadFault::Other)), elapsed, 250),
            QuietAction::Fail
        );
    }
}

fn read(bytes: &[u8]) -> Option<Result<String, String>> {
    let mut reader = LineReader::new();
    assert_eq!(reader.next(LineRead::Nothing, 0, 10), LineAction::Read);
    for byte in bytes {
        match reader.next(LineRead::Byte(*byte), 9, 10) {
            LineAction::Complete => return Some(reader.finish("firmware query")),
            action => assert_eq!(action, LineAction::Read),
        }
    }
    None
}

#[test]
fn lines_that_do_not_arrive_time_out() {
    let mut reader = LineReader::new();
    assert_eq!(reader.next(LineRead::Byte(b'F'), 10, 10), LineAction::TimedOut);
    assert_eq!(reader.next(LineRead::Fault(ReadFault::WouldBlock), 9, 10), LineAction::Read);
    assert_eq!(reader.next(LineRead::Fault(ReadFault::Other), 9, 10), LineAction::Fail);
    assert_eq!(reader.next(LineRead::Byte(b'\n'), 11, 10), LineAction::Complete);
    assert_eq!(reader.finish("firmware query").unwrap(), "F");
}

#[test]
fn lines_end_in_either_way() {
    assert_eq!(read(b"\r\nFW Tiny 1\r\n"), Some(Ok("FW Tiny 1".to_owned())));
    assert_eq!(read("\u{b5}\n".as_bytes()), Some(Ok("\u{b5}".to_owned())));
    assert_eq!(read(b"FW"), None);
    assert_eq!(read(b"\r\n"), None);
    assert_eq!(
        read(&[0x41, 0xff, 0x0d]),
        Some(Err("firmware query was not valid UTF-8: 41 ff".to_owned()))
    );
    assert_eq!(
        line_timeout_message(2_500_000, "firmware query"),
        "timed out after 2 ms waiting for firmware query"
    );
}

#[test]
fn firmware_is_recognised_by_its_prefix() {
    assert!(is_tiny_firmware("FW Tiny V1.3"));
    assert!(!is_tiny_firmware("FW Pro"));
    assert!(!is_tiny_firmware(" FW Tiny "));
}

#[test]
fn only_other_faults_are_final() {
    assert!(ReadFault::TimedOut.is_passing());
    assert!(ReadFault::WouldBlock.is_passing());
    assert!(ReadFault::Interrupted.is_passing());
    assert!(!ReadFault::Other.is_passing());
}

#[test]
fn the_port_has_fixed_settings() {
    let config = to_device_config("/dev/ttyUSB0");
    assert_eq!(config.port, "/dev/ttyUSB0");
    assert_eq!((config.baud, config.read_slice_ms), (921_600, 100));
}
