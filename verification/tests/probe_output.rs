use hyprproxlock::probe::{
    confirms_connected, connect_indicates_success, contains_substr, find_substr, parse_i16,
    rssi_from_probe_output,
};

#[test]
fn find_substr_reports_first_occurrence() {
    assert_eq!(find_substr("abcabc", "bc"), Some(1));
    assert_eq!(find_substr("abcabc", "cab"), Some(2));
    assert_eq!(find_substr("abcabc", "zz"), None);
    assert_eq!(find_substr("", "a"), None);
    assert_eq!(find_substr("abc", ""), Some(0));
}

#[test]
fn contains_substr_basics() {
    assert!(contains_substr("RSSI return value: -60", "RSSI return value:"));
    assert!(!contains_substr("short", "much longer needle"));
    assert!(contains_substr("xyz", "xyz"));
}

#[test]
fn parse_i16_accepts_signed_decimals() {
    assert_eq!(parse_i16("123"), Some(123));
    assert_eq!(parse_i16("-60"), Some(-60));
    assert_eq!(parse_i16("+5"), Some(5));
    assert_eq!(parse_i16("0"), Some(0));
    assert_eq!(parse_i16("32767"), Some(32767));
    assert_eq!(parse_i16("-32768"), Some(-32768));
}

#[test]
fn parse_i16_rejects_malformed_or_out_of_range() {
    assert_eq!(parse_i16(""), None);
    assert_eq!(parse_i16("-"), None);
    assert_eq!(parse_i16("+"), None);
    assert_eq!(parse_i16("12a"), None);
    assert_eq!(parse_i16(" 12"), None);
    assert_eq!(parse_i16("32768"), None);
    assert_eq!(parse_i16("-32769"), None);
    assert_eq!(parse_i16("99999999999"), None);
}

#[test]
fn rssi_extracted_from_typical_output() {
    assert_eq!(rssi_from_probe_output("RSSI return value: -60\n"), Some(-60));
    assert_eq!(rssi_from_probe_output("RSSI return value:-42"), Some(-42));
    assert_eq!(rssi_from_probe_output("RSSI return value: 7"), Some(7));
}

#[test]
fn rssi_found_on_its_line_among_others() {
    let out = "querying device\nhci0: RSSI return value: -55\ndone\n";
    assert_eq!(rssi_from_probe_output(out), Some(-55));
    // Only the line carrying the announcement matters; later numbers on
    // other lines are ignored.
    let out = "noise: 1\nRSSI return value: -61\nnoise: 99\n";
    assert_eq!(rssi_from_probe_output(out), Some(-61));
}

#[test]
fn rssi_missing_or_malformed_reports_nothing() {
    assert_eq!(rssi_from_probe_output(""), None);
    assert_eq!(rssi_from_probe_output("no announcement here"), None);
    assert_eq!(rssi_from_probe_output("RSSI return value: abc"), None);
    assert_eq!(rssi_from_probe_output("RSSI return value:"), None);
    assert_eq!(rssi_from_probe_output("RSSI return value: 99999"), None);
}

#[test]
fn connection_confirmation_reads_status_output() {
    assert!(confirms_connected("Device AA\n\tConnected: yes\n"));
    assert!(!confirms_connected("Device AA\n\tConnected: no\n"));
    assert!(!confirms_connected("Device AA not available\nConnected: yes\n"));
    assert!(!confirms_connected(""));
}

#[test]
fn connect_success_reads_connect_output() {
    assert!(connect_indicates_success("Attempting...\nConnection successful\n"));
    assert!(connect_indicates_success("Connected: yes\n"));
    assert!(!connect_indicates_success("Connected: yes but not available"));
    assert!(!connect_indicates_success("Failed to connect"));
    assert!(!connect_indicates_success(""));
}
