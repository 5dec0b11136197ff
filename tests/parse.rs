use ohmyphone::parse::{
    is_definite_setting, parse_battery, parse_call_forwarding, parse_data_marker,
    parse_mobile_data_connected, parse_setting_on, parse_signal, parse_uptime, UNKNOWN_LEVEL,
    UNKNOWN_SIGNAL,
};

#[test]
fn test_parse_battery() {
    let output = "  level: 82\n  status: 3\n";
    let (level, _charging) = parse_battery(output);
    assert_eq!(level, 82);
}

#[test]
fn test_parse_uptime() {
    let output = "12345.67 98765.43";
    assert_eq!(parse_uptime(output), 12345);
}

#[test]
fn battery_discharging_and_charging_codes() {
    assert_eq!(parse_battery("level: 82\nstatus: 3\n"), (82, false));
    assert_eq!(parse_battery("level: 82\nstatus: 2\n"), (82, true));
    assert_eq!(parse_battery("level: 100\nstatus: 5\n"), (100, true));
    assert_eq!(parse_battery("level: 40\nstatus: 4\n"), (40, false));
}

#[test]
fn battery_defaults_and_bad_values() {
    assert_eq!(parse_battery(""), (UNKNOWN_LEVEL, false));
    assert_eq!(parse_battery("no battery here"), (-1, false));
    assert_eq!(parse_battery("level: high\nstatus: x\n"), (-1, false));
    assert_eq!(parse_battery("level: 0\n"), (0, false));
    assert_eq!(parse_battery("Current Battery Service state:\r\n  AC powered: false\r\n  status: 2\r\n  level: 57\r\n"), (57, true));
}

#[test]
fn battery_last_line_wins() {
    assert_eq!(parse_battery("level: 10\nstatus: 2\nlevel: 20\nstatus: 3"), (20, false));
}

#[test]
fn signal_reading_and_sentinel() {
    let dump = "mServiceState=x\n  mSignalStrength=SignalStrength: rssi=-85 ber=99\n";
    assert_eq!(parse_signal(dump), -85);
    assert_eq!(parse_signal(""), UNKNOWN_SIGNAL);
    assert_eq!(parse_signal("nothing here\n"), -999);
    assert_eq!(parse_signal("SignalStrength: ber=99\n"), -999);
}

#[test]
fn signal_reading_at_end_of_line() {
    assert_eq!(parse_signal("SignalStrength: rssi=-85"), -85);
    assert_eq!(parse_signal("SignalStrength rssi=-70\nSignalStrength rssi=-60,"), -70);
    assert_eq!(parse_signal("SignalStrength rssi=\nSignalStrength rssi=-60,"), -60);
    assert_eq!(parse_signal("rssi=-70 only\nSignalStrength rssi=-5-3 x\nSignalStrength rssi=-91 y"), -91);
}

#[test]
fn uptime_forms() {
    assert_eq!(parse_uptime("  42.99 1.0\n"), 42);
    assert_eq!(parse_uptime("7 8"), 7);
    assert_eq!(parse_uptime(""), 0);
    assert_eq!(parse_uptime("abc 12"), 0);
    assert_eq!(parse_uptime("-5.5 1"), 0);
    assert_eq!(parse_uptime(".5"), 0);
    assert_eq!(parse_uptime("99999999999999999999999"), u64::MAX);
}

#[test]
fn uptime_exponent_and_special_forms() {
    assert_eq!(parse_uptime("1e3 5"), 1000);
    assert_eq!(parse_uptime("1.5e2"), 150);
    assert_eq!(parse_uptime("2E+1"), 20);
    assert_eq!(parse_uptime("12345e-2"), 123);
    assert_eq!(parse_uptime("1e-400"), 0);
    assert_eq!(parse_uptime("1e400"), u64::MAX);
    assert_eq!(parse_uptime("0e999"), 0);
    assert_eq!(parse_uptime("1e"), 0);
    assert_eq!(parse_uptime("e5"), 0);
    assert_eq!(parse_uptime("inf"), u64::MAX);
    assert_eq!(parse_uptime("+Infinity"), u64::MAX);
    assert_eq!(parse_uptime("-inf"), 0);
    assert_eq!(parse_uptime("NaN"), 0);
    assert_eq!(parse_uptime("7."), 7);
}

#[test]
fn call_forwarding_heuristic() {
    let short = "Result: Parcel(00000000 '....')";
    assert!(!parse_call_forwarding(short));
    let long = "Result: Parcel(\n  0x00000000: 00000000 00000001 00000002 '............')";
    assert!(long.len() > 50);
    assert!(parse_call_forwarding(long));
    let no_marker = "x".repeat(80);
    assert!(!parse_call_forwarding(&no_marker));
}

#[test]
fn mobile_block_default_or_internet_is_user_data() {
    let dump = "NetworkAgentInfo{ ni{[type: MOBILE[LTE], state: CONNECTED/CONNECTED, extra: default]} }\n";
    assert!(parse_mobile_data_connected(dump));
    let dump = "NetworkAgentInfo [MOBILE (LTE) - 100] state: CONNECTED\n  extra: internet\n\n";
    assert!(parse_mobile_data_connected(dump));
}

#[test]
fn mobile_block_ims_only_is_not_user_data() {
    let dump = "NetworkAgentInfo{ ni{[type: MOBILE[LTE], state: CONNECTED/CONNECTED, extra: ims]} }\n";
    assert!(!parse_mobile_data_connected(dump));
    let dump = "NetworkAgentInfo [MOBILE (LTE) - 101] state: CONNECTED\n  extra: ims\n\n";
    assert!(!parse_mobile_data_connected(dump));
}

#[test]
fn mobile_block_closing_and_wifi() {
    let dump = "NetworkAgentInfo [MOBILE - 1] CONNECTED\n  extra: ims\n\nNetworkAgentInfo [MOBILE - 2] CONNECTED\n  extra: internet\n\nNetworkAgentInfo [WIFI - 3] CONNECTED\n";
    assert!(parse_mobile_data_connected(dump));
    let wifi = "NetworkAgentInfo [WIFI - 3] CONNECTED extra: default\n";
    assert!(!parse_mobile_data_connected(wifi));
    let not_connected = "NetworkAgentInfo [MOBILE - 1] SUSPENDED extra: default\n";
    assert!(!parse_mobile_data_connected(not_connected));
    assert!(!parse_mobile_data_connected(""));
}

#[test]
fn mobile_block_disconnected_is_not_connected() {
    let dump = "NetworkAgentInfo [MOBILE (LTE) - 100] state: DISCONNECTED/DISCONNECTED, extra: internet\n";
    assert!(!parse_mobile_data_connected(dump));
    let dump = "NetworkAgentInfo [MOBILE (LTE) - 100] state: DISCONNECTED/CONNECTED, extra: internet\n";
    assert!(parse_mobile_data_connected(dump));
}

#[test]
fn mobile_block_closed_by_next_header_is_judged() {
    let dump = "NetworkAgentInfo [MOBILE - 100] state: CONNECTED, extra: internet\nNetworkAgentInfo [MOBILE - 101] state: CONNECTED, extra: ims\n";
    assert!(parse_mobile_data_connected(dump));
    let dump = "NetworkAgentInfo [MOBILE - 100] state: CONNECTED\n  extra: internet\nNetworkAgentInfo [WIFI - 3] extra: ims\n";
    assert!(parse_mobile_data_connected(dump));
    let dump = "NetworkAgentInfo [MOBILE - 100] state: CONNECTED\n  extra: default\n  extra: ims\n\n";
    assert!(!parse_mobile_data_connected(dump));
}

#[test]
fn mobile_block_examples_with_blank_lines() {
    assert!(parse_mobile_data_connected("NetworkAgentInfo [MOBILE (LTE) - 100] state: CONNECTED/CONNECTED, extra: internet\n\n"));
    assert!(parse_mobile_data_connected("NetworkAgentInfo [MOBILE (LTE) - 100] state: CONNECTED/CONNECTED, extra: default\n"));
    assert!(!parse_mobile_data_connected("NetworkAgentInfo [MOBILE (LTE) - 101] state: CONNECTED/CONNECTED, extra: ims\n\n"));
}

#[test]
fn data_marker_from_log() {
    let log = "I MultiSimSettingController: mobile_data setMobileDataEnabled: enabled=true\nD other: x\nI MultiSimSettingController: mobile_data changed enabled=false\n";
    assert_eq!(parse_data_marker(log), Some(false));
    let log = "I MultiSimSettingController: mobile_data enabled=true\nI MultiSimSettingController: no marker\n";
    assert_eq!(parse_data_marker(log), Some(true));
    assert_eq!(parse_data_marker("I Other: mobile_data enabled=true\n"), None);
    assert_eq!(parse_data_marker(""), None);
}

#[test]
fn settings_values() {
    assert!(is_definite_setting("1\n"));
    assert!(is_definite_setting(" 0 "));
    assert!(!is_definite_setting("null\n"));
    assert!(!is_definite_setting(""));
    assert!(parse_setting_on("1\n"));
    assert!(!parse_setting_on("0\n"));
    assert!(!parse_setting_on("10"));
}
