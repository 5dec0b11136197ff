use ohmyphone::api::{
    data_command, data_toggle_response, dial_command, dial_refusal, dial_response, forward_command,
    forward_refusal, forward_response, output_or_empty, status_from_outputs, CallDialRequest,
    CallForwardRequest, DataToggleRequest, ValidationError,
};
use ohmyphone::command::{
    after_log_read, after_setting_query, command_result, DataStateStep, ExecutionError,
    ProcessOutput, ShellCommand,
};

fn args(c: &ShellCommand) -> (String, Vec<String>) {
    let inv = c.invocation();
    (inv.program, inv.args)
}

#[test]
fn fixed_invocations() {
    assert_eq!(args(&ShellCommand::GetBattery), ("dumpsys".to_string(), vec!["battery".to_string()]));
    assert_eq!(args(&ShellCommand::GetDataState).1, vec!["get", "global", "mobile_data"]);
    assert_eq!(args(&ShellCommand::GetDataStateLogcat).1, vec!["-d", "-t", "100"]);
    assert_eq!(args(&ShellCommand::DisableAirplaneMode), ("cmd".to_string(), vec!["connectivity".to_string(), "airplane-mode".to_string(), "disable".to_string()]));
    assert_eq!(args(&ShellCommand::GetCallForwardingState).1, vec!["call", "phone", "13", "i32", "1", "i32", "0"]);
    assert_eq!(args(&ShellCommand::DisableCallForwarding).1, vec!["call", "phone", "14", "i32", "1", "s16", "#21#"]);
    assert_eq!(args(&ShellCommand::GetUptime), ("cat".to_string(), vec!["/proc/uptime".to_string()]));
}

#[test]
fn number_is_one_argument() {
    let (p, a) = args(&ShellCommand::EnableCallForwarding("+1234567890".to_string()));
    assert_eq!(p, "service");
    assert_eq!(a, vec!["call", "phone", "14", "i32", "1", "s16", "*21*+1234567890#"]);
    let (p, a) = args(&ShellCommand::DialNumber("7654321".to_string()));
    assert_eq!(p, "am");
    assert_eq!(a, vec!["start", "-a", "android.intent.action.CALL", "-d", "tel:7654321"]);
}

#[test]
fn well_formed_commands() {
    assert!(ShellCommand::GetBattery.is_well_formed());
    assert!(ShellCommand::DialNumber("7654321".to_string()).is_well_formed());
    assert!(!ShellCommand::DialNumber("7654321; reboot".to_string()).is_well_formed());
    assert!(!ShellCommand::EnableCallForwarding("123".to_string()).is_well_formed());
}

#[test]
fn process_outcomes() {
    let ok = command_result(Ok(ProcessOutput { success: true, stdout: "out".to_string(), stderr: "e".to_string() }));
    assert_eq!(ok.unwrap(), "out");
    match command_result(Ok(ProcessOutput { success: false, stdout: "out".to_string(), stderr: "bad".to_string() })) {
        Err(ExecutionError::NonZeroExit(e)) => assert_eq!(e, "bad"),
        _ => panic!("expected a non-zero exit"),
    }
    match command_result(Err("no such file".to_string())) {
        Err(e) => {
            assert!(matches!(e, ExecutionError::SpawnFailed(_)));
            assert_eq!(e.message(), "Execution error: no such file");
        }
        _ => panic!("expected a spawn failure"),
    }
    assert_eq!(ExecutionError::NonZeroExit("x".to_string()).message(), "Command failed: x");
}

#[test]
fn data_state_fallback() {
    match after_setting_query(Ok("1\n".to_string())) {
        DataStateStep::Done(Ok(s)) => assert_eq!(s, "1\n"),
        _ => panic!("a definite setting stands"),
    }
    assert!(matches!(after_setting_query(Ok("null\n".to_string())), DataStateStep::ReadLog));
    assert!(matches!(after_setting_query(Err(ExecutionError::NonZeroExit(String::new()))), DataStateStep::ReadLog));
    let log = "I MultiSimSettingController: mobile_data enabled=true\n".to_string();
    assert_eq!(after_log_read(Ok(log)).unwrap(), "1");
    assert_eq!(after_log_read(Ok("nothing".to_string())).unwrap(), "unknown");
    assert!(after_log_read(Err(ExecutionError::SpawnFailed("x".to_string()))).is_err());
}

#[test]
fn forward_requests() {
    let missing = forward_command(&CallForwardRequest { enable: true, number: None });
    assert!(matches!(missing, Err(ValidationError::MissingNumber)));
    let bad = forward_command(&CallForwardRequest { enable: true, number: Some("12-34".to_string()) });
    assert!(matches!(bad, Err(ValidationError::BadFormat)));
    match forward_command(&CallForwardRequest { enable: true, number: Some("+1234567890".to_string()) }) {
        Ok(ShellCommand::EnableCallForwarding(n)) => assert_eq!(n, "+1234567890"),
        _ => panic!("expected forwarding to be enabled"),
    }
    let off = forward_command(&CallForwardRequest { enable: false, number: Some("x".to_string()) });
    assert!(matches!(off, Ok(ShellCommand::DisableCallForwarding)));
    let r = forward_refusal(ValidationError::MissingNumber);
    assert!(!r.success && !r.enabled);
    assert_eq!(r.message, "Number required when enabling call forwarding");
}

#[test]
fn forward_and_toggle_responses() {
    let r = forward_response(true, &Ok(String::new()));
    assert!(r.success && r.enabled);
    assert_eq!(r.message, "Call forwarding enabled");
    let r = forward_response(true, &Err(ExecutionError::NonZeroExit("denied".to_string())));
    assert!(!r.success && !r.enabled);
    assert_eq!(r.message, "Failed to set call forwarding: Command failed: denied");
    let r = data_toggle_response(false, &Ok(String::new()));
    assert!(r.success && !r.enabled);
    assert_eq!(r.message, "Mobile data disabled");
    let r = data_toggle_response(true, &Err(ExecutionError::SpawnFailed("gone".to_string())));
    assert!(!r.success && !r.enabled);
    assert_eq!(r.message, "Failed to toggle data: Execution error: gone");
    assert!(matches!(data_command(&DataToggleRequest { enable: true }), ShellCommand::EnableData));
    assert!(matches!(data_command(&DataToggleRequest { enable: false }), ShellCommand::DisableData));
}

#[test]
fn dial_requests() {
    assert!(matches!(dial_command(&CallDialRequest { number: "123".to_string() }), Err(ValidationError::BadFormat)));
    match dial_command(&CallDialRequest { number: "7654321".to_string() }) {
        Ok(ShellCommand::DialNumber(n)) => assert_eq!(n, "7654321"),
        _ => panic!("expected a dial command"),
    }
    assert_eq!(dial_response("7654321", &Ok(String::new())).message, "Dialing 7654321");
    let r = dial_response("7654321", &Err(ExecutionError::NonZeroExit("busy".to_string())));
    assert!(!r.success);
    assert_eq!(r.message, "Failed to initiate call: Command failed: busy");
    assert_eq!(dial_refusal(ValidationError::BadFormat).message, "Invalid phone number format");
}

#[test]
fn status_snapshot() {
    let s = status_from_outputs(
        "  level: 82\n  status: 2\n".to_string(),
        "SignalStrength: rssi=-77 x\n",
        "NetworkAgentInfo [MOBILE] CONNECTED extra: internet\n",
        "0\n",
        "12345.67 98765.43",
        "",
    );
    assert_eq!((s.battery, s.charging, s.signal_dbm), (82, true, -77));
    assert!(s.data && !s.airplane && !s.call_forwarding);
    assert_eq!(s.uptime, 12345);
    assert_eq!(s.raw_battery.as_deref(), Some("  level: 82\n  status: 2\n"));
    assert_eq!(s.data_detection_method.as_deref(), Some("dumpsys_connectivity"));
    assert_eq!(output_or_empty(Err(ExecutionError::SpawnFailed("x".to_string()))), "");
    assert_eq!(output_or_empty(Ok("y".to_string())), "y");
}
