//! The actions offered over the network, without the transport: what each
//! request asks for, which command it runs, and what the response says.

use vstd::prelude::*;
use crate::command::{error_text, join, text, ExecutionError, ShellCommand};
use crate::parse::{
    battery_of, mobile_data_of, parse_battery, parse_call_forwarding, parse_mobile_data_connected,
    parse_setting_on, parse_signal, parse_uptime, setting_on, signal_of, uptime_of,
};
use crate::text::occurs;
use crate::phone::{is_valid_phone_number, valid_phone};

verus! {

/// Why a request's payload was refused before any command ran.
#[derive(Clone, Copy, Debug, PartialEq, Eq, Structural)]
pub enum ValidationError {
    /// Forwarding was to be enabled, but no number was given.
    MissingNumber,
    /// The number is no valid phone number.
    BadFormat,
}

/// Body of a data toggle request.
pub struct DataToggleRequest {
    pub enable: bool,
}

/// Answer to a data toggle request.
pub struct DataToggleResponse {
    pub success: bool,
    pub enabled: bool,
    pub message: String,
}

/// Body of a call forwarding request; the number is needed when enabling.
pub struct CallForwardRequest {
    pub enable: bool,
    pub number: Option<String>,
}

/// Answer to a call forwarding request.
pub struct CallForwardResponse {
    pub success: bool,
    pub enabled: bool,
    pub message: String,
}

/// Body of a dial request.
pub struct CallDialRequest {
    pub number: String,
}

/// Answer to a dial request.
pub struct CallDialResponse {
    pub success: bool,
    pub message: String,
}

/// A snapshot of the device. `call_forwarding` is a heuristic reading, not
/// an authoritative one.
pub struct StatusResponse {
    pub battery: i32,
    pub charging: bool,
    pub signal_dbm: i32,
    pub data: bool,
    pub airplane: bool,
    pub call_forwarding: bool,
    pub uptime: u64,
    pub raw_battery: Option<String>,
    pub data_detection_method: Option<String>,
}

/// "enabled" or "disabled".
pub open spec fn state_word(enable: bool) -> Seq<char> {
    if enable { "enabled"@ } else { "disabled"@ }
}

fn state_word_exec(enable: bool) -> (r: &'static str)
    ensures
        r@ == state_word(enable),
{
    if enable { "enabled" } else { "disabled" }
}

/// `a`, then `b`, then `c`.
fn join3(a: &str, b: &str, c: &str) -> (r: String)
    ensures
        r@ == a@ + b@ + c@,
{
    let ab = join(a, b);
    join(ab.as_str(), c)
}

/// The command that a data toggle request runs.
pub fn data_command(req: &DataToggleRequest) -> (r: ShellCommand)
    ensures
        r is EnableData <==> req.enable,
        r is DisableData <==> !req.enable,
{
    if req.enable { ShellCommand::EnableData } else { ShellCommand::DisableData }
}

/// The answer to a data toggle request, given what its command gave. On
/// failure the data state is taken to be unchanged.
pub fn data_toggle_response(enable: bool, result: &Result<String, ExecutionError>) -> (r:
    DataToggleResponse)
    ensures
        r.success == result is Ok,
        r.enabled == (if result is Ok { enable } else { !enable }),
        match result {
            Ok(_) => r.message@ == "Mobile data "@ + state_word(enable),
            Err(e) => r.message@ == "Failed to toggle data: "@ + error_text(*e),
        },
{
    match result {
        Ok(_) => DataToggleResponse {
            success: true,
            enabled: enable,
            message: join("Mobile data ", state_word_exec(enable)),
        },
        Err(e) => DataToggleResponse {
            success: false,
            enabled: !enable,
            message: join("Failed to toggle data: ", e.message().as_str()),
        },
    }
}

/// The command that a call forwarding request runs, or why it runs none:
/// enabling needs a number, and a valid one.
pub fn forward_command(req: &CallForwardRequest) -> (r: Result<ShellCommand, ValidationError>)
    ensures
        r matches Ok(c) ==> c.well_formed(),
        req.enable ==> match req.number {
            None => r == Err::<ShellCommand, ValidationError>(ValidationError::MissingNumber),
            Some(n) => if valid_phone(n@) {
                r matches Ok(ShellCommand::EnableCallForwarding(m)) && m@ == n@
            } else {
                r == Err::<ShellCommand, ValidationError>(ValidationError::BadFormat)
            },
        },
        !req.enable ==> r matches Ok(ShellCommand::DisableCallForwarding),
{
    if req.enable {
        match &req.number {
            None => Err(ValidationError::MissingNumber),
            Some(n) => if is_valid_phone_number(n.as_str()) {
                Ok(ShellCommand::EnableCallForwarding(text(n.as_str())))
            } else {
                Err(ValidationError::BadFormat)
            },
        }
    } else {
        Ok(ShellCommand::DisableCallForwarding)
    }
}

/// The text that reports a refused payload.
pub open spec fn validation_text(e: ValidationError) -> Seq<char> {
    match e {
        ValidationError::MissingNumber => "Number required when enabling call forwarding"@,
        ValidationError::BadFormat => "Invalid phone number format"@,
    }
}

/// The text that reports a refused payload.
pub fn validation_message(e: ValidationError) -> (r: String)
    ensures
        r@ == validation_text(e),
{
    match e {
        ValidationError::MissingNumber => text("Number required when enabling call forwarding"),
        ValidationError::BadFormat => text("Invalid phone number format"),
    }
}

/// The answer to a call forwarding request whose payload was refused.
pub fn forward_refusal(e: ValidationError) -> (r: CallForwardResponse)
    ensures
        !r.success,
        !r.enabled,
        r.message@ == validation_text(e),
{
    CallForwardResponse { success: false, enabled: false, message: validation_message(e) }
}

/// The answer to a call forwarding request, given what its command gave.
/// On failure forwarding is taken to be unchanged.
pub fn forward_response(enable: bool, result: &Result<String, ExecutionError>) -> (r:
    CallForwardResponse)
    ensures
        r.success == result is Ok,
        r.enabled == (if result is Ok { enable } else { !enable }),
        match result {
            Ok(_) => r.message@ == "Call forwarding "@ + state_word(enable),
            Err(e) => r.message@ == "Failed to set call forwarding: "@ + error_text(*e),
        },
{
    match result {
        Ok(_) => CallForwardResponse {
            success: true,
            enabled: enable,
            message: join("Call forwarding ", state_word_exec(enable)),
        },
        Err(e) => CallForwardResponse {
            success: false,
            enabled: !enable,
            message: join("Failed to set call forwarding: ", e.message().as_str()),
        },
    }
}

/// The command that a dial request runs, where its number is valid.
pub fn dial_command(req: &CallDialRequest) -> (r: Result<ShellCommand, ValidationError>)
    ensures
        r matches Ok(c) ==> c.well_formed(),
        valid_phone(req.number@) ==> (r matches Ok(ShellCommand::DialNumber(m)) && m@
            == req.number@),
        !valid_phone(req.number@) ==> r == Err::<ShellCommand, ValidationError>(
            ValidationError::BadFormat,
        ),
{
    if is_valid_phone_number(req.number.as_str()) {
        Ok(ShellCommand::DialNumber(text(req.number.as_str())))
    } else {
        Err(ValidationError::BadFormat)
    }
}

/// The answer to a dial request whose number was refused.
pub fn dial_refusal(e: ValidationError) -> (r: CallDialResponse)
    ensures
        !r.success,
        r.message@ == validation_text(e),
{
    CallDialResponse { success: false, message: validation_message(e) }
}

/// The answer to a dial request for `number`, given what its command gave.
pub fn dial_response(number: &str, result: &Result<String, ExecutionError>) -> (r:
    CallDialResponse)
    ensures
        r.success == result is Ok,
        match result {
            Ok(_) => r.message@ == "Dialing "@ + number@,
            Err(e) => r.message@ == "Failed to initiate call: "@ + error_text(*e),
        },
{
    match result {
        Ok(_) => CallDialResponse { success: true, message: join("Dialing ", number) },
        Err(e) => CallDialResponse {
            success: false,
            message: join("Failed to initiate call: ", e.message().as_str()),
        },
    }
}

/// A command's output, or nothing where it failed: the status stays best effort.
pub fn output_or_empty(result: Result<String, ExecutionError>) -> (r: String)
    ensures
        match result {
            Ok(s) => r@ == s@,
            Err(_) => r@ == Seq::<char>::empty(),
        },
{
    match result {
        Ok(s) => s,
        Err(_) => String::new(),
    }
}

/// The status snapshot from the outputs of the battery, signal, connectivity,
/// airplane-mode, uptime and forwarding commands.
pub fn status_from_outputs(
    battery_output: String,
    signal_output: &str,
    data_output: &str,
    airplane_output: &str,
    uptime_output: &str,
    forwarding_output: &str,
) -> (r: StatusResponse)
    ensures
        (r.battery, r.charging) == battery_of(battery_output@),
        r.signal_dbm == signal_of(signal_output@),
        r.data == mobile_data_of(data_output@),
        r.airplane == setting_on(airplane_output@),
        r.uptime == uptime_of(uptime_output@),
        r.call_forwarding == (occurs(forwarding_output@, "Result: Parcel"@)
            && forwarding_output.len() > crate::parse::FORWARDING_MIN_LEN),
        r.raw_battery matches Some(b) && b@ == battery_output@,
        r.data_detection_method matches Some(m) && m@ == "dumpsys_connectivity"@,
{
    let (battery, charging) = parse_battery(battery_output.as_str());
    StatusResponse {
        battery,
        charging,
        signal_dbm: parse_signal(signal_output),
        data: parse_mobile_data_connected(data_output),
        airplane: parse_setting_on(airplane_output),
        call_forwarding: parse_call_forwarding(forwarding_output),
        uptime: parse_uptime(uptime_output),
        raw_battery: Some(battery_output),
        data_detection_method: Some(text("dumpsys_connectivity")),
    }
}

} // verus!
