//! The whitelisted device commands: each maps to one program and a fixed
//! argument vector, a phone number being passed as one discrete argument.

use vstd::prelude::*;
use vstd::string::StringExecFns;
use crate::parse::{data_marker_of, definite_setting, is_definite_setting, parse_data_marker};
use crate::phone::{is_valid_phone_number, valid_phone};

verus! {

/// The commands that the daemon may run; nothing else can be run.
#[derive(Debug)]
pub enum ShellCommand {
    GetBattery,
    GetSignal,
    GetDataState,
    GetDataStateLogcat,
    GetAirplaneMode,
    GetUptime,
    GetMobileDataConnection,
    EnableData,
    DisableData,
    EnableAirplaneMode,
    DisableAirplaneMode,
    EnableCallForwarding(String),
    DisableCallForwarding,
    GetCallForwardingState,
    DialNumber(String),
}

/// A program and its arguments, ready to be run without a shell.
pub struct Invocation {
    pub program: String,
    pub args: Vec<String>,
}

/// The views of a sequence of strings.
pub open spec fn texts(v: Seq<String>) -> Seq<Seq<char>> {
    v.map_values(|s: String| s@)
}

/// The supplementary-service code that sets unconditional forwarding to `number`.
pub open spec fn forwarding_code(number: Seq<char>) -> Seq<char> {
    "*21*"@ + number + "#"@
}

/// The `tel:` target that dials `number`.
pub open spec fn dial_target(number: Seq<char>) -> Seq<char> {
    "tel:"@ + number
}

/// The program that runs a command.
pub open spec fn program_of(c: ShellCommand) -> Seq<char> {
    match c {
        ShellCommand::GetBattery | ShellCommand::GetSignal
        | ShellCommand::GetMobileDataConnection => "dumpsys"@,
        ShellCommand::GetDataState | ShellCommand::GetAirplaneMode => "settings"@,
        ShellCommand::GetDataStateLogcat => "logcat"@,
        ShellCommand::GetUptime => "cat"@,
        ShellCommand::EnableData | ShellCommand::DisableData => "svc"@,
        ShellCommand::EnableAirplaneMode | ShellCommand::DisableAirplaneMode => "cmd"@,
        ShellCommand::EnableCallForwarding(_) | ShellCommand::DisableCallForwarding
        | ShellCommand::GetCallForwardingState => "service"@,
        ShellCommand::DialNumber(_) => "am"@,
    }
}

/// The arguments that a command is run with.
pub open spec fn args_of(c: ShellCommand) -> Seq<Seq<char>> {
    match c {
        ShellCommand::GetBattery => seq!["battery"@],
        ShellCommand::GetSignal => seq!["telephony.registry"@],
        ShellCommand::GetDataState => seq!["get"@, "global"@, "mobile_data"@],
        ShellCommand::GetDataStateLogcat => seq!["-d"@, "-t"@, "100"@],
        ShellCommand::GetAirplaneMode => seq!["get"@, "global"@, "airplane_mode_on"@],
        ShellCommand::GetUptime => seq!["/proc/uptime"@],
        ShellCommand::GetMobileDataConnection => seq!["connectivity"@],
        ShellCommand::EnableData => seq!["data"@, "enable"@],
        ShellCommand::DisableData => seq!["data"@, "disable"@],
        ShellCommand::EnableAirplaneMode => seq!["connectivity"@, "airplane-mode"@, "enable"@],
        ShellCommand::DisableAirplaneMode => seq!["connectivity"@, "airplane-mode"@, "disable"@],
        ShellCommand::EnableCallForwarding(n) => seq![
            "call"@,
            "phone"@,
            "14"@,
            "i32"@,
            "1"@,
            "s16"@,
            forwarding_code(n@),
        ],
        ShellCommand::DisableCallForwarding => seq![
            "call"@,
            "phone"@,
            "14"@,
            "i32"@,
            "1"@,
            "s16"@,
            "#21#"@,
        ],
        ShellCommand::GetCallForwardingState => seq![
            "call"@,
            "phone"@,
            "13"@,
            "i32"@,
            "1"@,
            "i32"@,
            "0"@,
        ],
        ShellCommand::DialNumber(n) => seq![
            "start"@,
            "-a"@,
            "android.intent.action.CALL"@,
            "-d"@,
            dial_target(n@),
        ],
    }
}

impl ShellCommand {
    /// A command whose phone number, if it carries one, is valid.
    pub open spec fn well_formed(&self) -> bool {
        match self {
            ShellCommand::EnableCallForwarding(n) => valid_phone(n@),
            ShellCommand::DialNumber(n) => valid_phone(n@),
            _ => true,
        }
    }

    /// Whether this command's phone number, if it carries one, is valid.
    pub fn is_well_formed(&self) -> (r: bool)
        ensures
            r == self.well_formed(),
    {
        match self {
            ShellCommand::EnableCallForwarding(n) => is_valid_phone_number(n.as_str()),
            ShellCommand::DialNumber(n) => is_valid_phone_number(n.as_str()),
            _ => true,
        }
    }

    /// The program and arguments that run this command.
    pub fn invocation(&self) -> (r: Invocation)
        requires
            self.well_formed(),
        ensures
            r.program@ == program_of(*self),
            texts(r.args@) == args_of(*self),
    {
        let mut args: Vec<String> = Vec::new();
        let program = match self {
            ShellCommand::GetBattery => {
                push_arg(&mut args, "battery");
                text("dumpsys")
            },
            ShellCommand::GetSignal => {
                push_arg(&mut args, "telephony.registry");
                text("dumpsys")
            },
            ShellCommand::GetDataState => {
                push_arg(&mut args, "get");
                push_arg(&mut args, "global");
                push_arg(&mut args, "mobile_data");
                text("settings")
            },
            ShellCommand::GetDataStateLogcat => {
                push_arg(&mut args, "-d");
                push_arg(&mut args, "-t");
                push_arg(&mut args, "100");
                text("logcat")
            },
            ShellCommand::GetAirplaneMode => {
                push_arg(&mut args, "get");
                push_arg(&mut args, "global");
                push_arg(&mut args, "airplane_mode_on");
                text("settings")
            },
            ShellCommand::GetUptime => {
                push_arg(&mut args, "/proc/uptime");
                text("cat")
            },
            ShellCommand::GetMobileDataConnection => {
                push_arg(&mut args, "connectivity");
                text("dumpsys")
            },
            ShellCommand::EnableData => {
                push_arg(&mut args, "data");
                push_arg(&mut args, "enable");
                text("svc")
            },
            ShellCommand::DisableData => {
                push_arg(&mut args, "data");
                push_arg(&mut args, "disable");
                text("svc")
            },
            ShellCommand::EnableAirplaneMode => {
                push_arg(&mut args, "connectivity");
                push_arg(&mut args, "airplane-mode");
                push_arg(&mut args, "enable");
                text("cmd")
            },
            ShellCommand::DisableAirplaneMode => {
                push_arg(&mut args, "connectivity");
                push_arg(&mut args, "airplane-mode");
                push_arg(&mut args, "disable");
                text("cmd")
            },
            ShellCommand::EnableCallForwarding(number) => {
                push_service_prefix(&mut args, "14", "1", "s16");
                let mut code = text("*21*");
                code.append(number.as_str());
                code.append("#");
                push_owned(&mut args, code);
                text("service")
            },
            ShellCommand::DisableCallForwarding => {
                push_service_prefix(&mut args, "14", "1", "s16");
                push_arg(&mut args, "#21#");
                text("service")
            },
            ShellCommand::GetCallForwardingState => {
                push_service_prefix(&mut args, "13", "1", "i32");
                push_arg(&mut args, "0");
                text("service")
            },
            ShellCommand::DialNumber(number) => {
                push_arg(&mut args, "start");
                push_arg(&mut args, "-a");
                push_arg(&mut args, "android.intent.action.CALL");
                push_arg(&mut args, "-d");
                let mut target = text("tel:");
                target.append(number.as_str());
                push_owned(&mut args, target);
                text("am")
            },
        };
        proof {
            assert(texts(args@) =~= args_of(*self));
        }
        Invocation { program, args }
    }
}

/// An owned copy of `s`.
pub fn text(s: &str) -> (r: String)
    ensures
        r@ == s@,
{
    String::from_str(s)
}

/// `a` followed by `b`.
pub fn join(a: &str, b: &str) -> (r: String)
    ensures
        r@ == a@ + b@,
{
    let mut r = text(a);
    r.append(b);
    r
}

fn push_owned(v: &mut Vec<String>, s: String)
    ensures
        texts(final(v)@) == texts(old(v)@).push(s@),
{
    let ghost s_view = s@;
    v.push(s);
    assert(texts(v@) =~= texts(old(v)@).push(s_view));
}

fn push_arg(v: &mut Vec<String>, s: &str)
    ensures
        texts(final(v)@) == texts(old(v)@).push(s@),
{
    push_owned(v, text(s));
}

/// The arguments that every phone-service call begins with.
fn push_service_prefix(v: &mut Vec<String>, code: &str, slot: &str, kind: &str)
    ensures
        texts(final(v)@) == texts(old(v)@).push("call"@).push("phone"@).push(code@).push(
            "i32"@,
        ).push(slot@).push(kind@),
{
    push_arg(v, "call");
    push_arg(v, "phone");
    push_arg(v, code);
    push_arg(v, "i32");
    push_arg(v, slot);
    push_arg(v, kind);
}

/// Why a command did not deliver its output.
#[derive(Debug)]
pub enum ExecutionError {
    /// The process could not be started; the reason given.
    SpawnFailed(String),
    /// The process exited with a non-zero status; what it wrote to standard error.
    NonZeroExit(String),
}

/// The text that reports an execution error.
pub open spec fn error_text(e: ExecutionError) -> Seq<char> {
    match e {
        ExecutionError::SpawnFailed(reason) => "Execution error: "@ + reason@,
        ExecutionError::NonZeroExit(stderr) => "Command failed: "@ + stderr@,
    }
}

impl ExecutionError {
    /// The text that reports this error.
    pub fn message(&self) -> (r: String)
        ensures
            r@ == error_text(*self),
    {
        match self {
            ExecutionError::SpawnFailed(reason) => join("Execution error: ", reason.as_str()),
            ExecutionError::NonZeroExit(stderr) => join("Command failed: ", stderr.as_str()),
        }
    }
}

/// What a finished process left: whether it exited with status zero, and
/// its standard output and standard error as text.
pub struct ProcessOutput {
    pub success: bool,
    pub stdout: String,
    pub stderr: String,
}

/// The result of running a command, from the process's outcome (`Err` with
/// the reason where it could not be started): the standard output on exit
/// status zero, else the error, with standard error on a non-zero exit.
pub fn command_result(outcome: Result<ProcessOutput, String>) -> (r: Result<String, ExecutionError>)
    ensures
        match outcome {
            Ok(out) => if out.success {
                r matches Ok(s) && s@ == out.stdout@
            } else {
                r matches Err(ExecutionError::NonZeroExit(e)) && e@ == out.stderr@
            },
            Err(reason) => r matches Err(ExecutionError::SpawnFailed(e)) && e@ == reason@,
        },
{
    match outcome {
        Ok(out) => if out.success {
            Ok(out.stdout)
        } else {
            Err(ExecutionError::NonZeroExit(out.stderr))
        },
        Err(reason) => Err(ExecutionError::SpawnFailed(reason)),
    }
}

/// The next move in reading the mobile-data state.
pub enum DataStateStep {
    /// The answer is known.
    Done(Result<String, ExecutionError>),
    /// The setting gave no definite answer: read the system log.
    ReadLog,
}

/// After the data setting was queried: its output stands where the command
/// succeeded with exactly `0` or `1` (white space aside); otherwise the log
/// is to be read.
pub fn after_setting_query(result: Result<String, ExecutionError>) -> (r: DataStateStep)
    ensures
        match result {
            Ok(s) => if definite_setting(s@) {
                r matches DataStateStep::Done(Ok(t)) && t@ == s@
            } else {
                r is ReadLog
            },
            Err(_) => r is ReadLog,
        },
{
    match result {
        Ok(s) => if is_definite_setting(s.as_str()) {
            DataStateStep::Done(Ok(s))
        } else {
            DataStateStep::ReadLog
        },
        Err(_) => DataStateStep::ReadLog,
    }
}

/// The text that reports a mobile-data state read from the log.
pub open spec fn marker_text(m: Option<bool>) -> Seq<char> {
    match m {
        Some(true) => "1"@,
        Some(false) => "0"@,
        None => "unknown"@,
    }
}

/// After the log was read: `1` or `0` as its most recent data-setting line
/// says, `unknown` where no line says; a failed read stays an error.
pub fn after_log_read(result: Result<String, ExecutionError>) -> (r: Result<String, ExecutionError>)
    ensures
        match result {
            Ok(log) => r matches Ok(t) && t@ == marker_text(data_marker_of(log@)),
            Err(e) => r == Err::<String, ExecutionError>(e),
        },
{
    match result {
        Ok(log) => match parse_data_marker(log.as_str()) {
            Some(true) => Ok(text("1")),
            Some(false) => Ok(text("0")),
            None => Ok(text("unknown")),
        },
        Err(e) => Err(e),
    }
}

} // verus!
