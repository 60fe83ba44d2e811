//! The secondary bearer: the commands that `qmicli` runs on it, how they end, and how the bearer
//! is started.
use vstd::prelude::*;
use crate::command;
use crate::command::error_output_text;
use crate::error::{BearerCommand, ImsError};
use crate::externals;
use crate::externals::utf8_text_lossy;
use crate::secondary_qmi;
use crate::text;
use crate::text::{chars_of, trimmed};
use crate::volte;
use crate::volte::{
    parse_qmi_bearer_settings, parse_qmi_connection_status, parse_qmi_packet_handle,
    QmiBearerSettings,
};

verus! {

/// How long `qmicli` may take to start or to stop the bearer, in seconds.
pub const CHANGE_TIMEOUT_SECONDS: u64 = 30;

/// How long `qmicli` may take to report on the bearer, in seconds.
pub const REPORT_TIMEOUT_SECONDS: u64 = 15;

/// The pause between two attempts to read the settings of the bearer, in seconds.
pub const SETTINGS_PAUSE_SECONDS: u64 = 2;

/// How often the settings of the bearer are read before it is given up.
pub const SETTINGS_ATTEMPTS: u32 = 5;

// ---------------------------------------------------------------------------------------------
// The arguments of `qmicli`
// ---------------------------------------------------------------------------------------------
/// The text is empty but for white space.
pub open spec fn is_blank(s: Seq<char>) -> bool {
    text::trim(s).len() == 0
}

/// `s` is empty but for white space.
pub fn blank(s: &str) -> (r: bool)
    ensures
        r == is_blank(s@),
{
    let chars = chars_of(s);
    trimmed(&chars).len() == 0
}

/// The arguments that start an IPv6 bearer for the access point. The client stays allocated.
pub open spec fn start_arguments(device: Seq<char>, apn: Seq<char>) -> Seq<Seq<char>> {
    seq![
        "-d"@,
        device,
        "--device-open-qmi"@,
        secondary_qmi::open_options(),
        "--client-no-release-cid"@,
        "--wds-start-network=apn="@ + apn + ",3gpp-profile=1,ip-type=6"@,
    ]
}

/// The arguments that report the settings of the bearer.
pub open spec fn settings_arguments(device: Seq<char>) -> Seq<Seq<char>> {
    seq![
        "-d"@,
        device,
        "--device-open-qmi"@,
        secondary_qmi::open_options(),
        "--wds-get-current-settings"@,
    ]
}

/// The arguments that report whether the bearer is connected.
pub open spec fn status_arguments(device: Seq<char>) -> Seq<Seq<char>> {
    seq!["-d"@, device, "--device-open-qmi"@, "--wds-get-packet-service-status"@]
}

/// The arguments that stop the bearer with the given handle.
pub open spec fn stop_arguments(device: Seq<char>, handle: Seq<char>) -> Seq<Seq<char>> {
    seq![
        "-d"@,
        device,
        "--device-open-qmi"@,
        secondary_qmi::open_options(),
        "--wds-stop-network="@ + handle,
    ]
}

/// The arguments that start the bearer.
pub fn start_command(device: &str, apn: &str) -> (r: Result<Vec<String>, ImsError>)
    ensures
        match r {
            Ok(v) => !is_blank(device@) && !is_blank(apn@) && text::texts(v@) == start_arguments(
                device@,
                apn@,
            ),
            Err(e) => (is_blank(device@) || is_blank(apn@)) && e == ImsError::MissingDeviceOrApn,
        },
{
    if blank(device) || blank(apn) {
        return Err(ImsError::MissingDeviceOrApn);
    }
    let mut start = "--wds-start-network=apn=".to_owned();
    start.append(apn);
    start.append(",3gpp-profile=1,ip-type=6");
    let mut v: Vec<String> = Vec::new();
    v.push("-d".to_owned());
    v.push(device.to_owned());
    v.push("--device-open-qmi".to_owned());
    v.push("--device-open-net=net-raw-ip|net-no-qos-header".to_owned());
    v.push("--client-no-release-cid".to_owned());
    v.push(start);
    assert(text::texts(v@) =~= start_arguments(device@, apn@));
    Ok(v)
}

/// The arguments that report the settings of the bearer.
pub fn settings_command(device: &str) -> (v: Vec<String>)
    ensures
        text::texts(v@) == settings_arguments(device@),
{
    let mut v: Vec<String> = Vec::new();
    v.push("-d".to_owned());
    v.push(device.to_owned());
    v.push("--device-open-qmi".to_owned());
    v.push("--device-open-net=net-raw-ip|net-no-qos-header".to_owned());
    v.push("--wds-get-current-settings".to_owned());
    assert(text::texts(v@) =~= settings_arguments(device@));
    v
}

/// The arguments that report whether the bearer is connected.
pub fn status_command(device: &str) -> (v: Vec<String>)
    ensures
        text::texts(v@) == status_arguments(device@),
{
    let mut v: Vec<String> = Vec::new();
    v.push("-d".to_owned());
    v.push(device.to_owned());
    v.push("--device-open-qmi".to_owned());
    v.push("--wds-get-packet-service-status".to_owned());
    assert(text::texts(v@) =~= status_arguments(device@));
    v
}

/// The arguments that stop the bearer.
pub fn stop_command(device: &str, handle: &str) -> (r: Result<Vec<String>, ImsError>)
    ensures
        match r {
            Ok(v) => !is_blank(device@) && !is_blank(handle@) && text::texts(v@) == stop_arguments(
                device@,
                handle@,
            ),
            Err(e) => (is_blank(device@) || is_blank(handle@)) && e
                == ImsError::MissingDeviceOrHandle,
        },
{
    if blank(device) || blank(handle) {
        return Err(ImsError::MissingDeviceOrHandle);
    }
    let mut stop = "--wds-stop-network=".to_owned();
    stop.append(handle);
    let mut v: Vec<String> = Vec::new();
    v.push("-d".to_owned());
    v.push(device.to_owned());
    v.push("--device-open-qmi".to_owned());
    v.push("--device-open-net=net-raw-ip|net-no-qos-header".to_owned());
    v.push(stop);
    assert(text::texts(v@) =~= stop_arguments(device@, handle@));
    Ok(v)
}

// ---------------------------------------------------------------------------------------------
// How the commands end
// ---------------------------------------------------------------------------------------------
/// How a command ended.
#[derive(Debug, PartialEq, Eq)]
pub enum CommandEnd {
    /// It did not end in time.
    TimedOut,
    /// It could not be run, for the given reason.
    NotRun(String),
    /// It ended, with success or not, and wrote this to its output and to its error output.
    Ended { success: bool, stdout: Vec<u8>, stderr: Vec<u8> },
}

impl CommandEnd {
    /// The command did what it was to do.
    pub open spec fn succeeded(self) -> bool {
        self is Ended && self->success
    }

    /// What the command wrote, as text.
    pub open spec fn output(self) -> Seq<char> {
        externals::utf8_lossy(self->stdout@)
    }

    /// The error tells why the command did not do what it was to do.
    pub open spec fn explains(self, command: BearerCommand, e: ImsError) -> bool {
        match self {
            CommandEnd::TimedOut => e == ImsError::BearerCommandTimedOut(command),
            CommandEnd::NotRun(reason) => e == ImsError::System(reason),
            CommandEnd::Ended { success, stderr, .. } => !success && e is BearerCommandFailed
                && e->BearerCommandFailed_0 == command && e->BearerCommandFailed_1@
                == command::error_output(stderr@),
        }
    }
}

/// What a command wrote, if it did what it was to do.
pub fn command_output(command: BearerCommand, end: CommandEnd) -> (r: Result<String, ImsError>)
    ensures
        match r {
            Ok(output) => end.succeeded() && output@ == end.output(),
            Err(e) => !end.succeeded() && end.explains(command, e),
        },
{
    match end {
        CommandEnd::TimedOut => Err(ImsError::BearerCommandTimedOut(command)),
        CommandEnd::NotRun(reason) => Err(ImsError::System(reason)),
        CommandEnd::Ended { success, stdout, stderr } => if success {
            Ok(utf8_text_lossy(&stdout))
        } else {
            Err(ImsError::BearerCommandFailed(command, error_output_text(&stderr)))
        },
    }
}

/// The handle of the bearer that was started.
pub fn start_outcome(end: CommandEnd) -> (r: Result<String, ImsError>)
    ensures
        match r {
            Ok(handle) => end.succeeded() && volte::packet_handle(end.output()) == Some(handle@),
            Err(e) => if end.succeeded() {
                volte::packet_handle(end.output()) is None && e == ImsError::NoPacketHandle
            } else {
                end.explains(BearerCommand::Start, e)
            },
        },
{
    match command_output(BearerCommand::Start, end) {
        Ok(output) => match parse_qmi_packet_handle(&output) {
            Some(handle) => Ok(handle),
            None => Err(ImsError::NoPacketHandle),
        },
        Err(e) => Err(e),
    }
}

/// The settings that were read.
pub fn settings_outcome(end: CommandEnd) -> (r: Result<QmiBearerSettings, ImsError>)
    ensures
        match r {
            Ok(settings) => end.succeeded() && volte::bearer_settings(end.output()) == Some(
                settings@,
            ),
            Err(e) => if end.succeeded() {
                volte::bearer_settings(end.output()) is None && e == ImsError::NoIpv6Settings
            } else {
                end.explains(BearerCommand::ReadSettings, e)
            },
        },
{
    match command_output(BearerCommand::ReadSettings, end) {
        Ok(output) => match parse_qmi_bearer_settings(&output) {
            Some(settings) => Ok(settings),
            None => Err(ImsError::NoIpv6Settings),
        },
        Err(e) => Err(e),
    }
}

/// Whether the bearer is connected, as it was reported.
pub fn status_outcome(end: CommandEnd) -> (r: Result<bool, ImsError>)
    ensures
        match r {
            Ok(connected) => end.succeeded() && volte::connection_status(end.output()) == Some(
                connected,
            ),
            Err(e) => if end.succeeded() {
                volte::connection_status(end.output()) is None && e
                    == ImsError::UnknownBearerStatus
            } else {
                end.explains(BearerCommand::ReadStatus, e)
            },
        },
{
    match command_output(BearerCommand::ReadStatus, end) {
        Ok(output) => match parse_qmi_connection_status(&output) {
            Some(connected) => Ok(connected),
            None => Err(ImsError::UnknownBearerStatus),
        },
        Err(e) => Err(e),
    }
}

/// How the stopping of the bearer ended.
pub fn stop_outcome(end: CommandEnd) -> (r: Result<(), ImsError>)
    ensures
        match r {
            Ok(_) => end.succeeded(),
            Err(e) => !end.succeeded() && end.explains(BearerCommand::Stop, e),
        },
{
    match command_output(BearerCommand::Stop, end) {
        Ok(_) => Ok(()),
        Err(e) => Err(e),
    }
}

// ---------------------------------------------------------------------------------------------
// The start of the bearer
// ---------------------------------------------------------------------------------------------
/// What is done next to start the bearer.
#[derive(Debug, PartialEq, Eq)]
pub enum StartTask {
    /// Start the bearer.
    Start,
    /// Read the settings of the bearer with the given handle, for the given time, counted from
    /// zero.
    ReadSettings(String, u32),
    /// Start the bearer again: the first attempt to read its settings failed with this error.
    Restart(String, ImsError),
    /// Wait: the given attempt failed with this error.
    Pause(String, u32, ImsError),
    /// Stop the bearer: its settings cannot be had.
    Stop(String, ImsError),
    /// The bearer is there, with its handle and its settings.
    Ready(String, QmiBearerSettings),
    /// There is no bearer.
    Failed(ImsError),
}

/// What came of a task.
#[derive(Debug, PartialEq, Eq)]
pub enum StartEvent {
    /// The bearer was started.
    Started(Result<String, ImsError>),
    /// Its settings were read.
    Settings(Result<QmiBearerSettings, ImsError>),
    /// The task is over, however it ended.
    Over,
}

/// The first task.
pub open spec fn first_start_task(device: Seq<char>, apn: Seq<char>) -> StartTask {
    if is_blank(device) || is_blank(apn) {
        StartTask::Failed(ImsError::MissingDeviceOrApn)
    } else {
        StartTask::Start
    }
}

/// The task that follows. An event that does not belong to the task leaves it to be done.
pub open spec fn following_start_task(task: StartTask, event: StartEvent) -> StartTask {
    match (task, event) {
        (StartTask::Start, StartEvent::Started(Ok(handle))) => StartTask::ReadSettings(handle, 0),
        (StartTask::Start, StartEvent::Started(Err(e))) => StartTask::Failed(e),
        (
            StartTask::ReadSettings(handle, _),
            StartEvent::Settings(Ok(settings)),
        ) => StartTask::Ready(handle, settings),
        (StartTask::ReadSettings(handle, attempt), StartEvent::Settings(Err(e))) => if attempt
            == 0 {
            StartTask::Restart(handle, e)
        } else {
            StartTask::Pause(handle, attempt, e)
        },
        (StartTask::Restart(handle, e), StartEvent::Over) => StartTask::Pause(handle, 0, e),
        (StartTask::Pause(handle, attempt, e), StartEvent::Over) => if attempt + 1
            < SETTINGS_ATTEMPTS {
            StartTask::ReadSettings(handle, (attempt + 1) as u32)
        } else {
            StartTask::Stop(handle, e)
        },
        (StartTask::Stop(_, e), StartEvent::Over) => StartTask::Failed(e),
        (_, _) => task,
    }
}

/// The first task.
pub fn begin_start(device: &str, apn: &str) -> (task: StartTask)
    ensures
        task == first_start_task(device@, apn@),
{
    if blank(device) || blank(apn) {
        StartTask::Failed(ImsError::MissingDeviceOrApn)
    } else {
        StartTask::Start
    }
}

/// The task that follows.
pub fn next_start_task(task: StartTask, event: StartEvent) -> (r: StartTask)
    ensures
        r == following_start_task(task, event),
{
    match (task, event) {
        (StartTask::Start, StartEvent::Started(Ok(handle))) => StartTask::ReadSettings(handle, 0),
        (StartTask::Start, StartEvent::Started(Err(e))) => StartTask::Failed(e),
        (
            StartTask::ReadSettings(handle, _),
            StartEvent::Settings(Ok(settings)),
        ) => StartTask::Ready(handle, settings),
        (StartTask::ReadSettings(handle, attempt), StartEvent::Settings(Err(e))) => if attempt
            == 0 {
            StartTask::Restart(handle, e)
        } else {
            StartTask::Pause(handle, attempt, e)
        },
        (StartTask::Restart(handle, e), StartEvent::Over) => StartTask::Pause(handle, 0, e),
        (StartTask::Pause(handle, attempt, e), StartEvent::Over) => if attempt
            < SETTINGS_ATTEMPTS - 1 {
            StartTask::ReadSettings(handle, attempt + 1)
        } else {
            StartTask::Stop(handle, e)
        },
        (StartTask::Stop(_, e), StartEvent::Over) => StartTask::Failed(e),
        (task, _) => task,
    }
}

/// The task that has been come to after the given events.
pub open spec fn start_task_after(
    device: Seq<char>,
    apn: Seq<char>,
    events: Seq<StartEvent>,
) -> StartTask
    decreases events.len(),
{
    if events.len() == 0 {
        first_start_task(device, apn)
    } else {
        following_start_task(start_task_after(device, apn, events.drop_last()), events.last())
    }
}

/// The handle of the bearer that a task holds, if it holds one.
pub open spec fn handle_held(task: StartTask) -> Option<String> {
    match task {
        StartTask::ReadSettings(handle, _) => Some(handle),
        StartTask::Restart(handle, _) => Some(handle),
        StartTask::Pause(handle, _, _) => Some(handle),
        StartTask::Stop(handle, _) => Some(handle),
        StartTask::Ready(handle, _) => Some(handle),
        _ => None,
    }
}

/// No bearer is left behind: once a bearer with a handle has been started, the handle is held
/// until the bearer is ready, or until the bearer with just this handle has been stopped.
pub proof fn law_no_bearer_left(task: StartTask, event: StartEvent)
    requires
        handle_held(task) is Some,
    ensures
        handle_held(following_start_task(task, event)) == handle_held(task) || (
        following_start_task(task, event) is Failed && task == StartTask::Stop(
            handle_held(task)->0,
            following_start_task(task, event)->Failed_0,
        )),
{
}

/// How many more times the settings are read or waited for, from a task on.
pub open spec fn start_measure(task: StartTask) -> int {
    match task {
        StartTask::Start => 30,
        StartTask::ReadSettings(_, attempt) => 4 * (SETTINGS_ATTEMPTS - attempt) + 3,
        StartTask::Restart(_, _) => 4 * SETTINGS_ATTEMPTS + 2,
        StartTask::Pause(_, attempt, _) => 4 * (SETTINGS_ATTEMPTS - attempt) + 1,
        StartTask::Stop(_, _) => 1,
        StartTask::Ready(_, _) => 0,
        StartTask::Failed(_) => 0,
    }
}

/// The settings are read at most as often as allowed.
pub proof fn law_attempts_bounded(device: Seq<char>, apn: Seq<char>, events: Seq<StartEvent>)
    ensures
        match start_task_after(device, apn, events) {
            StartTask::ReadSettings(_, attempt) => attempt < SETTINGS_ATTEMPTS,
            StartTask::Pause(_, attempt, _) => attempt < SETTINGS_ATTEMPTS,
            _ => true,
        },
    decreases events.len(),
{
    if events.len() > 0 {
        law_attempts_bounded(device, apn, events.drop_last());
    }
}

/// The start comes to an end: each event that belongs to the task brings the end nearer.
pub proof fn law_start_ends(
    device: Seq<char>,
    apn: Seq<char>,
    events: Seq<StartEvent>,
    event: StartEvent,
)
    ensures
        ({
            let task = start_task_after(device, apn, events);
            let next = following_start_task(task, event);
            next == task || 0 <= start_measure(next) < start_measure(task)
        }),
        0 <= start_measure(start_task_after(device, apn, events)) <= 30,
{
    law_attempts_bounded(device, apn, events);
}

/// A bearer that is ready was started, and its settings are the ones that were read last.
pub proof fn law_ready_bearer(
    task: StartTask,
    event: StartEvent,
    handle: String,
    settings: QmiBearerSettings,
)
    requires
        following_start_task(task, event) == StartTask::Ready(handle, settings),
        !(task is Ready),
    ensures
        task is ReadSettings,
        task->ReadSettings_0 == handle,
        event == StartEvent::Settings(Ok(settings)),
{
}

} // verus!
