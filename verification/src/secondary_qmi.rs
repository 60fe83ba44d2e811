//! DATA6 secondary QMI endpoint initialization.
//!
//! The endpoint is prepared before ModemManager starts. The initializer only owns the RPMSG
//! binding and the health of the endpoint; ordinary data remains on the primary QMI path.
use vstd::prelude::*;
use crate::command;
use crate::command::error_output_text;
use crate::error::ImsError;
use crate::text;
use crate::text::{chars_of, comes_before, is_text, same_str, starts_with, string_of, trimmed};
use vstd::slice::slice_subrange;

verus! {

/// The file that names the endpoint.
pub const SECONDARY_DEVICE_STATE: &'static str = "/run/simadmin/secondary-qmi-device";

/// The file that tells why the endpoint was lost.
pub const SECONDARY_ERROR_STATE: &'static str = "/run/simadmin/secondary-qmi-error";

/// The driver that the endpoint is bound to.
pub const RPMSG_DRIVER: &'static str = "rpmsg_wwan_ctrl";

/// The name of the RPMSG device behind the endpoint.
pub const DATA6_NAME: &'static str = "DATA6_CNTL";

// ---------------------------------------------------------------------------------------------
// The RPMSG device
// ---------------------------------------------------------------------------------------------
/// How the loading of the driver ended.
pub fn driver_outcome(success: bool, stderr: &[u8]) -> (r: Result<(), ImsError>)
    ensures
        match r {
            Ok(_) => success,
            Err(e) => !success && e is DriverNotLoaded && e->DriverNotLoaded_0@
                == command::error_output(stderr@),
        },
{
    if success {
        Ok(())
    } else {
        Err(ImsError::DriverNotLoaded(error_output_text(stderr)))
    }
}

/// The contents of a `name` file stand for the DATA6 device.
pub open spec fn names_data6(contents: Seq<char>) -> bool {
    text::trim(contents) == DATA6_NAME@
}

/// The contents of a `name` file stand for the DATA6 device.
pub fn is_data6_name(contents: &str) -> (r: bool)
    ensures
        r == names_data6(contents@),
{
    let chars = chars_of(contents);
    is_text(trimmed(&chars), DATA6_NAME)
}

/// The first of the devices, given by the contents of their `name` files, that is the DATA6
/// device. Where there is none, `failure` tells why the devices after them could not be read.
pub fn find_data6(names: &[String], failure: Option<String>) -> (r: Result<usize, ImsError>)
    ensures
        match r {
            Ok(i) => {
                &&& i < names@.len()
                &&& names_data6(names@[i as int]@)
                &&& forall|j: int| 0 <= j < i ==> !names_data6((#[trigger] names@[j])@)
            },
            Err(e) => {
                &&& forall|j: int| 0 <= j < names@.len() ==> !names_data6((#[trigger] names@[j])@)
                &&& e == match failure {
                    Some(reason) => ImsError::System(reason),
                    None => ImsError::Data6NotFound,
                }
            },
        },
{
    let mut i: usize = 0;
    while i < names.len()
        invariant
            i <= names@.len(),
            forall|j: int| 0 <= j < i ==> !names_data6((#[trigger] names@[j])@),
        decreases names@.len() - i,
    {
        if is_data6_name(&names[i]) {
            return Ok(i);
        }
        i += 1;
    }
    match failure {
        Some(reason) => Err(ImsError::System(reason)),
        None => Err(ImsError::Data6NotFound),
    }
}

// ---------------------------------------------------------------------------------------------
// The endpoint
// ---------------------------------------------------------------------------------------------
/// A setting that is there and not blank.
pub open spec fn is_set(value: Option<Seq<char>>) -> bool {
    value is Some && text::trim(value->0).len() > 0
}

/// A text that may be missing, as a mathematical value.
pub open spec fn text_view(value: Option<String>) -> Option<Seq<char>> {
    match value {
        Some(s) => Some(s@),
        None => None,
    }
}

/// A setting, unless it is blank.
pub fn nonblank(value: Option<String>) -> (r: Option<String>)
    ensures
        match r {
            Some(s) => is_set(text_view(value)) && value == Some(s),
            None => !is_set(text_view(value)),
        },
{
    match value {
        Some(s) => {
            let chars = chars_of(&s);
            if trimmed(&chars).len() > 0 {
                Some(s)
            } else {
                None
            }
        },
        None => None,
    }
}

/// The options with which the endpoint is opened.
pub open spec fn open_options() -> Seq<char> {
    "--device-open-net=net-raw-ip|net-no-qos-header"@
}

/// The arguments with which `qmicli` tells whether a device speaks QMI.
pub open spec fn ready_arguments(device: Seq<char>) -> Seq<Seq<char>> {
    seq!["-d"@, device, "--device-open-qmi"@, open_options(), "--get-service-version-info"@]
}

/// The arguments with which `qmicli` tells whether a device speaks QMI.
pub fn qmi_ready_arguments(device: &str) -> (v: Vec<String>)
    ensures
        text::texts(v@) == ready_arguments(device@),
{
    let mut v: Vec<String> = Vec::new();
    v.push("-d".to_owned());
    v.push(device.to_owned());
    v.push("--device-open-qmi".to_owned());
    v.push("--device-open-net=net-raw-ip|net-no-qos-header".to_owned());
    v.push("--get-service-version-info".to_owned());
    assert(text::texts(v@) =~= ready_arguments(device@));
    v
}

/// The device of the primary endpoint.
pub open spec fn primary_device(primary: Option<Seq<char>>) -> Seq<char> {
    match primary {
        Some(device) => device,
        None => "/dev/wwan0qmi0"@,
    }
}

/// The name of a device file that can be the secondary endpoint.
///
/// The kernel labels the port `wwan0at2` AT, but it carries the QMI WDS traffic.
pub open spec fn may_be_secondary(name: Seq<char>) -> bool {
    ("wwan0qmi"@.is_prefix_of(name) && name != "wwan0qmi0"@) || name == "wwan0at2"@
}

/// The device is one of those to be tried, given the names of the device files.
pub open spec fn is_candidate(
    primary: Option<Seq<char>>,
    names: Seq<Seq<char>>,
    device: Seq<char>,
) -> bool {
    &&& device != primary_device(primary)
    &&& device == "/dev/wwan0at2"@ || exists|i: int|
        0 <= i < names.len() && may_be_secondary(#[trigger] names[i]) && device == "/dev/"@
            + names[i]
}

/// Each text comes before those after it.
pub open spec fn is_ordered(v: Seq<Seq<char>>) -> bool {
    forall|i: int, j: int|
        0 <= i < j < v.len() ==> text::precedes(#[trigger] v[i], #[trigger] v[j])
}

/// The devices to be tried, in this order: the configured one, or else those that can be the
/// secondary endpoint and are not the primary one.
pub open spec fn are_candidates(
    v: Seq<Seq<char>>,
    configured: Option<Seq<char>>,
    primary: Option<Seq<char>>,
    names: Seq<Seq<char>>,
) -> bool {
    if is_set(configured) {
        v == seq![configured->0]
    } else {
        &&& is_ordered(v)
        &&& forall|device: Seq<char>| #[trigger]
            v.contains(device) <==> is_candidate(primary, names, device)
    }
}

/// Puts a device in its place among the others, unless it is there.
fn insert_ordered(v: &mut Vec<String>, device: String)
    requires
        is_ordered(text::texts(old(v)@)),
    ensures
        is_ordered(text::texts(final(v)@)),
        forall|d: Seq<char>| #[trigger]
            text::texts(final(v)@).contains(d) <==> text::texts(old(v)@).contains(d) || d
                == device@,
{
    let ghost before = text::texts(v@);
    let ghost added = device@;
    let mut i: usize = 0;
    while i < v.len() && comes_before(&v[i], &device)
        invariant
            i <= v@.len(),
            before == text::texts(v@),
            added == device@,
            forall|j: int| 0 <= j < i ==> text::precedes(#[trigger] before[j], added),
        decreases v@.len() - i,
    {
        assert(before[i as int] == v@[i as int]@);
        i += 1;
    }
    if i < v.len() && same_str(&v[i], &device) {
        assert(before[i as int] == added);
        return;
    }
    v.insert(i, device);
    proof {
        let after = text::texts(v@);
        assert(after =~= before.insert(i as int, added));
        assert forall|j: int| i <= j < before.len() implies text::precedes(
            added,
            #[trigger] before[j],
        ) by {
            text::lemma_precedes(added, before[i as int], before[j]);
            text::lemma_precedes(before[i as int], added, before[j]);
        }
        assert(is_ordered(after)) by {
            assert forall|a: int, b: int| 0 <= a < b < after.len() implies text::precedes(
                #[trigger] after[a],
                #[trigger] after[b],
            ) by {
                let a0 = if a < i { a } else { a - 1 };
                let b0 = if b < i { b } else { b - 1 };
                assert(a == i || after[a] == before[a0]);
                assert(b == i || after[b] == before[b0]);
            }
        }
        assert forall|d: Seq<char>| #[trigger] after.contains(d) <==> before.contains(d) || d
            == added by {
            if before.contains(d) {
                let j = choose|j: int| 0 <= j < before.len() && before[j] == d;
                let k = if j < i { j } else { j + 1 };
                assert(after[k] == d);
            }
            if d == added {
                assert(after[i as int] == d);
            }
            if after.contains(d) && d != added {
                let k = choose|k: int| 0 <= k < after.len() && after[k] == d;
                let j = if k < i { k } else { k - 1 };
                assert(before[j] == d);
            }
        }
    }
}

/// The devices to be tried, given the settings and the names of the device files.
pub fn candidate_secondary_devices(
    configured: Option<String>,
    primary: Option<String>,
    names: &[String],
) -> (v: Vec<String>)
    ensures
        are_candidates(
            text::texts(v@),
            text_view(configured),
            text_view(primary),
            text::texts(names@),
        ),
{
    let mut v: Vec<String> = Vec::new();
    if let Some(device) = nonblank(configured) {
        v.push(device);
        assert(text::texts(v@) =~= seq![text_view(configured)->0]);
        return v;
    }
    let ghost model = text_view(primary);
    let primary = match primary {
        Some(device) => device,
        None => "/dev/wwan0qmi0".to_owned(),
    };
    assert(text::texts(v@) =~= Seq::empty());
    let ghost all = text::texts(names@);
    if !same_str("/dev/wwan0at2", &primary) {
        insert_ordered(&mut v, "/dev/wwan0at2".to_owned());
    }
    let mut i: usize = 0;
    assert(all.take(0) =~= Seq::empty());
    assert(forall|d: Seq<char>| #[trigger]
        text::texts(v@).contains(d) <==> is_candidate(model, all.take(0), d));
    while i < names.len()
        invariant
            i <= names@.len(),
            all == text::texts(names@),
            primary@ == primary_device(model),
            is_ordered(text::texts(v@)),
            forall|d: Seq<char>| #[trigger]
                text::texts(v@).contains(d) <==> is_candidate(model, all.take(i as int), d),
        decreases names@.len() - i,
    {
        let name = &names[i];
        let ghost before = text::texts(v@);
        let ghost found = name@;
        assert(all[i as int] == found);
        let chars = chars_of(name);
        if (starts_with(&chars, "wwan0qmi") && !is_text(&chars, "wwan0qmi0")) || is_text(
            &chars,
            "wwan0at2",
        ) {
            let mut device = "/dev/".to_owned();
            device.append(name);
            if !same_str(&device, &primary) {
                insert_ordered(&mut v, device);
            }
        }
        proof {
            let now = all.take(i + 1);
            let past = all.take(i as int);
            assert(now[i as int] == found);
            assert forall|d: Seq<char>| is_candidate(model, now, d) <==> is_candidate(
                model,
                past,
                d,
            ) || (d != primary_device(model) && may_be_secondary(found) && d == "/dev/"@ + found) by {
                if is_candidate(model, past, d) && d != "/dev/wwan0at2"@ {
                    let j = choose|j: int|
                        0 <= j < past.len() && may_be_secondary(#[trigger] past[j]) && d
                            == "/dev/"@ + past[j];
                    assert(now[j] == past[j]);
                }
                if is_candidate(model, now, d) && d != "/dev/wwan0at2"@ {
                    let j = choose|j: int|
                        0 <= j < now.len() && may_be_secondary(#[trigger] now[j]) && d
                            == "/dev/"@ + now[j];
                    if j < i {
                        assert(past[j] == now[j]);
                    }
                }
            }
        }
        i += 1;
    }
    assert(all.take(i as int) =~= all);
    v
}

/// The first index at which a device is ready, of those that have been tried.
pub open spec fn is_first_ready(index: int, candidates: nat, ready: Seq<bool>) -> bool {
    &&& 0 <= index < candidates
    &&& index < ready.len()
    &&& ready[index]
    &&& forall|j: int| 0 <= j < index ==> !#[trigger] ready[j]
}

/// No device is ready, of those that have been tried.
pub open spec fn none_ready(candidates: nat, ready: Seq<bool>) -> bool {
    forall|j: int| 0 <= j < candidates && j < ready.len() ==> !#[trigger] ready[j]
}

/// The first of the devices that is ready: `ready` tells for each of them, or for those that have
/// been tried, whether it is there and speaks QMI.
pub fn first_ready(candidates: &[String], ready: &[bool]) -> (r: Option<usize>)
    ensures
        match r {
            Some(i) => is_first_ready(i as int, candidates@.len(), ready@),
            None => none_ready(candidates@.len(), ready@),
        },
{
    let mut i: usize = 0;
    while i < candidates.len() && i < ready.len()
        invariant
            i <= candidates@.len(),
            i <= ready@.len(),
            forall|j: int| 0 <= j < i ==> !#[trigger] ready@[j],
        decreases candidates@.len() - i,
    {
        if ready[i] {
            return Some(i);
        }
        i += 1;
    }
    None
}

/// What comes of a look for the endpoint among the given devices.
pub open spec fn is_probe_result(
    event: InitEvent,
    candidates: Seq<Seq<char>>,
    ready: Seq<bool>,
    expired: bool,
) -> bool {
    match event {
        InitEvent::Ready(device) => exists|i: int|
            is_first_ready(i, candidates.len(), ready) && device@ == #[trigger] candidates[i],
        InitEvent::NotReady(over) => none_ready(candidates.len(), ready) && over == expired,
        _ => false,
    }
}

/// What comes of a look for the endpoint: the first of the devices that is ready, or whether the
/// time is up.
pub fn probe_result(candidates: &[String], ready: &[bool], expired: bool) -> (event: InitEvent)
    ensures
        is_probe_result(event, text::texts(candidates@), ready@, expired),
{
    match first_ready(candidates, ready) {
        Some(i) => {
            let device = candidates[i].clone();
            assert(text::texts(candidates@)[i as int] == device@);
            InitEvent::Ready(device)
        },
        None => InitEvent::NotReady(expired),
    }
}

/// What comes of a look at the endpoint, given what identified its device file when it was found
/// ready and what identifies the file now, if there is one.
pub open spec fn watched(found: (u64, u64), now: Option<(u64, u64)>) -> InitEvent {
    match now {
        None => InitEvent::Present(false),
        Some(identity) => if identity == found {
            InitEvent::Present(true)
        } else {
            InitEvent::Replaced
        },
    }
}

/// What comes of a look at the endpoint.
pub fn watch_result(found: (u64, u64), now: Option<(u64, u64)>) -> (event: InitEvent)
    ensures
        event == watched(found, now),
{
    match now {
        None => InitEvent::Present(false),
        Some(identity) => if identity.0 == found.0 && identity.1 == found.1 {
            InitEvent::Present(true)
        } else {
            InitEvent::Replaced
        },
    }
}

/// What is written to the file that tells why the endpoint was lost.
pub fn error_contents(error: &ImsError) -> (s: String)
    ensures
        s@ == error.text() + "\n"@,
{
    let mut s = error.message();
    s.append("\n");
    s
}

/// What is written to the file that names the endpoint.
pub fn state_contents(device: &str) -> (s: String)
    ensures
        s@ == device@ + "\n"@,
{
    let mut s = device.to_owned();
    s.append("\n");
    s
}

/// The name of the socket of the service manager: a leading `@` stands for the null character of
/// an abstract address.
pub open spec fn socket_name(socket: Seq<char>) -> Seq<char> {
    if socket.len() > 0 && socket[0] == '@' {
        "\0"@ + socket.skip(1)
    } else {
        socket
    }
}

/// The name of the socket of the service manager.
pub fn notify_socket_name(socket: &str) -> (s: String)
    ensures
        s@ == socket_name(socket@),
{
    let chars = chars_of(socket);
    if chars.len() > 0 && chars[0] == '@' {
        let mut s = "\0".to_owned();
        let rest = string_of(slice_subrange(&chars, 1, chars.len()));
        assert(rest@ =~= socket@.skip(1));
        s.append(&rest);
        s
    } else {
        socket.to_owned()
    }
}

// ---------------------------------------------------------------------------------------------
// The initialization
// ---------------------------------------------------------------------------------------------
/// How long the endpoint may take to become ready, in seconds.
pub const READY_TIMEOUT_SECONDS: u64 = 20;

/// The pause between two attempts to find the endpoint, in milliseconds.
pub const PROBE_PAUSE_MILLISECONDS: u64 = 250;

/// The pause between two looks at the endpoint, in seconds.
pub const WATCH_PAUSE_SECONDS: u64 = 5;

/// What the service manager is told when the endpoint is ready.
pub const READY_MESSAGE: &'static str = "READY=1\nSTATUS=DATA6 secondary QMI ready";

/// What the initializer does next.
#[derive(Debug, PartialEq, Eq)]
pub enum InitTask {
    /// Load the RPMSG driver.
    LoadDriver,
    /// Look for the DATA6 device.
    FindDevice,
    /// See whether the device has a `driver_override` node.
    CheckOverride,
    /// Write the name of the driver to that node.
    WriteOverride,
    /// See whether the driver has a `bind` node.
    CheckBindNode,
    /// See whether the device has a name that can be written to that node.
    CheckName,
    /// See which driver the device is bound to.
    ReadDriver,
    /// Write the name of the device to the `bind` node.
    Bind,
    /// Create the directory of the file that names the endpoint.
    CreateDirectory,
    /// Remove what an earlier run left of that file, and of the one that tells of a loss.
    RemoveState,
    /// Look for a device that is there and speaks QMI.
    Probe,
    /// Wait before the next attempt.
    Pause,
    /// Write the name of the endpoint to the file.
    Publish(String),
    /// Tell the service manager that the endpoint is ready.
    Announce(String),
    /// See whether the endpoint is still there.
    Watch(String),
    /// Wait before the next look.
    Rest(String),
    /// Write down why the endpoint was lost.
    WriteError(ImsError),
    /// Give up.
    Fail(ImsError),
}

/// What came of a task.
#[derive(Debug, PartialEq, Eq)]
pub enum InitEvent {
    /// It is done.
    Done,
    /// It failed.
    Failed(ImsError),
    /// What was looked for is there, or it is not.
    Present(bool),
    /// Another device stands in the place of the endpoint.
    Replaced,
    /// The driver that the device is bound to.
    Driver(Option<String>),
    /// The device speaks QMI.
    Ready(String),
    /// No device does; the time is up, or it is not.
    NotReady(bool),
}

/// The task that follows. An event that does not belong to the task leaves it to be done.
pub open spec fn following_task(task: InitTask, event: InitEvent) -> InitTask {
    match (task, event) {
        (InitTask::LoadDriver, InitEvent::Done) => InitTask::FindDevice,
        (InitTask::LoadDriver, InitEvent::Failed(e)) => InitTask::Fail(e),
        (InitTask::FindDevice, InitEvent::Done) => InitTask::CheckOverride,
        (InitTask::FindDevice, InitEvent::Failed(e)) => InitTask::Fail(e),
        (InitTask::CheckOverride, InitEvent::Present(there)) => if there {
            InitTask::WriteOverride
        } else {
            InitTask::Fail(ImsError::NoDriverOverride)
        },
        (InitTask::WriteOverride, InitEvent::Done) => InitTask::CheckBindNode,
        (InitTask::WriteOverride, InitEvent::Failed(e)) => InitTask::Fail(e),
        (InitTask::CheckBindNode, InitEvent::Present(there)) => if there {
            InitTask::CheckName
        } else {
            InitTask::Fail(ImsError::NoBindNode)
        },
        (InitTask::CheckName, InitEvent::Present(there)) => if there {
            InitTask::ReadDriver
        } else {
            InitTask::Fail(ImsError::InvalidDeviceName)
        },
        (InitTask::ReadDriver, InitEvent::Driver(driver)) => if text_view(driver) == Some(
            RPMSG_DRIVER@,
        ) {
            InitTask::CreateDirectory
        } else {
            InitTask::Bind
        },
        (InitTask::Bind, InitEvent::Done) => InitTask::CreateDirectory,
        (InitTask::Bind, InitEvent::Failed(e)) => InitTask::Fail(e),
        (InitTask::CreateDirectory, InitEvent::Done) => InitTask::RemoveState,
        (InitTask::CreateDirectory, InitEvent::Failed(e)) => InitTask::Fail(e),
        (InitTask::RemoveState, InitEvent::Done) => InitTask::Probe,
        (InitTask::RemoveState, InitEvent::Failed(_)) => InitTask::Probe,
        (InitTask::Probe, InitEvent::Ready(device)) => InitTask::Publish(device),
        (InitTask::Probe, InitEvent::NotReady(expired)) => if expired {
            InitTask::Fail(ImsError::EndpointNotReady)
        } else {
            InitTask::Pause
        },
        (InitTask::Pause, InitEvent::Done) => InitTask::Probe,
        (InitTask::Publish(device), InitEvent::Done) => InitTask::Announce(device),
        (InitTask::Publish(_), InitEvent::Failed(e)) => InitTask::Fail(e),
        (InitTask::Announce(device), InitEvent::Done) => InitTask::Watch(device),
        (InitTask::Watch(device), InitEvent::Present(there)) => if there {
            InitTask::Rest(device)
        } else {
            InitTask::WriteError(ImsError::EndpointDisappeared)
        },
        (InitTask::Watch(_), InitEvent::Replaced) => InitTask::WriteError(
            ImsError::EndpointReplaced,
        ),
        (InitTask::WriteError(e), InitEvent::Done) => InitTask::Fail(e),
        (InitTask::WriteError(e), InitEvent::Failed(_)) => InitTask::Fail(e),
        (InitTask::Rest(device), InitEvent::Done) => InitTask::Watch(device),
        (_, _) => task,
    }
}

/// The driver that the device is bound to is the RPMSG driver.
fn is_bound(driver: &Option<String>) -> (r: bool)
    ensures
        r == (text_view(*driver) == Some(RPMSG_DRIVER@)),
{
    match driver {
        Some(name) => same_str(name, RPMSG_DRIVER),
        None => false,
    }
}

/// The task that follows.
pub fn next_task(task: InitTask, event: InitEvent) -> (r: InitTask)
    ensures
        r == following_task(task, event),
{
    match (task, event) {
        (InitTask::LoadDriver, InitEvent::Done) => InitTask::FindDevice,
        (InitTask::LoadDriver, InitEvent::Failed(e)) => InitTask::Fail(e),
        (InitTask::FindDevice, InitEvent::Done) => InitTask::CheckOverride,
        (InitTask::FindDevice, InitEvent::Failed(e)) => InitTask::Fail(e),
        (InitTask::CheckOverride, InitEvent::Present(there)) => if there {
            InitTask::WriteOverride
        } else {
            InitTask::Fail(ImsError::NoDriverOverride)
        },
        (InitTask::WriteOverride, InitEvent::Done) => InitTask::CheckBindNode,
        (InitTask::WriteOverride, InitEvent::Failed(e)) => InitTask::Fail(e),
        (InitTask::CheckBindNode, InitEvent::Present(there)) => if there {
            InitTask::CheckName
        } else {
            InitTask::Fail(ImsError::NoBindNode)
        },
        (InitTask::CheckName, InitEvent::Present(there)) => if there {
            InitTask::ReadDriver
        } else {
            InitTask::Fail(ImsError::InvalidDeviceName)
        },
        (InitTask::ReadDriver, InitEvent::Driver(driver)) => if is_bound(&driver) {
            InitTask::CreateDirectory
        } else {
            InitTask::Bind
        },
        (InitTask::Bind, InitEvent::Done) => InitTask::CreateDirectory,
        (InitTask::Bind, InitEvent::Failed(e)) => InitTask::Fail(e),
        (InitTask::CreateDirectory, InitEvent::Done) => InitTask::RemoveState,
        (InitTask::CreateDirectory, InitEvent::Failed(e)) => InitTask::Fail(e),
        (InitTask::RemoveState, InitEvent::Done) => InitTask::Probe,
        (InitTask::RemoveState, InitEvent::Failed(_)) => InitTask::Probe,
        (InitTask::Probe, InitEvent::Ready(device)) => InitTask::Publish(device),
        (InitTask::Probe, InitEvent::NotReady(expired)) => if expired {
            InitTask::Fail(ImsError::EndpointNotReady)
        } else {
            InitTask::Pause
        },
        (InitTask::Pause, InitEvent::Done) => InitTask::Probe,
        (InitTask::Publish(device), InitEvent::Done) => InitTask::Announce(device),
        (InitTask::Publish(_), InitEvent::Failed(e)) => InitTask::Fail(e),
        (InitTask::Announce(device), InitEvent::Done) => InitTask::Watch(device),
        (InitTask::Watch(device), InitEvent::Present(there)) => if there {
            InitTask::Rest(device)
        } else {
            InitTask::WriteError(ImsError::EndpointDisappeared)
        },
        (InitTask::Watch(_), InitEvent::Replaced) => InitTask::WriteError(
            ImsError::EndpointReplaced,
        ),
        (InitTask::WriteError(e), InitEvent::Done) => InitTask::Fail(e),
        (InitTask::WriteError(e), InitEvent::Failed(_)) => InitTask::Fail(e),
        (InitTask::Rest(device), InitEvent::Done) => InitTask::Watch(device),
        (task, _) => task,
    }
}

// ---------------------------------------------------------------------------------------------
// Laws
// ---------------------------------------------------------------------------------------------
/// The primary endpoint is never tried, unless it is configured as the secondary one.
pub proof fn law_primary_kept_apart(
    v: Seq<Seq<char>>,
    configured: Option<Seq<char>>,
    primary: Option<Seq<char>>,
    names: Seq<Seq<char>>,
)
    requires
        are_candidates(v, configured, primary, names),
        v.contains(primary_device(primary)),
    ensures
        configured == Some(primary_device(primary)),
{
    if is_set(configured) {
        let i = choose|i: int| 0 <= i < v.len() && v[i] == primary_device(primary);
        assert(v[i] == configured->0);
    }
}

/// The settings and the device files determine the devices to be tried and their order.
pub proof fn law_candidates_determined(
    v: Seq<Seq<char>>,
    w: Seq<Seq<char>>,
    configured: Option<Seq<char>>,
    primary: Option<Seq<char>>,
    names: Seq<Seq<char>>,
)
    requires
        are_candidates(v, configured, primary, names),
        are_candidates(w, configured, primary, names),
    ensures
        v == w,
{
    if !is_set(configured) {
        assert forall|d: Seq<char>| v.contains(d) == w.contains(d) by {}
        lemma_ordered_unique(v, w);
    }
}

proof fn lemma_ordered_unique(v: Seq<Seq<char>>, w: Seq<Seq<char>>)
    requires
        is_ordered(v),
        is_ordered(w),
        forall|d: Seq<char>| v.contains(d) == w.contains(d),
    ensures
        v == w,
    decreases v.len(),
{
    if v.len() == 0 {
        if w.len() > 0 {
            assert(w.contains(w[0]));
            assert(v.contains(w[0]));
        }
        assert(v =~= w);
    } else {
        let a = v.last();
        assert(v[v.len() - 1] == a && v.contains(a) && w.contains(a));
        let b = w.last();
        assert(w[w.len() - 1] == b && w.contains(b) && v.contains(b));
        let i = choose|i: int| 0 <= i < w.len() && w[i] == a;
        let j = choose|j: int| 0 <= j < v.len() && v[j] == b;
        text::lemma_precedes(a, b, a);
        if a != b {
            assert(text::precedes(w[i], w[w.len() - 1]));
            assert(text::precedes(v[j], v[v.len() - 1]));
        }
        let v1 = v.drop_last();
        let w1 = w.drop_last();
        assert forall|d: Seq<char>| v1.contains(d) == w1.contains(d) by {
            if v1.contains(d) {
                let k = choose|k: int| 0 <= k < v1.len() && v1[k] == d;
                assert(v[k] == d);
                assert(text::precedes(v[k], v[v.len() - 1]));
                text::lemma_precedes(a, a, a);
                assert(v.contains(d) && w.contains(d));
                let m = choose|m: int| 0 <= m < w.len() && w[m] == d;
                assert(m < w1.len());
                assert(w1[m] == d);
            }
            if w1.contains(d) {
                let k = choose|k: int| 0 <= k < w1.len() && w1[k] == d;
                assert(w[k] == d);
                assert(text::precedes(w[k], w[w.len() - 1]));
                text::lemma_precedes(b, b, b);
                assert(w.contains(d) && v.contains(d));
                let m = choose|m: int| 0 <= m < v.len() && v[m] == d;
                assert(m < v1.len());
                assert(v1[m] == d);
            }
        }
        lemma_ordered_unique(v1, w1);
        assert(v =~= v1.push(a));
        assert(w =~= w1.push(b));
    }
}

/// The task that the initializer has come to after the given events.
pub open spec fn task_after(events: Seq<InitEvent>) -> InitTask
    decreases events.len(),
{
    if events.len() == 0 {
        InitTask::LoadDriver
    } else {
        following_task(task_after(events.drop_last()), events.last())
    }
}

/// The initializer has removed what an earlier run left.
pub open spec fn was_cleared(events: Seq<InitEvent>) -> bool {
    exists|j: int| 0 <= j < events.len() && (#[trigger] task_after(events.take(j))) is RemoveState
}

/// After that, the initializer has found that the device is there and speaks QMI.
pub open spec fn was_found_ready(
    events: Seq<InitEvent>,
    device: String,
) -> bool {
    exists|k: int|
        0 <= k < events.len() && (#[trigger] task_after(events.take(k))) is Probe && events[k]
            == InitEvent::Ready(device) && was_cleared(events.take(k))
}

proof fn lemma_stays_cleared(events: Seq<InitEvent>, n: int)
    requires
        0 <= n <= events.len(),
        was_cleared(events.take(n)),
    ensures
        was_cleared(events),
{
    let j = choose|j: int|
        0 <= j < n && (#[trigger] task_after(events.take(n).take(j))) is RemoveState;
    assert(events.take(n).take(j) =~= events.take(j));
    assert(task_after(events.take(j)) is RemoveState);
}

proof fn lemma_probe_cleared(events: Seq<InitEvent>)
    ensures
        (task_after(events) is Probe || task_after(events) is Pause) ==> was_cleared(events),
    decreases events.len(),
{
    if events.len() > 0 {
        let n = events.len() - 1;
        assert(events.drop_last() =~= events.take(n));
        lemma_probe_cleared(events.drop_last());
        if task_after(events.drop_last()) is RemoveState {
            assert(task_after(events.take(n)) is RemoveState);
        }
        if was_cleared(events.drop_last()) {
            lemma_stays_cleared(events, n);
        }
    }
}

/// A stale endpoint is never named: whenever a device is written to the file, announced or
/// watched, an earlier file has been removed and after that this device was there and spoke QMI.
pub proof fn law_no_stale_endpoint(events: Seq<InitEvent>, device: String)
    requires
        task_after(events) == InitTask::Publish(device) || task_after(events)
            == InitTask::Announce(device) || task_after(events) == InitTask::Watch(device)
            || task_after(events) == InitTask::Rest(device),
    ensures
        was_found_ready(events, device),
    decreases events.len(),
{
    let n = events.len() - 1;
    let past = events.drop_last();
    assert(past =~= events.take(n));
    if task_after(past) is Probe {
        lemma_probe_cleared(past);
        assert(task_after(events.take(n)) is Probe);
        assert(events[n] == InitEvent::Ready(device));
    } else {
        law_no_stale_endpoint(past, device);
        let k = choose|k: int|
            0 <= k < past.len() && (#[trigger] task_after(past.take(k))) is Probe && past[k]
                == InitEvent::Ready(device) && was_cleared(past.take(k));
        assert(past.take(k) =~= events.take(k));
        assert(task_after(events.take(k)) is Probe);
        assert(events[k] == past[k]);
    }
}

/// The event is what came of a look for the endpoint among the devices to be tried, with these
/// settings.
pub open spec fn comes_from_probe(
    event: InitEvent,
    configured: Option<Seq<char>>,
    primary: Option<Seq<char>>,
) -> bool {
    exists|v: Seq<Seq<char>>, names: Seq<Seq<char>>, ready: Seq<bool>, expired: bool|
        #![trigger are_candidates(v, configured, primary, names), is_probe_result(
            event,
            v,
            ready,
            expired,
        )]
        are_candidates(v, configured, primary, names) && is_probe_result(
            event,
            v,
            ready,
            expired,
        )
}

/// The primary endpoint is never written to the file, announced or watched, unless it is
/// configured as the secondary one: what is found ready is one of the devices to be tried.
pub proof fn law_primary_never_published(
    events: Seq<InitEvent>,
    device: String,
    configured: Option<Seq<char>>,
    primary: Option<Seq<char>>,
)
    requires
        task_after(events) == InitTask::Publish(device) || task_after(events)
            == InitTask::Announce(device) || task_after(events) == InitTask::Watch(device)
            || task_after(events) == InitTask::Rest(device),
        forall|k: int|
            0 <= k < events.len() && (#[trigger] events[k]) is Ready ==> comes_from_probe(
                events[k],
                configured,
                primary,
            ),
    ensures
        device@ == primary_device(primary) ==> configured == Some(primary_device(primary)),
{
    law_no_stale_endpoint(events, device);
    let k = choose|k: int|
        0 <= k < events.len() && (#[trigger] task_after(events.take(k))) is Probe && events[k]
            == InitEvent::Ready(device) && was_cleared(events.take(k));
    let event = events[k];
    let (v, names, ready, expired) = choose|
        v: Seq<Seq<char>>,
        names: Seq<Seq<char>>,
        ready: Seq<bool>,
        expired: bool,
    |
        #![trigger are_candidates(v, configured, primary, names), is_probe_result(
            event,
            v,
            ready,
            expired,
        )]
        are_candidates(v, configured, primary, names) && is_probe_result(
            event,
            v,
            ready,
            expired,
        );
    let i = choose|i: int| is_first_ready(i, v.len(), ready) && device@ == #[trigger] v[i];
    if device@ == primary_device(primary) {
        assert(v.contains(v[i]));
        law_primary_kept_apart(v, configured, primary, names);
    }
}

/// The initializer has come to hold the endpoint.
pub open spec fn was_held(events: Seq<InitEvent>) -> bool {
    exists|j: int| 0 <= j <= events.len() && (#[trigger] task_after(events.take(j))) is Watch
}

/// The initializer has come to write the error down.
pub open spec fn was_written(events: Seq<InitEvent>, e: ImsError) -> bool {
    exists|k: int|
        0 <= k < events.len() && #[trigger] task_after(events.take(k)) == InitTask::WriteError(e)
}

/// The endpoint is held: from there on the initializer watches it, and it gives up only after it
/// has written down why the endpoint was lost.
pub proof fn law_loss_written_down(events: Seq<InitEvent>)
    requires
        was_held(events),
    ensures
        match task_after(events) {
            InitTask::Watch(_) => true,
            InitTask::Rest(_) => true,
            InitTask::WriteError(e) => e == ImsError::EndpointDisappeared || e
                == ImsError::EndpointReplaced,
            InitTask::Fail(e) => (e == ImsError::EndpointDisappeared || e
                == ImsError::EndpointReplaced) && was_written(events, e),
            _ => false,
        },
    decreases events.len(),
{
    let n = events.len() as int;
    let j = choose|j: int| 0 <= j <= n && (#[trigger] task_after(events.take(j))) is Watch;
    if j == n {
        assert(events.take(n) =~= events);
    } else {
        let past = events.drop_last();
        assert(past =~= events.take(n - 1));
        assert(past.take(j) =~= events.take(j));
        assert(task_after(past.take(j)) is Watch);
        law_loss_written_down(past);
        match task_after(past) {
            InitTask::WriteError(e) => {
                assert(task_after(events.take(n - 1)) == InitTask::WriteError(e));
            },
            InitTask::Fail(e) => {
                let k = choose|k: int|
                    0 <= k < past.len() && #[trigger] task_after(past.take(k))
                        == InitTask::WriteError(e);
                assert(past.take(k) =~= events.take(k));
                assert(task_after(events.take(k)) == InitTask::WriteError(e));
            },
            _ => {},
        }
    }
}

/// The endpoint is held as long as the same device stays in its place, and it is given up as soon
/// as the device is gone or another one is there.
pub proof fn law_held_while_in_place(
    device: String,
    found: (u64, u64),
    now: Option<(u64, u64)>,
    written: InitEvent,
)
    requires
        written is Done || written is Failed,
    ensures
        ({
            let next = following_task(InitTask::Watch(device), watched(found, now));
            if now == Some(found) {
                next == InitTask::Rest(device) && following_task(next, InitEvent::Done)
                    == InitTask::Watch(device)
            } else {
                let e = if now is None {
                    ImsError::EndpointDisappeared
                } else {
                    ImsError::EndpointReplaced
                };
                next == InitTask::WriteError(e) && following_task(next, written) == InitTask::Fail(
                    e,
                )
            }
        }),
{
}

/// The initializer ends only with an error, and then it does nothing more.
pub proof fn law_failure_is_final(e: ImsError, event: InitEvent)
    ensures
        following_task(InitTask::Fail(e), event) == InitTask::Fail(e),
{
}

} // verus!
