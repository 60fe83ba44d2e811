//! Laws of the secondary endpoint: which devices are tried, and the course of the initialization.
use vstd::prelude::*;
use crate::error::ImsError;
use crate::secondary_qmi;
use crate::secondary_qmi::{InitEvent, InitTask};
use crate::text;
use crate::text_laws;

verus! {

// ---------------------------------------------------------------------------------------------
// Devices
// ---------------------------------------------------------------------------------------------
/// The DATA6 device is told by its name, with any white space around it, and by no other text.
pub proof fn law_data6_name(contents: Seq<char>, lead: Seq<char>, trail: Seq<char>)
    requires
        text_laws::is_white(lead),
        text_laws::is_white(trail),
    ensures
        secondary_qmi::names_data6(
            lead + seq!['D', 'A', 'T', 'A', '6', '_', 'C', 'N', 'T', 'L'] + trail,
        ),
        secondary_qmi::names_data6(contents) ==> exists|a: Seq<char>, b: Seq<char>|
            #![trigger text_laws::is_white(a), text_laws::is_white(b)]
            text_laws::is_white(a) && text_laws::is_white(b) && contents == a + seq![
                'D',
                'A',
                'T',
                'A',
                '6',
                '_',
                'C',
                'N',
                'T',
                'L',
            ] + b,
{
    reveal_strlit("DATA6_CNTL");
    let name = seq!['D', 'A', 'T', 'A', '6', '_', 'C', 'N', 'T', 'L'];
    assert("DATA6_CNTL"@ =~= name);
    text_laws::law_trim(lead, name, trail);
    let (a, b) = text_laws::law_trim_parts(contents);
    if secondary_qmi::names_data6(contents) {
        assert(contents == a + name + b);
        assert(text_laws::is_white(a) && text_laws::is_white(b));
    }
}

/// One text comes before another if it is the beginning of it, or if its character is the smaller
/// one where they first differ.
pub proof fn law_order(common: Seq<char>, c: char, a: Seq<char>, d: char, b: Seq<char>)
    ensures
        text::precedes(common, common.push(d) + b),
        (c as int) < (d as int) ==> text::precedes(common.push(c) + a, common.push(d) + b),
        (c as int) > (d as int) ==> !text::precedes(common.push(c) + a, common.push(d) + b),
        !text::precedes(common.push(c) + a, common),
        !text::precedes(common, common),
    decreases common.len(),
{
    let x = common.push(c) + a;
    let y = common.push(d) + b;
    if common.len() > 0 {
        let rest = common.skip(1);
        law_order(rest, c, a, d, b);
        assert(x.skip(1) =~= rest.push(c) + a);
        assert(y.skip(1) =~= rest.push(d) + b);
        assert(x[0] == common[0] && y[0] == common[0]);
    } else {
        assert(x[0] == c && y[0] == d);
    }
}

/// With a configured device that is not blank, this device alone is tried.
pub proof fn law_configured_device(
    v: Seq<Seq<char>>,
    configured: Seq<char>,
    primary: Option<Seq<char>>,
    names: Seq<Seq<char>>,
)
    requires
        secondary_qmi::are_candidates(v, Some(configured), primary, names),
        text::trim(configured).len() > 0,
    ensures
        v == seq![configured],
{
}

/// Without a configured device, the QMI ports other than the first and the port that the kernel
/// takes for AT are tried, whichever of them are there; the latter is tried even if it is not
/// listed. The primary device is left out.
pub proof fn law_devices_tried(
    v: Seq<Seq<char>>,
    configured: Option<Seq<char>>,
    primary: Option<Seq<char>>,
    names: Seq<Seq<char>>,
    i: int,
    suffix: Seq<char>,
)
    requires
        secondary_qmi::are_candidates(v, configured, primary, names),
        configured is None || text::trim(configured->0).len() == 0,
        0 <= i < names.len(),
    ensures
        ({
            let main = match primary {
                Some(device) => device,
                None => "/dev/wwan0qmi0"@,
            };
            let device = "/dev/wwan0qmi"@ + suffix;
            &&& names[i] == "wwan0qmi"@ + suffix && suffix != seq!['0'] && device != main
                ==> v.contains(device)
            &&& "/dev/wwan0at2"@ != main ==> v.contains("/dev/wwan0at2"@)
            &&& !v.contains(main)
            &&& forall|d: Seq<char>| #[trigger]
                v.contains(d) ==> d == "/dev/wwan0at2"@ || is_qmi_port(names, d)
        }),
{
    reveal_strlit("/dev/wwan0qmi");
    reveal_strlit("/dev/wwan0qmi0");
    reveal_strlit("/dev/");
    reveal_strlit("wwan0qmi");
    reveal_strlit("wwan0qmi0");
    reveal_strlit("wwan0at2");
    reveal_strlit("/dev/wwan0at2");
    let device = "/dev/wwan0qmi"@ + suffix;
    let name = "wwan0qmi"@ + suffix;
    assert(device =~= "/dev/"@ + name);
    if names[i] == name && suffix != seq!['0'] {
        assert("wwan0qmi"@ =~= name.take(8));
        if name == "wwan0qmi0"@ {
            assert(name.skip(8) =~= suffix);
            assert("wwan0qmi0"@.skip(8) =~= seq!['0']);
        }
        assert(secondary_qmi::may_be_secondary(names[i]));
    }
    assert forall|d: Seq<char>| #[trigger] v.contains(d) implies d == "/dev/wwan0at2"@
        || is_qmi_port(names, d) by {
        assert(secondary_qmi::is_candidate(primary, names, d));
        if d != "/dev/wwan0at2"@ {
            let k = choose|k: int|
                0 <= k < names.len() && secondary_qmi::may_be_secondary(#[trigger] names[k]) && d
                    == "/dev/"@ + names[k];
            if names[k] == "wwan0at2"@ {
                assert("/dev/"@ + names[k] =~= "/dev/wwan0at2"@);
            }
            let rest = names[k].skip(8);
            assert(names[k] =~= "wwan0qmi"@ + rest);
            assert(d =~= "/dev/wwan0qmi"@ + rest);
            if rest == seq!['0'] {
                assert("wwan0qmi"@ + rest =~= "wwan0qmi0"@);
            }
            assert(is_port_at(names, d, k, rest));
        }
    }
}

/// The device is that of the QMI port with this name in the list and with this suffix.
pub open spec fn is_port_at(
    names: Seq<Seq<char>>,
    device: Seq<char>,
    k: int,
    suffix: Seq<char>,
) -> bool {
    &&& 0 <= k < names.len()
    &&& names[k] == "wwan0qmi"@ + suffix
    &&& suffix != seq!['0']
    &&& device == "/dev/wwan0qmi"@ + suffix
}

/// The device is that of a QMI port in the list, other than the first one.
pub open spec fn is_qmi_port(names: Seq<Seq<char>>, device: Seq<char>) -> bool {
    exists|k: int, suffix: Seq<char>| #[trigger] is_port_at(names, device, k, suffix)
}

/// The devices are tried in the order of their names, each of them once.
pub proof fn law_devices_in_order(
    v: Seq<Seq<char>>,
    configured: Option<Seq<char>>,
    primary: Option<Seq<char>>,
    names: Seq<Seq<char>>,
    i: int,
    j: int,
)
    requires
        secondary_qmi::are_candidates(v, configured, primary, names),
        0 <= i < j < v.len(),
    ensures
        text::precedes(v[i], v[j]),
        v[i] != v[j],
{
    text::lemma_precedes(v[i], v[j], v[i]);
}

/// The endpoint is the first device that is ready; what was not tried is not ready.
pub proof fn law_first_ready_device(
    device: String,
    candidates: Seq<Seq<char>>,
    ready: Seq<bool>,
    expired: bool,
    over: bool,
)
    ensures
        secondary_qmi::is_probe_result(InitEvent::Ready(device), candidates, ready, expired)
            ==> candidates.contains(device@) && exists|i: int|
            0 <= i < candidates.len() && i < ready.len() && device@ == candidates[i]
                && #[trigger] ready[i] && forall|j: int| 0 <= j < i ==> !#[trigger] ready[j],
        secondary_qmi::is_probe_result(InitEvent::NotReady(over), candidates, ready, expired)
            ==> over == expired && forall|j: int|
            0 <= j < candidates.len() && j < ready.len() ==> !#[trigger] ready[j],
{
    if secondary_qmi::is_probe_result(InitEvent::Ready(device), candidates, ready, expired) {
        let i = choose|i: int|
            secondary_qmi::is_first_ready(i, candidates.len(), ready) && device@
                == #[trigger] candidates[i];
        assert(ready[i] && candidates[i] == device@);
    }
}

/// The name of the socket keeps its length: a leading `@` becomes a null character, everything
/// else stays.
pub proof fn law_socket_name(rest: Seq<char>, c: char)
    ensures
        secondary_qmi::socket_name(seq!['@'] + rest) == seq!['\0'] + rest,
        c != '@' ==> secondary_qmi::socket_name(seq![c] + rest) == seq![c] + rest,
        secondary_qmi::socket_name(Seq::empty()) == Seq::<char>::empty(),
{
    reveal_strlit("\0");
    assert("\0"@ =~= seq!['\0']);
    assert((seq!['@'] + rest).skip(1) =~= rest);
}

// ---------------------------------------------------------------------------------------------
// The initialization
// ---------------------------------------------------------------------------------------------
/// Where the initializer gets from a task on.
pub open spec fn led_to(task: InitTask, events: Seq<InitEvent>) -> InitTask
    decreases events.len(),
{
    if events.len() == 0 {
        task
    } else {
        led_to(secondary_qmi::following_task(task, events[0]), events.skip(1))
    }
}

proof fn lemma_led_on(task: InitTask, event: InitEvent, events: Seq<InitEvent>)
    ensures
        led_to(task, seq![event] + events) == led_to(
            secondary_qmi::following_task(task, event),
            events,
        ),
{
    let all = seq![event] + events;
    assert(all.skip(1) =~= events);
    assert(all[0] == event);
}

/// What comes of the tasks up to the binding of the device where all goes well: the driver is
/// loaded, the device is there, it has a `driver_override` node, which is written, the driver has a
/// `bind` node, and the device has a name.
pub open spec fn preparation() -> Seq<InitEvent> {
    seq![
        InitEvent::Done,
        InitEvent::Done,
        InitEvent::Present(true),
        InitEvent::Done,
        InitEvent::Present(true),
        InitEvent::Present(true),
    ]
}

/// Where all goes well the initializer comes to read the driver of the device.
pub proof fn law_preparation()
    ensures
        led_to(InitTask::LoadDriver, preparation()) == InitTask::ReadDriver,
{
    let e5 = seq![InitEvent::Present(true)];
    let e4 = seq![InitEvent::Present(true)] + e5;
    let e3 = seq![InitEvent::Done] + e4;
    let e2 = seq![InitEvent::Present(true)] + e3;
    let e1 = seq![InitEvent::Done] + e2;
    let e0 = seq![InitEvent::Done] + e1;
    assert(e0 =~= preparation());
    lemma_led_on(InitTask::LoadDriver, InitEvent::Done, e1);
    lemma_led_on(InitTask::FindDevice, InitEvent::Done, e2);
    lemma_led_on(InitTask::CheckOverride, InitEvent::Present(true), e3);
    lemma_led_on(InitTask::WriteOverride, InitEvent::Done, e4);
    lemma_led_on(InitTask::CheckBindNode, InitEvent::Present(true), e5);
    assert(e5 =~= seq![InitEvent::Present(true)] + Seq::<InitEvent>::empty());
    lemma_led_on(InitTask::CheckName, InitEvent::Present(true), Seq::empty());
}

/// A device that is bound to the driver is not bound again; any other one is.
pub proof fn law_binding(driver: Option<String>)
    ensures
        ({
            let next = secondary_qmi::following_task(
                InitTask::ReadDriver,
                InitEvent::Driver(driver),
            );
            &&& next is CreateDirectory <==> driver is Some && (driver->0)@ == "rpmsg_wwan_ctrl"@
            &&& next is Bind <==> !(driver is Some && (driver->0)@ == "rpmsg_wwan_ctrl"@)
        }),
        led_to(InitTask::Bind, seq![InitEvent::Done]) == InitTask::CreateDirectory,
{
    lemma_led_on(InitTask::Bind, InitEvent::Done, Seq::empty());
    assert(seq![InitEvent::Done] =~= seq![InitEvent::Done] + Seq::<InitEvent>::empty());
}

/// Once the device is bound, the state of an earlier run is removed, whether or not there is any,
/// and the endpoint is looked for until it is found; then it is published, announced and watched.
pub proof fn law_endpoint_found(removed: InitEvent, attempts: nat, device: String)
    requires
        removed is Done || removed is Failed,
    ensures
        led_to(InitTask::CreateDirectory, seq![InitEvent::Done, removed]) == InitTask::Probe,
        led_to(
            InitTask::Probe,
            waiting(attempts) + seq![
                InitEvent::Ready(device),
                InitEvent::Done,
                InitEvent::Done,
            ],
        ) == InitTask::Watch(device),
        led_to(InitTask::Probe, waiting(attempts) + seq![InitEvent::Ready(device)])
            == InitTask::Publish(device),
        led_to(InitTask::Probe, waiting(attempts) + seq![InitEvent::NotReady(true)])
            == InitTask::Fail(ImsError::EndpointNotReady),
    decreases attempts,
{
    let none = Seq::<InitEvent>::empty();
    lemma_led_on(InitTask::CreateDirectory, InitEvent::Done, seq![removed]);
    lemma_led_on(InitTask::RemoveState, removed, none);
    assert(seq![InitEvent::Done, removed] =~= seq![InitEvent::Done] + seq![removed]);
    assert(seq![removed] =~= seq![removed] + none);
    let found = seq![InitEvent::Ready(device), InitEvent::Done, InitEvent::Done];
    let seen = seq![InitEvent::Ready(device)];
    let over = seq![InitEvent::NotReady(true)];
    if attempts == 0 {
        assert(waiting(0) + found =~= seq![InitEvent::Ready(device)] + (seq![InitEvent::Done]
            + seq![InitEvent::Done]));
        lemma_led_on(
            InitTask::Probe,
            InitEvent::Ready(device),
            seq![InitEvent::Done] + seq![InitEvent::Done],
        );
        lemma_led_on(InitTask::Publish(device), InitEvent::Done, seq![InitEvent::Done]);
        lemma_led_on(InitTask::Announce(device), InitEvent::Done, none);
        assert(seq![InitEvent::Done] =~= seq![InitEvent::Done] + none);
        lemma_led_on(InitTask::Probe, InitEvent::Ready(device), none);
        assert(waiting(0) + seen =~= seen + none);
        lemma_led_on(InitTask::Probe, InitEvent::NotReady(true), none);
        assert(waiting(0) + over =~= over + none);
    } else {
        let fewer = (attempts - 1) as nat;
        law_endpoint_found(removed, fewer, device);
        lemma_one_more(fewer, found);
        lemma_one_more(fewer, seen);
        lemma_one_more(fewer, over);
    }
}

proof fn lemma_one_more(fewer: nat, end: Seq<InitEvent>)
    ensures
        led_to(InitTask::Probe, waiting(fewer + 1) + end) == led_to(
            InitTask::Probe,
            waiting(fewer) + end,
        ),
{
    let rest = waiting(fewer) + end;
    assert(waiting(fewer + 1) + end =~= seq![InitEvent::NotReady(false)] + (seq![InitEvent::Done]
        + rest));
    lemma_led_on(InitTask::Probe, InitEvent::NotReady(false), seq![InitEvent::Done] + rest);
    lemma_led_on(InitTask::Pause, InitEvent::Done, rest);
}

/// So many attempts that find no endpoint in time, with the pause after each.
pub open spec fn waiting(attempts: nat) -> Seq<InitEvent>
    decreases attempts,
{
    if attempts == 0 {
        Seq::empty()
    } else {
        seq![InitEvent::NotReady(false), InitEvent::Done] + waiting((attempts - 1) as nat)
    }
}

/// What is missing or goes wrong before the endpoint is watched ends the initialization, with the
/// error that was met or with the one that names what is missing.
pub proof fn law_initialization_fails(task: InitTask, e: ImsError)
    ensures
        task is LoadDriver || task is FindDevice || task is WriteOverride || task is Bind || task
            is CreateDirectory || task is Publish ==> secondary_qmi::following_task(
            task,
            InitEvent::Failed(e),
        ) == InitTask::Fail(e),
        task is CheckOverride ==> secondary_qmi::following_task(task, InitEvent::Present(false))
            == InitTask::Fail(ImsError::NoDriverOverride),
        task is CheckBindNode ==> secondary_qmi::following_task(task, InitEvent::Present(false))
            == InitTask::Fail(ImsError::NoBindNode),
        task is CheckName ==> secondary_qmi::following_task(task, InitEvent::Present(false))
            == InitTask::Fail(ImsError::InvalidDeviceName),
{
}

/// The files that name the endpoint and tell of its loss, and what the service manager is told.
pub proof fn law_initialization_names()
    ensures
        secondary_qmi::SECONDARY_DEVICE_STATE@ == "/run/simadmin/secondary-qmi-device"@,
        secondary_qmi::SECONDARY_ERROR_STATE@ == "/run/simadmin/secondary-qmi-error"@,
        secondary_qmi::READY_MESSAGE@ == "READY=1\nSTATUS=DATA6 secondary QMI ready"@,
{
}

/// The pauses and the time that the endpoint has to become ready.
pub proof fn law_initialization_times()
    ensures
        secondary_qmi::READY_TIMEOUT_SECONDS == 20,
        secondary_qmi::PROBE_PAUSE_MILLISECONDS == 250,
        secondary_qmi::WATCH_PAUSE_SECONDS == 5,
{
}

/// The event can be what came of the task.
pub open spec fn belongs(task: InitTask, event: InitEvent) -> bool {
    match task {
        InitTask::CheckOverride => event is Present,
        InitTask::CheckBindNode => event is Present,
        InitTask::CheckName => event is Present,
        InitTask::ReadDriver => event is Driver,
        InitTask::Probe => event is Ready || event is NotReady,
        InitTask::Pause => event is Done,
        InitTask::Announce(_) => event is Done,
        InitTask::Rest(_) => event is Done,
        InitTask::Watch(_) => event is Present || event is Replaced,
        InitTask::Fail(_) => false,
        _ => event is Done || event is Failed,
    }
}

/// An event that does not belong to the task leaves it to be done.
pub proof fn law_other_events_ignored(task: InitTask, event: InitEvent)
    requires
        !belongs(task, event),
    ensures
        secondary_qmi::following_task(task, event) == task,
{
}

} // verus!
