//! Native IMS/VoLTE runtime boundary.
//!
//! The runtime is kept separate from ModemManager's ordinary data and SMS paths. This module
//! holds the runtime snapshot, what `qmicli` reports of the secondary bearer and how the
//! interface of that bearer is set up.
use vstd::prelude::*;
use crate::command;
use crate::command::error_output_text;
use crate::error::ImsError;
use crate::ipv6;
use crate::ipv6::Ipv6Addr;
use crate::number;
use crate::number::read_unsigned;
use crate::secondary_qmi;
use crate::secondary_qmi::nonblank;
use crate::text;
use crate::text::{
    chars_of, find_char, is_text, lines_of, same_str, split_at_char, starts_with, string_of,
    trimmed, trimmed_set,
};
use vstd::slice::slice_subrange;

verus! {

/// The file that holds the runtime snapshot.
pub const RUNTIME_STATUS_PATH: &'static str = "/run/simadmin/volte-status.json";

/// The runtime snapshot.
#[derive(Debug, Clone, PartialEq, Eq)]
pub struct RuntimeStatus {
    pub phase: String,
    pub registered: bool,
    pub sms_ready: bool,
    pub transport: String,
    pub interface: String,
    pub last_error: String,
}

impl Default for RuntimeStatus {
    fn default() -> (s: RuntimeStatus)
        ensures
            s.phase@ == Seq::<char>::empty(),
            !s.registered,
            !s.sms_ready,
            s.transport@ == Seq::<char>::empty(),
            s.interface@ == Seq::<char>::empty(),
            s.last_error@ == Seq::<char>::empty(),
    {
        RuntimeStatus {
            phase: String::new(),
            registered: false,
            sms_ready: false,
            transport: String::new(),
            interface: String::new(),
            last_error: String::new(),
        }
    }
}

/// The addresses of the secondary bearer.
#[derive(Debug, Clone, PartialEq, Eq)]
pub struct QmiBearerSettings {
    pub ipv6_address: String,
    pub ipv6_gateway: String,
    pub mtu: Option<u32>,
}

// ---------------------------------------------------------------------------------------------
// The output of `qmicli`
// ---------------------------------------------------------------------------------------------
/// What follows the label in a line that begins with it.
pub open spec fn after_label(line: Seq<char>, label: Seq<char>) -> Option<Seq<char>> {
    let line = text::trim(line);
    if label.is_prefix_of(line) {
        Some(line.skip(label.len() as int))
    } else {
        None
    }
}

/// The value in the first line that begins with the label, unless it is blank.
pub open spec fn labelled_value(output: Seq<char>, label: Seq<char>) -> Option<Seq<char>> {
    match text::find_map(text::lines(output), |line: Seq<char>| after_label(line, label)) {
        Some(value) => if text::trim(value).len() > 0 {
            Some(text::trim(value))
        } else {
            None
        },
        None => None,
    }
}

/// What stands before the first slash.
pub open spec fn before_slash(value: Seq<char>) -> Seq<char> {
    value.take(text::find(value, '/'))
}

/// The address, the gateway and the MTU that the output reports, if it reports both addresses.
/// Prefix lengths are left out.
pub open spec fn bearer_settings(output: Seq<char>) -> Option<
    (Seq<char>, Seq<char>, Option<nat>),
> {
    match (
        labelled_value(output, "IPv6 address:"@),
        labelled_value(output, "IPv6 gateway address:"@),
    ) {
        (Some(address), Some(gateway)) => Some(
            (
                before_slash(address),
                before_slash(gateway),
                match labelled_value(output, "MTU:"@) {
                    Some(value) => number::parse_unsigned(value, u32::MAX as nat),
                    None => None,
                },
            ),
        ),
        _ => None,
    }
}

impl View for QmiBearerSettings {
    type V = (Seq<char>, Seq<char>, Option<nat>);

    open spec fn view(&self) -> (Seq<char>, Seq<char>, Option<nat>) {
        (
            self.ipv6_address@,
            self.ipv6_gateway@,
            match self.mtu {
                Some(mtu) => Some(mtu as nat),
                None => None,
            },
        )
    }
}

/// The value in the first line that begins with the label, unless it is blank.
fn read_labelled(lines: &Vec<&[char]>, output: &str, label: &str) -> (r: Option<Vec<char>>)
    requires
        text::pieces(lines@) == text::lines(output@),
    ensures
        match r {
            Some(value) => labelled_value(output@, label@) == Some(value@),
            None => labelled_value(output@, label@) is None,
        },
{
    let ghost all = text::pieces(lines@);
    let ghost f = |line: Seq<char>| after_label(line, label@);
    let mut i: usize = 0;
    assert(all.skip(0) =~= all);
    while i < lines.len()
        invariant
            i <= lines.len(),
            all == text::pieces(lines@),
            all == text::lines(output@),
            f == (|line: Seq<char>| after_label(line, label@)),
            text::find_map(all, f) == text::find_map(all.skip(i as int), f),
        decreases lines.len() - i,
    {
        proof {
            text::lemma_find_map_step(all, f, i as int);
            assert(all[i as int] == lines@[i as int]@);
        }
        let line = trimmed(lines[i]);
        if starts_with(line, label) {
            let n = chars_of(label).len();
            let rest = slice_subrange(line, n, line.len());
            assert(rest@ =~= line@.skip(n as int));
            let value = trimmed(rest);
            if value.len() > 0 {
                let copy = vstd::slice::slice_to_vec(value);
                assert(copy@ =~= value@);
                return Some(copy);
            }
            return None;
        }
        i += 1;
    }
    None
}

fn up_to_slash(value: &Vec<char>) -> (s: String)
    ensures
        s@ == before_slash(value@),
{
    let k = find_char(value, '/');
    let head = slice_subrange(value, 0, k);
    assert(head@ =~= before_slash(value@));
    string_of(head)
}

/// Parse the stable fields emitted by `qmicli --wds-get-current-settings`.
///
/// Localized labels and fields that the IMS path does not need are ignored.
pub fn parse_qmi_bearer_settings(output: &str) -> (r: Option<QmiBearerSettings>)
    ensures
        match r {
            Some(settings) => bearer_settings(output@) == Some(settings@),
            None => bearer_settings(output@) is None,
        },
{
    let chars = chars_of(output);
    let lines = lines_of(&chars);
    let address = match read_labelled(&lines, output, "IPv6 address:") {
        Some(value) => value,
        None => {
            return None;
        },
    };
    let gateway = match read_labelled(&lines, output, "IPv6 gateway address:") {
        Some(value) => value,
        None => {
            return None;
        },
    };
    let mtu: Option<u32> = match read_labelled(&lines, output, "MTU:") {
        Some(value) => read_unsigned(&value, u32::MAX),
        None => None,
    };
    Some(
        QmiBearerSettings {
            ipv6_address: up_to_slash(&address),
            ipv6_gateway: up_to_slash(&gateway),
            mtu,
        },
    )
}

/// The value of a line of the form `label: 'value'`, with the given label.
pub open spec fn quoted_value(line: Seq<char>, label: Seq<char>) -> Option<Seq<char>> {
    match text::split_once(line, ':') {
        Some((before, after)) => if text::trim(before) == label {
            Some(text::trim_set(text::trim(after), "'"@))
        } else {
            None
        },
        None => None,
    }
}

/// The value of a line of the form `label: 'value'`, with the given label.
fn read_quoted<'a>(line: &'a [char], label: &str) -> (r: Option<&'a [char]>)
    ensures
        match r {
            Some(value) => quoted_value(line@, label@) == Some(value@),
            None => quoted_value(line@, label@) is None,
        },
{
    match split_at_char(line, ':') {
        Some((before, after)) => if is_text(trimmed(before), label) {
            Some(trimmed_set(trimmed(after), "'"))
        } else {
            None
        },
        None => None,
    }
}

/// The packet data handle in a line.
pub open spec fn handle_of_line(line: Seq<char>) -> Option<Seq<char>> {
    match quoted_value(line, "Packet data handle"@) {
        Some(value) => if value.len() > 0 {
            Some(value)
        } else {
            None
        },
        None => None,
    }
}

/// The packet data handle that the output reports.
pub open spec fn packet_handle(output: Seq<char>) -> Option<Seq<char>> {
    text::find_map(text::lines(output), |line: Seq<char>| handle_of_line(line))
}

/// The packet data handle that the output of `qmicli` reports.
pub fn parse_qmi_packet_handle(output: &str) -> (r: Option<String>)
    ensures
        match r {
            Some(handle) => packet_handle(output@) == Some(handle@),
            None => packet_handle(output@) is None,
        },
{
    let chars = chars_of(output);
    let lines = lines_of(&chars);
    let ghost all = text::pieces(lines@);
    let ghost f = |line: Seq<char>| handle_of_line(line);
    let mut i: usize = 0;
    assert(all.skip(0) =~= all);
    while i < lines.len()
        invariant
            i <= lines.len(),
            all == text::pieces(lines@),
            all == text::lines(output@),
            f == (|line: Seq<char>| handle_of_line(line)),
            text::find_map(all, f) == text::find_map(all.skip(i as int), f),
        decreases lines.len() - i,
    {
        proof {
            text::lemma_find_map_step(all, f, i as int);
            assert(all[i as int] == lines@[i as int]@);
        }
        if let Some(value) = read_quoted(lines[i], "Packet data handle") {
            if value.len() > 0 {
                return Some(string_of(value));
            }
        }
        i += 1;
    }
    None
}

/// The connection status in a line: connected or not, where the line tells.
pub open spec fn status_of_line(line: Seq<char>) -> Option<bool> {
    match quoted_value(line, "Connection status"@) {
        Some(value) => if value == "connected"@ {
            Some(true)
        } else if value == "disconnected"@ {
            Some(false)
        } else {
            None
        },
        None => None,
    }
}

/// The connection status that the output reports.
pub open spec fn connection_status(output: Seq<char>) -> Option<bool> {
    text::find_map(text::lines(output), |line: Seq<char>| status_of_line(line))
}

/// The connection status that the output of `qmicli` reports.
pub fn parse_qmi_connection_status(output: &str) -> (r: Option<bool>)
    ensures
        r == connection_status(output@),
{
    let chars = chars_of(output);
    let lines = lines_of(&chars);
    let ghost all = text::pieces(lines@);
    let ghost f = |line: Seq<char>| status_of_line(line);
    let mut i: usize = 0;
    assert(all.skip(0) =~= all);
    while i < lines.len()
        invariant
            i <= lines.len(),
            all == text::pieces(lines@),
            all == text::lines(output@),
            f == (|line: Seq<char>| status_of_line(line)),
            text::find_map(all, f) == text::find_map(all.skip(i as int), f),
        decreases lines.len() - i,
    {
        proof {
            text::lemma_find_map_step(all, f, i as int);
            assert(all[i as int] == lines@[i as int]@);
        }
        if let Some(value) = read_quoted(lines[i], "Connection status") {
            if is_text(value, "connected") {
                return Some(true);
            }
            if is_text(value, "disconnected") {
                return Some(false);
            }
        }
        i += 1;
    }
    None
}

// ---------------------------------------------------------------------------------------------
// The interface of the bearer
// ---------------------------------------------------------------------------------------------
/// The network interface of the secondary bearer: the configured one, or else the one that
/// belongs to the device; empty where none is known.
pub open spec fn netdev_of(configured: Option<Seq<char>>, qmi_device: Seq<char>) -> Seq<char> {
    if secondary_qmi::is_set(configured) {
        configured->0
    } else if qmi_device == "/dev/wwan0at2"@ {
        "wwan1"@
    } else {
        Seq::empty()
    }
}

/// The network interface of the secondary bearer, given the setting for it.
pub fn secondary_netdev(configured: Option<String>, qmi_device: &str) -> (s: String)
    ensures
        s@ == netdev_of(secondary_qmi::text_view(configured), qmi_device@),
{
    if let Some(value) = nonblank(configured) {
        return value;
    }
    if same_str(qmi_device, "/dev/wwan0at2") {
        "wwan1".to_owned()
    } else {
        String::new()
    }
}

/// The commands for `ip` that bring the interface up, give it its address and lead the P-CSCF
/// through the gateway.
pub open spec fn interface_arguments(
    netdev: Seq<char>,
    address: Seq<u16>,
    gateway: Seq<u16>,
    pcscf: Seq<u16>,
) -> Seq<Seq<Seq<char>>> {
    seq![
        seq!["link"@, "set"@, "dev"@, netdev, "up"@],
        seq!["-6"@, "addr"@, "replace"@, ipv6::ipv6_text(address) + "/64"@, "dev"@, netdev],
        seq![
            "-6"@,
            "route"@,
            "replace"@,
            ipv6::ipv6_text(pcscf) + "/128"@,
            "via"@,
            ipv6::ipv6_text(gateway),
            "dev"@,
            netdev,
        ],
    ]
}

/// The texts of a list of commands.
pub open spec fn commands_view(v: Seq<Vec<String>>) -> Seq<Seq<Seq<char>>> {
    v.map_values(|arguments: Vec<String>| text::texts(arguments@))
}

fn link_command(netdev: &str) -> (v: Vec<String>)
    ensures
        text::texts(v@) == seq!["link"@, "set"@, "dev"@, netdev@, "up"@],
{
    let mut v: Vec<String> = Vec::new();
    v.push("link".to_owned());
    v.push("set".to_owned());
    v.push("dev".to_owned());
    v.push(netdev.to_owned());
    v.push("up".to_owned());
    assert(text::texts(v@) =~= seq!["link"@, "set"@, "dev"@, netdev@, "up"@]);
    v
}

fn address_command(netdev: &str, address: Ipv6Addr) -> (v: Vec<String>)
    ensures
        text::texts(v@) == seq![
            "-6"@,
            "addr"@,
            "replace"@,
            ipv6::ipv6_text(address@) + "/64"@,
            "dev"@,
            netdev@,
        ],
{
    let mut prefix = address.to_text();
    prefix.append("/64");
    let mut v: Vec<String> = Vec::new();
    v.push("-6".to_owned());
    v.push("addr".to_owned());
    v.push("replace".to_owned());
    v.push(prefix);
    v.push("dev".to_owned());
    v.push(netdev.to_owned());
    assert(text::texts(v@) =~= seq![
        "-6"@,
        "addr"@,
        "replace"@,
        ipv6::ipv6_text(address@) + "/64"@,
        "dev"@,
        netdev@,
    ]);
    v
}

fn route_command(netdev: &str, gateway: Ipv6Addr, pcscf: Ipv6Addr) -> (v: Vec<String>)
    ensures
        text::texts(v@) == seq![
            "-6"@,
            "route"@,
            "replace"@,
            ipv6::ipv6_text(pcscf@) + "/128"@,
            "via"@,
            ipv6::ipv6_text(gateway@),
            "dev"@,
            netdev@,
        ],
{
    let mut target = pcscf.to_text();
    target.append("/128");
    let mut v: Vec<String> = Vec::new();
    v.push("-6".to_owned());
    v.push("route".to_owned());
    v.push("replace".to_owned());
    v.push(target);
    v.push("via".to_owned());
    v.push(gateway.to_text());
    v.push("dev".to_owned());
    v.push(netdev.to_owned());
    assert(text::texts(v@) =~= seq![
        "-6"@,
        "route"@,
        "replace"@,
        ipv6::ipv6_text(pcscf@) + "/128"@,
        "via"@,
        ipv6::ipv6_text(gateway@),
        "dev"@,
        netdev@,
    ]);
    v
}

/// What stands in the way of setting the interface up.
pub open spec fn interface_defect(netdev: Seq<char>, settings: QmiBearerSettings) -> Option<
    ImsError,
> {
    if text::trim(netdev).len() == 0 {
        Some(ImsError::MissingInterface)
    } else if ipv6::parse_ipv6(settings.ipv6_address@) is None {
        Some(ImsError::InvalidBearerAddress)
    } else if ipv6::parse_ipv6(settings.ipv6_gateway@) is None {
        Some(ImsError::InvalidBearerGateway)
    } else {
        None
    }
}

/// The commands for `ip` that set the interface of the bearer up.
pub fn interface_commands(netdev: &str, settings: &QmiBearerSettings, pcscf: Ipv6Addr) -> (r: Result<
    Vec<Vec<String>>,
    ImsError,
>)
    ensures
        match r {
            Ok(v) => {
                &&& interface_defect(netdev@, *settings) is None
                &&& commands_view(v@) == interface_arguments(
                    netdev@,
                    ipv6::parse_ipv6(settings.ipv6_address@)->0,
                    ipv6::parse_ipv6(settings.ipv6_gateway@)->0,
                    pcscf@,
                )
            },
            Err(e) => interface_defect(netdev@, *settings) == Some(e),
        },
{
    let name = chars_of(netdev);
    if trimmed(&name).len() == 0 {
        return Err(ImsError::MissingInterface);
    }
    let address = match Ipv6Addr::parse(&settings.ipv6_address) {
        Some(address) => address,
        None => {
            return Err(ImsError::InvalidBearerAddress);
        },
    };
    let gateway = match Ipv6Addr::parse(&settings.ipv6_gateway) {
        Some(gateway) => gateway,
        None => {
            return Err(ImsError::InvalidBearerGateway);
        },
    };
    let mut v: Vec<Vec<String>> = Vec::new();
    v.push(link_command(netdev));
    v.push(address_command(netdev, address));
    v.push(route_command(netdev, gateway, pcscf));
    assert(commands_view(v@) =~= interface_arguments(netdev@, address@, gateway@, pcscf@));
    Ok(v)
}

/// How one of these commands ended.
pub fn interface_outcome(success: bool, stderr: &[u8]) -> (r: Result<(), ImsError>)
    ensures
        match r {
            Ok(_) => success,
            Err(e) => !success && e is InterfaceNotConfigured && e->InterfaceNotConfigured_0@
                == command::error_output(stderr@),
        },
{
    if success {
        Ok(())
    } else {
        Err(ImsError::InterfaceNotConfigured(error_output_text(stderr)))
    }
}

/// What is done next to set the interface up.
#[derive(Debug, PartialEq, Eq)]
pub enum InterfaceTask {
    /// Run the command with the given index, counted from zero, of these commands.
    Run(Vec<Vec<String>>, usize),
    /// The interface is set up.
    Done,
    /// The interface is not set up.
    Failed(ImsError),
}

/// The first task: the first of the commands, unless something stands in the way.
pub open spec fn is_first_interface_task(
    task: InterfaceTask,
    netdev: Seq<char>,
    settings: QmiBearerSettings,
    pcscf: Seq<u16>,
) -> bool {
    match interface_defect(netdev, settings) {
        Some(e) => task == InterfaceTask::Failed(e),
        None => {
            &&& task is Run
            &&& task->Run_1 == 0
            &&& commands_view(task->Run_0@) == interface_arguments(
                netdev,
                ipv6::parse_ipv6(settings.ipv6_address@)->0,
                ipv6::parse_ipv6(settings.ipv6_gateway@)->0,
                pcscf,
            )
        },
    }
}

/// The task that follows when the command has ended: the next command after a success, as long as
/// there is one, and nothing after a failure.
pub open spec fn following_interface_task(
    task: InterfaceTask,
    outcome: Result<(), ImsError>,
) -> InterfaceTask {
    match (task, outcome) {
        (InterfaceTask::Run(commands, index), Ok(_)) => if index + 1 < commands@.len() {
            InterfaceTask::Run(commands, (index + 1) as usize)
        } else {
            InterfaceTask::Done
        },
        (InterfaceTask::Run(_, _), Err(e)) => InterfaceTask::Failed(e),
        (_, _) => task,
    }
}

/// The first task.
pub fn begin_interface(netdev: &str, settings: &QmiBearerSettings, pcscf: Ipv6Addr) -> (task:
    InterfaceTask)
    ensures
        is_first_interface_task(task, netdev@, *settings, pcscf@),
{
    match interface_commands(netdev, settings, pcscf) {
        Ok(commands) => InterfaceTask::Run(commands, 0),
        Err(e) => InterfaceTask::Failed(e),
    }
}

/// The command that a task runs, if it runs one.
pub fn command_to_run(task: &InterfaceTask) -> (r: Option<&Vec<String>>)
    ensures
        match *task {
            InterfaceTask::Run(commands, index) => if index < commands@.len() {
                r == Some(&commands@[index as int])
            } else {
                r is None
            },
            _ => r is None,
        },
{
    match task {
        InterfaceTask::Run(commands, index) => if *index < commands.len() {
            Some(&commands[*index])
        } else {
            None
        },
        _ => None,
    }
}

/// The task that follows when the command has ended.
pub fn next_interface_task(task: InterfaceTask, outcome: Result<(), ImsError>) -> (r: InterfaceTask)
    ensures
        r == following_interface_task(task, outcome),
{
    match (task, outcome) {
        (InterfaceTask::Run(commands, index), Ok(_)) => {
            let n = commands.len();
            if index < n && n - index > 1 {
                InterfaceTask::Run(commands, index + 1)
            } else {
                InterfaceTask::Done
            }
        },
        (InterfaceTask::Run(_, _), Err(e)) => InterfaceTask::Failed(e),
        (task, _) => task,
    }
}

/// The task that has been come to after commands have ended, from the first of them on.
pub open spec fn interface_task_after(
    commands: Vec<Vec<String>>,
    outcomes: Seq<Result<(), ImsError>>,
) -> InterfaceTask
    decreases outcomes.len(),
{
    if outcomes.len() == 0 {
        InterfaceTask::Run(commands, 0)
    } else {
        following_interface_task(
            interface_task_after(commands, outcomes.drop_last()),
            outcomes.last(),
        )
    }
}

/// The commands are run in their order: while all have succeeded, the next one is run, and the
/// interface is set up when the last of them has succeeded.
pub proof fn law_commands_in_order(
    commands: Vec<Vec<String>>,
    outcomes: Seq<Result<(), ImsError>>,
)
    requires
        commands@.len() > 0,
        forall|i: int| 0 <= i < outcomes.len() ==> (#[trigger] outcomes[i]) is Ok,
    ensures
        interface_task_after(commands, outcomes) == if outcomes.len() < commands@.len() {
            InterfaceTask::Run(commands, outcomes.len() as usize)
        } else {
            InterfaceTask::Done
        },
    decreases outcomes.len(),
{
    if outcomes.len() > 0 {
        let before = outcomes.drop_last();
        assert forall|i: int| 0 <= i < before.len() implies (#[trigger] before[i]) is Ok by {
            assert(before[i] == outcomes[i]);
        }
        law_commands_in_order(commands, before);
        assert(outcomes[outcomes.len() - 1] is Ok);
        lemma_vec_length(&commands);
    }
}

proof fn lemma_vec_length(commands: &Vec<Vec<String>>)
    ensures
        commands@.len() <= usize::MAX,
{
    assert(commands@.len() == commands.len());
}

/// Nothing is run after a failure: the first command that fails decides, with its error, whatever
/// is said to have come after it.
pub proof fn law_nothing_after_failure(
    commands: Vec<Vec<String>>,
    outcomes: Seq<Result<(), ImsError>>,
    k: int,
)
    requires
        0 <= k < outcomes.len(),
        k < commands@.len(),
        forall|i: int| 0 <= i < k ==> (#[trigger] outcomes[i]) is Ok,
        outcomes[k] is Err,
    ensures
        interface_task_after(commands, outcomes) == InterfaceTask::Failed(outcomes[k]->Err_0),
    decreases outcomes.len(),
{
    let before = outcomes.drop_last();
    assert forall|i: int| 0 <= i < k implies (#[trigger] before[i]) is Ok by {
        assert(before[i] == outcomes[i]);
    }
    if k == outcomes.len() - 1 {
        law_commands_in_order(commands, before);
    } else {
        assert(before[k] == outcomes[k]);
        law_nothing_after_failure(commands, before, k);
    }
}

/// The interface is set up exactly if every command has succeeded.
pub proof fn law_set_up_when_all_succeed(
    commands: Vec<Vec<String>>,
    outcomes: Seq<Result<(), ImsError>>,
)
    requires
        commands@.len() > 0,
    ensures
        interface_task_after(commands, outcomes) is Done <==> (outcomes.len() >= commands@.len()
            && forall|i: int| 0 <= i < commands@.len() ==> (#[trigger] outcomes[i]) is Ok),
    decreases outcomes.len(),
{
    if outcomes.len() > 0 {
        let before = outcomes.drop_last();
        law_set_up_when_all_succeed(commands, before);
        if outcomes.len() > commands@.len() {
            lemma_run_index(commands, before);
            assert(forall|i: int| 0 <= i < commands@.len() ==> outcomes[i] == #[trigger] before[i]);
            assert(forall|i: int| 0 <= i < commands@.len() ==> before[i] == #[trigger] outcomes[i]);
        } else if forall|i: int| 0 <= i < outcomes.len() ==> (#[trigger] outcomes[i]) is Ok {
            law_commands_in_order(commands, outcomes);
            lemma_vec_length(&commands);
        } else {
            let k = lemma_first_failure(outcomes);
            law_nothing_after_failure(commands, outcomes, k);
            assert(!(outcomes[k] is Ok));
        }
    }
}

/// An interface that can be set up takes three commands, and it is set up exactly if the three
/// have succeeded.
pub proof fn law_three_commands(
    commands: Vec<Vec<String>>,
    netdev: Seq<char>,
    settings: QmiBearerSettings,
    pcscf: Seq<u16>,
    outcomes: Seq<Result<(), ImsError>>,
)
    requires
        is_first_interface_task(InterfaceTask::Run(commands, 0), netdev, settings, pcscf),
    ensures
        commands@.len() == 3,
        interface_task_after(commands, outcomes) is Done <==> outcomes.len() >= 3
            && outcomes[0] is Ok && outcomes[1] is Ok && outcomes[2] is Ok,
{
    assert(commands_view(commands@).len() == 3);
    law_set_up_when_all_succeed(commands, outcomes);
}

proof fn lemma_first_failure(outcomes: Seq<Result<(), ImsError>>) -> (k: int)
    requires
        !(forall|i: int| 0 <= i < outcomes.len() ==> (#[trigger] outcomes[i]) is Ok),
    ensures
        0 <= k < outcomes.len(),
        outcomes[k] is Err,
        forall|i: int| 0 <= i < k ==> (#[trigger] outcomes[i]) is Ok,
    decreases outcomes.len(),
{
    let before = outcomes.drop_last();
    if forall|i: int| 0 <= i < before.len() ==> (#[trigger] before[i]) is Ok {
        assert forall|i: int| 0 <= i < outcomes.len() - 1 implies (#[trigger] outcomes[i]) is Ok by {
            assert(before[i] == outcomes[i]);
        }
        outcomes.len() - 1
    } else {
        let k = lemma_first_failure(before);
        assert(before[k] == outcomes[k]);
        assert forall|i: int| 0 <= i < k implies (#[trigger] outcomes[i]) is Ok by {
            assert(before[i] == outcomes[i]);
        }
        k
    }
}

/// A command is left to run only while fewer have ended than there are.
proof fn lemma_run_index(commands: Vec<Vec<String>>, outcomes: Seq<Result<(), ImsError>>)
    requires
        commands@.len() > 0,
    ensures
        interface_task_after(commands, outcomes) is Run ==> interface_task_after(commands, outcomes)
            == InterfaceTask::Run(commands, outcomes.len() as usize) && outcomes.len()
            < commands@.len(),
    decreases outcomes.len(),
{
    if outcomes.len() > 0 {
        lemma_run_index(commands, outcomes.drop_last());
        lemma_vec_length(&commands);
    }
}

} // verus!
