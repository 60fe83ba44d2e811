//! Laws of the secondary bearer: what is read from the output of `qmicli`, the commands that are
//! run and the course of a start.
use vstd::prelude::*;
use crate::bearer;
use crate::bearer::{StartEvent, StartTask};
use crate::error::ImsError;
use crate::ipv6;
use crate::number;
use crate::secondary_qmi;
use crate::text;
use crate::text_laws;
use crate::volte;
use crate::volte::{InterfaceTask, QmiBearerSettings};

verus! {

// ---------------------------------------------------------------------------------------------
// Reports
// ---------------------------------------------------------------------------------------------
/// Lines that can be told apart again.
pub open spec fn are_lines(lines: Seq<Seq<char>>, wide: Seq<bool>) -> bool {
    &&& lines.len() == wide.len()
    &&& forall|i: int| 0 <= i < lines.len() ==> !(#[trigger] lines[i]).contains('\n')
    &&& forall|i: int|
        0 <= i < lines.len() && !wide[i] && (#[trigger] lines[i]).len() > 0 ==> lines[i].last()
            != '\r'
}

proof fn lemma_report_lines(lines: Seq<Seq<char>>, wide: Seq<bool>)
    requires
        are_lines(lines, wide),
    ensures
        text::lines(text_laws::ended_lines(lines, wide)) == lines,
{
    let s = text_laws::ended_lines(lines, wide);
    text_laws::law_lines(lines, wide, Seq::empty());
    assert(s + Seq::<char>::empty() =~= s);
}

/// The value of a label is what follows it in the first line that begins with it, without the
/// white space around the value; a line with the label and no value gives none.
pub proof fn law_labelled_value(
    lines: Seq<Seq<char>>,
    wide: Seq<bool>,
    k: int,
    lead: Seq<char>,
    label: Seq<char>,
    gap: Seq<char>,
    value: Seq<char>,
    trail: Seq<char>,
)
    requires
        are_lines(lines, wide),
        0 <= k < lines.len(),
        forall|i: int| 0 <= i < k ==> !label.is_prefix_of(text::trim(#[trigger] lines[i])),
        lines[k] == lead + (label + gap + value) + trail,
        text_laws::is_white(lead),
        text_laws::is_white(gap),
        text_laws::is_white(trail),
        label.len() > 0,
        text_laws::is_bare(label),
        text_laws::is_bare(value),
        value.len() > 0 || gap.len() == 0,
    ensures
        volte::labelled_value(text_laws::ended_lines(lines, wide), label) == if value.len() > 0 {
            Some(value)
        } else {
            None
        },
{
    lemma_report_lines(lines, wide);
    let f = |line: Seq<char>| volte::after_label(line, label);
    assert forall|i: int| 0 <= i < k implies f(#[trigger] lines[i]) is None by {}
    let core = label + gap + value;
    assert(core[0] == label[0]);
    if value.len() > 0 {
        assert(core.last() == value.last());
    } else {
        assert(core =~= label);
    }
    text_laws::law_trim(lead, core, trail);
    assert(core.subrange(0, label.len() as int) =~= label);
    let rest = core.skip(label.len() as int);
    assert(rest =~= gap + value + Seq::<char>::empty());
    text_laws::law_trim(gap, value, Seq::empty());
    text_laws::law_find_map(lines, f, k);
}

/// A label that begins no line has no value.
pub proof fn law_label_missing(lines: Seq<Seq<char>>, wide: Seq<bool>, label: Seq<char>)
    requires
        are_lines(lines, wide),
        forall|i: int|
            0 <= i < lines.len() ==> !label.is_prefix_of(text::trim(#[trigger] lines[i])),
    ensures
        volte::labelled_value(text_laws::ended_lines(lines, wide), label) is None,
{
    lemma_report_lines(lines, wide);
    let f = |line: Seq<char>| volte::after_label(line, label);
    assert forall|i: int| 0 <= i < lines.len() implies f(#[trigger] lines[i]) is None by {}
    text_laws::law_find_map(lines, f, lines.len() as int);
}

/// The settings of the bearer: address and gateway from their labels, without the length of a
/// prefix, and the MTU where it is a number. There are none without both addresses.
pub proof fn law_settings_read(
    output: Seq<char>,
    address: Seq<char>,
    length: Option<Seq<char>>,
    gateway: Seq<char>,
    width: Option<Seq<char>>,
    mtu: nat,
)
    requires
        !address.contains('/'),
        !gateway.contains('/'),
        mtu <= u32::MAX,
    ensures
        ({
            let a = volte::labelled_value(output, "IPv6 address:"@);
            let g = volte::labelled_value(output, "IPv6 gateway address:"@);
            let m = volte::labelled_value(output, "MTU:"@);
            let settings = volte::bearer_settings(output);
            &&& a is None || g is None ==> settings is None
            &&& a == Some(with_length(address, length)) && g == Some(with_length(gateway, width))
                ==> ({
                &&& settings is Some
                &&& (settings->0).0 == address
                &&& (settings->0).1 == gateway
                &&& m == Some(number::decimal(mtu)) ==> (settings->0).2 == Some(mtu)
                &&& m is None ==> (settings->0).2 is None
                &&& m is Some && number::parse_unsigned(m->0, u32::MAX as nat) is None ==> (
                settings->0).2 is None
            })
        }),
{
    lemma_before_slash(address, length);
    lemma_before_slash(gateway, width);
    number::law_decimal_round_trip(mtu, u32::MAX as nat);
}

/// An address with the length of its prefix or without.
pub open spec fn with_length(address: Seq<char>, length: Option<Seq<char>>) -> Seq<char> {
    match length {
        Some(n) => address.push('/') + n,
        None => address,
    }
}

proof fn lemma_before_slash(address: Seq<char>, length: Option<Seq<char>>)
    requires
        !address.contains('/'),
    ensures
        volte::before_slash(with_length(address, length)) == address,
{
    match length {
        Some(n) => {
            text::lemma_split_first(address, '/', n);
            assert((address.push('/') + n).take(address.len() as int) =~= address);
        },
        None => {
            text::lemma_split_none(address, '/');
            assert(address.take(address.len() as int) =~= address);
        },
    }
}

/// A number of quotation marks.
pub open spec fn quotes(n: nat) -> Seq<char> {
    Seq::new(n, |i: int| '\'')
}

/// A line of the form `label: 'value'`, with white space around its parts; there may be more
/// quotation marks around the value, or none.
pub open spec fn is_quoted_line(
    line: Seq<char>,
    a: Seq<char>,
    label: Seq<char>,
    b: Seq<char>,
    c: Seq<char>,
    value: Seq<char>,
    d: Seq<char>,
    open: nat,
    close: nat,
) -> bool {
    &&& text_laws::is_white(a)
    &&& text_laws::is_white(b)
    &&& text_laws::is_white(c)
    &&& text_laws::is_white(d)
    &&& !label.contains(':')
    &&& text_laws::is_bare(label)
    &&& value.len() > 0 ==> value[0] != '\'' && value.last() != '\''
    &&& text_laws::is_bare(quotes(open) + value + quotes(close))
    &&& line == (a + label + b).push(':') + (c + (quotes(open) + value + quotes(close)) + d)
}

proof fn lemma_quoted_line(
    line: Seq<char>,
    a: Seq<char>,
    label: Seq<char>,
    b: Seq<char>,
    c: Seq<char>,
    value: Seq<char>,
    d: Seq<char>,
    open: nat,
    close: nat,
    wanted: Seq<char>,
)
    requires
        is_quoted_line(line, a, label, b, c, value, d, open, close),
    ensures
        volte::quoted_value(line, wanted) == if label == wanted {
            Some(value)
        } else {
            None
        },
{
    reveal_strlit("'");
    let set = "'"@;
    assert(set =~= seq!['\'']);
    assert(set[0] == '\'');
    let before = a + label + b;
    assert(!before.contains(':')) by {
        assert forall|i: int| 0 <= i < before.len() implies before[i] != ':' by {
            if i < a.len() {
                assert(before[i] == a[i] && text::is_white_space(a[i]));
            } else if i < a.len() + label.len() {
                assert(before[i] == label[i - a.len()]);
                assert(label.contains(label[i - a.len()]));
            } else {
                assert(before[i] == b[i - a.len() - label.len()]);
                assert(text::is_white_space(b[i - a.len() - label.len()]));
            }
        }
    }
    let core = quotes(open) + value + quotes(close);
    text_laws::law_split_once(before, ':', c + core + d);
    text_laws::law_trim(a, label, b);
    text_laws::law_trim(c, core, d);
    text_laws::law_trim_set(quotes(open), value, quotes(close), set);
}

/// The handle of a bearer is read from its line, whatever lines stand before it that tell none.
pub proof fn law_handle_read(
    lines: Seq<Seq<char>>,
    wide: Seq<bool>,
    k: int,
    a: Seq<char>,
    b: Seq<char>,
    c: Seq<char>,
    handle: Seq<char>,
    d: Seq<char>,
    open: nat,
    close: nat,
)
    requires
        are_lines(lines, wide),
        0 <= k < lines.len(),
        forall|i: int|
            0 <= i < k ==> ({
                let value = volte::quoted_value(#[trigger] lines[i], "Packet data handle"@);
                value is None || (value->0).len() == 0
            }),
        is_quoted_line(lines[k], a, "Packet data handle"@, b, c, handle, d, open, close),
        handle.len() > 0,
    ensures
        volte::packet_handle(text_laws::ended_lines(lines, wide)) == Some(handle),
{
    lemma_report_lines(lines, wide);
    let f = |line: Seq<char>| volte::handle_of_line(line);
    assert forall|i: int| 0 <= i < k implies f(#[trigger] lines[i]) is None by {}
    let label = "Packet data handle"@;
    lemma_quoted_line(lines[k], a, label, b, c, handle, d, open, close, label);
    text_laws::law_find_map(lines, f, k);
}

/// The word for a connection that is there.
pub open spec fn connected_word() -> Seq<char> {
    seq!['c', 'o', 'n', 'n', 'e', 'c', 't', 'e', 'd']
}

/// The word for a connection that is not there.
pub open spec fn disconnected_word() -> Seq<char> {
    seq!['d', 'i', 's'] + connected_word()
}

/// The line tells neither that there is a connection nor that there is none.
pub open spec fn tells_nothing(line: Seq<char>) -> bool {
    let value = volte::quoted_value(line, "Connection status"@);
    value is None || (value->0 != connected_word() && value->0 != disconnected_word())
}

/// The status of the connection is that of the first line that tells it.
pub proof fn law_status_reported(
    lines: Seq<Seq<char>>,
    wide: Seq<bool>,
    k: int,
    a: Seq<char>,
    b: Seq<char>,
    c: Seq<char>,
    connected: bool,
    d: Seq<char>,
    open: nat,
    close: nat,
)
    requires
        are_lines(lines, wide),
        0 <= k < lines.len(),
        forall|i: int| 0 <= i < k ==> tells_nothing(#[trigger] lines[i]),
        is_quoted_line(
            lines[k],
            a,
            "Connection status"@,
            b,
            c,
            if connected {
                connected_word()
            } else {
                disconnected_word()
            },
            d,
            open,
            close,
        ),
    ensures
        volte::connection_status(text_laws::ended_lines(lines, wide)) == Some(connected),
{
    let word = if connected {
        connected_word()
    } else {
        disconnected_word()
    };
    lemma_status_words();
    lemma_report_lines(lines, wide);
    let f = |line: Seq<char>| volte::status_of_line(line);
    let label = "Connection status"@;
    lemma_quoted_line(lines[k], a, label, b, c, word, d, open, close, label);
    assert forall|i: int| 0 <= i < k implies f(#[trigger] lines[i]) is None by {
        assert(tells_nothing(lines[i]));
    }
    text_laws::law_find_map(lines, f, k);
}

proof fn lemma_status_words()
    ensures
        "connected"@ == connected_word(),
        "disconnected"@ == disconnected_word(),
        connected_word() != disconnected_word(),
{
    reveal_strlit("connected");
    reveal_strlit("disconnected");
    assert("connected"@ =~= connected_word());
    assert("disconnected"@ =~= disconnected_word());
    assert(connected_word().len() != disconnected_word().len());
}

/// Where no line tells the status, none is reported.
pub proof fn law_status_unknown(lines: Seq<Seq<char>>, wide: Seq<bool>)
    requires
        are_lines(lines, wide),
        forall|i: int| 0 <= i < lines.len() ==> tells_nothing(#[trigger] lines[i]),
    ensures
        volte::connection_status(text_laws::ended_lines(lines, wide)) is None,
{
    lemma_status_words();
    lemma_report_lines(lines, wide);
    let f = |line: Seq<char>| volte::status_of_line(line);
    assert forall|i: int| 0 <= i < lines.len() implies f(#[trigger] lines[i]) is None by {
        assert(tells_nothing(lines[i]));
    }
    text_laws::law_find_map(lines, f, lines.len() as int);
}

/// Where no line tells a handle, none is reported.
pub proof fn law_handle_unknown(lines: Seq<Seq<char>>, wide: Seq<bool>)
    requires
        are_lines(lines, wide),
        forall|i: int|
            0 <= i < lines.len() ==> ({
                let value = volte::quoted_value(#[trigger] lines[i], "Packet data handle"@);
                value is None || (value->0).len() == 0
            }),
    ensures
        volte::packet_handle(text_laws::ended_lines(lines, wide)) is None,
{
    lemma_report_lines(lines, wide);
    let f = |line: Seq<char>| volte::handle_of_line(line);
    assert forall|i: int| 0 <= i < lines.len() implies f(#[trigger] lines[i]) is None by {
        let value = volte::quoted_value(lines[i], "Packet data handle"@);
        assert(value is None || (value->0).len() == 0);
    }
    text_laws::law_find_map(lines, f, lines.len() as int);
}

/// A line that is of this form with another label, or has no colon, does not tell the value.
pub proof fn law_other_label(
    line: Seq<char>,
    a: Seq<char>,
    label: Seq<char>,
    b: Seq<char>,
    c: Seq<char>,
    value: Seq<char>,
    d: Seq<char>,
    open: nat,
    close: nat,
    wanted: Seq<char>,
)
    ensures
        is_quoted_line(line, a, label, b, c, value, d, open, close) && label != wanted ==> volte::quoted_value(
            line,
            wanted,
        ) is None,
        !line.contains(':') ==> volte::quoted_value(line, wanted) is None,
{
    if is_quoted_line(line, a, label, b, c, value, d, open, close) {
        lemma_quoted_line(line, a, label, b, c, value, d, open, close, wanted);
    }
    if !line.contains(':') {
        text_laws::law_split_once(line, ':', Seq::empty());
    }
}

// ---------------------------------------------------------------------------------------------
// The interface
// ---------------------------------------------------------------------------------------------
/// The interface is the configured one, unless the setting is blank; without one the device of
/// the secondary endpoint has its own, and no other device has one.
pub proof fn law_interface_chosen(configured: Seq<char>, device: Seq<char>)
    ensures
        text::trim(configured).len() > 0 ==> volte::netdev_of(Some(configured), device)
            == configured,
        text::trim(configured).len() == 0 ==> volte::netdev_of(Some(configured), device)
            == volte::netdev_of(None, device),
        volte::netdev_of(None, seq!['/', 'd', 'e', 'v', '/', 'w', 'w', 'a', 'n', '0', 'a', 't', '2'])
            == seq!['w', 'w', 'a', 'n', '1'],
        device != seq!['/', 'd', 'e', 'v', '/', 'w', 'w', 'a', 'n', '0', 'a', 't', '2']
            ==> volte::netdev_of(None, device) == Seq::<char>::empty(),
{
    reveal_strlit("/dev/wwan0at2");
    reveal_strlit("wwan1");
    assert("/dev/wwan0at2"@ =~= seq![
        '/',
        'd',
        'e',
        'v',
        '/',
        'w',
        'w',
        'a',
        'n',
        '0',
        'a',
        't',
        '2',
    ]);
    assert("wwan1"@ =~= seq!['w', 'w', 'a', 'n', '1']);
}

/// The commands that set the interface up, in this order: the link is brought up; the address is
/// given to the interface with the prefix of a link; the P-CSCF alone is led through the gateway.
/// Each names the interface, and the addresses are read back from where they stand.
pub proof fn law_interface_written(
    netdev: Seq<char>,
    address: Seq<u16>,
    gateway: Seq<u16>,
    pcscf: Seq<u16>,
)
    requires
        address.len() == 8,
        gateway.len() == 8,
        pcscf.len() == 8,
    ensures
        ({
            let commands = volte::interface_arguments(netdev, address, gateway, pcscf);
            &&& commands.len() == 3
            &&& commands[0] == seq!["link"@, "set"@, "dev"@, netdev, "up"@]
            &&& commands[1].len() == 6
            &&& commands[1].take(3) == seq!["-6"@, "addr"@, "replace"@]
            &&& reads_as(commands[1][3], address, seq!['6', '4'])
            &&& commands[1].skip(4) == seq!["dev"@, netdev]
            &&& commands[2].len() == 8
            &&& commands[2].take(3) == seq!["-6"@, "route"@, "replace"@]
            &&& reads_as(commands[2][3], pcscf, seq!['1', '2', '8'])
            &&& commands[2][4] == "via"@
            &&& ipv6::parse_ipv6(commands[2][5]) == Some(gateway)
            &&& commands[2].skip(6) == seq!["dev"@, netdev]
        }),
{
    let commands = volte::interface_arguments(netdev, address, gateway, pcscf);
    reveal_strlit("/64");
    reveal_strlit("/128");
    assert("/64"@ =~= seq!['/'] + seq!['6', '4']);
    assert("/128"@ =~= seq!['/'] + seq!['1', '2', '8']);
    lemma_reads_as(address, seq!['6', '4']);
    lemma_reads_as(pcscf, seq!['1', '2', '8']);
    assert(ipv6::ipv6_text(address) + "/64"@ =~= ipv6::ipv6_text(address).push('/') + seq![
        '6',
        '4',
    ]);
    assert(ipv6::ipv6_text(pcscf) + "/128"@ =~= ipv6::ipv6_text(pcscf).push('/') + seq![
        '1',
        '2',
        '8',
    ]);
    ipv6::law_ipv6_round_trip(gateway);
    assert(commands[1].take(3) =~= seq!["-6"@, "addr"@, "replace"@]);
    assert(commands[1].skip(4) =~= seq!["dev"@, netdev]);
    assert(commands[2].take(3) =~= seq!["-6"@, "route"@, "replace"@]);
    assert(commands[2].skip(6) =~= seq!["dev"@, netdev]);
}

/// An interface is set up where it has a name and the bearer an address and a gateway; what is
/// missing first is reported. The first command is run first.
pub proof fn law_interface_begun(
    task: InterfaceTask,
    netdev: Seq<char>,
    settings: QmiBearerSettings,
    address: Seq<u16>,
    gateway: Seq<u16>,
    pcscf: Seq<u16>,
)
    requires
        volte::is_first_interface_task(task, netdev, settings, pcscf),
    ensures
        ({
            let a = ipv6::parse_ipv6(settings.ipv6_address@);
            let g = ipv6::parse_ipv6(settings.ipv6_gateway@);
            let named = text::trim(netdev).len() > 0;
            &&& !named <==> task == InterfaceTask::Failed(ImsError::MissingInterface)
            &&& named && a is None <==> task == InterfaceTask::Failed(
                ImsError::InvalidBearerAddress,
            )
            &&& named && a is Some && g is None <==> task == InterfaceTask::Failed(
                ImsError::InvalidBearerGateway,
            )
            &&& named && a == Some(address) && g == Some(gateway) ==> task is Run && task->Run_1
                == 0 && volte::commands_view(task->Run_0@) == volte::interface_arguments(
                netdev,
                address,
                gateway,
                pcscf,
            )
        }),
{
}

/// The text is an address and the length of a prefix.
pub open spec fn reads_as(s: Seq<char>, address: Seq<u16>, length: Seq<char>) -> bool {
    match text::split_once(s, '/') {
        Some((a, n)) => ipv6::parse_ipv6(a) == Some(address) && n == length,
        None => false,
    }
}

proof fn lemma_reads_as(address: Seq<u16>, length: Seq<char>)
    requires
        address.len() == 8,
    ensures
        reads_as(ipv6::ipv6_text(address).push('/') + length, address, length),
{
    let t = ipv6::ipv6_text(address);
    ipv6::law_ipv6_text_characters(address);
    ipv6::law_ipv6_round_trip(address);
    assert(!t.contains('/')) by {
        assert forall|i: int| 0 <= i < t.len() implies t[i] != '/' by {
            assert(ipv6::is_address_char(t[i]));
        }
    }
    text_laws::law_split_once(t, '/', length);
}

// ---------------------------------------------------------------------------------------------
// Commands
// ---------------------------------------------------------------------------------------------
/// Every command on the bearer names the device with `-d` and speaks QMI with it; the last argument
/// tells what is done: the bearer is started for the access point and for IPv6, or stopped by its
/// handle, or reported on. Only the start keeps the client.
pub proof fn law_bearer_commands(device: Seq<char>, apn: Seq<char>, handle: Seq<char>)
    ensures
        ({
            let start = bearer::start_arguments(device, apn);
            let settings = bearer::settings_arguments(device);
            let status = bearer::status_arguments(device);
            let stop = bearer::stop_arguments(device, handle);
            let head = seq!["-d"@, device, "--device-open-qmi"@];
            let raw = "--device-open-net=net-raw-ip|net-no-qos-header"@;
            &&& start == head + seq![raw, "--client-no-release-cid"@, start.last()]
            &&& start.last() == "--wds-start-network=apn="@ + apn + ",3gpp-profile=1,ip-type=6"@
            &&& settings == head + seq![raw, "--wds-get-current-settings"@]
            &&& status == head + seq!["--wds-get-packet-service-status"@]
            &&& stop == head + seq![raw, stop.last()]
            &&& stop.last() == "--wds-stop-network="@ + handle
            &&& secondary_qmi::ready_arguments(device) == head + seq![
                raw,
                "--get-service-version-info"@,
            ]
        }),
{
    let start = bearer::start_arguments(device, apn);
    let stop = bearer::stop_arguments(device, handle);
    let head = seq!["-d"@, device, "--device-open-qmi"@];
    let raw = "--device-open-net=net-raw-ip|net-no-qos-header"@;
    assert(start =~= head + seq![raw, "--client-no-release-cid"@, start.last()]);
    assert(bearer::settings_arguments(device) =~= head + seq![raw, "--wds-get-current-settings"@]);
    assert(bearer::status_arguments(device) =~= head + seq!["--wds-get-packet-service-status"@]);
    assert(stop =~= head + seq![raw, stop.last()]);
    assert(secondary_qmi::ready_arguments(device) =~= head + seq![
        raw,
        "--get-service-version-info"@,
    ]);
}

// ---------------------------------------------------------------------------------------------
// The start
// ---------------------------------------------------------------------------------------------
/// A bearer whose settings are read at the first attempt is ready, with its handle and just these
/// settings.
pub proof fn law_start_succeeds(
    device: Seq<char>,
    apn: Seq<char>,
    handle: String,
    settings: QmiBearerSettings,
)
    requires
        text::trim(device).len() > 0,
        text::trim(apn).len() > 0,
    ensures
        bearer::start_task_after(device, apn, Seq::empty()) == StartTask::Start,
        bearer::start_task_after(device, apn, seq![StartEvent::Started(Ok(handle))])
            == StartTask::ReadSettings(handle, 0),
        bearer::start_task_after(
            device,
            apn,
            seq![StartEvent::Started(Ok(handle)), StartEvent::Settings(Ok(settings))],
        ) == StartTask::Ready(handle, settings),
{
    let one = seq![StartEvent::Started(Ok(handle))];
    let two = seq![StartEvent::Started(Ok(handle)), StartEvent::Settings(Ok(settings))];
    assert(one.drop_last() =~= Seq::empty());
    assert(two.drop_last() =~= one);
    reveal_with_fuel(bearer::start_task_after, 3);
}

/// A start without a device or an access point, and one that fails, give their error and nothing
/// more is done.
pub proof fn law_start_fails(device: Seq<char>, apn: Seq<char>, e: ImsError, event: StartEvent)
    ensures
        text::trim(device).len() == 0 || text::trim(apn).len() == 0 ==> bearer::first_start_task(
            device,
            apn,
        ) == StartTask::Failed(ImsError::MissingDeviceOrApn),
        bearer::following_start_task(StartTask::Start, StartEvent::Started(Err(e)))
            == StartTask::Failed(e),
        bearer::following_start_task(StartTask::Failed(e), event) == StartTask::Failed(e),
{
}

/// The events of a start whose settings cannot be read: the attempt with index `k` fails with the
/// error `errors[k]`.
pub open spec fn failed_attempts(errors: Seq<ImsError>, n: int) -> Seq<StartEvent>
    decreases n,
{
    if n <= 0 {
        Seq::empty()
    } else {
        failed_attempts(errors, n - 1) + (if n == 1 {
            seq![StartEvent::Settings(Err(errors[0])), StartEvent::Over, StartEvent::Over]
        } else {
            seq![StartEvent::Settings(Err(errors[n - 1])), StartEvent::Over]
        })
    }
}

/// Where a start leads from a task on.
pub open spec fn led_to(task: StartTask, events: Seq<StartEvent>) -> StartTask
    decreases events.len(),
{
    if events.len() == 0 {
        task
    } else {
        bearer::following_start_task(led_to(task, events.drop_last()), events.last())
    }
}

proof fn lemma_led_further(task: StartTask, a: Seq<StartEvent>, b: Seq<StartEvent>)
    ensures
        led_to(task, a + b) == led_to(led_to(task, a), b),
    decreases b.len(),
{
    if b.len() == 0 {
        assert(a + b =~= a);
    } else {
        lemma_led_further(task, a, b.drop_last());
        assert((a + b).drop_last() =~= a + b.drop_last());
        assert((a + b).last() == b.last());
    }
}

/// The settings are tried five times. After the first failure the bearer is started once more,
/// after each there is a pause; with the fifth failure the bearer is stopped, and the error is the
/// last one.
pub proof fn law_settings_tried_five_times(handle: String, errors: Seq<ImsError>, n: int)
    requires
        1 <= n <= 5,
        errors.len() >= n,
    ensures
        bearer::following_start_task(
            StartTask::ReadSettings(handle, 0),
            StartEvent::Settings(Err(errors[0])),
        ) == StartTask::Restart(handle, errors[0]),
        bearer::following_start_task(StartTask::Restart(handle, errors[0]), StartEvent::Over)
            == StartTask::Pause(handle, 0, errors[0]),
        led_to(StartTask::ReadSettings(handle, 0), failed_attempts(errors, n)) == if n < 5 {
            StartTask::ReadSettings(handle, n as u32)
        } else {
            StartTask::Stop(handle, errors[4])
        },
        bearer::following_start_task(StartTask::Stop(handle, errors[n - 1]), StartEvent::Over)
            == StartTask::Failed(errors[n - 1]),
    decreases n,
{
    let task = StartTask::ReadSettings(handle, 0);
    let before = failed_attempts(errors, n - 1);
    let more = if n == 1 {
        seq![StartEvent::Settings(Err(errors[0])), StartEvent::Over, StartEvent::Over]
    } else {
        seq![StartEvent::Settings(Err(errors[n - 1])), StartEvent::Over]
    };
    lemma_led_further(task, before, more);
    if n > 1 {
        law_settings_tried_five_times(handle, errors, n - 1);
        assert(more.drop_last() =~= seq![more[0]]);
        assert(seq![more[0]].drop_last() =~= Seq::<StartEvent>::empty());
        reveal_with_fuel(led_to, 3);
    } else {
        assert(before =~= Seq::<StartEvent>::empty());
        let two = seq![more[0], more[1]];
        assert(more.drop_last() =~= two);
        assert(two.drop_last() =~= seq![more[0]]);
        assert(seq![more[0]].drop_last() =~= Seq::<StartEvent>::empty());
        reveal_with_fuel(led_to, 4);
    }
}

/// The time that commands may take, the pause between two readings of the settings and how often
/// they are read.
pub proof fn law_bearer_times()
    ensures
        bearer::CHANGE_TIMEOUT_SECONDS == 30,
        bearer::REPORT_TIMEOUT_SECONDS == 15,
        bearer::SETTINGS_PAUSE_SECONDS == 2,
        bearer::SETTINGS_ATTEMPTS == 5,
{
}

/// An event that does not belong to the task leaves it to be done, and what is ready or has failed
/// stays so.
pub proof fn law_other_events_ignored(task: StartTask, event: StartEvent)
    requires
        task is Start ==> !(event is Started),
        task is ReadSettings ==> !(event is Settings),
        task is Restart || task is Pause || task is Stop ==> !(event is Over),
    ensures
        bearer::following_start_task(task, event) == task,
{
}

} // verus!
