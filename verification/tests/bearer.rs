use simadmin_ims::bearer::{
    begin_start, command_output, next_start_task, settings_command, settings_outcome,
    start_command, start_outcome, status_command, status_outcome, stop_command, stop_outcome,
    CommandEnd, StartEvent, StartTask,
};
use simadmin_ims::error::{BearerCommand, ImsError};
use simadmin_ims::volte::QmiBearerSettings;

fn ended(success: bool, stdout: &str, stderr: &str) -> CommandEnd {
    CommandEnd::Ended {
        success,
        stdout: stdout.as_bytes().to_vec(),
        stderr: stderr.as_bytes().to_vec(),
    }
}

fn settings() -> QmiBearerSettings {
    QmiBearerSettings {
        ipv6_address: "2001:db8::10".to_string(),
        ipv6_gateway: "2001:db8::1".to_string(),
        mtu: None,
    }
}

#[test]
fn writes_the_commands_exactly() {
    assert_eq!(
        start_command("/dev/wwan0at2", "ims").unwrap(),
        vec![
            "-d",
            "/dev/wwan0at2",
            "--device-open-qmi",
            "--device-open-net=net-raw-ip|net-no-qos-header",
            "--client-no-release-cid",
            "--wds-start-network=apn=ims,3gpp-profile=1,ip-type=6",
        ]
    );
    assert_eq!(
        settings_command("d"),
        vec![
            "-d",
            "d",
            "--device-open-qmi",
            "--device-open-net=net-raw-ip|net-no-qos-header",
            "--wds-get-current-settings",
        ]
    );
    assert_eq!(
        status_command("d"),
        vec!["-d", "d", "--device-open-qmi", "--wds-get-packet-service-status"]
    );
    assert_eq!(
        stop_command("d", "42").unwrap(),
        vec![
            "-d",
            "d",
            "--device-open-qmi",
            "--device-open-net=net-raw-ip|net-no-qos-header",
            "--wds-stop-network=42",
        ]
    );
}

#[test]
fn needs_a_device_and_an_access_point_or_a_handle() {
    assert_eq!(start_command(" ", "ims"), Err(ImsError::MissingDeviceOrApn));
    assert_eq!(start_command("d", ""), Err(ImsError::MissingDeviceOrApn));
    assert_eq!(
        stop_command("", "42"),
        Err(ImsError::MissingDeviceOrHandle)
    );
    assert_eq!(
        stop_command("d", "\t"),
        Err(ImsError::MissingDeviceOrHandle)
    );
}

#[test]
fn tells_how_a_command_ended() {
    assert_eq!(
        command_output(BearerCommand::Start, CommandEnd::TimedOut)
            .unwrap_err()
            .message(),
        "timed out starting secondary IMS bearer"
    );
    assert_eq!(
        command_output(
            BearerCommand::ReadStatus,
            CommandEnd::NotRun("no qmicli".to_string())
        ),
        Err(ImsError::System("no qmicli".to_string()))
    );
    assert_eq!(
        stop_outcome(ended(false, "", " error: no device \n"))
            .unwrap_err()
            .message(),
        "qmicli failed to stop secondary IMS bearer: error: no device"
    );
    assert_eq!(stop_outcome(ended(true, "", "")), Ok(()));
    let broken = CommandEnd::Ended {
        success: true,
        stdout: vec![b'a', 0xff],
        stderr: Vec::new(),
    };
    assert_eq!(
        command_output(BearerCommand::Stop, broken),
        Ok("a\u{fffd}".to_string())
    );
}

#[test]
fn reads_what_the_commands_report() {
    assert_eq!(
        start_outcome(ended(true, "Packet data handle: '42'", "")),
        Ok("42".to_string())
    );
    assert_eq!(
        start_outcome(ended(true, "", "")),
        Err(ImsError::NoPacketHandle)
    );
    assert_eq!(
        settings_outcome(ended(
            true,
            "IPv6 address: 2001:db8::10/64\nIPv6 gateway address: 2001:db8::1/64",
            ""
        )),
        Ok(settings())
    );
    assert_eq!(
        settings_outcome(ended(true, "", "")),
        Err(ImsError::NoIpv6Settings)
    );
    assert_eq!(
        settings_outcome(ended(false, "", "x")).unwrap_err().message(),
        "qmicli failed to read secondary IMS bearer settings: x"
    );
    assert_eq!(
        status_outcome(ended(true, "Connection status: 'disconnected'", "")),
        Ok(false)
    );
    assert_eq!(
        status_outcome(ended(true, "", "")),
        Err(ImsError::UnknownBearerStatus)
    );
}

#[test]
fn starts_a_bearer_at_once() {
    let task = begin_start("d", "ims");
    assert_eq!(task, StartTask::Start);
    let task = next_start_task(task, StartEvent::Started(Ok("42".to_string())));
    assert_eq!(task, StartTask::ReadSettings("42".to_string(), 0));
    let task = next_start_task(task, StartEvent::Settings(Ok(settings())));
    assert_eq!(task, StartTask::Ready("42".to_string(), settings()));
}

#[test]
fn tries_the_settings_five_times_and_restarts_once() {
    let error = |n: u32| ImsError::System(format!("attempt {n}"));
    let mut task = StartTask::Start;
    task = next_start_task(task, StartEvent::Started(Ok("42".to_string())));
    for n in 0..5u32 {
        assert_eq!(task, StartTask::ReadSettings("42".to_string(), n));
        task = next_start_task(task, StartEvent::Settings(Err(error(n))));
        if n == 0 {
            assert_eq!(task, StartTask::Restart("42".to_string(), error(0)));
            task = next_start_task(task, StartEvent::Over);
        }
        assert_eq!(task, StartTask::Pause("42".to_string(), n, error(n)));
        task = next_start_task(task, StartEvent::Over);
    }
    assert_eq!(task, StartTask::Stop("42".to_string(), error(4)));
    task = next_start_task(task, StartEvent::Over);
    assert_eq!(task, StartTask::Failed(error(4)));
    task = next_start_task(task, StartEvent::Over);
    assert_eq!(task, StartTask::Failed(error(4)));
}

#[test]
fn starts_nothing_without_a_device_or_where_the_start_fails() {
    assert_eq!(
        begin_start("", "ims"),
        StartTask::Failed(ImsError::MissingDeviceOrApn)
    );
    assert_eq!(
        next_start_task(
            StartTask::Start,
            StartEvent::Started(Err(ImsError::NoPacketHandle))
        ),
        StartTask::Failed(ImsError::NoPacketHandle)
    );
}
