use simadmin_ims::error::ImsError;
use simadmin_ims::ipv6::Ipv6Addr;
use simadmin_ims::supervisor::{
    check_aid, secondary_device, select_command, Attempt, Effect, Event, Query, Supervisor,
};
use simadmin_ims::volte::{QmiBearerSettings, RuntimeStatus};

type Effects = Vec<Effect<String, Ipv6Addr, RuntimeStatus>>;

fn settings() -> QmiBearerSettings {
    QmiBearerSettings {
        ipv6_address: "2001:db8::10".to_string(),
        ipv6_gateway: "2001:db8::1".to_string(),
        mtu: None,
    }
}

fn attempt(sms_enabled: bool) -> Attempt<String> {
    Attempt {
        sms_enabled,
        netdev: "wwan1".to_string(),
        settings: settings(),
    }
}

fn status(phase: &str, transport: &str, interface: &str, last_error: &str) -> Effects {
    vec![Effect::WriteStatus(RuntimeStatus {
        phase: phase.to_string(),
        transport: transport.to_string(),
        interface: interface.to_string(),
        last_error: last_error.to_string(),
        ..RuntimeStatus::default()
    })]
}

fn joined(lists: Vec<Effects>) -> Effects {
    lists.into_iter().flatten().collect()
}

fn stop() -> Effects {
    vec![Effect::StopBearer(
        "/dev/wwan0at2".to_string(),
        "42".to_string(),
    )]
}

fn enabled(sms_enabled: bool) -> Event {
    Event::Config {
        feature_enabled: true,
        sms_enabled,
    }
}

fn disabled() -> Event {
    Event::Config {
        feature_enabled: false,
        sms_enabled: true,
    }
}

/// A supervisor that has started a bearer.
fn started(sms_enabled: bool) -> Supervisor {
    let mut supervisor = Supervisor::new();
    assert_eq!(supervisor.step(enabled(sms_enabled)), vec![]);
    assert_eq!(supervisor.query(), &Query::ReadDevice(sms_enabled));
    assert_eq!(
        supervisor.step(Event::Device {
            configured: None,
            published: Some("/dev/wwan0at2\n".to_string()),
            netdev: None,
        }),
        status("starting_ims_bearer", "native_qmi", "wwan1", "")
    );
    assert_eq!(
        supervisor.query(),
        &Query::StartBearer(
            sms_enabled,
            "/dev/wwan0at2".to_string(),
            "wwan1".to_string()
        )
    );
    assert_eq!(
        supervisor.step(Event::Started(Ok(("42".to_string(), settings())))),
        status("usim_aid_selecting", "native_qmi", "", "")
    );
    assert_eq!(supervisor.query(), &Query::FindModem(attempt(sms_enabled)));
    supervisor
}

/// A supervisor that is about to register.
fn registering(sms_enabled: bool) -> Supervisor {
    let mut supervisor = started(sms_enabled);
    assert_eq!(supervisor.step(Event::Modem(Ok(()))), vec![]);
    assert_eq!(
        supervisor.query(),
        &Query::SelectUsim(attempt(sms_enabled), select_command())
    );
    let aid = "+CSIM: 22,\"62098407A0000000871002\"".to_string();
    assert_eq!(supervisor.step(Event::Answer(Ok(aid))), vec![]);
    assert_eq!(
        supervisor.query(),
        &Query::FindModemAgain(attempt(sms_enabled))
    );
    assert_eq!(supervisor.step(Event::Modem(Ok(()))), vec![]);
    assert_eq!(supervisor.query(), &Query::QueryPcscf(attempt(sms_enabled)));
    let pcscf = "+CGCONTRDP: 1,2,3,4,5,6,7,8,2001:db8::5".to_string();
    assert_eq!(
        supervisor.step(Event::Answer(Ok(pcscf))),
        joined(vec![
            status("pcscf_discovered", "native_qmi", "", ""),
            status("ims_registering", "native_qmi_ipsec", "wwan1", ""),
        ])
    );
    assert_eq!(supervisor.step(Event::Configured(Ok(()))), vec![]);
    assert_eq!(
        supervisor.query(),
        &Query::Register(attempt(sms_enabled), "2001:db8::5".parse().unwrap())
    );
    supervisor
}

fn registered(sms_ready: bool) -> Effects {
    vec![Effect::WriteStatus(RuntimeStatus {
        phase: "registered".to_string(),
        registered: true,
        sms_ready,
        transport: "native_qmi_ipsec".to_string(),
        interface: "wwan1".to_string(),
        last_error: String::new(),
    })]
}

#[test]
fn registers_and_receives_messages() {
    let mut supervisor = registering(true);
    assert_eq!(
        supervisor.step(Event::Registration(Ok(()))),
        joined(vec![
            vec![Effect::SpawnListener("2001:db8::10".parse().unwrap())],
            registered(true),
        ])
    );
    assert_eq!(supervisor.query(), &Query::ReadConfig);
    assert_eq!(supervisor.step(enabled(true)), vec![]);
    assert_eq!(
        supervisor.query(),
        &Query::CheckConnected("/dev/wwan0at2".to_string())
    );
    assert_eq!(
        supervisor.step(Event::Connection(Ok(true))),
        vec![Effect::Sleep(10)]
    );
    assert_eq!(
        supervisor.step(disabled()),
        joined(vec![
            vec![Effect::AbortListener],
            stop(),
            status("disabled", "native_qmi", "", ""),
            vec![Effect::Sleep(10)],
        ])
    );
    assert_eq!(supervisor, Supervisor::new());
}

#[test]
fn registers_without_messages() {
    let mut supervisor = registering(false);
    assert_eq!(
        supervisor.step(Event::Registration(Ok(()))),
        registered(false)
    );
    assert_eq!(supervisor.step(enabled(false)), vec![]);
    assert_eq!(
        supervisor.step(Event::Connection(Ok(false))),
        joined(vec![stop(), status("degraded", "native_qmi", "", "")])
    );
    assert_eq!(supervisor, Supervisor::new());
}

#[test]
fn takes_the_bearer_down_where_the_check_fails() {
    let mut supervisor = registering(true);
    supervisor.step(Event::Registration(Ok(())));
    supervisor.step(enabled(true));
    assert_eq!(
        supervisor.step(Event::Connection(Err(ImsError::UnknownBearerStatus))),
        joined(vec![
            vec![Effect::AbortListener],
            stop(),
            status("degraded", "native_qmi", "", ""),
        ])
    );
    assert_eq!(supervisor, Supervisor::new());
}

#[test]
fn stays_idle_while_disabled() {
    let mut supervisor = Supervisor::new();
    assert_eq!(
        supervisor.step(disabled()),
        joined(vec![
            status("disabled", "native_qmi", "", ""),
            vec![Effect::Sleep(10)],
        ])
    );
    assert_eq!(supervisor, Supervisor::new());
}

#[test]
fn waits_for_a_device() {
    let mut supervisor = Supervisor::new();
    supervisor.step(enabled(true));
    assert_eq!(
        supervisor.step(Event::Device {
            configured: Some(" ".to_string()),
            published: None,
            netdev: None,
        }),
        joined(vec![
            status(
                "waiting_for_secondary_qmi",
                "native_qmi",
                "",
                "secondary QMI device is unavailable"
            ),
            vec![Effect::Sleep(5)],
        ])
    );
    assert_eq!(supervisor, Supervisor::new());
    assert_eq!(
        secondary_device(Some(" d ".to_string()), Some("e".to_string())),
        Some(" d ".to_string())
    );
    assert_eq!(
        secondary_device(None, Some(" e\n".to_string())),
        Some("e".to_string())
    );
    assert_eq!(secondary_device(None, None), None);
}

#[test]
fn waits_after_a_start_that_failed() {
    let mut supervisor = Supervisor::new();
    supervisor.step(enabled(true));
    supervisor.step(Event::Device {
        configured: Some("d".to_string()),
        published: None,
        netdev: Some("wwan3".to_string()),
    });
    assert_eq!(
        supervisor.query(),
        &Query::StartBearer(true, "d".to_string(), "wwan3".to_string())
    );
    assert_eq!(
        supervisor.step(Event::Started(Err(ImsError::NoPacketHandle))),
        joined(vec![
            status(
                "degraded",
                "native_qmi",
                "",
                "qmicli did not return a packet data handle"
            ),
            vec![Effect::Sleep(5)],
        ])
    );
    assert_eq!(supervisor, Supervisor::new());
}

#[test]
fn goes_on_where_the_usim_cannot_be_selected() {
    let mut supervisor = started(true);
    assert_eq!(
        supervisor.step(Event::Modem(Err("no modem".to_string()))),
        status("degraded", "native_qmi", "", "no modem")
    );
    assert_eq!(supervisor.query(), &Query::FindModemAgain(attempt(true)));

    let mut supervisor = started(true);
    supervisor.step(Event::Modem(Ok(())));
    assert_eq!(
        supervisor.step(Event::Answer(Err("busy".to_string()))),
        status("degraded", "native_qmi", "", "busy")
    );
    assert_eq!(supervisor.query(), &Query::FindModemAgain(attempt(true)));

    let mut supervisor = started(true);
    supervisor.step(Event::Modem(Ok(())));
    assert_eq!(
        supervisor.step(Event::Answer(Ok("+CSIM: 4,\"6A82\"".to_string()))),
        status(
            "degraded",
            "native_qmi",
            "",
            "USIM AID was not present in SELECT response"
        )
    );
    assert_eq!(check_aid("OK"), Some(ImsError::NoCsimData));
    assert_eq!(check_aid("\"zz\""), Some(ImsError::ApduNotHex));
    assert_eq!(check_aid("\"8401AA\""), None);
    assert_eq!(
        select_command(),
        "AT+CSIM=24,\"00A4040007A0000000871002\""
    );
}

#[test]
fn gives_up_without_a_pcscf() {
    let given_up = || joined(vec![stop(), status("degraded", "native_qmi", "wwan1", "")]);
    let mut supervisor = started(true);
    supervisor.step(Event::Modem(Err(String::new())));
    assert_eq!(
        supervisor.step(Event::Modem(Err("gone".to_string()))),
        given_up()
    );
    assert_eq!(supervisor, Supervisor::new());
    for answer in [Err("busy".to_string()), Ok("OK".to_string())] {
        let mut supervisor = started(true);
        supervisor.step(Event::Modem(Err(String::new())));
        supervisor.step(Event::Modem(Ok(())));
        assert_eq!(supervisor.step(Event::Answer(answer)), given_up());
        assert_eq!(supervisor, Supervisor::new());
    }
}

#[test]
fn gives_up_where_the_interface_or_the_registration_fails() {
    let mut supervisor = started(true);
    supervisor.step(Event::Modem(Err(String::new())));
    supervisor.step(Event::Modem(Ok(())));
    supervisor.step(Event::Answer(Ok(
        "+CGCONTRDP: 1,2,3,4,5,6,7,8,2001:db8::5".to_string(),
    )));
    assert_eq!(
        supervisor.step(Event::Configured(Err(ImsError::MissingInterface))),
        joined(vec![
            status(
                "degraded",
                "native_qmi",
                "wwan1",
                "secondary IMS network interface is unavailable"
            ),
            stop(),
            status("degraded", "native_qmi", "wwan1", ""),
        ])
    );
    assert_eq!(supervisor, Supervisor::new());

    let mut supervisor = registering(true);
    assert_eq!(
        supervisor.step(Event::Registration(Err(ImsError::RegisterStatus(Some(
            403
        ))))),
        joined(vec![
            status(
                "degraded",
                "native_qmi_ipsec",
                "",
                "IMS authenticated REGISTER returned Some(403)"
            ),
            stop(),
            status("degraded", "native_qmi", "wwan1", ""),
        ])
    );
    assert_eq!(supervisor, Supervisor::new());
}

#[test]
fn ignores_events_out_of_turn() {
    let mut supervisor = registering(true);
    assert_eq!(supervisor.step(enabled(true)), vec![]);
    assert_eq!(
        supervisor.query(),
        &Query::Register(attempt(true), "2001:db8::5".parse().unwrap())
    );
}
