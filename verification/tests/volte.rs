use simadmin_ims::error::ImsError;
use simadmin_ims::volte::{
    begin_interface, command_to_run, interface_commands, interface_outcome, next_interface_task,
    parse_qmi_bearer_settings, parse_qmi_connection_status, parse_qmi_packet_handle,
    secondary_netdev, InterfaceTask, QmiBearerSettings, RuntimeStatus,
};

#[test]
fn parses_qmi_ipv6_settings() {
    let output = "IPv6 address: 2001:db8::10\nIPv6 gateway address: 2001:db8::1\nMTU: 1432";
    assert_eq!(
        parse_qmi_bearer_settings(output),
        Some(QmiBearerSettings {
            ipv6_address: "2001:db8::10".to_string(),
            ipv6_gateway: "2001:db8::1".to_string(),
            mtu: Some(1432),
        })
    );
}

#[test]
fn strips_qmi_ipv6_prefix_lengths() {
    let output = "IPv6 address: 2001:db8::10/64\nIPv6 gateway address: 2001:db8::1/64\nMTU: 1432";
    let settings = parse_qmi_bearer_settings(output).unwrap();
    assert_eq!(settings.ipv6_address, "2001:db8::10");
    assert_eq!(settings.ipv6_gateway, "2001:db8::1");
}

#[test]
fn parses_qmi_packet_handle() {
    assert_eq!(
        parse_qmi_packet_handle("Packet data handle: '42'"),
        Some("42".to_string())
    );
}

#[test]
fn derives_beta9_secondary_netdev() {
    assert_eq!(secondary_netdev(None, "/dev/wwan0at2"), "wwan1");
}

#[test]
fn parses_qmi_connection_status() {
    assert_eq!(
        parse_qmi_connection_status("Connection status: 'connected'"),
        Some(true)
    );
    assert_eq!(
        parse_qmi_connection_status("Connection status: 'disconnected'"),
        Some(false)
    );
}

#[test]
fn starts_with_an_empty_snapshot() {
    assert_eq!(
        RuntimeStatus::default(),
        RuntimeStatus {
            phase: String::new(),
            registered: false,
            sms_ready: false,
            transport: String::new(),
            interface: String::new(),
            last_error: String::new(),
        }
    );
}

#[test]
fn needs_both_addresses() {
    assert_eq!(parse_qmi_bearer_settings("IPv6 address: 2001:db8::10"), None);
    assert_eq!(
        parse_qmi_bearer_settings("IPv6 address: \nIPv6 address: ::1\nIPv6 gateway address: ::2"),
        None
    );
    let output = "  IPv6 gateway address: '::2' \n\tIPv6 address: ::1\nMTU: many";
    assert_eq!(
        parse_qmi_bearer_settings(output),
        Some(QmiBearerSettings {
            ipv6_address: "::1".to_string(),
            ipv6_gateway: "'::2'".to_string(),
            mtu: None,
        })
    );
}

#[test]
fn skips_handles_that_are_empty() {
    let output = "Packet data handle: ''\n Packet data handle : 7 \n";
    assert_eq!(parse_qmi_packet_handle(output), Some("7".to_string()));
    assert_eq!(parse_qmi_packet_handle("Handle: '7'"), None);
}

#[test]
fn skips_statuses_that_are_unknown() {
    let output = "Connection status: 'suspended'\nConnection status: connected";
    assert_eq!(parse_qmi_connection_status(output), Some(true));
    assert_eq!(parse_qmi_connection_status("status: connected"), None);
}

#[test]
fn lets_the_configured_interface_prevail() {
    assert_eq!(
        secondary_netdev(Some("wwan7".to_string()), "/dev/wwan0at2"),
        "wwan7"
    );
    assert_eq!(
        secondary_netdev(Some(" \t".to_string()), "/dev/wwan0at2"),
        "wwan1"
    );
    assert_eq!(secondary_netdev(None, "/dev/wwan0qmi1"), "");
}

#[test]
fn sets_the_interface_up() {
    let settings = QmiBearerSettings {
        ipv6_address: "2001:DB8:0::10".to_string(),
        ipv6_gateway: "2001:db8::1".to_string(),
        mtu: None,
    };
    let commands =
        interface_commands("wwan1", &settings, "2001:db8::5".parse().unwrap()).unwrap();
    assert_eq!(
        commands,
        vec![
            vec!["link", "set", "dev", "wwan1", "up"],
            vec!["-6", "addr", "replace", "2001:db8::10/64", "dev", "wwan1"],
            vec![
                "-6",
                "route",
                "replace",
                "2001:db8::5/128",
                "via",
                "2001:db8::1",
                "dev",
                "wwan1"
            ],
        ]
    );
}

#[test]
fn tells_why_the_interface_cannot_be_set_up() {
    let pcscf = "2001:db8::5".parse().unwrap();
    let mut settings = QmiBearerSettings {
        ipv6_address: "x".to_string(),
        ipv6_gateway: "y".to_string(),
        mtu: None,
    };
    assert_eq!(
        interface_commands(" ", &settings, pcscf),
        Err(ImsError::MissingInterface)
    );
    assert_eq!(
        interface_commands("wwan1", &settings, pcscf),
        Err(ImsError::InvalidBearerAddress)
    );
    settings.ipv6_address = "::1".to_string();
    assert_eq!(
        interface_commands("wwan1", &settings, pcscf),
        Err(ImsError::InvalidBearerGateway)
    );
    assert_eq!(interface_outcome(true, b""), Ok(()));
    assert_eq!(
        interface_outcome(false, b"No such device\n")
            .unwrap_err()
            .message(),
        "failed to configure secondary IMS interface: No such device"
    );
}

fn reachable_settings() -> QmiBearerSettings {
    QmiBearerSettings {
        ipv6_address: "2001:db8::10".to_string(),
        ipv6_gateway: "2001:db8::1".to_string(),
        mtu: None,
    }
}

#[test]
fn runs_the_interface_commands_in_their_order() {
    let settings = reachable_settings();
    let pcscf = "2001:db8::5".parse().unwrap();
    let commands = interface_commands("wwan1", &settings, pcscf).unwrap();
    let mut task = begin_interface("wwan1", &settings, pcscf);
    let mut run = Vec::new();
    while let Some(arguments) = command_to_run(&task) {
        run.push(arguments.clone());
        task = next_interface_task(task, Ok(()));
    }
    assert_eq!(run, commands);
    assert_eq!(run.len(), 3);
    assert_eq!(task, InterfaceTask::Done);
    assert_eq!(
        next_interface_task(task, Err(ImsError::MissingInterface)),
        InterfaceTask::Done
    );
}

#[test]
fn runs_no_interface_command_after_a_failure() {
    let settings = reachable_settings();
    let pcscf = "2001:db8::5".parse().unwrap();
    for failing in 0..3 {
        let mut task = begin_interface("wwan1", &settings, pcscf);
        for _ in 0..failing {
            task = next_interface_task(task, Ok(()));
        }
        task = next_interface_task(task, interface_outcome(false, b"busy"));
        for later in [Ok(()), Err(ImsError::MissingInterface), Ok(())] {
            assert_eq!(command_to_run(&task), None);
            let InterfaceTask::Failed(error) = &task else {
                panic!("{task:?}");
            };
            assert_eq!(
                error.message(),
                "failed to configure secondary IMS interface: busy"
            );
            task = next_interface_task(task, later);
        }
    }
}

#[test]
fn runs_no_interface_command_without_an_interface() {
    let task = begin_interface("", &reachable_settings(), "2001:db8::5".parse().unwrap());
    assert_eq!(task, InterfaceTask::Failed(ImsError::MissingInterface));
    assert_eq!(command_to_run(&task), None);
}
