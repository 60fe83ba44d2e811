use base64::engine::general_purpose::STANDARD;
use base64::Engine;
use simadmin_ims::error::ImsError;
use simadmin_ims::ims_sip::{build_initial_register, AkaChallenge};
use simadmin_ims::registration::{
    after_apdu, after_identity, after_initial, after_request, after_security, begin_registration,
    codes_are_whole, fresh_registration, ims_domain, next_register_task, ports_of, RegisterEvent,
    RegisterTask, SecurityAgreement, INITIAL_BRANCH,
};
use simadmin_ims::volte::QmiBearerSettings;

fn settings(address: &str) -> QmiBearerSettings {
    QmiBearerSettings {
        ipv6_address: address.to_string(),
        ipv6_gateway: "2001:db8::1".to_string(),
        mtu: None,
    }
}

fn agreement() -> SecurityAgreement {
    SecurityAgreement {
        client_spi: 1,
        server_spi: 2,
        client_port: 5064,
        server_port: 5066,
    }
}

fn challenge() -> AkaChallenge {
    AkaChallenge {
        realm: "r".to_string(),
        nonce: STANDARD.encode([0x11u8; 32]),
    }
}

#[test]
fn derives_the_domain_from_the_imsi() {
    assert_eq!(
        ims_domain("460011234567890"),
        "ims.mnc011.mcc460.3gppnetwork.org"
    );
    assert_eq!(ims_domain("46001"), "ims.mnc000.mcc460.3gppnetwork.org");
    assert_eq!(ims_domain("46"), "ims.mnc000.mcc46.3gppnetwork.org");
    assert!(codes_are_whole("460011234567890"));
    assert!(codes_are_whole("é1234"));
    assert!(!codes_are_whole("46é01234"));
    assert!(!codes_are_whole("46001é"));
}

#[test]
fn begins_with_a_fresh_registration() {
    let local = "2001:db8::10".parse().unwrap();
    let registration = fresh_registration(local, "460011234567890".to_string(), None, 17);
    assert_eq!(registration.private_identity, "460011234567890");
    assert_eq!(
        registration.public_identity,
        "sip:460011234567890@ims.mnc011.mcc460.3gppnetwork.org"
    );
    assert_eq!(registration.realm, "ims.mnc011.mcc460.3gppnetwork.org");
    assert_eq!(registration.call_id, "simadmin-17");
    assert_eq!(registration.cseq, 1);
    assert_eq!(registration.contact_port, 5062);
    let configured = fresh_registration(
        local,
        "46".to_string(),
        Some("ims.example".to_string()),
        u128::MAX,
    );
    assert_eq!(configured.public_identity, "sip:46@ims.example");
    assert_eq!(
        configured.call_id,
        "simadmin-340282366920938463463374607431768211455"
    );
}

#[test]
fn registers_step_by_step() {
    let local = "2001:db8::10".parse().unwrap();
    let mut task = begin_registration(&settings("2001:db8::10"));
    assert_eq!(task, RegisterTask::FindModem(local));
    task = next_register_task(task, RegisterEvent::Modem(Ok(())));
    assert_eq!(task, RegisterTask::ReadIdentity(local));
    task = next_register_task(
        task,
        RegisterEvent::Identity {
            imsi: Some("460011234567890".to_string()),
            domain: None,
            nanoseconds: 5,
        },
    );
    let registration = fresh_registration(local, "460011234567890".to_string(), None, 5);
    let request = build_initial_register(&registration, INITIAL_BRANCH).unwrap();
    assert_eq!(
        task,
        RegisterTask::SendInitial(registration.clone(), request)
    );
    let response = format!(
        "SIP/2.0 401 Unauthorized\r\nWWW-Authenticate: Digest algorithm=AKAv1-MD5, realm=\"r\", nonce=\"{}\"\r\n\r\n",
        challenge().nonce
    );
    task = next_register_task(task, RegisterEvent::Response(Ok(response.clone())));
    assert_eq!(
        task,
        RegisterTask::ReadSecurity(registration.clone(), challenge(), response)
    );
    task = next_register_task(task, RegisterEvent::Security(Some(agreement())));
    let command = format!("AT+CSIM=76,\"008800812210{}\"", "11".repeat(32));
    assert_eq!(
        task,
        RegisterTask::SendApdu(registration.clone(), challenge(), agreement(), command)
    );
    task = next_register_task(
        task,
        RegisterEvent::Apdu(Ok("+CSIM: 1,\"DB01AADC01BBDD02CC0D9000\"".to_string())),
    );
    let mut answering = registration;
    answering.realm = "r".to_string();
    answering.nonce = challenge().nonce;
    answering.aka_res_hex = "AA".to_string();
    answering.cseq = 2;
    assert_eq!(
        task,
        RegisterTask::InstallEsp(answering.clone(), agreement(), "CC0D".to_string())
    );
    task = next_register_task(task, RegisterEvent::Installed(Ok(())));
    assert_eq!(task, RegisterTask::BuildRequest(answering, agreement()));
    task = next_register_task(task, RegisterEvent::Request(Ok("REGISTER".to_string())));
    assert_eq!(
        task,
        RegisterTask::SendRequest(agreement(), "REGISTER".to_string())
    );
    task = next_register_task(
        task,
        RegisterEvent::Response(Ok("SIP/2.0 200 OK\r\n".to_string())),
    );
    assert_eq!(task, RegisterTask::Registered);
    task = next_register_task(task, RegisterEvent::Modem(Err("late".to_string())));
    assert_eq!(task, RegisterTask::Registered);
}

#[test]
fn needs_an_address_a_modem_and_an_identity() {
    assert_eq!(
        begin_registration(&settings("nowhere")),
        RegisterTask::Failed(ImsError::InvalidImsAddress)
    );
    let local = "::1".parse().unwrap();
    let task = next_register_task(
        RegisterTask::FindModem(local),
        RegisterEvent::Modem(Err("none".to_string())),
    );
    match task {
        RegisterTask::Failed(error) => {
            assert_eq!(error.message(), "cannot find modem for IMS AKA: none")
        }
        other => panic!("{other:?}"),
    }
    assert_eq!(
        after_identity(local, None, None, 0),
        RegisterTask::Failed(ImsError::MissingIdentity)
    );
    assert_eq!(
        after_identity(local, Some(String::new()), None, 0),
        RegisterTask::Failed(ImsError::MissingImsi)
    );
}

#[test]
fn fails_where_the_challenge_is_missing() {
    let registration = || fresh_registration("::1".parse().unwrap(), "46".to_string(), None, 0);
    match after_initial(registration(), "SIP/2.0 403 Forbidden".to_string()) {
        RegisterTask::Failed(error) => {
            assert_eq!(error, ImsError::InitialRegisterStatus(Some(403)));
            assert_eq!(error.message(), "IMS initial REGISTER returned Some(403)");
        }
        other => panic!("{other:?}"),
    }
    assert_eq!(
        after_initial(registration(), String::new()),
        RegisterTask::Failed(ImsError::InitialRegisterStatus(None))
    );
    assert_eq!(
        after_initial(registration(), "SIP/2.0 401 X\r\n\r\n".to_string()),
        RegisterTask::Failed(ImsError::NoAkaChallenge)
    );
    assert_eq!(
        after_security(registration(), challenge(), None),
        RegisterTask::Failed(ImsError::NoSecurityServer)
    );
    let short = AkaChallenge {
        realm: "r".to_string(),
        nonce: "AAAA".to_string(),
    };
    assert_eq!(
        after_security(registration(), short, Some(agreement())),
        RegisterTask::Failed(ImsError::NonceLength)
    );
    let broken = AkaChallenge {
        realm: "r".to_string(),
        nonce: "???".to_string(),
    };
    assert_eq!(
        after_security(registration(), broken, Some(agreement())),
        RegisterTask::Failed(ImsError::UndecodableNonce)
    );
}

#[test]
fn fails_where_the_usim_gives_no_material() {
    let registration = || fresh_registration("::1".parse().unwrap(), "46".to_string(), None, 0);
    let after = |output: &str| after_apdu(registration(), challenge(), agreement(), output);
    assert_eq!(
        after("OK"),
        RegisterTask::Failed(ImsError::NoCsimData)
    );
    assert_eq!(
        after("\"DE01AA9000\""),
        RegisterTask::Failed(ImsError::AkaResynchronization)
    );
    assert_eq!(
        after("\"9862\""),
        RegisterTask::Failed(ImsError::AkaFailed)
    );
    let task = RegisterTask::SendApdu(registration(), challenge(), agreement(), String::new());
    assert_eq!(
        next_register_task(task, RegisterEvent::Apdu(Err("busy".to_string()))),
        RegisterTask::Failed(ImsError::ApduFailed("busy".to_string()))
    );
}

#[test]
fn sends_each_request_between_its_ports() {
    let registration = fresh_registration("::1".parse().unwrap(), "46".to_string(), None, 0);
    assert_eq!(
        ports_of(&RegisterTask::SendInitial(registration, String::new())),
        Some((5062, 5060))
    );
    assert_eq!(
        ports_of(&RegisterTask::SendRequest(agreement(), String::new())),
        Some((5064, 5066))
    );
    assert_eq!(ports_of(&RegisterTask::Registered), None);
}

#[test]
fn registers_only_with_success() {
    assert_eq!(after_request("SIP/2.0 200 OK"), RegisterTask::Registered);
    assert_eq!(
        after_request("SIP/2.0 500 Error"),
        RegisterTask::Failed(ImsError::RegisterStatus(Some(500)))
    );
    for task in [
        RegisterTask::SendRequest(agreement(), String::new()),
        RegisterTask::SendInitial(
            fresh_registration("::1".parse().unwrap(), "46".to_string(), None, 0),
            String::new(),
        ),
    ] {
        assert_eq!(
            next_register_task(
                task,
                RegisterEvent::Response(Err(ImsError::ResponseTimedOut))
            ),
            RegisterTask::Failed(ImsError::ResponseTimedOut)
        );
    }
}

#[test]
fn fails_where_the_channel_or_the_request_fails() {
    let registration = || fresh_registration("::1".parse().unwrap(), "46".to_string(), None, 0);
    assert_eq!(
        next_register_task(
            RegisterTask::InstallEsp(registration(), agreement(), String::new()),
            RegisterEvent::Installed(Err(ImsError::ZeroSpi))
        ),
        RegisterTask::Failed(ImsError::ZeroSpi)
    );
    assert_eq!(
        next_register_task(
            RegisterTask::BuildRequest(registration(), agreement()),
            RegisterEvent::Request(Err(ImsError::EmptyDigestField))
        ),
        RegisterTask::Failed(ImsError::EmptyDigestField)
    );
    assert_eq!(
        next_register_task(
            RegisterTask::BuildRequest(registration(), agreement()),
            RegisterEvent::Modem(Ok(()))
        ),
        RegisterTask::BuildRequest(registration(), agreement())
    );
}
