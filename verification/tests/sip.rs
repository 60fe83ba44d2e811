use simadmin_ims::error::ImsError;
use simadmin_ims::ims_sip::{
    aka_md5_response, build_answering_register, build_initial_register, build_register, join_pair,
    join_triple, parse_aka_challenge, parse_pcscf_address, parse_pcscf_from_cgcontrdp,
    response_outcome, sip_status_code, AkaChallenge, SipRegistration,
};

fn registration() -> SipRegistration {
    SipRegistration {
        private_identity: "460001234567890".into(),
        public_identity: "sip:460001234567890@ims.example".into(),
        realm: "ims.example".into(),
        nonce: "nonce".into(),
        aka_res_hex: "0011223344556677".into(),
        call_id: "call-id".into(),
        cseq: 1,
        contact_host: "2001:db8::10".parse().unwrap(),
        contact_port: 5060,
    }
}

#[test]
fn parses_pcscf_ipv6() {
    assert_eq!(
        parse_pcscf_address("P-CSCF address: '[2001:db8::5]'"),
        Some("2001:db8::5".parse().unwrap())
    );
}

#[test]
fn parses_pcscf_from_cgcontrdp() {
    let response = "+CGCONTRDP: 4,5,\"ims\",\"2001:db8::10\",\"::\",\"2001:db8::1\",\"::\",\"::\",\"2001:db8::5\",\"::\"";
    assert_eq!(
        parse_pcscf_from_cgcontrdp(response),
        Some("2001:db8::5".parse().unwrap())
    );
}

#[test]
fn builds_aka_register() {
    let request = build_register(
        &SipRegistration {
            private_identity: "460001234567890".into(),
            public_identity: "sip:460001234567890@ims.example".into(),
            realm: "ims.example".into(),
            nonce: "nonce".into(),
            aka_res_hex: "0011223344556677".into(),
            call_id: "call-id".into(),
            cseq: 1,
            contact_host: "2001:db8::10".parse().unwrap(),
            contact_port: 5060,
        },
        "z9hG4bK-test",
    )
    .unwrap();
    assert!(request.starts_with("REGISTER sip:ims.example SIP/2.0"));
    assert!(request.contains("algorithm=AKAv1-MD5"));
}

#[test]
fn parses_sip_status() {
    assert_eq!(sip_status_code("SIP/2.0 200 OK\r\n"), Some(200));
}

#[test]
fn parses_aka_challenge() {
    let response = "SIP/2.0 401 Unauthorized\r\nWWW-Authenticate: Digest algorithm=AKAv1-MD5, realm=\"ims.example\", nonce=\"abc\"\r\n";
    assert_eq!(
        parse_aka_challenge(response),
        Some(AkaChallenge {
            realm: "ims.example".into(),
            nonce: "abc".into()
        })
    );
}

#[test]
fn skips_lines_without_a_pcscf_address() {
    let output = "Domain: ims\nPCSCF: nonsense\nP-CSCF 2: \"2001:db8::7\"\nP-CSCF 3: 2001:db8::8";
    assert_eq!(
        parse_pcscf_address(output),
        Some("2001:db8::7".parse().unwrap())
    );
    assert_eq!(parse_pcscf_address("Address: 2001:db8::7"), None);
}

#[test]
fn takes_the_second_pcscf_field_where_the_first_is_no_address() {
    let response = "\r\n+cgcontrdp: 4,5,ims,a,b,c,d,e,,2001:db8::6,2001:db8::7\r\nOK\r\n";
    assert_eq!(
        parse_pcscf_from_cgcontrdp(response),
        Some("2001:db8::6".parse().unwrap())
    );
    let short = "+CGCONTRDP: 4,5,ims,a,b,c,d,2001:db8::5";
    assert_eq!(parse_pcscf_from_cgcontrdp(short), None);
    let late = "+CGCONTRDP: 4,5,ims,a,b,c,d,e,f,g,2001:db8::5";
    assert_eq!(parse_pcscf_from_cgcontrdp(late), None);
}

#[test]
fn computes_the_digest_response() {
    // MD5("user:realm:00") = HA1, MD5("REGISTER:sip:realm") = HA2, MD5("HA1:nonce:HA2").
    let ha1 = format!("{:x}", md5::compute("user:realm:00"));
    let ha2 = format!("{:x}", md5::compute("REGISTER:sip:realm"));
    let expected = format!("{:x}", md5::compute(format!("{ha1}:nonce:{ha2}")));
    assert_eq!(
        aka_md5_response("user", "realm", "nonce", "REGISTER", "sip:realm", "00"),
        Ok(expected)
    );
}

#[test]
fn answers_a_challenge_with_thirty_two_digits() {
    for key in ["0", "00", "0011223344556677"] {
        let response =
            aka_md5_response("user", "realm", "nonce", "REGISTER", "sip:realm", key).unwrap();
        assert_eq!(response.len(), 32);
        assert!(response.bytes().all(|byte| byte.is_ascii_hexdigit()));
    }
}

#[test]
fn refuses_an_empty_digest_field() {
    assert_eq!(
        aka_md5_response("", "realm", "nonce", "REGISTER", "sip:realm", "00"),
        Err(ImsError::EmptyDigestField)
    );
    let mut bare = registration();
    bare.nonce = String::new();
    assert_eq!(build_register(&bare, "b"), Err(ImsError::EmptyDigestField));
}

#[test]
fn refuses_a_request_without_branch_or_call_id() {
    let mut bare = registration();
    assert_eq!(
        build_register(&bare, ""),
        Err(ImsError::MissingBranchOrCallId)
    );
    bare.call_id = String::new();
    assert_eq!(
        build_initial_register(&bare, "b"),
        Err(ImsError::MissingBranchOrCallId)
    );
    bare.nonce = String::new();
    assert_eq!(
        build_register(&bare, "b"),
        Err(ImsError::MissingBranchOrCallId)
    );
}

#[test]
fn writes_the_initial_register_exactly() {
    assert_eq!(
        build_initial_register(&registration(), "z9hG4bK-test").unwrap(),
        "REGISTER sip:ims.example SIP/2.0\r\n\
         Via: SIP/2.0/UDP [2001:db8::10]:5060;branch=z9hG4bK-test;rport\r\n\
         From: <sip:460001234567890@ims.example>;tag=simadmin\r\n\
         To: <sip:460001234567890@ims.example>\r\n\
         Call-ID: call-id\r\n\
         CSeq: 1 REGISTER\r\n\
         Contact: <sip:460001234567890@ims.example@2001:db8::10:5060>\r\n\
         Max-Forwards: 70\r\n\
         User-Agent: SimAdmin\r\n\
         Content-Length: 0\r\n\r\n"
    );
}

#[test]
fn adds_the_authorization_to_the_initial_register() {
    let registration = registration();
    let initial = build_initial_register(&registration, "b").unwrap();
    let response = aka_md5_response(
        "460001234567890",
        "ims.example",
        "nonce",
        "REGISTER",
        "sip:ims.example",
        "0011223344556677",
    )
    .unwrap();
    let authorization = format!(
        "Authorization: Digest username=\"460001234567890\", realm=\"ims.example\", nonce=\"nonce\", uri=\"sip:ims.example\", response=\"{response}\", algorithm=AKAv1-MD5\r\n"
    );
    let end = "Content-Length: 0\r\n\r\n";
    let head = initial.strip_suffix(end).unwrap();
    let expected = format!("{head}{authorization}{end}");
    assert_eq!(build_register(&registration, "b"), Ok(expected.clone()));
    assert_eq!(
        build_answering_register(&registration, "b", &response),
        expected
    );
}

#[test]
fn joins_with_colons() {
    assert_eq!(join_pair("a", "b"), "a:b");
    assert_eq!(join_triple("a", "b", "c"), "a:b:c");
}

#[test]
fn reads_no_status_from_other_lines() {
    assert_eq!(sip_status_code(""), None);
    assert_eq!(sip_status_code("HTTP/1.1 200 OK"), None);
    assert_eq!(sip_status_code("SIP/2.0"), None);
    assert_eq!(sip_status_code("SIP/2.0 70000 X"), None);
    assert_eq!(sip_status_code("SIP/2.0 401 Unauthorized\r\n"), Some(401));
    assert_eq!(sip_status_code("\r\nSIP/2.0 200 OK"), None);
}

#[test]
fn needs_realm_and_nonce_in_a_challenge() {
    assert_eq!(
        parse_aka_challenge("WWW-Authenticate: Digest algorithm=AKAv1-MD5, realm=\"x\""),
        None
    );
    assert_eq!(
        parse_aka_challenge("WWW-Authenticate: Digest realm=\"x\", nonce=\"y\""),
        None
    );
    // The first parameter stands behind the scheme and is not found by its name.
    assert_eq!(
        parse_aka_challenge(
            "WWW-Authenticate: Digest realm=\"x\", nonce=\"y\", algorithm=AKAv1-MD5"
        ),
        None
    );
}

#[test]
fn replaces_what_is_not_utf8_in_a_response() {
    assert_eq!(
        response_outcome(Some(b"SIP/2.0 200 \xff\r\n")),
        Ok("SIP/2.0 200 \u{fffd}\r\n".to_string())
    );
    assert_eq!(
        response_outcome(Some("grün".as_bytes())),
        Ok("grün".to_string())
    );
    assert_eq!(response_outcome(None), Err(ImsError::ResponseTimedOut));
}
