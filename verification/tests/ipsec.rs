use simadmin_ims::error::ImsError;
use simadmin_ims::ims_ipsec::{
    esp_state_command, esp_state_outcome, is_hex, EspSecurityAssociation,
};

fn sample() -> EspSecurityAssociation {
    EspSecurityAssociation {
        local: "2001:db8::1".parse().unwrap(),
        remote: "2001:db8::2".parse().unwrap(),
        spi: 0x1234,
        auth_key_hex: "aa".repeat(20),
        enc_key_hex: "bb".repeat(16),
    }
}

#[test]
fn rejects_empty_keys() {
    let mut sa = sample();
    sa.auth_key_hex.clear();
    assert!(sa.validate().is_err());
}

#[test]
fn builds_transport_esp_arguments() {
    let args = sample().args();
    assert!(args
        .windows(2)
        .any(|pair| pair[0] == "mode" && pair[1] == "transport"));
    assert!(args.iter().any(|value| value == "0x00001234"));
}

#[test]
fn writes_the_esp_arguments_exactly() {
    let auth = "aa".repeat(20);
    let enc = "bb".repeat(16);
    let expected = vec![
        "xfrm",
        "state",
        "add",
        "src",
        "2001:db8::1",
        "dst",
        "2001:db8::2",
        "proto",
        "esp",
        "spi",
        "0x00001234",
        "mode",
        "transport",
        "auth-trunc",
        "hmac(sha1)",
        &auth,
        "96",
        "enc",
        "cbc(aes)",
        &enc,
    ];
    assert_eq!(esp_state_command(&sample()).unwrap(), expected);
}

#[test]
fn gives_no_command_for_an_incomplete_association() {
    let mut sa = sample();
    sa.spi = 0;
    assert_eq!(esp_state_command(&sa), Err(ImsError::ZeroSpi));
    let mut sa = sample();
    sa.enc_key_hex.clear();
    assert_eq!(esp_state_command(&sa), Err(ImsError::EmptyKeys));
    let mut sa = sample();
    sa.enc_key_hex.push('g');
    assert_eq!(esp_state_command(&sa), Err(ImsError::KeysNotHex));
    let mut sa = sample();
    sa.auth_key_hex.push('0');
    assert_eq!(sa.validate(), Err(ImsError::KeysNotHex));
}

#[test]
fn knows_hexadecimal_text() {
    assert!(is_hex("00aF"));
    assert!(is_hex(""));
    assert!(!is_hex("0"));
    assert!(!is_hex("0x"));
}

#[test]
fn reports_why_an_association_was_refused() {
    assert_eq!(esp_state_outcome(true, b"ignored"), Ok(()));
    let error = esp_state_outcome(false, b" RTNETLINK: File exists\xff\n").unwrap_err();
    assert_eq!(
        error.message(),
        "failed to install IMS IPsec state: RTNETLINK: File exists\u{fffd}"
    );
}
