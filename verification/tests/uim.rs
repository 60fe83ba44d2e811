use base64::engine::general_purpose::STANDARD;
use base64::Engine;
use simadmin_ims::error::ImsError;
use simadmin_ims::ims_uim::{
    build_aka_auth_command, build_authenticate_command, build_csim_command, choose_nonce_bytes,
    decode_hex, encode_hex, extract_csim_hex, parse_aid_from_select_response, parse_aka_response,
    AkaResponse, AkaResync,
};

#[test]
fn parses_usim_aid() {
    assert_eq!(
        parse_aid_from_select_response("62098407A0000000871002").unwrap(),
        vec![0xA0, 0x00, 0x00, 0x00, 0x87, 0x10, 0x02]
    );
}

#[test]
fn builds_csim_command() {
    assert_eq!(
        build_csim_command("00A4040007A0000000871002").unwrap(),
        "AT+CSIM=24,\"00A4040007A0000000871002\""
    );
}

#[test]
fn extracts_csim_response_hex() {
    assert_eq!(
        extract_csim_hex(r#"+CSIM: 144,0,"62098407A0000000871002""#).unwrap(),
        "62098407A0000000871002"
    );
}

#[test]
fn builds_aka_auth_apdu_from_base64_nonce() {
    let nonce = STANDARD.encode([0x11u8; 32]);
    let command = build_aka_auth_command(&nonce).unwrap();
    assert!(command.contains("008800812210"));
    assert!(command.ends_with("\""));
}

#[test]
fn parses_aka_material() {
    let response = "DB02AABB DC02CCDD DD02EEFF 9000";
    let parsed = parse_aka_response(response).unwrap().unwrap();
    assert_eq!(parsed.res, vec![0xAA, 0xBB]);
    assert_eq!(parsed.ck, vec![0xCC, 0xDD]);
    assert_eq!(parsed.ik, vec![0xEE, 0xFF]);
}

#[test]
fn parses_auts_resync() {
    assert_eq!(
        parse_aka_response("DE02AABB9000").unwrap(),
        Err(AkaResync {
            auts: vec![0xAA, 0xBB]
        })
    );
}

#[test]
fn writes_the_authenticate_command_exactly() {
    let mut data = Vec::new();
    for byte in 0u8..32 {
        data.push(byte);
    }
    let expected = "AT+CSIM=76,\"008800812210000102030405060708090A0B0C0D0E0F101112131415161718191A1B1C1D1E1F\"";
    assert_eq!(build_authenticate_command(&data).unwrap(), expected);
    let quoted = format!(" \"{}\" ", STANDARD.encode(&data));
    assert_eq!(build_aka_auth_command(&quoted).unwrap(), expected);
}

#[test]
fn refuses_a_nonce_of_another_length() {
    assert_eq!(
        build_aka_auth_command(&STANDARD.encode([0u8; 16])),
        Err(ImsError::NonceLength)
    );
    assert_eq!(
        build_authenticate_command(&[0u8; 33]),
        Err(ImsError::NonceLength)
    );
}

#[test]
fn refuses_a_nonce_in_neither_form() {
    assert_eq!(
        build_aka_auth_command("not a nonce"),
        Err(ImsError::UndecodableNonce)
    );
}

#[test]
fn prefers_base64_and_falls_back_to_hexadecimal() {
    assert_eq!(choose_nonce_bytes("00 ff", None), Ok(vec![0x00, 0xff]));
    assert_eq!(choose_nonce_bytes("00ff", Some(vec![1])), Ok(vec![1]));
    assert_eq!(
        choose_nonce_bytes("0", None),
        Err(ImsError::UndecodableNonce)
    );
    // Sixty-six digits are no Base64, so they are read as hexadecimal: too many bytes.
    assert_eq!(
        build_aka_auth_command(&"00".repeat(33)),
        Err(ImsError::NonceLength)
    );
    // With white space between them the digits are no Base64 either.
    assert!(build_aka_auth_command(&"00 ".repeat(32)).is_ok());
}

#[test]
fn refuses_apdus_that_are_empty_or_not_hexadecimal() {
    assert_eq!(build_csim_command(""), Err(ImsError::EmptyApdu));
    assert_eq!(build_csim_command("0"), Err(ImsError::ApduNotHex));
    assert_eq!(build_csim_command("xy"), Err(ImsError::ApduNotHex));
    assert_eq!(decode_hex("zz"), Err(ImsError::ApduNotHex));
}

#[test]
fn reads_hexadecimal_back() {
    let bytes = vec![0x00, 0x7f, 0x80, 0xff, 0x1a];
    assert_eq!(encode_hex(&bytes), "007F80FF1A");
    assert_eq!(decode_hex("00 7f\t80\nFF1a"), Ok(bytes));
}

#[test]
fn reads_an_apdu_back_from_its_command() {
    let command = build_csim_command("00A40400").unwrap();
    assert_eq!(extract_csim_hex(&command), Ok("00A40400".to_string()));
}

#[test]
fn needs_quoted_hexadecimal_in_an_answer() {
    assert_eq!(extract_csim_hex("+CSIM: 4"), Err(ImsError::NoCsimData));
    assert_eq!(
        extract_csim_hex("+CSIM: 4,\"xyz\""),
        Err(ImsError::ApduNotHex)
    );
}

#[test]
fn skips_an_application_name_that_is_cut_short() {
    assert_eq!(
        parse_aid_from_select_response("84FF8402A1B2"),
        Ok(vec![0xA1, 0xB2])
    );
    assert_eq!(
        parse_aid_from_select_response("62098407A000"),
        Err(ImsError::MissingAid)
    );
    assert_eq!(
        parse_aid_from_select_response("8"),
        Err(ImsError::ApduNotHex)
    );
}

#[test]
fn tells_what_is_wrong_with_an_answer() {
    assert_eq!(parse_aka_response("zz"), Err(ImsError::ApduNotHex));
    assert_eq!(parse_aka_response("90"), Err(ImsError::AkaFailed));
    assert_eq!(parse_aka_response("9862"), Err(ImsError::AkaFailed));
    assert_eq!(
        parse_aka_response("DB05AABB9000"),
        Err(ImsError::TruncatedAka)
    );
    assert_eq!(parse_aka_response("9000"), Err(ImsError::MissingRes));
    assert_eq!(parse_aka_response("DB01AA9000"), Err(ImsError::MissingCk));
    assert_eq!(
        parse_aka_response("DB01AADC01BB9000"),
        Err(ImsError::MissingIk)
    );
}

#[test]
fn takes_the_last_of_repeated_elements() {
    assert_eq!(
        parse_aka_response("DB01AADC01BBDD01CCDB01AB000112DD01CD9000"),
        Ok(Ok(AkaResponse {
            res: vec![0xAB],
            ck: vec![0xBB],
            ik: vec![0xCD]
        }))
    );
}

#[test]
fn lets_resynchronization_prevail() {
    assert_eq!(
        parse_aka_response("DB01AADC01BBDD01CCDE01EE9000"),
        Ok(Err(AkaResync { auts: vec![0xEE] }))
    );
}
