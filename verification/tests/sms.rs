use simadmin_ims::error::ImsError;
use simadmin_ims::ims_sms::{
    body_hex_text, build_rp_ack, build_rp_ack_message, decode_address, decode_gsm7, decode_hex,
    decode_ims_sms, decode_ims_sms_body, decode_rp_deliver, decode_sms_deliver, digest_marker,
    gsm7_char, header_uri, message_marker, parse_concat_udh, parse_sip_message, sip_ok_response,
    utf16_text, ConcatInfo,
};
use simadmin_ims::sip_headers::SipHeaders;

fn rp_of(tpdu: &str) -> String {
    format!("00000000{:02X}{}", tpdu.len() / 2, tpdu)
}

#[test]
fn decodes_ucs2_sms_deliver() {
    let tpdu = "040B912143658709F1000832122310123400044F60597D";
    let rp = format!("00000000{:02X}{}", tpdu.len() / 2, tpdu);
    let sms = decode_ims_sms(&rp).unwrap();
    assert_eq!(sms.phone_number, "+12345678901");
    assert_eq!(sms.content, "你好");
    assert!(sms.marker.starts_with("volte-mt:"));
}

#[test]
fn decodes_ucs2_concat_header() {
    let tpdu = "440B912143658709F10008321223101234000A0500030102014F60597D";
    let rp = format!("00000000{:02X}{}", tpdu.len() / 2, tpdu);
    let sms = decode_ims_sms(&rp).unwrap();
    assert_eq!(sms.content, "你好");
    assert_eq!(
        sms.concat,
        Some(ConcatInfo {
            reference: 1,
            total: 2,
            sequence: 1
        })
    );
}

#[test]
fn parses_sip_message_body() {
    let packet = b"MESSAGE sip:x SIP/2.0\r\nContent-Type: application/vnd.3gpp.sms\r\n\r\nAABB";
    let (headers, body) = parse_sip_message(packet).unwrap();
    assert_eq!(headers.get("content-type").unwrap(), "application/vnd.3gpp.sms");
    assert_eq!(body, b"AABB");
}

#[test]
fn accepts_binary_sms_body() {
    let body = [0x00, 0x00, 0x00, 0x00, 0x01, 0x04];
    assert!(decode_ims_sms_body(&body).is_err());
}

#[test]
fn builds_matching_rp_ack() {
    assert_eq!(build_rp_ack(&[0x00, 0x37, 0x00, 0x00]).unwrap(), vec![0x02, 0x37]);
}

#[test]
fn builds_rp_ack_sip_message() {
    let mut headers = SipHeaders::new();
    headers.insert("from".into(), "<sip:network@example>;tag=n".into());
    headers.insert("to".into(), "<sip:me@example>;tag=m".into());
    headers.insert("call-id".into(), "call".into());
    headers.insert("cseq".into(), "1 MESSAGE".into());
    let packet = build_rp_ack_message(
        &headers,
        "2001:db8::10".parse().unwrap(),
        5062,
        &[0x02, 0x37],
    )
    .unwrap();
    assert!(String::from_utf8_lossy(&packet).contains("MESSAGE sip:network@example SIP/2.0"));
    assert!(packet.ends_with(&[0x02, 0x37]));
}

#[test]
fn marks_a_message_by_the_digest_of_its_body() {
    let rp = rp_of("040B912143658709F1000832122310123400044F60597D");
    let sms = decode_ims_sms(&rp).unwrap();
    assert_eq!(sms.marker, format!("volte-mt:{:x}", md5::compute(&rp)));
    assert_eq!(
        message_marker("abc"),
        "volte-mt:900150983cd24fb0d6963f7d28e17f72"
    );
    assert_eq!(digest_marker(&[0x0a, 0xff]), "volte-mt:0aff");
}

#[test]
fn decodes_packed_septets() {
    // "hello" in the GSM default alphabet.
    let packed = [0xE8, 0x32, 0x9B, 0xFD, 0x06];
    assert_eq!(decode_gsm7(&packed, 5), "hello");
    let (phone, content, concat) = decode_sms_deliver(&[
        0x04, 0x04, 0x81, 0x21, 0x43, 0x00, 0x00, 0, 0, 0, 0, 0, 0, 0, 0x05, 0xE8, 0x32, 0x9B,
        0xFD, 0x06,
    ])
    .unwrap();
    assert_eq!(phone, "1234");
    assert_eq!(content, "hello");
    assert_eq!(concat, None);
}

#[test]
fn reads_zero_bits_behind_the_data() {
    assert_eq!(decode_gsm7(&[0x41], 3), "A  ");
}

#[test]
fn maps_gsm_characters() {
    assert_eq!(gsm7_char(0x0a), '\n');
    assert_eq!(gsm7_char(0x0d), '\r');
    assert_eq!(gsm7_char(0x1f), ' ');
    assert_eq!(gsm7_char(0x20), ' ');
    assert_eq!(gsm7_char(0x7e), '~');
    assert_eq!(gsm7_char(0x7f), '?');
}

#[test]
fn decodes_eight_bit_data_as_text() {
    let tpdu = [
        0x00, 0x02, 0x81, 0x21, 0x00, 0x04, 0, 0, 0, 0, 0, 0, 0, 0x09, b'o', b'k', 0xff,
    ];
    assert_eq!(
        decode_sms_deliver(&tpdu),
        Ok(("12".to_string(), "ok\u{fffd}".to_string(), None))
    );
}

#[test]
fn decodes_addresses() {
    assert_eq!(
        decode_address(&[0x91, 0x21, 0xF3], 3),
        Ok(("+123".to_string(), 3))
    );
    assert_eq!(
        decode_address(&[0x81, 0xA1, 0x32], 4),
        Ok(("123".to_string(), 3))
    );
    assert_eq!(decode_address(&[0x91], 1), Err(ImsError::TruncatedAddress));
}

#[test]
fn reads_concatenation_elements() {
    let info = ConcatInfo {
        reference: 0x0102,
        total: 3,
        sequence: 2,
    };
    assert_eq!(
        parse_concat_udh(&[6, 0x08, 4, 1, 2, 3, 2, 9]),
        Some((info, 7))
    );
    assert_eq!(
        parse_concat_udh(&[8, 0x24, 1, 7, 0x00, 3, 9, 2, 1]),
        Some((
            ConcatInfo {
                reference: 9,
                total: 2,
                sequence: 1
            },
            9
        ))
    );
    assert_eq!(parse_concat_udh(&[]), None);
    assert_eq!(parse_concat_udh(&[5, 0, 3]), None);
    assert_eq!(parse_concat_udh(&[3, 0x24, 9, 7]), None);
    assert_eq!(parse_concat_udh(&[2, 0x24, 0]), None);
}

#[test]
fn decodes_code_units() {
    assert_eq!(utf16_text(&[0x4f, 0x60]), Some("你".to_string()));
    assert_eq!(
        utf16_text(&[0xd8, 0x3d, 0xde, 0x00]),
        Some("\u{1f600}".to_string())
    );
    assert_eq!(utf16_text(&[0xd8, 0x3d]), None);
    assert_eq!(utf16_text(&[0xde, 0x00]), None);
    assert_eq!(utf16_text(&[0x00, 0x41, 0x42]), Some("A".to_string()));
}

#[test]
fn tells_what_is_wrong_with_a_delivery() {
    assert_eq!(decode_sms_deliver(&[0x00]), Err(ImsError::NotSmsDeliver));
    assert_eq!(decode_sms_deliver(&[0x01, 0]), Err(ImsError::NotSmsDeliver));
    assert_eq!(
        decode_sms_deliver(&[0x00, 4, 0x81, 0x21]),
        Err(ImsError::TruncatedAddress)
    );
    assert_eq!(
        decode_sms_deliver(&[0x00, 2, 0x81, 0x21, 0, 0]),
        Err(ImsError::MissingUserData)
    );
    let head = [0x40, 2, 0x81, 0x21, 0, 0x08, 0, 0, 0, 0, 0, 0, 0];
    let with = |rest: &[u8]| {
        let mut tpdu = head.to_vec();
        tpdu.extend_from_slice(rest);
        decode_sms_deliver(&tpdu)
    };
    assert_eq!(with(&[2, 0x41]), Err(ImsError::TruncatedUcs2));
    assert_eq!(with(&[1, 0x41]), Err(ImsError::TruncatedUcs2));
    assert_eq!(
        with(&[4, 5, 0, 3, 1, 2, 1]),
        Err(ImsError::OversizedUdh)
    );
    assert_eq!(with(&[2, 0xd8, 0x00]), Err(ImsError::InvalidUtf16));
}

#[test]
fn tells_what_is_wrong_with_rp_data() {
    assert_eq!(decode_rp_deliver("0"), Err(ImsError::BodyNotHex));
    assert_eq!(decode_hex("0g"), Err(ImsError::BodyNotHex));
    assert_eq!(decode_rp_deliver("000000"), Err(ImsError::NotRpData));
    assert_eq!(decode_rp_deliver("01000000"), Err(ImsError::NotRpData));
    assert_eq!(
        decode_rp_deliver("00000100"),
        Err(ImsError::MissingRpDestination)
    );
    assert_eq!(
        decode_rp_deliver("00000000"),
        Err(ImsError::MissingRpUserData)
    );
    assert_eq!(
        decode_rp_deliver("0000000002AA"),
        Err(ImsError::TruncatedRpUserData)
    );
}

#[test]
fn reads_both_forms_of_a_body_alike() {
    let text = rp_of("040B912143658709F1000832122310123400044F60597D");
    let bytes = decode_hex(&text).unwrap();
    let from_text = decode_ims_sms_body(text.as_bytes()).unwrap();
    let from_bytes = decode_ims_sms_body(&bytes).unwrap();
    assert_eq!(from_text, from_bytes);
    assert_eq!(body_hex_text(&bytes), text);
    assert_eq!(body_hex_text(b"0a\r\n 0B"), "0a0B");
    assert_eq!(body_hex_text(b"0a-"), "30612D");
    assert_eq!(
        build_rp_ack(text.as_bytes()).unwrap(),
        build_rp_ack(&bytes).unwrap()
    );
}

#[test]
fn refuses_to_acknowledge_other_messages() {
    assert_eq!(build_rp_ack(&[0x01, 0x37]), Err(ImsError::CannotAcknowledge));
    assert_eq!(build_rp_ack(b"00"), Err(ImsError::CannotAcknowledge));
    assert_eq!(build_rp_ack(b"000"), Err(ImsError::BodyNotHex));
}

#[test]
fn tells_what_is_wrong_with_a_sip_message() {
    assert_eq!(
        parse_sip_message(b"MESSAGE x\r\n").err(),
        Some(ImsError::IncompleteHeaders)
    );
    assert_eq!(
        parse_sip_message(b"MESSAGE \xff\r\n\r\n").err(),
        Some(ImsError::HeadersNotUtf8(8, Some(1)))
    );
    let cases: [&[u8]; 5] = [
        b"MESSAGE \xff",
        b"M\xe4\xbd\xa0 \xe4\xbdx",
        b"\xf0\x9f\x98",
        b"ab\xc3",
        b"\xed\xa0\x80",
    ];
    for head in cases {
        let mut packet = head.to_vec();
        packet.extend_from_slice(b"\r\n\r\nAABB");
        let expected = std::str::from_utf8(head).unwrap_err().to_string();
        assert_eq!(parse_sip_message(&packet).unwrap_err().message(), expected);
    }
    assert_eq!(
        parse_sip_message(b"MESSAGE x\r\nnothing\r\n\r\n").err(),
        Some(ImsError::MalformedHeader)
    );
}

#[test]
fn keeps_the_last_of_repeated_headers() {
    let packet = b"MESSAGE x\r\n Via : a\r\nVIA: b : c \r\n\r\n\r\n\r\n";
    let (headers, body) = parse_sip_message(packet).unwrap();
    assert_eq!(headers.get("via").unwrap(), "b : c");
    assert!(headers.get("Via").is_none());
    assert_eq!(body, b"\r\n\r\n");
}

#[test]
fn repeats_the_headers_of_the_request() {
    let packet = b"MESSAGE x\r\nTo: t\r\nCSeq: 7 MESSAGE\r\nVia: v\r\nX: y\r\n\r\n";
    let (headers, _) = parse_sip_message(packet).unwrap();
    assert_eq!(
        sip_ok_response(&headers),
        "SIP/2.0 200 OK\r\nvia: v\r\nto: t\r\ncseq: 7 MESSAGE\r\nContent-Length: 0\r\n\r\n"
    );
}

#[test]
fn finds_the_uri_of_a_header() {
    assert_eq!(
        header_uri("\"N\" <sip:a@b>;tag=1"),
        Some("sip:a@b".to_string())
    );
    assert_eq!(header_uri(" sip:a@b ;tag=1"), Some("sip:a@b".to_string()));
    assert_eq!(header_uri("<sip:a@b"), Some("sip:a@b".to_string()));
}

#[test]
fn writes_the_acknowledging_message_exactly() {
    let packet = b"MESSAGE x\r\nFrom: sip:n@e;tag=n\r\nTo: me\r\nCall-ID: c\r\nCSeq: 41 MESSAGE\r\n\r\n";
    let (headers, _) = parse_sip_message(packet).unwrap();
    let ack =
        build_rp_ack_message(&headers, "2001:db8::10".parse().unwrap(), 5062, b"\x02\x07").unwrap();
    let expected = "MESSAGE sip:n@e SIP/2.0\r\n\
        Via: SIP/2.0/UDP [2001:db8::10]:5062;branch=z9hG4bK-simadmin-rp-ack-42;rport\r\n\
        From: me\r\nTo: sip:n@e;tag=n\r\nCall-ID: c\r\nCSeq: 42 MESSAGE\r\n\
        Content-Type: application/vnd.3gpp.sms\r\nContent-Length: 2\r\n\r\n\u{2}\u{7}";
    assert_eq!(ack, expected.as_bytes());
    let (back, body) = parse_sip_message(&ack).unwrap();
    assert_eq!(back.get("call-id").unwrap(), "c");
    assert_eq!(body, b"\x02\x07");
}

#[test]
fn counts_on_from_the_sequence_number() {
    let local = "::1".parse().unwrap();
    let mut headers = SipHeaders::new();
    headers.insert("from".into(), "f".into());
    headers.insert("to".into(), "t".into());
    headers.insert("call-id".into(), "c".into());
    let text = |headers: &SipHeaders| {
        String::from_utf8(build_rp_ack_message(headers, local, 1, b"").unwrap()).unwrap()
    };
    assert!(text(&headers).contains("CSeq: 2 MESSAGE"));
    headers.insert("cseq".into(), "x".into());
    assert!(text(&headers).contains("CSeq: 2 MESSAGE"));
    headers.insert("cseq".into(), "4294967295 MESSAGE".into());
    assert!(text(&headers).contains("CSeq: 4294967295 MESSAGE"));
}

#[test]
fn needs_the_headers_of_a_dialog() {
    let local = "::1".parse().unwrap();
    let mut headers = SipHeaders::new();
    assert_eq!(
        build_rp_ack_message(&headers, local, 1, b""),
        Err(ImsError::MissingFrom)
    );
    headers.insert("from".into(), "f".into());
    assert_eq!(
        build_rp_ack_message(&headers, local, 1, b""),
        Err(ImsError::MissingTo)
    );
    headers.insert("to".into(), "t".into());
    assert_eq!(
        build_rp_ack_message(&headers, local, 1, b""),
        Err(ImsError::MissingCallId)
    );
}
