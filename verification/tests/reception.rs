use simadmin_ims::ims_sms::{message_marker, ConcatInfo, IncomingImsSms};
use simadmin_ims::sms_reception::{record_of, sms_carried, SmsAssembler, SmsRecord};

fn part(phone: &str, reference: u16, total: u8, sequence: u8, content: &str) -> IncomingImsSms {
    IncomingImsSms {
        phone_number: phone.to_string(),
        content: content.to_string(),
        marker: format!("m{sequence}"),
        concat: Some(ConcatInfo {
            reference,
            total,
            sequence,
        }),
    }
}

fn packet(body: &str) -> Vec<u8> {
    format!(
        "MESSAGE sip:me SIP/2.0\r\nVia: v\r\nFrom: <sip:n>\r\nTo: <sip:me>\r\nCall-ID: c\r\nCSeq: 1 MESSAGE\r\nContent-Type: Application/VND.3gpp.SMS\r\n\r\n{body}"
    )
    .into_bytes()
}

const SINGLE: &str = "0007000017040B912143658709F1000832122310123400044F60597D";

#[test]
fn passes_a_single_message_on() {
    let mut assembler = SmsAssembler::new();
    let sms = IncomingImsSms {
        phone_number: "1".to_string(),
        content: "x".to_string(),
        marker: "m".to_string(),
        concat: None,
    };
    assert_eq!(assembler.absorb(sms.clone()), Some(sms));
}

#[test]
fn joins_the_parts_in_any_order() {
    for order in [[1, 2, 3], [1, 3, 2], [2, 1, 3], [2, 3, 1], [3, 1, 2], [3, 2, 1]] {
        let mut assembler = SmsAssembler::new();
        let texts = ["a", "b", "c"];
        let mut last = None;
        for (index, sequence) in order.iter().enumerate() {
            last = assembler.absorb(part("1", 9, 3, *sequence, texts[*sequence as usize - 1]));
            assert_eq!(last.is_some(), index == 2);
        }
        let message = last.unwrap();
        assert_eq!(message.phone_number, "1");
        assert_eq!(message.content, "abc");
        assert_eq!(message.marker, message_marker("m1m2m3"));
        assert_eq!(message.concat, None);
        // Nothing of the message is kept.
        assert_eq!(assembler.absorb(part("1", 9, 3, 1, "a")), None);
    }
}

#[test]
fn keeps_messages_apart() {
    let mut assembler = SmsAssembler::new();
    assert_eq!(assembler.absorb(part("1", 9, 2, 1, "a")), None);
    assert_eq!(assembler.absorb(part("2", 9, 2, 2, "d")), None);
    assert_eq!(assembler.absorb(part("1", 8, 2, 2, "f")), None);
    assert_eq!(
        assembler.absorb(part("2", 9, 2, 1, "c")).unwrap().content,
        "cd"
    );
    assert_eq!(
        assembler.absorb(part("1", 9, 2, 2, "b")).unwrap().content,
        "ab"
    );
    assert_eq!(
        assembler.absorb(part("1", 8, 2, 1, "e")).unwrap().content,
        "ef"
    );
}

#[test]
fn takes_a_repeated_part_once() {
    let mut assembler = SmsAssembler::new();
    assert_eq!(assembler.absorb(part("1", 9, 2, 1, "a")), None);
    assert_eq!(assembler.absorb(part("1", 9, 2, 1, "a")), None);
    assert_eq!(
        assembler.absorb(part("1", 9, 2, 2, "b")).unwrap().content,
        "ab"
    );
}

#[test]
fn begins_anew_where_the_number_of_parts_differs() {
    let mut assembler = SmsAssembler::new();
    assert_eq!(assembler.absorb(part("1", 9, 3, 1, "x")), None);
    assert_eq!(assembler.absorb(part("1", 9, 2, 2, "b")), None);
    assert_eq!(
        assembler.absorb(part("1", 9, 2, 1, "a")).unwrap().content,
        "ab"
    );
}

#[test]
fn drops_parts_without_a_place() {
    let mut assembler = SmsAssembler::new();
    assert_eq!(assembler.absorb(part("1", 9, 0, 0, "x")), None);
    assert_eq!(assembler.absorb(part("1", 9, 1, 0, "x")), None);
    assert_eq!(assembler.absorb(part("1", 9, 1, 2, "x")), None);
    assert_eq!(
        assembler.absorb(part("1", 9, 1, 1, "a")).unwrap().content,
        "a"
    );
}

#[test]
fn answers_a_packet_with_a_message() {
    let mut assembler = SmsAssembler::new();
    let local = "2001:db8::10".parse().unwrap();
    let reception = assembler.receive(&packet(SINGLE), local, 5062).unwrap();
    assert!(reception.response.starts_with("SIP/2.0 200 OK\r\nvia: v\r\n"));
    let ack = reception.acknowledgement.unwrap();
    assert!(ack.starts_with(b"MESSAGE sip:n SIP/2.0\r\nVia: SIP/2.0/UDP [2001:db8::10]:5062;"));
    assert!(ack.ends_with(&[0x02, 0x07]));
    let message = reception.message.unwrap();
    assert_eq!(message.phone_number, "+12345678901");
    assert_eq!(message.content, "你好");
    assert_eq!(message.marker, message_marker(SINGLE));
}

#[test]
fn answers_a_body_that_cannot_be_decoded() {
    let mut assembler = SmsAssembler::new();
    let local = "::1".parse().unwrap();
    let reception = assembler.receive(&packet("0007"), local, 5062).unwrap();
    assert!(reception.acknowledgement.is_some());
    assert_eq!(reception.message, None);
    let reception = assembler.receive(&packet("0"), local, 5062).unwrap();
    assert!(reception.response.ends_with("Content-Length: 0\r\n\r\n"));
    assert_eq!(reception.acknowledgement, None);
    assert_eq!(reception.message, None);
}

#[test]
fn ignores_other_packets() {
    let mut assembler = SmsAssembler::new();
    let local = "::1".parse().unwrap();
    for other in [
        "MESSAGE sip:me SIP/2.0\r\nContent-Type: text/plain\r\n\r\n00",
        "MESSAGE sip:me SIP/2.0\r\nVia: v\r\n\r\n00",
        "OPTIONS sip:me SIP/2.0\r\nContent-Type: application/vnd.3gpp.sms\r\n\r\n00",
        "MESSAGE\r\nContent-Type: application/vnd.3gpp.sms\r\n\r\n00",
        "MESSAGE sip:me SIP/2.0\r\nContent-Type: application/vnd.3gpp.sms\r\n",
    ] {
        assert!(sms_carried(other.as_bytes()).is_none());
        assert!(assembler.receive(other.as_bytes(), local, 1).is_none());
    }
}

#[test]
fn records_a_message_unless_its_marker_is_known() {
    let sms = IncomingImsSms {
        phone_number: "1".to_string(),
        content: "x".to_string(),
        marker: "m".to_string(),
        concat: None,
    };
    assert_eq!(
        record_of(sms.clone(), false),
        Some(SmsRecord {
            direction: "incoming".to_string(),
            phone_number: "1".to_string(),
            content: "x".to_string(),
            status: "received".to_string(),
            transport: "volte_ims".to_string(),
            pdu: Some("m".to_string()),
        })
    );
    assert_eq!(record_of(sms, true), None);
}
