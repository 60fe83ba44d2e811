use simadmin_ims::command::error_output_text;
use simadmin_ims::error::{BearerCommand, ImsError};
use simadmin_ims::ipv6::Ipv6Addr;
use simadmin_ims::number::{push_decimal, push_hex, push_hex_fixed, read_hex, read_unsigned};
use simadmin_ims::number::{to_hex_lower, to_hex_upper};
use simadmin_ims::sip_headers::SipHeaders;
use simadmin_ims::text::{
    char_is_ascii_white_space, char_is_white_space, chars_of, comes_before, contains, lines_of,
    same_str, split_on, starts_with, string_of, trimmed, trimmed_set, without_white_space, words_of,
};

fn texts(pieces: Vec<&[char]>) -> Vec<String> {
    pieces.into_iter().map(string_of).collect()
}

#[test]
fn knows_white_space() {
    for code in 0..0x11_0000u32 {
        if let Some(c) = char::from_u32(code) {
            assert_eq!(char_is_white_space(c), c.is_whitespace());
            assert_eq!(char_is_ascii_white_space(c), c.is_ascii_whitespace());
        }
    }
}

#[test]
fn splits_text() {
    for sample in [
        "",
        "a",
        "\n",
        "a\nb",
        "a\r\nb\r\n",
        "a\r\r\n\nb\r",
        " x \t y\u{3000}z ",
        "a,b,,c,",
        ",",
        "é\u{1f600},\n",
    ] {
        let chars = chars_of(sample);
        assert_eq!(string_of(&chars), sample);
        let lines: Vec<&str> = sample.lines().collect();
        assert_eq!(texts(lines_of(&chars)), lines);
        let words: Vec<&str> = sample.split_whitespace().collect();
        assert_eq!(texts(words_of(&chars)), words);
        let fields: Vec<&str> = sample.split(',').collect();
        assert_eq!(texts(split_on(&chars, ',')), fields);
        assert_eq!(string_of(trimmed(&chars)), sample.trim());
        assert_eq!(contains(&chars, "b\r"), sample.contains("b\r"));
        assert_eq!(starts_with(&chars, "a\r"), sample.starts_with("a\r"));
    }
}

#[test]
fn trims_and_compacts() {
    let chars = chars_of("'[\"a'b\"]'");
    assert_eq!(string_of(trimmed_set(&chars, "'\"[]")), "a'b");
    let chars = chars_of(" 0 a\t\u{b}\r\n");
    assert_eq!(string_of(&without_white_space(&chars)), "0a\u{b}");
}

#[test]
fn orders_text() {
    let samples = ["", "a", "aa", "ab", "b", "é", "\u{1f600}", "wwan0qmi1", "wwan0qmi10"];
    for a in samples {
        for b in samples {
            assert_eq!(comes_before(a, b), a < b);
            assert_eq!(same_str(a, b), a == b);
        }
    }
}

#[test]
fn writes_numbers() {
    let mut s = String::new();
    push_decimal(&mut s, 0);
    push_decimal(&mut s, 1234567890);
    push_hex(&mut s, 0);
    push_hex(&mut s, 0xbeef);
    push_hex_fixed(&mut s, 0x1f, 4);
    assert_eq!(s, "012345678900beef001f");
    assert_eq!(to_hex_upper(&[0xab, 0x01]), "AB01");
    assert_eq!(to_hex_lower(&[0xab, 0x01]), "ab01");
}

#[test]
fn reads_numbers() {
    let read = |s: &str, max: u32| read_unsigned(&chars_of(s), max);
    assert_eq!(read("0", 9), Some(0));
    assert_eq!(read("+0042", 99), Some(42));
    assert_eq!(read("100", 99), None);
    assert_eq!(read("4294967295", u32::MAX), Some(u32::MAX));
    assert_eq!(read("4294967296", u32::MAX), None);
    assert_eq!(read("99999999999999999999999", u32::MAX), None);
    for bad in ["", "+", "++1", "-1", "1 ", "1a", "١"] {
        assert_eq!(read(bad, u32::MAX), None);
        assert!(bad.parse::<u32>().is_err());
    }
    assert_eq!(read_hex(&chars_of("0aFf")), Some(vec![0x0a, 0xff]));
    assert_eq!(read_hex(&chars_of("0aF")), None);
    assert_eq!(read_hex(&chars_of("0g")), None);
}

#[test]
fn reads_addresses() {
    assert_eq!(
        Ipv6Addr::parse("2001:db8::5"),
        Some(Ipv6Addr::new(0x2001, 0xdb8, 0, 0, 0, 0, 0, 5))
    );
    assert_eq!(
        Ipv6Addr::parse("::ffff:192.0.2.33"),
        Some(Ipv6Addr::new(0, 0, 0, 0, 0, 0xffff, 0xc000, 0x0221))
    );
    assert_eq!(
        Ipv6Addr::parse("1:2:3:4:5:6:1.2.3.4"),
        Some(Ipv6Addr::new(1, 2, 3, 4, 5, 6, 0x0102, 0x0304))
    );
    assert_eq!(
        Ipv6Addr::parse("1::2:3:4:5:6:7"),
        Some(Ipv6Addr::new(1, 0, 2, 3, 4, 5, 6, 7))
    );
    for bad in [
        "",
        ":",
        ":::",
        "1",
        "1:2:3:4:5:6:7",
        "1:2:3:4:5:6:7:8:9",
        "1:2:3:4::5:6:7:8",
        "1::2::3",
        "12345::",
        "g::",
        " ::1",
        "::1 ",
        "1.2.3.4",
        "1.2.3.4::",
        "::1.2.3",
        "::1.2.3.256",
        "::01.2.3.4",
        "::1.2.3.4:5",
        "1:2:3:4:5:6:7:1.2.3.4",
        "::+1",
        "1:",
        ":1:2:3:4:5:6:7:8",
    ] {
        assert_eq!(Ipv6Addr::parse(bad), None, "{bad}");
    }
}

#[test]
fn writes_addresses_canonically() {
    for (segments, expected) in [
        ([0, 0, 0, 0, 0, 0, 0, 0], "::"),
        ([0, 0, 0, 0, 0, 0, 0, 1], "::1"),
        ([1, 0, 0, 0, 0, 0, 0, 0], "1::"),
        ([0x2001, 0xdb8, 0, 0, 1, 0, 0, 1], "2001:db8::1:0:0:1"),
        ([1, 0, 0, 2, 0, 0, 0, 3], "1:0:0:2::3"),
        ([1, 0, 2, 3, 4, 5, 6, 7], "1:0:2:3:4:5:6:7"),
        ([0, 0, 0, 0, 0, 0xffff, 0x0102, 0x0304], "::ffff:1.2.3.4"),
        ([0, 0, 0, 0, 0, 0, 0x0102, 0x0304], "::102:304"),
    ] {
        let address = Ipv6Addr { segments };
        assert_eq!(address.to_text(), expected);
        assert_eq!(Ipv6Addr::parse(expected), Some(address));
    }
    assert!("x".parse::<Ipv6Addr>().is_err());
}

#[test]
fn keeps_one_value_for_each_header() {
    let mut headers = SipHeaders::new();
    assert_eq!(headers.get("a"), None);
    headers.insert("a".to_string(), "1".to_string());
    headers.insert("b".to_string(), "2".to_string());
    headers.insert("a".to_string(), "3".to_string());
    assert_eq!(headers.get("a"), Some(&"3".to_string()));
    assert_eq!(headers.get("b"), Some(&"2".to_string()));
    assert_eq!(headers.get("A"), None);
}

#[test]
fn describes_errors() {
    for (error, expected) in [
        (ImsError::ZeroSpi, "IPsec SPI must be non-zero"),
        (
            ImsError::Data6NotFound,
            "DATA6 RPMSG device DATA6_CNTL was not found",
        ),
        (
            ImsError::RegisterStatus(None),
            "IMS authenticated REGISTER returned None",
        ),
        (
            ImsError::BearerCommandFailed(BearerCommand::ReadStatus, "x".to_string()),
            "qmicli failed to read secondary IMS bearer status: x",
        ),
        (
            ImsError::BearerCommandTimedOut(BearerCommand::ReadSettings),
            "timed out reading secondary IMS bearer settings",
        ),
        (
            ImsError::ApduFailed("x".to_string()),
            "IMS AKA APDU failed: x",
        ),
        (ImsError::System("x".to_string()), "x"),
    ] {
        assert_eq!(error.message(), expected);
    }
    assert_eq!(error_output_text(b" a b \xff\n"), "a b \u{fffd}");
}
