//! What can go wrong.
use vstd::prelude::*;
use crate::number;
use crate::number::push_decimal;

verus! {

/// The commands that `qmicli` runs on the secondary bearer.
#[derive(Debug, Clone, Copy, PartialEq, Eq, Structural)]
pub enum BearerCommand {
    Start,
    ReadSettings,
    ReadStatus,
    Stop,
}

/// The reason for which an operation has no result.
#[derive(Debug, Clone, PartialEq, Eq)]
pub enum ImsError {
    ZeroSpi,
    EmptyKeys,
    KeysNotHex,
    EmptyDigestField,
    MissingBranchOrCallId,
    IncompleteHeaders,
    MalformedHeader,
    BodyNotHex,
    TruncatedAddress,
    NotSmsDeliver,
    MissingUserData,
    TruncatedUcs2,
    OversizedUdh,
    InvalidUtf16,
    NotRpData,
    MissingRpDestination,
    MissingRpUserData,
    TruncatedRpUserData,
    CannotAcknowledge,
    MissingFrom,
    MissingTo,
    MissingCallId,
    ApduNotHex,
    EmptyApdu,
    NoCsimData,
    UndecodableNonce,
    NonceLength,
    MissingAid,
    AkaFailed,
    TruncatedAka,
    MissingRes,
    MissingCk,
    MissingIk,
    Data6NotFound,
    NoDriverOverride,
    NoBindNode,
    InvalidDeviceName,
    EndpointNotReady,
    EndpointDisappeared,
    EndpointReplaced,
    MissingInterface,
    InvalidBearerAddress,
    InvalidBearerGateway,
    MissingDeviceOrApn,
    MissingDeviceOrHandle,
    NoPacketHandle,
    NoIpv6Settings,
    UnknownBearerStatus,
    InvalidImsAddress,
    MissingIdentity,
    MissingImsi,
    ResponseTimedOut,
    NoAkaChallenge,
    NoSecurityServer,
    AkaResynchronization,
    /// The headers are valid UTF-8 up to this index only, where a sequence of this length stands,
    /// or one that is cut short.
    HeadersNotUtf8(usize, Option<usize>),
    /// The first request was answered with this status instead of a challenge.
    InitialRegisterStatus(Option<u16>),
    /// The authenticated request was answered with this status instead of success.
    RegisterStatus(Option<u16>),
    /// The driver could not be loaded, with what the command wrote to its error output.
    DriverNotLoaded(String),
    /// The IPsec state was refused, with what the command wrote to its error output.
    EspNotInstalled(String),
    /// The interface was not configured, with what the command wrote to its error output.
    InterfaceNotConfigured(String),
    /// A command on the bearer failed, with what it wrote to its error output.
    BearerCommandFailed(BearerCommand, String),
    /// A command on the bearer did not end in time.
    BearerCommandTimedOut(BearerCommand),
    /// The modem could not be found.
    ModemNotFound(String),
    /// The modem refused a command to the USIM.
    ApduFailed(String),
    /// The system reported an error.
    System(String),
}

/// A status code as it is shown in messages.
pub open spec fn status_text(status: Option<u16>) -> Seq<char> {
    match status {
        Some(code) => "Some("@ + number::decimal(code as nat) + ")"@,
        None => "None"@,
    }
}

/// How it is described that bytes are not UTF-8.
pub open spec fn utf8_error_text(index: usize, length: Option<usize>) -> Seq<char> {
    match length {
        Some(bytes) => "invalid utf-8 sequence of "@ + number::decimal(bytes as nat)
            + " bytes from index "@ + number::decimal(index as nat),
        None => "incomplete utf-8 byte sequence from index "@ + number::decimal(index as nat),
    }
}

fn utf8_error_message(index: usize, length: Option<usize>) -> (s: String)
    ensures
        s@ == utf8_error_text(index, length),
{
    match length {
        Some(bytes) => {
            let mut s = "invalid utf-8 sequence of ".to_owned();
            push_decimal(&mut s, bytes as u128);
            s.append(" bytes from index ");
            push_decimal(&mut s, index as u128);
            s
        },
        None => {
            let mut s = "incomplete utf-8 byte sequence from index ".to_owned();
            push_decimal(&mut s, index as u128);
            s
        },
    }
}

impl BearerCommand {
    /// What a failure of the command is called.
    pub open spec fn failure(self) -> Seq<char> {
        match self {
            BearerCommand::Start => "qmicli failed to start secondary IMS bearer: "@,
            BearerCommand::ReadSettings => "qmicli failed to read secondary IMS bearer settings: "@,
            BearerCommand::ReadStatus => "qmicli failed to read secondary IMS bearer status: "@,
            BearerCommand::Stop => "qmicli failed to stop secondary IMS bearer: "@,
        }
    }

    /// What the command does when it takes too long.
    pub open spec fn activity(self) -> Seq<char> {
        match self {
            BearerCommand::Start => "starting secondary IMS bearer"@,
            BearerCommand::ReadSettings => "reading secondary IMS bearer settings"@,
            BearerCommand::ReadStatus => "reading secondary IMS bearer status"@,
            BearerCommand::Stop => "stopping secondary IMS bearer"@,
        }
    }

    fn failure_text(self) -> (s: &'static str)
        ensures
            s@ == self.failure(),
    {
        match self {
            BearerCommand::Start => "qmicli failed to start secondary IMS bearer: ",
            BearerCommand::ReadSettings => "qmicli failed to read secondary IMS bearer settings: ",
            BearerCommand::ReadStatus => "qmicli failed to read secondary IMS bearer status: ",
            BearerCommand::Stop => "qmicli failed to stop secondary IMS bearer: ",
        }
    }

    fn activity_text(self) -> (s: &'static str)
        ensures
            s@ == self.activity(),
    {
        match self {
            BearerCommand::Start => "starting secondary IMS bearer",
            BearerCommand::ReadSettings => "reading secondary IMS bearer settings",
            BearerCommand::ReadStatus => "reading secondary IMS bearer status",
            BearerCommand::Stop => "stopping secondary IMS bearer",
        }
    }
}

fn push_status(out: &mut String, status: Option<u16>)
    ensures
        final(out)@ == old(out)@ + status_text(status),
{
    match status {
        Some(code) => {
            out.append("Some(");
            push_decimal(out, code as u128);
            out.append(")");
            assert(out@ =~= old(out)@ + status_text(status));
        },
        None => {
            out.append("None");
        },
    }
}

impl ImsError {
    /// The message that describes the error.
    pub open spec fn text(self) -> Seq<char> {
        match self {
            ImsError::ZeroSpi => "IPsec SPI must be non-zero"@,
            ImsError::EmptyKeys => "IPsec keys must not be empty"@,
            ImsError::KeysNotHex => "IPsec keys must be hexadecimal"@,
            ImsError::EmptyDigestField => "IMS AKA digest fields must not be empty"@,
            ImsError::MissingBranchOrCallId => "SIP branch and Call-ID are required"@,
            ImsError::IncompleteHeaders => "IMS SIP MESSAGE headers are incomplete"@,
            ImsError::HeadersNotUtf8(index, length) => utf8_error_text(index, length),
            ImsError::MalformedHeader => "IMS SIP MESSAGE header is malformed"@,
            ImsError::BodyNotHex => "IMS SMS body is not hexadecimal"@,
            ImsError::TruncatedAddress => "IMS SMS address is truncated"@,
            ImsError::NotSmsDeliver => "IMS TPDU is not SMS-DELIVER"@,
            ImsError::MissingUserData => "IMS SMS-DELIVER user data is missing"@,
            ImsError::TruncatedUcs2 => "IMS UCS2 SMS data is truncated"@,
            ImsError::OversizedUdh => "IMS SMS UDH exceeds user data length"@,
            ImsError::InvalidUtf16 => "invalid utf-16: lone surrogate found"@,
            ImsError::NotRpData => "IMS body is not RP-DATA"@,
            ImsError::MissingRpDestination => "IMS RP-DATA destination is missing"@,
            ImsError::MissingRpUserData => "IMS RP-DATA user data is missing"@,
            ImsError::TruncatedRpUserData => "IMS RP-DATA user data is truncated"@,
            ImsError::CannotAcknowledge => "cannot acknowledge non-RP-DATA body"@,
            ImsError::MissingFrom => "IMS SMS From header is missing"@,
            ImsError::MissingTo => "IMS SMS To header is missing"@,
            ImsError::MissingCallId => "IMS SMS Call-ID header is missing"@,
            ImsError::ApduNotHex => "USIM APDU response is not hexadecimal"@,
            ImsError::EmptyApdu => "USIM APDU must not be empty"@,
            ImsError::NoCsimData => "Modem response did not contain CSIM hex data"@,
            ImsError::UndecodableNonce => "IMS AKA nonce is not base64 or hexadecimal"@,
            ImsError::NonceLength => "IMS AKA nonce must contain 16-byte RAND and AUTN"@,
            ImsError::MissingAid => "USIM AID was not present in SELECT response"@,
            ImsError::AkaFailed => "USIM AKA APDU failed"@,
            ImsError::TruncatedAka => "truncated USIM AKA response"@,
            ImsError::MissingRes => "USIM AKA RES was missing"@,
            ImsError::MissingCk => "USIM AKA CK was missing"@,
            ImsError::MissingIk => "USIM AKA IK was missing"@,
            ImsError::Data6NotFound => "DATA6 RPMSG device DATA6_CNTL was not found"@,
            ImsError::NoDriverOverride => "DATA6 driver_override is unavailable"@,
            ImsError::NoBindNode => "stock RPMSG driver bind node is unavailable"@,
            ImsError::InvalidDeviceName => "DATA6 RPMSG device name is invalid"@,
            ImsError::EndpointNotReady => "secondary QMI endpoint did not become ready"@,
            ImsError::EndpointDisappeared => "secondary QMI endpoint disappeared"@,
            ImsError::EndpointReplaced => "secondary QMI endpoint was replaced"@,
            ImsError::MissingInterface => "secondary IMS network interface is unavailable"@,
            ImsError::InvalidBearerAddress => "secondary IMS IPv6 address is invalid"@,
            ImsError::InvalidBearerGateway => "secondary IMS IPv6 gateway is invalid"@,
            ImsError::MissingDeviceOrApn => "QMI device and IMS APN are required"@,
            ImsError::MissingDeviceOrHandle => "QMI device and packet handle are required"@,
            ImsError::NoPacketHandle => "qmicli did not return a packet data handle"@,
            ImsError::NoIpv6Settings => "secondary IMS bearer did not provide IPv6 settings"@,
            ImsError::UnknownBearerStatus => "secondary IMS bearer status was not recognized"@,
            ImsError::InvalidImsAddress => "IMS bearer IPv6 address is invalid"@,
            ImsError::MissingIdentity => "IMS modem identity is unavailable"@,
            ImsError::MissingImsi => "IMS modem IMSI is unavailable"@,
            ImsError::ResponseTimedOut => "timed out waiting for SIP response"@,
            ImsError::NoAkaChallenge => "IMS 401 did not contain an AKA challenge"@,
            ImsError::NoSecurityServer => "IMS 401 did not contain Security-Server"@,
            ImsError::AkaResynchronization => "IMS AKA requested AUTS resynchronization"@,
            ImsError::InitialRegisterStatus(status) => "IMS initial REGISTER returned "@
                + status_text(status),
            ImsError::RegisterStatus(status) => "IMS authenticated REGISTER returned "@
                + status_text(status),
            ImsError::DriverNotLoaded(detail) => "failed to load rpmsg_wwan_ctrl: "@ + detail@,
            ImsError::EspNotInstalled(detail) => "failed to install IMS IPsec state: "@ + detail@,
            ImsError::InterfaceNotConfigured(detail) =>
                "failed to configure secondary IMS interface: "@ + detail@,
            ImsError::BearerCommandFailed(command, detail) => command.failure() + detail@,
            ImsError::BearerCommandTimedOut(command) => "timed out "@ + command.activity(),
            ImsError::ModemNotFound(detail) => "cannot find modem for IMS AKA: "@ + detail@,
            ImsError::ApduFailed(detail) => "IMS AKA APDU failed: "@ + detail@,
            ImsError::System(detail) => detail@,
        }
    }

    /// The message that describes the error.
    pub fn message(&self) -> (s: String)
        ensures
            s@ == self.text(),
    {
        match self {
            ImsError::ZeroSpi => "IPsec SPI must be non-zero".to_owned(),
            ImsError::EmptyKeys => "IPsec keys must not be empty".to_owned(),
            ImsError::KeysNotHex => "IPsec keys must be hexadecimal".to_owned(),
            ImsError::EmptyDigestField => "IMS AKA digest fields must not be empty".to_owned(),
            ImsError::MissingBranchOrCallId => "SIP branch and Call-ID are required".to_owned(),
            ImsError::IncompleteHeaders => "IMS SIP MESSAGE headers are incomplete".to_owned(),
            ImsError::HeadersNotUtf8(index, length) => utf8_error_message(*index, *length),
            ImsError::MalformedHeader => "IMS SIP MESSAGE header is malformed".to_owned(),
            ImsError::BodyNotHex => "IMS SMS body is not hexadecimal".to_owned(),
            ImsError::TruncatedAddress => "IMS SMS address is truncated".to_owned(),
            ImsError::NotSmsDeliver => "IMS TPDU is not SMS-DELIVER".to_owned(),
            ImsError::MissingUserData => "IMS SMS-DELIVER user data is missing".to_owned(),
            ImsError::TruncatedUcs2 => "IMS UCS2 SMS data is truncated".to_owned(),
            ImsError::OversizedUdh => "IMS SMS UDH exceeds user data length".to_owned(),
            ImsError::InvalidUtf16 => "invalid utf-16: lone surrogate found".to_owned(),
            ImsError::NotRpData => "IMS body is not RP-DATA".to_owned(),
            ImsError::MissingRpDestination => "IMS RP-DATA destination is missing".to_owned(),
            ImsError::MissingRpUserData => "IMS RP-DATA user data is missing".to_owned(),
            ImsError::TruncatedRpUserData => "IMS RP-DATA user data is truncated".to_owned(),
            ImsError::CannotAcknowledge => "cannot acknowledge non-RP-DATA body".to_owned(),
            ImsError::MissingFrom => "IMS SMS From header is missing".to_owned(),
            ImsError::MissingTo => "IMS SMS To header is missing".to_owned(),
            ImsError::MissingCallId => "IMS SMS Call-ID header is missing".to_owned(),
            ImsError::ApduNotHex => "USIM APDU response is not hexadecimal".to_owned(),
            ImsError::EmptyApdu => "USIM APDU must not be empty".to_owned(),
            ImsError::NoCsimData => "Modem response did not contain CSIM hex data".to_owned(),
            ImsError::UndecodableNonce => "IMS AKA nonce is not base64 or hexadecimal".to_owned(),
            ImsError::NonceLength => "IMS AKA nonce must contain 16-byte RAND and AUTN".to_owned(),
            ImsError::MissingAid => "USIM AID was not present in SELECT response".to_owned(),
            ImsError::AkaFailed => "USIM AKA APDU failed".to_owned(),
            ImsError::TruncatedAka => "truncated USIM AKA response".to_owned(),
            ImsError::MissingRes => "USIM AKA RES was missing".to_owned(),
            ImsError::MissingCk => "USIM AKA CK was missing".to_owned(),
            ImsError::MissingIk => "USIM AKA IK was missing".to_owned(),
            ImsError::Data6NotFound => "DATA6 RPMSG device DATA6_CNTL was not found".to_owned(),
            ImsError::NoDriverOverride => "DATA6 driver_override is unavailable".to_owned(),
            ImsError::NoBindNode => "stock RPMSG driver bind node is unavailable".to_owned(),
            ImsError::InvalidDeviceName => "DATA6 RPMSG device name is invalid".to_owned(),
            ImsError::EndpointNotReady => "secondary QMI endpoint did not become ready".to_owned(),
            ImsError::EndpointDisappeared => "secondary QMI endpoint disappeared".to_owned(),
            ImsError::EndpointReplaced => "secondary QMI endpoint was replaced".to_owned(),
            ImsError::MissingInterface => "secondary IMS network interface is unavailable".to_owned(),
            ImsError::InvalidBearerAddress => "secondary IMS IPv6 address is invalid".to_owned(),
            ImsError::InvalidBearerGateway => "secondary IMS IPv6 gateway is invalid".to_owned(),
            ImsError::MissingDeviceOrApn => "QMI device and IMS APN are required".to_owned(),
            ImsError::MissingDeviceOrHandle => "QMI device and packet handle are required".to_owned(),
            ImsError::NoPacketHandle => "qmicli did not return a packet data handle".to_owned(),
            ImsError::NoIpv6Settings => "secondary IMS bearer did not provide IPv6 settings".to_owned(),
            ImsError::UnknownBearerStatus => "secondary IMS bearer status was not recognized".to_owned(),
            ImsError::InvalidImsAddress => "IMS bearer IPv6 address is invalid".to_owned(),
            ImsError::MissingIdentity => "IMS modem identity is unavailable".to_owned(),
            ImsError::MissingImsi => "IMS modem IMSI is unavailable".to_owned(),
            ImsError::ResponseTimedOut => "timed out waiting for SIP response".to_owned(),
            ImsError::NoAkaChallenge => "IMS 401 did not contain an AKA challenge".to_owned(),
            ImsError::NoSecurityServer => "IMS 401 did not contain Security-Server".to_owned(),
            ImsError::AkaResynchronization => "IMS AKA requested AUTS resynchronization".to_owned(),
            ImsError::InitialRegisterStatus(status) => {
                let mut s = "IMS initial REGISTER returned ".to_owned();
                push_status(&mut s, *status);
                s
            },
            ImsError::RegisterStatus(status) => {
                let mut s = "IMS authenticated REGISTER returned ".to_owned();
                push_status(&mut s, *status);
                s
            },
            ImsError::DriverNotLoaded(detail) => {
                let mut s = "failed to load rpmsg_wwan_ctrl: ".to_owned();
                s.append(detail);
                s
            },
            ImsError::EspNotInstalled(detail) => {
                let mut s = "failed to install IMS IPsec state: ".to_owned();
                s.append(detail);
                s
            },
            ImsError::InterfaceNotConfigured(detail) => {
                let mut s = "failed to configure secondary IMS interface: ".to_owned();
                s.append(detail);
                s
            },
            ImsError::BearerCommandFailed(command, detail) => {
                let mut s = command.failure_text().to_owned();
                s.append(detail);
                s
            },
            ImsError::BearerCommandTimedOut(command) => {
                let mut s = "timed out ".to_owned();
                s.append(command.activity_text());
                s
            },
            ImsError::ModemNotFound(detail) => {
                let mut s = "cannot find modem for IMS AKA: ".to_owned();
                s.append(detail);
                s
            },
            ImsError::ApduFailed(detail) => {
                let mut s = "IMS AKA APDU failed: ".to_owned();
                s.append(detail);
                s
            },
            ImsError::System(detail) => detail.clone(),
        }
    }
}

} // verus!
