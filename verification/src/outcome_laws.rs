//! Laws of what is reported: the messages of errors, and how the end of a command is told.
use vstd::prelude::*;
use crate::bearer;
use crate::bearer::CommandEnd;
use crate::command;
use crate::error;
use crate::error::{BearerCommand, ImsError};
use crate::externals;
use crate::number;
use crate::text;
use crate::text_laws;

verus! {

/// What a command wrote to its error output is shown whole but for the white space around it.
pub proof fn law_error_output(stderr: Seq<u8>) -> (r: (Seq<char>, Seq<char>))
    ensures
        text_laws::is_white(r.0),
        text_laws::is_white(r.1),
        text_laws::is_bare(command::error_output(stderr)),
        externals::utf8_lossy(stderr) == r.0 + command::error_output(stderr) + r.1,
{
    text_laws::law_trim_parts(externals::utf8_lossy(stderr))
}

/// A text is blank exactly if it holds white space alone.
pub proof fn law_blank(s: Seq<char>)
    ensures
        bearer::is_blank(s) <==> text_laws::is_white(s),
{
    let (a, b) = text_laws::law_trim_parts(s);
    if bearer::is_blank(s) {
        assert forall|i: int| 0 <= i < s.len() implies text::is_white_space(#[trigger] s[i]) by {
            if i < a.len() {
                assert(s[i] == a[i]);
            } else {
                assert(s[i] == b[i - a.len()]);
            }
        }
    }
    if text_laws::is_white(s) {
        let none = Seq::<char>::empty();
        assert(s =~= s + none + none);
        text_laws::law_trim(s, none, none);
    }
}

/// A command has done what it was to do exactly if it has ended with success; what it wrote is
/// then its output. Otherwise the error names the command and tells why.
pub proof fn law_command_end(
    command: BearerCommand,
    success: bool,
    stdout: Vec<u8>,
    stderr: Vec<u8>,
    reason: String,
    e: ImsError,
)
    ensures
        (CommandEnd::Ended { success, stdout, stderr }).succeeded() == success,
        (CommandEnd::Ended { success, stdout, stderr }).output() == externals::utf8_lossy(stdout@),
        !CommandEnd::TimedOut.succeeded(),
        !CommandEnd::NotRun(reason).succeeded(),
        CommandEnd::TimedOut.explains(command, e) <==> e == ImsError::BearerCommandTimedOut(command),
        CommandEnd::NotRun(reason).explains(command, e) <==> e == ImsError::System(reason),
        (CommandEnd::Ended { success, stdout, stderr }).explains(command, e) ==> !success && e.text()
            == command.failure() + command::error_output(stderr@),
        (CommandEnd::Ended { success, stdout, stderr }).explains(command, e) ==> e
            is BearerCommandFailed && e->BearerCommandFailed_0 == command,
{
}

/// The messages that hold a detail end with it, so that it can be read from them.
pub proof fn law_details_shown(detail: String, command: BearerCommand)
    ensures
        ImsError::DriverNotLoaded(detail).text() == "failed to load rpmsg_wwan_ctrl: "@ + detail@,
        ImsError::EspNotInstalled(detail).text() == "failed to install IMS IPsec state: "@ + detail@,
        ImsError::InterfaceNotConfigured(detail).text()
            == "failed to configure secondary IMS interface: "@ + detail@,
        ImsError::ModemNotFound(detail).text() == "cannot find modem for IMS AKA: "@ + detail@,
        ImsError::ApduFailed(detail).text() == "IMS AKA APDU failed: "@ + detail@,
        ImsError::System(detail).text() == detail@,
        detail@.is_suffix_of(ImsError::BearerCommandFailed(command, detail).text()),
{
    let t = ImsError::BearerCommandFailed(command, detail).text();
    assert(t.skip(t.len() - detail@.len()) =~= detail@);
}

/// What each command is called when it fails and when it takes too long.
pub proof fn law_commands_named(detail: String)
    ensures
        ImsError::BearerCommandFailed(BearerCommand::Start, detail).text()
            == "qmicli failed to start secondary IMS bearer: "@ + detail@,
        ImsError::BearerCommandFailed(BearerCommand::ReadSettings, detail).text()
            == "qmicli failed to read secondary IMS bearer settings: "@ + detail@,
        ImsError::BearerCommandFailed(BearerCommand::ReadStatus, detail).text()
            == "qmicli failed to read secondary IMS bearer status: "@ + detail@,
        ImsError::BearerCommandFailed(BearerCommand::Stop, detail).text()
            == "qmicli failed to stop secondary IMS bearer: "@ + detail@,
        ImsError::BearerCommandTimedOut(BearerCommand::Start).text()
            == "timed out "@ + "starting secondary IMS bearer"@,
        ImsError::BearerCommandTimedOut(BearerCommand::ReadSettings).text()
            == "timed out "@ + "reading secondary IMS bearer settings"@,
        ImsError::BearerCommandTimedOut(BearerCommand::ReadStatus).text()
            == "timed out "@ + "reading secondary IMS bearer status"@,
        ImsError::BearerCommandTimedOut(BearerCommand::Stop).text()
            == "timed out "@ + "stopping secondary IMS bearer"@,
{
}

/// The messages that hold numbers show them in decimal: a status, or the place and the length of
/// bytes that are not UTF-8.
pub proof fn law_numbers_shown(code: u16, index: usize, length: usize)
    ensures
        ImsError::InitialRegisterStatus(Some(code)).text() == "IMS initial REGISTER returned "@
            + seq!['S', 'o', 'm', 'e', '('] + number::decimal(code as nat) + seq![')'],
        ImsError::RegisterStatus(Some(code)).text() == "IMS authenticated REGISTER returned "@
            + seq!['S', 'o', 'm', 'e', '('] + number::decimal(code as nat) + seq![')'],
        ImsError::InitialRegisterStatus(None).text() == "IMS initial REGISTER returned "@ + seq![
            'N',
            'o',
            'n',
            'e',
        ],
        ImsError::RegisterStatus(None).text() == "IMS authenticated REGISTER returned "@ + seq![
            'N',
            'o',
            'n',
            'e',
        ],
        ImsError::HeadersNotUtf8(index, Some(length)).text() == "invalid utf-8 sequence of "@
            + number::decimal(length as nat) + " bytes from index "@ + number::decimal(
            index as nat,
        ),
        ImsError::HeadersNotUtf8(index, None).text()
            == "incomplete utf-8 byte sequence from index "@ + number::decimal(index as nat),
{
    reveal_strlit("Some(");
    reveal_strlit(")");
    reveal_strlit("None");
    assert("Some("@ =~= seq!['S', 'o', 'm', 'e', '(']);
    assert(")"@ =~= seq![')']);
    assert("None"@ =~= seq!['N', 'o', 'n', 'e']);
    let s = error::status_text(Some(code));
    assert("IMS initial REGISTER returned "@ + s =~= "IMS initial REGISTER returned "@ + seq![
        'S',
        'o',
        'm',
        'e',
        '(',
    ] + number::decimal(code as nat) + seq![')']);
    assert("IMS authenticated REGISTER returned "@ + s =~= "IMS authenticated REGISTER returned "@
        + seq!['S', 'o', 'm', 'e', '('] + number::decimal(code as nat) + seq![')']);
}

/// The messages of the errors that hold nothing.
pub proof fn law_fixed_messages()
    ensures
        ImsError::ZeroSpi.text() == "IPsec SPI must be non-zero"@,
        ImsError::EmptyKeys.text() == "IPsec keys must not be empty"@,
        ImsError::KeysNotHex.text() == "IPsec keys must be hexadecimal"@,
        ImsError::EmptyDigestField.text() == "IMS AKA digest fields must not be empty"@,
        ImsError::MissingBranchOrCallId.text() == "SIP branch and Call-ID are required"@,
        ImsError::IncompleteHeaders.text() == "IMS SIP MESSAGE headers are incomplete"@,
        ImsError::MalformedHeader.text() == "IMS SIP MESSAGE header is malformed"@,
        ImsError::BodyNotHex.text() == "IMS SMS body is not hexadecimal"@,
        ImsError::TruncatedAddress.text() == "IMS SMS address is truncated"@,
        ImsError::NotSmsDeliver.text() == "IMS TPDU is not SMS-DELIVER"@,
        ImsError::MissingUserData.text() == "IMS SMS-DELIVER user data is missing"@,
        ImsError::TruncatedUcs2.text() == "IMS UCS2 SMS data is truncated"@,
        ImsError::OversizedUdh.text() == "IMS SMS UDH exceeds user data length"@,
        ImsError::InvalidUtf16.text() == "invalid utf-16: lone surrogate found"@,
        ImsError::NotRpData.text() == "IMS body is not RP-DATA"@,
        ImsError::MissingRpDestination.text() == "IMS RP-DATA destination is missing"@,
        ImsError::MissingRpUserData.text() == "IMS RP-DATA user data is missing"@,
        ImsError::TruncatedRpUserData.text() == "IMS RP-DATA user data is truncated"@,
        ImsError::CannotAcknowledge.text() == "cannot acknowledge non-RP-DATA body"@,
        ImsError::MissingFrom.text() == "IMS SMS From header is missing"@,
        ImsError::MissingTo.text() == "IMS SMS To header is missing"@,
        ImsError::MissingCallId.text() == "IMS SMS Call-ID header is missing"@,
        ImsError::ApduNotHex.text() == "USIM APDU response is not hexadecimal"@,
        ImsError::EmptyApdu.text() == "USIM APDU must not be empty"@,
        ImsError::NoCsimData.text() == "Modem response did not contain CSIM hex data"@,
        ImsError::UndecodableNonce.text() == "IMS AKA nonce is not base64 or hexadecimal"@,
        ImsError::NonceLength.text() == "IMS AKA nonce must contain 16-byte RAND and AUTN"@,
        ImsError::MissingAid.text() == "USIM AID was not present in SELECT response"@,
        ImsError::AkaFailed.text() == "USIM AKA APDU failed"@,
        ImsError::TruncatedAka.text() == "truncated USIM AKA response"@,
        ImsError::MissingRes.text() == "USIM AKA RES was missing"@,
        ImsError::MissingCk.text() == "USIM AKA CK was missing"@,
        ImsError::MissingIk.text() == "USIM AKA IK was missing"@,
        ImsError::Data6NotFound.text() == "DATA6 RPMSG device DATA6_CNTL was not found"@,
        ImsError::NoDriverOverride.text() == "DATA6 driver_override is unavailable"@,
        ImsError::NoBindNode.text() == "stock RPMSG driver bind node is unavailable"@,
        ImsError::InvalidDeviceName.text() == "DATA6 RPMSG device name is invalid"@,
        ImsError::EndpointNotReady.text() == "secondary QMI endpoint did not become ready"@,
        ImsError::EndpointDisappeared.text() == "secondary QMI endpoint disappeared"@,
        ImsError::EndpointReplaced.text() == "secondary QMI endpoint was replaced"@,
        ImsError::MissingInterface.text() == "secondary IMS network interface is unavailable"@,
        ImsError::InvalidBearerAddress.text() == "secondary IMS IPv6 address is invalid"@,
        ImsError::InvalidBearerGateway.text() == "secondary IMS IPv6 gateway is invalid"@,
        ImsError::MissingDeviceOrApn.text() == "QMI device and IMS APN are required"@,
        ImsError::MissingDeviceOrHandle.text() == "QMI device and packet handle are required"@,
        ImsError::NoPacketHandle.text() == "qmicli did not return a packet data handle"@,
        ImsError::NoIpv6Settings.text() == "secondary IMS bearer did not provide IPv6 settings"@,
        ImsError::UnknownBearerStatus.text() == "secondary IMS bearer status was not recognized"@,
        ImsError::InvalidImsAddress.text() == "IMS bearer IPv6 address is invalid"@,
        ImsError::MissingIdentity.text() == "IMS modem identity is unavailable"@,
        ImsError::MissingImsi.text() == "IMS modem IMSI is unavailable"@,
        ImsError::ResponseTimedOut.text() == "timed out waiting for SIP response"@,
        ImsError::NoAkaChallenge.text() == "IMS 401 did not contain an AKA challenge"@,
        ImsError::NoSecurityServer.text() == "IMS 401 did not contain Security-Server"@,
        ImsError::AkaResynchronization.text() == "IMS AKA requested AUTS resynchronization"@,
{
}

} // verus!
