//! The registration with the IMS network: a first request is answered with a challenge, the USIM
//! answers the challenge, the channel is protected and a second request registers.
use vstd::prelude::*;
use vstd::slice::slice_subrange;
use crate::error::ImsError;
use crate::externals;
use crate::externals::utf8_text;
use crate::ims_sip;
use crate::ims_sip::{
    build_initial_register, parse_aka_challenge, sip_status_code, AkaChallenge, SipRegistration,
};
use crate::ims_uim;
use crate::ims_uim::{
    build_aka_auth_command, encode_hex, extract_csim_hex, parse_aka_response, AkaAnswer,
};
use crate::ipv6;
use crate::ipv6::Ipv6Addr;
use crate::number;
use crate::number::push_decimal;
use crate::secondary_qmi;
use crate::volte::QmiBearerSettings;

verus! {

/// The port at which the user can be reached.
pub const CONTACT_PORT: u16 = 5062;

/// The port of the P-CSCF for requests that are not protected.
pub const PCSCF_PORT: u16 = 5060;

/// The application of the USIM.
pub const USIM_AID: &'static str = "A0000000871002";

/// The branch of the first request.
pub const INITIAL_BRANCH: &'static str = "z9hG4bK-simadmin";

/// The branch of the request that answers the challenge.
pub const ANSWERING_BRANCH: &'static str = "z9hG4bK-simadmin-auth";

// ---------------------------------------------------------------------------------------------
// The identity of the user
// ---------------------------------------------------------------------------------------------
/// How many bytes of an IMSI make its country code.
pub open spec fn mcc_length(imsi: Seq<char>) -> int {
    if vstd::utf8::encode_utf8(imsi).len() < 3 {
        vstd::utf8::encode_utf8(imsi).len() as int
    } else {
        3
    }
}

/// The country code and the network code of an IMSI end between two characters.
pub open spec fn has_codes(imsi: Seq<char>) -> bool {
    let bytes = vstd::utf8::encode_utf8(imsi);
    &&& vstd::utf8::is_char_boundary(bytes, mcc_length(imsi))
    &&& bytes.len() >= 6 ==> vstd::utf8::is_char_boundary(bytes, 6)
}

/// The country code of an IMSI: its first three bytes.
pub open spec fn mcc_of(imsi: Seq<char>) -> Seq<char> {
    vstd::utf8::decode_utf8(vstd::utf8::encode_utf8(imsi).subrange(0, mcc_length(imsi)))
}

/// The network code of an IMSI: its next three bytes, if there are as many.
pub open spec fn mnc_of(imsi: Seq<char>) -> Seq<char> {
    let bytes = vstd::utf8::encode_utf8(imsi);
    if bytes.len() >= 6 {
        vstd::utf8::decode_utf8(bytes.subrange(3, 6))
    } else {
        "000"@
    }
}

/// The domain of the home network of an IMSI.
pub open spec fn home_domain(imsi: Seq<char>) -> Seq<char> {
    "ims.mnc"@ + mnc_of(imsi) + ".mcc"@ + mcc_of(imsi) + ".3gppnetwork.org"@
}

/// The domain of the network: the configured one, or else that of the home network.
pub open spec fn domain_of(imsi: Seq<char>, configured: Option<Seq<char>>) -> Seq<char> {
    match configured {
        Some(domain) => domain,
        None => home_domain(imsi),
    }
}

proof fn lemma_codes(imsi: Seq<char>)
    requires
        has_codes(imsi),
    ensures
        ({
            let bytes = vstd::utf8::encode_utf8(imsi);
            &&& vstd::utf8::valid_utf8(bytes.subrange(0, mcc_length(imsi)))
            &&& bytes.len() >= 6 ==> vstd::utf8::valid_utf8(bytes.subrange(3, 6))
        }),
{
    let bytes = vstd::utf8::encode_utf8(imsi);
    vstd::utf8::encode_utf8_valid_utf8(imsi);
    vstd::utf8::valid_utf8_split(bytes, mcc_length(imsi));
    if bytes.len() >= 6 {
        vstd::utf8::valid_utf8_split(bytes, 6);
        let head = bytes.subrange(0, 6);
        assert(head[3] == bytes[3]);
        vstd::utf8::is_char_boundary_iff_not_is_continuation_byte(bytes, 3);
        vstd::utf8::is_char_boundary_iff_not_is_continuation_byte(head, 3);
        vstd::utf8::valid_utf8_split(head, 3);
        assert(head.subrange(3, 6) =~= bytes.subrange(3, 6));
    }
}

fn starts_character(bytes: &[u8], i: usize) -> (r: bool)
    requires
        vstd::utf8::valid_utf8(bytes@),
        i <= bytes@.len(),
    ensures
        r == vstd::utf8::is_char_boundary(bytes@, i as int),
{
    proof {
        vstd::utf8::is_char_boundary_start_end_of_seq(bytes@);
        if i < bytes@.len() {
            vstd::utf8::is_char_boundary_iff_not_is_continuation_byte(bytes@, i as int);
        }
    }
    i == bytes.len() || bytes[i] < 0x80 || bytes[i] > 0xbf
}

/// The country code and the network code of `imsi` end between two characters.
pub fn codes_are_whole(imsi: &str) -> (r: bool)
    ensures
        r == has_codes(imsi@),
{
    let bytes = imsi.as_bytes();
    proof {
        vstd::utf8::encode_utf8_valid_utf8(imsi@);
    }
    let n = if bytes.len() < 3 {
        bytes.len()
    } else {
        3
    };
    starts_character(bytes, n) && (bytes.len() < 6 || starts_character(bytes, 6))
}

/// The domain of the home network of `imsi`.
pub fn ims_domain(imsi: &str) -> (s: String)
    requires
        has_codes(imsi@),
    ensures
        s@ == home_domain(imsi@),
{
    let bytes = imsi.as_bytes();
    proof {
        lemma_codes(imsi@);
    }
    let n = if bytes.len() < 3 {
        bytes.len()
    } else {
        3
    };
    let mcc = utf8_text(slice_subrange(bytes, 0, n)).unwrap();
    let mut s = "ims.mnc".to_owned();
    if bytes.len() >= 6 {
        s.append(utf8_text(slice_subrange(bytes, 3, 6)).unwrap());
    } else {
        s.append("000");
    }
    s.append(".mcc");
    s.append(mcc);
    s.append(".3gppnetwork.org");
    s
}

/// For an IMSI in ASCII the codes are its first three characters and the three after them.
pub proof fn law_home_domain(imsi: Seq<char>)
    requires
        vstd::utf8::is_ascii_chars(imsi),
        imsi.len() >= 6,
    ensures
        has_codes(imsi),
        home_domain(imsi) == "ims.mnc"@ + imsi.subrange(3, 6) + ".mcc"@ + imsi.subrange(0, 3)
            + ".3gppnetwork.org"@,
{
    let bytes = vstd::utf8::encode_utf8(imsi);
    vstd::utf8::is_ascii_chars_encode_utf8(imsi);
    vstd::utf8::encode_utf8_valid_utf8(imsi);
    assert(imsi[3] as u8 == bytes[3]);
    vstd::utf8::is_char_boundary_iff_not_is_continuation_byte(bytes, 3);
    vstd::utf8::is_char_boundary_start_end_of_seq(bytes);
    if bytes.len() > 6 {
        assert(imsi[6] as u8 == bytes[6]);
        vstd::utf8::is_char_boundary_iff_not_is_continuation_byte(bytes, 6);
    }
    lemma_ascii_slice(imsi, 0, 3);
    lemma_ascii_slice(imsi, 3, 6);
}

proof fn lemma_ascii_slice(s: Seq<char>, a: int, b: int)
    requires
        vstd::utf8::is_ascii_chars(s),
        0 <= a <= b <= s.len(),
    ensures
        vstd::utf8::decode_utf8(vstd::utf8::encode_utf8(s).subrange(a, b)) == s.subrange(a, b),
{
    let bytes = vstd::utf8::encode_utf8(s);
    let t = s.subrange(a, b);
    assert forall|i: int| 0 <= i < t.len() implies '\0' <= #[trigger] t[i] <= '\u{7f}' by {
        assert(t[i] == s[a + i]);
    }
    vstd::utf8::is_ascii_chars_encode_utf8(s);
    vstd::utf8::is_ascii_chars_encode_utf8(t);
    assert forall|i: int| 0 <= i < t.len() implies bytes.subrange(a, b)[i]
        == vstd::utf8::encode_utf8(t)[i] by {
        assert(s[a + i] as u8 == bytes[a + i]);
        assert(t[i] as u8 == vstd::utf8::encode_utf8(t)[i]);
    }
    assert(bytes.subrange(a, b) =~= vstd::utf8::encode_utf8(t));
    vstd::utf8::encode_utf8_decode_utf8(t);
}

/// The registration of a user who has not been challenged, at the given time in nanoseconds.
pub open spec fn is_fresh(
    registration: SipRegistration,
    local: Ipv6Addr,
    imsi: Seq<char>,
    configured: Option<Seq<char>>,
    nanoseconds: nat,
) -> bool {
    let domain = domain_of(imsi, configured);
    &&& registration.private_identity@ == imsi
    &&& registration.public_identity@ == "sip:"@ + imsi + "@"@ + domain
    &&& registration.realm@ == domain
    &&& registration.nonce@ == Seq::<char>::empty()
    &&& registration.aka_res_hex@ == Seq::<char>::empty()
    &&& registration.call_id@ == "simadmin-"@ + number::decimal(nanoseconds)
    &&& registration.cseq == 1
    &&& registration.contact_host == local
    &&& registration.contact_port == CONTACT_PORT
}

/// The registration of a user who has not been challenged.
pub fn fresh_registration(
    local: Ipv6Addr,
    imsi: String,
    configured: Option<String>,
    nanoseconds: u128,
) -> (r: SipRegistration)
    requires
        configured is None ==> has_codes(imsi@),
    ensures
        is_fresh(r, local, imsi@, secondary_qmi::text_view(configured), nanoseconds as nat),
{
    let domain = match configured {
        Some(domain) => domain,
        None => ims_domain(&imsi),
    };
    let mut public_identity = "sip:".to_owned();
    public_identity.append(&imsi);
    public_identity.append("@");
    public_identity.append(&domain);
    let mut call_id = "simadmin-".to_owned();
    push_decimal(&mut call_id, nanoseconds);
    SipRegistration {
        private_identity: imsi,
        public_identity,
        realm: domain,
        nonce: String::new(),
        aka_res_hex: String::new(),
        call_id,
        cseq: 1,
        contact_host: local,
        contact_port: CONTACT_PORT,
    }
}

// ---------------------------------------------------------------------------------------------
// The steps of the registration
// ---------------------------------------------------------------------------------------------
/// What the network asks for to protect the channel.
#[derive(Debug, Clone, Copy, PartialEq, Eq)]
pub struct SecurityAgreement {
    pub client_spi: u32,
    pub server_spi: u32,
    pub client_port: u16,
    pub server_port: u16,
}

/// What is done next to register.
#[derive(Debug, PartialEq, Eq)]
pub enum RegisterTask {
    /// Find the modem, for a user at the given address.
    FindModem(Ipv6Addr),
    /// Read the identity of the user.
    ReadIdentity(Ipv6Addr),
    /// Send the first request.
    SendInitial(SipRegistration, String),
    /// Read from the response what the network asks for to protect the channel.
    ReadSecurity(SipRegistration, AkaChallenge, String),
    /// Send the command to the USIM that answers the challenge.
    SendApdu(SipRegistration, AkaChallenge, SecurityAgreement, String),
    /// Protect the channel with the given key.
    InstallEsp(SipRegistration, SecurityAgreement, String),
    /// Build the request that answers the challenge.
    BuildRequest(SipRegistration, SecurityAgreement),
    /// Send that request through the protected channel.
    SendRequest(SecurityAgreement, String),
    /// The user is registered.
    Registered,
    /// The user is not registered.
    Failed(ImsError),
}

/// What came of a task.
#[derive(Debug, PartialEq, Eq)]
pub enum RegisterEvent {
    /// The modem was looked for.
    Modem(Result<(), String>),
    /// The IMSI, the configured domain and the time in nanoseconds.
    Identity { imsi: Option<String>, domain: Option<String>, nanoseconds: u128 },
    /// The response to a request.
    Response(Result<String, ImsError>),
    /// What the network asks for to protect the channel.
    Security(Option<SecurityAgreement>),
    /// What the modem wrote for the USIM.
    Apdu(Result<String, String>),
    /// The channel was protected.
    Installed(Result<(), ImsError>),
    /// The request that answers the challenge.
    Request(Result<String, ImsError>),
}

impl RegisterEvent {
    /// A domain can be had from the event where one is needed.
    pub open spec fn has_domain(self) -> bool {
        match self {
            RegisterEvent::Identity { imsi: Some(imsi), domain: None, .. } => imsi@.len() == 0
                || has_codes(imsi@),
            _ => true,
        }
    }
}

/// A status code as it is kept in errors.
pub open spec fn code_of(status: Option<nat>) -> Option<u16> {
    match status {
        Some(code) => Some(code as u16),
        None => None,
    }
}

/// The registration of a user who answers the challenge with the given response of the USIM.
pub open spec fn answers(
    answering: SipRegistration,
    registration: SipRegistration,
    challenge: AkaChallenge,
    res: Seq<u8>,
) -> bool {
    &&& answering.private_identity == registration.private_identity
    &&& answering.public_identity == registration.public_identity
    &&& answering.realm == challenge.realm
    &&& answering.nonce == challenge.nonce
    &&& answering.aka_res_hex@ == number::hex_upper(res)
    &&& answering.call_id == registration.call_id
    &&& answering.cseq == 2
    &&& answering.contact_host == registration.contact_host
    &&& answering.contact_port == registration.contact_port
}

/// The first task.
pub open spec fn is_first_task(task: RegisterTask, settings: QmiBearerSettings) -> bool {
    match ipv6::parse_ipv6(settings.ipv6_address@) {
        Some(local) => task is FindModem && task->FindModem_0@ == local,
        None => task == RegisterTask::Failed(ImsError::InvalidImsAddress),
    }
}

/// The task after the identity of a user at `local` was read.
pub open spec fn follows_identity(
    next: RegisterTask,
    local: Ipv6Addr,
    imsi: Option<String>,
    domain: Option<String>,
    nanoseconds: nat,
) -> bool {
    match imsi {
        None => next == RegisterTask::Failed(ImsError::MissingIdentity),
        Some(imsi) => if imsi@.len() == 0 {
            next == RegisterTask::Failed(ImsError::MissingImsi)
        } else {
            &&& next is SendInitial
            &&& is_fresh(
                next->SendInitial_0,
                local,
                imsi@,
                secondary_qmi::text_view(domain),
                nanoseconds,
            )
            &&& next->SendInitial_1@ == next->SendInitial_0.initial_register(INITIAL_BRANCH@)
        },
    }
}

/// The task after the response to the first request.
pub open spec fn follows_initial(
    next: RegisterTask,
    registration: SipRegistration,
    response: String,
) -> bool {
    let status = ims_sip::status_code(response@);
    if status != Some(401nat) {
        next == RegisterTask::Failed(ImsError::InitialRegisterStatus(code_of(status)))
    } else {
        match ims_sip::aka_challenge(response@) {
            None => next == RegisterTask::Failed(ImsError::NoAkaChallenge),
            Some((realm, nonce)) => {
                &&& next is ReadSecurity
                &&& next->ReadSecurity_0 == registration
                &&& next->ReadSecurity_1.realm@ == realm
                &&& next->ReadSecurity_1.nonce@ == nonce
                &&& next->ReadSecurity_2 == response
            },
        }
    }
}

/// The bytes of the challenge of the network.
pub open spec fn challenge_bytes(challenge: AkaChallenge) -> Option<Seq<u8>> {
    let bare = ims_uim::bare_nonce(challenge.nonce@);
    ims_uim::nonce_bytes(bare, externals::base64_decoded(bare))
}

/// The task after what the network asks for has been read.
pub open spec fn follows_security(
    next: RegisterTask,
    registration: SipRegistration,
    challenge: AkaChallenge,
    security: Option<SecurityAgreement>,
) -> bool {
    match security {
        None => next == RegisterTask::Failed(ImsError::NoSecurityServer),
        Some(agreement) => match challenge_bytes(challenge) {
            None => next == RegisterTask::Failed(ImsError::UndecodableNonce),
            Some(data) => if data.len() != 32 {
                next == RegisterTask::Failed(ImsError::NonceLength)
            } else {
                &&& next is SendApdu
                &&& next->SendApdu_0 == registration
                &&& next->SendApdu_1 == challenge
                &&& next->SendApdu_2 == agreement
                &&& next->SendApdu_3@ == ims_uim::csim_command(ims_uim::authenticate_apdu(data))
            },
        },
    }
}

/// The task after the answer of the USIM.
pub open spec fn follows_apdu(
    next: RegisterTask,
    registration: SipRegistration,
    challenge: AkaChallenge,
    agreement: SecurityAgreement,
    output: Seq<char>,
) -> bool {
    match ims_uim::quoted_part(output) {
        None => next == RegisterTask::Failed(ImsError::NoCsimData),
        Some(hex) => match ims_uim::aka_answer(hex) {
            AkaAnswer::Invalid(e) => next == RegisterTask::Failed(e),
            AkaAnswer::Resync(_) => next == RegisterTask::Failed(ImsError::AkaResynchronization),
            AkaAnswer::Material(res, ck, ik) => {
                &&& next is InstallEsp
                &&& answers(next->InstallEsp_0, registration, challenge, res)
                &&& next->InstallEsp_1 == agreement
                &&& next->InstallEsp_2@ == number::hex_upper(ik)
            },
        },
    }
}

/// The task after the response to the request that answers the challenge.
pub open spec fn follows_request(next: RegisterTask, response: Seq<char>) -> bool {
    let status = ims_sip::status_code(response);
    if status == Some(200nat) {
        next == RegisterTask::Registered
    } else {
        next == RegisterTask::Failed(ImsError::RegisterStatus(code_of(status)))
    }
}

/// The task `next` follows. An event that does not belong to the task leaves it to be done.
pub open spec fn is_register_step(
    task: RegisterTask,
    event: RegisterEvent,
    next: RegisterTask,
) -> bool {
    match (task, event) {
        (RegisterTask::FindModem(local), RegisterEvent::Modem(Ok(_))) => next
            == RegisterTask::ReadIdentity(local),
        (RegisterTask::FindModem(_), RegisterEvent::Modem(Err(reason))) => next
            == RegisterTask::Failed(ImsError::ModemNotFound(reason)),
        (
            RegisterTask::ReadIdentity(local),
            RegisterEvent::Identity { imsi, domain, nanoseconds },
        ) => follows_identity(next, local, imsi, domain, nanoseconds as nat),
        (
            RegisterTask::SendInitial(registration, _),
            RegisterEvent::Response(Ok(response)),
        ) => follows_initial(next, registration, response),
        (RegisterTask::SendInitial(_, _), RegisterEvent::Response(Err(e))) => next
            == RegisterTask::Failed(e),
        (
            RegisterTask::ReadSecurity(registration, challenge, _),
            RegisterEvent::Security(security),
        ) => follows_security(next, registration, challenge, security),
        (
            RegisterTask::SendApdu(registration, challenge, agreement, _),
            RegisterEvent::Apdu(Ok(output)),
        ) => follows_apdu(next, registration, challenge, agreement, output@),
        (RegisterTask::SendApdu(_, _, _, _), RegisterEvent::Apdu(Err(reason))) => next
            == RegisterTask::Failed(ImsError::ApduFailed(reason)),
        (
            RegisterTask::InstallEsp(answering, agreement, _),
            RegisterEvent::Installed(Ok(_)),
        ) => next == RegisterTask::BuildRequest(answering, agreement),
        (RegisterTask::InstallEsp(_, _, _), RegisterEvent::Installed(Err(e))) => next
            == RegisterTask::Failed(e),
        (RegisterTask::BuildRequest(_, agreement), RegisterEvent::Request(Ok(request))) => next
            == RegisterTask::SendRequest(agreement, request),
        (RegisterTask::BuildRequest(_, _), RegisterEvent::Request(Err(e))) => next
            == RegisterTask::Failed(e),
        (
            RegisterTask::SendRequest(_, _),
            RegisterEvent::Response(Ok(response)),
        ) => follows_request(next, response@),
        (RegisterTask::SendRequest(_, _), RegisterEvent::Response(Err(e))) => next
            == RegisterTask::Failed(e),
        (_, _) => next == task,
    }
}

/// The port that a request is sent from and the port that it is sent to, for a task that sends
/// one: the first request goes to the port for requests that are not protected, the other one
/// through the ports that were negotiated.
pub open spec fn request_ports(task: RegisterTask) -> Option<(u16, u16)> {
    match task {
        RegisterTask::SendInitial(_, _) => Some((CONTACT_PORT, PCSCF_PORT)),
        RegisterTask::SendRequest(agreement, _) => Some(
            (agreement.client_port, agreement.server_port),
        ),
        _ => None,
    }
}

/// The port that the request of a task is sent from and the port that it is sent to.
pub fn ports_of(task: &RegisterTask) -> (r: Option<(u16, u16)>)
    ensures
        r == request_ports(*task),
{
    match task {
        RegisterTask::SendInitial(_, _) => Some((CONTACT_PORT, PCSCF_PORT)),
        RegisterTask::SendRequest(agreement, _) => Some(
            (agreement.client_port, agreement.server_port),
        ),
        _ => None,
    }
}

/// The first task.
pub fn begin_registration(settings: &QmiBearerSettings) -> (task: RegisterTask)
    ensures
        is_first_task(task, *settings),
{
    match Ipv6Addr::parse(&settings.ipv6_address) {
        Some(local) => RegisterTask::FindModem(local),
        None => RegisterTask::Failed(ImsError::InvalidImsAddress),
    }
}

/// The task after the identity of a user at `local` was read.
pub fn after_identity(
    local: Ipv6Addr,
    imsi: Option<String>,
    domain: Option<String>,
    nanoseconds: u128,
) -> (next: RegisterTask)
    requires
        (RegisterEvent::Identity { imsi, domain, nanoseconds }).has_domain(),
    ensures
        follows_identity(next, local, imsi, domain, nanoseconds as nat),
{
    let imsi = match imsi {
        Some(imsi) => imsi,
        None => {
            return RegisterTask::Failed(ImsError::MissingIdentity);
        },
    };
    if imsi.as_str().is_empty() {
        return RegisterTask::Failed(ImsError::MissingImsi);
    }
    let registration = fresh_registration(local, imsi, domain, nanoseconds);
    proof {
        reveal_strlit("z9hG4bK-simadmin");
        reveal_strlit("simadmin-");
    }
    match build_initial_register(&registration, INITIAL_BRANCH) {
        Ok(request) => RegisterTask::SendInitial(registration, request),
        Err(e) => RegisterTask::Failed(e),
    }
}

/// The task after the response to the first request.
pub fn after_initial(registration: SipRegistration, response: String) -> (next: RegisterTask)
    ensures
        follows_initial(next, registration, response),
{
    let status = sip_status_code(&response);
    if status.is_none() || status.unwrap() != 401 {
        return RegisterTask::Failed(ImsError::InitialRegisterStatus(status));
    }
    match parse_aka_challenge(&response) {
        Some(challenge) => RegisterTask::ReadSecurity(registration, challenge, response),
        None => RegisterTask::Failed(ImsError::NoAkaChallenge),
    }
}

/// The task after what the network asks for has been read.
pub fn after_security(
    registration: SipRegistration,
    challenge: AkaChallenge,
    security: Option<SecurityAgreement>,
) -> (next: RegisterTask)
    ensures
        follows_security(next, registration, challenge, security),
{
    match security {
        None => RegisterTask::Failed(ImsError::NoSecurityServer),
        Some(agreement) => match build_aka_auth_command(&challenge.nonce) {
            Ok(command) => RegisterTask::SendApdu(registration, challenge, agreement, command),
            Err(e) => RegisterTask::Failed(e),
        },
    }
}

/// The task after the answer of the USIM.
pub fn after_apdu(
    registration: SipRegistration,
    challenge: AkaChallenge,
    agreement: SecurityAgreement,
    output: &str,
) -> (next: RegisterTask)
    ensures
        follows_apdu(next, registration, challenge, agreement, output@),
{
    let hex = match extract_csim_hex(output) {
        Ok(hex) => hex,
        Err(e) => {
            return RegisterTask::Failed(e);
        },
    };
    match parse_aka_response(&hex) {
        Err(e) => RegisterTask::Failed(e),
        Ok(Err(_)) => RegisterTask::Failed(ImsError::AkaResynchronization),
        Ok(Ok(aka)) => {
            let key = encode_hex(&aka.ik);
            let answering = SipRegistration {
                private_identity: registration.private_identity,
                public_identity: registration.public_identity,
                realm: challenge.realm,
                nonce: challenge.nonce,
                aka_res_hex: encode_hex(&aka.res),
                call_id: registration.call_id,
                cseq: 2,
                contact_host: registration.contact_host,
                contact_port: registration.contact_port,
            };
            RegisterTask::InstallEsp(answering, agreement, key)
        },
    }
}

/// The task after the response to the request that answers the challenge.
pub fn after_request(response: &str) -> (next: RegisterTask)
    ensures
        follows_request(next, response@),
{
    let status = sip_status_code(response);
    if status.is_some() && status.unwrap() == 200 {
        RegisterTask::Registered
    } else {
        RegisterTask::Failed(ImsError::RegisterStatus(status))
    }
}

/// The task that follows.
pub fn next_register_task(task: RegisterTask, event: RegisterEvent) -> (next: RegisterTask)
    requires
        task is ReadIdentity ==> event.has_domain(),
    ensures
        is_register_step(task, event, next),
{
    match (task, event) {
        (
            RegisterTask::FindModem(local),
            RegisterEvent::Modem(Ok(_)),
        ) => RegisterTask::ReadIdentity(local),
        (
            RegisterTask::FindModem(_),
            RegisterEvent::Modem(Err(reason)),
        ) => RegisterTask::Failed(ImsError::ModemNotFound(reason)),
        (
            RegisterTask::ReadIdentity(local),
            RegisterEvent::Identity { imsi, domain, nanoseconds },
        ) => after_identity(local, imsi, domain, nanoseconds),
        (
            RegisterTask::SendInitial(registration, _),
            RegisterEvent::Response(Ok(response)),
        ) => after_initial(registration, response),
        (
            RegisterTask::SendInitial(_, _),
            RegisterEvent::Response(Err(e)),
        ) => RegisterTask::Failed(e),
        (
            RegisterTask::ReadSecurity(registration, challenge, _),
            RegisterEvent::Security(security),
        ) => after_security(registration, challenge, security),
        (
            RegisterTask::SendApdu(registration, challenge, agreement, _),
            RegisterEvent::Apdu(Ok(output)),
        ) => after_apdu(registration, challenge, agreement, &output),
        (
            RegisterTask::SendApdu(_, _, _, _),
            RegisterEvent::Apdu(Err(reason)),
        ) => RegisterTask::Failed(ImsError::ApduFailed(reason)),
        (
            RegisterTask::InstallEsp(answering, agreement, _),
            RegisterEvent::Installed(Ok(_)),
        ) => RegisterTask::BuildRequest(answering, agreement),
        (
            RegisterTask::InstallEsp(_, _, _),
            RegisterEvent::Installed(Err(e)),
        ) => RegisterTask::Failed(e),
        (
            RegisterTask::BuildRequest(_, agreement),
            RegisterEvent::Request(Ok(request)),
        ) => RegisterTask::SendRequest(agreement, request),
        (
            RegisterTask::BuildRequest(_, _),
            RegisterEvent::Request(Err(e)),
        ) => RegisterTask::Failed(e),
        (
            RegisterTask::SendRequest(_, _),
            RegisterEvent::Response(Ok(response)),
        ) => after_request(&response),
        (
            RegisterTask::SendRequest(_, _),
            RegisterEvent::Response(Err(e)),
        ) => RegisterTask::Failed(e),
        (task, _) => task,
    }
}

// ---------------------------------------------------------------------------------------------
// Laws
// ---------------------------------------------------------------------------------------------
/// The tasks and the events of a registration, from its first task on.
pub open spec fn is_run(tasks: Seq<RegisterTask>, events: Seq<RegisterEvent>) -> bool {
    &&& tasks.len() == events.len() + 1
    &&& tasks[0] is FindModem || tasks[0] is Failed
    &&& forall|i: int| 0 <= i < events.len() ==> #[trigger] has_step(tasks, events, i)
}

/// The `i`-th event leads from the `i`-th task to the one after it.
pub open spec fn has_step(
    tasks: Seq<RegisterTask>,
    events: Seq<RegisterEvent>,
    i: int,
) -> bool {
    is_register_step(tasks[i], events[i], tasks[i + 1])
}

/// How far a task has come.
pub open spec fn stage(task: RegisterTask) -> int {
    match task {
        RegisterTask::FindModem(_) => 0,
        RegisterTask::ReadIdentity(_) => 1,
        RegisterTask::SendInitial(_, _) => 2,
        RegisterTask::ReadSecurity(_, _, _) => 3,
        RegisterTask::SendApdu(_, _, _, _) => 4,
        RegisterTask::InstallEsp(_, _, _) => 5,
        RegisterTask::BuildRequest(_, _) => 6,
        RegisterTask::SendRequest(_, _) => 7,
        RegisterTask::Registered => 8,
        RegisterTask::Failed(_) => 9,
    }
}

/// No step is left out: a task stays, fails or leads to the one after it.
pub proof fn law_no_step_left_out(task: RegisterTask, event: RegisterEvent, next: RegisterTask)
    requires
        is_register_step(task, event, next),
    ensures
        next == task || next is Failed || stage(next) == stage(task) + 1,
        task is Registered || task is Failed ==> next == task,
{
}

/// A user is registered only when the network has accepted the request that answers its
/// challenge, and this request goes through a channel that was protected before.
pub proof fn law_registered_when_accepted(tasks: Seq<RegisterTask>, events: Seq<RegisterEvent>)
    requires
        is_run(tasks, events),
        tasks.last() is Registered,
    ensures
        exists|i: int, j: int|
            {
                &&& 0 <= i < j < events.len()
                &&& (#[trigger] tasks[i]) is InstallEsp
                &&& events[i] is Installed
                &&& events[i]->Installed_0 is Ok
                &&& (#[trigger] tasks[j]) is SendRequest
                &&& events[j] is Response
                &&& events[j]->Response_0 is Ok
                &&& ims_sip::status_code(events[j]->Response_0->Ok_0@) == Some(200nat)
            },
{
    let j = lemma_last_before(tasks, events, events.len() as int, 8);
    let i = lemma_stage_passed(tasks, events, j, 5);
    assert(has_step(tasks, events, j) && has_step(tasks, events, i));
    lemma_accepted(tasks[j], events[j], tasks[j + 1]);
    lemma_protected(tasks[i], events[i], tasks[i + 1]);
}

proof fn lemma_accepted(task: RegisterTask, event: RegisterEvent, next: RegisterTask)
    requires
        is_register_step(task, event, next),
        stage(task) == 7,
        stage(next) == 8,
    ensures
        task is SendRequest,
        event is Response,
        event->Response_0 is Ok,
        ims_sip::status_code(event->Response_0->Ok_0@) == Some(200nat),
{
}

proof fn lemma_protected(task: RegisterTask, event: RegisterEvent, next: RegisterTask)
    requires
        is_register_step(task, event, next),
        stage(task) == 5,
        stage(next) == 6,
    ensures
        task is InstallEsp,
        event is Installed,
        event->Installed_0 is Ok,
{
}

/// Where a run passes from the stage before `k` to the stage `k`.
proof fn lemma_last_before(
    tasks: Seq<RegisterTask>,
    events: Seq<RegisterEvent>,
    n: int,
    k: int,
) -> (j: int)
    requires
        is_run(tasks, events),
        0 <= n <= events.len(),
        stage(tasks[n]) == k,
        1 <= k <= 8,
    ensures
        0 <= j < n,
        stage(tasks[j]) == k - 1,
        stage(tasks[j + 1]) == k,
    decreases n,
{
    if n == 0 {
        assert(false);
        0
    } else {
        assert(has_step(tasks, events, n - 1));
        law_no_step_left_out(tasks[n - 1], events[n - 1], tasks[n]);
        if stage(tasks[n - 1]) == k {
            lemma_last_before(tasks, events, n - 1, k)
        } else {
            n - 1
        }
    }
}

/// A run that is past the stage `k` has left it with a step to the next one.
proof fn lemma_stage_passed(
    tasks: Seq<RegisterTask>,
    events: Seq<RegisterEvent>,
    n: int,
    k: int,
) -> (i: int)
    requires
        is_run(tasks, events),
        0 <= n <= events.len(),
        0 <= k < stage(tasks[n]) <= 8,
    ensures
        0 <= i < n,
        stage(tasks[i]) == k,
        stage(tasks[i + 1]) == k + 1,
    decreases stage(tasks[n]),
{
    let j = lemma_last_before(tasks, events, n, stage(tasks[n]));
    if stage(tasks[j]) == k {
        j
    } else {
        lemma_stage_passed(tasks, events, j, k)
    }
}

/// The request that answers the challenge goes through the ports that the network asked for with
/// the challenge.
pub proof fn law_negotiated_ports(tasks: Seq<RegisterTask>, events: Seq<RegisterEvent>)
    requires
        is_run(tasks, events),
        tasks.last() is SendRequest,
    ensures
        exists|i: int|
            {
                &&& 0 <= i < events.len()
                &&& (#[trigger] tasks[i]) is ReadSecurity
                &&& events[i] is Security
                &&& events[i]->Security_0 is Some
                &&& request_ports(tasks.last()) == Some(
                    (
                        (events[i]->Security_0->0).client_port,
                        (events[i]->Security_0->0).server_port,
                    ),
                )
            },
{
    let i = lemma_agreement_kept(tasks, events, events.len() as int);
    assert(tasks[i] is ReadSecurity);
}

/// The agreement that a task holds.
spec fn agreement_held(task: RegisterTask) -> SecurityAgreement {
    match task {
        RegisterTask::SendApdu(_, _, agreement, _) => agreement,
        RegisterTask::InstallEsp(_, agreement, _) => agreement,
        RegisterTask::BuildRequest(_, agreement) => agreement,
        RegisterTask::SendRequest(agreement, _) => agreement,
        _ => arbitrary(),
    }
}

/// A task past the reading of the agreement holds the agreement that was read.
proof fn lemma_agreement_kept(
    tasks: Seq<RegisterTask>,
    events: Seq<RegisterEvent>,
    n: int,
) -> (i: int)
    requires
        is_run(tasks, events),
        0 <= n <= events.len(),
        4 <= stage(tasks[n]) <= 7,
    ensures
        0 <= i < n,
        tasks[i] is ReadSecurity,
        events[i] == RegisterEvent::Security(Some(agreement_held(tasks[n]))),
    decreases n,
{
    if n == 0 {
        assert(false);
        0
    } else {
        assert(has_step(tasks, events, n - 1));
        law_no_step_left_out(tasks[n - 1], events[n - 1], tasks[n]);
        if tasks[n - 1] is ReadSecurity {
            n - 1
        } else {
            lemma_agreement_kept(tasks, events, n - 1)
        }
    }
}

/// The channel is protected only with the key that the USIM gave for the challenge of the
/// network, and never when the USIM asks for resynchronization or fails.
pub proof fn law_key_from_usim(task: RegisterTask, event: RegisterEvent, next: RegisterTask)
    requires
        is_register_step(task, event, next),
        next is InstallEsp,
        !(task is InstallEsp),
    ensures
        task is SendApdu,
        event is Apdu,
        event->Apdu_0 is Ok,
        ({
            let hex = ims_uim::quoted_part(event->Apdu_0->Ok_0@);
            &&& hex is Some
            &&& ims_uim::aka_answer(hex->0) matches AkaAnswer::Material(res, ck, ik)
            &&& next->InstallEsp_2@ == number::hex_upper(ik)
            &&& next->InstallEsp_0.aka_res_hex@ == number::hex_upper(res)
            &&& next->InstallEsp_0.nonce == task->SendApdu_1.nonce
        }),
{
}

} // verus!
