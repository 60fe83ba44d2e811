//! Laws of the registration: what its two requests have in common and what each answer of the
//! network, of the modem and of the USIM leads to.
use vstd::prelude::*;
use crate::error::ImsError;
use crate::ims_sip;
use crate::ims_sip::{AkaChallenge, SipRegistration};
use crate::ims_sms;
use crate::ims_uim;
use crate::ipv6;
use crate::ipv6::Ipv6Addr;
use crate::number;
use crate::registration;
use crate::registration::{RegisterEvent, RegisterTask, SecurityAgreement};
use crate::secondary_qmi;
use crate::sip_encoding;
use crate::sip_laws;
use crate::text;
use crate::text_laws;
use crate::volte::QmiBearerSettings;

verus! {

// ---------------------------------------------------------------------------------------------
// The home network
// ---------------------------------------------------------------------------------------------
proof fn lemma_encoding_joined(a: Seq<char>, b: Seq<char>)
    ensures
        vstd::utf8::encode_utf8(a + b) == vstd::utf8::encode_utf8(a) + vstd::utf8::encode_utf8(b),
    decreases a.len(),
{
    if a.len() == 0 {
        assert(a + b =~= b);
        assert(vstd::utf8::encode_utf8(a) =~= Seq::<u8>::empty());
        assert(Seq::<u8>::empty() + vstd::utf8::encode_utf8(b) =~= vstd::utf8::encode_utf8(b));
    } else {
        assert((a + b).drop_first() =~= a.drop_first() + b);
        lemma_encoding_joined(a.drop_first(), b);
        assert(vstd::utf8::encode_utf8(a + b) =~= vstd::utf8::encode_utf8(a)
            + vstd::utf8::encode_utf8(b));
    }
}

proof fn lemma_boundary(a: Seq<char>, b: Seq<char>)
    ensures
        vstd::utf8::is_char_boundary(
            vstd::utf8::encode_utf8(a) + vstd::utf8::encode_utf8(b),
            vstd::utf8::encode_utf8(a).len() as int,
        ),
{
    let x = vstd::utf8::encode_utf8(a);
    let y = vstd::utf8::encode_utf8(b);
    vstd::utf8::encode_utf8_valid_utf8(a);
    vstd::utf8::encode_utf8_valid_utf8(b);
    vstd::utf8::valid_utf8_concat(x, y);
    let s = x + y;
    let n = x.len() as int;
    vstd::utf8::is_char_boundary_start_end_of_seq(s);
    if y.len() > 0 {
        vstd::utf8::is_char_boundary_start_end_of_seq(y);
        vstd::utf8::is_char_boundary_iff_not_is_continuation_byte(y, 0);
        vstd::utf8::is_char_boundary_iff_not_is_continuation_byte(s, n);
        assert(s[n] == y[0]);
    }
}

/// Where the country code takes three bytes and the network code the three after them, the domain
/// names both, each whole; whatever follows them has no part in it.
pub proof fn law_domain_of_codes(mcc: Seq<char>, mnc: Seq<char>, rest: Seq<char>)
    requires
        vstd::utf8::encode_utf8(mcc).len() == 3,
        vstd::utf8::encode_utf8(mnc).len() == 3,
    ensures
        registration::has_codes(mcc + mnc + rest),
        registration::domain_of(mcc + mnc + rest, None) == "ims.mnc"@ + mnc + ".mcc"@ + mcc
            + ".3gppnetwork.org"@,
{
    let imsi = mcc + mnc + rest;
    let a = vstd::utf8::encode_utf8(mcc);
    let b = vstd::utf8::encode_utf8(mnc);
    let c = vstd::utf8::encode_utf8(rest);
    let bytes = vstd::utf8::encode_utf8(imsi);
    lemma_encoding_joined(mcc + mnc, rest);
    lemma_encoding_joined(mcc, mnc);
    assert(bytes =~= a + b + c);
    lemma_encoding_joined(mnc, rest);
    assert(bytes =~= a + vstd::utf8::encode_utf8(mnc + rest));
    lemma_boundary(mcc, mnc + rest);
    lemma_boundary(mcc + mnc, rest);
    assert(bytes.subrange(0, 3) =~= a);
    assert(bytes.subrange(3, 6) =~= b);
    vstd::utf8::encode_utf8_decode_utf8(mcc);
    vstd::utf8::encode_utf8_decode_utf8(mnc);
}

/// An identity of less than six bytes has no network code, and zeros stand for it. Its country
/// code is the first three bytes, or all of it where it is shorter.
pub proof fn law_domain_of_short_identity(mcc: Seq<char>, rest: Seq<char>)
    requires
        vstd::utf8::encode_utf8(mcc).len() + vstd::utf8::encode_utf8(rest).len() < 6,
        vstd::utf8::encode_utf8(mcc).len() == 3 || (vstd::utf8::encode_utf8(mcc).len() < 3
            && rest.len() == 0),
    ensures
        registration::has_codes(mcc + rest),
        registration::domain_of(mcc + rest, None) == "ims.mnc"@ + seq!['0', '0', '0'] + ".mcc"@ + mcc
            + ".3gppnetwork.org"@,
{
    reveal_strlit("000");
    assert("000"@ =~= seq!['0', '0', '0']);
    let a = vstd::utf8::encode_utf8(mcc);
    lemma_encoding_joined(mcc, rest);
    lemma_boundary(mcc, rest);
    let bytes = vstd::utf8::encode_utf8(mcc + rest);
    if rest.len() == 0 {
        assert(vstd::utf8::encode_utf8(rest) =~= Seq::<u8>::empty());
    }
    assert(bytes.subrange(0, a.len() as int) =~= a);
    vstd::utf8::encode_utf8_decode_utf8(mcc);
}

/// The codes are whole only where they end between two characters.
pub proof fn law_whole_codes(imsi: Seq<char>) -> (r: (Seq<char>, Seq<char>))
    requires
        registration::has_codes(imsi),
        vstd::utf8::encode_utf8(imsi).len() >= 6,
    ensures
        vstd::utf8::encode_utf8(r.0).len() == 3,
        vstd::utf8::encode_utf8(r.1).len() == 3,
        r.0 == registration::mcc_of(imsi),
        r.1 == registration::mnc_of(imsi),
        (vstd::utf8::encode_utf8(r.0) + vstd::utf8::encode_utf8(r.1)).is_prefix_of(
            vstd::utf8::encode_utf8(imsi),
        ),
{
    let bytes = vstd::utf8::encode_utf8(imsi);
    vstd::utf8::encode_utf8_valid_utf8(imsi);
    vstd::utf8::valid_utf8_split(bytes, 3);
    vstd::utf8::valid_utf8_split(bytes, 6);
    let head = bytes.subrange(0, 6);
    assert(head[3] == bytes[3]);
    vstd::utf8::is_char_boundary_iff_not_is_continuation_byte(bytes, 3);
    vstd::utf8::is_char_boundary_iff_not_is_continuation_byte(head, 3);
    vstd::utf8::valid_utf8_split(head, 3);
    assert(head.subrange(3, 6) =~= bytes.subrange(3, 6));
    let a = bytes.subrange(0, 3);
    let b = bytes.subrange(3, 6);
    vstd::utf8::decode_utf8_encode_utf8(a);
    vstd::utf8::decode_utf8_encode_utf8(b);
    assert(a + b =~= bytes.take(6));
    (vstd::utf8::decode_utf8(a), vstd::utf8::decode_utf8(b))
}

/// A configured domain is taken as it is.
pub proof fn law_configured_domain(imsi: Seq<char>, domain: Seq<char>)
    ensures
        registration::domain_of(imsi, Some(domain)) == domain,
{
}

// ---------------------------------------------------------------------------------------------
// The first request
// ---------------------------------------------------------------------------------------------
/// The registration begins with the address of the bearer, and only if it is one.
pub proof fn law_registration_begins(
    settings: QmiBearerSettings,
    address: Seq<u16>,
    task: RegisterTask,
)
    requires
        address.len() == 8,
        registration::is_first_task(task, settings),
    ensures
        settings.ipv6_address@ == ipv6::ipv6_text(address) ==> task is FindModem
            && task->FindModem_0@ == address,
        ipv6::parse_ipv6(settings.ipv6_address@) is None <==> task == RegisterTask::Failed(
            ImsError::InvalidImsAddress,
        ),
{
    ipv6::law_ipv6_round_trip(address);
}

/// The first request is the first of its sequence, names the identity in the domain and the
/// address and port of the user, and asks the registrar of the domain. Its Call-ID tells the time,
/// so that two registrations at different times have different ones.
pub proof fn law_first_request(
    local: Ipv6Addr,
    imsi: String,
    configured: Option<String>,
    nanoseconds: u128,
    next: RegisterTask,
)
    requires
        imsi@.len() > 0,
        sip_encoding::is_one_line(imsi@),
        sip_encoding::is_one_line(
            registration::domain_of(imsi@, secondary_qmi::text_view(configured)),
        ),
        registration::is_register_step(
            RegisterTask::ReadIdentity(local),
            RegisterEvent::Identity { imsi: Some(imsi), domain: configured, nanoseconds },
            next,
        ),
    ensures
        next is SendInitial,
        ({
            let r = next->SendInitial_0;
            let domain = registration::domain_of(imsi@, secondary_qmi::text_view(configured));
            let read = ims_sms::sip_message(vstd::utf8::encode_utf8(next->SendInitial_1@));
            &&& r.private_identity@ == imsi@
            &&& r.public_identity@ == seq!['s', 'i', 'p', ':'] + imsi@ + seq!['@'] + domain
            &&& r.realm@ == domain
            &&& r.nonce@.len() == 0
            &&& r.aka_res_hex@.len() == 0
            &&& r.contact_host == local
            &&& r.contact_port == 5062
            &&& r.cseq == 1
            &&& r.call_id@ == "simadmin-"@ + number::decimal(nanoseconds as nat)
            &&& registration::request_ports(next) == Some((5062u16, 5060u16))
            &&& read is Ok
            &&& sip_laws::carries_registration((read->Ok_0).0, r, "z9hG4bK-simadmin"@)
            &&& (read->Ok_0).0["cseq"@] == seq!['1'] + " REGISTER"@
            &&& (read->Ok_0).0["call-id"@] == r.call_id@
            &&& text::lines(next->SendInitial_1@)[0] == "REGISTER sip:"@ + domain + " SIP/2.0"@
        }),
{
    let r = next->SendInitial_0;
    let domain = registration::domain_of(imsi@, secondary_qmi::text_view(configured));
    let branch = "z9hG4bK-simadmin"@;
    reveal_strlit("sip:");
    reveal_strlit("@");
    reveal_strlit("simadmin-");
    reveal_strlit("z9hG4bK-simadmin");
    assert("sip:"@ =~= seq!['s', 'i', 'p', ':']);
    assert("@"@ =~= seq!['@']);
    text_laws::law_decimal(nanoseconds as nat, 1);
    let time = number::decimal(nanoseconds as nat);
    sip_encoding::lemma_one_line_concat("sip:"@, imsi@);
    sip_encoding::lemma_one_line_concat("sip:"@ + imsi@, "@"@);
    sip_encoding::lemma_one_line_concat("sip:"@ + imsi@ + "@"@, domain);
    sip_encoding::lemma_one_line_concat("simadmin-"@, time);
    sip_laws::law_initial_register_read_back(r, branch);
    text_laws::law_decimal(0, 1);
    assert(text_laws::is_bare(r.call_id@)) by {
        assert(r.call_id@[0] == 's');
        assert(r.call_id@.last() == time.last());
    }
    text_laws::lemma_trim_bare(r.call_id@);
}

/// Without an identity, or with an empty one, there is nothing to register.
pub proof fn law_no_identity(
    local: Ipv6Addr,
    imsi: Option<String>,
    domain: Option<String>,
    nanoseconds: u128,
    next: RegisterTask,
)
    requires
        registration::is_register_step(
            RegisterTask::ReadIdentity(local),
            RegisterEvent::Identity { imsi, domain, nanoseconds },
            next,
        ),
    ensures
        imsi is None <==> next == RegisterTask::Failed(ImsError::MissingIdentity),
        imsi is Some && (imsi->0)@.len() == 0 <==> next == RegisterTask::Failed(
            ImsError::MissingImsi,
        ),
        next is Failed || next is SendInitial,
{
}

/// Two registrations at different times have different Call-IDs.
pub proof fn law_call_ids_differ(
    a: SipRegistration,
    b: SipRegistration,
    local: Ipv6Addr,
    imsi: Seq<char>,
    configured: Option<Seq<char>>,
    m: nat,
    n: nat,
)
    requires
        registration::is_fresh(a, local, imsi, configured, m),
        registration::is_fresh(b, local, imsi, configured, n),
        m != n,
    ensures
        a.call_id@ != b.call_id@,
{
    text_laws::law_decimal_distinct(m, n);
    let p = "simadmin-"@;
    if a.call_id@ == b.call_id@ {
        assert(a.call_id@.skip(p.len() as int) =~= number::decimal(m));
        assert(b.call_id@.skip(p.len() as int) =~= number::decimal(n));
    }
}

// ---------------------------------------------------------------------------------------------
// The answers
// ---------------------------------------------------------------------------------------------
/// The network has to challenge the first request: with status 401 and a challenge the
/// registration goes on as it is, with this challenge; any other status and a missing challenge
/// end it, with the status in the error.
pub proof fn law_challenged(
    r: SipRegistration,
    request: String,
    response: String,
    next: RegisterTask,
)
    requires
        registration::is_register_step(
            RegisterTask::SendInitial(r, request),
            RegisterEvent::Response(Ok(response)),
            next,
        ),
    ensures
        ({
            let status = ims_sip::status_code(response@);
            let challenge = ims_sip::aka_challenge(response@);
            &&& next is ReadSecurity <==> status == Some(401nat) && challenge is Some
            &&& next is ReadSecurity ==> ({
                &&& next->ReadSecurity_0 == r
                &&& challenge == Some(
                    (next->ReadSecurity_1.realm@, next->ReadSecurity_1.nonce@),
                )
                &&& next->ReadSecurity_2 == response
            })
            &&& status == Some(401nat) && challenge is None ==> next == RegisterTask::Failed(
                ImsError::NoAkaChallenge,
            )
            &&& status is None ==> next == RegisterTask::Failed(
                ImsError::InitialRegisterStatus(None),
            )
            &&& status is Some && status->0 != 401 ==> next == RegisterTask::Failed(
                ImsError::InitialRegisterStatus(Some((status->0) as u16)),
            )
        }),
{
}

/// The challenge goes to the USIM where the network asks for protection and the nonce holds two
/// values of sixteen bytes; both stand in the command, one after the other. Otherwise the registration ends.
pub proof fn law_challenge_sent(
    r: SipRegistration,
    challenge: AkaChallenge,
    response: String,
    security: Option<SecurityAgreement>,
    next: RegisterTask,
)
    requires
        registration::is_register_step(
            RegisterTask::ReadSecurity(r, challenge, response),
            RegisterEvent::Security(security),
            next,
        ),
    ensures
        security is None <==> next == RegisterTask::Failed(ImsError::NoSecurityServer),
        security is Some ==> ({
            let data = registration::challenge_bytes(challenge);
            &&& data is None <==> next == RegisterTask::Failed(ImsError::UndecodableNonce)
            &&& data is Some && (data->0).len() != 32 <==> next == RegisterTask::Failed(
                ImsError::NonceLength,
            )
            &&& data is Some && (data->0).len() == 32 ==> ({
                &&& next is SendApdu
                &&& next->SendApdu_0 == r
                &&& next->SendApdu_1 == challenge
                &&& next->SendApdu_2 == security->0
                &&& next->SendApdu_3@ == ims_uim::csim_command(
                    "008800812210"@ + number::hex_upper(data->0),
                )
            })
        }),
{
    let data = registration::challenge_bytes(challenge);
    if data is Some && (data->0).len() == 32 {
        let d = data->0;
        assert(ims_uim::authenticate_apdu(d) =~= "008800812210"@ + number::hex_upper(d));
    }
}

/// The second request answers the challenge with what the USIM gave: it keeps identity, Call-ID,
/// address and port of the first, is the next of the sequence, and has realm and nonce from the
/// challenge. The key that protects the channel is the integrity key of the USIM.
pub proof fn law_challenge_answered(
    r: SipRegistration,
    challenge: AkaChallenge,
    agreement: SecurityAgreement,
    command: String,
    output: String,
    next: RegisterTask,
)
    requires
        r.cseq == 1,
        registration::is_register_step(
            RegisterTask::SendApdu(r, challenge, agreement, command),
            RegisterEvent::Apdu(Ok(output)),
            next,
        ),
    ensures
        next is InstallEsp || next is Failed,
        ims_uim::quoted_part(output@) is None <==> next == RegisterTask::Failed(
            ImsError::NoCsimData,
        ),
        next is InstallEsp ==> ({
            let answer = ims_uim::aka_answer(ims_uim::quoted_part(output@)->0);
            let a = next->InstallEsp_0;
            &&& answer is Material
            &&& a.private_identity == r.private_identity
            &&& a.public_identity == r.public_identity
            &&& a.call_id == r.call_id
            &&& a.contact_host == r.contact_host
            &&& a.contact_port == r.contact_port
            &&& a.cseq == r.cseq + 1
            &&& a.realm == challenge.realm
            &&& a.nonce == challenge.nonce
            &&& number::hex_bytes(a.aka_res_hex@) == Some(answer->Material_0)
            &&& number::hex_bytes(next->InstallEsp_2@) == Some(answer->Material_2)
            &&& next->InstallEsp_1 == agreement
        }),
        ims_uim::quoted_part(output@) is Some && ims_uim::aka_answer(
            ims_uim::quoted_part(output@)->0,
        ) is Material ==> next is InstallEsp,
        ims_uim::quoted_part(output@) is Some && ims_uim::aka_answer(
            ims_uim::quoted_part(output@)->0,
        ) is Resync ==> next == RegisterTask::Failed(ImsError::AkaResynchronization),
{
    if next is InstallEsp {
        let answer = ims_uim::aka_answer(ims_uim::quoted_part(output@)->0);
        number::law_hex_round_trip(answer->Material_0);
        number::law_hex_round_trip(answer->Material_2);
    }
}

/// The two requests are told apart by their branches, and both branches are of the kind that is
/// unique over all requests.
pub proof fn law_branches()
    ensures
        registration::INITIAL_BRANCH@ != registration::ANSWERING_BRANCH@,
        "z9hG4bK"@.is_prefix_of(registration::INITIAL_BRANCH@),
        registration::ANSWERING_BRANCH@ == registration::INITIAL_BRANCH@ + "-auth"@,
        registration::USIM_AID@ == "A0000000871002"@,
{
    reveal_strlit("z9hG4bK");
    reveal_strlit("z9hG4bK-simadmin");
    reveal_strlit("z9hG4bK-simadmin-auth");
    reveal_strlit("-auth");
    assert("z9hG4bK"@ =~= registration::INITIAL_BRANCH@.subrange(0, 7));
    assert(registration::ANSWERING_BRANCH@ =~= registration::INITIAL_BRANCH@ + "-auth"@);
}

/// The user is registered exactly with status 200; any other status is given in the error.
pub proof fn law_accepted(
    agreement: SecurityAgreement,
    request: String,
    response: String,
    next: RegisterTask,
)
    requires
        registration::is_register_step(
            RegisterTask::SendRequest(agreement, request),
            RegisterEvent::Response(Ok(response)),
            next,
        ),
    ensures
        ({
            let status = ims_sip::status_code(response@);
            &&& next is Registered <==> status == Some(200nat)
            &&& status is None ==> next == RegisterTask::Failed(ImsError::RegisterStatus(None))
            &&& status is Some && status->0 != 200 ==> next == RegisterTask::Failed(
                ImsError::RegisterStatus(Some((status->0) as u16)),
            )
        }),
        registration::request_ports(RegisterTask::SendRequest(agreement, request)) == Some(
            (agreement.client_port, agreement.server_port),
        ),
{
}

/// What fails outside ends the registration, and the error is the one that was met.
pub proof fn law_failures_reported(
    task: RegisterTask,
    reason: String,
    e: ImsError,
    next: RegisterTask,
)
    ensures
        task is FindModem && registration::is_register_step(
            task,
            RegisterEvent::Modem(Err(reason)),
            next,
        ) ==> next == RegisterTask::Failed(ImsError::ModemNotFound(reason)),
        task is SendApdu && registration::is_register_step(
            task,
            RegisterEvent::Apdu(Err(reason)),
            next,
        ) ==> next == RegisterTask::Failed(ImsError::ApduFailed(reason)),
        (task is SendInitial || task is SendRequest) && registration::is_register_step(
            task,
            RegisterEvent::Response(Err(e)),
            next,
        ) ==> next == RegisterTask::Failed(e),
        task is InstallEsp && registration::is_register_step(
            task,
            RegisterEvent::Installed(Err(e)),
            next,
        ) ==> next == RegisterTask::Failed(e),
        task is BuildRequest && registration::is_register_step(
            task,
            RegisterEvent::Request(Err(e)),
            next,
        ) ==> next == RegisterTask::Failed(e),
{
}

/// What succeeds leads on with what is known: the address to the reading of the identity, the
/// answered challenge to the building of the request, and the request to its sending.
pub proof fn law_successes_lead_on(
    local: Ipv6Addr,
    r: SipRegistration,
    agreement: SecurityAgreement,
    key: String,
    request: String,
    next: RegisterTask,
)
    ensures
        registration::is_register_step(
            RegisterTask::FindModem(local),
            RegisterEvent::Modem(Ok(())),
            next,
        ) ==> next == RegisterTask::ReadIdentity(local),
        registration::is_register_step(
            RegisterTask::InstallEsp(r, agreement, key),
            RegisterEvent::Installed(Ok(())),
            next,
        ) ==> next == RegisterTask::BuildRequest(r, agreement),
        registration::is_register_step(
            RegisterTask::BuildRequest(r, agreement),
            RegisterEvent::Request(Ok(request)),
            next,
        ) ==> next == RegisterTask::SendRequest(agreement, request),
{
}

/// The event can be what came of the task.
pub open spec fn belongs(task: RegisterTask, event: RegisterEvent) -> bool {
    match task {
        RegisterTask::FindModem(_) => event is Modem,
        RegisterTask::ReadIdentity(_) => event is Identity,
        RegisterTask::SendInitial(_, _) => event is Response,
        RegisterTask::ReadSecurity(_, _, _) => event is Security,
        RegisterTask::SendApdu(_, _, _, _) => event is Apdu,
        RegisterTask::InstallEsp(_, _, _) => event is Installed,
        RegisterTask::BuildRequest(_, _) => event is Request,
        RegisterTask::SendRequest(_, _) => event is Response,
        RegisterTask::Registered => false,
        RegisterTask::Failed(_) => false,
    }
}

/// An event that does not belong to the task leaves it to be done.
pub proof fn law_other_events_ignored(task: RegisterTask, event: RegisterEvent, next: RegisterTask)
    requires
        !belongs(task, event),
    ensures
        registration::is_register_step(task, event, next) <==> next == task,
{
}

} // verus!
