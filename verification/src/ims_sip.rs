//! Minimal 3GPP IMS SIP REGISTER primitives.
use vstd::prelude::*;
use vstd::slice::slice_subrange;
use crate::error::ImsError;
use crate::externals;
use crate::externals::{md5_compute, utf8_text_lossy};
use crate::ipv6;
use crate::ipv6::{read_ipv6, Ipv6Addr};
use crate::number;
use crate::number::{push_decimal, read_unsigned, to_hex_lower};
use crate::text;
use crate::text::{
    chars_of, contains, is_text, lines_of, split_at_char, split_on, starts_with, string_of,
    to_lowercase, to_uppercase, trimmed, trimmed_set, words_of,
};

verus! {

/// What a registration with the IMS network needs.
#[derive(Debug, Clone, PartialEq, Eq)]
pub struct SipRegistration {
    pub private_identity: String,
    pub public_identity: String,
    pub realm: String,
    pub nonce: String,
    pub aka_res_hex: String,
    pub call_id: String,
    pub cseq: u32,
    pub contact_host: Ipv6Addr,
    pub contact_port: u16,
}

/// The challenge of a server that asks for AKA authentication.
#[derive(Debug, Clone, PartialEq, Eq)]
pub struct AkaChallenge {
    pub realm: String,
    pub nonce: String,
}

// ---------------------------------------------------------------------------------------------
// The address of the P-CSCF
// ---------------------------------------------------------------------------------------------
/// The groups of an address that may be missing.
pub open spec fn address_view(a: Option<Ipv6Addr>) -> Option<Seq<u16>> {
    match a {
        Some(a) => Some(a@),
        None => None,
    }
}

/// The address that a value writes, without white space, quotes and brackets around it.
pub open spec fn quoted_address(value: Seq<char>) -> Option<Seq<u16>> {
    ipv6::parse_ipv6(text::trim_set(text::trim(value), "'\"[]"@))
}

/// A label of a P-CSCF address.
pub open spec fn is_pcscf_label(label: Seq<char>) -> bool {
    let small = text::lowercase(text::trim(label));
    text::occurs_in("p-cscf"@, small) || text::occurs_in("pcscf"@, small)
}

/// The P-CSCF address in a line of the form `label: address`.
pub open spec fn pcscf_of_line(line: Seq<char>) -> Option<Seq<u16>> {
    match text::split_once(line, ':') {
        Some((label, value)) => if is_pcscf_label(label) {
            quoted_address(value)
        } else {
            None
        },
        None => None,
    }
}

/// The ninth and tenth of a list of fields, as far as there are that many.
pub open spec fn pcscf_fields(fields: Seq<Seq<char>>) -> Seq<Seq<char>> {
    if fields.len() <= 8 {
        Seq::empty()
    } else if fields.len() <= 10 {
        fields.skip(8)
    } else {
        fields.subrange(8, 10)
    }
}

/// The P-CSCF address in a line `+CGCONTRDP: ...`: the first address in its ninth and tenth
/// field.
pub open spec fn pcscf_of_contrdp(line: Seq<char>) -> Option<Seq<u16>> {
    let line = text::trim(line);
    if "+CGCONTRDP:"@.is_prefix_of(text::uppercase(line)) {
        match text::split_once(line, ':') {
            Some((_, value)) => text::find_map(
                pcscf_fields(text::split(value, ',')),
                |field: Seq<char>| quoted_address(field),
            ),
            None => None,
        }
    } else {
        None
    }
}

fn read_quoted_address(value: &[char]) -> (r: Option<Ipv6Addr>)
    ensures
        address_view(r) == quoted_address(value@),
{
    read_ipv6(trimmed_set(trimmed(value), "'\"[]"))
}

/// The first P-CSCF address in the output of `qmicli`.
pub fn parse_pcscf_address(output: &str) -> (r: Option<Ipv6Addr>)
    ensures
        address_view(r) == text::find_map(
            text::lines(output@),
            |line: Seq<char>| pcscf_of_line(line),
        ),
{
    let chars = chars_of(output);
    let lines = lines_of(&chars);
    let ghost all = text::pieces(lines@);
    let ghost f = |line: Seq<char>| pcscf_of_line(line);
    let mut i: usize = 0;
    assert(all.skip(0) =~= all);
    while i < lines.len()
        invariant
            i <= lines.len(),
            all == text::pieces(lines@),
            all == text::lines(output@),
            f == (|line: Seq<char>| pcscf_of_line(line)),
            text::find_map(all, f) == text::find_map(all.skip(i as int), f),
        decreases lines.len() - i,
    {
        proof {
            text::lemma_find_map_step(all, f, i as int);
            assert(all[i as int] == lines@[i as int]@);
        }
        if let Some((label, value)) = split_at_char(lines[i], ':') {
            let small = to_lowercase(trimmed(label));
            if contains(&small, "p-cscf") || contains(&small, "pcscf") {
                let found = read_quoted_address(value);
                if found.is_some() {
                    return found;
                }
            }
        }
        i += 1;
    }
    None
}

fn read_contrdp_line(raw: &[char]) -> (r: Option<Ipv6Addr>)
    ensures
        address_view(r) == pcscf_of_contrdp(raw@),
{
    let line = trimmed(raw);
    let capitals = to_uppercase(line);
    if !starts_with(&capitals, "+CGCONTRDP:") {
        return None;
    }
    match split_at_char(line, ':') {
        Some((_, value)) => {
            let fields = split_on(value, ',');
            let ghost f = |field: Seq<char>| quoted_address(field);
            let ghost all = text::pieces(fields@);
            let ghost two = pcscf_fields(all);
            let mut i: usize = 8;
            assert(two.skip(0) =~= two);
            while i < fields.len() && i < 10
                invariant
                    8 <= i <= 10,
                    i > 8 ==> i <= fields.len(),
                    all == text::pieces(fields@),
                    two == pcscf_fields(all),
                    f == (|field: Seq<char>| quoted_address(field)),
                    pcscf_of_contrdp(raw@) == text::find_map(two, f),
                    text::find_map(two, f) == text::find_map(two.skip(i - 8), f),
                decreases 10 - i,
            {
                proof {
                    text::lemma_find_map_step(two, f, i - 8);
                    assert(two[i - 8] == fields@[i as int]@);
                }
                let found = read_quoted_address(fields[i]);
                if found.is_some() {
                    return found;
                }
                i += 1;
            }
            assert(two.skip(i - 8) =~= Seq::empty());
            None
        },
        None => None,
    }
}

/// The first P-CSCF address in the answer to `AT+CGCONTRDP`.
pub fn parse_pcscf_from_cgcontrdp(output: &str) -> (r: Option<Ipv6Addr>)
    ensures
        address_view(r) == text::find_map(
            text::lines(output@),
            |line: Seq<char>| pcscf_of_contrdp(line),
        ),
{
    let chars = chars_of(output);
    let lines = lines_of(&chars);
    let ghost all = text::pieces(lines@);
    let ghost f = |line: Seq<char>| pcscf_of_contrdp(line);
    let mut i: usize = 0;
    assert(all.skip(0) =~= all);
    while i < lines.len()
        invariant
            i <= lines.len(),
            all == text::pieces(lines@),
            all == text::lines(output@),
            f == (|line: Seq<char>| pcscf_of_contrdp(line)),
            text::find_map(all, f) == text::find_map(all.skip(i as int), f),
        decreases lines.len() - i,
    {
        proof {
            text::lemma_find_map_step(all, f, i as int);
            assert(all[i as int] == lines@[i as int]@);
        }
        let found = read_contrdp_line(lines[i]);
        if found.is_some() {
            return found;
        }
        i += 1;
    }
    None
}

// ---------------------------------------------------------------------------------------------
// Digest authentication
// ---------------------------------------------------------------------------------------------
/// The MD5 digest of a text, in hexadecimal.
pub open spec fn md5_hex_of(value: Seq<char>) -> Seq<char> {
    number::hex_lower(externals::md5_digest(vstd::utf8::encode_utf8(value)))
}

/// Two texts with a colon between them.
pub open spec fn colon_pair(a: Seq<char>, b: Seq<char>) -> Seq<char> {
    a + ":"@ + b
}

/// Three texts with colons between them.
pub open spec fn colon_triple(a: Seq<char>, b: Seq<char>, c: Seq<char>) -> Seq<char> {
    a + ":"@ + b + ":"@ + c
}

/// The response to a digest challenge: the digest of the digest of the credentials, the nonce
/// and the digest of the request.
pub open spec fn digest_response(
    username: Seq<char>,
    realm: Seq<char>,
    nonce: Seq<char>,
    method: Seq<char>,
    uri: Seq<char>,
    secret: Seq<char>,
) -> Seq<char> {
    md5_hex_of(
        colon_triple(
            md5_hex_of(colon_triple(username, realm, secret)),
            nonce,
            md5_hex_of(colon_pair(method, uri)),
        ),
    )
}

fn md5_hex(value: &str) -> (s: String)
    ensures
        s@ == md5_hex_of(value@),
        s@.len() == 32,
{
    let digest = md5_compute(value.as_bytes());
    to_hex_lower(&digest)
}

/// `a` and `b` with a colon between them.
pub fn join_pair(a: &str, b: &str) -> (s: String)
    ensures
        s@ == colon_pair(a@, b@),
{
    let mut s = a.to_owned();
    s.append(":");
    s.append(b);
    s
}

/// `a`, `b` and `c` with colons between them.
pub fn join_triple(a: &str, b: &str, c: &str) -> (s: String)
    ensures
        s@ == colon_triple(a@, b@, c@),
{
    let mut s = a.to_owned();
    s.append(":");
    s.append(b);
    s.append(":");
    s.append(c);
    s
}

/// The response to an AKA challenge. The user name, the realm, the nonce and the result of the
/// authentication must not be empty.
pub fn aka_md5_response(
    username: &str,
    realm: &str,
    nonce: &str,
    method: &str,
    uri: &str,
    aka_res_hex: &str,
) -> (r: Result<String, ImsError>)
    ensures
        match r {
            Ok(s) => username@.len() > 0 && realm@.len() > 0 && nonce@.len() > 0
                && aka_res_hex@.len() > 0 && s@ == digest_response(
                username@,
                realm@,
                nonce@,
                method@,
                uri@,
                aka_res_hex@,
            ) && s@.len() == 32,
            Err(e) => e == ImsError::EmptyDigestField && (username@.len() == 0 || realm@.len() == 0
                || nonce@.len() == 0 || aka_res_hex@.len() == 0),
        },
{
    if username.is_empty() || realm.is_empty() || nonce.is_empty() || aka_res_hex.is_empty() {
        return Err(ImsError::EmptyDigestField);
    }
    let ha1 = md5_hex(&join_triple(username, realm, aka_res_hex));
    let ha2 = md5_hex(&join_pair(method, uri));
    Ok(md5_hex(&join_triple(&ha1, nonce, &ha2)))
}

// ---------------------------------------------------------------------------------------------
// Requests
// ---------------------------------------------------------------------------------------------
/// The text without `prefix` at its start, where it begins with it.
pub open spec fn without_prefix(s: Seq<char>, prefix: Seq<char>) -> Seq<char> {
    if prefix.is_prefix_of(s) {
        s.skip(prefix.len() as int)
    } else {
        s
    }
}

impl SipRegistration {
    /// The URI of the registrar.
    pub open spec fn registrar_uri(self) -> Seq<char> {
        "sip:"@ + self.realm@
    }

    /// Where the user can be reached.
    pub open spec fn contact_uri(self) -> Seq<char> {
        "sip:"@ + without_prefix(self.public_identity@, "sip:"@) + "@"@ + ipv6::ipv6_text(
            self.contact_host@,
        ) + ":"@ + number::decimal(self.contact_port as nat)
    }

    /// The request line and the headers that every REGISTER request has.
    pub open spec fn register_headers(self, branch: Seq<char>) -> Seq<char> {
        "REGISTER "@ + self.registrar_uri() + " SIP/2.0\r\nVia: SIP/2.0/UDP ["@ + ipv6::ipv6_text(
            self.contact_host@,
        ) + "]:"@ + number::decimal(self.contact_port as nat) + ";branch="@ + branch
            + ";rport\r\nFrom: <"@ + self.public_identity@ + ">;tag=simadmin\r\nTo: <"@
            + self.public_identity@ + ">\r\nCall-ID: "@ + self.call_id@ + "\r\nCSeq: "@
            + number::decimal(self.cseq as nat) + " REGISTER\r\nContact: <"@ + self.contact_uri()
            + ">\r\nMax-Forwards: 70\r\nUser-Agent: SimAdmin\r\n"@
    }

    /// The header that answers the challenge of the server.
    pub open spec fn authorization(self, response: Seq<char>) -> Seq<char> {
        "Authorization: Digest username=\""@ + self.private_identity@ + "\", realm=\""@
            + self.realm@ + "\", nonce=\""@ + self.nonce@ + "\", uri=\""@ + self.registrar_uri()
            + "\", response=\""@ + response + "\", algorithm=AKAv1-MD5\r\n"@
    }

    /// A REGISTER request without authentication.
    pub open spec fn initial_register(self, branch: Seq<char>) -> Seq<char> {
        self.register_headers(branch) + "Content-Length: 0\r\n\r\n"@
    }

    /// A REGISTER request that answers the challenge with `response`.
    pub open spec fn answering_register(self, branch: Seq<char>, response: Seq<char>) -> Seq<char> {
        self.register_headers(branch) + self.authorization(response) + "Content-Length: 0\r\n\r\n"@
    }

    /// The response of this user to the challenge of the server.
    pub open spec fn challenge_response(self) -> Seq<char> {
        digest_response(
            self.private_identity@,
            self.realm@,
            self.nonce@,
            "REGISTER"@,
            self.registrar_uri(),
            self.aka_res_hex@,
        )
    }

    /// Everything that goes into the digest is there.
    pub open spec fn has_credentials(self) -> bool {
        self.private_identity@.len() > 0 && self.realm@.len() > 0 && self.nonce@.len() > 0
            && self.aka_res_hex@.len() > 0
    }
}

fn registrar_uri(registration: &SipRegistration) -> (s: String)
    ensures
        s@ == registration.registrar_uri(),
{
    let mut s = "sip:".to_owned();
    s.append(&registration.realm);
    s
}

fn contact_uri(registration: &SipRegistration) -> (s: String)
    ensures
        s@ == registration.contact_uri(),
{
    let identity = chars_of(&registration.public_identity);
    let mut s = "sip:".to_owned();
    if starts_with(&identity, "sip:") {
        proof {
            reveal_strlit("sip:");
        }
        s.append(&string_of(slice_subrange(&identity, 4, identity.len())));
    } else {
        s.append(&registration.public_identity);
    }
    s.append("@");
    registration.contact_host.push_to(&mut s);
    s.append(":");
    push_decimal(&mut s, registration.contact_port as u128);
    s
}

fn register_headers(registration: &SipRegistration, branch: &str) -> (s: String)
    ensures
        s@ == registration.register_headers(branch@),
{
    let mut s = "REGISTER ".to_owned();
    s.append(&registrar_uri(registration));
    s.append(" SIP/2.0\r\nVia: SIP/2.0/UDP [");
    registration.contact_host.push_to(&mut s);
    s.append("]:");
    push_decimal(&mut s, registration.contact_port as u128);
    s.append(";branch=");
    s.append(branch);
    s.append(";rport\r\nFrom: <");
    s.append(&registration.public_identity);
    s.append(">;tag=simadmin\r\nTo: <");
    s.append(&registration.public_identity);
    s.append(">\r\nCall-ID: ");
    s.append(&registration.call_id);
    s.append("\r\nCSeq: ");
    push_decimal(&mut s, registration.cseq as u128);
    s.append(" REGISTER\r\nContact: <");
    s.append(&contact_uri(registration));
    s.append(">\r\nMax-Forwards: 70\r\nUser-Agent: SimAdmin\r\n");
    s
}

/// A REGISTER request that answers the challenge of the server with `response`.
pub fn build_answering_register(
    registration: &SipRegistration,
    branch: &str,
    response: &str,
) -> (s: String)
    ensures
        s@ == registration.answering_register(branch@, response@),
{
    let mut s = "Authorization: Digest username=\"".to_owned();
    s.append(&registration.private_identity);
    s.append("\", realm=\"");
    s.append(&registration.realm);
    s.append("\", nonce=\"");
    s.append(&registration.nonce);
    s.append("\", uri=\"");
    s.append(&registrar_uri(registration));
    s.append("\", response=\"");
    s.append(response);
    s.append("\", algorithm=AKAv1-MD5\r\n");
    let mut request = register_headers(registration, branch);
    request.append(&s);
    request.append("Content-Length: 0\r\n\r\n");
    request
}

/// A REGISTER request that answers the challenge of the server. It needs a branch, a Call-ID and
/// everything that goes into the digest.
pub fn build_register(registration: &SipRegistration, branch: &str) -> (r: Result<String, ImsError>)
    ensures
        match r {
            Ok(s) => branch@.len() > 0 && registration.call_id@.len() > 0
                && registration.has_credentials() && s@ == registration.answering_register(
                branch@,
                registration.challenge_response(),
            ),
            Err(e) => if branch@.len() == 0 || registration.call_id@.len() == 0 {
                e == ImsError::MissingBranchOrCallId
            } else {
                e == ImsError::EmptyDigestField && !registration.has_credentials()
            },
        },
{
    if branch.is_empty() || registration.call_id.as_str().is_empty() {
        return Err(ImsError::MissingBranchOrCallId);
    }
    let uri = registrar_uri(registration);
    match aka_md5_response(
        &registration.private_identity,
        &registration.realm,
        &registration.nonce,
        "REGISTER",
        &uri,
        &registration.aka_res_hex,
    ) {
        Ok(response) => Ok(build_answering_register(registration, branch, &response)),
        Err(e) => Err(e),
    }
}

/// A REGISTER request without authentication. It needs a branch and a Call-ID.
pub fn build_initial_register(registration: &SipRegistration, branch: &str) -> (r: Result<
    String,
    ImsError,
>)
    ensures
        match r {
            Ok(s) => branch@.len() > 0 && registration.call_id@.len() > 0 && s@
                == registration.initial_register(branch@),
            Err(e) => e == ImsError::MissingBranchOrCallId && (branch@.len() == 0
                || registration.call_id@.len() == 0),
        },
{
    if branch.is_empty() || registration.call_id.as_str().is_empty() {
        return Err(ImsError::MissingBranchOrCallId);
    }
    let mut s = register_headers(registration, branch);
    s.append("Content-Length: 0\r\n\r\n");
    Ok(s)
}

// ---------------------------------------------------------------------------------------------
// Responses
// ---------------------------------------------------------------------------------------------
/// The status code of a response: the second word of a first line that begins with `SIP/2.0`.
pub open spec fn status_code(response: Seq<char>) -> Option<nat> {
    let lines = text::lines(response);
    if lines.len() == 0 {
        None
    } else {
        let words = text::words(lines[0]);
        if words.len() >= 2 && words[0] == "SIP/2.0"@ {
            number::parse_unsigned(words[1], 65535)
        } else {
            None
        }
    }
}

/// The status code of a SIP response.
pub fn sip_status_code(response: &str) -> (r: Option<u16>)
    ensures
        match r {
            Some(code) => status_code(response@) == Some(code as nat),
            None => status_code(response@) is None,
        },
{
    let chars = chars_of(response);
    let lines = lines_of(&chars);
    assert(text::pieces(lines@).len() == lines@.len());
    if lines.len() == 0 {
        return None;
    }
    assert(text::pieces(lines@)[0] == lines@[0]@);
    let words = words_of(lines[0]);
    assert(text::pieces(words@).len() == words@.len());
    if words.len() < 2 {
        return None;
    }
    assert(text::pieces(words@)[0] == words@[0]@ && text::pieces(words@)[1] == words@[1]@);
    if !is_text(words[0], "SIP/2.0") {
        return None;
    }
    match read_unsigned(words[1], 65535) {
        Some(code) => Some(code as u16),
        None => None,
    }
}

/// What came back for a request: the text of a packet, unless none came in time.
pub fn response_outcome(packet: Option<&[u8]>) -> (r: Result<String, ImsError>)
    ensures
        match packet {
            Some(bytes) => r is Ok && r->Ok_0@ == externals::utf8_lossy(bytes@),
            None => r == Err::<String, ImsError>(ImsError::ResponseTimedOut),
        },
{
    match packet {
        Some(bytes) => Ok(utf8_text_lossy(bytes)),
        None => Err(ImsError::ResponseTimedOut),
    }
}

/// The header line of a challenge for AKA authentication.
pub open spec fn is_aka_header(line: Seq<char>) -> bool {
    let small = text::lowercase(line);
    "www-authenticate:"@.is_prefix_of(small) && text::occurs_in("aka"@, small)
}

/// The value of an item `key=value` whose key is `name`, without quotes around it.
pub open spec fn item_value(item: Seq<char>, name: Seq<char>) -> Option<Seq<char>> {
    match text::split_once(text::trim(item), '=') {
        Some((key, value)) => if text::lowercase(text::trim(key)) == name {
            Some(text::trim_set(text::trim(value), "\""@))
        } else {
            None
        },
        None => None,
    }
}

/// The value of the first item of a list whose key is `name`.
pub open spec fn list_parameter(list: Seq<char>, name: Seq<char>) -> Option<Seq<char>> {
    text::find_map(text::split(list, ','), |item: Seq<char>| item_value(item, name))
}

/// The realm and the nonce of the first AKA challenge in a response.
pub open spec fn aka_challenge(response: Seq<char>) -> Option<(Seq<char>, Seq<char>)> {
    let header = text::find_map(
        text::lines(response),
        |line: Seq<char>|
            if is_aka_header(line) {
                Some(line)
            } else {
                None
            },
    );
    match header {
        Some(line) => match text::split_once(line, ':') {
            Some((_, value)) => match (
                list_parameter(value, "realm"@),
                list_parameter(value, "nonce"@),
            ) {
                (Some(realm), Some(nonce)) => Some((realm, nonce)),
                _ => None,
            },
            None => None,
        },
        None => None,
    }
}

fn read_parameter(list: &[char], name: &str) -> (r: Option<String>)
    ensures
        match r {
            Some(s) => list_parameter(list@, name@) == Some(s@),
            None => list_parameter(list@, name@) is None,
        },
{
    let items = split_on(list, ',');
    let ghost all = text::pieces(items@);
    let ghost f = |item: Seq<char>| item_value(item, name@);
    let mut i: usize = 0;
    assert(all.skip(0) =~= all);
    while i < items.len()
        invariant
            i <= items.len(),
            all == text::pieces(items@),
            f == (|item: Seq<char>| item_value(item, name@)),
            list_parameter(list@, name@) == text::find_map(all.skip(i as int), f),
        decreases items.len() - i,
    {
        proof {
            text::lemma_find_map_step(all, f, i as int);
            assert(all[i as int] == items@[i as int]@);
        }
        if let Some((key, value)) = split_at_char(trimmed(items[i]), '=') {
            let small = to_lowercase(trimmed(key));
            if is_text(&small, name) {
                return Some(string_of(trimmed_set(trimmed(value), "\"")));
            }
        }
        i += 1;
    }
    None
}

/// The first AKA challenge in a response.
pub fn parse_aka_challenge(response: &str) -> (r: Option<AkaChallenge>)
    ensures
        match r {
            Some(c) => aka_challenge(response@) == Some((c.realm@, c.nonce@)),
            None => aka_challenge(response@) is None,
        },
{
    let chars = chars_of(response);
    let lines = lines_of(&chars);
    let ghost all = text::pieces(lines@);
    let ghost f = |line: Seq<char>|
        if is_aka_header(line) {
            Some(line)
        } else {
            None
        };
    let mut i: usize = 0;
    assert(all.skip(0) =~= all);
    while i < lines.len()
        invariant
            i <= lines.len(),
            all == text::pieces(lines@),
            all == text::lines(response@),
            f == (|line: Seq<char>|
                if is_aka_header(line) {
                    Some(line)
                } else {
                    None
                }),
            text::find_map(all, f) == text::find_map(all.skip(i as int), f),
        decreases lines.len() - i,
    {
        proof {
            text::lemma_find_map_step(all, f, i as int);
            assert(all[i as int] == lines@[i as int]@);
        }
        let small = to_lowercase(lines[i]);
        if starts_with(&small, "www-authenticate:") && contains(&small, "aka") {
            if let Some((_, value)) = split_at_char(lines[i], ':') {
                if let Some(realm) = read_parameter(value, "realm") {
                    if let Some(nonce) = read_parameter(value, "nonce") {
                        return Some(AkaChallenge { realm, nonce });
                    }
                }
            }
            return None;
        }
        i += 1;
    }
    None
}

/// The request that answers a challenge is the one without authentication with one more header.
pub proof fn law_answer_adds_authorization(
    registration: SipRegistration,
    branch: Seq<char>,
    response: Seq<char>,
)
    ensures
        ({
            let n = registration.register_headers(branch).len() as int;
            let initial = registration.initial_register(branch);
            registration.answering_register(branch, response) == initial.take(n)
                + registration.authorization(response) + initial.skip(n)
        }),
{
    let n = registration.register_headers(branch).len() as int;
    let initial = registration.initial_register(branch);
    assert(initial.take(n) =~= registration.register_headers(branch));
    assert(initial.skip(n) =~= "Content-Length: 0\r\n\r\n"@);
}

} // verus!
