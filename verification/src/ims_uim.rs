//! USIM application and AKA response parsing for native IMS.
use vstd::prelude::*;
use vstd::slice::{slice_subrange, slice_to_vec};
use crate::error::ImsError;
use crate::externals;
use crate::externals::base64_decode;
use crate::number;
use crate::number::{push_decimal, read_hex, to_hex_upper};
use crate::text;
use crate::text::{chars_of, split_on, string_of, trimmed, trimmed_set, without_white_space};

verus! {

/// What the USIM answers to a successful authentication.
#[derive(Debug, Clone, PartialEq, Eq)]
pub struct AkaResponse {
    pub res: Vec<u8>,
    pub ck: Vec<u8>,
    pub ik: Vec<u8>,
}

/// What the USIM answers when its sequence number is out of step.
#[derive(Debug, Clone, PartialEq, Eq)]
pub struct AkaResync {
    pub auts: Vec<u8>,
}

// ---------------------------------------------------------------------------------------------
// Hexadecimal text with white space
// ---------------------------------------------------------------------------------------------
/// The bytes that a text writes in hexadecimal, white space aside.
pub open spec fn apdu_bytes(s: Seq<char>) -> Option<Seq<u8>> {
    number::hex_bytes(text::compact(s))
}

/// The bytes that `input` writes in hexadecimal, white space aside.
fn decode_hex_chars(input: &[char]) -> (r: Result<Vec<u8>, ImsError>)
    ensures
        match r {
            Ok(bytes) => apdu_bytes(input@) == Some(bytes@),
            Err(e) => apdu_bytes(input@) is None && e == ImsError::ApduNotHex,
        },
{
    let clean = without_white_space(input);
    match read_hex(&clean) {
        Some(bytes) => Ok(bytes),
        None => Err(ImsError::ApduNotHex),
    }
}

/// The bytes that `input` writes in hexadecimal, white space aside.
pub fn decode_hex(input: &str) -> (r: Result<Vec<u8>, ImsError>)
    ensures
        match r {
            Ok(bytes) => apdu_bytes(input@) == Some(bytes@),
            Err(e) => apdu_bytes(input@) is None && e == ImsError::ApduNotHex,
        },
{
    let chars = chars_of(input);
    decode_hex_chars(&chars)
}

/// `bytes` in hexadecimal, in capitals.
pub fn encode_hex(bytes: &[u8]) -> (s: String)
    ensures
        s@ == number::hex_upper(bytes@),
{
    to_hex_upper(bytes)
}

// ---------------------------------------------------------------------------------------------
// Commands
// ---------------------------------------------------------------------------------------------
/// The AT command that passes an APDU to the USIM.
pub open spec fn csim_command(apdu: Seq<char>) -> Seq<char> {
    "AT+CSIM="@ + number::decimal(apdu.len()) + ",\""@ + apdu + "\""@
}

/// The AT command that passes the APDU to the USIM. The APDU must be hexadecimal and must not be
/// empty.
pub fn build_csim_command(apdu_hex: &str) -> (r: Result<String, ImsError>)
    ensures
        match r {
            Ok(s) => apdu_bytes(apdu_hex@) is Some && apdu_bytes(apdu_hex@)->0.len() > 0 && s@
                == csim_command(apdu_hex@),
            Err(e) => match apdu_bytes(apdu_hex@) {
                Some(bytes) => bytes.len() == 0 && e == ImsError::EmptyApdu,
                None => e == ImsError::ApduNotHex,
            },
        },
{
    let length = apdu_hex.unicode_len();
    match decode_hex(apdu_hex) {
        Ok(bytes) => {
            if bytes.len() == 0 {
                return Err(ImsError::EmptyApdu);
            }
            let mut s = "AT+CSIM=".to_owned();
            push_decimal(&mut s, length as u128);
            s.append(",\"");
            s.append(apdu_hex);
            s.append("\"");
            Ok(s)
        },
        Err(e) => Err(e),
    }
}

/// What stands between the first two quotes of a response, or after the only one.
pub open spec fn quoted_part(response: Seq<char>) -> Option<Seq<char>> {
    let parts = text::split(response, '"');
    if parts.len() >= 2 {
        Some(parts[1])
    } else {
        None
    }
}

/// The hexadecimal text in the modem's answer to `AT+CSIM`.
pub fn extract_csim_hex(response: &str) -> (r: Result<String, ImsError>)
    ensures
        match r {
            Ok(s) => quoted_part(response@) == Some(s@) && apdu_bytes(s@) is Some,
            Err(e) => match quoted_part(response@) {
                Some(value) => apdu_bytes(value) is None && e == ImsError::ApduNotHex,
                None => e == ImsError::NoCsimData,
            },
        },
{
    let chars = chars_of(response);
    let parts = split_on(&chars, '"');
    assert(text::pieces(parts@).len() == parts@.len());
    if parts.len() < 2 {
        return Err(ImsError::NoCsimData);
    }
    assert(text::pieces(parts@)[1] == parts@[1]@);
    match decode_hex_chars(parts[1]) {
        Ok(_) => Ok(string_of(parts[1])),
        Err(e) => Err(e),
    }
}

/// The nonce without white space and quotes around it.
pub open spec fn bare_nonce(nonce: Seq<char>) -> Seq<char> {
    text::trim_set(text::trim(nonce), "\""@)
}

/// The bytes of a nonce, given what its Base64 decoding gave: those, or else those that it
/// writes in hexadecimal.
pub open spec fn nonce_bytes(bare: Seq<char>, decoded: Option<Seq<u8>>) -> Option<Seq<u8>> {
    match decoded {
        Some(bytes) => Some(bytes),
        None => apdu_bytes(bare),
    }
}

/// The AUTHENTICATE command with a random challenge and an authentication token.
pub open spec fn authenticate_apdu(data: Seq<u8>) -> Seq<char> {
    "008800812210"@ + number::hex_upper(data.take(16)) + number::hex_upper(data.skip(16))
}

/// The bytes of a nonce, given what its Base64 decoding gave.
pub fn choose_nonce_bytes(bare: &str, decoded: Option<Vec<u8>>) -> (r: Result<Vec<u8>, ImsError>)
    ensures
        ({
            let expected = nonce_bytes(
                bare@,
                match decoded {
                    Some(bytes) => Some(bytes@),
                    None => None,
                },
            );
            match r {
                Ok(bytes) => expected == Some(bytes@),
                Err(e) => expected is None && e == ImsError::UndecodableNonce,
            }
        }),
{
    match decoded {
        Some(bytes) => Ok(bytes),
        None => {
            match decode_hex(bare) {
                Ok(bytes) => Ok(bytes),
                Err(_) => Err(ImsError::UndecodableNonce),
            }
        },
    }
}

/// The AT command that has the USIM authenticate the network: `data` holds the random challenge
/// and the authentication token, sixteen bytes each.
pub fn build_authenticate_command(data: &[u8]) -> (r: Result<String, ImsError>)
    ensures
        match r {
            Ok(s) => data@.len() == 32 && s@ == csim_command(authenticate_apdu(data@)),
            Err(e) => data@.len() != 32 && e == ImsError::NonceLength,
        },
{
    if data.len() != 32 {
        return Err(ImsError::NonceLength);
    }
    let mut apdu = "008800812210".to_owned();
    apdu.append(&encode_hex(slice_subrange(data, 0, 16)));
    apdu.append(&encode_hex(slice_subrange(data, 16, 32)));
    proof {
        law_authenticate_apdu(data@);
    }
    build_csim_command(&apdu)
}

/// The AT command that has the USIM answer the challenge `nonce`, in Base64 or in hexadecimal.
pub fn build_aka_auth_command(nonce: &str) -> (r: Result<String, ImsError>)
    ensures
        ({
            let bare = bare_nonce(nonce@);
            let data = nonce_bytes(bare, externals::base64_decoded(bare));
            match r {
                Ok(s) => data is Some && data->0.len() == 32 && s@ == csim_command(
                    authenticate_apdu(data->0),
                ),
                Err(e) => match data {
                    Some(bytes) => bytes.len() != 32 && e == ImsError::NonceLength,
                    None => e == ImsError::UndecodableNonce,
                },
            }
        }),
{
    let chars = chars_of(nonce);
    let bare = string_of(trimmed_set(trimmed(&chars), "\""));
    let decoded = base64_decode(&bare);
    match choose_nonce_bytes(&bare, decoded) {
        Ok(data) => build_authenticate_command(&data),
        Err(e) => Err(e),
    }
}

// ---------------------------------------------------------------------------------------------
// Answers
// ---------------------------------------------------------------------------------------------
/// A dedicated file name stands at index `i`: its tag, its length, and that many bytes.
pub open spec fn aid_at(bytes: Seq<u8>, i: int) -> bool {
    &&& 0 <= i
    &&& i + 1 < bytes.len()
    &&& bytes[i] == 0x84
    &&& i + 2 + bytes[i + 1] <= bytes.len()
}

/// The first dedicated file name at index `i` or later.
pub open spec fn find_aid(bytes: Seq<u8>, i: int) -> Option<Seq<u8>>
    decreases bytes.len() - i,
{
    if i >= bytes.len() {
        None
    } else if aid_at(bytes, i) {
        Some(bytes.subrange(i + 2, i + 2 + bytes[i + 1]))
    } else {
        find_aid(bytes, i + 1)
    }
}

/// The identifier of the USIM application in the answer to SELECT.
pub fn parse_aid_from_select_response(response_hex: &str) -> (r: Result<Vec<u8>, ImsError>)
    ensures
        match apdu_bytes(response_hex@) {
            Some(bytes) => match r {
                Ok(aid) => find_aid(bytes, 0) == Some(aid@),
                Err(e) => find_aid(bytes, 0) is None && e == ImsError::MissingAid,
            },
            None => r == Err::<Vec<u8>, ImsError>(ImsError::ApduNotHex),
        },
{
    let bytes = match decode_hex(response_hex) {
        Ok(bytes) => bytes,
        Err(e) => {
            return Err(e);
        },
    };
    let n = bytes.len();
    let mut i: usize = 0;
    while i < n
        invariant
            i <= n,
            n == bytes@.len(),
            apdu_bytes(response_hex@) == Some(bytes@),
            find_aid(bytes@, 0) == find_aid(bytes@, i as int),
        decreases n - i,
    {
        if bytes[i] == 0x84 && n - i > 1 {
            let length = bytes[i + 1] as usize;
            if length <= n - i - 2 {
                return Ok(slice_to_vec(slice_subrange(&bytes, i + 2, i + 2 + length)));
            }
        }
        i += 1;
    }
    Err(ImsError::MissingAid)
}

/// The elements of a list of tags, lengths and values; none if the last value is cut short. A
/// single byte at the end is left over.
pub open spec fn elements(p: Seq<u8>) -> Option<Seq<(u8, Seq<u8>)>>
    decreases p.len(),
{
    if p.len() < 2 {
        Some(Seq::empty())
    } else if 2 + p[1] > p.len() {
        None
    } else {
        match elements(p.skip(2 + p[1])) {
            Some(rest) => Some(seq![(p[0], p.subrange(2, 2 + p[1]))] + rest),
            None => None,
        }
    }
}

/// The value of the last element with the tag.
pub open spec fn last_value(e: Seq<(u8, Seq<u8>)>, tag: u8) -> Option<Seq<u8>>
    decreases e.len(),
{
    if e.len() == 0 {
        None
    } else if e.last().0 == tag {
        Some(e.last().1)
    } else {
        last_value(e.drop_last(), tag)
    }
}

/// The bytes of a value that may be missing.
pub open spec fn bytes_view(v: Option<Vec<u8>>) -> Option<Seq<u8>> {
    match v {
        Some(v) => Some(v@),
        None => None,
    }
}

/// What an answer to AUTHENTICATE means.
pub enum AkaAnswer {
    /// The response and the two keys.
    Material(Seq<u8>, Seq<u8>, Seq<u8>),
    /// The token with which the sequence number is brought in step.
    Resync(Seq<u8>),
    /// There is no valid answer.
    Invalid(ImsError),
}

/// What the elements of a successful answer mean.
pub open spec fn elements_answer(e: Seq<(u8, Seq<u8>)>) -> AkaAnswer {
    match last_value(e, 0xDE) {
        Some(auts) => AkaAnswer::Resync(auts),
        None => match (last_value(e, 0xDB), last_value(e, 0xDC), last_value(e, 0xDD)) {
            (None, _, _) => AkaAnswer::Invalid(ImsError::MissingRes),
            (_, None, _) => AkaAnswer::Invalid(ImsError::MissingCk),
            (_, _, None) => AkaAnswer::Invalid(ImsError::MissingIk),
            (Some(res), Some(ck), Some(ik)) => AkaAnswer::Material(res, ck, ik),
        },
    }
}

/// What an answer to AUTHENTICATE, in hexadecimal, means. It must end with the status of
/// success.
pub open spec fn aka_answer(response: Seq<char>) -> AkaAnswer {
    match apdu_bytes(response) {
        Some(bytes) => {
            let n = bytes.len();
            if n >= 2 && bytes[n - 2] == 0x90 && bytes[n - 1] == 0x00 {
                match elements(bytes.take(n - 2)) {
                    Some(e) => elements_answer(e),
                    None => AkaAnswer::Invalid(ImsError::TruncatedAka),
                }
            } else {
                AkaAnswer::Invalid(ImsError::AkaFailed)
            }
        },
        None => AkaAnswer::Invalid(ImsError::ApduNotHex),
    }
}

proof fn lemma_last_value_push(e: Seq<(u8, Seq<u8>)>, x: (u8, Seq<u8>), tag: u8)
    ensures
        last_value(e.push(x), tag) == if x.0 == tag {
            Some(x.1)
        } else {
            last_value(e, tag)
        },
{
    assert(e.push(x).drop_last() =~= e);
}

/// What the answer of the USIM to AUTHENTICATE means.
pub fn parse_aka_response(response_hex: &str) -> (r: Result<
    Result<AkaResponse, AkaResync>,
    ImsError,
>)
    ensures
        match aka_answer(response_hex@) {
            AkaAnswer::Material(res, ck, ik) => r is Ok && r->Ok_0 is Ok && r->Ok_0->Ok_0.res@ == res
                && r->Ok_0->Ok_0.ck@ == ck && r->Ok_0->Ok_0.ik@ == ik,
            AkaAnswer::Resync(auts) => r is Ok && r->Ok_0 is Err && r->Ok_0->Err_0.auts@ == auts,
            AkaAnswer::Invalid(e) => r is Err && r->Err_0 == e,
        },
{
    let bytes = match decode_hex(response_hex) {
        Ok(bytes) => bytes,
        Err(e) => {
            return Err(e);
        },
    };
    let total = bytes.len();
    if total < 2 || bytes[total - 2] != 0x90 || bytes[total - 1] != 0x00 {
        return Err(ImsError::AkaFailed);
    }
    let payload = slice_subrange(&bytes, 0, total - 2);
    let n = payload.len();
    assert(payload@ =~= bytes@.take(total - 2));
    let mut index: usize = 0;
    let mut res: Option<Vec<u8>> = None;
    let mut ck: Option<Vec<u8>> = None;
    let mut ik: Option<Vec<u8>> = None;
    let mut auts: Option<Vec<u8>> = None;
    let ghost mut done: Seq<(u8, Seq<u8>)> = Seq::empty();
    assert(payload@.skip(0) =~= payload@);
    proof {
        if let Some(e) = elements(payload@) {
            assert(done + e =~= e);
        }
    }
    while n - index >= 2
        invariant
            index <= n,
            n == payload@.len(),
            match elements(payload@.skip(index as int)) {
                Some(rest) => elements(payload@) == Some(done + rest),
                None => elements(payload@) is None,
            },
            aka_answer(response_hex@) == (match elements(payload@) {
                Some(e) => elements_answer(e),
                None => AkaAnswer::Invalid(ImsError::TruncatedAka),
            }),
            bytes_view(res) == last_value(done, 0xDB),
            bytes_view(ck) == last_value(done, 0xDC),
            bytes_view(ik) == last_value(done, 0xDD),
            bytes_view(auts) == last_value(done, 0xDE),
        decreases n - index,
    {
        let ghost here = payload@.skip(index as int);
        let tag = payload[index];
        let length = payload[index + 1] as usize;
        assert(here[0] == tag && here[1] == length);
        if length > n - index - 2 {
            return Err(ImsError::TruncatedAka);
        }
        let start = index + 2;
        let value = slice_to_vec(slice_subrange(payload, start, start + length));
        let ghost element = (tag, value@);
        proof {
            assert(value@ =~= here.subrange(2, 2 + here[1]));
            assert(here.skip(2 + here[1]) =~= payload@.skip(start + length));
            lemma_last_value_push(done, element, 0xDB);
            lemma_last_value_push(done, element, 0xDC);
            lemma_last_value_push(done, element, 0xDD);
            lemma_last_value_push(done, element, 0xDE);
            if let Some(rest) = elements(payload@.skip(start + length)) {
                assert(done + (seq![element] + rest) =~= done.push(element) + rest);
            }
            done = done.push(element);
        }
        if tag == 0xDB {
            res = Some(value);
        } else if tag == 0xDC {
            ck = Some(value);
        } else if tag == 0xDD {
            ik = Some(value);
        } else if tag == 0xDE {
            auts = Some(value);
        }
        index = start + length;
    }
    assert(done + Seq::<(u8, Seq<u8>)>::empty() =~= done);
    if let Some(auts) = auts {
        return Ok(Err(AkaResync { auts }));
    }
    match res {
        None => Err(ImsError::MissingRes),
        Some(res) => match ck {
            None => Err(ImsError::MissingCk),
            Some(ck) => match ik {
                None => Err(ImsError::MissingIk),
                Some(ik) => Ok(Ok(AkaResponse { res, ck, ik })),
            },
        },
    }
}

// ---------------------------------------------------------------------------------------------
// Laws
// ---------------------------------------------------------------------------------------------
/// The AUTHENTICATE command stands for its header, the length of the random challenge, and the
/// challenge data.
pub proof fn law_authenticate_apdu(data: Seq<u8>)
    requires
        data.len() == 32,
    ensures
        apdu_bytes(authenticate_apdu(data)) == Some(
            seq![0x00u8, 0x88, 0x00, 0x81, 0x22, 0x10] + data,
        ),
{
    let header = seq![0x00u8, 0x88, 0x00, 0x81, 0x22, 0x10];
    reveal_strlit("008800812210");
    let a = authenticate_apdu(data);
    assert(number::hex_upper(header) =~= "008800812210"@);
    assert(a =~= number::hex_upper(header + data));
    number::law_hex_round_trip(header + data);
    assert(number::is_hex_text(a));
    text::lemma_compact_hex(a);
}

proof fn lemma_apdu_characters(s: Seq<char>)
    requires
        apdu_bytes(s) is Some,
    ensures
        forall|i: int|
            0 <= i < s.len() ==> text::is_hex_digit(#[trigger] s[i]) || text::is_ascii_white_space(
                s[i],
            ),
{
    let p = |c: char| !text::is_ascii_white_space(c);
    assert forall|i: int| 0 <= i < s.len() implies text::is_hex_digit(#[trigger] s[i])
        || text::is_ascii_white_space(s[i]) by {
        if p(s[i]) {
            s.lemma_filter_contains(p, i);
            assert(s.filter(p).contains(s[i]));
            let k = choose|k: int| 0 <= k < s.filter(p).len() && s.filter(p)[k] == s[i];
            assert(text::is_hex_digit(text::compact(s)[k]));
        }
    }
}

/// The APDU is found again in the command that passes it to the USIM.
pub proof fn law_csim_round_trip(apdu: Seq<char>)
    requires
        apdu_bytes(apdu) is Some,
    ensures
        quoted_part(csim_command(apdu)) == Some(apdu),
{
    lemma_apdu_characters(apdu);
    number::lemma_decimal_digits(apdu.len());
    reveal_strlit("AT+CSIM=");
    reveal_strlit(",\"");
    reveal_strlit("\"");
    let head = "AT+CSIM="@ + number::decimal(apdu.len()) + seq![','];
    assert(!head.contains('"')) by {
        let digits = number::decimal(apdu.len());
        assert forall|i: int| 0 <= i < head.len() implies head[i] != '"' by {
            if 8 <= i < 8 + digits.len() {
                assert(text::is_digit(digits[i - 8]));
            }
        }
    }
    assert(!apdu.contains('"'));
    let rest = apdu.push('"') + Seq::<char>::empty();
    assert(csim_command(apdu) =~= head.push('"') + rest);
    text::lemma_split_first(head, '"', rest);
    text::lemma_split_first(apdu, '"', Seq::empty());
}

/// The elements of a list that begins with an element are this element and the others.
proof fn lemma_elements_first(tag: u8, value: Seq<u8>, rest: Seq<u8>)
    requires
        value.len() <= 255,
    ensures
        elements(seq![tag, value.len() as u8] + value + rest) == (match elements(rest) {
            Some(e) => Some(seq![(tag, value)] + e),
            None => None,
        }),
{
    let p = seq![tag, value.len() as u8] + value + rest;
    assert(p.skip(2 + p[1]) =~= rest);
    assert(p.subrange(2, 2 + p[1]) =~= value);
}

/// A list of elements as bytes: the tag, the length and the value of each.
pub open spec fn encode_elements(e: Seq<(u8, Seq<u8>)>) -> Seq<u8>
    decreases e.len(),
{
    if e.len() == 0 {
        Seq::empty()
    } else {
        seq![e[0].0, e[0].1.len() as u8] + e[0].1 + encode_elements(e.skip(1))
    }
}

/// Elements that were written as bytes are read back, if their lengths fit in one byte.
pub proof fn law_elements_round_trip(e: Seq<(u8, Seq<u8>)>)
    requires
        forall|i: int| 0 <= i < e.len() ==> (#[trigger] e[i]).1.len() <= 255,
    ensures
        elements(encode_elements(e)) == Some(e),
    decreases e.len(),
{
    if e.len() > 0 {
        assert forall|i: int| 0 <= i < e.skip(1).len() implies (#[trigger] e.skip(1)[i]).1.len()
            <= 255 by {
            assert(e.skip(1)[i] == e[i + 1]);
        }
        law_elements_round_trip(e.skip(1));
        lemma_elements_first(e[0].0, e[0].1, encode_elements(e.skip(1)));
        assert(seq![(e[0].0, e[0].1)] + e.skip(1) =~= e);
    } else {
        assert(e =~= Seq::empty());
    }
}

/// An answer in hexadecimal means what its elements mean, if it ends with the status of success.
pub proof fn law_successful_answer(e: Seq<(u8, Seq<u8>)>)
    requires
        forall|i: int| 0 <= i < e.len() ==> (#[trigger] e[i]).1.len() <= 255,
    ensures
        aka_answer(number::hex_upper(encode_elements(e) + seq![0x90u8, 0x00])) == elements_answer(
            e,
        ),
{
    let payload = encode_elements(e);
    let bytes = payload + seq![0x90u8, 0x00];
    let s = number::hex_upper(bytes);
    number::law_hex_round_trip(bytes);
    assert(number::is_hex_text(s));
    text::lemma_compact_hex(s);
    assert(bytes.take(bytes.len() - 2) =~= payload);
    law_elements_round_trip(e);
}

/// The response and the keys are found in a list that holds one of each, whatever their order
/// and whatever other elements there are, unless a resynchronization is asked for.
pub proof fn law_material_found(e: Seq<(u8, Seq<u8>)>, a: int, b: int, c: int)
    requires
        0 <= a < e.len(),
        0 <= b < e.len(),
        0 <= c < e.len(),
        e[a].0 == 0xDB,
        e[b].0 == 0xDC,
        e[c].0 == 0xDD,
        forall|i: int| 0 <= i < e.len() ==> (#[trigger] e[i]).0 != 0xDE,
        forall|i: int| 0 <= i < e.len() && i != a ==> (#[trigger] e[i]).0 != 0xDB,
        forall|i: int| 0 <= i < e.len() && i != b ==> (#[trigger] e[i]).0 != 0xDC,
        forall|i: int| 0 <= i < e.len() && i != c ==> (#[trigger] e[i]).0 != 0xDD,
    ensures
        elements_answer(e) == AkaAnswer::Material(e[a].1, e[b].1, e[c].1),
{
    lemma_last_value_only(e, a, 0xDB);
    lemma_last_value_only(e, b, 0xDC);
    lemma_last_value_only(e, c, 0xDD);
    lemma_last_value_absent(e, 0xDE);
}

/// A request for resynchronization comes before everything else.
pub proof fn law_resync_found(e: Seq<(u8, Seq<u8>)>, a: int)
    requires
        0 <= a < e.len(),
        e[a].0 == 0xDE,
        forall|i: int| 0 <= i < e.len() && i != a ==> (#[trigger] e[i]).0 != 0xDE,
    ensures
        elements_answer(e) == AkaAnswer::Resync(e[a].1),
{
    lemma_last_value_only(e, a, 0xDE);
}

proof fn lemma_last_value_absent(e: Seq<(u8, Seq<u8>)>, tag: u8)
    requires
        forall|i: int| 0 <= i < e.len() ==> (#[trigger] e[i]).0 != tag,
    ensures
        last_value(e, tag) is None,
    decreases e.len(),
{
    if e.len() > 0 {
        assert(e[e.len() - 1].0 != tag);
        assert forall|i: int| 0 <= i < e.drop_last().len() implies (#[trigger] e.drop_last()[i]).0
            != tag by {
            assert(e.drop_last()[i] == e[i]);
        }
        lemma_last_value_absent(e.drop_last(), tag);
    }
}

proof fn lemma_last_value_only(e: Seq<(u8, Seq<u8>)>, a: int, tag: u8)
    requires
        0 <= a < e.len(),
        e[a].0 == tag,
        forall|i: int| 0 <= i < e.len() && i != a ==> (#[trigger] e[i]).0 != tag,
    ensures
        last_value(e, tag) == Some(e[a].1),
    decreases e.len(),
{
    if a < e.len() - 1 {
        assert(e[e.len() - 1].0 != tag);
        let d = e.drop_last();
        assert(d[a] == e[a]);
        assert forall|i: int| 0 <= i < d.len() && i != a implies (#[trigger] d[i]).0 != tag by {
            assert(d[i] == e[i]);
        }
        lemma_last_value_only(d, a, tag);
    }
}

} // verus!
