//! Laws of the commands to the USIM, of its answers and of the protection of the channel.
use vstd::prelude::*;
use crate::error::ImsError;
use crate::ims_ipsec::EspSecurityAssociation;
use crate::ims_uim;
use crate::ims_uim::AkaAnswer;
use crate::ipv6;
use crate::number;
use crate::text;
use crate::text_laws;

verus! {

// ---------------------------------------------------------------------------------------------
// Commands
// ---------------------------------------------------------------------------------------------
/// A text of hexadecimal digits and white space, with small or capital letters, stands for the
/// bytes that its digits write; anything else stands for none.
pub proof fn law_apdu_read(s: Seq<char>, bytes: Seq<u8>)
    ensures
        text::uppercase(text::compact(s)) == number::hex_upper(bytes) ==> ims_uim::apdu_bytes(s)
            == Some(bytes),
        text::compact(s).len() % 2 == 1 ==> ims_uim::apdu_bytes(s) is None,
        forall|i: int|
            0 <= i < text::compact(s).len() && !text::is_hex_digit(#[trigger] text::compact(s)[i])
                ==> ims_uim::apdu_bytes(s) is None,
{
    text_laws::law_hex_read(text::compact(s));
    number::law_hex_round_trip(bytes);
}

/// The command that passes an APDU tells its length in characters and holds it in quotes.
pub proof fn law_csim_command(apdu: Seq<char>)
    ensures
        ({
            let command = ims_uim::csim_command(apdu);
            let after = text::split_once(command, '=');
            &&& after is Some
            &&& (after->0).0 == "AT+CSIM"@
            &&& ({
                let cut = text::split_once((after->0).1, ',');
                &&& cut is Some
                &&& number::parse_unsigned((cut->0).0, apdu.len()) == Some(apdu.len())
                &&& (cut->0).1 == seq!['"'] + apdu + seq!['"']
            })
        }),
{
    reveal_strlit("AT+CSIM=");
    reveal_strlit("AT+CSIM");
    reveal_strlit(",\"");
    reveal_strlit("\"");
    let d = number::decimal(apdu.len());
    let quoted = seq!['"'] + apdu + seq!['"'];
    let rest = d.push(',') + quoted;
    assert(ims_uim::csim_command(apdu) =~= "AT+CSIM"@.push('=') + rest);
    assert(!"AT+CSIM"@.contains('='));
    text_laws::law_split_once("AT+CSIM"@, '=', rest);
    number::lemma_decimal_digits(apdu.len());
    assert(!d.contains(',')) by {
        assert forall|i: int| 0 <= i < d.len() implies d[i] != ',' by {
            assert(text::is_digit(d[i]));
        }
    }
    text_laws::law_split_once(d, ',', quoted);
    number::law_decimal_round_trip(apdu.len(), apdu.len());
}

/// The data of an answer stands between its first two quotes, whatever is around them; there is
/// none without a quote.
pub proof fn law_quoted_part(before: Seq<char>, value: Seq<char>, after: Seq<char>)
    requires
        !before.contains('"'),
        !value.contains('"'),
    ensures
        ims_uim::quoted_part(before.push('"') + value.push('"') + after) == Some(value),
        ims_uim::quoted_part(before.push('"') + value) == Some(value),
        ims_uim::quoted_part(before) is None,
{
    let s = before.push('"') + value.push('"') + after;
    assert(s =~= before.push('"') + (value.push('"') + after));
    text::lemma_split_first(before, '"', value.push('"') + after);
    text::lemma_split_first(value, '"', after);
    text::lemma_split_first(before, '"', value);
    text::lemma_split_none(value, '"');
    text::lemma_split_none(before, '"');
}

/// The command that answers a challenge, taken apart again: an AUTHENTICATE command with the
/// length of its data, the length of the random challenge, the challenge and the token.
pub proof fn law_authenticate_command(data: Seq<u8>)
    requires
        data.len() == 32,
    ensures
        ({
            let apdu = ims_uim::quoted_part(
                ims_uim::csim_command(ims_uim::authenticate_apdu(data)),
            );
            &&& apdu is Some
            &&& ims_uim::apdu_bytes(apdu->0) == Some(
                seq![0x00u8, 0x88, 0x00, 0x81, 34, 16] + data,
            )
            &&& (apdu->0).len() == 76
            &&& text::uppercase(apdu->0) == apdu->0
        }),
{
    let apdu = ims_uim::authenticate_apdu(data);
    ims_uim::law_authenticate_apdu(data);
    ims_uim::law_csim_round_trip(apdu);
    reveal_strlit("008800812210");
    assert forall|i: int| 0 <= i < apdu.len() implies text::upper(#[trigger] apdu[i])
        == apdu[i] by {
        if 12 <= i < 44 {
            let b = data.take(16)[(i - 12) / 2] as int;
            assert(0 <= b / 16 < 16 && 0 <= b % 16 < 16);
        } else if 44 <= i {
            let b = data.skip(16)[(i - 44) / 2] as int;
            assert(0 <= b / 16 < 16 && 0 <= b % 16 < 16);
        }
    }
    assert(text::uppercase(apdu) =~= apdu);
}

/// Quotes and white space around a nonce do not belong to it. Its bytes are those that Base64
/// gives, and where Base64 gives none, those that it writes in hexadecimal.
pub proof fn law_nonce(
    lead: Seq<char>,
    nonce: Seq<char>,
    trail: Seq<char>,
    decoded: Option<Seq<u8>>,
    bytes: Seq<u8>,
)
    requires
        text_laws::is_white(lead),
        text_laws::is_white(trail),
        text_laws::is_bare(nonce),
        !nonce.contains('"'),
    ensures
        ims_uim::bare_nonce(lead + nonce + trail) == nonce,
        ims_uim::bare_nonce(lead + (seq!['"'] + nonce + seq!['"']) + trail) == nonce,
        decoded is Some ==> ims_uim::nonce_bytes(nonce, decoded) == decoded,
        ims_uim::nonce_bytes(number::hex_upper(bytes), None) == Some(bytes),
        ims_uim::nonce_bytes(number::hex_lower(bytes), None) == Some(bytes),
{
    reveal_strlit("\"");
    let set = "\""@;
    let q = seq!['"'];
    let empty = Seq::<char>::empty();
    assert(set =~= q);
    assert(set[0] == '"');
    if nonce.len() > 0 {
        assert(nonce.contains(nonce[0]) && nonce.contains(nonce.last()));
    }
    text_laws::law_trim(lead, nonce, trail);
    text_laws::law_trim_set(empty, nonce, empty, set);
    assert(empty + nonce + empty =~= nonce);
    let quoted = q + nonce + q;
    assert(quoted[0] == '"' && quoted.last() == '"');
    text_laws::law_trim(lead, quoted, trail);
    text_laws::law_trim_set(q, nonce, q, set);
    number::law_hex_round_trip(bytes);
    text::lemma_compact_hex(number::hex_upper(bytes));
    text::lemma_compact_hex(number::hex_lower(bytes));
}

// ---------------------------------------------------------------------------------------------
// Answers
// ---------------------------------------------------------------------------------------------
/// The identifier of the application follows the tag 0x84 and its length, whatever is around it;
/// a tag whose value does not fit is passed over. Without one that fits there is none.
pub proof fn law_application_found(before: Seq<u8>, aid: Seq<u8>, rest: Seq<u8>)
    requires
        aid.len() <= 255,
        ({
            let bytes = before + (seq![0x84u8, aid.len() as u8] + aid + rest);
            forall|j: int|
                0 <= j < before.len() && (#[trigger] bytes[j]) == 0x84 ==> j + 2 + bytes[j + 1]
                    > bytes.len()
        }),
    ensures
        ims_uim::find_aid(before + (seq![0x84u8, aid.len() as u8] + aid + rest), 0) == Some(aid),
{
    let bytes = before + (seq![0x84u8, aid.len() as u8] + aid + rest);
    let n = before.len() as int;
    assert(bytes[n] == 0x84 && bytes[n + 1] == aid.len());
    assert(bytes.subrange(n + 2, n + 2 + aid.len()) =~= aid);
    lemma_aid_at(bytes, 0, n);
}

proof fn lemma_aid_at(bytes: Seq<u8>, i: int, n: int)
    requires
        0 <= i <= n <= bytes.len(),
        forall|j: int|
            i <= j < n && (#[trigger] bytes[j]) == 0x84 ==> j + 1 >= bytes.len() || j + 2 + bytes[j
                + 1] > bytes.len(),
        n < bytes.len() ==> bytes[n] == 0x84 && n + 1 < bytes.len() && n + 2 + bytes[n + 1]
            <= bytes.len(),
    ensures
        ims_uim::find_aid(bytes, i) == if n < bytes.len() {
            Some(bytes.subrange(n + 2, n + 2 + bytes[n + 1]))
        } else {
            None
        },
    decreases n - i,
{
    if i < n {
        assert(!ims_uim::aid_at(bytes, i));
        lemma_aid_at(bytes, i + 1, n);
    }
}

/// An answer without a tag 0x84 whose value fits holds no identifier.
pub proof fn law_no_application(bytes: Seq<u8>)
    requires
        forall|j: int|
            0 <= j < bytes.len() && (#[trigger] bytes[j]) == 0x84 ==> j + 1 >= bytes.len() || j + 2
                + bytes[j + 1] > bytes.len(),
    ensures
        ims_uim::find_aid(bytes, 0) is None,
{
    lemma_aid_at(bytes, 0, bytes.len() as int);
}

proof fn lemma_last_value(e: Seq<(u8, Seq<u8>)>, a: int, tag: u8)
    requires
        0 <= a < e.len(),
        e[a].0 == tag,
        forall|i: int| a < i < e.len() ==> (#[trigger] e[i]).0 != tag,
    ensures
        ims_uim::last_value(e, tag) == Some(e[a].1),
    decreases e.len(),
{
    if a < e.len() - 1 {
        assert(e[e.len() - 1].0 != tag);
        let d = e.drop_last();
        assert(d[a] == e[a]);
        assert forall|i: int| a < i < d.len() implies (#[trigger] d[i]).0 != tag by {
            assert(d[i] == e[i]);
        }
        lemma_last_value(d, a, tag);
    }
}

proof fn lemma_no_value(e: Seq<(u8, Seq<u8>)>, tag: u8)
    requires
        forall|i: int| 0 <= i < e.len() ==> (#[trigger] e[i]).0 != tag,
    ensures
        ims_uim::last_value(e, tag) is None,
    decreases e.len(),
{
    if e.len() > 0 {
        let d = e.drop_last();
        assert(e[e.len() - 1].0 != tag);
        assert forall|i: int| 0 <= i < d.len() implies (#[trigger] d[i]).0 != tag by {
            assert(d[i] == e[i]);
        }
        lemma_no_value(d, tag);
    }
}

/// There is no element with the tag.
pub open spec fn lacks(e: Seq<(u8, Seq<u8>)>, tag: u8) -> bool {
    forall|i: int| 0 <= i < e.len() ==> (#[trigger] e[i]).0 != tag
}

/// The element is the last one with the tag.
pub open spec fn is_last(e: Seq<(u8, Seq<u8>)>, a: int, tag: u8) -> bool {
    &&& 0 <= a < e.len()
    &&& e[a].0 == tag
    &&& forall|i: int| a < i < e.len() ==> (#[trigger] e[i]).0 != tag
}

proof fn lemma_answer_elements(written: Seq<char>, e: Seq<(u8, Seq<u8>)>)
    requires
        forall|i: int| 0 <= i < e.len() ==> (#[trigger] e[i]).1.len() <= 255,
        ims_uim::apdu_bytes(written) == Some(
            ims_uim::encode_elements(e) + seq![0x90u8, 0x00],
        ),
    ensures
        ims_uim::aka_answer(written) == ims_uim::elements_answer(e),
{
    let payload = ims_uim::encode_elements(e);
    let bytes = payload + seq![0x90u8, 0x00];
    assert(bytes.take(bytes.len() - 2) =~= payload);
    ims_uim::law_elements_round_trip(e);
}

/// A successful answer with response and keys gives each of them from its own tag: the response
/// from 0xDB, the cipher key from 0xDC and the integrity key from 0xDD, in whatever order they
/// stand and whatever else there is. Of several with one tag the last counts.
pub proof fn law_answer_with_keys(
    written: Seq<char>,
    e: Seq<(u8, Seq<u8>)>,
    a: int,
    b: int,
    c: int,
)
    requires
        forall|i: int| 0 <= i < e.len() ==> (#[trigger] e[i]).1.len() <= 255,
        ims_uim::apdu_bytes(written) == Some(
            ims_uim::encode_elements(e) + seq![0x90u8, 0x00],
        ),
        is_last(e, a, 0xDB),
        is_last(e, b, 0xDC),
        is_last(e, c, 0xDD),
        lacks(e, 0xDE),
    ensures
        ims_uim::aka_answer(written) == AkaAnswer::Material(e[a].1, e[b].1, e[c].1),
{
    lemma_answer_elements(written, e);
    lemma_last_value(e, a, 0xDB);
    lemma_last_value(e, b, 0xDC);
    lemma_last_value(e, c, 0xDD);
    lemma_no_value(e, 0xDE);
}

/// A successful answer with a token for resynchronization gives the token, whatever else there is.
pub proof fn law_answer_with_token(written: Seq<char>, e: Seq<(u8, Seq<u8>)>, a: int)
    requires
        forall|i: int| 0 <= i < e.len() ==> (#[trigger] e[i]).1.len() <= 255,
        ims_uim::apdu_bytes(written) == Some(
            ims_uim::encode_elements(e) + seq![0x90u8, 0x00],
        ),
        is_last(e, a, 0xDE),
    ensures
        ims_uim::aka_answer(written) == AkaAnswer::Resync(e[a].1),
{
    lemma_answer_elements(written, e);
    lemma_last_value(e, a, 0xDE);
}

/// A single byte that is left over before the status is ignored.
pub proof fn law_left_over_byte(
    written: Seq<char>,
    longer: Seq<char>,
    e: Seq<(u8, Seq<u8>)>,
    byte: u8,
)
    requires
        forall|i: int| 0 <= i < e.len() ==> (#[trigger] e[i]).1.len() <= 255,
        ims_uim::apdu_bytes(written) == Some(
            ims_uim::encode_elements(e) + seq![0x90u8, 0x00],
        ),
        ims_uim::apdu_bytes(longer) == Some(
            ims_uim::encode_elements(e) + seq![byte] + seq![0x90u8, 0x00],
        ),
    ensures
        ims_uim::aka_answer(longer) == ims_uim::aka_answer(written),
{
    let p = ims_uim::encode_elements(e);
    let q = p + seq![byte];
    let a = p + seq![0x90u8, 0x00];
    let b = q + seq![0x90u8, 0x00];
    assert(a.take(a.len() - 2) =~= p);
    assert(b.take(b.len() - 2) =~= q);
    lemma_elements_and_rest(e, seq![byte]);
    lemma_elements_and_rest(e, Seq::empty());
    assert(p + Seq::<u8>::empty() =~= p);
}

proof fn lemma_elements_and_rest(e: Seq<(u8, Seq<u8>)>, rest: Seq<u8>)
    requires
        forall|i: int| 0 <= i < e.len() ==> (#[trigger] e[i]).1.len() <= 255,
        rest.len() < 2,
    ensures
        ims_uim::elements(ims_uim::encode_elements(e) + rest) == Some(e),
    decreases e.len(),
{
    let p = ims_uim::encode_elements(e) + rest;
    if e.len() == 0 {
        assert(p =~= rest);
        assert(e =~= Seq::empty());
    } else {
        let more = e.skip(1);
        assert forall|i: int| 0 <= i < more.len() implies (#[trigger] more[i]).1.len() <= 255 by {
            assert(more[i] == e[i + 1]);
        }
        lemma_elements_and_rest(more, rest);
        let n = e[0].1.len() as int;
        assert(e[0].1.len() <= 255);
        assert(p[0] == e[0].0 && p[1] == n);
        assert(p.subrange(2, 2 + n) =~= e[0].1);
        assert(p.skip(2 + n) =~= ims_uim::encode_elements(more) + rest);
        assert(seq![(p[0], p.subrange(2, 2 + p[1]))] + more =~= e);
    }
}

/// A successful answer that lacks the response or a key is refused, with what is missing first.
pub proof fn law_incomplete_answer(written: Seq<char>, e: Seq<(u8, Seq<u8>)>)
    requires
        forall|i: int| 0 <= i < e.len() ==> (#[trigger] e[i]).1.len() <= 255,
        ims_uim::apdu_bytes(written) == Some(
            ims_uim::encode_elements(e) + seq![0x90u8, 0x00],
        ),
        lacks(e, 0xDE),
        lacks(e, 0xDB) || lacks(e, 0xDC) || lacks(e, 0xDD),
    ensures
        ims_uim::aka_answer(written) == AkaAnswer::Invalid(
            if lacks(e, 0xDB) {
                ImsError::MissingRes
            } else if lacks(e, 0xDC) {
                ImsError::MissingCk
            } else {
                ImsError::MissingIk
            },
        ),
{
    lemma_answer_elements(written, e);
    lemma_no_value(e, 0xDE);
    lemma_present_or_not(e, 0xDB);
    lemma_present_or_not(e, 0xDC);
    lemma_present_or_not(e, 0xDD);
}

proof fn lemma_present_or_not(e: Seq<(u8, Seq<u8>)>, tag: u8)
    ensures
        ims_uim::last_value(e, tag) is None <==> lacks(e, tag),
    decreases e.len(),
{
    if e.len() > 0 {
        let d = e.drop_last();
        lemma_present_or_not(d, tag);
        if lacks(e, tag) {
            lemma_no_value(e, tag);
        } else if lacks(d, tag) {
            let i = choose|i: int| 0 <= i < e.len() && (#[trigger] e[i]).0 == tag;
            if i < d.len() {
                assert(d[i] == e[i]);
            }
            assert(e.last().0 == tag);
        }
    }
}

/// An answer that does not end with the status of success is refused, and so is one that is cut
/// short.
pub proof fn law_refused_answers(
    written: Seq<char>,
    bytes: Seq<u8>,
    e: Seq<(u8, Seq<u8>)>,
    tag: u8,
    length: u8,
    value: Seq<u8>,
)
    requires
        ims_uim::apdu_bytes(written) == Some(bytes),
        forall|i: int| 0 <= i < e.len() ==> (#[trigger] e[i]).1.len() <= 255,
        value.len() < length,
    ensures
        bytes.len() < 2 || bytes[bytes.len() - 2] != 0x90 || bytes[bytes.len() - 1] != 0x00
            ==> ims_uim::aka_answer(written) == AkaAnswer::Invalid(ImsError::AkaFailed),
        bytes == ims_uim::encode_elements(e) + (seq![tag, length] + value) + seq![0x90u8, 0x00]
            ==> ims_uim::aka_answer(written) == AkaAnswer::Invalid(ImsError::TruncatedAka),
{
    let cut = seq![tag, length] + value;
    let payload = ims_uim::encode_elements(e) + cut;
    if bytes == payload + seq![0x90u8, 0x00] {
        assert(bytes.take(bytes.len() - 2) =~= payload);
        lemma_cut_short(e, cut);
    }
}

proof fn lemma_cut_short(e: Seq<(u8, Seq<u8>)>, cut: Seq<u8>)
    requires
        forall|i: int| 0 <= i < e.len() ==> (#[trigger] e[i]).1.len() <= 255,
        cut.len() >= 2,
        cut.len() < 2 + cut[1],
    ensures
        ims_uim::elements(ims_uim::encode_elements(e) + cut) is None,
    decreases e.len(),
{
    let p = ims_uim::encode_elements(e) + cut;
    if e.len() == 0 {
        assert(p =~= cut);
    } else {
        let rest = e.skip(1);
        assert forall|i: int| 0 <= i < rest.len() implies (#[trigger] rest[i]).1.len() <= 255 by {
            assert(rest[i] == e[i + 1]);
        }
        lemma_cut_short(rest, cut);
        let n = e[0].1.len() as int;
        assert(e[0].1.len() <= 255);
        assert(p[0] == e[0].0 && p[1] == n);
        assert(p.skip(2 + n) =~= ims_uim::encode_elements(rest) + cut);
    }
}

// ---------------------------------------------------------------------------------------------
// Protection of the channel
// ---------------------------------------------------------------------------------------------
/// The option stands at the index, and its value after it.
pub open spec fn has_option(
    arguments: Seq<Seq<char>>,
    i: int,
    option: Seq<char>,
    value: Seq<char>,
) -> bool {
    &&& 0 <= i
    &&& i + 1 < arguments.len()
    &&& arguments[i] == option
    &&& arguments[i + 1] == value
}

/// The command that installs one direction of the channel: the addresses are read back from where
/// they stand, the SPI is written with eight hexadecimal digits that have its value, and each key
/// stands with its own algorithm.
pub proof fn law_association_written(sa: EspSecurityAssociation)
    ensures
        ({
            let arguments = sa.arguments();
            &&& arguments.len() == 20
            &&& arguments.take(3) == seq!["xfrm"@, "state"@, "add"@]
            &&& has_option(arguments, 3, "src"@, arguments[4])
            &&& ipv6::parse_ipv6(arguments[4]) == Some(sa.local@)
            &&& has_option(arguments, 5, "dst"@, arguments[6])
            &&& ipv6::parse_ipv6(arguments[6]) == Some(sa.remote@)
            &&& has_option(arguments, 7, "proto"@, "esp"@)
            &&& has_option(arguments, 9, "spi"@, arguments[10])
            &&& has_option(arguments, 11, "mode"@, "transport"@)
            &&& has_option(arguments, 13, "auth-trunc"@, "hmac(sha1)"@)
            &&& arguments[15] == sa.auth_key_hex@
            &&& arguments[16] == "96"@
            &&& has_option(arguments, 17, "enc"@, "cbc(aes)"@)
            &&& arguments[19] == sa.enc_key_hex@
            &&& arguments[10].len() == 10
            &&& arguments[10].take(2) == seq!['0', 'x']
            &&& ipv6::hex_number(arguments[10].skip(2)) == sa.spi
            &&& text::lowercase(arguments[10]) == arguments[10]
        }),
{
    let arguments = sa.arguments();
    assert(sa.local@.len() == 8 && sa.remote@.len() == 8);
    ipv6::law_ipv6_round_trip(sa.local@);
    ipv6::law_ipv6_round_trip(sa.remote@);
    assert(arguments.take(3) =~= seq!["xfrm"@, "state"@, "add"@]);
    reveal_strlit("0x");
    let h = number::hex_fixed(sa.spi as nat, 8);
    lemma_fixed_value(sa.spi as nat, 8);
    assert(vstd::arithmetic::power::pow(16, 8) == 0x1_0000_0000) by {
        reveal(vstd::arithmetic::power::pow);
        reveal_with_fuel(vstd::arithmetic::power::pow, 9);
    }
    assert(sa.spi as nat % 0x1_0000_0000nat == sa.spi);
    assert(ipv6::hex_number(h) == sa.spi);
    assert(arguments[10].take(2) =~= seq!['0', 'x']);
    assert(arguments[10].skip(2) =~= h);
    assert(text::lowercase(arguments[10]) =~= arguments[10]) by {
        assert forall|i: int| 0 <= i < 10 implies text::lower(#[trigger] arguments[10][i])
            == arguments[10][i] by {
            if i >= 2 {
                assert(arguments[10][i] == h[i - 2]);
            }
        }
    }
}

/// Digits in a fixed width have the value that was written, as far as it fits.
proof fn lemma_fixed_value(n: nat, width: nat)
    ensures
        number::hex_fixed(n, width).len() == width,
        forall|i: int| 0 <= i < width ==> text::lower(#[trigger] number::hex_fixed(n, width)[i])
            == number::hex_fixed(n, width)[i],
        ipv6::hex_number(number::hex_fixed(n, width)) == n % (vstd::arithmetic::power::pow(
            16,
            width,
        ) as nat),
    decreases width,
{
    vstd::arithmetic::power::lemma_pow_positive(16, width);
    if width == 0 {
        vstd::arithmetic::power::lemma_pow0(16);
        assert(n % 1 == 0);
    } else {
        let m = (width - 1) as nat;
        let t = number::hex_fixed(n, width);
        let s = number::hex_fixed(n / 16, m);
        lemma_fixed_value(n / 16, m);
        assert(t.drop_last() =~= s);
        assert forall|i: int| 0 <= i < width implies text::lower(#[trigger] t[i]) == t[i] by {
            if i < m {
                assert(t[i] == s[i]);
            }
        }
        let p = vstd::arithmetic::power::pow(16, m);
        vstd::arithmetic::power::lemma_pow_positive(16, m);
        vstd::arithmetic::power::lemma_pow_adds(16, 1, m);
        vstd::arithmetic::power::lemma_pow1(16);
        assert(vstd::arithmetic::power::pow(16, width) == 16 * p);
        vstd::arithmetic::div_mod::lemma_breakdown(n as int, 16, p);
        assert(n as int % (16 * p) == 16 * ((n as int / 16) % p) + n as int % 16);
    }
}

/// An association is installed only if it has an SPI and both keys in hexadecimal; otherwise the
/// first thing that is missing is named.
pub proof fn law_association_complete(sa: EspSecurityAssociation)
    ensures
        sa.is_complete() <==> sa.spi != 0 && sa.auth_key_hex@.len() > 0 && sa.enc_key_hex@.len() > 0
            && number::hex_bytes(sa.auth_key_hex@) is Some && number::hex_bytes(sa.enc_key_hex@)
            is Some,
        sa.spi == 0 ==> sa.defect() == ImsError::ZeroSpi,
        sa.spi != 0 && (sa.auth_key_hex@.len() == 0 || sa.enc_key_hex@.len() == 0) ==> sa.defect()
            == ImsError::EmptyKeys,
        sa.spi != 0 && sa.auth_key_hex@.len() > 0 && sa.enc_key_hex@.len() > 0 ==> sa.defect()
            == ImsError::KeysNotHex,
{
}

} // verus!
