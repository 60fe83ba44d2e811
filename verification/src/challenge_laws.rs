//! Laws of the challenge of the network and of the answer to it.
use vstd::prelude::*;
use crate::externals;
use crate::ims_sip;
use crate::ims_sip::SipRegistration;
use crate::number;
use crate::sip_encoding;
use crate::sip_laws;
use crate::text;
use crate::text_laws;

verus! {

// ---------------------------------------------------------------------------------------------
// Parameters
// ---------------------------------------------------------------------------------------------
/// A parameter of a list: white space, a name and a value, with quotes around the value or not.
pub struct Parameter {
    pub lead: Seq<char>,
    pub name: Seq<char>,
    pub value: Seq<char>,
    pub quoted: bool,
}

impl Parameter {
    /// The parameter as it is written.
    pub open spec fn written(self) -> Seq<char> {
        if self.quoted {
            self.lead + self.name + seq!['=', '"'] + self.value + seq!['"']
        } else {
            self.lead + self.name + seq!['='] + self.value
        }
    }

    /// The parameter can be told from those around it.
    pub open spec fn is_plain(self) -> bool {
        &&& text_laws::is_white(self.lead)
        &&& self.name.len() > 0
        &&& text_laws::is_bare(self.name)
        &&& !self.name.contains('=')
        &&& !self.name.contains(',')
        &&& !self.value.contains(',')
        &&& !self.value.contains('"')
        &&& !self.quoted ==> text_laws::is_bare(self.value)
    }
}

/// Parameters as they are written in a list.
pub open spec fn parameter_list(parameters: Seq<Parameter>) -> Seq<char> {
    text_laws::joined(Seq::new(parameters.len(), |i: int| parameters[i].written()), ',')
}

proof fn lemma_shown_value(p: Parameter)
    requires
        p.is_plain(),
    ensures
        ({
            let shown = if p.quoted {
                seq!['"'] + p.value + seq!['"']
            } else {
                p.value
            };
            &&& text_laws::is_bare(shown)
            &&& text::trim_set(text::trim(shown), "\""@) == p.value
        }),
{
    reveal_strlit("\"");
    let quote = "\""@;
    assert(quote =~= seq!['"']);
    assert(quote[0] == '"');
    let shown = if p.quoted {
        seq!['"'] + p.value + seq!['"']
    } else {
        p.value
    };
    if p.quoted {
        assert(shown[0] == '"' && shown.last() == '"');
        assert(shown =~= quote + p.value + quote);
        sip_encoding::lemma_unquote(p.value);
    } else {
        if p.value.len() > 0 {
            assert(p.value.contains(p.value[0]) && p.value.contains(p.value.last()));
        }
        text_laws::law_trim_set(Seq::empty(), p.value, Seq::empty(), quote);
        assert(Seq::<char>::empty() + p.value + Seq::<char>::empty() =~= p.value);
    }
    text_laws::lemma_trim_bare(shown);
}

proof fn lemma_parameter(p: Parameter, name: Seq<char>)
    requires
        p.is_plain(),
    ensures
        ims_sip::item_value(p.written(), name) == if text::lowercase(p.name) == name {
            Some(p.value)
        } else {
            None
        },
        !p.written().contains(','),
{
    let shown = if p.quoted {
        seq!['"'] + p.value + seq!['"']
    } else {
        p.value
    };
    let core = p.name.push('=') + shown;
    lemma_shown_value(p);
    assert(p.written() =~= p.lead + core + Seq::<char>::empty());
    assert(core[0] == p.name[0]);
    if shown.len() > 0 {
        assert(core.last() == shown.last());
    } else {
        assert(core.last() == '=');
    }
    text_laws::law_trim(p.lead, core, Seq::empty());
    text_laws::law_split_once(p.name, '=', shown);
    text_laws::lemma_trim_bare(p.name);
    let w = p.written();
    assert forall|i: int| 0 <= i < w.len() implies w[i] != ',' by {
        let a = p.lead.len() as int;
        let b = a + p.name.len() as int;
        if i < a {
            assert(text::is_white_space(p.lead[i]));
            assert(w[i] == p.lead[i]);
        } else if i < b {
            assert(w[i] == p.name[i - a]);
            assert(p.name.contains(p.name[i - a]));
        } else if p.quoted && b + 2 <= i < b + 2 + p.value.len() {
            assert(w[i] == p.value[i - b - 2]);
            assert(p.value.contains(p.value[i - b - 2]));
        } else if !p.quoted && b + 1 <= i {
            assert(w[i] == p.value[i - b - 1]);
            assert(p.value.contains(p.value[i - b - 1]));
        }
    }
}

/// The value of a parameter is found among any others, in whatever order they stand: the first
/// one with the name counts, small and capital letters being the same.
pub proof fn law_parameter_found(parameters: Seq<Parameter>, name: Seq<char>, k: int)
    requires
        parameters.len() > 0,
        forall|i: int| 0 <= i < parameters.len() ==> (#[trigger] parameters[i]).is_plain(),
        0 <= k <= parameters.len(),
        forall|i: int|
            0 <= i < k ==> text::lowercase((#[trigger] parameters[i]).name) != name,
        k < parameters.len() ==> text::lowercase(parameters[k].name) == name,
    ensures
        ims_sip::list_parameter(parameter_list(parameters), name) == if k < parameters.len() {
            Some(parameters[k].value)
        } else {
            None
        },
{
    let items = Seq::new(parameters.len(), |i: int| parameters[i].written());
    let f = |item: Seq<char>| ims_sip::item_value(item, name);
    assert forall|i: int| 0 <= i < items.len() implies !(#[trigger] items[i]).contains(',') by {
        lemma_parameter(parameters[i], name);
    }
    text_laws::law_split(items, ',');
    assert forall|i: int| 0 <= i < k implies f(#[trigger] items[i]) is None by {
        lemma_parameter(parameters[i], name);
    }
    if k < items.len() {
        lemma_parameter(parameters[k], name);
        assert(items[k] == parameters[k].written());
    }
    text_laws::law_find_map(items, f, k);
}

// ---------------------------------------------------------------------------------------------
// The challenge
// ---------------------------------------------------------------------------------------------
proof fn lemma_not_challenge(header: (Seq<char>, Seq<char>))
    requires
        sip_encoding::is_header(header),
        text::lowercase(header.0) != "www-authenticate"@,
    ensures
        !ims_sip::is_aka_header(sip_encoding::header_line(header)),
{
    reveal_strlit("www-authenticate:");
    reveal_strlit("www-authenticate");
    reveal_strlit(": ");
    let line = sip_encoding::header_line(header);
    let small = text::lowercase(line);
    let p = "www-authenticate:"@;
    if p.is_prefix_of(small) {
        let n = header.0.len() as int;
        assert(small.subrange(0, 17) == p);
        assert forall|i: int| 0 <= i < 17 implies #[trigger] small[i] == p[i] by {
            assert(small.subrange(0, 17)[i] == p[i]);
        }
        assert(line[n] == ':');
        if n < 16 {
            assert(small[n] == p[n]);
        } else if n > 16 {
            assert(small[16] == ':');
            assert(line[16] == header.0[16]);
            assert(header.0.contains(header.0[16]));
        }
        assert(n == 16);
        assert forall|i: int| 0 <= i < 16 implies text::lowercase(header.0)[i]
            == "www-authenticate"@[i] by {
            assert(small[i] == p[i]);
            assert(line[i] == header.0[i]);
        }
        assert(text::lowercase(header.0) =~= "www-authenticate"@);
    }
}

proof fn lemma_challenge(header: (Seq<char>, Seq<char>), a: Seq<char>, x: Seq<char>, b: Seq<char>)
    requires
        sip_encoding::is_header(header),
        text::lowercase(header.0) == "www-authenticate"@,
        header.1 == a + x + b,
        text::lowercase(x) == "aka"@,
    ensures
        ims_sip::is_aka_header(sip_encoding::header_line(header)),
{
    reveal_strlit("www-authenticate:");
    reveal_strlit("www-authenticate");
    reveal_strlit(": ");
    let line = sip_encoding::header_line(header);
    let small = text::lowercase(line);
    assert(header.0.len() == 16) by {
        assert(text::lowercase(header.0).len() == header.0.len());
    }
    assert(small =~= text::lowercase(header.0 + ": "@ + a) + text::lowercase(x)
        + text::lowercase(b));
    text_laws::law_occurs(
        text::lowercase(header.0 + ": "@ + a),
        text::lowercase(x),
        text::lowercase(b),
    );
    assert(small.subrange(0, 17) =~= "www-authenticate:"@) by {
        assert forall|i: int| 0 <= i < 17 implies small[i] == "www-authenticate:"@[i] by {
            if i < 16 {
                assert(line[i] == header.0[i]);
                assert(text::lowercase(header.0)[i] == "www-authenticate"@[i]);
            } else {
                assert(line[16] == ':');
            }
        }
    }
}

proof fn lemma_list_after_space(parameters: Seq<Parameter>) -> (r: Seq<Parameter>)
    requires
        parameters.len() > 0,
        forall|i: int| 0 <= i < parameters.len() ==> (#[trigger] parameters[i]).is_plain(),
    ensures
        r.len() == parameters.len(),
        forall|i: int| 0 <= i < r.len() ==> (#[trigger] r[i]).is_plain(),
        forall|i: int|
            0 <= i < r.len() ==> (#[trigger] r[i]).name == parameters[i].name && r[i].value
                == parameters[i].value,
        parameter_list(r) == " "@ + parameter_list(parameters),
{
    reveal_strlit(" ");
    let p = parameters[0];
    let q = Parameter { lead: seq![' '] + p.lead, name: p.name, value: p.value, quoted: p.quoted };
    let r = parameters.update(0, q);
    assert(p.is_plain());
    assert forall|i: int| 0 <= i < q.lead.len() implies text::is_white_space(#[trigger] q.lead[i]) by {
        if i > 0 {
            assert(q.lead[i] == p.lead[i - 1]);
        }
    }
    assert(q.written() =~= " "@ + p.written());
    let x = Seq::new(parameters.len(), |i: int| parameters[i].written());
    let y = Seq::new(r.len(), |i: int| r[i].written());
    assert(x.skip(1) =~= y.skip(1));
    assert(y[0] == " "@ + x[0]);
    if x.len() > 1 {
        assert(text_laws::joined(y, ',') =~= " "@ + text_laws::joined(x, ','));
    }
    r
}

/// The header does not challenge the user to authenticate with AKA: it has another name, or its
/// value does not name AKA.
pub open spec fn is_no_challenge(header: (Seq<char>, Seq<char>)) -> bool {
    text::lowercase(header.0) != "www-authenticate"@ || !text::occurs_in(
        "aka"@,
        text::lowercase(header.1),
    )
}

proof fn lemma_no_challenge(header: (Seq<char>, Seq<char>))
    requires
        sip_encoding::is_header(header),
        is_no_challenge(header),
    ensures
        !ims_sip::is_aka_header(sip_encoding::header_line(header)),
{
    if text::lowercase(header.0) != "www-authenticate"@ {
        lemma_not_challenge(header);
    } else {
        reveal_strlit("www-authenticate");
        reveal_strlit(": ");
        reveal_strlit("aka");
        let small = text::lowercase(sip_encoding::header_line(header));
        let value = text::lowercase(header.1);
        let name = text::lowercase(header.0);
        assert(name.len() == header.0.len());
        assert(small =~= name + ": "@ + value);
        if text::occurs_in("aka"@, small) {
            let i = choose|i: int|
                0 <= i <= small.len() - 3 && #[trigger] small.subrange(i, i + 3) == "aka"@;
            let x = small.subrange(i, i + 3);
            assert(x[0] == 'a' && x[1] == 'k' && x[2] == 'a');
            assert(small[i] == x[0] && small[i + 1] == x[1] && small[i + 2] == x[2]);
            if i >= 18 {
                assert(value.subrange(i - 18, i - 18 + 3) =~= x);
            } else {
                assert(small[i + 1] == 'k');
                assert(small[4] == 'a' && small[10] == 't');
                if i + 1 < 16 {
                    assert(small[i + 1] == "www-authenticate"@[i + 1]);
                } else {
                    assert(i == 15 || i == 16 || i == 17);
                    assert(small[16] == ':' && small[17] == ' ');
                }
            }
        }
    }
}

/// The realm and the nonce of an AKA challenge are read from its header, the first that challenges
/// with AKA, wherever it stands among the others and wherever the two stand among its parameters.
pub proof fn law_challenge_found(
    first: Seq<char>,
    headers: Seq<(Seq<char>, Seq<char>)>,
    k: int,
    parameters: Seq<Parameter>,
    r: int,
    n: int,
    a: Seq<char>,
    x: Seq<char>,
    b: Seq<char>,
)
    requires
        sip_encoding::is_one_line(first),
        first.len() > 0,
        first[0] != 'w' && first[0] != 'W',
        forall|i: int| 0 <= i < headers.len() ==> sip_encoding::is_header(#[trigger] headers[i]),
        0 <= k < headers.len(),
        forall|i: int| 0 <= i < k ==> is_no_challenge(#[trigger] headers[i]),
        text::lowercase(headers[k].0) == "www-authenticate"@,
        headers[k].1 == parameter_list(parameters),
        headers[k].1 == a + x + b,
        text::lowercase(x) == "aka"@,
        forall|i: int| 0 <= i < parameters.len() ==> (#[trigger] parameters[i]).is_plain(),
        0 <= r < parameters.len(),
        0 <= n < parameters.len(),
        text::lowercase(parameters[r].name) == "realm"@,
        text::lowercase(parameters[n].name) == "nonce"@,
        forall|i: int| 0 <= i < r ==> text::lowercase((#[trigger] parameters[i]).name) != "realm"@,
        forall|i: int| 0 <= i < n ==> text::lowercase((#[trigger] parameters[i]).name) != "nonce"@,
    ensures
        ims_sip::aka_challenge(sip_encoding::written_lines(first, headers)) == Some(
            (parameters[r].value, parameters[n].value),
        ),
{
    sip_encoding::lemma_written_lines(first, headers);
    let lines = text::lines(sip_encoding::written_lines(first, headers));
    let f = |line: Seq<char>|
        if ims_sip::is_aka_header(line) {
            Some(line)
        } else {
            None
        };
    assert(lines.len() == headers.len() + 1);
    assert forall|i: int| 0 <= i < k + 1 implies f(#[trigger] lines[i]) is None by {
        if i == 0 {
            assert(lines[0] == first);
            reveal_strlit("www-authenticate:");
            let small = text::lowercase(first);
            let p = "www-authenticate:"@;
            if p.is_prefix_of(small) {
                assert(small.subrange(0, 17)[0] == p[0]);
                assert(small[0] == 'w');
            }
        } else {
            assert(lines[i] == sip_encoding::header_line(headers[i - 1]));
            lemma_no_challenge(headers[i - 1]);
        }
    }
    assert(lines[k + 1] == sip_encoding::header_line(headers[k]));
    lemma_challenge(headers[k], a, x, b);
    text_laws::law_find_map(lines, f, k + 1);
    sip_encoding::lemma_header_line(headers[k]);
    let spaced = lemma_list_after_space(parameters);
    assert forall|i: int| 0 <= i < r implies text::lowercase((#[trigger] spaced[i]).name)
        != "realm"@ by {
        assert(spaced[i].name == parameters[i].name);
    }
    assert forall|i: int| 0 <= i < n implies text::lowercase((#[trigger] spaced[i]).name)
        != "nonce"@ by {
        assert(spaced[i].name == parameters[i].name);
    }
    law_parameter_found(spaced, "realm"@, r);
    law_parameter_found(spaced, "nonce"@, n);
}

/// A response without a header that challenges holds no challenge.
pub proof fn law_no_challenge(first: Seq<char>, headers: Seq<(Seq<char>, Seq<char>)>)
    requires
        sip_encoding::is_one_line(first),
        first.len() > 0,
        first[0] != 'w' && first[0] != 'W',
        forall|i: int|
            0 <= i < headers.len() ==> sip_encoding::is_header(#[trigger] headers[i])
                && is_no_challenge(headers[i]),
    ensures
        ims_sip::aka_challenge(sip_encoding::written_lines(first, headers)) is None,
{
    sip_encoding::lemma_written_lines(first, headers);
    let lines = text::lines(sip_encoding::written_lines(first, headers));
    let f = |line: Seq<char>|
        if ims_sip::is_aka_header(line) {
            Some(line)
        } else {
            None
        };
    let n = lines.len() as int;
    assert forall|i: int| 0 <= i < n implies f(#[trigger] lines[i]) is None by {
        if i == 0 {
            assert(lines[0] == first);
            reveal_strlit("www-authenticate:");
            let small = text::lowercase(first);
            let p = "www-authenticate:"@;
            if p.is_prefix_of(small) {
                assert(small.subrange(0, 17)[0] == p[0]);
                assert(small[0] == 'w');
            }
        } else {
            assert(lines[i] == sip_encoding::header_line(headers[i - 1]));
            lemma_no_challenge(headers[i - 1]);
        }
    }
    text_laws::law_find_map(lines, f, n);
}

/// A challenge without a realm or without a nonce is none, even if another header has them.
pub proof fn law_incomplete_challenge(
    first: Seq<char>,
    headers: Seq<(Seq<char>, Seq<char>)>,
    k: int,
    parameters: Seq<Parameter>,
    a: Seq<char>,
    x: Seq<char>,
    b: Seq<char>,
)
    requires
        sip_encoding::is_one_line(first),
        first.len() > 0,
        first[0] != 'w' && first[0] != 'W',
        forall|i: int| 0 <= i < headers.len() ==> sip_encoding::is_header(#[trigger] headers[i]),
        0 <= k < headers.len(),
        forall|i: int| 0 <= i < k ==> is_no_challenge(#[trigger] headers[i]),
        text::lowercase(headers[k].0) == "www-authenticate"@,
        parameters.len() > 0,
        headers[k].1 == parameter_list(parameters),
        headers[k].1 == a + x + b,
        text::lowercase(x) == "aka"@,
        forall|i: int| 0 <= i < parameters.len() ==> (#[trigger] parameters[i]).is_plain(),
        (forall|i: int|
            0 <= i < parameters.len() ==> text::lowercase((#[trigger] parameters[i]).name)
                != "realm"@) || (forall|i: int|
            0 <= i < parameters.len() ==> text::lowercase((#[trigger] parameters[i]).name)
                != "nonce"@),
    ensures
        ims_sip::aka_challenge(sip_encoding::written_lines(first, headers)) is None,
{
    sip_encoding::lemma_written_lines(first, headers);
    let lines = text::lines(sip_encoding::written_lines(first, headers));
    let f = |line: Seq<char>|
        if ims_sip::is_aka_header(line) {
            Some(line)
        } else {
            None
        };
    assert(lines.len() == headers.len() + 1);
    assert forall|i: int| 0 <= i < k + 1 implies f(#[trigger] lines[i]) is None by {
        if i == 0 {
            assert(lines[0] == first);
            reveal_strlit("www-authenticate:");
            let small = text::lowercase(first);
            let p = "www-authenticate:"@;
            if p.is_prefix_of(small) {
                assert(small.subrange(0, 17)[0] == p[0]);
                assert(small[0] == 'w');
            }
        } else {
            assert(lines[i] == sip_encoding::header_line(headers[i - 1]));
            lemma_no_challenge(headers[i - 1]);
        }
    }
    assert(lines[k + 1] == sip_encoding::header_line(headers[k]));
    lemma_challenge(headers[k], a, x, b);
    text_laws::law_find_map(lines, f, k + 1);
    sip_encoding::lemma_header_line(headers[k]);
    let spaced = lemma_list_after_space(parameters);
    let n = spaced.len() as int;
    if forall|i: int|
        0 <= i < parameters.len() ==> text::lowercase((#[trigger] parameters[i]).name) != "realm"@ {
        assert forall|i: int| 0 <= i < n implies text::lowercase((#[trigger] spaced[i]).name)
            != "realm"@ by {
            assert(spaced[i].name == parameters[i].name);
        }
        law_parameter_found(spaced, "realm"@, n);
    } else {
        assert forall|i: int| 0 <= i < n implies text::lowercase((#[trigger] spaced[i]).name)
            != "nonce"@ by {
            assert(spaced[i].name == parameters[i].name);
        }
        law_parameter_found(spaced, "nonce"@, n);
    }
}

// ---------------------------------------------------------------------------------------------
// The answer
// ---------------------------------------------------------------------------------------------
/// The MD5 digest of a text, with two small hexadecimal digits for each byte.
pub open spec fn digest_text(value: Seq<char>) -> Seq<char> {
    text::lowercase(
        number::hex_upper(externals::md5_digest(vstd::utf8::encode_utf8(value))),
    )
}

proof fn lemma_digest_text(value: Seq<char>)
    ensures
        ims_sip::md5_hex_of(value) == digest_text(value),
{
    let bytes = externals::md5_digest(vstd::utf8::encode_utf8(value));
    if bytes.len() > 0 {
        text_laws::law_hex_of_bytes(bytes, 0);
    } else {
        assert(number::hex_lower(bytes) =~= digest_text(value));
    }
}

/// The response to a challenge: the digest of the digest of user, realm and secret, the nonce,
/// and the digest of method and URI, with colons between them.
pub proof fn law_digest_response(
    username: Seq<char>,
    realm: Seq<char>,
    nonce: Seq<char>,
    method: Seq<char>,
    uri: Seq<char>,
    secret: Seq<char>,
)
    ensures
        ims_sip::digest_response(username, realm, nonce, method, uri, secret) == digest_text(
            digest_text(username.push(':') + realm.push(':') + secret).push(':') + nonce.push(':')
                + digest_text(method.push(':') + uri),
        ),
{
    reveal_strlit(":");
    let x = username + ":"@ + realm + ":"@ + secret;
    let y = method + ":"@ + uri;
    assert(x =~= username.push(':') + realm.push(':') + secret);
    assert(y =~= method.push(':') + uri);
    lemma_digest_text(x);
    lemma_digest_text(y);
    let z = digest_text(x) + ":"@ + nonce + ":"@ + digest_text(y);
    assert(z =~= digest_text(x).push(':') + nonce.push(':') + digest_text(y));
    lemma_digest_text(z);
}

/// The response of a user is that to a REGISTER request for the registrar of the realm, with what
/// the USIM has answered as the secret.
pub proof fn law_register_response(r: SipRegistration)
    ensures
        r.challenge_response() == ims_sip::digest_response(
            r.private_identity@,
            r.realm@,
            r.nonce@,
            seq!['R', 'E', 'G', 'I', 'S', 'T', 'E', 'R'],
            seq!['s', 'i', 'p', ':'] + r.realm@,
            r.aka_res_hex@,
        ),
{
    reveal_strlit("REGISTER");
    reveal_strlit("sip:");
    assert("REGISTER"@ =~= seq!['R', 'E', 'G', 'I', 'S', 'T', 'E', 'R']);
    assert("sip:"@ =~= seq!['s', 'i', 'p', ':']);
}

/// The header that answers a challenge holds, each under its name, the user, the realm, the nonce,
/// the URI of the registrar, the response and the algorithm.
pub proof fn law_authorization_parameters(r: SipRegistration, response: Seq<char>)
    requires
        sip_encoding::is_quotable(r.private_identity@),
        sip_encoding::is_quotable(r.realm@),
        sip_encoding::is_quotable(r.nonce@),
        sip_encoding::is_quotable(response),
    ensures
        ({
            let value = sip_laws::authorization_value(r, response);
            &&& ims_sip::list_parameter(value, "digest username"@) == Some(r.private_identity@)
            &&& ims_sip::list_parameter(value, "realm"@) == Some(r.realm@)
            &&& ims_sip::list_parameter(value, "nonce"@) == Some(r.nonce@)
            &&& ims_sip::list_parameter(value, "uri"@) == Some("sip:"@ + r.realm@)
            &&& ims_sip::list_parameter(value, "response"@) == Some(response)
            &&& ims_sip::list_parameter(value, "algorithm"@) == Some("AKAv1-MD5"@)
        }),
{
    let value = sip_laws::authorization_value(r, response);
    let uri = "sip:"@ + r.realm@;
    let space = seq![' '];
    let ps = seq![
        Parameter {
            lead: Seq::empty(),
            name: "Digest username"@,
            value: r.private_identity@,
            quoted: true,
        },
        Parameter { lead: space, name: "realm"@, value: r.realm@, quoted: true },
        Parameter { lead: space, name: "nonce"@, value: r.nonce@, quoted: true },
        Parameter { lead: space, name: "uri"@, value: uri, quoted: true },
        Parameter { lead: space, name: "response"@, value: response, quoted: true },
        Parameter { lead: space, name: "algorithm"@, value: "AKAv1-MD5"@, quoted: false },
    ];
    lemma_parameter_names();
    reveal_strlit("sip:");
    reveal_strlit("AKAv1-MD5");
    assert(!uri.contains(',') && !uri.contains('"')) by {
        assert forall|i: int| 0 <= i < uri.len() implies uri[i] != ',' && uri[i] != '"' by {
            if i >= 4 {
                assert(uri[i] == r.realm@[i - 4]);
                assert(r.realm@.contains(r.realm@[i - 4]));
            }
        }
    }
    assert(ps[0].is_plain());
    assert(ps[1].is_plain());
    assert(ps[2].is_plain());
    assert(ps[3].is_plain());
    assert(ps[4].is_plain());
    assert(ps[5].is_plain());
    assert forall|i: int| 0 <= i < 6 implies (#[trigger] ps[i]).is_plain() by {
        assert(i == 0 || i == 1 || i == 2 || i == 3 || i == 4 || i == 5);
    }
    lemma_authorization_list(r, response, ps);
    let names = seq![
        "digest username"@,
        "realm"@,
        "nonce"@,
        "uri"@,
        "response"@,
        "algorithm"@,
    ];
    assert forall|i: int| 0 <= i < 6 implies text::lowercase((#[trigger] ps[i]).name)
        == names[i] by {
        assert(i == 0 || i == 1 || i == 2 || i == 3 || i == 4 || i == 5);
    }
    assert(names[0] == "digest username"@ && names[1] == "realm"@ && names[2] == "nonce"@
        && names[3] == "uri"@ && names[4] == "response"@ && names[5] == "algorithm"@);
    law_parameter_found(ps, "digest username"@, 0);
    law_parameter_found(ps, "realm"@, 1);
    law_parameter_found(ps, "nonce"@, 2);
    law_parameter_found(ps, "uri"@, 3);
    law_parameter_found(ps, "response"@, 4);
    law_parameter_found(ps, "algorithm"@, 5);
}

proof fn lemma_parameter_names()
    ensures
        text::lowercase("Digest username"@) == "digest username"@,
        text::lowercase("realm"@) == "realm"@,
        text::lowercase("nonce"@) == "nonce"@,
        text::lowercase("uri"@) == "uri"@,
        text::lowercase("response"@) == "response"@,
        text::lowercase("algorithm"@) == "algorithm"@,
        text_laws::is_bare("Digest username"@),
        text_laws::is_bare("realm"@),
        text_laws::is_bare("nonce"@),
        text_laws::is_bare("uri"@),
        text_laws::is_bare("response"@),
        text_laws::is_bare("algorithm"@),
        "Digest username"@.len() == 15,
        "realm"@.len() == 5,
        "nonce"@.len() == 5,
        "uri"@.len() == 3,
        "response"@.len() == 8,
        "algorithm"@.len() == 9,
        "realm"@ != "nonce"@,
        !"Digest username"@.contains('=') && !"Digest username"@.contains(','),
        !"realm"@.contains('=') && !"realm"@.contains(','),
        !"nonce"@.contains('=') && !"nonce"@.contains(','),
        !"uri"@.contains('=') && !"uri"@.contains(','),
        !"response"@.contains('=') && !"response"@.contains(','),
        !"algorithm"@.contains('=') && !"algorithm"@.contains(','),
{
    reveal_strlit("Digest username");
    reveal_strlit("digest username");
    reveal_strlit("realm");
    reveal_strlit("nonce");
    reveal_strlit("uri");
    reveal_strlit("response");
    reveal_strlit("algorithm");
    assert(text::lowercase("Digest username"@) =~= "digest username"@);
    assert(text::lowercase("realm"@) =~= "realm"@);
    assert(text::lowercase("nonce"@) =~= "nonce"@);
    assert(text::lowercase("uri"@) =~= "uri"@);
    assert(text::lowercase("response"@) =~= "response"@);
    assert(text::lowercase("algorithm"@) =~= "algorithm"@);
    assert("realm"@[0] != "nonce"@[0]);
}

proof fn lemma_authorization_list(r: SipRegistration, response: Seq<char>, ps: Seq<Parameter>)
    requires
        ps == seq![
            Parameter {
                lead: Seq::empty(),
                name: "Digest username"@,
                value: r.private_identity@,
                quoted: true,
            },
            Parameter { lead: seq![' '], name: "realm"@, value: r.realm@, quoted: true },
            Parameter { lead: seq![' '], name: "nonce"@, value: r.nonce@, quoted: true },
            Parameter { lead: seq![' '], name: "uri"@, value: "sip:"@ + r.realm@, quoted: true },
            Parameter { lead: seq![' '], name: "response"@, value: response, quoted: true },
            Parameter { lead: seq![' '], name: "algorithm"@, value: "AKAv1-MD5"@, quoted: false },
        ],
    ensures
        parameter_list(ps) == sip_laws::authorization_value(r, response),
{
    let w = Seq::new(ps.len(), |i: int| ps[i].written());
    assert(w.len() == 6);
    let s1 = w.skip(1);
    let s2 = s1.skip(1);
    let s3 = s2.skip(1);
    let s4 = s3.skip(1);
    let s5 = s4.skip(1);
    assert(s1[0] == w[1] && s2[0] == w[2] && s3[0] == w[3] && s4[0] == w[4] && s5[0] == w[5]);
    let uri = "sip:"@ + r.realm@;
    let q = seq!['"', ','];
    lemma_authorization_texts();
    let j5 = text_laws::joined(s5, ',');
    assert(j5 == w[5]);
    let e5 = "\", algorithm=AKAv1-MD5"@;
    assert(q + j5 =~= q + seq![' '] + "algorithm"@ + seq!['='] + "AKAv1-MD5"@);
    let j4 = text_laws::joined(s4, ',');
    assert(j4 == w[4].push(',') + j5);
    lemma_quoted_parameter(ps[4], j5);
    let j3 = text_laws::joined(s3, ',');
    assert(j3 == w[3].push(',') + j4);
    lemma_quoted_parameter(ps[3], j4);
    let j2 = text_laws::joined(s2, ',');
    assert(j2 == w[2].push(',') + j3);
    lemma_quoted_parameter(ps[2], j3);
    let j1 = text_laws::joined(s1, ',');
    assert(j1 == w[1].push(',') + j2);
    lemma_quoted_parameter(ps[1], j2);
    let j0 = text_laws::joined(w, ',');
    assert(j0 == w[0].push(',') + j1);
    assert(j0 =~= "Digest username"@ + seq!['=', '"'] + r.private_identity@ + (q + j1));
    lemma_one_after_another(
        "Digest username=\""@ + r.private_identity@,
        "\", realm=\""@,
        r.realm@,
        q + j2,
    );
    let a1 = "Digest username=\""@ + r.private_identity@ + "\", realm=\""@ + r.realm@;
    lemma_one_after_another(a1, "\", nonce=\""@, r.nonce@, q + j3);
    let a2 = a1 + "\", nonce=\""@ + r.nonce@;
    lemma_one_after_another(a2, "\", uri=\""@, uri, q + j4);
    let a3 = a2 + "\", uri=\""@ + uri;
    lemma_one_after_another(a3, "\", response=\""@, response, q + j5);
}

proof fn lemma_one_after_another(a: Seq<char>, b: Seq<char>, c: Seq<char>, d: Seq<char>)
    ensures
        a + (b + c + d) == a + b + c + d,
{
    assert(a + (b + c + d) =~= a + b + c + d);
}

/// What a quoted parameter adds to a list after the quotation mark of the one before it.
proof fn lemma_quoted_parameter(p: Parameter, rest: Seq<char>)
    requires
        p.lead == seq![' '],
        p.quoted,
    ensures
        seq!['"', ','] + (p.written().push(',') + rest) == seq!['"', ',', ' '] + p.name + seq![
            '=',
            '"',
        ] + p.value + (seq!['"', ','] + rest),
{
    assert(seq!['"', ','] + (p.written().push(',') + rest) =~= seq!['"', ',', ' '] + p.name + seq![
        '=',
        '"',
    ] + p.value + (seq!['"', ','] + rest));
}

proof fn lemma_authorization_texts()
    ensures
        "Digest username=\""@ == "Digest username"@ + seq!['=', '"'],
        "\", realm=\""@ == seq!['"', ',', ' '] + "realm"@ + seq!['=', '"'],
        "\", nonce=\""@ == seq!['"', ',', ' '] + "nonce"@ + seq!['=', '"'],
        "\", uri=\""@ == seq!['"', ',', ' '] + "uri"@ + seq!['=', '"'],
        "\", response=\""@ == seq!['"', ',', ' '] + "response"@ + seq!['=', '"'],
        "\", algorithm=AKAv1-MD5"@ == seq!['"', ','] + seq![' '] + "algorithm"@ + seq!['=']
            + "AKAv1-MD5"@,
{
    assert("Digest username=\""@ =~= "Digest username"@ + seq!['=', '"']) by {
        reveal_strlit("Digest username=\"");
        reveal_strlit("Digest username");
    }
    assert("\", realm=\""@ =~= seq!['"', ',', ' '] + "realm"@ + seq!['=', '"']) by {
        reveal_strlit("\", realm=\"");
        reveal_strlit("realm");
    }
    assert("\", nonce=\""@ =~= seq!['"', ',', ' '] + "nonce"@ + seq!['=', '"']) by {
        reveal_strlit("\", nonce=\"");
        reveal_strlit("nonce");
    }
    assert("\", uri=\""@ =~= seq!['"', ',', ' '] + "uri"@ + seq!['=', '"']) by {
        reveal_strlit("\", uri=\"");
        reveal_strlit("uri");
    }
    assert("\", response=\""@ =~= seq!['"', ',', ' '] + "response"@ + seq!['=', '"']) by {
        reveal_strlit("\", response=\"");
        reveal_strlit("response");
    }
    assert("\", algorithm=AKAv1-MD5"@ =~= seq!['"', ','] + seq![' '] + "algorithm"@ + seq!['=']
        + "AKAv1-MD5"@) by {
        reveal_strlit("\", algorithm=AKAv1-MD5");
        reveal_strlit("algorithm");
        reveal_strlit("AKAv1-MD5");
    }
}

/// A challenge can be answered where identity, realm, nonce and response of the USIM are all there:
/// what is left of a registration without one of them cannot answer.
pub proof fn law_credentials(r: SipRegistration)
    ensures
        r.private_identity@.len() == 0 || r.realm@.len() == 0 || r.nonce@.len() == 0
            || r.aka_res_hex@.len() == 0 <==> !r.has_credentials(),
{
}

} // verus!
