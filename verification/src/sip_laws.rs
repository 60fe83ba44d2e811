//! Laws of the requests and the responses: read as SIP messages, they carry what they are to
//! carry.
use vstd::prelude::*;
use crate::error::ImsError;
use crate::ims_sip;
use crate::ims_sip::SipRegistration;
use crate::ims_sms;
use crate::ipv6;
use crate::number;
use crate::sip_encoding;
use crate::text;
use crate::text_laws;

verus! {

// ---------------------------------------------------------------------------------------------
// Headers
// ---------------------------------------------------------------------------------------------
/// The name under which a header is found.
pub open spec fn small_name(header: (Seq<char>, Seq<char>)) -> Seq<char> {
    text::lowercase(text::trim(header.0))
}

/// A header is found under its name, if no later one has the name.
pub proof fn lemma_header_value(list: Seq<(Seq<char>, Seq<char>)>, i: int, name: Seq<char>)
    requires
        0 <= i < list.len(),
        small_name(list[i]) == name,
        forall|j: int| i < j < list.len() ==> small_name(#[trigger] list[j]) != name,
    ensures
        sip_encoding::header_values(list).contains_key(name),
        sip_encoding::header_values(list)[name] == text::trim(list[i].1),
    decreases list.len(),
{
    if i < list.len() - 1 {
        let d = list.drop_last();
        assert(small_name(list[list.len() - 1]) != name);
        assert(d[i] == list[i]);
        assert forall|j: int| i < j < d.len() implies small_name(#[trigger] d[j]) != name by {
            assert(d[j] == list[j]);
        }
        lemma_header_value(d, i, name);
    }
}

/// There is no header under a name that no header has.
pub proof fn lemma_header_absent(list: Seq<(Seq<char>, Seq<char>)>, name: Seq<char>)
    requires
        forall|j: int| 0 <= j < list.len() ==> small_name(#[trigger] list[j]) != name,
    ensures
        !sip_encoding::header_values(list).contains_key(name),
    decreases list.len(),
{
    if list.len() > 0 {
        let d = list.drop_last();
        assert(small_name(list[list.len() - 1]) != name);
        assert forall|j: int| 0 <= j < d.len() implies small_name(#[trigger] d[j]) != name by {
            assert(d[j] == list[j]);
        }
        lemma_header_absent(d, name);
    }
}

/// The names that the requests and responses use, as they are written and as they are found.
pub proof fn lemma_names()
    ensures
        text::lowercase(text::trim("Via"@)) == "via"@,
        text::lowercase(text::trim("From"@)) == "from"@,
        text::lowercase(text::trim("To"@)) == "to"@,
        text::lowercase(text::trim("Call-ID"@)) == "call-id"@,
        text::lowercase(text::trim("CSeq"@)) == "cseq"@,
        text::lowercase(text::trim("Contact"@)) == "contact"@,
        text::lowercase(text::trim("Max-Forwards"@)) == "max-forwards"@,
        text::lowercase(text::trim("User-Agent"@)) == "user-agent"@,
        text::lowercase(text::trim("Authorization"@)) == "authorization"@,
        text::lowercase(text::trim("Content-Length"@)) == "content-length"@,
        text::lowercase(text::trim("Content-Type"@)) == "content-type"@,
        text::lowercase(text::trim("via"@)) == "via"@,
        text::lowercase(text::trim("from"@)) == "from"@,
        text::lowercase(text::trim("to"@)) == "to"@,
        text::lowercase(text::trim("call-id"@)) == "call-id"@,
        text::lowercase(text::trim("cseq"@)) == "cseq"@,
{
    lemma_names_of_requests();
    reveal_strlit("via");
    reveal_strlit("from");
    reveal_strlit("to");
    reveal_strlit("call-id");
    reveal_strlit("cseq");
    text_laws::lemma_trim_bare("via"@);
    text_laws::lemma_trim_bare("from"@);
    text_laws::lemma_trim_bare("to"@);
    text_laws::lemma_trim_bare("call-id"@);
    text_laws::lemma_trim_bare("cseq"@);
    assert(text::lowercase("via"@) =~= "via"@);
    assert(text::lowercase("from"@) =~= "from"@);
    assert(text::lowercase("to"@) =~= "to"@);
    assert(text::lowercase("call-id"@) =~= "call-id"@);
    assert(text::lowercase("cseq"@) =~= "cseq"@);
}

proof fn lemma_names_of_requests()
    ensures
        text::lowercase(text::trim("Via"@)) == "via"@,
        text::lowercase(text::trim("From"@)) == "from"@,
        text::lowercase(text::trim("To"@)) == "to"@,
        text::lowercase(text::trim("Call-ID"@)) == "call-id"@,
        text::lowercase(text::trim("CSeq"@)) == "cseq"@,
        text::lowercase(text::trim("Contact"@)) == "contact"@,
        text::lowercase(text::trim("Max-Forwards"@)) == "max-forwards"@,
        text::lowercase(text::trim("User-Agent"@)) == "user-agent"@,
        text::lowercase(text::trim("Authorization"@)) == "authorization"@,
        text::lowercase(text::trim("Content-Length"@)) == "content-length"@,
        text::lowercase(text::trim("Content-Type"@)) == "content-type"@,
{
    reveal_strlit("Via");
    reveal_strlit("via");
    reveal_strlit("From");
    reveal_strlit("from");
    reveal_strlit("To");
    reveal_strlit("to");
    reveal_strlit("Call-ID");
    reveal_strlit("call-id");
    reveal_strlit("CSeq");
    reveal_strlit("cseq");
    reveal_strlit("Contact");
    reveal_strlit("contact");
    reveal_strlit("Max-Forwards");
    reveal_strlit("max-forwards");
    reveal_strlit("User-Agent");
    reveal_strlit("user-agent");
    reveal_strlit("Authorization");
    reveal_strlit("authorization");
    reveal_strlit("Content-Length");
    reveal_strlit("content-length");
    reveal_strlit("Content-Type");
    reveal_strlit("content-type");
    text_laws::lemma_trim_bare("Via"@);
    text_laws::lemma_trim_bare("From"@);
    text_laws::lemma_trim_bare("To"@);
    text_laws::lemma_trim_bare("Call-ID"@);
    text_laws::lemma_trim_bare("CSeq"@);
    text_laws::lemma_trim_bare("Contact"@);
    text_laws::lemma_trim_bare("Max-Forwards"@);
    text_laws::lemma_trim_bare("User-Agent"@);
    text_laws::lemma_trim_bare("Authorization"@);
    text_laws::lemma_trim_bare("Content-Length"@);
    text_laws::lemma_trim_bare("Content-Type"@);
    assert(text::lowercase("Via"@) =~= "via"@);
    assert(text::lowercase("From"@) =~= "from"@);
    assert(text::lowercase("To"@) =~= "to"@);
    assert(text::lowercase("Call-ID"@) =~= "call-id"@);
    assert(text::lowercase("CSeq"@) =~= "cseq"@);
    assert(text::lowercase("Contact"@) =~= "contact"@);
    assert(text::lowercase("Max-Forwards"@) =~= "max-forwards"@);
    assert(text::lowercase("User-Agent"@) =~= "user-agent"@);
    assert(text::lowercase("Authorization"@) =~= "authorization"@);
    assert(text::lowercase("Content-Length"@) =~= "content-length"@);
    assert(text::lowercase("Content-Type"@) =~= "content-type"@);
}

/// No two of these names are the same.
pub proof fn lemma_distinct_names()
    ensures
        seq![
            "via"@,
            "from"@,
            "to"@,
            "call-id"@,
            "cseq"@,
            "contact"@,
            "max-forwards"@,
            "user-agent"@,
            "authorization"@,
            "content-length"@,
        ].no_duplicates(),
        "content-type"@ != "content-length"@,
        "content-type"@ != "via"@,
        "content-type"@ != "from"@,
        "content-type"@ != "to"@,
        "content-type"@ != "call-id"@,
        "content-type"@ != "cseq"@,
{
    reveal_strlit("via");
    reveal_strlit("from");
    reveal_strlit("to");
    reveal_strlit("call-id");
    reveal_strlit("cseq");
    reveal_strlit("contact");
    reveal_strlit("max-forwards");
    reveal_strlit("user-agent");
    reveal_strlit("authorization");
    reveal_strlit("content-length");
    reveal_strlit("content-type");
    assert("from"@[0] != "cseq"@[0]);
    assert("call-id"@[1] != "contact"@[1]);
    let names = seq![
        "via"@,
        "from"@,
        "to"@,
        "call-id"@,
        "cseq"@,
        "contact"@,
        "max-forwards"@,
        "user-agent"@,
        "authorization"@,
        "content-length"@,
    ];
    let lengths = seq![3nat, 4, 2, 7, 4, 7, 12, 10, 13, 14];
    assert forall|i: int| 0 <= i < 10 implies (#[trigger] names[i]).len() == lengths[i] by {
        assert(i == 0 || i == 1 || i == 2 || i == 3 || i == 4 || i == 5 || i == 6 || i == 7 || i
            == 8 || i == 9);
    }
    assert forall|i: int, j: int| 0 <= i < 10 && 0 <= j < 10 && i != j implies names[i]
        != names[j] by {
        assert(names[i].len() == lengths[i] && names[j].len() == lengths[j]);
        assert(names[1] != names[4] && names[3] != names[5]);
    }
    assert("content-type"@.len() == 12 && "content-length"@.len() == 14);
}

// ---------------------------------------------------------------------------------------------
// Registration
// ---------------------------------------------------------------------------------------------
/// The first line of a REGISTER request.
pub open spec fn register_line(realm: Seq<char>) -> Seq<char> {
    "REGISTER "@ + ("sip:"@ + realm) + " SIP/2.0"@
}

/// Where a REGISTER request comes from.
pub open spec fn via_value(host: Seq<u16>, port: nat, branch: Seq<char>) -> Seq<char> {
    "SIP/2.0/UDP ["@ + ipv6::ipv6_text(host) + "]:"@ + number::decimal(port) + ";branch="@ + branch
        + ";rport"@
}

/// The headers of a REGISTER request without authentication.
spec fn register_list(r: SipRegistration, branch: Seq<char>) -> Seq<(Seq<char>, Seq<char>)> {
    seq![
        ("Via"@, via_value(r.contact_host@, r.contact_port as nat, branch)),
        ("From"@, "<"@ + r.public_identity@ + ">;tag=simadmin"@),
        ("To"@, "<"@ + r.public_identity@ + ">"@),
        ("Call-ID"@, r.call_id@),
        ("CSeq"@, number::decimal(r.cseq as nat) + " REGISTER"@),
        ("Contact"@, "<"@ + r.contact_uri() + ">"@),
        ("Max-Forwards"@, "70"@),
        ("User-Agent"@, "SimAdmin"@),
    ]
}

proof fn lemma_register_start(r: SipRegistration, branch: Seq<char>)
    ensures
        ({
            let l = register_list(r, branch);
            "REGISTER "@ + r.registrar_uri() + " SIP/2.0\r\nVia: SIP/2.0/UDP ["@ + ipv6::ipv6_text(
                r.contact_host@,
            ) + "]:"@ + number::decimal(r.contact_port as nat) + ";branch="@ + branch + ";rport"@
                == register_line(r.realm@) + "\r\n"@ + sip_encoding::header_line(l[0])
        }),
{
    reveal_strlit(" SIP/2.0\r\nVia: SIP/2.0/UDP [");
    reveal_strlit(" SIP/2.0");
    reveal_strlit("\r\n");
    reveal_strlit("Via");
    reveal_strlit(": ");
    reveal_strlit("SIP/2.0/UDP [");
    let l = register_list(r, branch);
    let u = "REGISTER "@ + r.registrar_uri();
    let mid = " SIP/2.0\r\nVia: SIP/2.0/UDP ["@;
    assert(mid =~= " SIP/2.0"@ + ("\r\n"@ + ("Via"@ + (": "@ + "SIP/2.0/UDP ["@))));
    let rest = ipv6::ipv6_text(r.contact_host@) + "]:"@ + number::decimal(r.contact_port as nat)
        + ";branch="@ + branch + ";rport"@;
    let a = u + mid + ipv6::ipv6_text(r.contact_host@) + "]:"@ + number::decimal(
        r.contact_port as nat,
    ) + ";branch="@ + branch + ";rport"@;
    assert(a =~= u + mid + rest);
    let via = via_value(r.contact_host@, r.contact_port as nat, branch);
    assert(via =~= "SIP/2.0/UDP ["@ + rest);
    assert(u + mid + rest =~= (u + " SIP/2.0"@) + "\r\n"@ + ("Via"@ + ": "@ + ("SIP/2.0/UDP ["@
        + rest)));
}

/// One more header, where a literal text spans the end of the line before it and its own start.
proof fn lemma_next_line(
    a: Seq<char>,
    x: Seq<char>,
    literal: Seq<char>,
    name: Seq<char>,
    y: Seq<char>,
    value: Seq<char>,
    z: Seq<char>,
)
    requires
        literal == x + "\r\n"@ + name + ": "@ + y,
    ensures
        a + literal + value + z == (a + x) + "\r\n"@ + sip_encoding::header_line(
            (name, y + value + z),
        ),
{
    assert(a + literal + value + z =~= (a + x) + "\r\n"@ + (name + ": "@ + (y + value + z)));
}

spec fn first_lines(r: SipRegistration, branch: Seq<char>, n: int) -> Seq<char> {
    sip_encoding::written_lines(register_line(r.realm@), register_list(r, branch).take(n))
}

proof fn lemma_more_lines(first: Seq<char>, list: Seq<(Seq<char>, Seq<char>)>, n: int)
    requires
        0 <= n < list.len(),
    ensures
        sip_encoding::written_lines(first, list.take(n + 1)) == sip_encoding::written_lines(
            first,
            list.take(n),
        ) + "\r\n"@ + sip_encoding::header_line(list[n]),
        sip_encoding::written_lines(first, list.take(0)) == first,
{
    sip_encoding::lemma_written_lines_push(first, list.take(n), list[n]);
    assert(list.take(n + 1) =~= list.take(n).push(list[n]));
}

proof fn lemma_register_text(r: SipRegistration, branch: Seq<char>)
    ensures
        r.register_headers(branch) == first_lines(r, branch, 8) + "\r\n"@,
{
    let l = register_list(r, branch);
    let first = register_line(r.realm@);
    let id = r.public_identity@;
    let a1 = "REGISTER "@ + r.registrar_uri() + " SIP/2.0\r\nVia: SIP/2.0/UDP ["@ + ipv6::ipv6_text(
        r.contact_host@,
    ) + "]:"@ + number::decimal(r.contact_port as nat) + ";branch="@ + branch;
    let a2 = a1 + ";rport\r\nFrom: <"@ + id;
    let a3 = a2 + ">;tag=simadmin\r\nTo: <"@ + id;
    let a4 = a3 + ">\r\nCall-ID: "@ + r.call_id@;
    let a5 = a4 + "\r\nCSeq: "@ + number::decimal(r.cseq as nat);
    let a6 = a5 + " REGISTER\r\nContact: <"@ + r.contact_uri();
    let end = ">\r\nMax-Forwards: 70\r\nUser-Agent: SimAdmin\r\n"@;
    assert(r.register_headers(branch) == a6 + end);
    lemma_more_lines(first, l, 0);
    lemma_more_lines(first, l, 1);
    lemma_more_lines(first, l, 2);
    lemma_more_lines(first, l, 3);
    lemma_more_lines(first, l, 4);
    lemma_more_lines(first, l, 5);
    lemma_more_lines(first, l, 6);
    lemma_more_lines(first, l, 7);
    let empty = Seq::<char>::empty();
    lemma_register_start(r, branch);
    assert(a1 + ";rport"@ == first_lines(r, branch, 1));
    assert(a2 + ">;tag=simadmin"@ == first_lines(r, branch, 2)) by {
        reveal_strlit(";rport\r\nFrom: <");
        reveal_strlit(";rport");
        reveal_strlit("\r\n");
        reveal_strlit("From");
        reveal_strlit(": ");
        reveal_strlit("<");
        assert(";rport\r\nFrom: <"@ =~= ";rport"@ + "\r\n"@ + "From"@ + ": "@ + "<"@);
        lemma_next_line(
            a1,
            ";rport"@,
            ";rport\r\nFrom: <"@,
            "From"@,
            "<"@,
            id,
            ">;tag=simadmin"@,
        );
    }
    assert(a3 + ">"@ == first_lines(r, branch, 3)) by {
        reveal_strlit(">;tag=simadmin\r\nTo: <");
        reveal_strlit(">;tag=simadmin");
        reveal_strlit("\r\n");
        reveal_strlit("To");
        reveal_strlit(": ");
        reveal_strlit("<");
        assert(">;tag=simadmin\r\nTo: <"@ =~= ">;tag=simadmin"@ + "\r\n"@ + "To"@ + ": "@ + "<"@);
        lemma_next_line(
            a2,
            ">;tag=simadmin"@,
            ">;tag=simadmin\r\nTo: <"@,
            "To"@,
            "<"@,
            id,
            ">"@,
        );
    }
    assert(a4 == first_lines(r, branch, 4)) by {
        reveal_strlit(">\r\nCall-ID: ");
        reveal_strlit(">");
        reveal_strlit("\r\n");
        reveal_strlit("Call-ID");
        reveal_strlit(": ");
        assert(">\r\nCall-ID: "@ =~= ">"@ + "\r\n"@ + "Call-ID"@ + ": "@ + empty);
        lemma_next_line(a3, ">"@, ">\r\nCall-ID: "@, "Call-ID"@, empty, r.call_id@, empty);
        assert(empty + r.call_id@ + empty =~= r.call_id@);
        assert(a4 + empty =~= a4);
    }
    assert(a5 + " REGISTER"@ == first_lines(r, branch, 5)) by {
        reveal_strlit("\r\nCSeq: ");
        reveal_strlit("\r\n");
        reveal_strlit("CSeq");
        reveal_strlit(": ");
        assert("\r\nCSeq: "@ =~= empty + "\r\n"@ + "CSeq"@ + ": "@ + empty);
        let n = number::decimal(r.cseq as nat);
        lemma_next_line(a4, empty, "\r\nCSeq: "@, "CSeq"@, empty, n, " REGISTER"@);
        assert(empty + n + " REGISTER"@ =~= n + " REGISTER"@);
        assert(a4 + empty =~= a4);
    }
    assert(a6 + ">"@ == first_lines(r, branch, 6)) by {
        reveal_strlit(" REGISTER\r\nContact: <");
        reveal_strlit(" REGISTER");
        reveal_strlit("\r\n");
        reveal_strlit("Contact");
        reveal_strlit(": ");
        reveal_strlit("<");
        assert(" REGISTER\r\nContact: <"@ =~= " REGISTER"@ + "\r\n"@ + "Contact"@ + ": "@ + "<"@);
        lemma_next_line(
            a5,
            " REGISTER"@,
            " REGISTER\r\nContact: <"@,
            "Contact"@,
            "<"@,
            r.contact_uri(),
            ">"@,
        );
    }
    lemma_register_end(r, branch, a6);
}

proof fn lemma_register_end(r: SipRegistration, branch: Seq<char>, a: Seq<char>)
    requires
        a + ">"@ == first_lines(r, branch, 6),
    ensures
        a + ">\r\nMax-Forwards: 70\r\nUser-Agent: SimAdmin\r\n"@ == first_lines(r, branch, 8)
            + "\r\n"@,
{
    let l = register_list(r, branch);
    let first = register_line(r.realm@);
    lemma_more_lines(first, l, 6);
    lemma_more_lines(first, l, 7);
    reveal_strlit(">\r\nMax-Forwards: 70\r\nUser-Agent: SimAdmin\r\n");
    reveal_strlit(">");
    reveal_strlit("\r\n");
    reveal_strlit("Max-Forwards");
    reveal_strlit(": ");
    reveal_strlit("70");
    reveal_strlit("User-Agent");
    reveal_strlit("SimAdmin");
    let end = ">\r\nMax-Forwards: 70\r\nUser-Agent: SimAdmin\r\n"@;
    let m = "\r\n"@ + ("Max-Forwards"@ + ": "@ + "70"@);
    let u = "\r\n"@ + ("User-Agent"@ + ": "@ + "SimAdmin"@);
    assert(end =~= ">"@ + m + u + "\r\n"@);
    assert(a + end =~= (a + ">"@) + "\r\n"@ + ("Max-Forwards"@ + ": "@ + "70"@) + "\r\n"@ + (
    "User-Agent"@ + ": "@ + "SimAdmin"@) + "\r\n"@);
}

/// The texts of a registration can stand in one line each.
pub open spec fn is_writable(r: SipRegistration, branch: Seq<char>) -> bool {
    &&& sip_encoding::is_one_line(r.private_identity@)
    &&& sip_encoding::is_one_line(r.public_identity@)
    &&& sip_encoding::is_one_line(r.realm@)
    &&& sip_encoding::is_one_line(r.nonce@)
    &&& sip_encoding::is_one_line(r.call_id@)
    &&& sip_encoding::is_one_line(branch)
}

/// Three texts without line feeds make one.
pub proof fn lemma_one_line_joined(a: Seq<char>, b: Seq<char>, c: Seq<char>)
    requires
        sip_encoding::is_one_line(a),
        sip_encoding::is_one_line(b),
        sip_encoding::is_one_line(c),
    ensures
        sip_encoding::is_one_line(a + b + c),
{
    sip_encoding::lemma_one_line_concat(a, b);
    sip_encoding::lemma_one_line_concat(a + b, c);
}

proof fn lemma_one_line_via(host: Seq<u16>, port: nat, branch: Seq<char>)
    requires
        host.len() == 8,
        sip_encoding::is_one_line(branch),
    ensures
        sip_encoding::is_one_line(via_value(host, port, branch)),
{
    reveal_strlit("SIP/2.0/UDP [");
    reveal_strlit("]:");
    reveal_strlit(";branch=");
    reveal_strlit(";rport");
    let ip = ipv6::ipv6_text(host);
    sip_encoding::lemma_one_line_address(host);
    sip_encoding::lemma_one_line_decimal(port);
    let a = "SIP/2.0/UDP ["@ + ip + "]:"@;
    lemma_one_line_joined("SIP/2.0/UDP ["@, ip, "]:"@);
    lemma_one_line_joined(a, number::decimal(port), ";branch="@);
    lemma_one_line_joined(a + number::decimal(port) + ";branch="@, branch, ";rport"@);
}

proof fn lemma_one_line_contact(r: SipRegistration)
    requires
        sip_encoding::is_one_line(r.public_identity@),
    ensures
        sip_encoding::is_one_line(r.contact_uri()),
{
    reveal_strlit("sip:");
    reveal_strlit("@");
    reveal_strlit(":");
    let id = r.public_identity@;
    let bare = ims_sip::without_prefix(id, "sip:"@);
    if "sip:"@.is_prefix_of(id) {
        assert(bare =~= id.subrange(4, id.len() as int));
        sip_encoding::lemma_one_line_part(id, 4, id.len() as int);
    }
    let ip = ipv6::ipv6_text(r.contact_host@);
    assert(r.contact_host@.len() == 8);
    sip_encoding::lemma_one_line_address(r.contact_host@);
    sip_encoding::lemma_one_line_decimal(r.contact_port as nat);
    let a = "sip:"@ + bare + "@"@;
    lemma_one_line_joined("sip:"@, bare, "@"@);
    lemma_one_line_joined(a, ip, ":"@);
    sip_encoding::lemma_one_line_concat(a + ip + ":"@, number::decimal(r.contact_port as nat));
}

proof fn lemma_register_headers(r: SipRegistration, branch: Seq<char>)
    requires
        is_writable(r, branch),
    ensures
        sip_encoding::is_one_line(register_line(r.realm@)),
        forall|i: int|
            0 <= i < 8 ==> sip_encoding::is_header(#[trigger] register_list(r, branch)[i]),
{
    reveal_strlit("REGISTER ");
    reveal_strlit("sip:");
    reveal_strlit(" SIP/2.0");
    reveal_strlit("Via");
    reveal_strlit("From");
    reveal_strlit("To");
    reveal_strlit("Call-ID");
    reveal_strlit("CSeq");
    reveal_strlit("Contact");
    reveal_strlit("Max-Forwards");
    reveal_strlit("User-Agent");
    reveal_strlit("<");
    reveal_strlit(">");
    reveal_strlit(">;tag=simadmin");
    reveal_strlit(" REGISTER");
    reveal_strlit("70");
    reveal_strlit("SimAdmin");
    let l = register_list(r, branch);
    let id = r.public_identity@;
    sip_encoding::lemma_one_line_concat("sip:"@, r.realm@);
    lemma_one_line_joined("REGISTER "@, "sip:"@ + r.realm@, " SIP/2.0"@);
    assert(r.contact_host@.len() == 8);
    lemma_one_line_via(r.contact_host@, r.contact_port as nat, branch);
    lemma_one_line_joined("<"@, id, ">;tag=simadmin"@);
    lemma_one_line_joined("<"@, id, ">"@);
    sip_encoding::lemma_one_line_decimal(r.cseq as nat);
    sip_encoding::lemma_one_line_concat(number::decimal(r.cseq as nat), " REGISTER"@);
    lemma_one_line_contact(r);
    lemma_one_line_joined("<"@, r.contact_uri(), ">"@);
    assert(sip_encoding::is_header(l[0]));
    assert(sip_encoding::is_header(l[1]));
    assert(sip_encoding::is_header(l[2]));
    assert(sip_encoding::is_header(l[3]));
    assert(sip_encoding::is_header(l[4]));
    assert(sip_encoding::is_header(l[5]));
    assert(sip_encoding::is_header(l[6]));
    assert(sip_encoding::is_header(l[7]));
    assert forall|i: int| 0 <= i < 8 implies sip_encoding::is_header(#[trigger] l[i]) by {
        assert(i == 0 || i == 1 || i == 2 || i == 3 || i == 4 || i == 5 || i == 6 || i == 7);
    }
}

/// What the headers of a REGISTER request say: each carries the field that it is to carry.
pub open spec fn carries_registration(
    headers: Map<Seq<char>, Seq<char>>,
    r: SipRegistration,
    branch: Seq<char>,
) -> bool {
    &&& headers.contains_key("via"@)
    &&& headers["via"@] == "SIP/2.0/UDP ["@ + ipv6::ipv6_text(r.contact_host@) + "]:"@
        + number::decimal(r.contact_port as nat) + ";branch="@ + branch + ";rport"@
    &&& headers.contains_key("from"@)
    &&& headers["from"@] == "<"@ + r.public_identity@ + ">;tag=simadmin"@
    &&& headers.contains_key("to"@)
    &&& headers["to"@] == "<"@ + r.public_identity@ + ">"@
    &&& headers.contains_key("call-id"@)
    &&& headers["call-id"@] == text::trim(r.call_id@)
    &&& headers.contains_key("cseq"@)
    &&& headers["cseq"@] == number::decimal(r.cseq as nat) + " REGISTER"@
    &&& headers.contains_key("contact"@)
    &&& headers["contact"@] == "<sip:"@ + (if "sip:"@.is_prefix_of(r.public_identity@) {
        r.public_identity@.skip(4)
    } else {
        r.public_identity@
    }) + "@"@ + ipv6::ipv6_text(r.contact_host@) + ":"@ + number::decimal(r.contact_port as nat)
        + ">"@
    &&& headers.contains_key("max-forwards"@)
    &&& headers["max-forwards"@] == "70"@
    &&& headers.contains_key("user-agent"@)
    &&& headers["user-agent"@] == "SimAdmin"@
    &&& headers.contains_key("content-length"@)
    &&& headers["content-length"@] == "0"@
}

proof fn lemma_registration_values(
    r: SipRegistration,
    branch: Seq<char>,
    more: Seq<(Seq<char>, Seq<char>)>,
)
    requires
        more.len() <= 1,
        more.len() == 1 ==> more[0].0 == "Authorization"@,
    ensures
        ({
            let list = register_list(r, branch) + more + seq![("Content-Length"@, "0"@)];
            let values = sip_encoding::header_values(list);
            &&& carries_registration(values, r, branch)
            &&& more.len() == 1 ==> values.contains_key("authorization"@)
                && values["authorization"@] == text::trim(more[0].1)
            &&& more.len() == 0 ==> !values.contains_key("authorization"@)
        }),
{
    let list = register_list(r, branch) + more + seq![("Content-Length"@, "0"@)];
    let l = register_list(r, branch);
    let n = list.len() as int;
    lemma_names();
    lemma_distinct_names();
    let names = seq![
        "via"@,
        "from"@,
        "to"@,
        "call-id"@,
        "cseq"@,
        "contact"@,
        "max-forwards"@,
        "user-agent"@,
        "authorization"@,
        "content-length"@,
    ];
    let at = |j: int|
        if j == n - 1 {
            9int
        } else {
            j
        };
    assert forall|j: int| 0 <= j < n implies small_name(#[trigger] list[j]) == names[at(j)] by {
        if j < 8 {
            assert(list[j] == l[j]);
            assert(j == 0 || j == 1 || j == 2 || j == 3 || j == 4 || j == 5 || j == 6 || j == 7);
        } else if j < n - 1 {
            assert(list[j] == more[0]);
        }
    }
    assert forall|i: int, j: int| 0 <= i < j < n implies small_name(#[trigger] list[i])
        != small_name(#[trigger] list[j]) by {
        assert(at(i) != at(j));
        assert(names[at(i)] != names[at(j)]);
    }
    lemma_value_at(list, 0, "via"@);
    lemma_value_at(list, 1, "from"@);
    lemma_value_at(list, 2, "to"@);
    lemma_value_at(list, 3, "call-id"@);
    lemma_value_at(list, 4, "cseq"@);
    lemma_value_at(list, 5, "contact"@);
    lemma_value_at(list, 6, "max-forwards"@);
    lemma_value_at(list, 7, "user-agent"@);
    lemma_value_at(list, n - 1, "content-length"@);
    if more.len() == 1 {
        lemma_value_at(list, 8, "authorization"@);
    } else {
        assert forall|j: int| 0 <= j < n implies small_name(#[trigger] list[j])
            != "authorization"@ by {
            assert(names[at(j)] != names[8]);
        }
        lemma_header_absent(list, "authorization"@);
    }
    lemma_bare_values(r, branch);
    assert(list[0] == l[0] && list[1] == l[1] && list[2] == l[2] && list[3] == l[3] && list[4]
        == l[4] && list[5] == l[5] && list[6] == l[6] && list[7] == l[7]);
}

/// A header is found under its name, if no two headers have the same name.
pub proof fn lemma_value_at(list: Seq<(Seq<char>, Seq<char>)>, i: int, name: Seq<char>)
    requires
        0 <= i < list.len(),
        small_name(list[i]) == name,
        forall|a: int, b: int|
            0 <= a < b < list.len() ==> small_name(#[trigger] list[a]) != small_name(
                #[trigger] list[b],
            ),
    ensures
        sip_encoding::header_values(list).contains_key(name),
        sip_encoding::header_values(list)[name] == text::trim(list[i].1),
{
    lemma_header_value(list, i, name);
}

proof fn lemma_bare_values(r: SipRegistration, branch: Seq<char>)
    ensures
        ({
            let l = register_list(r, branch);
            &&& text::trim(l[0].1) == l[0].1
            &&& text::trim(l[1].1) == l[1].1
            &&& text::trim(l[2].1) == l[2].1
            &&& text::trim(l[4].1) == l[4].1
            &&& text::trim(l[5].1) == l[5].1
            &&& l[5].1 == "<sip:"@ + (if "sip:"@.is_prefix_of(r.public_identity@) {
                r.public_identity@.skip(4)
            } else {
                r.public_identity@
            }) + "@"@ + ipv6::ipv6_text(r.contact_host@) + ":"@ + number::decimal(
                r.contact_port as nat,
            ) + ">"@
            &&& text::trim("70"@) == "70"@
            &&& text::trim("SimAdmin"@) == "SimAdmin"@
            &&& text::trim("0"@) == "0"@
        }),
{
    reveal_strlit("SIP/2.0/UDP [");
    reveal_strlit(";rport");
    reveal_strlit("<");
    reveal_strlit(">");
    reveal_strlit(">;tag=simadmin");
    reveal_strlit(" REGISTER");
    reveal_strlit("70");
    reveal_strlit("SimAdmin");
    reveal_strlit("0");
    reveal_strlit("<sip:");
    reveal_strlit("sip:");
    let l = register_list(r, branch);
    assert(l[0].1[0] == 'S' && l[0].1.last() == 't');
    text_laws::lemma_trim_bare(l[0].1);
    assert(l[1].1[0] == '<' && l[1].1.last() == 'n');
    text_laws::lemma_trim_bare(l[1].1);
    assert(l[2].1[0] == '<' && l[2].1.last() == '>');
    text_laws::lemma_trim_bare(l[2].1);
    number::lemma_decimal_digits(r.cseq as nat);
    assert(text::is_digit(number::decimal(r.cseq as nat)[0]));
    assert(l[4].1[0] == number::decimal(r.cseq as nat)[0] && l[4].1.last() == 'R');
    text_laws::lemma_trim_bare(l[4].1);
    assert(l[5].1[0] == '<' && l[5].1.last() == '>');
    text_laws::lemma_trim_bare(l[5].1);
    text_laws::lemma_trim_bare("70"@);
    text_laws::lemma_trim_bare("SimAdmin"@);
    text_laws::lemma_trim_bare("0"@);
    let id = ims_sip::without_prefix(r.public_identity@, "sip:"@);
    assert("<sip:"@ =~= "<"@ + "sip:"@);
    assert(l[5].1 =~= "<sip:"@ + id + "@"@ + ipv6::ipv6_text(r.contact_host@) + ":"@
        + number::decimal(r.contact_port as nat) + ">"@);
}

/// A REGISTER request without authentication, read as a SIP message, has in each of its headers
/// the field of the registration that belongs there, no authorization and no body. Its first line
/// asks the registrar of the realm.
pub proof fn law_initial_register_read_back(r: SipRegistration, branch: Seq<char>)
    requires
        is_writable(r, branch),
    ensures
        ({
            let request = r.initial_register(branch);
            let read = ims_sms::sip_message(vstd::utf8::encode_utf8(request));
            &&& read is Ok
            &&& carries_registration((read->Ok_0).0, r, branch)
            &&& !(read->Ok_0).0.contains_key("authorization"@)
            &&& (read->Ok_0).1 == Seq::<u8>::empty()
            &&& text::lines(request).len() > 0
            &&& text::lines(request)[0] == "REGISTER sip:"@ + r.realm@ + " SIP/2.0"@
        }),
{
    let more = Seq::<(Seq<char>, Seq<char>)>::empty();
    lemma_register_written(r, branch, more, Seq::empty());
    lemma_registration_values(r, branch, more);
    assert(r.initial_register(branch) =~= r.register_headers(branch) + Seq::<char>::empty()
        + "Content-Length: 0\r\n\r\n"@);
}

/// What is written with these headers between those of a registration and the end is read back.
proof fn lemma_register_written(
    r: SipRegistration,
    branch: Seq<char>,
    more: Seq<(Seq<char>, Seq<char>)>,
    written: Seq<char>,
)
    requires
        is_writable(r, branch),
        more.len() <= 1,
        more.len() == 0 ==> written == Seq::<char>::empty(),
        more.len() == 1 ==> written == sip_encoding::header_line(more[0]) + "\r\n"@
            && sip_encoding::is_header(more[0]),
    ensures
        ({
            let request = r.register_headers(branch) + written + "Content-Length: 0\r\n\r\n"@;
            let list = register_list(r, branch) + more + seq![("Content-Length"@, "0"@)];
            &&& ims_sms::sip_message(vstd::utf8::encode_utf8(request)) == Ok::<
                (Map<Seq<char>, Seq<char>>, Seq<u8>),
                ImsError,
            >((sip_encoding::header_values(list), Seq::<u8>::empty()))
            &&& text::lines(request).len() > 0
            &&& text::lines(request)[0] == "REGISTER sip:"@ + r.realm@ + " SIP/2.0"@
        }),
{
    let l = register_list(r, branch);
    let first = register_line(r.realm@);
    let length = ("Content-Length"@, "0"@);
    let list = l + more + seq![length];
    let request = r.register_headers(branch) + written + "Content-Length: 0\r\n\r\n"@;
    lemma_register_text(r, branch);
    assert(l.take(8) =~= l);
    let t8 = sip_encoding::written_lines(first, l);
    reveal_strlit("Content-Length: 0\r\n\r\n");
    reveal_strlit("Content-Length");
    reveal_strlit(": ");
    reveal_strlit("0");
    reveal_strlit("\r\n\r\n");
    assert("Content-Length: 0\r\n\r\n"@ =~= "Content-Length"@ + ": "@ + "0"@ + "\r\n\r\n"@);
    let with_more = l + more;
    let t9 = sip_encoding::written_lines(first, with_more);
    if more.len() == 1 {
        sip_encoding::lemma_written_lines_push(first, l, more[0]);
        assert(with_more =~= l.push(more[0]));
        assert(t8 + "\r\n"@ + written =~= t9 + "\r\n"@);
    } else {
        assert(with_more =~= l);
        assert(t8 + "\r\n"@ + written =~= t9 + "\r\n"@);
    }
    sip_encoding::lemma_written_lines_push(first, with_more, length);
    assert(list =~= with_more.push(length));
    let all = sip_encoding::written_lines(first, list);
    assert(t9 + "\r\n"@ + "Content-Length: 0\r\n\r\n"@ =~= t9 + "\r\n"@ + (
    "Content-Length"@ + ": "@ + "0"@) + "\r\n\r\n"@);
    assert(request == all + "\r\n\r\n"@);
    lemma_register_headers(r, branch);
    assert(sip_encoding::is_header(length));
    assert forall|i: int| 0 <= i < list.len() implies sip_encoding::is_header(#[trigger] list[i]) by {
        if i < 8 {
            assert(list[i] == l[i]);
        } else if i < list.len() - 1 {
            assert(list[i] == more[0]);
        }
    }
    sip_encoding::law_message_read_back(first, list, Seq::empty());
    assert(vstd::utf8::encode_utf8(request) + Seq::<u8>::empty() =~= vstd::utf8::encode_utf8(
        request,
    ));
    lemma_first_line(first, list);
    reveal_strlit("REGISTER ");
    reveal_strlit("sip:");
    reveal_strlit("REGISTER sip:");
    assert(first =~= "REGISTER sip:"@ + r.realm@ + " SIP/2.0"@);
}

/// The first line of a message stays so when the message is ended.
pub proof fn lemma_first_line(first: Seq<char>, list: Seq<(Seq<char>, Seq<char>)>)
    requires
        list.len() > 0,
        sip_encoding::is_one_line(first),
    ensures
        ({
            let lines = text::lines(sip_encoding::written_lines(first, list) + "\r\n\r\n"@);
            lines.len() > 0 && lines[0] == first
        }),
{
    reveal_strlit("\r\n");
    let rest = sip_encoding::written_lines(sip_encoding::header_line(list[0]), list.skip(1))
        + "\r\n\r\n"@;
    let s = sip_encoding::written_lines(first, list) + "\r\n\r\n"@;
    assert(s =~= first + "\r\n"@ + rest);
    lemma_line_cut(first, rest);
}

/// A line that ends with a carriage return and a line feed is the first line.
pub proof fn lemma_line_cut(first: Seq<char>, rest: Seq<char>)
    requires
        sip_encoding::is_one_line(first),
    ensures
        text::lines(first + "\r\n"@ + rest).len() > 0,
        text::lines(first + "\r\n"@ + rest)[0] == first,
{
    reveal_strlit("\r\n");
    let raw = first.push('\r');
    let s = first + "\r\n"@ + rest;
    assert(s =~= raw.push('\n') + rest);
    assert(!raw.contains('\n')) by {
        assert forall|i: int| 0 <= i < raw.len() implies raw[i] != '\n' by {
            if i < first.len() {
                assert(raw[i] == first[i]);
            }
        }
    }
    text::lemma_split_first(raw, '\n', rest);
    assert(s.take(raw.len() as int) =~= raw);
    assert(text::strip_cr(raw) =~= first);
}

/// A REGISTER request that answers the challenge, read as a SIP message, has the same headers as
/// one without authentication and the authorization.
pub proof fn law_answering_register_read_back(
    r: SipRegistration,
    branch: Seq<char>,
    response: Seq<char>,
)
    requires
        is_writable(r, branch),
        sip_encoding::is_one_line(response),
    ensures
        ({
            let request = r.answering_register(branch, response);
            let read = ims_sms::sip_message(vstd::utf8::encode_utf8(request));
            &&& read is Ok
            &&& carries_registration((read->Ok_0).0, r, branch)
            &&& (read->Ok_0).0.contains_key("authorization"@)
            &&& (read->Ok_0).0["authorization"@] == authorization_value(r, response)
            &&& (read->Ok_0).1 == Seq::<u8>::empty()
            &&& text::lines(request).len() > 0
            &&& text::lines(request)[0] == "REGISTER sip:"@ + r.realm@ + " SIP/2.0"@
        }),
{
    let value = authorization_value(r, response);
    let more = seq![("Authorization"@, value)];
    lemma_authorization_line(r, response);
    lemma_register_written(r, branch, more, r.authorization(response));
    lemma_registration_values(r, branch, more);
    reveal_strlit("Digest username=\"");
    reveal_strlit("\", algorithm=AKAv1-MD5");
    assert(value[0] == 'D' && value.last() == '5');
    text_laws::lemma_trim_bare(value);
}

/// The value of the header that answers a challenge.
pub open spec fn authorization_value(r: SipRegistration, response: Seq<char>) -> Seq<char> {
    "Digest username=\""@ + r.private_identity@ + "\", realm=\""@ + r.realm@ + "\", nonce=\""@
        + r.nonce@ + "\", uri=\""@ + ("sip:"@ + r.realm@) + "\", response=\""@ + response
        + "\", algorithm=AKAv1-MD5"@
}

proof fn lemma_authorization_line(r: SipRegistration, response: Seq<char>)
    requires
        sip_encoding::is_one_line(r.private_identity@),
        sip_encoding::is_one_line(r.realm@),
        sip_encoding::is_one_line(r.nonce@),
        sip_encoding::is_one_line(response),
    ensures
        ({
            let header = ("Authorization"@, authorization_value(r, response));
            &&& r.authorization(response) == sip_encoding::header_line(header) + "\r\n"@
            &&& sip_encoding::is_header(header)
        }),
{
    reveal_strlit("Authorization: Digest username=\"");
    reveal_strlit("Authorization");
    reveal_strlit(": ");
    reveal_strlit("Digest username=\"");
    reveal_strlit("\", realm=\"");
    reveal_strlit("\", nonce=\"");
    reveal_strlit("\", uri=\"");
    reveal_strlit("\", response=\"");
    reveal_strlit("\", algorithm=AKAv1-MD5\r\n");
    reveal_strlit("\", algorithm=AKAv1-MD5");
    reveal_strlit("\r\n");
    reveal_strlit("sip:");
    let uri = "sip:"@ + r.realm@;
    let middle = r.private_identity@ + "\", realm=\""@ + r.realm@ + "\", nonce=\""@ + r.nonce@
        + "\", uri=\""@ + uri + "\", response=\""@ + response;
    let start = "Authorization: Digest username=\""@;
    assert(start =~= "Authorization"@ + ": "@ + "Digest username=\""@);
    assert("\", algorithm=AKAv1-MD5\r\n"@ =~= "\", algorithm=AKAv1-MD5"@ + "\r\n"@);
    assert(r.authorization(response) =~= start + middle + "\", algorithm=AKAv1-MD5\r\n"@);
    let value = authorization_value(r, response);
    assert(value =~= "Digest username=\""@ + middle + "\", algorithm=AKAv1-MD5"@);
    assert(r.authorization(response) =~= "Authorization"@ + ": "@ + value + "\r\n"@);
    sip_encoding::lemma_one_line_concat("sip:"@, r.realm@);
    let a = "Digest username=\""@ + r.private_identity@ + "\", realm=\""@;
    lemma_one_line_joined("Digest username=\""@, r.private_identity@, "\", realm=\""@);
    lemma_one_line_joined(a, r.realm@, "\", nonce=\""@);
    let b = a + r.realm@ + "\", nonce=\""@;
    lemma_one_line_joined(b, r.nonce@, "\", uri=\""@);
    let c = b + r.nonce@ + "\", uri=\""@;
    lemma_one_line_joined(c, uri, "\", response=\""@);
    let d = c + uri + "\", response=\""@;
    lemma_one_line_joined(d, response, "\", algorithm=AKAv1-MD5"@);
    assert(!"Authorization"@.contains(':'));
}

/// Requests that differ in their sequence number differ, with and without authentication.
pub proof fn law_sequence_number_shows(
    a: SipRegistration,
    b: SipRegistration,
    branch: Seq<char>,
    response: Seq<char>,
)
    requires
        is_writable(a, branch),
        is_writable(b, branch),
        sip_encoding::is_one_line(response),
        a.cseq != b.cseq,
    ensures
        a.initial_register(branch) != b.initial_register(branch),
        a.answering_register(branch, response) != b.answering_register(branch, response),
{
    law_initial_register_read_back(a, branch);
    law_initial_register_read_back(b, branch);
    law_answering_register_read_back(a, branch, response);
    law_answering_register_read_back(b, branch, response);
    text_laws::law_decimal_distinct(a.cseq as nat, b.cseq as nat);
    let x = number::decimal(a.cseq as nat);
    let y = number::decimal(b.cseq as nat);
    if x + " REGISTER"@ == y + " REGISTER"@ {
        assert((x + " REGISTER"@).len() == x.len() + " REGISTER"@.len());
        assert((y + " REGISTER"@).len() == y.len() + " REGISTER"@.len());
        assert(x =~= (x + " REGISTER"@).take(x.len() as int));
        assert(y =~= (y + " REGISTER"@).take(y.len() as int));
    }
}

} // verus!
