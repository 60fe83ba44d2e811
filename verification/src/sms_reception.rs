//! The reception of short messages: which packets carry one, what is answered, how the parts of
//! a long message are put together and which messages are recorded.
use vstd::prelude::*;
use crate::ims_sms;
use crate::ims_sms::{
    build_rp_ack, build_rp_ack_message, decode_ims_sms_body, find_crlf, message_marker,
    parse_sip_message, sip_ok_response, ConcatInfo, IncomingImsSms,
};
use crate::externals::utf8_text;
use crate::ipv6::Ipv6Addr;
use crate::sip_headers::SipHeaders;
use crate::text;
use crate::text::{chars_of, contains, same_str, starts_with, to_lowercase};
use vstd::slice::slice_subrange;

verus! {

// ---------------------------------------------------------------------------------------------
// Messages in several parts
// ---------------------------------------------------------------------------------------------
/// A short message as a mathematical value.
#[verifier::ext_equal]
pub struct SmsModel {
    pub phone_number: Seq<char>,
    pub content: Seq<char>,
    pub marker: Seq<char>,
    pub concat: Option<ConcatInfo>,
}

impl View for IncomingImsSms {
    type V = SmsModel;

    open spec fn view(&self) -> SmsModel {
        SmsModel {
            phone_number: self.phone_number@,
            content: self.content@,
            marker: self.marker@,
            concat: self.concat,
        }
    }
}

/// The content and the marker of a part.
pub type PartModel = (Seq<char>, Seq<char>);

/// The parts of a message that are there so far.
pub type SlotsModel = Seq<Option<PartModel>>;

/// The messages of which not all parts are there, by sender and reference.
pub type PartialsModel = Map<(Seq<char>, u16), SlotsModel>;

/// A part that can be placed: its number is one of those that the message has.
pub open spec fn is_placeable(c: ConcatInfo) -> bool {
    1 <= c.sequence <= c.total
}

/// The slots of a message of which no part is there.
pub open spec fn blank_slots(total: nat) -> SlotsModel {
    Seq::new(total, |i: int| None)
}

/// The slots that a part of a message with `total` parts finds.
pub open spec fn slots_for(
    partials: PartialsModel,
    key: (Seq<char>, u16),
    total: nat,
) -> SlotsModel {
    if partials.contains_key(key) && partials[key].len() == total {
        partials[key]
    } else {
        blank_slots(total)
    }
}

/// Every part is there.
pub open spec fn is_full(slots: SlotsModel) -> bool {
    forall|i: int| 0 <= i < slots.len() ==> (#[trigger] slots[i]) is Some
}

/// The contents of the parts, one after the other.
pub open spec fn joined_contents(slots: SlotsModel) -> Seq<char>
    decreases slots.len(),
{
    if slots.len() == 0 {
        Seq::empty()
    } else {
        joined_contents(slots.drop_last()) + (slots.last()->0).0
    }
}

/// The markers of the parts, one after the other.
pub open spec fn joined_markers(slots: SlotsModel) -> Seq<char>
    decreases slots.len(),
{
    if slots.len() == 0 {
        Seq::empty()
    } else {
        joined_markers(slots.drop_last()) + (slots.last()->0).1
    }
}

/// The message that all its parts make.
pub open spec fn assembled(phone_number: Seq<char>, slots: SlotsModel) -> SmsModel {
    SmsModel {
        phone_number,
        content: joined_contents(slots),
        marker: ims_sms::marker_of(joined_markers(slots)),
        concat: None,
    }
}

/// The slots of a message after one more part has come in.
pub open spec fn placed(partials: PartialsModel, sms: SmsModel, c: ConcatInfo) -> SlotsModel {
    slots_for(partials, (sms.phone_number, c.reference), c.total as nat).update(
        c.sequence - 1,
        Some((sms.content, sms.marker)),
    )
}

/// What becomes of the parts kept so far when a message or a part comes in, and the message that
/// is then complete, if there is one.
pub open spec fn absorb(partials: PartialsModel, sms: SmsModel) -> (
    PartialsModel,
    Option<SmsModel>,
) {
    match sms.concat {
        None => (partials, Some(sms)),
        Some(c) => {
            let key = (sms.phone_number, c.reference);
            if !is_placeable(c) {
                (partials, None)
            } else if is_full(placed(partials, sms, c)) {
                (
                    partials.remove(key),
                    Some(assembled(sms.phone_number, placed(partials, sms, c))),
                )
            } else {
                (partials.insert(key, placed(partials, sms, c)), None)
            }
        },
    }
}

/// A part of a message.
#[derive(Debug)]
struct Part {
    content: String,
    marker: String,
}

/// A message of which not all parts are there.
#[derive(Debug)]
struct PartialSms {
    phone_number: String,
    reference: u16,
    slots: Vec<Option<Part>>,
}

spec fn part_view(part: Option<Part>) -> Option<PartModel> {
    match part {
        Some(p) => Some((p.content@, p.marker@)),
        None => None,
    }
}

spec fn slots_view(slots: Seq<Option<Part>>) -> SlotsModel {
    slots.map_values(|part: Option<Part>| part_view(part))
}

impl PartialSms {
    spec fn key(self) -> (Seq<char>, u16) {
        (self.phone_number@, self.reference)
    }
}

/// No message occurs twice.
spec fn distinct(entries: Seq<PartialSms>) -> bool {
    forall|i: int, j: int|
        0 <= i < j < entries.len() ==> (#[trigger] entries[i]).key() != (#[trigger] entries[j]).key()
}

spec fn has_key(entries: Seq<PartialSms>, key: (Seq<char>, u16)) -> bool {
    exists|i: int| 0 <= i < entries.len() && (#[trigger] entries[i]).key() == key
}

spec fn place(entries: Seq<PartialSms>, key: (Seq<char>, u16)) -> int {
    choose|i: int| 0 <= i < entries.len() && (#[trigger] entries[i]).key() == key
}

spec fn entries_view(entries: Seq<PartialSms>) -> PartialsModel {
    Map::new(
        |key: (Seq<char>, u16)| has_key(entries, key),
        |key: (Seq<char>, u16)| slots_view(entries[place(entries, key)].slots@),
    )
}

proof fn lemma_place(entries: Seq<PartialSms>, i: int)
    requires
        distinct(entries),
        0 <= i < entries.len(),
    ensures
        place(entries, entries[i].key()) == i,
        has_key(entries, entries[i].key()),
{
    let k = entries[i].key();
    assert(entries[i].key() == k);
    let j = place(entries, k);
    assert(entries[j].key() == k);
}

/// Takes the slots of a message out.
fn take_slots(entries: &mut Vec<PartialSms>, phone_number: &str, reference: u16) -> (r: Option<
    Vec<Option<Part>>,
>)
    requires
        distinct(old(entries)@),
    ensures
        distinct(final(entries)@),
        entries_view(final(entries)@) == entries_view(old(entries)@).remove(
            (phone_number@, reference),
        ),
        match r {
            Some(slots) => entries_view(old(entries)@).contains_key((phone_number@, reference))
                && slots_view(slots@) == entries_view(old(entries)@)[(phone_number@, reference)],
            None => !entries_view(old(entries)@).contains_key((phone_number@, reference)),
        },
{
    let ghost before = entries@;
    let ghost key = (phone_number@, reference);
    let mut i: usize = 0;
    while i < entries.len()
        invariant
            i <= entries@.len(),
            entries@ == before,
            key == (phone_number@, reference),
            forall|j: int| 0 <= j < i ==> (#[trigger] before[j]).key() != key,
        ensures
            i < entries@.len() ==> before[i as int].key() == key,
        decreases entries@.len() - i,
    {
        if entries[i].reference == reference && same_str(&entries[i].phone_number, phone_number) {
            break;
        }
        i += 1;
    }
    if i == entries.len() {
        assert(!has_key(before, key));
        assert(entries_view(entries@) =~= entries_view(before).remove(key));
        return None;
    }
    proof {
        lemma_place(before, i as int);
    }
    let entry = entries.remove(i);
    proof {
        let after = entries@;
        assert(after == before.remove(i as int));
        assert forall|a: int, b: int| 0 <= a < b < after.len() implies (#[trigger] after[a]).key()
            != (#[trigger] after[b]).key() by {
            let a0 = if a < i { a } else { a + 1 };
            let b0 = if b < i { b } else { b + 1 };
            assert(after[a] == before[a0] && after[b] == before[b0]);
        }
        assert forall|k: (Seq<char>, u16)| has_key(after, k) <==> has_key(before, k) && k != key by {
            if has_key(after, k) {
                let a = place(after, k);
                let a0 = if a < i { a } else { a + 1 };
                assert(after[a] == before[a0]);
                assert(before[a0].key() == k);
                assert(before[i as int].key() == key);
            }
            if has_key(before, k) && k != key {
                let b = place(before, k);
                let a = if b < i { b } else { b - 1 };
                assert(b != i);
                assert(after[a] == before[b]);
                assert(after[a].key() == k);
            }
        }
        assert forall|k: (Seq<char>, u16)| has_key(after, k) implies after[place(after, k)]
            == before[place(before, k)] by {
            let a = place(after, k);
            let a0 = if a < i { a } else { a + 1 };
            assert(after[a] == before[a0]);
            lemma_place(before, a0);
        }
        assert(entries_view(after) =~= entries_view(before).remove(key));
    }
    Some(entry.slots)
}

/// Puts the slots of a message in that is not there.
fn put_slots(
    entries: &mut Vec<PartialSms>,
    phone_number: String,
    reference: u16,
    slots: Vec<Option<Part>>,
)
    requires
        distinct(old(entries)@),
        !entries_view(old(entries)@).contains_key((phone_number@, reference)),
    ensures
        distinct(final(entries)@),
        entries_view(final(entries)@) == entries_view(old(entries)@).insert(
            (phone_number@, reference),
            slots_view(slots@),
        ),
{
    let ghost before = entries@;
    let ghost key = (phone_number@, reference);
    let ghost entry = PartialSms { phone_number, reference, slots };
    entries.push(PartialSms { phone_number, reference, slots });
    proof {
        let after = entries@;
        assert(after == before.push(entry));
        assert forall|a: int, b: int| 0 <= a < b < after.len() implies (#[trigger] after[a]).key()
            != (#[trigger] after[b]).key() by {
            assert(after[a] == before[a]);
            if b == before.len() {
                assert(!has_key(before, key));
                assert(before[a].key() != key);
            } else {
                assert(after[b] == before[b]);
            }
        }
        assert forall|k: (Seq<char>, u16)| has_key(after, k) <==> has_key(before, k) || k == key by {
            if has_key(before, k) {
                let i = place(before, k);
                assert(after[i].key() == k);
            }
            if k == key {
                assert(after[before.len() as int].key() == k);
            }
            if has_key(after, k) {
                let i = place(after, k);
                if i < before.len() {
                    assert(before[i].key() == k);
                }
            }
        }
        assert forall|k: (Seq<char>, u16)| has_key(after, k) && k != key implies after[place(
            after,
            k,
        )] == before[place(before, k)] by {
            let a = place(after, k);
            assert(a < before.len());
            assert(after[a] == before[a]);
            lemma_place(before, a);
        }
        lemma_place(after, before.len() as int);
        assert(entries_view(after) =~= entries_view(before).insert(key, slots_view(slots@)));
    }
}

fn blank(total: usize) -> (v: Vec<Option<Part>>)
    ensures
        slots_view(v@) == blank_slots(total as nat),
{
    let mut v: Vec<Option<Part>> = Vec::new();
    let mut i: usize = 0;
    while i < total
        invariant
            i <= total,
            v@.len() == i,
            forall|j: int| 0 <= j < i ==> (#[trigger] v@[j]) is None,
        decreases total - i,
    {
        v.push(None);
        i += 1;
    }
    assert(slots_view(v@) =~= blank_slots(total as nat));
    v
}

fn all_there(slots: &Vec<Option<Part>>) -> (r: bool)
    ensures
        r == is_full(slots_view(slots@)),
{
    let mut i: usize = 0;
    while i < slots.len()
        invariant
            i <= slots@.len(),
            forall|j: int| 0 <= j < i ==> (#[trigger] slots@[j]) is Some,
        decreases slots@.len() - i,
    {
        if slots[i].is_none() {
            assert(slots_view(slots@)[i as int] is None);
            return false;
        }
        i += 1;
    }
    assert forall|j: int| 0 <= j < slots_view(slots@).len() implies (#[trigger] slots_view(
        slots@,
    )[j]) is Some by {
        assert(slots@[j] is Some);
    }
    true
}

/// The contents and the markers of the parts, each joined.
fn join_parts(slots: &Vec<Option<Part>>) -> (r: (String, String))
    requires
        is_full(slots_view(slots@)),
    ensures
        r.0@ == joined_contents(slots_view(slots@)),
        r.1@ == joined_markers(slots_view(slots@)),
{
    let mut content = String::new();
    let mut markers = String::new();
    let ghost model = slots_view(slots@);
    let mut i: usize = 0;
    assert(model.take(0) =~= Seq::empty());
    while i < slots.len()
        invariant
            i <= slots@.len(),
            model == slots_view(slots@),
            is_full(model),
            content@ == joined_contents(model.take(i as int)),
            markers@ == joined_markers(model.take(i as int)),
        decreases slots@.len() - i,
    {
        assert(model.take(i + 1).drop_last() =~= model.take(i as int));
        assert(model.take(i + 1).last() == model[i as int]);
        assert(model[i as int] is Some);
        if let Some(part) = &slots[i] {
            content.append(&part.content);
            markers.append(&part.marker);
        }
        i += 1;
    }
    assert(model.take(i as int) =~= model);
    (content, markers)
}

/// The messages of which not all parts have come in yet.
#[derive(Debug)]
pub struct SmsAssembler {
    entries: Vec<PartialSms>,
}

impl View for SmsAssembler {
    type V = PartialsModel;

    closed spec fn view(&self) -> PartialsModel {
        entries_view(self.entries@)
    }
}

impl SmsAssembler {
    #[verifier::type_invariant]
    spec fn well_formed(self) -> bool {
        distinct(self.entries@)
    }

    /// No part has come in.
    pub fn new() -> (a: SmsAssembler)
        ensures
            a@ == PartialsModel::empty(),
    {
        let a = SmsAssembler { entries: Vec::new() };
        assert(a@ =~= Map::empty());
        a
    }

    /// Takes a message or a part in and gives the message that is then complete.
    pub fn absorb(&mut self, sms: IncomingImsSms) -> (r: Option<IncomingImsSms>)
        ensures
            final(self)@ == absorb(old(self)@, sms@).0,
            match r {
                Some(message) => absorb(old(self)@, sms@).1 == Some(message@),
                None => absorb(old(self)@, sms@).1 is None,
            },
    {
        let concat = match sms.concat {
            Some(concat) => concat,
            None => {
                return Some(sms);
            },
        };
        if concat.total == 0 || concat.sequence == 0 || concat.sequence > concat.total {
            return None;
        }
        proof {
            use_type_invariant(&*self);
        }
        let mut entries: Vec<PartialSms> = Vec::new();
        std::mem::swap(&mut entries, &mut self.entries);
        let ghost partials = old(self)@;
        let ghost model = sms@;
        let ghost key = (sms.phone_number@, concat.reference);
        let total = concat.total as usize;
        let mut slots = match take_slots(&mut entries, &sms.phone_number, concat.reference) {
            Some(found) => {
                if found.len() == total {
                    found
                } else {
                    blank(total)
                }
            },
            None => blank(total),
        };
        assert(slots_view(slots@) == slots_for(partials, key, total as nat));
        let ghost before = slots@;
        slots.set(
            concat.sequence as usize - 1,
            Some(Part { content: sms.content, marker: sms.marker }),
        );
        assert(slots_view(slots@) =~= placed(partials, model, concat));
        if all_there(&slots) {
            self.entries = entries;
            let (content, markers) = join_parts(&slots);
            Some(
                IncomingImsSms {
                    phone_number: sms.phone_number,
                    content,
                    marker: message_marker(&markers),
                    concat: None,
                },
            )
        } else {
            put_slots(&mut entries, sms.phone_number, concat.reference, slots);
            self.entries = entries;
            assert(partials.remove(key).insert(key, placed(partials, model, concat))
                =~= partials.insert(key, placed(partials, model, concat)));
            None
        }
    }
}

// ---------------------------------------------------------------------------------------------
// Packets
// ---------------------------------------------------------------------------------------------
/// The first line of a packet asks to deliver a message.
pub open spec fn is_message_request(packet: Seq<u8>) -> bool {
    match ims_sms::find_bytes(packet, ims_sms::crlf(), 0) {
        Some(end) => vstd::utf8::valid_utf8(packet.take(end)) && "MESSAGE "@.is_prefix_of(
            vstd::utf8::decode_utf8(packet.take(end)),
        ),
        None => false,
    }
}

/// The headers announce a 3GPP short message.
pub open spec fn announces_sms(headers: Map<Seq<char>, Seq<char>>) -> bool {
    headers.contains_key("content-type"@) && text::occurs_in(
        "application/vnd.3gpp.sms"@,
        text::lowercase(headers["content-type"@]),
    )
}

/// The headers and the body of a packet that carries a short message.
pub open spec fn carried_sms(packet: Seq<u8>) -> Option<(Map<Seq<char>, Seq<char>>, Seq<u8>)> {
    match ims_sms::sip_message(packet) {
        Ok((headers, body)) => if is_message_request(packet) && announces_sms(headers) {
            Some((headers, body))
        } else {
            None
        },
        Err(_) => None,
    }
}

/// The packet that acknowledges the short message in a body, where it can be acknowledged.
pub open spec fn acknowledgement(
    headers: Map<Seq<char>, Seq<char>>,
    local: Seq<u16>,
    port: nat,
    body: Seq<u8>,
) -> Option<Seq<u8>> {
    match ims_sms::rp_ack(ims_sms::body_hex(body)) {
        Ok(ack) => match ims_sms::ack_message(headers, local, port, ack) {
            Ok(packet) => Some(packet),
            Err(_) => None,
        },
        Err(_) => None,
    }
}

/// The short message in a body, where it can be decoded.
pub open spec fn sms_in(body: Seq<u8>) -> Option<SmsModel> {
    match ims_sms::rp_deliver(ims_sms::body_hex(body)) {
        Ok((phone_number, content, concat)) => Some(
            SmsModel {
                phone_number,
                content,
                marker: ims_sms::marker_of(ims_sms::body_hex(body)),
                concat,
            },
        ),
        Err(_) => None,
    }
}

/// What a packet that carries a short message leads to: the response to it, the packet that
/// acknowledges it and the message that is complete with it.
#[derive(Debug)]
pub struct Reception {
    pub response: String,
    pub acknowledgement: Option<Vec<u8>>,
    pub message: Option<IncomingImsSms>,
}

impl Reception {
    /// What is sent and delivered for the short message with the given headers and body.
    pub open spec fn answers(
        self,
        headers: Map<Seq<char>, Seq<char>>,
        local: Seq<u16>,
        port: nat,
        body: Seq<u8>,
        partials: PartialsModel,
    ) -> bool {
        &&& self.response@ == ims_sms::ok_response(headers)
        &&& match self.acknowledgement {
            Some(packet) => acknowledgement(headers, local, port, body) == Some(packet@),
            None => acknowledgement(headers, local, port, body) is None,
        }
        &&& match self.message {
            Some(message) => sms_in(body) is Some && absorb(partials, sms_in(body)->0).1 == Some(
                message@,
            ),
            None => sms_in(body) is None || absorb(partials, sms_in(body)->0).1 is None,
        }
    }
}

/// What becomes of the parts kept so far when a body comes in.
pub open spec fn partials_after(partials: PartialsModel, body: Seq<u8>) -> PartialsModel {
    match sms_in(body) {
        Some(sms) => absorb(partials, sms).0,
        None => partials,
    }
}

fn requests_message(packet: &[u8]) -> (r: bool)
    ensures
        r == is_message_request(packet@),
{
    match find_crlf(packet) {
        None => false,
        Some(end) => {
            let line = slice_subrange(packet, 0, end);
            assert(line@ =~= packet@.take(end as int));
            match utf8_text(line) {
                Err(_) => false,
                Ok(first) => {
                    let chars = chars_of(first);
                    starts_with(&chars, "MESSAGE ")
                },
            }
        },
    }
}

fn sms_announced(headers: &SipHeaders) -> (r: bool)
    ensures
        r == announces_sms(headers@),
{
    match headers.get("content-type") {
        None => false,
        Some(value) => {
            let chars = to_lowercase(&chars_of(value));
            contains(&chars, "application/vnd.3gpp.sms")
        },
    }
}

/// The headers and the body of a packet that carries a short message.
pub fn sms_carried(packet: &[u8]) -> (r: Option<(SipHeaders, Vec<u8>)>)
    ensures
        match r {
            Some((headers, body)) => carried_sms(packet@) == Some((headers@, body@)),
            None => carried_sms(packet@) is None,
        },
{
    match parse_sip_message(packet) {
        Ok((headers, body)) => if requests_message(packet) && sms_announced(&headers) {
            Some((headers, body))
        } else {
            None
        },
        Err(_) => None,
    }
}

fn acknowledge(headers: &SipHeaders, local: Ipv6Addr, port: u16, body: &[u8]) -> (r: Option<Vec<u8>>)
    ensures
        match r {
            Some(packet) => acknowledgement(headers@, local@, port as nat, body@) == Some(packet@),
            None => acknowledgement(headers@, local@, port as nat, body@) is None,
        },
{
    match build_rp_ack(body) {
        Ok(ack) => match build_rp_ack_message(headers, local, port, &ack) {
            Ok(packet) => Some(packet),
            Err(_) => None,
        },
        Err(_) => None,
    }
}

impl SmsAssembler {
    /// Takes a packet in that came to the given address and port. A packet that carries no short
    /// message leads to nothing.
    pub fn receive(&mut self, packet: &[u8], local: Ipv6Addr, receive_port: u16) -> (r: Option<
        Reception,
    >)
        ensures
            match carried_sms(packet@) {
                None => r is None && final(self)@ == old(self)@,
                Some((headers, body)) => {
                    &&& r is Some
                    &&& (r->0).answers(headers, local@, receive_port as nat, body, old(self)@)
                    &&& final(self)@ == partials_after(old(self)@, body)
                },
            },
    {
        let (headers, body) = match sms_carried(packet) {
            Some(found) => found,
            None => {
                return None;
            },
        };
        let response = sip_ok_response(&headers);
        let acknowledgement = acknowledge(&headers, local, receive_port, &body);
        let message = match decode_ims_sms_body(&body) {
            Ok(sms) => {
                assert(sms_in(body@) == Some(sms@));
                self.absorb(sms)
            },
            Err(_) => None,
        };
        Some(Reception { response, acknowledgement, message })
    }
}

// ---------------------------------------------------------------------------------------------
// Records
// ---------------------------------------------------------------------------------------------
/// What is recorded of a short message that came in.
#[derive(Debug, Clone, PartialEq, Eq)]
pub struct SmsRecord {
    pub direction: String,
    pub phone_number: String,
    pub content: String,
    pub status: String,
    pub transport: String,
    pub pdu: Option<String>,
}

impl SmsRecord {
    /// The record holds the message.
    pub open spec fn holds(self, sms: SmsModel) -> bool {
        &&& self.direction@ == "incoming"@
        &&& self.phone_number@ == sms.phone_number
        &&& self.content@ == sms.content
        &&& self.status@ == "received"@
        &&& self.transport@ == "volte_ims"@
        &&& self.pdu is Some
        &&& (self.pdu->0)@ == sms.marker
    }
}

/// The record of a message, unless its marker is on record already.
pub fn record_of(sms: IncomingImsSms, marker_recorded: bool) -> (r: Option<SmsRecord>)
    ensures
        r is None <==> marker_recorded,
        r is Some ==> (r->0).holds(sms@),
{
    if marker_recorded {
        return None;
    }
    Some(
        SmsRecord {
            direction: "incoming".to_owned(),
            phone_number: sms.phone_number,
            content: sms.content,
            status: "received".to_owned(),
            transport: "volte_ims".to_owned(),
            pdu: Some(sms.marker),
        },
    )
}

// ---------------------------------------------------------------------------------------------
// Laws
// ---------------------------------------------------------------------------------------------
/// No complete message is kept: none is there with all its parts after a message or a part has
/// come in, if there was none before.
pub proof fn law_no_complete_message_kept(partials: PartialsModel, sms: SmsModel)
    requires
        forall|key: (Seq<char>, u16)| #[trigger]
            partials.contains_key(key) ==> !is_full(partials[key]),
    ensures
        forall|key: (Seq<char>, u16)| #[trigger]
            absorb(partials, sms).0.contains_key(key) ==> !is_full(absorb(partials, sms).0[key]),
{
}

/// The parts of one message leave those of every other message alone.
pub proof fn law_other_messages_untouched(
    partials: PartialsModel,
    sms: SmsModel,
    key: (Seq<char>, u16),
)
    requires
        sms.concat is Some ==> key != (sms.phone_number, (sms.concat->0).reference),
    ensures
        absorb(partials, sms).0.contains_key(key) == partials.contains_key(key),
        partials.contains_key(key) ==> absorb(partials, sms).0[key] == partials[key],
{
}

/// A part that comes in again before its message is complete changes nothing.
pub proof fn law_repeated_part(partials: PartialsModel, sms: SmsModel)
    requires
        sms.concat is Some,
        absorb(partials, sms).1 is None,
    ensures
        absorb(absorb(partials, sms).0, sms) == absorb(partials, sms),
{
    let c = sms.concat->0;
    if is_placeable(c) {
        let once = placed(partials, sms, c);
        let key = (sms.phone_number, c.reference);
        assert(partials.insert(key, once).contains_key(key));
        assert(once.len() == c.total);
        assert(placed(absorb(partials, sms).0, sms, c) =~= once);
        assert(partials.insert(key, once).insert(key, once) =~= partials.insert(key, once));
    }
}

/// The part of a message with the given index.
pub open spec fn part_sms(
    phone_number: Seq<char>,
    reference: u16,
    parts: Seq<PartModel>,
    index: int,
) -> SmsModel {
    SmsModel {
        phone_number,
        content: parts[index].0,
        marker: parts[index].1,
        concat: Some(
            ConcatInfo { reference, total: parts.len() as u8, sequence: (index + 1) as u8 },
        ),
    }
}

/// What is kept and what is complete after the parts of a message have come in, in the given
/// order.
pub open spec fn absorb_parts(
    partials: PartialsModel,
    phone_number: Seq<char>,
    reference: u16,
    parts: Seq<PartModel>,
    order: Seq<int>,
) -> (PartialsModel, Option<SmsModel>)
    decreases order.len(),
{
    if order.len() == 0 {
        (partials, None)
    } else {
        absorb(
            absorb_parts(partials, phone_number, reference, parts, order.drop_last()).0,
            part_sms(phone_number, reference, parts, order.last()),
        )
    }
}

/// The parts of which the indices have come in.
spec fn slots_seen(parts: Seq<PartModel>, order: Seq<int>) -> SlotsModel {
    Seq::new(
        parts.len(),
        |i: int| slot_seen(parts, order, i),
    )
}

spec fn slot_seen(parts: Seq<PartModel>, order: Seq<int>, i: int) -> Option<PartModel> {
    if order.contains(i) {
        Some(parts[i])
    } else {
        None
    }
}

proof fn lemma_some_part_missing(n: nat, order: Seq<int>)
    requires
        order.len() < n,
    ensures
        exists|i: int| 0 <= i < n && !#[trigger] order.contains(i),
{
    if forall|i: int| 0 <= i < n ==> #[trigger] order.contains(i) {
        let all = vstd::set_lib::set_int_range(0, n as int);
        vstd::set_lib::lemma_int_range(0, n as int);
        order.lemma_cardinality_of_set();
        assert(all.subset_of(order.to_set()));
        vstd::set_lib::lemma_len_subset(all, order.to_set());
    }
}

proof fn lemma_no_part_missing(n: nat, order: Seq<int>)
    requires
        order.len() == n,
        order.no_duplicates(),
        forall|j: int| 0 <= j < n ==> 0 <= #[trigger] order[j] < n,
    ensures
        forall|i: int| 0 <= i < n ==> #[trigger] order.contains(i),
{
    let all = vstd::set_lib::set_int_range(0, n as int);
    vstd::set_lib::lemma_int_range(0, n as int);
    order.unique_seq_to_set();
    assert(order.to_set().subset_of(all));
    vstd::set_lib::lemma_subset_equality(order.to_set(), all);
    assert forall|i: int| 0 <= i < n implies #[trigger] order.contains(i) by {
        assert(all.contains(i));
        assert(order.to_set().contains(i));
    }
}

proof fn lemma_parts_seen(
    partials: PartialsModel,
    phone_number: Seq<char>,
    reference: u16,
    parts: Seq<PartModel>,
    order: Seq<int>,
)
    requires
        !partials.contains_key((phone_number, reference)),
        1 <= parts.len() <= 255,
        order.len() < parts.len(),
        forall|j: int| 0 <= j < order.len() ==> 0 <= #[trigger] order[j] < parts.len(),
    ensures
        absorb_parts(partials, phone_number, reference, parts, order) == (
            if order.len() == 0 {
                partials
            } else {
                partials.insert((phone_number, reference), slots_seen(parts, order))
            },
            None::<SmsModel>,
        ),
    decreases order.len(),
{
    if order.len() > 0 {
        let key = (phone_number, reference);
        let before = order.drop_last();
        assert forall|j: int| 0 <= j < before.len() implies 0 <= #[trigger] before[j]
            < parts.len() by {
            assert(before[j] == order[j]);
        }
        lemma_parts_seen(partials, phone_number, reference, parts, before);
        let kept = absorb_parts(partials, phone_number, reference, parts, before).0;
        let sms = part_sms(phone_number, reference, parts, order.last());
        let c = sms.concat->0;
        assert(0 <= order[order.len() - 1] < parts.len());
        lemma_placed_seen(partials, phone_number, reference, parts, order);
        lemma_some_part_missing(parts.len(), order);
        let i = choose|i: int| 0 <= i < parts.len() && !#[trigger] order.contains(i);
        assert(slots_seen(parts, order)[i] is None);
        assert(!is_full(slots_seen(parts, order)));
        assert(kept.insert(key, slots_seen(parts, order)) =~= partials.insert(
            key,
            slots_seen(parts, order),
        ));
    }
}

proof fn lemma_placed_seen(
    partials: PartialsModel,
    phone_number: Seq<char>,
    reference: u16,
    parts: Seq<PartModel>,
    order: Seq<int>,
)
    requires
        !partials.contains_key((phone_number, reference)),
        1 <= parts.len() <= 255,
        0 < order.len(),
        0 <= order.last() < parts.len(),
    ensures
        placed(
            if order.len() == 1 {
                partials
            } else {
                partials.insert((phone_number, reference), slots_seen(parts, order.drop_last()))
            },
            part_sms(phone_number, reference, parts, order.last()),
            part_sms(phone_number, reference, parts, order.last()).concat->0,
        ) == slots_seen(parts, order),
{
    let before = order.drop_last();
    let last = order.last();
    let kept = if order.len() == 1 {
        partials
    } else {
        partials.insert((phone_number, reference), slots_seen(parts, before))
    };
    let sms = part_sms(phone_number, reference, parts, last);
    let c = sms.concat->0;
    let n = parts.len();
    assert(c.total == n && c.sequence == last + 1);
    let found = slots_for(kept, (phone_number, reference), n);
    assert(found =~= slots_seen(parts, before)) by {
        if order.len() == 1 {
            assert forall|i: int| 0 <= i < n implies slots_seen(parts, before)[i] is None by {
                assert(!before.contains(i));
            }
            assert(found =~= blank_slots(n));
        } else {
            assert(kept[(phone_number, reference)].len() == n);
        }
    }
    assert forall|i: int| 0 <= i < n implies found.update(last, Some(parts[last]))[i]
        == slots_seen(parts, order)[i] by {
        if i == last {
            assert(order[order.len() - 1] == i);
            assert(order.contains(i));
        } else if before.contains(i) {
            let j = choose|j: int| 0 <= j < before.len() && before[j] == i;
            assert(order[j] == i);
            assert(order.contains(i));
        } else if order.contains(i) {
            let j = choose|j: int| 0 <= j < order.len() && order[j] == i;
            assert(before[j] == i);
        }
    }
    assert(found.update(last, Some(parts[last])) =~= slots_seen(parts, order));
}

/// The order in which the parts of a message come in does not matter: the message is complete
/// with the last of them, it is the parts in the order of their numbers, and nothing of it is
/// kept.
pub proof fn law_order_of_parts(
    partials: PartialsModel,
    phone_number: Seq<char>,
    reference: u16,
    parts: Seq<PartModel>,
    order: Seq<int>,
)
    requires
        !partials.contains_key((phone_number, reference)),
        1 <= parts.len() <= 255,
        order.len() == parts.len(),
        order.no_duplicates(),
        forall|j: int| 0 <= j < order.len() ==> 0 <= #[trigger] order[j] < parts.len(),
    ensures
        absorb_parts(partials, phone_number, reference, parts, order) == (
            partials,
            Some(assembled(phone_number, parts.map_values(|p: PartModel| Some(p)))),
        ),
        forall|k: int|
            0 <= k < order.len() ==> (#[trigger] absorb_parts(
                partials,
                phone_number,
                reference,
                parts,
                order.take(k),
            )).1 is None,
{
    let key = (phone_number, reference);
    let before = order.drop_last();
    assert forall|j: int| 0 <= j < before.len() implies 0 <= #[trigger] before[j] < parts.len() by {
        assert(before[j] == order[j]);
    }
    lemma_parts_seen(partials, phone_number, reference, parts, before);
    assert(0 <= order[order.len() - 1] < parts.len());
    lemma_placed_seen(partials, phone_number, reference, parts, order);
    lemma_no_part_missing(parts.len(), order);
    let all = parts.map_values(|p: PartModel| Some(p));
    assert forall|i: int| 0 <= i < parts.len() implies slots_seen(parts, order)[i] == all[i] by {
        assert(order.contains(i));
    }
    assert(slots_seen(parts, order) =~= all);
    assert(is_full(all));
    let kept = absorb_parts(partials, phone_number, reference, parts, before).0;
    assert(kept.remove(key) =~= partials);
    assert forall|k: int| 0 <= k < order.len() implies (#[trigger] absorb_parts(
        partials,
        phone_number,
        reference,
        parts,
        order.take(k),
    )).1 is None by {
        let some = order.take(k);
        assert forall|j: int| 0 <= j < some.len() implies 0 <= #[trigger] some[j] < parts.len() by {
            assert(some[j] == order[j]);
        }
        lemma_parts_seen(partials, phone_number, reference, parts, some);
    }
}

/// The marker is on record.
pub open spec fn marker_recorded(records: Seq<SmsModel>, marker: Seq<char>) -> bool {
    exists|i: int| 0 <= i < records.len() && (#[trigger] records[i]).marker == marker
}

/// What is on record after a message has come in.
pub open spec fn recorded(records: Seq<SmsModel>, sms: SmsModel) -> Seq<SmsModel> {
    if marker_recorded(records, sms.marker) {
        records
    } else {
        records.push(sms)
    }
}

/// No marker is on record twice.
pub open spec fn distinct_markers(records: Seq<SmsModel>) -> bool {
    forall|i: int, j: int|
        0 <= i < j < records.len() ==> (#[trigger] records[i]).marker != (
        #[trigger] records[j]).marker
}

/// A message that comes in again is not recorded again, and no marker is ever on record twice.
pub proof fn law_recorded_once(records: Seq<SmsModel>, sms: SmsModel, again: SmsModel)
    requires
        distinct_markers(records),
        again.marker == sms.marker,
    ensures
        distinct_markers(recorded(records, sms)),
        recorded(recorded(records, sms), again) == recorded(records, sms),
        marker_recorded(recorded(records, sms), sms.marker),
{
    if !marker_recorded(records, sms.marker) {
        let after = records.push(sms);
        assert(after[records.len() as int].marker == sms.marker);
        assert forall|i: int, j: int| 0 <= i < j < after.len() implies (#[trigger] after[i]).marker
            != (#[trigger] after[j]).marker by {
            assert(after[i] == records[i]);
            if j < records.len() {
                assert(after[j] == records[j]);
            }
        }
    }
}

} // verus!
