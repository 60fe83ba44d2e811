//! Laws of the reception of short messages as a whole: what a packet leads to and what is recorded.
use vstd::prelude::*;
use crate::error::ImsError;
use crate::ims_sms;
use crate::ims_sms::IncomingImsSms;
use crate::sms_reception;
use crate::sms_reception::{PartialsModel, Reception, SmsModel, SmsRecord};
use crate::sms_recording;
use crate::sms_recording::{RecordEvent, RecordTask};

verus! {

/// Every short message is responded to, whatever is in its body. It is acknowledged exactly if its
/// body can be, whether or not its text can be read and whether or not the message is complete.
pub proof fn law_always_answered(
    reception: Reception,
    headers: Map<Seq<char>, Seq<char>>,
    local: Seq<u16>,
    port: nat,
    body: Seq<u8>,
    partials: PartialsModel,
)
    requires
        reception.answers(headers, local, port, body, partials),
    ensures
        ({
            let ack = ims_sms::rp_ack(ims_sms::body_hex(body));
            let packet = ims_sms::ack_message(headers, local, port, ack->Ok_0);
            &&& reception.response@ == ims_sms::ok_response(headers)
            &&& reception.acknowledgement is Some <==> ack is Ok && packet is Ok
            &&& reception.acknowledgement is Some ==> (reception.acknowledgement->0)@
                == packet->Ok_0
        }),
{
}

/// A message in one part is passed on at once, and the parts kept so far stay; so they do when
/// there is nothing in the body that can be read, and then nothing is passed on.
pub proof fn law_passed_on(
    reception: Reception,
    headers: Map<Seq<char>, Seq<char>>,
    local: Seq<u16>,
    port: nat,
    body: Seq<u8>,
    partials: PartialsModel,
    sms: SmsModel,
)
    requires
        reception.answers(headers, local, port, body, partials),
    ensures
        sms_reception::sms_in(body) == Some(sms) && sms.concat is None ==> reception.message is Some
            && (reception.message->0)@ == sms && sms_reception::partials_after(partials, body)
            == partials,
        sms_reception::sms_in(body) is None ==> reception.message is None
            && sms_reception::partials_after(partials, body) == partials,
{
}

/// A part of a message is kept until the others are there, and the whole message is passed on with
/// the last of them; both come from the same step.
pub proof fn law_parts_kept(
    reception: Reception,
    headers: Map<Seq<char>, Seq<char>>,
    local: Seq<u16>,
    port: nat,
    body: Seq<u8>,
    partials: PartialsModel,
    sms: SmsModel,
)
    requires
        reception.answers(headers, local, port, body, partials),
        sms_reception::sms_in(body) == Some(sms),
    ensures
        ({
            let (kept, message) = sms_reception::absorb(partials, sms);
            &&& sms_reception::partials_after(partials, body) == kept
            &&& reception.message is Some <==> message is Some
            &&& message is Some ==> (reception.message->0)@ == message->0
        }),
{
}

/// What is decoded from a body and what the reception finds in it is the same message.
pub proof fn law_decoded_as_received(r: Result<IncomingImsSms, ImsError>, body: Seq<u8>)
    requires
        ims_sms::is_decoded(r, ims_sms::body_hex(body)),
    ensures
        r is Ok <==> sms_reception::sms_in(body) is Some,
        r is Ok ==> sms_reception::sms_in(body) == Some(r->Ok_0@),
        r is Err ==> ims_sms::rp_deliver(ims_sms::body_hex(body)) == Err::<ims_sms::Deliver, ImsError>(
            r->Err_0,
        ),
        r is Ok ==> r->Ok_0.marker@ == ims_sms::marker_of(ims_sms::body_hex(body)),
{
}

/// The record of a message says that it came in over IMS, from whom and with which text, and has
/// its marker.
pub proof fn law_record_of_message(record: SmsRecord, sms: SmsModel)
    requires
        record.holds(sms),
    ensures
        record.direction@ == "incoming"@,
        record.status@ == "received"@,
        record.transport@ == "volte_ims"@,
        record.phone_number@ == sms.phone_number,
        record.content@ == sms.content,
        record.pdu is Some,
        (record.pdu->0)@ == sms.marker,
{
}

/// What is passed on for a message that is new: its sender, its text, the time that was read and
/// the number that the database gave. This is so for each run of the recording.
pub proof fn law_message_passed_on(
    sms: IncomingImsSms,
    asked: RecordTask,
    timed: RecordTask,
    told: RecordTask,
    timestamp: String,
    id: i64,
)
    requires
        sms_recording::is_record_step(RecordTask::Ask(sms), RecordEvent::Known(false), asked),
        sms_recording::is_record_step(asked, RecordEvent::Time(timestamp), timed),
        sms_recording::is_record_step(timed, RecordEvent::Inserted(id), told),
    ensures
        timed is Insert,
        timed->Insert_1 == timestamp,
        told is Notify,
        ({
            let message = told->Notify_0;
            &&& message.id == id
            &&& message.timestamp == timestamp
            &&& message.phone_number@ == sms.phone_number@
            &&& message.content@ == sms.content@
            &&& message.direction@ == "incoming"@
            &&& message.status@ == "received"@
            &&& message.pdu is Some
            &&& (message.pdu->0)@ == sms.marker@
        }),
{
}

/// A database that fails stops the recording, with its reason.
pub proof fn law_database_fails(
    sms: IncomingImsSms,
    record: SmsRecord,
    timestamp: String,
    reason: String,
    next: RecordTask,
)
    ensures
        sms_recording::is_record_step(RecordTask::Ask(sms), RecordEvent::Failed(reason), next)
            ==> next == RecordTask::Stopped(reason),
        sms_recording::is_record_step(
            RecordTask::Insert(record, timestamp),
            RecordEvent::Failed(reason),
            next,
        ) ==> next == RecordTask::Stopped(reason),
{
}

/// A message with a new marker comes after the others on record; nothing else changes.
pub proof fn law_added_at_the_end(records: Seq<SmsModel>, sms: SmsModel)
    ensures
        (forall|i: int| 0 <= i < records.len() ==> (#[trigger] records[i]).marker != sms.marker)
            ==> sms_reception::recorded(records, sms) == records.push(sms),
        (exists|i: int| 0 <= i < records.len() && (#[trigger] records[i]).marker == sms.marker)
            ==> sms_reception::recorded(records, sms) == records,
{
}

/// An event that does not belong to the task leaves it to be done, and what is finished or stopped
/// stays so.
pub proof fn law_other_events_ignored(task: RecordTask, event: RecordEvent, next: RecordTask)
    requires
        !sms_recording::belongs(task, event) || task is Finished || task is Stopped,
    ensures
        sms_recording::is_record_step(task, event, next) <==> next == task,
{
}

} // verus!
