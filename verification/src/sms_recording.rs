//! How a short message that came in is recorded: the database is asked whether it is there
//! already, and only a new message is inserted and passed on.
use vstd::prelude::*;
use crate::ims_sms::IncomingImsSms;
use crate::sms_reception;
use crate::sms_reception::{record_of, SmsModel, SmsRecord};

verus! {

/// A short message as it is stored and passed on.
#[derive(Debug, Clone, PartialEq, Eq)]
pub struct SmsMessage {
    pub id: i64,
    pub direction: String,
    pub phone_number: String,
    pub content: String,
    pub timestamp: String,
    pub status: String,
    pub pdu: Option<String>,
}

/// What is done next with a message.
#[derive(Debug, PartialEq, Eq)]
pub enum RecordTask {
    /// Ask whether the marker of the message is on record.
    Ask(IncomingImsSms),
    /// Read the clock for the record.
    ReadClock(SmsRecord),
    /// Insert the record, with its time.
    Insert(SmsRecord, String),
    /// Pass the message on.
    Notify(SmsMessage),
    /// The message is dealt with.
    Finished,
    /// The database has failed.
    Stopped(String),
}

/// What came of a task.
#[derive(Debug, PartialEq, Eq)]
pub enum RecordEvent {
    /// Whether the marker is on record.
    Known(bool),
    /// The time.
    Time(String),
    /// The record was inserted and has this identifier.
    Inserted(i64),
    /// The message was passed on, or could not be.
    Notified,
    /// The database has failed.
    Failed(String),
}

/// The message that is passed on for a record.
pub open spec fn message_of(record: SmsRecord, timestamp: String, id: i64) -> SmsMessage {
    SmsMessage {
        id,
        direction: record.direction,
        phone_number: record.phone_number,
        content: record.content,
        timestamp,
        status: record.status,
        pdu: record.pdu,
    }
}

/// The event leads from the task to the next one. An event that does not belong to the task
/// changes nothing.
pub open spec fn is_record_step(task: RecordTask, event: RecordEvent, next: RecordTask) -> bool {
    match (task, event) {
        (RecordTask::Ask(sms), RecordEvent::Known(known)) => if known {
            next is Finished
        } else {
            next is ReadClock && (next->ReadClock_0).holds(sms@)
        },
        (RecordTask::Ask(_), RecordEvent::Failed(reason)) => next == RecordTask::Stopped(reason),
        (RecordTask::ReadClock(record), RecordEvent::Time(timestamp)) => next
            == RecordTask::Insert(record, timestamp),
        (RecordTask::Insert(record, timestamp), RecordEvent::Inserted(id)) => next
            == RecordTask::Notify(message_of(record, timestamp, id)),
        (RecordTask::Insert(_, _), RecordEvent::Failed(reason)) => next == RecordTask::Stopped(
            reason,
        ),
        (RecordTask::Notify(_), RecordEvent::Notified) => next is Finished,
        (_, _) => next == task,
    }
}

/// The task that follows.
pub fn next_record_task(task: RecordTask, event: RecordEvent) -> (next: RecordTask)
    ensures
        is_record_step(task, event, next),
{
    match (task, event) {
        (RecordTask::Ask(sms), RecordEvent::Known(known)) => match record_of(sms, known) {
            Some(record) => RecordTask::ReadClock(record),
            None => RecordTask::Finished,
        },
        (RecordTask::Ask(_), RecordEvent::Failed(reason)) => RecordTask::Stopped(reason),
        (RecordTask::ReadClock(record), RecordEvent::Time(timestamp)) => RecordTask::Insert(
            record,
            timestamp,
        ),
        (RecordTask::Insert(record, timestamp), RecordEvent::Inserted(id)) => RecordTask::Notify(
            SmsMessage {
                id,
                direction: record.direction,
                phone_number: record.phone_number,
                content: record.content,
                timestamp,
                status: record.status,
                pdu: record.pdu,
            },
        ),
        (RecordTask::Insert(_, _), RecordEvent::Failed(reason)) => RecordTask::Stopped(reason),
        (RecordTask::Notify(_), RecordEvent::Notified) => RecordTask::Finished,
        (task, _) => task,
    }
}

// ---------------------------------------------------------------------------------------------
// Laws
// ---------------------------------------------------------------------------------------------
/// The tasks and the events of the recording of a message, from the question on.
pub open spec fn is_recording(
    sms: IncomingImsSms,
    tasks: Seq<RecordTask>,
    events: Seq<RecordEvent>,
) -> bool {
    &&& tasks.len() == events.len() + 1
    &&& tasks[0] == RecordTask::Ask(sms)
    &&& forall|i: int| 0 <= i < events.len() ==> #[trigger] has_step(tasks, events, i)
}

/// The `i`-th event leads from the `i`-th task to the one after it.
pub open spec fn has_step(tasks: Seq<RecordTask>, events: Seq<RecordEvent>, i: int) -> bool {
    is_record_step(tasks[i], events[i], tasks[i + 1])
}

/// Something can have come of the task as the event says.
pub open spec fn belongs(task: RecordTask, event: RecordEvent) -> bool {
    match task {
        RecordTask::Ask(_) => event is Known || event is Failed,
        RecordTask::ReadClock(_) => event is Time,
        RecordTask::Insert(_, _) => event is Inserted || event is Failed,
        RecordTask::Notify(_) => event is Notified,
        RecordTask::Finished => true,
        RecordTask::Stopped(_) => true,
    }
}

/// Every event is what came of its task.
pub open spec fn all_belong(tasks: Seq<RecordTask>, events: Seq<RecordEvent>) -> bool {
    forall|i: int| 0 <= i < events.len() ==> belongs(tasks[i], #[trigger] events[i])
}

/// How many of the first `n` tasks insert a record.
pub open spec fn insertions(tasks: Seq<RecordTask>, n: nat) -> nat
    decreases n,
{
    if n == 0 {
        0
    } else {
        insertions(tasks, (n - 1) as nat) + if tasks[n - 1] is Insert {
            1nat
        } else {
            0nat
        }
    }
}

/// How many of the first `n` tasks pass the message on.
pub open spec fn notifications(tasks: Seq<RecordTask>, n: nat) -> nat
    decreases n,
{
    if n == 0 {
        0
    } else {
        notifications(tasks, (n - 1) as nat) + if tasks[n - 1] is Notify {
            1nat
        } else {
            0nat
        }
    }
}

/// Nothing is inserted before the database was asked for the marker of this message and has
/// answered that it is not on record, and what is inserted is the record of this message.
pub proof fn law_asked_before_insertion(
    sms: IncomingImsSms,
    tasks: Seq<RecordTask>,
    events: Seq<RecordEvent>,
    k: int,
)
    requires
        is_recording(sms, tasks, events),
        0 <= k < tasks.len(),
        tasks[k] is Insert || tasks[k] is ReadClock,
    ensures
        exists|i: int|
            0 <= i < k && (#[trigger] tasks[i]) == RecordTask::Ask(sms) && events[i]
                == RecordEvent::Known(false),
        tasks[k] is Insert ==> (tasks[k]->Insert_0).holds(sms@),
        tasks[k] is ReadClock ==> (tasks[k]->ReadClock_0).holds(sms@),
    decreases k,
{
    assert(has_step(tasks, events, k - 1));
    if tasks[k - 1] is Ask {
        lemma_asked(sms, tasks, events, k - 1);
        assert(tasks[k - 1] == RecordTask::Ask(sms) && events[k - 1] == RecordEvent::Known(false));
    } else {
        law_asked_before_insertion(sms, tasks, events, k - 1);
    }
}

/// The question is about the message.
proof fn lemma_asked(
    sms: IncomingImsSms,
    tasks: Seq<RecordTask>,
    events: Seq<RecordEvent>,
    k: int,
)
    requires
        is_recording(sms, tasks, events),
        0 <= k < tasks.len(),
        tasks[k] is Ask,
    ensures
        tasks[k] == RecordTask::Ask(sms),
    decreases k,
{
    if k > 0 {
        assert(has_step(tasks, events, k - 1));
        lemma_asked(sms, tasks, events, k - 1);
    }
}

/// Nothing is passed on before its record was inserted: the message tells of the record that was
/// inserted, with its time and the identifier that it was given.
pub proof fn law_inserted_before_notification(
    sms: IncomingImsSms,
    tasks: Seq<RecordTask>,
    events: Seq<RecordEvent>,
    k: int,
)
    requires
        is_recording(sms, tasks, events),
        0 <= k < tasks.len(),
        tasks[k] is Notify,
    ensures
        exists|i: int|
            {
                &&& 0 <= i < k
                &&& (#[trigger] tasks[i]) is Insert
                &&& events[i] is Inserted
                &&& (tasks[i]->Insert_0).holds(sms@)
                &&& tasks[k]->Notify_0 == message_of(
                    tasks[i]->Insert_0,
                    tasks[i]->Insert_1,
                    events[i]->Inserted_0,
                )
            },
    decreases k,
{
    assert(has_step(tasks, events, k - 1));
    if tasks[k - 1] is Notify {
        law_inserted_before_notification(sms, tasks, events, k - 1);
    } else {
        law_asked_before_insertion(sms, tasks, events, k - 1);
        assert(tasks[k - 1] is Insert && events[k - 1] is Inserted);
    }
}

/// A record is inserted at most once and the message passed on at most once, and not without the
/// insertion.
pub proof fn law_at_most_once(
    sms: IncomingImsSms,
    tasks: Seq<RecordTask>,
    events: Seq<RecordEvent>,
)
    requires
        is_recording(sms, tasks, events),
        all_belong(tasks, events),
    ensures
        insertions(tasks, events.len()) <= 1,
        notifications(tasks, events.len()) <= insertions(tasks, events.len()),
{
    lemma_counted(sms, tasks, events, events.len());
}

proof fn lemma_counted(
    sms: IncomingImsSms,
    tasks: Seq<RecordTask>,
    events: Seq<RecordEvent>,
    n: nat,
)
    requires
        is_recording(sms, tasks, events),
        all_belong(tasks, events),
        n <= events.len(),
    ensures
        insertions(tasks, n) <= 1,
        notifications(tasks, n) <= insertions(tasks, n),
        tasks[n as int] is Ask ==> n == 0,
        tasks[n as int] is ReadClock || tasks[n as int] is Insert ==> insertions(tasks, n) == 0,
        tasks[n as int] is Notify ==> insertions(tasks, n) == 1 && notifications(tasks, n) == 0,
    decreases n,
{
    if n > 0 {
        lemma_counted(sms, tasks, events, (n - 1) as nat);
        assert(has_step(tasks, events, n - 1));
        assert(belongs(tasks[n - 1], events[n - 1]));
        if n == 1 {
            assert(insertions(tasks, 0) == 0 && notifications(tasks, 0) == 0);
        }
    }
}

/// A message of which the marker is on record is left alone: nothing is inserted and nothing is
/// passed on.
pub proof fn law_known_message_left_alone(
    sms: IncomingImsSms,
    tasks: Seq<RecordTask>,
    events: Seq<RecordEvent>,
)
    requires
        is_recording(sms, tasks, events),
        events.len() > 0,
        events[0] == RecordEvent::Known(true),
    ensures
        forall|k: int| 1 <= k < tasks.len() ==> (#[trigger] tasks[k]) is Finished,
        insertions(tasks, events.len()) == 0,
        notifications(tasks, events.len()) == 0,
{
    assert(has_step(tasks, events, 0));
    lemma_finished_for_good(tasks, events, 1);
    lemma_none_counted(tasks, 0, events.len());
    assert(insertions(tasks, 0) == 0 && notifications(tasks, 0) == 0);
}

/// A message of which the marker is not on record is inserted once and then passed on once, if
/// the database does not fail.
pub proof fn law_new_message_recorded(
    sms: IncomingImsSms,
    tasks: Seq<RecordTask>,
    events: Seq<RecordEvent>,
)
    requires
        is_recording(sms, tasks, events),
        all_belong(tasks, events),
        events.len() >= 4,
        events[0] == RecordEvent::Known(false),
        !(events[2] is Failed),
    ensures
        tasks[0] == RecordTask::Ask(sms),
        tasks[1] is ReadClock,
        tasks[2] is Insert && (tasks[2]->Insert_0).holds(sms@),
        tasks[3] == RecordTask::Notify(
            message_of(tasks[2]->Insert_0, tasks[2]->Insert_1, events[2]->Inserted_0),
        ),
        forall|k: int| 4 <= k < tasks.len() ==> (#[trigger] tasks[k]) is Finished,
        insertions(tasks, events.len()) == 1,
        notifications(tasks, events.len()) == 1,
{
    assert(has_step(tasks, events, 0));
    assert(has_step(tasks, events, 1) && belongs(tasks[1], events[1]));
    assert(has_step(tasks, events, 2) && belongs(tasks[2], events[2]));
    assert(has_step(tasks, events, 3) && belongs(tasks[3], events[3]));
    lemma_finished_for_good(tasks, events, 4);
    lemma_none_counted(tasks, 4, events.len());
    reveal_with_fuel(insertions, 5);
    reveal_with_fuel(notifications, 5);
}

/// What is finished stays so.
proof fn lemma_finished_for_good(tasks: Seq<RecordTask>, events: Seq<RecordEvent>, from: int)
    requires
        tasks.len() == events.len() + 1,
        0 <= from < tasks.len(),
        tasks[from] is Finished,
        forall|i: int| 0 <= i < events.len() ==> #[trigger] has_step(tasks, events, i),
    ensures
        forall|k: int| from <= k < tasks.len() ==> (#[trigger] tasks[k]) is Finished,
    decreases tasks.len() - from,
{
    if from + 1 < tasks.len() {
        assert(has_step(tasks, events, from));
        lemma_finished_for_good(tasks, events, from + 1);
    }
}

/// Tasks that neither insert nor pass on are not counted.
proof fn lemma_none_counted(tasks: Seq<RecordTask>, from: nat, n: nat)
    requires
        from <= n <= tasks.len(),
        forall|k: int|
            from <= k < n ==> !((#[trigger] tasks[k]) is Insert) && !(tasks[k] is Notify),
    ensures
        insertions(tasks, n) == insertions(tasks, from),
        notifications(tasks, n) == notifications(tasks, from),
    decreases n,
{
    if from < n {
        lemma_none_counted(tasks, from, (n - 1) as nat);
        assert(!(tasks[n - 1] is Insert));
    }
}

/// If the database answers as its records are and does not fail, the message adds to them what
/// it has to add, one record or none, and it is passed on exactly if it adds one.
pub proof fn law_insertion_by_marker(
    records: Seq<SmsModel>,
    sms: IncomingImsSms,
    tasks: Seq<RecordTask>,
    events: Seq<RecordEvent>,
)
    requires
        is_recording(sms, tasks, events),
        all_belong(tasks, events),
        events.len() > 0,
        events[0] == RecordEvent::Known(sms_reception::marker_recorded(records, sms@.marker)),
        !sms_reception::marker_recorded(records, sms@.marker) ==> events.len() >= 4 && !(
        events[2] is Failed),
    ensures
        sms_reception::recorded(records, sms@).len() == records.len() + insertions(
            tasks,
            events.len(),
        ),
        notifications(tasks, events.len()) == insertions(tasks, events.len()),
{
    if sms_reception::marker_recorded(records, sms@.marker) {
        law_known_message_left_alone(sms, tasks, events);
    } else {
        law_new_message_recorded(sms, tasks, events);
    }
}

} // verus!
