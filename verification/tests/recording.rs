use simadmin_ims::ims_sms::IncomingImsSms;
use simadmin_ims::sms_reception::record_of;
use simadmin_ims::sms_recording::{next_record_task, RecordEvent, RecordTask, SmsMessage};

fn sms() -> IncomingImsSms {
    IncomingImsSms {
        phone_number: "+1".to_string(),
        content: "hello".to_string(),
        marker: "volte-mt:1".to_string(),
        concat: None,
    }
}

/// A database that knows some markers and writes down what is asked of it.
fn drive(known: &[&str], insertion_fails: bool) -> (Vec<String>, RecordTask) {
    let mut calls = Vec::new();
    let mut task = RecordTask::Ask(sms());
    loop {
        let event = match &task {
            RecordTask::Ask(sms) => {
                calls.push(format!("exists {}", sms.marker));
                RecordEvent::Known(known.contains(&sms.marker.as_str()))
            }
            RecordTask::ReadClock(_) => RecordEvent::Time("noon".to_string()),
            RecordTask::Insert(record, timestamp) => {
                calls.push(format!("insert {} {timestamp}", record.content));
                if insertion_fails {
                    RecordEvent::Failed("disk full".to_string())
                } else {
                    RecordEvent::Inserted(7)
                }
            }
            RecordTask::Notify(message) => {
                calls.push(format!("forward {}", message.id));
                RecordEvent::Notified
            }
            RecordTask::Finished | RecordTask::Stopped(_) => return (calls, task),
        };
        task = next_record_task(task, event);
    }
}

#[test]
fn asks_then_inserts_then_forwards_a_new_message() {
    let (calls, end) = drive(&["volte-mt:2"], false);
    assert_eq!(
        calls,
        vec!["exists volte-mt:1", "insert hello noon", "forward 7"]
    );
    assert_eq!(end, RecordTask::Finished);
}

#[test]
fn leaves_a_known_message_alone() {
    let (calls, end) = drive(&["volte-mt:1"], false);
    assert_eq!(calls, vec!["exists volte-mt:1"]);
    assert_eq!(end, RecordTask::Finished);
}

#[test]
fn forwards_nothing_that_was_not_inserted() {
    let (calls, end) = drive(&[], true);
    assert_eq!(calls, vec!["exists volte-mt:1", "insert hello noon"]);
    assert_eq!(end, RecordTask::Stopped("disk full".to_string()));
}

#[test]
fn stops_when_the_question_fails() {
    assert_eq!(
        next_record_task(
            RecordTask::Ask(sms()),
            RecordEvent::Failed("locked".to_string())
        ),
        RecordTask::Stopped("locked".to_string())
    );
}

#[test]
fn forwards_what_was_recorded() {
    let record = record_of(sms(), false).unwrap();
    assert_eq!(
        next_record_task(
            RecordTask::Insert(record, "noon".to_string()),
            RecordEvent::Inserted(-3)
        ),
        RecordTask::Notify(SmsMessage {
            id: -3,
            direction: "incoming".to_string(),
            phone_number: "+1".to_string(),
            content: "hello".to_string(),
            timestamp: "noon".to_string(),
            status: "received".to_string(),
            pdu: Some("volte-mt:1".to_string()),
        })
    );
}

#[test]
fn ignores_an_event_of_another_task() {
    assert_eq!(
        next_record_task(RecordTask::Ask(sms()), RecordEvent::Inserted(1)),
        RecordTask::Ask(sms())
    );
    assert_eq!(
        next_record_task(RecordTask::Finished, RecordEvent::Known(false)),
        RecordTask::Finished
    );
}
