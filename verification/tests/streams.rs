//! Streams between a guest and the host, and what a command shows of an answer.

use sloper_extension::command::{api_answer, api_target};
use sloper_extension::json::Json;
use sloper_extension::limits::Intake;
use sloper_extension::streams::{
    checked_read, consume_item, produce, Polled, Progress, Reserved, STREAM_CHUNK_BYTES,
};
use sloper_extension::tool::Error;

/// Every other read waits; the others are short.
struct AlternatingReader {
    remaining: usize,
    polls: usize,
}

impl AlternatingReader {
    fn read(&mut self, room: usize, buffer: &mut Vec<u8>) -> Polled {
        assert!(room <= STREAM_CHUNK_BYTES);
        self.polls += 1;
        if self.polls % 2 == 1 {
            return Polled::Pending;
        }
        let length = room.min(self.remaining).min(4093);
        buffer.extend(vec![b'x'; length]);
        self.remaining -= length;
        Polled::Ready(length)
    }
}

#[test]
fn source_producer_streams_short_reads_pending_and_eof_without_staging() {
    for size in [0, 7, STREAM_CHUNK_BYTES * 2 + 7] {
        let mut reader = AlternatingReader { remaining: size, polls: 0 };
        let mut intake = Intake::new(size as u64);
        let mut output = Vec::new();
        loop {
            let mut passing = Vec::new();
            match produce(STREAM_CHUNK_BYTES * 3, false, |room| reader.read(room, &mut passing)) {
                Progress::Pending => assert!(passing.is_empty()),
                Progress::Completed => {
                    let consumed = intake.consume(passing.len(), false, || {
                        output.extend_from_slice(&passing);
                        Polled::Ready(passing.len())
                    });
                    assert_eq!(consumed, Progress::Completed);
                },
                progress => {
                    assert_eq!(progress, Progress::Dropped);
                    break;
                },
            }
        }
        assert_eq!(output, vec![b'x'; size]);
        assert!(!intake.failed && !intake.exceeded);
        assert_eq!(intake.written, size as u64);
        assert!(reader.polls >= 2);
    }
}

#[test]
fn item_consumer_preserves_order_past_channel_capacity_and_empty_streams() {
    for count in [0, 1, 65] {
        let expected = (0..count).map(|index: i32| index.to_string()).collect::<Vec<_>>();
        let mut items = expected.iter().cloned();
        let mut channel: Vec<String> = Vec::new();
        let mut output = Vec::new();
        loop {
            let reserved = if channel.len() < 2 { Reserved::Granted } else { Reserved::Pending };
            let step = consume_item(reserved, false, || Ok(items.next()));
            match step.progress {
                Progress::Pending => output.push(channel.remove(0)),
                progress => {
                    assert_eq!(progress, Progress::Completed);
                    assert_eq!(step.aborted, step.sent.is_none());
                    match step.sent {
                        Some(item) => channel.push(item),
                        None => break,
                    }
                },
            }
        }
        output.append(&mut channel);
        assert_eq!(output, expected);
    }
}

#[test]
fn a_full_buffer_is_not_read_into() {
    assert_eq!(produce(0, false, |_| unreachable!()), Progress::Completed);
}

#[test]
fn a_lent_source_breaks_on_a_failed_read_and_yields_to_cancellation() {
    assert_eq!(produce(8, false, |_| Polled::Failed), Progress::Failed);
    assert_eq!(produce(8, true, |_| Polled::Pending), Progress::Cancelled);
    assert_eq!(produce(8, false, |_| Polled::Pending), Progress::Pending);
    assert_eq!(produce(8, true, |room| Polled::Ready(room)), Progress::Completed);
}

#[test]
fn an_intake_refuses_excess_before_writing_and_stays_failed() {
    let mut intake = Intake::new(10);
    assert_eq!(intake.consume(8, false, || Polled::Ready(5)), Progress::Completed);
    assert_eq!(intake.written, 5);
    assert_eq!(intake.consume(6, false, || unreachable!()), Progress::Dropped);
    assert!(intake.exceeded && intake.failed);
    assert_eq!(intake.consume(5, false, || Polled::Ready(5)), Progress::Completed);
    assert!(intake.exceeded && intake.failed);
    assert_eq!(intake.written, 10);
}

#[test]
fn an_intake_fails_with_its_writer_and_with_a_cancelled_write() {
    let mut broken = Intake::new(10);
    assert_eq!(broken.consume(1, false, || Polled::Failed), Progress::Failed);
    assert!(broken.failed && !broken.exceeded);
    let mut waiting = Intake::new(10);
    assert_eq!(waiting.consume(1, false, || Polled::Pending), Progress::Pending);
    assert!(!waiting.failed);
    assert_eq!(waiting.consume(1, true, || Polled::Pending), Progress::Cancelled);
    assert!(waiting.failed && !waiting.exceeded);
}

#[test]
fn items_give_their_place_back_unless_they_take_it() {
    let closed = consume_item(Reserved::Closed, false, || unreachable!());
    assert_eq!((closed.progress, closed.aborted), (Progress::Dropped, false));
    let cancelled = consume_item(Reserved::Pending, true, || unreachable!());
    assert_eq!((cancelled.progress, cancelled.aborted), (Progress::Cancelled, true));
    let waiting = consume_item(Reserved::Pending, false, || unreachable!());
    assert_eq!((waiting.progress, waiting.aborted), (Progress::Pending, false));
    let failed = consume_item(Reserved::Granted, false, || Err(()));
    assert_eq!((failed.progress, failed.aborted), (Progress::Failed, true));
    assert!(failed.sent.is_none());
}

#[test]
fn a_failed_stream_is_never_read_as_complete() {
    assert_eq!(checked_read(true, || unreachable!()), Polled::Failed);
    assert_eq!(checked_read(false, || (Polled::Ready(0), true)), Polled::Failed);
    assert_eq!(checked_read(false, || (Polled::Ready(3), false)), Polled::Ready(3));
    assert_eq!(checked_read(false, || (Polled::Pending, false)), Polled::Pending);
}

fn message(report: &Json) -> &str {
    match report.get_text("message") {
        Some(message) => message,
        None => panic!("a report has a message"),
    }
}

#[test]
fn requests_need_a_bearer_and_an_absolute_web_address() {
    let target = api_target(Some("token"), "https://api.example.com/base//").unwrap();
    assert_eq!(target.origin, "https://api.example.com");
    assert_eq!(target.base, "https://api.example.com/base/api/v1");
    for (token, url, words) in [
        (None, "https://api.example.com", "SLOPER_API_TOKEN must contain the publishing bearer"),
        (Some(""), "https://api.example.com", "publishing token must be a nonempty, bounded HTTP bearer"),
        (Some("to\nken"), "https://api.example.com", "publishing token must be a nonempty, bounded HTTP bearer"),
        (Some("token"), "ftp://api.example.com", "API URL must be an absolute HTTP or HTTPS URL"),
        (Some("token"), "api.example.com", "API URL must be an absolute HTTP or HTTPS URL"),
    ] {
        let report = api_target(token, url).err().unwrap();
        assert_eq!(message(&report), words);
        assert_eq!(report.get_text("code"), Some("USAGE"));
    }
}

#[test]
fn answers_are_shown_as_their_media_type_says() {
    let shown = api_answer(Some("Application/JSON ; charset=utf-8"), || Ok(Some(Json::Bool(true))), || unreachable!());
    assert!(matches!(shown, Ok(Json::Bool(true))));
    let empty = api_answer(Some("application/json"), || Ok(None), || unreachable!());
    assert!(matches!(empty, Ok(Json::Null)));
    let text = api_answer(Some("text/plain"), || unreachable!(), || Ok(Some("signed".to_owned())));
    assert!(matches!(text, Ok(Json::Text(text)) if text == "signed"));
    let absent = api_answer(None, || unreachable!(), || Ok(None));
    assert!(matches!(absent, Ok(Json::Null)));
    let failed = api_answer(Some("application/json"), || Err(Error::Json), || unreachable!());
    assert_eq!(message(&failed.err().unwrap()), Error::Json.message());
}
