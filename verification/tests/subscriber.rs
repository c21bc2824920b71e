use pub_sub_learning::frame::frame;
use pub_sub_learning::message::{Checksum, EmptyContentPolicy, Message};
use pub_sub_learning::publisher::{ContentSource, Publisher};
use pub_sub_learning::subscriber::{
    keep_records, Fault, Phase, ReadOutcome, ReadPlan, Subscriber, Verdict,
    DEFAULT_POLL_INTERVAL_MS, MIN_POLL_INTERVAL_MS,
};

fn encode(message: &Message) -> Vec<u8> {
    let (content, check_sum, created_at) = message.clone().into_parts();
    let mut record = serde_json::Map::new();
    record.insert("content".to_string(), serde_json::Value::String(content));
    record.insert(
        "checksum".to_string(),
        match check_sum {
            Some(text) => serde_json::Value::String(text),
            None => serde_json::Value::Null,
        },
    );
    record.insert("created_at".to_string(), serde_json::Value::String(created_at));
    serde_json::to_vec(&serde_json::Value::Object(record)).unwrap()
}

fn decode(record: &[u8]) -> Message {
    let value: serde_json::Value = serde_json::from_slice(record).unwrap();
    let content = value["content"].as_str().unwrap().to_string();
    let check_sum = value["checksum"].as_str().map(|text| text.to_string());
    let created_at = value["created_at"].as_str().unwrap().to_string();
    Message::from_parts(content, check_sum, created_at)
}

#[test]
fn the_poll_interval_is_300_milliseconds() {
    assert_eq!(DEFAULT_POLL_INTERVAL_MS, 300);
    assert_eq!(Subscriber::new(DEFAULT_POLL_INTERVAL_MS).poll_interval_ms(), 300);
}

#[test]
fn a_waiting_subscriber_never_spins() {
    assert_eq!(MIN_POLL_INTERVAL_MS, 1);
    let mut subscriber = Subscriber::new(0);
    assert_eq!(subscriber.poll_interval_ms(), 1);
    assert_eq!(subscriber.on_read(ReadOutcome::WouldBlock), ReadPlan::Sleep { millis: 1 });
    assert_eq!(subscriber.on_read(ReadOutcome::Data(Vec::new())), ReadPlan::Sleep { millis: 1 });
    assert_eq!(Subscriber::new(1).poll_interval_ms(), 1);
    assert_eq!(Subscriber::new(u64::MAX).poll_interval_ms(), u64::MAX);
}

#[test]
fn a_subscriber_without_a_publisher_keeps_waiting() {
    let mut subscriber = Subscriber::new(300);
    assert_eq!(subscriber.phase(), Phase::AwaitingData);
    for _ in 0..50 {
        assert_eq!(subscriber.on_read(ReadOutcome::Data(Vec::new())), ReadPlan::Sleep { millis: 300 });
        assert_eq!(subscriber.phase(), Phase::AwaitingData);
        assert_eq!(subscriber.on_read(ReadOutcome::WouldBlock), ReadPlan::Sleep { millis: 300 });
        assert_eq!(subscriber.phase(), Phase::AwaitingData);
    }
    assert_eq!(subscriber.forwarded(), 0);
    assert_eq!(subscriber.rejected(), 0);
}

#[test]
fn the_first_byte_starts_the_stream() {
    let mut subscriber = Subscriber::new(300);
    assert_eq!(subscriber.on_read(ReadOutcome::WouldBlock), ReadPlan::Sleep { millis: 300 });
    assert_eq!(
        subscriber.on_read(ReadOutcome::Data(b"{".to_vec())),
        ReadPlan::Handle { records: Vec::new() }
    );
    assert_eq!(subscriber.phase(), Phase::Streaming);
    assert_eq!(
        subscriber.on_read(ReadOutcome::Data(b"}\n".to_vec())),
        ReadPlan::Handle { records: vec![b"{}".to_vec()] }
    );
}

#[test]
fn a_failed_read_before_any_data_is_fatal() {
    let mut subscriber = Subscriber::new(300);
    assert_eq!(subscriber.on_read(ReadOutcome::Failed), ReadPlan::Abort);
    assert_eq!(subscriber.phase(), Phase::Error(Fault::ChannelRead));
    assert_eq!(subscriber.on_read(ReadOutcome::Data(b"late\n".to_vec())), ReadPlan::Abort);
    assert_eq!(subscriber.on_read(ReadOutcome::WouldBlock), ReadPlan::Abort);
    assert_eq!(subscriber.phase(), Phase::Error(Fault::ChannelRead));
}

#[test]
fn would_block_in_mid_stream_means_sleep_and_retry() {
    let mut subscriber = Subscriber::new(125);
    assert_eq!(
        subscriber.on_read(ReadOutcome::Data(b"par".to_vec())),
        ReadPlan::Handle { records: Vec::new() }
    );
    assert_eq!(subscriber.on_read(ReadOutcome::WouldBlock), ReadPlan::Sleep { millis: 125 });
    assert_eq!(subscriber.phase(), Phase::Streaming);
    assert_eq!(
        subscriber.on_read(ReadOutcome::Data(b"tial\n".to_vec())),
        ReadPlan::Handle { records: vec![b"partial".to_vec()] }
    );
}

#[test]
fn empty_lines_are_skipped() {
    let mut subscriber = Subscriber::new(300);
    assert_eq!(
        subscriber.on_read(ReadOutcome::Data(b"\n\r\n\na\n\n".to_vec())),
        ReadPlan::Handle { records: vec![b"a".to_vec()] }
    );
    assert_eq!(
        subscriber.on_read(ReadOutcome::Data(b"\n".to_vec())),
        ReadPlan::Handle { records: Vec::new() }
    );
    assert_eq!(subscriber.phase(), Phase::Streaming);
    assert_eq!(subscriber.forwarded(), 0);
    assert_eq!(subscriber.rejected(), 0);
}

#[test]
fn keep_records_drops_empty_lines_only() {
    assert_eq!(
        keep_records(vec![Vec::new(), b"a".to_vec(), Vec::new(), b" ".to_vec(), b"b".to_vec()]),
        vec![b"a".to_vec(), b" ".to_vec(), b"b".to_vec()]
    );
    assert_eq!(keep_records(Vec::new()), Vec::<Vec<u8>>::new());
    assert_eq!(keep_records(vec![Vec::new(), Vec::new()]), Vec::<Vec<u8>>::new());
}

#[test]
fn end_of_stream_hands_out_the_open_line_and_stops() {
    let mut subscriber = Subscriber::new(300);
    assert_eq!(
        subscriber.on_read(ReadOutcome::Data(b"a\nlast".to_vec())),
        ReadPlan::Handle { records: vec![b"a".to_vec()] }
    );
    assert_eq!(
        subscriber.on_read(ReadOutcome::Data(Vec::new())),
        ReadPlan::Finish { records: vec![b"last".to_vec()] }
    );
    assert_eq!(subscriber.phase(), Phase::Terminated);
    assert_eq!(
        subscriber.on_read(ReadOutcome::Data(b"more\n".to_vec())),
        ReadPlan::Finish { records: Vec::new() }
    );
    assert_eq!(subscriber.phase(), Phase::Terminated);
}

#[test]
fn end_of_stream_after_a_complete_line_hands_out_nothing() {
    let mut subscriber = Subscriber::new(300);
    assert_eq!(
        subscriber.on_read(ReadOutcome::Data(b"a\n".to_vec())),
        ReadPlan::Handle { records: vec![b"a".to_vec()] }
    );
    assert_eq!(
        subscriber.on_read(ReadOutcome::Data(Vec::new())),
        ReadPlan::Finish { records: Vec::new() }
    );
    assert_eq!(subscriber.phase(), Phase::Terminated);
}

#[test]
fn a_failed_read_in_mid_stream_ends_the_subscription() {
    let mut subscriber = Subscriber::new(300);
    assert_eq!(
        subscriber.on_read(ReadOutcome::Data(b"a\nopen".to_vec())),
        ReadPlan::Handle { records: vec![b"a".to_vec()] }
    );
    assert_eq!(subscriber.on_read(ReadOutcome::Failed), ReadPlan::Finish { records: Vec::new() });
    assert_eq!(subscriber.phase(), Phase::Terminated);
}

#[test]
fn records_do_not_depend_on_how_reads_divide_the_stream() {
    let records: Vec<Vec<u8>> =
        vec![b"{\"n\":1}".to_vec(), b"second record".to_vec(), b"3".to_vec()];
    let mut stream: Vec<u8> = Vec::new();
    for record in &records {
        stream.extend(frame(record).unwrap());
        stream.extend(b"\n");
    }

    for size in 1..=stream.len() {
        let mut subscriber = Subscriber::new(300);
        let mut handed_out: Vec<Vec<u8>> = Vec::new();
        for piece in stream.chunks(size) {
            assert_eq!(subscriber.on_read(ReadOutcome::WouldBlock), ReadPlan::Sleep { millis: 300 });
            match subscriber.on_read(ReadOutcome::Data(piece.to_vec())) {
                ReadPlan::Handle { records } => handed_out.extend(records),
                other => panic!("unexpected plan {:?}", other),
            }
        }
        assert_eq!(handed_out, records);
        assert_eq!(
            subscriber.on_read(ReadOutcome::Data(Vec::new())),
            ReadPlan::Finish { records: Vec::new() }
        );
    }
}

#[test]
fn a_valid_message_is_forwarded_unchanged() {
    let mut subscriber = Subscriber::new(300);
    let message = Message::new("Hello World".to_string());
    assert_eq!(subscriber.on_message(message.clone()), Verdict::Forward(message));
    assert_eq!(subscriber.forwarded(), 1);
    assert_eq!(subscriber.rejected(), 0);
}

#[test]
fn an_altered_checksum_is_rejected() {
    let mut subscriber = Subscriber::new(300);
    let mut message = Message::new("Hello World".to_string());
    message.check_sum = Checksum::Checksummed("b10a8db164e0754105b7a99be72e3fe6".to_string());
    assert!(!message.validate());
    assert_eq!(subscriber.on_message(message), Verdict::Discard);
    assert_eq!(subscriber.forwarded(), 0);
    assert_eq!(subscriber.rejected(), 1);
    assert_eq!(subscriber.phase(), Phase::AwaitingData);
}

#[test]
fn a_message_without_a_checksum_is_rejected() {
    let mut subscriber = Subscriber::new(300);
    let draft = Message::create(String::new(), EmptyContentPolicy::LeaveUnchecksummed);
    assert_eq!(subscriber.on_message(draft), Verdict::Discard);
    assert_eq!(subscriber.rejected(), 1);
}

#[test]
fn a_rejected_message_does_not_stop_the_stream() {
    let mut subscriber = Subscriber::new(300);
    let good = Message::new("good".to_string());
    let mut bad = Message::new("bad".to_string());
    bad.content = "worse".to_string();

    let mut stream = frame(&encode(&bad)).unwrap();
    stream.extend(frame(&encode(&good)).unwrap());
    let plan = subscriber.on_read(ReadOutcome::Data(stream));
    let records = match plan {
        ReadPlan::Handle { records } => records,
        other => panic!("unexpected plan {:?}", other),
    };
    assert_eq!(records.len(), 2);
    assert_eq!(subscriber.on_message(decode(&records[0])), Verdict::Discard);
    assert_eq!(subscriber.phase(), Phase::Streaming);
    assert_eq!(subscriber.on_message(decode(&records[1])), Verdict::Forward(good));
    assert_eq!(subscriber.forwarded(), 1);
    assert_eq!(subscriber.rejected(), 1);
}

#[test]
fn a_malformed_frame_is_fatal() {
    let mut subscriber = Subscriber::new(300);
    assert_eq!(
        subscriber.on_read(ReadOutcome::Data(b"not json\n".to_vec())),
        ReadPlan::Handle { records: vec![b"not json".to_vec()] }
    );
    subscriber.on_fault(Fault::MalformedFrame);
    assert_eq!(subscriber.phase(), Phase::Error(Fault::MalformedFrame));
    assert_eq!(subscriber.on_read(ReadOutcome::Data(b"{}\n".to_vec())), ReadPlan::Abort);
}

#[test]
fn the_first_fault_is_kept() {
    let mut subscriber = Subscriber::new(300);
    subscriber.on_fault(Fault::SinkWrite);
    assert_eq!(subscriber.phase(), Phase::Error(Fault::SinkWrite));
    subscriber.on_fault(Fault::MalformedFrame);
    assert_eq!(subscriber.phase(), Phase::Error(Fault::SinkWrite));
}

#[test]
fn hello_world_travels_from_publisher_to_sink() {
    let publisher = Publisher::new(ContentSource::Lines, EmptyContentPolicy::DigestEmpty, Some(1));
    let sent = publisher.envelope_for_line("Hello World\n");
    let wire = frame(&encode(&sent)).unwrap();

    let mut subscriber = Subscriber::new(300);
    assert_eq!(subscriber.on_read(ReadOutcome::WouldBlock), ReadPlan::Sleep { millis: 300 });
    let (head, tail) = wire.split_at(wire.len() / 2);
    assert_eq!(
        subscriber.on_read(ReadOutcome::Data(head.to_vec())),
        ReadPlan::Handle { records: Vec::new() }
    );
    let records = match subscriber.on_read(ReadOutcome::Data(tail.to_vec())) {
        ReadPlan::Handle { records } => records,
        other => panic!("unexpected plan {:?}", other),
    };
    assert_eq!(records.len(), 1);

    let received = decode(&records[0]);
    assert_eq!(
        received.check_sum,
        Checksum::Checksummed("b10a8db164e0754105b7a99be72e3fe5".to_string())
    );
    let forwarded = match subscriber.on_message(received) {
        Verdict::Forward(message) => message,
        Verdict::Discard => panic!("a valid message was discarded"),
    };
    assert_eq!(forwarded, sent);

    let output_string = String::from_utf8(frame(&encode(&forwarded)).unwrap()).unwrap();
    assert!(output_string.contains("Hello World"));
    assert!(output_string.contains("b10a8db164e0754105b7a99be72e3fe5"));
    assert!(output_string.ends_with('\n'));
}

#[test]
fn a_frame_with_an_altered_checksum_never_reaches_the_sink() {
    let sent = Message::new("Hello World".to_string());
    let mut tampered = sent.clone();
    tampered.check_sum = Checksum::Checksummed("00000000000000000000000000000000".to_string());
    let wire = frame(&encode(&tampered)).unwrap();

    let mut subscriber = Subscriber::new(300);
    let records = match subscriber.on_read(ReadOutcome::Data(wire)) {
        ReadPlan::Handle { records } => records,
        other => panic!("unexpected plan {:?}", other),
    };
    assert_eq!(records.len(), 1);
    assert_eq!(subscriber.on_message(decode(&records[0])), Verdict::Discard);
    assert_eq!(subscriber.forwarded(), 0);
    assert_eq!(subscriber.rejected(), 1);
    assert_eq!(subscriber.phase(), Phase::Streaming);
}
