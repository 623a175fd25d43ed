use nanobot_obp::json::Json;
use nanobot_obp::stream;
use nanobot_obp::stream::{ProbeEvent, StreamProbe};

#[test]
fn choices_with_output_are_told() {
    let speaks = |text: &str| stream::choice_has_output(&Json::parse_text(text).unwrap());
    assert!(speaks(r#"{"delta": {"content": "x"}}"#));
    assert!(!speaks(r#"{"delta": {"content": ""}}"#));
    assert!(speaks(r#"{"delta": {"tool_calls": [1]}}"#));
    assert!(!speaks(r#"{"delta": {"tool_calls": []}}"#));
    assert!(speaks(r#"{"message": {"content": "x"}}"#));
    assert!(!speaks(r#"{"message": {"content": 5}}"#));
    assert!(!speaks("null"));
}

#[test]
fn events_are_told_by_their_data() {
    assert!(!stream::sse_data_has_output(""));
    assert!(!stream::sse_data_has_output("[DONE]"));
    assert!(stream::sse_data_has_output(
        r#"{"choices": [{"delta": {}}, {"delta": {"content": "x"}}]}"#
    ));
    assert!(!stream::sse_data_has_output(r#"{"choices": []}"#));
    assert!(!stream::sse_data_has_output(r#"{"content": "x"}"#));
    assert!(stream::sse_data_has_output(r#"{"content": "#));
    assert!(stream::sse_data_has_output(r#"{"tool_calls": "#));
    assert!(!stream::sse_data_has_output("not json"));
}

#[test]
fn lines_are_cut_out_of_chunks() {
    let mut buffer = String::new();
    assert!(!stream::sse_chunk_has_output(&mut buffer, b"data: {\"choices\": [{\"delta\""));
    assert_eq!(buffer, "data: {\"choices\": [{\"delta\"");
    assert!(stream::sse_chunk_has_output(
        &mut buffer,
        b": {\"content\": \"hi\"}}]}\r\ndata: [DO"
    ));
    assert_eq!(buffer, "data: [DO");
    assert!(!stream::sse_chunk_has_output(&mut buffer, b"NE]\n\n"));
    assert_eq!(buffer, "");
    assert!(!stream::sse_chunk_has_output(&mut buffer, b": ping\nevent: x\n"));
}

#[test]
fn parts_of_a_stream_do_not_matter() {
    let text = "data: {\"choices\": [{\"delta\": {\"content\": \"x\"}}]}\nrest";
    let mut whole = String::new();
    assert!(stream::sse_text_has_output(&mut whole, text));
    for cut in 0..text.len() {
        let mut parts = String::new();
        let first = stream::sse_text_has_output(&mut parts, &text[..cut]);
        let second = stream::sse_text_has_output(&mut parts, &text[cut..]);
        assert!(first || second);
        assert_eq!(parts, whole);
    }
}

#[test]
fn bytes_that_are_no_text_are_marked() {
    assert_eq!(stream::text_of_bytes(b"plain"), "plain");
    assert_eq!(stream::text_of_bytes("渠道".as_bytes()), "渠道");
    assert_eq!(stream::text_of_bytes(&[0x61, 0xff, 0x62]), "a\u{fffd}b");
}

#[test]
fn numbers_are_read_as_std_reads_them() {
    for text in [
        "0", "7", "+7", "007", "18446744073709551615", "18446744073709551616", "", "+", "-1", "1 ",
        "0x10", "१", "99999999999999999999999",
    ] {
        assert_eq!(stream::parse_u64(text), text.parse::<u64>().ok(), "{text}");
    }
}

#[test]
fn waits_are_configured() {
    assert_eq!(stream::first_text_timeout(None), 9_000);
    assert_eq!(stream::first_text_timeout(Some(" 250 ")), 250);
    assert_eq!(stream::first_text_timeout(Some("0")), 1);
    assert_eq!(stream::first_text_timeout(Some("soon")), 9_000);
    assert_eq!(stream::configured_ms(Some("12"), 3), 12);
    assert_eq!(stream::elapsed_ms(1_999_999), 1);
    assert_eq!(stream::elapsed_ms(u128::MAX), u64::MAX);
}

const OUTPUT: &[u8] = b"data: {\"choices\": [{\"delta\": {\"content\": \"x\"}}]}\n";

#[test]
fn probe_stops_at_the_first_output() {
    let mut probe = StreamProbe::new();
    assert_eq!(probe.next_wait(10, 4_000_000), Some(6_000_000));
    probe.observe(ProbeEvent::Chunk(b": ping\n".to_vec()), 5);
    assert_eq!(probe.first_chunk_ms, Some(5));
    assert_eq!(probe.first_text_ms, None);
    assert_eq!(probe.next_wait(10, 5_000_000), Some(5_000_000));
    probe.observe(ProbeEvent::Chunk(OUTPUT.to_vec()), 7);
    assert_eq!(probe.first_chunk_ms, Some(5));
    assert_eq!(probe.first_text_ms, Some(7));
    assert_eq!(probe.next_wait(10, 6_000_000), None);
    assert!(!probe.timed_out && probe.error.is_none());
    assert_eq!(probe.buffered, vec![b": ping\n".to_vec(), OUTPUT.to_vec()]);
}

#[test]
fn probe_times_out() {
    let mut probe = StreamProbe::new();
    assert_eq!(probe.next_wait(10, 10_000_000), None);
    assert!(probe.timed_out && probe.ended);
    let mut other = StreamProbe::new();
    other.observe(ProbeEvent::TimedOut, 3);
    assert!(other.timed_out);
    assert_eq!(other.next_wait(10, 0), None);
}

#[test]
fn probe_ends_with_the_stream_or_an_error() {
    let mut closed = StreamProbe::new();
    closed.observe(ProbeEvent::Closed, 1);
    assert!(closed.ended && !closed.timed_out && closed.error.is_none());
    let mut failed = StreamProbe::new();
    failed.observe(ProbeEvent::Failed("reset".to_string()), 1);
    assert_eq!(failed.error, Some("reset".to_string()));
    assert_eq!(failed.next_wait(10, 0), None);
}
