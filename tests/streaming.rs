use budget_analyser::frame::FrameDecoder;
use budget_analyser::llm::{ContentBlock, StreamChunk};
use budget_analyser::stream::{
    event_of_json, event_of_payload, frame_payloads, BlockKind, ContentAssembler, StreamDecoder,
    StreamDefect, StreamEvent,
};

fn decode_all(chunks: &[&[u8]]) -> Vec<Vec<u8>> {
    let mut d = FrameDecoder::new();
    let mut out = Vec::new();
    for c in chunks {
        out.extend(d.push(c));
    }
    out
}

#[test]
fn frames_split_at_blank_lines() {
    let frames = decode_all(&[b"a\nb\n\nc\n\nrest"]);
    assert_eq!(frames, vec![b"a\nb".to_vec(), b"c".to_vec()]);
}

#[test]
fn frames_independent_of_chunk_boundaries() {
    let whole: &[u8] = "data: x\n\ndata: \u{e9}t\u{e9}\n\n\ndata: z\n\ntail".as_bytes();
    let expected = decode_all(&[whole]);
    assert_eq!(expected.len(), 3);
    for cut in 0..=whole.len() {
        let (a, b) = whole.split_at(cut);
        assert_eq!(decode_all(&[a, b]), expected);
    }
    let singles: Vec<&[u8]> = whole.chunks(1).collect();
    assert_eq!(decode_all(&singles), expected);
}

#[test]
fn delimiter_across_chunks_is_found() {
    assert_eq!(decode_all(&[b"abc\n", b"\ndef"]), vec![b"abc".to_vec()]);
}

#[test]
fn truncated_last_frame_is_not_emitted() {
    assert_eq!(decode_all(&[b"data: {\"type\":\"message_stop\"}"]), Vec::<Vec<u8>>::new());
}

#[test]
fn payloads_of_frame() {
    let f = b"event: content_block_delta\ndata: {\"a\":1}\r\nid: 3\ndata:  [DONE] \ndata: last".to_vec();
    assert_eq!(frame_payloads(&f), vec![b"{\"a\":1}".to_vec(), b"last".to_vec()]);
    assert_eq!(frame_payloads(&b"data: [DONE]".to_vec()), Vec::<Vec<u8>>::new());
    assert_eq!(frame_payloads(&Vec::new()), Vec::<Vec<u8>>::new());
}

fn event(text: &str) -> StreamEvent {
    event_of_payload(&text.as_bytes().to_vec())
}

#[test]
fn events_are_read_by_type() {
    match event(r#"{"type":"content_block_start","index":1,"content_block":{"type":"tool_use","id":"tu_1","name":"spending_by_category","input":{}}}"#) {
        StreamEvent::BlockStart(BlockKind::ToolUse { id, name }) => {
            assert_eq!(id, "tu_1");
            assert_eq!(name, "spending_by_category");
        }
        other => panic!("unexpected {:?}", other),
    }
    assert!(matches!(
        event(r#"{"type":"content_block_start","content_block":{"type":"text","text":""}}"#),
        StreamEvent::BlockStart(BlockKind::Text)
    ));
    match event(r#"{"type":"content_block_delta","delta":{"type":"text_delta","text":"Hi"}}"#) {
        StreamEvent::TextDelta(t) => assert_eq!(t, "Hi"),
        other => panic!("unexpected {:?}", other),
    }
    match event(r#"{"type":"content_block_delta","delta":{"type":"input_json_delta","partial_json":"{\"ye"}}"#) {
        StreamEvent::InputFragment(p) => assert_eq!(p, "{\"ye"),
        other => panic!("unexpected {:?}", other),
    }
    assert!(matches!(event(r#"{"type":"content_block_stop","index":0}"#), StreamEvent::BlockStop));
    match event(r#"{"type":"message_stop","stop_reason":"end_turn"}"#) {
        StreamEvent::MessageStop(Some(r)) => assert_eq!(r, "end_turn"),
        other => panic!("unexpected {:?}", other),
    }
    assert!(matches!(event(r#"{"type":"message_stop"}"#), StreamEvent::MessageStop(None)));
    assert!(matches!(event(r#"{"type":"ping"}"#), StreamEvent::Unrecognized));
    assert!(matches!(event("not json"), StreamEvent::Unrecognized));
    assert!(matches!(event_of_payload(&vec![0xff, 0xfe]), StreamEvent::Unrecognized));
    assert!(matches!(event_of_json(&serde_json::Value::Null), StreamEvent::Unrecognized));
}

const STREAM: &str = "event: message_start\ndata: {\"type\":\"message_start\"}\n\n\
data: {\"type\":\"content_block_start\",\"content_block\":{\"type\":\"text\",\"text\":\"\"}}\n\n\
data: {\"type\":\"content_block_delta\",\"delta\":{\"type\":\"text_delta\",\"text\":\"Let me \"}}\n\n\
data: {\"type\":\"content_block_delta\",\"delta\":{\"type\":\"text_delta\",\"text\":\"check.\"}}\n\n\
data: {\"type\":\"content_block_stop\"}\n\n\
data: {\"type\":\"content_block_start\",\"content_block\":{\"type\":\"tool_use\",\"id\":\"t1\",\"name\":\"monthly_trend\"}}\n\n\
data: {\"type\":\"content_block_delta\",\"delta\":{\"type\":\"input_json_delta\",\"partial_json\":\"{\\\"year\\\"\"}}\n\n\
data: {\"type\":\"content_block_delta\",\"delta\":{\"type\":\"input_json_delta\",\"partial_json\":\": 2025}\"}}\n\n\
data: {\"type\":\"content_block_stop\"}\n\n\
data: {\"type\":\"message_stop\",\"stop_reason\":\"tool_use\"}\n\n\
data: [DONE]\n\n";

fn decode_stream(chunks: &[&[u8]]) -> (Vec<ContentBlock>, Vec<StreamChunk>) {
    let mut d = StreamDecoder::new();
    for c in chunks {
        d.push_chunk(c);
    }
    // The stream opens with `message_start`, which carries no recognised event.
    assert_eq!(d.defect_list(), &vec![StreamDefect::UnrecognizedEvent]);
    let r = d.finish();
    (r.content, r.chunks)
}

#[test]
fn stream_assembles_text_and_tool_call() {
    let (content, chunks) = decode_stream(&[STREAM.as_bytes()]);
    assert_eq!(content.len(), 2);
    match &content[0] {
        ContentBlock::Text { text } => assert_eq!(text, "Let me check."),
        other => panic!("unexpected {:?}", other),
    }
    match &content[1] {
        ContentBlock::ToolUse(c) => {
            assert_eq!(c.id, "t1");
            assert_eq!(c.name, "monthly_trend");
            assert_eq!(c.input, serde_json::from_str::<serde_json::Value>("{\"year\":2025}").unwrap());
        }
        other => panic!("unexpected {:?}", other),
    }
    assert_eq!(chunks.len(), 4);
    assert!(matches!(&chunks[0], StreamChunk::Text(t) if t == "Let me "));
    assert!(matches!(&chunks[1], StreamChunk::Text(t) if t == "check."));
    assert!(matches!(&chunks[2], StreamChunk::ToolUse(c) if c.id == "t1"));
    assert!(matches!(&chunks[3], StreamChunk::Done { stop_reason: Some(r) } if r == "tool_use"));
}

#[test]
fn stream_same_for_any_chunking() {
    let whole = STREAM.as_bytes();
    let (content, _) = decode_stream(&[whole]);
    for size in [1usize, 2, 3, 7, 16, 64] {
        let parts: Vec<&[u8]> = whole.chunks(size).collect();
        let (c2, ch2) = decode_stream(&parts);
        assert_eq!(format!("{:?}", c2), format!("{:?}", content));
        assert_eq!(ch2.len(), 4);
    }
}

#[test]
fn completion_from_stream_keeps_stop_reason() {
    let mut d = StreamDecoder::new();
    d.push_chunk(STREAM.as_bytes());
    let c = d.into_completion();
    assert_eq!(c.stop_reason.as_deref(), Some("tool_use"));
    assert_eq!(c.content.len(), 2);
}

#[test]
fn fragments_equal_whole_input() {
    let mut split = ContentAssembler::new();
    split.apply(StreamEvent::BlockStart(BlockKind::ToolUse { id: "a".into(), name: "n".into() }));
    for f in ["{\"cat", "egory\": \"Gro", "ceries\", \"top_n\"", ": 3}"] {
        assert!(split.apply(StreamEvent::InputFragment(f.to_string())).is_none());
    }
    split.apply(StreamEvent::BlockStop);
    let mut whole = ContentAssembler::new();
    whole.apply(StreamEvent::BlockStart(BlockKind::ToolUse { id: "a".into(), name: "n".into() }));
    whole.apply(StreamEvent::InputFragment("{\"category\": \"Groceries\", \"top_n\": 3}".to_string()));
    whole.apply(StreamEvent::BlockStop);
    let a = split.finish().content;
    let b = whole.finish().content;
    match (&a[0], &b[0]) {
        (ContentBlock::ToolUse(x), ContentBlock::ToolUse(y)) => {
            assert_eq!(x.input, y.input);
            assert_eq!(x.input["category"], "Groceries");
        }
        _ => panic!("expected tool calls"),
    }
}

#[test]
fn unparseable_or_empty_input_becomes_null() {
    let mut a = ContentAssembler::new();
    a.apply(StreamEvent::BlockStart(BlockKind::ToolUse { id: "a".into(), name: "n".into() }));
    a.apply(StreamEvent::BlockStop);
    a.apply(StreamEvent::BlockStart(BlockKind::ToolUse { id: "b".into(), name: "n".into() }));
    a.apply(StreamEvent::InputFragment("{\"broken".to_string()));
    a.apply(StreamEvent::BlockStop);
    let content = a.finish().content;
    for b in &content {
        match b {
            ContentBlock::ToolUse(c) => assert!(c.input.is_null()),
            other => panic!("unexpected {:?}", other),
        }
    }
    assert_eq!(content.len(), 2);
}

#[test]
fn defects_are_reported() {
    let mut a = ContentAssembler::new();
    assert_eq!(
        a.apply(StreamEvent::InputFragment("x".to_string())),
        Some(StreamDefect::FragmentWithoutTool)
    );
    a.apply(StreamEvent::BlockStart(BlockKind::ToolUse { id: "1".into(), name: "f".into() }));
    a.apply(StreamEvent::InputFragment("{}".to_string()));
    assert_eq!(
        a.apply(StreamEvent::BlockStart(BlockKind::ToolUse { id: "2".into(), name: "g".into() })),
        Some(StreamDefect::ToolStartWhileOpen)
    );
    a.apply(StreamEvent::BlockStop);
    assert_eq!(a.apply(StreamEvent::Unrecognized), Some(StreamDefect::UnrecognizedEvent));
    let content = a.finish().content;
    assert_eq!(content.len(), 2);
    assert!(matches!(&content[0], ContentBlock::ToolUse(c) if c.id == "1"));
    assert!(matches!(&content[1], ContentBlock::ToolUse(c) if c.id == "2" && c.input.is_null()));
}

#[test]
fn text_after_tool_starts_new_block() {
    let mut a = ContentAssembler::new();
    a.apply(StreamEvent::TextDelta("a".into()));
    a.apply(StreamEvent::BlockStart(BlockKind::ToolUse { id: "1".into(), name: "f".into() }));
    a.apply(StreamEvent::BlockStop);
    a.apply(StreamEvent::TextDelta("b".into()));
    a.apply(StreamEvent::TextDelta("c".into()));
    let content = a.finish().content;
    assert_eq!(content.len(), 3);
    assert!(matches!(&content[2], ContentBlock::Text { text } if text == "bc"));
}
