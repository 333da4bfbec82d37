use bridge_supervisor::forward::{
    event_name, line_event, trim_line, BridgeEvent, LineAssembler, StreamOrigin,
};

fn event(origin: StreamOrigin, line: &str) -> BridgeEvent {
    BridgeEvent { origin, line: line.to_string() }
}

#[test]
fn event_names() {
    assert_eq!(event_name(StreamOrigin::Stdout), "bridge-stdout");
    assert_eq!(event_name(StreamOrigin::Stderr), "bridge-stderr");
}

#[test]
fn trim_line_drops_the_line_feed() {
    assert_eq!(trim_line(b"abc\n".to_vec()), b"abc".to_vec());
}

#[test]
fn trim_line_drops_carriage_return_and_line_feed() {
    assert_eq!(trim_line(b"abc\r\n".to_vec()), b"abc".to_vec());
}

#[test]
fn trim_line_drops_one_ending_only() {
    assert_eq!(trim_line(b"abc\r\r\n".to_vec()), b"abc\r".to_vec());
    assert_eq!(trim_line(b"abc\n\n".to_vec()), b"abc\n".to_vec());
}

#[test]
fn trim_line_keeps_a_line_without_ending() {
    assert_eq!(trim_line(b"abc".to_vec()), b"abc".to_vec());
    assert_eq!(trim_line(b"abc\r".to_vec()), b"abc\r".to_vec());
    assert_eq!(trim_line(Vec::new()), Vec::<u8>::new());
}

#[test]
fn trim_line_of_bare_endings() {
    assert_eq!(trim_line(b"\n".to_vec()), Vec::<u8>::new());
    assert_eq!(trim_line(b"\r\n".to_vec()), Vec::<u8>::new());
}

#[test]
fn line_event_decodes_text() {
    assert_eq!(
        line_event(StreamOrigin::Stdout, b"ready\n".to_vec()),
        Some(event(StreamOrigin::Stdout, "ready"))
    );
    assert_eq!(
        line_event(StreamOrigin::Stderr, "grüß dich\r\n".as_bytes().to_vec()),
        Some(event(StreamOrigin::Stderr, "grüß dich"))
    );
}

#[test]
fn line_event_of_an_empty_line_is_an_empty_event() {
    assert_eq!(line_event(StreamOrigin::Stdout, b"\n".to_vec()), Some(event(StreamOrigin::Stdout, "")));
}

#[test]
fn line_event_drops_invalid_text() {
    assert_eq!(line_event(StreamOrigin::Stdout, vec![0xFF, 0xFE, b'\n']), None);
    assert_eq!(line_event(StreamOrigin::Stdout, vec![b'a', 0xC3, b'\n']), None);
    assert_eq!(line_event(StreamOrigin::Stderr, vec![0xED, 0xA0, 0x80]), None);
}

#[test]
fn three_lines_come_out_in_order() {
    let mut assembler = LineAssembler::new(StreamOrigin::Stdout);
    let events = assembler.feed(b"L1\nL2\nL3\n");
    assert_eq!(
        events,
        vec![
            event(StreamOrigin::Stdout, "L1"),
            event(StreamOrigin::Stdout, "L2"),
            event(StreamOrigin::Stdout, "L3"),
        ]
    );
    assert_eq!(assembler.finish(), None);
}

#[test]
fn lines_cut_across_reads_are_put_together() {
    let mut assembler = LineAssembler::new(StreamOrigin::Stderr);
    assert_eq!(assembler.feed(b"L"), Vec::<BridgeEvent>::new());
    assert_eq!(assembler.feed(b"1\nL2"), vec![event(StreamOrigin::Stderr, "L1")]);
    assert_eq!(assembler.feed(b""), Vec::<BridgeEvent>::new());
    assert_eq!(
        assembler.feed(b"\r\nL3\n"),
        vec![event(StreamOrigin::Stderr, "L2"), event(StreamOrigin::Stderr, "L3")]
    );
    assert_eq!(assembler.finish(), None);
}

#[test]
fn any_chunking_gives_the_same_events() {
    let stream = "one\ntwo\r\n\nthrée\nlast".as_bytes();
    let mut whole = LineAssembler::new(StreamOrigin::Stdout);
    let mut expected = whole.feed(stream);
    expected.extend(whole.finish());
    assert_eq!(expected.len(), 5);
    for size in 1..stream.len() {
        let mut assembler = LineAssembler::new(StreamOrigin::Stdout);
        let mut events: Vec<BridgeEvent> = Vec::new();
        for chunk in stream.chunks(size) {
            events.extend(assembler.feed(chunk));
        }
        events.extend(assembler.finish());
        assert_eq!(events, expected, "chunk size {}", size);
    }
}

#[test]
fn an_invalid_line_is_dropped_and_the_others_keep_their_order() {
    let mut assembler = LineAssembler::new(StreamOrigin::Stdout);
    let events = assembler.feed(&[b'a', b'\n', 0xFF, b'\n', b'b', b'\n']);
    assert_eq!(events, vec![event(StreamOrigin::Stdout, "a"), event(StreamOrigin::Stdout, "b")]);
}

#[test]
fn finish_gives_the_unterminated_last_line() {
    let mut assembler = LineAssembler::new(StreamOrigin::Stdout);
    assert_eq!(assembler.feed(b"done\npartial"), vec![event(StreamOrigin::Stdout, "done")]);
    assert_eq!(assembler.finish(), Some(event(StreamOrigin::Stdout, "partial")));
}

#[test]
fn finish_keeps_a_trailing_carriage_return_without_line_feed() {
    let mut assembler = LineAssembler::new(StreamOrigin::Stdout);
    assert_eq!(assembler.feed(b"x\r"), Vec::<BridgeEvent>::new());
    assert_eq!(assembler.finish(), Some(event(StreamOrigin::Stdout, "x\r")));
}

#[test]
fn finish_of_nothing_is_none() {
    let assembler = LineAssembler::new(StreamOrigin::Stderr);
    assert_eq!(assembler.finish(), None);
}

#[test]
fn finish_drops_an_invalid_last_line() {
    let mut assembler = LineAssembler::new(StreamOrigin::Stderr);
    assert_eq!(assembler.feed(&[0xC3]), Vec::<BridgeEvent>::new());
    assert_eq!(assembler.finish(), None);
}
