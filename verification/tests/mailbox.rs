use fete::mailbox::{LinkStatus, Mailbox, MAILBOX_DEPTH};
use fete::protocol::{Frame, ParseError};

/// Feed text through the mailbox a line at a time, as the port reader does.
fn pump(input: &str) -> Vec<Frame> {
    let mut mailbox = Mailbox::new();
    for line in input.split_inclusive('\n') {
        let _ = mailbox.ingest_line(line);
    }
    mailbox.drain()
}

#[test]
fn queues_frames_in_order() {
    let frames = pump("P 1 1 0\nP 2 2 0\nP 4 3 0\n");
    assert_eq!(frames.iter().map(|f| f.buttons).collect::<Vec<_>>(), [1, 2, 4]);
}

#[test]
fn a_garbled_line_costs_one_frame_and_no_more() {
    let frames = pump("P 1 1 0\nnonsense\nP 4 3 0\n");
    assert_eq!(
        frames.iter().map(|f| f.buttons).collect::<Vec<_>>(),
        [1, 4],
        "a bad line should not end the stream"
    );
}

#[test]
fn firmware_chatter_is_ignored() {
    let frames = pump("# esp-now up\n\nP 3 1 0\n");
    assert_eq!(frames.len(), 1);
}

#[test]
fn a_backlog_drops_the_oldest_not_the_newest() {
    let input: String = (0..MAILBOX_DEPTH + 10).map(|i| format!("P {i:x} {i} 0\n")).collect();
    let frames = pump(&input);
    assert_eq!(frames.len(), MAILBOX_DEPTH);
    assert_eq!(
        frames.last().unwrap().buttons,
        (MAILBOX_DEPTH + 9) as u32,
        "the newest frame must always be the one kept"
    );
}

#[test]
fn an_unopened_link_reports_why() {
    let mut mailbox = Mailbox::new();
    assert_eq!(mailbox.status(), LinkStatus::Opening);
    mailbox.set_status(LinkStatus::Failed("no such port".into()));
    assert!(matches!(mailbox.status(), LinkStatus::Failed(_)));
}

#[test]
fn a_bad_line_hands_back_its_error_and_drain_empties() {
    let mut mailbox = Mailbox::new();
    assert_eq!(mailbox.ingest_line("Q 1 2 3"), Err(ParseError::UnknownKind("Q".into())));
    assert_eq!(mailbox.ingest_line("P 7 1 0\n"), Ok(()));
    assert_eq!(mailbox.drain().len(), 1);
    assert!(mailbox.drain().is_empty());
}
