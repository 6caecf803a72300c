use fete::visual::{VisualInfo, VisualRegistry, VisualRequest};
use fete::panel::{
    button_bit, LinkChange, PanelAction, PanelMap, PanelState, LINK_TIMEOUT_US, PANEL_TIMEOUT_MS,
};
use fete::protocol::Frame;

/// The panel and the show clock, in microseconds.
struct Harness {
    state: PanelState,
    inbox: Vec<Frame>,
    now: u64,
}

fn harness() -> Harness {
    Harness { state: PanelState::default(), inbox: Vec::new(), now: 0 }
}

fn send(h: &mut Harness, buttons: u32, seq: u16, panel_age_ms: u32) {
    h.inbox.push(Frame { buttons, seq, panel_age_ms });
}

fn tick(h: &mut Harness, seconds: f64) -> LinkChange {
    h.now += (seconds * 1_000_000.0).round() as u64;
    let frames = std::mem::take(&mut h.inbox);
    h.state.receive_frames(&frames, h.now)
}

#[test]
fn a_frame_arrives_and_the_link_comes_up() {
    let mut h = harness();
    send(&mut h, 0b101, 1, 5);
    assert_eq!(tick(&mut h, 0.016), LinkChange::Connected);
    assert_eq!(h.state.buttons, 0b101);
    assert!(h.state.connected);
}

#[test]
fn silence_releases_every_button() {
    let mut h = harness();
    send(&mut h, 0b1111, 1, 5);
    tick(&mut h, 0.016);
    assert!(h.state.connected);

    let timeout = LINK_TIMEOUT_US as f64 / 1_000_000.0;
    assert_eq!(tick(&mut h, timeout + 0.1), LinkChange::Lost);
    assert!(!h.state.connected, "the link should have timed out");
    assert_eq!(h.state.buttons, 0, "a lost link releases everything");
}

#[test]
fn a_receiver_repeating_a_dead_panel_is_not_trusted() {
    let mut h = harness();
    send(&mut h, 0b1111, 1, PANEL_TIMEOUT_MS + 1);
    tick(&mut h, 0.016);
    assert!(h.state.connected, "the receiver itself is still talking");
    assert_eq!(h.state.buttons, 0, "but its button state is stale");
}

#[test]
fn gaps_in_the_sequence_are_counted() {
    let mut h = harness();
    send(&mut h, 0, 1, 0);
    send(&mut h, 0, 5, 0);
    tick(&mut h, 0.016);
    assert_eq!(h.state.dropped, 3);
}

#[test]
fn repeated_radio_sequence_is_not_a_drop() {
    let mut h = harness();
    send(&mut h, 0, 7, 0);
    send(&mut h, 0, 7, 20);
    tick(&mut h, 0.016);
    assert_eq!(h.state.dropped, 0);
}

#[test]
fn first_packet_after_radio_outage_starts_a_new_sequence_baseline() {
    let mut h = harness();
    send(&mut h, 0, 0, PANEL_TIMEOUT_MS + 1);
    send(&mut h, 0, 500, 0);
    tick(&mut h, 0.016);
    assert_eq!(h.state.dropped, 0);
}

#[test]
fn the_sequence_counter_may_wrap_without_counting_65000_drops() {
    let mut h = harness();
    send(&mut h, 0, u16::MAX, 0);
    send(&mut h, 0, 1, 0);
    tick(&mut h, 0.016);
    assert_eq!(
        h.state.dropped, 1,
        "wrapping past 65535 is one dropped frame, not a whole counter's worth"
    );
}

#[test]
fn a_press_is_an_edge_not_a_level() {
    let mut h = harness();
    send(&mut h, 0b1, 1, 0);
    tick(&mut h, 0.016);
    assert_eq!(h.state.pressed(), 0b1);

    send(&mut h, 0b1, 2, 0);
    tick(&mut h, 0.016);
    assert_eq!(h.state.pressed(), 0);
}

#[test]
fn a_quiet_but_recent_link_stays_up() {
    let mut h = harness();
    send(&mut h, 0b10, 1, 0);
    tick(&mut h, 0.016);
    assert_eq!(tick(&mut h, 1.0), LinkChange::Unchanged);
    assert!(h.state.connected);
    assert_eq!(h.state.buttons, 0b10);
}

#[test]
fn held_buttons_drive_knobs_and_presses_act_once() {
    let map = PanelMap(vec![
        PanelAction::Hold { macro_index: 0 },
        PanelAction::Cycle(1),
        PanelAction::Unmapped,
        PanelAction::Select(3),
    ]);
    let mut state = PanelState::default();
    state.buttons = 0b1111;
    state.previous = 0;
    assert_eq!(state.firing_buttons(&map), vec![0, 1, 3]);

    // Same buttons still held on the next update: only the hold acts again.
    state.previous = state.buttons;
    assert_eq!(state.firing_buttons(&map), vec![0]);

    // Nothing held: nothing fires.
    state.previous = state.buttons;
    state.buttons = 0;
    assert_eq!(state.firing_buttons(&map), Vec::<usize>::new());
}

#[test]
fn buttons_past_the_last_bit_read_the_last_bit() {
    assert_eq!(button_bit(0), 1);
    assert_eq!(button_bit(5), 32);
    assert_eq!(button_bit(31), 1 << 31);
    assert_eq!(button_bit(40), 1 << 31);
}

#[test]
fn default_map_has_navigation_and_all_eight_visuals() {
    assert_eq!(
        PanelMap::default().0,
        vec![
            PanelAction::Cycle(-1),
            PanelAction::Cycle(1),
            PanelAction::Select(0),
            PanelAction::Select(1),
            PanelAction::Select(2),
            PanelAction::Select(3),
            PanelAction::Select(4),
            PanelAction::Select(5),
            PanelAction::Select(6),
            PanelAction::Select(7),
        ]
    );
}

#[test]
fn the_bring_up_map_selects_seven_visuals_and_never_blacks_out() {
    let map = PanelMap::distinct().0;
    assert_eq!(map.len(), 10);
    for (i, action) in map.iter().take(7).enumerate() {
        assert_eq!(*action, PanelAction::Select(i));
    }
    assert_eq!(map[7], PanelAction::NextPalette);
    assert_eq!(map[8], PanelAction::Reseed);
    assert_eq!(map[9], PanelAction::Hold { macro_index: 0 });
    assert!(!map.contains(&PanelAction::Blackout));
}

#[test]
fn presses_ask_for_visual_changes_in_button_order() {
    let mut registry = VisualRegistry::new();
    for id in ["sprawl", "neon", "yama"] {
        assert!(registry.register(VisualInfo { id, name: id, tags: &[] }));
    }
    let map = PanelMap(vec![
        PanelAction::Cycle(-1),
        PanelAction::Select(2),
        PanelAction::Select(9),
        PanelAction::Tap,
        PanelAction::Blackout,
        PanelAction::Hold { macro_index: 0 },
    ]);
    let mut state = PanelState::default();
    state.buttons = 0b11_1111;
    let requests = state.visual_requests(&map, &registry);
    assert_eq!(requests.len(), 3);
    assert!(matches!(requests[0], VisualRequest::Cycle(-1)));
    assert!(matches!(requests[1], VisualRequest::Show("yama")));
    assert!(matches!(requests[2], VisualRequest::Blackout));
    // A selection past the end of the registry asks for nothing.
    assert!(fete::panel::request_for(PanelAction::Select(9), &registry).is_none());
}
