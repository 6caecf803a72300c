use fete::bleed::Transition;
use fete::show::{flag_value, has_flag, opening_visual, Blackout};
use fete::visual::{VisualInfo, VisualRegistry, VisualRequest};

fn info(id: &'static str) -> VisualInfo {
    VisualInfo { id, name: id, tags: &[] }
}

fn set() -> VisualRegistry {
    let mut r = VisualRegistry::new();
    for id in ["sprawl", "neon", "yama", "terebi", "slime", "kanban", "kura"] {
        assert!(r.register(info(id)));
    }
    r
}

#[test]
fn registration_keeps_order_and_ignores_a_second_registration() {
    let mut r = set();
    assert!(!r.register(info("neon")));
    assert_eq!(r.len(), 7);
    assert_eq!(r.index_of("yama"), Some(2));
    assert_eq!(r.index_of("nope"), None);
    assert_eq!(r.get(6).map(|i| i.id), Some("kura"));
    assert!(r.get(7).is_none());
    assert_eq!(r.info_by_str(&String::from("kanban")), Some("kanban"));
    assert!(!r.is_empty());
    assert!(VisualRegistry::new().is_empty());
}

#[test]
fn cycling_wraps_both_ways() {
    let r = set();
    assert_eq!(r.cycle(Some("kura"), 1), Some("sprawl"));
    assert_eq!(r.cycle(Some("sprawl"), -1), Some("kura"));
    assert_eq!(r.cycle(Some("neon"), 7), Some("neon"));
    assert_eq!(r.cycle(Some("neon"), -15), Some("sprawl"));
    assert_eq!(r.cycle(None, 2), Some("yama"));
    assert_eq!(r.cycle(Some("missing"), 0), Some("sprawl"));
    assert_eq!(r.cycle(Some("neon"), isize::MIN), r.cycle(Some("neon"), isize::MIN % 7));
    assert_eq!(VisualRegistry::new().cycle(None, 1), None);
}

#[test]
fn every_request_is_judged_against_what_was_up_when_the_frame_began() {
    let r = set();
    let requests = vec![
        VisualRequest::Show("neon"),
        VisualRequest::Cycle(0),
        VisualRequest::Cycle(1),
        VisualRequest::Blackout,
        VisualRequest::Blackout,
        VisualRequest::Show("kura"),
    ];
    let (now, changes) = r.apply_visual_requests(Some("sprawl"), &requests);
    assert_eq!(now, Some("kura"));
    // Cycle(0) names sprawl, which was up, so it does nothing; Cycle(1) steps
    // from sprawl, not from the neon asked for just before it.
    assert_eq!(
        changes,
        vec![Some("neon"), Some("neon"), None, None, Some("kura")]
    );
}

#[test]
fn a_frame_without_changes_leaves_the_stage_alone() {
    let r = set();
    let requests = vec![VisualRequest::Show("yama"), VisualRequest::Cycle(7)];
    let (now, changes) = r.apply_visual_requests(Some("yama"), &requests);
    assert_eq!(now, Some("yama"));
    assert!(changes.is_empty());
    let (now, changes) = r.apply_visual_requests(None, &vec![VisualRequest::Blackout]);
    assert_eq!(now, None);
    assert!(changes.is_empty());
}

#[test]
fn a_blackout_comes_back_to_what_was_up() {
    let mut b = Blackout::new();
    assert!(matches!(b.toggle(Some("yama")), VisualRequest::Blackout));
    assert!(b.active);
    assert!(matches!(b.toggle(None), VisualRequest::Show("yama")));
    assert!(!b.active);
    assert!(matches!(b.toggle(None), VisualRequest::Blackout));
    assert!(matches!(b.toggle(None), VisualRequest::Cycle(0)));
}

#[test]
fn the_show_opens_on_the_named_visual_or_the_first() {
    let r = set();
    assert_eq!(opening_visual(&r, None, Some("terebi")), Some("terebi"));
    assert_eq!(opening_visual(&r, None, Some("nowhere")), Some("sprawl"));
    assert_eq!(opening_visual(&r, None, None), Some("sprawl"));
    assert_eq!(opening_visual(&r, Some("neon"), Some("terebi")), None);
    assert_eq!(opening_visual(&VisualRegistry::new(), None, None), None);
}

#[test]
fn flags_and_their_values() {
    let args: Vec<String> = ["--start", "neon", "--manual", "--start", "yama", "--bpm"]
        .iter()
        .map(|s| s.to_string())
        .collect();
    assert!(has_flag(&args, "--manual"));
    assert!(!has_flag(&args, "--fullscreen"));
    assert_eq!(flag_value(&args, "--start"), Some("neon".to_string()));
    assert_eq!(flag_value(&args, "--bpm"), None);
    assert_eq!(flag_value(&args, "--quality"), None);
}

#[test]
fn every_change_starts_its_own_transition() {
    let r = set();
    let requests = vec![
        VisualRequest::Show("neon"),
        VisualRequest::Cycle(0),
        VisualRequest::Blackout,
    ];
    let mut transition = Transition::new();
    let (now, changes, seeds) =
        r.apply_and_start_transitions(Some("sprawl"), &requests, &mut transition);
    assert_eq!(now, None);
    assert_eq!(changes, vec![Some("neon"), None]);

    // The same as starting two transitions by hand.
    let mut expected = Transition::new();
    let first = expected.start();
    let second = expected.start();
    assert_eq!(seeds, vec![first, second]);
    assert!(seeds.iter().all(|s| s.is_some()));
    assert_eq!(transition.rng, expected.rng);
    assert_eq!(transition.chosen, expected.chosen);

    // Transitions off: changes still happen, with a hard cut and no seed.
    let mut off = Transition::new();
    off.enabled = false;
    let (_, changes, seeds) = r.apply_and_start_transitions(Some("sprawl"), &requests, &mut off);
    assert_eq!(changes.len(), 2);
    assert_eq!(seeds, vec![None, None]);
}
