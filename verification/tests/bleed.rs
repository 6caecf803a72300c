use fete::bleed::{BleedStyle, Transition};

#[test]
fn a_transition_never_repeats_a_style() {
    let mut transition = Transition::new();
    let mut last = transition.style();
    for _ in 0..64 {
        transition.start();
        assert_ne!(
            transition.style(),
            last,
            "the same bleed twice running reads as a stuck transition"
        );
        last = transition.style();
    }
}

#[test]
fn a_forced_style_is_kept() {
    let mut transition = Transition { style: Some(BleedStyle::Burn), ..Transition::new() };
    for _ in 0..4 {
        assert!(transition.start().is_some());
        assert_eq!(transition.style(), BleedStyle::Burn);
    }
}

#[test]
fn a_disabled_transition_stays_idle() {
    let mut transition = Transition { enabled: false, ..Transition::new() };
    let before = transition.rng;
    assert_eq!(transition.start(), None);
    assert_eq!(transition.rng, before);
    assert_eq!(transition.style(), BleedStyle::Smear);
}

#[test]
fn styles_are_numbered_and_named_for_the_shader() {
    let all = BleedStyle::all();
    for (i, style) in all.iter().enumerate() {
        assert_eq!(style.number() as usize, i);
    }
    assert_eq!(BleedStyle::Swirl.name(), "swirl");
    assert_eq!(BleedStyle::default(), BleedStyle::Smear);
}

#[test]
fn seeds_are_twenty_four_bits() {
    let mut transition = Transition::new();
    for _ in 0..16 {
        let seed = transition.start().unwrap();
        assert!(seed < 1 << 24);
    }
}
