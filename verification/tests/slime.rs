use fete::sim::SimTextures;
use fete::slime::{advance_state, pass_for, SlimePass, SlimeRun, SlimeState};

#[test]
fn loading_waits_then_seeds_both_phases_then_runs() {
    let mut run = SlimeRun::default();
    run.begin_run();
    let (s, g) = advance_state(SlimeState::Loading, 0, run, false);
    assert_eq!((s, g), (SlimeState::Loading, 0));
    let (s, g) = advance_state(s, g, run, true);
    assert_eq!((s, g), (SlimeState::Seeding(0), 1));
    let (s, g) = advance_state(s, g, run, true);
    assert_eq!(s, SlimeState::Seeding(1));
    let (s, g) = advance_state(s, g, run, true);
    assert_eq!(s, SlimeState::Running);
    assert_eq!(pass_for(s, true), SlimePass::Simulate);

    // Off and on again: the next frame re-seeds.
    run.end_run();
    assert_eq!(advance_state(s, g, run, true), (SlimeState::Running, 1));
    assert_eq!(pass_for(s, false), SlimePass::Nothing);
    run.begin_run();
    assert_eq!(advance_state(s, g, run, true), (SlimeState::Seeding(0), 2));
}

#[test]
fn the_generation_wraps() {
    let mut run = SlimeRun { active: false, generation: u32::MAX };
    run.begin_run();
    assert_eq!(run.generation, 0);
    assert!(run.active);
}

#[test]
fn ping_pong_reads_last_frames_write() {
    let mut t = SimTextures::new("a", "b", (4, 4));
    assert_eq!((*t.read(), *t.write(), t.read_index()), ("a", "b", 0));
    let written = *t.write();
    t.swap();
    assert_eq!(*t.read(), written);
    assert_eq!(t.read_index(), 1);
    t.swap();
    assert_eq!(*t.read(), "a");
}
