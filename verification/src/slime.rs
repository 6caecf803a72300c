//! When the slime simulation dispatches what.
//!
//! Shaders compile asynchronously, so the simulation waits in `Loading` until
//! its pipelines are ready; it then clears the trail for both ping-pong
//! phases, so neither texture holds whatever a previous activation left; and
//! only then runs. Every activation of the visual re-seeds.

use vstd::prelude::*;

verus! {

/// The compute side's state.
#[derive(Debug, Clone, Copy, PartialEq, Eq, Structural, Default)]
pub enum SlimeState {
    /// Shaders are still compiling.
    #[default]
    Loading,
    /// Clearing the trail; the number is which ping-pong phase.
    Seeding(u8),
    /// Simulating.
    Running,
}

/// Whether the visual is up, and which activation this is.
#[derive(Debug, Clone, Copy, Default)]
pub struct SlimeRun {
    pub active: bool,
    /// Incremented on every activation so the compute side knows to re-seed.
    pub generation: u32,
}

impl SlimeRun {
    /// The visual came on: a new activation.
    pub fn begin_run(&mut self)
        ensures
            final(self).active,
            final(self).generation == (if old(self).generation == u32::MAX {
                0
            } else {
                old(self).generation + 1
            }),
    {
        self.active = true;
        self.generation = self.generation.wrapping_add(1);
    }

    /// The visual went off.
    pub fn end_run(&mut self)
        ensures
            !final(self).active,
            final(self).generation == old(self).generation,
    {
        self.active = false;
    }
}

/// One frame of the compute side's state machine: the next state, and the
/// activation it has seeded for.
///
/// Nothing happens while the visual is off. A new activation re-seeds from
/// any state but `Loading`; `Loading` waits for the pipelines; seeding runs
/// phase 0 then phase 1; then the simulation runs.
pub open spec fn next_slime_state(
    state: SlimeState,
    seeded: u32,
    run: SlimeRun,
    pipelines_ready: bool,
) -> (SlimeState, u32) {
    if !run.active {
        (state, seeded)
    } else if seeded != run.generation && state != SlimeState::Loading {
        (SlimeState::Seeding(0), run.generation)
    } else {
        match state {
            SlimeState::Loading => if pipelines_ready {
                (SlimeState::Seeding(0), run.generation)
            } else {
                (state, seeded)
            },
            SlimeState::Seeding(phase) => if phase < 1 {
                (SlimeState::Seeding((phase + 1) as u8), seeded)
            } else {
                (SlimeState::Running, seeded)
            },
            SlimeState::Running => (state, seeded),
        }
    }
}

/// Advance the state machine by one frame.
pub fn advance_state(state: SlimeState, seeded: u32, run: SlimeRun, pipelines_ready: bool) -> (r: (
    SlimeState,
    u32,
))
    ensures
        r == next_slime_state(state, seeded, run, pipelines_ready),
{
    if !run.active {
        return (state, seeded);
    }
    let loading = match state {
        SlimeState::Loading => true,
        _ => false,
    };
    if seeded != run.generation && !loading {
        return (SlimeState::Seeding(0), run.generation);
    }
    match state {
        SlimeState::Loading => if pipelines_ready {
            (SlimeState::Seeding(0), run.generation)
        } else {
            (state, seeded)
        },
        SlimeState::Seeding(phase) => if phase < 1 {
            (SlimeState::Seeding(phase + 1), seeded)
        } else {
            (SlimeState::Running, seeded)
        },
        SlimeState::Running => (state, seeded),
    }
}

/// What the compute pass dispatches in a state.
#[derive(Debug, Clone, Copy, PartialEq, Eq, Structural)]
pub enum SlimePass {
    /// Nothing yet.
    Nothing,
    /// Clear the trail.
    Clear,
    /// Move the agents and diffuse the trail.
    Simulate,
}

/// What to dispatch this frame; nothing at all while the visual is off.
pub fn pass_for(state: SlimeState, active: bool) -> (r: SlimePass)
    ensures
        !active ==> r == SlimePass::Nothing,
        active ==> r == match state {
            SlimeState::Loading => SlimePass::Nothing,
            SlimeState::Seeding(_) => SlimePass::Clear,
            SlimeState::Running => SlimePass::Simulate,
        },
{
    if !active {
        return SlimePass::Nothing;
    }
    match state {
        SlimeState::Loading => SlimePass::Nothing,
        SlimeState::Seeding(_) => SlimePass::Clear,
        SlimeState::Running => SlimePass::Simulate,
    }
}

/// Seeding clears both ping-pong phases before anything runs: from the first
/// seeding frame, the next frame clears again and the one after runs, as long
/// as the activation does not change.
pub proof fn lemma_seeding_covers_both_phases(seeded: u32, run: SlimeRun, ready: bool)
    requires
        run.active,
        seeded == run.generation,
    ensures
        next_slime_state(SlimeState::Seeding(0), seeded, run, ready) == (
            SlimeState::Seeding(1),
            seeded,
        ),
        next_slime_state(SlimeState::Seeding(1), seeded, run, ready) == (SlimeState::Running, seeded),
{
}

/// A new activation always re-seeds: whatever the simulation was doing, once
/// the pipelines exist the next frame of a new activation clears the trail
/// and records that activation.
pub proof fn lemma_new_activation_reseeds(state: SlimeState, seeded: u32, run: SlimeRun)
    requires
        run.active,
        seeded != run.generation,
    ensures
        next_slime_state(state, seeded, run, true) == (SlimeState::Seeding(0), run.generation),
{
}

/// Seeding never gets past its second phase.
pub proof fn lemma_phase_stays_small(state: SlimeState, seeded: u32, run: SlimeRun, ready: bool)
    requires
        state matches SlimeState::Seeding(p) ==> p <= 1,
    ensures
        next_slime_state(state, seeded, run, ready).0 matches SlimeState::Seeding(p) ==> p <= 1,
{
}

/// Running is where an activation stays: once running, the simulation keeps
/// running frame after frame until the visual goes off or a new activation
/// starts, and then it only ever clears, never carries on from old trails.
pub proof fn lemma_running_keeps_running(seeded: u32, run: SlimeRun, ready: bool)
    ensures
        run.active && seeded == run.generation ==> next_slime_state(
            SlimeState::Running,
            seeded,
            run,
            ready,
        ) == (SlimeState::Running, seeded),
        !run.active ==> next_slime_state(SlimeState::Running, seeded, run, ready) == (
            SlimeState::Running,
            seeded,
        ),
        run.active && seeded != run.generation ==> next_slime_state(
            SlimeState::Running,
            seeded,
            run,
            ready,
        ) == (SlimeState::Seeding(0), run.generation),
{
}

} // verus!
