//! Which bleed a visual change uses.
//!
//! Six styles of the same feedback loop. The variety matters more than any
//! one of them, so a change never uses the style the previous change used:
//! two identical transitions in a row read as a bug rather than as chance.
//! How far through a transition the show is, and the picture itself, belong
//! to the renderer.

use vstd::prelude::*;

use crate::rng::{xorshift32, Xorshift32};

verus! {

/// How the outgoing frame leaves.
#[derive(Debug, Clone, Copy, PartialEq, Eq, Structural, Default)]
pub enum BleedStyle {
    /// Wind. The frame streaks off in one slowly turning direction.
    #[default]
    Smear,
    /// Erosion. The frame tears away in patches with a glowing edge.
    Dissolve,
    /// Gravity. Columns of the old frame sag out of the bottom of the screen.
    Melt,
    /// A drain. The frame rotates into the centre.
    Swirl,
    /// Fire. The dark parts go first and the neon holds on until last.
    Burn,
    /// Speed. The frame magnifies past the viewer.
    Rush,
}

/// Every style, in the order the shader numbers them.
pub open spec fn style_at(i: int) -> BleedStyle {
    if i == 0 {
        BleedStyle::Smear
    } else if i == 1 {
        BleedStyle::Dissolve
    } else if i == 2 {
        BleedStyle::Melt
    } else if i == 3 {
        BleedStyle::Swirl
    } else if i == 4 {
        BleedStyle::Burn
    } else {
        BleedStyle::Rush
    }
}

/// A style's number, as the shader reads it.
pub open spec fn style_number(s: BleedStyle) -> int {
    match s {
        BleedStyle::Smear => 0,
        BleedStyle::Dissolve => 1,
        BleedStyle::Melt => 2,
        BleedStyle::Swirl => 3,
        BleedStyle::Burn => 4,
        BleedStyle::Rush => 5,
    }
}

/// How many styles there are.
pub const STYLE_COUNT: usize = 6;

impl BleedStyle {
    /// Every style, in order.
    pub fn all() -> (r: [BleedStyle; 6])
        ensures
            forall|i: int| 0 <= i < 6 ==> r@[i] == style_at(i),
    {
        [
            BleedStyle::Smear,
            BleedStyle::Dissolve,
            BleedStyle::Melt,
            BleedStyle::Swirl,
            BleedStyle::Burn,
            BleedStyle::Rush,
        ]
    }

    /// The style's name, as the overlay shows it.
    pub fn name(self) -> (r: &'static str)
        ensures
            r == match self {
                BleedStyle::Smear => "smear",
                BleedStyle::Dissolve => "dissolve",
                BleedStyle::Melt => "melt",
                BleedStyle::Swirl => "swirl",
                BleedStyle::Burn => "burn",
                BleedStyle::Rush => "rush",
            },
    {
        match self {
            BleedStyle::Smear => "smear",
            BleedStyle::Dissolve => "dissolve",
            BleedStyle::Melt => "melt",
            BleedStyle::Swirl => "swirl",
            BleedStyle::Burn => "burn",
            BleedStyle::Rush => "rush",
        }
    }

    /// The style's number in the shader's uniform.
    pub fn number(self) -> (r: u32)
        ensures
            r == style_number(self),
            style_at(r as int) == self,
    {
        match self {
            BleedStyle::Smear => 0,
            BleedStyle::Dissolve => 1,
            BleedStyle::Melt => 2,
            BleedStyle::Swirl => 3,
            BleedStyle::Burn => 4,
            BleedStyle::Rush => 5,
        }
    }
}

/// The style a free choice lands on: one to five places on from the current
/// one, by the generator's next draw.
pub open spec fn next_style(current: BleedStyle, draw: u32) -> BleedStyle {
    style_at((style_number(current) + 1 + (draw as int % 5)) % 6)
}

/// A transition begun from `t`: the state afterwards and the seed bits drawn,
/// or `t` unchanged and no seed when transitions are off. A forced style is
/// kept; otherwise a new one is chosen by the generator's next draw, and the
/// draw after that is the seed.
pub open spec fn started(t: Transition) -> (Transition, Option<u32>) {
    if !t.enabled {
        (t, None)
    } else {
        let chosen = match t.style {
            Some(s) => s,
            None => next_style(t.chosen, xorshift32(t.rng)),
        };
        let rng1 = match t.style {
            Some(_) => t.rng,
            None => xorshift32(t.rng),
        };
        (Transition { chosen, rng: xorshift32(rng1), ..t }, Some(xorshift32(rng1) >> 8u32))
    }
}

/// `n` transitions begun one after another from `t`: the state afterwards
/// and each one's seed, in order.
pub open spec fn started_times(t: Transition, n: nat) -> (Transition, Seq<Option<u32>>)
    decreases n,
{
    if n == 0 {
        (t, seq![])
    } else {
        let (u, seeds) = started_times(t, (n - 1) as nat);
        let (v, seed) = started(u);
        (v, seeds.push(seed))
    }
}

/// The choice of style for each visual change.
#[derive(Debug, Clone, Copy)]
pub struct Transition {
    /// Whether visual changes bleed at all. Off means a hard cut.
    pub enabled: bool,
    /// Force one style, or `None` to keep choosing new ones.
    pub style: Option<BleedStyle>,
    /// The style the current transition is using.
    pub chosen: BleedStyle,
    /// Generator state for choices and per-transition seeds.
    pub rng: u32,
}

impl Transition {
    /// Enabled, free to choose, starting from the first style.
    pub fn new() -> (t: Transition)
        ensures
            t.enabled,
            t.style is None,
            t.chosen == BleedStyle::Smear,
            t.rng == 0x2545_F491,
    {
        Transition { enabled: true, style: None, chosen: BleedStyle::Smear, rng: 0x2545_F491 }
    }

    /// The style the current transition is using.
    pub fn style(&self) -> (r: BleedStyle)
        ensures
            r == self.chosen,
    {
        self.chosen
    }

    /// A style other than the one just used.
    fn pick(&mut self) -> (r: BleedStyle)
        ensures
            r == next_style(old(self).chosen, xorshift32(old(self).rng)),
            final(self).rng == xorshift32(old(self).rng),
            final(self).enabled == old(self).enabled,
            final(self).style == old(self).style,
            final(self).chosen == old(self).chosen,
    {
        let mut g = Xorshift32::new(self.rng);
        let draw = g.next_u32();
        self.rng = g.state;
        let current = self.chosen.number();
        let offset = 1 + draw % 5;
        let index = (current + offset) % 6;
        let all = BleedStyle::all();
        all[index as usize]
    }

    /// Begin a transition: choose its style, and draw its seed.
    ///
    /// Returns the seed's 24 random bits (the renderer divides by `2^24`), or
    /// `None` when transitions are off, in which case nothing changes.
    pub fn start(&mut self) -> (seed: Option<u32>)
        ensures
            (*final(self), seed) == started(*old(self)),
            !old(self).enabled ==> seed is None && *final(self) == *old(self),
            old(self).enabled ==> {
                let chosen = match old(self).style {
                    Some(s) => s,
                    None => next_style(old(self).chosen, xorshift32(old(self).rng)),
                };
                let rng1 = match old(self).style {
                    Some(_) => old(self).rng,
                    None => xorshift32(old(self).rng),
                };
                &&& final(self).chosen == chosen
                &&& final(self).rng == xorshift32(rng1)
                &&& seed == Some(xorshift32(rng1) >> 8u32)
                &&& final(self).enabled == old(self).enabled
                &&& final(self).style == old(self).style
            },
    {
        if !self.enabled {
            return None;
        }
        let chosen = match self.style {
            Some(style) => style,
            None => self.pick(),
        };
        self.chosen = chosen;
        let mut g = Xorshift32::new(self.rng);
        let bits = g.next_unit_bits();
        self.rng = g.state;
        Some(bits)
    }
}

/// A transition never repeats a style: a free choice always lands somewhere
/// other than where the last one did.
pub proof fn lemma_never_repeats(current: BleedStyle, draw: u32)
    ensures
        next_style(current, draw) != current,
{
    let n = style_number(current);
    let k = (n + 1 + (draw as int % 5)) % 6;
    assert(0 <= draw as int % 5 < 5);
    assert(k != n);
    assert(0 <= k < 6);
}

impl Default for Transition {
    /// Enabled, free to choose, starting from the first style.
    fn default() -> (t: Transition)
        ensures
            t.enabled,
            t.style is None,
            t.chosen == BleedStyle::Smear,
            t.rng == 0x2545_F491,
    {
        Transition::new()
    }
}

} // verus!
