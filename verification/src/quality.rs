//! How hard the hardware may be pushed.
//!
//! Cost is a dial, and [`Tier`] is where it points. A visual owns its own
//! table of what to cut; the framework only says how much.

use vstd::prelude::*;

use crate::text::{
    ascii_lower_code, chars_of, is_white_space, lower_matches, range_lower_matches, trim_back,
    trim_range, trimmed, ws_end,
};

verus! {

/// Rendering effort. Chosen once at startup and held for the show.
#[derive(Debug, Clone, Copy, PartialEq, Eq, Structural, Hash, Default)]
pub enum Tier {
    /// What the visuals were authored at.
    #[default]
    High,
    /// Roughly half the cost of `High`, and meant to be hard to spot in motion.
    Medium,
    /// As cheap as a visual can be while still being recognisably itself.
    Low,
}

/// A definition handed to every specialised shader.
#[derive(Debug, Clone, Copy, PartialEq, Eq)]
pub enum ShaderDef {
    /// A named unsigned constant.
    UInt(&'static str, u32),
    /// A named flag.
    Bool(&'static str, bool),
}

/// What a command-line or environment value names, case-insensitively and
/// ignoring surrounding whitespace.
pub open spec fn tier_named(name: Seq<char>) -> Option<Tier> {
    let t = trimmed(name);
    if lower_matches(t, "high"@) {
        Some(Tier::High)
    } else if lower_matches(t, "medium"@) || lower_matches(t, "med"@) {
        Some(Tier::Medium)
    } else if lower_matches(t, "low"@) {
        Some(Tier::Low)
    } else {
        None
    }
}

/// The positional pick for a tier.
pub open spec fn picked<T>(tier: Tier, high: T, medium: T, low: T) -> T {
    match tier {
        Tier::High => high,
        Tier::Medium => medium,
        Tier::Low => low,
    }
}

impl Tier {
    /// Every tier, most expensive first.
    pub fn all() -> (r: [Tier; 3])
        ensures
            r@ == seq![Tier::High, Tier::Medium, Tier::Low],
    {
        let r = [Tier::High, Tier::Medium, Tier::Low];
        assert(r@ =~= seq![Tier::High, Tier::Medium, Tier::Low]);
        r
    }

    /// Parse a command-line or environment value. Case-insensitive.
    pub fn parse(name: &str) -> (r: Option<Tier>)
        ensures
            r == tier_named(name@),
    {
        let v = chars_of(name);
        let (a, b) = trim_range(&v);
        if range_lower_matches(&v, a, b, "high") {
            Some(Tier::High)
        } else if range_lower_matches(&v, a, b, "medium") || range_lower_matches(&v, a, b, "med") {
            Some(Tier::Medium)
        } else if range_lower_matches(&v, a, b, "low") {
            Some(Tier::Low)
        } else {
            None
        }
    }

    /// The tier's name.
    pub fn as_str(self) -> (r: &'static str)
        ensures
            r == match self {
                Tier::High => "high",
                Tier::Medium => "medium",
                Tier::Low => "low",
            },
    {
        match self {
            Tier::High => "high",
            Tier::Medium => "medium",
            Tier::Low => "low",
        }
    }

    /// Pick the value for this tier.
    pub fn pick<T>(self, high: T, medium: T, low: T) -> (r: T)
        ensures
            r == picked(self, high, medium, low),
    {
        match self {
            Tier::High => high,
            Tier::Medium => medium,
            Tier::Low => low,
        }
    }

    /// Definitions handed to every specialised shader: `QUALITY_TIER` as
    /// `0`, `1` or `2`, then `QUALITY_MEDIUM` for medium or cheaper, and
    /// `QUALITY_LOW` for low.
    pub fn shader_defs(self) -> (r: Vec<ShaderDef>)
        ensures
            r@ == match self {
                Tier::High => seq![ShaderDef::UInt("QUALITY_TIER", 0)],
                Tier::Medium => seq![
                    ShaderDef::UInt("QUALITY_TIER", 1),
                    ShaderDef::Bool("QUALITY_MEDIUM", true),
                ],
                Tier::Low => seq![
                    ShaderDef::UInt("QUALITY_TIER", 2),
                    ShaderDef::Bool("QUALITY_MEDIUM", true),
                    ShaderDef::Bool("QUALITY_LOW", true),
                ],
            },
    {
        let mut defs: Vec<ShaderDef> = Vec::new();
        defs.push(ShaderDef::UInt("QUALITY_TIER", self.pick(0, 1, 2)));
        if self != Tier::High {
            defs.push(ShaderDef::Bool("QUALITY_MEDIUM", true));
        }
        if self == Tier::Low {
            defs.push(ShaderDef::Bool("QUALITY_LOW", true));
        }
        proof {
            match self {
                Tier::High => assert(defs@ =~= seq![ShaderDef::UInt("QUALITY_TIER", 0)]),
                Tier::Medium => assert(defs@ =~= seq![
                    ShaderDef::UInt("QUALITY_TIER", 1),
                    ShaderDef::Bool("QUALITY_MEDIUM", true),
                ]),
                Tier::Low => assert(defs@ =~= seq![
                    ShaderDef::UInt("QUALITY_TIER", 2),
                    ShaderDef::Bool("QUALITY_MEDIUM", true),
                    ShaderDef::Bool("QUALITY_LOW", true),
                ]),
            }
        }
        defs
    }
}

/// The PCI vendor id of Broadcom, whose VideoCore is the Raspberry Pi's GPU.
pub const BROADCOM: u32 = 0x14E4;

/// The synthetic vendor id Mesa gives its software renderers.
pub const MESA_SOFTWARE: u32 = 0x1_0005;

/// How expensive a tier is: higher costs more.
pub open spec fn tier_cost(tier: Tier) -> int {
    match tier {
        Tier::High => 2,
        Tier::Medium => 1,
        Tier::Low => 0,
    }
}

/// The tier after the start-up probe of the graphics adapter with vendor id
/// `vendor`. A tier nobody asked for (`auto`) drops to `Low` on hardware the
/// visuals were plainly not authored for: a Broadcom VideoCore or a software
/// renderer. A tier chosen on purpose is left alone.
pub open spec fn probe(tier: Tier, auto: bool, vendor: u32) -> Tier {
    if auto && (vendor == BROADCOM || vendor == MESA_SOFTWARE) {
        Tier::Low
    } else {
        tier
    }
}

/// Apply the start-up adapter probe; see [`probe`].
pub fn probed_tier(tier: Tier, auto: bool, vendor: u32) -> (r: Tier)
    ensures
        r == probe(tier, auto, vendor),
{
    if auto && (vendor == BROADCOM || vendor == MESA_SOFTWARE) {
        Tier::Low
    } else {
        tier
    }
}

/// The probe only ever moves the tier down, and never touches a tier that was
/// chosen on purpose.
pub proof fn lemma_probe_only_lowers(tier: Tier, auto: bool, vendor: u32)
    ensures
        tier_cost(probe(tier, auto, vendor)) <= tier_cost(tier),
        !auto ==> probe(tier, auto, vendor) == tier,
{
}

/// A tier's own name reads back as that tier.
pub proof fn lemma_names_parse_back(tier: Tier)
    ensures
        tier_named(
            match tier {
                Tier::High => "high"@,
                Tier::Medium => "medium"@,
                Tier::Low => "low"@,
            },
        ) == Some(tier),
{
    reveal_strlit("high");
    reveal_strlit("medium");
    reveal_strlit("med");
    reveal_strlit("low");
    let s = match tier {
        Tier::High => "high"@,
        Tier::Medium => "medium"@,
        Tier::Low => "low"@,
    };
    assert(!is_white_space(s[0]));
    assert(ws_end(s, 0) == 0);
    assert(!is_white_space(s[s.len() - 1]));
    assert(trim_back(s, s.len() as int) == s.len());
    assert(trimmed(s) =~= s);
    match tier {
        Tier::High => {
            assert(lower_matches(s, "high"@));
        },
        Tier::Medium => {
            assert(!lower_matches(s, "high"@));
            assert(lower_matches(s, "medium"@));
        },
        Tier::Low => {
            assert(!lower_matches(s, "high"@));
            assert(!lower_matches(s, "medium"@));
            assert(ascii_lower_code(s[0]) != "med"@[0] as u32);
            assert(!lower_matches(s, "med"@));
            assert(lower_matches(s, "low"@));
        },
    }
}

} // verus!
