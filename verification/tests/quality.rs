use fete::quality::{probed_tier, BROADCOM, MESA_SOFTWARE};
use fete::quality::{ShaderDef, Tier};

#[test]
fn parses_the_names_a_flag_would_carry() {
    assert_eq!(Tier::parse("low"), Some(Tier::Low));
    assert_eq!(Tier::parse("  HIGH "), Some(Tier::High));
    assert_eq!(Tier::parse("med"), Some(Tier::Medium));
    assert_eq!(Tier::parse("potato"), None);
}

#[test]
fn pick_selects_by_tier() {
    assert_eq!(Tier::High.pick(110, 64, 32), 110);
    assert_eq!(Tier::Medium.pick(110, 64, 32), 64);
    assert_eq!(Tier::Low.pick(110, 64, 32), 32);
}

#[test]
fn low_defines_medium_too() {
    let defs = Tier::Low.shader_defs();
    let names: Vec<&str> = defs
        .iter()
        .map(|def| match def {
            ShaderDef::Bool(name, _) => *name,
            ShaderDef::UInt(name, _) => *name,
        })
        .collect();
    assert!(names.contains(&"QUALITY_MEDIUM"));
    assert!(names.contains(&"QUALITY_LOW"));

    let high: Vec<_> = Tier::High.shader_defs();
    assert_eq!(high.len(), 1, "high tier defines only QUALITY_TIER");
}

#[test]
fn every_name_reads_back() {
    for tier in Tier::all() {
        assert_eq!(Tier::parse(tier.as_str()), Some(tier));
    }
    assert_eq!(Tier::parse("\tMedium\n"), Some(Tier::Medium));
    assert_eq!(Tier::parse("Ｌow"), None);
    assert_eq!(Tier::Medium.shader_defs()[0], ShaderDef::UInt("QUALITY_TIER", 1));
}

#[test]
fn the_probe_drops_an_automatic_tier_on_a_pi_or_a_software_renderer() {
    assert_eq!(probed_tier(Tier::High, true, 0x14E4), Tier::Low);
    assert_eq!(probed_tier(Tier::Medium, true, 0x1_0005), Tier::Low);
    assert_eq!(BROADCOM, 0x14E4);
    assert_eq!(MESA_SOFTWARE, 0x1_0005);
    // Any other adapter keeps what it had.
    assert_eq!(probed_tier(Tier::High, true, 0x10DE), Tier::High);
    // A tier asked for on purpose is never touched.
    assert_eq!(probed_tier(Tier::High, false, 0x14E4), Tier::High);
    assert_eq!(probed_tier(Tier::Medium, false, 0x1_0005), Tier::Medium);
}
