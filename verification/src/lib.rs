//! The discrete core of the fete show: the panel wire format and link state,
//! the visual registry, quality tiers, transition styles, the sign lexicon,
//! the flock's spatial grid and the small integer helpers the renderers share.

pub mod sim;
pub mod text;
pub mod protocol;
pub mod panel;
pub mod mailbox;
pub mod lexicon;
pub mod visual;
pub mod rng;
pub mod bleed;
pub mod quality;
pub mod grid;
pub mod video;
pub mod show;
pub mod slime;
pub mod ports;
