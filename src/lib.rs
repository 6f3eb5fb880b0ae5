//! The dragon curve behind an animated landing-page logo: a generator for the
//! curve's point sequence and the tick-driven state machine that grows it.

pub mod curve;
pub mod driver;
