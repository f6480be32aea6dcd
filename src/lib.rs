//! A two-phase scheduling engine for pulse schedules.
//!
//! An element tree ([`schedule::Element`]) is first measured bottom-up
//! ([`schedule::measure`]), which gives each element the duration it asks
//! for, and then arranged top-down ([`schedule::arrange`]), which gives each
//! element its start time and final duration. Containers place their
//! children one after another on each channel ([`stack`]), at explicit
//! offsets ([`absolute`]), or as evenly spaced copies ([`repeat`]).
//!
//! Times are integers on a tick grid ([`quant`]); [`pulse`] holds pulse
//! envelopes and the time grouping of pulse lists.

pub mod absolute;
pub mod pulse;
pub mod quant;
pub mod repeat;
pub mod schedule;
pub mod stack;
