//! Mode S / ADS-B decoding: from raw IQ samples to per-aircraft state.
//!
//! The way of a signal through the crate:
//!
//! - `demod` turns pairs of IQ samples into magnitudes;
//! - `detect` finds preambles in the magnitudes, reads the bits behind them
//!   and keeps the frames that pass the checksum of `crc`, repairing one or
//!   two bits where that makes a frame pass; `syndrome` shows that a frame
//!   with one inverted bit is repaired to the frame that was sent;
//! - `parser` decodes the payload of a frame into an observation, with `cpr`
//!   for the position that a pair of position messages gives;
//! - `tracker` gathers the observations of each aircraft;
//! - `event` makes of an aircraft the record that is sent out.
//!
//! Beside that way stand `hexline`, which reads frames from lines of text,
//! `device`, which reads what a radio says of itself, and `schedule`, which
//! says when a receiver owes its heartbeats.
//!
//! The crate is verified with Verus; the little that it takes on trust of
//! the standard library and of the crate `hex` is marked where it stands.
//! Quantities that a radio application usually keeps in floating point are
//! held here as
//! integers: angles in units of 10^-8 degree, speeds in thousandths of a
//! knot, distances in thousandths of a nautical mile and times in
//! milliseconds. What needs the trigonometry of floating point, the distance
//! between two positions and the direction of a velocity, is left to the
//! caller and taken in as a number.

pub mod cpr;
pub mod crc;
pub mod demod;
pub mod detect;
pub mod device;
pub mod event;
pub mod hexline;
pub mod parser;
pub mod schedule;
pub mod syndrome;
pub mod text;
pub mod tracker;
pub mod types;
pub mod units;

pub use crate::cpr::CprContext;
pub use crate::crc::verify_crc;
pub use crate::demod::MagnitudeTable;
pub use crate::detect::{DetectorStats, Frame, FrameType, ModeS};
pub use crate::parser::{parse_message, ParseError};
pub use crate::tracker::{AircraftState, AircraftTracker, TrackerStats};
pub use crate::types::{AircraftData, DownlinkFormat};
