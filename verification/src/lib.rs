//! Pace-shape projection and par-relative scoring for the horses of a race.
//!
//! A race is ranked in four steps. [`figures`] distils each horse's recent
//! starts into representative speed, early-pace and late-pace figures.
//! [`shape`] projects how contested the early pace of the race will be.
//! [`score`] measures each horse's figures against the pars of the race,
//! weighted by that shape, and [`workout`] adds a signal from recent
//! workouts. [`ranking`] puts the field in order, race by race.
//!
//! Every fractional quantity in this crate is a signed integer count of
//! millionths: a furlong distance of six and a half is `6_500_000`, and a
//! score of 2.15 is `2_150_000`. Divisions round towards negative infinity.
//!
//! The remaining modules serve the application around the ranking: reading
//! data files ([`table`], [`ingest`], [`decimal`]), naming record fields
//! ([`keys`]), storing results ([`storage`]), notes ([`notes`]) and the
//! state of a run ([`state`]).

pub mod decimal;
pub mod figures;
pub mod fixed;
pub mod ingest;
pub mod keys;
pub mod notes;
pub mod order;
pub mod racecard;
pub mod ranking;
pub mod score;
pub mod shape;
pub mod state;
pub mod storage;
pub mod style;
pub mod table;
pub mod text;
pub mod workout;
