//! Driver logic of a command-line language identifier: the minimum-length filter that
//! keeps short texts away from the detector, the choice of input mode, the
//! validation of language restrictions, and the rendering of results as
//! delimited records.
pub mod length;
pub mod record;
pub mod mode;
pub mod languages;
pub mod input;
pub mod driver;
pub mod laws;
