//! Core of a chart-driven playback scheduler: parsing timed event lists and
//! driving a pausable, resumable dispatch session over the parsed events.

pub mod chart;
pub mod id;
pub mod muse;
pub mod text;
