//! Conversion between FL Studio projects or scores and rhythm-game charts.

pub mod arrangement;
pub mod bytes;
pub mod chart;
pub mod cli;
pub mod conversion;
pub mod course;
pub mod flp;
pub mod fsc_export;
pub mod grouping;
pub mod inspect;
pub mod messages;
pub mod number;
pub mod output;
pub mod pipeline;
pub mod project;
pub mod report;
pub mod session;
pub mod sort;
pub mod text;
pub mod types;
