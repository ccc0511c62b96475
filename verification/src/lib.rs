//! Energy meter readings and energy history: the parts of a PAC1954 power monitor that compute.

pub mod blob;
pub mod bytes;
pub mod calendar;
pub mod column;
pub mod database;
pub mod discovery;
pub mod emi;
pub mod jet;
pub mod json;
pub mod listing;
pub mod monitor;
pub mod opening;
pub mod report;
pub mod srum;
pub mod tables;
pub mod text;
pub mod utf16;
