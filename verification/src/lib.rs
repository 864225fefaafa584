//! Campsite availability for a regional park-reservation service: the
//! data model of its three endpoints, the requests sent to them, the
//! aggregation of their answers into one report per park, and the
//! contiguous date axis over which the reports are shown.

pub mod date;
pub mod text;
pub mod order;
pub mod model;
pub mod natural;
pub mod report;
pub mod request;
pub mod pipeline;
pub mod render;
pub mod snapshot;
