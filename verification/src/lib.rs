//! Verified core of a small submission-tracking web service: request
//! validation, upload bookkeeping, listing (filter, sort, paginate) and the
//! configuration decisions the server makes at start-up.

pub mod text;
pub mod model;
pub mod ids;
pub mod errors;
pub mod validate;
pub mod uploads;
pub mod listing;
pub mod config;
pub mod store;
