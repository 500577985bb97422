//! Verified core of the Plentra energy-market analytics backend: contract
//! symbols, calendar arithmetic, request parameters, record ordering and the
//! response cache.

pub mod admin;
pub mod cache;
pub mod calendar;
pub mod changepoint;
pub mod config;
pub mod css;
pub mod entsoe;
pub mod history;
pub mod instruments;
pub mod ordering;
pub mod pse;
pub mod scheduler;
pub mod signals;
pub mod stooq;
pub mod summary;
pub mod text;
