//! Verified core of a caldir provider for Proton Calendar.
pub mod api;
pub mod auth;
pub mod calendar;
pub mod connect;
pub mod constants;
pub mod decimal;
pub mod duration;
pub mod ics;
pub mod keys;
pub mod listing;
pub mod mapping;
pub mod properties;
pub mod remote_config;
pub mod session;
pub mod text;
pub mod timestamps;
