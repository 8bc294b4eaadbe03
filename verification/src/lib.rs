//! Planning library for re-encoding a media collection.

pub mod backend;
pub mod cli;
pub mod codec;
pub mod container;
pub mod convert;
pub mod inhibit;
pub mod journal;
pub mod listing;
pub mod metadata;
pub mod order;
pub mod output;
pub mod path;
pub mod probe;
pub mod profile;
pub mod progress;
pub mod reading;
pub mod running;
pub mod scan;
pub mod session;
pub mod text;
pub mod units;
pub mod upscale;
pub mod workers;
