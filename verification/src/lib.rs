pub mod config;
pub mod datacenter;
pub mod geo;
pub mod matchmaker;
pub mod model;
pub mod player;
pub mod rng;
pub mod search;
pub mod simulation;
pub mod snapshot;
pub mod stats;
pub mod units;
