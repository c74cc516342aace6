#![allow(non_snake_case)]

use vstd::prelude::*;

pub mod numbers;
pub mod types;
pub mod configuration;
pub mod clock;
pub mod matchmaker;
pub mod buckets;
pub mod matching;
pub mod matching_laws;
pub mod auth;
pub mod metrics;
pub mod ids;
pub mod service;
pub mod queue;
pub mod delivery;
pub mod matchmaker_laws;
pub mod settings;
