#![allow(unused_imports)]
use vstd::prelude::*;

pub mod api;
pub mod cache;
pub mod chat;
pub mod classifier;
pub mod config;
pub mod cost;
pub mod float;
pub mod json;
pub mod logging;
pub mod order;
pub mod pipeline;
pub mod plan;
pub mod privacy;
pub mod providers;
pub mod retry;
pub mod router;
pub mod startup;
pub mod stats;
pub mod stream;
pub mod table;
pub mod text;
pub mod validate;
