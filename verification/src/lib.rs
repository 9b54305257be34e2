//! Core logic of the sendword webhook runner.
use vstd::prelude::*;

pub mod auth;
pub mod backup;
pub mod barriers;
pub mod config;
pub mod config_writer;
pub mod error;
pub mod executor;
pub mod extractors;
pub mod hook_form;
pub mod hook_view;
pub mod interpolation;
pub mod json;
pub mod log_stream;
pub mod masking;
pub mod models;
pub mod notification;
pub mod payload;
pub mod retry;
pub mod scripts;
pub mod server;
pub mod text;
pub mod timing;
pub mod views;
pub mod trigger;
pub mod trigger_rules;

verus! {
}
