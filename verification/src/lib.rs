//! A policy engine that decides requests with Cedar policies.
//!
//! A gateway hands the engine an envelope: a decision point, a JSON input, and the circumstances of
//! the request. The engine turns it into a typed Cedar request, asks Cedar about it under the
//! policies in force, and answers with a decision.
//!
//! * [`config`] is the configuration of an operator, and what makes it acceptable.
//! * [`bundle`] loads policies, schema and entities.
//! * [`request`] turns an envelope into a Cedar request.
//! * [`decision`] turns Cedar's answer into a decision, with the obligations and redactions that
//!   [`advice`] reads off the annotations of policies.
//! * [`audit`] makes the audit events of denied requests, and [`clock`] their timestamps.
//! * [`cluster`] is what nodes tell each other about their policies.
//! * [`engine`] is how the engine introduces itself.
//! * [`protocol`], [`json`], [`text`] and [`calendar`] are what the rest is written in.
//! * [`cedar`] holds the calls into Cedar.

pub mod advice;
pub mod audit;
pub mod bundle;
pub mod calendar;
pub mod cedar;
pub mod clock;
pub mod cluster;
pub mod config;
pub mod decision;
pub mod engine;
pub mod json;
pub mod protocol;
pub mod request;
pub mod text;

pub use crate::config::{
    CedarConfig, ConfigError, DefaultDenyMode, EvaluationConfig, ReloadConfig, ResourceType,
    TranslationConfig,
};
