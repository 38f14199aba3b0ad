//! Core of a model-routing reverse proxy: configuration, routing, request
//! rewriting, request metrics and the rotating metrics log.

pub mod text;
pub mod json;
pub mod timefmt;
pub mod config;
pub mod metrics;
pub mod router;
pub mod auto_router;
pub mod proxy;
pub mod metrics_log;
pub mod attach;
pub mod tui;
