//! The deterministic spine of a tutor: grading, scheduling, prerequisites, session
//! planning and the rules every stored row obeys.

pub mod accepting;
pub mod answering;
pub mod api;
pub mod auth;
pub mod bkt;
pub mod calendar;
pub mod candidates;
pub mod closing;
pub mod config;
pub mod decimal;
pub mod double;
pub mod draining;
pub mod due;
pub mod error;
pub mod events;
pub mod finishing;
pub mod generation;
pub mod grade;
pub mod graph;
pub mod host;
pub mod json;
pub mod mcp;
pub mod models;
pub mod planner;
pub mod prereqs;
pub mod readiness;
pub mod reply;
pub mod service;
pub mod sittings;
pub mod srs;
pub mod store;
pub mod text;
pub mod trajectory;
