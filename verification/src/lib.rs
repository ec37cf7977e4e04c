//! Verified core logic of the netai cloud controllers and services.
pub mod text;
pub mod sorted;
pub mod network;
pub mod cluster;
pub mod user_auth;
pub mod controller;
pub mod image;
pub mod actor;
pub mod kubegraph;
pub mod tracer;
