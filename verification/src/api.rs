//! The kernel's facade: authentication, configuration, and the decisions behind
//! each request.

pub mod audit;
pub mod auth;
pub mod auto;
pub mod branch;
pub mod capabilities;
pub mod config;
pub mod connector;
pub mod denials;
pub mod effects;
pub mod episodes;
pub mod explore;
pub mod http;
pub mod kernel;
pub mod local;
pub mod open;
pub mod step;
pub mod trace;
pub mod workspace;
