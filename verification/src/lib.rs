//! The verified core of an agent execution kernel.
#![allow(unused_imports)]

pub mod action;
pub mod api;
pub mod broker;
pub mod budget;
pub mod bytes;
pub mod capability;
pub mod constraints;
pub mod delta;
pub mod denial;
pub mod effect;
pub mod error;
pub mod glob;
pub mod hash;
pub mod identity;
pub mod ids;
pub mod json;
pub mod layout;
pub mod ledger;
pub mod lines;
pub mod net;
pub mod observation;
pub mod path;
pub mod policy;
pub mod principal;
pub mod replay;
pub mod scheduler;
pub mod sorted;
pub mod state;
pub mod sync;
pub mod table;
pub mod text;
pub mod time;
pub mod traits;
