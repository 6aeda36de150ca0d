use vstd::prelude::*;

pub mod client_core;
pub mod text;
pub mod launcher;
pub mod protocol;
pub mod session;
pub mod config;
pub mod conn;
pub mod agent;
pub mod json;
pub mod order;
pub mod property_list;
pub mod desktop;
