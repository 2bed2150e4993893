//! Verified core of a container-oriented operating system: resource model,
//! reconciliation decisions, scheduling queue and configuration rendering.
pub mod text;
pub mod model;
pub mod keymap;
pub mod queue;
pub mod resource;
pub mod json;
pub mod state;
pub mod install;
pub mod api;
pub mod reconcile;
pub mod dns;
pub mod container;
pub mod network;
pub mod system;
pub mod managers;
pub mod linux;
pub mod boot;
pub mod messages;
