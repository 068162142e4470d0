//! What the window of the program asks for: the decisions behind its commands.

pub mod aidesc;
pub mod app;
pub mod appearance;
pub mod benchhistory;
pub mod cleanup;
pub mod cleanup_detail;
pub mod cleanup_execute;
pub mod cleanup_locks;
pub mod contextmenu;
pub mod device;
pub mod diskbench;
pub mod elevate;
pub mod fileclean;
pub mod finder;
pub mod fonts;
pub mod log;
pub mod maintenance;
pub mod memory;
pub mod misc;
pub mod models;
pub mod netcheck;
pub mod netspeed;
pub mod reply;
pub mod rules;
pub mod rules_update;
