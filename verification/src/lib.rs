//! Verified core of a notification-automation tool: rules that match
//! desktop notifications, the variables extracted from them, the action
//! templates they fill in, and the settings and bookkeeping around them.
use vstd::prelude::*;

pub mod text;
pub mod strmap;
pub mod foreign;
pub mod property_list;
pub mod template;
pub mod template_frame;
pub mod paths;
pub mod notification_db;
pub mod variables;
pub mod rules;
pub mod validation;
pub mod automation;
pub mod analysis;
pub mod action_runner;
pub mod app_settings;
pub mod app_catalog;
pub mod notification_archive;
pub mod id_table;
pub mod dispatch;
pub mod record_cache;
pub mod tray_icon;
pub mod commands;

verus! {
} // verus!
