//! Host inventory and configuration analysis: parsers for firewall listings,
//! systemd unit descriptions, container definitions and procfs text.

pub mod collector;
pub mod docker;
pub mod dockerfile;
pub mod firewall;
pub mod inventory;
pub mod json;
pub mod logs;
pub mod metrics;
pub mod models;
pub mod report;
pub mod sysinfo;
pub mod systemd;
pub mod text;
pub mod yaml;
