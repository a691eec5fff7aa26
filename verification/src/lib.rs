pub mod bringup;
pub mod cli;
pub mod commands;
pub mod config;
pub mod daemon;
pub mod decimals;
pub mod defaults;
pub mod double;
pub mod grammar;
pub mod hysteresis;
pub mod lifecycle;
pub mod literal;
pub mod log;
pub mod measures;
pub mod natural;
pub mod numeral;
pub mod policy;
pub mod procfs;
pub mod reading;
pub mod rounding;
pub mod settings;
pub mod status;
pub mod teardown;
pub mod telling;
pub mod text;
pub mod tiering;
pub mod tiers;
pub mod watchdog;
pub mod zram;
