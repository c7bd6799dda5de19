//! Verified logic of `tnk`, a manager of per-project sandbox machines.

pub mod catalog;
pub mod cli;
pub mod config;
pub mod doctor;
pub mod download;
pub mod engine;
pub mod failure;
pub mod init;
pub mod json;
pub mod lifecycle;
pub mod model;
pub mod plan;
pub mod sandbox;
pub mod services;
pub mod shutdown;
pub mod text;
pub mod ui;
