pub mod container;
pub mod container_runs;
pub mod container_utils;
pub mod flow;
pub mod lima;
pub mod profile_cache;
pub mod provision;
pub mod session;
pub mod shared;
pub mod types;
pub mod workspace;

use vstd::prelude::*;

verus! {

/// What a profile says of its sandboxes.
#[derive(Debug)]
pub struct SandboxManifest {
    pub resources: Option<ResourceLimits>,
    /// Directories outside with the places inside, each outside directory once.
    pub mounts: Option<Vec<(String, String)>>,
}

/// How much of the machine a sandbox gets.
#[derive(Debug)]
pub struct ResourceLimits {
    pub cpus: Option<u32>,
    pub memory: Option<String>,
}

/// A sandbox in a list.
#[derive(Debug)]
pub struct SandboxEntry {
    pub id: String,
    pub status: String,
    pub mount: String,
}

/// The settings that a profile comes to.
#[derive(Debug)]
pub struct ProfileSettings {
    pub cpus: Option<u32>,
    pub memory: Option<String>,
    pub workspace_guest_path: String,
}

} // verus!
