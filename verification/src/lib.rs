//! Decision logic of a mod-pack manager: which game versions every mod of a
//! pack supports, what a download or an update of one mod has to do next, and
//! how finished tasks are merged into the record of installed mods.
//!
//! Nothing in this library touches the network, the terminal or the disk.
//! Callers perform those effects and hand the results back as plain values.

pub mod command;
pub mod config;
pub mod error;
pub mod manifest;
pub mod modrinth;
pub mod orchestrator;
pub mod registry;
pub mod report;
pub mod resolver;
pub mod selection;

pub use command::{Cli, Commands, PackCommand};
pub use config::Config;
pub use error::Error;
pub use manifest::{InstalledMod, ModManifest};
