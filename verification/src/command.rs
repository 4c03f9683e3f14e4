//! The commands a user can give, and the tasks that a command hands to the
//! orchestrator.

use vstd::prelude::*;
use crate::config::Config;
use crate::manifest::ModManifest;
use crate::modrinth::Loaders;
use crate::orchestrator::{download_tasks, plan_downloads, plan_updates, update_tasks, Task};

verus! {

/// What the user asked for.
#[derive(Clone, Debug)]
pub struct Cli {
    pub command: Commands,
}

/// The commands.
#[derive(Clone, Debug)]
pub enum Commands {
    /// List all versions for a mod, filtered by loader and game version
    /// where they are given.
    Versions { mod_name: String, loader: Option<Loaders>, game_version: Option<String> },
    /// Show the latest version of a mod for a loader.
    Latest { mod_name: String, loader: Loaders, game_version: Option<String> },
    /// Download a mod for a loader and a game version; with `latest`, the
    /// newest release without asking.
    Download { mod_name: String, loader: Loaders, game_version: String, latest: bool },
    /// Operate on the mod pack in the current directory.
    Pack { command: PackCommand },
}

/// The commands that operate on a mod pack.
#[derive(Clone, Debug)]
pub enum PackCommand {
    /// Download the latest version of all mods in the pack.
    Download,
    /// Update the mods to their latest versions.
    Update,
    /// Move the pack to a newer game version that every mod supports.
    Upgrade,
    /// Create the pack's definition.
    Init { loader: Loaders, game_version: String },
    /// Add a mod to the pack.
    Add { mod_name: String },
    /// Remove a mod from the pack.
    Remove { mod_name: String },
    /// List the mods in the pack.
    List,
    /// List the latest game version for all mods in the pack.
    LatestGameVersion,
}

impl Commands {
    /// The task that the command is, if it is one: a download outside of
    /// any pack.
    pub open spec fn spec_task(self) -> Option<Task> {
        match self {
            Commands::Download { mod_name, loader, game_version, latest } => Some(
                Task::Download { item: mod_name, loader, game_version, latest },
            ),
            _ => None,
        }
    }

    /// The task that the command is, if it is one: a download outside of
    /// any pack. The other commands only query, or operate on a pack.
    pub fn task(&self) -> (task: Option<Task>)
        ensures
            task == self.spec_task(),
    {
        match self {
            Commands::Download { mod_name, loader, game_version, latest } => Some(
                Task::Download {
                    item: mod_name.clone(),
                    loader: *loader,
                    game_version: game_version.clone(),
                    latest: *latest,
                },
            ),
            _ => None,
        }
    }
}

impl PackCommand {
    /// The tasks that the command starts with, for a pack and the record of
    /// what is installed of it.
    pub open spec fn spec_tasks(
        self,
        config: Config,
        installed: Map<Seq<char>, (Seq<char>, Seq<char>)>,
    ) -> Seq<Task> {
        match self {
            PackCommand::Download => download_tasks(config, config.mods@, installed),
            PackCommand::Update => update_tasks(config),
            PackCommand::Remove { mod_name } => seq![Task::Remove { item: mod_name }],
            _ => Seq::empty(),
        }
    }

    /// The tasks that the command starts with: a download for each mod that
    /// is not installed, an update for each mod, or the removal of one mod.
    /// The other commands start with none: they ask the registry or the
    /// user first, or run no task at all.
    pub fn tasks(&self, config: &Config, manifest: &ModManifest) -> (tasks: Vec<Task>)
        ensures
            tasks@ == self.spec_tasks(*config, manifest@),
    {
        match self {
            PackCommand::Download => plan_downloads(config, manifest),
            PackCommand::Update => plan_updates(config),
            PackCommand::Remove { mod_name } => {
                let mut tasks: Vec<Task> = Vec::new();
                tasks.push(Task::Remove { item: mod_name.clone() });
                assert(tasks@ =~= seq![Task::Remove { item: *mod_name }]);
                tasks
            },
            _ => Vec::new(),
        }
    }
}

} // verus!
