use mod_updater::modrinth::Loaders;
use mod_updater::orchestrator::Task;
use mod_updater::{Cli, Commands, Config, InstalledMod, ModManifest, PackCommand};

fn pack(mods: &[&str]) -> Config {
    Config {
        loader: Loaders::Forge,
        version: String::from("1.20.1"),
        mods: mods.iter().map(|m| m.to_string()).collect(),
    }
}

#[test]
fn a_download_command_is_a_download_task() {
    let cli = Cli {
        command: Commands::Download {
            mod_name: String::from("sodium"),
            loader: Loaders::Fabric,
            game_version: String::from("1.21"),
            latest: false,
        },
    };
    assert_eq!(
        cli.command.task(),
        Some(Task::Download {
            item: String::from("sodium"),
            loader: Loaders::Fabric,
            game_version: String::from("1.21"),
            latest: false,
        })
    );
}

#[test]
fn queries_and_pack_commands_are_no_task() {
    let versions = Commands::Versions {
        mod_name: String::from("sodium"),
        loader: None,
        game_version: None,
    };
    assert_eq!(versions.task(), None);
    let latest = Commands::Latest {
        mod_name: String::from("sodium"),
        loader: Loaders::Quilt,
        game_version: Some(String::from("1.21")),
    };
    assert_eq!(latest.task(), None);
    assert_eq!(Commands::Pack { command: PackCommand::Download }.task(), None);
}

#[test]
fn pack_download_plans_what_is_missing() {
    let mut manifest = ModManifest::new();
    manifest.insert(
        String::from("a"),
        InstalledMod { version: String::from("1"), file: String::from("a.jar") },
    );
    let tasks = PackCommand::Download.tasks(&pack(&["a", "b"]), &manifest);
    assert_eq!(
        tasks,
        vec![Task::Download {
            item: String::from("b"),
            loader: Loaders::Forge,
            game_version: String::from("1.20.1"),
            latest: true,
        }]
    );
}

#[test]
fn pack_update_plans_every_mod() {
    let tasks = PackCommand::Update.tasks(&pack(&["a", "b"]), &ModManifest::new());
    assert_eq!(
        tasks,
        vec![
            Task::Update {
                item: String::from("a"),
                loader: Loaders::Forge,
                game_version: String::from("1.20.1"),
            },
            Task::Update {
                item: String::from("b"),
                loader: Loaders::Forge,
                game_version: String::from("1.20.1"),
            },
        ]
    );
}

#[test]
fn pack_remove_plans_one_removal() {
    let command = PackCommand::Remove { mod_name: String::from("a") };
    let tasks = command.tasks(&pack(&["a", "b"]), &ModManifest::new());
    assert_eq!(tasks, vec![Task::Remove { item: String::from("a") }]);
    let tasks = command.tasks(&pack(&[]), &ModManifest::new());
    assert_eq!(tasks, vec![Task::Remove { item: String::from("a") }]);
}

#[test]
fn the_other_pack_commands_start_with_no_task() {
    let config = pack(&["a"]);
    let manifest = ModManifest::new();
    assert!(PackCommand::Upgrade.tasks(&config, &manifest).is_empty());
    assert!(PackCommand::List.tasks(&config, &manifest).is_empty());
    assert!(PackCommand::LatestGameVersion.tasks(&config, &manifest).is_empty());
    assert!(PackCommand::Add { mod_name: String::from("b") }.tasks(&config, &manifest).is_empty());
    let init = PackCommand::Init { loader: Loaders::Fabric, game_version: String::from("1.21") };
    assert!(init.tasks(&config, &manifest).is_empty());
}
