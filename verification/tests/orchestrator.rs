use mod_updater::modrinth::{File, Hit, Loaders, SearchResult, Version};
use mod_updater::orchestrator::{
    apply, download_step, hit_step, is_jar, plan_downloads, plan_update, plan_updates,
    remove_from_pack, upgrade_step, DownloadStep, HitStep, Outcome, Removal, Task, UpdatePlan,
    UpgradeStep,
};
use mod_updater::{Config, Error, InstalledMod, ModManifest};

fn file(filename: &str) -> File {
    File {
        hashes: mod_updater::modrinth::Hash { sha512: String::from("512"), sha1: String::from("1") },
        url: format!("https://cdn.example/{filename}"),
        filename: filename.to_string(),
        primary: true,
        size: 1,
        file_type: None,
    }
}

fn release(name: &str, files: &[&str]) -> Version {
    Version {
        name: name.to_string(),
        version_number: String::from("1"),
        changelog: None,
        dependencies: Vec::new(),
        game_versions: vec![String::from("1.21")],
        version_type: String::from("release"),
        loaders: vec![String::from("fabric")],
        featured: false,
        status: String::from("listed"),
        requested_status: None,
        id: String::from("id"),
        project_id: String::from("project"),
        author_id: String::from("author"),
        date_published: String::from("2024-01-01T00:00:00Z"),
        downloads: 0,
        changelog_url: None,
        files: files.iter().map(|f| file(f)).collect(),
    }
}

fn hit(slug: &str) -> Hit {
    Hit {
        title: slug.to_uppercase(),
        description: String::from("a mod"),
        slug: slug.to_string(),
        project_id: String::from("p"),
        author: String::from("someone"),
        display_categories: Vec::new(),
        versions: Vec::new(),
        follows: 0,
        date_created: String::new(),
        date_modified: String::new(),
        latest_version: String::new(),
        license: String::new(),
        gallery: Vec::new(),
        featured_gallery: None,
    }
}

fn search(slugs: &[&str]) -> SearchResult {
    SearchResult {
        hits: slugs.iter().map(|s| hit(s)).collect(),
        offset: 0,
        limit: 5,
        total_hits: 0,
    }
}

fn answers(texts: &[&str]) -> Vec<String> {
    texts.iter().map(|t| t.to_string()).collect()
}

fn installed(version: &str, file: &str) -> InstalledMod {
    InstalledMod { version: version.to_string(), file: file.to_string() }
}

fn done(item: &str, version: &str, file: &str) -> Outcome {
    Outcome::Installed { item: item.to_string(), installed: installed(version, file) }
}

fn failed(item: &str, error: Error) -> Outcome {
    Outcome::Failed { item: item.to_string(), error }
}

fn pack(mods: &[&str]) -> Config {
    Config {
        loader: Loaders::Fabric,
        version: String::from("1.21"),
        mods: mods.iter().map(|m| m.to_string()).collect(),
    }
}

fn names(texts: &[&str]) -> Vec<String> {
    texts.iter().map(|t| t.to_string()).collect()
}

#[test]
fn download_without_releases_fails() {
    assert_eq!(
        download_step(&Vec::new(), false, &answers(&[])),
        DownloadStep::Failed(Error::NoVersionsFound)
    );
    assert_eq!(
        download_step(&Vec::new(), true, &answers(&["0"])),
        DownloadStep::Failed(Error::NoVersionsFound)
    );
}

#[test]
fn download_of_a_single_release_asks_nothing() {
    let versions = vec![release("1.0", &["a.jar"])];
    assert_eq!(
        download_step(&versions, false, &answers(&[])),
        DownloadStep::Fetch { release: 0, file: 0 }
    );
}

#[test]
fn download_of_the_latest_takes_the_first_release() {
    let versions = vec![release("2.0", &["b.jar"]), release("1.0", &["a.jar"])];
    assert_eq!(
        download_step(&versions, true, &answers(&[])),
        DownloadStep::Fetch { release: 0, file: 0 }
    );
}

#[test]
fn download_asks_for_the_release_then_for_the_file() {
    let versions = vec![
        release("3.0", &["c.jar"]),
        release("2.0", &["b.jar", "b-sources.jar"]),
        release("1.0", &[]),
    ];
    assert_eq!(download_step(&versions, false, &answers(&[])), DownloadStep::AskRelease);
    assert_eq!(
        download_step(&versions, false, &answers(&["0"])),
        DownloadStep::Fetch { release: 0, file: 0 }
    );
    assert_eq!(
        download_step(&versions, false, &answers(&["1\n"])),
        DownloadStep::AskFile { release: 1 }
    );
    assert_eq!(
        download_step(&versions, false, &answers(&["1\n", "1\n"])),
        DownloadStep::Fetch { release: 1, file: 1 }
    );
    assert_eq!(
        download_step(&versions, false, &answers(&["2"])),
        DownloadStep::Failed(Error::NoFilesFound)
    );
}

#[test]
fn download_rejects_answers_that_select_nothing() {
    let versions = vec![release("2.0", &["b.jar", "b-sources.jar"]), release("1.0", &["a.jar"])];
    assert_eq!(
        download_step(&versions, false, &answers(&["2"])),
        DownloadStep::Failed(Error::InvalidSelection)
    );
    assert_eq!(
        download_step(&versions, false, &answers(&["first"])),
        DownloadStep::Failed(Error::InvalidSelection)
    );
    assert_eq!(
        download_step(&versions, false, &answers(&["0", "x"])),
        DownloadStep::Failed(Error::InvalidSelection)
    );
}

#[test]
fn download_holds_a_file_answer_to_the_number_of_files() {
    let versions = vec![
        release("3.0", &["c.jar", "c-sources.jar"]),
        release("2.0", &["b.jar"]),
        release("1.0", &["a.jar"]),
    ];
    assert_eq!(
        download_step(&versions, false, &answers(&["0", "2"])),
        DownloadStep::Failed(Error::InvalidSelection)
    );
    let versions = vec![release("3.0", &["c.jar", "c-sources.jar", "c-dev.jar"]), release("2.0", &[])];
    assert_eq!(
        download_step(&versions, false, &answers(&["0", "2"])),
        DownloadStep::Fetch { release: 0, file: 2 }
    );
}

#[test]
fn download_of_a_single_release_reads_the_first_answer_for_the_file() {
    let versions = vec![release("1.0", &["a.jar", "a-sources.jar"])];
    assert_eq!(download_step(&versions, false, &answers(&[])), DownloadStep::AskFile { release: 0 });
    assert_eq!(
        download_step(&versions, false, &answers(&["1"])),
        DownloadStep::Fetch { release: 0, file: 1 }
    );
    assert_eq!(download_step(&versions, true, &answers(&[])), DownloadStep::AskFile { release: 0 });
}

#[test]
fn installed_outcome_names_release_and_file() {
    let version = release("Sodium 0.6", &["sodium-0.6.jar"]);
    let outcome = Outcome::installed(String::from("sodium"), &version, &version.files[0]);
    assert_eq!(outcome, done("sodium", "Sodium 0.6", "sodium-0.6.jar"));
    assert_eq!(outcome.item(), "sodium");
    let outcome = Outcome::failed(String::from("lithium"), Error::NotFound);
    assert_eq!(outcome, failed("lithium", Error::NotFound));
    assert_eq!(outcome.item(), "lithium");
}

#[test]
fn apply_records_installed_mods() {
    let outcomes = vec![done("a", "1", "a.jar"), done("b", "2", "b.jar")];
    let manifest = apply(&outcomes, ModManifest::new());
    assert_eq!(manifest.len(), 2);
    assert_eq!(manifest.get(&String::from("a")), Some(&installed("1", "a.jar")));
    assert_eq!(manifest.get(&String::from("b")), Some(&installed("2", "b.jar")));
}

#[test]
fn apply_overwrites_an_earlier_entry() {
    let mut manifest = ModManifest::new();
    manifest.insert(String::from("a"), installed("1", "a-1.jar"));
    let manifest = apply(&vec![done("a", "2", "a-2.jar")], manifest);
    assert_eq!(manifest.len(), 1);
    assert_eq!(manifest.get(&String::from("a")), Some(&installed("2", "a-2.jar")));
}

#[test]
fn applying_the_same_download_twice_changes_nothing() {
    let outcomes = vec![done("a", "1", "a.jar"), failed("b", Error::NotFound)];
    let once = apply(&outcomes, ModManifest::new());
    let once_pairs = once.to_pairs();
    let twice = apply(&outcomes, once);
    assert_eq!(twice.to_pairs(), once_pairs);
    assert_eq!(twice.len(), 1);
    assert_eq!(twice.get(&String::from("a")), Some(&installed("1", "a.jar")));
}

#[test]
fn one_failure_spares_the_others() {
    let outcomes = vec![
        done("x", "1", "x.jar"),
        failed("y", Error::RegistryUnavailable),
        done("z", "3", "z.jar"),
    ];
    let manifest = apply(&outcomes, ModManifest::new());
    assert_eq!(manifest.len(), 2);
    assert_eq!(manifest.get(&String::from("x")), Some(&installed("1", "x.jar")));
    assert_eq!(manifest.get(&String::from("y")), None);
    assert_eq!(manifest.get(&String::from("z")), Some(&installed("3", "z.jar")));
    let reported: Vec<&Outcome> =
        outcomes.iter().filter(|o| matches!(o, Outcome::Failed { .. })).collect();
    assert_eq!(reported, vec![&failed("y", Error::RegistryUnavailable)]);
}

#[test]
fn a_failure_leaves_an_existing_entry_alone() {
    let mut manifest = ModManifest::new();
    manifest.insert(String::from("y"), installed("0", "y-0.jar"));
    let manifest = apply(&vec![failed("y", Error::Filesystem)], manifest);
    assert_eq!(manifest.len(), 1);
    assert_eq!(manifest.get(&String::from("y")), Some(&installed("0", "y-0.jar")));
}

#[test]
fn update_with_the_newest_file_on_disk_fetches_nothing() {
    let versions = vec![release("2.0", &["m-2.jar"]), release("1.0", &["m-1.jar"])];
    let plan = plan_update(&versions, &names(&["other.jar", "m-1.jar", "m-2.jar"])).unwrap();
    assert_eq!(
        plan,
        UpdatePlan::UpToDate { version: String::from("2.0"), filename: String::from("m-2.jar") }
    );
    assert_eq!(plan.report(&String::from("m")), "'m' is already up to date");
    assert_eq!(plan.installed(), installed("2.0", "m-2.jar"));
}

#[test]
fn update_removes_the_older_file_and_installs_the_newest() {
    let versions = vec![
        release("3.0", &["m-3.jar", "m-3-sources.jar"]),
        release("2.0", &["m-2.jar"]),
        release("1.0", &["m-1.jar"]),
    ];
    let plan = plan_update(&versions, &names(&["notes.txt", "m-1.jar", "other.jar"])).unwrap();
    assert_eq!(
        plan,
        UpdatePlan::Install {
            remove: names(&["m-1.jar"]),
            url: String::from("https://cdn.example/m-3.jar"),
            filename: String::from("m-3.jar"),
            version: String::from("3.0"),
        }
    );
    assert_eq!(plan.report(&String::from("m")), "Updated 'm' to '3.0'");
    assert_eq!(plan.installed(), installed("3.0", "m-3.jar"));
}

#[test]
fn update_removes_every_older_file_in_the_order_of_the_listing() {
    let versions = vec![
        release("3.0", &["m-3.jar"]),
        release("2.0", &["m-2.jar"]),
        release("1.5", &[]),
        release("1.0", &["m-1.jar", "m-1-extra.jar"]),
    ];
    let plan = plan_update(&versions, &names(&["m-1.jar", "m-1-extra.jar", "m-2.jar"])).unwrap();
    match plan {
        UpdatePlan::Install { remove, .. } => assert_eq!(remove, names(&["m-1.jar", "m-2.jar"])),
        UpdatePlan::UpToDate { .. } => panic!("the newest file is not on disk"),
    }
}

#[test]
fn update_with_nothing_on_disk_only_installs() {
    let versions = vec![release("2.0", &["m-2.jar"]), release("1.0", &["m-1.jar"])];
    let plan = plan_update(&versions, &Vec::new()).unwrap();
    match plan {
        UpdatePlan::Install { remove, filename, .. } => {
            assert!(remove.is_empty());
            assert_eq!(filename, "m-2.jar");
        }
        UpdatePlan::UpToDate { .. } => panic!("the newest file is not on disk"),
    }
}

#[test]
fn update_without_releases_or_files_fails() {
    assert_eq!(plan_update(&Vec::new(), &names(&["m.jar"])), Err(Error::NoVersionsFound));
    let versions = vec![release("2.0", &[]), release("1.0", &["m-1.jar"])];
    assert_eq!(plan_update(&versions, &names(&["m-1.jar"])), Err(Error::NoFilesFound));
}

#[test]
fn downloads_are_planned_for_what_is_missing() {
    let config = pack(&["a", "b", "c"]);
    let mut manifest = ModManifest::new();
    manifest.insert(String::from("b"), installed("1", "b.jar"));
    let tasks = plan_downloads(&config, &manifest);
    let download = |item: &str| Task::Download {
        item: item.to_string(),
        loader: Loaders::Fabric,
        game_version: String::from("1.21"),
        latest: true,
    };
    assert_eq!(tasks, vec![download("a"), download("c")]);
    assert!(plan_downloads(&pack(&[]), &manifest).is_empty());
    assert!(plan_downloads(&pack(&["b"]), &manifest).is_empty());
}

#[test]
fn updates_are_planned_for_every_mod() {
    let tasks = plan_updates(&pack(&["a", "b"]));
    let update = |item: &str| Task::Update {
        item: item.to_string(),
        loader: Loaders::Fabric,
        game_version: String::from("1.21"),
    };
    assert_eq!(tasks, vec![update("a"), update("b")]);
    assert!(plan_updates(&pack(&[])).is_empty());
}

#[test]
fn removing_a_mod_drops_it_from_pack_and_manifest() {
    let mut config = pack(&["a", "b"]);
    let mut manifest = ModManifest::new();
    manifest.insert(String::from("a"), installed("1", "a.jar"));
    manifest.insert(String::from("b"), installed("1", "b.jar"));
    let removal = remove_from_pack(&mut config, &mut manifest, &String::from("a"));
    assert_eq!(removal, Removal::Removed { file: Some(String::from("a.jar")) });
    assert_eq!(config.mods, vec!["b"]);
    assert_eq!(manifest.len(), 1);
    assert!(manifest.contains_key(&String::from("b")));
}

#[test]
fn removing_a_mod_without_an_entry_names_no_file() {
    let mut config = pack(&["a", "b"]);
    let mut manifest = ModManifest::new();
    let removal = remove_from_pack(&mut config, &mut manifest, &String::from("b"));
    assert_eq!(removal, Removal::Removed { file: None });
    assert_eq!(config.mods, vec!["a"]);
    assert_eq!(manifest.len(), 0);
}

#[test]
fn removing_a_mod_that_is_not_in_the_pack_changes_nothing() {
    let mut config = pack(&["a"]);
    let mut manifest = ModManifest::new();
    manifest.insert(String::from("z"), installed("1", "z.jar"));
    let removal = remove_from_pack(&mut config, &mut manifest, &String::from("z"));
    assert_eq!(removal, Removal::NotInPack);
    assert_eq!(config.mods, vec!["a"]);
    assert_eq!(manifest.get(&String::from("z")), Some(&installed("1", "z.jar")));
}

#[test]
fn search_hits_are_chosen_like_releases() {
    assert_eq!(hit_step(&search(&[]), None), HitStep::Failed(Error::NotFound));
    assert_eq!(hit_step(&search(&["sodium"]), None), HitStep::Chosen(0));
    assert_eq!(hit_step(&search(&["sodium", "sodium-extra"]), None), HitStep::Ask);
    let answer = String::from("1\n");
    assert_eq!(hit_step(&search(&["sodium", "sodium-extra"]), Some(&answer)), HitStep::Chosen(1));
    let answer = String::from("2\n");
    assert_eq!(
        hit_step(&search(&["sodium", "sodium-extra"]), Some(&answer)),
        HitStep::Failed(Error::InvalidSelection)
    );
}

#[test]
fn upgrade_always_asks() {
    assert_eq!(upgrade_step(0, None), UpgradeStep::NothingNewer);
    let answer = String::from("0");
    assert_eq!(upgrade_step(0, Some(&answer)), UpgradeStep::NothingNewer);
    assert_eq!(upgrade_step(1, None), UpgradeStep::Ask);
    assert_eq!(upgrade_step(1, Some(&answer)), UpgradeStep::Chosen(0));
    let answer = String::from(" 2 ");
    assert_eq!(upgrade_step(3, Some(&answer)), UpgradeStep::Chosen(2));
    assert_eq!(upgrade_step(2, Some(&answer)), UpgradeStep::Failed(Error::InvalidSelection));
    let answer = String::from("newest");
    assert_eq!(upgrade_step(2, Some(&answer)), UpgradeStep::Failed(Error::InvalidSelection));
}

#[test]
fn jar_files_are_told_by_their_ending() {
    assert!(is_jar(&String::from("sodium.jar")));
    assert!(is_jar(&String::from(".jar")));
    assert!(is_jar(&String::from("é.jar")));
    assert!(!is_jar(&String::from("jar")));
    assert!(!is_jar(&String::from("sodium.jar.disabled")));
    assert!(!is_jar(&String::from("sodium.JAR")));
    assert!(!is_jar(&String::from("")));
    assert!(!is_jar(&String::from("mods.yaml")));
}

#[test]
fn the_order_of_completion_does_not_matter() {
    let in_order = vec![
        done("x", "1", "x.jar"),
        failed("y", Error::NoFilesFound),
        done("z", "3", "z.jar"),
    ];
    let reversed = vec![
        done("z", "3", "z.jar"),
        failed("y", Error::NoFilesFound),
        done("x", "1", "x.jar"),
    ];
    let mut start = ModManifest::new();
    start.insert(String::from("y"), installed("0", "y.jar"));
    let mut other = ModManifest::new();
    other.insert(String::from("y"), installed("0", "y.jar"));
    let mut a = apply(&in_order, start).to_pairs();
    let mut b = apply(&reversed, other).to_pairs();
    a.sort_by(|p, q| p.0.cmp(&q.0));
    b.sort_by(|p, q| p.0.cmp(&q.0));
    assert_eq!(a, b);
    assert_eq!(a.len(), 3);
}

#[test]
fn a_second_download_of_a_pack_plans_nothing() {
    let config = pack(&["a", "b"]);
    let first = plan_downloads(&config, &ModManifest::new());
    assert_eq!(first.len(), 2);
    let manifest = apply(&vec![done("a", "1", "a.jar"), done("b", "1", "b.jar")], ModManifest::new());
    assert!(plan_downloads(&config, &manifest).is_empty());
}

#[test]
fn every_task_names_its_mod() {
    let download = Task::Download {
        item: String::from("a"),
        loader: Loaders::Fabric,
        game_version: String::from("1.21"),
        latest: true,
    };
    let update = Task::Update {
        item: String::from("b"),
        loader: Loaders::Fabric,
        game_version: String::from("1.21"),
    };
    let remove = Task::Remove { item: String::from("c") };
    assert_eq!(download.item(), "a");
    assert_eq!(update.item(), "b");
    assert_eq!(remove.item(), "c");
}

#[test]
fn a_pack_without_repeats_gets_one_task_for_each_mod() {
    let config = pack(&["a", "b", "c"]);
    let tasks = plan_downloads(&config, &ModManifest::new());
    let items: Vec<&String> = tasks.iter().map(|t| t.item()).collect();
    assert_eq!(items, vec!["a", "b", "c"]);
    let tasks = plan_updates(&config);
    let items: Vec<&String> = tasks.iter().map(|t| t.item()).collect();
    assert_eq!(items, vec!["a", "b", "c"]);
}
