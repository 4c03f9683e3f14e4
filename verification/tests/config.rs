use mod_updater::modrinth::Loaders;
use mod_updater::Config;

fn pack(mods: &[&str]) -> Config {
    Config {
        loader: Loaders::Fabric,
        version: String::from("1.21"),
        mods: mods.iter().map(|m| m.to_string()).collect(),
    }
}

#[test]
fn new_pack_has_no_mods() {
    let config = Config::new(Loaders::Quilt, String::from("1.20.1"));
    assert_eq!(config.loader, Loaders::Quilt);
    assert_eq!(config.version, "1.20.1");
    assert!(config.mods.is_empty());
}

#[test]
fn contains_finds_exact_names() {
    let config = pack(&["sodium", "lithium"]);
    assert!(config.contains(&String::from("sodium")));
    assert!(config.contains(&String::from("lithium")));
    assert!(!config.contains(&String::from("Sodium")));
    assert!(!config.contains(&String::from("")));
}

#[test]
fn add_appends_once() {
    let mut config = pack(&["sodium"]);
    assert!(config.add(String::from("lithium")));
    assert_eq!(config.mods, vec!["sodium", "lithium"]);
    assert!(!config.add(String::from("sodium")));
    assert_eq!(config.mods, vec!["sodium", "lithium"]);
}

#[test]
fn remove_takes_out_every_occurrence() {
    let mut config = pack(&["a", "b", "a", "c"]);
    assert!(config.remove(&String::from("a")));
    assert_eq!(config.mods, vec!["b", "c"]);
    assert!(!config.remove(&String::from("a")));
    assert_eq!(config.mods, vec!["b", "c"]);
    assert_eq!(config.version, "1.21");
}

#[test]
fn sort_mods_orders_by_code_points() {
    let mut config = pack(&["zinc", "Zinc", "alpha", "alp", "é", "b", "alpha"]);
    config.sort_mods();
    assert_eq!(config.mods, vec!["Zinc", "alp", "alpha", "alpha", "b", "zinc", "é"]);
    assert_eq!(config.loader, Loaders::Fabric);
}

#[test]
fn with_version_keeps_the_rest() {
    let config = pack(&["sodium"]).with_version(String::from("1.22"));
    assert_eq!(config.version, "1.22");
    assert_eq!(config.loader, Loaders::Fabric);
    assert_eq!(config.mods, vec!["sodium"]);
}
