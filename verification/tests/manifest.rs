use mod_updater::{InstalledMod, ModManifest};

fn installed(version: &str, file: &str) -> InstalledMod {
    InstalledMod { version: version.to_string(), file: file.to_string() }
}

fn name(text: &str) -> String {
    text.to_string()
}

#[test]
fn new_manifest_is_empty() {
    let manifest = ModManifest::new();
    assert_eq!(manifest.len(), 0);
    assert!(!manifest.contains_key(&name("sodium")));
    assert_eq!(manifest.get(&name("sodium")), None);
    assert!(manifest.to_pairs().is_empty());
}

#[test]
fn insert_adds_and_replaces() {
    let mut manifest = ModManifest::new();
    manifest.insert(name("sodium"), installed("0.5", "sodium-0.5.jar"));
    manifest.insert(name("lithium"), installed("0.11", "lithium-0.11.jar"));
    assert_eq!(manifest.len(), 2);
    assert_eq!(manifest.get(&name("sodium")), Some(&installed("0.5", "sodium-0.5.jar")));
    manifest.insert(name("sodium"), installed("0.6", "sodium-0.6.jar"));
    assert_eq!(manifest.len(), 2);
    assert_eq!(manifest.get(&name("sodium")), Some(&installed("0.6", "sodium-0.6.jar")));
    assert_eq!(manifest.get(&name("lithium")), Some(&installed("0.11", "lithium-0.11.jar")));
}

#[test]
fn remove_returns_the_entry() {
    let mut manifest = ModManifest::new();
    manifest.insert(name("a"), installed("1", "a.jar"));
    manifest.insert(name("b"), installed("2", "b.jar"));
    manifest.insert(name("c"), installed("3", "c.jar"));
    assert_eq!(manifest.remove(&name("b")), Some(installed("2", "b.jar")));
    assert_eq!(manifest.len(), 2);
    assert!(!manifest.contains_key(&name("b")));
    assert!(manifest.contains_key(&name("a")));
    assert_eq!(manifest.get(&name("c")), Some(&installed("3", "c.jar")));
    assert_eq!(manifest.remove(&name("b")), None);
    assert_eq!(manifest.len(), 2);
}

#[test]
fn pairs_round_trip() {
    let mut manifest = ModManifest::new();
    manifest.insert(name("a"), installed("1", "a.jar"));
    manifest.insert(name("b"), installed("2", "b.jar"));
    manifest.insert(name("a"), installed("3", "a3.jar"));
    let pairs = manifest.to_pairs();
    assert_eq!(pairs.len(), 2);
    let again = ModManifest::from_pairs(&pairs);
    assert_eq!(again.len(), 2);
    assert_eq!(again.get(&name("a")), Some(&installed("3", "a3.jar")));
    assert_eq!(again.get(&name("b")), Some(&installed("2", "b.jar")));
    let mut first = pairs;
    let mut second = again.to_pairs();
    first.sort_by(|x, y| x.0.cmp(&y.0));
    second.sort_by(|x, y| x.0.cmp(&y.0));
    assert_eq!(first, second);
}

#[test]
fn from_pairs_lets_the_later_pair_win() {
    let pairs = vec![
        (name("a"), installed("1", "a1.jar")),
        (name("b"), installed("1", "b1.jar")),
        (name("a"), installed("2", "a2.jar")),
    ];
    let manifest = ModManifest::from_pairs(&pairs);
    assert_eq!(manifest.len(), 2);
    assert_eq!(manifest.get(&name("a")), Some(&installed("2", "a2.jar")));
}

#[test]
fn installed_mod_clone_is_equal() {
    let entry = installed("1.0", "mod.jar");
    assert_eq!(entry.clone(), entry);
}
