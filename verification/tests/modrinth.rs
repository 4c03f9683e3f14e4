use mod_updater::modrinth::{GameVersion, Loaders, VersionType};
use mod_updater::Error;

#[test]
fn loaders_are_spelled_in_lower_case() {
    assert_eq!(Loaders::Fabric.as_str(), "fabric");
    assert_eq!(Loaders::Forge.as_str(), "forge");
    assert_eq!(Loaders::NeoForge.as_str(), "neoforge");
    assert_eq!(Loaders::Quilt.as_str(), "quilt");
    assert_eq!(Loaders::LiteLoader.as_str(), "liteloader");
}

#[test]
fn game_versions_are_equal_by_their_string() {
    let a = GameVersion {
        version: String::from("1.21"),
        version_type: VersionType::Release,
        date: 10,
        major: true,
    };
    let b = GameVersion {
        version: String::from("1.21"),
        version_type: VersionType::Snapshot,
        date: 99,
        major: false,
    };
    let c = GameVersion {
        version: String::from("1.22"),
        version_type: VersionType::Release,
        date: 10,
        major: true,
    };
    assert!(a == b);
    assert!(a != c);
}

#[test]
fn game_version_clone_keeps_every_field() {
    let a = GameVersion {
        version: String::from("24w14a"),
        version_type: VersionType::Snapshot,
        date: -3,
        major: true,
    };
    let b = a.clone();
    assert_eq!(b.version, "24w14a");
    assert_eq!(b.version_type, VersionType::Snapshot);
    assert_eq!(b.date, -3);
    assert!(b.major);
}

#[test]
fn every_error_has_its_message() {
    assert_eq!(Error::NotFound.message(), "Mod not found");
    assert_eq!(Error::InvalidRequest.message(), "Invalid request");
    assert_eq!(Error::RegistryUnavailable.message(), "Registry unavailable");
    assert_eq!(Error::NoVersionsFound.message(), "No mod versions found");
    assert_eq!(Error::NoFilesFound.message(), "No files found");
    assert_eq!(Error::InvalidSelection.message(), "Invalid index");
    assert_eq!(Error::InvalidPlatformVersion.message(), "Invalid game version");
    assert_eq!(Error::Filesystem.message(), "File operation failed");
}
