use mod_updater::modrinth::Version;
use mod_updater::report::{join, latest_line, version_line};

fn release(name: &str, game_versions: &[&str], loaders: &[&str]) -> Version {
    Version {
        name: name.to_string(),
        version_number: String::from("1"),
        changelog: None,
        dependencies: Vec::new(),
        game_versions: game_versions.iter().map(|v| v.to_string()).collect(),
        version_type: String::from("release"),
        loaders: loaders.iter().map(|v| v.to_string()).collect(),
        featured: false,
        status: String::from("listed"),
        requested_status: None,
        id: String::from("id"),
        project_id: String::from("project"),
        author_id: String::from("author"),
        date_published: String::from("2024-01-01T00:00:00Z"),
        downloads: 0,
        changelog_url: None,
        files: Vec::new(),
    }
}

#[test]
fn join_puts_the_separator_between() {
    let parts = vec![String::from("a"), String::from("b"), String::from("c")];
    assert_eq!(join(&parts, ", "), "a, b, c");
    assert_eq!(join(&parts, ""), "abc");
    assert_eq!(join(&vec![String::from("only")], ", "), "only");
    assert_eq!(join(&Vec::new(), ", "), "");
    assert_eq!(join(&vec![String::new(), String::new()], "-"), "-");
}

#[test]
fn version_line_lists_game_versions_and_loaders() {
    let version = release("Sodium 0.6", &["1.21", "1.21.1"], &["fabric", "quilt"]);
    assert_eq!(version_line(&version), "\tSodium 0.6 - 1.21, 1.21.1 fabric, quilt");
    let version = release("Bare", &[], &[]);
    assert_eq!(version_line(&version), "\tBare -  ");
}

#[test]
fn latest_line_lists_game_versions() {
    let version = release("Sodium 0.6", &["1.21", "1.21.1"], &["fabric"]);
    assert_eq!(latest_line(&version), "\tSodium 0.6 - 1.21, 1.21.1");
}
