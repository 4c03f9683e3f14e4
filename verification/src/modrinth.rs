//! The shapes of what the registry answers: releases of a mod, their files,
//! the catalog of game versions and search hits.

use vstd::prelude::*;

verus! {

/// One published release of a mod.
#[derive(Debug)]
pub struct Version {
    pub name: String,
    pub version_number: String,
    pub changelog: Option<String>,
    pub dependencies: Vec<Dependency>,
    /// The game versions this release declares support for.
    pub game_versions: Vec<String>,
    pub version_type: String,
    pub loaders: Vec<String>,
    pub featured: bool,
    pub status: String,
    pub requested_status: Option<String>,
    pub id: String,
    pub project_id: String,
    pub author_id: String,
    pub date_published: String,
    pub downloads: i32,
    pub changelog_url: Option<String>,
    /// The downloadable files, the primary one first.
    pub files: Vec<File>,
}

/// Another project or release that a release refers to.
#[derive(Debug)]
pub struct Dependency {
    pub version_id: Option<String>,
    pub project_id: Option<String>,
    pub file_name: Option<String>,
    pub dependency_type: String,
}

/// One downloadable file of a release.
#[derive(Debug)]
pub struct File {
    pub hashes: Hash,
    pub url: String,
    pub filename: String,
    pub primary: bool,
    pub size: i32,
    pub file_type: Option<String>,
}

/// The checksums the registry publishes for a file. They are carried along
/// and never checked here.
#[derive(Debug)]
pub struct Hash {
    pub sha512: String,
    pub sha1: String,
}

/// The mod loaders a release can target.
#[derive(Clone, Copy, Debug, PartialEq, Eq, Structural)]
pub enum Loaders {
    Fabric,
    Forge,
    NeoForge,
    Quilt,
    LiteLoader,
}

impl Loaders {
    /// The loader's name as the registry spells it.
    pub open spec fn spec_name(self) -> Seq<char> {
        match self {
            Loaders::Fabric => "fabric"@,
            Loaders::Forge => "forge"@,
            Loaders::NeoForge => "neoforge"@,
            Loaders::Quilt => "quilt"@,
            Loaders::LiteLoader => "liteloader"@,
        }
    }

    /// The loader's name as the registry spells it: lower case, no spaces.
    pub fn as_str(&self) -> (name: &'static str)
        ensures
            name@ == self.spec_name(),
    {
        match self {
            Loaders::Fabric => "fabric",
            Loaders::Forge => "forge",
            Loaders::NeoForge => "neoforge",
            Loaders::Quilt => "quilt",
            Loaders::LiteLoader => "liteloader",
        }
    }
}

/// The release channel of a game version.
#[derive(Clone, Copy, Debug, PartialEq, Eq, Structural, Hash)]
pub enum VersionType {
    Release,
    Snapshot,
    Alpha,
    Beta,
}

/// One entry of the registry's catalog of game versions.
///
/// Two entries are the same game version when their `version` strings are
/// equal, whatever the other fields hold.
#[derive(Debug)]
pub struct GameVersion {
    pub version: String,
    pub version_type: VersionType,
    /// The moment of publication, in nanoseconds since the Unix epoch.
    pub date: i128,
    pub major: bool,
}

impl Clone for GameVersion {
    fn clone(&self) -> (copy: Self)
        ensures
            copy == *self,
    {
        GameVersion {
            version: self.version.clone(),
            version_type: self.version_type,
            date: self.date,
            major: self.major,
        }
    }
}

impl PartialEq for GameVersion {
    fn eq(&self, other: &Self) -> (same: bool) {
        self.version == other.version
    }
}

impl vstd::std_specs::cmp::PartialEqSpecImpl for GameVersion {
    open spec fn obeys_eq_spec() -> bool {
        true
    }

    open spec fn eq_spec(&self, other: &Self) -> bool {
        self.version@ == other.version@
    }
}

impl Eq for GameVersion {}

/// The answer to a search.
#[derive(Debug)]
pub struct SearchResult {
    pub hits: Vec<Hit>,
    pub offset: u32,
    pub limit: u32,
    pub total_hits: u32,
}

/// One project found by a search.
#[derive(Debug)]
pub struct Hit {
    pub title: String,
    pub description: String,
    pub slug: String,
    pub project_id: String,
    pub author: String,
    pub display_categories: Vec<String>,
    pub versions: Vec<String>,
    pub follows: u32,
    pub date_created: String,
    pub date_modified: String,
    pub latest_version: String,
    pub license: String,
    pub gallery: Vec<String>,
    pub featured_gallery: Option<String>,
}

} // verus!
