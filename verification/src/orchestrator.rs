//! What one task has to do next, and how the outcomes of finished tasks are
//! merged into the record of installed mods.
//!
//! The caller runs the tasks, one for each mod and each on its own. It asks
//! the registry, prompts the user and moves the files; the functions here
//! decide, from what came back so far, what happens next. A task that fails
//! ends in an outcome of its own and never stops another.

use vstd::prelude::*;
use vstd::string::*;
use crate::config::{without, Config};
use crate::error::Error;
use crate::manifest::{InstalledMod, ModManifest};
use crate::modrinth::{File, Loaders, SearchResult, Version};
use crate::resolver::names;
use crate::selection::{answer_text, needs_answer, parse_selection, pick, selection, spec_pick, Pick};

verus! {

/// One unit of work, for one mod.
#[derive(Debug, PartialEq, Eq)]
pub enum Task {
    /// Install a release of `item` for `loader` and `game_version`; with
    /// `latest` set, the newest one without asking.
    Download { item: String, loader: Loaders, game_version: String, latest: bool },
    /// Bring `item` to its newest release for `loader` and `game_version`.
    Update { item: String, loader: Loaders, game_version: String },
    /// Take `item` out of the pack.
    Remove { item: String },
}

impl Task {
    /// The mod that the task is for.
    pub open spec fn spec_item(self) -> Seq<char> {
        match self {
            Task::Download { item, .. } => item@,
            Task::Update { item, .. } => item@,
            Task::Remove { item } => item@,
        }
    }

    /// The mod that the task is for.
    pub fn item(&self) -> (name: &String)
        ensures
            name@ == self.spec_item(),
    {
        match self {
            Task::Download { item, .. } => item,
            Task::Update { item, .. } => item,
            Task::Remove { item } => item,
        }
    }
}

/// How a task ended.
#[derive(Debug, PartialEq, Eq)]
pub enum Outcome {
    /// `installed` is now on disk for `item`.
    Installed { item: String, installed: InstalledMod },
    /// The task for `item` failed with `error`.
    Failed { item: String, error: Error },
}

impl Outcome {
    /// The outcome of having written `file` of `release` to disk for `item`.
    pub fn installed(item: String, release: &Version, file: &File) -> (outcome: Outcome)
        ensures
            outcome == (Outcome::Installed {
                item,
                installed: InstalledMod { version: release.name, file: file.filename },
            }),
    {
        Outcome::Installed {
            item,
            installed: InstalledMod { version: release.name.clone(), file: file.filename.clone() },
        }
    }

    /// The outcome of a task for `item` that ended in `error`.
    pub fn failed(item: String, error: Error) -> (outcome: Outcome)
        ensures
            outcome == (Outcome::Failed { item, error }),
    {
        Outcome::Failed { item, error }
    }

    /// The mod that the task was for.
    pub open spec fn spec_item(self) -> Seq<char> {
        match self {
            Outcome::Installed { item, .. } => item@,
            Outcome::Failed { item, .. } => item@,
        }
    }

    /// The mod that the task was for.
    pub fn item(&self) -> (name: &String)
        ensures
            name@ == self.spec_item(),
    {
        match self {
            Outcome::Installed { item, .. } => item,
            Outcome::Failed { item, .. } => item,
        }
    }
}

/// What a download has to do next.
#[derive(Clone, Copy, Debug, PartialEq, Eq, Structural)]
pub enum DownloadStep {
    /// Show the releases and ask the user for one.
    AskRelease,
    /// Show the files of the release at this index and ask the user for one.
    AskFile { release: usize },
    /// Fetch the file at index `file` of the release at index `release`.
    Fetch { release: usize, file: usize },
    /// Give up with this failure.
    Failed(Error),
}

/// The answer at place `i`, if the user has given that many.
pub open spec fn answer_at(answers: Seq<String>, i: int) -> Option<Seq<char>> {
    if 0 <= i < answers.len() {
        Some(answers[i]@)
    } else {
        None
    }
}

/// The rule of a download. `versions` are the releases that match, the
/// newest first, and `answers` are the user's answers so far.
///
/// No release is `Error::NoVersionsFound`. One release, or `latest`, settles
/// the release without a question; otherwise the first answer selects it.
/// The chosen release's files are settled in the same way by the next
/// answer, except that only a single file goes without a question, and no
/// file is `Error::NoFilesFound`. An answer that selects nothing is
/// `Error::InvalidSelection`.
pub open spec fn spec_download_step(versions: Seq<Version>, latest: bool, answers: Seq<String>) -> DownloadStep {
    match spec_pick(versions.len(), latest, answer_at(answers, 0)) {
        Pick::Empty => DownloadStep::Failed(Error::NoVersionsFound),
        Pick::Ask => DownloadStep::AskRelease,
        Pick::Invalid => DownloadStep::Failed(Error::InvalidSelection),
        Pick::Index(release) => {
            let used: int = if needs_answer(versions.len(), latest) {
                1
            } else {
                0
            };
            match spec_pick(
                versions[release as int].files@.len(),
                false,
                answer_at(answers, used),
            ) {
                Pick::Empty => DownloadStep::Failed(Error::NoFilesFound),
                Pick::Ask => DownloadStep::AskFile { release },
                Pick::Invalid => DownloadStep::Failed(Error::InvalidSelection),
                Pick::Index(file) => DownloadStep::Fetch { release, file },
            }
        },
    }
}

fn answer(answers: &Vec<String>, i: usize) -> (found: Option<&String>)
    ensures
        answer_text(found) == answer_at(answers@, i as int),
{
    if i < answers.len() {
        Some(&answers[i])
    } else {
        None
    }
}

/// Decides what a download does next, by the rule of `spec_download_step`.
///
/// The caller starts with no answers and calls again with one more answer
/// after each question, until the step is `Fetch` or `Failed`.
pub fn download_step(versions: &Vec<Version>, latest: bool, answers: &Vec<String>) -> (step: DownloadStep)
    ensures
        step == spec_download_step(versions@, latest, answers@),
        step matches DownloadStep::AskFile { release } ==> release < versions@.len(),
        step matches DownloadStep::Fetch { release, file } ==> release < versions@.len() && file
            < versions@[release as int].files@.len(),
{
    match pick(versions.len(), latest, answer(answers, 0)) {
        Pick::Empty => DownloadStep::Failed(Error::NoVersionsFound),
        Pick::Ask => DownloadStep::AskRelease,
        Pick::Invalid => DownloadStep::Failed(Error::InvalidSelection),
        Pick::Index(release) => {
            let used: usize = if versions.len() > 1 && !latest {
                1
            } else {
                0
            };
            match pick(versions[release].files.len(), false, answer(answers, used)) {
                Pick::Empty => DownloadStep::Failed(Error::NoFilesFound),
                Pick::Ask => DownloadStep::AskFile { release },
                Pick::Invalid => DownloadStep::Failed(Error::InvalidSelection),
                Pick::Index(file) => DownloadStep::Fetch { release, file },
            }
        },
    }
}

/// What adding a mod to a pack does about the hits of the search for it.
#[derive(Clone, Copy, Debug, PartialEq, Eq, Structural)]
pub enum HitStep {
    /// Show the hits and ask the user for one.
    Ask,
    /// The hit at this index is the mod to add.
    Chosen(usize),
    /// Give up with this failure.
    Failed(Error),
}

/// The rule for the hits of a search. No hit is `Error::NotFound`, a single
/// hit is taken without a question, and among several the answer selects,
/// once it is there; an answer that selects none is
/// `Error::InvalidSelection`.
pub open spec fn spec_hit_step(count: nat, answer: Option<Seq<char>>) -> HitStep {
    match spec_pick(count, false, answer) {
        Pick::Empty => HitStep::Failed(Error::NotFound),
        Pick::Ask => HitStep::Ask,
        Pick::Invalid => HitStep::Failed(Error::InvalidSelection),
        Pick::Index(hit) => HitStep::Chosen(hit),
    }
}

/// Decides which hit of a search is the mod to add, by the rule of
/// `spec_hit_step`.
pub fn hit_step(result: &SearchResult, answer: Option<&String>) -> (step: HitStep)
    ensures
        step == spec_hit_step(result.hits@.len(), answer_text(answer)),
        step matches HitStep::Chosen(hit) ==> hit < result.hits@.len(),
{
    match pick(result.hits.len(), false, answer) {
        Pick::Empty => HitStep::Failed(Error::NotFound),
        Pick::Ask => HitStep::Ask,
        Pick::Invalid => HitStep::Failed(Error::InvalidSelection),
        Pick::Index(hit) => HitStep::Chosen(hit),
    }
}

/// What an upgrade of a pack does about the game versions it could move to.
#[derive(Clone, Copy, Debug, PartialEq, Eq, Structural)]
pub enum UpgradeStep {
    /// There is no newer game version that every mod supports.
    NothingNewer,
    /// Show the candidates and ask the user for one.
    Ask,
    /// The candidate at this index is the game version to move to.
    Chosen(usize),
    /// Give up with this failure.
    Failed(Error),
}

/// The rule for the candidates of an upgrade. Without a candidate there is
/// nothing to do. Otherwise the user is asked, even about a single one, and
/// the answer selects; an answer that selects none is
/// `Error::InvalidSelection`.
pub open spec fn spec_upgrade_step(count: nat, answer: Option<Seq<char>>) -> UpgradeStep {
    if count == 0 {
        UpgradeStep::NothingNewer
    } else {
        match answer {
            None => UpgradeStep::Ask,
            Some(text) => match selection(text, count) {
                Some(index) => UpgradeStep::Chosen(index as usize),
                None => UpgradeStep::Failed(Error::InvalidSelection),
            },
        }
    }
}

/// Decides which of `count` candidates a pack is upgraded to, by the rule of
/// `spec_upgrade_step`.
pub fn upgrade_step(count: usize, answer: Option<&String>) -> (step: UpgradeStep)
    ensures
        step == spec_upgrade_step(count as nat, answer_text(answer)),
        step matches UpgradeStep::Chosen(index) ==> index < count,
{
    if count == 0 {
        UpgradeStep::NothingNewer
    } else {
        match answer {
            None => UpgradeStep::Ask,
            Some(text) => match parse_selection(text.as_str(), count) {
                Ok(index) => UpgradeStep::Chosen(index),
                Err(_) => UpgradeStep::Failed(Error::InvalidSelection),
            },
        }
    }
}

/// Whether `name` ends in `.jar`.
pub open spec fn is_jar_name(name: Seq<char>) -> bool {
    name.len() >= 4 && name.subrange(name.len() - 4, name.len() as int) == seq!['.', 'j', 'a', 'r']
}

/// Whether a file of this name is a mod file, which an upgrade moves out of
/// the way: one whose name ends in `.jar`.
pub fn is_jar(name: &String) -> (yes: bool)
    ensures
        yes == is_jar_name(name@),
{
    let text = name.as_str();
    let n: usize = text.unicode_len();
    if n < 4 {
        return false;
    }
    let ghost tail = name@.subrange(n - 4, n as int);
    let yes = text.get_char(n - 4) == '.' && text.get_char(n - 3) == 'j' && text.get_char(n - 2)
        == 'a' && text.get_char(n - 1) == 'r';
    proof {
        assert(tail[0] == name@[n - 4]);
        assert(tail[1] == name@[n - 3]);
        assert(tail[2] == name@[n - 2]);
        assert(tail[3] == name@[n - 1]);
        if yes {
            assert(tail =~= seq!['.', 'j', 'a', 'r']);
        }
    }
    yes
}

/// What an update of one mod has to do.
#[derive(Debug, PartialEq, Eq)]
pub enum UpdatePlan {
    /// The newest release's file is on disk already: nothing is fetched.
    UpToDate { version: String, filename: String },
    /// Delete the files in `remove`, then fetch `url` and write it to
    /// `filename`.
    Install { remove: Vec<String>, url: String, filename: String, version: String },
}

/// Whether `name` is the first file of a release other than the newest.
pub open spec fn is_older_file(versions: Seq<Version>, name: Seq<char>) -> bool {
    exists|v: int|
        1 <= v < versions.len() && (#[trigger] versions[v]).files@.len() > 0
            && versions[v].files@[0].filename@ == name
}

/// The names of `listing` that are files of older releases, in their order.
pub open spec fn stale(listing: Seq<Seq<char>>, versions: Seq<Version>) -> Seq<Seq<char>>
    decreases listing.len(),
{
    if listing.len() == 0 {
        Seq::empty()
    } else {
        let rest = stale(listing.drop_last(), versions);
        if is_older_file(versions, listing.last()) {
            rest.push(listing.last())
        } else {
            rest
        }
    }
}

/// Whether `plan` is what an update has to do, given the releases that
/// match, the newest first, and the names of the files on disk.
///
/// No release is `Error::NoVersionsFound`; a newest release without a file
/// is `Error::NoFilesFound`. If the newest release's first file is on disk
/// the mod is up to date. Otherwise every file on disk that is the first
/// file of an older release is removed and the newest one installed.
pub open spec fn is_update_plan(versions: Seq<Version>, listing: Seq<Seq<char>>, plan: Result<UpdatePlan, Error>) -> bool {
    if versions.len() == 0 {
        plan == Err::<UpdatePlan, Error>(Error::NoVersionsFound)
    } else if versions[0].files@.len() == 0 {
        plan == Err::<UpdatePlan, Error>(Error::NoFilesFound)
    } else {
        let newest = versions[0].files@[0];
        if listing.contains(newest.filename@) {
            plan == Ok::<UpdatePlan, Error>(
                UpdatePlan::UpToDate { version: versions[0].name, filename: newest.filename },
            )
        } else {
            match plan {
                Ok(UpdatePlan::Install { remove, url, filename, version }) => {
                    &&& names(remove@) == stale(listing, versions)
                    &&& url == newest.url
                    &&& filename == newest.filename
                    &&& version == versions[0].name
                },
                _ => false,
            }
        }
    }
}

fn older_file(versions: &Vec<Version>, name: &String) -> (yes: bool)
    ensures
        yes == is_older_file(versions@, name@),
{
    let mut v: usize = 1;
    while v < versions.len()
        invariant
            1 <= v,
            forall|w: int|
                1 <= w < v && w < versions@.len() ==> !((#[trigger] versions@[w]).files@.len() > 0
                    && versions@[w].files@[0].filename@ == name@),
        decreases versions@.len() - v,
    {
        if versions[v].files.len() > 0 && versions[v].files[0].filename == *name {
            return true;
        }
        v += 1;
    }
    false
}

fn listed(listing: &Vec<String>, name: &String) -> (yes: bool)
    ensures
        yes == names(listing@).contains(name@),
{
    let mut i: usize = 0;
    while i < listing.len()
        invariant
            i <= listing@.len(),
            forall|k: int| 0 <= k < i ==> names(listing@)[k] != name@,
        decreases listing@.len() - i,
    {
        if listing[i] == *name {
            assert(names(listing@)[i as int] == name@);
            return true;
        }
        i += 1;
    }
    false
}

/// Plans the update of one mod from the releases that match, the newest
/// first, and the names of the files on disk.
///
/// A mod whose newest file is on disk is up to date and nothing is fetched.
/// Otherwise the plan removes exactly the files on disk that belong to older
/// releases and installs the newest file.
pub fn plan_update(versions: &Vec<Version>, listing: &Vec<String>) -> (plan: Result<UpdatePlan, Error>)
    ensures
        is_update_plan(versions@, names(listing@), plan),
        versions@.len() > 0 && versions@[0].files@.len() > 0 && names(listing@).contains(
            versions@[0].files@[0].filename@,
        ) ==> plan is Ok && plan->Ok_0 is UpToDate,
{
    if versions.len() == 0 {
        return Err(Error::NoVersionsFound);
    }
    if versions[0].files.len() == 0 {
        return Err(Error::NoFilesFound);
    }
    let newest = &versions[0].files[0];
    if listed(listing, &newest.filename) {
        return Ok(
            UpdatePlan::UpToDate {
                version: versions[0].name.clone(),
                filename: newest.filename.clone(),
            },
        );
    }
    let mut remove: Vec<String> = Vec::new();
    let mut i: usize = 0;
    while i < listing.len()
        invariant
            i <= listing@.len(),
            names(remove@) == stale(names(listing@).take(i as int), versions@),
        decreases listing@.len() - i,
    {
        let ghost all = names(listing@);
        proof {
            assert(all.take(i as int + 1).drop_last() =~= all.take(i as int));
            assert(all.take(i as int + 1).last() == listing@[i as int]@);
        }
        if older_file(versions, &listing[i]) {
            let ghost before = remove@;
            remove.push(listing[i].clone());
            proof {
                assert(names(remove@) =~= names(before).push(listing@[i as int]@));
            }
        }
        i += 1;
    }
    proof {
        assert(names(listing@).take(i as int) =~= names(listing@));
    }
    Ok(
        UpdatePlan::Install {
            remove,
            url: newest.url.clone(),
            filename: newest.filename.clone(),
            version: versions[0].name.clone(),
        },
    )
}

impl UpdatePlan {
    /// What `report` says, as a sequence of characters.
    pub open spec fn spec_report(self, item: Seq<char>) -> Seq<char> {
        match self {
            UpdatePlan::UpToDate { .. } => "'"@ + item + "' is already up to date"@,
            UpdatePlan::Install { version, .. } => "Updated '"@ + item + "' to '"@ + version@ + "'"@,
        }
    }

    /// The line that tells the user what the update of `item` did.
    pub fn report(&self, item: &String) -> (line: String)
        ensures
            line@ == self.spec_report(item@),
    {
        match self {
            UpdatePlan::UpToDate { .. } => {
                let mut line = String::from_str("'");
                line.append(item.as_str());
                line.append("' is already up to date");
                line
            },
            UpdatePlan::Install { version, .. } => {
                let mut line = String::from_str("Updated '");
                line.append(item.as_str());
                line.append("' to '");
                line.append(version.as_str());
                line.append("'");
                line
            },
        }
    }

    /// What is on disk for the mod once the plan has been carried out.
    pub open spec fn spec_installed(self) -> InstalledMod {
        match self {
            UpdatePlan::UpToDate { version, filename } => InstalledMod { version, file: filename },
            UpdatePlan::Install { version, filename, .. } => InstalledMod { version, file: filename },
        }
    }

    /// What is on disk for the mod once the plan has been carried out: the
    /// newest release and its first file.
    pub fn installed(&self) -> (entry: InstalledMod)
        ensures
            entry == self.spec_installed(),
    {
        match self {
            UpdatePlan::UpToDate { version, filename } => InstalledMod {
                version: version.clone(),
                file: filename.clone(),
            },
            UpdatePlan::Install { version, filename, .. } => InstalledMod {
                version: version.clone(),
                file: filename.clone(),
            },
        }
    }
}

/// The downloads of a pack: one for each of `mods` that the record
/// `installed` has no entry for, in the order of `mods`, each for the pack's
/// loader and game version and for the newest release.
pub open spec fn download_tasks(
    config: Config,
    mods: Seq<String>,
    installed: Map<Seq<char>, (Seq<char>, Seq<char>)>,
) -> Seq<Task>
    decreases mods.len(),
{
    if mods.len() == 0 {
        Seq::empty()
    } else {
        let rest = download_tasks(config, mods.drop_last(), installed);
        if installed.contains_key(mods.last()@) {
            rest
        } else {
            rest.push(
                Task::Download {
                    item: mods.last(),
                    loader: config.loader,
                    game_version: config.version,
                    latest: true,
                },
            )
        }
    }
}

/// The tasks that download what a pack still lacks: one for each mod of the
/// pack that the manifest has no entry for.
pub fn plan_downloads(config: &Config, manifest: &ModManifest) -> (tasks: Vec<Task>)
    ensures
        tasks@ == download_tasks(*config, config.mods@, manifest@),
{
    let mut tasks: Vec<Task> = Vec::new();
    let mut i: usize = 0;
    while i < config.mods.len()
        invariant
            i <= config.mods@.len(),
            tasks@ == download_tasks(*config, config.mods@.take(i as int), manifest@),
        decreases config.mods@.len() - i,
    {
        proof {
            assert(config.mods@.take(i as int + 1).drop_last() =~= config.mods@.take(i as int));
        }
        if !manifest.contains_key(&config.mods[i]) {
            tasks.push(
                Task::Download {
                    item: config.mods[i].clone(),
                    loader: config.loader,
                    game_version: config.version.clone(),
                    latest: true,
                },
            );
        }
        i += 1;
    }
    proof {
        assert(config.mods@.take(i as int) =~= config.mods@);
    }
    tasks
}

/// The updates of a pack: one for each of its mods, in their order, each
/// for the pack's loader and game version.
pub open spec fn update_tasks(config: Config) -> Seq<Task> {
    Seq::new(
        config.mods@.len(),
        |i: int|
            Task::Update {
                item: config.mods@[i],
                loader: config.loader,
                game_version: config.version,
            },
    )
}

/// The tasks that update a pack: one for each of its mods, in their order.
pub fn plan_updates(config: &Config) -> (tasks: Vec<Task>)
    ensures
        tasks@ == update_tasks(*config),
{
    let mut tasks: Vec<Task> = Vec::new();
    let mut i: usize = 0;
    while i < config.mods.len()
        invariant
            i <= config.mods@.len(),
            tasks@.len() == i,
            forall|k: int| 0 <= k < i ==> #[trigger] tasks@[k] == update_tasks(*config)[k],
        decreases config.mods@.len() - i,
    {
        tasks.push(
            Task::Update {
                item: config.mods[i].clone(),
                loader: config.loader,
                game_version: config.version.clone(),
            },
        );
        i += 1;
    }
    assert(tasks@ =~= update_tasks(*config));
    tasks
}

/// The record after the outcomes have been merged into it, one after the
/// other: an installed mod gets its entry, replacing an earlier one, and a
/// failure changes nothing.
pub open spec fn applied(
    manifest: Map<Seq<char>, (Seq<char>, Seq<char>)>,
    outcomes: Seq<Outcome>,
) -> Map<Seq<char>, (Seq<char>, Seq<char>)>
    decreases outcomes.len(),
{
    if outcomes.len() == 0 {
        manifest
    } else {
        let before = applied(manifest, outcomes.drop_last());
        match outcomes.last() {
            Outcome::Installed { item, installed } => before.insert(item@, installed@),
            Outcome::Failed { .. } => before,
        }
    }
}

/// Merges the outcomes of finished tasks into the manifest.
///
/// Each installed mod gets its entry, which replaces an earlier one for the
/// same mod. A failed task leaves the manifest as it was: no entry is added,
/// changed or removed for its mod.
pub fn apply(outcomes: &Vec<Outcome>, manifest: ModManifest) -> (merged: ModManifest)
    ensures
        merged@ == applied(manifest@, outcomes@),
{
    let mut merged = manifest;
    let mut i: usize = 0;
    while i < outcomes.len()
        invariant
            i <= outcomes@.len(),
            merged@ == applied(manifest@, outcomes@.take(i as int)),
        decreases outcomes@.len() - i,
    {
        proof {
            assert(outcomes@.take(i as int + 1).drop_last() =~= outcomes@.take(i as int));
        }
        match &outcomes[i] {
            Outcome::Installed { item, installed } => {
                merged.insert(item.clone(), installed.clone());
            },
            Outcome::Failed { .. } => {},
        }
        i += 1;
    }
    proof {
        assert(outcomes@.take(i as int) =~= outcomes@);
    }
    merged
}

/// What taking a mod out of a pack came to.
#[derive(Debug, PartialEq, Eq)]
pub enum Removal {
    /// The pack does not hold the mod; nothing changed.
    NotInPack,
    /// The mod is out of the pack and out of the manifest. `file` is the
    /// file that the manifest had for it, which the caller deletes.
    Removed { file: Option<String> },
}

impl Removal {
    /// The name of the file to delete, if there is one.
    pub open spec fn spec_file(self) -> Option<Seq<char>> {
        match self {
            Removal::Removed { file: Some(name) } => Some(name@),
            _ => None,
        }
    }
}

/// The file that the record has for `item`, if it has an entry for it.
pub open spec fn recorded_file(
    installed: Map<Seq<char>, (Seq<char>, Seq<char>)>,
    item: Seq<char>,
) -> Option<Seq<char>> {
    if installed.contains_key(item) {
        Some(installed[item].1)
    } else {
        None
    }
}

/// Takes `item` out of the pack and out of the manifest.
///
/// A mod that the pack does not hold changes nothing. Otherwise the mod
/// leaves the pack, its entry leaves the manifest, and the result names the
/// file that the entry recorded, if there was an entry.
pub fn remove_from_pack(config: &mut Config, manifest: &mut ModManifest, item: &String) -> (removal: Removal)
    ensures
        final(config).loader == old(config).loader,
        final(config).version == old(config).version,
        removal is Removed <==> names(old(config).mods@).contains(item@),
        removal is NotInPack ==> final(config).mods == old(config).mods && final(manifest)@ == old(
            manifest,
        )@,
        removal is Removed ==> names(final(config).mods@) == without(
            names(old(config).mods@),
            item@,
        ) && final(manifest)@ == old(manifest)@.remove(item@),
        removal is Removed ==> removal.spec_file() == recorded_file(old(manifest)@, item@),
{
    if !config.contains(item) {
        return Removal::NotInPack;
    }
    config.remove(item);
    match manifest.remove(item) {
        Some(entry) => Removal::Removed { file: Some(entry.file) },
        None => Removal::Removed { file: None },
    }
}

/// What the outcomes last installed for `name`, if they installed anything
/// for it.
pub open spec fn last_installed(outcomes: Seq<Outcome>, name: Seq<char>) -> Option<(Seq<char>, Seq<char>)>
    decreases outcomes.len(),
{
    if outcomes.len() == 0 {
        None
    } else {
        match outcomes.last() {
            Outcome::Installed { item, installed } if item@ == name => Some(installed@),
            _ => last_installed(outcomes.drop_last(), name),
        }
    }
}

/// For each mod, the merged record holds what the outcomes last installed
/// for it, and what the record held before where they installed nothing.
pub proof fn applied_entry(
    manifest: Map<Seq<char>, (Seq<char>, Seq<char>)>,
    outcomes: Seq<Outcome>,
    name: Seq<char>,
)
    ensures
        applied(manifest, outcomes).contains_key(name) == (manifest.contains_key(name)
            || last_installed(outcomes, name) is Some),
        applied(manifest, outcomes).contains_key(name) ==> applied(manifest, outcomes)[name]
            == match last_installed(outcomes, name) {
            Some(entry) => entry,
            None => manifest[name],
        },
    decreases outcomes.len(),
{
    if outcomes.len() > 0 {
        applied_entry(manifest, outcomes.drop_last(), name);
    }
}

proof fn lemma_last_installed_twice(first: Seq<Outcome>, second: Seq<Outcome>, name: Seq<char>)
    ensures
        last_installed(first + second, name) == match last_installed(second, name) {
            Some(entry) => Some(entry),
            None => last_installed(first, name),
        },
    decreases second.len(),
{
    if second.len() == 0 {
        assert(first + second =~= first);
    } else {
        assert((first + second).drop_last() =~= first + second.drop_last());
        assert((first + second).last() == second.last());
        lemma_last_installed_twice(first, second.drop_last(), name);
    }
}

/// Running the same tasks a second time changes nothing: merging the same
/// outcomes twice gives the record that merging them once gives.
pub proof fn applying_twice_is_applying_once(
    manifest: Map<Seq<char>, (Seq<char>, Seq<char>)>,
    outcomes: Seq<Outcome>,
)
    ensures
        applied(manifest, outcomes + outcomes) == applied(manifest, outcomes),
        applied(applied(manifest, outcomes), outcomes) == applied(manifest, outcomes),
{
    let once = applied(manifest, outcomes);
    let twice = applied(manifest, outcomes + outcomes);
    let again = applied(once, outcomes);
    assert forall|name: Seq<char>| #[trigger]
        twice.contains_key(name) == once.contains_key(name) && (once.contains_key(name)
            ==> twice[name] == once[name]) by {
        applied_entry(manifest, outcomes, name);
        applied_entry(manifest, outcomes + outcomes, name);
        lemma_last_installed_twice(outcomes, outcomes, name);
    }
    assert forall|name: Seq<char>| #[trigger]
        again.contains_key(name) == once.contains_key(name) && (once.contains_key(name)
            ==> again[name] == once[name]) by {
        applied_entry(manifest, outcomes, name);
        applied_entry(once, outcomes, name);
    }
    assert(twice =~= once);
    assert(again =~= once);
}

/// Whether no two outcomes are for the same mod.
pub open spec fn distinct_items(outcomes: Seq<Outcome>) -> bool {
    forall|i: int, j: int|
        0 <= i < j < outcomes.len() ==> (#[trigger] outcomes[i]).spec_item() != (
        #[trigger] outcomes[j]).spec_item()
}

proof fn lemma_last_installed_distinct(outcomes: Seq<Outcome>, i: int)
    requires
        distinct_items(outcomes),
        0 <= i < outcomes.len(),
    ensures
        last_installed(outcomes, outcomes[i].spec_item()) == match outcomes[i] {
            Outcome::Installed { installed, .. } => Some(installed@),
            Outcome::Failed { .. } => None::<(Seq<char>, Seq<char>)>,
        },
    decreases outcomes.len(),
{
    let name = outcomes[i].spec_item();
    let rest = outcomes.drop_last();
    if i < outcomes.len() - 1 {
        assert(outcomes[i].spec_item() != outcomes[outcomes.len() - 1].spec_item());
        assert(rest[i] == outcomes[i]);
        assert forall|a: int, b: int| 0 <= a < b < rest.len() implies (#[trigger] rest[a]).spec_item() != (
        #[trigger] rest[b]).spec_item() by {
            assert(outcomes[a].spec_item() != outcomes[b].spec_item());
        }
        lemma_last_installed_distinct(rest, i);
    } else {
        lemma_never_installed(rest, name);
        assert forall|k: int| 0 <= k < rest.len() implies (#[trigger] rest[k]).spec_item() != name by {
            assert(outcomes[k].spec_item() != outcomes[i].spec_item());
        }
    }
}

proof fn lemma_never_installed(outcomes: Seq<Outcome>, name: Seq<char>)
    ensures
        (forall|k: int| 0 <= k < outcomes.len() ==> (#[trigger] outcomes[k]).spec_item() != name)
            ==> last_installed(outcomes, name) is None,
    decreases outcomes.len(),
{
    if outcomes.len() > 0 {
        lemma_never_installed(outcomes.drop_last(), name);
        if forall|k: int| 0 <= k < outcomes.len() ==> (#[trigger] outcomes[k]).spec_item() != name {
            assert(outcomes[outcomes.len() - 1].spec_item() != name);
            assert forall|k: int| 0 <= k < outcomes.drop_last().len() implies (
            #[trigger] outcomes.drop_last()[k]).spec_item() != name by {
                assert(outcomes[k].spec_item() != name);
            }
        }
    }
}

/// Whether two records agree about `name`: both have no entry for it, or
/// both have the same.
pub open spec fn same_entry(
    before: Map<Seq<char>, (Seq<char>, Seq<char>)>,
    after: Map<Seq<char>, (Seq<char>, Seq<char>)>,
    name: Seq<char>,
) -> bool {
    after.contains_key(name) == before.contains_key(name) && (before.contains_key(name)
        ==> after[name] == before[name])
}

/// Whether the record `after` shows what `outcome` says: the entry of an
/// installed mod, and for a failed task what `before` had for its mod.
pub open spec fn keeps_outcome(
    before: Map<Seq<char>, (Seq<char>, Seq<char>)>,
    after: Map<Seq<char>, (Seq<char>, Seq<char>)>,
    outcome: Outcome,
) -> bool {
    match outcome {
        Outcome::Installed { item, installed } => after.contains_pair(item@, installed@),
        Outcome::Failed { item, .. } => same_entry(before, after, item@),
    }
}

/// A failed task does not keep the others from being recorded.
///
/// When each outcome is for another mod, the merged record holds the entry
/// of every installed mod, whatever the other outcomes are; for the mod of a
/// failed task it holds what it held before, or nothing if it held nothing;
/// and for a mod that no outcome is for it is unchanged.
pub proof fn failures_spare_the_rest(
    manifest: Map<Seq<char>, (Seq<char>, Seq<char>)>,
    outcomes: Seq<Outcome>,
)
    requires
        distinct_items(outcomes),
    ensures
        forall|i: int|
            0 <= i < outcomes.len() ==> keeps_outcome(
                manifest,
                applied(manifest, outcomes),
                #[trigger] outcomes[i],
            ),
        forall|name: Seq<char>|
            (forall|i: int| 0 <= i < outcomes.len() ==> (#[trigger] outcomes[i]).spec_item() != name)
                ==> #[trigger] same_entry(manifest, applied(manifest, outcomes), name),
{
    assert forall|i: int| 0 <= i < outcomes.len() implies keeps_outcome(
        manifest,
        applied(manifest, outcomes),
        #[trigger] outcomes[i],
    ) by {
        lemma_last_installed_distinct(outcomes, i);
        applied_entry(manifest, outcomes, outcomes[i].spec_item());
    }
    assert forall|name: Seq<char>|
        (forall|i: int| 0 <= i < outcomes.len() ==> (#[trigger] outcomes[i]).spec_item() != name) implies #[trigger] same_entry(
        manifest,
        applied(manifest, outcomes),
        name,
    ) by {
        lemma_never_installed(outcomes, name);
        applied_entry(manifest, outcomes, name);
    }
}

/// The order in which the tasks finish does not matter.
///
/// When each outcome is for another mod, merging the same outcomes in any
/// order gives the same record.
pub proof fn completion_order_does_not_matter(
    manifest: Map<Seq<char>, (Seq<char>, Seq<char>)>,
    first: Seq<Outcome>,
    second: Seq<Outcome>,
)
    requires
        distinct_items(first),
        distinct_items(second),
        forall|outcome: Outcome| first.contains(outcome) <==> second.contains(outcome),
    ensures
        applied(manifest, first) == applied(manifest, second),
{
    let a = applied(manifest, first);
    let b = applied(manifest, second);
    assert forall|name: Seq<char>| last_installed(first, name) == last_installed(second, name) by {
        if exists|i: int| 0 <= i < first.len() && (#[trigger] first[i]).spec_item() == name {
            let i = choose|i: int| 0 <= i < first.len() && (#[trigger] first[i]).spec_item() == name;
            assert(first.contains(first[i]));
            assert(second.contains(first[i]));
            let j = choose|j: int| 0 <= j < second.len() && second[j] == first[i];
            lemma_last_installed_distinct(first, i);
            lemma_last_installed_distinct(second, j);
        } else {
            assert forall|j: int| 0 <= j < second.len() implies (#[trigger] second[j]).spec_item()
                != name by {
                if second[j].spec_item() == name {
                    assert(second.contains(second[j]));
                    assert(first.contains(second[j]));
                    let i = choose|i: int| 0 <= i < first.len() && first[i] == second[j];
                    assert(first[i].spec_item() == name);
                }
            }
            lemma_never_installed(first, name);
            lemma_never_installed(second, name);
        }
    }
    assert forall|name: Seq<char>| #[trigger]
        a.contains_key(name) == b.contains_key(name) && (a.contains_key(name) ==> a[name]
            == b[name]) by {
        applied_entry(manifest, first, name);
        applied_entry(manifest, second, name);
    }
    assert(a =~= b);
}

/// A pack whose mods are all installed has nothing left to download.
pub proof fn nothing_to_download_when_all_is_installed(
    config: Config,
    mods: Seq<String>,
    installed: Map<Seq<char>, (Seq<char>, Seq<char>)>,
)
    requires
        forall|i: int| 0 <= i < mods.len() ==> installed.contains_key((#[trigger] mods[i])@),
    ensures
        download_tasks(config, mods, installed).len() == 0,
    decreases mods.len(),
{
    if mods.len() > 0 {
        assert forall|i: int| 0 <= i < mods.drop_last().len() implies installed.contains_key(
            (#[trigger] mods.drop_last()[i])@,
        ) by {
            assert(mods.drop_last()[i] == mods[i]);
        }
        nothing_to_download_when_all_is_installed(config, mods.drop_last(), installed);
        assert(installed.contains_key(mods[mods.len() - 1]@));
    }
}

/// Whether no two tasks are for the same mod.
pub open spec fn distinct_tasks(tasks: Seq<Task>) -> bool {
    forall|i: int, j: int|
        0 <= i < j < tasks.len() ==> (#[trigger] tasks[i]).spec_item() != (
        #[trigger] tasks[j]).spec_item()
}

/// Whether no string stands twice in `mods`.
pub open spec fn distinct_mods(mods: Seq<String>) -> bool {
    forall|i: int, j: int| 0 <= i < j < mods.len() ==> (#[trigger] mods[i])@ != (#[trigger] mods[j])@
}

proof fn lemma_download_tasks_come_from_mods(
    config: Config,
    mods: Seq<String>,
    installed: Map<Seq<char>, (Seq<char>, Seq<char>)>,
    k: int,
)
    requires
        0 <= k < download_tasks(config, mods, installed).len(),
    ensures
        exists|i: int|
            0 <= i < mods.len() && (#[trigger] mods[i])@ == download_tasks(
                config,
                mods,
                installed,
            )[k].spec_item(),
    decreases mods.len(),
{
    let rest = download_tasks(config, mods.drop_last(), installed);
    if k < rest.len() {
        lemma_download_tasks_come_from_mods(config, mods.drop_last(), installed, k);
        let i = choose|i: int|
            0 <= i < mods.drop_last().len() && (#[trigger] mods.drop_last()[i])@
                == rest[k].spec_item();
        assert(mods[i] == mods.drop_last()[i]);
    } else {
        assert(mods[mods.len() - 1]@ == download_tasks(config, mods, installed)[k].spec_item());
    }
}

/// A pack that holds no mod twice gets no two tasks for the same mod,
/// neither when it is downloaded nor when it is updated.
pub proof fn each_mod_gets_one_task(
    config: Config,
    mods: Seq<String>,
    installed: Map<Seq<char>, (Seq<char>, Seq<char>)>,
)
    requires
        distinct_mods(mods),
    ensures
        distinct_tasks(download_tasks(config, mods, installed)),
        mods == config.mods@ ==> distinct_tasks(update_tasks(config)),
    decreases mods.len(),
{
    if mods.len() > 0 {
        let front = mods.drop_last();
        assert forall|i: int, j: int| 0 <= i < j < front.len() implies (#[trigger] front[i])@ != (
        #[trigger] front[j])@ by {
            assert(mods[i]@ != mods[j]@);
        }
        let tasks = download_tasks(config, mods, installed);
        let rest = download_tasks(config, front, installed);
        each_mod_gets_one_task(config, front, installed);
        assert forall|a: int, b: int| 0 <= a < b < tasks.len() implies (#[trigger] tasks[a]).spec_item() != (
        #[trigger] tasks[b]).spec_item() by {
            assert(tasks[a] == rest[a]);
            if b < rest.len() {
                assert(tasks[b] == rest[b]);
            } else {
                lemma_download_tasks_come_from_mods(config, front, installed, a);
                let i = choose|i: int|
                    0 <= i < front.len() && (#[trigger] front[i])@ == rest[a].spec_item();
                assert(mods[i]@ != mods[mods.len() - 1]@);
            }
        }
    }
    if mods == config.mods@ {
        let updates = update_tasks(config);
        assert forall|a: int, b: int| 0 <= a < b < updates.len() implies (
        #[trigger] updates[a]).spec_item() != (#[trigger] updates[b]).spec_item() by {
            assert(mods[a]@ != mods[b]@);
        }
    }
}

/// After an update that installs, the mod has one file on disk.
///
/// Whenever the newest file is not on disk, every name on disk that is the
/// first file of one of the mod's releases is among the names that the plan
/// removes, and the plan removes no other name.
pub proof fn update_leaves_one_file(versions: Seq<Version>, listing: Seq<Seq<char>>, name: Seq<char>)
    requires
        versions.len() > 0,
        versions[0].files@.len() > 0,
        !listing.contains(versions[0].files@[0].filename@),
    ensures
        stale(listing, versions).contains(name) <==> listing.contains(name) && exists|v: int|
            0 <= v < versions.len() && (#[trigger] versions[v]).files@.len() > 0
                && versions[v].files@[0].filename@ == name,
    decreases listing.len(),
{
    if listing.len() > 0 {
        let rest = listing.drop_last();
        let last = listing.last();
        assert(!rest.contains(versions[0].files@[0].filename@)) by {
            if rest.contains(versions[0].files@[0].filename@) {
                let k = choose|k: int| 0 <= k < rest.len() && rest[k] == versions[0].files@[0].filename@;
                assert(listing[k] == rest[k]);
            }
        }
        update_leaves_one_file(versions, rest, name);
        assert(listing.contains(name) <==> rest.contains(name) || last == name) by {
            if listing.contains(name) {
                let k = choose|k: int| 0 <= k < listing.len() && listing[k] == name;
                if k < rest.len() {
                    assert(rest[k] == name);
                }
            }
            if rest.contains(name) {
                let k = choose|k: int| 0 <= k < rest.len() && rest[k] == name;
                assert(listing[k] == name);
            }
            if last == name {
                assert(listing[listing.len() - 1] == name);
            }
        }
        let before = stale(rest, versions);
        if is_older_file(versions, last) {
            assert(stale(listing, versions) == before.push(last));
            assert(before.push(last).contains(name) <==> before.contains(name) || last == name) by {
                if before.push(last).contains(name) {
                    let k = choose|k: int| 0 <= k < before.push(last).len() && before.push(last)[k] == name;
                    if k < before.len() {
                        assert(before[k] == name);
                    }
                }
                if before.contains(name) {
                    let k = choose|k: int| 0 <= k < before.len() && before[k] == name;
                    assert(before.push(last)[k] == name);
                }
                if last == name {
                    assert(before.push(last)[before.len() as int] == name);
                }
            }
        }
        if last == name {
            assert(listing[listing.len() - 1] == last);
            if exists|v: int|
                0 <= v < versions.len() && (#[trigger] versions[v]).files@.len() > 0
                    && versions[v].files@[0].filename@ == name {
                let v = choose|v: int|
                    0 <= v < versions.len() && (#[trigger] versions[v]).files@.len() > 0
                        && versions[v].files@[0].filename@ == name;
                assert(v != 0);
                assert(is_older_file(versions, name));
            }
        }
    }
}

} // verus!
