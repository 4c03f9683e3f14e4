//! The lines that describe a release to the user.

use vstd::prelude::*;
use vstd::string::*;
use crate::modrinth::Version;
use crate::resolver::names;

verus! {

/// The strings of `parts` in a row, with `separator` between each two.
pub open spec fn joined(parts: Seq<Seq<char>>, separator: Seq<char>) -> Seq<char>
    decreases parts.len(),
{
    if parts.len() == 0 {
        Seq::empty()
    } else if parts.len() == 1 {
        parts[0]
    } else {
        joined(parts.drop_last(), separator) + separator + parts.last()
    }
}

/// Joins `parts` into one string, with `separator` between each two.
pub fn join(parts: &Vec<String>, separator: &str) -> (text: String)
    ensures
        text@ == joined(names(parts@), separator@),
{
    let mut text = String::new();
    let mut i: usize = 0;
    while i < parts.len()
        invariant
            i <= parts@.len(),
            text@ == joined(names(parts@).take(i as int), separator@),
        decreases parts@.len() - i,
    {
        let ghost all = names(parts@);
        proof {
            assert(all.take(i as int + 1).drop_last() =~= all.take(i as int));
            assert(all.take(i as int + 1).last() == parts@[i as int]@);
        }
        if i > 0 {
            text.append(separator);
        } else {
            proof {
                assert(all.take(1)[0] == parts@[0]@);
                assert(Seq::<char>::empty() + parts@[0]@ =~= parts@[0]@);
            }
        }
        text.append(parts[i].as_str());
        i += 1;
    }
    proof {
        assert(names(parts@).take(i as int) =~= names(parts@));
    }
    text
}

/// The line for a release in the list of a mod's releases.
pub open spec fn spec_version_line(version: Version) -> Seq<char> {
    "\t"@ + version.name@ + " - "@ + joined(names(version.game_versions@), ", "@) + " "@ + joined(
        names(version.loaders@),
        ", "@,
    )
}

/// The line for a release in the list of a mod's releases: a tab, the
/// release's name, its game versions and its loaders.
pub fn version_line(version: &Version) -> (line: String)
    ensures
        line@ == spec_version_line(*version),
{
    let mut line = String::from_str("\t");
    line.append(version.name.as_str());
    line.append(" - ");
    let game_versions = join(&version.game_versions, ", ");
    line.append(game_versions.as_str());
    line.append(" ");
    let loaders = join(&version.loaders, ", ");
    line.append(loaders.as_str());
    line
}

/// The line for the newest release of a mod.
pub open spec fn spec_latest_line(version: Version) -> Seq<char> {
    "\t"@ + version.name@ + " - "@ + joined(names(version.game_versions@), ", "@)
}

/// The line for the newest release of a mod: a tab, the release's name and
/// its game versions.
pub fn latest_line(version: &Version) -> (line: String)
    ensures
        line@ == spec_latest_line(*version),
{
    let mut line = String::from_str("\t");
    line.append(version.name.as_str());
    line.append(" - ");
    let game_versions = join(&version.game_versions, ", ");
    line.append(game_versions.as_str());
    line
}

} // verus!
