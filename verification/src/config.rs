//! The definition of a mod pack: its loader, its game version and the mods
//! that belong to it.

use vstd::prelude::*;
use crate::modrinth::Loaders;
use crate::resolver::names;

verus! {

/// A pack: the loader and game version it targets and the mods in it.
#[derive(Clone, Debug)]
pub struct Config {
    pub loader: Loaders,
    pub version: String,
    pub mods: Vec<String>,
}

/// `mods` without every occurrence of `name`, the rest in its order.
pub open spec fn without(mods: Seq<Seq<char>>, name: Seq<char>) -> Seq<Seq<char>>
    decreases mods.len(),
{
    if mods.len() == 0 {
        Seq::empty()
    } else {
        let rest = without(mods.drop_last(), name);
        if mods.last() == name {
            rest
        } else {
            rest.push(mods.last())
        }
    }
}

/// Whether `a` is `b` or comes before it in the order of strings: the
/// first character in which they differ decides, by its code point, and a
/// string comes before every longer string that starts with it.
pub open spec fn name_le(a: Seq<char>, b: Seq<char>) -> bool
    decreases a.len(),
{
    if a.len() == 0 {
        true
    } else if b.len() == 0 {
        false
    } else if a[0] != b[0] {
        (a[0] as u32) < (b[0] as u32)
    } else {
        name_le(a.drop_first(), b.drop_first())
    }
}

/// Whether each of `mods` is followed only by strings that are not before
/// it in the order of strings.
pub open spec fn in_order(mods: Seq<Seq<char>>) -> bool {
    forall|i: int, j: int| 0 <= i < j < mods.len() ==> name_le(#[trigger] mods[i], #[trigger] mods[j])
}

/// Sorts the strings with `sort` of the standard library's slices.
///
/// Not proved here: that the strings afterwards are the ones from before,
/// each as often as before, and that they stand in the order that the
/// standard library documents for strings, which compares them byte by
/// byte and with that code point by code point.
#[verifier::external_body]
fn sort_strings(strings: &mut Vec<String>)
    ensures
        names(final(strings)@).to_multiset() == names(old(strings)@).to_multiset(),
        in_order(names(final(strings)@)),
{
    strings.sort();
}

impl Config {
    /// A pack for `loader` and `game_version` that holds no mod yet.
    pub fn new(loader: Loaders, game_version: String) -> (config: Config)
        ensures
            config.loader == loader,
            config.version == game_version,
            config.mods@.len() == 0,
    {
        Config { loader, version: game_version, mods: Vec::new() }
    }

    /// Whether `name` is one of the pack's mods.
    pub fn contains(&self, name: &String) -> (present: bool)
        ensures
            present == names(self.mods@).contains(name@),
    {
        let mut i: usize = 0;
        while i < self.mods.len()
            invariant
                i <= self.mods@.len(),
                forall|k: int| 0 <= k < i ==> names(self.mods@)[k] != name@,
            decreases self.mods@.len() - i,
        {
            if self.mods[i] == *name {
                assert(names(self.mods@)[i as int] == name@);
                return true;
            }
            i += 1;
        }
        false
    }

    /// Puts `name` at the end of the pack's mods unless the pack holds it
    /// already, and says whether it did so.
    pub fn add(&mut self, name: String) -> (added: bool)
        ensures
            added == !names(old(self).mods@).contains(name@),
            added ==> final(self).mods@ == old(self).mods@.push(name),
            !added ==> final(self).mods@ == old(self).mods@,
            final(self).loader == old(self).loader,
            final(self).version == old(self).version,
    {
        if self.contains(&name) {
            false
        } else {
            self.mods.push(name);
            true
        }
    }

    /// Takes `name` out of the pack's mods and says whether the pack held
    /// it. The other mods keep their order.
    pub fn remove(&mut self, name: &String) -> (removed: bool)
        ensures
            removed == names(old(self).mods@).contains(name@),
            names(final(self).mods@) == without(names(old(self).mods@), name@),
            final(self).loader == old(self).loader,
            final(self).version == old(self).version,
    {
        let mut kept: Vec<String> = Vec::new();
        let mut removed: bool = false;
        let mut i: usize = 0;
        while i < self.mods.len()
            invariant
                i <= self.mods@.len(),
                *self == *old(self),
                removed == names(self.mods@).take(i as int).contains(name@),
                names(kept@) == without(names(self.mods@).take(i as int), name@),
            decreases self.mods@.len() - i,
        {
            let ghost all = names(self.mods@);
            let ghost seen = all.take(i as int);
            let ghost next = all.take(i as int + 1);
            proof {
                assert(next.drop_last() =~= seen);
                assert(next.last() == self.mods@[i as int]@);
            }
            if self.mods[i] == *name {
                proof {
                    assert(next[i as int] == name@);
                }
                removed = true;
            } else {
                let ghost before = kept@;
                kept.push(self.mods[i].clone());
                proof {
                    assert(names(kept@) =~= names(before).push(self.mods@[i as int]@));
                    if next.contains(name@) {
                        let k = choose|k: int| 0 <= k < next.len() && next[k] == name@;
                        assert(seen[k] == name@);
                    }
                    if seen.contains(name@) {
                        let k = choose|k: int| 0 <= k < seen.len() && seen[k] == name@;
                        assert(next[k] == name@);
                    }
                }
            }
            i += 1;
        }
        proof {
            assert(names(self.mods@).take(i as int) =~= names(self.mods@));
        }
        self.mods = kept;
        removed
    }

    /// Puts the pack's mods into the order of strings, as they are saved.
    /// No mod is added or lost.
    pub fn sort_mods(&mut self)
        ensures
            names(final(self).mods@).to_multiset() == names(old(self).mods@).to_multiset(),
            in_order(names(final(self).mods@)),
            final(self).loader == old(self).loader,
            final(self).version == old(self).version,
    {
        sort_strings(&mut self.mods);
    }

    /// The same pack, moved to another game version.
    pub fn with_version(self, game_version: String) -> (config: Config)
        ensures
            config.loader == self.loader,
            config.version == game_version,
            config.mods == self.mods,
    {
        Config { loader: self.loader, version: game_version, mods: self.mods }
    }
}

} // verus!
