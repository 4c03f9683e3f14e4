//! The record of what is installed: for each mod, the release that was
//! installed and the file it was written to.

use vstd::prelude::*;

verus! {

/// The release of a mod that is installed, and the file that holds it.
#[derive(Debug, PartialEq, Eq)]
pub struct InstalledMod {
    pub version: String,
    pub file: String,
}

impl View for InstalledMod {
    type V = (Seq<char>, Seq<char>);

    open spec fn view(&self) -> (Seq<char>, Seq<char>) {
        (self.version@, self.file@)
    }
}

impl Clone for InstalledMod {
    fn clone(&self) -> (copy: Self)
        ensures
            copy == *self,
    {
        InstalledMod { version: self.version.clone(), file: self.file.clone() }
    }
}

/// One line of the record: a mod and what is installed of it.
#[derive(Debug)]
struct ManifestEntry {
    name: String,
    installed: InstalledMod,
}

/// The record of installed mods, at most one entry for each mod.
///
/// As a mathematical value it is a map from a mod's name to the pair of
/// release name and file name.
#[derive(Debug)]
pub struct ModManifest {
    entries: Vec<ManifestEntry>,
}

/// Where in `entries` the entry of `name` stands, if one does.
spec fn position_of(entries: Seq<ManifestEntry>, name: Seq<char>) -> int {
    choose|i: int| 0 <= i < entries.len() && entries[i].name@ == name
}

/// Whether some entry of `entries` is that of `name`.
spec fn has_entry(entries: Seq<ManifestEntry>, name: Seq<char>) -> bool {
    exists|i: int| 0 <= i < entries.len() && #[trigger] entries[i].name@ == name
}

/// Whether no two entries are for the same mod.
spec fn distinct_names(entries: Seq<ManifestEntry>) -> bool {
    forall|i: int, j: int|
        0 <= i < j < entries.len() ==> #[trigger] entries[i].name@ != #[trigger] entries[j].name@
}

/// The map that a list of entries with distinct names stands for.
spec fn entries_map(entries: Seq<ManifestEntry>) -> Map<Seq<char>, (Seq<char>, Seq<char>)> {
    Map::new(
        |name: Seq<char>| has_entry(entries, name),
        |name: Seq<char>| entries[position_of(entries, name)].installed@,
    )
}

/// The map that a list of pairs stands for when it is read front to back
/// and a later pair replaces an earlier one of the same name.
pub open spec fn pairs_map(pairs: Seq<(String, InstalledMod)>) -> Map<Seq<char>, (Seq<char>, Seq<char>)>
    decreases pairs.len(),
{
    if pairs.len() == 0 {
        Map::empty()
    } else {
        pairs_map(pairs.drop_last()).insert(pairs.last().0@, pairs.last().1@)
    }
}

/// Whether `pairs` lists `map`: every pair is in the map, every key of the
/// map has a pair, and no name comes twice.
pub open spec fn lists_map(
    pairs: Seq<(String, InstalledMod)>,
    map: Map<Seq<char>, (Seq<char>, Seq<char>)>,
) -> bool {
    &&& forall|i: int|
        0 <= i < pairs.len() ==> map.contains_pair((#[trigger] pairs[i]).0@, pairs[i].1@)
    &&& forall|name: Seq<char>| #[trigger]
        map.contains_key(name) ==> exists|i: int| 0 <= i < pairs.len() && (#[trigger] pairs[i]).0@ == name
    &&& forall|i: int, j: int|
        0 <= i < j < pairs.len() ==> (#[trigger] pairs[i]).0@ != (#[trigger] pairs[j]).0@
}

proof fn lemma_entry_at(entries: Seq<ManifestEntry>, i: int)
    requires
        distinct_names(entries),
        0 <= i < entries.len(),
    ensures
        has_entry(entries, entries[i].name@),
        position_of(entries, entries[i].name@) == i,
        entries_map(entries).contains_pair(entries[i].name@, entries[i].installed@),
{
    let j = position_of(entries, entries[i].name@);
    assert(0 <= j < entries.len() && entries[j].name@ == entries[i].name@);
    if j < i {
        assert(entries[j].name@ != entries[i].name@);
    } else if i < j {
        assert(entries[i].name@ != entries[j].name@);
    }
}

impl View for ModManifest {
    type V = Map<Seq<char>, (Seq<char>, Seq<char>)>;

    closed spec fn view(&self) -> Map<Seq<char>, (Seq<char>, Seq<char>)> {
        entries_map(self.entries@)
    }
}

impl ModManifest {
    #[verifier::type_invariant]
    spec fn one_entry_each(&self) -> bool {
        distinct_names(self.entries@)
    }

    /// The record with no entry: what an absent manifest file stands for.
    pub fn new() -> (manifest: ModManifest)
        ensures
            manifest@ == Map::<Seq<char>, (Seq<char>, Seq<char>)>::empty(),
    {
        let manifest = ModManifest { entries: Vec::new() };
        assert(manifest@ =~= Map::empty());
        manifest
    }

    fn find(&self, name: &String) -> (found: Option<usize>)
        ensures
            found matches Some(i) ==> i < self.entries@.len() && self.entries@[i as int].name@ == name@,
            found is None ==> !has_entry(self.entries@, name@),
            found is Some == self@.contains_key(name@),
    {
        let mut i: usize = 0;
        while i < self.entries.len()
            invariant
                i <= self.entries@.len(),
                forall|k: int| 0 <= k < i ==> self.entries@[k].name@ != name@,
            decreases self.entries@.len() - i,
        {
            if self.entries[i].name == *name {
                return Some(i);
            }
            i += 1;
        }
        None
    }

    /// Whether the record has an entry for `name`.
    pub fn contains_key(&self, name: &String) -> (present: bool)
        ensures
            present == self@.contains_key(name@),
    {
        self.find(name).is_some()
    }

    /// What is installed of `name`, if the record has an entry for it.
    pub fn get(&self, name: &String) -> (installed: Option<&InstalledMod>)
        ensures
            match installed {
                Some(entry) => self@.contains_key(name@) && self@[name@] == entry@,
                None => !self@.contains_key(name@),
            },
    {
        match self.find(name) {
            Some(i) => {
                proof {
                    use_type_invariant(self);
                    lemma_entry_at(self.entries@, i as int);
                }
                Some(&self.entries[i].installed)
            },
            None => None,
        }
    }

    /// How many mods the record has an entry for.
    pub fn len(&self) -> (count: usize)
        ensures
            count == self@.len(),
            self@.dom().finite(),
    {
        proof {
            use_type_invariant(self);
            lemma_entries_len(self.entries@);
        }
        self.entries.len()
    }

    /// Records that `installed` is now what is installed of `name`. An
    /// earlier entry for `name` is replaced; no other entry changes.
    pub fn insert(&mut self, name: String, installed: InstalledMod)
        ensures
            final(self)@ == old(self)@.insert(name@, installed@),
    {
        proof {
            use_type_invariant(&*self);
        }
        let ghost before = self.entries@;
        let ghost key = name@;
        let ghost value = installed@;
        match self.find(&name) {
            Some(i) => {
                let mut entries: Vec<ManifestEntry> = Vec::new();
                core::mem::swap(&mut self.entries, &mut entries);
                entries.set(i, ManifestEntry { name, installed });
                let ghost after = entries@;
                proof {
                    assert forall|k: int| 0 <= k < after.len() implies (#[trigger] after[k]).name@
                        == before[k].name@ by {}
                    assert(distinct_names(after));
                    assert forall|n: Seq<char>| has_entry(after, n) == has_entry(before, n) by {
                        if has_entry(after, n) {
                            let k = position_of(after, n);
                            assert(before[k].name@ == n);
                        }
                        if has_entry(before, n) {
                            let k = position_of(before, n);
                            assert(after[k].name@ == n);
                        }
                    }
                    lemma_entry_at(before, i as int);
                    assert forall|n: Seq<char>| has_entry(after, n) implies entries_map(after)[n]
                        == entries_map(before).insert(key, value)[n] by {
                        let k = position_of(after, n);
                        lemma_entry_at(after, k);
                        lemma_entry_at(before, k);
                    }
                    assert(entries_map(after) =~= entries_map(before).insert(key, value));
                }
                self.entries = entries;
            },
            None => {
                let mut entries: Vec<ManifestEntry> = Vec::new();
                core::mem::swap(&mut self.entries, &mut entries);
                entries.push(ManifestEntry { name, installed });
                let ghost after = entries@;
                proof {
                    assert(after.drop_last() =~= before);
                    assert forall|i: int, j: int| 0 <= i < j < after.len() implies (
                    #[trigger] after[i]).name@ != (#[trigger] after[j]).name@ by {
                        if j == before.len() {
                            assert(before[i].name@ != key);
                        } else {
                            assert(before[i].name@ != before[j].name@);
                        }
                    }
                    assert forall|n: Seq<char>| has_entry(after, n) == (has_entry(before, n) || n
                        == key) by {
                        if has_entry(after, n) {
                            let k = position_of(after, n);
                            if k < before.len() {
                                assert(before[k].name@ == n);
                            }
                        }
                        if has_entry(before, n) {
                            let k = position_of(before, n);
                            assert(after[k].name@ == n);
                        }
                        if n == key {
                            assert(after[before.len() as int].name@ == n);
                        }
                    }
                    assert forall|n: Seq<char>| has_entry(after, n) implies entries_map(after)[n]
                        == entries_map(before).insert(key, value)[n] by {
                        let k = position_of(after, n);
                        lemma_entry_at(after, k);
                        if k < before.len() {
                            lemma_entry_at(before, k);
                        }
                    }
                    assert(entries_map(after) =~= entries_map(before).insert(key, value));
                }
                self.entries = entries;
            },
        }
    }

    /// Takes the entry for `name` out of the record and returns what it
    /// held. A record without such an entry stays as it is.
    pub fn remove(&mut self, name: &String) -> (removed: Option<InstalledMod>)
        ensures
            final(self)@ == old(self)@.remove(name@),
            match removed {
                Some(entry) => old(self)@.contains_key(name@) && old(self)@[name@] == entry@,
                None => !old(self)@.contains_key(name@),
            },
    {
        proof {
            use_type_invariant(&*self);
        }
        let ghost before = self.entries@;
        match self.find(name) {
            Some(i) => {
                let mut entries: Vec<ManifestEntry> = Vec::new();
                core::mem::swap(&mut self.entries, &mut entries);
                let entry = entries.remove(i);
                let ghost after = entries@;
                proof {
                    lemma_entry_at(before, i as int);
                    assert forall|k: int| 0 <= k < after.len() implies #[trigger] after[k] == before[if k
                        < i {
                        k
                    } else {
                        k + 1
                    }] by {}
                    assert forall|a: int, b: int| 0 <= a < b < after.len() implies (
                    #[trigger] after[a]).name@ != (#[trigger] after[b]).name@ by {
                        let a0 = if a < i { a } else { a + 1 };
                        let b0 = if b < i { b } else { b + 1 };
                        assert(before[a0].name@ != before[b0].name@);
                    }
                    assert forall|n: Seq<char>| has_entry(after, n) == (has_entry(before, n) && n
                        != name@) by {
                        if has_entry(after, n) {
                            let k = position_of(after, n);
                            let k0 = if k < i { k } else { k + 1 };
                            assert(before[k0].name@ == n);
                            lemma_entry_at(before, k0);
                        }
                        if has_entry(before, n) && n != name@ {
                            let k0 = position_of(before, n);
                            let k = if k0 < i { k0 } else { k0 - 1 };
                            assert(after[k].name@ == n);
                        }
                    }
                    assert forall|n: Seq<char>| has_entry(after, n) implies entries_map(after)[n]
                        == entries_map(before).remove(name@)[n] by {
                        let k = position_of(after, n);
                        let k0 = if k < i { k } else { k + 1 };
                        lemma_entry_at(after, k);
                        lemma_entry_at(before, k0);
                    }
                    assert(entries_map(after) =~= entries_map(before).remove(name@));
                }
                self.entries = entries;
                Some(entry.installed)
            },
            None => {
                assert(self@ =~= old(self)@.remove(name@));
                None
            },
        }
    }

    /// The entries of the record as pairs of a mod's name and what is
    /// installed of it, each mod once.
    pub fn to_pairs(&self) -> (pairs: Vec<(String, InstalledMod)>)
        ensures
            lists_map(pairs@, self@),
            pairs@.len() == self@.len(),
    {
        proof {
            use_type_invariant(self);
            lemma_entries_len(self.entries@);
        }
        let mut pairs: Vec<(String, InstalledMod)> = Vec::new();
        let mut i: usize = 0;
        while i < self.entries.len()
            invariant
                i <= self.entries@.len(),
                pairs@.len() == i,
                forall|k: int|
                    0 <= k < i ==> (#[trigger] pairs@[k]).0 == self.entries@[k].name && pairs@[k].1
                        == self.entries@[k].installed,
            decreases self.entries@.len() - i,
        {
            pairs.push((self.entries[i].name.clone(), self.entries[i].installed.clone()));
            i += 1;
        }
        proof {
            let entries = self.entries@;
            assert forall|k: int| 0 <= k < pairs@.len() implies self@.contains_pair(
                (#[trigger] pairs@[k]).0@,
                pairs@[k].1@,
            ) by {
                lemma_entry_at(entries, k);
            }
            assert forall|name: Seq<char>| #[trigger] self@.contains_key(name) implies exists|k: int|
                0 <= k < pairs@.len() && (#[trigger] pairs@[k]).0@ == name by {
                let k = position_of(entries, name);
                assert(pairs@[k].0@ == name);
            }
            assert forall|a: int, b: int| 0 <= a < b < pairs@.len() implies (#[trigger] pairs@[a]).0@ != (
            #[trigger] pairs@[b]).0@ by {
                assert(entries[a].name@ != entries[b].name@);
            }
        }
        pairs
    }

    /// The record that `pairs` describe when they are read front to back: a
    /// later pair replaces an earlier one for the same mod.
    pub fn from_pairs(pairs: &Vec<(String, InstalledMod)>) -> (manifest: ModManifest)
        ensures
            manifest@ == pairs_map(pairs@),
    {
        let mut manifest = ModManifest::new();
        let mut i: usize = 0;
        while i < pairs.len()
            invariant
                i <= pairs@.len(),
                manifest@ == pairs_map(pairs@.take(i as int)),
            decreases pairs@.len() - i,
        {
            proof {
                assert(pairs@.take(i as int + 1).drop_last() =~= pairs@.take(i as int));
            }
            manifest.insert(pairs[i].0.clone(), pairs[i].1.clone());
            i += 1;
        }
        proof {
            assert(pairs@.take(i as int) =~= pairs@);
        }
        manifest
    }
}

/// Reading back the pairs that list a record gives that record: a list of
/// pairs that holds each entry of `map` once, and nothing else, stands for
/// `map` itself.
pub proof fn pairs_give_back_the_map(
    pairs: Seq<(String, InstalledMod)>,
    map: Map<Seq<char>, (Seq<char>, Seq<char>)>,
)
    requires
        lists_map(pairs, map),
    ensures
        pairs_map(pairs) == map,
    decreases pairs.len(),
{
    if pairs.len() == 0 {
        assert(map =~= Map::empty());
    } else {
        let rest = pairs.drop_last();
        let last = pairs.last();
        let smaller = map.remove(last.0@);
        assert forall|i: int| 0 <= i < rest.len() implies smaller.contains_pair(
            (#[trigger] rest[i]).0@,
            rest[i].1@,
        ) by {
            assert(rest[i] == pairs[i]);
            assert(pairs[i].0@ != pairs[pairs.len() - 1].0@);
        }
        assert forall|name: Seq<char>| #[trigger] smaller.contains_key(name) implies exists|i: int|
            0 <= i < rest.len() && (#[trigger] rest[i]).0@ == name by {
            assert(map.contains_key(name));
            let i = choose|i: int| 0 <= i < pairs.len() && (#[trigger] pairs[i]).0@ == name;
            assert(rest[i] == pairs[i]);
        }
        assert forall|i: int, j: int| 0 <= i < j < rest.len() implies (#[trigger] rest[i]).0@ != (
        #[trigger] rest[j]).0@ by {
            assert(pairs[i].0@ != pairs[j].0@);
        }
        pairs_give_back_the_map(rest, smaller);
        assert(map.contains_pair(pairs[pairs.len() - 1].0@, pairs[pairs.len() - 1].1@));
        assert(pairs_map(pairs) =~= map);
    }
}

proof fn lemma_entries_len(entries: Seq<ManifestEntry>)
    requires
        distinct_names(entries),
    ensures
        entries_map(entries).dom().finite(),
        entries_map(entries).len() == entries.len(),
    decreases entries.len(),
{
    if entries.len() == 0 {
        assert(entries_map(entries) =~= Map::empty());
    } else {
        let rest = entries.drop_last();
        let last = entries.last();
        assert forall|i: int, j: int| 0 <= i < j < rest.len() implies (#[trigger] rest[i]).name@ != (
        #[trigger] rest[j]).name@ by {
            assert(entries[i].name@ != entries[j].name@);
        }
        lemma_entries_len(rest);
        assert(!has_entry(rest, last.name@)) by {
            if has_entry(rest, last.name@) {
                let k = position_of(rest, last.name@);
                assert(entries[k].name@ != entries[entries.len() - 1].name@);
            }
        }
        assert forall|n: Seq<char>| has_entry(entries, n) == (has_entry(rest, n) || n
            == last.name@) by {
            if has_entry(entries, n) {
                let k = position_of(entries, n);
                if k < rest.len() {
                    assert(rest[k].name@ == n);
                }
            }
            if has_entry(rest, n) {
                let k = position_of(rest, n);
                assert(entries[k].name@ == n);
            }
            if n == last.name@ {
                assert(entries[entries.len() - 1].name@ == n);
            }
        }
        assert(entries_map(entries).dom() =~= entries_map(rest).dom().insert(last.name@));
    }
}

} // verus!
