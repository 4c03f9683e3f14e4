//! Which game versions every mod of a pack supports, and what follows from
//! that: the versions a pack can be upgraded to and the newest game release
//! a single mod supports.

use vstd::prelude::*;
use crate::error::Error;
use crate::modrinth::{GameVersion, Version, VersionType};

verus! {

/// The strings of `strings`, as sequences of characters.
pub open spec fn names(strings: Seq<String>) -> Seq<Seq<char>> {
    Seq::new(strings.len(), |i: int| strings[i]@)
}

/// The version strings of a catalog, in the catalog's order.
pub open spec fn catalog_names(catalog: Seq<GameVersion>) -> Seq<Seq<char>> {
    Seq::new(catalog.len(), |i: int| catalog[i].version@)
}

/// Every game version that the releases declare, release after release, in
/// the order in which they declare them. A version declared twice stands
/// there twice.
pub open spec fn declared(releases: Seq<Version>) -> Seq<Seq<char>>
    decreases releases.len(),
{
    if releases.len() == 0 {
        Seq::empty()
    } else {
        declared(releases.drop_last()) + names(releases.last().game_versions@)
    }
}

/// Whether some release of `releases` declares support for `version`.
pub open spec fn supports(releases: Seq<Version>, version: Seq<char>) -> bool {
    declared(releases).contains(version)
}

/// Whether the catalog lists every game version that `releases` declare.
pub open spec fn known(catalog: Seq<GameVersion>, releases: Seq<Version>) -> bool {
    forall|p: int|
        0 <= p < declared(releases).len() ==> catalog_names(catalog).contains(
            #[trigger] declared(releases)[p],
        )
}

/// Whether `i` is the first place at which `x` stands in `s`.
pub open spec fn is_first(s: Seq<Seq<char>>, i: int, x: Seq<char>) -> bool {
    &&& 0 <= i < s.len()
    &&& s[i] == x
    &&& forall|j: int| 0 <= j < i ==> s[j] != x
}

/// The first place at which `x` stands in `s`, for an `x` that `s` holds.
pub open spec fn first_index(s: Seq<Seq<char>>, x: Seq<char>) -> int {
    choose|i: int| is_first(s, i, x)
}

proof fn lemma_first_unique(s: Seq<Seq<char>>, i: int, x: Seq<char>)
    requires
        is_first(s, i, x),
    ensures
        first_index(s, x) == i,
{
    let j = first_index(s, x);
    assert(is_first(s, j, x));
    if j < i {
        assert(s[j] != x);
    } else if i < j {
        assert(s[i] != x);
    }
}

proof fn lemma_first_exists(s: Seq<Seq<char>>, x: Seq<char>)
    requires
        s.contains(x),
    ensures
        is_first(s, first_index(s, x), x),
    decreases s.len(),
{
    if s.drop_last().contains(x) {
        lemma_first_exists(s.drop_last(), x);
        let i = first_index(s.drop_last(), x);
        assert(s[i] == s.drop_last()[i]);
        assert forall|j: int| 0 <= j < i implies s[j] != x by {
            assert(s[j] == s.drop_last()[j]);
        }
        assert(is_first(s, i, x));
    } else {
        let k = choose|k: int| 0 <= k < s.len() && s[k] == x;
        if k < s.len() - 1 {
            assert(s.drop_last()[k] == x);
        }
        assert forall|j: int| 0 <= j < s.len() - 1 implies s[j] != x by {
            assert(s.drop_last()[j] == s[j]);
        }
        assert(is_first(s, s.len() - 1, x));
    }
}

proof fn lemma_first_after_push(s: Seq<Seq<char>>, x: Seq<char>, y: Seq<char>)
    requires
        s.contains(y),
    ensures
        first_index(s.push(x), y) == first_index(s, y),
        first_index(s, y) < s.len(),
{
    lemma_first_exists(s, y);
    let i = first_index(s, y);
    assert(s.push(x)[i] == s[i]);
    assert forall|j: int| 0 <= j < i implies s.push(x)[j] != y by {
        assert(s.push(x)[j] == s[j]);
    }
    lemma_first_unique(s.push(x), i, y);
}

proof fn lemma_first_of_new(s: Seq<Seq<char>>, x: Seq<char>)
    requires
        !s.contains(x),
    ensures
        first_index(s.push(x), x) == s.len(),
{
    assert forall|j: int| 0 <= j < s.len() implies s.push(x)[j] != x by {
        assert(s.push(x)[j] == s[j]);
    }
    lemma_first_unique(s.push(x), s.len() as int, x);
}

proof fn lemma_declared_take(releases: Seq<Version>, r: int)
    requires
        0 <= r <= releases.len(),
    ensures
        declared(releases.take(r)).is_prefix_of(declared(releases)),
    decreases releases.len(),
{
    if r == releases.len() {
        assert(releases.take(r) =~= releases);
    } else {
        assert(releases.drop_last().take(r) =~= releases.take(r));
        lemma_declared_take(releases.drop_last(), r);
    }
}

proof fn lemma_declared_step(releases: Seq<Version>, r: int)
    requires
        0 <= r < releases.len(),
    ensures
        declared(releases.take(r + 1)) == declared(releases.take(r)) + names(
            releases[r].game_versions@,
        ),
{
    assert(releases.take(r + 1).drop_last() =~= releases.take(r));
}

/// The place of the first catalog entry whose version string is `name`.
fn catalog_position(catalog: &Vec<GameVersion>, name: &String) -> (found: Option<usize>)
    ensures
        match found {
            Some(c) => is_first(catalog_names(catalog@), c as int, name@),
            None => !catalog_names(catalog@).contains(name@),
        },
{
    let mut c: usize = 0;
    while c < catalog.len()
        invariant
            c <= catalog@.len(),
            forall|d: int| 0 <= d < c ==> catalog_names(catalog@)[d] != name@,
        decreases catalog@.len() - c,
    {
        if catalog[c].version == *name {
            return Some(c);
        }
        c += 1;
    }
    None
}

fn holds(list: &Vec<usize>, wanted: usize) -> (yes: bool)
    ensures
        yes == list@.contains(wanted),
{
    let mut k: usize = 0;
    while k < list.len()
        invariant
            k <= list@.len(),
            forall|j: int| 0 <= j < k ==> list@[j] != wanted,
        decreases list@.len() - k,
    {
        if list[k] == wanted {
            return true;
        }
        k += 1;
    }
    false
}

/// Whether one of the places in `support` is that of `version` in `listed`.
spec fn names_version(listed: Seq<Seq<char>>, support: Seq<usize>, version: Seq<char>) -> bool {
    exists|k: int| 0 <= k < support.len() && listed[(#[trigger] support[k]) as int] == version
}

/// Whether `support` names, by their places in the catalog, exactly the
/// game versions that stand in `seen`, each once, in the order in which
/// `seen` first holds them.
spec fn is_support(catalog: Seq<GameVersion>, seen: Seq<Seq<char>>, support: Seq<usize>) -> bool {
    let listed = catalog_names(catalog);
    &&& forall|k: int|
        0 <= k < support.len() ==> is_first(listed, (#[trigger] support[k]) as int, listed[support[k] as int])
            && seen.contains(listed[support[k] as int])
    &&& forall|p: int| 0 <= p < seen.len() ==> names_version(listed, support, #[trigger] seen[p])
    &&& forall|j: int, k: int|
        0 <= j < k < support.len() ==> first_index(seen, listed[(#[trigger] support[j]) as int])
            < first_index(seen, listed[(#[trigger] support[k]) as int])
}

/// The game versions that one mod's releases declare, as places in the
/// catalog, or the failure when one of them is not in the catalog.
fn item_support(catalog: &Vec<GameVersion>, releases: &Vec<Version>) -> (found: Result<Vec<usize>, Error>)
    ensures
        match found {
            Ok(support) => known(catalog@, releases@) && is_support(
                catalog@,
                declared(releases@),
                support@,
            ),
            Err(e) => !known(catalog@, releases@) && e == Error::InvalidPlatformVersion,
        },
{
    let ghost listed = catalog_names(catalog@);
    let mut support: Vec<usize> = Vec::new();
    let ghost mut seen: Seq<Seq<char>> = Seq::empty();
    let mut r: usize = 0;
    while r < releases.len()
        invariant
            r <= releases@.len(),
            listed == catalog_names(catalog@),
            seen == declared(releases@.take(r as int)),
            is_support(catalog@, seen, support@),
            forall|p: int| 0 <= p < seen.len() ==> listed.contains(#[trigger] seen[p]),
        decreases releases@.len() - r,
    {
        let versions = &releases[r].game_versions;
        let ghost before = seen;
        let mut g: usize = 0;
        while g < versions.len()
            invariant
                r < releases@.len(),
                versions == &releases@[r as int].game_versions,
                g <= versions@.len(),
                listed == catalog_names(catalog@),
                before == declared(releases@.take(r as int)),
                seen == before + names(versions@).take(g as int),
                is_support(catalog@, seen, support@),
                forall|p: int| 0 <= p < seen.len() ==> listed.contains(#[trigger] seen[p]),
            decreases versions@.len() - g,
        {
            let ghost x = versions@[g as int]@;
            let ghost next = seen.push(x);
            proof {
                assert(names(versions@).take(g as int + 1) =~= names(versions@).take(g as int).push(x));
                assert(before + names(versions@).take(g as int + 1) =~= next);
            }
            match catalog_position(catalog, &versions[g]) {
                None => {
                    proof {
                        lemma_declared_step(releases@, r as int);
                        lemma_declared_take(releases@, r as int + 1);
                        let all = declared(releases@);
                        let p = before.len() + g;
                        assert(declared(releases@.take(r as int + 1))[p] == x);
                        assert(all[p] == x);
                    }
                    return Err(Error::InvalidPlatformVersion);
                },
                Some(c) => {
                    if !holds(&support, c) {
                        proof {
                            if seen.contains(x) {
                                let p = choose|p: int| 0 <= p < seen.len() && seen[p] == x;
                                assert(names_version(listed, support@, seen[p]));
                                let k = choose|k: int|
                                    0 <= k < support@.len() && listed[(#[trigger] support@[k]) as int]
                                        == seen[p];
                                assert(is_first(listed, support@[k] as int, x));
                                lemma_first_unique(listed, support@[k] as int, x);
                                lemma_first_unique(listed, c as int, x);
                                assert(support@[k] == c);
                            }
                            lemma_first_of_new(seen, x);
                        }
                        let ghost old_support = support@;
                        support.push(c);
                        proof {
                            assert forall|k: int| 0 <= k < support@.len() implies is_first(
                                listed,
                                (#[trigger] support@[k]) as int,
                                listed[support@[k] as int],
                            ) && next.contains(listed[support@[k] as int]) by {
                                if k < old_support.len() {
                                    assert(support@[k] == old_support[k]);
                                    let y = listed[old_support[k] as int];
                                    let q = choose|q: int| 0 <= q < seen.len() && seen[q] == y;
                                    assert(next[q] == y);
                                } else {
                                    assert(next[seen.len() as int] == x);
                                }
                            }
                            assert forall|p: int| 0 <= p < next.len() implies names_version(
                                listed,
                                support@,
                                #[trigger] next[p],
                            ) by {
                                if p < seen.len() {
                                    assert(names_version(listed, old_support, seen[p]));
                                    let k = choose|k: int|
                                        0 <= k < old_support.len() && listed[(
                                        #[trigger] old_support[k]) as int] == seen[p];
                                    assert(support@[k] == old_support[k]);
                                } else {
                                    assert(support@[old_support.len() as int] == c);
                                }
                            }
                            assert forall|j: int, k: int| 0 <= j < k < support@.len() implies first_index(
                                next,
                                listed[(#[trigger] support@[j]) as int],
                            ) < first_index(next, listed[(#[trigger] support@[k]) as int]) by {
                                assert(support@[j] == old_support[j]);
                                lemma_first_after_push(seen, x, listed[old_support[j] as int]);
                                if k < old_support.len() {
                                    assert(support@[k] == old_support[k]);
                                    lemma_first_after_push(seen, x, listed[old_support[k] as int]);
                                }
                            }
                        }
                    } else {
                        proof {
                            let k0 = choose|k: int| 0 <= k < support@.len() && support@[k] == c;
                            assert(listed[support@[k0] as int] == x);
                            assert(seen.contains(x));
                            assert forall|k: int| 0 <= k < support@.len() implies is_first(
                                listed,
                                (#[trigger] support@[k]) as int,
                                listed[support@[k] as int],
                            ) && next.contains(listed[support@[k] as int]) by {
                                let y = listed[support@[k] as int];
                                let q = choose|q: int| 0 <= q < seen.len() && seen[q] == y;
                                assert(next[q] == y);
                            }
                            assert forall|p: int| 0 <= p < next.len() implies names_version(
                                listed,
                                support@,
                                #[trigger] next[p],
                            ) by {
                                if p < seen.len() {
                                    assert(next[p] == seen[p]);
                                    assert(names_version(listed, support@, seen[p]));
                                } else {
                                    assert(listed[support@[k0] as int] == x);
                                }
                            }
                            assert forall|j: int, k: int| 0 <= j < k < support@.len() implies first_index(
                                next,
                                listed[(#[trigger] support@[j]) as int],
                            ) < first_index(next, listed[(#[trigger] support@[k]) as int]) by {
                                lemma_first_after_push(seen, x, listed[support@[j] as int]);
                                lemma_first_after_push(seen, x, listed[support@[k] as int]);
                            }
                        }
                    }
                    proof {
                        assert(is_support(catalog@, next, support@));
                        assert forall|p: int| 0 <= p < next.len() implies listed.contains(
                            #[trigger] next[p],
                        ) by {
                            if p < seen.len() {
                                assert(next[p] == seen[p]);
                            } else {
                                assert(listed[c as int] == x);
                            }
                        }
                        seen = next;
                    }
                },
            }
            g += 1;
        }
        proof {
            assert(names(versions@).take(g as int) =~= names(versions@));
            lemma_declared_step(releases@, r as int);
        }
        r += 1;
    }
    proof {
        assert(releases@.take(r as int) =~= releases@);
    }
    Ok(support)
}

/// Whether the catalog lists every game version that any release of any
/// mod in `items` declares.
pub open spec fn all_known(catalog: Seq<GameVersion>, items: Seq<Vec<Version>>) -> bool {
    forall|i: int| 0 <= i < items.len() ==> known(catalog, (#[trigger] items[i])@)
}

/// Whether `version` is supported by every mod of `items`, of which there is
/// at least one. `items` holds the releases of each mod.
pub open spec fn compatible(items: Seq<Vec<Version>>, version: Seq<char>) -> bool {
    items.len() > 0 && forall|i: int|
        0 <= i < items.len() ==> supports((#[trigger] items[i])@, version)
}

/// The order of the result: the newer game version first; of two published
/// at the same moment, the one that the first mod's releases declare first.
pub open spec fn comes_before(items: Seq<Vec<Version>>, a: GameVersion, b: GameVersion) -> bool {
    a.date > b.date || (a.date == b.date && first_index(declared(items[0]@), a.version@)
        < first_index(declared(items[0]@), b.version@))
}

/// Whether `entry` is the catalog's entry for its version string: the first
/// one, should the catalog hold several.
pub open spec fn is_catalog_entry(catalog: Seq<GameVersion>, entry: GameVersion) -> bool {
    exists|c: int| is_first(catalog_names(catalog), c, entry.version@) && #[trigger] catalog[c] == entry
}

/// Whether one of `versions` has the version string `version`.
pub open spec fn has_version(versions: Seq<GameVersion>, version: Seq<char>) -> bool {
    exists|k: int| 0 <= k < versions.len() && (#[trigger] versions[k]).version@ == version
}

/// Whether `result` is the answer for `items`: catalog entries of exactly
/// the game versions that every mod supports, in the order of
/// `comes_before`, which admits no version twice.
pub open spec fn is_resolution(
    catalog: Seq<GameVersion>,
    items: Seq<Vec<Version>>,
    result: Seq<GameVersion>,
) -> bool {
    &&& forall|k: int| 0 <= k < result.len() ==> is_catalog_entry(catalog, #[trigger] result[k])
    &&& forall|k: int| 0 <= k < result.len() ==> compatible(items, (#[trigger] result[k]).version@)
    &&& forall|version: Seq<char>| #[trigger]
        compatible(items, version) ==> has_version(result, version)
    &&& forall|a: int, b: int|
        0 <= a < b < result.len() ==> comes_before(items, #[trigger] result[a], #[trigger] result[b])
}

/// The members of `candidates` that `other` holds too, in their order.
fn keep_common(candidates: &Vec<usize>, other: &Vec<usize>, Ghost(rank): Ghost<spec_fn(usize) -> int>) -> (kept: Vec<usize>)
    requires
        forall|a: int, b: int|
            0 <= a < b < candidates@.len() ==> rank(#[trigger] candidates@[a]) < rank(
                #[trigger] candidates@[b],
            ),
    ensures
        forall|c: usize| kept@.contains(c) <==> candidates@.contains(c) && other@.contains(c),
        forall|a: int, b: int|
            0 <= a < b < kept@.len() ==> rank(#[trigger] kept@[a]) < rank(#[trigger] kept@[b]),
{
    let mut kept: Vec<usize> = Vec::new();
    let mut p: usize = 0;
    while p < candidates.len()
        invariant
            p <= candidates@.len(),
            forall|a: int, b: int|
                0 <= a < b < candidates@.len() ==> rank(#[trigger] candidates@[a]) < rank(
                    #[trigger] candidates@[b],
                ),
            forall|k: int|
                0 <= k < kept@.len() ==> other@.contains(#[trigger] kept@[k]) && exists|q: int|
                    0 <= q < p && candidates@[q] == kept@[k],
            forall|q: int|
                0 <= q < p && other@.contains(#[trigger] candidates@[q]) ==> kept@.contains(
                    candidates@[q],
                ),
            forall|a: int, b: int|
                0 <= a < b < kept@.len() ==> rank(#[trigger] kept@[a]) < rank(#[trigger] kept@[b]),
        decreases candidates@.len() - p,
    {
        let c: usize = candidates[p];
        if holds(other, c) {
            let ghost before = kept@;
            kept.push(c);
            proof {
                assert forall|k: int| 0 <= k < kept@.len() implies other@.contains(
                    #[trigger] kept@[k],
                ) && exists|q: int| 0 <= q < p + 1 && candidates@[q] == kept@[k] by {
                    if k < before.len() {
                        assert(kept@[k] == before[k]);
                        let q = choose|q: int| 0 <= q < p && candidates@[q] == before[k];
                        assert(candidates@[q] == kept@[k]);
                    } else {
                        assert(candidates@[p as int] == kept@[k]);
                    }
                }
                assert forall|q: int|
                    0 <= q < p + 1 && other@.contains(
                        #[trigger] candidates@[q],
                    ) implies kept@.contains(candidates@[q]) by {
                    if q < p {
                        let k = choose|k: int| 0 <= k < before.len() && before[k] == candidates@[q];
                        assert(kept@[k] == candidates@[q]);
                    } else {
                        assert(kept@[before.len() as int] == c);
                    }
                }
                assert forall|a: int, b: int| 0 <= a < b < kept@.len() implies rank(
                    #[trigger] kept@[a],
                ) < rank(#[trigger] kept@[b]) by {
                    assert(kept@[a] == before[a]);
                    if b < before.len() {
                        assert(kept@[b] == before[b]);
                    } else {
                        let q = choose|q: int| 0 <= q < p && candidates@[q] == before[a];
                        assert(rank(candidates@[q]) < rank(candidates@[p as int]));
                    }
                }
            }
        }
        p += 1;
    }
    proof {
        assert forall|c: usize| kept@.contains(c) <==> candidates@.contains(c) && other@.contains(
            c,
        ) by {
            if kept@.contains(c) {
                let k = choose|k: int| 0 <= k < kept@.len() && kept@[k] == c;
                assert(other@.contains(kept@[k]));
                let q = choose|q: int| 0 <= q < p && candidates@[q] == kept@[k];
                assert(candidates@[q] == c);
            }
            if candidates@.contains(c) && other@.contains(c) {
                let q = choose|q: int| 0 <= q < candidates@.len() && candidates@[q] == c;
                assert(other@.contains(candidates@[q]));
            }
        }
    }
    kept
}

/// The order among catalog places that the result keeps: by date, the
/// newer first, and by `rank` where the dates are equal.
spec fn place_before(catalog: Seq<GameVersion>, rank: spec_fn(usize) -> int, a: usize, b: usize) -> bool {
    catalog[a as int].date > catalog[b as int].date || (catalog[a as int].date
        == catalog[b as int].date && rank(a) < rank(b))
}

/// Sorts catalog places by date, the newest first. Places with the same
/// date keep the order they came in.
fn newest_first(catalog: &Vec<GameVersion>, candidates: &Vec<usize>, Ghost(rank): Ghost<spec_fn(usize) -> int>) -> (sorted: Vec<usize>)
    requires
        forall|k: int| 0 <= k < candidates@.len() ==> (#[trigger] candidates@[k]) < catalog@.len(),
        forall|a: int, b: int|
            0 <= a < b < candidates@.len() ==> rank(#[trigger] candidates@[a]) < rank(
                #[trigger] candidates@[b],
            ),
    ensures
        forall|c: usize| sorted@.contains(c) <==> candidates@.contains(c),
        forall|a: int, b: int|
            0 <= a < b < sorted@.len() ==> place_before(
                catalog@,
                rank,
                #[trigger] sorted@[a],
                #[trigger] sorted@[b],
            ),
{
    let mut sorted: Vec<usize> = Vec::new();
    let mut p: usize = 0;
    while p < candidates.len()
        invariant
            p <= candidates@.len(),
            forall|k: int| 0 <= k < candidates@.len() ==> (#[trigger] candidates@[k]) < catalog@.len(),
            forall|a: int, b: int|
                0 <= a < b < candidates@.len() ==> rank(#[trigger] candidates@[a]) < rank(
                    #[trigger] candidates@[b],
                ),
            forall|c: usize| #[trigger]
                sorted@.contains(c) ==> candidates@.take(p as int).contains(c),
            forall|c: usize| #[trigger]
                candidates@.take(p as int).contains(c) ==> sorted@.contains(c),
            forall|a: int, b: int|
                0 <= a < b < sorted@.len() ==> place_before(
                    catalog@,
                    rank,
                    #[trigger] sorted@[a],
                    #[trigger] sorted@[b],
                ),
        decreases candidates@.len() - p,
    {
        let c: usize = candidates[p];
        let date: i128 = catalog[c].date;
        let ghost before = sorted@;
        let ghost taken = candidates@.take(p as int);
        proof {
            assert forall|k: int| 0 <= k < before.len() implies (#[trigger] before[k])
                < catalog@.len() && rank(before[k]) < rank(c) by {
                assert(before.contains(before[k]));
                let q = choose|q: int| 0 <= q < taken.len() && taken[q] == before[k];
                assert(candidates@[q] == before[k]);
                assert(rank(candidates@[q]) < rank(candidates@[p as int]));
            }
        }
        let mut at: usize = 0;
        while at < sorted.len() && catalog[sorted[at]].date >= date
            invariant
                at <= sorted@.len(),
                sorted@ == before,
                forall|k: int| 0 <= k < before.len() ==> (#[trigger] before[k]) < catalog@.len(),
                forall|k: int| 0 <= k < at ==> catalog@[(#[trigger] before[k]) as int].date >= date,
            decreases sorted@.len() - at,
        {
            at += 1;
        }
        proof {
            assert forall|k: int| at <= k < before.len() implies catalog@[(
            #[trigger] before[k]) as int].date < date by {
                if k > at {
                    assert(place_before(catalog@, rank, before[at as int], before[k]));
                }
            }
        }
        sorted.insert(at, c);
        proof {
            let next = candidates@.take(p as int + 1);
            assert(next =~= taken.push(c));
            assert forall|x: usize| #[trigger] sorted@.contains(x) implies next.contains(x) by {
                let k = choose|k: int| 0 <= k < sorted@.len() && sorted@[k] == x;
                if k == at {
                    assert(next[p as int] == x);
                } else {
                    let k0 = if k < at { k } else { k - 1 };
                    assert(before[k0] == x);
                    assert(before.contains(x));
                    let q = choose|q: int| 0 <= q < taken.len() && taken[q] == x;
                    assert(next[q] == x);
                }
            }
            assert forall|x: usize| #[trigger] next.contains(x) implies sorted@.contains(x) by {
                let q = choose|q: int| 0 <= q < next.len() && next[q] == x;
                if q == p {
                    assert(sorted@[at as int] == x);
                } else {
                    assert(taken[q] == x);
                    assert(taken.contains(x));
                    let k = choose|k: int| 0 <= k < before.len() && before[k] == x;
                    let k1 = if k < at { k } else { k + 1 };
                    assert(sorted@[k1] == x);
                }
            }
            assert forall|a: int, b: int| 0 <= a < b < sorted@.len() implies place_before(
                catalog@,
                rank,
                #[trigger] sorted@[a],
                #[trigger] sorted@[b],
            ) by {
                let a0 = if a < at { a } else { a - 1 };
                let b0 = if b < at { b } else { b - 1 };
                if a != at && b != at {
                    assert(sorted@[a] == before[a0]);
                    assert(sorted@[b] == before[b0]);
                    assert(place_before(catalog@, rank, before[a0], before[b0]));
                } else if a == at {
                    assert(sorted@[b] == before[b0]);
                    assert(catalog@[before[b0] as int].date < date);
                } else {
                    assert(sorted@[a] == before[a0]);
                    assert(catalog@[before[a0] as int].date >= date);
                    assert(rank(before[a0]) < rank(c));
                }
            }
        }
        p += 1;
    }
    proof {
        assert(candidates@.take(p as int) =~= candidates@);
    }
    sorted
}

/// The game versions that every mod of a pack supports, the newest first.
///
/// `catalog` is the registry's list of game versions. `items` holds, for
/// each mod of the pack, the releases that the registry returned for it.
/// A game version is in the result when each mod has a release that declares
/// it. A pack without mods has no such version, and neither has a pack of
/// which one mod has no release. Versions published at the same moment
/// stand in the order in which the first mod's releases declare them.
///
/// A declared game version that the catalog does not list makes the whole
/// resolution fail with `Error::InvalidPlatformVersion`.
pub fn resolve(catalog: &Vec<GameVersion>, items: &Vec<Vec<Version>>) -> (resolved: Result<Vec<GameVersion>, Error>)
    ensures
        match resolved {
            Ok(versions) => all_known(catalog@, items@) && is_resolution(
                catalog@,
                items@,
                versions@,
            ),
            Err(e) => !all_known(catalog@, items@) && e == Error::InvalidPlatformVersion,
        },
        items@.len() == 0 ==> resolved is Ok && resolved->Ok_0@.len() == 0,
        (exists|i: int| 0 <= i < items@.len() && (#[trigger] items@[i])@.len() == 0) && resolved is Ok
            ==> resolved->Ok_0@.len() == 0,
{
    let ghost listed = catalog_names(catalog@);
    let mut per_item: Vec<Vec<usize>> = Vec::new();
    let mut i: usize = 0;
    while i < items.len()
        invariant
            i <= items@.len(),
            per_item@.len() == i,
            forall|j: int| 0 <= j < i ==> known(catalog@, (#[trigger] items@[j])@),
            forall|j: int|
                0 <= j < i ==> is_support(catalog@, declared(items@[j]@), (#[trigger] per_item@[j])@),
        decreases items@.len() - i,
    {
        match item_support(catalog, &items[i]) {
            Ok(support) => {
                per_item.push(support);
            },
            Err(e) => {
                return Err(e);
            },
        }
        i += 1;
    }
    if items.len() == 0 {
        return Ok(Vec::new());
    }
    let ghost first = declared(items@[0]@);
    let ghost rank = |c: usize| first_index(first, listed[c as int]);
    let mut candidates: Vec<usize> = Vec::new();
    let mut k: usize = 0;
    while k < per_item[0].len()
        invariant
            per_item@.len() > 0,
            k <= per_item@[0]@.len(),
            candidates@ == per_item@[0]@.take(k as int),
        decreases per_item@[0]@.len() - k,
    {
        candidates.push(per_item[0][k]);
        proof {
            assert(per_item@[0]@.take(k as int + 1) =~= per_item@[0]@.take(k as int).push(
                per_item@[0]@[k as int],
            ));
        }
        k += 1;
    }
    proof {
        assert(candidates@ =~= per_item@[0]@);
    }
    let mut m: usize = 1;
    while m < items.len()
        invariant
            1 <= m <= items@.len(),
            per_item@.len() == items@.len(),
            forall|c: usize| #[trigger]
                candidates@.contains(c) <==> forall|j: int|
                    0 <= j < m ==> (#[trigger] per_item@[j])@.contains(c),
            forall|a: int, b: int|
                0 <= a < b < candidates@.len() ==> rank(#[trigger] candidates@[a]) < rank(
                    #[trigger] candidates@[b],
                ),
        decreases items@.len() - m,
    {
        let ghost before = candidates@;
        candidates = keep_common(&candidates, &per_item[m], Ghost(rank));
        proof {
            assert forall|c: usize| #[trigger] candidates@.contains(c) <==> forall|j: int|
                0 <= j < m + 1 ==> (#[trigger] per_item@[j])@.contains(c) by {
                assert(before.contains(c) <==> forall|j: int|
                    0 <= j < m ==> (#[trigger] per_item@[j])@.contains(c));
            }
        }
        m += 1;
    }
    proof {
        assert forall|k: int| 0 <= k < candidates@.len() implies (#[trigger] candidates@[k])
            < catalog@.len() by {
            assert(candidates@.contains(candidates@[k]));
            assert(per_item@[0]@.contains(candidates@[k]));
        }
    }
    let sorted = newest_first(catalog, &candidates, Ghost(rank));
    let mut result: Vec<GameVersion> = Vec::new();
    let mut n: usize = 0;
    proof {
        assert forall|k: int| 0 <= k < sorted@.len() implies candidates@.contains(
            #[trigger] sorted@[k],
        ) by {
            assert(sorted@.contains(sorted@[k]));
        }
    }
    while n < sorted.len()
        invariant
            n <= sorted@.len(),
            result@.len() == n,
            forall|k: int| 0 <= k < sorted@.len() ==> candidates@.contains(#[trigger] sorted@[k]),
            forall|c: usize| #[trigger] candidates@.contains(c) ==> c < catalog@.len(),
            forall|k: int| 0 <= k < n ==> #[trigger] result@[k] == catalog@[sorted@[k] as int],
        decreases sorted@.len() - n,
    {
        let place: usize = sorted[n];
        result.push(catalog[place].clone());
        n += 1;
    }
    proof {
        let out = result@;
        assert forall|k: int| 0 <= k < out.len() implies is_catalog_entry(
            catalog@,
            #[trigger] out[k],
        ) && compatible(items@, out[k].version@) by {
            let c = sorted@[k];
            assert(candidates@.contains(c));
            assert forall|j: int| 0 <= j < items@.len() implies supports(
                (#[trigger] items@[j])@,
                out[k].version@,
            ) by {
                assert(per_item@[j]@.contains(c));
                let q = choose|q: int| 0 <= q < per_item@[j]@.len() && per_item@[j]@[q] == c;
                assert(is_first(listed, per_item@[j]@[q] as int, listed[per_item@[j]@[q] as int]));
            }
            assert(supports(items@[0]@, out[k].version@));
            let q = choose|q: int| 0 <= q < per_item@[0]@.len() && per_item@[0]@[q] == c;
            assert(is_first(listed, per_item@[0]@[q] as int, listed[per_item@[0]@[q] as int]));
            assert(catalog@[c as int] == out[k]);
        }
        assert forall|version: Seq<char>| #[trigger] compatible(items@, version) implies has_version(
            out,
            version,
        ) by {
            assert(supports(items@[0]@, version));
            lemma_named(catalog@, first, per_item@[0]@, version);
            let c = first_index(listed, version) as usize;
            assert forall|j: int| 0 <= j < items@.len() implies (#[trigger] per_item@[j])@.contains(
                c,
            ) by {
                assert(supports(items@[j]@, version));
                lemma_named(catalog@, declared(items@[j]@), per_item@[j]@, version);
            }
            assert(candidates@.contains(c));
            assert(sorted@.contains(c));
            let k = choose|k: int| 0 <= k < sorted@.len() && sorted@[k] == c;
            assert(out[k].version@ == listed[c as int]);
        }
        assert forall|a: int, b: int| 0 <= a < b < out.len() implies comes_before(
            items@,
            #[trigger] out[a],
            #[trigger] out[b],
        ) by {
            assert(place_before(catalog@, rank, sorted@[a], sorted@[b]));
        }
        if exists|i: int| 0 <= i < items@.len() && (#[trigger] items@[i])@.len() == 0 {
            let e = choose|i: int| 0 <= i < items@.len() && (#[trigger] items@[i])@.len() == 0;
            if out.len() > 0 {
                assert(compatible(items@, out[0].version@));
                assert(supports(items@[e]@, out[0].version@));
            }
        }
    }
    Ok(result)
}

proof fn lemma_named(catalog: Seq<GameVersion>, seen: Seq<Seq<char>>, support: Seq<usize>, version: Seq<char>)
    requires
        is_support(catalog, seen, support),
        seen.contains(version),
    ensures
        catalog_names(catalog).contains(version),
        0 <= first_index(catalog_names(catalog), version) < catalog.len(),
        catalog_names(catalog)[first_index(catalog_names(catalog), version)] == version,
        support.contains(first_index(catalog_names(catalog), version) as usize),
{
    let listed = catalog_names(catalog);
    let p = choose|p: int| 0 <= p < seen.len() && seen[p] == version;
    assert(names_version(listed, support, seen[p]));
    let k = choose|k: int| 0 <= k < support.len() && listed[(#[trigger] support[k]) as int] == version;
    assert(is_first(listed, support[k] as int, version));
    lemma_first_unique(listed, support[k] as int, version);
}

/// How many of the mods support `version`.
pub open spec fn tally(items: Seq<Vec<Version>>, version: Seq<char>) -> nat
    decreases items.len(),
{
    if items.len() == 0 {
        0
    } else {
        tally(items.drop_last(), version) + if supports(items.last()@, version) {
            1nat
        } else {
            0nat
        }
    }
}

/// A game version is supported by every mod exactly when its tally is the
/// number of mods; a mod without releases adds to no tally.
pub proof fn full_tally_is_support_by_all(items: Seq<Vec<Version>>, version: Seq<char>)
    ensures
        tally(items, version) <= items.len(),
        tally(items, version) == items.len() <==> forall|i: int|
            0 <= i < items.len() ==> supports((#[trigger] items[i])@, version),
        compatible(items, version) <==> items.len() > 0 && tally(items, version) == items.len(),
    decreases items.len(),
{
    if items.len() > 0 {
        let rest = items.drop_last();
        full_tally_is_support_by_all(rest, version);
        if tally(items, version) == items.len() {
            assert forall|i: int| 0 <= i < items.len() implies supports(
                (#[trigger] items[i])@,
                version,
            ) by {
                if i < rest.len() {
                    assert(rest[i] == items[i]);
                }
            }
        }
        if forall|i: int| 0 <= i < items.len() ==> supports((#[trigger] items[i])@, version) {
            assert forall|i: int| 0 <= i < rest.len() implies supports(
                (#[trigger] rest[i])@,
                version,
            ) by {
                assert(rest[i] == items[i]);
            }
            assert(supports(items[items.len() - 1]@, version));
        }
    }
}

/// Every game version that the releases of the mods declare, mod after
/// mod: the order in which a reader of all releases comes upon them.
pub open spec fn discovered(items: Seq<Vec<Version>>) -> Seq<Seq<char>>
    decreases items.len(),
{
    if items.len() == 0 {
        Seq::empty()
    } else {
        discovered(items.drop_last()) + declared(items.last()@)
    }
}

proof fn lemma_first_mod_leads(items: Seq<Vec<Version>>)
    requires
        items.len() > 0,
    ensures
        declared(items[0]@).is_prefix_of(discovered(items)),
    decreases items.len(),
{
    if items.len() == 1 {
        assert(discovered(items.drop_last()) =~= Seq::empty());
        assert(discovered(items) =~= declared(items[0]@));
    } else {
        lemma_first_mod_leads(items.drop_last());
        assert(items.drop_last()[0] == items[0]);
    }
}

/// The order among versions published at the same moment is the order of
/// discovery: a version that the first mod supports is first come upon, in
/// the releases of all mods, where the first mod first declares it.
pub proof fn first_mod_sets_the_order_of_discovery(items: Seq<Vec<Version>>, version: Seq<char>)
    requires
        items.len() > 0,
        supports(items[0]@, version),
    ensures
        first_index(discovered(items), version) == first_index(declared(items[0]@), version),
{
    let head = declared(items[0]@);
    let all = discovered(items);
    lemma_first_mod_leads(items);
    lemma_first_exists(head, version);
    let i = first_index(head, version);
    assert(all[i] == head[i]);
    assert forall|j: int| 0 <= j < i implies all[j] != version by {
        assert(all[j] == head[j]);
    }
    lemma_first_unique(all, i, version);
}

proof fn lemma_one_order(items: Seq<Vec<Version>>, a: Seq<GameVersion>, b: Seq<GameVersion>)
    requires
        forall|i: int, j: int|
            0 <= i < j < a.len() ==> comes_before(items, #[trigger] a[i], #[trigger] a[j]),
        forall|i: int, j: int|
            0 <= i < j < b.len() ==> comes_before(items, #[trigger] b[i], #[trigger] b[j]),
        forall|k: int| 0 <= k < a.len() ==> b.contains(#[trigger] a[k]),
        forall|k: int| 0 <= k < b.len() ==> a.contains(#[trigger] b[k]),
    ensures
        a =~= b,
    decreases a.len(),
{
    if a.len() == 0 {
        if b.len() > 0 {
            assert(a.contains(b[0]));
        }
    } else if b.len() == 0 {
        assert(b.contains(a[0]));
    } else {
        assert(b.contains(a[0]));
        assert(a.contains(b[0]));
        let j = choose|j: int| 0 <= j < b.len() && b[j] == a[0];
        let i = choose|i: int| 0 <= i < a.len() && a[i] == b[0];
        if j > 0 && i > 0 {
            assert(comes_before(items, b[0], b[j]));
            assert(comes_before(items, a[0], a[i]));
        }
        assert(a[0] == b[0]);
        let ra = a.drop_first();
        let rb = b.drop_first();
        assert forall|x: int, y: int| 0 <= x < y < ra.len() implies comes_before(
            items,
            #[trigger] ra[x],
            #[trigger] ra[y],
        ) by {
            assert(comes_before(items, a[x + 1], a[y + 1]));
        }
        assert forall|x: int, y: int| 0 <= x < y < rb.len() implies comes_before(
            items,
            #[trigger] rb[x],
            #[trigger] rb[y],
        ) by {
            assert(comes_before(items, b[x + 1], b[y + 1]));
        }
        assert forall|k: int| 0 <= k < ra.len() implies rb.contains(#[trigger] ra[k]) by {
            assert(comes_before(items, a[0], a[k + 1]));
            assert(b.contains(a[k + 1]));
            let q = choose|q: int| 0 <= q < b.len() && b[q] == a[k + 1];
            assert(rb[q - 1] == ra[k]);
        }
        assert forall|k: int| 0 <= k < rb.len() implies ra.contains(#[trigger] rb[k]) by {
            assert(comes_before(items, b[0], b[k + 1]));
            assert(a.contains(b[k + 1]));
            let q = choose|q: int| 0 <= q < a.len() && a[q] == b[k + 1];
            assert(ra[q - 1] == rb[k]);
        }
        lemma_one_order(items, ra, rb);
        assert forall|k: int| 0 <= k < a.len() implies a[k] == b[k] by {
            if k > 0 {
                assert(ra[k - 1] == a[k]);
                assert(rb[k - 1] == b[k]);
            }
        }
    }
}

proof fn lemma_same_members(
    catalog: Seq<GameVersion>,
    items: Seq<Vec<Version>>,
    a: Seq<GameVersion>,
    b: Seq<GameVersion>,
)
    requires
        is_resolution(catalog, items, a),
        is_resolution(catalog, items, b),
    ensures
        forall|k: int| 0 <= k < a.len() ==> b.contains(#[trigger] a[k]),
{
    let listed = catalog_names(catalog);
    assert forall|k: int| 0 <= k < a.len() implies b.contains(#[trigger] a[k]) by {
        let v = a[k].version@;
        assert(compatible(items, v));
        assert(has_version(b, v));
        let j = choose|j: int| 0 <= j < b.len() && (#[trigger] b[j]).version@ == v;
        assert(is_catalog_entry(catalog, a[k]));
        assert(is_catalog_entry(catalog, b[j]));
        let ca = choose|c: int| is_first(listed, c, a[k].version@) && #[trigger] catalog[c] == a[k];
        let cb = choose|c: int| is_first(listed, c, b[j].version@) && #[trigger] catalog[c] == b[j];
        lemma_first_unique(listed, ca, v);
        lemma_first_unique(listed, cb, v);
        assert(b[j] == a[k]);
    }
}

/// What `is_resolution` asks of a result leaves no choice: any two results
/// that answer for the same catalog and the same mods are equal, entry for
/// entry.
pub proof fn resolution_is_unique(
    catalog: Seq<GameVersion>,
    items: Seq<Vec<Version>>,
    a: Seq<GameVersion>,
    b: Seq<GameVersion>,
)
    requires
        is_resolution(catalog, items, a),
        is_resolution(catalog, items, b),
    ensures
        a == b,
{
    lemma_same_members(catalog, items, a, b);
    lemma_same_members(catalog, items, b, a);
    lemma_one_order(items, a, b);
}

/// Those of `versions` that stand in the catalog before place `limit`, in
/// their order. The catalog lists the newest game version first, so these
/// are the ones newer than the entry at `limit`.
pub open spec fn newer_than(listed: Seq<Seq<char>>, versions: Seq<GameVersion>, limit: int) -> Seq<GameVersion>
    decreases versions.len(),
{
    if versions.len() == 0 {
        Seq::empty()
    } else {
        let rest = newer_than(listed, versions.drop_last(), limit);
        if first_index(listed, versions.last().version@) < limit {
            rest.push(versions.last())
        } else {
            rest
        }
    }
}

/// Whether the catalog lists each of `versions`.
pub open spec fn all_listed(listed: Seq<Seq<char>>, versions: Seq<GameVersion>) -> bool {
    forall|k: int| 0 <= k < versions.len() ==> listed.contains((#[trigger] versions[k]).version@)
}

/// The game versions a pack can be upgraded to: those of `compatible` that
/// the catalog lists before the pack's `current` game version, in the order
/// of `compatible`.
///
/// Fails with `Error::InvalidPlatformVersion` when the catalog does not list
/// `current`, or does not list one of `compatible`.
pub fn upgrade_candidates(catalog: &Vec<GameVersion>, compatible: &Vec<GameVersion>, current: &String) -> (found: Result<Vec<GameVersion>, Error>)
    ensures
        found is Ok <==> catalog_names(catalog@).contains(current@) && all_listed(
            catalog_names(catalog@),
            compatible@,
        ),
        found matches Ok(newer) ==> newer@ == newer_than(
            catalog_names(catalog@),
            compatible@,
            first_index(catalog_names(catalog@), current@),
        ),
        found matches Err(e) ==> e == Error::InvalidPlatformVersion,
{
    let ghost listed = catalog_names(catalog@);
    let limit: usize = match catalog_position(catalog, current) {
        Some(place) => place,
        None => {
            return Err(Error::InvalidPlatformVersion);
        },
    };
    proof {
        lemma_first_unique(listed, limit as int, current@);
    }
    let mut newer: Vec<GameVersion> = Vec::new();
    let mut k: usize = 0;
    while k < compatible.len()
        invariant
            k <= compatible@.len(),
            listed == catalog_names(catalog@),
            listed.contains(current@),
            limit == first_index(listed, current@),
            all_listed(listed, compatible@.take(k as int)),
            newer@ == newer_than(listed, compatible@.take(k as int), limit as int),
        decreases compatible@.len() - k,
    {
        proof {
            assert(compatible@.take(k as int + 1).drop_last() =~= compatible@.take(k as int));
        }
        match catalog_position(catalog, &compatible[k].version) {
            None => {
                return Err(Error::InvalidPlatformVersion);
            },
            Some(place) => {
                proof {
                    lemma_first_unique(listed, place as int, compatible@[k as int].version@);
                    assert forall|j: int| 0 <= j < k + 1 implies listed.contains(
                        (#[trigger] compatible@.take(k as int + 1)[j]).version@,
                    ) by {
                        if j < k {
                            assert(compatible@.take(k as int)[j] == compatible@[j]);
                        } else {
                            assert(listed[place as int] == compatible@[k as int].version@);
                        }
                    }
                }
                if place < limit {
                    newer.push(compatible[k].clone());
                }
            },
        }
        k += 1;
    }
    proof {
        assert(compatible@.take(k as int) =~= compatible@);
    }
    Ok(newer)
}

/// The version strings of the catalog's entries that are full releases, in
/// the catalog's order.
pub open spec fn release_names(catalog: Seq<GameVersion>) -> Seq<Seq<char>>
    decreases catalog.len(),
{
    if catalog.len() == 0 {
        Seq::empty()
    } else {
        let rest = release_names(catalog.drop_last());
        if catalog.last().version_type == VersionType::Release {
            rest.push(catalog.last().version@)
        } else {
            rest
        }
    }
}

/// The game versions of the catalog that are full releases, in the
/// catalog's order: no snapshot, alpha or beta.
pub fn release_versions(catalog: &Vec<GameVersion>) -> (releases: Vec<String>)
    ensures
        names(releases@) == release_names(catalog@),
{
    let mut releases: Vec<String> = Vec::new();
    let mut k: usize = 0;
    while k < catalog.len()
        invariant
            k <= catalog@.len(),
            names(releases@) == release_names(catalog@.take(k as int)),
        decreases catalog@.len() - k,
    {
        proof {
            assert(catalog@.take(k as int + 1).drop_last() =~= catalog@.take(k as int));
        }
        if catalog[k].version_type == VersionType::Release {
            let ghost before = releases@;
            releases.push(catalog[k].version.clone());
            proof {
                assert(names(releases@) =~= names(before).push(catalog@[k as int].version@));
            }
        }
        k += 1;
    }
    proof {
        assert(catalog@.take(k as int) =~= catalog@);
    }
    releases
}

/// Whether some release of `releases` declares support for `version`.
fn declares(releases: &Vec<Version>, version: &String) -> (yes: bool)
    ensures
        yes == supports(releases@, version@),
{
    let mut r: usize = 0;
    while r < releases.len()
        invariant
            r <= releases@.len(),
            !declared(releases@.take(r as int)).contains(version@),
        decreases releases@.len() - r,
    {
        let versions = &releases[r].game_versions;
        let ghost before = declared(releases@.take(r as int));
        proof {
            lemma_declared_step(releases@, r as int);
        }
        let mut g: usize = 0;
        while g < versions.len()
            invariant
                r < releases@.len(),
                versions == &releases@[r as int].game_versions,
                g <= versions@.len(),
                before == declared(releases@.take(r as int)),
                declared(releases@.take(r as int + 1)) == before + names(versions@),
                forall|h: int| 0 <= h < g ==> versions@[h]@ != version@,
            decreases versions@.len() - g,
        {
            if versions[g] == *version {
                proof {
                    lemma_declared_take(releases@, r as int + 1);
                    let p = before.len() + g;
                    assert(declared(releases@.take(r as int + 1))[p] == version@);
                    assert(declared(releases@)[p] == version@);
                }
                return true;
            }
            g += 1;
        }
        proof {
            let next = declared(releases@.take(r as int + 1));
            if next.contains(version@) {
                let p = choose|p: int| 0 <= p < next.len() && next[p] == version@;
                if p < before.len() {
                    assert(before[p] == version@);
                } else {
                    assert(names(versions@)[p - before.len()] == version@);
                }
            }
        }
        r += 1;
    }
    proof {
        assert(releases@.take(r as int) =~= releases@);
    }
    false
}

/// Whether `k` is the place of the first of `game_versions` that the
/// releases support.
pub open spec fn is_newest_supported(game_versions: Seq<String>, releases: Seq<Version>, k: int) -> bool {
    &&& 0 <= k < game_versions.len()
    &&& supports(releases, game_versions[k]@)
    &&& forall|j: int| 0 <= j < k ==> !supports(releases, (#[trigger] game_versions[j])@)
}

/// The newest game version that a mod supports.
///
/// `game_versions` lists the game versions to consider, the newest first,
/// and `releases` are the mod's releases. The result is the first of
/// `game_versions` that some release declares, and `None` when no release
/// declares any of them.
pub fn latest_supported(game_versions: &Vec<String>, releases: &Vec<Version>) -> (latest: Option<String>)
    ensures
        match latest {
            Some(version) => exists|k: int|
                is_newest_supported(game_versions@, releases@, k) && version@
                    == (#[trigger] game_versions@[k])@,
            None => forall|k: int|
                0 <= k < game_versions@.len() ==> !supports(
                    releases@,
                    (#[trigger] game_versions@[k])@,
                ),
        },
{
    let mut k: usize = 0;
    while k < game_versions.len()
        invariant
            k <= game_versions@.len(),
            forall|j: int| 0 <= j < k ==> !supports(releases@, (#[trigger] game_versions@[j])@),
        decreases game_versions@.len() - k,
    {
        if declares(releases, &game_versions[k]) {
            let version = game_versions[k].clone();
            proof {
                assert(is_newest_supported(game_versions@, releases@, k as int));
                assert(version@ == game_versions@[k as int]@);
            }
            return Some(version);
        }
        k += 1;
    }
    None
}

} // verus!
