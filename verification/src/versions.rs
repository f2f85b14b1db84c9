//! The versions of a package, in their order.
use vstd::prelude::*;

use crate::text::texts;
use crate::winget::{compare_versions, version_order, VersionOrder};

verus! {

/// Whether each version of a list comes before the next, so that none occurs twice as versions are
/// compared.
pub open spec fn ascends(versions: Seq<Seq<char>>) -> bool {
    forall|i: int, j: int|
        0 <= i < j < versions.len() && j == i + 1 ==> version_order(
            #[trigger] versions[i],
            #[trigger] versions[j],
        ) == VersionOrder::Before
}

/// The number of leading versions of a list that a version comes after.
pub open spec fn version_rank(versions: Seq<Seq<char>>, version: Seq<char>) -> nat
    decreases versions.len(),
{
    if versions.len() > 0 && version_order(version, versions[0]) == VersionOrder::After {
        1 + version_rank(versions.drop_first(), version)
    } else {
        0
    }
}

/// A list with one more version at its place, unless the version that stands there is the same.
pub open spec fn with_version(versions: Seq<Seq<char>>, version: Seq<char>) -> Seq<Seq<char>> {
    let at = version_rank(versions, version) as int;
    if at < versions.len() && version_order(version, versions[at]) == VersionOrder::Same {
        versions
    } else {
        versions.insert(at, version)
    }
}

/// The versions of a list from the lowest to the highest. Of versions that are the same, the one that
/// comes first is kept.
pub open spec fn version_set(versions: Seq<Seq<char>>) -> Seq<Seq<char>>
    decreases versions.len(),
{
    if versions.len() == 0 {
        Seq::empty()
    } else {
        with_version(version_set(versions.drop_last()), versions.last())
    }
}

/// The highest version of a list.
pub open spec fn highest(versions: Seq<Seq<char>>) -> Option<Seq<char>> {
    let set = version_set(versions);
    if set.len() == 0 {
        None
    } else {
        Some(set.last())
    }
}

/// Whether a version is in a list, as versions are compared.
pub open spec fn lists(versions: Seq<Seq<char>>, version: Seq<char>) -> bool {
    exists|i: int|
        0 <= i < versions.len() && version_order(version, #[trigger] versions[i])
            == VersionOrder::Same
}

/// The versions before the place of a version are those that it comes after.
pub proof fn lemma_version_rank(versions: Seq<Seq<char>>, version: Seq<char>)
    ensures
        version_rank(versions, version) <= versions.len(),
        forall|i: int|
            0 <= i < version_rank(versions, version) ==> version_order(
                version,
                #[trigger] versions[i],
            ) == VersionOrder::After,
        version_rank(versions, version) < versions.len() ==> version_order(
            version,
            versions[version_rank(versions, version) as int],
        ) != VersionOrder::After,
    decreases versions.len(),
{
    if versions.len() > 0 && version_order(version, versions[0]) == VersionOrder::After {
        let rest = versions.drop_first();
        lemma_version_rank(rest, version);
        assert forall|i: int| 0 <= i < version_rank(versions, version) implies version_order(
            version,
            #[trigger] versions[i],
        ) == VersionOrder::After by {
            if i > 0 {
                assert(versions[i] == rest[i - 1]);
            }
        }
    }
}

proof fn lemma_rank_at(versions: Seq<Seq<char>>, version: Seq<char>, at: int)
    requires
        0 <= at <= versions.len(),
        forall|i: int|
            0 <= i < at ==> version_order(version, #[trigger] versions[i]) == VersionOrder::After,
        at < versions.len() ==> version_order(version, versions[at]) != VersionOrder::After,
    ensures
        version_rank(versions, version) == at,
    decreases at,
{
    if at > 0 {
        let rest = versions.drop_first();
        assert(version_order(version, versions[0]) == VersionOrder::After);
        assert forall|i: int| 0 <= i < at - 1 implies version_order(version, #[trigger] rest[i])
            == VersionOrder::After by {
            assert(rest[i] == versions[i + 1]);
        }
        lemma_rank_at(rest, version, at - 1);
    }
}

fn add_version(versions: &mut Vec<String>, version: String)
    requires
        ascends(texts(old(versions)@)),
    ensures
        texts(final(versions)@) == with_version(texts(old(versions)@), version@),
        ascends(texts(final(versions)@)),
{
    let ghost all = texts(versions@);
    let mut at: usize = 0;
    while at < versions.len()
        invariant
            at <= versions.len(),
            versions@ == old(versions)@,
            all == texts(versions@),
            ascends(all),
            forall|i: int|
                0 <= i < at ==> version_order(version@, #[trigger] all[i]) == VersionOrder::After
                    && version_order(all[i], version@) == VersionOrder::Before,
        ensures
            at <= versions.len(),
            versions@ == old(versions)@,
            forall|i: int|
                0 <= i < at ==> version_order(version@, #[trigger] all[i]) == VersionOrder::After
                    && version_order(all[i], version@) == VersionOrder::Before,
            at < versions.len() ==> version_order(version@, all[at as int]) == VersionOrder::Before,
        decreases versions.len() - at,
    {
        assert(all[at as int] == versions@[at as int]@);
        match compare_versions(version.as_str(), versions[at].as_str()) {
            VersionOrder::Before => {
                break;
            },
            VersionOrder::Same => {
                proof {
                    lemma_rank_at(all, version@, at as int);
                }
                return;
            },
            VersionOrder::After => {},
        }
        at += 1;
    }
    proof {
        lemma_rank_at(all, version@, at as int);
    }
    let ghost new = all.insert(at as int, version@);
    versions.insert(at, version);
    proof {
        assert(texts(versions@) =~= new);
        assert forall|i: int, j: int| 0 <= i < j < new.len() && j == i + 1 implies version_order(
            #[trigger] new[i],
            #[trigger] new[j],
        ) == VersionOrder::Before by {
            if j < at {
                assert(new[i] == all[i] && new[j] == all[j]);
            } else if j == at {
                assert(new[i] == all[i]);
            } else if i == at {
                assert(new[j] == all[i]);
            } else {
                assert(new[i] == all[i - 1] && new[j] == all[i]);
            }
        }
    }
}

/// The versions of a list from the lowest to the highest, each once as versions are compared.
pub fn ordered_versions(versions: &Vec<String>) -> (r: Vec<String>)
    ensures
        texts(r@) == version_set(texts(versions@)),
        ascends(texts(r@)),
{
    let ghost all = texts(versions@);
    let mut out: Vec<String> = Vec::new();
    let mut i: usize = 0;
    assert(texts(out@) =~= version_set(all.take(0)));
    while i < versions.len()
        invariant
            i <= versions.len(),
            all == texts(versions@),
            texts(out@) == version_set(all.take(i as int)),
            ascends(texts(out@)),
        decreases versions.len() - i,
    {
        assert(all.take(i + 1).drop_last() =~= all.take(i as int));
        assert(all.take(i + 1).last() == versions@[i as int]@);
        add_version(&mut out, versions[i].clone());
        i += 1;
    }
    assert(all.take(all.len() as int) =~= all);
    out
}

/// Whether a version is in a list, as versions are compared.
pub fn is_listed(versions: &Vec<String>, version: &str) -> (r: bool)
    ensures
        r == lists(texts(versions@), version@),
{
    let ghost all = texts(versions@);
    let mut i: usize = 0;
    while i < versions.len()
        invariant
            i <= versions.len(),
            all == texts(versions@),
            forall|k: int|
                0 <= k < i ==> version_order(version@, #[trigger] all[k]) != VersionOrder::Same,
        decreases versions.len() - i,
    {
        assert(all[i as int] == versions@[i as int]@);
        match compare_versions(version, versions[i].as_str()) {
            VersionOrder::Same => {
                return true;
            },
            _ => {},
        }
        i += 1;
    }
    false
}

/// Putting the versions of a list in order invents none and loses none: each that is kept is one of the
/// list, and each of the list is kept or is the same as one that is. There is a highest version exactly
/// where there is a version.
pub proof fn law_version_set(versions: Seq<Seq<char>>)
    ensures
        forall|k: int|
            0 <= k < version_set(versions).len() ==> versions.contains(
                #[trigger] version_set(versions)[k],
            ),
        forall|i: int|
            0 <= i < versions.len() ==> version_set(versions).contains(#[trigger] versions[i])
                || lists(version_set(versions), versions[i]),
        highest(versions) is Some <==> versions.len() > 0,
        highest(versions) matches Some(version) ==> versions.contains(version),
    decreases versions.len(),
{
    if versions.len() > 0 {
        let rest = versions.drop_last();
        let last = versions.last();
        law_version_set(rest);
        let before = version_set(rest);
        let set = version_set(versions);
        lemma_version_rank(before, last);
        let at = version_rank(before, last) as int;
        assert(versions[versions.len() - 1] == last);
        assert forall|k: int| 0 <= k < set.len() implies versions.contains(#[trigger] set[k]) by {
            if set == before {
                lemma_kept(rest, last, before[k]);
            } else if k < at {
                assert(set[k] == before[k]);
                lemma_kept(rest, last, before[k]);
            } else if k > at {
                assert(set[k] == before[k - 1]);
                lemma_kept(rest, last, before[k - 1]);
            }
        }
        assert forall|k: int| 0 <= k < before.len() implies set.contains(#[trigger] before[k]) by {
            if set == before || k < at {
                assert(set[k] == before[k]);
            } else {
                assert(set[k + 1] == before[k]);
            }
        }
        assert(set != before ==> set[at] == last);
        assert forall|i: int| 0 <= i < versions.len() implies set.contains(#[trigger] versions[i])
            || lists(set, versions[i]) by {
            if i < rest.len() {
                assert(rest[i] == versions[i]);
                if before.contains(rest[i]) {
                    let k = choose|k: int| 0 <= k < before.len() && before[k] == rest[i];
                    assert(set.contains(before[k]));
                } else {
                    let k = choose|k: int|
                        0 <= k < before.len() && version_order(rest[i], #[trigger] before[k])
                            == VersionOrder::Same;
                    assert(set.contains(before[k]));
                    let j = choose|j: int| 0 <= j < set.len() && set[j] == before[k];
                    assert(version_order(versions[i], set[j]) == VersionOrder::Same);
                }
            } else if set == before {
                assert(version_order(versions[i], set[at]) == VersionOrder::Same);
            }
        }
    }
}

proof fn lemma_kept(rest: Seq<Seq<char>>, last: Seq<char>, version: Seq<char>)
    requires
        rest.contains(version),
    ensures
        rest.push(last).contains(version),
{
    let i = choose|i: int| 0 <= i < rest.len() && rest[i] == version;
    assert(rest.push(last)[i] == version);
}

} // verus!
