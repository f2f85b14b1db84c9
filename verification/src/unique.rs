//! The analyses that a list of sources needs, each once.
use indexmap::IndexMap;
use vstd::prelude::*;

use crate::artifact::{
    analysis_for, for_architecture, law_source_analyses, source_analyses, ArtifactView,
};
use crate::source::{parsed_views, AnalysisKey, KeyView, ParsedSource, ParsedView};
use crate::text::texts;

verus! {

/// The map of `indexmap` that keeps its entries in the order in which their keys came.
#[verifier::external_type_specification]
#[verifier::external_body]
#[verifier::reject_recursive_types(K)]
#[verifier::reject_recursive_types(V)]
#[verifier::reject_recursive_types(S)]
pub struct ExIndexMap<K, V, S>(IndexMap<K, V, S>);

/// The entries of a map, in their order.
pub uninterp spec fn map_entries(
    map: IndexMap<(String, Vec<String>), usize, std::hash::RandomState>,
) -> Seq<(KeyView, usize)>;

/// What a key of the map says.
pub open spec fn pair_key(key: (String, Vec<String>)) -> KeyView {
    KeyView { url: key.0@, nested_installer_matches: texts(key.1@) }
}

/// The first place of a key, or the number of entries where there is none.
pub open spec fn key_place(entries: Seq<(KeyView, usize)>, key: KeyView) -> int
    decreases entries.len(),
{
    if entries.len() == 0 {
        0
    } else if entries[0].0 == key {
        0
    } else {
        1 + key_place(entries.drop_first(), key)
    }
}

/// The entries with one more; where its key is there already, it takes that place.
pub open spec fn with_entry(entries: Seq<(KeyView, usize)>, key: KeyView, value: usize) -> Seq<
    (KeyView, usize),
> {
    let place = key_place(entries, key);
    if place < entries.len() {
        entries.update(place, (key, value))
    } else {
        entries.push((key, value))
    }
}

/// `indexmap::IndexMap::new` gives a map without entries.
#[verifier::external_body]
fn new_map() -> (r: IndexMap<(String, Vec<String>), usize, std::hash::RandomState>)
    ensures
        map_entries(r) == Seq::<(KeyView, usize)>::empty(),
{
    IndexMap::new()
}

/// `indexmap::IndexMap::insert` puts an entry last, or, where its key is there already, in the place
/// of the entry with that key.
#[verifier::external_body]
fn insert(
    map: &mut IndexMap<(String, Vec<String>), usize, std::hash::RandomState>,
    key: (String, Vec<String>),
    value: usize,
)
    ensures
        map_entries(*final(map)) == with_entry(map_entries(*old(map)), pair_key(key), value),
{
    map.insert(key, value);
}

/// `indexmap::IndexMap` walked from its first entry to its last, each key taken by its two parts.
#[verifier::external_body]
fn into_entries(map: IndexMap<(String, Vec<String>), usize, std::hash::RandomState>) -> (r: Vec<
    (AnalysisKey, usize),
>)
    ensures
        r@.map_values(|entry: (AnalysisKey, usize)| (entry.0@, entry.1)) == map_entries(map),
{
    map.into_iter()
        .map(|((url, nested_installer_matches), value)| {
            (AnalysisKey { url, nested_installer_matches }, value)
        })
        .collect()
}

/// The analyses that sources need, each with the last source that needs it, in the order in which
/// they are first needed.
pub open spec fn needed(sources: Seq<ParsedView>) -> Seq<(KeyView, usize)>
    decreases sources.len(),
{
    if sources.len() == 0 {
        Seq::empty()
    } else {
        with_entry(
            needed(sources.drop_last()),
            sources.last().key(),
            (sources.len() - 1) as usize,
        )
    }
}

/// The analyses that sources need, each with the place of the last source that needs it.
pub fn unique_sources(sources: &Vec<ParsedSource>) -> (r: Vec<(AnalysisKey, usize)>)
    ensures
        r@.map_values(|entry: (AnalysisKey, usize)| (entry.0@, entry.1)) == needed(
            parsed_views(sources@),
        ),
{
    let ghost views = parsed_views(sources@);
    let mut map = new_map();
    let mut i: usize = 0;
    assert(views.take(0) =~= Seq::empty());
    while i < sources.len()
        invariant
            i <= sources.len(),
            views == parsed_views(sources@),
            map_entries(map) == needed(views.take(i as int)),
        decreases sources.len() - i,
    {
        let ghost next = views.take(i + 1);
        assert(next.drop_last() =~= views.take(i as int));
        assert(next.last() == sources@[i as int]@);
        let key = sources[i].key();
        insert(&mut map, (key.url, key.nested_installer_matches), i);
        i += 1;
    }
    assert(views.take(i as int) =~= views);
    into_entries(map)
}

proof fn lemma_key_place(entries: Seq<(KeyView, usize)>, key: KeyView)
    ensures
        0 <= key_place(entries, key) <= entries.len(),
        key_place(entries, key) < entries.len() ==> entries[key_place(entries, key)].0 == key,
        forall|i: int| 0 <= i < key_place(entries, key) ==> (#[trigger] entries[i]).0 != key,
    decreases entries.len(),
{
    if entries.len() > 0 && entries[0].0 != key {
        let rest = entries.drop_first();
        lemma_key_place(rest, key);
        assert forall|i: int| 0 <= i < key_place(entries, key) implies (#[trigger] entries[i]).0
            != key by {
            if i > 0 {
                assert(entries[i] == rest[i - 1]);
            }
        }
    }
}

/// Every source has its analysis among those that are needed, none is needed twice, and each is
/// needed by the source that it is listed with.
pub proof fn law_needed(sources: Seq<ParsedView>)
    requires
        sources.len() <= usize::MAX,
    ensures
        forall|i: int|
            0 <= i < sources.len() ==> exists|k: int|
                0 <= k < needed(sources).len() && (#[trigger] needed(sources)[k]).0 == (
                #[trigger] sources[i]).key(),
        forall|a: int, b: int|
            0 <= a < b < needed(sources).len() ==> (#[trigger] needed(sources)[a]).0 != (
            #[trigger] needed(sources)[b]).0,
        forall|k: int|
            0 <= k < needed(sources).len() ==> (#[trigger] needed(sources)[k]).1 < sources.len()
                && needed(sources)[k].0 == sources[needed(sources)[k].1 as int].key(),
    decreases sources.len(),
{
    if sources.len() > 0 {
        let before = sources.drop_last();
        law_needed(before);
        let old_needed = needed(before);
        let all = needed(sources);
        let key = sources.last().key();
        let place = key_place(old_needed, key);
        lemma_key_place(old_needed, key);
        assert forall|i: int| 0 <= i < sources.len() implies exists|k: int|
            0 <= k < all.len() && (#[trigger] all[k]).0 == (#[trigger] sources[i]).key() by {
            if i < before.len() {
                assert(before[i] == sources[i]);
                let k = choose|k: int|
                    0 <= k < old_needed.len() && (#[trigger] old_needed[k]).0 == before[i].key();
                assert(all[k].0 == sources[i].key());
            } else {
                assert(all[place].0 == key);
            }
        }
        assert forall|a: int, b: int| 0 <= a < b < all.len() implies (#[trigger] all[a]).0 != (
        #[trigger] all[b]).0 by {
            if place == old_needed.len() && b == place {
                assert(old_needed[a].0 != key);
            } else {
                assert(old_needed[a].0 == all[a].0);
                assert(old_needed[b].0 == all[b].0);
            }
        }
        assert forall|k: int| 0 <= k < all.len() implies (#[trigger] all[k]).1 < sources.len()
            && all[k].0 == sources[all[k].1 as int].key() by {
            if k != place {
                assert(all[k] == old_needed[k]);
            }
        }
    }
}

/// Where each analysis that is needed was made, every source gets one: the analysis of its URL and its
/// matches, for the architecture that was asked for.
pub proof fn law_every_source_served(
    sources: Seq<ParsedView>,
    analyzed: Seq<(KeyView, ArtifactView)>,
)
    requires
        sources.len() <= usize::MAX,
        forall|k: int|
            0 <= k < needed(sources).len() ==> analysis_for(
                analyzed,
                (#[trigger] needed(sources)[k]).0,
            ) is Some,
    ensures
        source_analyses(sources, analyzed) matches Ok(analyses) && analyses.len() == sources.len()
            && forall|i: int|
            0 <= i < sources.len() ==> (#[trigger] analyses[i]) == for_architecture(
                analysis_for(analyzed, sources[i].key()).unwrap(),
                sources[i].architecture,
            ),
{
    law_needed(sources);
    assert forall|i: int| 0 <= i < sources.len() implies analysis_for(
        analyzed,
        (#[trigger] sources[i]).key(),
    ) is Some by {
        let k = choose|k: int|
            0 <= k < needed(sources).len() && (#[trigger] needed(sources)[k]).0 == sources[i].key();
        assert(needed(sources)[k].0 == sources[i].key());
    }
    law_source_analyses(sources, analyzed);
}

} // verus!
