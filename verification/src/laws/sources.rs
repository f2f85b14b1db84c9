//! Sources: what becomes of the installers that are asked for.
use vstd::prelude::*;

use crate::error::ErrorSays;
use crate::source::{
    escaped_url, installer_url, named_architecture, parsed_each, parsed_source, parsed_sources, KeyView,
    ParsedView,
};
use crate::text::{quoted_text, texts, trimmed};
use crate::types::InstallerSource;
use crate::unique::{key_place, needed};
use crate::winget::{decoded_url, plain_url};

verus! {

/// Of a URL, each pipe is escaped, and every other character stays as it is, in order.
pub proof fn law_pipes(c: char, rest: Seq<char>)
    ensures
        escaped_url(Seq::empty()) == Seq::<char>::empty(),
        c == '|' ==> escaped_url(seq![c] + rest) == seq!['%', '7', 'C'] + escaped_url(rest),
        c != '|' ==> escaped_url(seq![c] + rest) == seq![c] + escaped_url(rest),
{
    reveal_strlit("|");
    reveal_strlit("%7C");
    assert("%7C"@ =~= seq!['%', '7', 'C']);
    let all = seq![c] + rest;
    assert(all[0] == c);
    assert(all.drop_first() =~= rest);
    assert(all.skip(1) =~= rest);
    if c == '|' {
        assert("|"@ =~= all.subrange(0, 1));
    } else if "|"@.is_prefix_of(all) {
        assert(all.subrange(0, 1)[0] == c);
        assert("|"@[0] == '|');
    }
}

/// A URL is taken without the white space around it and with its pipes escaped, as it stands and decoded, with
/// its host and without an architecture. One that is blank, and one that cannot be parsed, is the fault of the
/// caller, and the reason is told.
pub proof fn law_installer_url(input: Seq<char>)
    ensures
        ({
            let url = trimmed(input);
            let escaped = escaped_url(url);
            match installer_url(input) {
                Ok(view) => {
                    &&& url.len() > 0
                    &&& decoded_url(escaped) == Ok::<_, Seq<char>>((view.decoded, view.host))
                    &&& plain_url(escaped) == Ok::<_, Seq<char>>(view.original)
                    &&& view.architecture is None
                },
                Err(error) => match (decoded_url(escaped), plain_url(escaped)) {
                    (Err(fault), _) => error == if url.len() == 0 {
                        ErrorSays::Invalid("Installer URLs must not be empty"@)
                    } else {
                        ErrorSays::Invalid("Invalid installer URL "@ + quoted_text(url) + ": "@ + fault)
                    },
                    (Ok(_), Err(fault)) => error == if url.len() == 0 {
                        ErrorSays::Invalid("Installer URLs must not be empty"@)
                    } else {
                        ErrorSays::Invalid("Invalid installer URL "@ + quoted_text(url) + ": "@ + fault)
                    },
                    (Ok(_), Ok(_)) => url.len() == 0 && error == ErrorSays::Invalid(
                        "Installer URLs must not be empty"@,
                    ),
                },
            }
        }),
{
}

/// A source has the URL that its text is, the architecture that its name stands for, and its matches as they are;
/// without an architecture or matches it has none. What is wrong with its URL comes before what is wrong with
/// its architecture.
pub proof fn law_parsed_source(source: InstallerSource)
    ensures
        match (installer_url(source.url@), parsed_source(source)) {
            (Err(fault), r) => r == Err::<ParsedView, _>(fault),
            (Ok(url), Ok(parsed)) => {
                &&& parsed.url == url
                &&& match source.architecture {
                    None => parsed.architecture is None,
                    Some(name) => parsed.architecture is Some && parsed.architecture
                        == named_architecture(name@),
                }
                &&& match source.nested_installer_matches {
                    None => parsed.nested_installer_matches == Seq::<Seq<char>>::empty(),
                    Some(matches) => parsed.nested_installer_matches == texts(matches@),
                }
            },
            (Ok(_), Err(error)) => (source.architecture matches Some(name) && named_architecture(
                name@,
            ) is None && error == ErrorSays::Invalid(
                "Invalid installer architecture "@ + quoted_text(name@),
            )),
        },
{
}

/// A source needs the analysis of its URL as it was given, for its matches; its architecture does not matter.
pub proof fn law_key(source: ParsedView)
    ensures
        source.key().url == source.url.original,
        source.key().nested_installer_matches == source.nested_installer_matches,
{
}

/// There has to be a source. The first that is not valid is the one whose fault is told.
pub proof fn law_first_fault(sources: Seq<InstallerSource>)
    ensures
        sources.len() == 0 ==> parsed_sources(sources) == Err::<Seq<ParsedView>, _>(
            ErrorSays::Invalid("At least one installer is required"@),
        ),
        sources.len() > 0 ==> match parsed_sources(sources) {
            Ok(parsed) => parsed.len() == sources.len() && forall|i: int|
                0 <= i < sources.len() ==> parsed_source(#[trigger] sources[i]) == Ok::<_, ErrorSays>(
                    parsed[i],
                ),
            Err(error) => exists|i: int|
                0 <= i < sources.len() && parsed_source(#[trigger] sources[i]) == Err::<ParsedView, _>(
                    error,
                ) && forall|k: int| 0 <= k < i ==> parsed_source(#[trigger] sources[k]) is Ok,
        },
{
    lemma_first_fault(sources);
}

proof fn lemma_first_fault(sources: Seq<InstallerSource>)
    ensures
        match parsed_each(sources) {
            Ok(parsed) => parsed.len() == sources.len() && forall|i: int|
                0 <= i < sources.len() ==> parsed_source(#[trigger] sources[i]) == Ok::<_, ErrorSays>(
                    parsed[i],
                ),
            Err(error) => exists|i: int|
                0 <= i < sources.len() && parsed_source(#[trigger] sources[i]) == Err::<ParsedView, _>(
                    error,
                ) && forall|k: int| 0 <= k < i ==> parsed_source(#[trigger] sources[k]) is Ok,
        },
    decreases sources.len(),
{
    if sources.len() > 0 {
        let before = sources.drop_last();
        let last = sources.len() - 1;
        lemma_first_fault(before);
        assert forall|k: int| 0 <= k < before.len() implies before[k] == #[trigger] sources[k] by {}
        match parsed_each(before) {
            Err(error) => {
                let i = choose|i: int|
                    0 <= i < before.len() && parsed_source(#[trigger] before[i]) == Err::<ParsedView, _>(
                        error,
                    ) && forall|k: int| 0 <= k < i ==> parsed_source(#[trigger] before[k]) is Ok;
                assert(sources[i] == before[i]);
                assert forall|k: int| 0 <= k < i implies parsed_source(#[trigger] sources[k]) is Ok by {
                    assert(sources[k] == before[k]);
                }
            },
            Ok(parsed) => {
                assert forall|k: int| 0 <= k < last implies parsed_source(#[trigger] sources[k]) == Ok::<
                    _,
                    ErrorSays,
                >(parsed[k]) by {
                    assert(sources[k] == before[k]);
                }
                assert(sources[last] == sources.last());
            },
        }
    }
}

proof fn lemma_key_place(entries: Seq<(KeyView, usize)>, key: KeyView)
    ensures
        ({
            let place = key_place(entries, key);
            &&& 0 <= place <= entries.len()
            &&& place < entries.len() ==> entries[place].0 == key
            &&& forall|k: int| 0 <= k < place ==> (#[trigger] entries[k]).0 != key
        }),
    decreases entries.len(),
{
    if entries.len() > 0 && entries[0].0 != key {
        let rest = entries.drop_first();
        lemma_key_place(rest, key);
        assert forall|k: int| 0 <= k < key_place(entries, key) implies (#[trigger] entries[k]).0
            != key by {
            if k > 0 {
                assert(entries[k] == rest[k - 1]);
            }
        }
    }
}

/// Whether one analysis is needed before another.
pub open spec fn needed_before(sources: Seq<ParsedView>, one: KeyView, other: KeyView) -> bool {
    exists|i: int|
        0 <= i < sources.len() && (#[trigger] sources[i]).key() == one && forall|j: int|
            0 <= j <= i ==> (#[trigger] sources[j]).key() != other
}

/// The analyses that are needed come in the order in which sources first need them, and each is listed with the
/// last source that needs it.
pub proof fn law_needed_in_order(sources: Seq<ParsedView>)
    requires
        sources.len() <= usize::MAX,
    ensures
        forall|k: int|
            0 <= k < needed(sources).len() ==> is_last_need(sources, #[trigger] needed(sources)[k]),
        forall|a: int, b: int|
            0 <= a < b < needed(sources).len() ==> needed_before(
                sources,
                (#[trigger] needed(sources)[a]).0,
                (#[trigger] needed(sources)[b]).0,
            ),
{
    lemma_last_needs(sources);
    lemma_needs_in_order(sources);
}

proof fn lemma_differ(sources: Seq<ParsedView>, a: int, b: int)
    requires
        sources.len() <= usize::MAX,
        0 <= a < needed(sources).len(),
        0 <= b < needed(sources).len(),
        a != b,
    ensures
        needed(sources)[a].0 != needed(sources)[b].0,
{
    crate::unique::law_needed(sources);
    if a < b {
        assert(needed(sources)[a].0 != needed(sources)[b].0);
    } else {
        assert(needed(sources)[b].0 != needed(sources)[a].0);
    }
}

proof fn lemma_listed(sources: Seq<ParsedView>, i: int)
    requires
        sources.len() <= usize::MAX,
        0 <= i < sources.len(),
    ensures
        key_place(needed(sources), sources[i].key()) < needed(sources).len(),
{
    let list = needed(sources);
    let key = sources[i].key();
    assert(exists|k: int| 0 <= k < list.len() && (#[trigger] list[k]).0 == key) by {
        crate::unique::law_needed(sources);
    }
    let k = choose|k: int| 0 <= k < list.len() && (#[trigger] list[k]).0 == key;
    assert(list[k].0 == key);
    lemma_key_place(list, key);
}

proof fn lemma_last_needs(sources: Seq<ParsedView>)
    requires
        sources.len() <= usize::MAX,
    ensures
        forall|k: int|
            0 <= k < needed(sources).len() ==> is_last_need(sources, #[trigger] needed(sources)[k]),
    decreases sources.len(),
{
    if sources.len() > 0 {
        let before = sources.drop_last();
        let last = (sources.len() - 1) as int;
        let key = sources[last].key();
        lemma_last_needs(before);
        let list = needed(before);
        let new = needed(sources);
        let place = key_place(list, key);
        lemma_key_place(list, key);
        assert(new == crate::unique::with_entry(list, key, last as usize));
        assert forall|k: int| 0 <= k < new.len() implies is_last_need(sources, #[trigger] new[k]) by {
            if k != place {
                assert(new[k] == list[k]);
                let entry = list[k];
                assert(is_last_need(before, entry));
                if k > place {
                    lemma_differ(before, place, k);
                }
                assert(entry.0 != key);
                assert(sources[entry.1 as int] == before[entry.1 as int]);
                assert forall|j: int| entry.1 < j < sources.len() implies (#[trigger] sources[j]).key()
                    != entry.0 by {
                    if j < last {
                        assert(before[j].key() != entry.0);
                    }
                }
            }
        }
    }
}

proof fn lemma_needs_in_order(sources: Seq<ParsedView>)
    requires
        sources.len() <= usize::MAX,
    ensures
        forall|a: int, b: int|
            0 <= a < b < needed(sources).len() ==> needed_before(
                sources,
                (#[trigger] needed(sources)[a]).0,
                (#[trigger] needed(sources)[b]).0,
            ),
    decreases sources.len(),
{
    if sources.len() > 0 {
        let before = sources.drop_last();
        let last = (sources.len() - 1) as int;
        let key = sources[last].key();
        lemma_needs_in_order(before);
        lemma_last_needs(before);
        let list = needed(before);
        let new = needed(sources);
        lemma_key_place(list, key);
        assert(new == crate::unique::with_entry(list, key, last as usize));
        assert forall|a: int, b: int| 0 <= a < b < new.len() implies needed_before(
            sources,
            (#[trigger] new[a]).0,
            (#[trigger] new[b]).0,
        ) by {
            assert(a < list.len() && new[a].0 == list[a].0);
            let one = list[a].0;
            if b < list.len() {
                let other = list[b].0;
                assert(new[b].0 == other);
                assert(needed_before(before, one, other));
                let i = choose|i: int|
                    0 <= i < before.len() && (#[trigger] before[i]).key() == one && forall|j: int|
                        0 <= j <= i ==> (#[trigger] before[j]).key() != other;
                assert(sources[i].key() == one);
                assert forall|j: int| 0 <= j <= i implies (#[trigger] sources[j]).key() != other by {
                    assert(before[j].key() != other);
                }
                assert(needed_before(sources, one, other));
            } else {
                assert(new[b].0 == key);
                let i = list[a].1 as int;
                assert(is_last_need(before, list[a]));
                assert(sources[i].key() == one);
                assert forall|j: int| 0 <= j <= i implies (#[trigger] sources[j]).key() != key by {
                    if before[j].key() == key {
                        lemma_listed(before, j);
                    }
                }
                assert(needed_before(sources, one, key));
            }
        }
    }
}

/// Whether an analysis is listed with the last source that needs it.
pub open spec fn is_last_need(sources: Seq<ParsedView>, entry: (KeyView, usize)) -> bool {
    &&& entry.1 < sources.len()
    &&& sources[entry.1 as int].key() == entry.0
    &&& forall|j: int| entry.1 < j < sources.len() ==> (#[trigger] sources[j]).key() != entry.0
}

} // verus!
