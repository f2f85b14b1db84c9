//! Parsed values.
use vstd::prelude::*;
use vstd::string::*;

use crate::text::{
    join, join_texts, joined, law_text_order, law_text_order_transitive, str_eq, str_less, text_less, texts,
};

verus! {

/// A value of a document.
#[derive(Debug, PartialEq)]
pub enum YamlValue {
    Null,
    Bool(bool),
    /// A number, by its decimal text.
    Number(String),
    String(String),
    Array(Vec<YamlValue>),
    /// The entries of a mapping, in ascending order of their keys.
    Object(Vec<(String, YamlValue)>),
}

/// What a [`YamlValue`] holds.
pub enum Tree {
    Null,
    Bool(bool),
    Number(Seq<char>),
    Text(Seq<char>),
    List(Seq<Tree>),
    Mapping(Seq<(Seq<char>, Tree)>),
}

/// What a list of values holds.
pub open spec fn trees(v: Seq<YamlValue>) -> Seq<Tree> {
    v.map_values(|x: YamlValue| x.tree())
}

/// What a list of entries holds.
pub open spec fn entry_trees(v: Seq<(String, YamlValue)>) -> Seq<(Seq<char>, Tree)> {
    v.map_values(|e: (String, YamlValue)| (e.0@, e.1.tree()))
}

impl YamlValue {
    /// What the value holds.
    pub open spec fn tree(self) -> Tree
        decreases self,
    {
        match self {
            YamlValue::Null => Tree::Null,
            YamlValue::Bool(b) => Tree::Bool(b),
            YamlValue::Number(s) => Tree::Number(s@),
            YamlValue::String(s) => Tree::Text(s@),
            YamlValue::Array(v) => Tree::List(
                Seq::new(v@.len(), |i: int| if 0 <= i < v@.len() { v@[i].tree() } else { Tree::Null }),
            ),
            YamlValue::Object(v) => Tree::Mapping(
                Seq::new(
                    v@.len(),
                    |i: int|
                        if 0 <= i < v@.len() {
                            (v@[i].0@, v@[i].1.tree())
                        } else {
                            (Seq::empty(), Tree::Null)
                        },
                ),
            ),
        }
    }

    /// A value that holds the same.
    pub fn copy(&self) -> (r: YamlValue)
        ensures
            r.tree() == self.tree(),
        decreases self,
    {
        match self {
            YamlValue::Null => YamlValue::Null,
            YamlValue::Bool(b) => YamlValue::Bool(*b),
            YamlValue::Number(s) => YamlValue::Number(s.clone()),
            YamlValue::String(s) => YamlValue::String(s.clone()),
            YamlValue::Array(v) => {
                let mut out: Vec<YamlValue> = Vec::new();
                let mut i: usize = 0;
                while i < v.len()
                    invariant
                        i <= v.len(),
                        decreases_to!(self => v@),
                        out@.len() == i,
                        forall|k: int| 0 <= k < i ==> (#[trigger] out@[k]).tree() == v@[k].tree(),
                    decreases v.len() - i,
                {
                    assert(decreases_to!(v@ => v@[i as int]));
                    out.push(v[i].copy());
                    i += 1;
                }
                let r = YamlValue::Array(out);
                assert(r.tree()->List_0 =~= self.tree()->List_0);
                r
            },
            YamlValue::Object(v) => {
                let mut out: Vec<(String, YamlValue)> = Vec::new();
                let mut i: usize = 0;
                while i < v.len()
                    invariant
                        i <= v.len(),
                        decreases_to!(self => v@),
                        out@.len() == i,
                        forall|k: int|
                            0 <= k < i ==> (#[trigger] out@[k]).0@ == v@[k].0@ && out@[k].1.tree()
                                == v@[k].1.tree(),
                    decreases v.len() - i,
                {
                    assert(decreases_to!(v@ => v@[i as int]));
                    out.push((v[i].0.clone(), v[i].1.copy()));
                    i += 1;
                }
                let r = YamlValue::Object(out);
                assert(r.tree()->Mapping_0 =~= self.tree()->Mapping_0);
                r
            },
        }
    }
}

/// Whether an entry has the key.
pub open spec fn has_key(entries: Seq<(Seq<char>, Tree)>, key: Seq<char>) -> bool {
    exists|i: int| 0 <= i < entries.len() && (#[trigger] entries[i]).0 == key
}

/// Whether the keys ascend, so that none occurs twice.
pub open spec fn keys_ascend(entries: Seq<(Seq<char>, Tree)>) -> bool {
    forall|i: int, j: int|
        0 <= i < j < entries.len() ==> text_less((#[trigger] entries[i]).0, (#[trigger] entries[j]).0)
}

/// The number of leading entries whose keys come before `key`.
pub open spec fn rank(entries: Seq<(Seq<char>, Tree)>, key: Seq<char>) -> nat
    decreases entries.len(),
{
    if entries.len() > 0 && text_less(entries[0].0, key) {
        1 + rank(entries.drop_first(), key)
    } else {
        0
    }
}

/// The entries with one more, put where its key belongs.
pub open spec fn with_entry(
    entries: Seq<(Seq<char>, Tree)>,
    key: Seq<char>,
    tree: Tree,
) -> Seq<(Seq<char>, Tree)> {
    entries.insert(rank(entries, key) as int, (key, tree))
}

proof fn lemma_rank(entries: Seq<(Seq<char>, Tree)>, key: Seq<char>, at: int)
    requires
        0 <= at <= entries.len(),
        forall|i: int| 0 <= i < at ==> text_less((#[trigger] entries[i]).0, key),
        at < entries.len() ==> !text_less(entries[at].0, key),
    ensures
        rank(entries, key) == at,
    decreases entries.len(),
{
    if at > 0 {
        assert(text_less(entries[0].0, key));
        let rest = entries.drop_first();
        assert forall|i: int| 0 <= i < at - 1 implies text_less((#[trigger] rest[i]).0, key) by {
            assert(rest[i] == entries[i + 1]);
        }
        lemma_rank(rest, key, at - 1);
    }
}

proof fn lemma_rank_bounds(entries: Seq<(Seq<char>, Tree)>, key: Seq<char>)
    ensures
        rank(entries, key) <= entries.len(),
        forall|i: int| 0 <= i < rank(entries, key) ==> text_less((#[trigger] entries[i]).0, key),
        rank(entries, key) < entries.len() ==> !text_less(entries[rank(entries, key) as int].0, key),
    decreases entries.len(),
{
    if entries.len() > 0 && text_less(entries[0].0, key) {
        let rest = entries.drop_first();
        lemma_rank_bounds(rest, key);
        assert forall|i: int| 0 <= i < rank(entries, key) implies text_less(
            (#[trigger] entries[i]).0,
            key,
        ) by {
            if i > 0 {
                assert(rest[i - 1] == entries[i]);
            }
        }
    }
}

/// An entry with a new key leaves the keys in ascending order.
pub proof fn lemma_with_entry(entries: Seq<(Seq<char>, Tree)>, key: Seq<char>, tree: Tree)
    requires
        keys_ascend(entries),
        !has_key(entries, key),
    ensures
        keys_ascend(with_entry(entries, key, tree)),
        rank(entries, key) <= entries.len(),
{
    lemma_rank_bounds(entries, key);
    let at = rank(entries, key) as int;
    let new = with_entry(entries, key, tree);
    assert forall|i: int| at <= i < entries.len() implies text_less(key, (#[trigger] entries[i]).0) by {
        law_text_order(entries[at].0, key);
        if i > at {
            law_text_order_transitive(key, entries[at].0, entries[i].0);
        }
    }
    assert forall|i: int, j: int| 0 <= i < j < new.len() implies text_less(
        (#[trigger] new[i]).0,
        (#[trigger] new[j]).0,
    ) by {
        let a = if i < at { i } else { i - 1 };
        let b = if j < at { j } else { j - 1 };
        if i != at {
            assert(new[i] == entries[a]);
        }
        if j != at {
            assert(new[j] == entries[b]);
        }
    }
}

/// Where `key` belongs among the entries, and whether it is there already.
pub fn find_entry(entries: &Vec<(String, YamlValue)>, key: &str) -> (r: (usize, bool))
    requires
        keys_ascend(entry_trees(entries@)),
    ensures
        r.0 == rank(entry_trees(entries@), key@),
        r.0 <= entries.len(),
        r.1 == has_key(entry_trees(entries@), key@),
{
    let ghost all = entry_trees(entries@);
    let mut low: usize = 0;
    let mut high: usize = entries.len();
    while low < high
        invariant
            all == entry_trees(entries@),
            keys_ascend(all),
            low <= high <= entries.len(),
            forall|i: int| 0 <= i < low ==> text_less((#[trigger] all[i]).0, key@),
            high < entries.len() ==> !text_less(all[high as int].0, key@),
        decreases high - low,
    {
        let middle: usize = low + (high - low) / 2;
        assert(all[middle as int].0 == entries@[middle as int].0@);
        if str_less(entries[middle].0.as_str(), key) {
            proof {
                assert forall|i: int| 0 <= i < middle + 1 implies text_less(
                    (#[trigger] all[i]).0,
                    key@,
                ) by {
                    if i < middle {
                        law_text_order_transitive(all[i].0, all[middle as int].0, key@);
                    }
                }
            }
            low = middle + 1;
        } else {
            high = middle;
        }
    }
    proof {
        lemma_rank(all, key@, low as int);
        law_text_order(key@, key@);
        assert forall|i: int| 0 <= i < all.len() && (#[trigger] all[i]).0 == key@ implies i == low by {
            if i > low {
                assert(text_less(all[low as int].0, all[i].0));
            }
        }
    }
    let found = low < entries.len() && str_eq(entries[low].0.as_str(), key);
    proof {
        if low < all.len() {
            assert(all[low as int].0 == entries@[low as int].0@);
        }
    }
    (low, found)
}

/// The text that stands for a value where it is a key.
pub open spec fn key_text(tree: Tree) -> Seq<char>
    decreases tree,
{
    match tree {
        Tree::Null => Seq::empty(),
        Tree::Bool(b) => if b {
            "true"@
        } else {
            "false"@
        },
        Tree::Number(text) => text,
        Tree::Text(text) => text,
        Tree::List(items) => "[ "@ + join_texts(key_texts(items), ", "@) + " ]"@,
        Tree::Mapping(entries) => "{ "@ + join_texts(entry_texts(entries), ", "@) + " }"@,
    }
}

/// The texts that stand for the values of a list.
pub open spec fn key_texts(items: Seq<Tree>) -> Seq<Seq<char>>
    decreases items,
{
    Seq::new(
        items.len(),
        |i: int| if 0 <= i < items.len() { key_text(items[i]) } else { Seq::empty() },
    )
}

/// The texts that stand for the entries of a mapping.
pub open spec fn entry_texts(entries: Seq<(Seq<char>, Tree)>) -> Seq<Seq<char>>
    decreases entries,
{
    Seq::new(
        entries.len(),
        |i: int|
            if 0 <= i < entries.len() {
                entries[i].0 + ": "@ + key_text(entries[i].1)
            } else {
                Seq::empty()
            },
    )
}

/// The text that stands for a value where it is a key.
pub fn stringify_key(value: &YamlValue) -> (r: String)
    ensures
        r@ == key_text(value.tree()),
    decreases value,
{
    match value {
        YamlValue::Null => {
            let r = String::new();
            assert(r@ =~= Seq::<char>::empty());
            r
        },
        YamlValue::Bool(b) => if *b {
            "true".to_owned()
        } else {
            "false".to_owned()
        },
        YamlValue::Number(text) => text.clone(),
        YamlValue::String(text) => text.clone(),
        YamlValue::Array(v) => {
            let mut parts: Vec<String> = Vec::new();
            let mut i: usize = 0;
            while i < v.len()
                invariant
                    i <= v.len(),
                    decreases_to!(value => v@),
                    parts@.len() == i,
                    forall|k: int| 0 <= k < i ==> (#[trigger] parts@[k])@ == key_text(v@[k].tree()),
                decreases v.len() - i,
            {
                assert(decreases_to!(v@ => v@[i as int]));
                parts.push(stringify_key(&v[i]));
                i += 1;
            }
            proof {
                assert(texts(parts@) =~= key_texts(value.tree()->List_0));
            }
            let mut r = "[ ".to_owned();
            r.append(join(&parts, ", ").as_str());
            r.append(" ]");
            r
        },
        YamlValue::Object(v) => {
            let mut parts: Vec<String> = Vec::new();
            let mut i: usize = 0;
            while i < v.len()
                invariant
                    i <= v.len(),
                    decreases_to!(value => v@),
                    parts@.len() == i,
                    forall|k: int|
                        0 <= k < i ==> (#[trigger] parts@[k])@ == v@[k].0@ + ": "@ + key_text(
                            v@[k].1.tree(),
                        ),
                decreases v.len() - i,
            {
                assert(decreases_to!(v@ => v@[i as int]));
                let mut part = joined(v[i].0.as_str(), ": ");
                part.append(stringify_key(&v[i].1).as_str());
                parts.push(part);
                i += 1;
            }
            proof {
                assert(texts(parts@) =~= entry_texts(value.tree()->Mapping_0));
            }
            let mut r = "{ ".to_owned();
            r.append(join(&parts, ", ").as_str());
            r.append(" }");
            r
        },
    }
}

} // verus!
