//! Insertion-ordered maps, kept in `indexmap::IndexMap`. What a map holds
//! is a sequence of entries with distinct keys, in the order of the map.

use crate::ast::{block_views, Block, BlockView};
use crate::ass_parser::{EventFormatKey, KeyView};
use indexmap::IndexMap;
use vstd::prelude::*;

verus! {

/// `indexmap::IndexMap`, a hash map that keeps the order in which its keys
/// came.
#[verifier::external_type_specification]
#[verifier::external_body]
#[verifier::reject_recursive_types(K)]
#[verifier::reject_recursive_types(V)]
#[verifier::reject_recursive_types(S)]
pub struct ExIndexMap<K, V, S>(IndexMap<K, V, S>);

/// `Clone` of an `IndexMap`. Nothing is claimed of the copy.
pub assume_specification<K, V, S>[ <IndexMap<K, V, S> as Clone>::clone ](
    m: &IndexMap<K, V, S>,
) -> IndexMap<K, V, S>
    where K: Clone, V: Clone, S: Clone
;

/// The index of the first entry with the key `key` at or after `from`, or
/// the number of entries when there is none.
pub open spec fn key_index_from<K, V>(entries: Seq<(K, V)>, key: K, from: int) -> int
    decreases entries.len() - from,
{
    if 0 <= from < entries.len() && entries[from].0 != key {
        key_index_from(entries, key, from + 1)
    } else {
        from
    }
}

/// The index of the entry with the key `key`, or the number of entries
/// when there is none.
pub open spec fn key_index<K, V>(entries: Seq<(K, V)>, key: K) -> int {
    key_index_from(entries, key, 0)
}

/// The value that `entries` holds for `key`.
pub open spec fn value_of<K, V>(entries: Seq<(K, V)>, key: K) -> Option<V> {
    let i = key_index(entries, key);
    if 0 <= i < entries.len() {
        Some(entries[i].1)
    } else {
        None
    }
}

/// The entries after `key` got the value `value`: in the place that the key
/// had, or at the end if it had none.
pub open spec fn inserted<K, V>(entries: Seq<(K, V)>, key: K, value: V) -> Seq<(K, V)> {
    let i = key_index(entries, key);
    if 0 <= i < entries.len() {
        entries.update(i, (key, value))
    } else {
        entries.push((key, value))
    }
}

/// The entries after `key` was taken out: the last entry stands in its
/// place.
pub open spec fn swap_removed<K, V>(entries: Seq<(K, V)>, key: K) -> Seq<(K, V)> {
    let i = key_index(entries, key);
    if 0 <= i < entries.len() {
        entries.update(i, entries.last()).drop_last()
    } else {
        entries
    }
}

/// The index found is the first one at or after `from` that holds the
/// key.
pub proof fn lemma_key_index_from<K, V>(entries: Seq<(K, V)>, key: K, from: int)
    requires
        0 <= from <= entries.len(),
    ensures
        from <= key_index_from(entries, key, from) <= entries.len(),
        forall|i: int|
            from <= i < key_index_from(entries, key, from) ==> (#[trigger] entries[i]).0 != key,
        key_index_from(entries, key, from) < entries.len() ==> entries[key_index_from(
            entries,
            key,
            from,
        )].0 == key,
    decreases entries.len() - from,
{
    if from < entries.len() && entries[from].0 != key {
        lemma_key_index_from(entries, key, from + 1);
    }
}

/// Whether no key stands in two entries.
pub open spec fn distinct_keys<K, V>(entries: Seq<(K, V)>) -> bool {
    forall|i: int, j: int|
        0 <= i < j < entries.len() ==> (#[trigger] entries[i]).0 != (#[trigger] entries[j]).0
}

/// Among entries with distinct keys, the value of a key is the one that
/// stands with it.
pub proof fn lemma_value_of<K, V>(entries: Seq<(K, V)>, key: K)
    requires
        distinct_keys(entries),
    ensures
        forall|value: V| value_of(entries, key) == Some(value) <==> entries.contains((key, value)),
        value_of(entries, key) is None <==> forall|i: int|
            0 <= i < entries.len() ==> (#[trigger] entries[i]).0 != key,
{
    let at = key_index(entries, key);
    lemma_key_index_from(entries, key, 0);
    assert forall|value: V| entries.contains((key, value)) implies value_of(entries, key) == Some(
        value,
    ) by {
        let i = choose|i: int| 0 <= i < entries.len() && entries[i] == (key, value);
        assert(entries[i].0 == key);
        if at < i {
            assert(entries[at].0 != entries[i].0);
        }
    }
    if at < entries.len() {
        assert(entries.contains(entries[at]));
    }
}

/// Taking a key out of entries with distinct keys leaves the other
/// entries, with distinct keys.
pub proof fn lemma_swap_removed<K, V>(entries: Seq<(K, V)>, key: K)
    requires
        distinct_keys(entries),
    ensures
        distinct_keys(swap_removed(entries, key)),
        forall|k: K, v: V| #[trigger]
            swap_removed(entries, key).contains((k, v)) <==> (entries.contains((k, v)) && k != key),
{
    let at = key_index(entries, key);
    let left = swap_removed(entries, key);
    lemma_key_index_from(entries, key, 0);
    if at < entries.len() {
        let last = entries.len() - 1;
        assert forall|i: int| 0 <= i < left.len() implies #[trigger] left[i] == entries[if i == at {
            last
        } else {
            i
        }] by {}
        assert forall|i: int, j: int| 0 <= i < j < left.len() implies (#[trigger] left[i]).0
            != (#[trigger] left[j]).0 by {
            let a = if i == at { last } else { i };
            let b = if j == at { last } else { j };
            assert(left[i] == entries[a] && left[j] == entries[b]);
            if a < b {
                assert(entries[a].0 != entries[b].0);
            } else {
                assert(entries[b].0 != entries[a].0);
            }
        }
        assert forall|k: K, v: V| #[trigger]
            left.contains((k, v)) <==> (entries.contains((k, v)) && k != key) by {
            if left.contains((k, v)) {
                let i = choose|i: int| 0 <= i < left.len() && left[i] == (k, v);
                let a = if i == at { last } else { i };
                assert(left[i] == entries[a]);
                assert(entries[a] == (k, v));
                if a < at {
                    assert(entries[a].0 != entries[at].0);
                } else if at < a {
                    assert(entries[at].0 != entries[a].0);
                }
            }
            if entries.contains((k, v)) && k != key {
                let i = choose|i: int| 0 <= i < entries.len() && entries[i] == (k, v);
                assert(i != at);
                if i == last {
                    assert(left[at] == (k, v));
                } else {
                    assert(left[i] == (k, v));
                }
            }
        }
    } else {
        assert forall|k: K, v: V| #[trigger]
            left.contains((k, v)) <==> (entries.contains((k, v)) && k != key) by {
            if entries.contains((k, v)) {
                let i = choose|i: int| 0 <= i < entries.len() && entries[i] == (k, v);
                assert(entries[i].0 != key);
            }
        }
    }
}

/// What a string, if there is one, stands for.
pub open spec fn text_option(value: Option<String>) -> Option<Seq<char>> {
    match value {
        Some(s) => Some(s@),
        None => None,
    }
}

/// The fields of an event, by their keys, in the order of the map.
pub uninterp spec fn meta_entries(m: IndexMap<EventFormatKey, String>) -> Seq<(KeyView, Seq<char>)>;

/// `IndexMap::new`: a map without entries.
#[verifier::external_body]
pub(crate) fn meta_new() -> (m: IndexMap<EventFormatKey, String>)
    ensures
        meta_entries(m) == Seq::<(KeyView, Seq<char>)>::empty(),
{
    IndexMap::new()
}

/// `IndexMap::insert`: a key that the map holds keeps its place and gets
/// the new value; a new key goes to the end.
#[verifier::external_body]
pub(crate) fn meta_insert(
    m: &mut IndexMap<EventFormatKey, String>,
    key: EventFormatKey,
    value: String,
)
    ensures
        meta_entries(*final(m)) == inserted(meta_entries(*old(m)), key@, value@),
{
    m.insert(key, value);
}

/// `IndexMap::swap_remove`: the value of the key, if the map holds it; the
/// entry leaves, and the last entry takes its place.
#[verifier::external_body]
pub(crate) fn meta_swap_remove(
    m: &mut IndexMap<EventFormatKey, String>,
    key: &EventFormatKey,
) -> (value: Option<String>)
    ensures
        text_option(value) == value_of(meta_entries(*old(m)), key@),
        meta_entries(*final(m)) == swap_removed(meta_entries(*old(m)), key@),
{
    m.swap_remove(key)
}

/// The tracks of a merge, by their language tags, in the order of the map.
pub uninterp spec fn track_entries(m: IndexMap<String, Vec<Block>>) -> Seq<
    (Seq<char>, Seq<BlockView>),
>;

/// `IndexMap::new`: a map without entries.
#[verifier::external_body]
pub(crate) fn tracks_new() -> (m: IndexMap<String, Vec<Block>>)
    ensures
        track_entries(m) == Seq::<(Seq<char>, Seq<BlockView>)>::empty(),
{
    IndexMap::new()
}

/// `IndexMap::insert`: a key that the map holds keeps its place and gets
/// the new value; a new key goes to the end.
#[verifier::external_body]
pub(crate) fn tracks_insert(m: &mut IndexMap<String, Vec<Block>>, key: String, value: Vec<Block>)
    ensures
        track_entries(*final(m)) == inserted(track_entries(*old(m)), key@, block_views(value@)),
{
    m.insert(key, value);
}

/// What the pairs of `v` stand for, in order.
pub open spec fn track_views(v: Seq<(String, Vec<Block>)>) -> Seq<(Seq<char>, Seq<BlockView>)> {
    Seq::new(v.len(), |i: int| (v[i].0@, block_views(v[i].1@)))
}

/// `IndexMap::into_iter`, gathered: the entries in the order of the map.
#[verifier::external_body]
pub(crate) fn tracks_into_vec(m: IndexMap<String, Vec<Block>>) -> (v: Vec<(String, Vec<Block>)>)
    ensures
        track_views(v@) == track_entries(m),
{
    m.into_iter().collect()
}

/// The entries of a script's information section, in the order of the map.
pub uninterp spec fn info_entries(m: IndexMap<String, String>) -> Seq<(Seq<char>, Seq<char>)>;

/// `IndexMap::new`: a map without entries.
#[verifier::external_body]
pub(crate) fn info_new() -> (m: IndexMap<String, String>)
    ensures
        info_entries(m) == Seq::<(Seq<char>, Seq<char>)>::empty(),
{
    IndexMap::new()
}

} // verus!
