//! The cache of a batch of decodes: for each mint account whether it was decoded, and the error
//! if it was not.

use crate::error::{DecodeError, ErrorView};
use crate::metadata::Metadata;
use crate::text::{copy_text_option, text_option, texts};
use indexmap::IndexMap;
use vstd::prelude::*;

verus! {

/// What the cache knows of one mint account.
#[derive(Debug, PartialEq, Eq)]
pub struct CacheItem {
    pub successful: bool,
    pub error: Option<String>,
}

/// The mathematical value of a [`CacheItem`].
pub struct ItemView {
    pub successful: bool,
    pub error: Option<Seq<char>>,
}

impl View for CacheItem {
    type V = ItemView;

    open spec fn view(&self) -> ItemView {
        ItemView { successful: self.successful, error: text_option(self.error) }
    }
}

/// The entries of a cache: mint accounts with their items.
pub type Entries = Seq<(Seq<char>, ItemView)>;

/// Whether there is an entry for `key`.
pub open spec fn has_key(entries: Entries, key: Seq<char>) -> bool {
    exists|i: int| 0 <= i < entries.len() && (#[trigger] entries[i]).0 == key
}

/// Whether no two entries have the same key.
pub open spec fn distinct_keys(entries: Entries) -> bool {
    forall|i: int, j: int|
        0 <= i < j < entries.len() ==> (#[trigger] entries[i]).0 != (#[trigger] entries[j]).0
}

/// `entries` with `item` as the item of `key`, where there is an entry for it.
pub open spec fn assigned(entries: Entries, key: Seq<char>, item: ItemView) -> Entries {
    entries.map_values(
        |entry: (Seq<char>, ItemView)|
            if entry.0 == key {
                (key, item)
            } else {
                entry
            },
    )
}

/// `entries` after `item` was inserted under `key`: a known key keeps its place, a new one comes
/// last.
pub open spec fn inserted(entries: Entries, key: Seq<char>, item: ItemView) -> Entries {
    if has_key(entries, key) {
        assigned(entries, key, item)
    } else {
        entries.push((key, item))
    }
}

/// The values of a list of entries.
pub open spec fn entry_views(entries: Seq<(String, CacheItem)>) -> Entries {
    entries.map_values(|entry: (String, CacheItem)| (entry.0@, entry.1@))
}

/// `indexmap::IndexMap`; its inside stays unknown to the proofs.
#[verifier::external_type_specification]
#[verifier::external_body]
#[verifier::reject_recursive_types(K)]
#[verifier::reject_recursive_types(V)]
#[verifier::reject_recursive_types(S)]
pub struct ExIndexMap<K, V, S>(indexmap::IndexMap<K, V, S>);

/// The entries that an `IndexMap` holds, in its order.
pub uninterp spec fn map_entries(map: IndexMap<String, CacheItem>) -> Seq<(Seq<char>, ItemView)>;

/// `IndexMap::new`: a map without entries.
#[verifier::external_body]
fn map_new() -> (map: IndexMap<String, CacheItem>)
    ensures
        map_entries(map) == Seq::<(Seq<char>, ItemView)>::empty(),
{
    IndexMap::new()
}

/// `IndexMap::insert`: the item of a known key is replaced in its place, a new key comes last.
#[verifier::external_body]
fn map_insert(map: &mut IndexMap<String, CacheItem>, key: String, item: CacheItem)
    ensures
        map_entries(*final(map)) == inserted(map_entries(*old(map)), key@, item@),
{
    map.insert(key, item);
}

/// `IndexMap::get_mut`: the item of `key`, to be changed in its place, or `None` for a key that is
/// not there. No two entries of a map have the same key, so no other entry changes.
#[verifier::external_body]
fn map_get_mut<'a>(map: &'a mut IndexMap<String, CacheItem>, key: &str) -> (item: Option<
    &'a mut CacheItem,
>)
    ensures
        item is Some <==> has_key(map_entries(*old(map)), key@),
        item is Some ==> forall|i: int|
            0 <= i < map_entries(*old(map)).len() && (#[trigger] map_entries(*old(map))[i]).0
                == key@ ==> map_entries(*old(map))[i].1 == (*item->Some_0)@,
        item is Some ==> map_entries(*final(map)) == assigned(
            map_entries(*old(map)),
            key@,
            (*final(item->Some_0))@,
        ),
        item is None ==> map_entries(*final(map)) == map_entries(*old(map)),
{
    map.get_mut(key)
}

/// `IndexMap::contains_key`: whether there is an entry for `key`.
#[verifier::external_body]
fn map_contains_key(map: &IndexMap<String, CacheItem>, key: &str) -> (known: bool)
    ensures
        known == has_key(map_entries(*map), key@),
{
    map.contains_key(key)
}

/// `IndexMap::iter`: every entry once, in the map's order.
#[verifier::external_body]
fn map_iter(map: &IndexMap<String, CacheItem>) -> (entries: Vec<(&String, &CacheItem)>)
    ensures
        ref_views(entries@) == map_entries(*map),
{
    map.iter().collect()
}

/// The values of a list of borrowed entries.
pub open spec fn ref_views(entries: Seq<(&String, &CacheItem)>) -> Entries {
    entries.map_values(|entry: (&String, &CacheItem)| (entry.0@, entry.1@))
}

/// An entry as it is before its mint account was decoded.
pub open spec fn fresh_item() -> ItemView {
    ItemView { successful: false, error: None }
}

/// The entries for a list of mint accounts, none of them decoded yet.
pub open spec fn initial_entries(mints: Seq<Seq<char>>) -> Entries
    decreases mints.len(),
{
    if mints.len() == 0 {
        Seq::empty()
    } else {
        inserted(initial_entries(mints.drop_last()), mints.last(), fresh_item())
    }
}

/// `entries` with the mint account `key` marked as decoded.
pub open spec fn marked(entries: Entries, key: Seq<char>) -> Entries {
    entries.map_values(
        |entry: (Seq<char>, ItemView)|
            if entry.0 == key {
                (key, ItemView { successful: true, error: entry.1.error })
            } else {
                entry
            },
    )
}

/// The last of `errors` that is about the mint account `key`.
pub open spec fn last_error(errors: Seq<ErrorView>, key: Seq<char>) -> Option<ErrorView>
    decreases errors.len(),
{
    if errors.len() == 0 {
        None
    } else if errors.last().account() == key {
        Some(errors.last())
    } else {
        last_error(errors.drop_last(), key)
    }
}

/// `entry` after `errors` were entered.
pub open spec fn entry_with_errors(
    entry: (Seq<char>, ItemView),
    errors: Seq<ErrorView>,
) -> (Seq<char>, ItemView) {
    match last_error(errors, entry.0) {
        Some(error) => (entry.0, ItemView { successful: false, error: Some(error.message()) }),
        None => entry,
    }
}

/// `entries` after `errors` were entered: each entry that one of them is about is unsuccessful and
/// holds the message of the last of these.
pub open spec fn with_errors(entries: Entries, errors: Seq<ErrorView>) -> Entries {
    entries.map_values(|entry: (Seq<char>, ItemView)| entry_with_errors(entry, errors))
}

/// The entries that are not decoded.
pub open spec fn failed_entries(entries: Entries) -> Entries {
    entries.filter(|entry: (Seq<char>, ItemView)| !entry.1.successful)
}

/// The mint accounts that are not decoded.
pub open spec fn remaining_keys(entries: Entries) -> Seq<Seq<char>> {
    failed_entries(entries).map_values(|entry: (Seq<char>, ItemView)| entry.0)
}

/// The errors of a list of failed decodes.
pub open spec fn failures(results: Seq<Result<Metadata, DecodeError>>) -> Seq<ErrorView> {
    results.map_values(|result: Result<Metadata, DecodeError>| result->Err_0@)
}

pub(crate) proof fn lemma_same_keys(before: Entries, after: Entries)
    requires
        before.len() == after.len(),
        forall|i: int| 0 <= i < before.len() ==> (#[trigger] after[i]).0 == before[i].0,
    ensures
        distinct_keys(before) ==> distinct_keys(after),
        forall|key: Seq<char>| has_key(before, key) <==> has_key(after, key),
{
    assert forall|key: Seq<char>| has_key(before, key) <==> has_key(after, key) by {
        if has_key(before, key) {
            let i = choose|i: int| 0 <= i < before.len() && (#[trigger] before[i]).0 == key;
            assert(after[i].0 == key);
        }
        if has_key(after, key) {
            let i = choose|i: int| 0 <= i < after.len() && (#[trigger] after[i]).0 == key;
            assert(before[i].0 == key);
        }
    }
}

proof fn lemma_inserted(entries: Entries, key: Seq<char>, item: ItemView)
    requires
        distinct_keys(entries),
    ensures
        distinct_keys(inserted(entries, key, item)),
        has_key(inserted(entries, key, item), key),
        forall|other: Seq<char>|
            has_key(inserted(entries, key, item), other) <==> other == key || has_key(
                entries,
                other,
            ),
{
    let after = inserted(entries, key, item);
    if has_key(entries, key) {
        lemma_same_keys(entries, after);
    } else {
        assert(after.last().0 == key);
        assert forall|other: Seq<char>| has_key(after, other) <==> other == key || has_key(
            entries,
            other,
        ) by {
            if has_key(entries, other) {
                let i = choose|i: int| 0 <= i < entries.len() && (#[trigger] entries[i]).0 == other;
                assert(after[i].0 == other);
            }
            if has_key(after, other) {
                let i = choose|i: int| 0 <= i < after.len() && (#[trigger] after[i]).0 == other;
                if i < entries.len() {
                    assert(entries[i].0 == other);
                }
            }
            if other == key {
                assert(after[entries.len() as int].0 == key);
            }
        }
    }
}

/// The entries for a list of mint accounts have every account of the list as a key, no other one
/// and none twice, and none of them is decoded or has an error.
pub proof fn lemma_initial_entries(mints: Seq<Seq<char>>)
    ensures
        distinct_keys(initial_entries(mints)),
        forall|key: Seq<char>| has_key(initial_entries(mints), key) <==> mints.contains(key),
        forall|i: int|
            0 <= i < initial_entries(mints).len() ==> (#[trigger] initial_entries(mints)[i]).1
                == fresh_item(),
    decreases mints.len(),
{
    if mints.len() > 0 {
        let before = initial_entries(mints.drop_last());
        lemma_initial_entries(mints.drop_last());
        lemma_inserted(before, mints.last(), fresh_item());
        assert forall|key: Seq<char>| has_key(initial_entries(mints), key) <==> mints.contains(
            key,
        ) by {
            if mints.contains(key) && key != mints.last() {
                let i = choose|i: int| 0 <= i < mints.len() && mints[i] == key;
                assert(mints.drop_last()[i] == key);
            }
            if mints.drop_last().contains(key) {
                let i = choose|i: int|
                    0 <= i < mints.drop_last().len() && mints.drop_last()[i] == key;
                assert(mints[i] == key);
            }
            if key == mints.last() {
                assert(mints[mints.len() - 1] == key);
            }
        }
    }
}

/// The keys of entries, in their order.
pub open spec fn entry_keys(entries: Entries) -> Seq<Seq<char>> {
    entries.map_values(|entry: (Seq<char>, ItemView)| entry.0)
}

/// The elements of `list` without those that occurred before.
pub open spec fn first_occurrences(list: Seq<Seq<char>>) -> Seq<Seq<char>>
    decreases list.len(),
{
    if list.len() == 0 {
        list
    } else if list.drop_last().contains(list.last()) {
        first_occurrences(list.drop_last())
    } else {
        first_occurrences(list.drop_last()).push(list.last())
    }
}

/// The first occurrences of a list are its elements, none of them twice, in the order in which
/// they occur first: each occurrence of a later one has an earlier one before it.
pub proof fn lemma_first_occurrences(list: Seq<Seq<char>>)
    ensures
        first_occurrences(list).no_duplicates(),
        forall|mint: Seq<char>|
            #[trigger] first_occurrences(list).contains(mint) <==> list.contains(mint),
        forall|i: int, j: int, q: int|
            0 <= i < j < first_occurrences(list).len() && 0 <= q < list.len()
                && #[trigger] first_occurrences(list)[j] == #[trigger] list[q]
                ==> list.take(q).contains(#[trigger] first_occurrences(list)[i]),
        list.no_duplicates() ==> first_occurrences(list) == list,
    decreases list.len(),
{
    let firsts = first_occurrences(list);
    if list.len() > 0 {
        let rest = list.drop_last();
        let before = first_occurrences(rest);
        let last = list.len() - 1;
        lemma_first_occurrences(rest);
        assert forall|mint: Seq<char>| list.contains(mint) <==> rest.contains(mint) || mint
            == list.last() by {
            if list.contains(mint) && mint != list.last() {
                let q = choose|q: int| 0 <= q < list.len() && list[q] == mint;
                assert(rest[q] == mint);
            }
            if rest.contains(mint) {
                let q = choose|q: int| 0 <= q < rest.len() && rest[q] == mint;
                assert(list[q] == mint);
            }
            assert(list[last] == list.last());
        }
        assert forall|mint: Seq<char>| #[trigger] firsts.contains(mint) <==> list.contains(mint) by {
            if before.contains(mint) {
                let j = choose|j: int| 0 <= j < before.len() && before[j] == mint;
                assert(firsts[j] == mint);
            }
            if firsts.contains(mint) {
                let j = choose|j: int| 0 <= j < firsts.len() && firsts[j] == mint;
                if j < before.len() {
                    assert(before[j] == mint);
                    assert(before.contains(mint));
                }
            }
            if mint == list.last() && !rest.contains(mint) {
                assert(firsts[before.len() as int] == mint);
            }
        }
        assert forall|i: int, j: int, q: int|
            0 <= i < j < firsts.len() && 0 <= q < list.len() && #[trigger] firsts[j]
                == #[trigger] list[q] implies list.take(q).contains(#[trigger] firsts[i]) by {
            assert(firsts[i] == before[i]);
            if q < last {
                assert(list[q] == rest[q]);
                assert(rest.take(q) =~= list.take(q));
                if j == before.len() {
                    assert(rest.contains(list.last()));
                }
                assert(before[j] == rest[q]);
            } else {
                assert(list.take(q) =~= rest);
                assert(before.contains(before[i]));
            }
        }
        assert(firsts.no_duplicates()) by {
            if !rest.contains(list.last()) {
                assert(!before.contains(list.last()));
            }
        }
        if list.no_duplicates() {
            if rest.contains(list.last()) {
                let q = choose|q: int| 0 <= q < rest.len() && rest[q] == list.last();
                assert(list[q] == list[last]);
            }
            assert(firsts =~= list);
        }
    }
}

/// The mint accounts of a new cache are the first occurrences of the list, in its order.
pub proof fn lemma_initial_keys(mints: Seq<Seq<char>>)
    ensures
        entry_keys(initial_entries(mints)) == first_occurrences(mints),
    decreases mints.len(),
{
    if mints.len() > 0 {
        let rest = mints.drop_last();
        lemma_initial_keys(rest);
        lemma_initial_entries(rest);
        assert(has_key(initial_entries(rest), mints.last()) <==> rest.contains(mints.last()));
        assert(entry_keys(initial_entries(mints)) =~= first_occurrences(mints));
    } else {
        assert(entry_keys(initial_entries(mints)) =~= first_occurrences(mints));
    }
}

/// Where no mint account is listed twice, the entries are those of the list, in its order.
pub proof fn lemma_initial_entries_in_order(mints: Seq<Seq<char>>)
    requires
        mints.no_duplicates(),
    ensures
        initial_entries(mints) == mints.map_values(|mint: Seq<char>| (mint, fresh_item())),
    decreases mints.len(),
{
    if mints.len() > 0 {
        let rest = mints.drop_last();
        lemma_initial_entries_in_order(rest);
        lemma_initial_entries(rest);
        if rest.contains(mints.last()) {
            let i = choose|i: int| 0 <= i < rest.len() && rest[i] == mints.last();
            assert(mints[i] == mints[mints.len() - 1]);
        }
    }
    assert(initial_entries(mints) =~= mints.map_values(
        |mint: Seq<char>| (mint, fresh_item()),
    ));
}

/// Entering errors keeps every mint account in its place, and entering the same errors once more
/// changes nothing.
pub proof fn lemma_entering_errors(entries: Entries, errors: Seq<ErrorView>)
    ensures
        with_errors(entries, errors).len() == entries.len(),
        forall|i: int|
            0 <= i < entries.len() ==> (#[trigger] with_errors(entries, errors)[i]).0
                == entries[i].0,
        with_errors(with_errors(entries, errors), errors) == with_errors(entries, errors),
{
    assert(with_errors(with_errors(entries, errors), errors) =~= with_errors(entries, errors));
}

proof fn lemma_with_one_more_error(entries: Entries, errors: Seq<ErrorView>)
    requires
        errors.len() > 0,
    ensures
        assigned(
            with_errors(entries, errors.drop_last()),
            errors.last().account(),
            ItemView { successful: false, error: Some(errors.last().message()) },
        ) == with_errors(entries, errors),
{
    assert(assigned(
        with_errors(entries, errors.drop_last()),
        errors.last().account(),
        ItemView { successful: false, error: Some(errors.last().message()) },
    ) =~= with_errors(entries, errors));
}

proof fn lemma_filter_step(entries: Entries, i: int)
    requires
        0 <= i < entries.len(),
    ensures
        failed_entries(entries.take(i + 1)) == if entries[i].1.successful {
            failed_entries(entries.take(i))
        } else {
            failed_entries(entries.take(i)).push(entries[i])
        },
{
    reveal(Seq::filter);
    assert(entries.take(i + 1).drop_last() =~= entries.take(i));
}

/// The entries that are not decoded are entries of the cache, all those that are not decoded, and
/// none of them twice.
pub proof fn lemma_failed_entries(entries: Entries)
    requires
        distinct_keys(entries),
    ensures
        distinct_keys(failed_entries(entries)),
        forall|entry: (Seq<char>, ItemView)|
            failed_entries(entries).contains(entry) <==> entries.contains(entry)
                && !entry.1.successful,
    decreases entries.len(),
{
    reveal(Seq::filter);
    if entries.len() > 0 {
        let rest = entries.drop_last();
        lemma_failed_entries(rest);
        assert(entries =~= rest.push(entries.last()));
        let before = failed_entries(rest);
        let after = failed_entries(entries);
        assert forall|entry: (Seq<char>, ItemView)|
            after.contains(entry) <==> entries.contains(entry) && !entry.1.successful by {
            if entries.contains(entry) && !entry.1.successful {
                let i = choose|i: int| 0 <= i < entries.len() && entries[i] == entry;
                if i < rest.len() {
                    assert(rest[i] == entry);
                    assert(before.contains(entry));
                    let j = choose|j: int| 0 <= j < before.len() && before[j] == entry;
                    assert(after[j] == entry);
                } else {
                    assert(after[after.len() - 1] == entry);
                }
            }
            if after.contains(entry) {
                let j = choose|j: int| 0 <= j < after.len() && after[j] == entry;
                if j < before.len() {
                    assert(before[j] == entry);
                    assert(rest.contains(entry));
                    let i = choose|i: int| 0 <= i < rest.len() && rest[i] == entry;
                    assert(entries[i] == entry);
                } else {
                    assert(entries[entries.len() - 1] == entry);
                }
            }
        }
        if !entries.last().1.successful {
            assert forall|j: int| 0 <= j < before.len() implies (#[trigger] before[j]).0
                != entries.last().0 by {
                assert(before.contains(before[j]));
                assert(rest.contains(before[j]));
                let i = choose|i: int| 0 <= i < rest.len() && rest[i] == before[j];
                assert(entries[i] == before[j]);
                assert(entries[entries.len() - 1] == entries.last());
            }
            assert(after =~= before.push(entries.last()));
        } else {
            assert(after =~= before);
        }
    }
}

/// The value of an item says whether it is decoded and holds the characters of its error, and the
/// value of a list has each entry in its place.
pub proof fn lemma_entry_values(item: CacheItem, entries: Seq<(String, CacheItem)>)
    ensures
        item@.successful == item.successful,
        match (item.error, item@.error) {
            (Some(text), Some(value)) => value == text@,
            (None, None) => true,
            _ => false,
        },
        entry_views(entries).len() == entries.len(),
        forall|i: int|
            0 <= i < entries.len() ==> {
                &&& (#[trigger] entry_views(entries)[i]).0 == entries[i].0@
                &&& entry_views(entries)[i].1 == entries[i].1@
            },
{
}

/// The errors of a list of failed decodes are those of the decodes, one for one and in their order.
pub proof fn lemma_failures(results: Seq<Result<Metadata, DecodeError>>)
    ensures
        failures(results).len() == results.len(),
        forall|i: int|
            0 <= i < results.len() && results[i] is Err ==> #[trigger] failures(results)[i]
                == results[i]->Err_0@,
{
}

/// A new cache has an entry for exactly the mint accounts that are listed, in the order of their
/// first occurrences; none of the entries is decoded or has an error.
pub proof fn lemma_new_cache(mints: Seq<Seq<char>>)
    ensures
        forall|i: int|
            0 <= i < initial_entries(mints).len() ==> {
                &&& !(#[trigger] initial_entries(mints)[i]).1.successful
                &&& initial_entries(mints)[i].1.error is None
                &&& mints.contains(initial_entries(mints)[i].0)
            },
        forall|q: int|
            0 <= q < mints.len() ==> exists|i: int|
                0 <= i < initial_entries(mints).len() && (#[trigger] initial_entries(mints)[i]).0
                    == #[trigger] mints[q],
        forall|i: int, j: int|
            0 <= i < j < initial_entries(mints).len() ==> (#[trigger] initial_entries(mints)[i]).0
                != (#[trigger] initial_entries(mints)[j]).0,
        forall|i: int, j: int, q: int|
            0 <= i < j < initial_entries(mints).len() && 0 <= q < mints.len() && (
            #[trigger] initial_entries(mints)[j]).0 == #[trigger] mints[q] ==> mints.take(
                q,
            ).contains((#[trigger] initial_entries(mints)[i]).0),
{
    let entries = initial_entries(mints);
    let firsts = first_occurrences(mints);
    lemma_initial_entries(mints);
    lemma_initial_keys(mints);
    lemma_first_occurrences(mints);
    assert forall|i: int| 0 <= i < entries.len() implies firsts[i] == (#[trigger] entries[i]).0 by {
        assert(entry_keys(entries)[i] == entries[i].0);
    }
    assert forall|i: int| 0 <= i < entries.len() implies mints.contains(
        (#[trigger] entries[i]).0,
    ) by {
        assert(has_key(entries, entries[i].0));
    }
    assert forall|q: int| 0 <= q < mints.len() implies exists|i: int|
        0 <= i < entries.len() && (#[trigger] entries[i]).0 == #[trigger] mints[q] by {
        assert(mints.contains(mints[q]));
        assert(has_key(entries, mints[q]));
    }
}

/// To insert an item leaves every other entry as it is and where it is. The item of a known mint
/// account is replaced in its place, a new mint account comes last.
pub proof fn lemma_insert(entries: Entries, key: Seq<char>, item: ItemView)
    ensures
        (exists|i: int| 0 <= i < entries.len() && (#[trigger] entries[i]).0 == key) ==> inserted(
            entries,
            key,
            item,
        ).len() == entries.len(),
        (forall|i: int| 0 <= i < entries.len() ==> (#[trigger] entries[i]).0 != key) ==> inserted(
            entries,
            key,
            item,
        ) == entries.push((key, item)),
        forall|i: int|
            0 <= i < entries.len() ==> #[trigger] inserted(entries, key, item)[i] == if entries[i].0
                == key {
                (key, item)
            } else {
                entries[i]
            },
{
}

/// To mark a mint account as decoded changes nothing but that: every entry stays in its place and
/// keeps its error, and only the marked mint account is decoded that was not before.
pub proof fn lemma_mark(entries: Entries, key: Seq<char>)
    ensures
        marked(entries, key).len() == entries.len(),
        forall|i: int|
            0 <= i < entries.len() ==> {
                &&& (#[trigger] marked(entries, key)[i]).0 == entries[i].0
                &&& marked(entries, key)[i].1.error == entries[i].1.error
                &&& marked(entries, key)[i].1.successful == (entries[i].1.successful
                    || entries[i].0 == key)
            },
{
}

proof fn lemma_last_error_at(errors: Seq<ErrorView>, key: Seq<char>)
    ensures
        forall|q: int|
            0 <= q < errors.len() && (#[trigger] errors[q]).account() == key && (forall|r: int|
                q < r < errors.len() ==> (#[trigger] errors[r]).account() != key) ==> last_error(
                errors,
                key,
            ) == Some(errors[q]),
        (forall|q: int| 0 <= q < errors.len() ==> (#[trigger] errors[q]).account() != key)
            ==> last_error(errors, key) is None,
    decreases errors.len(),
{
    if errors.len() > 0 {
        let rest = errors.drop_last();
        let last = errors.len() - 1;
        lemma_last_error_at(rest, key);
        assert(errors[last] == errors.last());
        if errors.last().account() != key {
            assert forall|q: int|
                0 <= q < errors.len() && (#[trigger] errors[q]).account() == key && (forall|r: int|
                    q < r < errors.len() ==> (#[trigger] errors[r]).account() != key) implies last_error(
                errors,
                key,
            ) == Some(errors[q]) by {
                assert(rest[q] == errors[q]);
                assert forall|r: int| q < r < rest.len() implies (#[trigger] rest[r]).account()
                    != key by {
                    assert(rest[r] == errors[r]);
                }
            }
            if forall|q: int| 0 <= q < errors.len() ==> (#[trigger] errors[q]).account() != key {
                assert forall|q: int| 0 <= q < rest.len() implies (#[trigger] rest[q]).account()
                    != key by {
                    assert(rest[q] == errors[q]);
                }
            }
        }
    }
}

/// To enter errors keeps every mint account in its place. An entry that errors are about is not
/// decoded afterwards and holds the message of the last of them, every other entry is as it was.
pub proof fn lemma_errors_entered(entries: Entries, errors: Seq<ErrorView>)
    ensures
        with_errors(entries, errors).len() == entries.len(),
        forall|i: int, q: int|
            0 <= i < entries.len() && 0 <= q < errors.len() && (#[trigger] errors[q]).account()
                == entries[i].0 && (forall|r: int|
                q < r < errors.len() ==> (#[trigger] errors[r]).account() != entries[i].0) ==> {
                &&& (#[trigger] with_errors(entries, errors)[i]).0 == entries[i].0
                &&& !with_errors(entries, errors)[i].1.successful
                &&& with_errors(entries, errors)[i].1.error == Some(errors[q].message())
            },
        forall|i: int|
            0 <= i < entries.len() && (forall|q: int|
                0 <= q < errors.len() ==> (#[trigger] errors[q]).account() != entries[i].0)
                ==> #[trigger] with_errors(entries, errors)[i] == entries[i],
{
    assert forall|i: int, q: int|
        0 <= i < entries.len() && 0 <= q < errors.len() && (#[trigger] errors[q]).account()
            == entries[i].0 && (forall|r: int|
            q < r < errors.len() ==> (#[trigger] errors[r]).account() != entries[i].0) implies {
        &&& (#[trigger] with_errors(entries, errors)[i]).0 == entries[i].0
        &&& !with_errors(entries, errors)[i].1.successful
        &&& with_errors(entries, errors)[i].1.error == Some(errors[q].message())
    } by {
        lemma_last_error_at(errors, entries[i].0);
    }
    assert forall|i: int|
        0 <= i < entries.len() && (forall|q: int|
            0 <= q < errors.len() ==> (#[trigger] errors[q]).account() != entries[i].0) implies
        #[trigger] with_errors(entries, errors)[i] == entries[i] by {
        lemma_last_error_at(errors, entries[i].0);
    }
}

/// The undecoded entries of two lists, one behind the other, are those of the first and behind them
/// those of the second; a single entry is among them exactly if it is not decoded. The mint accounts
/// that remain are those of these entries, one for one.
pub proof fn lemma_undecoded(entries: Entries, more: Entries, entry: (Seq<char>, ItemView))
    ensures
        failed_entries(entries + more) == failed_entries(entries) + failed_entries(more),
        entry.1.successful ==> failed_entries(seq![entry]).len() == 0,
        !entry.1.successful ==> failed_entries(seq![entry]) == seq![entry],
        failed_entries(Seq::<(Seq<char>, ItemView)>::empty()).len() == 0,
        remaining_keys(entries).len() == failed_entries(entries).len(),
        forall|i: int|
            0 <= i < failed_entries(entries).len() ==> #[trigger] remaining_keys(entries)[i]
                == failed_entries(entries)[i].0,
    decreases more.len(),
{
    reveal(Seq::filter);
    assert(seq![entry].drop_last() =~= Seq::<(Seq<char>, ItemView)>::empty());
    assert(failed_entries(seq![entry].drop_last()) =~= Seq::<(Seq<char>, ItemView)>::empty());
    if more.len() > 0 {
        lemma_undecoded(entries, more.drop_last(), entry);
        assert((entries + more).drop_last() =~= entries + more.drop_last());
        assert((entries + more).last() == more.last());
        assert(failed_entries(entries + more) =~= failed_entries(entries) + failed_entries(more));
    } else {
        assert(entries + more =~= entries);
        assert(failed_entries(entries + more) =~= failed_entries(entries) + failed_entries(more));
    }
}

fn copy_item(item: &CacheItem) -> (copy: CacheItem)
    ensures
        copy@ == item@,
        copy.successful == item.successful,
        match (item.error, copy.error) {
            (Some(text), Some(copied)) => copied@ == text@,
            (None, None) => true,
            _ => false,
        },
{
    CacheItem { successful: item.successful, error: copy_text_option(&item.error) }
}

/// The cache of a batch of decodes, in the order in which the mint accounts were given.
#[derive(Debug)]
pub struct DecodeCache(IndexMap<String, CacheItem>);

impl View for DecodeCache {
    type V = Entries;

    closed spec fn view(&self) -> Entries {
        map_entries(self.0)
    }
}

impl Default for DecodeCache {
    fn default() -> (cache: Self)
        ensures
            cache@ == Seq::<(Seq<char>, ItemView)>::empty(),
    {
        Self::new()
    }
}

impl DecodeCache {
    #[verifier::type_invariant]
    spec fn inv(self) -> bool {
        distinct_keys(map_entries(self.0))
    }

    /// A cache without entries.
    pub fn new() -> (cache: Self)
        ensures
            cache@ == Seq::<(Seq<char>, ItemView)>::empty(),
    {
        DecodeCache(map_new())
    }

    /// The cache for a list of mint accounts, none of them decoded yet.
    pub fn from_mints(mints: &Vec<String>) -> (cache: Self)
        ensures
            cache@ == initial_entries(texts(mints@)),
            forall|i: int|
                0 <= i < cache@.len() ==> {
                    &&& !(#[trigger] cache@[i]).1.successful
                    &&& cache@[i].1.error is None
                },
    {
        let mut map = map_new();
        for i in 0..mints.len()
            invariant
                map_entries(map) == initial_entries(texts(mints@).take(i as int)),
        {
            map_insert(&mut map, mints[i].clone(), CacheItem { successful: false, error: None });
            assert(texts(mints@).take(i + 1).drop_last() =~= texts(mints@).take(i as int));
        }
        assert(texts(mints@).take(mints@.len() as int) =~= texts(mints@));
        proof {
            lemma_initial_entries(texts(mints@));
        }
        DecodeCache(map)
    }

    /// Enters `item` under `key`.
    pub fn insert(&mut self, key: String, item: CacheItem)
        ensures
            final(self)@ == inserted(old(self)@, key@, item@),
            (forall|i: int| 0 <= i < old(self)@.len() ==> (#[trigger] old(self)@[i]).0 != key@)
                ==> final(self)@ == old(self)@.push((key@, item@)),
            (exists|i: int| 0 <= i < old(self)@.len() && (#[trigger] old(self)@[i]).0 == key@)
                ==> final(self)@.len() == old(self)@.len(),
            forall|i: int|
                0 <= i < old(self)@.len() ==> #[trigger] final(self)@[i] == if old(self)@[i].0
                    == key@ {
                    (key@, item@)
                } else {
                    old(self)@[i]
                },
    {
        proof {
            use_type_invariant(&*self);
            lemma_inserted(self@, key@, item@);
        }
        let mut map = map_new();
        std::mem::swap(&mut map, &mut self.0);
        map_insert(&mut map, key, item);
        self.0 = map;
    }

    /// Whether the cache has an entry for the mint account `key`.
    pub fn contains(&self, key: &str) -> (known: bool)
        ensures
            known == has_key(self@, key@),
            known <==> exists|i: int| 0 <= i < self@.len() && (#[trigger] self@[i]).0 == key@,
    {
        let known = map_contains_key(&self.0, key);
        proof {
            let entries = self@;
            if known {
                let i = choose|i: int| 0 <= i < entries.len() && (#[trigger] entries[i]).0 == key@;
                assert(self@[i].0 == key@);
            }
        }
        known
    }

    /// Marks the mint account `key` as decoded.
    pub fn mark_successful(&mut self, key: &str)
        requires
            has_key(old(self)@, key@),
        ensures
            final(self)@ == marked(old(self)@, key@),
            final(self)@.len() == old(self)@.len(),
            forall|i: int|
                0 <= i < old(self)@.len() ==> {
                    &&& (#[trigger] final(self)@[i]).0 == old(self)@[i].0
                    &&& final(self)@[i].1.error == old(self)@[i].1.error
                    &&& final(self)@[i].1.successful == (old(self)@[i].1.successful
                        || old(self)@[i].0 == key@)
                },
    {
        proof {
            use_type_invariant(&*self);
            lemma_same_keys(self@, marked(self@, key@));
        }
        let mut map = map_new();
        std::mem::swap(&mut map, &mut self.0);
        let ghost before = map_entries(map);
        match map_get_mut(&mut map, key) {
            Some(item) => {
                item.successful = true;
            },
            None => {},
        }
        assert(map_entries(map) =~= marked(before, key@));
        self.0 = map;
    }

    /// Enters the errors of failed decodes: each mint account that one of them is about becomes
    /// unsuccessful and holds the message of the last of these.
    pub fn update_errors(&mut self, errors: Vec<Result<Metadata, DecodeError>>)
        requires
            forall|i: int| 0 <= i < errors@.len() ==> (#[trigger] errors@[i]) is Err,
            forall|i: int|
                0 <= i < errors@.len() ==> has_key(
                    old(self)@,
                    (#[trigger] errors@[i])->Err_0@.account(),
                ),
        ensures
            final(self)@ == with_errors(old(self)@, failures(errors@)),
            final(self)@.len() == old(self)@.len(),
            forall|i: int, q: int|
                0 <= i < old(self)@.len() && 0 <= q < errors@.len() && (
                #[trigger] errors@[q])->Err_0@.account() == old(self)@[i].0 && (forall|r: int|
                    q < r < errors@.len() ==> (#[trigger] errors@[r])->Err_0@.account()
                        != old(self)@[i].0) ==> {
                    &&& (#[trigger] final(self)@[i]).0 == old(self)@[i].0
                    &&& !final(self)@[i].1.successful
                    &&& final(self)@[i].1.error == Some(errors@[q]->Err_0@.message())
                },
            forall|i: int|
                0 <= i < old(self)@.len() && (forall|q: int|
                    0 <= q < errors@.len() ==> (#[trigger] errors@[q])->Err_0@.account()
                        != old(self)@[i].0) ==> #[trigger] final(self)@[i] == old(self)@[i],
    {
        let ghost before = self@;
        let ghost failed = failures(errors@);
        proof {
            use_type_invariant(&*self);
        }
        let mut map = map_new();
        std::mem::swap(&mut map, &mut self.0);
        assert(with_errors(before, failed.take(0)) =~= before);
        for i in 0..errors.len()
            invariant
                failed == failures(errors@),
                forall|j: int|
                    0 <= j < errors@.len() ==> has_key(
                        before,
                        (#[trigger] errors@[j])->Err_0@.account(),
                    ),
                forall|j: int| 0 <= j < errors@.len() ==> (#[trigger] errors@[j]) is Err,
                map_entries(map) == with_errors(before, failed.take(i as int)),
        {
            if let Err(error) = &errors[i] {
                proof {
                    assert(failed.take(i + 1).drop_last() =~= failed.take(i as int));
                    assert(failed.take(i + 1).last() == error@);
                    lemma_with_one_more_error(before, failed.take(i + 1));
                    lemma_same_keys(before, map_entries(map));
                    assert(has_key(before, errors@[i as int]->Err_0@.account()));
                }
                let item = CacheItem { successful: false, error: Some(error.message()) };
                match map_get_mut(&mut map, error.account().as_str()) {
                    Some(place) => {
                        *place = item;
                    },
                    None => {},
                }
            }
        }
        proof {
            assert(failed.take(errors@.len() as int) =~= failed);
            lemma_same_keys(before, map_entries(map));
            let after = map_entries(map);
            lemma_errors_entered(before, failed);
            assert forall|i: int, q: int|
                0 <= i < before.len() && 0 <= q < errors@.len() && (
                #[trigger] errors@[q])->Err_0@.account() == before[i].0 && (forall|r: int|
                    q < r < errors@.len() ==> (#[trigger] errors@[r])->Err_0@.account()
                        != before[i].0) implies {
                &&& (#[trigger] after[i]).0 == before[i].0
                &&& !after[i].1.successful
                &&& after[i].1.error == Some(errors@[q]->Err_0@.message())
            } by {
                assert(failed[q] == errors@[q]->Err_0@);
                assert forall|r: int| q < r < failed.len() implies (#[trigger] failed[r]).account()
                    != before[i].0 by {
                    assert(failed[r] == errors@[r]->Err_0@);
                }
            }
            assert forall|i: int|
                0 <= i < before.len() && (forall|q: int|
                    0 <= q < errors@.len() ==> (#[trigger] errors@[q])->Err_0@.account()
                        != before[i].0) implies #[trigger] after[i] == before[i] by {
                assert forall|q: int| 0 <= q < failed.len() implies (#[trigger] failed[q]).account()
                    != before[i].0 by {
                    assert(failed[q] == errors@[q]->Err_0@);
                }
            }
        }
        self.0 = map;
    }

    /// The mint accounts that are not decoded, in their order.
    pub fn remaining(&self) -> (mints: Vec<String>)
        ensures
            texts(mints@) == remaining_keys(self@),
            distinct_keys(self@),
            mints@.map_values(|mint: String| mint@) == self@.filter(
                |entry: (Seq<char>, ItemView)| !entry.1.successful,
            ).map_values(|entry: (Seq<char>, ItemView)| entry.0),
    {
        proof {
            use_type_invariant(self);
        }
        let entries = map_iter(&self.0);
        let mut mints: Vec<String> = Vec::new();
        proof {
            reveal(Seq::filter);
        }
        for i in 0..entries.len()
            invariant
                ref_views(entries@) == self@,
                texts(mints@) =~= remaining_keys(self@.take(i as int)),
        {
            let ghost before = mints@;
            proof {
                lemma_filter_step(self@, i as int);
            }
            let (key, item) = entries[i];
            assert(self@[i as int] == (key@, item@));
            if !item.successful {
                mints.push(key.clone());
                assert(texts(mints@) =~= texts(before).push(key@));
            }
        }
        assert(self@.take(entries@.len() as int) =~= self@);
        mints
    }

    /// The entries that are written to the cache file: all of them, in their order.
    pub fn write(self) -> (entries: Vec<(String, CacheItem)>)
        ensures
            entry_views(entries@) == self@,
            distinct_keys(entry_views(entries@)),
            entries@.len() == self@.len(),
            forall|i: int|
                0 <= i < entries@.len() ==> {
                    &&& (#[trigger] entries@[i]).0@ == self@[i].0
                    &&& entries@[i].1.successful == self@[i].1.successful
                    &&& match (entries@[i].1.error, self@[i].1.error) {
                        (Some(text), Some(message)) => text@ == message,
                        (None, None) => true,
                        _ => false,
                    }
                },
    {
        proof {
            use_type_invariant(&self);
        }
        let all = map_iter(&self.0);
        let mut entries: Vec<(String, CacheItem)> = Vec::new();
        for i in 0..all.len()
            invariant
                ref_views(all@) == self@,
                entry_views(entries@) =~= self@.take(i as int),
        {
            let ghost before = entries@;
            let (key, item) = all[i];
            assert(self@[i as int] == (key@, item@));
            entries.push((key.clone(), copy_item(item)));
            assert(entry_views(entries@) =~= entry_views(before).push((key@, item@)));
        }
        assert(self@.take(all@.len() as int) =~= self@);
        assert forall|i: int| 0 <= i < entries@.len() implies (
        #[trigger] entries@[i]).0@ == self@[i].0 && entries@[i].1@ == self@[i].1 by {
            assert(entry_views(entries@)[i] == self@[i]);
        }
        entries
    }

    /// The entries that are written to the cache file when decodes failed: those that are not
    /// decoded, in their order.
    pub fn write_errors(self) -> (entries: Vec<(String, CacheItem)>)
        ensures
            entry_views(entries@) == failed_entries(self@),
            distinct_keys(entry_views(entries@)),
            entries@.map_values(|entry: (String, CacheItem)| (entry.0@, entry.1@)) == self@.filter(
                |entry: (Seq<char>, ItemView)| !entry.1.successful,
            ),
            forall|i: int| 0 <= i < entries@.len() ==> !(#[trigger] entries@[i]).1.successful,
    {
        proof {
            use_type_invariant(&self);
            reveal(Seq::filter);
        }
        let all = map_iter(&self.0);
        let mut entries: Vec<(String, CacheItem)> = Vec::new();
        for i in 0..all.len()
            invariant
                ref_views(all@) == self@,
                entry_views(entries@) =~= failed_entries(self@.take(i as int)),
        {
            let ghost before = entries@;
            proof {
                lemma_filter_step(self@, i as int);
            }
            let (key, item) = all[i];
            assert(self@[i as int] == (key@, item@));
            if !item.successful {
                entries.push((key.clone(), copy_item(item)));
                assert(entry_views(entries@) =~= entry_views(before).push((key@, item@)));
            }
        }
        assert(self@.take(all@.len() as int) =~= self@);
        proof {
            lemma_failed_entries(self@);
            let failed = failed_entries(self@);
            assert forall|i: int| 0 <= i < entries@.len() implies !(
            #[trigger] entries@[i]).1.successful by {
                assert(entry_views(entries@)[i] == failed[i]);
                assert(failed.contains(failed[i]));
            }
        }
        entries
    }
}

} // verus!
