//! The merged listing of installed and obtainable toolchains.
//!
//! The listing is one ordered mapping from keys to optional paths. An
//! installed toolchain has a path; an obtainable one has none, and is
//! listed only where no installed toolchain has its key. Installed entries
//! come first; each group is in key order.

use vstd::prelude::*;

use crate::key_order::{key_precedes, lemma_key_order_total, lemma_key_order_transitive};
use crate::version_key::{KeyModel, VersionKey};

verus! {

/// A toolchain that is installed: a key bound to the path of its target.
#[derive(Debug)]
pub struct RegisteredToolchain {
    pub key: VersionKey,
    pub path: String,
}

/// One line of the listing: a key, and its path where it is installed.
#[derive(Debug)]
pub struct ListEntry {
    pub key: VersionKey,
    pub path: Option<String>,
}

/// The mathematical value of a [`ListEntry`].
pub struct EntryModel {
    pub key: KeyModel,
    pub path: Option<Seq<char>>,
}

impl View for ListEntry {
    type V = EntryModel;

    open spec fn view(&self) -> EntryModel {
        EntryModel {
            key: self.key@,
            path: match self.path {
                Some(p) => Some(p@),
                None => None,
            },
        }
    }
}

/// What a listing shows: for each key that is listed, its path if it is
/// installed.
pub type Catalog = Map<KeyModel, Option<Seq<char>>>;

/// Whether entry `a` is listed before entry `b`: installed before
/// obtainable, and in key order within each group.
pub open spec fn entry_precedes(a: EntryModel, b: EntryModel) -> bool {
    (a.path is Some && b.path is None) || ((a.path is Some) == (b.path is Some) && key_precedes(
        a.key,
        b.key,
    ))
}

/// The installed toolchains as a mapping; of two with one key the later
/// one counts.
pub open spec fn installed_map(installed: Seq<RegisteredToolchain>) -> Map<KeyModel, Seq<char>>
    decreases installed.len(),
{
    if installed.len() == 0 {
        Map::empty()
    } else {
        installed_map(installed.drop_last()).insert(
            installed.last().key@,
            installed.last().path@,
        )
    }
}

/// The keys that the catalog of obtainable toolchains names.
pub open spec fn obtainable_set(obtainable: Seq<VersionKey>) -> Set<KeyModel> {
    Set::new(|k: KeyModel| exists|i: int| 0 <= i < obtainable.len() && obtainable[i]@ == k)
}

/// The merge of installed and obtainable toolchains: every installed key
/// with its path, and every other obtainable key with none.
pub open spec fn merged(installed: Map<KeyModel, Seq<char>>, obtainable: Set<KeyModel>) -> Catalog {
    Map::new(
        |k: KeyModel| installed.contains_key(k) || obtainable.contains(k),
        |k: KeyModel|
            if installed.contains_key(k) {
                Some(installed[k])
            } else {
                None
            },
    )
}

/// The mathematical values of the entries, in order.
pub open spec fn models(entries: Seq<ListEntry>) -> Seq<EntryModel> {
    entries.map_values(|e: ListEntry| e@)
}

/// Whether the entries are in listing order, each strictly before the next.
pub open spec fn sorted(entries: Seq<EntryModel>) -> bool {
    forall|i: int, j: int| 0 <= i < j < entries.len() ==> entry_precedes(entries[i], entries[j])
}

/// Whether the entries show exactly what `catalog` holds.
pub open spec fn shows(entries: Seq<EntryModel>, catalog: Catalog) -> bool {
    &&& forall|i: int|
        0 <= i < entries.len() ==> catalog.contains_key(#[trigger] entries[i].key)
            && catalog[entries[i].key] == entries[i].path
    &&& forall|k: KeyModel|
        catalog.contains_key(k) ==> exists|i: int|
            0 <= i < entries.len() && #[trigger] entries[i].key == k
}

/// Whether the entries are the listing of `catalog`.
pub open spec fn is_listing_of(entries: Seq<EntryModel>, catalog: Catalog) -> bool {
    sorted(entries) && shows(entries, catalog)
}

/// Of two entries with different keys exactly one is listed before the
/// other.
pub proof fn lemma_entry_order_total(a: EntryModel, b: EntryModel)
    ensures
        a.key != b.key ==> (entry_precedes(a, b) <==> !entry_precedes(b, a)),
        !entry_precedes(a, a),
{
    lemma_key_order_total(a.key, b.key);
    lemma_key_order_total(a.key, a.key);
}

/// The listing order is transitive.
pub proof fn lemma_entry_order_transitive(a: EntryModel, b: EntryModel, c: EntryModel)
    requires
        entry_precedes(a, b),
        entry_precedes(b, c),
    ensures
        entry_precedes(a, c),
{
    if key_precedes(a.key, b.key) && key_precedes(b.key, c.key) {
        lemma_key_order_transitive(a.key, b.key, c.key);
    }
}

/// In a listing no two entries have one key.
pub proof fn lemma_distinct_keys(entries: Seq<EntryModel>, catalog: Catalog, i: int, j: int)
    requires
        is_listing_of(entries, catalog),
        0 <= i < entries.len(),
        0 <= j < entries.len(),
        i != j,
    ensures
        entries[i].key != entries[j].key,
{
    assert(catalog.contains_key(entries[i].key));
    assert(catalog.contains_key(entries[j].key));
    lemma_key_order_total(entries[i].key, entries[j].key);
    if i < j {
        assert(entry_precedes(entries[i], entries[j]));
    } else {
        assert(entry_precedes(entries[j], entries[i]));
    }
}

/// A catalog has at most one listing.
pub proof fn law_listing_unique(a: Seq<EntryModel>, b: Seq<EntryModel>, catalog: Catalog)
    requires
        is_listing_of(a, catalog),
        is_listing_of(b, catalog),
    ensures
        a == b,
    decreases a.len(),
{
    if a.len() == 0 {
        if b.len() > 0 {
            assert(catalog.contains_key(b[0].key));
        }
        assert(a =~= b);
    } else {
        let x = a.last();
        assert(catalog.contains_key(a[a.len() - 1].key));
        let j = choose|j: int| 0 <= j < b.len() && #[trigger] b[j].key == x.key;
        let y = b.last();
        assert(catalog.contains_key(b[b.len() - 1].key));
        let i = choose|i: int| 0 <= i < a.len() && #[trigger] a[i].key == y.key;
        assert(catalog.contains_key(b[j].key));
        assert(catalog.contains_key(a[i].key));
        assert(a[i] == y && b[j] == x);
        lemma_entry_order_total(x, x);
        if i < a.len() - 1 {
            assert(entry_precedes(a[i], x));
            if j < b.len() - 1 {
                assert(entry_precedes(b[j], y));
                lemma_entry_order_transitive(x, y, x);
            }
        }
        assert(x == y);
        let rest = catalog.remove(x.key);
        let a0 = a.drop_last();
        let b0 = b.drop_last();
        assert forall|k: int| 0 <= k < a0.len() implies rest.contains_key(#[trigger] a0[k].key)
            && rest[a0[k].key] == a0[k].path by {
            assert(catalog.contains_key(a[k].key));
            lemma_distinct_keys(a, catalog, k, a.len() - 1);
        }
        assert forall|k: int| 0 <= k < b0.len() implies rest.contains_key(#[trigger] b0[k].key)
            && rest[b0[k].key] == b0[k].path by {
            assert(catalog.contains_key(b[k].key));
            lemma_distinct_keys(b, catalog, k, b.len() - 1);
        }
        assert forall|k: KeyModel| rest.contains_key(k) implies (exists|n: int|
            0 <= n < a0.len() && #[trigger] a0[n].key == k) && (exists|n: int|
            0 <= n < b0.len() && #[trigger] b0[n].key == k) by {
            let n = choose|n: int| 0 <= n < a.len() && #[trigger] a[n].key == k;
            assert(a0[n].key == k);
            let m = choose|m: int| 0 <= m < b.len() && #[trigger] b[m].key == k;
            assert(b0[m].key == k);
        }
        assert(sorted(a0)) by {
            assert forall|p: int, q: int| 0 <= p < q < a0.len() implies entry_precedes(
                a0[p],
                a0[q],
            ) by {
                assert(entry_precedes(a[p], a[q]));
            }
        }
        assert(sorted(b0)) by {
            assert forall|p: int, q: int| 0 <= p < q < b0.len() implies entry_precedes(
                b0[p],
                b0[q],
            ) by {
                assert(entry_precedes(b[p], b[q]));
            }
        }
        law_listing_unique(a0, b0, rest);
        assert(a =~= a0.push(x));
        assert(b =~= b0.push(y));
    }
}

/// The listing of `catalog`: its entries in listing order.
pub open spec fn listing_of(catalog: Catalog) -> Seq<EntryModel> {
    choose|entries: Seq<EntryModel>| is_listing_of(entries, catalog)
}

/// Entries that are a listing of `catalog` are the listing of `catalog`.
pub proof fn lemma_listing_of(entries: Seq<EntryModel>, catalog: Catalog)
    requires
        is_listing_of(entries, catalog),
    ensures
        entries == listing_of(catalog),
{
    law_listing_unique(entries, listing_of(catalog), catalog);
}

/// Whether `a` is listed before `b`.
pub fn entry_before(a: &ListEntry, b: &ListEntry) -> (r: bool)
    ensures
        r == entry_precedes(a@, b@),
{
    if a.path.is_some() != b.path.is_some() {
        a.path.is_some()
    } else {
        a.key.precedes(&b.key)
    }
}

/// The position of the entry with `key`, if there is one.
fn find_key(entries: &Vec<ListEntry>, key: &VersionKey) -> (r: Option<usize>)
    ensures
        match r {
            Some(i) => i < entries.len() && entries[i as int]@.key == key@,
            None => forall|i: int| 0 <= i < entries.len() ==> entries[i]@.key != key@,
        },
{
    let mut i: usize = 0;
    while i < entries.len()
        invariant
            i <= entries.len(),
            forall|j: int| 0 <= j < i ==> entries[j]@.key != key@,
        decreases entries.len() - i,
    {
        if entries[i].key == *key {
            return Some(i);
        }
        i += 1;
    }
    None
}

/// Puts `entry`, whose key is not listed yet, at its place in the order.
fn insert_sorted(entries: &mut Vec<ListEntry>, entry: ListEntry, Ghost(catalog): Ghost<Catalog>)
    requires
        is_listing_of(models(old(entries)@), catalog),
        !catalog.contains_key(entry@.key),
    ensures
        is_listing_of(models(final(entries)@), catalog.insert(entry@.key, entry@.path)),
{
    let mut p: usize = 0;
    while p < entries.len() && entry_before(&entries[p], &entry)
        invariant
            p <= entries.len(),
            forall|i: int| 0 <= i < p ==> entry_precedes(entries[i]@, entry@),
        decreases entries.len() - p,
    {
        p += 1;
    }
    let ghost before = models(entries@);
    let ghost e = entry@;
    entries.insert(p, entry);
    proof {
        let after = models(entries@);
        let next = catalog.insert(e.key, e.path);
        assert(after.len() == before.len() + 1);
        assert(after[p as int] == e);
        assert forall|i: int| 0 <= i < p implies after[i] == before[i] by {}
        assert forall|i: int| p < i < after.len() implies after[i] == before[i - 1] by {}
        assert forall|i: int| p <= i < before.len() implies entry_precedes(e, before[i]) by {
            assert(catalog.contains_key(before[p as int].key));
            lemma_entry_order_total(before[p as int], e);
            if i > p {
                lemma_entry_order_transitive(e, before[p as int], before[i]);
            }
        }
        assert forall|i: int, j: int| 0 <= i < j < after.len() implies entry_precedes(
            after[i],
            after[j],
        ) by {
            if i < p && j > p {
                assert(entry_precedes(before[i], before[j - 1]) || i == j - 1);
                if j - 1 == i {
                }
            }
        }
        assert forall|i: int| 0 <= i < after.len() implies next.contains_key(
            #[trigger] after[i].key,
        ) && next[after[i].key] == after[i].path by {
            if i < p {
                assert(catalog.contains_key(before[i].key));
            } else if i > p {
                assert(catalog.contains_key(before[i - 1].key));
            }
        }
        assert forall|k: KeyModel| next.contains_key(k) implies exists|i: int|
            0 <= i < after.len() && #[trigger] after[i].key == k by {
            if k == e.key {
                assert(after[p as int].key == k);
            } else {
                let i = choose|i: int| 0 <= i < before.len() && #[trigger] before[i].key == k;
                if i < p {
                    assert(after[i].key == k);
                } else {
                    assert(after[i + 1].key == k);
                }
            }
        }
    }
}

/// Records an installed toolchain: a new entry at its place in the order,
/// or a new path for the entry that already has its key.
fn record_installed(
    entries: &mut Vec<ListEntry>,
    toolchain: &RegisteredToolchain,
    Ghost(catalog): Ghost<Catalog>,
)
    requires
        is_listing_of(models(old(entries)@), catalog),
        forall|k: KeyModel| catalog.contains_key(k) ==> catalog[k] is Some,
    ensures
        is_listing_of(models(final(entries)@), catalog.insert(toolchain.key@, Some(toolchain.path@))),
{
    let entry = ListEntry { key: toolchain.key.clone(), path: Some(toolchain.path.clone()) };
    match find_key(entries, &toolchain.key) {
        Some(i) => {
            let ghost before = models(entries@);
            let ghost e = entry@;
            entries.set(i, entry);
            proof {
                let after = models(entries@);
                let next = catalog.insert(e.key, e.path);
                assert(catalog.contains_key(before[i as int].key));
                assert forall|a: int, b: int| 0 <= a < b < after.len() implies entry_precedes(
                    after[a],
                    after[b],
                ) by {
                    assert(entry_precedes(before[a], before[b]));
                    assert(catalog.contains_key(before[a].key));
                    assert(catalog.contains_key(before[b].key));
                }
                assert forall|a: int| 0 <= a < after.len() implies next.contains_key(
                    #[trigger] after[a].key,
                ) && next[after[a].key] == after[a].path by {
                    assert(catalog.contains_key(before[a].key));
                    if a != i {
                        lemma_distinct_keys(before, catalog, a, i as int);
                    }
                }
                assert forall|k: KeyModel| next.contains_key(k) implies exists|a: int|
                    0 <= a < after.len() && #[trigger] after[a].key == k by {
                    if k == e.key {
                        assert(after[i as int].key == k);
                    } else {
                        let a = choose|a: int|
                            0 <= a < before.len() && #[trigger] before[a].key == k;
                        assert(after[a].key == k);
                    }
                }
            }
        },
        None => {
            proof {
                if catalog.contains_key(toolchain.key@) {
                    let a = choose|a: int|
                        0 <= a < entries.len() && #[trigger] models(entries@)[a].key
                            == toolchain.key@;
                }
            }
            insert_sorted(entries, entry, Ghost(catalog));
        },
    }
}

/// Offers an obtainable key: a new entry without a path, unless the key is
/// listed already.
fn offer_obtainable(entries: &mut Vec<ListEntry>, key: &VersionKey, Ghost(catalog): Ghost<Catalog>)
    requires
        is_listing_of(models(old(entries)@), catalog),
    ensures
        is_listing_of(
            models(final(entries)@),
            if catalog.contains_key(key@) {
                catalog
            } else {
                catalog.insert(key@, None)
            },
        ),
{
    match find_key(entries, key) {
        Some(i) => {
            assert(catalog.contains_key(models(entries@)[i as int].key));
        },
        None => {
            proof {
                if catalog.contains_key(key@) {
                    let a = choose|a: int|
                        0 <= a < entries.len() && #[trigger] models(entries@)[a].key == key@;
                }
            }
            insert_sorted(entries, ListEntry { key: key.clone(), path: None }, Ghost(catalog));
        },
    }
}

/// What the listing of `installed` and `obtainable` shows; the obtainable
/// toolchains count only where `include_obtainable` is set.
pub open spec fn listing_catalog(
    installed: Seq<RegisteredToolchain>,
    obtainable: Seq<VersionKey>,
    include_obtainable: bool,
) -> Catalog {
    merged(
        installed_map(installed),
        if include_obtainable {
            obtainable_set(obtainable)
        } else {
            Set::empty()
        },
    )
}

/// Lists the installed toolchains and, where `include_obtainable` is set,
/// the obtainable ones whose key is not installed. Every key is listed
/// once; installed entries come first, each group in key order.
pub fn merge_listing(
    installed: &Vec<RegisteredToolchain>,
    obtainable: &Vec<VersionKey>,
    include_obtainable: bool,
) -> (entries: Vec<ListEntry>)
    ensures
        is_listing_of(models(entries@), listing_catalog(installed@, obtainable@, include_obtainable)),
        models(entries@) == listing_of(
            listing_catalog(installed@, obtainable@, include_obtainable),
        ),
{
    let mut entries: Vec<ListEntry> = Vec::new();
    let ghost no_keys: Set<KeyModel> = Set::empty();
    assert(merged(installed_map(installed@.subrange(0, 0)), no_keys) =~= Map::empty());
    let mut i: usize = 0;
    while i < installed.len()
        invariant
            i <= installed.len(),
            no_keys == Set::<KeyModel>::empty(),
            is_listing_of(models(entries@), merged(installed_map(installed@.subrange(0, i as int)), no_keys)),
        decreases installed.len() - i,
    {
        let ghost before = installed_map(installed@.subrange(0, i as int));
        record_installed(&mut entries, &installed[i], Ghost(merged(before, no_keys)));
        proof {
            let upto = installed@.subrange(0, i + 1);
            assert(upto.drop_last() =~= installed@.subrange(0, i as int));
            assert(upto.last() == installed[i as int]);
            assert(merged(installed_map(upto), no_keys) =~= merged(before, no_keys).insert(
                installed[i as int].key@,
                Some(installed[i as int].path@),
            ));
        }
        i += 1;
    }
    assert(installed@.subrange(0, i as int) =~= installed@);
    let ghost homes = installed_map(installed@);
    if include_obtainable {
        let mut j: usize = 0;
        assert(obtainable_set(obtainable@.subrange(0, 0)) =~= no_keys);
        while j < obtainable.len()
            invariant
                j <= obtainable.len(),
                homes == installed_map(installed@),
                is_listing_of(
                    models(entries@),
                    merged(homes, obtainable_set(obtainable@.subrange(0, j as int))),
                ),
            decreases obtainable.len() - j,
        {
            let ghost seen = obtainable_set(obtainable@.subrange(0, j as int));
            offer_obtainable(&mut entries, &obtainable[j], Ghost(merged(homes, seen)));
            proof {
                let key = obtainable[j as int]@;
                let upto = obtainable@.subrange(0, j + 1);
                assert(upto[j as int]@ == key);
                assert forall|k: KeyModel| obtainable_set(upto).contains(k) <==> (seen.contains(k)
                    || k == key) by {
                    if seen.contains(k) {
                        let a = choose|a: int|
                            0 <= a < j && obtainable@.subrange(0, j as int)[a]@ == k;
                        assert(upto[a]@ == k);
                    }
                    if obtainable_set(upto).contains(k) && k != key {
                        let a = choose|a: int| 0 <= a < upto.len() && upto[a]@ == k;
                        assert(obtainable@.subrange(0, j as int)[a]@ == k);
                    }
                }
                let now = merged(homes, seen);
                assert(merged(homes, obtainable_set(upto)) =~= if now.contains_key(key) {
                    now
                } else {
                    now.insert(key, None)
                });
            }
            j += 1;
        }
        assert(obtainable@.subrange(0, j as int) =~= obtainable@);
    }
    proof {
        lemma_listing_of(
            models(entries@),
            listing_catalog(installed@, obtainable@, include_obtainable),
        );
    }
    entries
}

/// In the listing of installed and obtainable toolchains no key is listed
/// twice, an entry has a path exactly where its key is installed, and an
/// entry without a path is obtainable and asked for.
pub proof fn law_listing_keys(
    entries: Seq<EntryModel>,
    installed: Seq<RegisteredToolchain>,
    obtainable: Seq<VersionKey>,
    include_obtainable: bool,
)
    requires
        is_listing_of(entries, listing_catalog(installed, obtainable, include_obtainable)),
    ensures
        forall|i: int, j: int|
            0 <= i < entries.len() && 0 <= j < entries.len() && i != j ==> entries[i].key
                != entries[j].key,
        forall|i: int|
            0 <= i < entries.len() ==> (#[trigger] entries[i].path is Some <==> installed_map(
                installed,
            ).contains_key(entries[i].key)),
        forall|i: int|
            0 <= i < entries.len() && #[trigger] entries[i].path is None ==> include_obtainable
                && obtainable_set(obtainable).contains(entries[i].key),
{
    let catalog = listing_catalog(installed, obtainable, include_obtainable);
    assert forall|i: int, j: int|
        0 <= i < entries.len() && 0 <= j < entries.len() && i != j implies entries[i].key
        != entries[j].key by {
        lemma_distinct_keys(entries, catalog, i, j);
    }
    assert forall|i: int| 0 <= i < entries.len() implies (#[trigger] entries[i].path is Some
        <==> installed_map(installed).contains_key(entries[i].key)) by {
        assert(catalog.contains_key(entries[i].key));
    }
    assert forall|i: int| 0 <= i < entries.len() && #[trigger] entries[i].path is None implies
        include_obtainable && obtainable_set(obtainable).contains(entries[i].key) by {
        assert(catalog.contains_key(entries[i].key));
    }
}

} // verus!
