//! An append-only cache of the objects of a file, keyed by normalized path
//! and by a stable handle.

use vstd::prelude::*;
use indexmap::IndexSet;
use crate::index::{index_keys, insert_key, key_at, key_index, new_key_set};
use crate::path::{normalized_spec, H5Path};

verus! {

/// Stable handle of a cache entry: its place in insertion order.
#[derive(Clone, Copy, Debug, PartialEq, Eq, Structural, Hash)]
pub struct CacheEntryId(pub usize);

/// A group, whose children are `None` until they have been fetched, or a
/// leaf.
#[derive(Debug)]
pub enum CacheEntry<V> {
    Group { value: V, children: Option<Vec<CacheEntryId>> },
    Leaf { value: V },
}

/// Why children could not be added.
#[derive(Clone, Copy, Debug, PartialEq, Eq, Structural)]
pub enum CacheError {
    /// The parent is not in the cache.
    ParentNotFound,
    /// The parent is a leaf.
    NotAGroup,
}

impl<V> CacheEntry<V> {
    pub open spec fn is_group(&self) -> bool {
        self is Group
    }

    pub open spec fn value_spec(&self) -> V {
        match self {
            CacheEntry::Group { value, .. } => *value,
            CacheEntry::Leaf { value } => *value,
        }
    }

    /// The handles of the children: `None` for a leaf and for a group whose
    /// children have not been fetched.
    pub open spec fn children_spec(&self) -> Option<Seq<CacheEntryId>> {
        match self {
            CacheEntry::Group { children: Some(c), .. } => Some(c@),
            _ => None,
        }
    }

    pub fn value(&self) -> (r: &V)
        ensures
            *r == self.value_spec(),
    {
        match self {
            CacheEntry::Group { value, .. } => value,
            CacheEntry::Leaf { value } => value,
        }
    }

    pub fn is_leaf(&self) -> (r: bool)
        ensures
            r == !self.is_group(),
    {
        match self {
            CacheEntry::Leaf { .. } => true,
            CacheEntry::Group { .. } => false,
        }
    }

    /// The handles of the children, if they have been fetched.
    pub fn children(&self) -> (r: Option<&Vec<CacheEntryId>>)
        ensures
            match r {
                Some(c) => self.children_spec() == Some(c@),
                None => self.children_spec() is None,
            },
    {
        match self {
            CacheEntry::Group { children: Some(c), .. } => Some(c),
            _ => None,
        }
    }

    /// Appends `children` to a group's children, starting the list where
    /// there was none; a leaf takes no children.
    pub fn insert_children(&mut self, children: Vec<CacheEntryId>) -> (r: Result<(), CacheError>)
        ensures
            r is Err <==> !old(self).is_group(),
            r is Err ==> *final(self) == *old(self) && r == Err::<(), CacheError>(
                CacheError::NotAGroup,
            ),
            r is Ok ==> final(self).is_group(),
            r is Ok ==> final(self).value_spec() == old(self).value_spec(),
            r is Ok ==> final(self).children_spec() == Some(
                match old(self).children_spec() {
                    Some(c) => c,
                    None => Seq::empty(),
                } + children@,
            ),
    {
        match self {
            CacheEntry::Leaf { .. } => Err(CacheError::NotAGroup),
            CacheEntry::Group { children: c, .. } => {
                match c {
                    Some(list) => {
                        let mut extra = children;
                        list.append(&mut extra);
                    },
                    None => {
                        *c = Some(children);
                    },
                }
                Ok(())
            },
        }
    }
}

/// The entry that a child item makes: a group with unfetched children, or
/// a leaf.
pub open spec fn child_entry<V>(value: V, is_group: bool) -> CacheEntry<V> {
    if is_group {
        CacheEntry::Group { value, children: None }
    } else {
        CacheEntry::Leaf { value }
    }
}

/// Keys and entries after `e` is stored under `k`: an existing key keeps its
/// index and gets the new entry, a new key goes to the end. The last part
/// is the index used.
pub open spec fn put<V>(keys: Seq<Seq<char>>, entries: Seq<CacheEntry<V>>, k: Seq<char>, e: CacheEntry<V>) -> (Seq<Seq<char>>, Seq<CacheEntry<V>>, int) {
    if keys.contains(k) {
        (keys, entries.update(keys.index_of(k), e), keys.index_of(k))
    } else {
        (keys.push(k), entries.push(e), keys.len() as int)
    }
}

/// Keys and entries after each child is stored in turn, with the indices
/// used.
pub open spec fn put_children<V>(keys: Seq<Seq<char>>, entries: Seq<CacheEntry<V>>, items: Seq<(H5Path, V, bool)>) -> (Seq<Seq<char>>, Seq<CacheEntry<V>>, Seq<CacheEntryId>)
    decreases items.len(),
{
    if items.len() == 0 {
        (keys, entries, Seq::empty())
    } else {
        let prev = put_children(keys, entries, items.drop_last());
        let item = items.last();
        let next = put(prev.0, prev.1, normalized_spec(item.0@), child_entry(item.1, item.2));
        (next.0, next.1, prev.2.push(CacheEntryId(next.2 as usize)))
    }
}

/// Cache of the objects of a file, in the order in which they were found.
pub struct FileCache<V> {
    keys: IndexSet<String>,
    entries: Vec<CacheEntry<V>>,
}

impl<V> FileCache<V> {
    /// The normalized paths, in insertion order; an entry's handle is its
    /// index here.
    pub closed spec fn keys(&self) -> Seq<Seq<char>> {
        index_keys(self.keys)
    }

    pub closed spec fn entries(&self) -> Seq<CacheEntry<V>> {
        self.entries@
    }

    /// One entry per key, keys distinct, and every child handle names an
    /// entry.
    pub open spec fn wf(&self) -> bool {
        &&& self.keys().len() == self.entries().len()
        &&& self.keys().no_duplicates()
        &&& forall|i: int| 0 <= i < self.entries().len() ==> children_within(#[trigger] self.entries()[i], self.entries().len())
    }

    /// Index of the entry for `p`, once normalized.
    pub open spec fn lookup(&self, p: Seq<char>) -> Option<int> {
        if self.keys().contains(normalized_spec(p)) {
            Some(self.keys().index_of(normalized_spec(p)))
        } else {
            None
        }
    }
}

/// Every child handle of `e` is below `n`.
pub open spec fn children_within<V>(e: CacheEntry<V>, n: nat) -> bool {
    match e.children_spec() {
        Some(c) => forall|k: int| 0 <= k < c.len() ==> (#[trigger] c[k]).0 < n,
        None => true,
    }
}

/// Keys and entries that fit together: one entry per key, distinct keys,
/// children that name entries.
pub open spec fn consistent<V>(keys: Seq<Seq<char>>, entries: Seq<CacheEntry<V>>) -> bool {
    &&& keys.len() == entries.len()
    &&& keys.no_duplicates()
    &&& forall|i: int| 0 <= i < entries.len() ==> children_within(#[trigger] entries[i], entries.len())
}

proof fn lemma_index_of_unique(keys: Seq<Seq<char>>, i: int)
    requires
        keys.no_duplicates(),
        0 <= i < keys.len(),
    ensures
        keys.contains(keys[i]),
        keys.index_of(keys[i]) == i,
{
    assert(keys[i] == keys[i]);
    let j = keys.index_of(keys[i]);
    assert(0 <= j < keys.len() && keys[j] == keys[i]);
}

proof fn lemma_put<V>(keys: Seq<Seq<char>>, entries: Seq<CacheEntry<V>>, k: Seq<char>, e: CacheEntry<V>)
    requires
        consistent(keys, entries),
        children_within(e, entries.len()),
    ensures
        consistent(put(keys, entries, k, e).0, put(keys, entries, k, e).1),
        keys.len() <= put(keys, entries, k, e).0.len(),
        forall|i: int| 0 <= i < keys.len() ==> put(keys, entries, k, e).0[i] == keys[i],
        0 <= put(keys, entries, k, e).2 < put(keys, entries, k, e).0.len(),
        put(keys, entries, k, e).0[put(keys, entries, k, e).2] == k,
        put(keys, entries, k, e).1[put(keys, entries, k, e).2] == e,
        forall|i: int| 0 <= i < entries.len() && i != put(keys, entries, k, e).2 ==> put(keys, entries, k, e).1[i] == entries[i],
{
    let r = put(keys, entries, k, e);
    if keys.contains(k) {
        let j = keys.index_of(k);
        assert(0 <= j < keys.len() && keys[j] == k);
        assert forall|i: int| 0 <= i < r.1.len() implies children_within(#[trigger] r.1[i], r.1.len()) by {
            if i != j {
                assert(r.1[i] == entries[i]);
            }
        }
    } else {
        assert forall|a: int, b: int| 0 <= a < r.0.len() && 0 <= b < r.0.len() && a != b implies r.0[a] != r.0[b] by {
            if a < keys.len() && b < keys.len() {
            } else if a == keys.len() {
                assert(r.0[b] == keys[b]);
            } else {
                assert(r.0[a] == keys[a]);
            }
        }
        assert forall|i: int| 0 <= i < r.1.len() implies children_within(#[trigger] r.1[i], r.1.len()) by {
            if i < entries.len() {
                assert(r.1[i] == entries[i]);
                assert(children_within(entries[i], entries.len()));
            }
        }
    }
}

proof fn lemma_put_children<V>(keys: Seq<Seq<char>>, entries: Seq<CacheEntry<V>>, items: Seq<(H5Path, V, bool)>)
    requires
        consistent(keys, entries),
    ensures
        consistent(put_children(keys, entries, items).0, put_children(keys, entries, items).1),
        keys.len() <= put_children(keys, entries, items).0.len(),
        forall|i: int| 0 <= i < keys.len() ==> put_children(keys, entries, items).0[i] == keys[i],
        put_children(keys, entries, items).2.len() == items.len(),
        forall|k: int| 0 <= k < items.len() ==> (#[trigger] put_children(keys, entries, items).2[k]).0 < put_children(keys, entries, items).0.len(),
    decreases items.len(),
{
    if items.len() > 0 {
        let prev = put_children(keys, entries, items.drop_last());
        lemma_put_children(keys, entries, items.drop_last());
        let item = items.last();
        lemma_put(prev.0, prev.1, normalized_spec(item.0@), child_entry(item.1, item.2));
        let r = put_children(keys, entries, items);
        assert forall|k: int| 0 <= k < items.len() implies (#[trigger] r.2[k]).0 < r.0.len() by {
            if k < items.len() - 1 {
                assert(r.2[k] == prev.2[k]);
            }
        }
    }
}

impl<V> Default for FileCache<V> {
    fn default() -> (r: Self)
        ensures
            r.wf(),
            r.keys() == Seq::<Seq<char>>::empty(),
            r.entries() == Seq::<CacheEntry<V>>::empty(),
    {
        FileCache::new()
    }
}

impl<V> FileCache<V> {
    pub fn new() -> (r: Self)
        ensures
            r.wf(),
            r.keys() == Seq::<Seq<char>>::empty(),
            r.entries() == Seq::<CacheEntry<V>>::empty(),
    {
        FileCache { keys: new_key_set(), entries: Vec::new() }
    }

    /// Number of entries.
    pub fn len(&self) -> (r: usize)
        requires
            self.wf(),
        ensures
            r == self.entries().len(),
    {
        self.entries.len()
    }

    /// Whether `key`, once normalized, has an entry.
    pub fn contains_key(&self, key: &H5Path) -> (r: bool)
        requires
            self.wf(),
        ensures
            r == self.lookup(key@) is Some,
    {
        self.index_of(key).is_some()
    }

    /// Index of the entry for `key`, once normalized.
    fn index_of(&self, key: &H5Path) -> (r: Option<usize>)
        requires
            self.wf(),
        ensures
            r is Some <==> self.lookup(key@) is Some,
            r is Some ==> r.unwrap() == self.lookup(key@).unwrap() && r.unwrap()
                < self.entries().len(),
    {
        let norm = key.normalized();
        let r = key_index(&self.keys, norm.as_raw());
        proof {
            if let Some(i) = r {
                lemma_index_of_unique(self.keys(), i as int);
            }
        }
        r
    }

    /// The entry for `key`, once normalized.
    pub fn get(&self, key: &H5Path) -> (r: Option<&CacheEntry<V>>)
        requires
            self.wf(),
        ensures
            r is Some <==> self.lookup(key@) is Some,
            r is Some ==> *r.unwrap() == self.entries()[self.lookup(key@).unwrap()],
    {
        match self.index_of(key) {
            Some(i) => Some(&self.entries[i]),
            None => None,
        }
    }

    /// The entry with handle `id`.
    pub fn get_by_id(&self, id: CacheEntryId) -> (r: Option<&CacheEntry<V>>)
        requires
            self.wf(),
        ensures
            if id.0 < self.entries().len() {
                r == Some(&self.entries()[id.0 as int])
            } else {
                r is None
            },
    {
        if id.0 < self.entries.len() {
            Some(&self.entries[id.0])
        } else {
            None
        }
    }

    /// The handle and entry for `key`, once normalized.
    pub fn get_with_id(&self, key: &H5Path) -> (r: Option<(CacheEntryId, &CacheEntry<V>)>)
        requires
            self.wf(),
        ensures
            r is Some <==> self.lookup(key@) is Some,
            r is Some ==> r.unwrap().0.0 == self.lookup(key@).unwrap(),
            r is Some ==> *r.unwrap().1 == self.entries()[self.lookup(key@).unwrap()],
    {
        match self.index_of(key) {
            Some(i) => Some((CacheEntryId(i), &self.entries[i])),
            None => None,
        }
    }

    /// The path of the entry with handle `id`.
    pub fn get_key(&self, id: CacheEntryId) -> (r: Option<H5Path>)
        requires
            self.wf(),
        ensures
            match r {
                Some(p) => id.0 < self.keys().len() && p@ == self.keys()[id.0 as int],
                None => id.0 >= self.keys().len(),
            },
    {
        match key_at(&self.keys, id.0) {
            Some(k) => Some(H5Path::from_str(k.as_str())),
            None => None,
        }
    }

    /// The path and entry with handle `id`.
    pub fn get_key_value(&self, id: CacheEntryId) -> (r: Option<(H5Path, &CacheEntry<V>)>)
        requires
            self.wf(),
        ensures
            match r {
                Some(kv) => {
                    &&& id.0 < self.keys().len()
                    &&& kv.0@ == self.keys()[id.0 as int]
                    &&& *kv.1 == self.entries()[id.0 as int]
                },
                None => id.0 >= self.keys().len(),
            },
    {
        match self.get_key(id) {
            Some(k) => Some((k, &self.entries[id.0])),
            None => None,
        }
    }

    /// Stores `entry` under `path`, normalized: a path already known keeps
    /// its handle and gets the new entry, a new one gets the next handle.
    pub fn insert_entry(&mut self, path: &H5Path, entry: CacheEntry<V>) -> (r: CacheEntryId)
        requires
            old(self).wf(),
            children_within(entry, old(self).entries().len()),
        ensures
            final(self).wf(),
            ({
                let p = put(old(self).keys(), old(self).entries(), normalized_spec(path@), entry);
                &&& final(self).keys() == p.0
                &&& final(self).entries() == p.1
                &&& r.0 == p.2
            }),
    {
        let ghost k = normalized_spec(path@);
        proof {
            lemma_put(self.keys(), self.entries(), k, entry);
        }
        let key = path.normalized().to_string();
        let (i, is_new) = insert_key(&mut self.keys, key);
        if is_new {
            self.entries.push(entry);
        } else {
            proof {
                lemma_index_of_unique(old(self).keys(), i as int);
            }
            self.entries.set(i, entry);
        }
        CacheEntryId(i)
    }

    /// Registers a group at `path`, its children not fetched yet.
    pub fn insert_group(&mut self, path: &H5Path, value: V) -> (r: CacheEntryId)
        requires
            old(self).wf(),
        ensures
            final(self).wf(),
            ({
                let p = put(
                    old(self).keys(),
                    old(self).entries(),
                    normalized_spec(path@),
                    child_entry(value, true),
                );
                &&& final(self).keys() == p.0
                &&& final(self).entries() == p.1
                &&& r.0 == p.2
            }),
            r.0 < final(self).entries().len(),
            final(self).lookup(path@) == Some(r.0 as int),
            final(self).entries()[r.0 as int].is_group(),
            final(self).entries()[r.0 as int].children_spec() is None,
    {
        proof {
            lemma_put(
                old(self).keys(),
                old(self).entries(),
                normalized_spec(path@),
                child_entry(value, true),
            );
        }
        let r = self.insert_entry(path, CacheEntry::Group { value, children: None });
        proof {
            lemma_index_of_unique(self.keys(), r.0 as int);
        }
        r
    }

    /// Registers a leaf at `path`.
    pub fn insert_leaf(&mut self, path: &H5Path, value: V) -> (r: CacheEntryId)
        requires
            old(self).wf(),
        ensures
            final(self).wf(),
            ({
                let p = put(
                    old(self).keys(),
                    old(self).entries(),
                    normalized_spec(path@),
                    child_entry(value, false),
                );
                &&& final(self).keys() == p.0
                &&& final(self).entries() == p.1
                &&& r.0 == p.2
            }),
    {
        self.insert_entry(path, CacheEntry::Leaf { value })
    }
}

/// What storing `items` as children of the entry at index `pi` leaves:
/// the children stored in turn, then their handles appended to the
/// parent's list where the parent is a group.
pub open spec fn children_stored<V>(
    old_keys: Seq<Seq<char>>,
    old_entries: Seq<CacheEntry<V>>,
    pi: int,
    items: Seq<(H5Path, V, bool)>,
    new_keys: Seq<Seq<char>>,
    new_entries: Seq<CacheEntry<V>>,
    r: Result<(), CacheError>,
) -> bool {
    let p = put_children(old_keys, old_entries, items);
    let parent = p.1[pi];
    &&& new_keys == p.0
    &&& new_entries.len() == p.1.len()
    &&& forall|i: int| 0 <= i < p.1.len() && i != pi ==> new_entries[i] == p.1[i]
    &&& if parent.is_group() {
        &&& r is Ok
        &&& new_entries[pi].is_group()
        &&& new_entries[pi].value_spec() == parent.value_spec()
        &&& new_entries[pi].children_spec() == Some(
            match parent.children_spec() {
                Some(c) => c,
                None => Seq::empty(),
            } + p.2,
        )
    } else {
        &&& r == Err::<(), CacheError>(CacheError::NotAGroup)
        &&& new_entries[pi] == parent
    }
}

impl<V> FileCache<V> {
    /// Adds `children` under the entry for `parent`, normalized; fails
    /// without a change when there is no such entry.
    pub fn insert_children(&mut self, parent: &H5Path, children: Vec<(H5Path, V, bool)>) -> (r:
        Result<(), CacheError>)
        requires
            old(self).wf(),
        ensures
            final(self).wf(),
            old(self).keys().is_prefix_of(final(self).keys()),
            old(self).lookup(parent@) is None ==> r == Err::<(), CacheError>(
                CacheError::ParentNotFound,
            ) && final(self).keys() == old(self).keys() && final(self).entries()
                == old(self).entries(),
            old(self).lookup(parent@) is Some ==> children_stored(
                old(self).keys(),
                old(self).entries(),
                old(self).lookup(parent@).unwrap(),
                children@,
                final(self).keys(),
                final(self).entries(),
                r,
            ),
    {
        match self.index_of(parent) {
            None => Err(CacheError::ParentNotFound),
            Some(pi) => self.insert_children_at(pi, children),
        }
    }

    /// Adds `children` under the entry with handle `parent`; fails without
    /// a change when there is no such entry.
    pub fn insert_children_by_id(&mut self, parent: CacheEntryId, children: Vec<(H5Path, V, bool)>) -> (r:
        Result<(), CacheError>)
        requires
            old(self).wf(),
        ensures
            final(self).wf(),
            old(self).keys().is_prefix_of(final(self).keys()),
            parent.0 >= old(self).entries().len() ==> r == Err::<(), CacheError>(
                CacheError::ParentNotFound,
            ) && final(self).keys() == old(self).keys() && final(self).entries()
                == old(self).entries(),
            parent.0 < old(self).entries().len() ==> children_stored(
                old(self).keys(),
                old(self).entries(),
                parent.0 as int,
                children@,
                final(self).keys(),
                final(self).entries(),
                r,
            ),
    {
        if parent.0 < self.entries.len() {
            self.insert_children_at(parent.0, children)
        } else {
            Err(CacheError::ParentNotFound)
        }
    }

    fn insert_children_at(&mut self, pi: usize, children: Vec<(H5Path, V, bool)>) -> (r: Result<
        (),
        CacheError,
    >)
        requires
            old(self).wf(),
            pi < old(self).entries().len(),
        ensures
            final(self).wf(),
            old(self).keys().is_prefix_of(final(self).keys()),
            children_stored(
                old(self).keys(),
                old(self).entries(),
                pi as int,
                children@,
                final(self).keys(),
                final(self).entries(),
                r,
            ),
    {
        let ghost items = children@;
        let ghost k0 = self.keys();
        let ghost e0 = self.entries();
        let mut rest = children;
        let mut ids: Vec<CacheEntryId> = Vec::new();
        let mut i: usize = 0;
        let n = rest.len();
        assert(items.subrange(0, 0) =~= Seq::<(H5Path, V, bool)>::empty());
        assert(rest@ =~= items.subrange(0, items.len() as int));
        while rest.len() > 0
            invariant
                self.wf(),
                i <= items.len(),
                n == items.len(),
                rest@ == items.subrange(i as int, items.len() as int),
                consistent(k0, e0),
                ({
                    let p = put_children(k0, e0, items.subrange(0, i as int));
                    &&& self.keys() == p.0
                    &&& self.entries() == p.1
                    &&& ids@ == p.2
                }),
            decreases rest.len(),
        {
            let ghost before = items.subrange(0, i as int);
            proof {
                lemma_put_children(k0, e0, before);
            }
            let (path, value, is_group) = rest.remove(0);
            assert(items[i as int] == (path, value, is_group));
            let id = if is_group {
                self.insert_group(&path, value)
            } else {
                self.insert_leaf(&path, value)
            };
            ids.push(id);
            i = i + 1;
            assert(items.subrange(0, i as int).drop_last() =~= before);
            assert(rest@ =~= items.subrange(i as int, items.len() as int));
        }
        assert(items.subrange(0, i as int) =~= items);
        proof {
            lemma_put_children(k0, e0, items);
            assert(ids@.len() == items.len());
        }
        let ghost mid = self.entries();
        let ghost idv = ids@;
        let r = self.entries[pi].insert_children(ids);
        proof {
            let p = put_children(k0, e0, items);
            assert(mid == p.1);
            assert(idv == p.2);
            assert(self.entries().len() == mid.len());
            assert(self.entries() == mid.update(pi as int, self.entries()[pi as int]));
            assert(children_stored(k0, e0, pi as int, items, self.keys(), self.entries(), r));
            assert forall|j: int| 0 <= j < self.entries().len() implies children_within(
                #[trigger] self.entries()[j],
                self.entries().len(),
            ) by {
                if j != pi {
                    assert(self.entries()[j] == mid[j]);
                    assert(children_within(mid[j], mid.len()));
                } else if r is Ok {
                    let c = self.entries()[j].children_spec().unwrap();
                    let oc = match mid[j].children_spec() {
                        Some(c) => c,
                        None => Seq::empty(),
                    };
                    assert forall|k: int| 0 <= k < c.len() implies (#[trigger] c[k]).0 < self.entries().len() by {
                        if k < oc.len() {
                            assert(c[k] == oc[k]);
                        } else {
                            assert(c[k] == ids@[k - oc.len()]);
                        }
                    }
                }
            }
        }
        r
    }
}

} // verus!
