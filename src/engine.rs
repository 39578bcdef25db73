//! Path completion over the cache, filling it from a loader as far as the
//! completion needs and no further.

use vstd::prelude::*;
use crate::cache::{children_stored, children_within, CacheEntry, CacheEntryId, FileCache};
use crate::error::H5Error;
use crate::path::{
    ends_with_slash, ends_with_slash_exec, parent_spec, push_spec, segments_spec, slash, H5Path,
};

verus! {

/// Where the children of a group come from: the path, the value and
/// whether it is a group, for each child of the group at `path`.
pub trait LoadChildren<V> {
    fn load_children(&self, path: &H5Path) -> Result<Vec<(H5Path, V, bool)>, H5Error>;
}

/// The texts of some paths.
pub open spec fn paths_view(ps: Seq<H5Path>) -> Seq<Seq<char>> {
    ps.map_values(|p: H5Path| p@)
}

/// Two caches that hold the same keys and entries.
pub open spec fn same_cache<V>(a: FileCache<V>, b: FileCache<V>) -> bool {
    a.keys() == b.keys() && a.entries() == b.entries()
}

/// The entry for `p` has its children fetched.
pub open spec fn is_populated<V>(c: FileCache<V>, p: Seq<char>) -> bool {
    match c.lookup(p) {
        Some(i) => c.entries()[i].children_spec() is Some,
        None => false,
    }
}

/// The entry for `p` is a group whose children have not been fetched.
pub open spec fn needs_load<V>(c: FileCache<V>, p: Seq<char>) -> bool {
    match c.lookup(p) {
        Some(i) => c.entries()[i].is_group() && c.entries()[i].children_spec() is None,
        None => false,
    }
}

/// `t` names a known object and is not asking for what is inside a group.
pub open spec fn is_complete_name<V>(c: FileCache<V>, t: Seq<char>) -> bool {
    match c.lookup(t) {
        Some(i) => !c.entries()[i].is_group() || !ends_with_slash(t),
        None => false,
    }
}

/// A complete name as offered: a group gets a trailing `/`.
pub open spec fn finalize_spec<V>(t: Seq<char>, e: CacheEntry<V>) -> Seq<char> {
    if e.is_group() && !ends_with_slash(t) {
        t.push('/')
    } else {
        t
    }
}

/// The paths of the entries with handles `ids`.
pub open spec fn keys_of_ids<V>(c: FileCache<V>, ids: Seq<CacheEntryId>) -> Seq<Seq<char>> {
    ids.map_values(|id: CacheEntryId| c.keys()[id.0 as int])
}

/// The paths that start with `t`, in order.
pub open spec fn with_prefix(paths: Seq<Seq<char>>, t: Seq<char>) -> Seq<Seq<char>>
    decreases paths.len(),
{
    if paths.len() == 0 {
        Seq::empty()
    } else {
        let rest = with_prefix(paths.drop_last(), t);
        if t.is_prefix_of(paths.last()) {
            rest.push(paths.last())
        } else {
            rest
        }
    }
}

/// The children of `t`'s parent that start with `t`; nothing where the
/// parent's children are not known.
pub open spec fn children_completions<V>(c: FileCache<V>, t: Seq<char>) -> Seq<Seq<char>> {
    match c.lookup(parent_spec(t)) {
        Some(i) => match c.entries()[i].children_spec() {
            Some(ids) => with_prefix(keys_of_ids(c, ids), t),
            None => Seq::empty(),
        },
        None => Seq::empty(),
    }
}

/// The completions that the cache gives without loading anything, where it
/// can.
pub open spec fn known_completions<V>(c: FileCache<V>, t: Seq<char>) -> Option<Seq<Seq<char>>> {
    if is_complete_name(c, t) {
        Some(seq![finalize_spec(t, c.entries()[c.lookup(t).unwrap()])])
    } else if is_populated(c, parent_spec(t)) {
        Some(children_completions(c, t))
    } else {
        None
    }
}

/// What a completion of `t` may leave: where the cache knows the answer,
/// that answer and the cache unchanged; else the matching children of the
/// parent in the filled cache, or nothing when loading failed.
pub open spec fn completion_post<V>(
    c0: FileCache<V>,
    t: Seq<char>,
    c1: FileCache<V>,
    r: Seq<Seq<char>>,
) -> bool {
    &&& c1.wf()
    &&& c0.keys().is_prefix_of(c1.keys())
    &&& match known_completions(c0, t) {
        Some(x) => r == x && same_cache(c1, c0),
        None => r == Seq::<Seq<char>>::empty() || r == children_completions(c1, t),
    }
}

/// The path reached from the root through the first `j` segments.
pub open spec fn acc_path(segs: Seq<Seq<char>>, j: int) -> Seq<char>
    decreases j,
{
    if j <= 0 {
        seq!['/']
    } else {
        push_spec(acc_path(segs, j - 1), segs[j - 1])
    }
}

/// Number of leading segments, from `j` on, whose paths the cache knows.
pub open spec fn deepest_from<V>(c: FileCache<V>, segs: Seq<Seq<char>>, j: int) -> int
    decreases segs.len() - j,
{
    if 0 <= j < segs.len() && c.lookup(acc_path(segs, j + 1)) is Some {
        deepest_from(c, segs, j + 1)
    } else {
        j
    }
}

proof fn lemma_prefix_trans(a: Seq<Seq<char>>, b: Seq<Seq<char>>, c: Seq<Seq<char>>)
    requires
        a.is_prefix_of(b),
        b.is_prefix_of(c),
    ensures
        a.is_prefix_of(c),
{
    assert(a =~= c.subrange(0, a.len() as int)) by {
        assert forall|i: int| 0 <= i < a.len() implies a[i] == c[i] by {
            assert(a[i] == b[i]);
            assert(b[i] == c[i]);
        }
    }
}

/// Stores what the loader gave for the children of `path`: an error leaves
/// the cache as it was and is handed on.
pub fn apply_loaded<V>(
    cache: &mut FileCache<V>,
    path: &H5Path,
    loaded: Result<Vec<(H5Path, V, bool)>, H5Error>,
) -> (r: Result<(), H5Error>)
    requires
        old(cache).wf(),
    ensures
        final(cache).wf(),
        old(cache).keys().is_prefix_of(final(cache).keys()),
        match loaded {
            Err(e) => r == Err::<(), H5Error>(e) && same_cache(*final(cache), *old(cache)),
            Ok(items) => {
                &&& r is Ok
                &&& old(cache).lookup(path@) is None ==> same_cache(*final(cache), *old(cache))
                &&& old(cache).lookup(path@) is Some ==> exists|res| children_stored(
                    old(cache).keys(),
                    old(cache).entries(),
                    old(cache).lookup(path@).unwrap(),
                    items@,
                    final(cache).keys(),
                    final(cache).entries(),
                    res,
                )
            },
        },
{
    match loaded {
        Err(e) => Err(e),
        Ok(items) => {
            let _ = cache.insert_children(path, items);
            Ok(())
        },
    }
}

/// Fetches the children of `path` where it is a group whose children are
/// not known yet; anything else is left alone and the loader not asked.
fn load_children_of<V, L: LoadChildren<V>>(path: &H5Path, cache: &mut FileCache<V>, loader: &L) -> (r:
    Result<(), H5Error>)
    requires
        old(cache).wf(),
    ensures
        final(cache).wf(),
        old(cache).keys().is_prefix_of(final(cache).keys()),
        !needs_load(*old(cache), path@) ==> r is Ok && same_cache(*final(cache), *old(cache)),
{
    let needs = match cache.get(path) {
        Some(CacheEntry::Group { children: None, .. }) => true,
        _ => false,
    };
    if needs {
        let loaded = loader.load_children(path);
        apply_loaded(cache, path, loaded)
    } else {
        Ok(())
    }
}

/// Fetches, where needed, the children of `starting_path` and of each path
/// below it along `segments`, the last one included; stops at the first
/// failure.
fn load_children_of_all<V, L: LoadChildren<V>>(
    segments: Vec<&str>,
    starting_path: &H5Path,
    cache: &mut FileCache<V>,
    loader: &L,
) -> (r: Result<(), H5Error>)
    requires
        old(cache).wf(),
    ensures
        final(cache).wf(),
        old(cache).keys().is_prefix_of(final(cache).keys()),
{
    let mut path = starting_path.clone();
    let mut i: usize = 0;
    while i < segments.len()
        invariant
            cache.wf(),
            old(cache).keys().is_prefix_of(cache.keys()),
        decreases segments.len() - i,
    {
        let ghost before = cache.keys();
        let r = load_children_of(&path, cache, loader);
        proof {
            lemma_prefix_trans(old(cache).keys(), before, cache.keys());
        }
        if r.is_err() {
            return r;
        }
        path.push(segments[i]);
        i = i + 1;
    }
    let ghost before = cache.keys();
    let r = load_children_of(&path, cache, loader);
    proof {
        lemma_prefix_trans(old(cache).keys(), before, cache.keys());
    }
    r
}

/// The deepest ancestor along the segments of `path` that the cache knows,
/// starting from the root, and the segments below it.
fn find_deepest_available_ancestor<'p, V>(path: &'p H5Path, cache: &FileCache<V>) -> (r: (
    H5Path,
    Vec<&'p str>,
))
    requires
        cache.wf(),
    ensures
        ({
            let segs = segments_spec(path@);
            let k = deepest_from(*cache, segs, 0);
            &&& r.0@ == acc_path(segs, k)
            &&& r.1@.map_values(|x: &str| x@) == segs.subrange(k, segs.len() as int)
        }),
{
    let segments = path.segments();
    let ghost segs = segments_spec(path@);
    let mut existing = H5Path::root();
    let mut i: usize = 0;
    let mut stopped = false;
    while i < segments.len() && !stopped
        invariant
            cache.wf(),
            segments@.map_values(|x: &str| x@) == segs,
            i <= segments.len(),
            existing@ == acc_path(segs, i as int),
            deepest_from(*cache, segs, 0) == deepest_from(*cache, segs, i as int),
            stopped ==> deepest_from(*cache, segs, i as int) == i,
        decreases segments.len() - i + (if stopped {
            0int
        } else {
            1int
        }),
    {
        let mut new_path = existing.clone();
        new_path.push(segments[i]);
        assert(segments@[i as int]@ == segs[i as int]);
        if !cache.contains_key(&new_path) {
            stopped = true;
        } else {
            existing = new_path;
            i = i + 1;
        }
    }
    let mut remaining: Vec<&str> = Vec::new();
    let mut j: usize = i;
    while j < segments.len()
        invariant
            segments@.map_values(|x: &str| x@) == segs,
            i <= j <= segments.len(),
            remaining@.map_values(|x: &str| x@) == segs.subrange(i as int, j as int),
        decreases segments.len() - j,
    {
        let ghost before = remaining@.map_values(|x: &str| x@);
        remaining.push(segments[j]);
        assert(remaining@.map_values(|x: &str| x@) =~= before.push(segs[j as int]));
        assert(segs.subrange(i as int, j + 1) =~= segs.subrange(i as int, j as int).push(
            segs[j as int],
        ));
        j = j + 1;
    }
    (existing, remaining)
}

/// The paths of the children of `path`, loading the branch down to it
/// where its children are not known yet; `None` where loading failed or
/// `path` is no group with known children.
fn get_all_children<V, L: LoadChildren<V>>(path: &H5Path, cache: &mut FileCache<V>, loader: &L) -> (r:
    Option<Vec<H5Path>>)
    requires
        old(cache).wf(),
    ensures
        final(cache).wf(),
        old(cache).keys().is_prefix_of(final(cache).keys()),
        is_populated(*old(cache), path@) ==> same_cache(*final(cache), *old(cache)) && r is Some,
        r is Some ==> ({
            let i = final(cache).lookup(path@).unwrap();
            &&& final(cache).lookup(path@) is Some
            &&& final(cache).entries()[i].children_spec() is Some
            &&& paths_view(r.unwrap()@) == keys_of_ids(
                *final(cache),
                final(cache).entries()[i].children_spec().unwrap(),
            )
        }),
{
    let populated = match cache.get(path) {
        Some(CacheEntry::Group { children: Some(_), .. }) => true,
        _ => false,
    };
    if !populated {
        let (ancestor_path, remaining_segments) = find_deepest_available_ancestor(path, cache);
        let loaded = load_children_of_all(remaining_segments, &ancestor_path, cache, loader);
        if loaded.is_err() {
            return None;
        }
    }
    match cache.get(path) {
        Some(CacheEntry::Group { children: Some(children), .. }) => {
            let ghost ids = children@;
            proof {
                let i = cache.lookup(path@).unwrap();
                assert(children_within(cache.entries()[i], cache.entries().len()));
                assert(cache.entries()[i].children_spec() == Some(ids));
            }
            let mut paths: Vec<H5Path> = Vec::new();
            assert(paths_view(paths@) =~= keys_of_ids(*cache, ids.subrange(0, 0)));
            let mut k: usize = 0;
            while k < children.len()
                invariant
                    cache.wf(),
                    ids == children@,
                    forall|m: int| 0 <= m < ids.len() ==> (#[trigger] ids[m]).0 < cache.keys().len(),
                    k <= children.len(),
                    paths_view(paths@) == keys_of_ids(*cache, ids.subrange(0, k as int)),
                decreases children.len() - k,
            {
                let ghost before = paths_view(paths@);
                let id = children[k];
                assert(ids[k as int] == id);
                match cache.get_key(id) {
                    Some(p) => {
                        paths.push(p);
                        assert(ids.subrange(0, k + 1) =~= ids.subrange(0, k as int).push(id));
                        assert(paths_view(paths@) =~= before.push(p@));
                        assert(paths_view(paths@) =~= keys_of_ids(
                            *cache,
                            ids.subrange(0, k + 1),
                        ));
                    },
                    None => {},
                }
                k = k + 1;
            }
            assert(ids.subrange(0, children.len() as int) =~= ids);
            Some(paths)
        },
        _ => None,
    }
}

/// The paths among `children` that start with `name`, in order.
fn complete_from_children(children: Vec<H5Path>, name: &str) -> (r: Vec<H5Path>)
    ensures
        paths_view(r@) == with_prefix(paths_view(children@), name@),
{
    let mut r: Vec<H5Path> = Vec::new();
    let mut k: usize = 0;
    let ghost all = paths_view(children@);
    while k < children.len()
        invariant
            all == paths_view(children@),
            k <= children.len(),
            paths_view(r@) == with_prefix(all.subrange(0, k as int), name@),
        decreases children.len() - k,
    {
        let ghost before = paths_view(r@);
        assert(all.subrange(0, k + 1).drop_last() =~= all.subrange(0, k as int));
        if starts_with(children[k].as_raw(), name) {
            r.push(children[k].clone());
            assert(paths_view(r@) =~= before.push(all[k as int]));
        }
        k = k + 1;
    }
    assert(all.subrange(0, children.len() as int) =~= all);
    r
}

/// Whether `s` starts with `prefix`.
pub fn starts_with(s: &str, prefix: &str) -> (r: bool)
    ensures
        r == prefix@.is_prefix_of(s@),
{
    let n = s.unicode_len();
    let m = prefix.unicode_len();
    if m > n {
        return false;
    }
    let mut i: usize = 0;
    while i < m
        invariant
            m == prefix@.len(),
            n == s@.len(),
            m <= n,
            i <= m,
            forall|j: int| 0 <= j < i ==> prefix@[j] == s@[j],
        decreases m - i,
    {
        if s.get_char(i) != prefix.get_char(i) {
            return false;
        }
        i = i + 1;
    }
    assert(prefix@ =~= s@.subrange(0, m as int));
    true
}

/// A known path as offered: a group gets a trailing `/`.
fn finalize_entry_path<V>(path: &str, entry: &CacheEntry<V>) -> (r: H5Path)
    ensures
        r@ == finalize_spec(path@, *entry),
{
    match entry {
        CacheEntry::Leaf { .. } => H5Path::from_str(path),
        CacheEntry::Group { .. } => {
            if ends_with_slash_exec(path) {
                H5Path::from_str(path)
            } else {
                let mut raw = path.to_owned();
                raw.append(slash());
                H5Path::from_string(raw)
            }
        },
    }
}

/// The paths that complete `current`: the name itself where it is complete
/// (a group with a trailing `/`), else the children of its parent that
/// start with it, loading the branch down to the parent where needed. A
/// branch whose children are known is never loaded again.
pub fn path_completions<V, L: LoadChildren<V>>(
    cache: &mut FileCache<V>,
    current: &H5Path,
    loader: &L,
) -> (r: Vec<H5Path>)
    requires
        old(cache).wf(),
    ensures
        completion_post(*old(cache), current@, *final(cache), paths_view(r@)),
{
    let ghost c0 = *cache;
    let ghost t = current@;
    assert(c0.keys().is_prefix_of(c0.keys()));
    if let Some(entry) = cache.get(current) {
        if entry.is_leaf() || !ends_with_slash_exec(current.as_raw()) {
            let mut r: Vec<H5Path> = Vec::new();
            r.push(finalize_entry_path(current.as_raw(), entry));
            assert(paths_view(r@) =~= seq![r@[0]@]);
            return r;
        }
    }
    assert(!is_complete_name(c0, t));
    let parent = current.parent();
    let r = match get_all_children(&parent, cache, loader) {
        Some(candidates) => complete_from_children(candidates, current.as_raw()),
        None => {
            let empty: Vec<H5Path> = Vec::new();
            assert(paths_view(empty@) =~= Seq::<Seq<char>>::empty());
            empty
        },
    };
    proof {
        if is_populated(c0, parent_spec(t)) {
            assert(same_cache(*cache, c0));
            assert(cache.lookup(parent_spec(t)) == c0.lookup(parent_spec(t)));
            assert(children_completions(*cache, t) == children_completions(c0, t));
        }
    }
    r
}

/// Loading happens at most once per branch: once a completion has given
/// candidates from the children of a group, a later completion under that
/// group leaves the cache as it is, so the loader is not asked again.
pub proof fn lemma_branch_loaded_once<V>(
    c0: FileCache<V>,
    t1: Seq<char>,
    c1: FileCache<V>,
    r1: Seq<Seq<char>>,
    t2: Seq<char>,
    c2: FileCache<V>,
    r2: Seq<Seq<char>>,
)
    requires
        completion_post(c0, t1, c1, r1),
        !is_complete_name(c0, t1),
        r1.len() > 0,
        completion_post(c1, t2, c2, r2),
        parent_spec(t2) == parent_spec(t1),
    ensures
        same_cache(c2, c1),
        !is_complete_name(c1, t2) ==> r2 == children_completions(c1, t2),
{
    assert(is_populated(c1, parent_spec(t1)));
}

/// A completion whose target's parent is not in the cache after it ran
/// gives nothing, however many of the ancestors were missing.
pub proof fn lemma_missing_parent_gives_nothing<V>(
    c0: FileCache<V>,
    t: Seq<char>,
    c1: FileCache<V>,
    r: Seq<Seq<char>>,
)
    requires
        completion_post(c0, t, c1, r),
        !is_complete_name(c0, t),
        c1.lookup(parent_spec(t)) is None,
    ensures
        r.len() == 0,
{
    if is_populated(c0, parent_spec(t)) {
        assert(c1.lookup(parent_spec(t)) == c0.lookup(parent_spec(t)));
    }
}

} // verus!
