use h5sh::cache::{CacheEntry, CacheEntryId, CacheError, FileCache};
use h5sh::path::H5Path;

fn assert_children(entry: &CacheEntry<i32>, expected: Option<Vec<CacheEntryId>>) {
    match entry {
        CacheEntry::Group { children, .. } => {
            assert_eq!(*children, expected);
        }
        CacheEntry::Leaf { .. } => {
            assert!(false)
        }
    }
}

fn assert_leaf(entry: &CacheEntry<i32>) {
    assert!(matches!(entry, CacheEntry::Leaf { .. }));
}

#[test]
fn get_entry_by_path() {
    let root = H5Path::from("/root");
    let a = H5Path::from("/root/a");
    let b = H5Path::from("/root/b");
    let cache = {
        let mut cache = FileCache::<i32>::default();
        cache.insert_group(&root, 4);
        cache.insert_leaf(&a, 6);
        cache.insert_group(&b, 9);
        cache
    };
    assert_eq!(cache.get(&root).unwrap().value(), &4);
    assert_eq!(cache.get(&a).unwrap().value(), &6);
    assert_eq!(cache.get(&b).unwrap().value(), &9);
}

#[test]
fn get_entry_by_id() {
    let (cache, (root, a, b)) = {
        let mut cache = FileCache::<i32>::default();
        let root = cache.insert_group(&H5Path::from("/root"), 4);
        let a = cache.insert_leaf(&H5Path::from("/root/a"), 6);
        let b = cache.insert_group(&H5Path::from("/root/b"), 9);
        (cache, (root, a, b))
    };
    assert_eq!(cache.get_by_id(root).unwrap().value(), &4);
    assert_eq!(cache.get_by_id(a).unwrap().value(), &6);
    assert_eq!(cache.get_by_id(b).unwrap().value(), &9);
}

#[test]
fn get_entry_by_path_auto_normalized() {
    let cache = {
        let mut cache = FileCache::<i32>::default();
        cache.insert_group(&H5Path::from("/root/"), 4);
        cache
    };
    assert_eq!(cache.get(&H5Path::from("/root")).unwrap().value(), &4);
    assert_eq!(cache.get(&H5Path::from("/root/")).unwrap().value(), &4);
    assert_eq!(cache.get(&H5Path::from("/root//")).unwrap().value(), &4);
}

#[test]
fn inserting_does_not_populate_children() {
    let root = H5Path::from("/root");
    let a = H5Path::from("/root/a");
    let b = H5Path::from("/root/b");
    let cache = {
        let mut cache = FileCache::<i32>::default();
        cache.insert_group(&root, 4);
        cache.insert_leaf(&a, 6);
        cache.insert_group(&b, 9);
        cache
    };
    assert_children(cache.get(&root).unwrap(), None);
    assert_leaf(cache.get(&a).unwrap());
    assert_children(cache.get(&b).unwrap(), None);
}

#[test]
fn insert_children() {
    let root = H5Path::from("/root");
    let a = H5Path::from("/root/a");
    let b = H5Path::from("/root/b");
    let c = H5Path::from("/root/b/c");
    let cache = {
        let mut cache = FileCache::<i32>::default();
        let root_id = cache.insert_group(&root, 4);
        cache
            .insert_children_by_id(root_id, vec![(a.clone(), 6, false), (b.clone(), 9, true)])
            .unwrap();
        cache
            .insert_children(&b, vec![(c.clone(), 11, true)])
            .unwrap();
        cache
    };
    let a_id = cache.get_with_id(&a).unwrap().0;
    let b_id = cache.get_with_id(&b).unwrap().0;
    let c_id = cache.get_with_id(&c).unwrap().0;
    let root_entry = cache.get(&root).unwrap();
    assert_children(root_entry, Some(vec![a_id, b_id]));
    let b_entry = cache.get(&b).unwrap();
    assert_children(b_entry, Some(vec![c_id]));
}

#[test]
fn insert_children_into_missing_parent_fails() {
    let mut cache = FileCache::<i32>::new();
    cache.insert_group(&H5Path::from("/root"), 1);
    let result = cache.insert_children(&H5Path::from("/other"), vec![(H5Path::from("/other/x"), 2, false)]);
    assert_eq!(result, Err(CacheError::ParentNotFound));
    assert!(!cache.contains_key(&H5Path::from("/other/x")));
    assert_eq!(cache.len(), 1);
    let result = cache.insert_children_by_id(CacheEntryId(5), vec![]);
    assert_eq!(result, Err(CacheError::ParentNotFound));
}

#[test]
fn insert_children_into_leaf_fails() {
    let mut cache = FileCache::<i32>::new();
    let leaf = cache.insert_leaf(&H5Path::from("/leaf"), 1);
    let result = cache.insert_children_by_id(leaf, vec![]);
    assert_eq!(result, Err(CacheError::NotAGroup));
    assert_leaf(cache.get_by_id(leaf).unwrap());
}

#[test]
fn empty_children_differ_from_unfetched() {
    let mut cache = FileCache::<i32>::new();
    let g = cache.insert_group(&H5Path::from("/g"), 1);
    assert!(cache.get_by_id(g).unwrap().children().is_none());
    cache.insert_children_by_id(g, vec![]).unwrap();
    assert_eq!(cache.get_by_id(g).unwrap().children(), Some(&vec![]));
}

#[test]
fn handles_are_stable_and_reinsert_keeps_handle() {
    let mut cache = FileCache::<i32>::new();
    let a = cache.insert_group(&H5Path::from("/a"), 1);
    let b = cache.insert_leaf(&H5Path::from("/b"), 2);
    assert_eq!(a, CacheEntryId(0));
    assert_eq!(b, CacheEntryId(1));
    let again = cache.insert_leaf(&H5Path::from("/a/"), 3);
    assert_eq!(again, a);
    assert_eq!(cache.get_by_id(a).unwrap().value(), &3);
    assert_eq!(cache.get_key(b).unwrap(), H5Path::from("/b"));
    let (key, entry) = cache.get_key_value(a).unwrap();
    assert_eq!(key, H5Path::from("/a"));
    assert!(entry.is_leaf());
    assert!(cache.get_key(CacheEntryId(2)).is_none());
    assert!(cache.get_by_id(CacheEntryId(2)).is_none());
}
