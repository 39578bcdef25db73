use h5sh::path::H5Path;

#[test]
fn from_empty_string() {
    let path = H5Path::from("");
    let expected = "".to_string();
    assert_eq!(path.to_string(), expected);
}

#[test]
fn from_some_string() {
    let path = H5Path::from("/base/group/ds");
    let expected = "/base/group/ds".to_string();
    assert_eq!(path.to_string(), expected);
}

#[test]
fn from_some_string_preserves_slashes() {
    let path = H5Path::from("/base//ds//");
    let expected = "/base//ds//".to_string();
    assert_eq!(path.to_string(), expected);
}

#[test]
fn is_absolute_root() {
    let path = H5Path::root();
    assert!(path.is_absolute());
}

#[test]
fn is_absolute_true() {
    let path = H5Path::from("/base/group/ds");
    assert!(path.is_absolute());
}

#[test]
fn is_absolute_empty() {
    let path = H5Path::from("");
    assert!(!path.is_absolute());
}

#[test]
fn is_absolute_false() {
    let path = H5Path::from("group/ds");
    assert!(!path.is_absolute());
}

#[test]
fn join_absolute_relative() {
    let a = H5Path::from("/a/b");
    let b = H5Path::from("c/d");
    let expected = H5Path::from("/a/b/c/d");
    assert_eq!(a.join(&b), expected);
}

#[test]
fn join_absolute_absolute() {
    let a = H5Path::from("/a/b");
    let b = H5Path::from("/c/d");
    let expected = H5Path::from("/c/d");
    assert_eq!(a.join(&b), expected);
}

#[test]
fn join_relative_absolute() {
    let a = H5Path::from("a/b");
    let b = H5Path::from("/c/d");
    let expected = H5Path::from("/c/d");
    assert_eq!(a.join(&b), expected);
}

#[test]
fn join_relative_relative() {
    let a = H5Path::from("a/b");
    let b = H5Path::from("c/d");
    let expected = H5Path::from("a/b/c/d");
    assert_eq!(a.join(&b), expected);
}

#[test]
fn join_root_relative() {
    let a = H5Path::root();
    let b = H5Path::from("c/d");
    let expected = H5Path::from("/c/d");
    assert_eq!(a.join(&b), expected);
}

#[test]
fn join_root_absolute() {
    let a = H5Path::root();
    let b = H5Path::from("/c/d");
    let expected = H5Path::from("/c/d");
    assert_eq!(a.join(&b), expected);
}

#[test]
fn name_root() {
    let path = H5Path::root();
    assert_eq!(path.name(), "");
}

#[test]
fn name_single() {
    let path = H5Path::from("object");
    assert_eq!(path.name(), "object");
}

#[test]
fn name_two_segments() {
    let path = H5Path::from("group/ds");
    assert_eq!(path.name(), "ds");
}

#[test]
fn name_trailing_slash() {
    let path = H5Path::from("group/object/");
    assert_eq!(path.name(), "object");
}

#[test]
fn resolve_empty_path() {
    let path = H5Path::from("".to_string());
    let resolved = path.resolve();
    let expected = H5Path::from("".to_string());
    assert_eq!(resolved, expected);
}

#[test]
fn resolve_root_path() {
    let path = H5Path::from("/".to_string());
    let resolved = path.resolve();
    let expected = H5Path::from("/".to_string());
    assert_eq!(resolved, expected);
}

#[test]
fn resolve_absolute_path() {
    let path = H5Path::from("/dir/group/ds".to_string());
    let resolved = path.resolve();
    let expected = H5Path::from("/dir/group/ds".to_string());
    assert_eq!(resolved, expected);
}

#[test]
fn resolve_one_up_segment() {
    let path = H5Path::from("/a/b/../c".to_string());
    let resolved = path.resolve();
    let expected = H5Path::from("/a/c".to_string());
    assert_eq!(resolved, expected);
}

#[test]
fn resolve_many_up_segment() {
    let path = H5Path::from("/a/../b/c/../../d/e".to_string());
    let resolved = path.resolve();
    let expected = H5Path::from("/d/e".to_string());
    assert_eq!(resolved, expected);
}

#[test]
fn resolve_only_up_segment() {
    let path = H5Path::from("..".to_string());
    let resolved = path.resolve();
    let expected = H5Path::from("".to_string());
    assert_eq!(resolved, expected);
}

#[test]
fn resolve_only_up_from_root_segment() {
    let path = H5Path::from("/..".to_string());
    let resolved = path.resolve();
    let expected = H5Path::from("/".to_string());
    assert_eq!(resolved, expected);
}

#[test]
fn resolve_initial_up_segment() {
    let path = H5Path::from("../a".to_string());
    let resolved = path.resolve();
    let expected = H5Path::from("a".to_string());
    assert_eq!(resolved, expected);
}

#[test]
fn resolve_initial_up_past_root() {
    let path = H5Path::from("/a/b/c/../../../../".to_string());
    let resolved = path.resolve();
    let expected = H5Path::from("/".to_string());
    assert_eq!(resolved, expected);
}

#[test]
fn resolve_removes_duplicate_slashes() {
    let path = H5Path::from("/a//b/c//..///d".to_string());
    let resolved = path.resolve();
    let expected = H5Path::from("/a/b/d".to_string());
    assert_eq!(resolved, expected);
}

#[test]
fn resolve_drops_dot_segments() {
    let path = H5Path::from("/a/./b/.");
    assert_eq!(path.resolve(), H5Path::from("/a/b"));
}

#[test]
fn resolve_relative_dot_dot_stays_empty() {
    assert_eq!(H5Path::from("../..").resolve(), H5Path::from(""));
    assert_eq!(H5Path::from("a/../..").resolve(), H5Path::from(""));
}

#[test]
fn resolve_twice_is_resolve_once() {
    for raw in ["/a/b/../c", "..", "/..", "../a", "/a/b/c/../../../../", "x//./y/../z/", ""] {
        let once = H5Path::from(raw).resolve();
        let twice = once.resolve();
        assert_eq!(once, twice);
    }
}

#[test]
fn join_relative_onto_trailing_slash() {
    let a = H5Path::from("/a/");
    let b = H5Path::from("c");
    assert_eq!(a.join(&b), H5Path::from("/a/c"));
}

#[test]
fn push_adds_one_separator() {
    let mut a = H5Path::from("/a");
    a.push("b");
    assert_eq!(a, H5Path::from("/a/b"));
    let mut root = H5Path::root();
    root.push("c");
    assert_eq!(root, H5Path::from("/c"));
}

#[test]
fn parent_of_paths() {
    assert_eq!(H5Path::from("/a/b").parent(), H5Path::from("/a"));
    assert_eq!(H5Path::from("/a").parent(), H5Path::root());
    assert_eq!(H5Path::from("a").parent(), H5Path::from(""));
    assert_eq!(H5Path::from("/base/").parent(), H5Path::from("/base"));
}

#[test]
fn split_parent_gives_name_after_last_slash() {
    let path = H5Path::from("/a/b");
    let (parent, name) = path.split_parent();
    assert_eq!(parent, H5Path::from("/a"));
    assert_eq!(name, "b");
    let top = H5Path::from("/x");
    let (parent, name) = top.split_parent();
    assert_eq!(parent, H5Path::root());
    assert_eq!(name, "x");
    let bare = H5Path::from("x");
    let (parent, name) = bare.split_parent();
    assert_eq!(parent, H5Path::from(""));
    assert_eq!(name, "x");
}

#[test]
fn normalized_strips_trailing_slashes_but_root() {
    assert_eq!(H5Path::from("/root//").normalized(), H5Path::from("/root"));
    assert_eq!(H5Path::from("/").normalized(), H5Path::root());
    assert_eq!(H5Path::from("//").normalized(), H5Path::from(""));
}

#[test]
fn segments_skip_empty_pieces() {
    let path = H5Path::from("/a//b/c/");
    assert_eq!(path.segments(), vec!["a", "b", "c"]);
    assert!(H5Path::root().segments().is_empty());
}

#[test]
fn as_raw_and_from_string_keep_text() {
    let path = H5Path::from(String::from("a//b/"));
    assert_eq!(path.as_raw(), "a//b/");
    assert_eq!(H5Path::from_str("x").as_raw(), "x");
}
