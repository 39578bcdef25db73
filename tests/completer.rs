use std::collections::{HashMap, HashSet};

use h5sh::cache::FileCache;
use h5sh::classify::{classify_location, LocationType};
use h5sh::completer::{complete, Candidate};
use h5sh::engine::LoadChildren;
use h5sh::error::H5Error;
use h5sh::parse::Parser;
use h5sh::path::H5Path;
use h5sh::text_index::TextIndex;
use h5sh::text_range::TextRange;

struct FailingLoader;

impl LoadChildren<i32> for FailingLoader {
    fn load_children(&self, _path: &H5Path) -> Result<Vec<(H5Path, i32, bool)>, H5Error> {
        panic!("Do not load children!");
    }
}

struct MapLoader(HashMap<H5Path, Vec<(H5Path, i32, bool)>>);

impl LoadChildren<i32> for MapLoader {
    fn load_children(&self, path: &H5Path) -> Result<Vec<(H5Path, i32, bool)>, H5Error> {
        match self.0.get(&path.normalized()) {
            Some(children) => Ok(children.clone()),
            None => Err(H5Error::NotFound(path.clone())),
        }
    }
}

fn child_loader() -> MapLoader {
    MapLoader(HashMap::from([(
        H5Path::from("/entry"),
        vec![(H5Path::from("/entry/path"), 10, false)],
    )]))
}

#[test]
fn complete_empty_input() {
    let line = "";
    let expression = Parser::new(line).parse();
    let commands: Vec<String> = HashSet::<String>::new().into_iter().collect();
    let mut cache = FileCache::<i32>::new();
    let cwd = H5Path::root();

    let (insertion, completions) = complete(
        &expression,
        line,
        0,
        &commands,
        &mut cache,
        &cwd,
        &FailingLoader,
    );

    assert_eq!(insertion, 0);
    assert_eq!(completions, vec![]);
}

#[test]
fn complete_command_no_args() {
    let line = "co";
    let expression = Parser::new(line).parse();
    let commands: Vec<String> = HashSet::<String>::from(["command".into()]).into_iter().collect();
    let mut cache = FileCache::<i32>::new();
    let cwd = H5Path::root();

    let (insertion, completions) = complete(
        &expression,
        line,
        2,
        &commands,
        &mut cache,
        &cwd,
        &FailingLoader,
    );

    let expected = vec![Candidate {
        display: "command".into(),
        replacement: "mmand".into(),
    }];
    assert_eq!(insertion, 2);
    assert_eq!(completions, expected);
}

#[test]
fn complete_command_no_args_not_at_end() {
    let line = "comm";
    let expression = Parser::new(line).parse();
    let commands: Vec<String> = HashSet::<String>::from(["command".into()]).into_iter().collect();
    let mut cache = FileCache::<i32>::new();
    let cwd = H5Path::root();

    let (_, completions) = complete(
        &expression,
        line,
        2,
        &commands,
        &mut cache,
        &cwd,
        &FailingLoader,
    );

    assert_eq!(completions, vec![]);
}

#[test]
fn complete_command_one_arg() {
    let line = "co --flag";
    let expression = Parser::new(line).parse();
    let commands: Vec<String> = HashSet::<String>::from(["command".into()]).into_iter().collect();
    let mut cache = FileCache::<i32>::new();
    let cwd = H5Path::root();

    let (insertion, completions) = complete(
        &expression,
        line,
        2,
        &commands,
        &mut cache,
        &cwd,
        &FailingLoader,
    );

    let expected = vec![Candidate {
        display: "command".into(),
        replacement: "mmand".into(),
    }];
    assert_eq!(insertion, 2);
    assert_eq!(completions, expected);
}

#[test]
fn complete_path_single_arg_absolute_in_cwd() {
    let line = "ls /pa";
    let expression = Parser::new(line).parse();
    let commands: Vec<String> = HashSet::<String>::new().into_iter().collect();
    let mut cache = FileCache::<i32>::new();
    cache.insert_group(&H5Path::from("/"), -1);

    let load_children = MapLoader(HashMap::from([(
        H5Path::from("/"),
        vec![(H5Path::from("/path"), 1, false)],
    )]));

    let (insertion, completions) = complete(
        &expression,
        line,
        6,
        &commands,
        &mut cache,
        &H5Path::root(),
        &load_children,
    );

    let expected = vec![Candidate {
        display: "path".into(),
        replacement: "th".into(),
    }];
    assert_eq!(insertion, 6);
    assert_eq!(completions, expected);
}

#[test]
fn complete_path_single_arg_absolute_nested() {
    let line = "ls /entry/p";
    let expression = Parser::new(line).parse();
    let commands: Vec<String> = HashSet::<String>::new().into_iter().collect();
    let mut cache = FileCache::<i32>::new();
    let root = cache.insert_group(&H5Path::from("/"), -1);
    cache
        .insert_children_by_id(root, vec![(H5Path::from("/entry"), 2, true)])
        .unwrap();

    let (insertion, completions) = complete(
        &expression,
        line,
        11,
        &commands,
        &mut cache,
        &H5Path::root(),
        &child_loader(),
    );

    let expected = vec![Candidate {
        display: "path".into(),
        replacement: "ath".into(),
    }];
    assert_eq!(insertion, 11);
    assert_eq!(completions, expected);
}

#[test]
fn complete_path_single_arg_absolute_from_child() {
    let line = "ls /entry/p";
    let expression = Parser::new(line).parse();
    let commands: Vec<String> = HashSet::<String>::new().into_iter().collect();
    let mut cache = FileCache::<i32>::new();
    let root = cache.insert_group(&H5Path::from("/"), -1);
    cache
        .insert_children_by_id(root, vec![(H5Path::from("/entry"), 2, true)])
        .unwrap();

    let (insertion, completions) = complete(
        &expression,
        line,
        11,
        &commands,
        &mut cache,
        &H5Path::from("/entry"),
        &child_loader(),
    );

    let expected = vec![Candidate {
        display: "path".into(),
        replacement: "ath".into(),
    }];
    assert_eq!(insertion, 11);
    assert_eq!(completions, expected);
}

#[test]
fn complete_path_single_arg_relative_in_cwd() {
    let line = "ls p";
    let expression = Parser::new(line).parse();
    let commands: Vec<String> = HashSet::<String>::new().into_iter().collect();
    let mut cache = FileCache::<i32>::new();
    let root = cache.insert_group(&H5Path::from("/"), -1);
    cache
        .insert_children_by_id(root, vec![(H5Path::from("/entry"), 2, true)])
        .unwrap();

    let (insertion, completions) = complete(
        &expression,
        line,
        4,
        &commands,
        &mut cache,
        &H5Path::from("/entry"),
        &child_loader(),
    );

    let expected = vec![Candidate {
        display: "path".into(),
        replacement: "ath".into(),
    }];
    assert_eq!(insertion, 4);
    assert_eq!(completions, expected);
}

#[test]
fn complete_path_single_arg_relative_nested() {
    let line = "ls entry/p";
    let expression = Parser::new(line).parse();
    let commands: Vec<String> = HashSet::<String>::new().into_iter().collect();
    let mut cache = FileCache::<i32>::new();
    let root = cache.insert_group(&H5Path::from("/"), -1);
    cache
        .insert_children_by_id(root, vec![(H5Path::from("/entry"), 2, true)])
        .unwrap();

    let (insertion, completions) = complete(
        &expression,
        line,
        10,
        &commands,
        &mut cache,
        &H5Path::root(),
        &child_loader(),
    );

    let expected = vec![Candidate {
        display: "path".into(),
        replacement: "ath".into(),
    }];
    assert_eq!(insertion, 10);
    assert_eq!(completions, expected);
}

#[test]
fn classify_command_at_end_of_name() {
    let expression = Parser::new("co").parse();
    let location = classify_location(&expression, TextIndex::from(2));
    assert_eq!(location, LocationType::Command(TextRange::from((0, 2))));
    let commands = vec!["command".to_string()];
    let candidates = h5sh::completer::command_completions("co", &commands);
    assert_eq!(
        candidates,
        vec![Candidate { display: "command".into(), replacement: "mmand".into() }]
    );
}

#[test]
fn classify_flags_and_outside() {
    let expression = Parser::new("ls -l path  ").parse();
    assert_eq!(
        classify_location(&expression, TextIndex::from(4)),
        LocationType::Other(TextRange::from((3, 5)))
    );
    assert_eq!(
        classify_location(&expression, TextIndex::from(8)),
        LocationType::Path(TextRange::from((6, 10)))
    );
    assert_eq!(
        classify_location(&expression, TextIndex::from(11)),
        LocationType::Other(TextRange::from((0, 0)))
    );
    assert_eq!(
        classify_location(&Parser::new("").parse(), TextIndex::from(0)),
        LocationType::Other(TextRange::from((0, 0)))
    );
}

#[test]
fn command_completions_filter_by_prefix() {
    let commands = vec!["cd".to_string(), "cat".to_string(), "ls".to_string()];
    let candidates = h5sh::completer::command_completions("c", &commands);
    assert_eq!(
        candidates,
        vec![
            Candidate { display: "cd".into(), replacement: "d".into() },
            Candidate { display: "cat".into(), replacement: "at".into() },
        ]
    );
    assert!(h5sh::completer::command_completions("x", &commands).is_empty());
}

#[test]
fn candidate_from_prefix() {
    assert_eq!(
        Candidate::from_prefix("command", "co"),
        Some(Candidate { display: "command".into(), replacement: "mmand".into() })
    );
    assert_eq!(Candidate::from_prefix("command", "x"), None);
}

#[test]
fn complete_group_gets_trailing_slash() {
    let line = "cd /entry";
    let expression = Parser::new(line).parse();
    let commands: Vec<String> = Vec::new();
    let mut cache = FileCache::<i32>::new();
    let root = cache.insert_group(&H5Path::from("/"), -1);
    cache
        .insert_children_by_id(root, vec![(H5Path::from("/entry"), 2, true)])
        .unwrap();
    let (insertion, completions) = complete(
        &expression,
        line,
        9,
        &commands,
        &mut cache,
        &H5Path::root(),
        &FailingLoader,
    );
    assert_eq!(insertion, 9);
    assert_eq!(
        completions,
        vec![Candidate { display: "entry".into(), replacement: "/".into() }]
    );
}

#[test]
fn complete_inside_flag_gives_nothing() {
    let line = "ls --fl";
    let expression = Parser::new(line).parse();
    let commands = vec!["ls".to_string()];
    let mut cache = FileCache::<i32>::new();
    let (insertion, completions) = complete(
        &expression,
        line,
        7,
        &commands,
        &mut cache,
        &H5Path::root(),
        &FailingLoader,
    );
    assert_eq!(insertion, 7);
    assert!(completions.is_empty());
}

#[test]
fn error_messages() {
    assert_eq!(H5Error::NotFound(H5Path::from("/x")).message(), "Not found: '/x'");
    assert_eq!(H5Error::Other("bad".to_string()).message(), "HDF5 error: 'bad'");
}
