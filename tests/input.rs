use h5sh::input::{parse_and_resolve_input, Aliases};

#[test]
fn parse_and_resolve_input_empty() {
    let input = "";
    let commands = Aliases::new();

    let (cmd, args) = parse_and_resolve_input(input, &commands);
    assert_eq!(cmd, "");
    assert_eq!(args, Vec::<&str>::new());
}

#[test]
fn parse_and_resolve_input_only_command() {
    let input = "help";
    let commands = Aliases::new();

    let (cmd, args) = parse_and_resolve_input(input, &commands);
    assert_eq!(cmd, "help");
    assert_eq!(args, Vec::<&str>::new());
}

#[test]
fn parse_and_resolve_input_command_with_pos_arg() {
    let input = "cd some/where";
    let commands = Aliases::new();

    let (cmd, args) = parse_and_resolve_input(input, &commands);
    assert_eq!(cmd, "cd");
    assert_eq!(args, vec!["some/where"]);
}

#[test]
fn parse_and_resolve_input_command_with_mixed_arg() {
    let input = "ls -l path";
    let commands = Aliases::new();

    let (cmd, args) = parse_and_resolve_input(input, &commands);
    assert_eq!(cmd, "ls");
    assert_eq!(args, vec!["-l", "path"]);
}

#[test]
fn parse_and_resolve_input_only_alias() {
    let input = "l";
    let mut commands = Aliases::new();
    commands.add_alias("l", "ls -l");

    let (cmd, args) = parse_and_resolve_input(input, &commands);
    assert_eq!(cmd, "ls");
    assert_eq!(args, vec!["-l"]);
}

#[test]
fn parse_and_resolve_input_alias_with_pos_arg() {
    let input = "l path";
    let mut commands = Aliases::new();
    commands.add_alias("l", "ls -l");

    let (cmd, args) = parse_and_resolve_input(input, &commands);
    assert_eq!(cmd, "ls");
    assert_eq!(args, vec!["-l", "path"]);
}

#[test]
fn parse_and_resolve_input_alias_with_mixed_arg() {
    let input = "l --name path";
    let mut commands = Aliases::new();
    commands.add_alias("l", "ls -l");

    let (cmd, args) = parse_and_resolve_input(input, &commands);
    assert_eq!(cmd, "ls");
    assert_eq!(args, vec!["-l", "--name", "path"]);
}

#[test]
fn parse_and_resolve_input_recursive_alias_with_mixed_arg() {
    let input = "dir group/inner --name";
    let mut commands = Aliases::new();
    commands.add_alias("dir", "l --type");
    commands.add_alias("l", "ls -l");

    let (cmd, args) = parse_and_resolve_input(input, &commands);
    assert_eq!(cmd, "ls");
    assert_eq!(args, vec!["-l", "--type", "group/inner", "--name"]);
}

#[test]
fn resolve_input_cyclic_alias_stops() {
    let mut commands = Aliases::new();
    commands.add_alias("a", "b x");
    commands.add_alias("b", "a y");
    let (cmd, args) = parse_and_resolve_input("a z", &commands);
    assert_eq!(cmd, "a");
    assert_eq!(args, vec!["y", "x", "z"]);
}

#[test]
fn add_alias_replaces_earlier_text() {
    let mut commands = Aliases::new();
    commands.add_alias("l", "ls");
    commands.add_alias("l", "ls -l");
    assert_eq!(commands.get_alias("l"), Some("ls -l"));
    assert_eq!(commands.get_alias("x"), None);
    assert_eq!(commands.len(), 1);
}

#[test]
fn resolve_input_long_flag_with_value() {
    let commands = Aliases::new();
    let (cmd, args) = parse_and_resolve_input("ls --long=value p", &commands);
    assert_eq!(cmd, "ls");
    assert_eq!(args, vec!["--long=value", "p"]);
}
