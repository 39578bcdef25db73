use h5sh::parse::Expression::Call;
use h5sh::parse::{Argument, CallExpression, Expression, Parser, StringExpression};
use h5sh::text_range::TextRange;

#[test]
fn parse_empty_line() {
    let line = "";
    let mut parser = Parser::new(line);
    let parsed = parser.parse();
    let expected = Expression::Noop;
    assert_eq!(parsed, expected);
}

#[test]
fn parse_empty_with_only_one_spaces() {
    let line = " ";
    let mut parser = Parser::new(line);
    let parsed = parser.parse();
    let expected = Expression::Noop;
    assert_eq!(parsed, expected);
}

#[test]
fn parse_empty_with_only_spaces() {
    let line = " \t";
    let mut parser = Parser::new(line);
    let parsed = parser.parse();
    let expected = Expression::Noop;
    assert_eq!(parsed, expected);
}

#[test]
fn parse_command_no_args() {
    let line = "command";
    let mut parser = Parser::new(line);
    let parsed = parser.parse();
    let expected = Call(CallExpression {
        function: StringExpression {
            range: TextRange::from((0, 7)),
        },
        arguments: Vec::new(),
        range: TextRange::from((0, 7)),
    });
    assert_eq!(parsed, expected);
}

#[test]
fn parse_command_no_args_single_char() {
    let line = "l";
    let mut parser = Parser::new(line);
    let parsed = parser.parse();
    let expected = Call(CallExpression {
        function: StringExpression {
            range: TextRange::from((0, 1)),
        },
        arguments: Vec::new(),
        range: TextRange::from((0, 1)),
    });
    assert_eq!(parsed, expected);
}

#[test]
fn parse_command_no_args_padding_front() {
    let line = " pwd";
    let mut parser = Parser::new(line);
    let parsed = parser.parse();
    let expected = Call(CallExpression {
        function: StringExpression {
            range: TextRange::from((1, 4)),
        },
        arguments: Vec::new(),
        range: TextRange::from((1, 4)),
    });
    assert_eq!(parsed, expected);
}

#[test]
fn parse_command_no_args_padding_back() {
    let line = "cd  ";
    let mut parser = Parser::new(line);
    let parsed = parser.parse();
    let expected = Call(CallExpression {
        function: StringExpression {
            range: TextRange::from((0, 2)),
        },
        arguments: Vec::new(),
        range: TextRange::from((0, 2)),
    });
    assert_eq!(parsed, expected);
}

#[test]
fn parse_command_args_plain() {
    let line = "cd /path";
    let mut parser = Parser::new(line);
    let parsed = parser.parse();
    let expected = Call(CallExpression {
        function: StringExpression {
            range: TextRange::from((0, 2)),
        },
        arguments: vec![Argument::Plain(StringExpression {
            range: TextRange::from((3, 8)),
        })],
        range: TextRange::from((0, 8)),
    });
    assert_eq!(parsed, expected);
}

#[test]
fn parse_command_args_plain_single_char() {
    let line = "cd .";
    let mut parser = Parser::new(line);
    let parsed = parser.parse();
    let expected = Call(CallExpression {
        function: StringExpression {
            range: TextRange::from((0, 2)),
        },
        arguments: vec![Argument::Plain(StringExpression {
            range: TextRange::from((3, 4)),
        })],
        range: TextRange::from((0, 4)),
    });
    assert_eq!(parsed, expected);
}

#[test]
fn parse_command_args_plain_plain() {
    let line = "foo /path  other.*";
    let mut parser = Parser::new(line);
    let parsed = parser.parse();
    let expected = Call(CallExpression {
        function: StringExpression {
            range: TextRange::from((0, 3)),
        },
        arguments: vec![
            Argument::Plain(StringExpression {
                range: TextRange::from((4, 9)),
            }),
            Argument::Plain(StringExpression {
                range: TextRange::from((11, 18)),
            }),
        ],
        range: TextRange::from((0, 18)),
    });
    assert_eq!(parsed, expected);
}

#[test]
fn parse_command_args_short() {
    let line = "ls -l";
    let mut parser = Parser::new(line);
    let parsed = parser.parse();
    let expected = Call(CallExpression {
        function: StringExpression {
            range: TextRange::from((0, 2)),
        },
        arguments: vec![Argument::Short(StringExpression {
            range: TextRange::from((3, 5)),
        })],
        range: TextRange::from((0, 5)),
    });
    assert_eq!(parsed, expected);
}

#[test]
fn parse_command_args_long() {
    let line = "ls --list";
    let mut parser = Parser::new(line);
    let parsed = parser.parse();
    let expected = Call(CallExpression {
        function: StringExpression {
            range: TextRange::from((0, 2)),
        },
        arguments: vec![Argument::Long(StringExpression {
            range: TextRange::from((3, 9)),
        })],
        range: TextRange::from((0, 9)),
    });
    assert_eq!(parsed, expected);
}

#[test]
fn parse_command_args_many() {
    let line = " function\targ1 -l short --long=value   --other-long\t /more/stuff -x  ";
    let mut parser = Parser::new(line);
    let parsed = parser.parse();
    let expected = Call(CallExpression {
        function: StringExpression {
            range: TextRange::from((1, 9)), // function
        },
        arguments: vec![
            Argument::Plain(StringExpression {
                range: TextRange::from((10, 14)), // arg1
            }),
            Argument::Short(StringExpression {
                range: TextRange::from((15, 17)), // -l
            }),
            Argument::Plain(StringExpression {
                range: TextRange::from((18, 23)), // short
            }),
            Argument::Long(StringExpression {
                range: TextRange::from((24, 36)), // --long=value
            }),
            Argument::Long(StringExpression {
                range: TextRange::from((39, 51)), // --other-long
            }),
            Argument::Plain(StringExpression {
                range: TextRange::from((53, 64)), // /more/stuff
            }),
            Argument::Short(StringExpression {
                range: TextRange::from((65, 67)), // -x
            }),
        ],
        range: TextRange::from((1, 67)),
    });
    assert_eq!(parsed, expected);
}

#[test]
fn parse_command_space_after_dash() {
    let line = "f - short --  long";
    let mut parser = Parser::new(line);
    let parsed = parser.parse();
    let expected = Call(CallExpression {
        function: StringExpression {
            range: TextRange::from((0, 1)),
        },
        arguments: vec![
            Argument::Short(StringExpression {
                range: TextRange::from((2, 3)), // -
            }),
            Argument::Plain(StringExpression {
                range: TextRange::from((4, 9)), // short
            }),
            Argument::Long(StringExpression {
                range: TextRange::from((10, 12)), // --
            }),
            Argument::Plain(StringExpression {
                range: TextRange::from((14, 18)), // long
            }),
        ],
        range: TextRange::from((0, 18)),
    });
    assert_eq!(parsed, expected);
}

fn call_of(line: &str) -> CallExpression {
    match Parser::new(line).parse() {
        Call(call) => call,
        other => panic!("not a call: {:?}", other),
    }
}

#[test]
fn parse_cd_path_contents() {
    let line = "cd /path";
    let call = call_of(line);
    assert_eq!(call.function.get_content(line), "cd");
    assert_eq!(call.arguments.len(), 1);
    assert!(matches!(call.arguments[0], Argument::Plain(_)));
    assert_eq!(call.arguments[0].get_content(line), "/path");
}

#[test]
fn parse_short_flag_contents() {
    let line = "ls -l";
    let call = call_of(line);
    assert_eq!(call.arguments.len(), 1);
    assert!(matches!(call.arguments[0], Argument::Short(_)));
    assert_eq!(call.arguments[0].get_content(line), "-l");
}

#[test]
fn parse_long_flag_with_value_is_one_token() {
    let line = "ls --long=value";
    let call = call_of(line);
    assert_eq!(call.arguments.len(), 1);
    assert!(matches!(call.arguments[0], Argument::Long(_)));
    assert_eq!(call.arguments[0].get_content(line), "--long=value");
    assert_eq!(call.range, TextRange::from((0, 15)));
}

#[test]
fn parse_long_flag_value_runs_to_whitespace() {
    let line = "x --a=b=c d";
    let call = call_of(line);
    assert_eq!(call.arguments.len(), 2);
    assert_eq!(call.arguments[0].get_content(line), "--a=b=c");
    assert_eq!(call.arguments[1].get_content(line), "d");
}

#[test]
fn parse_dashes_at_end_of_line() {
    let line = "f --";
    let call = call_of(line);
    assert_eq!(call.arguments, vec![Argument::Long(StringExpression { range: TextRange::from((2, 4)) })]);
    let line = "f -";
    let call = call_of(line);
    assert_eq!(call.arguments, vec![Argument::Short(StringExpression { range: TextRange::from((2, 3)) })]);
}

#[test]
fn parse_offsets_count_bytes() {
    let line = "é å\u{3000}ü";
    let call = call_of(line);
    assert_eq!(call.function.range, TextRange::from((0, 2)));
    assert_eq!(call.arguments.len(), 2);
    assert_eq!(call.arguments[0].get_content(line), "å");
    assert_eq!(call.arguments[1].get_content(line), "ü");
    assert_eq!(call.range, TextRange::from((0, 10)));
}

#[test]
fn parse_args_str_after_function() {
    let line = "cmd  a -b";
    let call = call_of(line);
    assert_eq!(call.get_args_str(line), "  a -b");
}

#[test]
fn parse_unicode_space_only_is_noop() {
    assert_eq!(Parser::new("\u{3000}\u{2009}\n").parse(), Expression::Noop);
}

#[test]
fn parse_stops_at_nul() {
    let line = "a\0b -c";
    let call = call_of(line);
    assert_eq!(call.function.range, TextRange::from((0, 1)));
    assert!(call.arguments.is_empty());
    assert_eq!(call.range, TextRange::from((0, 1)));
}
