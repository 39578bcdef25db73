use h5sh::highlight::{highlight_spans, StyledSpan, TokenStyle};
use h5sh::parse::Parser;

fn span(start: usize, end: usize, style: TokenStyle) -> StyledSpan {
    StyledSpan { start, end, style }
}

#[test]
fn highlight_known_command_and_flags() {
    let line = " ls -l  path --x=1 ";
    let expression = Parser::new(line).parse();
    let commands = vec!["ls".to_string()];
    assert_eq!(
        highlight_spans(&expression, line, &commands),
        vec![
            span(0, 1, TokenStyle::Plain),
            span(1, 3, TokenStyle::KnownCommand),
            span(3, 4, TokenStyle::Plain),
            span(4, 6, TokenStyle::Flag),
            span(6, 8, TokenStyle::Plain),
            span(8, 12, TokenStyle::Plain),
            span(12, 13, TokenStyle::Plain),
            span(13, 18, TokenStyle::Flag),
            span(18, 19, TokenStyle::Plain),
        ]
    );
}

#[test]
fn highlight_unknown_command() {
    let line = "nope";
    let expression = Parser::new(line).parse();
    let commands = vec!["ls".to_string()];
    assert_eq!(
        highlight_spans(&expression, line, &commands),
        vec![span(0, 4, TokenStyle::UnknownCommand)]
    );
}

#[test]
fn highlight_blank_line_is_plain() {
    let line = "   ";
    let expression = Parser::new(line).parse();
    assert_eq!(
        highlight_spans(&expression, line, &Vec::new()),
        vec![span(0, 3, TokenStyle::Plain)]
    );
    assert_eq!(highlight_spans(&Parser::new("").parse(), "", &Vec::new()), vec![]);
}
