//! A total parser for command lines: a function name followed by plain,
//! short (`-x`) and long (`--name`, `--name=value`) arguments, each with
//! the byte range that it covers in the line.

use vstd::prelude::*;
use crate::scanner::Scanner;
use crate::text::{
    byte_len, byte_offset, byte_slice, char_at, is_boundary, is_white_space, is_whitespace,
    lemma_byte_offset_bounds, lemma_offset_is_boundary, slice_bytes,
};
use crate::text_index::TextIndex;
use crate::text_range::TextRange;

verus! {

/// The three shapes of an argument.
#[derive(Clone, Copy, Debug, PartialEq, Eq, Structural)]
pub enum ArgKind {
    Plain,
    Short,
    Long,
}

/// First position at or after `i` that does not hold whitespace.
pub open spec fn skip_ws(s: Seq<char>, i: int) -> int
    decreases s.len() - i,
{
    if 0 <= i < s.len() && is_white_space(s[i]) {
        skip_ws(s, i + 1)
    } else {
        i
    }
}

/// Whether `c` ends a token: whitespace, NUL (also read past the end), or
/// `=` where `stop_at_equals` is set.
pub open spec fn ends_token(c: char, stop_at_equals: bool) -> bool {
    is_white_space(c) || c == '\0' || (stop_at_equals && c == '=')
}

/// End of the token that starts at `i`.
pub open spec fn token_end(s: Seq<char>, i: int, stop_at_equals: bool) -> int
    decreases s.len() - i,
{
    if 0 <= i < s.len() && !ends_token(s[i], stop_at_equals) {
        token_end(s, i + 1, stop_at_equals)
    } else {
        i
    }
}

/// The argument that starts at position `j`, which holds no whitespace: its
/// kind and its first and last-but-one character positions.
///
/// A `-` starts a short argument, running to the next whitespace. `--`
/// starts a long one, running to the next whitespace or `=`; an `=` there
/// is taken into the argument, which then runs on to the next whitespace.
/// Anything else starts a plain argument.
pub open spec fn arg_at(s: Seq<char>, j: int) -> (ArgKind, int, int) {
    if char_at(s, j) == '-' {
        if char_at(s, j + 1) == '-' {
            if is_white_space(char_at(s, j + 2)) {
                (ArgKind::Long, j, j + 2)
            } else {
                let e = token_end(s, j + 2, true);
                if char_at(s, e) == '=' {
                    (ArgKind::Long, j, token_end(s, e + 1, false))
                } else {
                    (ArgKind::Long, j, e)
                }
            }
        } else if is_white_space(char_at(s, j + 1)) {
            (ArgKind::Short, j, j + 1)
        } else {
            (ArgKind::Short, j, token_end(s, j + 1, false))
        }
    } else {
        (ArgKind::Plain, j, token_end(s, j, false))
    }
}

/// Whether the argument found at `j` is the empty plain token that ends
/// the line.
pub open spec fn is_line_end(a: (ArgKind, int, int), j: int) -> bool {
    a.0 == ArgKind::Plain && a.2 == j
}

/// The arguments from position `i` on, with their byte ranges.
pub open spec fn args_from(s: Seq<char>, i: int) -> Seq<(ArgKind, int, int)>
    decreases s.len() - i,
{
    if i < 0 || i >= s.len() {
        Seq::empty()
    } else {
        let j = skip_ws(s, i);
        let a = arg_at(s, j);
        if is_line_end(a, j) {
            Seq::empty()
        } else {
            proof {
                lemma_arg_at_advances(s, i);
            }
            seq![(a.0, byte_offset(s, a.1), byte_offset(s, a.2))] + args_from(s, a.2)
        }
    }
}

/// Byte range of the function name, or `None` for a blank line.
pub open spec fn function_of(s: Seq<char>) -> Option<(int, int)> {
    let j = skip_ws(s, 0);
    let e = token_end(s, j, false);
    if e == j {
        None
    } else {
        Some((byte_offset(s, j), byte_offset(s, e)))
    }
}

/// The arguments after the function name.
pub open spec fn arguments_of(s: Seq<char>) -> Seq<(ArgKind, int, int)> {
    args_from(s, token_end(s, skip_ws(s, 0), false))
}

/// Byte range of the whole call: from the function name to the end of the
/// last argument.
pub open spec fn call_range_of(s: Seq<char>) -> (int, int) {
    let f = function_of(s).unwrap();
    let args = arguments_of(s);
    if args.len() == 0 {
        f
    } else {
        (f.0, args.last().2)
    }
}

pub proof fn lemma_skip_ws_bounds(s: Seq<char>, i: int)
    requires
        0 <= i,
    ensures
        i <= skip_ws(s, i),
        i <= s.len() ==> skip_ws(s, i) <= s.len(),
        !is_white_space(char_at(s, skip_ws(s, i))),
    decreases s.len() - i,
{
    if 0 <= i < s.len() && is_white_space(s[i]) {
        lemma_skip_ws_bounds(s, i + 1);
    } else {
        assert(('\0' as u32) == 0);
    }
}

pub proof fn lemma_token_end_bounds(s: Seq<char>, i: int, stop: bool)
    requires
        0 <= i,
    ensures
        i <= token_end(s, i, stop),
        i <= s.len() ==> token_end(s, i, stop) <= s.len(),
        ends_token(char_at(s, token_end(s, i, stop)), stop),
    decreases s.len() - i,
{
    if 0 <= i < s.len() && !ends_token(s[i], stop) {
        lemma_token_end_bounds(s, i + 1, stop);
    }
}

pub proof fn lemma_arg_at_bounds(s: Seq<char>, j: int)
    requires
        0 <= j <= s.len(),
    ensures
        arg_at(s, j).1 == j,
        j <= arg_at(s, j).2 <= s.len(),
        !is_line_end(arg_at(s, j), j) ==> j < arg_at(s, j).2,
{
    lemma_token_end_bounds(s, j, false);
    if char_at(s, j) == '-' {
        assert(j < s.len());
        lemma_token_end_bounds(s, j + 1, false);
        if char_at(s, j + 1) == '-' {
            lemma_token_end_bounds(s, j + 2, true);
            let e = token_end(s, j + 2, true);
            if char_at(s, e) == '=' {
                lemma_token_end_bounds(s, e + 1, false);
            }
        }
    }
}

pub proof fn lemma_arg_at_advances(s: Seq<char>, i: int)
    requires
        0 <= i < s.len(),
        !is_line_end(arg_at(s, skip_ws(s, i)), skip_ws(s, i)),
    ensures
        i < arg_at(s, skip_ws(s, i)).2 <= s.len(),
{
    lemma_skip_ws_bounds(s, i);
    lemma_arg_at_bounds(s, skip_ws(s, i));
}

/// Byte range of `r` as integers.
pub open spec fn span_of(r: TextRange) -> (int, int) {
    (r@.0 as int, r@.1 as int)
}

/// A parsed line.
#[derive(Clone, Debug, PartialEq, Eq)]
pub enum Expression {
    Call(CallExpression),
    String(StringExpression),
    Noop,
}

/// A function name and its arguments.
#[derive(Clone, Debug, PartialEq, Eq)]
pub struct CallExpression {
    pub function: StringExpression,
    pub arguments: Vec<Argument>,
    pub range: TextRange,
}

/// A run of text.
#[derive(Clone, Copy, Debug, PartialEq, Eq, Structural)]
pub struct StringExpression {
    pub range: TextRange,
}

/// One argument of a call; the range of a short or long argument includes
/// its dashes.
#[derive(Clone, Copy, Debug, PartialEq, Eq, Structural)]
pub enum Argument {
    Plain(StringExpression),
    Long(StringExpression),
    Short(StringExpression),
}

impl View for Argument {
    type V = (ArgKind, int, int);

    open spec fn view(&self) -> (ArgKind, int, int) {
        match self {
            Argument::Plain(e) => (ArgKind::Plain, span_of(e.range).0, span_of(e.range).1),
            Argument::Long(e) => (ArgKind::Long, span_of(e.range).0, span_of(e.range).1),
            Argument::Short(e) => (ArgKind::Short, span_of(e.range).0, span_of(e.range).1),
        }
    }
}

impl Argument {
    pub fn range(&self) -> (r: TextRange)
        ensures
            span_of(r) == (self@.1, self@.2),
    {
        match self {
            Argument::Plain(expr) => expr.range,
            Argument::Long(expr) => expr.range,
            Argument::Short(expr) => expr.range,
        }
    }
}

/// The arguments as kinds and byte ranges.
pub open spec fn views_of(args: Seq<Argument>) -> Seq<(ArgKind, int, int)> {
    args.map_values(|a: Argument| a@)
}

/// Reads a command line into an `Expression`.
pub struct Parser {
    scanner: Scanner,
    current_range: TextRange,
}

impl Parser {
    /// The characters of the line.
    pub closed spec fn text(&self) -> Seq<char> {
        self.scanner.text()
    }

    /// How many characters have been read.
    pub closed spec fn position(&self) -> nat {
        self.scanner.position()
    }

    pub closed spec fn wf(&self) -> bool {
        &&& self.scanner.wf()
        &&& self.scanner.position() <= self.scanner.text().len()
        &&& self.current_range@.1 == byte_offset(self.text(), self.position() as int)
        &&& self.current_range@.0 <= self.current_range@.1
        &&& byte_len(self.text()) <= usize::MAX
    }

    pub fn new(src: &str) -> (r: Self)
        ensures
            r.wf(),
            r.text() == src@,
            r.position() == 0,
    {
        let scanner = Scanner::new(src);
        assert(src@.subrange(0, 0) =~= Seq::<char>::empty());
        Parser { scanner, current_range: TextRange::from_bounds(0, 0) }
    }

    /// The expression that the whole line holds: `Noop` for a blank line,
    /// else a call.
    pub fn parse(&mut self) -> (r: Expression)
        requires
            old(self).wf(),
            old(self).position() == 0,
        ensures
            final(self).text() == old(self).text(),
            match r {
                Expression::Noop => function_of(old(self).text()) is None,
                Expression::Call(c) => {
                    &&& function_of(old(self).text()) == Some(span_of(c.function.range))
                    &&& views_of(c.arguments@) == arguments_of(old(self).text())
                    &&& span_of(c.range) == call_range_of(old(self).text())
                },
                Expression::String(_) => false,
            },
    {
        self.parse_expression()
    }

    fn parse_expression(&mut self) -> (r: Expression)
        requires
            old(self).wf(),
            old(self).position() == 0,
        ensures
            final(self).text() == old(self).text(),
            match r {
                Expression::Noop => function_of(old(self).text()) is None,
                Expression::Call(c) => {
                    &&& function_of(old(self).text()) == Some(span_of(c.function.range))
                    &&& views_of(c.arguments@) == arguments_of(old(self).text())
                    &&& span_of(c.range) == call_range_of(old(self).text())
                },
                Expression::String(_) => false,
            },
    {
        match self.maybe_parse_call_expression() {
            Some(call) => Expression::Call(call),
            None => Expression::Noop,
        }
    }

    fn maybe_parse_call_expression(&mut self) -> (r: Option<CallExpression>)
        requires
            old(self).wf(),
            old(self).position() == 0,
        ensures
            final(self).text() == old(self).text(),
            match r {
                None => function_of(old(self).text()) is None,
                Some(c) => {
                    &&& function_of(old(self).text()) == Some(span_of(c.function.range))
                    &&& views_of(c.arguments@) == arguments_of(old(self).text())
                    &&& span_of(c.range) == call_range_of(old(self).text())
                },
            },
    {
        let ghost t = self.text();
        let ghost j0 = skip_ws(t, 0);
        proof {
            lemma_skip_ws_bounds(t, 0);
            lemma_token_end_bounds(t, j0, false);
        }
        let function = self.parse_string();
        if function.range.is_empty() {
            proof {
                lemma_byte_offset_bounds(t, j0, token_end(t, j0, false));
            }
            return None;
        }
        let ghost e = self.position() as int;
        proof {
            lemma_byte_offset_bounds(t, j0, e);
        }
        let mut call_range = function.range;
        let mut arguments: Vec<Argument> = Vec::new();
        let mut done = false;
        let ghost mut last_end: int = e;
        assert(views_of(arguments@) =~= Seq::<(ArgKind, int, int)>::empty());
        while !done
            invariant
                self.wf(),
                self.text() == t,
                e <= self.position() <= t.len(),
                args_from(t, e) == views_of(arguments@) + args_from(t, self.position() as int),
                done ==> args_from(t, self.position() as int).len() == 0,
                arguments@.len() > 0 ==> {
                    &&& arguments@.last()@.2 == byte_offset(t, last_end)
                    &&& e <= last_end <= self.position()
                },
            decreases t.len() - self.position() + (if done {
                0int
            } else {
                1int
            }),
        {
            let ghost p = self.position() as int;
            let ghost before = arguments@;
            proof {
                lemma_skip_ws_bounds(t, p);
                lemma_arg_at_bounds(t, skip_ws(t, p));
            }
            match self.maybe_parse_argument() {
                Some(arg) => {
                    arguments.push(arg);
                    proof {
                        last_end = self.position() as int;
                        assert(views_of(arguments@) =~= views_of(before) + seq![arg@]);
                        assert(views_of(arguments@) + args_from(t, self.position() as int)
                            =~= views_of(before) + (seq![arg@] + args_from(
                            t,
                            self.position() as int,
                        )));
                    }
                },
                None => {
                    done = true;
                    assert(views_of(arguments@) + args_from(t, self.position() as int)
                        =~= views_of(arguments@));
                    assert(views_of(arguments@) + args_from(t, p) =~= views_of(arguments@));
                },
            }
        }
        assert(views_of(arguments@) =~= args_from(t, e));
        if arguments.len() > 0 {
            let last = arguments[arguments.len() - 1];
            proof {
                lemma_byte_offset_bounds(t, j0, last_end);
            }
            call_range.extend_to(last.range().end());
        }
        Some(CallExpression { function, arguments, range: call_range })
    }

    fn parse_string(&mut self) -> (r: StringExpression)
        requires
            old(self).wf(),
        ensures
            final(self).wf(),
            final(self).text() == old(self).text(),
            final(self).position() == token_end(
                old(self).text(),
                skip_ws(old(self).text(), old(self).position() as int),
                false,
            ),
            span_of(r.range) == (
                byte_offset(
                    old(self).text(),
                    skip_ws(old(self).text(), old(self).position() as int),
                ),
                byte_offset(old(self).text(), final(self).position() as int),
            ),
    {
        self.parse_string_with_terminator(false)
    }

    /// Reads the token after any whitespace; it ends at whitespace or the end
    /// of the line, and also at `=` where `stop_at_equals` is set.
    fn parse_string_with_terminator(&mut self, stop_at_equals: bool) -> (r: StringExpression)
        requires
            old(self).wf(),
        ensures
            final(self).wf(),
            final(self).text() == old(self).text(),
            final(self).position() == token_end(
                old(self).text(),
                skip_ws(old(self).text(), old(self).position() as int),
                stop_at_equals,
            ),
            span_of(r.range) == (
                byte_offset(
                    old(self).text(),
                    skip_ws(old(self).text(), old(self).position() as int),
                ),
                byte_offset(old(self).text(), final(self).position() as int),
            ),
    {
        self.eat_whitespace();
        self.start_token();
        self.eat_token(stop_at_equals);
        StringExpression { range: self.current_range }
    }

    /// Reads on to the end of the token under the cursor.
    fn eat_token(&mut self, stop_at_equals: bool)
        requires
            old(self).wf(),
        ensures
            final(self).wf(),
            final(self).text() == old(self).text(),
            final(self).position() == token_end(
                old(self).text(),
                old(self).position() as int,
                stop_at_equals,
            ),
            final(self).current_range@.0 == old(self).current_range@.0,
    {
        let ghost t = self.text();
        let ghost p0 = self.position() as int;
        while !is_whitespace(self.scanner.current()) && !self.scanner.is_finished() && !(
        stop_at_equals && self.scanner.current() == '=')
            invariant
                self.wf(),
                self.text() == t,
                p0 <= self.position(),
                token_end(t, self.position() as int, stop_at_equals) == token_end(
                    t,
                    p0,
                    stop_at_equals,
                ),
                self.current_range@.0 == old(self).current_range@.0,
            decreases t.len() - self.position(),
        {
            self.eat();
        }
    }

    fn maybe_parse_argument(&mut self) -> (r: Option<Argument>)
        requires
            old(self).wf(),
        ensures
            final(self).wf(),
            final(self).text() == old(self).text(),
            ({
                let t = old(self).text();
                let j = skip_ws(t, old(self).position() as int);
                let a = arg_at(t, j);
                if is_line_end(a, j) {
                    r is None && final(self).position() == j
                } else {
                    &&& r is Some
                    &&& r.unwrap()@ == (a.0, byte_offset(t, a.1), byte_offset(t, a.2))
                    &&& final(self).position() == a.2
                }
            }),
    {
        proof {
            lemma_skip_ws_bounds(self.text(), self.position() as int);
        }
        self.eat_whitespace();
        if self.scanner.current() == '-' {
            Some(self.parse_keyword_argument())
        } else {
            self.parse_plain_argument()
        }
    }

    fn parse_plain_argument(&mut self) -> (r: Option<Argument>)
        requires
            old(self).wf(),
            !is_white_space(char_at(old(self).text(), old(self).position() as int)),
            char_at(old(self).text(), old(self).position() as int) != '-',
        ensures
            final(self).wf(),
            final(self).text() == old(self).text(),
            ({
                let t = old(self).text();
                let j = old(self).position() as int;
                let a = arg_at(t, j);
                if is_line_end(a, j) {
                    r is None && final(self).position() == j
                } else {
                    &&& r is Some
                    &&& r.unwrap()@ == (a.0, byte_offset(t, a.1), byte_offset(t, a.2))
                    &&& final(self).position() == a.2
                }
            }),
    {
        let ghost t = self.text();
        let ghost j = self.position() as int;
        assert(skip_ws(t, j) == j);
        proof {
            lemma_token_end_bounds(t, j, false);
            lemma_byte_offset_bounds(t, j, token_end(t, j, false));
        }
        let arg = self.parse_string();
        if arg.range.is_empty() {
            None
        } else {
            Some(Argument::Plain(arg))
        }
    }

    /// Reads a short or long argument; the cursor is on its first `-`.
    fn parse_keyword_argument(&mut self) -> (r: Argument)
        requires
            old(self).wf(),
            char_at(old(self).text(), old(self).position() as int) == '-',
        ensures
            final(self).wf(),
            final(self).text() == old(self).text(),
            ({
                let t = old(self).text();
                let a = arg_at(t, old(self).position() as int);
                &&& r@ == (a.0, byte_offset(t, a.1), byte_offset(t, a.2))
                &&& final(self).position() == a.2
            }),
    {
        let ghost t = self.text();
        let ghost j = self.position() as int;
        proof {
            assert(('\0' as u32) == 0);
        }
        let start = self.scanner.current_index();
        self.start_token();
        if self.eat() == '-' {
            if is_whitespace(self.eat()) {
                Argument::Long(StringExpression { range: self.current_range })
            } else {
                let mut arg = self.parse_string_with_terminator(true);
                arg.range.extend_backwards_to(start);
                proof {
                    lemma_skip_ws_bounds(t, j + 2);
                    lemma_token_end_bounds(t, skip_ws(t, j + 2), true);
                }
                if self.scanner.current() == '=' {
                    let ghost e = self.position() as int;
                    self.eat();
                    self.eat_token(false);
                    proof {
                        lemma_token_end_bounds(t, e + 1, false);
                        lemma_byte_offset_bounds(t, j, self.position() as int);
                    }
                    arg.range.extend_to(self.scanner.current_index());
                }
                Argument::Long(arg)
            }
        } else if is_whitespace(self.scanner.current()) {
            Argument::Short(StringExpression { range: self.current_range })
        } else {
            let mut arg = self.parse_string();
            arg.range.extend_backwards_to(start);
            Argument::Short(arg)
        }
    }

    /// Steps past the character under the cursor, taking it into the current
    /// token.
    fn eat(&mut self) -> (r: char)
        requires
            old(self).wf(),
            char_at(old(self).text(), old(self).position() as int) != '\0',
        ensures
            final(self).wf(),
            final(self).text() == old(self).text(),
            final(self).position() == old(self).position() + 1,
            final(self).current_range@.0 == old(self).current_range@.0,
            r == char_at(final(self).text(), final(self).position() as int),
    {
        let ghost t = self.text();
        let ghost p = self.position() as int;
        proof {
            lemma_byte_offset_bounds(t, p + 1, t.len() as int);
            lemma_byte_offset_bounds(t, p, p + 1);
        }
        let res = self.scanner.eat();
        self.current_range.extend_to(self.scanner.current_index());
        res
    }

    fn eat_whitespace(&mut self)
        requires
            old(self).wf(),
        ensures
            final(self).wf(),
            final(self).text() == old(self).text(),
            final(self).position() == skip_ws(old(self).text(), old(self).position() as int),
            final(self).current_range@.0 == old(self).current_range@.0,
    {
        let ghost t = self.text();
        let ghost p0 = self.position() as int;
        proof {
            assert(('\0' as u32) == 0);
        }
        while is_whitespace(self.scanner.current())
            invariant
                self.wf(),
                self.text() == t,
                p0 <= self.position(),
                skip_ws(t, self.position() as int) == skip_ws(t, p0),
                self.current_range@.0 == old(self).current_range@.0,
            decreases t.len() - self.position(),
        {
            self.eat();
        }
    }

    fn start_token(&mut self)
        requires
            old(self).wf(),
        ensures
            final(self).wf(),
            final(self).text() == old(self).text(),
            final(self).position() == old(self).position(),
            final(self).current_range@ == (
                byte_offset(final(self).text(), final(self).position() as int) as nat,
                byte_offset(final(self).text(), final(self).position() as int) as nat,
            ),
    {
        self.current_range = TextRange::start_new(self.scanner.current_index());
    }
}

impl CallExpression {
    /// The text after the function name, up to the end of the last argument.
    pub fn get_args_str<'s>(&self, src: &'s str) -> (r: &'s str)
        requires
            span_of(self.function.range).1 <= span_of(self.range).1,
            is_boundary(src@, span_of(self.function.range).1),
            is_boundary(src@, span_of(self.range).1),
        ensures
            r@ == byte_slice(src@, span_of(self.function.range).1, span_of(self.range).1),
    {
        slice_bytes(src, self.function.range.end().as_index(), self.range.end().as_index())
    }
}

impl StringExpression {
    /// The text that the range covers in `src`.
    pub fn get_content<'s>(&self, src: &'s str) -> (r: &'s str)
        requires
            span_of(self.range).0 <= span_of(self.range).1,
            is_boundary(src@, span_of(self.range).0),
            is_boundary(src@, span_of(self.range).1),
        ensures
            r@ == byte_slice(src@, span_of(self.range).0, span_of(self.range).1),
    {
        slice_bytes(src, self.range.start().as_index(), self.range.end().as_index())
    }
}

impl Argument {
    /// The text of the argument in `src`, dashes included.
    pub fn get_content<'s>(&self, src: &'s str) -> (r: &'s str)
        requires
            self@.1 <= self@.2,
            is_boundary(src@, self@.1),
            is_boundary(src@, self@.2),
        ensures
            r@ == byte_slice(src@, self@.1, self@.2),
    {
        let range = self.range();
        slice_bytes(src, range.start().as_index(), range.end().as_index())
    }
}

/// The arguments from `i` on lie on character boundaries, in order, after
/// byte offset of `i`.
pub proof fn lemma_args_from_boundaries(s: Seq<char>, i: int)
    requires
        0 <= i <= s.len(),
    ensures
        forall|k: int|
            0 <= k < args_from(s, i).len() ==> {
                let a = #[trigger] args_from(s, i)[k];
                &&& byte_offset(s, i) <= a.1 <= a.2
                &&& is_boundary(s, a.1)
                &&& is_boundary(s, a.2)
            },
    decreases s.len() - i,
{
    if i < s.len() {
        let j = skip_ws(s, i);
        let a = arg_at(s, j);
        lemma_skip_ws_bounds(s, i);
        lemma_arg_at_bounds(s, j);
        if !is_line_end(a, j) {
            lemma_args_from_boundaries(s, a.2);
            lemma_offset_is_boundary(s, a.1);
            lemma_offset_is_boundary(s, a.2);
            lemma_byte_offset_bounds(s, i, a.1);
            lemma_byte_offset_bounds(s, a.1, a.2);
            let r = args_from(s, i);
            let rest = args_from(s, a.2);
            assert(r == seq![(a.0, byte_offset(s, a.1), byte_offset(s, a.2))] + rest);
            assert forall|k: int| 0 <= k < r.len() implies {
                let b = #[trigger] r[k];
                &&& byte_offset(s, i) <= b.1 <= b.2
                &&& is_boundary(s, b.1)
                &&& is_boundary(s, b.2)
            } by {
                if k > 0 {
                    assert(r[k] == rest[k - 1]);
                }
            }
        }
    }
}

/// The ranges of a parsed call lie on character boundaries of the line:
/// the function name, each argument, and the whole call.
pub proof fn lemma_parse_boundaries(s: Seq<char>)
    requires
        function_of(s) is Some,
    ensures
        ({
            let f = function_of(s).unwrap();
            let args = arguments_of(s);
            &&& f.0 <= f.1
            &&& is_boundary(s, f.0)
            &&& is_boundary(s, f.1)
            &&& call_range_of(s).0 == f.0
            &&& f.1 <= call_range_of(s).1
            &&& is_boundary(s, call_range_of(s).1)
            &&& forall|k: int|
                0 <= k < args.len() ==> {
                    let a = #[trigger] args[k];
                    &&& f.1 <= a.1 <= a.2
                    &&& is_boundary(s, a.1)
                    &&& is_boundary(s, a.2)
                }
        }),
{
    let j = skip_ws(s, 0);
    let e = token_end(s, j, false);
    lemma_skip_ws_bounds(s, 0);
    lemma_token_end_bounds(s, j, false);
    lemma_offset_is_boundary(s, j);
    lemma_offset_is_boundary(s, e);
    lemma_byte_offset_bounds(s, j, e);
    lemma_args_from_boundaries(s, e);
    let args = arguments_of(s);
    if args.len() > 0 {
        assert(args[args.len() - 1] == args.last());
    }
}

} // verus!
