//! Which style each piece of an edited line gets: the command name as a
//! known or unknown command, flags as flags, everything else plain.

use vstd::prelude::*;
use crate::parse::{span_of, ArgKind, Argument, Expression};
use crate::text::{byte_len, byte_slice, check_boundary, is_boundary, slice_bytes, str_eq};

verus! {

/// How a piece of the line is shown.
#[derive(Clone, Copy, Debug, PartialEq, Eq, Structural)]
pub enum TokenStyle {
    Plain,
    KnownCommand,
    UnknownCommand,
    Flag,
}

/// The bytes `[start, end)` of the line, shown in `style`.
#[derive(Clone, Copy, Debug, PartialEq, Eq, Structural)]
pub struct StyledSpan {
    pub start: usize,
    pub end: usize,
    pub style: TokenStyle,
}

impl View for StyledSpan {
    type V = (int, int, TokenStyle);

    open spec fn view(&self) -> (int, int, TokenStyle) {
        (self.start as int, self.end as int, self.style)
    }
}

pub open spec fn spans_view(spans: Seq<StyledSpan>) -> Seq<(int, int, TokenStyle)> {
    spans.map_values(|s: StyledSpan| s@)
}

/// The plain piece between `from` and `to`, where there is one.
pub open spec fn gap(from: int, to: int) -> Seq<(int, int, TokenStyle)> {
    if from < to {
        seq![(from, to, TokenStyle::Plain)]
    } else {
        Seq::empty()
    }
}

pub open spec fn arg_style(kind: ArgKind) -> TokenStyle {
    match kind {
        ArgKind::Plain => TokenStyle::Plain,
        ArgKind::Short => TokenStyle::Flag,
        ArgKind::Long => TokenStyle::Flag,
    }
}

/// The pieces for `args`, the text before them starting at byte `from`.
pub open spec fn arg_spans(args: Seq<(ArgKind, int, int)>, from: int) -> Seq<
    (int, int, TokenStyle),
>
    decreases args.len(),
{
    if args.len() == 0 {
        Seq::empty()
    } else {
        gap(from, args[0].1) + seq![(args[0].1, args[0].2, arg_style(args[0].0))] + arg_spans(
            args.drop_first(),
            args[0].2,
        )
    }
}

/// Where the pieces for `args` end.
pub open spec fn args_end(args: Seq<(ArgKind, int, int)>, from: int) -> int {
    if args.len() == 0 {
        from
    } else {
        args.last().2
    }
}

/// The pieces of a line of `len` bytes parsed into `expr`, with the command
/// name shown as known where `known` holds.
pub open spec fn highlight_spec(expr: Expression, len: int, known: bool) -> Seq<
    (int, int, TokenStyle),
> {
    match expr {
        Expression::Call(c) => {
            let f = span_of(c.function.range);
            let args = c.arguments@.map_values(|a: Argument| a@);
            gap(0, f.0) + seq![
                (f.0, f.1, if known {
                    TokenStyle::KnownCommand
                } else {
                    TokenStyle::UnknownCommand
                }),
            ] + arg_spans(args, f.1) + gap(args_end(args, f.1), len)
        },
        Expression::String(s) => gap(0, span_of(s.range).0) + seq![
            (span_of(s.range).0, span_of(s.range).1, TokenStyle::Plain),
        ] + gap(span_of(s.range).1, len),
        Expression::Noop => gap(0, len),
    }
}

/// Whether the command name of `expr` is among `commands`.
pub open spec fn is_known_command(expr: Expression, line: Seq<char>, commands: Seq<Seq<char>>) -> bool {
    match expr {
        Expression::Call(c) => {
            let f = span_of(c.function.range);
            &&& f.0 <= f.1
            &&& is_boundary(line, f.0)
            &&& is_boundary(line, f.1)
            &&& commands.contains(byte_slice(line, f.0, f.1))
        },
        _ => false,
    }
}

fn push_gap(spans: &mut Vec<StyledSpan>, from: usize, to: usize)
    ensures
        spans_view(final(spans)@) == spans_view(old(spans)@) + gap(from as int, to as int),
{
    let ghost before = spans_view(spans@);
    if from < to {
        spans.push(StyledSpan { start: from, end: to, style: TokenStyle::Plain });
        assert(spans_view(spans@) =~= before + gap(from as int, to as int));
    } else {
        assert(spans_view(spans@) =~= before + gap(from as int, to as int));
    }
}

fn contains_command(commands: &Vec<String>, name: &str) -> (r: bool)
    ensures
        r == commands@.map_values(|c: String| c@).contains(name@),
{
    let ghost cs = commands@.map_values(|c: String| c@);
    let mut k: usize = 0;
    while k < commands.len()
        invariant
            cs == commands@.map_values(|c: String| c@),
            k <= commands.len(),
            forall|j: int| 0 <= j < k ==> cs[j] != name@,
        decreases commands.len() - k,
    {
        assert(cs[k as int] == commands@[k as int]@);
        if str_eq(commands[k].as_str(), name) {
            assert(cs[k as int] == name@);
            return true;
        }
        k = k + 1;
    }
    false
}

/// The styled pieces of `line`, which `expression` was parsed from, in
/// order: the command name as known or unknown, flags as flags, and
/// everything else plain.
pub fn highlight_spans(expression: &Expression, line: &str, commands: &Vec<String>) -> (r: Vec<
    StyledSpan,
>)
    ensures
        spans_view(r@) == highlight_spec(
            *expression,
            byte_len(line@) as int,
            is_known_command(*expression, line@, commands@.map_values(|c: String| c@)),
        ),
{
    let len = line.as_bytes().len();
    proof {
        crate::text::lemma_byte_len_is_encoding_len(line@);
    }
    let mut spans: Vec<StyledSpan> = Vec::new();
    match expression {
        Expression::Call(call) => {
            let f = call.function.range;
            let start = f.start().as_index();
            let end = f.end().as_index();
            let known = if start <= end && check_boundary(line, start) && check_boundary(line, end) {
                contains_command(commands, slice_bytes(line, start, end))
            } else {
                false
            };
            push_gap(&mut spans, 0, start);
            let ghost before = spans_view(spans@);
            let style = if known {
                TokenStyle::KnownCommand
            } else {
                TokenStyle::UnknownCommand
            };
            spans.push(StyledSpan { start, end, style });
            assert(spans_view(spans@) =~= before + seq![(start as int, end as int, style)]);
            let ghost head = spans_view(spans@);
            let ghost args = call.arguments@.map_values(|a: Argument| a@);
            let mut pos = end;
            let mut i: usize = 0;
            assert(args.subrange(0, args.len() as int) =~= args);
            while i < call.arguments.len()
                invariant
                    args == call.arguments@.map_values(|a: Argument| a@),
                    i <= args.len(),
                    head + arg_spans(args, end as int) == spans_view(spans@) + arg_spans(
                        args.subrange(i as int, args.len() as int),
                        pos as int,
                    ),
                    pos as int == args_end(args.subrange(0, i as int), end as int),
                decreases call.arguments.len() - i,
            {
                let ghost rest = args.subrange(i as int, args.len() as int);
                let ghost mid = spans_view(spans@);
                let range = call.arguments[i].range();
                let a_start = range.start().as_index();
                let a_end = range.end().as_index();
                let style = match call.arguments[i] {
                    Argument::Plain(_) => TokenStyle::Plain,
                    _ => TokenStyle::Flag,
                };
                assert(rest[0] == args[i as int]);
                assert(rest.drop_first() =~= args.subrange(i + 1, args.len() as int));
                push_gap(&mut spans, pos, a_start);
                let ghost mid2 = spans_view(spans@);
                spans.push(StyledSpan { start: a_start, end: a_end, style });
                assert(spans_view(spans@) =~= mid2 + seq![(a_start as int, a_end as int, style)]);
                assert(mid + arg_spans(rest, pos as int) =~= spans_view(spans@) + arg_spans(
                    rest.drop_first(),
                    a_end as int,
                ));
                assert(args.subrange(0, i + 1).last() == args[i as int]);
                pos = a_end;
                i = i + 1;
            }
            assert(args.subrange(i as int, args.len() as int) =~= Seq::<(ArgKind, int, int)>::empty());
            assert(args.subrange(0, args.len() as int) =~= args);
            push_gap(&mut spans, pos, len);
        },
        Expression::String(string) => {
            push_gap(&mut spans, 0, string.range.start().as_index());
            let ghost before = spans_view(spans@);
            let s = StyledSpan {
                start: string.range.start().as_index(),
                end: string.range.end().as_index(),
                style: TokenStyle::Plain,
            };
            spans.push(s);
            assert(spans_view(spans@) =~= before + seq![s@]);
            push_gap(&mut spans, string.range.end().as_index(), len);
        },
        Expression::Noop => {
            push_gap(&mut spans, 0, len);
        },
    }
    spans
}

} // verus!
