//! What kind of completion applies at a cursor position of a parsed line.

use vstd::prelude::*;
use crate::parse::{span_of, Argument, Expression};
use crate::text_index::TextIndex;
use crate::text_range::TextRange;

verus! {

/// The token under the cursor and what it is.
#[derive(Clone, Copy, Debug, PartialEq, Eq, Structural)]
pub enum LocationType {
    Path(TextRange),
    Command(TextRange),
    Other(TextRange),
}

/// Whether `pos` lies in `r` or right at its end.
pub open spec fn contains_spec(r: TextRange, pos: int) -> bool {
    span_of(r).0 <= pos <= span_of(r).1
}

/// The range that a location speaks of.
pub open spec fn location_range(l: LocationType) -> TextRange {
    match l {
        LocationType::Path(r) => r,
        LocationType::Command(r) => r,
        LocationType::Other(r) => r,
    }
}

/// What an argument that holds `pos` stands for: a path for a plain one,
/// nothing to complete for a flag.
pub open spec fn classify_argument_spec(arg: Argument, pos: int) -> Option<LocationType> {
    match arg {
        Argument::Plain(e) => if contains_spec(e.range, pos) {
            Some(LocationType::Path(e.range))
        } else {
            None
        },
        Argument::Short(e) => if contains_spec(e.range, pos) {
            Some(LocationType::Other(e.range))
        } else {
            None
        },
        Argument::Long(e) => if contains_spec(e.range, pos) {
            Some(LocationType::Other(e.range))
        } else {
            None
        },
    }
}

/// The first argument that holds `pos` decides.
pub open spec fn classify_arguments_spec(args: Seq<Argument>, pos: int) -> Option<
    LocationType,
>
    decreases args.len(),
{
    if args.len() == 0 {
        None
    } else {
        match classify_argument_spec(args[0], pos) {
            Some(l) => Some(l),
            None => classify_arguments_spec(args.drop_first(), pos),
        }
    }
}

pub open spec fn classify_expression_spec(expr: Expression, pos: int) -> Option<LocationType> {
    match expr {
        Expression::String(s) => if contains_spec(s.range, pos) {
            Some(LocationType::Path(s.range))
        } else {
            None
        },
        Expression::Call(call) => if !contains_spec(call.range, pos) {
            None
        } else if contains_spec(call.function.range, pos) {
            Some(LocationType::Command(call.function.range))
        } else {
            classify_arguments_spec(call.arguments@, pos)
        },
        Expression::Noop => None,
    }
}

/// The location at `pos`; `Other` with an empty range where nothing holds it.
pub open spec fn classify_spec(expr: Expression, pos: int) -> LocationType {
    match classify_expression_spec(expr, pos) {
        Some(l) => l,
        None => LocationType::Other(TextRange::empty_spec()),
    }
}

impl LocationType {
    pub fn some_if_contains(self, pos: TextIndex) -> (r: Option<Self>)
        ensures
            r == if contains_spec(location_range(self), pos@ as int) {
                Some(self)
            } else {
                None
            },
    {
        if self.contains(pos) {
            Some(self)
        } else {
            None
        }
    }

    /// Whether `pos` lies in the range or right at its end: completion
    /// happens at the end of a token.
    pub fn contains(&self, pos: TextIndex) -> (r: bool)
        ensures
            r == contains_spec(location_range(*self), pos@ as int),
    {
        match self {
            LocationType::Path(range) => range.contains_or_end(pos),
            LocationType::Command(range) => range.contains_or_end(pos),
            LocationType::Other(range) => range.contains_or_end(pos),
        }
    }
}

/// What the cursor at `pos` is on.
pub fn classify_location(expression: &Expression, pos: TextIndex) -> (r: LocationType)
    ensures
        r == classify_spec(*expression, pos@ as int),
{
    match classify_location_expression(expression, pos) {
        Some(l) => l,
        None => LocationType::Other(TextRange::empty()),
    }
}

pub fn classify_location_expression(expression: &Expression, pos: TextIndex) -> (r: Option<
    LocationType,
>)
    ensures
        r == classify_expression_spec(*expression, pos@ as int),
{
    match expression {
        Expression::String(string) => LocationType::Path(string.range).some_if_contains(pos),
        Expression::Call(call) => {
            if !call.range.contains_or_end(pos) {
                return None;
            }
            if call.function.range.contains_or_end(pos) {
                Some(LocationType::Command(call.function.range))
            } else {
                let args = &call.arguments;
                let mut i: usize = 0;
                assert(args@.subrange(0, args@.len() as int) =~= args@);
                while i < args.len()
                    invariant
                        i <= args@.len(),
                        classify_expression_spec(*expression, pos@ as int)
                            == classify_arguments_spec(args@, pos@ as int),
                        classify_arguments_spec(args@, pos@ as int) == classify_arguments_spec(
                            args@.subrange(i as int, args@.len() as int),
                            pos@ as int,
                        ),
                    decreases args.len() - i,
                {
                    let ghost rest = args@.subrange(i as int, args@.len() as int);
                    assert(rest.drop_first() =~= args@.subrange(i + 1, args@.len() as int));
                    assert(rest[0] == args@[i as int]);
                    if let Some(l) = classify_location_argument(&args[i], pos) {
                        assert(rest.len() > 0);
                        assert(classify_arguments_spec(rest, pos@ as int) == Some(l));
                        return Some(l);
                    }
                    i = i + 1;
                }
                None
            }
        },
        Expression::Noop => None,
    }
}

pub fn classify_location_argument(argument: &Argument, pos: TextIndex) -> (r: Option<
    LocationType,
>)
    ensures
        r == classify_argument_spec(*argument, pos@ as int),
{
    match argument {
        Argument::Plain(string) => LocationType::Path(string.range).some_if_contains(pos),
        Argument::Short(string) => LocationType::Other(string.range).some_if_contains(pos),
        Argument::Long(string) => LocationType::Other(string.range).some_if_contains(pos),
    }
}

} // verus!
