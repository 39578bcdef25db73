//! Completion at the cursor of an edited line: command names at the
//! function position, paths at plain arguments.

use vstd::prelude::*;
use crate::cache::FileCache;
use crate::classify::{classify_location, classify_spec, LocationType};
use crate::engine::{completion_post, path_completions as complete_paths, paths_view, starts_with, LoadChildren};
use crate::parse::{span_of, Expression};
use crate::path::{join_spec, name_spec, H5Path};
use crate::text::{byte_slice, check_boundary, is_boundary, slice_bytes};
use crate::text_index::TextIndex;

verus! {

/// A completion: the whole text to show, and the part to insert at the
/// cursor.
#[derive(Clone, Debug, PartialEq, Eq)]
pub struct Candidate {
    /// Text to display when listing alternatives.
    pub display: String,
    /// Text to insert in line.
    pub replacement: String,
}

impl View for Candidate {
    type V = (Seq<char>, Seq<char>);

    open spec fn view(&self) -> (Seq<char>, Seq<char>) {
        (self.display@, self.replacement@)
    }
}

/// The candidates as pairs of texts.
pub open spec fn candidates_view(cs: Seq<Candidate>) -> Seq<(Seq<char>, Seq<char>)> {
    cs.map_values(|c: Candidate| c@)
}

/// The command names that start with `input`, each with what is left to
/// type, in the order given.
pub open spec fn command_candidates(input: Seq<char>, commands: Seq<Seq<char>>) -> Seq<
    (Seq<char>, Seq<char>),
>
    decreases commands.len(),
{
    if commands.len() == 0 {
        Seq::empty()
    } else {
        let rest = command_candidates(input, commands.drop_last());
        let cmd = commands.last();
        if input.is_prefix_of(cmd) {
            rest.push((cmd, cmd.subrange(input.len() as int, cmd.len() as int)))
        } else {
            rest
        }
    }
}

/// The candidate for a completed path `p` when `current` was typed: the
/// name of `p` to show, and what follows `current` in `p` to insert.
pub open spec fn path_candidate(p: Seq<char>, current: Seq<char>) -> (Seq<char>, Seq<char>) {
    (
        name_spec(p),
        if current.is_prefix_of(p) {
            p.subrange(current.len() as int, p.len() as int)
        } else {
            Seq::empty()
        },
    )
}

pub open spec fn path_candidates(paths: Seq<Seq<char>>, current: Seq<char>) -> Seq<
    (Seq<char>, Seq<char>),
> {
    paths.map_values(|p: Seq<char>| path_candidate(p, current))
}

/// The candidates `r` come from paths that a completion of `current` may
/// give, the cache going from `c0` to `c1`.
pub open spec fn path_result<V>(
    c0: FileCache<V>,
    current: Seq<char>,
    c1: FileCache<V>,
    r: Seq<(Seq<char>, Seq<char>)>,
) -> bool {
    exists|paths: Seq<Seq<char>>|
        completion_post(c0, current, c1, paths) && r == #[trigger] path_candidates(paths, current)
}

impl Candidate {
    /// `text` as a candidate for `prefix`, where it starts with it.
    pub fn from_prefix(text: &str, prefix: &str) -> (r: Option<Self>)
        ensures
            r is Some <==> prefix@.is_prefix_of(text@),
            r is Some ==> r.unwrap()@ == (
                text@,
                text@.subrange(prefix@.len() as int, text@.len() as int),
            ),
    {
        if starts_with(text, prefix) {
            let n = text.unicode_len();
            let m = prefix.unicode_len();
            Some(
                Candidate {
                    display: text.to_owned(),
                    replacement: text.substring_char(m, n).to_owned(),
                },
            )
        } else {
            None
        }
    }
}

/// The command names that start with `input`.
pub fn command_completions(input: &str, commands: &Vec<String>) -> (r: Vec<Candidate>)
    ensures
        candidates_view(r@) == command_candidates(
            input@,
            commands@.map_values(|c: String| c@),
        ),
{
    let ghost cmds = commands@.map_values(|c: String| c@);
    let mut r: Vec<Candidate> = Vec::new();
    let mut k: usize = 0;
    while k < commands.len()
        invariant
            cmds == commands@.map_values(|c: String| c@),
            k <= commands.len(),
            candidates_view(r@) == command_candidates(input@, cmds.subrange(0, k as int)),
        decreases commands.len() - k,
    {
        let ghost before = candidates_view(r@);
        assert(cmds.subrange(0, k + 1).drop_last() =~= cmds.subrange(0, k as int));
        assert(cmds[k as int] == commands@[k as int]@);
        match Candidate::from_prefix(commands[k].as_str(), input) {
            Some(c) => {
                r.push(c);
                assert(candidates_view(r@) =~= before.push(c@));
            },
            None => {},
        }
        k = k + 1;
    }
    assert(cmds.subrange(0, commands.len() as int) =~= cmds);
    r
}

/// The text of `p` after `current`, or nothing where `p` does not start
/// with it.
fn strip_current(p: &H5Path, current: &H5Path) -> (r: String)
    ensures
        r@ == path_candidate(p@, current@).1,
{
    let s = p.as_raw();
    let c = current.as_raw();
    if starts_with(s, c) {
        s.substring_char(c.unicode_len(), s.unicode_len()).to_owned()
    } else {
        String::new()
    }
}

/// Candidates for the path argument `input`, taken relative to
/// `working_group`.
fn path_completions<V, L: LoadChildren<V>>(
    input: &str,
    file_cache: &mut FileCache<V>,
    working_group: &H5Path,
    loader: &L,
) -> (r: Vec<Candidate>)
    requires
        old(file_cache).wf(),
    ensures
        path_result(
            *old(file_cache),
            join_spec(working_group@, input@),
            *final(file_cache),
            candidates_view(r@),
        ),
{
    let current = working_group.join(&H5Path::from_str(input));
    let paths = complete_paths(file_cache, &current, loader);
    let ghost pv = paths_view(paths@);
    let mut r: Vec<Candidate> = Vec::new();
    let mut k: usize = 0;
    while k < paths.len()
        invariant
            pv == paths_view(paths@),
            k <= paths.len(),
            candidates_view(r@) == path_candidates(pv.subrange(0, k as int), current@),
        decreases paths.len() - k,
    {
        let ghost before = candidates_view(r@);
        let p = &paths[k];
        let c = Candidate { display: p.name().to_owned(), replacement: strip_current(p, &current) };
        assert(c@ == path_candidate(p@, current@));
        r.push(c);
        assert(pv[k as int] == p@);
        assert(candidates_view(r@) =~= before.push(c@));
        assert(pv.subrange(0, k + 1) =~= pv.subrange(0, k as int).push(p@));
        assert(path_candidates(pv.subrange(0, k + 1), current@) =~= path_candidates(
            pv.subrange(0, k as int),
            current@,
        ).push(path_candidate(p@, current@)));
        k = k + 1;
    }
    assert(pv.subrange(0, paths.len() as int) =~= pv);
    assert(completion_post(*old(file_cache), current@, *file_cache, pv));
    r
}

/// The cursor sits at the end of a command or path token whose bytes lie
/// on character boundaries of the line.
pub open spec fn token_text_ok(line: Seq<char>, l: LocationType, pos: int) -> bool {
    match l {
        LocationType::Path(range) => pos == span_of(range).1 && span_of(range).0 <= span_of(
            range,
        ).1 && is_boundary(line, span_of(range).0) && is_boundary(line, span_of(range).1),
        LocationType::Command(range) => pos == span_of(range).1 && span_of(range).0 <= span_of(
            range,
        ).1 && is_boundary(line, span_of(range).0) && is_boundary(line, span_of(range).1),
        LocationType::Other(_) => false,
    }
}

/// Completion at byte `pos` of `line`, which `expression` was parsed from.
/// At the end of the command name the known commands that start with it are
/// offered; at the end of a plain argument the paths that complete it,
/// relative to `working_group`; elsewhere nothing. The insertion point is
/// always `pos`.
pub fn complete<V, L: LoadChildren<V>>(
    expression: &Expression,
    line: &str,
    pos: usize,
    commands: &Vec<String>,
    file_cache: &mut FileCache<V>,
    working_group: &H5Path,
    loader: &L,
) -> (r: (usize, Vec<Candidate>))
    requires
        old(file_cache).wf(),
    ensures
        r.0 == pos,
        final(file_cache).wf(),
        ({
            let l = classify_spec(*expression, pos as int);
            if !token_text_ok(line@, l, pos as int) {
                &&& r.1@.len() == 0
                &&& final(file_cache).keys() == old(file_cache).keys()
                &&& final(file_cache).entries() == old(file_cache).entries()
            } else {
                match l {
                    LocationType::Command(range) => {
                        &&& candidates_view(r.1@) == command_candidates(
                            byte_slice(line@, span_of(range).0, span_of(range).1),
                            commands@.map_values(|c: String| c@),
                        )
                        &&& final(file_cache).keys() == old(file_cache).keys()
                        &&& final(file_cache).entries() == old(file_cache).entries()
                    },
                    LocationType::Path(range) => path_result(
                        *old(file_cache),
                        join_spec(
                            working_group@,
                            byte_slice(line@, span_of(range).0, span_of(range).1),
                        ),
                        *final(file_cache),
                        candidates_view(r.1@),
                    ),
                    LocationType::Other(_) => true,
                }
            }
        }),
{
    let index = TextIndex::from_usize(pos);
    let location = classify_location(expression, index);
    let candidates = match location {
        LocationType::Path(range) => {
            let start = range.start().as_index();
            let end = range.end().as_index();
            if pos == end && start <= end && check_boundary(line, start) && check_boundary(
                line,
                end,
            ) {
                path_completions(slice_bytes(line, start, end), file_cache, working_group, loader)
            } else {
                Vec::new()
            }
        },
        LocationType::Command(range) => {
            let start = range.start().as_index();
            let end = range.end().as_index();
            if pos == end && start <= end && check_boundary(line, start) && check_boundary(
                line,
                end,
            ) {
                command_completions(slice_bytes(line, start, end), commands)
            } else {
                Vec::new()
            }
        },
        LocationType::Other(_) => Vec::new(),
    };
    (pos, candidates)
}

} // verus!
