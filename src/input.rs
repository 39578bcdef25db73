//! Turning an input line into a command name and its arguments, with
//! aliases expanded.

use vstd::prelude::*;
use crate::parse::{
    arguments_of, call_range_of, function_of, lemma_parse_boundaries, span_of, Argument,
    Expression, Parser,
};
use crate::text::{byte_slice, is_boundary, str_eq};

verus! {

/// Aliases: a name that stands for the start of a command line.
pub struct Aliases {
    entries: Vec<(String, String)>,
}

impl View for Aliases {
    type V = Seq<(Seq<char>, Seq<char>)>;

    closed spec fn view(&self) -> Seq<(Seq<char>, Seq<char>)> {
        self.entries@.map_values(|e: (String, String)| (e.0@, e.1@))
    }
}

/// What `name` stands for: the first entry with that name.
pub open spec fn lookup_alias(aliases: Seq<(Seq<char>, Seq<char>)>, name: Seq<char>) -> Option<
    Seq<char>,
>
    decreases aliases.len(),
{
    if aliases.len() == 0 {
        None
    } else if aliases[0].0 == name {
        Some(aliases[0].1)
    } else {
        lookup_alias(aliases.drop_first(), name)
    }
}

/// The texts of the arguments of the line `s`.
pub open spec fn arg_texts(s: Seq<char>) -> Seq<Seq<char>> {
    arguments_of(s).map_values(|a: (crate::parse::ArgKind, int, int)| byte_slice(s, a.1, a.2))
}

/// The command and arguments of the line `s`: where the command is an alias
/// and `fuel` is left, the line with the alias's text in place of the
/// command is read instead; a blank line gives an empty command.
pub open spec fn expand_spec(s: Seq<char>, aliases: Seq<(Seq<char>, Seq<char>)>, fuel: nat) -> (
    Seq<char>,
    Seq<Seq<char>>,
)
    decreases fuel,
{
    match function_of(s) {
        None => (Seq::empty(), Seq::empty()),
        Some(f) => {
            let name = byte_slice(s, f.0, f.1);
            match lookup_alias(aliases, name) {
                Some(text) => if fuel > 0 {
                    expand_spec(
                        text + seq![' '] + byte_slice(s, f.1, call_range_of(s).1),
                        aliases,
                        (fuel - 1) as nat,
                    )
                } else {
                    (name, arg_texts(s))
                },
                None => (name, arg_texts(s)),
            }
        },
    }
}

impl Aliases {
    pub fn new() -> (r: Self)
        ensures
            r@ == Seq::<(Seq<char>, Seq<char>)>::empty(),
    {
        let r = Aliases { entries: Vec::new() };
        assert(r@ =~= Seq::<(Seq<char>, Seq<char>)>::empty());
        r
    }

    /// Number of aliases.
    pub fn len(&self) -> (r: usize)
        ensures
            r == self@.len(),
    {
        self.entries.len()
    }

    fn position(&self, name: &str) -> (r: Option<usize>)
        ensures
            match r {
                Some(i) => i < self@.len() && self@[i as int].0 == name@ && lookup_alias(
                    self@,
                    name@,
                ) == Some(self@[i as int].1),
                None => lookup_alias(self@, name@) is None,
            },
            forall|j: int| 0 <= j < self@.len() && self@[j].0 == name@ ==> r is Some,
            r is Some ==> forall|j: int| 0 <= j < r.unwrap() ==> self@[j].0 != name@,
    {
        let ghost v = self@;
        let mut i: usize = 0;
        assert(v.subrange(0, v.len() as int) =~= v);
        while i < self.entries.len()
            invariant
                v == self@,
                i <= v.len(),
                v.len() == self.entries@.len(),
                lookup_alias(v, name@) == lookup_alias(v.subrange(i as int, v.len() as int), name@),
                forall|j: int| 0 <= j < i ==> v[j].0 != name@,
            decreases self.entries.len() - i,
        {
            let ghost rest = v.subrange(i as int, v.len() as int);
            assert(rest.drop_first() =~= v.subrange(i + 1, v.len() as int));
            assert(rest[0] == v[i as int]);
            assert(v[i as int].0 == self.entries@[i as int].0@);
            if str_eq(self.entries[i].0.as_str(), name) {
                return Some(i);
            }
            i = i + 1;
        }
        None
    }

    /// What `name` stands for.
    pub fn get_alias(&self, name: &str) -> (r: Option<&str>)
        ensures
            match r {
                Some(t) => lookup_alias(self@, name@) == Some(t@),
                None => lookup_alias(self@, name@) is None,
            },
    {
        match self.position(name) {
            Some(i) => {
                assert(self@[i as int].1 == self.entries@[i as int].1@);
                Some(self.entries[i].1.as_str())
            },
            None => None,
        }
    }

    /// Lets `name` stand for `alias`, in place of what it stood for.
    pub fn add_alias(&mut self, name: &str, alias: &str)
        ensures
            lookup_alias(final(self)@, name@) == Some(alias@),
            forall|n: Seq<char>| n != name@ ==> lookup_alias(final(self)@, n) == lookup_alias(old(self)@, n),
    {
        let entry = (name.to_owned(), alias.to_owned());
        match self.position(name) {
            Some(i) => {
                self.entries.set(i, entry);
                proof {
                    let o = old(self)@;
                    let f = self@;
                    assert(f =~= o.update(i as int, (name@, alias@)));
                    lemma_lookup_update(o, i as int, name@, alias@);
                }
            },
            None => {
                self.entries.push(entry);
                proof {
                    let o = old(self)@;
                    assert(self@ =~= o.push((name@, alias@)));
                    lemma_lookup_push(o, name@, alias@);
                }
            },
        }
    }
}

proof fn lemma_lookup_update(
    v: Seq<(Seq<char>, Seq<char>)>,
    i: int,
    name: Seq<char>,
    text: Seq<char>,
)
    requires
        0 <= i < v.len(),
        v[i].0 == name,
        forall|j: int| 0 <= j < i ==> v[j].0 != name,
    ensures
        lookup_alias(v.update(i, (name, text)), name) == Some(text),
        forall|n: Seq<char>|
            n != name ==> lookup_alias(v.update(i, (name, text)), n) == lookup_alias(v, n),
    decreases v.len(),
{
    let u = v.update(i, (name, text));
    if i == 0 {
        assert(u.drop_first() =~= v.drop_first());
        assert(u[0] == (name, text));
        assert forall|n: Seq<char>| n != name implies lookup_alias(u, n) == lookup_alias(v, n) by {
            assert(u[0].0 == name);
            assert(v[0].0 == name);
            assert(lookup_alias(u.drop_first(), n) == lookup_alias(v.drop_first(), n));
        }
    } else {
        assert(u.drop_first() =~= v.drop_first().update(i - 1, (name, text)));
        assert(u[0] == v[0]);
        assert(v[0].0 != name);
        lemma_lookup_update(v.drop_first(), i - 1, name, text);
        assert forall|n: Seq<char>| n != name implies lookup_alias(u, n) == lookup_alias(v, n) by {
            assert(u[0] == v[0]);
            assert(lookup_alias(u.drop_first(), n) == lookup_alias(v.drop_first(), n));
        }
    }
}

proof fn lemma_lookup_push(v: Seq<(Seq<char>, Seq<char>)>, name: Seq<char>, text: Seq<char>)
    requires
        lookup_alias(v, name) is None,
    ensures
        lookup_alias(v.push((name, text)), name) == Some(text),
        forall|n: Seq<char>| n != name ==> lookup_alias(v.push((name, text)), n) == lookup_alias(v, n),
    decreases v.len(),
{
    let u = v.push((name, text));
    if v.len() == 0 {
        assert(u.drop_first() =~= Seq::<(Seq<char>, Seq<char>)>::empty());
        assert(u[0] == (name, text));
        assert forall|n: Seq<char>| n != name implies lookup_alias(u, n) == lookup_alias(v, n) by {
            assert(lookup_alias(u.drop_first(), n) is None);
        }
    } else {
        assert(u.drop_first() =~= v.drop_first().push((name, text)));
        assert(u[0] == v[0]);
        assert(v[0].0 != name);
        lemma_lookup_push(v.drop_first(), name, text);
        assert forall|n: Seq<char>| n != name implies lookup_alias(u, n) == lookup_alias(v, n) by {
            assert(u[0] == v[0]);
            assert(lookup_alias(u.drop_first(), n) == lookup_alias(v.drop_first(), n));
        }
    }
}

/// The text of each argument.
pub fn collect_args(arguments: &Vec<Argument>, src: &str) -> (r: Vec<String>)
    requires
        forall|k: int|
            0 <= k < arguments@.len() ==> {
                let a = (#[trigger] arguments@[k])@;
                &&& a.1 <= a.2
                &&& is_boundary(src@, a.1)
                &&& is_boundary(src@, a.2)
            },
    ensures
        r@.map_values(|s: String| s@) == arguments@.map_values(|a: Argument| byte_slice(src@, a@.1, a@.2)),
{
    let mut r: Vec<String> = Vec::new();
    let mut k: usize = 0;
    while k < arguments.len()
        invariant
            k <= arguments@.len(),
            forall|m: int|
                0 <= m < arguments@.len() ==> {
                    let a = (#[trigger] arguments@[m])@;
                    &&& a.1 <= a.2
                    &&& is_boundary(src@, a.1)
                    &&& is_boundary(src@, a.2)
                },
            r@.map_values(|s: String| s@) == arguments@.subrange(0, k as int).map_values(
                |a: Argument| byte_slice(src@, a@.1, a@.2),
            ),
        decreases arguments.len() - k,
    {
        let ghost before = r@.map_values(|s: String| s@);
        let text = arguments[k].get_content(src).to_owned();
        r.push(text);
        assert(r@.map_values(|s: String| s@) =~= before.push(text@));
        assert(arguments@.subrange(0, k + 1) =~= arguments@.subrange(0, k as int).push(
            arguments@[k as int],
        ));
        assert(arguments@.subrange(0, k + 1).map_values(|a: Argument| byte_slice(src@, a@.1, a@.2))
            =~= arguments@.subrange(0, k as int).map_values(
            |a: Argument| byte_slice(src@, a@.1, a@.2),
        ).push(byte_slice(src@, arguments@[k as int]@.1, arguments@[k as int]@.2)));
        k = k + 1;
    }
    assert(arguments@.subrange(0, arguments@.len() as int) =~= arguments@);
    r
}

fn resolve_input(src: &str, aliases: &Aliases, fuel: usize) -> (r: (String, Vec<String>))
    ensures
        r.0@ == expand_spec(src@, aliases@, fuel as nat).0,
        r.1@.map_values(|s: String| s@) == expand_spec(src@, aliases@, fuel as nat).1,
    decreases fuel,
{
    let expression = Parser::new(src).parse();
    match expression {
        Expression::Call(call) => {
            proof {
                lemma_parse_boundaries(src@);
                assert forall|k: int| 0 <= k < call.arguments@.len() implies {
                    let a = (#[trigger] call.arguments@[k])@;
                    &&& a.1 <= a.2
                    &&& is_boundary(src@, a.1)
                    &&& is_boundary(src@, a.2)
                } by {
                    assert(call.arguments@.map_values(|a: Argument| a@)[k] == arguments_of(src@)[k]);
                }
            }
            let function = call.function.get_content(src);
            let ghost f = function_of(src@).unwrap();
            assert(function@ == byte_slice(src@, f.0, f.1));
            match aliases.get_alias(function) {
                Some(alias) => {
                    if fuel > 0 {
                        let mut line = alias.to_owned();
                        line.append(" ");
                        proof {
                            reveal_strlit(" ");
                        }
                        line.append(call.get_args_str(src));
                        assert(line@ == alias@ + seq![' '] + byte_slice(
                            src@,
                            f.1,
                            call_range_of(src@).1,
                        ));
                        resolve_input(line.as_str(), aliases, fuel - 1)
                    } else {
                        let args = collect_args(&call.arguments, src);
                        proof {
                            lemma_arg_texts(src@, call.arguments@);
                        }
                        (function.to_owned(), args)
                    }
                },
                None => {
                    let args = collect_args(&call.arguments, src);
                    proof {
                        lemma_arg_texts(src@, call.arguments@);
                    }
                    (function.to_owned(), args)
                },
            }
        },
        Expression::String(_) => (String::new(), Vec::new()),
        Expression::Noop => {
            let r = (String::new(), Vec::new());
            assert(r.1@.map_values(|s: String| s@) =~= Seq::<Seq<char>>::empty());
            r
        },
    }
}

proof fn lemma_arg_texts(s: Seq<char>, args: Seq<Argument>)
    requires
        args.map_values(|a: Argument| a@) == arguments_of(s),
    ensures
        args.map_values(|a: Argument| byte_slice(s, a@.1, a@.2)) == arg_texts(s),
{
    assert forall|k: int| 0 <= k < args.len() implies args.map_values(
        |a: Argument| byte_slice(s, a@.1, a@.2),
    )[k] == arg_texts(s)[k] by {
        assert(args.map_values(|a: Argument| a@)[k] == arguments_of(s)[k]);
    }
    assert(args.map_values(|a: Argument| byte_slice(s, a@.1, a@.2)) =~= arg_texts(s));
}

/// The command name and the argument texts of the line `src`, with an alias
/// in command position replaced by its text. Each alias is expanded at
/// most as many times as there are aliases, so that aliases that lead back
/// to themselves stop.
pub fn parse_and_resolve_input(src: &str, aliases: &Aliases) -> (r: (String, Vec<String>))
    ensures
        r.0@ == expand_spec(src@, aliases@, aliases@.len()).0,
        r.1@.map_values(|s: String| s@) == expand_spec(src@, aliases@, aliases@.len()).1,
{
    resolve_input(src, aliases, aliases.len())
}

} // verus!
