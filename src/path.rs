//! Paths of the object tree: `/`-separated segments, absolute when they start
//! with `/`.

use vstd::prelude::*;

verus! {

/// Whether `s` starts with `/`.
pub open spec fn is_abs(s: Seq<char>) -> bool {
    s.len() > 0 && s[0] == '/'
}

/// Whether `s` ends with `/`.
pub open spec fn ends_with_slash(s: Seq<char>) -> bool {
    s.len() > 0 && s.last() == '/'
}

/// `b` when it is absolute, else `a` and `b` with one `/` between them.
pub open spec fn join_spec(a: Seq<char>, b: Seq<char>) -> Seq<char> {
    if is_abs(b) {
        b
    } else if ends_with_slash(a) {
        a + b
    } else {
        a + seq!['/'] + b
    }
}

/// `a` with `seg` appended after a `/` separator.
pub open spec fn push_spec(a: Seq<char>, seg: Seq<char>) -> Seq<char> {
    if ends_with_slash(a) {
        a + seg
    } else {
        a.push('/') + seg
    }
}

/// `s` without its trailing slashes.
pub open spec fn trim_end_slashes(s: Seq<char>) -> Seq<char>
    decreases s.len(),
{
    if ends_with_slash(s) {
        trim_end_slashes(s.drop_last())
    } else {
        s
    }
}

/// Position of the last `/` of `s`, or -1.
pub open spec fn last_slash(s: Seq<char>) -> int
    decreases s.len(),
{
    if s.len() == 0 {
        -1
    } else if s.last() == '/' {
        s.len() - 1
    } else {
        last_slash(s.drop_last())
    }
}

/// What follows the last `/` of `s` (all of `s` without one).
pub open spec fn after_last_slash(s: Seq<char>) -> Seq<char> {
    s.subrange(last_slash(s) + 1, s.len() as int)
}

/// The last non-empty segment; empty for the root.
pub open spec fn name_spec(s: Seq<char>) -> Seq<char> {
    after_last_slash(trim_end_slashes(s))
}

/// Everything before the last `/`: the root when that `/` is the first
/// character, empty when there is no `/`.
pub open spec fn parent_spec(s: Seq<char>) -> Seq<char> {
    let k = last_slash(s);
    if k < 0 {
        Seq::empty()
    } else if k == 0 {
        seq!['/']
    } else {
        s.subrange(0, k)
    }
}

/// `s` without trailing slashes, except that the root stays the root.
pub open spec fn normalized_spec(s: Seq<char>) -> Seq<char> {
    if s == seq!['/'] {
        s
    } else {
        trim_end_slashes(s)
    }
}

/// The non-empty `/`-separated pieces of `s`, read from the left while the
/// characters of the piece in progress are held in `cur`.
pub open spec fn segs_from(s: Seq<char>, cur: Seq<char>) -> Seq<Seq<char>>
    decreases s.len(),
{
    if s.len() == 0 {
        if cur.len() > 0 {
            seq![cur]
        } else {
            Seq::empty()
        }
    } else if s[0] == '/' {
        (if cur.len() > 0 {
            seq![cur]
        } else {
            Seq::empty()
        }) + segs_from(s.drop_first(), Seq::empty())
    } else {
        segs_from(s.drop_first(), cur.push(s[0]))
    }
}

/// The non-empty `/`-separated segments of `s`.
pub open spec fn segments_spec(s: Seq<char>) -> Seq<Seq<char>> {
    segs_from(s, Seq::empty())
}

pub open spec fn is_dot(s: Seq<char>) -> bool {
    s == seq!['.']
}

pub open spec fn is_dot_dot(s: Seq<char>) -> bool {
    s == seq!['.', '.']
}

/// One step of resolving: `..` pops the stack if it can, `.` and empty
/// segments are dropped, anything else is pushed.
pub open spec fn resolve_step(stack: Seq<Seq<char>>, seg: Seq<char>) -> Seq<Seq<char>> {
    if is_dot_dot(seg) {
        if stack.len() > 0 {
            stack.drop_last()
        } else {
            stack
        }
    } else if is_dot(seg) || seg.len() == 0 {
        stack
    } else {
        stack.push(seg)
    }
}

/// The stack left after resolving `segs` from left to right.
pub open spec fn resolve_segs(segs: Seq<Seq<char>>) -> Seq<Seq<char>>
    decreases segs.len(),
{
    if segs.len() == 0 {
        Seq::empty()
    } else {
        resolve_step(resolve_segs(segs.drop_last()), segs.last())
    }
}

/// The segments joined with `/` between them.
pub open spec fn join_segs(segs: Seq<Seq<char>>) -> Seq<char>
    decreases segs.len(),
{
    if segs.len() == 0 {
        Seq::empty()
    } else if segs.len() == 1 {
        segs[0]
    } else {
        segs[0] + seq!['/'] + join_segs(segs.drop_first())
    }
}

/// `s` with `.` and `..` segments and repeated slashes taken out; absolute
/// when `s` is.
pub open spec fn resolve_spec(s: Seq<char>) -> Seq<char> {
    let j = join_segs(resolve_segs(segments_spec(s)));
    if is_abs(s) {
        seq!['/'] + j
    } else {
        j
    }
}

/// A path, kept as the text it was made from.
#[derive(Debug, Hash)]
pub struct H5Path {
    raw: String,
}

impl View for H5Path {
    type V = Seq<char>;

    closed spec fn view(&self) -> Seq<char> {
        self.raw@
    }
}

impl Clone for H5Path {
    fn clone(&self) -> (r: Self)
        ensures
            r@ == self@,
    {
        H5Path { raw: self.raw.clone() }
    }
}

impl PartialEq for H5Path {
    fn eq(&self, other: &H5Path) -> (r: bool) {
        self.raw == other.raw
    }
}

impl vstd::std_specs::cmp::PartialEqSpecImpl for H5Path {
    open spec fn obeys_eq_spec() -> bool {
        true
    }

    open spec fn eq_spec(&self, other: &H5Path) -> bool {
        self@ == other@
    }
}

impl Eq for H5Path {

}

/// Where only slashes follow position `t`, trimming keeps the first `t`
/// characters.
proof fn lemma_trim_prefix(s: Seq<char>, t: int)
    requires
        0 <= t <= s.len(),
        forall|i: int| t <= i < s.len() ==> s[i] == '/',
        t == 0 || s[t - 1] != '/',
    ensures
        trim_end_slashes(s) == s.subrange(0, t),
    decreases s.len() - t,
{
    if t < s.len() {
        lemma_trim_prefix(s.drop_last(), t);
        assert(s.drop_last().subrange(0, t) =~= s.subrange(0, t));
    } else {
        assert(s.subrange(0, t) =~= s);
    }
}

proof fn lemma_last_slash_prefix(s: Seq<char>, k: int)
    requires
        0 <= k <= s.len(),
        forall|i: int| k <= i < s.len() ==> s[i] != '/',
        k == 0 || s[k - 1] == '/',
    ensures
        last_slash(s) == k - 1,
    decreases s.len() - k,
{
    if k < s.len() {
        lemma_last_slash_prefix(s.drop_last(), k);
    }
}

/// Number of characters of `s` left after its trailing slashes are taken off.
fn trimmed_len(s: &str) -> (t: usize)
    ensures
        t <= s@.len(),
        trim_end_slashes(s@) == s@.subrange(0, t as int),
{
    let n = s.unicode_len();
    let mut t = n;
    while t > 0 && s.get_char(t - 1) == '/'
        invariant
            n == s@.len(),
            t <= n,
            forall|i: int| t <= i < n ==> s@[i] == '/',
        decreases t,
    {
        t = t - 1;
    }
    proof {
        lemma_trim_prefix(s@, t as int);
    }
    t
}

/// One past the position of the last `/` among the first `end` characters
/// of `s`, or 0 when there is none.
fn after_last_slash_before(s: &str, end: usize) -> (k: usize)
    requires
        end <= s@.len(),
    ensures
        k <= end,
        k - 1 == last_slash(s@.subrange(0, end as int)),
{
    let mut k = end;
    while k > 0 && s.get_char(k - 1) != '/'
        invariant
            end <= s@.len(),
            k <= end,
            forall|i: int| k <= i < end ==> s@[i] != '/',
        decreases k,
    {
        k = k - 1;
    }
    proof {
        lemma_last_slash_prefix(s@.subrange(0, end as int), k as int);
    }
    k
}

pub(crate) fn ends_with_slash_exec(s: &str) -> (r: bool)
    ensures
        r == ends_with_slash(s@),
{
    let n = s.unicode_len();
    n > 0 && s.get_char(n - 1) == '/'
}

pub(crate) fn slash() -> (r: &'static str)
    ensures
        r@ == seq!['/'],
{
    let r = "/";
    proof {
        reveal_strlit("/");
    }
    r
}

impl H5Path {
    /// The root path `/`.
    pub fn root() -> (r: Self)
        ensures
            r@ == seq!['/'],
    {
        H5Path { raw: slash().to_owned() }
    }

    /// A path holding the text `s` as it is.
    pub fn from_str(s: &str) -> (r: Self)
        ensures
            r@ == s@,
    {
        H5Path { raw: s.to_owned() }
    }

    /// A path holding the text `s` as it is.
    pub fn from_string(s: String) -> (r: Self)
        ensures
            r@ == s@,
    {
        H5Path { raw: s }
    }

    pub fn is_absolute(&self) -> (r: bool)
        ensures
            r == is_abs(self@),
    {
        let s = self.raw.as_str();
        s.unicode_len() > 0 && s.get_char(0) == '/'
    }

    /// `other` when it is absolute, else the two joined by one `/`.
    pub fn join(&self, other: &H5Path) -> (r: H5Path)
        ensures
            r@ == join_spec(self@, other@),
    {
        if other.is_absolute() {
            other.clone()
        } else {
            let mut raw = self.raw.clone();
            if !ends_with_slash_exec(self.raw.as_str()) {
                raw.append(slash());
            }
            raw.append(other.raw.as_str());
            H5Path { raw }
        }
    }

    /// Appends `segment` after a `/` separator, adding the `/` only where the
    /// path does not already end in one.
    pub fn push(&mut self, segment: &str)
        ensures
            final(self)@ == push_spec(old(self)@, segment@),
    {
        if !ends_with_slash_exec(self.raw.as_str()) {
            self.raw.append(slash());
            assert(self.raw@ == old(self)@.push('/'));
        }
        self.raw.append(segment);
    }

    /// The last non-empty segment; empty for the root.
    pub fn name(&self) -> (r: &str)
        ensures
            r@ == name_spec(self@),
    {
        let s = self.raw.as_str();
        let t = trimmed_len(s);
        let k = after_last_slash_before(s, t);
        let r = s.substring_char(k, t);
        proof {
            let u = s@.subrange(0, t as int);
            assert(u.subrange(k as int, t as int) =~= s@.subrange(k as int, t as int));
        }
        r
    }

    /// Everything before the last `/`; the root for a top-level absolute path.
    pub fn parent(&self) -> (r: H5Path)
        ensures
            r@ == parent_spec(self@),
    {
        let s = self.raw.as_str();
        let n = s.unicode_len();
        let k = after_last_slash_before(s, n);
        assert(s@.subrange(0, n as int) =~= s@);
        if k == 0 {
            H5Path { raw: String::new() }
        } else if k == 1 {
            H5Path::root()
        } else {
            H5Path { raw: s.substring_char(0, k - 1).to_owned() }
        }
    }

    /// The parent, as `parent` gives it, and what follows the last `/`.
    pub fn split_parent(&self) -> (r: (H5Path, &str))
        ensures
            r.0@ == parent_spec(self@),
            r.1@ == after_last_slash(self@),
    {
        let s = self.raw.as_str();
        let n = s.unicode_len();
        let k = after_last_slash_before(s, n);
        assert(s@.subrange(0, n as int) =~= s@);
        let name = s.substring_char(k, n);
        (self.parent(), name)
    }

    /// The path without trailing slashes; the root stays `/`.
    pub fn normalized(&self) -> (r: H5Path)
        ensures
            r@ == normalized_spec(self@),
    {
        let s = self.raw.as_str();
        let n = s.unicode_len();
        if n == 1 && s.get_char(0) == '/' {
            assert(self@ =~= seq!['/']);
            self.clone()
        } else {
            let t = trimmed_len(s);
            proof {
                if self@ == seq!['/'] {
                    assert(self@.len() == 1);
                }
            }
            H5Path { raw: s.substring_char(0, t).to_owned() }
        }
    }

    /// The text of the path.
    pub fn as_raw(&self) -> (r: &str)
        ensures
            r@ == self@,
    {
        self.raw.as_str()
    }

    /// The text of the path, as an owned string.
    pub fn to_string(&self) -> (r: String)
        ensures
            r@ == self@,
    {
        self.raw.clone()
    }
}

proof fn lemma_segs_step(s: Seq<char>, i: int, cur: Seq<char>)
    requires
        0 <= i < s.len(),
    ensures
        segs_from(s.subrange(i, s.len() as int), cur) == if s[i] == '/' {
            (if cur.len() > 0 {
                seq![cur]
            } else {
                Seq::empty()
            }) + segs_from(s.subrange(i + 1, s.len() as int), Seq::empty())
        } else {
            segs_from(s.subrange(i + 1, s.len() as int), cur.push(s[i]))
        },
{
    assert(s.subrange(i, s.len() as int).drop_first() =~= s.subrange(i + 1, s.len() as int));
}

/// The segments of `s`, in order.
fn segments_of(s: &str) -> (r: Vec<&str>)
    ensures
        r@.map_values(|x: &str| x@) == segments_spec(s@),
{
    let n = s.unicode_len();
    let mut r: Vec<&str> = Vec::new();
    let mut start: usize = 0;
    let mut i: usize = 0;
    assert(s@.subrange(0, n as int) =~= s@);
    assert(s@.subrange(0, 0) =~= Seq::<char>::empty());
    assert(r@.map_values(|x: &str| x@) =~= Seq::<Seq<char>>::empty());
    assert(segments_spec(s@) =~= r@.map_values(|x: &str| x@) + segs_from(s@.subrange(0, n as int), s@.subrange(0, 0)));
    while i < n
        invariant
            n == s@.len(),
            start <= i <= n,
            segments_spec(s@) == r@.map_values(|x: &str| x@) + segs_from(
                s@.subrange(i as int, n as int),
                s@.subrange(start as int, i as int),
            ),
        decreases n - i,
    {
        proof {
            lemma_segs_step(s@, i as int, s@.subrange(start as int, i as int));
        }
        if s.get_char(i) == '/' {
            if start < i {
                let seg = s.substring_char(start, i);
                let ghost before = r@.map_values(|x: &str| x@);
                r.push(seg);
                assert(r@.map_values(|x: &str| x@) =~= before + seq![seg@]);
            } else {
                assert(r@.map_values(|x: &str| x@) =~= r@.map_values(|x: &str| x@) + Seq::<
                    Seq<char>,
                >::empty());
            }
            start = i + 1;
            assert(s@.subrange(start as int, i + 1) =~= Seq::<char>::empty());
        } else {
            assert(s@.subrange(start as int, i + 1) =~= s@.subrange(start as int, i as int).push(
                s@[i as int],
            ));
        }
        i = i + 1;
    }
    assert(s@.subrange(n as int, n as int).len() == 0);
    if start < n {
        let seg = s.substring_char(start, n);
        let ghost before = r@.map_values(|x: &str| x@);
        r.push(seg);
        assert(r@.map_values(|x: &str| x@) =~= before + seq![seg@]);
    } else {
        assert(r@.map_values(|x: &str| x@) =~= r@.map_values(|x: &str| x@) + Seq::<
            Seq<char>,
        >::empty());
    }
    r
}

fn is_dot_exec(s: &str) -> (r: bool)
    ensures
        r == is_dot(s@),
{
    let r = s.unicode_len() == 1 && s.get_char(0) == '.';
    proof {
        if r {
            assert(s@ =~= seq!['.']);
        }
    }
    r
}

fn is_dot_dot_exec(s: &str) -> (r: bool)
    ensures
        r == is_dot_dot(s@),
{
    let r = s.unicode_len() == 2 && s.get_char(0) == '.' && s.get_char(1) == '.';
    proof {
        if r {
            assert(s@ =~= seq!['.', '.']);
        }
    }
    r
}

proof fn lemma_join_segs_push(segs: Seq<Seq<char>>, x: Seq<char>)
    requires
        segs.len() > 0,
    ensures
        join_segs(segs.push(x)) == join_segs(segs) + seq!['/'] + x,
    decreases segs.len(),
{
    let p = segs.push(x);
    assert(p[0] == segs[0]);
    if segs.len() == 1 {
        assert(p.drop_first() =~= seq![x]);
        assert(join_segs(seq![x]) == x);
        assert(join_segs(p) =~= join_segs(segs) + seq!['/'] + x);
    } else {
        assert(p.drop_first() =~= segs.drop_first().push(x));
        lemma_join_segs_push(segs.drop_first(), x);
        assert(join_segs(p) =~= join_segs(segs) + seq!['/'] + x);
    }
}

impl H5Path {
    /// The non-empty `/`-separated segments, in order.
    pub fn segments(&self) -> (r: Vec<&str>)
        ensures
            r@.map_values(|x: &str| x@) == segments_spec(self@),
    {
        segments_of(self.raw.as_str())
    }

    /// The path with `.` segments dropped, each `..` taking away the segment
    /// before it where there is one, and single slashes between segments;
    /// absolute when this path is.
    pub fn resolve(&self) -> (r: H5Path)
        ensures
            r@ == resolve_spec(self@),
    {
        let segs = self.segments();
        let ghost views = segs@.map_values(|x: &str| x@);
        let mut stack: Vec<&str> = Vec::new();
        let mut i: usize = 0;
        while i < segs.len()
            invariant
                i <= segs.len(),
                views == segs@.map_values(|x: &str| x@),
                stack@.map_values(|x: &str| x@) == resolve_segs(views.subrange(0, i as int)),
            decreases segs.len() - i,
        {
            let seg = segs[i];
            let ghost before = stack@.map_values(|x: &str| x@);
            assert(views.subrange(0, i + 1).drop_last() =~= views.subrange(0, i as int));
            if is_dot_dot_exec(seg) {
                if stack.len() > 0 {
                    stack.pop();
                    assert(stack@.map_values(|x: &str| x@) =~= before.drop_last());
                }
            } else if is_dot_exec(seg) || seg.unicode_len() == 0 {
            } else {
                stack.push(seg);
                assert(stack@.map_values(|x: &str| x@) =~= before.push(seg@));
            }
            i = i + 1;
        }
        assert(views.subrange(0, segs.len() as int) =~= views);
        let ghost sv = stack@.map_values(|x: &str| x@);
        let mut raw = String::new();
        let abs = self.is_absolute();
        if abs {
            raw.append(slash());
        }
        let ghost lead = raw@;
        let mut j: usize = 0;
        while j < stack.len()
            invariant
                j <= stack.len(),
                sv == stack@.map_values(|x: &str| x@),
                raw@ == lead + join_segs(sv.subrange(0, j as int)),
            decreases stack.len() - j,
        {
            if j > 0 {
                raw.append(slash());
                proof {
                    lemma_join_segs_push(sv.subrange(0, j as int), sv[j as int]);
                    assert(sv.subrange(0, j as int).push(sv[j as int]) =~= sv.subrange(
                        0,
                        j + 1,
                    ));
                }
            } else {
                assert(sv.subrange(0, 1) =~= seq![sv[0]]);
            }
            raw.append(stack[j]);
            j = j + 1;
        }
        assert(sv.subrange(0, stack.len() as int) =~= sv);
        H5Path { raw }
    }
}

/// No character of `x` is `/`.
pub open spec fn no_slash(x: Seq<char>) -> bool {
    forall|i: int| 0 <= i < x.len() ==> x[i] != '/'
}

/// A segment that resolving keeps as it is.
pub open spec fn is_clean_segment(x: Seq<char>) -> bool {
    x.len() > 0 && no_slash(x) && !is_dot(x) && !is_dot_dot(x)
}

proof fn lemma_segs_from_pieces(s: Seq<char>, cur: Seq<char>)
    requires
        no_slash(cur),
    ensures
        forall|k: int|
            0 <= k < segs_from(s, cur).len() ==> #[trigger] segs_from(s, cur)[k].len() > 0
                && no_slash(segs_from(s, cur)[k]),
    decreases s.len(),
{
    let r = segs_from(s, cur);
    let head: Seq<Seq<char>> = if cur.len() > 0 {
        seq![cur]
    } else {
        Seq::empty()
    };
    if s.len() == 0 {
        assert forall|k: int| 0 <= k < r.len() implies #[trigger] r[k].len() > 0 && no_slash(
            r[k],
        ) by {
            assert(r == head);
        }
    } else if s[0] == '/' {
        let rest = segs_from(s.drop_first(), Seq::empty());
        lemma_segs_from_pieces(s.drop_first(), Seq::empty());
        assert(r == head + rest);
        assert forall|k: int| 0 <= k < r.len() implies #[trigger] r[k].len() > 0 && no_slash(
            r[k],
        ) by {
            if k < head.len() {
                assert(r[k] == cur);
            } else {
                assert(r[k] == rest[k - head.len()]);
            }
        }
    } else {
        let c2 = cur.push(s[0]);
        assert forall|i: int| 0 <= i < c2.len() implies c2[i] != '/' by {
            if i < cur.len() {
                assert(c2[i] == cur[i]);
            }
        }
        lemma_segs_from_pieces(s.drop_first(), c2);
        assert(r == segs_from(s.drop_first(), c2));
    }
}

proof fn lemma_resolve_segs_clean(segs: Seq<Seq<char>>)
    requires
        forall|k: int| 0 <= k < segs.len() ==> no_slash(#[trigger] segs[k]),
    ensures
        forall|k: int|
            0 <= k < resolve_segs(segs).len() ==> is_clean_segment(#[trigger] resolve_segs(segs)[k]),
    decreases segs.len(),
{
    if segs.len() > 0 {
        let init = segs.drop_last();
        assert forall|k: int| 0 <= k < init.len() implies no_slash(#[trigger] init[k]) by {
            assert(init[k] == segs[k]);
        }
        lemma_resolve_segs_clean(init);
        let st = resolve_segs(init);
        let x = segs.last();
        assert(no_slash(segs[segs.len() - 1]));
        let r = resolve_segs(segs);
        assert(r == resolve_step(st, x));
        assert forall|k: int| 0 <= k < r.len() implies is_clean_segment(#[trigger] r[k]) by {
            if is_dot_dot(x) {
                if st.len() > 0 {
                    assert(r[k] == st[k]);
                }
            } else if is_dot(x) || x.len() == 0 {
            } else {
                if k < st.len() {
                    assert(r[k] == st[k]);
                } else {
                    assert(r[k] == x);
                }
            }
        }
    }
}

proof fn lemma_segs_from_no_slash_prefix(x: Seq<char>, t: Seq<char>, cur: Seq<char>)
    requires
        no_slash(x),
    ensures
        segs_from(x + t, cur) == segs_from(t, cur + x),
    decreases x.len(),
{
    if x.len() == 0 {
        assert(x + t =~= t);
        assert(cur + x =~= cur);
    } else {
        assert((x + t)[0] == x[0]);
        assert((x + t).drop_first() =~= x.drop_first() + t);
        lemma_segs_from_no_slash_prefix(x.drop_first(), t, cur.push(x[0]));
        assert(cur.push(x[0]) + x.drop_first() =~= cur + x);
    }
}

proof fn lemma_segments_of_join(segs: Seq<Seq<char>>)
    requires
        forall|k: int| 0 <= k < segs.len() ==> is_clean_segment(#[trigger] segs[k]),
    ensures
        segments_spec(join_segs(segs)) == segs,
    decreases segs.len(),
{
    let e = Seq::<char>::empty();
    if segs.len() == 0 {
        assert(segments_spec(join_segs(segs)) =~= segs);
    } else if segs.len() == 1 {
        let x = segs[0];
        assert(x + e =~= x);
        lemma_segs_from_no_slash_prefix(x, e, e);
        assert(e + x =~= x);
        assert(segs =~= seq![x]);
    } else {
        let x = segs[0];
        let rest = segs.drop_first();
        assert forall|k: int| 0 <= k < rest.len() implies is_clean_segment(#[trigger] rest[k]) by {
            assert(rest[k] == segs[k + 1]);
        }
        lemma_segments_of_join(rest);
        let j = join_segs(rest);
        let t = seq!['/'] + j;
        assert(x + seq!['/'] + j =~= x + t);
        lemma_segs_from_no_slash_prefix(x, t, e);
        assert(e + x =~= x);
        assert(t.drop_first() =~= j);
        assert(segs =~= seq![x] + rest);
    }
}

proof fn lemma_resolve_segs_of_clean(segs: Seq<Seq<char>>)
    requires
        forall|k: int| 0 <= k < segs.len() ==> is_clean_segment(#[trigger] segs[k]),
    ensures
        resolve_segs(segs) == segs,
    decreases segs.len(),
{
    if segs.len() > 0 {
        let init = segs.drop_last();
        assert forall|k: int| 0 <= k < init.len() implies is_clean_segment(#[trigger] init[k]) by {
            assert(init[k] == segs[k]);
        }
        lemma_resolve_segs_of_clean(init);
        assert(is_clean_segment(segs[segs.len() - 1]));
        assert(init.push(segs.last()) =~= segs);
    }
}

proof fn lemma_join_not_absolute(segs: Seq<Seq<char>>)
    requires
        forall|k: int| 0 <= k < segs.len() ==> is_clean_segment(#[trigger] segs[k]),
    ensures
        !is_abs(join_segs(segs)),
{
    if segs.len() == 1 {
        assert(is_clean_segment(segs[0]));
    } else if segs.len() > 1 {
        assert(is_clean_segment(segs[0]));
        assert((segs[0] + seq!['/'] + join_segs(segs.drop_first()))[0] == segs[0][0]);
    }
}

/// Resolving is idempotent: a resolved path resolves to itself.
pub proof fn lemma_resolve_idempotent(p: H5Path)
    ensures
        resolve_spec(resolve_spec(p@)) == resolve_spec(p@),
{
    let s = p@;
    let e = Seq::<char>::empty();
    let segs = segments_spec(s);
    lemma_segs_from_pieces(s, e);
    let st = resolve_segs(segs);
    lemma_resolve_segs_clean(segs);
    let j = join_segs(st);
    lemma_segments_of_join(st);
    lemma_resolve_segs_of_clean(st);
    lemma_join_not_absolute(st);
    if is_abs(s) {
        let r = seq!['/'] + j;
        assert(r[0] == '/');
        assert(r.drop_first() =~= j);
        assert(segments_spec(r) == segs_from(j, e));
    }
}

impl<'a> From<&'a str> for H5Path {
    fn from(s: &'a str) -> (r: H5Path)
        ensures
            r@ == s@,
    {
        H5Path::from_str(s)
    }
}

impl<'a> vstd::std_specs::convert::FromSpecImpl<&'a str> for H5Path {
    open spec fn obeys_from_spec() -> bool {
        false
    }

    open spec fn from_spec(s: &'a str) -> H5Path {
        vstd::pervasive::arbitrary()
    }
}

impl From<String> for H5Path {
    fn from(s: String) -> (r: H5Path)
        ensures
            r@ == s@,
    {
        H5Path::from_string(s)
    }
}

impl vstd::std_specs::convert::FromSpecImpl<String> for H5Path {
    open spec fn obeys_from_spec() -> bool {
        false
    }

    open spec fn from_spec(s: String) -> H5Path {
        vstd::pervasive::arbitrary()
    }
}

} // verus!
