//! A model of the paths the pipeline works with: a path is a flag saying
//! whether it is absolute and the sequence of its components. Joining,
//! taking the parent directory, rendering with `/` separators, and
//! computing the relative path between two paths are all defined here.

use vstd::prelude::*;
use vstd::string::StrSliceExecFns;
use vstd::string::StringExecFns;

verus! {

/// The mathematical value of a [`BookPath`].
pub ghost struct PathView {
    /// Whether the path is absolute (rendered with a leading `/`).
    pub absolute: bool,
    /// The path components, in order.
    pub parts: Seq<Seq<char>>,
}

/// A path under the book's source tree: absolute or relative, with its
/// components held as plain strings.
#[derive(Debug, Clone)]
pub struct BookPath {
    /// Whether the path is absolute.
    pub absolute: bool,
    /// The path components, in order.
    pub parts: Vec<String>,
}

impl View for BookPath {
    type V = PathView;

    open spec fn view(&self) -> PathView {
        PathView { absolute: self.absolute, parts: self.parts.deep_view() }
    }
}

/// A single component is acceptable when it is non-empty and holds no
/// separator.
pub open spec fn part_ok(p: Seq<char>) -> bool {
    p.len() > 0 && forall|i: int| 0 <= i < p.len() ==> p[i] != '/'
}

/// Copies a list of components; the copy's elements equal the originals.
fn clone_parts(v: &Vec<String>) -> (r: Vec<String>)
    ensures
        r@ == v@,
{
    let mut r: Vec<String> = Vec::new();
    let mut i: usize = 0;
    while i < v.len()
        invariant
            i <= v@.len(),
            r@ == v@.subrange(0, i as int),
        decreases v@.len() - i,
    {
        r.push(v[i].clone());
        proof {
            assert(r@ =~= v@.subrange(0, i + 1 as int));
        }
        i = i + 1;
    }
    proof {
        assert(v@.subrange(0, v@.len() as int) =~= v@);
    }
    r
}

/// Two component lists with equal elements have the same mathematical value.
proof fn lemma_parts_deep_view(a: Seq<String>, b: Seq<String>, av: Vec<String>, bv: Vec<String>)
    requires
        av@ == a,
        bv@ == b,
        a == b,
    ensures
        av.deep_view() == bv.deep_view(),
{
    assert(av.deep_view() =~= bv.deep_view());
}

impl BookPath {
    /// Every component is non-empty and free of separators.
    pub open spec fn wf(&self) -> bool {
        forall|i: int| 0 <= i < self@.parts.len() ==> part_ok(#[trigger] self@.parts[i])
    }

    /// A copy whose mathematical value equals the original's.
    pub fn duplicate(&self) -> (r: BookPath)
        ensures
            r@ == self@,
            self.wf() ==> r.wf(),
    {
        let parts = clone_parts(&self.parts);
        let r = BookPath { absolute: self.absolute, parts };
        proof {
            lemma_parts_deep_view(r.parts@, self.parts@, r.parts, self.parts);
            assert(r@ == self@);
            if self.wf() {
                assert forall|i: int| 0 <= i < r@.parts.len() implies part_ok(
                    #[trigger] r@.parts[i],
                ) by {
                    assert(r@.parts[i] == self@.parts[i]);
                    assert(part_ok(self@.parts[i]));
                }
            }
        }
        r
    }

    /// Joins `other` onto `self`. As with the standard path join, an
    /// absolute `other` replaces `self` entirely.
    pub fn join(&self, other: &BookPath) -> (r: BookPath)
        ensures
            r@ == spec_join(self@, other@),
            self.wf() && other.wf() ==> r.wf(),
    {
        if other.absolute {
            other.duplicate()
        } else {
            let mut parts = clone_parts(&self.parts);
            let mut i: usize = 0;
            while i < other.parts.len()
                invariant
                    i <= other.parts@.len(),
                    parts@ == self.parts@ + other.parts@.subrange(0, i as int),
                decreases other.parts@.len() - i,
            {
                parts.push(other.parts[i].clone());
                proof {
                    assert(parts@ =~= self.parts@ + other.parts@.subrange(0, i + 1 as int));
                }
                i = i + 1;
            }
            proof {
                assert(self.parts@ + other.parts@.subrange(0, other.parts@.len() as int) =~= self.parts@
                    + other.parts@);
            }
            let r = BookPath { absolute: self.absolute, parts };
            proof {
                assert(r@.parts =~= self@.parts + other@.parts);
            }
            r
        }
    }

    /// Appends one component (a file name) to the path.
    pub fn push_part(&self, name: String) -> (r: BookPath)
        ensures
            r@.absolute == self@.absolute,
            r@.parts == self@.parts.push(name@),
            self.wf() && part_ok(name@) ==> r.wf(),
    {
        let mut parts = clone_parts(&self.parts);
        parts.push(name);
        let r = BookPath { absolute: self.absolute, parts };
        proof {
            assert(r@.parts =~= self@.parts.push(name@));
        }
        r
    }

    /// The directory holding the path: the path without its last
    /// component. A path with no components is kept as it is, as the
    /// standard parent operation has nothing to strip there either.
    pub fn parent(&self) -> (r: BookPath)
        ensures
            r@.absolute == self@.absolute,
            r@.parts == spec_parent_parts(self@.parts),
            self.wf() ==> r.wf(),
    {
        let mut parts = clone_parts(&self.parts);
        if parts.len() > 0 {
            let _last = parts.pop();
        }
        let r = BookPath { absolute: self.absolute, parts };
        proof {
            if self@.parts.len() > 0 {
                assert(r@.parts =~= self@.parts.drop_last());
            } else {
                assert(r@.parts =~= self@.parts);
            }
        }
        r
    }
}

/// Splitting a character sequence on `/`, with `cur` the component read so
/// far: empty components (from doubled, leading or trailing separators) are
/// dropped.
pub open spec fn spec_split_rec(s: Seq<char>, cur: Seq<char>) -> Seq<Seq<char>>
    decreases s.len(),
{
    if s.len() == 0 {
        if cur.len() == 0 {
            Seq::empty()
        } else {
            seq![cur]
        }
    } else if s[0] == '/' {
        (if cur.len() == 0 {
            Seq::<Seq<char>>::empty()
        } else {
            seq![cur]
        }) + spec_split_rec(s.skip(1), Seq::empty())
    } else {
        spec_split_rec(s.skip(1), cur.push(s[0]))
    }
}

/// The components of a rendered path: the non-empty pieces between `/`
/// separators.
pub open spec fn spec_split(s: Seq<char>) -> Seq<Seq<char>> {
    spec_split_rec(s, Seq::empty())
}

/// The rendering of a component list: the components joined with `/`.
pub open spec fn spec_join_parts(parts: Seq<Seq<char>>) -> Seq<char>
    decreases parts.len(),
{
    if parts.len() == 0 {
        Seq::empty()
    } else if parts.len() == 1 {
        parts[0]
    } else {
        spec_join_parts(parts.drop_last()) + seq!['/'] + parts.last()
    }
}

/// The rendering of a path: a leading `/` when absolute, then the
/// components joined with `/`.
pub open spec fn spec_render(p: PathView) -> Seq<char> {
    if p.absolute {
        seq!['/'] + spec_join_parts(p.parts)
    } else {
        spec_join_parts(p.parts)
    }
}

impl BookPath {
    /// Reads a path from its rendering: a leading `/` makes it absolute,
    /// and the non-empty pieces between `/` separators are its components.
    pub fn parse(s: &str) -> (r: BookPath)
        ensures
            r@.absolute == (s@.len() > 0 && s@[0] == '/'),
            r@.parts == spec_split(s@),
            r.wf(),
    {
        let n = s.unicode_len();
        let absolute = n > 0 && s.get_char(0) == '/';
        let mut parts: Vec<String> = Vec::new();
        let mut start: usize = 0;
        let mut i: usize = 0;
        proof {
            assert(parts.deep_view() =~= Seq::<Seq<char>>::empty());
            assert(s@.skip(0) =~= s@);
            assert(s@.subrange(0, 0) =~= Seq::<char>::empty());
            assert(Seq::<Seq<char>>::empty() + spec_split_rec(s@, Seq::empty()) =~= spec_split_rec(
                s@,
                Seq::empty(),
            ));
        }
        while i < n
            invariant
                start <= i <= n,
                n == s@.len(),
                forall|k: int| start <= k < i ==> s@[k] != '/',
                spec_split(s@) == parts.deep_view() + spec_split_rec(
                    s@.skip(i as int),
                    s@.subrange(start as int, i as int),
                ),
                forall|k: int| 0 <= k < parts.deep_view().len() ==> part_ok(
                    #[trigger] parts.deep_view()[k],
                ),
            decreases n - i,
        {
            let c = s.get_char(i);
            proof {
                assert(s@.skip(i as int)[0] == s@[i as int]);
                assert(s@.skip(i as int).skip(1) =~= s@.skip(i + 1 as int));
            }
            if c == '/' {
                proof {
                    assert(s@.subrange(i + 1 as int, i + 1 as int) =~= Seq::<char>::empty());
                }
                if i > start {
                    let ghost old_parts = parts.deep_view();
                    let ghost cur = s@.subrange(start as int, i as int);
                    let piece = String::from_str(s.substring_char(start, i));
                    parts.push(piece);
                    proof {
                        assert(cur.len() > 0);
                        assert(spec_split_rec(s@.skip(i as int), cur) == seq![cur]
                            + spec_split_rec(s@.skip(i + 1 as int), Seq::empty()));
                        assert(parts.deep_view() =~= old_parts.push(cur));
                        assert(parts.deep_view() + spec_split_rec(
                            s@.skip(i + 1 as int),
                            Seq::empty(),
                        ) =~= old_parts + (seq![cur] + spec_split_rec(
                            s@.skip(i + 1 as int),
                            Seq::empty(),
                        )));
                    }
                } else {
                    proof {
                        let ghost cur = s@.subrange(start as int, i as int);
                        assert(cur.len() == 0);
                        assert(cur =~= Seq::<char>::empty());
                        assert(spec_split_rec(s@.skip(i as int), cur) == Seq::<Seq<char>>::empty()
                            + spec_split_rec(s@.skip(i + 1 as int), Seq::empty()));
                        assert(Seq::<Seq<char>>::empty() + spec_split_rec(
                            s@.skip(i + 1 as int),
                            Seq::empty(),
                        ) =~= spec_split_rec(s@.skip(i + 1 as int), Seq::empty()));
                    }
                }
                start = i + 1;
            } else {
                proof {
                    assert(s@.subrange(start as int, i + 1 as int) =~= s@.subrange(
                        start as int,
                        i as int,
                    ).push(s@[i as int]));
                }
            }
            i = i + 1;
        }
        proof {
            assert(s@.skip(n as int) =~= Seq::<char>::empty());
        }
        if start < n {
            let ghost old_parts = parts.deep_view();
            let piece = String::from_str(s.substring_char(start, n));
            parts.push(piece);
            proof {
                assert(parts.deep_view() =~= old_parts.push(s@.subrange(start as int, n as int)));
                assert(spec_split(s@) =~= parts.deep_view());
            }
        } else {
            proof {
                assert(s@.subrange(start as int, n as int).len() == 0);
                assert(spec_split(s@) =~= parts.deep_view());
            }
        }
        BookPath { absolute, parts }
    }

    /// Renders the path with `/` separators and a leading `/` when it is
    /// absolute.
    pub fn to_string(&self) -> (r: String)
        ensures
            r@ == spec_render(self@),
    {
        proof {
            reveal_strlit("/");
            assert("/"@ =~= seq!['/']);
        }
        let mut r = if self.absolute {
            String::from_str("/")
        } else {
            String::new()
        };
        let ghost lead: Seq<char> = if self.absolute {
            seq!['/']
        } else {
            Seq::empty()
        };
        proof {
            assert(r@ =~= lead);
        }
        let mut i: usize = 0;
        while i < self.parts.len()
            invariant
                i <= self.parts@.len(),
                lead == if self@.absolute {
                    seq!['/']
                } else {
                    Seq::<char>::empty()
                },
                r@ == lead + spec_join_parts(self@.parts.subrange(0, i as int)),
            decreases self.parts@.len() - i,
        {
            if i > 0 {
                r.append("/");
            }
            r.append(self.parts[i].as_str());
            proof {
                reveal_strlit("/");
                assert("/"@ =~= seq!['/']);
                let pre = self@.parts.subrange(0, i as int);
                let post = self@.parts.subrange(0, i + 1 as int);
                assert(post.last() == self@.parts[i as int]);
                if i == 0 {
                    assert(post.len() == 1);
                    assert(spec_join_parts(post) == post[0]);
                    assert(r@ =~= lead + spec_join_parts(post));
                } else {
                    assert(post.drop_last() =~= pre);
                    assert(spec_join_parts(post) == spec_join_parts(pre) + seq!['/']
                        + self@.parts[i as int]);
                    assert(self@.parts[i as int] == self.parts@[i as int]@);
                    assert(r@ =~= ((lead + spec_join_parts(pre)) + "/"@) + self.parts@[i as int]@);
                    assert(r@ =~= (lead + spec_join_parts(pre)) + seq!['/']
                        + self@.parts[i as int]);
                    assert(lead + spec_join_parts(post) =~= (lead + spec_join_parts(pre))
                        + seq!['/'] + self@.parts[i as int]);
                    assert(r@ =~= lead + spec_join_parts(post));
                }
            }
            i = i + 1;
        }
        proof {
            assert(self@.parts.subrange(0, self.parts@.len() as int) =~= self@.parts);
        }
        r
    }
}

/// The components after taking a path's parent directory.
pub open spec fn spec_parent_parts(parts: Seq<Seq<char>>) -> Seq<Seq<char>> {
    if parts.len() > 0 {
        parts.drop_last()
    } else {
        parts
    }
}

/// Path join: an absolute right side replaces the left side.
pub open spec fn spec_join(a: PathView, b: PathView) -> PathView {
    if b.absolute {
        b
    } else {
        PathView { absolute: a.absolute, parts: a.parts + b.parts }
    }
}

/// The current-directory component.
pub open spec fn spec_curdir() -> Seq<char> {
    "."@
}

/// The parent-directory component.
pub open spec fn spec_dotdot() -> Seq<char> {
    ".."@
}

/// `n` parent-directory components in a row.
pub open spec fn spec_ascend(n: nat) -> Seq<Seq<char>> {
    Seq::new(n, |k: int| spec_dotdot())
}

/// The components of the relative path leading from the directory `b` to
/// the target `t`, walking both component lists in step. While only equal
/// components have been seen (`started` is false) they are stripped as a
/// common prefix; afterwards each remaining component of `b` becomes a
/// parent-directory step. A current-directory component in `b` consumes a
/// target component; a parent-directory component in `b` makes the
/// relative path undefined.
pub open spec fn spec_diff_rec(t: Seq<Seq<char>>, b: Seq<Seq<char>>, started: bool) -> Option<
    Seq<Seq<char>>,
>
    decreases b.len(),
{
    if b.len() == 0 {
        Some(t)
    } else if t.len() == 0 {
        match spec_diff_rec(t, b.skip(1), true) {
            Some(r) => Some(seq![spec_dotdot()] + r),
            None => None,
        }
    } else if !started && t[0] == b[0] {
        spec_diff_rec(t.skip(1), b.skip(1), false)
    } else if b[0] == spec_curdir() {
        match spec_diff_rec(t.skip(1), b.skip(1), true) {
            Some(r) => Some(seq![t[0]] + r),
            None => None,
        }
    } else if b[0] == spec_dotdot() {
        None
    } else {
        Some(spec_ascend(b.len()) + t)
    }
}

/// The relative path leading from `base` to `target`: undefined when only
/// one of the two is absolute and the absolute one is the base, or when
/// the walk above gives nothing.
pub open spec fn spec_diff(target: PathView, base: PathView) -> Option<PathView> {
    if target.absolute != base.absolute {
        if target.absolute {
            Some(target)
        } else {
            None
        }
    } else {
        match spec_diff_rec(target.parts, base.parts, false) {
            Some(parts) => Some(PathView { absolute: false, parts }),
            None => None,
        }
    }
}

/// Copies the components of `v` from position `from` on.
fn clone_tail(v: &Vec<String>, from: usize) -> (r: Vec<String>)
    requires
        from <= v@.len(),
    ensures
        r@ == v@.skip(from as int),
{
    let mut r: Vec<String> = Vec::new();
    let mut i: usize = from;
    while i < v.len()
        invariant
            from <= i <= v@.len(),
            r@ == v@.subrange(from as int, i as int),
        decreases v@.len() - i,
    {
        r.push(v[i].clone());
        proof {
            assert(r@ =~= v@.subrange(from as int, i + 1 as int));
        }
        i = i + 1;
    }
    proof {
        assert(v@.subrange(from as int, v@.len() as int) =~= v@.skip(from as int));
    }
    r
}

/// The walk of [`spec_diff_rec`], on the component lists from positions
/// `it` and `ib` on.
fn diff_rec(t: &Vec<String>, b: &Vec<String>, it: usize, ib: usize, started: bool) -> (r: Option<
    Vec<String>,
>)
    requires
        it <= t@.len(),
        ib <= b@.len(),
    ensures
        match r {
            Some(v) => Some(v.deep_view()) == spec_diff_rec(
                t.deep_view().skip(it as int),
                b.deep_view().skip(ib as int),
                started,
            ),
            None => None::<Seq<Seq<char>>> == spec_diff_rec(
                t.deep_view().skip(it as int),
                b.deep_view().skip(ib as int),
                started,
            ),
        },
    decreases b@.len() - ib,
{
    let ghost ts = t.deep_view().skip(it as int);
    let ghost bs = b.deep_view().skip(ib as int);
    if ib == b.len() {
        let out = clone_tail(t, it);
        proof {
            assert(out.deep_view() =~= ts);
        }
        Some(out)
    } else if it == t.len() {
        proof {
            assert(bs.skip(1) =~= b.deep_view().skip(ib + 1 as int));
            assert(ts.len() == 0);
        }
        match diff_rec(t, b, it, ib + 1, true) {
            Some(rest) => {
                let mut out = rest;
                out.insert(0, String::from_str(".."));
                proof {
                    let inner = spec_diff_rec(ts, bs.skip(1), true);
                    assert(inner matches Some(_));
                    assert(out.deep_view() =~= seq![spec_dotdot()] + inner.unwrap());
                }
                Some(out)
            },
            None => None,
        }
    } else {
        proof {
            assert(ts[0] == t.deep_view()[it as int]);
            assert(bs[0] == b.deep_view()[ib as int]);
            assert(ts.skip(1) =~= t.deep_view().skip(it + 1 as int));
            assert(bs.skip(1) =~= b.deep_view().skip(ib + 1 as int));
        }
        if !started && t[it] == b[ib] {
            diff_rec(t, b, it + 1, ib + 1, false)
        } else {
            let curdir = String::from_str(".");
            let dotdot = String::from_str("..");
            if b[ib] == curdir {
                match diff_rec(t, b, it + 1, ib + 1, true) {
                    Some(rest) => {
                        let mut out = rest;
                        out.insert(0, t[it].clone());
                        proof {
                            let inner = spec_diff_rec(ts.skip(1), bs.skip(1), true);
                            assert(inner matches Some(_));
                            assert(out.deep_view() =~= seq![ts[0]] + inner.unwrap());
                        }
                        Some(out)
                    },
                    None => None,
                }
            } else if b[ib] == dotdot {
                None
            } else {
                let mut out: Vec<String> = Vec::new();
                let mut k: usize = ib;
                while k < b.len()
                    invariant
                        ib <= k <= b@.len(),
                        out@.len() == k - ib,
                        forall|j: int| 0 <= j < out@.len() ==> #[trigger] out@[j]@ == spec_dotdot(),
                    decreases b@.len() - k,
                {
                    out.push(String::from_str(".."));
                    k = k + 1;
                }
                let ghost n_up = out@.len();
                let mut j: usize = it;
                while j < t.len()
                    invariant
                        it <= j <= t@.len(),
                        out@.len() == n_up + (j - it),
                        forall|m: int| 0 <= m < n_up ==> #[trigger] out@[m]@ == spec_dotdot(),
                        forall|m: int|
                            n_up <= m < out@.len() ==> #[trigger] out@[m] == t@[it + m - n_up],
                    decreases t@.len() - j,
                {
                    out.push(t[j].clone());
                    j = j + 1;
                }
                proof {
                    assert(out.deep_view() =~= spec_ascend(bs.len()) + ts);
                }
                Some(out)
            }
        }
    }
}

impl BookPath {
    /// The relative path leading from the directory `base` to `target`,
    /// when one exists.
    pub fn diff_paths(target: &BookPath, base: &BookPath) -> (r: Option<BookPath>)
        ensures
            match r {
                Some(p) => Some(p@) == spec_diff(target@, base@),
                None => None::<PathView> == spec_diff(target@, base@),
            },
    {
        if target.absolute != base.absolute {
            if target.absolute {
                Some(target.duplicate())
            } else {
                None
            }
        } else {
            proof {
                assert(target@.parts.skip(0) =~= target@.parts);
                assert(base@.parts.skip(0) =~= base@.parts);
            }
            match diff_rec(&target.parts, &base.parts, 0, 0, false) {
                Some(parts) => Some(BookPath { absolute: false, parts }),
                None => None,
            }
        }
    }
}

/// From a directory of depth `d` whose components are ordinary names (no
/// current- or parent-directory steps) and whose first component differs
/// from the target's first component, the relative path to the target is
/// exactly `d` parent-directory steps followed by the target itself.
pub proof fn lemma_diff_ascends(t: Seq<Seq<char>>, b: Seq<Seq<char>>)
    requires
        t.len() > 0,
        forall|i: int| 0 <= i < b.len() ==> #[trigger] b[i] != spec_curdir() && b[i]
            != spec_dotdot(),
        b.len() > 0 ==> t[0] != b[0],
    ensures
        spec_diff_rec(t, b, false) == Some(spec_ascend(b.len()) + t),
{
    if b.len() == 0 {
        assert(spec_diff_rec(t, b, false) == Some(t));
        assert(spec_ascend(0) + t =~= t);
    } else {
        assert(b[0] != spec_curdir());
        assert(b[0] != spec_dotdot());
        assert(spec_diff_rec(t, b, false) == Some(spec_ascend(b.len()) + t));
    }
}

} // verus!
