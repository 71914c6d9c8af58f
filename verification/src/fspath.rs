//! A filesystem path as a list of components.
//!
//! Patch paths are compared and rewritten component-wise: a path lies inside
//! a workspace only when the workspace root's components are a prefix of the
//! path's components, so `/foo/bar2` never counts as inside `/foo/bar`.

use vstd::prelude::*;

verus! {

/// The mathematical model of a path: whether it is absolute, and its
/// components in order.
pub ghost struct PathModel {
    pub abs: bool,
    pub segs: Seq<Seq<char>>,
}

/// The views of a sequence of strings.
pub open spec fn views_of(v: Seq<String>) -> Seq<Seq<char>> {
    v.map_values(|s: String| s@)
}

pub proof fn lemma_views_of_push(q: Seq<String>, x: String)
    ensures
        views_of(q.push(x)) =~= views_of(q).push(x@),
{
    assert forall|i: int| 0 <= i < q.len() implies views_of(q.push(x))[i] == views_of(q)[i] by {
        assert(q.push(x)[i] == q[i]);
    }
}

/// One step of splitting: feed the next character into the state
/// (components finished so far, component being read).
pub open spec fn split_step(st: (Seq<Seq<char>>, Seq<char>), c: char) -> (Seq<Seq<char>>, Seq<char>) {
    if c == '/' {
        if st.1.len() > 0 {
            (st.0.push(st.1), Seq::empty())
        } else {
            st
        }
    } else {
        (st.0, st.1.push(c))
    }
}

/// Splitting state after feeding every character of `s`, left to right.
pub open spec fn split_run(st: (Seq<Seq<char>>, Seq<char>), s: Seq<char>) -> (Seq<Seq<char>>, Seq<char>)
    decreases s.len(),
{
    if s.len() == 0 {
        st
    } else {
        split_run(split_step(st, s[0]), s.drop_first())
    }
}

/// Close the final component, if one is open.
pub open spec fn split_finish(st: (Seq<Seq<char>>, Seq<char>)) -> Seq<Seq<char>> {
    if st.1.len() > 0 {
        st.0.push(st.1)
    } else {
        st.0
    }
}

/// The non-empty components of `s`, split on `/`.
pub open spec fn split_segments(s: Seq<char>) -> Seq<Seq<char>> {
    split_finish(split_run((Seq::empty(), Seq::empty()), s))
}

pub open spec fn spec_is_absolute(s: Seq<char>) -> bool {
    s.len() > 0 && s[0] == '/'
}

/// The model of the path written as `s`.
pub open spec fn spec_parse_path(s: Seq<char>) -> PathModel {
    PathModel { abs: spec_is_absolute(s), segs: split_segments(s) }
}

/// The components joined with `/`.
pub open spec fn join_segments(segs: Seq<Seq<char>>) -> Seq<char>
    decreases segs.len(),
{
    if segs.len() == 0 {
        Seq::empty()
    } else if segs.len() == 1 {
        segs[0]
    } else {
        join_segments(segs.drop_last()) + seq!['/'] + segs.last()
    }
}

/// The text a path model is written back as.
pub open spec fn display_of(p: PathModel) -> Seq<char> {
    if p.abs {
        seq!['/'] + join_segments(p.segs)
    } else {
        join_segments(p.segs)
    }
}

/// `p` lies inside `root`: same kind (absolute or relative) and `root`'s
/// components are a prefix of `p`'s.
pub open spec fn path_contains(root: PathModel, p: PathModel) -> bool {
    root.abs == p.abs && root.segs.is_prefix_of(p.segs)
}

/// Containment of paths is transitive.
pub proof fn lemma_contains_transitive(a: PathModel, b: PathModel, c: PathModel)
    requires
        path_contains(a, b),
        path_contains(b, c),
    ensures
        path_contains(a, c),
{
    assert(a.segs =~= c.segs.subrange(0, a.segs.len() as int)) by {
        assert forall|i: int| 0 <= i < a.segs.len() implies a.segs[i] == c.segs.subrange(
            0,
            a.segs.len() as int,
        )[i] by {
            assert(a.segs[i] == b.segs.subrange(0, a.segs.len() as int)[i]);
            assert(b.segs[i] == c.segs.subrange(0, b.segs.len() as int)[i]);
        }
    }
}

proof fn lemma_split_run_push(st: (Seq<Seq<char>>, Seq<char>), a: Seq<char>, c: char)
    ensures
        split_run(st, a.push(c)) == split_step(split_run(st, a), c),
    decreases a.len(),
{
    if a.len() == 0 {
        assert(a.push(c)[0] == c);
        let e = a.push(c).drop_first();
        assert(e =~= Seq::<char>::empty());
        assert(split_run(split_step(st, c), e) == split_step(st, c));
        assert(split_run(st, a.push(c)) == split_run(split_step(st, c), e));
        assert(split_run(st, a) == st);
    } else {
        assert(a.push(c)[0] == a[0]);
        assert(a.push(c).drop_first() =~= a.drop_first().push(c));
        lemma_split_run_push(split_step(st, a[0]), a.drop_first(), c);
    }
}

proof fn lemma_split_run_concat(st: (Seq<Seq<char>>, Seq<char>), a: Seq<char>, b: Seq<char>)
    ensures
        split_run(st, a + b) == split_run(split_run(st, a), b),
    decreases a.len(),
{
    if a.len() == 0 {
        assert(a + b =~= b);
    } else {
        assert((a + b)[0] == a[0]);
        assert((a + b).drop_first() =~= a.drop_first() + b);
        lemma_split_run_concat(split_step(st, a[0]), a.drop_first(), b);
    }
}

/// The splitting state has moved strictly past the component list
/// `d.push(cur)`: either the open component strictly extends `cur`, or the
/// component at position `d.len()` is already closed as something else.
spec fn past_state(d: Seq<Seq<char>>, cur: Seq<char>, st: (Seq<Seq<char>>, Seq<char>)) -> bool {
    ||| (st.0 == d && cur.len() < st.1.len() && cur.is_prefix_of(st.1))
    ||| (st.0.len() > d.len() && st.0[d.len() as int] != cur)
}

proof fn lemma_past_state_step(d: Seq<Seq<char>>, cur: Seq<char>, st: (Seq<Seq<char>>, Seq<char>), c: char)
    requires
        past_state(d, cur, st),
    ensures
        past_state(d, cur, split_step(st, c)),
{
    if st.0 == d && cur.len() < st.1.len() && cur.is_prefix_of(st.1) {
        if c == '/' {
            assert(st.1.len() > 0);
            assert(split_step(st, c).0[d.len() as int] == st.1);
            assert(st.1.len() > cur.len());
        } else {
            assert(cur =~= st.1.push(c).subrange(0, cur.len() as int)) by {
                assert forall|i: int| 0 <= i < cur.len() implies cur[i] == st.1.push(c)[i] by {
                    assert(cur[i] == st.1.subrange(0, cur.len() as int)[i]);
                }
            }
            assert(cur.is_prefix_of(st.1.push(c)));
        }
    } else {
        if c == '/' && st.1.len() > 0 {
            assert(st.0.push(st.1)[d.len() as int] == st.0[d.len() as int]);
        }
    }
}

proof fn lemma_past_state_run(d: Seq<Seq<char>>, cur: Seq<char>, st: (Seq<Seq<char>>, Seq<char>), t: Seq<char>)
    requires
        past_state(d, cur, st),
    ensures
        past_state(d, cur, split_run(st, t)),
    decreases t.len(),
{
    if t.len() > 0 {
        lemma_past_state_step(d, cur, st, t[0]);
        lemma_past_state_run(d, cur, split_step(st, t[0]), t.drop_first());
    }
}

/// Prefix safety: extending the last component of a path never produces a
/// path that lies inside it. In particular `/foo/bar2` is not inside
/// `/foo/bar`.
pub proof fn lemma_prefix_safety(base: Seq<char>, ext: Seq<char>)
    requires
        base.len() > 0,
        base.last() != '/',
        ext.len() > 0,
        ext[0] != '/',
    ensures
        !path_contains(spec_parse_path(base), spec_parse_path(base + ext)),
{
    let init = (Seq::<Seq<char>>::empty(), Seq::<char>::empty());
    let st_b = split_run(init, base);
    assert(base =~= base.drop_last().push(base.last()));
    lemma_split_run_push(init, base.drop_last(), base.last());
    assert(st_b == split_step(split_run(init, base.drop_last()), base.last()));
    let d = st_b.0;
    let cur = st_b.1;
    assert(cur.len() > 0);
    let base_segs = split_segments(base);
    assert(base_segs == d.push(cur));
    assert(base_segs[d.len() as int] == cur);

    lemma_split_run_concat(init, base, ext);
    let st_f = split_run(st_b, ext);
    assert(st_f == split_run(split_step(st_b, ext[0]), ext.drop_first()));
    let st_1 = split_step(st_b, ext[0]);
    assert(st_1 == (d, cur.push(ext[0])));
    assert(cur =~= cur.push(ext[0]).subrange(0, cur.len() as int)) by {
        assert forall|i: int| 0 <= i < cur.len() implies cur[i] == cur.push(ext[0])[i] by {}
    }
    assert(past_state(d, cur, st_1));
    lemma_past_state_run(d, cur, st_1, ext.drop_first());
    assert(past_state(d, cur, st_f));

    let full_segs = split_segments(base + ext);
    assert(full_segs == split_finish(st_f));
    if base_segs.is_prefix_of(full_segs) {
        assert(base_segs[d.len() as int] == full_segs.subrange(0, base_segs.len() as int)[d.len() as int]);
        assert(full_segs[d.len() as int] == cur);
        if st_f.0 == d && cur.len() < st_f.1.len() && cur.is_prefix_of(st_f.1) {
            assert(full_segs == d.push(st_f.1));
            assert(full_segs[d.len() as int] == st_f.1);
            assert(st_f.1.len() != cur.len());
        } else {
            assert(st_f.0.len() > d.len() && st_f.0[d.len() as int] != cur);
            if st_f.1.len() > 0 {
                assert(full_segs[d.len() as int] == st_f.0.push(st_f.1)[d.len() as int]);
                assert(full_segs[d.len() as int] == st_f.0[d.len() as int]);
            } else {
                assert(full_segs[d.len() as int] == st_f.0[d.len() as int]);
            }
        }
        assert(false);
    }
}

/// A filesystem path, kept as its components. Parsing never produces an
/// empty component.
#[derive(Debug)]
pub struct FsPath {
    pub absolute: bool,
    pub segments: Vec<String>,
}

impl View for FsPath {
    type V = PathModel;

    open spec fn view(&self) -> PathModel {
        PathModel { abs: self.absolute, segs: views_of(self.segments@) }
    }
}

impl FsPath {
    /// Split `s` into its components.
    pub fn parse(s: &str) -> (r: FsPath)
        ensures
            r@ == spec_parse_path(s@),
    {
        let n = s.unicode_len();
        let absolute = n > 0 && s.get_char(0) == '/';
        let mut done: Vec<String> = Vec::new();
        let mut cur = String::new();
        let ghost init = (Seq::<Seq<char>>::empty(), Seq::<char>::empty());
        let mut i: usize = 0;
        while i < n
            invariant
                n == s@.len(),
                0 <= i <= n,
                (views_of(done@), cur@) == split_run(init, s@.take(i as int)),
            decreases n - i,
        {
            proof {
                assert(s@.take(i + 1) =~= s@.take(i as int).push(s@[i as int]));
                lemma_split_run_push(init, s@.take(i as int), s@[i as int]);
            }
            let c = s.get_char(i);
            if c == '/' {
                if !cur.as_str().is_empty() {
                    let ghost prev_done = done@;
                    let ghost prev_cur = cur@;
                    done.push(cur);
                    cur = String::new();
                    proof {
                        lemma_views_of_push(prev_done, done@.last());
                        assert(done@ == prev_done.push(done@.last()));
                        assert(views_of(done@) =~= views_of(prev_done).push(prev_cur));
                    }
                }
            } else {
                let piece = s.substring_char(i, i + 1);
                cur.append(piece);
                proof {
                    assert(piece@ =~= seq![s@[i as int]]);
                    assert(cur@ =~= split_run(init, s@.take(i as int)).1.push(s@[i as int]));
                }
            }
            i += 1;
        }
        proof {
            assert(s@.take(n as int) =~= s@);
        }
        if !cur.as_str().is_empty() {
            let ghost prev_done = done@;
            let ghost prev_cur = cur@;
            done.push(cur);
            proof {
                lemma_views_of_push(prev_done, done@.last());
                assert(done@ == prev_done.push(done@.last()));
                assert(views_of(done@) =~= views_of(prev_done).push(prev_cur));
            }
        }
        FsPath { absolute, segments: done }
    }

    /// Write the path back as text, components joined with `/`.
    pub fn to_path_string(&self) -> (r: String)
        ensures
            r@ == display_of(self@),
    {
        let mut r = String::new();
        if self.absolute {
            r.append("/");
            proof {
                reveal_strlit("/");
                assert(r@ =~= seq!['/']);
            }
        }
        let ghost lead: Seq<char> = if self.absolute { seq!['/'] } else { Seq::empty() };
        assert(r@ =~= lead + join_segments(self@.segs.take(0)));
        let mut i: usize = 0;
        while i < self.segments.len()
            invariant
                0 <= i <= self.segments.len(),
                lead == (if self.absolute { seq!['/'] } else { Seq::<char>::empty() }),
                r@ == lead + join_segments(self@.segs.take(i as int)),
            decreases self.segments.len() - i,
        {
            proof {
                assert(self@.segs.take(i + 1).drop_last() =~= self@.segs.take(i as int));
                assert(self@.segs.take(i + 1).last() == self@.segs[i as int]);
            }
            if i > 0 {
                r.append("/");
                proof {
                    reveal_strlit("/");
                    assert("/"@ =~= seq!['/']);
                }
            }
            r.append(self.segments[i].as_str());
            proof {
                if i == 0 {
                    assert(join_segments(self@.segs.take(1)) == self@.segs[0]);
                    assert(r@ =~= lead + join_segments(self@.segs.take(1)));
                } else {
                    assert(join_segments(self@.segs.take(i + 1)) == join_segments(self@.segs.take(i as int)) + seq!['/'] + self@.segs[i as int]);
                    assert(r@ =~= lead + join_segments(self@.segs.take(i + 1)));
                }
            }
            i += 1;
        }
        proof {
            assert(self@.segs.take(self.segments.len() as int) =~= self@.segs);
        }
        r
    }

    /// Whether `self` lies inside `prefix`, component-wise.
    pub fn starts_with(&self, prefix: &FsPath) -> (r: bool)
        ensures
            r == path_contains(prefix@, self@),
    {
        if self.absolute != prefix.absolute {
            return false;
        }
        if prefix.segments.len() > self.segments.len() {
            return false;
        }
        let mut i: usize = 0;
        while i < prefix.segments.len()
            invariant
                0 <= i <= prefix.segments.len(),
                prefix.segments.len() <= self.segments.len(),
                self.absolute == prefix.absolute,
                forall|j: int| 0 <= j < i ==> prefix@.segs[j] == self@.segs[j],
            decreases prefix.segments.len() - i,
        {
            if self.segments[i] != prefix.segments[i] {
                assert(prefix@.segs[i as int] != self@.segs[i as int]);
                assert(!prefix@.segs.is_prefix_of(self@.segs)) by {
                    if prefix@.segs.is_prefix_of(self@.segs) {
                        assert(prefix@.segs[i as int] == self@.segs.subrange(0, prefix@.segs.len() as int)[i as int]);
                    }
                }
                return false;
            }
            i += 1;
        }
        assert(prefix@.segs =~= self@.segs.subrange(0, prefix@.segs.len() as int));
        true
    }

    /// The components of `self` after the leading `prefix`, as a relative
    /// path.
    pub fn strip_prefix(&self, prefix: &FsPath) -> (r: FsPath)
        requires
            path_contains(prefix@, self@),
        ensures
            !r@.abs,
            r@.segs == self@.segs.skip(prefix@.segs.len() as int),
    {
        let segs = cloned_segments(&self.segments, prefix.segments.len(), self.segments.len());
        let r = FsPath { absolute: false, segments: segs };
        proof {
            assert(r@.segs =~= self@.segs.skip(prefix@.segs.len() as int));
        }
        r
    }

    /// `self` with the components of the relative path `rest` appended.
    pub fn join(&self, rest: &FsPath) -> (r: FsPath)
        ensures
            r@.abs == self@.abs,
            r@.segs == self@.segs + rest@.segs,
    {
        let mut segs = cloned_segments(&self.segments, 0, self.segments.len());
        proof {
            assert(views_of(segs@) =~= self@.segs);
        }
        append_cloned_segments(&mut segs, &rest.segments);
        let r = FsPath { absolute: self.absolute, segments: segs };
        r
    }

    /// The path without its last component; a path without components is
    /// returned as it is.
    pub fn parent(&self) -> (r: FsPath)
        ensures
            r@.abs == self@.abs,
            self@.segs.len() == 0 ==> r@.segs == self@.segs,
            self@.segs.len() > 0 ==> r@.segs == self@.segs.drop_last(),
    {
        if self.segments.len() == 0 {
            let r = FsPath { absolute: self.absolute, segments: Vec::new() };
            proof {
                assert(r@.segs =~= self@.segs);
            }
            r
        } else {
            let segs = cloned_segments(&self.segments, 0, self.segments.len() - 1);
            let r = FsPath { absolute: self.absolute, segments: segs };
            proof {
                assert(r@.segs =~= self@.segs.drop_last());
            }
            r
        }
    }

    /// The last component, if there is one.
    pub fn last_segment(&self) -> (r: Option<String>)
        ensures
            r is Some <==> self@.segs.len() > 0,
            r matches Some(s) ==> s@ == self@.segs.last(),
    {
        if self.segments.len() == 0 {
            None
        } else {
            Some(self.segments[self.segments.len() - 1].clone())
        }
    }
}

/// The components of `v` from position `from` up to `to`, cloned.
fn cloned_segments(v: &Vec<String>, from: usize, to: usize) -> (r: Vec<String>)
    requires
        from <= to <= v.len(),
    ensures
        views_of(r@) == views_of(v@).subrange(from as int, to as int),
{
    let mut r: Vec<String> = Vec::new();
    proof {
        assert(views_of(r@) =~= views_of(v@).subrange(from as int, from as int));
    }
    let mut i = from;
    while i < to
        invariant
            from <= i <= to <= v.len(),
            views_of(r@) == views_of(v@).subrange(from as int, i as int),
        decreases to - i,
    {
        let ghost prev = r@;
        let s = v[i].clone();
        r.push(s);
        proof {
            lemma_views_of_push(prev, s);
            assert(views_of(r@) =~= views_of(v@).subrange(from as int, i + 1));
        }
        i += 1;
    }
    r
}

/// Append clones of the components of `src` to `dst`.
fn append_cloned_segments(dst: &mut Vec<String>, src: &Vec<String>)
    ensures
        views_of(final(dst)@) == views_of(old(dst)@) + views_of(src@),
{
    proof {
        assert(views_of(dst@) =~= views_of(old(dst)@) + views_of(src@).subrange(0, 0));
    }
    let mut i: usize = 0;
    while i < src.len()
        invariant
            0 <= i <= src.len(),
            views_of(dst@) == views_of(old(dst)@) + views_of(src@).subrange(0, i as int),
        decreases src.len() - i,
    {
        let ghost prev = dst@;
        let s = src[i].clone();
        dst.push(s);
        proof {
            lemma_views_of_push(prev, s);
            assert(views_of(dst@) =~= views_of(old(dst)@) + views_of(src@).subrange(0, i + 1));
        }
        i += 1;
    }
    proof {
        assert(views_of(src@).subrange(0, src@.len() as int) =~= views_of(src@));
        assert(views_of(dst@) =~= views_of(old(dst)@) + views_of(src@));
    }
}

} // verus!
