//! Path text: `$PWD` / `$HOME` / `$TMPDIR` substitution and the component
//! count of a path.
use vstd::prelude::*;

use crate::text::{chars_of, find_char, first_index_of, lemma_first_index_of, push_char, push_chars, starts_with, starts_with_at};

verus! {

/// The values that `$PWD`, `$HOME` and `$TMPDIR` stand for in a rule path.
pub struct PathContext {
    /// The working directory (`$PWD`).
    pub cwd: String,
    /// The user's home directory (`$HOME`); empty when it is unknown.
    pub home: String,
    /// The temporary directory (`$TMPDIR`).
    pub tmpdir: String,
}

impl PathContext {
    /// A context from its three values.
    pub fn new(cwd: &str, home: &str, tmpdir: &str) -> (r: PathContext)
        ensures
            r.cwd@ == cwd@,
            r.home@ == home@,
            r.tmpdir@ == tmpdir@,
    {
        PathContext { cwd: cwd.to_owned(), home: home.to_owned(), tmpdir: tmpdir.to_owned() }
    }
}

/// The token `$PWD`.
pub open spec fn pwd_token() -> Seq<char> {
    seq!['$', 'P', 'W', 'D']
}

/// The token `$HOME`.
pub open spec fn home_token() -> Seq<char> {
    seq!['$', 'H', 'O', 'M', 'E']
}

/// The token `$TMPDIR`.
pub open spec fn tmpdir_token() -> Seq<char> {
    seq!['$', 'T', 'M', 'P', 'D', 'I', 'R']
}

/// `s` with each `$PWD`, `$HOME` and `$TMPDIR` replaced by its value, read
/// left to right; every other character is kept.
pub open spec fn resolve_vars(s: Seq<char>, cwd: Seq<char>, home: Seq<char>, tmpdir: Seq<char>) -> Seq<char>
    decreases s.len(),
{
    if s.len() == 0 {
        Seq::empty()
    } else if starts_with(s, pwd_token()) {
        cwd + resolve_vars(s.skip(4), cwd, home, tmpdir)
    } else if starts_with(s, home_token()) {
        home + resolve_vars(s.skip(5), cwd, home, tmpdir)
    } else if starts_with(s, tmpdir_token()) {
        tmpdir + resolve_vars(s.skip(7), cwd, home, tmpdir)
    } else {
        seq![s[0]] + resolve_vars(s.skip(1), cwd, home, tmpdir)
    }
}

/// Expand `$PWD`, `$HOME` and `$TMPDIR` in `path` with the values of `ctx`.
pub fn resolve_env_vars(path: &str, ctx: &PathContext) -> (r: String)
    ensures
        r@ == resolve_vars(path@, ctx.cwd@, ctx.home@, ctx.tmpdir@),
{
    let v = chars_of(path);
    let cwd = chars_of(ctx.cwd.as_str());
    let home = chars_of(ctx.home.as_str());
    let tmpdir = chars_of(ctx.tmpdir.as_str());
    let pwd_tok: Vec<char> = vec!['$', 'P', 'W', 'D'];
    let home_tok: Vec<char> = vec!['$', 'H', 'O', 'M', 'E'];
    let tmp_tok: Vec<char> = vec!['$', 'T', 'M', 'P', 'D', 'I', 'R'];
    let ghost (c, h, t) = (ctx.cwd@, ctx.home@, ctx.tmpdir@);
    let mut out = String::new();
    let mut i: usize = 0;
    assert(v@.skip(0) =~= v@);
    while i < v.len()
        invariant
            i <= v@.len(),
            v@ == path@,
            cwd@ == c,
            home@ == h,
            tmpdir@ == t,
            pwd_tok@ == pwd_token(),
            home_tok@ == home_token(),
            tmp_tok@ == tmpdir_token(),
            resolve_vars(path@, c, h, t) == out@ + resolve_vars(v@.skip(i as int), c, h, t),
        decreases v.len() - i,
    {
        let ghost rest = v@.skip(i as int);
        if starts_with_at(&v, i, &pwd_tok) {
            push_chars(&mut out, &cwd, 0, cwd.len());
            assert(cwd@.subrange(0, cwd@.len() as int) =~= cwd@);
            assert(rest.skip(4) =~= v@.skip(i + 4));
            i = i + 4;
        } else if starts_with_at(&v, i, &home_tok) {
            push_chars(&mut out, &home, 0, home.len());
            assert(home@.subrange(0, home@.len() as int) =~= home@);
            assert(rest.skip(5) =~= v@.skip(i + 5));
            i = i + 5;
        } else if starts_with_at(&v, i, &tmp_tok) {
            push_chars(&mut out, &tmpdir, 0, tmpdir.len());
            assert(tmpdir@.subrange(0, tmpdir@.len() as int) =~= tmpdir@);
            assert(rest.skip(7) =~= v@.skip(i + 7));
            i = i + 7;
        } else {
            push_chars(&mut out, &v, i, i + 1);
            assert(v@.subrange(i as int, i + 1) =~= seq![rest[0]]);
            assert(rest.skip(1) =~= v@.skip(i + 1));
            i = i + 1;
        }
    }
    out
}

/// Whether a path segment (text between slashes) counts as a component:
/// it is neither empty nor `.`.
pub open spec fn is_normal_segment(seg: Seq<char>) -> bool {
    seg.len() > 0 && seg != seq!['.']
}

/// The number of normal segments in `s`, splitting at each `/`.
pub open spec fn normal_segments(s: Seq<char>) -> nat
    decreases s.len(),
{
    match first_index_of(s, '/') {
        Some(k) => {
            proof {
                lemma_first_index_of(s, '/');
            }
            (if is_normal_segment(s.take(k as int)) { 1nat } else { 0nat }) + normal_segments(
                s.skip(k + 1 as int),
            )
        },
        None => if is_normal_segment(s) { 1nat } else { 0nat },
    }
}

/// The number of components of a Unix path: a root for a leading `/`, a
/// current-directory component for a relative path that starts with `.`,
/// and one per other segment that is neither empty nor `.`.
pub open spec fn path_depth(s: Seq<char>) -> nat {
    let root: nat = if s.len() > 0 && s[0] == '/' { 1 } else { 0 };
    let cur: nat = if s.len() > 0 && s[0] == '.' && (s.len() == 1 || s[1] == '/') { 1 } else { 0 };
    root + cur + normal_segments(s)
}

/// The component count of `path` (what `Path::components().count()` gives).
pub fn path_depth_of(path: &str) -> (r: usize)
    ensures
        r == path_depth(path@),
{
    let v = chars_of(path);
    let mut count: usize = 0;
    if v.len() > 0 && v[0] == '/' {
        count = 1;
    }
    if v.len() > 0 && v[0] == '.' && (v.len() == 1 || v[1] == '/') {
        count = count + 1;
    }
    let ghost base = count as nat;
    let n = v.len();
    let mut i: usize = 0;
    assert(v@.skip(0) =~= v@);
    loop
        invariant
            i <= v@.len(),
            n == v@.len(),
            v@ == path@,
            base <= 2,
            base <= count,
            2 * (count - base) <= i,
            path_depth(path@) == count + normal_segments(v@.skip(i as int)),
        decreases v@.len() - i,
    {
        let ghost rest = v@.skip(i as int);
        let slash = find_char(&v, i, '/');
        proof {
            lemma_first_index_of(rest, '/');
        }
        let end = match slash {
            Some(k) => k,
            None => v.len(),
        };
        assert(i <= end <= v@.len());
        assert(slash is Some ==> end < v@.len());
        let seg_len = end - i;
        let normal = seg_len > 0 && !(seg_len == 1 && v[i] == '.');
        proof {
            let seg = if slash is Some { rest.take(seg_len as int) } else { rest };
            assert(seg =~= v@.subrange(i as int, end as int));
            if seg_len == 1 {
                assert(seg[0] == v@[i as int]);
                if v@[i as int] == '.' {
                    assert(seg =~= seq!['.']);
                } else {
                    assert(seg != seq!['.']);
                }
            } else if seg_len > 1 {
                assert(seg.len() != 1);
            }
            assert(normal == is_normal_segment(seg));
        }
        assert(normal_segments(rest) == (if normal { 1nat } else { 0nat }) + (if slash is Some {
            normal_segments(rest.skip(seg_len + 1))
        } else {
            0nat
        }));
        if normal {
            count = count + 1;
        }
        match slash {
            Some(k) => {
                assert(k < n);
                assert(rest.skip(seg_len + 1) =~= v@.skip(k + 1));
                i = k + 1;
            },
            None => {
                return count;
            },
        }
    }
}

} // verus!

verus! {

/// Whether a path segment is a component: not empty and not `.`.
pub open spec fn is_path_segment(seg: Seq<char>) -> bool {
    seg.len() > 0 && seg != seq!['.']
}

/// The components of `s`, in order: its `/`-separated segments other than
/// empty ones and `.` (`..` is kept).
pub open spec fn path_components(s: Seq<char>) -> Seq<Seq<char>>
    decreases s.len(),
{
    match first_index_of(s, '/') {
        Some(k) => {
            proof {
                lemma_first_index_of(s, '/');
            }
            (if is_path_segment(s.take(k as int)) { seq![s.take(k as int)] } else { Seq::empty() })
                + path_components(s.skip(k + 1 as int))
        },
        None => if is_path_segment(s) { seq![s] } else { Seq::empty() },
    }
}

/// The component `..`.
pub open spec fn parent_component() -> Seq<char> {
    seq!['.', '.']
}

/// The absolute path made of `comps`: `/` followed by the components
/// joined with `/`.
pub open spec fn render_absolute(comps: Seq<Seq<char>>) -> Seq<char> {
    seq!['/'] + crate::text::joined(comps, seq!['/'])
}

/// The components of `path`.
pub fn path_components_of(path: &str) -> (r: Vec<String>)
    ensures
        crate::names::views_of(r@) == path_components(path@),
{
    let v = chars_of(path);
    let n = v.len();
    let mut out: Vec<String> = Vec::new();
    let mut i: usize = 0;
    assert(v@.skip(0) =~= v@);
    loop
        invariant
            i <= v@.len(),
            n == v@.len(),
            v@ == path@,
            path_components(path@) == crate::names::views_of(out@) + path_components(v@.skip(i as int)),
        decreases v@.len() - i,
    {
        let ghost rest = v@.skip(i as int);
        let slash = find_char(&v, i, '/');
        proof {
            lemma_first_index_of(rest, '/');
        }
        let end = match slash {
            Some(k) => k,
            None => n,
        };
        assert(i <= end <= v@.len());
        let seg_len = end - i;
        let dot = seg_len == 1 && v[i] == '.';
        let named = seg_len > 0 && !dot;
        let ghost seg = if slash is Some { rest.take(seg_len as int) } else { rest };
        proof {
            assert(seg =~= v@.subrange(i as int, end as int));
            if seg_len == 1 {
                assert(seg[0] == v@[i as int]);
                if v@[i as int] == '.' {
                    assert(seg =~= seq!['.']);
                } else {
                    assert(seg != seq!['.']);
                }
            } else if seg_len > 1 {
                assert(seg.len() != 1);
            }
            assert(named == is_path_segment(seg));
        }
        let ghost before = out@;
        if named {
            let mut s = String::new();
            push_chars(&mut s, &v, i, end);
            out.push(s);
            assert(crate::names::views_of(out@) =~= crate::names::views_of(before) + seq![seg]);
        }
        match slash {
            Some(k) => {
                assert(k < n);
                assert(rest.skip(seg_len + 1) =~= v@.skip(k + 1));
                i = k + 1;
            },
            None => {
                assert(crate::names::views_of(out@) =~= path_components(path@));
                return out;
            },
        }
    }
}

/// `/` followed by `comps` joined with `/`.
pub fn render_absolute_of(comps: &Vec<String>) -> (r: String)
    ensures
        r@ == render_absolute(crate::names::views_of(comps@)),
{
    let ghost views = crate::names::views_of(comps@);
    let mut out = String::new();
    push_char(&mut out, '/');
    let mut i: usize = 0;
    while i < comps.len()
        invariant
            i <= comps@.len(),
            views == crate::names::views_of(comps@),
            out@ == seq!['/'] + crate::text::joined(views.take(i as int), seq!['/']),
        decreases comps.len() - i,
    {
        if i != 0 {
            push_char(&mut out, '/');
        }
        out.append(comps[i].as_str());
        assert(views.take(i + 1).drop_last() =~= views.take(i as int));
        assert(out@ =~= seq!['/'] + crate::text::joined(views.take(i + 1), seq!['/']));
        i = i + 1;
    }
    assert(views.take(comps@.len() as int) =~= views);
    out
}

/// The most symlink hops a walk follows before giving up.
pub const MAX_SYMLINK_DEPTH: usize = 40usize;

/// A walk over the components of a path that resolves symlinks without
/// resolving firmlinks: the caller reads each link the walk asks about.
///
/// The walk hands out the paths to probe one at a time. When a probe names a
/// symlink, the caller reports its target, whose components are then
/// resolved in place of the link; when a probe names nothing, the caller
/// reports it missing. A `..` is passed over, leaving the resolved
/// components as they are (only named components are resolved); after a
/// missing component, though, the path cannot be resolved, and the walk
/// gives up. After more than
/// [`MAX_SYMLINK_DEPTH`] links, when the walk gives up, or for a path that is
/// not absolute, the result is the path as given.
#[derive(Debug)]
pub struct SymlinkWalk {
    given: String,
    pending: Vec<String>,
    resolved: Vec<String>,
    depth: usize,
    missing: bool,
    finished: bool,
}

/// The state of a walk: the path given, the components still to resolve,
/// those resolved so far, the number of links followed, whether a probed
/// component was missing, and whether it gave up (or had nothing to
/// resolve).
#[verifier::ext_equal]
pub struct WalkState {
    pub given: Seq<char>,
    pub pending: Seq<Seq<char>>,
    pub resolved: Seq<Seq<char>>,
    pub depth: nat,
    pub missing: bool,
    pub finished: bool,
}

/// The walk over `path` before any probe.
pub open spec fn walk_start(path: Seq<char>) -> WalkState {
    if path.len() > 0 && path[0] == '/' {
        WalkState {
            given: path,
            pending: path_components(path),
            resolved: Seq::empty(),
            depth: 0,
            missing: false,
            finished: false,
        }
    } else {
        WalkState {
            given: path,
            pending: Seq::empty(),
            resolved: Seq::empty(),
            depth: 0,
            missing: false,
            finished: true,
        }
    }
}

/// The state after the next component is taken: `..` is passed over (the
/// walk gives up instead when a missing component was met), any other
/// component joins the resolved ones.
pub open spec fn walk_advance(s: WalkState) -> WalkState {
    if s.pending[0] == parent_component() {
        if s.missing {
            WalkState { finished: true, ..s }
        } else {
            WalkState { pending: s.pending.skip(1), ..s }
        }
    } else {
        WalkState { pending: s.pending.skip(1), resolved: s.resolved.push(s.pending[0]), ..s }
    }
}

/// Whether the walk has another component to take.
pub open spec fn walk_has_probe(s: WalkState) -> bool {
    !s.finished && s.pending.len() > 0
}

/// The state after the last probed path turned out to be a link to `target`:
/// one more link is counted; past [`MAX_SYMLINK_DEPTH`] links the walk gives
/// up; otherwise resolution restarts at the root for an absolute target or
/// at the link's parent for a relative one, with the target's components
/// resolved next.
pub open spec fn walk_follow(s: WalkState, target: Seq<char>) -> WalkState {
    if s.finished {
        s
    } else if s.depth >= MAX_SYMLINK_DEPTH {
        WalkState { depth: (MAX_SYMLINK_DEPTH + 1) as nat, finished: true, ..s }
    } else {
        WalkState {
            depth: s.depth + 1,
            resolved: if target.len() > 0 && target[0] == '/' {
                Seq::empty()
            } else if s.resolved.len() > 0 {
                s.resolved.drop_last()
            } else {
                s.resolved
            },
            pending: path_components(target) + s.pending,
            ..s
        }
    }
}

/// The state after the last probed path turned out not to exist.
pub open spec fn walk_missing(s: WalkState) -> WalkState {
    if s.finished {
        s
    } else {
        WalkState { missing: true, ..s }
    }
}

/// What the walk gives: the path as given when it gave up, otherwise the
/// resolved components as an absolute path.
pub open spec fn walk_result(s: WalkState) -> Seq<char> {
    if s.finished {
        s.given
    } else {
        render_absolute(s.resolved)
    }
}

impl SymlinkWalk {
    /// The state of this walk.
    pub closed spec fn state(&self) -> WalkState {
        WalkState {
            given: self.given@,
            pending: crate::names::views_of(self.pending@),
            resolved: crate::names::views_of(self.resolved@),
            depth: self.depth as nat,
            missing: self.missing,
            finished: self.finished,
        }
    }

    /// A walk over `path`.
    pub fn new(path: &str) -> (r: SymlinkWalk)
        ensures
            r.state() == walk_start(path@),
    {
        let v = chars_of(path);
        if v.len() > 0 && v[0] == '/' {
            let comps = path_components_of(path);
            let r = SymlinkWalk {
                given: path.to_owned(),
                pending: comps,
                resolved: Vec::new(),
                depth: 0,
                missing: false,
                finished: false,
            };
            assert(r.state().resolved =~= Seq::<Seq<char>>::empty());
            r
        } else {
            let r = SymlinkWalk {
                given: path.to_owned(),
                pending: Vec::new(),
                resolved: Vec::new(),
                depth: 0,
                missing: false,
                finished: true,
            };
            assert(r.state().resolved =~= Seq::<Seq<char>>::empty());
            assert(r.state().pending =~= Seq::<Seq<char>>::empty());
            r
        }
    }

    /// Takes the next component and returns the path to probe for a link or
    /// a missing component, or `None` when the walk is over.
    pub fn next_probe(&mut self) -> (r: Option<String>)
        ensures
            walk_has_probe(old(self).state()) ==> {
                &&& final(self).state() == walk_advance(old(self).state())
                &&& final(self).state().finished ==> r is None
                &&& !final(self).state().finished ==> (r matches Some(p) && p@ == render_absolute(
                    final(self).state().resolved,
                ))
            },
            !walk_has_probe(old(self).state()) ==> r is None && final(self).state() == old(self).state(),
    {
        if self.finished || self.pending.len() == 0 {
            return None;
        }
        let ghost before = self.state();
        let up = crate::text::str_eq(self.pending[0].as_str(), "..");
        proof {
            reveal_strlit("..");
            assert(".."@ =~= parent_component());
        }
        if up && self.missing {
            self.finished = true;
            assert(self.state() =~= walk_advance(before));
            return None;
        }
        let c = self.pending.remove(0);
        if !up {
            self.resolved.push(c);
            assert(self.state().resolved =~= before.resolved.push(before.pending[0]));
        }
        assert(self.state().pending =~= before.pending.skip(1));
        assert(self.state() =~= walk_advance(before));
        let p = render_absolute_of(&self.resolved);
        Some(p)
    }

    /// Reports that the last probed path is a symlink to `target`.
    pub fn found_link(&mut self, target: &str)
        ensures
            final(self).state() == walk_follow(old(self).state(), target@),
    {
        let ghost before = self.state();
        if self.finished {
            return;
        }
        if self.depth >= MAX_SYMLINK_DEPTH {
            self.depth = MAX_SYMLINK_DEPTH + 1;
            self.finished = true;
            assert(self.state() =~= walk_follow(before, target@));
            return;
        }
        self.depth = self.depth + 1;
        let t = chars_of(target);
        if t.len() > 0 && t[0] == '/' {
            self.resolved = Vec::new();
            assert(self.state().resolved =~= Seq::<Seq<char>>::empty());
        } else if self.resolved.len() > 0 {
            self.resolved.pop();
            assert(self.state().resolved =~= before.resolved.drop_last());
        }
        let mut comps = path_components_of(target);
        let mut rest = Vec::new();
        std::mem::swap(&mut rest, &mut self.pending);
        comps.append(&mut rest);
        self.pending = comps;
        assert(self.state().pending =~= path_components(target@) + before.pending);
        assert(self.state() =~= walk_follow(before, target@));
    }

    /// Reports that the last probed path does not exist.
    pub fn found_missing(&mut self)
        ensures
            final(self).state() == walk_missing(old(self).state()),
    {
        let ghost before = self.state();
        if !self.finished {
            self.missing = true;
        }
        assert(self.state() =~= walk_missing(before));
    }

    /// The resolved path.
    pub fn result(&self) -> (r: String)
        ensures
            r@ == walk_result(self.state()),
    {
        if self.finished {
            self.given.clone()
        } else {
            render_absolute_of(&self.resolved)
        }
    }
}

} // verus!
