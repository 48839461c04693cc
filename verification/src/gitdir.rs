//! Git worktree layout: reading a `.git` pointer file and a `commondir`
//! file, and normalizing the paths they give.
use vstd::prelude::*;

use crate::names::views_of;
use crate::text::{chars_of, find_char, first_index_of, joined, lemma_first_index_of, push_chars, starts_with, starts_with_at};

verus! {

/// Whether `c` is white space in the sense of `char::is_whitespace`
/// (Unicode `White_Space`).
pub open spec fn is_white_space(c: char) -> bool {
    let n = c as u32;
    (9 <= n <= 13) || n == 32 || n == 0x85 || n == 0xA0 || n == 0x1680 || (0x2000 <= n <= 0x200A)
        || n == 0x2028 || n == 0x2029 || n == 0x202F || n == 0x205F || n == 0x3000
}

/// Whether `c` is white space.
fn is_white_space_exec(c: char) -> (r: bool)
    ensures
        r == is_white_space(c),
{
    let n = c as u32;
    (9 <= n && n <= 13) || n == 32 || n == 0x85 || n == 0xA0 || n == 0x1680 || (0x2000 <= n && n
        <= 0x200A) || n == 0x2028 || n == 0x2029 || n == 0x202F || n == 0x205F || n == 0x3000
}

/// `s` without leading white space.
pub open spec fn trim_start(s: Seq<char>) -> Seq<char>
    decreases s.len(),
{
    if s.len() > 0 && is_white_space(s[0]) {
        trim_start(s.skip(1))
    } else {
        s
    }
}

/// `s` without trailing white space.
pub open spec fn trim_end(s: Seq<char>) -> Seq<char>
    decreases s.len(),
{
    if s.len() > 0 && is_white_space(s.last()) {
        trim_end(s.drop_last())
    } else {
        s
    }
}

/// `s` without leading and trailing white space.
pub open spec fn trim(s: Seq<char>) -> Seq<char> {
    trim_end(trim_start(s))
}

/// `v[from..to]` without leading and trailing white space.
pub fn trim_chars(v: &Vec<char>, from: usize, to: usize) -> (r: String)
    requires
        from <= to <= v@.len(),
    ensures
        r@ == trim(v@.subrange(from as int, to as int)),
{
    let mut a = from;
    assert(v@.subrange(from as int, to as int).skip(0) =~= v@.subrange(from as int, to as int));
    while a < to && is_white_space_exec(v[a])
        invariant
            from <= a <= to <= v@.len(),
            trim_start(v@.subrange(from as int, to as int)) == trim_start(v@.subrange(a as int, to as int)),
        decreases to - a,
    {
        assert(v@.subrange(a as int, to as int).skip(1) =~= v@.subrange(a + 1, to as int));
        a = a + 1;
    }
    assert(trim_start(v@.subrange(a as int, to as int)) == v@.subrange(a as int, to as int));
    let mut b = to;
    while b > a && is_white_space_exec(v[b - 1])
        invariant
            from <= a <= b <= to <= v@.len(),
            trim(v@.subrange(from as int, to as int)) == trim_end(v@.subrange(a as int, b as int)),
        decreases b - a,
    {
        assert(v@.subrange(a as int, b as int).drop_last() =~= v@.subrange(a as int, b - 1));
        b = b - 1;
    }
    let mut out = String::new();
    push_chars(&mut out, v, a, b);
    out
}

/// `line` without one trailing carriage return.
pub open spec fn strip_cr(line: Seq<char>) -> Seq<char> {
    if line.len() > 0 && line.last() == '\r' {
        line.drop_last()
    } else {
        line
    }
}

/// The text after `gitdir:` on the first line of `s` that starts with
/// `gitdir:` (lines end at `\n`, and a `\r` before the `\n` is not part of
/// the line).
pub open spec fn gitdir_line_value(s: Seq<char>) -> Option<Seq<char>>
    decreases s.len(),
{
    if s.len() == 0 {
        None
    } else {
        match first_index_of(s, '\n') {
            Some(k) => {
                proof {
                    lemma_first_index_of(s, '\n');
                }
                let line = strip_cr(s.take(k as int));
                if starts_with(line, "gitdir:"@) {
                    Some(line.skip(7))
                } else {
                    gitdir_line_value(s.skip(k + 1 as int))
                }
            },
            None => if starts_with(s, "gitdir:"@) {
                Some(s.skip(7))
            } else {
                None
            },
        }
    }
}

/// What reading a `.git` pointer file gives: the trimmed path after the
/// first `gitdir:`, or why there is none.
pub open spec fn gitdir_pointer(content: Seq<char>) -> Result<Seq<char>, Seq<char>> {
    match gitdir_line_value(content) {
        None => Err("no 'gitdir:' line found"@),
        Some(v) => if trim(v).len() == 0 {
            Err("empty gitdir path"@)
        } else {
            Ok(trim(v))
        },
    }
}

/// Reads the `gitdir:` line of a `.git` pointer file.
pub fn parse_gitdir_pointer(content: &str) -> (r: Result<String, String>)
    ensures
        match gitdir_pointer(content@) {
            Ok(p) => r matches Ok(s) && s@ == p,
            Err(e) => r matches Err(m) && m@ == e,
        },
{
    proof {
        reveal_strlit("gitdir:");
    }
    let v = chars_of(content);
    let prefix = chars_of("gitdir:");
    let n = v.len();
    let mut i: usize = 0;
    assert(v@.skip(0) =~= v@);
    while i < n
        invariant
            i <= n,
            n == v@.len(),
            v@ == content@,
            prefix@ == "gitdir:"@,
            prefix@.len() == 7,
            gitdir_line_value(content@) == gitdir_line_value(v@.skip(i as int)),
        decreases n - i,
    {
        let ghost rest = v@.skip(i as int);
        let nl = find_char(&v, i, '\n');
        proof {
            lemma_first_index_of(rest, '\n');
        }
        let line_end = match nl {
            Some(k) => k,
            None => n,
        };
        assert(i <= line_end <= n);
        let stripped_end = if nl.is_some() && line_end > i && v[line_end - 1] == '\r' {
            line_end - 1
        } else {
            line_end
        };
        let ghost line = if nl is Some { strip_cr(rest.take((line_end - i) as int)) } else { rest };
        proof {
            if nl is Some {
                assert(rest.take((line_end - i) as int) =~= v@.subrange(i as int, line_end as int));
                if line_end > i && v@[line_end - 1] == '\r' {
                    assert(line =~= v@.subrange(i as int, stripped_end as int));
                } else {
                    assert(line =~= v@.subrange(i as int, stripped_end as int));
                }
            } else {
                assert(line =~= v@.subrange(i as int, stripped_end as int));
            }
        }
        let is_gitdir = stripped_end - i >= 7 && starts_with_at(&v, i, &prefix);
        proof {
            if stripped_end - i >= 7 {
                assert(v@.skip(i as int).take(7) =~= line.take(7));
            } else {
                assert(!starts_with(line, "gitdir:"@));
            }
        }
        if is_gitdir {
            assert(line.skip(7) =~= v@.subrange(i + 7, stripped_end as int));
            let value = trim_chars(&v, i + 7, stripped_end);
            if value.unicode_len() == 0 {
                let mut msg = String::new();
                msg.append("empty gitdir path");
                return Err(msg);
            } else {
                return Ok(value);
            }
        }
        match nl {
            Some(k) => {
                assert(rest.skip((k - i) + 1) =~= v@.skip(k + 1));
                i = k + 1;
            },
            None => {
                i = n;
            },
        }
    }
    assert(v@.skip(n as int) =~= Seq::<char>::empty());
    let mut msg = String::new();
    msg.append("no 'gitdir:' line found");
    Err(msg)
}


/// The `/`-separated segments of `s`, empty ones included.
pub open spec fn segments(s: Seq<char>) -> Seq<Seq<char>>
    decreases s.len(),
{
    match first_index_of(s, '/') {
        Some(k) => {
            proof {
                lemma_first_index_of(s, '/');
            }
            seq![s.take(k as int)] + segments(s.skip(k + 1 as int))
        },
        None => seq![s],
    }
}

/// The component that stands for the root directory.
pub open spec fn root_component() -> Seq<char> {
    seq!['/']
}

/// One step of lexical normalization: `..` drops the last component kept so
/// far (the root included), empty segments and `.` are skipped, and any
/// other segment is kept.
pub open spec fn norm_step(stack: Seq<Seq<char>>, seg: Seq<char>) -> Seq<Seq<char>> {
    if seg == seq!['.', '.'] {
        if stack.len() > 0 {
            stack.drop_last()
        } else {
            stack
        }
    } else if seg.len() == 0 || seg == seq!['.'] {
        stack
    } else {
        stack.push(seg)
    }
}

/// Normalization steps for each segment, in order.
pub open spec fn norm_fold(stack: Seq<Seq<char>>, segs: Seq<Seq<char>>) -> Seq<Seq<char>>
    decreases segs.len(),
{
    if segs.len() == 0 {
        stack
    } else {
        norm_fold(norm_step(stack, segs[0]), segs.skip(1))
    }
}

/// The path a list of kept components spells: `/` then the rest joined with
/// `/` when it starts at the root, otherwise the components joined with `/`.
pub open spec fn render_components(stack: Seq<Seq<char>>) -> Seq<char> {
    if stack.len() > 0 && stack[0] == root_component() {
        seq!['/'] + joined(stack.skip(1), seq!['/'])
    } else {
        joined(stack, seq!['/'])
    }
}

/// `path` with `.` and empty segments removed and each `..` cancelling the
/// component before it, without touching the filesystem.
pub open spec fn normalized(path: Seq<char>) -> Seq<char> {
    let start = if path.len() > 0 && path[0] == '/' { seq![root_component()] } else { Seq::empty() };
    render_components(norm_fold(start, segments(path)))
}

/// `rel` resolved against `base`: `rel` itself when it is absolute or `base`
/// is empty, otherwise `base` and `rel` with one `/` between them.
pub open spec fn joined_path(base: Seq<char>, rel: Seq<char>) -> Seq<char> {
    if rel.len() > 0 && rel[0] == '/' {
        rel
    } else if base.len() == 0 {
        rel
    } else if base.last() == '/' {
        base + rel
    } else {
        base + seq!['/'] + rel
    }
}

/// Lexically normalizes a git path: `.` is dropped and `..` removes the
/// component before it.
pub fn normalize_git_path(path: &str) -> (r: String)
    ensures
        r@ == normalized(path@),
{
    let v = chars_of(path);
    let n = v.len();
    let mut stack: Vec<String> = Vec::new();
    if n > 0 && v[0] == '/' {
        let mut root = String::new();
        crate::text::push_char(&mut root, '/');
        stack.push(root);
        assert(views_of(stack@) =~= seq![root_component()]);
    } else {
        assert(views_of(stack@) =~= Seq::<Seq<char>>::empty());
    }
    let ghost start = views_of(stack@);
    let mut i: usize = 0;
    assert(v@.skip(0) =~= v@);
    loop
        invariant
            i <= n,
            n == v@.len(),
            v@ == path@,
            normalized(path@) == render_components(norm_fold(views_of(stack@), segments(v@.skip(i as int)))),
        decreases n - i,
    {
        let ghost rest = v@.skip(i as int);
        let slash = find_char(&v, i, '/');
        proof {
            lemma_first_index_of(rest, '/');
        }
        let end = match slash {
            Some(k) => k,
            None => n,
        };
        assert(i <= end <= n);
        let seg_len = end - i;
        let ghost seg = v@.subrange(i as int, end as int);
        proof {
            if slash is Some {
                assert(rest.take(seg_len as int) =~= seg);
                assert(rest.skip(seg_len + 1) =~= v@.skip(end + 1));
                assert(segments(rest) == seq![seg] + segments(v@.skip(end + 1)));
            } else {
                assert(rest =~= seg);
            }
        }
        let ghost before = views_of(stack@);
        let dots = seg_len == 2 && v[i] == '.' && v[i + 1] == '.';
        let dot = seg_len == 1 && v[i] == '.';
        proof {
            if seg_len == 2 {
                assert(dots == (seg =~= seq!['.', '.']));
                assert(seg != seq!['.']);
            } else if seg_len == 1 {
                assert(dot == (seg =~= seq!['.']));
                assert(seg != seq!['.', '.']);
            } else {
                assert(seg.len() != 1 && seg.len() != 2);
                assert(seg != seq!['.'] && seg != seq!['.', '.']);
            }
        }
        if dots {
            if stack.len() > 0 {
                stack.pop();
                assert(views_of(stack@) =~= before.drop_last());
            }
        } else if seg_len == 0 || dot {
        } else {
            let mut s = String::new();
            push_chars(&mut s, &v, i, end);
            stack.push(s);
            assert(views_of(stack@) =~= before.push(seg));
        }
        assert(views_of(stack@) == norm_step(before, seg));
        match slash {
            Some(k) => {
                assert(k < n);
                let ghost segs = segments(rest);
                assert(segs[0] == seg);
                assert(segs.skip(1) =~= segments(v@.skip(k + 1)));
                assert(norm_fold(before, segs) == norm_fold(norm_step(before, segs[0]), segs.skip(1)));
                i = k + 1;
            },
            None => {
                let ghost segs = segments(rest);
                assert(segs =~= seq![seg]);
                assert(segs.skip(1) =~= Seq::<Seq<char>>::empty());
                assert(norm_fold(before, segs) == norm_fold(norm_step(before, segs[0]), segs.skip(1)));
                assert(norm_fold(views_of(stack@), Seq::<Seq<char>>::empty()) == views_of(stack@));
                return render_stack(&stack);
            },
        }
    }
}

/// The path a list of kept components spells.
fn render_stack(stack: &Vec<String>) -> (r: String)
    ensures
        r@ == render_components(views_of(stack@)),
{
    let ghost views = views_of(stack@);
    let mut slash_only: Vec<char> = Vec::new();
    slash_only.push('/');
    assert(slash_only@ =~= seq!['/']);
    let rooted = stack.len() > 0 && crate::text::chars_eq(&chars_of(stack[0].as_str()), &slash_only);
    proof {
        if stack@.len() > 0 {
            assert(views[0] == stack@[0]@);
        }
    }
    let mut out = String::new();
    let first: usize = if rooted {
        crate::text::push_char(&mut out, '/');
        1
    } else {
        0
    };
    let ghost tail = views.skip(first as int);
    let mut i: usize = first;
    assert(tail.take(0) =~= Seq::<Seq<char>>::empty());
    while i < stack.len()
        invariant
            first <= i <= stack@.len(),
            first <= 1,
            views == views_of(stack@),
            tail == views.skip(first as int),
            out@ == (if rooted { seq!['/'] } else { Seq::empty() }) + joined(tail.take(i - first), seq!['/']),
        decreases stack.len() - i,
    {
        if i != first {
            crate::text::push_char(&mut out, '/');
        }
        out.append(stack[i].as_str());
        assert(tail.take(i + 1 - first).drop_last() =~= tail.take(i - first));
        assert(tail.take(i + 1 - first).last() == stack@[i as int]@);
        assert(out@ =~= (if rooted { seq!['/'] } else { Seq::empty() }) + joined(tail.take(i + 1 - first), seq!['/']));
        i = i + 1;
    }
    assert(tail.take(stack@.len() - first) =~= tail);
    if !rooted {
        assert(tail =~= views);
        assert(out@ =~= joined(views, seq!['/']));
        assert(!(views.len() > 0 && views[0] == root_component()));
    } else {
        assert(views[0] =~= root_component());
        assert(out@ =~= seq!['/'] + joined(views.skip(1), seq!['/']));
    }
    out
}

/// `rel` resolved against `base` (what `Path::join` gives).
pub fn join_path(base: &str, rel: &str) -> (r: String)
    ensures
        r@ == joined_path(base@, rel@),
{
    let b = chars_of(base);
    let r = chars_of(rel);
    if r.len() > 0 && r[0] == '/' {
        return rel.to_owned();
    }
    if b.len() == 0 {
        return rel.to_owned();
    }
    let mut out = base.to_owned();
    if b[b.len() - 1] != '/' {
        crate::text::push_char(&mut out, '/');
    }
    out.append(rel);
    out
}

/// The shared git directory named by a worktree's `commondir` file, read
/// relative to the worktree's git directory `git_dir`; `None` when the file
/// names nothing.
pub fn common_dir_from(git_dir: &str, commondir_content: &str) -> (r: Option<String>)
    ensures
        trim(commondir_content@).len() == 0 ==> r is None,
        trim(commondir_content@).len() > 0 ==> (r matches Some(p) && p@ == normalized(
            joined_path(git_dir@, trim(commondir_content@)),
        )),
{
    let v = chars_of(commondir_content);
    let relative = trim_chars(&v, 0, v.len());
    assert(v@.subrange(0, v@.len() as int) =~= v@);
    if relative.unicode_len() == 0 {
        return None;
    }
    let joined = join_path(git_dir, relative.as_str());
    Some(normalize_git_path(joined.as_str()))
}

/// The worktree's git directory: the `gitdir:` target read relative to the
/// directory `base` that holds the `.git` file, normalized.
pub fn worktree_git_dir(base: &str, gitdir: &str) -> (r: String)
    ensures
        r@ == normalized(joined_path(base@, gitdir@)),
{
    let joined = join_path(base, gitdir);
    normalize_git_path(joined.as_str())
}

/// The directories a sandbox needs for a worktree: its git directory and
/// the shared one, once when they are the same.
pub fn worktree_dirs(git_dir: String, common_dir: String) -> (r: Vec<String>)
    ensures
        git_dir@ == common_dir@ ==> views_of(r@) == seq![git_dir@],
        git_dir@ != common_dir@ ==> views_of(r@) == seq![git_dir@, common_dir@],
{
    let same = crate::text::str_eq(git_dir.as_str(), common_dir.as_str());
    let mut out: Vec<String> = Vec::new();
    let ghost (g, c) = (git_dir@, common_dir@);
    out.push(git_dir);
    if !same {
        out.push(common_dir);
        assert(views_of(out@) =~= seq![g, c]);
    } else {
        assert(views_of(out@) =~= seq![g]);
    }
    out
}

} // verus!
