//! Environment manipulation applied to a sandboxed process.
use vstd::prelude::*;

use crate::names::{has_key, lemma_value_absent, value_for, views_of, StrMap, StrSet};
use crate::text::{chars_of, first_index_of, lemma_first_index_of, find_char, push_chars, push_char};

verus! {

/// Whether a sandboxed process starts from the parent environment or an empty
/// one.
#[derive(Debug, Clone, Copy, PartialEq, Eq, Structural)]
pub enum EnvDefault {
    /// Inherit the parent environment, then apply edits. The default, so
    /// adding an `env` block never silently strips something.
    Inherit,
    /// Start from an empty environment; only explicitly inherited or assigned
    /// names are present. Fails closed: a credential nobody thought to name is
    /// absent rather than passed through.
    Clean,
}

impl Default for EnvDefault {
    fn default() -> (r: EnvDefault)
        ensures
            r == EnvDefault::Inherit,
    {
        EnvDefault::Inherit
    }
}

impl EnvDefault {
    /// Whether this is the `Inherit` mode.
    pub fn is_inherit(&self) -> (r: bool)
        ensures
            r == (*self == EnvDefault::Inherit),
    {
        match self {
            EnvDefault::Inherit => true,
            EnvDefault::Clean => false,
        }
    }
}

/// Environment manipulation applied to a sandboxed process.
///
/// The operations are not equally strong, and it matters which one a policy
/// leans on:
///
/// - `default: Clean` plus `inherit` is confinement, and it fails closed —
///   anything not named is absent.
/// - `remove` is confinement, but it fails *open*: it only withholds names
///   somebody thought to list. Prefer `Clean` when the goal is keeping
///   credentials away from a process.
/// - `set` is configuration, not enforcement. It shapes how a cooperating
///   program behaves and constrains nothing.
///
/// Removal is applied after assignment, so a name in both is withheld.
///
/// Assigned values may reference the *parent's* environment with `$NAME` or
/// `${NAME}`, so a sandbox can relocate tool state without hard-coding a path:
/// `"CARGO_HOME": "$HOME/.sandboxed/cargo"`. An undefined name expands to
/// empty. Write `$$` for a literal `$`. Under `Clean`, expansion still reads
/// the parent environment, before it is discarded.
#[derive(Debug)]
pub struct EnvPolicy {
    /// Whether to start from the parent environment or an empty one.
    pub default: EnvDefault,
    /// Names passed through from the parent. Only meaningful under `Clean`;
    /// under `Inherit` everything is already passed through.
    pub inherit: StrSet,
    /// Variables to define for the sandboxed process.
    pub set: StrMap,
    /// Variables to withhold from the sandboxed process.
    pub remove: StrSet,
}

impl Default for EnvPolicy {
    fn default() -> (r: EnvPolicy)
        ensures
            r.default == EnvDefault::Inherit,
            r.inherit@.len() == 0,
            r.set@.len() == 0,
            r.remove@.len() == 0,
    {
        EnvPolicy {
            default: EnvDefault::Inherit,
            inherit: StrSet::new(),
            set: StrMap::new(),
            remove: StrSet::new(),
        }
    }
}

/// The environment edits for a command that is about to be spawned.
#[derive(Debug)]
pub struct EnvCommandPlan {
    /// Whether the command starts from an empty environment.
    pub clear: bool,
    /// Variables to define, in order (a later one overrides an earlier one).
    pub assignments: Vec<(String, String)>,
    /// Variables to withhold, applied after the assignments.
    pub removals: Vec<String>,
}

/// Whether `c` may start a `$NAME` reference: an ASCII letter or `_`.
pub open spec fn is_name_start(c: char) -> bool {
    let n = c as u32;
    (65 <= n <= 90) || (97 <= n <= 122) || n == 95
}

/// Whether `c` may continue a `$NAME` reference: an ASCII letter, digit or `_`.
pub open spec fn is_name_char(c: char) -> bool {
    is_name_start(c) || (48 <= (c as u32) <= 57)
}

/// The length of the longest prefix of `s` made of name characters.
pub open spec fn name_len(s: Seq<char>) -> nat
    decreases s.len(),
{
    if s.len() > 0 && is_name_char(s[0]) {
        1 + name_len(s.skip(1))
    } else {
        0
    }
}

/// The run of name characters at the start of `s` is within `s`, holds only
/// name characters, and stops at one that is not.
pub proof fn lemma_name_len(s: Seq<char>)
    ensures
        name_len(s) <= s.len(),
        forall|j: int| 0 <= j < name_len(s) ==> is_name_char(#[trigger] s[j]),
        name_len(s) < s.len() ==> !is_name_char(s[name_len(s) as int]),
    decreases s.len(),
{
    if s.len() > 0 && is_name_char(s[0]) {
        lemma_name_len(s.skip(1));
        assert forall|j: int| 0 <= j < name_len(s) implies is_name_char(#[trigger] s[j]) by {
            if j > 0 {
                assert(s[j] == s.skip(1)[j - 1]);
            }
        }
        if name_len(s) < s.len() {
            assert(s[name_len(s) as int] == s.skip(1)[name_len(s.skip(1)) as int]);
        }
    }
}

/// `s` with each `$NAME` and `${NAME}` replaced by the value of `NAME` among
/// the `parent` entries (nothing when undefined), `$$` replaced by `$`, an
/// unterminated `${...` kept as written, and any other `$` kept.
pub open spec fn expand_spec(s: Seq<char>, parent: Seq<(Seq<char>, Seq<char>)>) -> Seq<char>
    decreases s.len(),
{
    if s.len() == 0 {
        Seq::empty()
    } else if s[0] != '$' {
        seq![s[0]] + expand_spec(s.skip(1), parent)
    } else if s.len() == 1 {
        seq!['$']
    } else if s[1] == '$' {
        seq!['$'] + expand_spec(s.skip(2), parent)
    } else if s[1] == '{' {
        match first_index_of(s.skip(2), '}') {
            Some(k) => {
                proof {
                    lemma_first_index_of(s.skip(2), '}');
                }
                value_for(parent, s.skip(2).take(k as int)) + expand_spec(s.skip(3 + k as int), parent)
            },
            None => seq!['$', '{'] + s.skip(2),
        }
    } else if is_name_start(s[1]) {
        proof {
            lemma_name_len(s.skip(1));
        }
        let k = name_len(s.skip(1));
        value_for(parent, s.skip(1).take(k as int)) + expand_spec(s.skip(1 + k as int), parent)
    } else {
        seq!['$'] + expand_spec(s.skip(1), parent)
    }
}


/// `name=value`.
pub open spec fn assignment(name: Seq<char>, value: Seq<char>) -> Seq<char> {
    name + seq!['='] + value
}

/// Each name of `inherit` that `parent` defines, paired with its value, in
/// the order of `inherit`.
pub open spec fn inherited_pairs(
    inherit: Seq<Seq<char>>,
    parent: Seq<(Seq<char>, Seq<char>)>,
) -> Seq<(Seq<char>, Seq<char>)>
    decreases inherit.len(),
{
    if inherit.len() == 0 {
        Seq::empty()
    } else {
        inherited_pairs(inherit.drop_last(), parent) + (if has_key(parent, inherit.last()) {
            seq![(inherit.last(), value_for(parent, inherit.last()))]
        } else {
            Seq::empty()
        })
    }
}

/// `name=value` for each pair whose name is neither removed nor assigned.
pub open spec fn passthrough_args(
    pairs: Seq<(Seq<char>, Seq<char>)>,
    remove: Seq<Seq<char>>,
    set: Seq<(Seq<char>, Seq<char>)>,
) -> Seq<Seq<char>>
    decreases pairs.len(),
{
    if pairs.len() == 0 {
        Seq::empty()
    } else {
        let (name, value) = pairs.last();
        passthrough_args(pairs.drop_last(), remove, set) + (if !remove.contains(name) && !has_key(
            set,
            name,
        ) {
            seq![assignment(name, value)]
        } else {
            Seq::empty()
        })
    }
}

/// `-u NAME` for each removed name.
pub open spec fn unset_args(remove: Seq<Seq<char>>) -> Seq<Seq<char>>
    decreases remove.len(),
{
    if remove.len() == 0 {
        Seq::empty()
    } else {
        unset_args(remove.drop_last()) + seq!["-u"@, remove.last()]
    }
}

/// `NAME=expanded value` for each assignment whose name is not removed.
pub open spec fn assign_args(
    set: Seq<(Seq<char>, Seq<char>)>,
    remove: Seq<Seq<char>>,
    parent: Seq<(Seq<char>, Seq<char>)>,
) -> Seq<Seq<char>>
    decreases set.len(),
{
    if set.len() == 0 {
        Seq::empty()
    } else {
        let (name, value) = set.last();
        assign_args(set.drop_last(), remove, parent) + (if remove.contains(name) {
            Seq::empty()
        } else {
            seq![assignment(name, expand_spec(value, parent))]
        })
    }
}

/// Each assignment with its value expanded against `parent`.
pub open spec fn expanded_pairs(
    set: Seq<(Seq<char>, Seq<char>)>,
    parent: Seq<(Seq<char>, Seq<char>)>,
) -> Seq<(Seq<char>, Seq<char>)> {
    set.map_values(|e: (Seq<char>, Seq<char>)| (e.0, expand_spec(e.1, parent)))
}

/// The views of a list of pairs of strings.
pub open spec fn pair_views(v: Seq<(String, String)>) -> Seq<(Seq<char>, Seq<char>)> {
    v.map_values(|e: (String, String)| (e.0@, e.1@))
}

/// Where the run of name characters that starts at `from` ends.
fn name_end(v: &Vec<char>, from: usize) -> (r: usize)
    requires
        from <= v@.len(),
    ensures
        r == from + name_len(v@.skip(from as int)),
        r <= v@.len(),
{
    let mut i = from;
    while i < v.len() && is_name_char_exec(v[i])
        invariant
            from <= i <= v@.len(),
            name_len(v@.skip(from as int)) == (i - from) + name_len(v@.skip(i as int)),
        decreases v.len() - i,
    {
        assert(v@.skip(i as int)[0] == v@[i as int]);
        assert(v@.skip(i as int).skip(1) =~= v@.skip(i + 1));
        i = i + 1;
    }
    proof {
        if i < v@.len() {
            assert(v@.skip(i as int)[0] == v@[i as int]);
        }
    }
    i
}

/// Whether `c` may start a `$NAME` reference.
fn is_name_start_exec(c: char) -> (r: bool)
    ensures
        r == is_name_start(c),
{
    let n = c as u32;
    (65 <= n && n <= 90) || (97 <= n && n <= 122) || n == 95
}

/// Whether `c` may continue a `$NAME` reference.
fn is_name_char_exec(c: char) -> (r: bool)
    ensures
        r == is_name_char(c),
{
    let n = c as u32;
    is_name_start_exec(c) || (48 <= n && n <= 57)
}

/// The value of `name` among the `parent` entries, or nothing.
fn lookup_into(out: &mut String, parent: &StrMap, v: &Vec<char>, from: usize, to: usize)
    requires
        from <= to <= v@.len(),
    ensures
        final(out)@ == old(out)@ + value_for(parent@, v@.subrange(from as int, to as int)),
{
    let mut name = String::new();
    push_chars(&mut name, v, from, to);
    assert(name@ =~= v@.subrange(from as int, to as int));
    match parent.get(name.as_str()) {
        Some(value) => {
            out.append(value.as_str());
        },
        None => {
            proof {
                lemma_value_absent(parent@, name@);
            }

        },
    }
}

impl EnvPolicy {
    /// A copy of this policy.
    pub fn duplicate(&self) -> (r: EnvPolicy)
        ensures
            r.default == self.default,
            r.inherit@ == self.inherit@,
            r.set@ == self.set@,
            r.remove@ == self.remove@,
    {
        EnvPolicy {
            default: self.default,
            inherit: self.inherit.duplicate(),
            set: self.set.duplicate(),
            remove: self.remove.duplicate(),
        }
    }

    /// Whether this policy would change nothing: it keeps the parent
    /// environment and neither sets nor removes a variable (names to pass
    /// through mean nothing when everything is passed through).
    pub fn is_empty(&self) -> (r: bool)
        ensures
            r == (self.default == EnvDefault::Inherit && self.set@.len() == 0 && self.remove@.len()
                == 0),
    {
        self.default.is_inherit() && self.set.is_empty() && self.remove.is_empty()
    }

    /// Whether the parent environment is discarded before edits are applied.
    pub fn is_clean(&self) -> (r: bool)
        ensures
            r == (self.default == EnvDefault::Clean),
    {
        match self.default {
            EnvDefault::Clean => true,
            EnvDefault::Inherit => false,
        }
    }


    /// The `/usr/bin/env` arguments for this policy, given the parent
    /// environment `parent`.
    pub open spec fn env_args_spec(&self, parent: Seq<(Seq<char>, Seq<char>)>) -> Seq<Seq<char>> {
        if self.default == EnvDefault::Inherit && self.set@.len() == 0
            && self.remove@.len() == 0 {
            Seq::empty()
        } else {
            seq!["/usr/bin/env"@] + (if self.default == EnvDefault::Clean {
                seq!["-i"@] + passthrough_args(
                    inherited_pairs(self.inherit@, parent),
                    self.remove@,
                    self.set@,
                )
            } else {
                unset_args(self.remove@)
            }) + assign_args(self.set@, self.remove@, parent)
        }
    }

    /// The variables a `Clean` policy carries over, read from `parent`.
    ///
    /// Names absent from the parent are skipped rather than defined empty, so
    /// a pass-through never invents a value.
    pub fn inherited_from(&self, parent: &StrMap) -> (r: Vec<(String, String)>)
        ensures
            pair_views(r@) == inherited_pairs(self.inherit@, parent@),
    {
        let mut out: Vec<(String, String)> = Vec::new();
        let mut i: usize = 0;
        while i < self.inherit.len()
            invariant
                i <= self.inherit@.len(),
                pair_views(out@) == inherited_pairs(self.inherit@.take(i as int), parent@),
            decreases self.inherit@.len() - i,
        {
            let name = self.inherit.get(i);
            assert(self.inherit@.take(i + 1).drop_last() =~= self.inherit@.take(i as int));
            match parent.get(name.as_str()) {
                Some(value) => {
                    out.push((name.clone(), value.clone()));
                    assert(pair_views(out@) =~= inherited_pairs(self.inherit@.take(i as int), parent@)
                        + seq![(name@, value@)]);
                },
                None => {},
            }
            i = i + 1;
        }
        assert(self.inherit@.take(self.inherit@.len() as int) =~= self.inherit@);
        out
    }

    /// Render as `/usr/bin/env` arguments, for callers that hand the command
    /// to something else to spawn and so cannot set env directly; `parent`
    /// is the environment the values are read from.
    ///
    /// Empty when nothing would change, so callers can skip interposing `env`.
    pub fn to_env_args(&self, parent: &StrMap) -> (r: Vec<String>)
        ensures
            views_of(r@) == self.env_args_spec(parent@),
    {
        if self.is_empty() {
            let r: Vec<String> = Vec::new();
            assert(views_of(r@) =~= Seq::<Seq<char>>::empty());
            return r;
        }
        let mut args: Vec<String> = Vec::new();
        args.push("/usr/bin/env".to_owned());
        let ghost head = views_of(args@);
        if self.is_clean() {
            args.push("-i".to_owned());
            let pairs = self.inherited_from(parent);
            let ghost pv = pair_views(pairs@);
            let ghost start = views_of(args@);
            let mut i: usize = 0;
            while i < pairs.len()
                invariant
                    i <= pairs@.len(),
                    pv == pair_views(pairs@),
                    views_of(args@) == start + passthrough_args(pv.take(i as int), self.remove@, self.set@),
                decreases pairs.len() - i,
            {
                assert(pv.take(i + 1).drop_last() =~= pv.take(i as int));
                let name = &pairs[i].0;
                let value = &pairs[i].1;
                assert(pv[i as int] == (name@, value@));
                assert(pv.take(i + 1).last() == (name@, value@));
                if !self.remove.contains(name.as_str()) && !self.set.contains_key(name.as_str()) {
                    let ghost before = args@;
                    let mut a = name.clone();
                    push_char(&mut a, '=');
                    a.append(value.as_str());
                    assert(a@ =~= assignment(name@, value@));
                    args.push(a);
                    assert(args@ == before.push(a));
                    assert(views_of(args@) =~= views_of(before).push(a@));
                    assert(views_of(args@) =~= start + passthrough_args(pv.take(i as int), self.remove@, self.set@)
                        + seq![assignment(name@, value@)]);
                } else {
                    assert(views_of(args@) =~= start + passthrough_args(pv.take(i as int), self.remove@, self.set@)
                        + Seq::<Seq<char>>::empty());
                }
                i = i + 1;
            }
            assert(pv.take(pairs@.len() as int) =~= pv);
            assert(start =~= head + seq!["-i"@]);
        } else {
            let mut i: usize = 0;
            while i < self.remove.len()
                invariant
                    i <= self.remove@.len(),
                    views_of(args@) == head + unset_args(self.remove@.take(i as int)),
                decreases self.remove@.len() - i,
            {
                assert(self.remove@.take(i + 1).drop_last() =~= self.remove@.take(i as int));
                assert(self.remove@.take(i + 1).last() == self.remove@[i as int]);
                let ghost before = args@;
                let flag = "-u".to_owned();
                let item = self.remove.get(i).clone();
                let ghost (fv, iv) = (flag@, item@);
                args.push(flag);
                args.push(item);
                assert(views_of(args@) =~= views_of(before).push(fv).push(iv));
                assert(views_of(args@) =~= head + unset_args(self.remove@.take(i as int)) + seq![
                    "-u"@,
                    self.remove@[i as int],
                ]);
                i = i + 1;
            }
            assert(self.remove@.take(self.remove@.len() as int) =~= self.remove@);
        }
        let ghost mid = views_of(args@);
        let mut j: usize = 0;
        while j < self.set.len()
            invariant
                j <= self.set@.len(),
                views_of(args@) == mid + assign_args(self.set@.take(j as int), self.remove@, parent@),
            decreases self.set@.len() - j,
        {
            assert(self.set@.take(j + 1).drop_last() =~= self.set@.take(j as int));
            assert(self.set@.take(j + 1).last() == self.set@[j as int]);
            let key = self.set.key_at(j);
            if self.remove.contains(key.as_str()) {
                assert(views_of(args@) =~= mid + assign_args(self.set@.take(j as int), self.remove@, parent@)
                    + Seq::<Seq<char>>::empty());
            } else {
                let ghost before = args@;
                let mut a = key.clone();
                push_char(&mut a, '=');
                let expanded = EnvPolicy::expand(self.set.value_at(j).as_str(), parent);
                a.append(expanded.as_str());
                assert(a@ =~= assignment(key@, expand_spec(self.set@[j as int].1, parent@)));
                args.push(a);
                assert(args@ == before.push(a));
                assert(views_of(args@) =~= views_of(before).push(a@));
                assert(views_of(args@) =~= mid + assign_args(self.set@.take(j as int), self.remove@, parent@)
                    + seq![assignment(key@, expand_spec(self.set@[j as int].1, parent@))]);
            }
            j = j + 1;
        }
        assert(self.set@.take(self.set@.len() as int) =~= self.set@);
        args
    }

    /// The edits to make to a command about to be spawned, given the parent
    /// environment `parent`: whether to clear its environment first, the
    /// variables to set in order, then the variables to remove.
    pub fn command_plan(&self, parent: &StrMap) -> (r: EnvCommandPlan)
        ensures
            r.clear == (self.default == EnvDefault::Clean),
            pair_views(r.assignments@) == (if self.default == EnvDefault::Clean {
                inherited_pairs(self.inherit@, parent@)
            } else {
                Seq::empty()
            }) + expanded_pairs(self.set@, parent@),
            views_of(r.removals@) == self.remove@,
    {
        let clear = self.is_clean();
        let mut assignments: Vec<(String, String)> = if clear {
            self.inherited_from(parent)
        } else {
            Vec::new()
        };
        let ghost start = pair_views(assignments@);
        let mut j: usize = 0;
        while j < self.set.len()
            invariant
                j <= self.set@.len(),
                pair_views(assignments@) == start + expanded_pairs(self.set@.take(j as int), parent@),
            decreases self.set@.len() - j,
        {
            let ghost before = assignments@;
            let key = self.set.key_at(j).clone();
            let value = EnvPolicy::expand(self.set.value_at(j).as_str(), parent);
            let ghost entry = (key@, value@);
            assert(entry == (self.set@[j as int].0, expand_spec(self.set@[j as int].1, parent@)));
            assignments.push((key, value));
            assert(assignments@ == before.push((key, value)));
            assert(pair_views(assignments@) =~= pair_views(before).push(entry));
            assert(expanded_pairs(self.set@.take(j + 1), parent@) =~= expanded_pairs(self.set@.take(j as int), parent@).push(entry));
            j = j + 1;
        }
        assert(self.set@.take(self.set@.len() as int) =~= self.set@);
        let mut removals: Vec<String> = Vec::new();
        let mut k: usize = 0;
        while k < self.remove.len()
            invariant
                k <= self.remove@.len(),
                views_of(removals@) == self.remove@.take(k as int),
            decreases self.remove@.len() - k,
        {
            let ghost before = removals@;
            let item = self.remove.get(k).clone();
            assert(item@ == self.remove@[k as int]);
            removals.push(item);
            assert(removals@ == before.push(item));
            assert(views_of(removals@) =~= views_of(before).push(item@));
            assert(views_of(removals@) =~= self.remove@.take(k + 1));
            k = k + 1;
        }
        assert(self.remove@.take(self.remove@.len() as int) =~= self.remove@);
        proof {
            if !clear {
                assert(start =~= Seq::<(Seq<char>, Seq<char>)>::empty());
            }
        }
        EnvCommandPlan { clear, assignments, removals }
    }

    /// Expand `$NAME` / `${NAME}` against `parent`; `$$` is a literal `$`.
    ///
    /// An undefined name expands to empty, consistent with how `$VAR` resolves
    /// elsewhere.
    pub fn expand(raw: &str, parent: &StrMap) -> (r: String)
        ensures
            r@ == expand_spec(raw@, parent@),
    {
        let v = chars_of(raw);
        let mut out = String::new();
        let mut i: usize = 0;
        assert(v@.skip(0) =~= v@);
        while i < v.len()
            invariant
                i <= v@.len(),
                v@ == raw@,
                expand_spec(raw@, parent@) == out@ + expand_spec(v@.skip(i as int), parent@),
            decreases v.len() - i,
        {
            let ghost rest = v@.skip(i as int);
            let c = v[i];
            assert(rest[0] == c);
            if c != '$' {
                push_char(&mut out, c);
                assert(rest.skip(1) =~= v@.skip(i + 1));
                i = i + 1;
            } else if i + 1 == v.len() {
                push_char(&mut out, '$');
                assert(v@.skip(i + 1) =~= Seq::<char>::empty());
                i = i + 1;
            } else {
                let d = v[i + 1];
                assert(rest[1] == d);
                if d == '$' {
                    push_char(&mut out, '$');
                    assert(rest.skip(2) =~= v@.skip(i + 2));
                    i = i + 2;
                } else if d == '{' {
                    assert(rest.skip(2) =~= v@.skip(i + 2));
                    match find_char(&v, i + 2, '}') {
                        Some(close) => {
                            proof {
                                lemma_first_index_of(rest.skip(2), '}');
                            }
                            lookup_into(&mut out, parent, &v, i + 2, close);
                            assert(rest.skip(2).take((close - (i + 2)) as int) =~= v@.subrange(
                                i + 2,
                                close as int,
                            ));
                            assert(rest.skip(3 + (close - (i + 2)) as int) =~= v@.skip(close + 1));
                            i = close + 1;
                        },
                        None => {
                            push_char(&mut out, '$');
                            push_char(&mut out, '{');
                            let n = v.len();
                            push_chars(&mut out, &v, i + 2, n);
                            assert(v@.subrange(i + 2, n as int) =~= rest.skip(2));
                            assert(v@.skip(n as int) =~= Seq::<char>::empty());
                            i = n;
                        },
                    }
                } else if is_name_start_exec(d) {
                    proof {
                        lemma_name_len(rest.skip(1));
                    }
                    assert(rest.skip(1) =~= v@.skip(i + 1));
                    let end = name_end(&v, i + 1);
                    lookup_into(&mut out, parent, &v, i + 1, end);
                    assert(rest.skip(1).take((end - (i + 1)) as int) =~= v@.subrange(
                        i + 1,
                        end as int,
                    ));
                    assert(rest.skip(1 + (end - (i + 1)) as int) =~= v@.skip(end as int));
                    i = end;
                } else {
                    push_char(&mut out, '$');
                    assert(rest.skip(1) =~= v@.skip(i + 1));
                    i = i + 1;
                }
            }
        }
        assert(v@.skip(i as int) =~= Seq::<char>::empty());
        out
    }
}

} // verus!
