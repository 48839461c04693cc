//! What an environment policy does to the environment of the sandboxed
//! command, by either of its two renderings: the edits of
//! [`EnvPolicy::command_plan`] applied to a command, and the
//! [`EnvPolicy::to_env_args`] handed to `/usr/bin/env`.
use vstd::prelude::*;

use crate::env_policy::{
    assign_args, assignment, expand_spec, expanded_pairs, inherited_pairs, passthrough_args,
    unset_args, EnvDefault, EnvPolicy,
};
use crate::names::{has_key, value_for};
use crate::text::{first_index_of, lemma_first_index_of_unique};

verus! {

/// The environment a list of entries describes: a name has the value of its
/// first entry.
pub open spec fn env_of(e: Seq<(Seq<char>, Seq<char>)>) -> Map<Seq<char>, Seq<char>> {
    Map::new(|k: Seq<char>| has_key(e, k), |k: Seq<char>| value_for(e, k))
}

/// `m` after defining each pair in order; a later pair for a name wins.
pub open spec fn with_sets(
    m: Map<Seq<char>, Seq<char>>,
    pairs: Seq<(Seq<char>, Seq<char>)>,
) -> Map<Seq<char>, Seq<char>>
    decreases pairs.len(),
{
    if pairs.len() == 0 {
        m
    } else {
        with_sets(m, pairs.drop_last()).insert(pairs.last().0, pairs.last().1)
    }
}

/// `m` after removing each name.
pub open spec fn without(m: Map<Seq<char>, Seq<char>>, names: Seq<Seq<char>>) -> Map<Seq<char>, Seq<char>>
    decreases names.len(),
{
    if names.len() == 0 {
        m
    } else {
        without(m, names.drop_last()).remove(names.last())
    }
}

/// The environment a command spawned from `parent` gets from a plan: empty
/// first when `clear`, then each assignment in order, then each removal
/// (what `Command::env_clear`, `Command::env` and `Command::env_remove` do).
pub open spec fn plan_effect(
    clear: bool,
    assignments: Seq<(Seq<char>, Seq<char>)>,
    removals: Seq<Seq<char>>,
    parent: Map<Seq<char>, Seq<char>>,
) -> Map<Seq<char>, Seq<char>> {
    without(with_sets(if clear { Map::empty() } else { parent }, assignments), removals)
}

/// What `env` does to the environment `m` with the assignments that follow
/// its options: each `NAME=VALUE` (split at the first `=`) defines NAME; the
/// first argument without `=` is the command, where the settings end.
pub open spec fn env_assigns(args: Seq<Seq<char>>, m: Map<Seq<char>, Seq<char>>) -> Map<Seq<char>, Seq<char>>
    decreases args.len(),
{
    if args.len() == 0 {
        m
    } else {
        match first_index_of(args[0], '=') {
            Some(k) => env_assigns(args.skip(1), m.insert(args[0].take(k as int), args[0].skip(k + 1 as int))),
            None => m,
        }
    }
}

/// What `env` does to the environment `m` with its arguments (those after
/// the program name): `-i` empties it and `-u NAME` removes NAME, while
/// options last; then the assignments. (Names starting with `-` would be
/// read as options, and names that are empty or hold `=` are refused by
/// `env`: such names are outside this description.)
pub open spec fn env_options(args: Seq<Seq<char>>, m: Map<Seq<char>, Seq<char>>) -> Map<Seq<char>, Seq<char>>
    decreases args.len(),
{
    if args.len() == 0 {
        m
    } else if args[0] == seq!['-', 'i'] {
        env_options(args.skip(1), Map::empty())
    } else if args[0] == seq!['-', 'u'] && args.len() >= 2 {
        env_options(args.skip(2), m.remove(args[1]))
    } else {
        env_assigns(args, m)
    }
}

/// The environment a command gets from `parent` when it is run behind
/// `args` (a program and its arguments), or directly when `args` is empty.
pub open spec fn env_from_args(args: Seq<Seq<char>>, parent: Map<Seq<char>, Seq<char>>) -> Map<Seq<char>, Seq<char>> {
    if args.len() == 0 {
        parent
    } else {
        env_options(args.skip(1), parent)
    }
}

/// Whether a variable name reads the same to `env` as to a command: not
/// empty, without `=`, not starting with `-`.
pub open spec fn plain_name(n: Seq<char>) -> bool {
    n.len() > 0 && !n.contains('=') && n[0] != '-'
}

/// Whether every name of a list is plain.
pub open spec fn plain_names(names: Seq<Seq<char>>) -> bool {
    forall|i: int| 0 <= i < names.len() ==> plain_name(#[trigger] names[i])
}

/// Whether every name of a list of entries is plain.
pub open spec fn plain_keys(e: Seq<(Seq<char>, Seq<char>)>) -> bool {
    forall|i: int| 0 <= i < e.len() ==> plain_name(#[trigger] e[i].0)
}

/// Whether some pair is named `k`.
pub open spec fn keyed(pairs: Seq<(Seq<char>, Seq<char>)>, k: Seq<char>) -> bool {
    exists|i: int| 0 <= i < pairs.len() && #[trigger] pairs[i].0 == k
}

/// The value of the last pair named `k`.
pub open spec fn last_value(pairs: Seq<(Seq<char>, Seq<char>)>, k: Seq<char>) -> Seq<char>
    decreases pairs.len(),
{
    if pairs.len() == 0 {
        Seq::empty()
    } else if pairs.last().0 == k {
        pairs.last().1
    } else {
        last_value(pairs.drop_last(), k)
    }
}

/// The pairs that pass through a `Clean` environment.
pub open spec fn passed_pairs(
    pairs: Seq<(Seq<char>, Seq<char>)>,
    remove: Seq<Seq<char>>,
    set: Seq<(Seq<char>, Seq<char>)>,
) -> Seq<(Seq<char>, Seq<char>)>
    decreases pairs.len(),
{
    if pairs.len() == 0 {
        Seq::empty()
    } else {
        let p = pairs.last();
        passed_pairs(pairs.drop_last(), remove, set) + (if !remove.contains(p.0) && !has_key(set, p.0) {
            seq![p]
        } else {
            Seq::empty()
        })
    }
}

/// The assignments that are not removed, with their values expanded.
pub open spec fn kept_sets(
    set: Seq<(Seq<char>, Seq<char>)>,
    remove: Seq<Seq<char>>,
    parent: Seq<(Seq<char>, Seq<char>)>,
) -> Seq<(Seq<char>, Seq<char>)>
    decreases set.len(),
{
    if set.len() == 0 {
        Seq::empty()
    } else {
        let p = set.last();
        kept_sets(set.drop_last(), remove, parent) + (if remove.contains(p.0) {
            Seq::empty()
        } else {
            seq![(p.0, expand_spec(p.1, parent))]
        })
    }
}

/// Defining pairs decides exactly the names they carry, each by its last
/// pair.
proof fn lemma_with_sets(m: Map<Seq<char>, Seq<char>>, pairs: Seq<(Seq<char>, Seq<char>)>, k: Seq<char>)
    ensures
        with_sets(m, pairs).dom().contains(k) == (m.dom().contains(k) || keyed(pairs, k)),
        with_sets(m, pairs).dom().contains(k) ==> with_sets(m, pairs)[k] == (if keyed(pairs, k) {
            last_value(pairs, k)
        } else {
            m[k]
        }),
    decreases pairs.len(),
{
    if pairs.len() > 0 {
        let init = pairs.drop_last();
        lemma_with_sets(m, init, k);
        assert(keyed(pairs, k) == (keyed(init, k) || pairs.last().0 == k)) by {
            if keyed(init, k) {
                let i = choose|i: int| 0 <= i < init.len() && #[trigger] init[i].0 == k;
                assert(pairs[i] == init[i]);
            }
            if pairs.last().0 == k {
                assert(pairs[pairs.len() - 1].0 == k);
            }
            if keyed(pairs, k) && pairs.last().0 != k {
                let i = choose|i: int| 0 <= i < pairs.len() && #[trigger] pairs[i].0 == k;
                assert(init[i] == pairs[i]);
            }
        }
    }
}

/// Removing names removes exactly those.
proof fn lemma_without(m: Map<Seq<char>, Seq<char>>, names: Seq<Seq<char>>, k: Seq<char>)
    ensures
        without(m, names).dom().contains(k) == (m.dom().contains(k) && !names.contains(k)),
        without(m, names).dom().contains(k) ==> without(m, names)[k] == m[k],
    decreases names.len(),
{
    if names.len() > 0 {
        let init = names.drop_last();
        lemma_without(m, init, k);
        assert(names.contains(k) == (init.contains(k) || names.last() == k)) by {
            if init.contains(k) {
                let i = choose|i: int| 0 <= i < init.len() && init[i] == k;
                assert(names[i] == k);
            }
            if names.last() == k {
                assert(names[names.len() - 1] == k);
            }
            if names.contains(k) && names.last() != k {
                let i = choose|i: int| 0 <= i < names.len() && names[i] == k;
                assert(init[i] == k);
            }
        }
    }
}

/// The pairs of a concatenation: the second part decides the names it
/// carries.
proof fn lemma_keyed_concat(a: Seq<(Seq<char>, Seq<char>)>, b: Seq<(Seq<char>, Seq<char>)>, k: Seq<char>)
    ensures
        keyed(a + b, k) == (keyed(a, k) || keyed(b, k)),
        last_value(a + b, k) == (if keyed(b, k) { last_value(b, k) } else { last_value(a, k) }),
    decreases b.len(),
{
    if b.len() == 0 {
        assert(a + b =~= a);
    } else {
        assert((a + b).drop_last() =~= a + b.drop_last());
        assert((a + b).last() == b.last());
        lemma_keyed_concat(a, b.drop_last(), k);
        assert(keyed(b, k) == (keyed(b.drop_last(), k) || b.last().0 == k)) by {
            if keyed(b.drop_last(), k) {
                let i = choose|i: int| 0 <= i < b.drop_last().len() && #[trigger] b.drop_last()[i].0 == k;
                assert(b[i] == b.drop_last()[i]);
            }
            if b.last().0 == k {
                assert(b[b.len() - 1].0 == k);
            }
            if keyed(b, k) && b.last().0 != k {
                let i = choose|i: int| 0 <= i < b.len() && #[trigger] b[i].0 == k;
                assert(b.drop_last()[i] == b[i]);
            }
        }
        assert(keyed(a + b, k) == (keyed(a + b.drop_last(), k) || b.last().0 == k)) by {
            let ab = a + b;
            if keyed(ab.drop_last(), k) {
                let i = choose|i: int| 0 <= i < ab.drop_last().len() && #[trigger] ab.drop_last()[i].0 == k;
                assert(ab[i] == ab.drop_last()[i]);
            }
            if b.last().0 == k {
                assert(ab[ab.len() - 1].0 == k);
            }
            if keyed(ab, k) && b.last().0 != k {
                let i = choose|i: int| 0 <= i < ab.len() && #[trigger] ab[i].0 == k;
                assert(ab.drop_last()[i] == ab[i]);
            }
        }
    }
}

/// One more pair at the end of a list.
proof fn lemma_keyed_push(a: Seq<(Seq<char>, Seq<char>)>, p: (Seq<char>, Seq<char>), k: Seq<char>)
    ensures
        keyed(a.push(p), k) == (keyed(a, k) || p.0 == k),
{
    if keyed(a, k) {
        let i = choose|i: int| 0 <= i < a.len() && #[trigger] a[i].0 == k;
        assert(a.push(p)[i] == a[i]);
    }
    if p.0 == k {
        assert(a.push(p)[a.len() as int].0 == k);
    }
    if keyed(a.push(p), k) && p.0 != k {
        let i = choose|i: int| 0 <= i < a.push(p).len() && #[trigger] a.push(p)[i].0 == k;
        assert(a[i] == a.push(p)[i]);
    }
}

/// The pairs that pass through carry the names of the pairs that are neither
/// removed nor assigned, with their values.
proof fn lemma_passed_pairs(
    pairs: Seq<(Seq<char>, Seq<char>)>,
    remove: Seq<Seq<char>>,
    set: Seq<(Seq<char>, Seq<char>)>,
    k: Seq<char>,
)
    ensures
        keyed(passed_pairs(pairs, remove, set), k) == (keyed(pairs, k) && !remove.contains(k) && !has_key(set, k)),
        (!remove.contains(k) && !has_key(set, k)) ==> last_value(passed_pairs(pairs, remove, set), k)
            == last_value(pairs, k),
    decreases pairs.len(),
{
    if pairs.len() == 0 {
        assert(!keyed(passed_pairs(pairs, remove, set), k));
    } else {
        let p = pairs.last();
        let init = pairs.drop_last();
        lemma_passed_pairs(init, remove, set, k);
        assert(pairs =~= init.push(p));
        lemma_keyed_push(init, p, k);
        if !remove.contains(p.0) && !has_key(set, p.0) {
            assert(passed_pairs(pairs, remove, set) =~= passed_pairs(init, remove, set).push(p));
            assert(passed_pairs(pairs, remove, set).drop_last() =~= passed_pairs(init, remove, set));
            lemma_keyed_push(passed_pairs(init, remove, set), p, k);
        } else {
            assert(passed_pairs(pairs, remove, set) =~= passed_pairs(init, remove, set));
        }
    }
}

/// The kept assignments carry the assigned names that are not removed, each
/// with the expanded value of its last assignment.
proof fn lemma_kept_sets(
    set: Seq<(Seq<char>, Seq<char>)>,
    remove: Seq<Seq<char>>,
    parent: Seq<(Seq<char>, Seq<char>)>,
    k: Seq<char>,
)
    ensures
        keyed(kept_sets(set, remove, parent), k) == (keyed(set, k) && !remove.contains(k)),
        !remove.contains(k) ==> last_value(kept_sets(set, remove, parent), k) == last_value(
            expanded_pairs(set, parent),
            k,
        ),
        keyed(expanded_pairs(set, parent), k) == keyed(set, k),
    decreases set.len(),
{
    let e = expanded_pairs(set, parent);
    if set.len() == 0 {
        assert(!keyed(kept_sets(set, remove, parent), k));
        assert(!keyed(e, k));
    } else {
        let p = set.last();
        let init = set.drop_last();
        lemma_kept_sets(init, remove, parent, k);
        assert(set =~= init.push(p));
        lemma_keyed_push(init, p, k);
        let q = (p.0, expand_spec(p.1, parent));
        assert(e =~= expanded_pairs(init, parent).push(q));
        assert(e.drop_last() =~= expanded_pairs(init, parent));
        assert(e.last() == q);
        lemma_keyed_push(expanded_pairs(init, parent), q, k);
        if !remove.contains(p.0) {
            assert(kept_sets(set, remove, parent) =~= kept_sets(init, remove, parent).push(q));
            assert(kept_sets(set, remove, parent).drop_last() =~= kept_sets(init, remove, parent));
            lemma_keyed_push(kept_sets(init, remove, parent), q, k);
        } else {
            assert(kept_sets(set, remove, parent) =~= kept_sets(init, remove, parent));
        }
    }
}

/// A plain name with its value reads back as that name and value.
proof fn lemma_assignment_splits(name: Seq<char>, value: Seq<char>)
    requires
        !name.contains('='),
    ensures
        first_index_of(assignment(name, value), '=') == Some(name.len()),
        assignment(name, value).take(name.len() as int) == name,
        assignment(name, value).skip(name.len() + 1 as int) == value,
{
    let a = assignment(name, value);
    assert forall|j: int| 0 <= j < name.len() implies a[j] != '=' by {
        assert(a[j] == name[j]);
        if name[j] == '=' {
            assert(name.contains('='));
        }
    }
    assert(a[name.len() as int] == '=');
    lemma_first_index_of_unique(a, '=', name.len() as int);
    assert(a.take(name.len() as int) =~= name);
    assert(a.skip(name.len() + 1 as int) =~= value);
}

/// `env` reads the pass-through arguments as the pairs that pass through.
proof fn lemma_env_passthrough(
    pairs: Seq<(Seq<char>, Seq<char>)>,
    remove: Seq<Seq<char>>,
    set: Seq<(Seq<char>, Seq<char>)>,
    rest: Seq<Seq<char>>,
    m: Map<Seq<char>, Seq<char>>,
)
    requires
        plain_keys(pairs),
    ensures
        env_assigns(passthrough_args(pairs, remove, set) + rest, m) == env_assigns(
            rest,
            with_sets(m, passed_pairs(pairs, remove, set)),
        ),
    decreases pairs.len(),
{
    if pairs.len() == 0 {
        assert(passthrough_args(pairs, remove, set) + rest =~= rest);
    } else {
        let (name, value) = pairs.last();
        let init = pairs.drop_last();
        assert(plain_name(pairs[pairs.len() - 1].0));
        assert forall|i: int| 0 <= i < init.len() implies plain_name(#[trigger] init[i].0) by {
            assert(init[i] == pairs[i]);
        }
        if !remove.contains(name) && !has_key(set, name) {
            let a = assignment(name, value);
            assert(passthrough_args(pairs, remove, set) + rest =~= passthrough_args(init, remove, set) + (
            seq![a] + rest));
            lemma_env_passthrough(init, remove, set, seq![a] + rest, m);
            lemma_assignment_splits(name, value);
            assert((seq![a] + rest)[0] == a);
            assert((seq![a] + rest).skip(1) =~= rest);
            assert(passed_pairs(pairs, remove, set) =~= passed_pairs(init, remove, set).push((name, value)));
            assert(passed_pairs(pairs, remove, set).drop_last() =~= passed_pairs(init, remove, set));
        } else {
            assert(passthrough_args(pairs, remove, set) + rest =~= passthrough_args(init, remove, set) + rest);
            lemma_env_passthrough(init, remove, set, rest, m);
            assert(passed_pairs(pairs, remove, set) =~= passed_pairs(init, remove, set));
        }
    }
}

/// `env` reads the assignment arguments as the kept assignments.
proof fn lemma_env_assignments(
    set: Seq<(Seq<char>, Seq<char>)>,
    remove: Seq<Seq<char>>,
    parent: Seq<(Seq<char>, Seq<char>)>,
    rest: Seq<Seq<char>>,
    m: Map<Seq<char>, Seq<char>>,
)
    requires
        plain_keys(set),
    ensures
        env_assigns(assign_args(set, remove, parent) + rest, m) == env_assigns(
            rest,
            with_sets(m, kept_sets(set, remove, parent)),
        ),
    decreases set.len(),
{
    if set.len() == 0 {
        assert(assign_args(set, remove, parent) + rest =~= rest);
    } else {
        let (name, value) = set.last();
        let init = set.drop_last();
        assert(plain_name(set[set.len() - 1].0));
        assert forall|i: int| 0 <= i < init.len() implies plain_name(#[trigger] init[i].0) by {
            assert(init[i] == set[i]);
        }
        if !remove.contains(name) {
            let v = expand_spec(value, parent);
            let a = assignment(name, v);
            assert(assign_args(set, remove, parent) + rest =~= assign_args(init, remove, parent) + (seq![a]
                + rest));
            lemma_env_assignments(init, remove, parent, seq![a] + rest, m);
            lemma_assignment_splits(name, v);
            assert((seq![a] + rest)[0] == a);
            assert((seq![a] + rest).skip(1) =~= rest);
            assert(kept_sets(set, remove, parent) =~= kept_sets(init, remove, parent).push((name, v)));
            assert(kept_sets(set, remove, parent).drop_last() =~= kept_sets(init, remove, parent));
        } else {
            assert(assign_args(set, remove, parent) + rest =~= assign_args(init, remove, parent) + rest);
            lemma_env_assignments(init, remove, parent, rest, m);
            assert(kept_sets(set, remove, parent) =~= kept_sets(init, remove, parent));
        }
    }
}

/// `env` reads the `-u` arguments as the removals.
proof fn lemma_env_unsets(remove: Seq<Seq<char>>, rest: Seq<Seq<char>>, m: Map<Seq<char>, Seq<char>>)
    ensures
        env_options(unset_args(remove) + rest, m) == env_options(rest, without(m, remove)),
    decreases remove.len(),
{
    if remove.len() == 0 {
        assert(unset_args(remove) + rest =~= rest);
    } else {
        let init = remove.drop_last();
        let tail = seq![seq!['-', 'u'], remove.last()] + rest;
        reveal_strlit("-u");
        assert("-u"@ =~= seq!['-', 'u']);
        assert(unset_args(remove) + rest =~= unset_args(init) + tail);
        lemma_env_unsets(init, tail, m);
        assert(tail[0] == seq!['-', 'u']);
        assert(tail[0] != seq!['-', 'i']) by {
            assert(tail[0][1] != seq!['-', 'i'][1]);
        }
        assert(tail[1] == remove.last());
        assert(tail.skip(2) =~= rest);
    }
}

/// An argument list that starts with a plain assignment (or is empty) holds
/// no option.
proof fn lemma_no_options(args: Seq<Seq<char>>, m: Map<Seq<char>, Seq<char>>)
    requires
        args.len() > 0 ==> args[0].len() > 0 && args[0][0] != '-',
    ensures
        env_options(args, m) == env_assigns(args, m),
{
    if args.len() > 0 {
        assert(args[0] != seq!['-', 'i']);
        assert(args[0] != seq!['-', 'u']);
    }
}

/// The first pass-through or assignment argument starts with its name.
proof fn lemma_first_arg_plain(
    pairs: Seq<(Seq<char>, Seq<char>)>,
    remove: Seq<Seq<char>>,
    set: Seq<(Seq<char>, Seq<char>)>,
    parent: Seq<(Seq<char>, Seq<char>)>,
    clean: bool,
)
    requires
        plain_keys(pairs),
        plain_keys(set),
    ensures
        ({
            let args = (if clean { passthrough_args(pairs, remove, set) } else { Seq::empty() }) + assign_args(
                set,
                remove,
                parent,
            );
            args.len() > 0 ==> args[0].len() > 0 && args[0][0] != '-'
        }),
{
    let pt = if clean { passthrough_args(pairs, remove, set) } else { Seq::empty() };
    let aa = assign_args(set, remove, parent);
    if pt.len() > 0 {
        lemma_args_are_plain_passthrough(pairs, remove, set);
        assert((pt + aa)[0] == pt[0]);
    } else if aa.len() > 0 {
        lemma_args_are_plain_assign(set, remove, parent);
        assert((pt + aa)[0] == aa[0]);
    }
}

/// Every pass-through argument starts with a plain name.
proof fn lemma_args_are_plain_passthrough(
    pairs: Seq<(Seq<char>, Seq<char>)>,
    remove: Seq<Seq<char>>,
    set: Seq<(Seq<char>, Seq<char>)>,
)
    requires
        plain_keys(pairs),
    ensures
        forall|i: int|
            0 <= i < passthrough_args(pairs, remove, set).len() ==> (#[trigger] passthrough_args(
                pairs,
                remove,
                set,
            )[i]).len() > 0 && passthrough_args(pairs, remove, set)[i][0] != '-',
    decreases pairs.len(),
{
    if pairs.len() > 0 {
        let init = pairs.drop_last();
        assert forall|i: int| 0 <= i < init.len() implies plain_name(#[trigger] init[i].0) by {
            assert(init[i] == pairs[i]);
        }
        lemma_args_are_plain_passthrough(init, remove, set);
        assert(plain_name(pairs[pairs.len() - 1].0));
        let (name, value) = pairs.last();
        assert(assignment(name, value)[0] == name[0]);
        let all = passthrough_args(pairs, remove, set);
        let head = passthrough_args(init, remove, set);
        assert forall|i: int| 0 <= i < all.len() implies (#[trigger] all[i]).len() > 0 && all[i][0] != '-' by {
            if i < head.len() {
                assert(all[i] == head[i]);
            } else {
                assert(all[i] == assignment(name, value));
            }
        }
    }
}

/// Every assignment argument starts with a plain name.
proof fn lemma_args_are_plain_assign(
    set: Seq<(Seq<char>, Seq<char>)>,
    remove: Seq<Seq<char>>,
    parent: Seq<(Seq<char>, Seq<char>)>,
)
    requires
        plain_keys(set),
    ensures
        forall|i: int|
            0 <= i < assign_args(set, remove, parent).len() ==> (#[trigger] assign_args(set, remove, parent)[i]).len()
                > 0 && assign_args(set, remove, parent)[i][0] != '-',
    decreases set.len(),
{
    if set.len() > 0 {
        let init = set.drop_last();
        assert forall|i: int| 0 <= i < init.len() implies plain_name(#[trigger] init[i].0) by {
            assert(init[i] == set[i]);
        }
        lemma_args_are_plain_assign(init, remove, parent);
        assert(plain_name(set[set.len() - 1].0));
        let (name, value) = set.last();
        assert(assignment(name, expand_spec(value, parent))[0] == name[0]);
        let all = assign_args(set, remove, parent);
        let head = assign_args(init, remove, parent);
        assert forall|i: int| 0 <= i < all.len() implies (#[trigger] all[i]).len() > 0 && all[i][0] != '-' by {
            if i < head.len() {
                assert(all[i] == head[i]);
            } else {
                assert(all[i] == assignment(name, expand_spec(value, parent)));
            }
        }
    }
}

/// The names a `Clean` policy carries over are names of `inherit`.
proof fn lemma_inherited_plain(inherit: Seq<Seq<char>>, parent: Seq<(Seq<char>, Seq<char>)>)
    requires
        plain_names(inherit),
    ensures
        plain_keys(inherited_pairs(inherit, parent)),
    decreases inherit.len(),
{
    if inherit.len() > 0 {
        let init = inherit.drop_last();
        assert forall|i: int| 0 <= i < init.len() implies plain_name(#[trigger] init[i]) by {
            assert(init[i] == inherit[i]);
        }
        lemma_inherited_plain(init, parent);
        assert(plain_name(inherit[inherit.len() - 1]));
        let ip = inherited_pairs(inherit, parent);
        let head = inherited_pairs(init, parent);
        assert forall|i: int| 0 <= i < ip.len() implies plain_name(#[trigger] ip[i].0) by {
            if i < head.len() {
                assert(ip[i] == head[i]);
            }
        }
    }
}

/// Handing the command to `env` with [`EnvPolicy::to_env_args`] gives it the
/// same environment as applying [`EnvPolicy::command_plan`] to it directly,
/// for every parent environment, whenever every name the policy uses reads
/// the same to `env` (not empty, without `=`, not starting with `-`).
pub proof fn law_env_args_match_command_plan(policy: &EnvPolicy, parent: Seq<(Seq<char>, Seq<char>)>)
    requires
        plain_names(policy.inherit@),
        plain_names(policy.remove@),
        plain_keys(policy.set@),
    ensures
        env_from_args(policy.env_args_spec(parent), env_of(parent)) == plan_effect(
            policy.default == EnvDefault::Clean,
            (if policy.default == EnvDefault::Clean {
                inherited_pairs(policy.inherit@, parent)
            } else {
                Seq::empty()
            }) + expanded_pairs(policy.set@, parent),
            policy.remove@,
            env_of(parent),
        ),
{
    let clean = policy.default == EnvDefault::Clean;
    let inherit = policy.inherit@;
    let remove = policy.remove@;
    let set = policy.set@;
    let p0 = env_of(parent);
    let ip = inherited_pairs(inherit, parent);
    let e = expanded_pairs(set, parent);
    let assignments = (if clean { ip } else { Seq::empty() }) + e;
    let rhs = plan_effect(clean, assignments, remove, p0);
    let args = policy.env_args_spec(parent);
    lemma_inherited_plain(inherit, parent);
    reveal_strlit("-i");
    let kept = kept_sets(set, remove, parent);
    if !clean && set.len() == 0 && remove.len() == 0 {
        assert(assignments =~= Seq::<(Seq<char>, Seq<char>)>::empty());
        assert(rhs =~= p0);
    } else if clean {
        let pt = passthrough_args(ip, remove, set);
        let aa = assign_args(set, remove, parent);
        assert(args.skip(1) =~= seq!["-i"@] + (pt + aa));
        assert("-i"@ =~= seq!['-', 'i']);
        assert((seq!["-i"@] + (pt + aa)).skip(1) =~= pt + aa);
        lemma_first_arg_plain(ip, remove, set, parent, true);
        lemma_no_options(pt + aa, Map::empty());
        lemma_env_passthrough(ip, remove, set, aa, Map::empty());
        assert(aa =~= aa + Seq::<Seq<char>>::empty());
        let mid = with_sets(Map::empty(), passed_pairs(ip, remove, set));
        lemma_env_assignments(set, remove, parent, Seq::empty(), mid);
        let lhs = with_sets(mid, kept);
        assert(env_from_args(args, p0) == lhs);
        assert forall|k: Seq<char>| #[trigger] lhs.dom().contains(k) == rhs.dom().contains(k) && (lhs.dom().contains(k) ==> lhs[k] == rhs[k]) by {
            lemma_with_sets(mid, kept, k);
            lemma_with_sets(Map::empty(), passed_pairs(ip, remove, set), k);
            lemma_passed_pairs(ip, remove, set, k);
            lemma_kept_sets(set, remove, parent, k);
            lemma_with_sets(Map::empty(), assignments, k);
            lemma_without(with_sets(Map::empty(), assignments), remove, k);
            lemma_keyed_concat(ip, e, k);
            assert(has_key(set, k) == keyed(set, k));
        }
        assert(lhs =~= rhs);
    } else {
        let ua = unset_args(remove);
        let aa = assign_args(set, remove, parent);
        assert(args.skip(1) =~= ua + aa);
        lemma_env_unsets(remove, aa, p0);
        lemma_first_arg_plain(ip, remove, set, parent, false);
        assert(Seq::<Seq<char>>::empty() + aa =~= aa);
        let mid = without(p0, remove);
        lemma_no_options(aa, mid);
        assert(aa =~= aa + Seq::<Seq<char>>::empty());
        lemma_env_assignments(set, remove, parent, Seq::empty(), mid);
        let lhs = with_sets(mid, kept);
        assert(env_from_args(args, p0) == lhs);
        assert(assignments =~= e);
        assert forall|k: Seq<char>| #[trigger] lhs.dom().contains(k) == rhs.dom().contains(k) && (lhs.dom().contains(k) ==> lhs[k] == rhs[k]) by {
            lemma_with_sets(mid, kept, k);
            lemma_without(p0, remove, k);
            lemma_kept_sets(set, remove, parent, k);
            lemma_with_sets(p0, e, k);
            lemma_without(with_sets(p0, e), remove, k);
        }
        assert(lhs =~= rhs);
    }
}

} // verus!
