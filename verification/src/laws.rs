//! Properties of the library that relate several functions or hold of
//! every input.
use vstd::prelude::*;

use crate::caps::{
    bit, cap_for_name, cap_names, cap_names_union, system_cap_for_name, system_cap_names,
    system_cap_names_union, ALL_CAP_BITS, ALL_SYSTEM_BITS, CREATE_BIT, DELETE_BIT, EXECUTE_BIT,
    LOCALHOST_SERVE_BIT, POWER_BIT, READ_BIT, WRITE_BIT,
};
use crate::env_policy::{assign_args, assignment, expand_spec, passthrough_args};
use crate::names::has_key;
use crate::text::{first_index_of, lemma_first_index_of, lemma_first_index_of_unique, starts_with};
use crate::paths::{
    home_token, pwd_token, tmpdir_token, is_path_segment, parent_component, path_components, walk_follow, render_absolute, resolve_vars, walk_advance, walk_has_probe, walk_result,
    walk_start, PathContext, WalkState,
};
use crate::policy::{bit_granted, covers, worktree_rules, RuleEffect, RuleFact, SandboxPolicy, SandboxRule};
use crate::caps::SystemCap;
use crate::linux::{
    filter_blocks, listener_introspection_syscalls, network_filter_spec, outbound_syscalls, server_syscalls,
    NetworkFilter, Syscall,
};
use crate::policy::{network_name, network_named, NetworkPolicy};

verus! {

/// A capability that no applicable rule covers keeps its default.
pub proof fn law_uncovered_capability_keeps_default(default: u8, facts: Seq<RuleFact>, b: u8)
    requires
        forall|i: int| 0 <= i < facts.len() ==> !#[trigger] covers(facts[i], b),
    ensures
        bit_granted(default, facts, b) == bit(default, b),
{
}

/// When no rule applies to a path, every capability is the default.
pub proof fn law_no_matching_rule_gives_default(default: u8, facts: Seq<RuleFact>)
    requires
        forall|i: int| 0 <= i < facts.len() ==> !(#[trigger] facts[i]).0,
    ensures
        forall|b: u8| #[trigger] bit_granted(default, facts, b) == bit(default, b),
{
    assert forall|b: u8| #[trigger] bit_granted(default, facts, b) == bit(default, b) by {
        assert forall|i: int| 0 <= i < facts.len() implies !#[trigger] covers(facts[i], b) by {
            assert(!facts[i].0);
        }
    }
}

/// The deepest applicable rule covering a capability decides it: granted when
/// it allows, withheld when it denies, whatever shallower rules say.
pub proof fn law_deepest_rule_decides(default: u8, facts: Seq<RuleFact>, b: u8, k: int)
    requires
        0 <= k < facts.len(),
        covers(facts[k], b),
        forall|j: int| 0 <= j < facts.len() && j != k && #[trigger] covers(facts[j], b) ==> facts[j].3 < facts[k].3,
    ensures
        bit_granted(default, facts, b) == facts[k].1,
{
    if facts[k].1 {
        assert(covers(facts[k], b) && facts[k].1);
    } else {
        assert forall|i: int|
            0 <= i < facts.len() && #[trigger] covers(facts[i], b) && facts[i].1 implies !(forall|j: int|
                0 <= j < facts.len() && #[trigger] covers(facts[j], b) ==> facts[j].3 <= facts[i].3) by {
            assert(i != k);
            assert(covers(facts[k], b));
        }
    }
}

/// At equal depth an allow wins over a deny: an applicable allow rule
/// covering a capability at the greatest depth of the rules covering it
/// grants the capability.
pub proof fn law_allow_wins_at_equal_depth(default: u8, facts: Seq<RuleFact>, b: u8, k: int)
    requires
        0 <= k < facts.len(),
        covers(facts[k], b),
        facts[k].1,
        forall|j: int| 0 <= j < facts.len() && #[trigger] covers(facts[j], b) ==> facts[j].3 <= facts[k].3,
    ensures
        bit_granted(default, facts, b),
{
}

/// The order of the rules does not matter: permuting the rule facts gives
/// the same capabilities.
pub proof fn law_rule_order_is_irrelevant(default: u8, facts: Seq<RuleFact>, perm: Seq<int>, b: u8)
    requires
        perm.len() == facts.len(),
        forall|i: int| 0 <= i < perm.len() ==> 0 <= #[trigger] perm[i] < facts.len(),
        forall|i: int, j: int| 0 <= i < j < perm.len() ==> perm[i] != perm[j],
    ensures
        bit_granted(default, Seq::new(facts.len(), |i: int| facts[perm[i]]), b) == bit_granted(default, facts, b),
{
    let p = Seq::new(facts.len(), |i: int| facts[perm[i]]);
    if exists|i: int| 0 <= i < facts.len() && #[trigger] covers(facts[i], b) {
        let i = choose|i: int| 0 <= i < facts.len() && #[trigger] covers(facts[i], b);
        lemma_perm_onto(perm, facts.len() as int, i);
        let q = choose|q: int| 0 <= q < perm.len() && #[trigger] perm[q] == i;
        assert(covers(p[q], b));
    }
    if exists|i: int| 0 <= i < p.len() && #[trigger] covers(p[i], b) {
        let i = choose|i: int| 0 <= i < p.len() && #[trigger] covers(p[i], b);
        assert(covers(facts[perm[i]], b));
    }
    if bit_granted(default, facts, b) && exists|i: int| 0 <= i < facts.len() && #[trigger] covers(facts[i], b) {
        let i = choose|i: int|
            0 <= i < facts.len() && #[trigger] covers(facts[i], b) && facts[i].1 && forall|j: int|
                0 <= j < facts.len() && #[trigger] covers(facts[j], b) ==> facts[j].3 <= facts[i].3;
        lemma_perm_onto(perm, facts.len() as int, i);
        let q = choose|q: int| 0 <= q < perm.len() && #[trigger] perm[q] == i;
        assert forall|j: int| 0 <= j < p.len() && #[trigger] covers(p[j], b) implies p[j].3 <= p[q].3 by {
            assert(covers(facts[perm[j]], b));
        }
    }
    if bit_granted(default, p, b) && exists|i: int| 0 <= i < p.len() && #[trigger] covers(p[i], b) {
        let i = choose|i: int|
            0 <= i < p.len() && #[trigger] covers(p[i], b) && p[i].1 && forall|j: int|
                0 <= j < p.len() && #[trigger] covers(p[j], b) ==> p[j].3 <= p[i].3;
        assert forall|j: int| 0 <= j < facts.len() && #[trigger] covers(facts[j], b) implies facts[j].3 <= facts[perm[i]].3 by {
            lemma_perm_onto(perm, facts.len() as int, j);
            let q = choose|q: int| 0 <= q < perm.len() && #[trigger] perm[q] == j;
            assert(covers(p[q], b));
        }
        assert(covers(facts[perm[i]], b));
    }
}

/// A sequence of `n` distinct indices below `n` reaches every index below `n`.
proof fn lemma_perm_onto(perm: Seq<int>, n: int, t: int)
    requires
        perm.len() == n,
        0 <= t < n,
        forall|i: int| 0 <= i < perm.len() ==> 0 <= #[trigger] perm[i] < n,
        forall|i: int, j: int| 0 <= i < j < perm.len() ==> perm[i] != perm[j],
    ensures
        exists|i: int| 0 <= i < perm.len() && #[trigger] perm[i] == t,
{
    if !(exists|i: int| 0 <= i < perm.len() && #[trigger] perm[i] == t) {
        // The distinct values of `perm` would then fit in `n - 1` slots.
        let s = perm.to_set();
        assert(perm.no_duplicates());
        perm.unique_seq_to_set();
        lemma_interval_size(n, t);
        assert forall|x: int| s.contains(x) implies Set::new(|x: int| 0 <= x < n && x != t).contains(x) by {
            assert(perm.contains(x));
        }
        vstd::set_lib::lemma_len_subset(s, Set::new(|x: int| 0 <= x < n && x != t));
    }
}

/// The integers below `n` other than `t` are `n - 1` many.
proof fn lemma_interval_size(n: int, t: int)
    requires
        0 <= t < n,
    ensures
        Set::new(|x: int| 0 <= x < n && x != t).finite(),
        Set::new(|x: int| 0 <= x < n && x != t).len() == n - 1,
{
    let r = Set::new(|x: int| 0 <= x < n && x != t);
    let full = vstd::set_lib::set_int_range(0, n);
    vstd::set_lib::lemma_int_range(0, n);
    assert(r =~= full.remove(t));
}

/// Adding a rule's facts at any position: an allow rule never takes a
/// capability away, and a deny rule never grants one.
pub proof fn law_added_rule_is_monotone(default: u8, facts: Seq<RuleFact>, pos: int, f: RuleFact, b: u8)
    requires
        0 <= pos <= facts.len(),
    ensures
        f.1 && bit_granted(default, facts, b) ==> bit_granted(default, facts.insert(pos, f), b),
        !f.1 && bit_granted(default, facts.insert(pos, f), b) ==> bit_granted(default, facts, b),
{
    let g = facts.insert(pos, f);
    assert(g[pos] == f);
    let has_f = exists|i: int| 0 <= i < facts.len() && #[trigger] covers(facts[i], b);
    let has_g = exists|i: int| 0 <= i < g.len() && #[trigger] covers(g[i], b);
    if f.1 && bit_granted(default, facts, b) {
        if !has_f {
            if covers(f, b) {
                assert(covers(g[pos], b));
                assert forall|j: int| 0 <= j < g.len() && #[trigger] covers(g[j], b) implies g[j].3 <= g[pos].3 by {
                    if j != pos {
                        let k = if j < pos { j } else { j - 1 };
                        assert(g[j] == facts[k]);
                        assert(covers(facts[k], b));
                    }
                }
            } else {
                assert forall|j: int| 0 <= j < g.len() implies !#[trigger] covers(g[j], b) by {
                    if j != pos {
                        let k = if j < pos { j } else { j - 1 };
                        assert(g[j] == facts[k]);
                    }
                }
            }
        } else {
            let i = choose|i: int|
                0 <= i < facts.len() && #[trigger] covers(facts[i], b) && facts[i].1 && forall|j: int|
                    0 <= j < facts.len() && #[trigger] covers(facts[j], b) ==> facts[j].3 <= facts[i].3;
            let gi = if i < pos { i } else { i + 1 };
            assert(g[gi] == facts[i]);
            assert(covers(g[gi], b));
            if covers(f, b) && f.3 > facts[i].3 {
                assert(covers(g[pos], b));
                assert forall|j: int| 0 <= j < g.len() && #[trigger] covers(g[j], b) implies g[j].3 <= g[pos].3 by {
                    if j != pos {
                        let k = if j < pos { j } else { j - 1 };
                        assert(g[j] == facts[k]);
                        assert(covers(facts[k], b));
                    }
                }
            } else {
                assert forall|j: int| 0 <= j < g.len() && #[trigger] covers(g[j], b) implies g[j].3 <= g[gi].3 by {
                    if j != pos {
                        let k = if j < pos { j } else { j - 1 };
                        assert(g[j] == facts[k]);
                        assert(covers(facts[k], b));
                    }
                }
            }
        }
    }
    if !f.1 && bit_granted(default, g, b) {
        if !has_g {
            assert forall|k: int| 0 <= k < facts.len() implies !#[trigger] covers(facts[k], b) by {
                let j = if k < pos { k } else { k + 1 };
                assert(g[j] == facts[k]);
            }
        } else {
            let i = choose|i: int|
                0 <= i < g.len() && #[trigger] covers(g[i], b) && g[i].1 && forall|j: int|
                    0 <= j < g.len() && #[trigger] covers(g[j], b) ==> g[j].3 <= g[i].3;
            assert(i != pos);
            let k = if i < pos { i } else { i - 1 };
            assert(facts[k] == g[i]);
            assert(covers(facts[k], b));
            assert forall|m: int| 0 <= m < facts.len() && #[trigger] covers(facts[m], b) implies facts[m].3 <= facts[k].3 by {
                let j = if m < pos { m } else { m + 1 };
                assert(g[j] == facts[m]);
                assert(covers(g[j], b));
            }
        }
    }
}

/// Adding a rule to a policy, at any position, never takes a capability
/// away when the rule allows, and never grants one when it denies: for the
/// same query, context and symlink-resolved forms (the new rule's form
/// inserted beside it), the capabilities that `effective_caps` decides from
/// the rule facts only grow or only shrink.
pub proof fn law_adding_a_rule_is_monotone(
    p: SandboxPolicy,
    q: SandboxPolicy,
    pos: int,
    query: Seq<char>,
    ctx: PathContext,
    canonical_query: Seq<char>,
    canonical_rules: Seq<Seq<char>>,
    canonical_new: Seq<char>,
    b: u8,
)
    requires
        0 <= pos <= p.rules@.len(),
        canonical_rules.len() == p.rules@.len(),
        q.rules@ == p.rules@.insert(pos, q.rules@[pos]),
        q.default == p.default,
    ensures
        ({
            let before = p.rule_facts(query, &ctx, canonical_query, canonical_rules);
            let after = q.rule_facts(query, &ctx, canonical_query, canonical_rules.insert(pos, canonical_new));
            &&& q.rules@[pos].effect == RuleEffect::Allow && bit_granted(p.default@, before, b)
                ==> bit_granted(q.default@, after, b)
            &&& q.rules@[pos].effect == RuleEffect::Deny && bit_granted(q.default@, after, b)
                ==> bit_granted(p.default@, before, b)
        }),
{
    let before = p.rule_facts(query, &ctx, canonical_query, canonical_rules);
    let crs = canonical_rules.insert(pos, canonical_new);
    let after = q.rule_facts(query, &ctx, canonical_query, crs);
    assert(after =~= before.insert(pos, after[pos])) by {
        assert forall|j: int| 0 <= j < after.len() implies #[trigger] after[j] == before.insert(pos, after[pos])[j] by {
            if j < pos {
                assert(q.rules@[j] == p.rules@[j]);
                assert(crs[j] == canonical_rules[j]);
            } else if j > pos {
                assert(q.rules@[j] == p.rules@[j - 1]);
                assert(crs[j] == canonical_rules[j - 1]);
            }
        }
    }
    law_added_rule_is_monotone(p.default@, before, pos, after[pos], b);
}

/// Reading the list after one more name: the union so far with what that
/// name stands for.
proof fn lemma_union_push(names: Seq<Seq<char>>, n: Seq<char>)
    ensures
        cap_names_union(names.push(n)) == (match cap_names_union(names) {
            Err(e) => Err(e),
            Ok(b) => match cap_for_name(n) {
                Some(c) => Ok(b | c),
                None => Err(crate::caps::unknown_cap_message(n)),
            },
        }),
        system_cap_names_union(names.push(n)) == (match system_cap_names_union(names) {
            Err(e) => Err(e),
            Ok(b) => match system_cap_for_name(n) {
                Some(c) => Ok(b | c),
                None => Err(crate::caps::unknown_system_cap_message(n)),
            },
        }),
{
    assert(names.push(n).drop_last() =~= names);
}

/// The names each capability is listed under stand for that capability.
proof fn lemma_cap_name_values()
    ensures
        cap_for_name("read"@) == Some(READ_BIT),
        cap_for_name("write"@) == Some(WRITE_BIT),
        cap_for_name("create"@) == Some(CREATE_BIT),
        cap_for_name("delete"@) == Some(DELETE_BIT),
        cap_for_name("execute"@) == Some(EXECUTE_BIT),
        system_cap_for_name("power"@) == Some(POWER_BIT),
        system_cap_for_name("localhost_serve"@) == Some(LOCALHOST_SERVE_BIT),
{
    reveal_strlit("read");
    reveal_strlit("write");
    reveal_strlit("create");
    reveal_strlit("delete");
    reveal_strlit("execute");
    reveal_strlit("full");
    reveal_strlit("all");
    reveal_strlit("power");
    reveal_strlit("localhost_serve");
    assert("read"@.len() == 4);
    assert("write"@.len() == 5);
    assert("create"@.len() == 6);
    assert("delete"@.len() == 6);
    assert("execute"@.len() == 7);
    assert("full"@.len() == 4);
    assert("all"@.len() == 3);
    assert("power"@.len() == 5);
    assert("localhost_serve"@.len() == 15);
    assert("create"@[0] != "delete"@[0]);
    assert("read"@[0] != "full"@[0]);
    assert("write"@[0] != "power"@[0]);
}

/// Writing a capability set as its list of names and reading the list back
/// gives the same set, for every non-empty set of known capabilities (an
/// empty list is refused on reading).
pub proof fn law_cap_names_roundtrip(bits: u8)
    requires
        bits != 0,
        bits & !ALL_CAP_BITS == 0,
    ensures
        cap_names_union(cap_names(bits)) == Ok::<u8, Seq<char>>(bits),
{
    lemma_cap_name_values();
    let r = bits & READ_BIT == READ_BIT;
    let w = bits & WRITE_BIT == WRITE_BIT;
    let c = bits & CREATE_BIT == CREATE_BIT;
    let d = bits & DELETE_BIT == DELETE_BIT;
    let x = bits & EXECUTE_BIT == EXECUTE_BIT;
    let s0 = Seq::<Seq<char>>::empty();
    let s1 = if r { s0.push("read"@) } else { s0 };
    let s2 = if w { s1.push("write"@) } else { s1 };
    let s3 = if c { s2.push("create"@) } else { s2 };
    let s4 = if d { s3.push("delete"@) } else { s3 };
    let s5 = if x { s4.push("execute"@) } else { s4 };
    assert(cap_names(bits) =~= s5);
    lemma_union_push(s0, "read"@);
    lemma_union_push(s1, "write"@);
    lemma_union_push(s2, "create"@);
    lemma_union_push(s3, "delete"@);
    lemma_union_push(s4, "execute"@);
    let v1: u8 = if r { 0u8 | 1u8 } else { 0u8 };
    let v2: u8 = if w { v1 | 2u8 } else { v1 };
    let v3: u8 = if c { v2 | 4u8 } else { v2 };
    let v4: u8 = if d { v3 | 8u8 } else { v3 };
    let v5: u8 = if x { v4 | 16u8 } else { v4 };
    assert(cap_names_union(s5) == Ok::<u8, Seq<char>>(v5));
    assert(v5 == bits) by (bit_vector)
        requires
            bits & !31u8 == 0,
            r == (bits & 1u8 == 1u8),
            w == (bits & 2u8 == 2u8),
            c == (bits & 4u8 == 4u8),
            d == (bits & 8u8 == 8u8),
            x == (bits & 16u8 == 16u8),
            v1 == (if r { 0u8 | 1u8 } else { 0u8 }),
            v2 == (if w { v1 | 2u8 } else { v1 }),
            v3 == (if c { v2 | 4u8 } else { v2 }),
            v4 == (if d { v3 | 8u8 } else { v3 }),
            v5 == (if x { v4 | 16u8 } else { v4 }),
    ;
}

/// Writing a system capability set as its list of names and reading the
/// list back gives the same set, for every set of known system capabilities
/// (the empty set included).
pub proof fn law_system_cap_names_roundtrip(bits: u8)
    requires
        bits & !ALL_SYSTEM_BITS == 0,
    ensures
        system_cap_names_union(system_cap_names(bits)) == Ok::<u8, Seq<char>>(bits),
{
    lemma_cap_name_values();
    let p = bits & POWER_BIT == POWER_BIT;
    let l = bits & LOCALHOST_SERVE_BIT == LOCALHOST_SERVE_BIT;
    let s0 = Seq::<Seq<char>>::empty();
    let s1 = if p { s0.push("power"@) } else { s0 };
    let s2 = if l { s1.push("localhost_serve"@) } else { s1 };
    assert(system_cap_names(bits) =~= s2);
    lemma_union_push(s0, "power"@);
    lemma_union_push(s1, "localhost_serve"@);
    let v1: u8 = if p { 0u8 | 1u8 } else { 0u8 };
    let v2: u8 = if l { v1 | 2u8 } else { v1 };
    assert(system_cap_names_union(s2) == Ok::<u8, Seq<char>>(v2));
    assert(v2 == bits) by (bit_vector)
        requires
            bits & !3u8 == 0,
            p == (bits & 1u8 == 1u8),
            l == (bits & 2u8 == 2u8),
            v1 == (if p { 0u8 | 1u8 } else { 0u8 }),
            v2 == (if l { v1 | 2u8 } else { v1 }),
    ;
}

/// Reading the same system capability name twice is the same as reading it
/// once.
pub proof fn law_system_cap_duplicates_collapse(n: Seq<char>)
    ensures
        system_cap_names_union(seq![n, n]) == system_cap_names_union(seq![n]),
{
    lemma_union_push(Seq::empty(), n);
    lemma_union_push(seq![n], n);
    assert(Seq::<Seq<char>>::empty().push(n) =~= seq![n]);
    assert(seq![n].push(n) =~= seq![n, n]);
    if let Some(c) = system_cap_for_name(n) {
        assert((0u8 | c) | c == 0u8 | c) by (bit_vector);
    }
}

/// Text without `$` expands to itself.
pub proof fn law_expand_without_dollar_is_identity(s: Seq<char>, parent: Seq<(Seq<char>, Seq<char>)>)
    requires
        !s.contains('$'),
    ensures
        expand_spec(s, parent) == s,
    decreases s.len(),
{
    if s.len() > 0 {
        assert(s[0] != '$');
        assert(!s.skip(1).contains('$')) by {
            if s.skip(1).contains('$') {
                let i = choose|i: int| 0 <= i < s.skip(1).len() && s.skip(1)[i] == '$';
                assert(s[i + 1] == '$');
            }
        }
        law_expand_without_dollar_is_identity(s.skip(1), parent);
        assert(seq![s[0]] + s.skip(1) =~= s);
    }
}

/// A path without `$` is left as it is by variable expansion.
pub proof fn law_resolve_without_dollar_is_identity(s: Seq<char>, cwd: Seq<char>, home: Seq<char>, tmpdir: Seq<char>)
    requires
        !s.contains('$'),
    ensures
        resolve_vars(s, cwd, home, tmpdir) == s,
    decreases s.len(),
{
    if s.len() > 0 {
        assert(s[0] != '$');
        if starts_with(s, pwd_token()) {
            assert(s.take(4)[0] == s[0]);
        }
        if starts_with(s, home_token()) {
            assert(s.take(5)[0] == s[0]);
        }
        if starts_with(s, tmpdir_token()) {
            assert(s.take(7)[0] == s[0]);
        }
        assert(!s.skip(1).contains('$')) by {
            if s.skip(1).contains('$') {
                let i = choose|i: int| 0 <= i < s.skip(1).len() && s.skip(1)[i] == '$';
                assert(s[i + 1] == '$');
            }
        }
        law_resolve_without_dollar_is_identity(s.skip(1), cwd, home, tmpdir);
        assert(seq![s[0]] + s.skip(1) =~= s);
    }
}

/// Removal wins over assignment: every assignment argument names a variable
/// that is assigned and not removed.
pub proof fn law_removal_wins_over_assignment(
    set: Seq<(Seq<char>, Seq<char>)>,
    remove: Seq<Seq<char>>,
    parent: Seq<(Seq<char>, Seq<char>)>,
    i: int,
)
    requires
        0 <= i < assign_args(set, remove, parent).len(),
    ensures
        exists|k: int|
            0 <= k < set.len() && !remove.contains(set[k].0) && assign_args(set, remove, parent)[i]
                == #[trigger] assignment(set[k].0, expand_spec(set[k].1, parent)),
    decreases set.len(),
{
    let prefix = assign_args(set.drop_last(), remove, parent);
    if i < prefix.len() {
        law_removal_wins_over_assignment(set.drop_last(), remove, parent, i);
        let k = choose|k: int|
            0 <= k < set.drop_last().len() && !remove.contains(set.drop_last()[k].0)
                && prefix[i] == #[trigger] assignment(set.drop_last()[k].0, expand_spec(set.drop_last()[k].1, parent));
        assert(set[k] == set.drop_last()[k]);
    } else {
        let k = set.len() - 1;
        assert(set[k] == set.last());
        assert(assignment(set[k].0, expand_spec(set[k].1, parent)) == assign_args(set, remove, parent)[i]);
    }
}

/// A pass-through argument never carries a removed or assigned name: every
/// one is the inherited value of a name that is neither.
pub proof fn law_passthrough_skips_removed_and_assigned(
    pairs: Seq<(Seq<char>, Seq<char>)>,
    remove: Seq<Seq<char>>,
    set: Seq<(Seq<char>, Seq<char>)>,
    i: int,
)
    requires
        0 <= i < passthrough_args(pairs, remove, set).len(),
    ensures
        exists|k: int|
            0 <= k < pairs.len() && !remove.contains(pairs[k].0) && !has_key(set, pairs[k].0)
                && passthrough_args(pairs, remove, set)[i] == #[trigger] assignment(pairs[k].0, pairs[k].1),
    decreases pairs.len(),
{
    let prefix = passthrough_args(pairs.drop_last(), remove, set);
    if i < prefix.len() {
        law_passthrough_skips_removed_and_assigned(pairs.drop_last(), remove, set, i);
        let k = choose|k: int|
            0 <= k < pairs.drop_last().len() && !remove.contains(pairs.drop_last()[k].0) && !has_key(set, pairs.drop_last()[k].0)
                && prefix[i] == #[trigger] assignment(pairs.drop_last()[k].0, pairs.drop_last()[k].1);
        assert(pairs[k] == pairs.drop_last()[k]);
    } else {
        let k = pairs.len() - 1;
        assert(pairs[k] == pairs.last());
        assert(assignment(pairs[k].0, pairs[k].1) == passthrough_args(pairs, remove, set)[i]);
    }
}

/// Serving only ever unblocks syscalls, and exactly the server-side ones
/// and the listener's introspection: the outbound syscalls and `ptrace` stay
/// blocked.
pub proof fn law_serving_unblocks_only_server_side(s: Syscall)
    ensures
        outbound_syscalls().contains(Syscall::Ptrace),
        (outbound_syscalls() + server_syscalls() + listener_introspection_syscalls()).contains(s)
            && !outbound_syscalls().contains(s) <==> (server_syscalls().contains(s)
            || listener_introspection_syscalls().contains(s)),
        server_syscalls().contains(s) ==> !outbound_syscalls().contains(s),
{
    assert(outbound_syscalls()[6] == Syscall::Ptrace);
    let all = outbound_syscalls() + server_syscalls() + listener_introspection_syscalls();
    if all.contains(s) {
        let i = choose|i: int| 0 <= i < all.len() && all[i] == s;
        if i < 7 {
            assert(outbound_syscalls()[i] == s);
        } else if i < 11 {
            assert(server_syscalls()[i - 7] == s);
        } else {
            assert(listener_introspection_syscalls()[i - 11] == s);
        }
    }
    if server_syscalls().contains(s) {
        let i = choose|i: int| 0 <= i < 4 && server_syscalls()[i] == s;
        assert(all[i + 7] == s);
        if outbound_syscalls().contains(s) {
            let j = choose|j: int| 0 <= j < 7 && outbound_syscalls()[j] == s;
            assert(false);
        }
    }
    if listener_introspection_syscalls().contains(s) {
        let i = choose|i: int| 0 <= i < 3 && listener_introspection_syscalls()[i] == s;
        assert(all[i + 11] == s);
        if outbound_syscalls().contains(s) {
            let j = choose|j: int| 0 <= j < 7 && outbound_syscalls()[j] == s;
            assert(false);
        }
    }
}

/// Whether the system capabilities hold `localhost_serve`.
pub open spec fn may_serve(system: SystemCap) -> bool {
    system@ & LOCALHOST_SERVE_BIT == LOCALHOST_SERVE_BIT
}

/// On Linux a sandbox may bind a listener exactly when its network is
/// unrestricted or it holds `localhost_serve`: the filter its policy calls
/// for blocks `bind` otherwise, whatever the network mode.
pub proof fn law_binding_needs_serve(network: NetworkPolicy, system: SystemCap)
    ensures
        filter_blocks(network_filter_spec(&network, system)).contains(Syscall::Bind) <==> (
        !(network is Allow) && !may_serve(system)),
{
    let f = network_filter_spec(&network, system);
    let blocked = filter_blocks(f);
    if blocked.contains(Syscall::Bind) {
        let i = choose|i: int| 0 <= i < blocked.len() && blocked[i] == Syscall::Bind;
        match f {
            NetworkFilter::Deny { localhost_serve } => {
                if localhost_serve {
                    assert(outbound_syscalls()[i] == Syscall::Bind);
                }
            },
            NetworkFilter::Advisory { localhost_serve } => {
                if localhost_serve {
                    assert(blocked =~= seq![Syscall::Ptrace]);
                }
            },
            NetworkFilter::Unfiltered => {},
        }
    }
    if !(network is Allow) && !may_serve(system) {
        match f {
            NetworkFilter::Deny { .. } => {
                assert(blocked[9] == Syscall::Bind);
            },
            NetworkFilter::Advisory { .. } => {
                assert(blocked[3] == Syscall::Bind);
            },
            NetworkFilter::Unfiltered => {},
        }
    }
}

/// Serving never opens the way out: under a `Deny` network every outbound
/// syscall stays blocked, with or without `localhost_serve`.
pub proof fn law_serving_never_implies_outbound(system: SystemCap, s: Syscall)
    requires
        outbound_syscalls().contains(s),
    ensures
        filter_blocks(network_filter_spec(&NetworkPolicy::Deny, system)).contains(s),
{
    let blocked = filter_blocks(network_filter_spec(&NetworkPolicy::Deny, system));
    let i = choose|i: int| 0 <= i < outbound_syscalls().len() && outbound_syscalls()[i] == s;
    assert(blocked[i] == s);
}

/// A named network policy read back from its name is the same policy; the
/// policies without a name are exactly the port and domain lists.
pub proof fn law_network_names_roundtrip(p: NetworkPolicy)
    ensures
        network_name(&p) matches Some(n) ==> network_named(n) == Some(p),
        network_name(&p) is None <==> (p is LocalhostPorts || p is AllowDomains),
{
    reveal_strlit("deny");
    reveal_strlit("allow");
    reveal_strlit("localhost");
    assert("deny"@.len() == 4 && "allow"@.len() == 5 && "localhost"@.len() == 9);
    assert("deny"@ != "allow"@);
    assert("deny"@ != "localhost"@);
    assert("allow"@ != "localhost"@);
}

/// Declared localhost ports are advisory on Linux: a port list gets exactly
/// the filter plain `Localhost` gets, whatever the ports.
pub proof fn law_declared_ports_are_advisory(ports: Vec<u16>, system: SystemCap)
    ensures
        network_filter_spec(&NetworkPolicy::LocalhostPorts(ports), system) == network_filter_spec(
            &NetworkPolicy::Localhost,
            system,
        ),
{
}

/// The walk over `s` when no probed path is a link.
pub open spec fn walk_without_links(s: WalkState) -> WalkState
    decreases s.pending.len() + (if s.finished { 0int } else { 1int }),
{
    if walk_has_probe(s) {
        walk_without_links(walk_advance(s))
    } else {
        s
    }
}

/// Walking without links moves every pending component, in order, to the
/// resolved ones.
proof fn lemma_walk_without_links(s: WalkState)
    requires
        !s.finished,
        !s.pending.contains(parent_component()),
    ensures
        walk_without_links(s).resolved == s.resolved + s.pending,
        !walk_without_links(s).finished,
    decreases s.pending.len() + (if s.finished { 0int } else { 1int }),
{
    if walk_has_probe(s) {
        assert(s.pending[0] != parent_component());
        let t = walk_advance(s);
        assert(t.pending =~= s.pending.skip(1));
        if t.pending.contains(parent_component()) {
            let i = choose|i: int| 0 <= i < t.pending.len() && t.pending[i] == parent_component();
            assert(s.pending[i + 1] == parent_component());
        }
        lemma_walk_without_links(t);
        assert(s.resolved.push(s.pending[0]) + s.pending.skip(1) =~= s.resolved + s.pending);
    } else {
        assert(s.resolved + s.pending =~= s.resolved);
    }
}

/// Symlink resolution of a path without `..`, where no component is a link
/// or missing, gives the path's components as an absolute path; a path that
/// is not absolute is given back unchanged.
pub proof fn law_walk_without_links(path: Seq<char>)
    requires
        !path_components(path).contains(parent_component()),
    ensures
        path.len() > 0 && path[0] == '/' ==> walk_result(walk_without_links(walk_start(path)))
            == render_absolute(path_components(path)),
        !(path.len() > 0 && path[0] == '/') ==> walk_result(walk_without_links(walk_start(path))) == path,
{
    if path.len() > 0 && path[0] == '/' {
        lemma_walk_without_links(walk_start(path));
        assert(Seq::<Seq<char>>::empty() + path_components(path) =~= path_components(path));
    }
}

/// The walk after `n` more components are taken (fewer when it ends).
pub open spec fn walk_steps(s: WalkState, n: nat) -> WalkState
    decreases n,
{
    if n == 0 || !walk_has_probe(s) {
        s
    } else {
        walk_steps(walk_advance(s), (n - 1) as nat)
    }
}

/// Appending one more plain segment to a path appends one component.
proof fn lemma_components_append(a: Seq<char>, c: Seq<char>)
    requires
        is_path_segment(c),
        !c.contains('/'),
    ensures
        path_components(a + seq!['/'] + c) == path_components(a) + seq![c],
    decreases a.len(),
{
    let x = a + seq!['/'] + c;
    lemma_first_index_of(a, '/');
    lemma_first_index_of(c, '/');
    match first_index_of(a, '/') {
        Some(k) => {
            assert forall|j: int| 0 <= j < k implies x[j] != '/' by {
                assert(x[j] == a[j]);
            }
            assert(x[k as int] == '/');
            lemma_first_index_of_unique(x, '/', k as int);
            assert(x.take(k as int) =~= a.take(k as int));
            let rest = a.skip(k + 1 as int);
            assert(x.skip(k + 1 as int) =~= rest + seq!['/'] + c);
            lemma_components_append(rest, c);
            let head: Seq<Seq<char>> = if is_path_segment(a.take(k as int)) { seq![a.take(k as int)] } else { Seq::empty() };
            assert(path_components(x) == head + path_components(rest + seq!['/'] + c));
            assert(path_components(a) == head + path_components(rest));
            assert(head + (path_components(rest) + seq![c]) =~= (head + path_components(rest)) + seq![c]);
        },
        None => {
            assert forall|j: int| 0 <= j < a.len() implies x[j] != '/' by {
                assert(x[j] == a[j]);
            }
            assert(x[a.len() as int] == '/');
            lemma_first_index_of_unique(x, '/', a.len() as int);
            assert(x.take(a.len() as int) =~= a);
            assert(x.skip(a.len() + 1 as int) =~= c);
            assert forall|j: int| 0 <= j < c.len() implies c[j] != '/' by {
                if c[j] == '/' {
                    assert(c.contains('/'));
                }
            }
            lemma_first_index_of_unique(c, '/', c.len() as int);
            assert(path_components(c) == seq![c]);
            let head: Seq<Seq<char>> = if is_path_segment(a) { seq![a] } else { Seq::empty() };
            assert(path_components(x) == head + path_components(c));
            assert(path_components(a) == head);
        },
    }
}

/// Taking `n` components, none of them `..`, moves them to the resolved ones.
proof fn lemma_walk_steps(s: WalkState, n: nat)
    requires
        !s.finished,
        n <= s.pending.len(),
        forall|i: int| 0 <= i < n ==> s.pending[i] != parent_component(),
    ensures
        walk_steps(s, n) == (WalkState {
            pending: s.pending.skip(n as int),
            resolved: s.resolved + s.pending.take(n as int),
            ..s
        }),
    decreases n,
{
    if n == 0 {
        assert(s.pending.skip(0) =~= s.pending);
        assert(s.resolved + s.pending.take(0) =~= s.resolved);
    } else {
        let t = walk_advance(s);
        assert(s.pending[0] != parent_component());
        assert forall|i: int| 0 <= i < n - 1 implies t.pending[i] != parent_component() by {
            assert(t.pending[i] == s.pending[i + 1]);
        }
        lemma_walk_steps(t, (n - 1) as nat);
        assert(t.pending.skip(n - 1) =~= s.pending.skip(n as int));
        assert(t.resolved + t.pending.take(n - 1) =~= s.resolved + s.pending.take(n as int));
    }
}

/// Following a link to a directory and then a child is resolving the target
/// and then the child: in the walk of `link/child`, once every component of
/// `link` is taken and the caller reports that `link` is a symlink to the
/// absolute `target`, the walk stands exactly where a fresh walk of
/// `target/child` starts, with one link counted.
pub proof fn law_link_then_child(link: Seq<char>, target: Seq<char>, child: Seq<char>)
    requires
        link.len() > 0 && link[0] == '/',
        !path_components(link).contains(parent_component()),
        target.len() > 0 && target[0] == '/',
        is_path_segment(child),
        !child.contains('/'),
    ensures
        ({
            let s = walk_steps(walk_start(link + seq!['/'] + child), path_components(link).len());
            let t = walk_follow(s, target);
            let u = walk_start(target + seq!['/'] + child);
            &&& s.resolved == path_components(link)
            &&& t.pending == u.pending
            &&& t.resolved == u.resolved
            &&& t.missing == u.missing
            &&& t.finished == u.finished
            &&& t.depth == u.depth + 1
        }),
{
    let p = link + seq!['/'] + child;
    lemma_components_append(link, child);
    lemma_components_append(target, child);
    let comps = path_components(link);
    assert(p[0] == '/');
    assert((target + seq!['/'] + child)[0] == '/');
    let st = walk_start(p);
    assert(st.pending == comps + seq![child]);
    assert forall|i: int| 0 <= i < comps.len() implies st.pending[i] != parent_component() by {
        assert(st.pending[i] == comps[i]);
        if comps[i] == parent_component() {
            assert(comps.contains(parent_component()));
        }
    }
    lemma_walk_steps(st, comps.len());
    assert(st.pending.take(comps.len() as int) =~= comps);
    assert(Seq::<Seq<char>>::empty() + comps =~= comps);
    assert(st.pending.skip(comps.len() as int) =~= seq![child]);
}

/// When no rule follows worktrees, expanding worktree rules adds nothing,
/// whatever the worktree directories are.
pub proof fn law_no_following_rule_adds_nothing(rules: Seq<SandboxRule>, paths: Seq<String>)
    requires
        forall|i: int| 0 <= i < rules.len() ==> !(#[trigger] rules[i]).follow_worktrees,
    ensures
        rules + worktree_rules(rules, paths) == rules,
{
    crate::policy::lemma_no_following_rules(rules, paths);
    assert(rules + Seq::<SandboxRule>::empty() =~= rules);
}

} // verus!
