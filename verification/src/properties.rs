//! Properties of single operations, stated over their inputs and results:
//! how deep a path is, which rule a denial names, which Landlock rights a
//! capability gives, how far a `$NAME` reference reaches, and which rules
//! following a worktree adds.
use vstd::prelude::*;

use crate::paths::{normal_segments, path_depth, PathContext};
use crate::policy::{denial_message, worktree_rules, PathMatch, RuleEffect, SandboxPolicy, SandboxRule};
use crate::caps::{CREATE_BIT, DELETE_BIT, EXECUTE_BIT, READ_BIT, WRITE_BIT};
use crate::env_policy::{expand_spec, is_name_char, name_len};
use crate::names::value_for;
use crate::linux::{access_for, access_is_empty, access_union, FsAccess};
use crate::text::{first_index_of, lemma_first_index_of, lemma_first_index_of_unique};

verus! {

/// Appending a segment counts one more normal segment when the segment is
/// normal.
proof fn lemma_normal_segments_append(a: Seq<char>, c: Seq<char>)
    requires
        c.len() > 0,
        c != seq!['.'],
        !c.contains('/'),
    ensures
        normal_segments(a + seq!['/'] + c) == normal_segments(a) + 1,
    decreases a.len(),
{
    let x = a + seq!['/'] + c;
    lemma_first_index_of(a, '/');
    assert forall|j: int| 0 <= j < c.len() implies c[j] != '/' by {
        if c[j] == '/' {
            assert(c.contains('/'));
        }
    }
    lemma_first_index_of_unique(c, '/', c.len() as int);
    match first_index_of(a, '/') {
        Some(k) => {
            assert forall|j: int| 0 <= j < k implies x[j] != '/' by {
                assert(x[j] == a[j]);
            }
            assert(x[k as int] == '/');
            lemma_first_index_of_unique(x, '/', k as int);
            assert(x.take(k as int) =~= a.take(k as int));
            let rest = a.skip(k + 1 as int);
            assert(x.skip(k + 1 as int) =~= rest + seq!['/'] + c);
            lemma_normal_segments_append(rest, c);
            let head: nat = if crate::paths::is_normal_segment(a.take(k as int)) { 1nat } else { 0nat };
            assert(normal_segments(x) == head + normal_segments(rest + seq!['/'] + c));
            assert(normal_segments(a) == head + normal_segments(rest));
        },
        None => {
            assert forall|j: int| 0 <= j < a.len() implies x[j] != '/' by {
                assert(x[j] == a[j]);
            }
            assert(x[a.len() as int] == '/');
            lemma_first_index_of_unique(x, '/', a.len() as int);
            assert(x.take(a.len() as int) =~= a);
            assert(x.skip(a.len() + 1 as int) =~= c);
            assert(normal_segments(c) == 1);
            let head: nat = if crate::paths::is_normal_segment(a) { 1nat } else { 0nat };
            assert(normal_segments(x) == head + normal_segments(c));
            assert(normal_segments(a) == head);
        },
    }
}

/// Depth counts every component: the root is one deep, and a path with one
/// more component (any segment other than empty and `.`, `..` included) is
/// exactly one deeper. So a rule on a path below another rule's path is
/// strictly deeper than it, whatever the depth.
pub proof fn law_depth_counts_every_component(p: Seq<char>, c: Seq<char>)
    requires
        p.len() > 0,
        c.len() > 0,
        c != seq!['.'],
        !c.contains('/'),
    ensures
        path_depth(seq!['/']) == 1,
        path_depth(p + seq!['/'] + c) == path_depth(p) + 1,
{
    let x = p + seq!['/'] + c;
    lemma_normal_segments_append(p, c);
    assert(x[0] == p[0]);
    assert(x.len() > 1);
    if p.len() > 1 {
        assert(x[1] == p[1]);
    } else {
        assert(x[1] == '/');
    }
    let root = seq!['/'];
    lemma_first_index_of_unique(root, '/', 0);
    assert(root.take(0) =~= Seq::<char>::empty());
    assert(root.skip(1) =~= Seq::<char>::empty());
    assert(first_index_of(Seq::<char>::empty(), '/') is None);
    assert(normal_segments(Seq::<char>::empty()) == 0);
    assert(normal_segments(root) == 0);
}

/// A denial names the reason: when the explanation is not the note that no
/// allow rule grants access, it names a deny rule that applies to the path
/// and revokes at least one of the required capabilities, and no other such
/// rule is deeper; when no such rule exists, it is that note.
pub proof fn law_denial_names_a_deny_sharing_required(
    policy: SandboxPolicy,
    query: Seq<char>,
    ctx: PathContext,
    canonical_query: Seq<char>,
    canonical_rules: Seq<Seq<char>>,
    required: u8,
    m: Seq<char>,
)
    requires
        policy.denial_text(query, &ctx, canonical_query, canonical_rules, required, m),
    ensures
        ({
            let facts = policy.rule_facts(query, &ctx, canonical_query, canonical_rules);
            let rules = policy.rules@;
            &&& m == "no allow rule grants access to this path"@ || exists|k: int|
                0 <= k < rules.len() && facts[k].0 && rules[k].effect == RuleEffect::Deny
                    && rules[k].caps@ & required != 0 && m == denial_message(
                    rules[k].caps@,
                    policy.rule_path(k, &ctx),
                    rules[k].path_match,
                ) && forall|j: int|
                    0 <= j < rules.len() && #[trigger] facts[j].0 && rules[j].effect == RuleEffect::Deny
                        && rules[j].caps@ & required != 0 ==> path_depth(policy.rule_path(j, &ctx))
                        <= path_depth(policy.rule_path(k, &ctx))
            &&& (forall|j: int|
                0 <= j < rules.len() ==> !(#[trigger] facts[j].0 && rules[j].effect == RuleEffect::Deny
                    && rules[j].caps@ & required != 0)) ==> m == "no allow rule grants access to this path"@
        }),
{
    let facts = policy.rule_facts(query, &ctx, canonical_query, canonical_rules);
    let rules = policy.rules@;
    if exists|j: int| 0 <= j < facts.len() && #[trigger] crate::policy::denial_candidate(facts[j], required) {
        let k = choose|k: int|
            #[trigger] crate::policy::chosen_denial(facts, required, k) && m == denial_message(
                rules[k].caps@,
                policy.rule_path(k, &ctx),
                rules[k].path_match,
            );
        assert(crate::policy::denial_candidate(facts[k], required));
        assert forall|j: int|
            0 <= j < rules.len() && #[trigger] facts[j].0 && rules[j].effect == RuleEffect::Deny
                && rules[j].caps@ & required != 0 implies path_depth(policy.rule_path(j, &ctx))
                <= path_depth(policy.rule_path(k, &ctx)) by {
            assert(crate::policy::denial_candidate(facts[j], required));
        }
        let j0 = choose|j: int| 0 <= j < facts.len() && #[trigger] crate::policy::denial_candidate(facts[j], required);
        assert(facts[j0].0 && rules[j0].effect == RuleEffect::Deny && rules[j0].caps@ & required != 0);
    } else {
        assert forall|j: int| 0 <= j < rules.len() implies !(#[trigger] facts[j].0 && rules[j].effect
            == RuleEffect::Deny && rules[j].caps@ & required != 0) by {
            assert(!crate::policy::denial_candidate(facts[j], required));
        }
    }
}

/// No Landlock right at all.
pub open spec fn no_rights() -> FsAccess {
    FsAccess {
        execute: false,
        write_file: false,
        read_file: false,
        read_dir: false,
        remove_dir: false,
        remove_file: false,
        make_dir: false,
        make_reg: false,
        make_sock: false,
        make_fifo: false,
        make_sym: false,
        refer: false,
        truncate: false,
    }
}

/// Each capability gives its own Landlock rights and nothing else: read
/// gives reading files and listing directories; write gives writing files,
/// truncating and refer; create gives making regular files, directories,
/// symlinks, fifos and sockets; delete gives removing files and directories;
/// execute gives executing. No capability gives no right.
pub proof fn law_each_capability_gives_its_own_rights()
    ensures
        access_for(0) == no_rights(),
        access_for(READ_BIT) == (FsAccess { read_file: true, read_dir: true, ..no_rights() }),
        access_for(WRITE_BIT) == (FsAccess { write_file: true, truncate: true, refer: true, ..no_rights() }),
        access_for(CREATE_BIT) == (FsAccess {
            make_reg: true,
            make_dir: true,
            make_sym: true,
            make_fifo: true,
            make_sock: true,
            ..no_rights()
        }),
        access_for(DELETE_BIT) == (FsAccess { remove_file: true, remove_dir: true, ..no_rights() }),
        access_for(EXECUTE_BIT) == (FsAccess { execute: true, ..no_rights() }),
        access_is_empty(access_for(0)),
{
    assert(0u8 & READ_BIT == 0u8 && 0u8 & WRITE_BIT == 0u8 && 0u8 & CREATE_BIT == 0u8 && 0u8 & DELETE_BIT
        == 0u8 && 0u8 & EXECUTE_BIT == 0u8) by (bit_vector);
    assert(READ_BIT & READ_BIT == READ_BIT && READ_BIT & WRITE_BIT == 0u8 && READ_BIT & CREATE_BIT == 0u8
        && READ_BIT & DELETE_BIT == 0u8 && READ_BIT & EXECUTE_BIT == 0u8) by (bit_vector);
    assert(WRITE_BIT & READ_BIT == 0u8 && WRITE_BIT & WRITE_BIT == WRITE_BIT && WRITE_BIT & CREATE_BIT == 0u8
        && WRITE_BIT & DELETE_BIT == 0u8 && WRITE_BIT & EXECUTE_BIT == 0u8) by (bit_vector);
    assert(CREATE_BIT & READ_BIT == 0u8 && CREATE_BIT & WRITE_BIT == 0u8 && CREATE_BIT & CREATE_BIT
        == CREATE_BIT && CREATE_BIT & DELETE_BIT == 0u8 && CREATE_BIT & EXECUTE_BIT == 0u8) by (bit_vector);
    assert(DELETE_BIT & READ_BIT == 0u8 && DELETE_BIT & WRITE_BIT == 0u8 && DELETE_BIT & CREATE_BIT == 0u8
        && DELETE_BIT & DELETE_BIT == DELETE_BIT && DELETE_BIT & EXECUTE_BIT == 0u8) by (bit_vector);
    assert(EXECUTE_BIT & READ_BIT == 0u8 && EXECUTE_BIT & WRITE_BIT == 0u8 && EXECUTE_BIT & CREATE_BIT
        == 0u8 && EXECUTE_BIT & DELETE_BIT == 0u8 && EXECUTE_BIT & EXECUTE_BIT == EXECUTE_BIT) by (bit_vector);
}

/// The rights of a union of capabilities are the union of their rights, so
/// with the table above each right comes from exactly one capability.
pub proof fn law_rights_of_a_union(a: u8, b: u8)
    ensures
        access_for(a | b) == access_union(access_for(a), access_for(b)),
{
    assert(((a | b) & 1u8 == 1u8) == (a & 1u8 == 1u8 || b & 1u8 == 1u8)) by (bit_vector);
    assert(((a | b) & 2u8 == 2u8) == (a & 2u8 == 2u8 || b & 2u8 == 2u8)) by (bit_vector);
    assert(((a | b) & 4u8 == 4u8) == (a & 4u8 == 4u8 || b & 4u8 == 4u8)) by (bit_vector);
    assert(((a | b) & 8u8 == 8u8) == (a & 8u8 == 8u8 || b & 8u8 == 8u8)) by (bit_vector);
    assert(((a | b) & 16u8 == 16u8) == (a & 16u8 == 16u8 || b & 16u8 == 16u8)) by (bit_vector);
}

/// A name of ASCII letters, digits and `_` followed by `/` is read whole.
proof fn lemma_name_run(n: Seq<char>, rest: Seq<char>)
    requires
        forall|i: int| 0 <= i < n.len() ==> is_name_char(#[trigger] n[i]),
        rest.len() > 0 && rest[0] == '/',
    ensures
        name_len(n + rest) == n.len(),
    decreases n.len(),
{
    if n.len() == 0 {
        assert(n + rest =~= rest);
    } else {
        assert((n + rest)[0] == n[0]);
        assert((n + rest).skip(1) =~= n.skip(1) + rest);
        assert forall|i: int| 0 <= i < n.skip(1).len() implies is_name_char(#[trigger] n.skip(1)[i]) by {
            assert(n.skip(1)[i] == n[i + 1]);
        }
        lemma_name_run(n.skip(1), rest);
    }
}

/// A `$NAME` reference takes the whole run of ASCII letters, digits and `_`
/// after the `$` (the name starting with a letter or `_`): it is replaced by
/// the name's value in `parent` (nothing when undefined), and the text from
/// the next other character on is expanded as it stands.
pub proof fn law_name_reference_takes_the_whole_name(
    n: Seq<char>,
    t: Seq<char>,
    parent: Seq<(Seq<char>, Seq<char>)>,
)
    requires
        n.len() > 0,
        (65 <= (n[0] as u32) <= 90) || (97 <= (n[0] as u32) <= 122) || n[0] == '_',
        forall|i: int|
            0 <= i < n.len() ==> (65 <= (#[trigger] n[i] as u32) <= 90) || (97 <= (n[i] as u32) <= 122)
                || (48 <= (n[i] as u32) <= 57) || n[i] == '_',
    ensures
        expand_spec(seq!['$'] + n + seq!['/'] + t, parent) == value_for(parent, n) + seq!['/'] + expand_spec(
            t,
            parent,
        ),
{
    let s = seq!['$'] + n + seq!['/'] + t;
    let tail = s.skip(1);
    assert(tail =~= n + (seq!['/'] + t));
    assert forall|i: int| 0 <= i < n.len() implies is_name_char(#[trigger] n[i]) by {
        assert(n[i] == '_' ==> (n[i] as u32) == 95);
    }
    lemma_name_run(n, seq!['/'] + t);
    assert(s[0] == '$');
    assert(s[1] == n[0]);
    assert(n[0] == '_' ==> (n[0] as u32) == 95);
    assert(tail.take(n.len() as int) =~= n);
    assert(s.skip(1 + n.len() as int) =~= seq!['/'] + t);
    let u = seq!['/'] + t;
    assert(u[0] == '/');
    assert(u.skip(1) =~= t);
    assert(expand_spec(u, parent) == seq!['/'] + expand_spec(t, parent));
    assert(value_for(parent, n) + (seq!['/'] + expand_spec(t, parent)) =~= value_for(parent, n) + seq!['/']
        + expand_spec(t, parent));
}

/// How many of the first `n` rules follow worktrees.
pub open spec fn following_count(rules: Seq<SandboxRule>, n: int) -> nat
    decreases n,
{
    if n <= 0 {
        0
    } else {
        following_count(rules, n - 1) + (if rules[n - 1].follow_worktrees { 1nat } else { 0nat })
    }
}

/// The count over a prefix does not look past it.
proof fn lemma_following_count_prefix(rules: Seq<SandboxRule>, shorter: Seq<SandboxRule>, n: int)
    requires
        0 <= n <= shorter.len() <= rules.len(),
        forall|k: int| 0 <= k < shorter.len() ==> shorter[k] == rules[k],
    ensures
        following_count(shorter, n) == following_count(rules, n),
    decreases n,
{
    if n > 0 {
        lemma_following_count_prefix(rules, shorter, n - 1);
    }
}

/// Counting over more rules never counts fewer.
proof fn lemma_following_count_grows(rules: Seq<SandboxRule>, a: int, b: int)
    requires
        0 <= a <= b,
    ensures
        following_count(rules, a) <= following_count(rules, b),
    decreases b - a,
{
    if a < b {
        lemma_following_count_grows(rules, a, b - 1);
    }
}

/// Following worktrees adds, for each rule that follows them and in the
/// order of the rules, one rule per worktree path in the order of the
/// paths. Each added rule keeps the effect and the capabilities of the rule
/// it comes from, covers its worktree path as a subpath, and does not follow
/// worktrees itself; nothing else is added.
pub proof fn law_worktree_rules_keep_their_source(rules: Seq<SandboxRule>, paths: Seq<String>)
    ensures
        worktree_rules(rules, paths).len() == following_count(rules, rules.len() as int) * paths.len(),
        forall|i: int, j: int|
            0 <= i < rules.len() && rules[i].follow_worktrees && 0 <= j < paths.len() ==> #[trigger] worktree_rules(
                rules,
                paths,
            )[following_count(rules, i) * paths.len() + j] == (SandboxRule {
                effect: rules[i].effect,
                caps: rules[i].caps,
                path: #[trigger] paths[j],
                path_match: PathMatch::Subpath,
                follow_worktrees: false,
                doc: None,
            }),
    decreases rules.len(),
{
    let pl = paths.len() as int;
    if rules.len() > 0 {
        let init = rules.drop_last();
        let n = rules.len() - 1;
        law_worktree_rules_keep_their_source(init, paths);
        assert forall|k: int| 0 <= k < init.len() implies init[k] == rules[k] by {}
        lemma_following_count_prefix(rules, init, n);
        let f = following_count(init, n);
        let w = worktree_rules(rules, paths);
        let wi = worktree_rules(init, paths);
        assert(rules.last() == rules[n]);
        assert(wi.len() == f * pl);
        if rules[n].follow_worktrees {
            assert(following_count(rules, n + 1) == f + 1);
            assert((f + 1) * pl == f * pl + pl) by (nonlinear_arith);
            assert(w.len() == wi.len() + pl);
        } else {
            assert(following_count(rules, n + 1) == f);
            assert(w =~= wi);
        }
        assert forall|i: int, j: int|
            0 <= i < rules.len() && rules[i].follow_worktrees && 0 <= j < paths.len() implies #[trigger] w[following_count(
                rules,
                i,
            ) * paths.len() + j] == (SandboxRule {
                effect: rules[i].effect,
                caps: rules[i].caps,
                path: #[trigger] paths[j],
                path_match: PathMatch::Subpath,
                follow_worktrees: false,
                doc: None,
            }) by {
            let c = following_count(rules, i);
            if i < n {
                lemma_following_count_prefix(rules, init, i);
                lemma_following_count_grows(init, i + 1, n);
                assert(following_count(init, i + 1) == c + 1);
                assert(c + 1 <= f);
                assert(c * pl + j < f * pl) by (nonlinear_arith)
                    requires
                        c + 1 <= f,
                        0 <= j < pl,
                ;
                assert(0 <= c * pl) by (nonlinear_arith)
                    requires
                        c >= 0,
                        pl >= 0,
                ;
                assert(init[i] == rules[i]);
                assert(w[c * pl + j] == wi[c * pl + j]);
            } else {
                assert(i == n);
                assert(c == f);
                assert(w[c * pl + j] == w[wi.len() + j]);
            }
        }
        assert(w.len() == following_count(rules, n + 1) * pl);
    } else {
        assert(following_count(rules, 0) == 0);
        assert(0 * pl == 0);
    }
}

} // verus!
