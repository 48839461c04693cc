//! Sandbox policies: capability rules on paths, a network policy, system
//! capabilities and environment edits; and how a policy decides the
//! capabilities of a path.
use vstd::prelude::*;

use crate::caps::{bit, cap_short, ALL_CAP_BITS, lemma_bit_ops, lemma_bits_determine, lemma_subset_bits, Cap, SystemCap};
use crate::env_policy::EnvPolicy;
use crate::names::views_of;
use crate::paths::{path_depth, path_depth_of, resolve_env_vars, resolve_vars, PathContext};
use crate::text::{chars_eq, chars_of, contains_char_from, push_char, starts_with, starts_with_at, string_from_chars};

verus! {

/// How a sandbox rule's path is matched against the filesystem.
#[derive(Debug, Clone, Copy, PartialEq, Eq, Structural)]
pub enum PathMatch {
    /// Match this path and all descendants (recursive).
    Subpath,
    /// Match exactly this path (non-recursive).
    Literal,
    /// Match direct children of this path (one level deep).
    ChildOf,
    /// Match paths against a regex pattern.
    /// Supported on macOS (Seatbelt SBPL). Skipped on Linux (Landlock).
    Regex,
}

impl Default for PathMatch {
    fn default() -> (r: PathMatch)
        ensures
            r == PathMatch::Literal,
    {
        PathMatch::Literal
    }
}

/// Whether a rule grants or revokes capabilities.
#[derive(Debug, Clone, Copy, PartialEq, Eq, Structural)]
pub enum RuleEffect {
    Allow,
    Deny,
}

/// Network access policy for sandboxed processes.
///
/// - `Deny`: block all network at kernel level
/// - `Allow`: unrestricted network access
/// - `Localhost`: allow connections only to localhost (127.0.0.1/::1),
///   enforced at kernel level without a proxy.
/// - `LocalhostPorts`: allow localhost connections only on specific TCP ports,
///   enforced at kernel level on macOS, advisory on Linux.
/// - `AllowDomains`: domain-specific filtering via local HTTP proxy.
///   The sandbox restricts connections to localhost only; a proxy enforces
///   the domain allowlist.
#[derive(Debug)]
pub enum NetworkPolicy {
    /// No network access. Unix domain sockets still allowed where possible.
    Deny,
    /// Unrestricted network access.
    Allow,
    /// Allow only localhost connections (127.0.0.1/::1).
    Localhost,
    /// Allow only localhost connections on specific ports.
    LocalhostPorts(Vec<u16>),
    /// Allow network access only to specific domains via HTTP proxy.
    AllowDomains(Vec<String>),
}

impl Default for NetworkPolicy {
    fn default() -> (r: NetworkPolicy)
        ensures
            r is Deny,
    {
        NetworkPolicy::Deny
    }
}

/// The name a network policy is written as: `deny`, `allow` or `localhost`
/// for the named modes, none for a port or domain list.
pub open spec fn network_name(p: &NetworkPolicy) -> Option<Seq<char>> {
    match p {
        NetworkPolicy::Deny => Some("deny"@),
        NetworkPolicy::Allow => Some("allow"@),
        NetworkPolicy::Localhost => Some("localhost"@),
        _ => None,
    }
}

/// The network policy a name stands for.
pub open spec fn network_named(n: Seq<char>) -> Option<NetworkPolicy> {
    if n == "deny"@ {
        Some(NetworkPolicy::Deny)
    } else if n == "allow"@ {
        Some(NetworkPolicy::Allow)
    } else if n == "localhost"@ {
        Some(NetworkPolicy::Localhost)
    } else {
        None
    }
}

/// A copy of a list of strings.
pub fn copy_strings(v: &Vec<String>) -> (r: Vec<String>)
    ensures
        r@ == v@,
{
    let mut out: Vec<String> = Vec::new();
    let mut i: usize = 0;
    while i < v.len()
        invariant
            i <= v@.len(),
            out@ == v@.take(i as int),
        decreases v.len() - i,
    {
        out.push(v[i].clone());
        assert(out@ =~= v@.take(i + 1));
        i = i + 1;
    }
    assert(v@.take(v@.len() as int) =~= v@);
    out
}

/// A copy of a list of ports.
pub fn copy_ports(v: &Vec<u16>) -> (r: Vec<u16>)
    ensures
        r@ == v@,
{
    let mut out: Vec<u16> = Vec::new();
    let mut i: usize = 0;
    while i < v.len()
        invariant
            i <= v@.len(),
            out@ == v@.take(i as int),
        decreases v.len() - i,
    {
        out.push(v[i]);
        assert(out@ =~= v@.take(i + 1));
        i = i + 1;
    }
    assert(v@.take(v@.len() as int) =~= v@);
    out
}

impl NetworkPolicy {
    /// Whether two network policies are the same mode with the same ports or
    /// domains.
    pub open spec fn same_as(&self, other: &NetworkPolicy) -> bool {
        match (self, other) {
            (NetworkPolicy::Deny, NetworkPolicy::Deny) => true,
            (NetworkPolicy::Allow, NetworkPolicy::Allow) => true,
            (NetworkPolicy::Localhost, NetworkPolicy::Localhost) => true,
            (NetworkPolicy::LocalhostPorts(p), NetworkPolicy::LocalhostPorts(q)) => p@ == q@,
            (NetworkPolicy::AllowDomains(d), NetworkPolicy::AllowDomains(e)) => d@ == e@,
            _ => false,
        }
    }

    /// A copy of this policy.
    pub fn duplicate(&self) -> (r: NetworkPolicy)
        ensures
            r.same_as(self),
    {
        match self {
            NetworkPolicy::Deny => NetworkPolicy::Deny,
            NetworkPolicy::Allow => NetworkPolicy::Allow,
            NetworkPolicy::Localhost => NetworkPolicy::Localhost,
            NetworkPolicy::LocalhostPorts(p) => NetworkPolicy::LocalhostPorts(copy_ports(p)),
            NetworkPolicy::AllowDomains(d) => NetworkPolicy::AllowDomains(copy_strings(d)),
        }
    }

    /// The name this policy is written as, when it is one of the named
    /// modes `deny`, `allow` and `localhost`.
    pub fn name(&self) -> (r: Option<&'static str>)
        ensures
            match network_name(self) {
                Some(n) => r matches Some(s) && s@ == n,
                None => r is None,
            },
    {
        match self {
            NetworkPolicy::Deny => Some("deny"),
            NetworkPolicy::Allow => Some("allow"),
            NetworkPolicy::Localhost => Some("localhost"),
            _ => None,
        }
    }

    /// The policy that the name `deny`, `allow` or `localhost` stands for.
    pub fn from_name(name: &str) -> (r: Option<NetworkPolicy>)
        ensures
            r == network_named(name@),
    {
        proof {
            reveal_strlit("deny");
            reveal_strlit("allow");
            reveal_strlit("localhost");
            assert("deny"@.len() == 4);
            assert("allow"@.len() == 5);
            assert("localhost"@.len() == 9);
        }
        if crate::text::str_eq(name, "deny") {
            Some(NetworkPolicy::Deny)
        } else if crate::text::str_eq(name, "allow") {
            Some(NetworkPolicy::Allow)
        } else if crate::text::str_eq(name, "localhost") {
            Some(NetworkPolicy::Localhost)
        } else {
            None
        }
    }

    /// The policy for a `{"localhost": ports}` entry: plain `Localhost` when
    /// no port is listed, otherwise only the listed ports.
    pub fn from_localhost_ports(ports: Vec<u16>) -> (r: NetworkPolicy)
        ensures
            ports@.len() == 0 ==> r is Localhost,
            ports@.len() > 0 ==> (r matches NetworkPolicy::LocalhostPorts(p) && p@ == ports@),
    {
        if ports.len() == 0 {
            NetworkPolicy::Localhost
        } else {
            NetworkPolicy::LocalhostPorts(ports)
        }
    }
}

/// A single sandbox rule granting or revoking capabilities on a path.
#[derive(Debug)]
pub struct SandboxRule {
    /// Whether this rule grants or revokes capabilities.
    pub effect: RuleEffect,
    /// The capabilities this rule applies to.
    pub caps: Cap,
    /// The path or pattern this rule applies to. Supports `$PWD`, `$HOME`, `$TMPDIR`.
    pub path: String,
    /// How the path is matched against the filesystem.
    pub path_match: PathMatch,
    /// When true, also grant this rule's access to the git worktree's
    /// shared directories (`.git/worktrees/<name>` and the main `.git/`).
    pub follow_worktrees: bool,
    /// Optional docstring describing this rule's purpose.
    pub doc: Option<String>,
}

/// A copy of an optional string.
pub fn copy_opt_string(s: &Option<String>) -> (r: Option<String>)
    ensures
        r == *s,
{
    match s {
        Some(d) => Some(d.clone()),
        None => None,
    }
}

impl SandboxRule {
    /// A copy of this rule.
    pub fn duplicate(&self) -> (r: SandboxRule)
        ensures
            r == *self,
    {
        SandboxRule {
            effect: self.effect,
            caps: self.caps,
            path: self.path.clone(),
            path_match: self.path_match,
            follow_worktrees: self.follow_worktrees,
            doc: copy_opt_string(&self.doc),
        }
    }
}

/// A sandbox policy is a list of capability rules applied to paths,
/// plus a network policy. Platform backends compile this to their
/// native enforcement (Landlock+seccomp, Seatbelt SBPL, etc.).
#[derive(Debug)]
pub struct SandboxPolicy {
    /// Default capabilities for paths not matched by any rule.
    pub default: Cap,
    /// List of rules.
    pub rules: Vec<SandboxRule>,
    /// Network access policy.
    pub network: NetworkPolicy,
    /// Opt-in system capabilities (power notifications, loopback serving).
    pub system: SystemCap,
    /// Environment manipulation applied to the sandboxed process.
    pub env: EnvPolicy,
    /// Optional docstring describing this sandbox's purpose.
    pub doc: Option<String>,
}

/// What the model should do when a sandbox violation occurs.
#[derive(Debug, Clone, Copy, PartialEq, Eq, Structural)]
pub enum ViolationAction {
    /// Stop and suggest a policy fix. Don't retry.
    Stop,
    /// Try an alternative approach. If no workaround is possible, suggest the policy fix.
    Workaround,
    /// Let the model assess context to decide between stop and workaround.
    Smart,
}

impl Default for ViolationAction {
    fn default() -> (r: ViolationAction)
        ensures
            r == ViolationAction::Stop,
    {
        ViolationAction::Stop
    }
}

impl ViolationAction {
    /// Whether this is the default action, `Stop`.
    pub fn is_default(&self) -> (r: bool)
        ensures
            r == (*self == ViolationAction::Stop),
    {
        match self {
            ViolationAction::Stop => true,
            _ => false,
        }
    }
}

/// The result of matching one rule against a path: whether it applies,
/// whether it allows, its capability bits, and its depth.
pub type RuleFact = (bool, bool, u8, nat);

/// Whether the path `text` has a match of the regular expression `pattern`;
/// false when `pattern` is not a valid regular expression.
pub uninterp spec fn regex_finds(pattern: Seq<char>, text: Seq<char>) -> bool;

/// Compiles `pattern` with the `regex` crate (`Regex::new`) and, when that
/// succeeds, asks `Regex::is_match` whether it matches somewhere in `text`;
/// a pattern that does not compile matches nothing. The contract claims only
/// that the result is a function of the two strings.
#[verifier::external_body]
fn regex_is_match(pattern: &str, text: &str) -> (r: bool)
    ensures
        r == regex_finds(pattern@, text@),
{
    regex::Regex::new(pattern).map(|re| re.is_match(text)).unwrap_or(false)
}

/// What a path under `dir` starts with: `dir` and a `/` (`dir` itself when
/// it already ends with `/`, as the root does).
pub open spec fn dir_prefix(dir: Seq<char>) -> Seq<char> {
    if dir.len() > 0 && dir.last() == '/' {
        dir
    } else {
        dir.push('/')
    }
}

/// Whether a rule with matching mode `mode` covers the query: `query` is the
/// path as asked, `canonical_query` its symlink-resolved form, `rule_path`
/// the rule's path with variables expanded and `canonical_rule` its
/// symlink-resolved form.
pub open spec fn path_matches(
    mode: PathMatch,
    query: Seq<char>,
    canonical_query: Seq<char>,
    rule_path: Seq<char>,
    canonical_rule: Seq<char>,
) -> bool {
    match mode {
        PathMatch::Subpath => canonical_query == canonical_rule || starts_with(
            canonical_query,
            dir_prefix(canonical_rule),
        ),
        PathMatch::Literal => canonical_query == canonical_rule,
        PathMatch::ChildOf => starts_with(canonical_query, dir_prefix(canonical_rule))
            && canonical_query.len() > dir_prefix(canonical_rule).len()
            && !canonical_query.skip(dir_prefix(canonical_rule).len() as int).contains('/'),
        PathMatch::Regex => regex_finds(rule_path, query),
    }
}

/// Whether `fact` applies and decides capability bit `b`: an allow rule
/// decides the bits it grants; a deny rule decides the bits it revokes and,
/// since revoking keeps only the named capabilities of the complement, every
/// bit that no capability names.
pub open spec fn covers(fact: RuleFact, b: u8) -> bool {
    fact.0 && (bit(fact.2, b) || (!fact.1 && !bit(ALL_CAP_BITS, b)))
}

/// Whether capability bit `b` ends up granted: the default decides when no
/// applicable rule covers `b`; otherwise `b` is granted exactly when an
/// applicable allow rule covering `b` is at least as deep as every applicable
/// rule covering `b`. This is what applying the rules broadest first, deny
/// before allow at equal depth, each overriding the earlier ones, gives.
pub open spec fn bit_granted(default: u8, facts: Seq<RuleFact>, b: u8) -> bool {
    if !(exists|i: int| 0 <= i < facts.len() && #[trigger] covers(facts[i], b)) {
        bit(default, b)
    } else {
        exists|i: int|
            0 <= i < facts.len() && #[trigger] covers(facts[i], b) && facts[i].1 && forall|j: int|
                0 <= j < facts.len() && #[trigger] covers(facts[j], b) ==> facts[j].3 <= facts[i].3
    }
}

/// The denial candidates: applicable deny rules that share a capability with
/// `required`.
pub open spec fn denial_candidate(fact: RuleFact, required: u8) -> bool {
    fact.0 && !fact.1 && fact.2 & required != 0
}

/// Whether rule `k` is the one a denial is explained by: the deepest
/// candidate, the last one among equally deep candidates.
pub open spec fn chosen_denial(facts: Seq<RuleFact>, required: u8, k: int) -> bool {
    &&& 0 <= k < facts.len()
    &&& denial_candidate(facts[k], required)
    &&& forall|j: int| 0 <= j < facts.len() && #[trigger] denial_candidate(facts[j], required)
        ==> facts[j].3 <= facts[k].3
    &&& forall|j: int| k < j < facts.len() && #[trigger] denial_candidate(facts[j], required)
        ==> facts[j].3 < facts[k].3
}

/// The name of a matching mode.
pub open spec fn match_name(m: PathMatch) -> Seq<char> {
    match m {
        PathMatch::Subpath => "subpath"@,
        PathMatch::Literal => "literal"@,
        PathMatch::ChildOf => "child_of"@,
        PathMatch::Regex => "regex"@,
    }
}

/// `deny <caps> in <path> (<mode>)`.
pub open spec fn denial_message(caps: u8, rule_path: Seq<char>, m: PathMatch) -> Seq<char> {
    "deny "@ + cap_short(caps) + " in "@ + rule_path + " ("@ + match_name(m) + ")"@
}

/// The rules that following worktrees adds: for each rule that follows
/// worktrees, in order, one allow-or-deny subpath rule per worktree path, with
/// the rule's effect and capabilities.
pub open spec fn worktree_rules(rules: Seq<SandboxRule>, paths: Seq<String>) -> Seq<SandboxRule>
    decreases rules.len(),
{
    if rules.len() == 0 {
        Seq::empty()
    } else {
        let r = rules.last();
        worktree_rules(rules.drop_last(), paths) + (if r.follow_worktrees {
            paths.map_values(
                |p: String|
                    SandboxRule {
                        effect: r.effect,
                        caps: r.caps,
                        path: p,
                        path_match: PathMatch::Subpath,
                        follow_worktrees: false,
                        doc: None,
                    },
            )
        } else {
            Seq::empty()
        })
    }
}

/// With no worktree path, no rule is added.
pub proof fn lemma_no_worktree_paths(rules: Seq<SandboxRule>)
    ensures
        worktree_rules(rules, Seq::empty()) == Seq::<SandboxRule>::empty(),
    decreases rules.len(),
{
    if rules.len() > 0 {
        lemma_no_worktree_paths(rules.drop_last());
        assert(Seq::<String>::empty().map_values(
            |p: String|
                SandboxRule {
                    effect: rules.last().effect,
                    caps: rules.last().caps,
                    path: p,
                    path_match: PathMatch::Subpath,
                    follow_worktrees: false,
                    doc: None,
                },
        ) =~= Seq::<SandboxRule>::empty());
    }
}

/// When no rule follows worktrees, no rule is added.
pub proof fn lemma_no_following_rules(rules: Seq<SandboxRule>, paths: Seq<String>)
    requires
        forall|i: int| 0 <= i < rules.len() ==> !(#[trigger] rules[i]).follow_worktrees,
    ensures
        worktree_rules(rules, paths) == Seq::<SandboxRule>::empty(),
    decreases rules.len(),
{
    if rules.len() > 0 {
        assert(!rules[rules.len() - 1].follow_worktrees);
        lemma_no_following_rules(rules.drop_last(), paths);
    }
}

impl SandboxPolicy {
    /// Resolve a rule path, expanding `$PWD`, `$HOME` and `$TMPDIR` with the
    /// values in `ctx`.
    pub fn resolve_path(path: &str, ctx: &PathContext) -> (r: String)
        ensures
            r@ == resolve_vars(path@, ctx.cwd@, ctx.home@, ctx.tmpdir@),
    {
        resolve_env_vars(path, ctx)
    }

    /// A copy of this policy.
    pub fn duplicate(&self) -> (r: SandboxPolicy)
        ensures
            r.default == self.default,
            r.rules@ == self.rules@,
            r.network.same_as(&self.network),
            r.system == self.system,
            r.env.default == self.env.default,
            r.env.inherit@ == self.env.inherit@,
            r.env.set@ == self.env.set@,
            r.env.remove@ == self.env.remove@,
            r.doc == self.doc,
    {
        let mut rules: Vec<SandboxRule> = Vec::new();
        let mut i: usize = 0;
        while i < self.rules.len()
            invariant
                i <= self.rules@.len(),
                rules@ == self.rules@.take(i as int),
            decreases self.rules.len() - i,
        {
            rules.push(self.rules[i].duplicate());
            assert(rules@ =~= self.rules@.take(i + 1));
            i = i + 1;
        }
        assert(self.rules@.take(self.rules@.len() as int) =~= self.rules@);
        SandboxPolicy {
            default: self.default,
            rules,
            network: self.network.duplicate(),
            system: self.system,
            env: self.env.duplicate(),
            doc: copy_opt_string(&self.doc),
        }
    }

    /// Expand rules that have `follow_worktrees` set, given the git
    /// directories of the worktree the working directory is in
    /// (`worktree_paths`, empty when it is not in a worktree).
    ///
    /// In a worktree, git data lives outside the working directory (in the main
    /// repo's `.git/`), so sandboxed processes need access to those paths for
    /// git operations to work. Each following rule adds one subpath rule per
    /// worktree path, after the existing rules; nothing else changes.
    pub fn expand_worktree_rules(&self, worktree_paths: &Vec<String>) -> (r: SandboxPolicy)
        ensures
            r.rules@ == self.rules@ + worktree_rules(self.rules@, worktree_paths@),
            r.default == self.default,
            r.network.same_as(&self.network),
            r.system == self.system,
            r.env.default == self.env.default,
            r.env.inherit@ == self.env.inherit@,
            r.env.set@ == self.env.set@,
            r.env.remove@ == self.env.remove@,
            r.doc == self.doc,
    {
        let mut has_worktree_rules = false;
        let mut i: usize = 0;
        while i < self.rules.len()
            invariant
                i <= self.rules@.len(),
                !has_worktree_rules ==> forall|j: int| 0 <= j < i ==> !(#[trigger] self.rules@[j]).follow_worktrees,
            decreases self.rules.len() - i,
        {
            if self.rules[i].follow_worktrees {
                has_worktree_rules = true;
            }
            i = i + 1;
        }
        if !has_worktree_rules {
            proof {
                lemma_no_following_rules(self.rules@, worktree_paths@);
            }
            let r = self.duplicate();
            assert(r.rules@ =~= self.rules@ + worktree_rules(self.rules@, worktree_paths@));
            return r;
        }
        if worktree_paths.len() == 0 {
            proof {
                assert(worktree_paths@ =~= Seq::<String>::empty());
                lemma_no_worktree_paths(self.rules@);
            }
            let r = self.duplicate();
            assert(r.rules@ =~= self.rules@ + worktree_rules(self.rules@, worktree_paths@));
            return r;
        }
        let mut expanded = self.duplicate();
        let mut k: usize = 0;
        while k < self.rules.len()
            invariant
                k <= self.rules@.len(),
                expanded.rules@ == self.rules@ + worktree_rules(self.rules@.take(k as int), worktree_paths@),
                expanded.default == self.default,
                expanded.network.same_as(&self.network),
                expanded.system == self.system,
                expanded.env.default == self.env.default,
                expanded.env.inherit@ == self.env.inherit@,
                expanded.env.set@ == self.env.set@,
                expanded.env.remove@ == self.env.remove@,
                expanded.doc == self.doc,
            decreases self.rules.len() - k,
        {
            let rule = &self.rules[k];
            assert(self.rules@.take(k + 1).drop_last() =~= self.rules@.take(k as int));
            assert(self.rules@.take(k + 1).last() == *rule);
            if rule.follow_worktrees {
                let ghost base = expanded.rules@;
                let ghost made = worktree_paths@.map_values(
                    |p: String|
                        SandboxRule {
                            effect: rule.effect,
                            caps: rule.caps,
                            path: p,
                            path_match: PathMatch::Subpath,
                            follow_worktrees: false,
                            doc: None,
                        },
                );
                let mut m: usize = 0;
                while m < worktree_paths.len()
                    invariant
                        m <= worktree_paths@.len(),
                        expanded.rules@ == base + made.take(m as int),
                        made.len() == worktree_paths@.len(),
                        forall|q: int| 0 <= q < made.len() ==> #[trigger] made[q] == (SandboxRule {
                            effect: rule.effect,
                            caps: rule.caps,
                            path: worktree_paths@[q],
                            path_match: PathMatch::Subpath,
                            follow_worktrees: false,
                            doc: None,
                        }),
                        expanded.default == self.default,
                        expanded.network.same_as(&self.network),
                        expanded.system == self.system,
                        expanded.env.default == self.env.default,
                        expanded.env.inherit@ == self.env.inherit@,
                        expanded.env.set@ == self.env.set@,
                        expanded.env.remove@ == self.env.remove@,
                        expanded.doc == self.doc,
                    decreases worktree_paths.len() - m,
                {
                    let added = SandboxRule {
                        effect: rule.effect,
                        caps: rule.caps,
                        path: worktree_paths[m].clone(),
                        path_match: PathMatch::Subpath,
                        follow_worktrees: false,
                        doc: None,
                    };
                    assert(added == made[m as int]);
                    expanded.rules.push(added);
                    assert(expanded.rules@ =~= base + made.take(m + 1));
                    m = m + 1;
                }
                assert(made.take(made.len() as int) =~= made);
                assert(expanded.rules@ =~= self.rules@ + worktree_rules(self.rules@.take(k + 1), worktree_paths@));
            } else {
                assert(expanded.rules@ =~= self.rules@ + worktree_rules(self.rules@.take(k + 1), worktree_paths@));
            }
            k = k + 1;
        }
        assert(self.rules@.take(self.rules@.len() as int) =~= self.rules@);
        expanded
    }

    /// Whether `m` explains a denial of `required`: it names the chosen deny
    /// rule when there is a matching deny rule covering one of the required
    /// capabilities, and otherwise says that no allow rule grants access.
    pub open spec fn denial_text(
        &self,
        query: Seq<char>,
        ctx: &PathContext,
        canonical_query: Seq<char>,
        canonical_rules: Seq<Seq<char>>,
        required: u8,
        m: Seq<char>,
    ) -> bool {
        let facts = self.rule_facts(query, ctx, canonical_query, canonical_rules);
        if exists|j: int| 0 <= j < facts.len() && #[trigger] denial_candidate(facts[j], required) {
            exists|k: int|
                #[trigger] chosen_denial(facts, required, k) && m == denial_message(
                    self.rules@[k].caps@,
                    self.rule_path(k, ctx),
                    self.rules@[k].path_match,
                )
        } else {
            m == "no allow rule grants access to this path"@
        }
    }

    /// The path of rule `i` with `$PWD`, `$HOME` and `$TMPDIR` expanded.
    pub open spec fn rule_path(&self, i: int, ctx: &PathContext) -> Seq<char> {
        resolve_vars(self.rules@[i].path@, ctx.cwd@, ctx.home@, ctx.tmpdir@)
    }

    /// What each rule contributes for a query: whether it applies, whether it
    /// allows, its capabilities and the component count of its expanded path.
    pub open spec fn rule_facts(
        &self,
        query: Seq<char>,
        ctx: &PathContext,
        canonical_query: Seq<char>,
        canonical_rules: Seq<Seq<char>>,
    ) -> Seq<RuleFact> {
        Seq::new(
            self.rules@.len(),
            |i: int|
                (
                    path_matches(
                        self.rules@[i].path_match,
                        query,
                        canonical_query,
                        self.rule_path(i, ctx),
                        canonical_rules[i],
                    ),
                    self.rules@[i].effect == RuleEffect::Allow,
                    self.rules@[i].caps@,
                    path_depth(self.rule_path(i, ctx)),
                ),
        )
    }

    /// Matches every rule against the query and returns, per rule, the facts
    /// of `rule_facts` and the rule's expanded path.
    fn match_rules(
        &self,
        path: &str,
        ctx: &PathContext,
        canonical_path: &str,
        canonical_rules: &Vec<String>,
    ) -> (r: (Vec<(bool, bool, u8, usize)>, Vec<String>))
        requires
            canonical_rules@.len() == self.rules@.len(),
        ensures
            r.0@.len() == self.rules@.len(),
            r.1@.len() == self.rules@.len(),
            forall|i: int|
                0 <= i < self.rules@.len() ==> {
                    let f = self.rule_facts(path@, ctx, canonical_path@, views_of(canonical_rules@))[i];
                    &&& (#[trigger] r.0@[i]).0 == f.0
                    &&& r.0@[i].1 == f.1
                    &&& r.0@[i].2 == f.2
                    &&& r.0@[i].3 as nat == f.3
                    &&& r.1@[i]@ == self.rule_path(i, ctx)
                },
    {
        let query = chars_of(path);
        let cq = chars_of(canonical_path);
        let mut facts: Vec<(bool, bool, u8, usize)> = Vec::new();
        let mut paths: Vec<String> = Vec::new();
        let ghost all = self.rule_facts(path@, ctx, canonical_path@, views_of(canonical_rules@));
        let mut i: usize = 0;
        while i < self.rules.len()
            invariant
                i <= self.rules@.len(),
                canonical_rules@.len() == self.rules@.len(),
                query@ == path@,
                cq@ == canonical_path@,
                all == self.rule_facts(path@, ctx, canonical_path@, views_of(canonical_rules@)),
                facts@.len() == i,
                paths@.len() == i,
                forall|k: int|
                    0 <= k < i ==> {
                        &&& (#[trigger] facts@[k]).0 == all[k].0
                        &&& facts@[k].1 == all[k].1
                        &&& facts@[k].2 == all[k].2
                        &&& facts@[k].3 as nat == all[k].3
                        &&& paths@[k]@ == self.rule_path(k, ctx)
                    },
            decreases self.rules.len() - i,
        {
            let rule = &self.rules[i];
            let rule_path = Self::resolve_path(rule.path.as_str(), ctx);
            let depth = path_depth_of(rule_path.as_str());
            let cr = chars_of(canonical_rules[i].as_str());
            assert(views_of(canonical_rules@)[i as int] == cr@);
            let mut prefix = cr.clone();
            if !(cr.len() > 0 && cr[cr.len() - 1] == '/') {
                prefix.push('/');
            }
            assert(prefix@ == dir_prefix(cr@));
            let applies = match rule.path_match {
                PathMatch::Subpath => chars_eq(&cq, &cr) || starts_with_at(&cq, 0, &prefix),
                PathMatch::Literal => chars_eq(&cq, &cr),
                PathMatch::ChildOf => {
                    if starts_with_at(&cq, 0, &prefix) && cq.len() > prefix.len() {
                        let rest_has_slash = contains_char_from(&cq, prefix.len(), '/');
                        !rest_has_slash
                    } else {
                        false
                    }
                },
                PathMatch::Regex => regex_is_match(rule_path.as_str(), path),
            };
            assert(cq@.skip(0) =~= cq@);
            let allow = match rule.effect {
                RuleEffect::Allow => true,
                RuleEffect::Deny => false,
            };
            facts.push((applies, allow, rule.caps.bits(), depth));
            paths.push(rule_path);
            i = i + 1;
        }
        (facts, paths)
    }

    /// Compute the effective capabilities for a given path by evaluating all
    /// rules.
    ///
    /// `path` is the query; `canonical_path` is it with symlinks resolved;
    /// `canonical_rules[i]` is rule `i`'s path, expanded with `ctx`, with
    /// symlinks resolved. A capability a matching rule covers is decided by
    /// the deepest matching rules that cover it (by the component count of
    /// their expanded paths), and at equal depth an allow wins over a deny;
    /// a capability no matching rule covers keeps its default.
    pub fn effective_caps(
        &self,
        path: &str,
        ctx: &PathContext,
        canonical_path: &str,
        canonical_rules: &Vec<String>,
    ) -> (r: Cap)
        requires
            canonical_rules@.len() == self.rules@.len(),
        ensures
            forall|b: u8|
                b < 8 ==> #[trigger] bit(r@, b) == bit_granted(
                    self.default@,
                    self.rule_facts(path@, ctx, canonical_path@, views_of(canonical_rules@)),
                    b,
                ),
    {
        let (facts, _) = self.match_rules(path, ctx, canonical_path, canonical_rules);
        let ghost all = self.rule_facts(path@, ctx, canonical_path@, views_of(canonical_rules@));
        let default_bits = self.default.bits();
        let mut result: u8 = 0;
        proof {
            assert forall|j: u8| 0 <= j < 8 implies !#[trigger] bit(0u8, j) by {
                lemma_bit_ops(0u8, 0u8, j);
            }
        }
        let mut b: u8 = 0;
        while b < 8
            invariant
                b <= 8,
                facts@.len() == all.len(),
                all == self.rule_facts(path@, ctx, canonical_path@, views_of(canonical_rules@)),
                default_bits == self.default@,
                forall|i: int|
                    0 <= i < all.len() ==> {
                        &&& (#[trigger] facts@[i]).0 == all[i].0
                        &&& facts@[i].1 == all[i].1
                        &&& facts@[i].2 == all[i].2
                        &&& facts@[i].3 as nat == all[i].3
                    },
                forall|j: u8| j < b ==> #[trigger] bit(result, j) == bit_granted(default_bits, all, j),
                forall|j: u8| b <= j < 8 ==> !#[trigger] bit(result, j),
            decreases 8 - b,
        {
            let granted = granted_bit(&facts, default_bits, b, Ghost(all));
            if granted {
                proof {
                    assert forall|j: u8| j < 8 implies #[trigger] bit(result | (1u8 << b), j) == (bit(
                        result,
                        j,
                    ) || j == b) by {
                        lemma_set_bit(result, b, j);
                    }
                }
                result = result | (1u8 << b);
            }
            b = b + 1;
        }
        Cap::from_bits_retain(result)
    }

    /// Explain why a path lacks the required capabilities.
    ///
    /// The query is given as for [`SandboxPolicy::effective_caps`]. Returns
    /// `None` if the path has the required capabilities; otherwise the most
    /// specific matching deny rule that covers one of them, formatted like
    /// `"deny rwcdx in /Users (subpath)"`, or a note that no allow rule
    /// grants access when there is no such deny rule.
    pub fn explain_denial(
        &self,
        path: &str,
        ctx: &PathContext,
        canonical_path: &str,
        canonical_rules: &Vec<String>,
        required: Cap,
    ) -> (r: Option<String>)
        requires
            canonical_rules@.len() == self.rules@.len(),
        ensures
            r is None <==> forall|b: u8|
                b < 8 && #[trigger] bit(required@, b) ==> bit_granted(
                    self.default@,
                    self.rule_facts(path@, ctx, canonical_path@, views_of(canonical_rules@)),
                    b,
                ),
            r matches Some(m) ==> self.denial_text(
                path@,
                ctx,
                canonical_path@,
                views_of(canonical_rules@),
                required@,
                m@,
            ),
    {
        let effective = self.effective_caps(path, ctx, canonical_path, canonical_rules);
        let ghost facts = self.rule_facts(path@, ctx, canonical_path@, views_of(canonical_rules@));
        proof {
            lemma_subset_bits(effective@, required@);
        }
        if effective.contains(required) {
            return None;
        }
        let (fs, paths) = self.match_rules(path, ctx, canonical_path, canonical_rules);
        let best = deepest_denial(&fs, required.bits(), Ghost(facts));
        match best {
            Some(k) => {
                let rule = &self.rules[k];
                let mut msg = String::new();
                msg.append("deny ");
                let short = rule.caps.short();
                msg.append(short.as_str());
                msg.append(" in ");
                msg.append(paths[k].as_str());
                msg.append(" (");
                msg.append(
                    match rule.path_match {
                        PathMatch::Subpath => "subpath",
                        PathMatch::Literal => "literal",
                        PathMatch::ChildOf => "child_of",
                        PathMatch::Regex => "regex",
                    },
                );
                msg.append(")");
                assert(fs@[k as int].0 == facts[k as int].0);
                assert(paths@[k as int]@ == self.rule_path(k as int, ctx));
                assert(msg@ =~= denial_message(rule.caps@, self.rule_path(k as int, ctx), rule.path_match));
                assert(chosen_denial(facts, required@, k as int));
                assert(denial_candidate(facts[k as int], required@));
                assert(self.denial_text(path@, ctx, canonical_path@, views_of(canonical_rules@), required@, msg@));
                Some(msg)
            },
            None => {
                let mut msg = String::new();
                msg.append("no allow rule grants access to this path");
                Some(msg)
            },
        }
    }
}

/// The deepest matching deny rule that shares a capability with `required`,
/// the last one among equally deep ones.
fn deepest_denial(
    fs: &Vec<(bool, bool, u8, usize)>,
    required: u8,
    Ghost(facts): Ghost<Seq<RuleFact>>,
) -> (r: Option<usize>)
    requires
        fs@.len() == facts.len(),
        forall|k: int|
            0 <= k < facts.len() ==> {
                &&& (#[trigger] fs@[k]).0 == facts[k].0
                &&& fs@[k].1 == facts[k].1
                &&& fs@[k].2 == facts[k].2
                &&& fs@[k].3 as nat == facts[k].3
            },
    ensures
        match r {
            Some(k) => chosen_denial(facts, required, k as int),
            None => forall|j: int| 0 <= j < facts.len() ==> !#[trigger] denial_candidate(facts[j], required),
        },
{
    let mut best: Option<usize> = None;
    let mut best_depth: usize = 0;
    let mut i: usize = 0;
    while i < fs.len()
        invariant
            i <= fs@.len(),
            fs@.len() == facts.len(),
            forall|k: int|
                0 <= k < facts.len() ==> {
                    &&& (#[trigger] fs@[k]).0 == facts[k].0
                    &&& fs@[k].1 == facts[k].1
                    &&& fs@[k].2 == facts[k].2
                    &&& fs@[k].3 as nat == facts[k].3
                },
            match best {
                Some(k) => k < i && best_depth as nat == facts[k as int].3 && denial_candidate(
                    facts[k as int],
                    required,
                ) && (forall|j: int|
                    0 <= j < i && #[trigger] denial_candidate(facts[j], required) ==> facts[j].3
                        <= facts[k as int].3) && (forall|j: int|
                    k < j < i && #[trigger] denial_candidate(facts[j], required) ==> facts[j].3
                        < facts[k as int].3),
                None => forall|j: int| 0 <= j < i ==> !#[trigger] denial_candidate(facts[j], required),
            },
        decreases fs.len() - i,
    {
        let (applies, allow, caps, depth) = fs[i];
        assert(denial_candidate(facts[i as int], required) == (applies && !allow && caps & required
            != 0));
        if applies && !allow && caps & required != 0 {
            let take = match best {
                None => true,
                Some(_) => depth >= best_depth,
            };
            if take {
                best = Some(i);
                best_depth = depth;
            }
        }
        i = i + 1;
    }
    best
}

/// Setting bit `b` of `x` sets exactly that bit.
proof fn lemma_set_bit(x: u8, b: u8, j: u8)
    requires
        b < 8,
        j < 8,
    ensures
        bit(x | (1u8 << b), j) == (bit(x, j) || j == b),
{
    assert(bit(x | (1u8 << b), j) == (bit(x, j) || j == b)) by (bit_vector)
        requires
            b < 8,
            j < 8,
    ;
}

/// Whether capability bit `b` is granted, from the per-rule facts.
fn granted_bit(
    facts: &Vec<(bool, bool, u8, usize)>,
    default_bits: u8,
    b: u8,
    Ghost(all): Ghost<Seq<RuleFact>>,
) -> (r: bool)
    requires
        b < 8,
        facts@.len() == all.len(),
        forall|i: int|
            0 <= i < all.len() ==> {
                &&& (#[trigger] facts@[i]).0 == all[i].0
                &&& facts@[i].1 == all[i].1
                &&& facts@[i].2 == all[i].2
                &&& facts@[i].3 as nat == all[i].3
            },
    ensures
        r == bit_granted(default_bits, all, b),
{
    let mut found = false;
    let mut best: usize = 0;
    let mut allow_best = false;
    let mut k: usize = 0;
    while k < facts.len()
        invariant
            b < 8,
            k <= facts@.len(),
            facts@.len() == all.len(),
            forall|i: int|
                0 <= i < all.len() ==> {
                    &&& (#[trigger] facts@[i]).0 == all[i].0
                    &&& facts@[i].1 == all[i].1
                    &&& facts@[i].2 == all[i].2
                    &&& facts@[i].3 as nat == all[i].3
                },
            found == exists|j: int| 0 <= j < k && #[trigger] covers(all[j], b),
            found ==> forall|j: int| 0 <= j < k && #[trigger] covers(all[j], b) ==> all[j].3 <= best,
            found ==> exists|j: int| 0 <= j < k && #[trigger] covers(all[j], b) && all[j].3 == best,
            allow_best == exists|j: int|
                0 <= j < k && #[trigger] covers(all[j], b) && all[j].1 && all[j].3 == best,
        decreases facts.len() - k,
    {
        let (applies, allow, caps, depth) = facts[k];
        assert(all[k as int].0 == applies && all[k as int].2 == caps && all[k as int].1 == allow
            && all[k as int].3 == depth);
        let has = applies && ((caps >> b) & 1u8 == 1u8 || (!allow && !((ALL_CAP_BITS >> b) & 1u8 == 1u8)));
        assert(has == covers(all[k as int], b));
        if has {
            if !found || depth > best {
                found = true;
                best = depth;
                allow_best = allow;
                assert(covers(all[k as int], b));
            } else if depth == best {
                allow_best = allow_best || allow;
            }
        }
        k = k + 1;
    }
    if !found {
        (default_bits >> b) & 1u8 == 1u8
    } else {
        allow_best
    }
}

} // verus!
