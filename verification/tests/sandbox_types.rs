use std::collections::BTreeMap;

use clash_sandbox::paths::resolve_env_vars;
use clash_sandbox::{
    Cap, EnvCommandPlan, EnvDefault, EnvPolicy, NetworkPolicy, PathContext, PathMatch, RuleEffect, SandboxPolicy,
    SandboxRule, StrMap, SymlinkWalk, SystemCap, ViolationAction,
};

fn rule(effect: RuleEffect, caps: Cap, path: &str, path_match: PathMatch) -> SandboxRule {
    SandboxRule {
        effect,
        caps,
        path: path.to_string(),
        path_match,
        follow_worktrees: false,
        doc: None,
    }
}

fn policy(default: Cap, rules: Vec<SandboxRule>) -> SandboxPolicy {
    SandboxPolicy {
        default,
        rules,
        network: NetworkPolicy::Deny,
        system: SystemCap::empty(),
        env: Default::default(),
        doc: None,
    }
}

/// The capabilities of `path` where no path involved is a symlink: the
/// canonical forms are the paths themselves.
fn caps_of(policy: &SandboxPolicy, path: &str, cwd: &str) -> Cap {
    let ctx = PathContext::new(cwd, "/home/tester", "/tmp");
    let canonical_rules: Vec<String> = policy
        .rules
        .iter()
        .map(|r| resolve_env_vars(&r.path, &ctx))
        .collect();
    policy.effective_caps(path, &ctx, path, &canonical_rules)
}

fn explain(policy: &SandboxPolicy, path: &str, cwd: &str, required: Cap) -> Option<String> {
    let ctx = PathContext::new(cwd, "/home/tester", "/tmp");
    let canonical_rules: Vec<String> = policy
        .rules
        .iter()
        .map(|r| resolve_env_vars(&r.path, &ctx))
        .collect();
    policy.explain_denial(path, &ctx, path, &canonical_rules, required)
}

/// Resolve `path` on a filesystem whose only symlinks are `links`.
fn resolve_with(path: &str, links: &[(&str, &str)]) -> String {
    let mut w = SymlinkWalk::new(path);
    while let Some(probe) = w.next_probe() {
        if let Some((_, target)) = links.iter().find(|(l, _)| *l == probe) {
            w.found_link(target);
        }
    }
    w.result()
}

/// The canonical forms of the query and of each rule's expanded path on a
/// filesystem whose only symlinks are `links`.
fn canonical_forms(
    policy: &SandboxPolicy,
    path: &str,
    ctx: &PathContext,
    links: &[(&str, &str)],
) -> (String, Vec<String>) {
    let rules = policy
        .rules
        .iter()
        .map(|r| resolve_with(&resolve_env_vars(&r.path, ctx), links))
        .collect();
    (resolve_with(path, links), rules)
}

fn caps_with_links(policy: &SandboxPolicy, path: &str, links: &[(&str, &str)]) -> Cap {
    let ctx = PathContext::new("/ignored", "/home/tester", "/tmp");
    let (canonical_path, canonical_rules) = canonical_forms(policy, path, &ctx, links);
    policy.effective_caps(path, &ctx, &canonical_path, &canonical_rules)
}

/// A temporary directory holding `real/` and `link -> real`.
const LINK_TO_REAL: [(&str, &str); 1] = [("/tmp/t2/link", "/tmp/t2/real")];

fn parent_env(pairs: &[(&str, &str)]) -> StrMap {
    let mut m = StrMap::new();
    for (k, v) in pairs {
        m.insert(k.to_string(), v.to_string());
    }
    m
}

#[test]
fn test_cap_short() {
    assert_eq!(Cap::READ().short(), "r----");
    assert_eq!((Cap::READ() | Cap::WRITE()).short(), "rw---");
    assert_eq!((Cap::READ() | Cap::EXECUTE()).short(), "r---x");
    assert_eq!(Cap::all().short(), "rwcdx");
    assert_eq!(Cap::empty().short(), "-----");
}

#[test]
fn test_cap_display() {
    assert_eq!(Cap::READ().display(), "read");
    assert_eq!((Cap::READ() | Cap::WRITE()).display(), "read + write");
    assert_eq!(
        Cap::all().display(),
        "read + write + create + delete + execute"
    );
}

#[test]
fn test_effective_caps() {
    let policy = policy(
        Cap::READ() | Cap::EXECUTE(),
        vec![
            rule(
                RuleEffect::Allow,
                Cap::READ() | Cap::WRITE() | Cap::CREATE() | Cap::DELETE(),
                "/project",
                PathMatch::Subpath,
            ),
            rule(
                RuleEffect::Deny,
                Cap::WRITE() | Cap::DELETE() | Cap::CREATE(),
                "/project/.git",
                PathMatch::Subpath,
            ),
        ],
    );

    let caps = caps_of(&policy, "/etc/passwd", "/project");
    assert_eq!(caps, Cap::READ() | Cap::EXECUTE());

    let caps = caps_of(&policy, "/project/src/main.rs", "/project");
    assert_eq!(
        caps,
        Cap::READ() | Cap::WRITE() | Cap::CREATE() | Cap::DELETE() | Cap::EXECUTE()
    );

    let caps = caps_of(&policy, "/project/.git/config", "/project");
    assert_eq!(caps, Cap::READ() | Cap::EXECUTE());
}

#[test]
fn expand_substitutes_from_the_parent() {
    let p = parent_env(&[("HOME", "/home/alice"), ("X", "1")]);
    assert_eq!(EnvPolicy::expand("$HOME/.cargo", &p), "/home/alice/.cargo");
    assert_eq!(EnvPolicy::expand("${HOME}x", &p), "/home/alicex");
    assert_eq!(EnvPolicy::expand("a${X}b$X", &p), "a1b1");
}

#[test]
fn expand_undefined_name_is_empty() {
    let p = parent_env(&[]);
    assert_eq!(EnvPolicy::expand("/pre/$NOPE/post", &p), "/pre//post");
}

#[test]
fn expand_escapes_and_literals() {
    let p = parent_env(&[("X", "1")]);
    assert_eq!(EnvPolicy::expand("$$X", &p), "$X");
    assert_eq!(EnvPolicy::expand("cost: 5$", &p), "cost: 5$");
    assert_eq!(EnvPolicy::expand("$ X", &p), "$ X");
    assert_eq!(EnvPolicy::expand("${UNCLOSED", &p), "${UNCLOSED");
}

#[test]
fn clean_mode_emits_env_dash_i_and_only_named_passthrough() {
    let mut env = EnvPolicy {
        default: EnvDefault::Clean,
        ..Default::default()
    };
    env.inherit.insert("PATH".into());
    env.set.insert("MARK".into(), "1".into());
    let parent = parent_env(&[("PATH", "/usr/bin:/bin"), ("HOME", "/home/alice")]);
    let args = env.to_env_args(&parent);
    assert_eq!(args[0], "/usr/bin/env");
    assert_eq!(args[1], "-i");
    assert!(args.contains(&"MARK=1".to_string()));
    assert!(args.iter().any(|a| a.starts_with("PATH=")));
    assert!(!args.iter().any(|a| a.starts_with("HOME=")));
}

#[test]
fn clean_mode_is_not_empty_even_with_no_edits() {
    let env = EnvPolicy {
        default: EnvDefault::Clean,
        ..Default::default()
    };
    assert!(!env.is_empty(), "a clean environment is itself a change");
    assert_eq!(env.to_env_args(&parent_env(&[])), vec!["/usr/bin/env", "-i"]);
}

/// The environment `env` gives a command run with `args` after its name.
fn run_env(args: &[String], parent: &BTreeMap<String, String>) -> BTreeMap<String, String> {
    let mut env = parent.clone();
    let mut i = 0;
    while i < args.len() && args[i].starts_with('-') {
        if args[i] == "-i" {
            env.clear();
            i += 1;
        } else {
            env.remove(&args[i + 1]);
            i += 2;
        }
    }
    for a in &args[i..] {
        let (k, v) = a.split_once('=').unwrap();
        env.insert(k.to_string(), v.to_string());
    }
    env
}

/// The environment a command plan gives a command spawned from `parent`.
fn run_plan(plan: &EnvCommandPlan, parent: &BTreeMap<String, String>) -> BTreeMap<String, String> {
    let mut env = if plan.clear { BTreeMap::new() } else { parent.clone() };
    for (k, v) in &plan.assignments {
        env.insert(k.clone(), v.clone());
    }
    for k in &plan.removals {
        env.remove(k);
    }
    env
}

#[test]
fn env_args_and_command_plan_give_the_same_environment() {
    let pairs = [("PATH", "/usr/bin"), ("HOME", "/home/alice"), ("TOKEN", "t"), ("LANG", "C")];
    let parent = parent_env(&pairs);
    let parent_map: BTreeMap<String, String> =
        pairs.iter().map(|(k, v)| (k.to_string(), v.to_string())).collect();
    for default in [EnvDefault::Inherit, EnvDefault::Clean] {
        let mut env = EnvPolicy { default, ..Default::default() };
        env.inherit.insert("PATH".into());
        env.inherit.insert("LANG".into());
        env.inherit.insert("TOKEN".into());
        env.set.insert("LANG".into(), "en_US".into());
        env.set.insert("CARGO_HOME".into(), "$HOME/.cargo".into());
        env.set.insert("TOKEN".into(), "x".into());
        env.remove.insert("TOKEN".into());
        let args = env.to_env_args(&parent);
        let via_env = run_env(&args[1..], &parent_map);
        let via_plan = run_plan(&env.command_plan(&parent), &parent_map);
        assert_eq!(via_env, via_plan);
        assert_eq!(via_env.get("CARGO_HOME").map(String::as_str), Some("/home/alice/.cargo"));
        assert_eq!(via_env.get("LANG").map(String::as_str), Some("en_US"));
        assert!(!via_env.contains_key("TOKEN"));
    }
}

#[test]
fn inherit_names_change_nothing_under_inherit() {
    let mut env = EnvPolicy::default();
    env.inherit.insert("PATH".into());
    assert!(env.is_empty());
    assert!(env.to_env_args(&parent_env(&[("PATH", "/bin")])).is_empty());
}

#[test]
fn subpath_rule_needs_a_component_boundary() {
    let p = policy(Cap::READ(), vec![rule(RuleEffect::Allow, Cap::WRITE(), "/data", PathMatch::Subpath)]);
    assert_eq!(caps_of(&p, "/database/x", "/ignored"), Cap::READ());
    assert_eq!(caps_of(&p, "/data", "/ignored"), Cap::READ() | Cap::WRITE());
    assert_eq!(caps_of(&p, "/data/x/y", "/ignored"), Cap::READ() | Cap::WRITE());
    let root = policy(Cap::READ(), vec![rule(RuleEffect::Allow, Cap::WRITE(), "/", PathMatch::Subpath)]);
    assert_eq!(caps_of(&root, "/etc/hosts", "/ignored"), Cap::READ() | Cap::WRITE());
    let children = policy(Cap::READ(), vec![rule(RuleEffect::Allow, Cap::WRITE(), "/", PathMatch::ChildOf)]);
    assert_eq!(caps_of(&children, "/etc", "/ignored"), Cap::READ() | Cap::WRITE());
    assert_eq!(caps_of(&children, "/etc/hosts", "/ignored"), Cap::READ());
}

#[test]
fn added_rules_only_grow_or_shrink_capabilities() {
    let base = vec![
        rule(RuleEffect::Allow, Cap::WRITE(), "/p", PathMatch::Subpath),
        rule(RuleEffect::Deny, Cap::READ(), "/p/q", PathMatch::Subpath),
    ];
    let before = caps_of(&policy(Cap::READ() | Cap::EXECUTE(), base), "/p/q/r", "/ignored");
    for pos in 0..=2 {
        let mut with_allow = vec![
            rule(RuleEffect::Allow, Cap::WRITE(), "/p", PathMatch::Subpath),
            rule(RuleEffect::Deny, Cap::READ(), "/p/q", PathMatch::Subpath),
        ];
        with_allow.insert(pos, rule(RuleEffect::Allow, Cap::DELETE(), "/p", PathMatch::Subpath));
        let after = caps_of(&policy(Cap::READ() | Cap::EXECUTE(), with_allow), "/p/q/r", "/ignored");
        assert!(after.contains(before));
        let mut with_deny = vec![
            rule(RuleEffect::Allow, Cap::WRITE(), "/p", PathMatch::Subpath),
            rule(RuleEffect::Deny, Cap::READ(), "/p/q", PathMatch::Subpath),
        ];
        with_deny.insert(pos, rule(RuleEffect::Deny, Cap::EXECUTE(), "/p/q/r", PathMatch::Literal));
        let after = caps_of(&policy(Cap::READ() | Cap::EXECUTE(), with_deny), "/p/q/r", "/ignored");
        assert!(before.contains(after));
        assert!(!after.contains(Cap::EXECUTE()));
    }
}

#[test]
fn env_args_are_empty_when_nothing_changes() {
    assert!(EnvPolicy::default().to_env_args(&parent_env(&[])).is_empty());
}

#[test]
fn env_args_unset_then_assign() {
    let mut env = EnvPolicy::default();
    env.set.insert("A".into(), "1".into());
    env.remove.insert("B".into());
    let args = env.to_env_args(&parent_env(&[]));
    assert_eq!(args[0], "/usr/bin/env");
    assert!(args.contains(&"-u".to_string()));
    assert!(args.contains(&"B".to_string()));
    assert!(args.contains(&"A=1".to_string()));
}

#[test]
fn removal_wins_over_assignment_for_the_same_name() {
    let mut env = EnvPolicy::default();
    env.set.insert("TOKEN".into(), "secret".into());
    env.remove.insert("TOKEN".into());
    let args = env.to_env_args(&parent_env(&[]));
    assert!(
        !args.iter().any(|a| a.starts_with("TOKEN=")),
        "removed name must not be assigned: {args:?}"
    );
    assert!(args.contains(&"TOKEN".to_string()));
}

#[test]
fn resolve_path_pwd_replacement() {
    let ctx = PathContext::new("/my/project", "/home/tester", "/tmp");
    assert_eq!(SandboxPolicy::resolve_path("$PWD/src", &ctx), "/my/project/src");
}

#[test]
fn resolve_path_home_replacement() {
    let ctx = PathContext::new("/ignored", "/home/tester", "/tmp");
    assert_eq!(SandboxPolicy::resolve_path("$HOME/.config", &ctx), "/home/tester/.config");
}

#[test]
fn resolve_path_tmpdir_replacement() {
    let ctx = PathContext::new("/ignored", "/home/tester", "/custom/tmp");
    assert_eq!(SandboxPolicy::resolve_path("$TMPDIR/scratch", &ctx), "/custom/tmp/scratch");
}

#[test]
fn resolve_path_multiple_vars() {
    let ctx = PathContext::new("/work", "/home/tester", "/var/tmp");
    assert_eq!(
        SandboxPolicy::resolve_path("$PWD:$HOME:$TMPDIR", &ctx),
        "/work:/home/tester:/var/tmp"
    );
}

#[test]
fn resolve_path_no_variables() {
    let ctx = PathContext::new("/ignored", "/home/tester", "/tmp");
    assert_eq!(SandboxPolicy::resolve_path("/usr/local/bin", &ctx), "/usr/local/bin");
}

#[test]
fn effective_caps_regex_path_match() {
    let policy = policy(
        Cap::READ(),
        vec![rule(
            RuleEffect::Allow,
            Cap::WRITE(),
            r"/project/.*\.rs$",
            PathMatch::Regex,
        )],
    );
    let caps = caps_of(&policy, "/project/src/main.rs", "/project");
    assert_eq!(caps, Cap::READ() | Cap::WRITE());

    let caps = caps_of(&policy, "/project/src/main.py", "/project");
    assert_eq!(caps, Cap::READ());
}

#[test]
fn effective_caps_literal_path_match() {
    let policy = policy(
        Cap::READ(),
        vec![rule(RuleEffect::Allow, Cap::WRITE(), "/etc/hosts", PathMatch::Literal)],
    );
    let caps = caps_of(&policy, "/etc/hosts", "/ignored");
    assert_eq!(caps, Cap::READ() | Cap::WRITE());

    let caps = caps_of(&policy, "/etc/hosts/foo", "/ignored");
    assert_eq!(caps, Cap::READ());
}

#[test]
fn effective_caps_allow_wins_at_same_depth() {
    let policy = policy(
        Cap::READ(),
        vec![
            rule(
                RuleEffect::Allow,
                Cap::WRITE() | Cap::CREATE(),
                "/data",
                PathMatch::Subpath,
            ),
            rule(RuleEffect::Deny, Cap::WRITE(), "/data", PathMatch::Subpath),
        ],
    );
    let caps = caps_of(&policy, "/data/file.txt", "/ignored");
    assert_eq!(caps, Cap::READ() | Cap::WRITE() | Cap::CREATE());
}

#[test]
fn effective_caps_multiple_overlapping_rules() {
    let policy = policy(
        Cap::empty() | Cap::READ(),
        vec![
            rule(RuleEffect::Allow, Cap::all(), "/project", PathMatch::Subpath),
            rule(RuleEffect::Deny, Cap::DELETE(), "/project/.git", PathMatch::Subpath),
            rule(
                RuleEffect::Deny,
                Cap::WRITE() | Cap::CREATE(),
                "/project/.git",
                PathMatch::Subpath,
            ),
        ],
    );
    let caps = caps_of(&policy, "/project/src/lib.rs", "/project");
    assert_eq!(caps, Cap::all());

    let caps = caps_of(&policy, "/project/.git/HEAD", "/project");
    assert_eq!(caps, Cap::READ() | Cap::EXECUTE());
}

#[test]
fn effective_caps_default_when_no_rules_match() {
    let policy = policy(
        Cap::READ() | Cap::EXECUTE(),
        vec![rule(RuleEffect::Allow, Cap::WRITE(), "/specific/path", PathMatch::Subpath)],
    );
    let caps = caps_of(&policy, "/unrelated/path", "/ignored");
    assert_eq!(caps, Cap::READ() | Cap::EXECUTE());
}

#[test]
fn effective_caps_deeper_allow_overrides_shallower_deny() {
    let policy = policy(
        Cap::EXECUTE(),
        vec![
            rule(
                RuleEffect::Allow,
                Cap::READ() | Cap::WRITE() | Cap::CREATE(),
                "/Users/eliot/code/project",
                PathMatch::Subpath,
            ),
            rule(RuleEffect::Allow, Cap::READ(), "/Users/eliot", PathMatch::Subpath),
            rule(RuleEffect::Allow, Cap::READ(), "/", PathMatch::Subpath),
            rule(
                RuleEffect::Deny,
                Cap::READ() | Cap::WRITE() | Cap::CREATE() | Cap::DELETE() | Cap::EXECUTE(),
                "/Users",
                PathMatch::Subpath,
            ),
        ],
    );

    let caps = caps_of(&policy, "/Users/eliot/code/project/src/main.rs", "/ignored");
    assert_eq!(caps, Cap::READ() | Cap::WRITE() | Cap::CREATE());

    let caps = caps_of(&policy, "/Users/eliot/.config/foo", "/ignored");
    assert_eq!(caps, Cap::READ());

    let caps = caps_of(&policy, "/etc/passwd", "/ignored");
    assert_eq!(caps, Cap::READ() | Cap::EXECUTE());
}

#[test]
fn expand_worktree_no_worktree_rules_unchanged() {
    let policy = policy(
        Cap::READ() | Cap::EXECUTE(),
        vec![rule(RuleEffect::Allow, Cap::WRITE(), "$PWD", PathMatch::Subpath)],
    );
    // No follow_worktrees rules: unchanged whatever the worktree directories are.
    let worktree_dirs = vec!["/any/path/.git".to_string()];
    let expanded = policy.expand_worktree_rules(&worktree_dirs);
    assert_eq!(expanded.rules.len(), 1);
    let expanded = policy.expand_worktree_rules(&Vec::new());
    assert_eq!(expanded.rules.len(), 1);
}

#[test]
fn expand_worktree_not_in_worktree_unchanged() {
    let mut follow = rule(RuleEffect::Allow, Cap::WRITE(), "$PWD", PathMatch::Subpath);
    follow.follow_worktrees = true;
    let policy = policy(Cap::READ() | Cap::EXECUTE(), vec![follow]);
    // Outside a worktree there are no worktree directories: no expansion.
    let expanded = policy.expand_worktree_rules(&Vec::new());
    assert_eq!(expanded.rules.len(), 1);
}

#[test]
fn expand_worktree_adds_git_dir_rules() {
    let mut follow = rule(
        RuleEffect::Allow,
        Cap::READ() | Cap::WRITE(),
        "$PWD",
        PathMatch::Subpath,
    );
    follow.follow_worktrees = true;
    let policy = policy(
        Cap::READ() | Cap::EXECUTE(),
        vec![
            follow,
            rule(RuleEffect::Deny, Cap::DELETE(), "/etc", PathMatch::Subpath),
        ],
    );
    let dirs = vec![
        "/tmp/x/main-repo/.git/worktrees/feature".to_string(),
        "/tmp/x/main-repo/.git".to_string(),
    ];
    let expanded = policy.expand_worktree_rules(&dirs);
    assert_eq!(expanded.rules.len(), 4);
    for rule in &expanded.rules[2..] {
        assert_eq!(rule.effect, RuleEffect::Allow);
        assert_eq!(rule.caps, Cap::READ() | Cap::WRITE());
        assert_eq!(rule.path_match, PathMatch::Subpath);
        assert!(!rule.follow_worktrees);
    }
    assert_eq!(expanded.rules[2].path, dirs[0]);
    assert_eq!(expanded.rules[3].path, dirs[1]);
    assert_eq!(expanded.rules[1].path, "/etc");
}

#[test]
fn effective_caps_symlink_rule_matches_resolved_query() {
    let policy = policy(
        Cap::READ(),
        vec![rule(RuleEffect::Allow, Cap::WRITE(), "/tmp/t2/link", PathMatch::Subpath)],
    );
    let caps = caps_with_links(&policy, "/tmp/t2/real/file.txt", &LINK_TO_REAL);
    assert!(caps.contains(Cap::WRITE()), "rule on symlink path should match query via resolved path");
}

#[test]
fn effective_caps_resolved_rule_matches_symlink_query() {
    let policy = policy(
        Cap::READ(),
        vec![rule(RuleEffect::Allow, Cap::WRITE(), "/tmp/t2/real", PathMatch::Subpath)],
    );
    let caps = caps_with_links(&policy, "/tmp/t2/link/file.txt", &LINK_TO_REAL);
    assert!(caps.contains(Cap::WRITE()), "rule on real path should match query via symlink");
}

#[test]
fn effective_caps_symlink_deny() {
    let policy = policy(
        Cap::READ() | Cap::WRITE(),
        vec![rule(RuleEffect::Deny, Cap::WRITE(), "/tmp/t2/link", PathMatch::Subpath)],
    );
    let caps = caps_with_links(&policy, "/tmp/t2/real/file.txt", &LINK_TO_REAL);
    assert!(!caps.contains(Cap::WRITE()), "deny on symlink should apply to resolved path");
}

#[test]
fn explain_denial_across_symlink() {
    let policy = policy(
        Cap::READ(),
        vec![rule(RuleEffect::Deny, Cap::READ(), "/tmp/t2/link", PathMatch::Subpath)],
    );
    let ctx = PathContext::new("/ignored", "/home/tester", "/tmp");
    let query = "/tmp/t2/real/secret";
    let (canonical_path, canonical_rules) = canonical_forms(&policy, query, &ctx, &LINK_TO_REAL);
    let explanation = policy.explain_denial(query, &ctx, &canonical_path, &canonical_rules, Cap::READ());
    assert!(explanation.is_some(), "deny on symlink should explain denial for resolved path");
}

/// The system symlinks of macOS.
const MACOS_LINKS: [(&str, &str); 3] = [
    ("/var", "private/var"),
    ("/tmp", "private/tmp"),
    ("/etc", "private/etc"),
];

#[test]
fn effective_caps_macos_var_symlink_duality() {
    let policy = policy(
        Cap::READ(),
        vec![rule(RuleEffect::Allow, Cap::WRITE(), "/var/folders", PathMatch::Subpath)],
    );
    let caps = caps_with_links(&policy, "/private/var/folders/xx/data", &MACOS_LINKS);
    assert!(
        caps.contains(Cap::WRITE()),
        "rule on /var/folders should match query for /private/var/folders/xx/data"
    );
}

#[test]
fn effective_caps_macos_private_rule_matches_symlink_query() {
    let policy = policy(
        Cap::READ(),
        vec![rule(RuleEffect::Allow, Cap::WRITE(), "/private/tmp", PathMatch::Subpath)],
    );
    let caps = caps_with_links(&policy, "/tmp/scratch", &MACOS_LINKS);
    assert!(caps.contains(Cap::WRITE()), "rule on /private/tmp should match query for /tmp/scratch");
}

#[test]
fn effective_caps_deny_clears_unnamed_bits() {
    // Revoking keeps only the named capabilities of the complement, so a
    // matching deny also drops bits no capability names.
    let odd = Cap::from_bits_retain(0b0010_0001);
    let p = policy(odd, vec![rule(RuleEffect::Deny, Cap::WRITE(), "/p", PathMatch::Subpath)]);
    assert_eq!(caps_of(&p, "/p/x", "/ignored"), Cap::READ());
    assert_eq!(caps_of(&p, "/q", "/ignored"), odd);
    let p = policy(
        Cap::READ(),
        vec![
            rule(RuleEffect::Deny, Cap::WRITE(), "/p", PathMatch::Subpath),
            rule(RuleEffect::Allow, Cap::from_bits_retain(0b0100_0000), "/p/q", PathMatch::Subpath),
        ],
    );
    assert_eq!(caps_of(&p, "/p/q/r", "/ignored"), Cap::from_bits_retain(0b0100_0001));
}

#[test]
fn test_violation_action_default_is_stop() {
    let action: ViolationAction = Default::default();
    assert!(matches!(action, ViolationAction::Stop));
    assert!(action.is_default());
    assert!(!ViolationAction::Smart.is_default());
}

#[test]
fn explain_denial_names_the_deepest_deny() {
    let policy = policy(
        Cap::READ(),
        vec![
            rule(RuleEffect::Deny, Cap::READ(), "/secret", PathMatch::Subpath),
            rule(RuleEffect::Deny, Cap::READ() | Cap::WRITE(), "/secret/inner", PathMatch::Subpath),
        ],
    );
    assert_eq!(
        explain(&policy, "/secret/inner/file", "/ignored", Cap::READ()),
        Some("deny rw--- in /secret/inner (subpath)".to_string())
    );
    assert_eq!(explain(&policy, "/public", "/ignored", Cap::READ()), None);
    assert_eq!(
        explain(&policy, "/public", "/ignored", Cap::WRITE()),
        Some("no allow rule grants access to this path".to_string())
    );
}

#[test]
fn effective_caps_child_of_matches_one_level() {
    let policy = policy(
        Cap::empty(),
        vec![rule(RuleEffect::Allow, Cap::READ(), "/data", PathMatch::ChildOf)],
    );
    assert_eq!(caps_of(&policy, "/data/a", "/ignored"), Cap::READ());
    assert_eq!(caps_of(&policy, "/data/a/b", "/ignored"), Cap::empty());
    assert_eq!(caps_of(&policy, "/data", "/ignored"), Cap::empty());
}
