use clash_sandbox::linux::{
    advisory_filter_syscalls, cap_to_access_fs, deny_filter_socket_families,
    deny_filter_syscalls, landlock_rules, network_filter, sandbox_compat_mode, sandbox_landlock_abi, sandbox_steps, support_level,
    CompatMode, LandlockAbi, NetworkFilter, SandboxStep,
    SocketFamily, Syscall,
};
use clash_sandbox::{
    check_support, Cap, Env, NetworkPolicy, PathContext, PathMatch, RuleEffect, SandboxPolicy,
    SandboxProbe, SandboxRule, SupportLevel, SystemCap, DefaultSandboxProbe,
};

const SERVER_SIDE: [Syscall; 4] = [Syscall::Accept, Syscall::Accept4, Syscall::Bind, Syscall::Listen];

#[test]
fn deny_filter_without_serve_blocks_server_syscalls() {
    let blocked = deny_filter_syscalls(false);
    for sc in SERVER_SIDE {
        assert!(blocked.contains(&sc), "syscall {sc:?} should be blocked");
    }
    for sc in [Syscall::Getsockname, Syscall::Getsockopt, Syscall::Setsockopt] {
        assert!(blocked.contains(&sc), "syscall {sc:?} should be blocked");
    }
}

#[test]
fn deny_filter_with_serve_unblocks_server_syscalls_but_not_outbound() {
    let blocked = deny_filter_syscalls(true);
    for sc in SERVER_SIDE {
        assert!(!blocked.contains(&sc), "localhost_serve must unblock syscall {sc:?}");
    }
    for sc in [Syscall::Connect, Syscall::Sendto, Syscall::Sendmmsg, Syscall::Ptrace] {
        assert!(blocked.contains(&sc), "syscall {sc:?} must stay blocked even when serving");
    }
}

#[test]
fn advisory_filter_serve_toggles_only_server_syscalls() {
    let without = advisory_filter_syscalls(false);
    let with = advisory_filter_syscalls(true);
    for sc in SERVER_SIDE {
        assert!(without.contains(&sc));
        assert!(!with.contains(&sc));
    }
    assert!(without.contains(&Syscall::Ptrace));
    assert!(with.contains(&Syscall::Ptrace));
}

#[test]
fn serve_capability_never_unblocks_ptrace() {
    assert!(deny_filter_syscalls(true).contains(&Syscall::Ptrace));
    assert!(advisory_filter_syscalls(true).contains(&Syscall::Ptrace));
}

#[test]
fn socket_families_open_to_ip_only_when_serving() {
    assert_eq!(deny_filter_socket_families(false), vec![SocketFamily::Unix]);
    assert_eq!(
        deny_filter_socket_families(true),
        vec![SocketFamily::Unix, SocketFamily::Inet, SocketFamily::Inet6]
    );
}

fn bare_policy(network: NetworkPolicy, system: SystemCap) -> SandboxPolicy {
    SandboxPolicy {
        default: Cap::READ() | Cap::EXECUTE(),
        rules: vec![],
        network,
        system,
        env: Default::default(),
        doc: None,
    }
}

#[test]
fn network_filter_follows_the_network_mode() {
    let serve = SystemCap::LOCALHOST_SERVE();
    assert_eq!(
        network_filter(&bare_policy(NetworkPolicy::Deny, serve)),
        NetworkFilter::Deny { localhost_serve: true }
    );
    assert_eq!(
        network_filter(&bare_policy(NetworkPolicy::Localhost, SystemCap::empty())),
        NetworkFilter::Advisory { localhost_serve: false }
    );
    assert_eq!(
        network_filter(&bare_policy(NetworkPolicy::LocalhostPorts(vec![8080]), serve)),
        NetworkFilter::Advisory { localhost_serve: true }
    );
    assert_eq!(
        network_filter(&bare_policy(NetworkPolicy::AllowDomains(vec!["crates.io".into()]), SystemCap::POWER())),
        NetworkFilter::Advisory { localhost_serve: false }
    );
    assert_eq!(
        network_filter(&bare_policy(NetworkPolicy::Allow, serve)),
        NetworkFilter::Unfiltered
    );
}

#[test]
fn sandbox_steps_put_no_new_privs_first_and_exec_last() {
    assert_eq!(
        sandbox_steps(&bare_policy(NetworkPolicy::Deny, SystemCap::empty())),
        vec![
            SandboxStep::SetNoNewPrivs,
            SandboxStep::InstallSeccomp(NetworkFilter::Deny { localhost_serve: false }),
            SandboxStep::InstallLandlock,
            SandboxStep::Exec,
        ]
    );
    assert_eq!(
        sandbox_steps(&bare_policy(NetworkPolicy::Localhost, SystemCap::LOCALHOST_SERVE())),
        vec![
            SandboxStep::SetNoNewPrivs,
            SandboxStep::InstallSeccomp(NetworkFilter::Advisory { localhost_serve: true }),
            SandboxStep::InstallLandlock,
            SandboxStep::Exec,
        ]
    );
    assert_eq!(
        sandbox_steps(&bare_policy(NetworkPolicy::Allow, SystemCap::empty())),
        vec![SandboxStep::SetNoNewPrivs, SandboxStep::InstallLandlock, SandboxStep::Exec]
    );
}

#[test]
fn cap_maps_to_landlock_rights() {
    let a = cap_to_access_fs(Cap::READ());
    assert!(a.read_file && a.read_dir && !a.write_file && !a.execute);
    let w = cap_to_access_fs(Cap::WRITE());
    assert!(w.write_file && w.truncate && w.refer && !w.read_file);
    let c = cap_to_access_fs(Cap::CREATE());
    assert!(c.make_reg && c.make_dir && c.make_sym && c.make_fifo && c.make_sock);
    let d = cap_to_access_fs(Cap::DELETE());
    assert!(d.remove_file && d.remove_dir && !d.make_reg);
    assert!(cap_to_access_fs(Cap::EXECUTE()).execute);
    assert!(cap_to_access_fs(Cap::empty()).is_empty());
}

#[test]
fn landlock_rules_grant_allow_rules_and_skip_deny_and_regex() {
    let mut policy = bare_policy(NetworkPolicy::Deny, SystemCap::empty());
    policy.default = Cap::READ();
    policy.rules = vec![
        SandboxRule { effect: RuleEffect::Allow, caps: Cap::WRITE(), path: "$PWD".into(), path_match: PathMatch::Subpath, follow_worktrees: false, doc: None },
        SandboxRule { effect: RuleEffect::Deny, caps: Cap::WRITE(), path: "/etc".into(), path_match: PathMatch::Subpath, follow_worktrees: false, doc: None },
        SandboxRule { effect: RuleEffect::Allow, caps: Cap::WRITE(), path: ".*".into(), path_match: PathMatch::Regex, follow_worktrees: false, doc: None },
    ];
    let ctx = PathContext::new("/work", "/home/u", "/tmp");
    let rules = landlock_rules(&policy, &ctx);
    assert_eq!(rules.len(), 3);
    assert_eq!(rules[0].0, "/");
    assert!(rules[0].1.read_file && !rules[0].1.write_file);
    assert_eq!(rules[1].0, "/dev/null");
    assert!(rules[1].1.write_file && rules[1].1.truncate && rules[1].1.read_file);
    assert_eq!(rules[2].0, "/work");
    assert!(rules[2].1.write_file && rules[2].1.read_file);
}

#[test]
fn env_prod_constructs() {
    let _env = Env::prod();
}

#[test]
fn default_sandbox_probe_matches_check_support() {
    let direct = check_support();
    let via_env = DefaultSandboxProbe.check_support();
    let same_variant = matches!(
        (&direct, &via_env),
        (SupportLevel::Full, SupportLevel::Full)
            | (SupportLevel::Partial { .. }, SupportLevel::Partial { .. })
            | (SupportLevel::Unsupported { .. }, SupportLevel::Unsupported { .. })
    );
    assert!(same_variant, "trait delegate diverged from direct call");
}

/// A sandbox with `read + execute` by default and the given network and
/// system capabilities.
fn sandbox(network: NetworkPolicy, system: SystemCap) -> SandboxPolicy {
    SandboxPolicy {
        default: Cap::READ() | Cap::EXECUTE(),
        rules: vec![],
        network,
        system,
        env: Default::default(),
        doc: None,
    }
}

/// Whether the seccomp filter the policy calls for leaves a listener on
/// `port` possible: `bind` is not blocked and, under `Deny`, an IP socket
/// may be created. (seccomp cannot see the port.)
fn can_bind(policy: &SandboxPolicy, _port: u16) -> bool {
    match network_filter(policy) {
        NetworkFilter::Unfiltered => true,
        NetworkFilter::Deny { localhost_serve } => {
            !deny_filter_syscalls(localhost_serve).contains(&Syscall::Bind)
                && deny_filter_socket_families(localhost_serve).contains(&SocketFamily::Inet)
        }
        NetworkFilter::Advisory { localhost_serve } => {
            !advisory_filter_syscalls(localhost_serve).contains(&Syscall::Bind)
        }
    }
}

/// Whether the seccomp filter the policy calls for leaves an outbound
/// connection possible.
fn can_connect_out(policy: &SandboxPolicy) -> bool {
    match network_filter(policy) {
        NetworkFilter::Unfiltered => true,
        NetworkFilter::Deny { localhost_serve } => {
            !deny_filter_syscalls(localhost_serve).contains(&Syscall::Connect)
                && deny_filter_socket_families(localhost_serve).contains(&SocketFamily::Inet)
        }
        NetworkFilter::Advisory { localhost_serve } => {
            !advisory_filter_syscalls(localhost_serve).contains(&Syscall::Connect)
        }
    }
}

#[test]
fn binding_requires_the_localhost_serve_capability() {
    assert!(
        !can_bind(&sandbox(NetworkPolicy::Localhost, SystemCap::empty()), 47101),
        "a sandbox without localhost_serve must not be able to listen"
    );
    assert!(
        can_bind(&sandbox(NetworkPolicy::Localhost, SystemCap::LOCALHOST_SERVE()), 47102),
        "localhost_serve must actually permit listening"
    );
}

#[test]
fn serving_survives_a_deny_all_network_policy() {
    assert!(
        !can_bind(&sandbox(NetworkPolicy::Deny, SystemCap::empty()), 47103),
        "net=deny without the capability must not listen"
    );
    assert!(
        can_bind(&sandbox(NetworkPolicy::Deny, SystemCap::LOCALHOST_SERVE()), 47104),
        "net=deny with the capability must still be able to listen"
    );
}

#[test]
fn serving_never_implies_outbound_access() {
    assert!(
        !can_connect_out(&sandbox(NetworkPolicy::Deny, SystemCap::LOCALHOST_SERVE())),
        "outbound must stay blocked when only serving is granted"
    );
}

#[test]
fn declared_ports_are_advisory_on_linux() {
    let json = sandbox(NetworkPolicy::LocalhostPorts(vec![47201]), SystemCap::LOCALHOST_SERVE());
    assert!(can_bind(&json, 47201), "declared port must be bindable");
    assert!(
        can_bind(&json, 47202),
        "documented Linux limitation: the port list does not constrain bind()"
    );
}

#[test]
fn support_level_follows_the_landlock_probe() {
    assert!(matches!(support_level(true), SupportLevel::Full));
    match support_level(false) {
        SupportLevel::Partial { missing } => {
            assert_eq!(missing, vec!["Landlock may not be fully supported on this kernel".to_string()])
        }
        other => panic!("unexpected {other:?}"),
    }
}

#[test]
fn landlock_probe_asks_best_effort_for_abi_v5() {
    assert_eq!(sandbox_compat_mode(), CompatMode::BestEffort);
    assert_eq!(sandbox_landlock_abi(), LandlockAbi::V5);
}
