//! The decisions of the Linux backend (Landlock + seccomp): which network
//! filter to install, which syscalls it blocks, which socket families stay
//! open, and which Landlock path rules grant which access; and the probe for
//! Landlock support.
use vstd::prelude::*;

use crate::caps::{Cap, SystemCap, CREATE_BIT, DELETE_BIT, EXECUTE_BIT, LOCALHOST_SERVE_BIT, READ_BIT, WRITE_BIT};
use crate::paths::{resolve_vars, PathContext};
use crate::policy::{NetworkPolicy, PathMatch, RuleEffect, SandboxPolicy, SandboxRule};

verus! {

/// A syscall the network filters can block.
#[derive(Debug, Clone, Copy, PartialEq, Eq, Structural)]
pub enum Syscall {
    Connect,
    Getpeername,
    Shutdown,
    Sendto,
    Sendmmsg,
    Recvmmsg,
    Ptrace,
    Accept,
    Accept4,
    Bind,
    Listen,
    Getsockname,
    Getsockopt,
    Setsockopt,
}

/// The syscalls that reach out, plus `ptrace`: blocked by the `Deny`
/// filter whether or not the sandbox may serve.
pub open spec fn outbound_syscalls() -> Seq<Syscall> {
    seq![
        Syscall::Connect,
        Syscall::Getpeername,
        Syscall::Shutdown,
        Syscall::Sendto,
        Syscall::Sendmmsg,
        Syscall::Recvmmsg,
        Syscall::Ptrace,
    ]
}

/// The server-side syscalls.
pub open spec fn server_syscalls() -> Seq<Syscall> {
    seq![Syscall::Accept, Syscall::Accept4, Syscall::Bind, Syscall::Listen]
}

/// The socket introspection a listener needs.
pub open spec fn listener_introspection_syscalls() -> Seq<Syscall> {
    seq![Syscall::Getsockname, Syscall::Getsockopt, Syscall::Setsockopt]
}

/// Syscalls the `Deny` network filter blocks, given the serve capability.
pub fn deny_filter_syscalls(localhost_serve: bool) -> (r: Vec<Syscall>)
    ensures
        r@ == outbound_syscalls() + (if localhost_serve {
            Seq::empty()
        } else {
            server_syscalls() + listener_introspection_syscalls()
        }),
{
    let mut syscalls: Vec<Syscall> = vec![
        Syscall::Connect,
        Syscall::Getpeername,
        Syscall::Shutdown,
        Syscall::Sendto,
        Syscall::Sendmmsg,
        Syscall::Recvmmsg,
        Syscall::Ptrace,
    ];
    if !localhost_serve {
        syscalls.push(Syscall::Accept);
        syscalls.push(Syscall::Accept4);
        syscalls.push(Syscall::Bind);
        syscalls.push(Syscall::Listen);
        syscalls.push(Syscall::Getsockname);
        syscalls.push(Syscall::Getsockopt);
        syscalls.push(Syscall::Setsockopt);
    }
    assert(syscalls@ =~= outbound_syscalls() + (if localhost_serve {
        Seq::empty()
    } else {
        server_syscalls() + listener_introspection_syscalls()
    }));
    syscalls
}

/// Syscalls the advisory (`Localhost`/`LocalhostPorts`/`AllowDomains`)
/// filter blocks, given the serve capability.
pub fn advisory_filter_syscalls(localhost_serve: bool) -> (r: Vec<Syscall>)
    ensures
        r@ == seq![Syscall::Ptrace] + (if localhost_serve {
            Seq::empty()
        } else {
            server_syscalls()
        }),
{
    let mut syscalls: Vec<Syscall> = vec![Syscall::Ptrace];
    if !localhost_serve {
        syscalls.push(Syscall::Accept);
        syscalls.push(Syscall::Accept4);
        syscalls.push(Syscall::Bind);
        syscalls.push(Syscall::Listen);
    }
    assert(syscalls@ =~= seq![Syscall::Ptrace] + (if localhost_serve {
        Seq::empty()
    } else {
        server_syscalls()
    }));
    syscalls
}

/// A socket address family.
#[derive(Debug, Clone, Copy, PartialEq, Eq, Structural)]
pub enum SocketFamily {
    Unix,
    Inet,
    Inet6,
}

/// The socket families the `Deny` filter lets `socket()` and `socketpair()`
/// create: Unix sockets always (for IPC), and the IP families only when the
/// sandbox may serve.
pub fn deny_filter_socket_families(localhost_serve: bool) -> (r: Vec<SocketFamily>)
    ensures
        r@ == seq![SocketFamily::Unix] + (if localhost_serve {
            seq![SocketFamily::Inet, SocketFamily::Inet6]
        } else {
            Seq::empty()
        }),
{
    let mut families: Vec<SocketFamily> = vec![SocketFamily::Unix];
    if localhost_serve {
        families.push(SocketFamily::Inet);
        families.push(SocketFamily::Inet6);
    }
    assert(families@ =~= seq![SocketFamily::Unix] + (if localhost_serve {
        seq![SocketFamily::Inet, SocketFamily::Inet6]
    } else {
        Seq::empty()
    }));
    families
}

/// The seccomp network filter a policy calls for on Linux.
#[derive(Debug, Clone, Copy, PartialEq, Eq, Structural)]
pub enum NetworkFilter {
    /// No filter: unrestricted network.
    Unfiltered,
    /// Block network syscalls and non-Unix sockets (`Deny`).
    Deny { localhost_serve: bool },
    /// Block server-side syscalls only; destinations cannot be filtered by
    /// seccomp, so the rest is advisory (`Localhost`, `LocalhostPorts`,
    /// `AllowDomains`).
    Advisory { localhost_serve: bool },
}

/// The network filter for `network` with the given system capabilities.
pub open spec fn network_filter_spec(network: &NetworkPolicy, system: SystemCap) -> NetworkFilter {
    let serve = system@ & LOCALHOST_SERVE_BIT == LOCALHOST_SERVE_BIT;
    match network {
        NetworkPolicy::Deny => NetworkFilter::Deny { localhost_serve: serve },
        NetworkPolicy::Allow => NetworkFilter::Unfiltered,
        _ => NetworkFilter::Advisory { localhost_serve: serve },
    }
}

/// The seccomp network filter the policy calls for: `localhost_serve`
/// unblocks the server-side syscalls; `Deny` blocks networking; the
/// localhost and domain modes only block serving (advisory); `Allow`
/// installs nothing.
pub fn network_filter(policy: &SandboxPolicy) -> (r: NetworkFilter)
    ensures
        r == network_filter_spec(&policy.network, policy.system),
{
    let localhost_serve = policy.system.contains(SystemCap::LOCALHOST_SERVE());
    match &policy.network {
        NetworkPolicy::Deny => NetworkFilter::Deny { localhost_serve },
        NetworkPolicy::Localhost => NetworkFilter::Advisory { localhost_serve },
        NetworkPolicy::LocalhostPorts(_) => NetworkFilter::Advisory { localhost_serve },
        NetworkPolicy::AllowDomains(_) => NetworkFilter::Advisory { localhost_serve },
        NetworkPolicy::Allow => NetworkFilter::Unfiltered,
    }
}

/// The syscalls a network filter blocks.
pub open spec fn filter_blocks(filter: NetworkFilter) -> Seq<Syscall> {
    match filter {
        NetworkFilter::Unfiltered => Seq::empty(),
        NetworkFilter::Deny { localhost_serve } => outbound_syscalls() + (if localhost_serve {
            Seq::empty()
        } else {
            server_syscalls() + listener_introspection_syscalls()
        }),
        NetworkFilter::Advisory { localhost_serve } => seq![Syscall::Ptrace] + (if localhost_serve {
            Seq::empty()
        } else {
            server_syscalls()
        }),
    }
}

/// One step of entering the sandbox.
#[derive(Debug, Clone, Copy, PartialEq, Eq, Structural)]
pub enum SandboxStep {
    /// `prctl(PR_SET_NO_NEW_PRIVS)`: setuid binaries gain nothing.
    SetNoNewPrivs,
    /// Install the given seccomp network filter.
    InstallSeccomp(NetworkFilter),
    /// Install the Landlock ruleset of [`landlock_rules`].
    InstallLandlock,
    /// Replace the process with the command.
    Exec,
}

/// The steps of entering the sandbox for a policy, in order.
pub open spec fn sandbox_steps_spec(network: &NetworkPolicy, system: SystemCap) -> Seq<SandboxStep> {
    let filter = network_filter_spec(network, system);
    if filter == NetworkFilter::Unfiltered {
        seq![SandboxStep::SetNoNewPrivs, SandboxStep::InstallLandlock, SandboxStep::Exec]
    } else {
        seq![
            SandboxStep::SetNoNewPrivs,
            SandboxStep::InstallSeccomp(filter),
            SandboxStep::InstallLandlock,
            SandboxStep::Exec,
        ]
    }
}

/// The steps of running a command under the policy: no-new-privileges
/// first (it must precede seccomp and Landlock), then the network filter
/// the policy calls for (none for `Allow`), then Landlock, then the exec.
/// The caller performs them in order and stops at the first failure.
pub fn sandbox_steps(policy: &SandboxPolicy) -> (r: Vec<SandboxStep>)
    ensures
        r@ == sandbox_steps_spec(&policy.network, policy.system),
        r@.len() >= 3,
        r@[0] == SandboxStep::SetNoNewPrivs,
        r@.last() == SandboxStep::Exec,
        forall|i: int| 0 < i < r@.len() ==> r@[i] != SandboxStep::SetNoNewPrivs,
{
    let mut steps: Vec<SandboxStep> = vec![SandboxStep::SetNoNewPrivs];
    let filter = network_filter(policy);
    if filter != NetworkFilter::Unfiltered {
        steps.push(SandboxStep::InstallSeccomp(filter));
    }
    steps.push(SandboxStep::InstallLandlock);
    steps.push(SandboxStep::Exec);
    assert(steps@ =~= sandbox_steps_spec(&policy.network, policy.system));
    steps
}

/// A set of Landlock filesystem access rights.
#[derive(Debug, Clone, Copy, PartialEq, Eq, Structural)]
pub struct FsAccess {
    pub execute: bool,
    pub write_file: bool,
    pub read_file: bool,
    pub read_dir: bool,
    pub remove_dir: bool,
    pub remove_file: bool,
    pub make_dir: bool,
    pub make_reg: bool,
    pub make_sock: bool,
    pub make_fifo: bool,
    pub make_sym: bool,
    pub refer: bool,
    pub truncate: bool,
}

/// The access rights a capability set maps to: read gives file reads and
/// directory listing; write gives file writes, truncation and refer; create
/// gives making regular files, directories, symlinks, fifos and sockets;
/// delete gives removing files and directories; execute gives execute.
pub open spec fn access_for(bits: u8) -> FsAccess {
    let read = bits & READ_BIT == READ_BIT;
    let write = bits & WRITE_BIT == WRITE_BIT;
    let create = bits & CREATE_BIT == CREATE_BIT;
    let delete = bits & DELETE_BIT == DELETE_BIT;
    let exec = bits & EXECUTE_BIT == EXECUTE_BIT;
    FsAccess {
        execute: exec,
        write_file: write,
        read_file: read,
        read_dir: read,
        remove_dir: delete,
        remove_file: delete,
        make_dir: create,
        make_reg: create,
        make_sock: create,
        make_fifo: create,
        make_sym: create,
        refer: write,
        truncate: write,
    }
}

/// The rights in either set.
pub open spec fn access_union(a: FsAccess, b: FsAccess) -> FsAccess {
    FsAccess {
        execute: a.execute || b.execute,
        write_file: a.write_file || b.write_file,
        read_file: a.read_file || b.read_file,
        read_dir: a.read_dir || b.read_dir,
        remove_dir: a.remove_dir || b.remove_dir,
        remove_file: a.remove_file || b.remove_file,
        make_dir: a.make_dir || b.make_dir,
        make_reg: a.make_reg || b.make_reg,
        make_sock: a.make_sock || b.make_sock,
        make_fifo: a.make_fifo || b.make_fifo,
        make_sym: a.make_sym || b.make_sym,
        refer: a.refer || b.refer,
        truncate: a.truncate || b.truncate,
    }
}

/// Whether no right is in the set.
pub open spec fn access_is_empty(a: FsAccess) -> bool {
    !(a.execute || a.write_file || a.read_file || a.read_dir || a.remove_dir || a.remove_file
        || a.make_dir || a.make_reg || a.make_sock || a.make_fifo || a.make_sym || a.refer
        || a.truncate)
}

/// The rights always granted on `/dev/null`: write, truncate and read.
pub open spec fn dev_null_access() -> FsAccess {
    FsAccess {
        execute: false,
        write_file: true,
        read_file: true,
        read_dir: false,
        remove_dir: false,
        remove_file: false,
        make_dir: false,
        make_reg: false,
        make_sock: false,
        make_fifo: false,
        make_sym: false,
        refer: false,
        truncate: true,
    }
}

impl FsAccess {
    /// The rights in either set.
    pub fn union(self, other: FsAccess) -> (r: FsAccess)
        ensures
            r == access_union(self, other),
    {
        FsAccess {
            execute: self.execute || other.execute,
            write_file: self.write_file || other.write_file,
            read_file: self.read_file || other.read_file,
            read_dir: self.read_dir || other.read_dir,
            remove_dir: self.remove_dir || other.remove_dir,
            remove_file: self.remove_file || other.remove_file,
            make_dir: self.make_dir || other.make_dir,
            make_reg: self.make_reg || other.make_reg,
            make_sock: self.make_sock || other.make_sock,
            make_fifo: self.make_fifo || other.make_fifo,
            make_sym: self.make_sym || other.make_sym,
            refer: self.refer || other.refer,
            truncate: self.truncate || other.truncate,
        }
    }

    /// Whether no right is in the set.
    pub fn is_empty(&self) -> (r: bool)
        ensures
            r == access_is_empty(*self),
    {
        !(self.execute || self.write_file || self.read_file || self.read_dir || self.remove_dir
            || self.remove_file || self.make_dir || self.make_reg || self.make_sock
            || self.make_fifo || self.make_sym || self.refer || self.truncate)
    }
}

/// Map capability flags to Landlock access rights.
pub fn cap_to_access_fs(caps: Cap) -> (r: FsAccess)
    ensures
        r == access_for(caps@),
{
    let read = caps.contains(Cap::READ());
    let write = caps.contains(Cap::WRITE());
    let create = caps.contains(Cap::CREATE());
    let delete = caps.contains(Cap::DELETE());
    let exec = caps.contains(Cap::EXECUTE());
    FsAccess {
        execute: exec,
        write_file: write,
        read_file: read,
        read_dir: read,
        remove_dir: delete,
        remove_file: delete,
        make_dir: create,
        make_reg: create,
        make_sock: create,
        make_fifo: create,
        make_sym: create,
        refer: write,
        truncate: write,
    }
}

/// The Landlock grants for the rules: for each allow rule that is not a
/// regex rule, in order, its expanded path with its rights merged with the
/// default rights, when that is not empty. Deny rules grant nothing, since
/// Landlock denies whatever is not granted.
pub open spec fn rule_grants(
    rules: Seq<SandboxRule>,
    default_access: FsAccess,
    cwd: Seq<char>,
    home: Seq<char>,
    tmpdir: Seq<char>,
) -> Seq<(Seq<char>, FsAccess)>
    decreases rules.len(),
{
    if rules.len() == 0 {
        Seq::empty()
    } else {
        let r = rules.last();
        let total = access_union(access_for(r.caps@), default_access);
        rule_grants(rules.drop_last(), default_access, cwd, home, tmpdir) + (if r.path_match
            != PathMatch::Regex && r.effect == RuleEffect::Allow && !access_is_empty(total) {
            seq![(resolve_vars(r.path@, cwd, home, tmpdir), total)]
        } else {
            Seq::empty()
        })
    }
}

/// The views of a list of grants.
pub open spec fn grant_views(v: Seq<(String, FsAccess)>) -> Seq<(Seq<char>, FsAccess)> {
    v.map_values(|g: (String, FsAccess)| (g.0@, g.1))
}

/// The Landlock path rules for a policy, in the order they are added:
/// read/execute-style default rights on `/` (when there are any), write,
/// truncate and read on `/dev/null`, then the grants of the rules.
pub fn landlock_rules(policy: &SandboxPolicy, ctx: &PathContext) -> (r: Vec<(String, FsAccess)>)
    ensures
        grant_views(r@) == (if access_is_empty(access_for(policy.default@)) {
            Seq::empty()
        } else {
            seq![(seq!['/'], access_for(policy.default@))]
        }) + seq![("/dev/null"@, dev_null_access())] + rule_grants(
            policy.rules@,
            access_for(policy.default@),
            ctx.cwd@,
            ctx.home@,
            ctx.tmpdir@,
        ),
{
    let default_access = cap_to_access_fs(policy.default);
    let mut out: Vec<(String, FsAccess)> = Vec::new();
    if !default_access.is_empty() {
        let mut root = String::new();
        crate::text::push_char(&mut root, '/');
        out.push((root, default_access));
    }
    let dev_null = FsAccess {
        execute: false,
        write_file: true,
        read_file: true,
        read_dir: false,
        remove_dir: false,
        remove_file: false,
        make_dir: false,
        make_reg: false,
        make_sock: false,
        make_fifo: false,
        make_sym: false,
        refer: false,
        truncate: true,
    };
    out.push(("/dev/null".to_owned(), dev_null));
    let ghost head = grant_views(out@);
    assert(head =~= (if access_is_empty(access_for(policy.default@)) {
        Seq::empty()
    } else {
        seq![(seq!['/'], access_for(policy.default@))]
    }) + seq![("/dev/null"@, dev_null_access())]);
    let mut i: usize = 0;
    while i < policy.rules.len()
        invariant
            i <= policy.rules@.len(),
            default_access == access_for(policy.default@),
            grant_views(out@) == head + rule_grants(
                policy.rules@.take(i as int),
                default_access,
                ctx.cwd@,
                ctx.home@,
                ctx.tmpdir@,
            ),
        decreases policy.rules.len() - i,
    {
        let rule = &policy.rules[i];
        assert(policy.rules@.take(i + 1).drop_last() =~= policy.rules@.take(i as int));
        assert(policy.rules@.take(i + 1).last() == *rule);
        let is_regex = match rule.path_match {
            PathMatch::Regex => true,
            _ => false,
        };
        let is_allow = match rule.effect {
            RuleEffect::Allow => true,
            RuleEffect::Deny => false,
        };
        let ghost before = out@;
        if !is_regex && is_allow {
            let total = cap_to_access_fs(rule.caps).union(default_access);
            if !total.is_empty() {
                let resolved = SandboxPolicy::resolve_path(rule.path.as_str(), ctx);
                out.push((resolved, total));
                assert(grant_views(out@) =~= grant_views(before).push((resolve_vars(rule.path@, ctx.cwd@, ctx.home@, ctx.tmpdir@), total)));
            }
        }
        assert(grant_views(out@) =~= head + rule_grants(
            policy.rules@.take(i + 1),
            default_access,
            ctx.cwd@,
            ctx.home@,
            ctx.tmpdir@,
        ));
        i = i + 1;
    }
    assert(policy.rules@.take(policy.rules@.len() as int) =~= policy.rules@);
    out
}

/// How well the running kernel supports sandboxing.
#[derive(Debug)]
pub enum SupportLevel {
    /// Every restriction is enforced.
    Full,
    /// Some restrictions may not be enforced.
    Partial { missing: Vec<String> },
    /// Sandboxing is not available.
    Unsupported { reason: String },
}

/// Landlock's ruleset builder, `landlock::Ruleset`, held opaque.
#[verifier::external_type_specification]
#[verifier::external_body]
pub struct ExRuleset(landlock::Ruleset);

/// Landlock's error, `landlock::RulesetError`, held opaque.
#[verifier::external_type_specification]
#[verifier::external_body]
pub struct ExRulesetError(landlock::RulesetError);

/// How strictly Landlock has to provide the requested restrictions.
#[derive(Debug, Clone, Copy, PartialEq, Eq, Structural)]
pub enum CompatMode {
    /// Use what the kernel supports and drop the rest.
    BestEffort,
    /// Drop unsupported restrictions only where the kernel lacks Landlock.
    SoftRequirement,
    /// Fail when a restriction is not supported.
    HardRequirement,
}

/// A Landlock ABI version.
#[derive(Debug, Clone, Copy, PartialEq, Eq, Structural)]
pub enum LandlockAbi {
    V1,
    V2,
    V3,
    V4,
    V5,
    V6,
    V7,
    V8,
    V9,
}

/// The compatibility mode the sandbox asks Landlock for: best effort, so
/// that an older kernel enforces what it can.
pub fn sandbox_compat_mode() -> (r: CompatMode)
    ensures
        r == CompatMode::BestEffort,
{
    CompatMode::BestEffort
}

/// The Landlock ABI whose filesystem rights the sandbox handles: V5.
pub fn sandbox_landlock_abi() -> (r: LandlockAbi)
    ensures
        r == LandlockAbi::V5,
{
    LandlockAbi::V5
}

/// `landlock::Ruleset::default()`: a ruleset builder; it probes the running
/// kernel for Landlock support. Nothing is claimed of the result.
#[verifier::external_body]
fn landlock_ruleset() -> (r: landlock::Ruleset) {
    <landlock::Ruleset as Default>::default()
}

/// `Compatible::set_compatibility` on a ruleset builder, with the
/// `landlock::CompatLevel` that `mode` names. Nothing is claimed of the
/// result.
#[verifier::external_body]
fn landlock_set_compat(r: landlock::Ruleset, mode: CompatMode) -> (s: landlock::Ruleset) {
    let level = match mode {
        CompatMode::BestEffort => landlock::CompatLevel::BestEffort,
        CompatMode::SoftRequirement => landlock::CompatLevel::SoftRequirement,
        CompatMode::HardRequirement => landlock::CompatLevel::HardRequirement,
    };
    landlock::Compatible::set_compatibility(r, level)
}

/// `RulesetAttr::handle_access` with every filesystem right of the
/// `landlock::ABI` that `abi` names (`AccessFs::from_all`). Whether it
/// succeeds depends on the running kernel, so nothing is claimed of the
/// result.
#[verifier::external_body]
fn landlock_handle_fs(r: landlock::Ruleset, abi: LandlockAbi) -> (s: Result<landlock::Ruleset, landlock::RulesetError>) {
    let abi = match abi {
        LandlockAbi::V1 => landlock::ABI::V1,
        LandlockAbi::V2 => landlock::ABI::V2,
        LandlockAbi::V3 => landlock::ABI::V3,
        LandlockAbi::V4 => landlock::ABI::V4,
        LandlockAbi::V5 => landlock::ABI::V5,
        LandlockAbi::V6 => landlock::ABI::V6,
        LandlockAbi::V7 => landlock::ABI::V7,
        LandlockAbi::V8 => landlock::ABI::V8,
        LandlockAbi::V9 => landlock::ABI::V9,
    };
    landlock::RulesetAttr::handle_access(r, <landlock::AccessFs as landlock::Access>::from_all(abi))
}

/// The message for a kernel whose Landlock support is partial.
pub open spec fn partial_landlock_message() -> Seq<char> {
    "Landlock may not be fully supported on this kernel"@
}

/// The support level a Landlock probe reports: full when a best-effort
/// ruleset accepted every filesystem right of ABI V5, partial otherwise.
pub fn support_level(accepts_all_rights: bool) -> (r: SupportLevel)
    ensures
        accepts_all_rights ==> r is Full,
        !accepts_all_rights ==> (r matches SupportLevel::Partial { missing } && missing@.len() == 1
            && missing@[0]@ == partial_landlock_message()),
{
    if accepts_all_rights {
        SupportLevel::Full
    } else {
        let mut missing: Vec<String> = Vec::new();
        missing.push("Landlock may not be fully supported on this kernel".to_owned());
        SupportLevel::Partial { missing }
    }
}

/// Check if the current kernel supports sandboxing: full when a Landlock
/// ruleset in the sandbox's compatibility mode ([`sandbox_compat_mode`])
/// accepts every filesystem right of the sandbox's ABI
/// ([`sandbox_landlock_abi`]), partial otherwise. Which one depends on the
/// running kernel.
pub fn check_support() -> (r: SupportLevel)
    ensures
        r is Full || (r matches SupportLevel::Partial { missing } && missing@.len() == 1
            && missing@[0]@ == partial_landlock_message()),
{
    let ruleset = landlock_set_compat(landlock_ruleset(), sandbox_compat_mode());
    let accepted = match landlock_handle_fs(ruleset, sandbox_landlock_abi()) {
        Ok(_) => true,
        Err(_) => false,
    };
    support_level(accepted)
}

} // verus!
