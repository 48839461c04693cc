use clash_sandbox::gitdir::{common_dir_from, normalize_git_path, parse_gitdir_pointer, worktree_dirs, worktree_git_dir};
use clash_sandbox::paths::path_depth_of;
use clash_sandbox::{Cap, NetworkPolicy, StrSet, SymlinkWalk, SystemCap};

#[test]
fn cap_to_list_names_each_set_capability() {
    assert_eq!(Cap::all().to_list(), vec!["read", "write", "create", "delete", "execute"]);
    assert_eq!((Cap::READ() | Cap::CREATE()).to_list(), vec!["read", "create"]);
    assert!(Cap::empty().to_list().is_empty());
}

#[test]
fn cap_parse_single_accepts_names_and_aliases() {
    assert_eq!(Cap::parse_single("read"), Ok(Cap::READ()));
    assert_eq!(Cap::parse_single("execute"), Ok(Cap::EXECUTE()));
    assert_eq!(Cap::parse_single("full"), Ok(Cap::all()));
    assert_eq!(Cap::parse_single("all"), Ok(Cap::all()));
    assert_eq!(
        Cap::parse_single("fly"),
        Err("unknown capability: 'fly'".to_string())
    );
}

#[test]
fn cap_list_roundtrip_and_rejections() {
    let caps = Cap::READ() | Cap::WRITE() | Cap::CREATE();
    let names: Vec<String> = caps.to_list().iter().map(|s| s.to_string()).collect();
    assert_eq!(names, vec!["read", "write", "create"]);
    assert_eq!(Cap::parse_list(&names), Ok(caps));
    assert_eq!(
        Cap::parse_list(&vec![]),
        Err("capability list must not be empty".to_string())
    );
    assert_eq!(
        Cap::parse_list(&vec!["read".to_string(), "nope".to_string()]),
        Err("unknown capability: 'nope'".to_string())
    );
}

#[test]
fn system_cap_names_and_parsing() {
    let both = SystemCap::POWER() | SystemCap::LOCALHOST_SERVE();
    assert_eq!(both.to_list(), vec!["power", "localhost_serve"]);
    assert_eq!(both.display(), "power + localhost_serve");
    assert_eq!(SystemCap::parse_single("power"), Ok(SystemCap::POWER()));
    assert_eq!(
        SystemCap::parse_single("iokit"),
        Err("unknown system capability: 'iokit' (expected \"power\" or \"localhost_serve\")".to_string())
    );
    let dup = vec!["power".to_string(), "power".to_string()];
    assert_eq!(SystemCap::parse_list(&dup), Ok(SystemCap::POWER()));
    assert!(SystemCap::parse_list(&vec![]).unwrap().is_empty());
    assert!(SystemCap::parse_list(&vec!["powr".to_string()]).is_err());
}

#[test]
fn network_policy_names_and_ports() {
    assert!(matches!(NetworkPolicy::from_name("deny"), Some(NetworkPolicy::Deny)));
    assert!(matches!(NetworkPolicy::from_name("allow"), Some(NetworkPolicy::Allow)));
    assert!(matches!(NetworkPolicy::from_name("localhost"), Some(NetworkPolicy::Localhost)));
    assert!(NetworkPolicy::from_name("everything").is_none());
    assert!(matches!(NetworkPolicy::from_localhost_ports(vec![]), NetworkPolicy::Localhost));
    match NetworkPolicy::from_localhost_ports(vec![8080, 3000]) {
        NetworkPolicy::LocalhostPorts(p) => assert_eq!(p, vec![8080, 3000]),
        other => panic!("unexpected {other:?}"),
    }
}

#[test]
fn path_depth_counts_components() {
    assert_eq!(path_depth_of("/"), 1);
    assert_eq!(path_depth_of("/project"), 2);
    assert_eq!(path_depth_of("/project/.git"), 3);
    assert_eq!(path_depth_of("/a//b/"), 3);
    assert_eq!(path_depth_of("./a"), 2);
    assert_eq!(path_depth_of("a/./b"), 2);
    assert_eq!(path_depth_of("/a/../b"), 4);
}

fn walk_without_links(path: &str) -> String {
    let mut w = SymlinkWalk::new(path);
    while w.next_probe().is_some() {}
    w.result()
}

/// Resolve `path` on a filesystem whose only symlinks are `links`
/// (link path, target as read by `read_link`).
fn walk_with_links(path: &str, links: &[(&str, &str)]) -> String {
    let mut w = SymlinkWalk::new(path);
    while let Some(probe) = w.next_probe() {
        if let Some((_, target)) = links.iter().find(|(l, _)| *l == probe) {
            w.found_link(target);
        }
    }
    w.result()
}

/// Resolve `path` on a filesystem whose symlinks are `links` and where the
/// paths in `missing` do not exist.
fn walk_on(path: &str, links: &[(&str, &str)], missing: &[&str]) -> String {
    let mut w = SymlinkWalk::new(path);
    while let Some(probe) = w.next_probe() {
        if let Some((_, target)) = links.iter().find(|(l, _)| *l == probe) {
            w.found_link(target);
        } else if missing.contains(&probe.as_str()) {
            w.found_missing();
        }
    }
    w.result()
}

#[test]
fn resolve_symlinks_unresolvable_parent_returned_as_is() {
    assert_eq!(walk_on("/nonexistent/../x", &[], &["/nonexistent"]), "/nonexistent/../x");
    // Otherwise `..` is passed over: only named components are resolved.
    assert_eq!(walk_on("/usr/local/../bin", &[], &[]), "/usr/local/bin");
    assert_eq!(walk_on("/../etc", &[], &[]), "/etc");
    // A missing last component is kept as it is named.
    assert_eq!(walk_on("/tmp/new-file", &[("/tmp", "private/tmp")], &["/private/tmp/new-file"]), "/private/tmp/new-file");
    // A relative link target is read from the link's directory, its `..`
    // passed over like any other.
    assert_eq!(walk_on("/a/l/f", &[("/a/l", "../b")], &[]), "/a/b/f");
}

/// The system symlinks of macOS.
const MACOS_LINKS: [(&str, &str); 3] = [
    ("/var", "private/var"),
    ("/tmp", "private/tmp"),
    ("/etc", "private/etc"),
];

#[test]
fn resolve_symlinks_follows_real_symlink() {
    let links = [("/tmp/t1/link", "/tmp/t1/target_dir")];
    assert_eq!(walk_with_links("/tmp/t1/link/child", &links), "/tmp/t1/target_dir/child");
}

#[test]
fn resolve_symlinks_macos_var() {
    assert_eq!(walk_with_links("/var/folders/xx", &MACOS_LINKS), "/private/var/folders/xx");
}

#[test]
fn resolve_symlinks_macos_tmp() {
    assert_eq!(walk_with_links("/tmp/build", &MACOS_LINKS), "/private/tmp/build");
}

#[test]
fn resolve_symlinks_macos_etc() {
    assert_eq!(walk_with_links("/etc/hosts", &MACOS_LINKS), "/private/etc/hosts");
}

#[test]
fn resolve_symlinks_macos_exact() {
    assert_eq!(walk_with_links("/var", &MACOS_LINKS), "/private/var");
    assert_eq!(walk_with_links("/tmp", &MACOS_LINKS), "/private/tmp");
    assert_eq!(walk_with_links("/etc", &MACOS_LINKS), "/private/etc");
}

#[test]
fn resolve_symlinks_macos_already_private() {
    assert_eq!(walk_with_links("/private/var/folders", &MACOS_LINKS), "/private/var/folders");
}

#[test]
fn resolve_symlinks_unrelated_path_unchanged() {
    assert_eq!(walk_without_links("/usr/local/bin"), "/usr/local/bin");
}

#[test]
fn resolve_symlinks_nonexistent_path_returned_as_is() {
    assert_eq!(walk_without_links("/nonexistent/made/up/path"), "/nonexistent/made/up/path");
}

#[test]
fn symlink_walk_splices_link_targets() {
    // /tmp/link -> target_dir (relative); query /tmp/link/child
    let mut w = SymlinkWalk::new("/tmp/link/child");
    let mut probes = Vec::new();
    while let Some(p) = w.next_probe() {
        if p == "/tmp/link" {
            w.found_link("target_dir");
        }
        probes.push(p);
    }
    assert_eq!(w.result(), "/tmp/target_dir/child");
    assert_eq!(probes, vec!["/tmp", "/tmp/link", "/tmp/target_dir", "/tmp/target_dir/child"]);

    // An absolute target restarts from the root.
    let mut w = SymlinkWalk::new("/var/folders/xx");
    while let Some(p) = w.next_probe() {
        if p == "/var" {
            w.found_link("private/var");
        }
    }
    assert_eq!(w.result(), "/private/var/folders/xx");

    // A relative path is returned unchanged.
    let mut w = SymlinkWalk::new("relative/path");
    assert!(w.next_probe().is_none());
    assert_eq!(w.result(), "relative/path");
}

#[test]
fn symlink_walk_gives_up_on_loops() {
    let mut w = SymlinkWalk::new("/loop/x");
    let mut n = 0;
    while let Some(p) = w.next_probe() {
        if p == "/loop" {
            w.found_link("/loop");
            n += 1;
        }
    }
    assert_eq!(n, 41);
    assert_eq!(w.result(), "/loop/x");
}

#[test]
fn gitdir_pointer_parsing() {
    assert_eq!(parse_gitdir_pointer("gitdir: /repo/.git/worktrees/f\n"), Ok("/repo/.git/worktrees/f".to_string()));
    assert_eq!(parse_gitdir_pointer("x\r\ngitdir:  rel/dir \r\n"), Ok("rel/dir".to_string()));
    assert_eq!(parse_gitdir_pointer("nothing here"), Err("no 'gitdir:' line found".to_string()));
    assert_eq!(parse_gitdir_pointer("gitdir:   \n"), Err("empty gitdir path".to_string()));
}

#[test]
fn git_paths_normalize_and_join() {
    assert_eq!(normalize_git_path("/a/b/../c/./d"), "/a/c/d");
    assert_eq!(normalize_git_path("a/../../b"), "b");
    assert_eq!(normalize_git_path("/"), "/");
    assert_eq!(
        common_dir_from("/r/.git/worktrees/feature", "../..\n"),
        Some("/r/.git".to_string())
    );
    assert_eq!(common_dir_from("/r/.git/worktrees/feature", "  \n"), None);
    assert_eq!(worktree_git_dir("/work/feature", "/r/.git/worktrees/feature"), "/r/.git/worktrees/feature");
    assert_eq!(worktree_git_dir("/work/feature", "../r/.git"), "/work/r/.git");
    assert_eq!(worktree_dirs("/a".into(), "/a".into()), vec!["/a".to_string()]);
    assert_eq!(worktree_dirs("/a".into(), "/b".into()), vec!["/a".to_string(), "/b".to_string()]);
}

#[test]
fn str_set_keeps_names_sorted_and_unique() {
    let mut s = StrSet::new();
    assert!(s.insert("b".into()));
    assert!(s.insert("a".into()));
    assert!(!s.insert("b".into()));
    assert_eq!(s.len(), 2);
    assert_eq!(s.get(0), "a");
    assert_eq!(s.get(1), "b");
    assert!(s.contains("a"));
    assert!(!s.contains("c"));
}

fn names(list: &[&str]) -> Vec<String> {
    list.iter().map(|s| s.to_string()).collect()
}

#[test]
fn test_cap_serde_roundtrip() {
    let caps = Cap::READ() | Cap::WRITE() | Cap::CREATE();
    let list = caps.to_list();
    assert_eq!(list, vec!["read", "write", "create"]);
    assert_eq!(Cap::parse_list(&names(&list)), Ok(caps));
}

#[test]
fn test_system_cap_serde_roundtrip() {
    let caps = SystemCap::POWER() | SystemCap::LOCALHOST_SERVE();
    let list = caps.to_list();
    assert_eq!(list, vec!["power", "localhost_serve"]);
    assert_eq!(SystemCap::parse_list(&names(&list)), Ok(caps));
}

#[test]
fn test_system_cap_unknown_name_rejected() {
    assert!(SystemCap::parse_list(&names(&["iokit"])).is_err());
}

#[test]
fn test_system_cap_duplicates_collapse() {
    assert_eq!(SystemCap::parse_list(&names(&["power", "power"])), Ok(SystemCap::POWER()));
}

#[test]
fn test_system_cap_empty_list_is_empty() {
    assert!(SystemCap::parse_list(&names(&[])).unwrap().is_empty());
}

#[test]
fn test_sandbox_policy_rejects_unknown_system_cap() {
    let msg = SystemCap::parse_list(&names(&["powr"])).unwrap_err();
    assert!(msg.contains("unknown system capability"), "got: {msg}");
}

#[test]
fn test_network_policy_localhost_ports_empty_is_localhost() {
    assert!(matches!(NetworkPolicy::from_localhost_ports(vec![]), NetworkPolicy::Localhost));
}

#[test]
fn network_policy_names_read_back() {
    for p in [NetworkPolicy::Deny, NetworkPolicy::Allow, NetworkPolicy::Localhost] {
        let name = p.name().unwrap();
        assert_eq!(format!("{:?}", NetworkPolicy::from_name(name).unwrap()), format!("{p:?}"));
    }
    assert_eq!(NetworkPolicy::Deny.name(), Some("deny"));
    assert!(NetworkPolicy::LocalhostPorts(vec![8080]).name().is_none());
    assert!(NetworkPolicy::AllowDomains(vec!["crates.io".into()]).name().is_none());
}
