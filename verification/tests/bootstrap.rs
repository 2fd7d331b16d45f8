//! Bringing up an agent.

use portmanager::bootstrap::{
    agent_candidates, agent_override, default_timing, deploy_next, dist_caches, gc_command,
    join_path, launch_args, parent_dir, pick_agent, remote_arch, remote_path, report_lines,
    same_path, script_args, short_hash, ssh_hostname, target_dir, target_triple, AgentSession,
    DeployNext, DeployPhase, TunnelSession, REAP_SCRIPT,
};
use portmanager::crypto::{Fingerprint, Identity, Timing};
use portmanager::handshake::{Ready, SessionId, Token};

#[test]
fn triple_mapping() {
    assert_eq!(
        target_triple("Linux x86_64").unwrap(),
        "x86_64-unknown-linux-musl"
    );
    assert_eq!(
        target_triple("Linux aarch64").unwrap(),
        "aarch64-unknown-linux-musl"
    );
    assert_eq!(
        target_triple("Linux arm64").unwrap(),
        "aarch64-unknown-linux-musl"
    );
}

#[test]
fn triple_rejects_unsupported() {
    assert!(target_triple("Darwin arm64").is_err());
    assert!(target_triple("Linux riscv64").is_err());
    assert!(target_triple("").is_err());
}

#[test]
fn unsupported_machines_are_named() {
    assert_eq!(
        target_triple("Darwin arm64").unwrap_err().message(),
        "unsupported remote OS \"Darwin\"; v1 agents are Linux-only"
    );
    assert_eq!(
        target_triple("Linux riscv64").unwrap_err().message(),
        "unsupported remote arch \"riscv64\"; v1 supports x86_64 and aarch64"
    );
    assert_eq!(remote_arch("Linux x86_64\n"), "x86_64");
    assert_eq!(remote_arch("Linux"), "");
}

/// A symlink install (`~/.local/bin/portmanager` -> a package dir) must also
/// look beside the *resolved* binary, where the package's `agents/` lives.
#[test]
fn candidates_follow_the_symlink_target() {
    let exe = "/home/u/.local/bin/portmanager";
    let real = "/src/pm/dist/portmanager-x/portmanager";
    let caches = vec![
        "/home/u/.cache/portmanager/dist".to_string(),
        "/home/u/Library/Caches/portmanager/dist".to_string(),
    ];
    let got = agent_candidates(exe, Some(real), &caches, "x86_64-unknown-linux-musl");
    assert_eq!(
        got,
        vec![
            "/home/u/.local/bin/agents/agent-x86_64-unknown-linux-musl",
            "/home/u/.local/bin/agent-x86_64-unknown-linux-musl",
            "/src/pm/dist/portmanager-x/agents/agent-x86_64-unknown-linux-musl",
            "/src/pm/dist/portmanager-x/agent-x86_64-unknown-linux-musl",
            "/home/u/.cache/portmanager/dist/agent-x86_64-unknown-linux-musl",
            "/home/u/Library/Caches/portmanager/dist/agent-x86_64-unknown-linux-musl",
        ]
    );
}

/// Both cache layouts are searched, XDG first, and never duplicated when
/// the platform cache dir is the XDG one (Linux).
#[test]
fn dist_caches_prefers_xdg_without_duplicates() {
    let base = directories::BaseDirs::new().unwrap();
    let home = base.home_dir().to_str().unwrap();
    let platform = base.cache_dir().to_str().unwrap();
    let caches = dist_caches(None, Some(home), Some(platform));
    assert!(!caches.is_empty());
    assert!(caches[0].ends_with("portmanager/dist"));
    let mut sorted = caches.clone();
    sorted.sort();
    sorted.dedup();
    assert_eq!(
        sorted.len(),
        caches.len(),
        "duplicate cache dirs: {caches:?}"
    );
}

#[test]
fn the_platform_cache_comes_second() {
    assert_eq!(
        dist_caches(None, Some("/Users/u"), Some("/Users/u/Library/Caches")),
        vec![
            "/Users/u/.cache/portmanager/dist",
            "/Users/u/Library/Caches/portmanager/dist",
        ]
    );
    assert_eq!(
        dist_caches(Some("/var/cache"), Some("/home/u"), Some("/var//cache/")),
        vec!["/var/cache/portmanager/dist"]
    );
    // A relative configured directory does not count.
    assert_eq!(
        dist_caches(Some("cache"), Some("/home/u"), None),
        vec!["/home/u/.cache/portmanager/dist"]
    );
    assert!(dist_caches(None, None, None).is_empty());
}

/// Dev builds resolve through the `target/` ancestor, last.
#[test]
fn candidates_include_the_dev_target_dir() {
    let exe = "/src/pm/target/release/portmanager";
    let got = agent_candidates(exe, None, &vec![], "aarch64-unknown-linux-musl");
    assert_eq!(
        got.last().unwrap(),
        "/src/pm/target/aarch64-unknown-linux-musl/release/portmanager"
    );
}

#[test]
fn paths_are_shown_as_they_are_given() {
    let got = agent_candidates(
        "/opt//pm/./bin//portmanager",
        Some("/src/./pm//target/release/portmanager"),
        &vec!["/var//cache/".to_string()],
        "t",
    );
    assert_eq!(
        got,
        vec![
            "/opt//pm/./bin/agents/agent-t",
            "/opt//pm/./bin/agent-t",
            "/src/./pm//target/release/agents/agent-t",
            "/src/./pm//target/release/agent-t",
            "/var//cache/agent-t",
            "/src/./pm//target/t/release/portmanager",
        ]
    );
    assert_eq!(
        dist_caches(Some("/var//cache/./"), None, None),
        vec!["/var//cache/./portmanager/dist"]
    );
}

#[test]
fn paths_come_apart_as_the_standard_library_takes_them() {
    for path in [
        "", "/", "//", ".", "./", "..", "/..", "/.", "a", "/a", "//a", "./a", "/./a", "a/./b",
        "a//b/c", "a/b/", "a/b/.", "/a/b/./", ".a/b", "a/..", "/target", "target/", "/x/target/./",
        "/target/x/target/y", "/x//target/./z/", "./target", "/x/target/..", "targets/a",
    ] {
        let std = std::path::Path::new(path);
        assert_eq!(
            parent_dir(path),
            std.parent().map(|p| p.to_str().unwrap().to_string()),
            "parent of {path:?}"
        );
        assert_eq!(
            target_dir(path),
            std.ancestors()
                .find(|a| a.file_name().map(|n| n == "target").unwrap_or(false))
                .map(|p| p.to_str().unwrap().to_string()),
            "target of {path:?}"
        );
        for name in ["x", "x/y", "/x", ".cache", ""] {
            assert_eq!(join_path(path, name), std.join(name).to_str().unwrap());
        }
        for other in ["a/b", "/a", ".", "/", "", "a/./b", "target", "/x/target"] {
            assert_eq!(
                same_path(path, other),
                std == std::path::Path::new(other),
                "{path:?} and {other:?}"
            );
        }
    }
}

#[test]
fn the_first_binary_that_is_there_is_taken() {
    let tried = vec!["/a".to_string(), "/b".to_string()];
    let pick = |present: Vec<bool>, remote: &str| {
        pick_agent("/exe", &tried, &present, "t", remote, "x86_64")
    };
    assert_eq!(pick(vec![false, true], "aarch64").unwrap(), "/b");
    assert_eq!(pick(vec![false, false], "x86_64").unwrap(), "/exe");
    let e = pick(vec![false, false], "aarch64").unwrap_err();
    assert!(e.starts_with(
        "no agent binary for t (remote arch aarch64, local x86_64).\nsearched:\n  /a\n  /b\nfix: "
    ));
    assert!(e.contains("point PORTMANAGER_AGENT_BIN at an agent-t, or install"));
}

#[test]
fn the_remote_name_holds_the_hash() {
    let short = short_hash(&b"abc".to_vec());
    assert_eq!(short, "ba7816bf8f01");
    assert_eq!(remote_path("t", &short), ".cache/portmanager/agent-t-ba7816bf8f01");
    assert_eq!(
        gc_command("t", "k"),
        "find .cache/portmanager -maxdepth 1 -type f -name 'agent-t-*' \
         ! -name 'agent-t-k' -delete 2>/dev/null || true"
    );
}

#[test]
fn deploying_runs_its_course() {
    let mut phase = DeployPhase::Checking;
    assert_eq!(deploy_next(phase, true), DeployNext::Deployed);
    let mut seen = vec![phase];
    let mut ok = false;
    while let DeployNext::Go(next) = deploy_next(phase, ok) {
        phase = next;
        ok = true;
        seen.push(phase);
    }
    assert_eq!(
        seen,
        vec![
            DeployPhase::Checking,
            DeployPhase::MakingDir,
            DeployPhase::Copying,
            DeployPhase::Installing,
        ]
    );
    assert_eq!(deploy_next(phase, true), DeployNext::Deployed);
    assert_eq!(
        deploy_next(DeployPhase::Copying, false),
        DeployNext::Failed(DeployPhase::Copying)
    );
    assert_eq!(DeployPhase::Copying.failure(), "scp of agent binary failed");
    let (program, args) = DeployPhase::Copying.command("h", "/exe", "p");
    assert_eq!((program, args), ("scp", vec!["-q".into(), "/exe".into(), "h:p.tmp".into()]));
    let (_, args) = DeployPhase::Installing.command("h", "/exe", "p");
    assert_eq!(args[1], "chmod +x p.tmp && mv p.tmp p");
    let (_, args) = DeployPhase::Checking.command("h", "/exe", "p");
    assert_eq!(args, vec!["-o", "ConnectTimeout=10", "h", "test -x p"]);
}

#[test]
fn the_agent_is_launched_as_asked() {
    assert_eq!(
        launch_args("h", "p", Some("0.0.0.0:60000"), 43200, 2),
        vec![
            "-o", "ConnectTimeout=10", "h", "p", "agent", "--listen", "0.0.0.0:60000",
            "--grace-secs", "43200", "-v", "-v",
        ]
    );
    assert_eq!(
        launch_args("h", "p", None, 1, 0),
        vec![
            "-o", "ConnectTimeout=10", "h", "p", "agent", "--listen", "127.0.0.1:0", "--tunnel",
            "--grace-secs", "1",
        ]
    );
    assert_eq!(
        script_args("h", Some("0.1.0")),
        vec!["-o", "ConnectTimeout=10", "h", "sh", "-s", "--", "0.1.0"]
    );
    assert_eq!(script_args("h", None).len(), 5);
    assert!(REAP_SCRIPT.contains("s/.*\"pid\":\\([0-9][0-9]*\\).*/\\1/p"));
    assert_eq!(report_lines("\n reaped one \n\nreaped two\n"), vec!["reaped one", "reaped two"]);
}

#[test]
fn the_host_name_comes_from_the_configuration() {
    assert_eq!(ssh_hostname("user u\nhostname  10.0.0.1 \nport 22\n", "box"), "10.0.0.1");
    assert_eq!(ssh_hostname("port 22\n", "box"), "box");
}

#[test]
fn sessions_are_made_from_the_answer() {
    let ready = |port: u16| Ready {
        udp_port: port,
        agent_fp: Fingerprint::of(&b"cert".to_vec()),
        session_id: SessionId::random().unwrap(),
        version: "0.1.0".into(),
    };
    let id = Identity::from_parts(b"c".to_vec(), b"k".to_vec());
    let s = AgentSession::from_ready("10.0.0.1", ready(60001), id, Token::from_bytes([1; 32]));
    assert_eq!(s.quic_target, "10.0.0.1:60001");
    assert_eq!(s.agent_version, "0.1.0");
    let t = TunnelSession::from_ready(ready(40000), Token::from_bytes([1; 32]));
    assert_eq!(t.tcp_port, 40000);
    assert_eq!(default_timing(), Timing::default());
}

#[test]
fn an_agent_asked_for_must_be_there() {
    assert_eq!(agent_override("/a/b", true), Ok("/a/b".to_string()));
    assert_eq!(
        agent_override("/a/b", false),
        Err("PORTMANAGER_AGENT_BIN=/a/b does not exist".to_string())
    );
}
