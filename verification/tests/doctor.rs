//! The diagnostic checklist.

use portmanager::doctor::{checklist, supported, verdict, Facts, Probe};

fn good() -> Facts {
    Facts {
        ssh_config: Ok("hostname 10.0.0.1\n".into()),
        uname: Ok("Linux x86_64\n".into()),
        agent: Ok("/a/agent".into()),
        firewall: Some("active:ufw\n".into()),
        session: Probe::Running {
            state: "connected".into(),
            agent_version: "0.1.0".into(),
            forwards: 2,
        },
        log: Ok("one\r\ntwo\n".into()),
    }
}

#[test]
fn all_is_well() {
    let (lines, failures) = checklist("box", "0.1.0", &good());
    assert_eq!(
        lines,
        vec![
            "diagnosing \"box\"",
            "",
            "  [ok]   ssh config resolves \"box\" -> 10.0.0.1",
            "  [ok]   ssh connect ok; remote uname -sm: Linux x86_64",
            "  [ok]   supported remote target: x86_64-unknown-linux-musl",
            "  [ok]   agent binary available: /a/agent",
            "  [note] Active host firewall: ufw. To allow UDP 60000-61000 on the remote, run there:\n    sudo ufw allow 60000:61000/udp\nCloud security groups / network ACLs (AWS, GCP, Azure, …) are separate and must be opened there too — they can't be seen or changed from inside the host.",
            "  [ok]   running session: connected; agent v0.1.0; 2 forward(s)",
            "",
            "remote agent log (last lines):",
            "  one",
            "  two",
            "",
        ]
    );
    assert_eq!(failures, 0);
    assert_eq!(verdict(0), Ok("all critical checks passed"));
}

#[test]
fn every_failure_counts() {
    let mut f = good();
    f.ssh_config = Err("no ssh".into());
    f.uname = Err("no route".into());
    f.session = Probe::Absent;
    let (lines, failures) = checklist("box", "0.1.0", &f);
    assert_eq!(failures, 2);
    assert_eq!(lines[2], "  [FAIL] ssh -G box failed: no ssh");
    assert_eq!(lines[3], "  [FAIL] ssh connect / uname failed: no route");
    assert!(lines[4].starts_with("  [note] no running local session for this host"));
    assert_eq!(lines.len(), 6);
    assert_eq!(verdict(2), Err("2 critical check(s) failed".into()));
}

#[test]
fn remarks_are_no_failures() {
    let mut f = good();
    f.agent = Err("none".into());
    f.log = Ok(" \n".into());
    let (lines, failures) = checklist("box", "0.2.0", &f);
    assert_eq!(failures, 1);
    assert_eq!(lines[5], "  [FAIL] no agent binary: none");
    assert!(lines[8].starts_with("  [note] agent is v0.1.0 but this client is v0.2.0 — re-run"));
    assert_eq!(lines[9], "  [note] remote agent log is empty");
    f.log = Err("x".into());
    f.session = Probe::Unexpected;
    let (lines, _) = checklist("box", "0.2.0", &f);
    assert_eq!(lines[7], "  [note] running session answered unexpectedly");
    assert!(lines[8].starts_with("  [note] no remote agent log yet"));
    f.firewall = None;
    let (lines, _) = checklist("box", "0.2.0", &f);
    assert!(lines[6].starts_with("  [note] Could not inspect the remote firewall."));
}

#[test]
fn the_agent_is_looked_for_where_the_system_is_supported() {
    let (triple, arch) = supported(&Ok("Linux arm64\n".into())).unwrap();
    assert_eq!((triple, arch.as_str()), ("aarch64-unknown-linux-musl", "arm64"));
    assert!(supported(&Ok("Darwin arm64".into())).is_none());
    assert!(supported(&Err("x".into())).is_none());
}
