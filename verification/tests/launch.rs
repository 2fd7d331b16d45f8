//! How a session starts.

use portmanager::cli::RunArgs;
use portmanager::client::Origin;
use portmanager::config::{AutoForwardRule, Config, HostState, NamedProfile, PersistTarget, Profile};
use portmanager::forward::NsSpec;
use portmanager::launch::{
    already_running, announcement, daemon_host, daemon_step, idle_warning, plan_profile, plan_state,
    sits_idle, transport_notice, via_memory, DaemonStep, Launch, LaunchError, ViaMemory,
};
use portmanager::net::IpAddr;
use portmanager::supervisor::Status;

fn args(host: Option<&str>, specs: &[&str]) -> RunArgs {
    RunArgs {
        host: host.map(|h| h.to_string()),
        specs: specs.iter().map(|s| s.to_string()).collect(),
        reverse: vec![],
        profile: None,
        daemon: false,
        remote_udp: None,
        via_ssh: false,
        no_via_ssh: false,
        bind: None,
        ns: None,
        agent_grace: 43200,
    }
}

fn profile(host: &str) -> Profile {
    Profile {
        host: host.into(),
        forwards: vec!["8080->9000".into(), "5432".into()],
        reverse_forwards: vec!["3000->3000".into()],
        autoforward: vec![AutoForwardRule {
            ns: "host".into(),
            ports: "*".into(),
            local: "same".into(),
        }],
        via_ssh: true,
    }
}

fn config() -> Config {
    Config {
        profiles: vec![NamedProfile { name: "dev".into(), profile: profile("box") }],
    }
}

fn shown(l: &Launch) -> Vec<(String, Origin)> {
    l.forwards.iter().map(|(f, o)| (f.to_spec_string(IpAddr::localhost()), *o)).collect()
}

#[test]
fn the_command_line_wins_over_what_is_remembered() {
    let mut st = HostState::default();
    // The same target elsewhere, the same local port, and something new.
    st.forwards.push("127.0.0.1:8080->1111".into());
    st.forwards.push("other:1->8080".into());
    st.forwards.push("127.0.0.1:99".into());
    st.forwards.push("bad spec".into());
    let l = plan_state(&args(Some("h"), &["8080"]), &st, IpAddr::localhost()).unwrap();
    assert_eq!(
        shown(&l),
        vec![
            ("127.0.0.1:8080".to_string(), Origin::UserAdded),
            ("127.0.0.1:99".to_string(), Origin::Remembered),
        ]
    );
    assert!(matches!(&l.persist, PersistTarget::HostState { host } if host == "h"));
}

#[test]
fn a_plain_launch_resumes() {
    let mut st = HostState::default();
    st.forwards.push("127.0.0.1:80".into());
    st.reverse_forwards.push("3000->3000".into());
    st.default_ns = "podman:web".into();
    st.via_ssh = true;
    let l = plan_state(&args(Some("h"), &[]), &st, IpAddr::localhost()).unwrap();
    assert_eq!(l.default_ns, Some(NsSpec::Podman("web".into())));
    assert_eq!(l.forwards[0].0.ns, NsSpec::Podman("web".into()));
    assert_eq!(l.reverse.len(), 1);
    assert!(l.via_ssh);
    assert_eq!(via_memory(&l, false), ViaMemory::Remember);
    // What the command line names takes the place of the remembered default.
    let mut a = args(Some("h"), &[]);
    a.ns = Some("host".into());
    a.no_via_ssh = true;
    let l = plan_state(&a, &st, IpAddr::localhost()).unwrap();
    assert_eq!(l.default_ns, None);
    assert!(!l.via_ssh);
    assert_eq!(via_memory(&l, true), ViaMemory::Clear);
}

#[test]
fn the_command_line_wins_over_a_profile() {
    let mut a = args(None, &["8080->7000"]);
    a.reverse = vec!["3000->4000".into()];
    let name = "dev".to_string();
    let l = plan_profile(&a, &name, &config(), IpAddr::localhost()).unwrap();
    assert_eq!(l.host, "box");
    assert_eq!(
        shown(&l),
        vec![
            ("127.0.0.1:8080->7000".to_string(), Origin::UserAdded),
            ("127.0.0.1:5432".to_string(), Origin::Remembered),
        ]
    );
    assert_eq!(l.reverse.len(), 1);
    assert_eq!(l.reverse[0].0.local_port, 4000);
    assert_eq!(l.rules.len(), 1);
    assert!(l.via_ssh);
    assert_eq!(via_memory(&l, false), ViaMemory::Leave);
}

fn message(r: Result<Launch, LaunchError>) -> String {
    match r {
        Err(e) => e.message(),
        Ok(l) => panic!("{l:?}"),
    }
}

#[test]
fn launches_fail_with_a_reason() {
    let st = HostState::default();
    let at = IpAddr::localhost();
    assert_eq!(
        message(plan_state(&args(None, &[]), &st, at)),
        "no host given; usage: portmanager <host> <spec>..."
    );
    assert!(message(plan_state(&args(Some("h"), &["abc"]), &st, at))
        .starts_with("invalid forward spec \"abc\": invalid port 'abc'"));
    let mut a = args(Some("h"), &[]);
    a.reverse = vec!["1".into()];
    assert!(message(plan_state(&a, &st, at)).starts_with("invalid reverse spec \"1\": "));
    a.ns = Some("lxc:x".into());
    assert!(message(plan_state(&a, &st, at)).starts_with("bad namespace 'lxc:x'"));

    let a = args(None, &[]);
    assert_eq!(
        message(plan_profile(&a, &"x".to_string(), &config(), at)),
        "no profile \"x\" in config.toml"
    );
    let mut c = config();
    let dev = "dev".to_string();
    c.profiles[0].profile.forwards.push("abc".into());
    assert!(message(plan_profile(&a, &dev, &c, at))
        .starts_with("in profile \"dev\": invalid forward spec \"abc\": "));
    c.profiles[0].profile.host = String::new();
    assert_eq!(
        message(plan_profile(&a, &dev, &c, at)),
        "profile \"dev\" has no host and none was given on the CLI"
    );
}

#[test]
fn a_background_session_needs_a_host() {
    let mut a = args(Some("h"), &[]);
    assert_eq!(daemon_host(&a, None).unwrap(), "h");
    a.host = None;
    assert_eq!(
        daemon_host(&a, None).unwrap_err().message(),
        "no host given; usage: portmanager --daemon <host> <spec>..."
    );
    a.profile = Some("dev".into());
    assert_eq!(daemon_host(&a, Some(&profile("box"))).unwrap(), "box");
    assert!(matches!(daemon_host(&a, Some(&profile(""))), Err(LaunchError::NoProfileHost(_))));
    assert!(matches!(daemon_host(&a, None), Err(LaunchError::NoProfile(_))));
}

#[test]
fn the_launcher_waits_for_the_socket() {
    let step = |up, exited, late| daemon_step(up, exited, late, "h", "/s", "/log");
    assert!(matches!(step(true, Some("1"), true), DaemonStep::Ready));
    assert!(matches!(step(false, None, false), DaemonStep::Wait));
    match step(false, Some("exit status: 1"), true) {
        DaemonStep::Failed(why) => assert_eq!(
            why,
            "daemon exited before control socket came up (status exit status: 1); see /log"
        ),
        other => panic!("{other:?}"),
    }
    match step(false, None, true) {
        DaemonStep::Failed(why) => assert_eq!(
            why,
            "timed out waiting for daemon control socket /s for \"h\"; see /log"
        ),
        other => panic!("{other:?}"),
    }
}

#[test]
fn an_empty_session_is_worth_a_warning() {
    let st = HostState::default();
    let l = plan_state(&args(Some("h"), &[]), &st, IpAddr::localhost()).unwrap();
    assert!(sits_idle(&l, false, false));
    assert!(!sits_idle(&l, true, false));
    assert!(!sits_idle(&l, false, true));
    assert_eq!(
        idle_warning("h"),
        "no forwards given and none remembered for \"h\"; session will sit idle \
         (add some with `portmanager add h <spec>`)"
    );
    assert!(already_running("h").starts_with("a portmanager session for \"h\" is already running"));
    assert!(transport_notice(true).contains("SSH tunnel"));
    assert_eq!(transport_notice(false), "data plane: direct QUIC/UDP");
}

#[test]
fn changes_of_state_are_announced() {
    assert_eq!(announcement(&Status::Connected), (false, "[connected]".to_string()));
    assert_eq!(
        announcement(&Status::Reconnecting { attempt: 2 }),
        (true, "[reconnecting — attempt 2]".to_string())
    );
    assert_eq!(
        announcement(&Status::Bootstrapping),
        (true, "[re-bootstrapping over SSH]".to_string())
    );
}
