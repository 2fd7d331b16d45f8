//! What is remembered between sessions.

use portmanager::config::{
    remember_ns, sanitize, socket_file, state_file, AutoForwardRule, Config, HostState,
    NamedProfile, PersistTarget, Profile, SessionRecord,
};
use portmanager::forward::NsSpec;
use portmanager::net::IpAddr;

#[test]
fn rule_matching() {
    let any = AutoForwardRule {
        ns: "podman:web".into(),
        ports: "*".into(),
        local: "same".into(),
    };
    assert!(any.matches("podman:web", 5432));
    assert!(!any.matches("podman:db", 5432));
    assert!(!any.matches("", 5432));

    let listed = AutoForwardRule {
        ns: "host".into(),
        ports: "8080, 9090".into(),
        local: "same".into(),
    };
    assert!(listed.matches("", 8080));
    assert!(listed.matches("", 9090));
    assert!(!listed.matches("", 8081));
}

#[test]
fn sanitize_host_names() {
    assert_eq!(sanitize("user@host.example.com"), "user_host.example.com");
    assert_eq!(sanitize("my-host"), "my-host");
}

#[test]
fn file_names_stay_in_their_directory() {
    assert_eq!(state_file("a/../b"), "a_.._b.toml");
    assert_eq!(socket_file("user@h"), "user_h.sock");
    assert_eq!(sanitize(&sanitize("a b/c")), sanitize("a b/c"));
}

#[test]
fn what_no_longer_parses_is_skipped() {
    let mut st = HostState::default();
    st.forwards.push("podman:web@5432->5432".into());
    st.forwards.push("nonsense:::".into());
    st.reverse_forwards.push("3000".into());
    st.reverse_forwards.push("3000->3000".into());
    let f = st.parsed_forwards(IpAddr::localhost(), None);
    assert_eq!(f.len(), 1);
    assert_eq!(f[0].ns, NsSpec::Podman("web".into()));
    assert_eq!(st.parsed_reverse_forwards().len(), 1);
}

#[test]
fn assignments_are_replaced() {
    let mut st = HostState::default();
    let key = HostState::assignment_key("podman:web", 5432);
    assert_eq!(key, "podman:web/5432");
    assert_eq!(st.assigned(&key), None);
    st.assign(key.clone(), 5432);
    st.assign("/80".into(), 8080);
    st.assign(key.clone(), 6000);
    assert_eq!(st.assigned(&key), Some(6000));
    assert_eq!(st.assigned("/80"), Some(8080));
    assert_eq!(st.assignments.len(), 2);
}

#[test]
fn a_pid_default_is_not_remembered() {
    assert_eq!(remember_ns(&Some(NsSpec::Pid(4242))), "");
    assert_eq!(remember_ns(&Some(NsSpec::Podman("web".into()))), "podman:web");
    assert_eq!(remember_ns(&None), "");
    let mut st = HostState::default();
    assert_eq!(st.parsed_default_ns(), None);
    st.default_ns = "podman:web".into();
    assert_eq!(st.parsed_default_ns(), Some(NsSpec::Podman("web".into())));
    st.default_ns = "pid:7".into();
    assert_eq!(st.parsed_default_ns(), None);
    st.default_ns = "lxc:foo".into();
    assert_eq!(st.parsed_default_ns(), None);
}

#[test]
fn the_choice_of_transport_can_be_undone() {
    let mut st = HostState::default();
    st.remember_via_ssh();
    assert!(st.via_ssh);
    assert!(st.forget_via_ssh());
    assert!(!st.forget_via_ssh());
}

fn record() -> SessionRecord {
    SessionRecord {
        forwards: vec!["127.0.0.1:80".into()],
        reverse_forwards: vec!["3000->3000".into()],
        default_ns: "podman:web".into(),
    }
}

fn profiles() -> Config {
    Config {
        profiles: vec![NamedProfile {
            name: "dev".into(),
            profile: Profile {
                host: "h".into(),
                forwards: vec!["1".into()],
                reverse_forwards: vec![],
                autoforward: vec![],
                via_ssh: true,
            },
        }],
    }
}

#[test]
fn changes_go_to_the_store_that_is_named() {
    let mut st = HostState::default();
    st.via_ssh = true;
    let mut config = profiles();
    let host = PersistTarget::HostState { host: "h".into() };
    assert!(host.save_forwards(&mut st, &mut config, record()).is_ok());
    assert_eq!(st.forwards, vec!["127.0.0.1:80"]);
    assert_eq!(st.default_ns, "podman:web");
    assert!(st.via_ssh);
    assert_eq!(config.get("dev").unwrap().forwards, vec!["1"]);

    let dev = PersistTarget::Profile { name: "dev".into() };
    assert!(dev.save_forwards(&mut st, &mut config, record()).is_ok());
    let p = config.get("dev").unwrap();
    assert_eq!(p.forwards, vec!["127.0.0.1:80"]);
    assert_eq!(p.reverse_forwards, vec!["3000->3000"]);
    assert_eq!(p.host, "h");

    let gone = PersistTarget::Profile { name: "old".into() };
    let e = gone.save_forwards(&mut st, &mut config, record()).unwrap_err();
    assert_eq!(e.message(), "profile \"old\" vanished from config.toml");
}
