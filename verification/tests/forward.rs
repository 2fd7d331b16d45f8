//! Forward specs: the grammar, the defaults, and the way back.

use portmanager::error::SpecError;
use portmanager::forward::{
    default_bind, set_default_bind, show_endpoint, ForwardKind, ForwardSpec, NsSpec, ReverseSpec,
};
use portmanager::net::{IpAddr, Ipv4Addr};


fn parse(s: &str) -> ForwardSpec {
    s.parse().unwrap()
}

#[test]
fn bare_port_shorthand() {
    let f = parse("8888");
    assert_eq!(f.ns, NsSpec::Host);
    assert_eq!(f.remote_host, "127.0.0.1");
    assert_eq!(f.remote_port, 8888);
    assert_eq!(f.local_port, 8888);
    assert!(f.local_port_auto);
    assert_eq!(f.local_addr, IpAddr::localhost());
}

#[test]
fn host_port_to_local() {
    let f = parse("192.168.4.2:8080->8080");
    assert_eq!(f.ns, NsSpec::Host);
    assert_eq!(f.remote_host, "192.168.4.2");
    assert_eq!(f.remote_port, 8080);
    assert_eq!(f.local_port, 8080);
    assert!(!f.local_port_auto);
}

#[test]
fn distinct_local_port() {
    let f = parse("10.0.0.5:443->8443");
    assert_eq!(f.remote_host, "10.0.0.5");
    assert_eq!(f.remote_port, 443);
    assert_eq!(f.local_port, 8443);
    assert!(!f.local_port_auto);
}

#[test]
fn host_port_without_arrow_mirrors_port() {
    let f = parse("db.internal:5432");
    assert_eq!(f.remote_host, "db.internal");
    assert_eq!(f.remote_port, 5432);
    assert_eq!(f.local_port, 5432);
    assert!(f.local_port_auto);
}

#[test]
fn local_bind_address() {
    let f = parse("8080->0.0.0.0:8080");
    assert_eq!(f.remote_host, "127.0.0.1");
    assert_eq!(f.remote_port, 8080);
    assert_eq!(f.local_addr, IpAddr::unspecified());
    assert_eq!(f.local_port, 8080);
    assert!(!f.local_port_auto, "an explicit bind pins the local port");
}

#[test]
fn local_bind_address_with_remote_host_and_ns() {
    let f = parse("podman:web@10.88.0.5:5432->0.0.0.0:15432");
    assert_eq!(f.ns, NsSpec::Podman("web".into()));
    assert_eq!(f.remote_host, "10.88.0.5");
    assert_eq!(f.remote_port, 5432);
    assert_eq!(f.local_addr, IpAddr::unspecified());
    assert_eq!(f.local_port, 15432);
}

#[test]
fn local_bind_address_bracketed_ipv6() {
    let f = parse("8080->[::]:9090");
    assert_eq!(f.local_addr, IpAddr::parse("::").unwrap());
    assert_eq!(f.local_port, 9090);
}

#[test]
fn bare_local_port_stays_loopback() {
    let f = parse("192.168.4.2:8080->8080");
    assert_eq!(f.local_addr, IpAddr::localhost());
}

#[test]
fn rejects_bad_bind_address() {
    assert!(matches!(
        "8080->nope:9090".parse::<ForwardSpec>(),
        Err(SpecError::Malformed(..))
    ));
}

#[test]
fn ipv6_bracketed_host() {
    let f = parse("[fd00::1]:8080->9090");
    assert_eq!(f.remote_host, "fd00::1");
    assert_eq!(f.remote_port, 8080);
    assert_eq!(f.local_port, 9090);
}

#[test]
fn namespace_podman() {
    let f = parse("podman:web@10.88.0.5:5432->5432");
    assert_eq!(f.ns, NsSpec::Podman("web".into()));
    assert_eq!(f.remote_host, "10.88.0.5");
    assert_eq!(f.remote_port, 5432);
    assert_eq!(f.local_port, 5432);
}

#[test]
fn namespace_pid_and_bare_port() {
    let f = parse("pid:1234@8080");
    assert_eq!(f.ns, NsSpec::Pid(1234));
    assert_eq!(f.remote_host, "127.0.0.1");
    assert_eq!(f.remote_port, 8080);
    assert_eq!(f.local_port, 8080);
}

#[test]
fn namespace_all_forms_parse() {
    assert_eq!(parse("docker:api@80").ns, NsSpec::Docker("api".into()));
    assert_eq!(parse("netns:blue@80").ns, NsSpec::Netns("blue".into()));
    assert_eq!(
        parse("nspath:/proc/9/ns/net@80").ns,
        NsSpec::NsPath("/proc/9/ns/net".into())
    );
}

#[test]
fn socks_default_port_is_auto_loopback() {
    let f = parse("socks");
    assert_eq!(f.kind, ForwardKind::Socks);
    assert!(f.is_socks());
    assert_eq!(f.ns, NsSpec::Host);
    assert_eq!(f.local_addr, IpAddr::localhost());
    assert_eq!(f.local_port, 1080);
    assert!(
        f.local_port_auto,
        "bare socks should fall back if 1080 is taken"
    );
}

#[test]
fn socks_explicit_port_is_pinned() {
    let f = parse("socks->9050");
    assert_eq!(f.kind, ForwardKind::Socks);
    assert_eq!(f.local_port, 9050);
    assert!(!f.local_port_auto);
}

#[test]
fn socks_carries_namespace() {
    let f = parse("podman:web@socks->9050");
    assert_eq!(f.kind, ForwardKind::Socks);
    assert_eq!(f.ns, NsSpec::Podman("web".into()));
    assert_eq!(f.local_port, 9050);
}

#[test]
fn socks_rejects_non_loopback_bind() {
    assert!(matches!(
        "socks->0.0.0.0:1080".parse::<ForwardSpec>(),
        Err(SpecError::Malformed(..))
    ));
}

#[test]
fn socks_allows_ipv6_loopback() {
    let f = parse("socks->[::1]:1080");
    assert_eq!(f.kind, ForwardKind::Socks);
    assert_eq!(f.local_addr, IpAddr::parse("::1").unwrap());
}

// The default-bind override backs the Colima/VM-runtime path: forwards whose
// spec omits a bind address adopt it, so a VM `0.0.0.0` listener gets
// re-exposed on the host's loopback.
fn wildcard() -> IpAddr {
    IpAddr::unspecified()
}

#[test]
fn default_bind_applies_when_spec_omits_address() {
    // Bare port, host:port, and arrowed forms all inherit the default.
    for spec in ["8080", "192.168.4.2:8080->8080", "db:5432"] {
        let f = ForwardSpec::parse_with_bind(spec, wildcard()).unwrap();
        assert_eq!(f.local_addr, wildcard(), "spec {spec:?} should adopt default");
    }
}

#[test]
fn explicit_bind_beats_default() {
    // An address written in the spec always wins over the configured default.
    let f = ForwardSpec::parse_with_bind("8080->127.0.0.1:8080", wildcard()).unwrap();
    assert_eq!(f.local_addr, IpAddr::localhost());
}

#[test]
fn socks_adopts_default_bind() {
    // Bare `socks` and a port-only `socks->PORT` both take the default bind,
    // which is how a SOCKS proxy becomes reachable under Colima.
    for spec in ["socks", "socks->1080"] {
        let f = ForwardSpec::parse_with_bind(spec, wildcard()).unwrap();
        assert!(f.is_socks());
        assert_eq!(f.local_addr, wildcard(), "spec {spec:?} should adopt default");
    }
}

#[test]
fn socks_still_rejects_explicit_non_loopback_even_with_default() {
    // The configured default is trusted, but an address typed into the spec
    // is not — an explicit wildcard SOCKS bind stays rejected.
    assert!(matches!(
        ForwardSpec::parse_with_bind("socks->0.0.0.0:1080", wildcard()),
        Err(SpecError::Malformed(..))
    ));
}

// --- session default namespace ---------------------------------------
//
// The default is threaded in as a parameter (not a process global) so these
// cases stay independent of each other and of the parse tests above.

#[test]
fn bare_spec_inherits_the_session_default_namespace() {
    // The launch case: `portmanager --ns pid:856182 host 80 2080` — every
    // spec that names no namespace dials inside pid 856182.
    let ns = NsSpec::Pid(856182);
    for raw in ["80", "2080", "127.0.0.1:8080->8080", "socks"] {
        let f = ForwardSpec::parse_with_defaults(raw, IpAddr::localhost(), Some(&ns)).unwrap();
        assert_eq!(f.ns, ns, "spec {raw:?} should inherit the default");
        assert!(f.ns_inherited, "spec {raw:?} should be marked inherited");
    }
}

#[test]
fn explicit_namespace_beats_the_session_default() {
    // `pid:999@80` means 999 even when the session default is 856182.
    let f = ForwardSpec::parse_with_defaults(
        "pid:999@80",
        IpAddr::localhost(),
        Some(&NsSpec::Pid(856182)),
    )
    .unwrap();
    assert_eq!(f.ns, NsSpec::Pid(999));
    assert!(!f.ns_inherited, "an explicit namespace is not inherited");
}

#[test]
fn bare_spec_without_a_default_stays_in_the_host_namespace() {
    // Unchanged behaviour when no default is set: the agent's own namespace.
    // Still flagged as inherited — the spec named no namespace, so a later
    // `portmanager ns` may re-point it.
    let f = ForwardSpec::parse_with_defaults("2080", IpAddr::localhost(), None).unwrap();
    assert_eq!(f.ns, NsSpec::Host);
    assert!(f.ns_inherited);
    // A `host` default is no default at all.
    let f =
        ForwardSpec::parse_with_defaults("2080", IpAddr::localhost(), Some(&NsSpec::Host)).unwrap();
    assert_eq!(f.ns, NsSpec::Host);
    assert!(f.ns_inherited);
}

#[test]
fn default_namespace_does_not_touch_the_rest_of_the_grammar() {
    // Inheritance is only about the `NS@` prefix; ports, hosts and binds
    // parse exactly as before.
    let f = ForwardSpec::parse_with_defaults(
        "192.168.4.2:8080->0.0.0.0:9090",
        IpAddr::localhost(),
        Some(&NsSpec::Podman("web".into())),
    )
    .unwrap();
    assert_eq!(f.ns, NsSpec::Podman("web".into()));
    assert_eq!(f.remote_host, "192.168.4.2");
    assert_eq!(f.remote_port, 8080);
    assert_eq!(f.local_addr, IpAddr::unspecified());
    assert_eq!(f.local_port, 9090);
    assert!(!f.local_port_auto);
}

#[test]
fn only_pid_namespaces_are_unstable() {
    // What may be remembered between sessions (see config::HostState).
    assert!(!NsSpec::Pid(1234).is_stable());
    assert!(NsSpec::Podman("web".into()).is_stable());
    assert!(NsSpec::Docker("api".into()).is_stable());
    assert!(NsSpec::Netns("blue".into()).is_stable());
    assert!(NsSpec::NsPath("/proc/9/ns/net".into()).is_stable());
}

#[test]
fn rejects_empty() {
    assert_eq!("".parse::<ForwardSpec>(), Err(SpecError::Empty));
    assert_eq!("   ".parse::<ForwardSpec>(), Err(SpecError::Empty));
}

#[test]
fn rejects_bad_port() {
    assert!(matches!(
        "70000".parse::<ForwardSpec>(),
        Err(SpecError::InvalidPort(..))
    ));
    assert!(matches!(
        "0".parse::<ForwardSpec>(),
        Err(SpecError::InvalidPort(..))
    ));
    assert!(matches!(
        "abc".parse::<ForwardSpec>(),
        Err(SpecError::InvalidPort(..))
    ));
}

#[test]
fn rejects_missing_local_port() {
    assert!(matches!(
        "8080->".parse::<ForwardSpec>(),
        Err(SpecError::MissingPort(..))
    ));
}

#[test]
fn rejects_unknown_namespace_kind() {
    assert!(matches!(
        "lxc:foo@80".parse::<ForwardSpec>(),
        Err(SpecError::BadNamespace(..))
    ));
    assert!(matches!(
        "podman:@80".parse::<ForwardSpec>(),
        Err(SpecError::BadNamespace(..))
    ));
}

fn rparse(s: &str) -> ReverseSpec {
    s.parse().unwrap()
}

#[test]
fn reverse_bare_ports_default_loopback() {
    let r = rparse("3000->3000");
    assert_eq!(r.ns, NsSpec::Host);
    assert_eq!(r.remote_bind_addr, IpAddr::localhost());
    assert_eq!(r.remote_bind_port, 3000);
    assert_eq!(r.local_host, "127.0.0.1");
    assert_eq!(r.local_port, 3000);
}

#[test]
fn reverse_explicit_bind_and_remote_target() {
    let r = rparse("0.0.0.0:8080->192.168.1.5:80");
    assert_eq!(r.remote_bind_addr, IpAddr::unspecified());
    assert_eq!(r.remote_bind_port, 8080);
    assert_eq!(r.local_host, "192.168.1.5");
    assert_eq!(r.local_port, 80);
}

#[test]
fn reverse_carries_namespace() {
    let r = rparse("podman:web@5432->5432");
    assert_eq!(r.ns, NsSpec::Podman("web".into()));
    assert_eq!(r.remote_bind_port, 5432);
    assert_eq!(r.local_port, 5432);
}

#[test]
fn reverse_requires_arrow() {
    assert!(matches!(
        "3000".parse::<ReverseSpec>(),
        Err(SpecError::Malformed(..))
    ));
}

#[test]
fn reverse_spec_string_roundtrips() {
    for raw in [
        "3000->3000",
        "0.0.0.0:8080->192.168.1.5:80",
        "podman:web@5432->5432",
        "[::]:8080->[::1]:9090",
    ] {
        let spec = rparse(raw);
        let shown = spec.to_spec_string();
        let back: ReverseSpec = shown.parse().unwrap();
        assert_eq!(
            spec, back,
            "reverse form {shown:?} must reparse identically"
        );
    }
}

#[test]
fn canonical_form_reads_back() {
    for raw in [
        "8888",
        "db.internal:5432",
        "podman:web@10.88.0.5:5432->0.0.0.0:15432",
        "pid:-7@80->81",
        "socks",
        "socks->9050",
        "netns:blue@socks",
        "8080->[::1]:9090",
    ] {
        let f = parse(raw);
        let shown = f.to_spec_string(IpAddr::localhost());
        assert_eq!(parse(&shown), f, "{shown}");
    }
    assert_eq!(parse("podman:web@10.88.0.5:5432->15432").to_spec_string(IpAddr::localhost()),
        "podman:web@10.88.0.5:5432->15432");
}

#[test]
fn inherited_namespace_is_not_written_down() {
    let ns = NsSpec::Podman("web".into());
    let f = ForwardSpec::parse_with_defaults("9000->9001", IpAddr::localhost(), Some(&ns)).unwrap();
    assert_eq!(f.to_spec_string(IpAddr::localhost()), "127.0.0.1:9000->9001");
}

#[test]
fn namespace_wire_forms() {
    for (ns, wire) in [
        (NsSpec::Host, ""),
        (NsSpec::Podman("web".into()), "podman:web"),
        (NsSpec::Docker("api".into()), "docker:api"),
        (NsSpec::Pid(42), "pid:42"),
        (NsSpec::Netns("blue".into()), "netns:blue"),
        (NsSpec::NsPath("/run/x".into()), "nspath:/run/x"),
    ] {
        assert_eq!(ns.to_wire(), wire);
        assert_eq!(NsSpec::from_wire(wire), Ok(ns));
    }
    assert!(NsSpec::from_wire("host").is_err());
}

#[test]
fn messages_name_the_fault() {
    let text = |s: &str| s.parse::<ForwardSpec>().unwrap_err().message();
    assert_eq!(text(""), "empty forward spec");
    assert_eq!(text("8080->"), "missing port in forward spec '8080->'");
    assert!(text("70000").starts_with("invalid port '70000': "));
    assert!(text("lxc:foo@80").starts_with("bad namespace 'lxc:foo': "));
    assert!(text("8080->nope:9090").starts_with("malformed forward spec '8080->nope:9090': "));
}

#[test]
fn default_bind_is_set_once() {
    let mut configured: Option<IpAddr> = None;
    assert_eq!(default_bind(&configured), IpAddr::localhost());
    set_default_bind(&mut configured, wildcard());
    assert_eq!(default_bind(&configured), wildcard());
}

#[test]
fn endpoints_bracket_ipv6() {
    let v4 = IpAddr::V4(Ipv4Addr::new(10, 0, 0, 1));
    assert_eq!(show_endpoint(&v4, 80), "10.0.0.1:80");
    assert_eq!(show_endpoint(&IpAddr::parse("::1").unwrap(), 80), "[::1]:80");
}
