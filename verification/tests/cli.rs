//! What the command line asks for.

use portmanager::cli::{log_level, parse_grace, resolve_default_bind, AgentArgs};
use portmanager::net::IpAddr;

#[test]
fn parse_grace_units() {
    assert_eq!(parse_grace("90").unwrap(), 90);
    assert_eq!(parse_grace("45s").unwrap(), 45);
    assert_eq!(parse_grace("15m").unwrap(), 900);
    assert_eq!(parse_grace("12h").unwrap(), 43_200);
    assert_eq!(parse_grace("2d").unwrap(), 172_800);
    assert_eq!(parse_grace(" 1h ").unwrap(), 3_600);
}

#[test]
fn parse_grace_rejects_bad_input() {
    assert!(parse_grace("").is_err());
    assert!(parse_grace("12x").is_err());
    assert!(parse_grace("abc").is_err());
}

#[test]
fn bad_durations_are_explained() {
    assert_eq!(parse_grace("").unwrap_err().message(), "empty duration");
    assert_eq!(
        parse_grace("12x").unwrap_err().message(),
        "unknown duration unit 'x'; use s, m, h, or d"
    );
    assert!(parse_grace("xh").unwrap_err().message().starts_with("invalid duration \"xh\": "));
    let most = "18446744073709551615d";
    assert_eq!(
        parse_grace(most).unwrap_err().message(),
        format!("duration {most:?} is too large")
    );
}

#[test]
fn the_flag_wins_over_the_environment() {
    let any = IpAddr::unspecified();
    assert_eq!(resolve_default_bind(Some(any), Some("127.0.0.1")), Ok(Some(any)));
    assert_eq!(resolve_default_bind(None, Some(" 0.0.0.0 ")), Ok(Some(any)));
    assert_eq!(resolve_default_bind(None, Some("  ")), Ok(None));
    assert_eq!(resolve_default_bind(None, None), Ok(None));
    assert!(resolve_default_bind(None, Some("nowhere")).is_err());
}

#[test]
fn verbosity_picks_the_level() {
    assert_eq!(log_level(0), "info");
    assert_eq!(log_level(1), "debug");
    assert_eq!(log_level(7), "trace");
}

#[test]
fn the_agent_has_defaults() {
    let a = AgentArgs::default();
    assert_eq!((a.listen.as_str(), a.grace_secs), ("0.0.0.0:0", 300));
    assert!(!a.foreground && !a.tunnel);
}
