//! The subcommands that talk to a running session.

use portmanager::cli::Command;
use portmanager::command::{
    forget_lines, logs_args, logs_failure, pad, plan_requests, show_entry, show_response,
};
use portmanager::control::{ForwardEntry, Request, Response};
use portmanager::net::IpAddr;

fn plan(cmd: &Command) -> Result<Vec<Request>, String> {
    plan_requests(cmd, IpAddr::localhost()).map_err(|e| e.message())
}

fn entry(health: &str) -> ForwardEntry {
    ForwardEntry {
        spec: "127.0.0.1:80".into(),
        local: "127.0.0.1:8080".into(),
        health: health.into(),
    }
}

#[test]
fn specs_are_looked_at_before_the_session_is_asked() {
    let add = |specs: &[&str], reverse| Command::Add {
        host: "h".into(),
        specs: specs.iter().map(|s| s.to_string()).collect(),
        reverse,
    };
    assert_eq!(plan(&add(&[], false)).unwrap_err(), "add: pass at least one forward spec");
    assert!(plan(&add(&["80", "abc"], false))
        .unwrap_err()
        .starts_with("invalid forward spec \"abc\": "));
    assert!(plan(&add(&["80"], true)).unwrap_err().starts_with("invalid reverse spec \"80\": "));
    let r = plan(&add(&["80", "81"], false)).unwrap();
    assert!(matches!(&r[1], Request::Add { spec } if spec == "81"));
    let r = plan(&add(&["1->2"], true)).unwrap();
    assert!(matches!(&r[0], Request::AddReverse { spec } if spec == "1->2"));
}

#[test]
fn drops_need_something_to_drop() {
    let drop = |specs: &[&str], all, reverse| Command::Drop {
        host: "h".into(),
        specs: specs.iter().map(|s| s.to_string()).collect(),
        all,
        reverse,
    };
    assert_eq!(
        plan(&drop(&[], false, false)).unwrap_err(),
        "drop: pass at least one forward spec or local port (or --all)"
    );
    assert!(matches!(plan(&drop(&[], true, false)).unwrap()[..], [Request::Clear]));
    assert!(matches!(plan(&drop(&["x"], false, false)).unwrap()[..], [Request::Drop { .. }]));
    assert!(matches!(plan(&drop(&["x"], false, true)).unwrap()[..], [Request::DropReverse { .. }]));
}

#[test]
fn the_other_subcommands_ask_one_thing() {
    let host = || "h".to_string();
    assert!(matches!(plan(&Command::Clear { host: host() }).unwrap()[..], [Request::Clear]));
    assert!(matches!(plan(&Command::List { host: host() }).unwrap()[..], [Request::List]));
    assert!(matches!(plan(&Command::Status { host: host() }).unwrap()[..], [Request::Status]));
    assert!(matches!(plan(&Command::Stop { host: host() }).unwrap()[..], [Request::Stop]));
    let r = plan(&Command::Ns { host: host(), ns: Some("pid:1".into()) }).unwrap();
    assert!(matches!(&r[..], [Request::SetNs { ns: Some(n) }] if n == "pid:1"));
}

#[test]
fn entries_stand_in_columns() {
    assert_eq!(show_entry(&entry("")), format!("{:<24} {}", "127.0.0.1:8080", "127.0.0.1:80"));
    assert_eq!(
        show_entry(&entry("idle")),
        format!("{:<24} {:<32} {}", "127.0.0.1:8080", "127.0.0.1:80", "idle")
    );
    assert_eq!(pad("größer", 8), "größer  ");
    assert_eq!(pad("größer", 2), "größer");
}

#[test]
fn answers_are_shown() {
    let (out, err) = show_response(&Response::Done { message: "done".into() }, "0.1.0");
    assert_eq!((out, err), (vec!["done".to_string()], None));
    let (out, err) = show_response(&Response::Error { message: "no".into() }, "0.1.0");
    assert_eq!((out.len(), err.as_deref()), (0, Some("error: no")));
    let (out, _) = show_response(
        &Response::Forwards { entries: vec![], reverse: vec![], default_ns: String::new() },
        "0.1.0",
    );
    assert_eq!(out, vec!["(no forwards)"]);
    let (out, _) = show_response(
        &Response::StatusIs {
            state: "connected".into(),
            agent_version: "0.1.0".into(),
            entries: vec![entry("")],
            reverse: vec![entry("")],
            default_ns: "pid:1".into(),
        },
        "0.2.0",
    );
    assert_eq!(out[0], "session: connected (agent v0.1.0, client v0.2.0)");
    assert_eq!(out[1], show_entry(&entry("")));
    assert_eq!(out[2], "reverse forwards:");
    assert_eq!(out[3], format!("  {}", show_entry(&entry(""))));
    assert_eq!(out[4], "default namespace: pid:1");
}

#[test]
fn forgetting_is_reported() {
    assert_eq!(forget_lines("h", true, false), vec!["forgot saved state for \"h\""]);
    let l = forget_lines("h", false, true);
    assert_eq!(l[0], "no saved state for \"h\"");
    assert!(l[1].starts_with("note: a session for \"h\" is still running; "));
}

#[test]
fn the_remote_log_is_read_over_ssh() {
    assert_eq!(
        logs_args("h", true),
        vec![
            "-o", "ConnectTimeout=10", "h", "tail", "-f", "-n", "200",
            ".cache/portmanager/agent.log",
        ]
    );
    assert_eq!(logs_args("h", false).len(), 7);
    assert!(logs_failure("h").contains("has the agent run on \"h\"?"));
}
