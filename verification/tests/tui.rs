//! The interactive screen.

use portmanager::client::{ForwardSet, ForwardSnapshot, Origin};
use portmanager::discovery::{Listener, ListenerProc};
use portmanager::forward::{ForwardSpec, ReverseSpec};
use portmanager::keys::{
    browser_command, clipboard_command, forward_url, reverse_flag_rest, Effect, Key, KeyPress,
};
use portmanager::net::IpAddr;
use portmanager::reverse::{ReverseSet, ReverseSnapshot};
use portmanager::screen::{help_rows, table_headings, Row, Tone};
use portmanager::supervisor::Status;
use portmanager::tui::{App, Mode, Selection, THROUGHPUT_HISTORY};

fn snapshot(spec: &str, local: &str, origin: Origin) -> ForwardSnapshot {
    let (addr, port) = local.rsplit_once(':').unwrap();
    ForwardSnapshot {
        spec: spec.parse().unwrap(),
        local_addr: IpAddr::parse(addr).unwrap(),
        local_port: port.parse().unwrap(),
        origin,
        ok_connections: 0,
        last_error: None,
        bytes_up: 0,
        bytes_down: 0,
    }
}

fn rsnapshot(spec: &str) -> ReverseSnapshot {
    ReverseSnapshot {
        spec: spec.parse().unwrap(),
        origin: Origin::UserAdded,
        ok_connections: 0,
        last_error: None,
        bytes_up: 0,
        bytes_down: 0,
    }
}

fn listener(port: u16, process: Option<(i32, &str)>) -> Listener {
    Listener {
        ns: String::new(),
        ip: "0.0.0.0".into(),
        port,
        process: process.map(|(pid, name)| ListenerProc { pid, name: name.into() }),
    }
}

fn new_app(host: &str) -> App {
    App::new(host.into(), IpAddr::localhost())
}

fn row_texts(rows: &[Row]) -> String {
    rows.iter().map(|r| r.cells.join(" ")).collect::<Vec<_>>().join("\n")
}

/// All texts of the screen, from top to bottom, and what is laid over it.
fn render(app: &mut App) -> String {
    let h = app.header();
    let mut parts = vec![h.title, h.state, h.agent, h.transport.to_string()];
    let t = app.table_view(&vec![]);
    parts.push(t.title);
    match t.hint {
        Some(hint) => parts.push(hint.to_string()),
        None => {
            parts.extend(table_headings());
            parts.push(row_texts(&t.rows));
        }
    }
    let l = app.log_view(8);
    parts.push(l.title);
    parts.extend(app.logs[l.from..l.to].iter().cloned());
    let f = app.footer();
    parts.push(f.text);
    parts.extend(f.typed);
    match app.mode {
        Mode::Help => {
            parts.push(" keybindings ".into());
            for (k, d) in help_rows() {
                parts.push(format!("{k:>12}  {d}"));
            }
        }
        Mode::Detail => {
            if let Some(d) = app.detail(0, 0) {
                parts.push(d.title);
                for f in d.fields.into_iter().chain(d.error) {
                    parts.push(format!("{}{}", f.label, f.value));
                }
            }
        }
        Mode::Picker => {
            let p = app.picker_view();
            parts.push(p.title);
            parts.extend(p.hint.map(|h| h.to_string()));
            parts.push(row_texts(&p.rows));
        }
        _ => {}
    }
    parts.join("\n")
}

fn press(app: &mut App, key: Key, f: &mut ForwardSet, r: &mut ReverseSet) -> Effect {
    app.handle_key(KeyPress { key, ctrl: false }, f, r)
}

fn sets() -> (ForwardSet, ReverseSet) {
    (ForwardSet::new(None, IpAddr::localhost()), ReverseSet::new())
}

fn said(app: &App) -> &str {
    app.message.as_deref().unwrap()
}

#[test]
fn reverse_flag_detected_only_as_whole_token() {
    assert_eq!(reverse_flag_rest("-R 3000->3000"), Some("3000->3000"));
    assert_eq!(reverse_flag_rest("--reverse 8080->80"), Some("8080->80"));
    assert_eq!(reverse_flag_rest("  -R  3000->3000  "), Some("3000->3000"));
    // No flag: a normal forward spec passes through untouched.
    assert_eq!(reverse_flag_rest("3000->3000"), None);
    // The flag must be its own token, not glued to the spec.
    assert_eq!(reverse_flag_rest("-R3000->3000"), None);
}

#[test]
fn reverse_row_is_selectable_and_droppable() {
    let (mut forwards, mut reverse) = sets();
    let spec: ReverseSpec = "3000->3000".parse().unwrap();
    reverse.add(spec, Origin::UserAdded).unwrap();
    let mut app = new_app("h");
    app.status = Status::Connected;
    app.connected = true;
    app.forwards = vec![snapshot("8888", "127.0.0.1:8888", Origin::UserAdded)];
    app.reverse = vec![rsnapshot("3000->3000")];

    // The reverse row renders as a dimmed `← <port>` row.
    let text = render(&mut app);
    assert!(text.contains("← 3000"), "reverse row missing: {text}");

    // Selection spans both rows; index 1 is the reverse forward.
    assert_eq!(app.selectable_len(), 2);
    app.table = Some(1);
    assert!(
        app.reverse_selected(),
        "row 1 should be the reverse forward"
    );
    assert!(matches!(app.selected_row(), Some(Selection::Reverse(_))));
    // The forward-only accessor is None on a reverse row.
    assert!(app.selected().is_none());

    // Dropping the selected reverse row removes it from the set.
    app.drop_selected(&mut forwards, &mut reverse);
    assert!(
        reverse.is_empty(),
        "reverse forward should be dropped"
    );
    assert_eq!(said(&app), "dropped reverse 3000->3000");
}

#[test]
fn header_names_the_transport() {
    // The SSH tunnel is much slower than QUIC and is remembered per host,
    // so a tunnelled session has to say so rather than looking identical.
    let mut app = new_app("myhost");
    app.status = Status::Connected;
    app.connected = true;

    let text = render(&mut app);
    assert!(
        text.contains("quic"),
        "direct session should name QUIC: {text}"
    );
    assert!(
        !text.contains("SSH TUNNEL"),
        "direct session must not warn: {text}"
    );

    app.via_ssh = true;
    let text = render(&mut app);
    assert!(
        text.contains("SSH TUNNEL — not QUIC"),
        "tunnelled session must say so plainly: {text}"
    );
}

#[test]
fn renders_columns_and_joins_process() {
    let mut app = new_app("myhost");
    app.status = Status::Connected;
    app.connected = true;
    app.agent_version = "0.1.0".into();
    app.forwards = vec![snapshot("8888", "127.0.0.1:8888", Origin::UserAdded)];
    // Discovery says pid 42 ("nginx") owns host:8888 — must fill the column.
    app.listeners = vec![listener(8888, Some((42, "nginx")))];

    let text = render(&mut app);
    assert!(text.contains("Running Process"), "header missing: {text}");
    assert!(text.contains("Forwarded Address"));
    assert!(text.contains("nginx (42)"), "process join missing: {text}");
    assert!(text.contains("private"), "loopback should read private");
    assert!(text.contains("user"), "origin column missing");
    assert!(text.contains("connected"), "session state missing");
    assert!(text.contains("agent v0.1.0"));
}

#[test]
fn exposed_forward_reads_exposed() {
    let mut app = new_app("h");
    app.forwards = vec![snapshot(
        "8080->0.0.0.0:8080",
        "0.0.0.0:8080",
        Origin::Remembered,
    )];
    let text = render(&mut app);
    assert!(
        text.contains("exposed"),
        "0.0.0.0 bind should read exposed: {text}"
    );
    assert!(text.contains("remembered"));
}

#[test]
fn empty_session_shows_hint() {
    let mut app = new_app("h");
    let text = render(&mut app);
    assert!(
        text.contains("Press 'a' to add"),
        "empty hint missing: {text}"
    );
}

#[test]
fn forward_url_is_loopback_http() {
    assert_eq!(forward_url(8888), "http://127.0.0.1:8888");
}

#[test]
fn socks_forward_renders_as_dynamic() {
    let mut app = new_app("h");
    app.forwards = vec![snapshot("socks->1080", "127.0.0.1:1080", Origin::UserAdded)];
    let text = render(&mut app);
    assert!(
        text.contains("socks5 (dynamic)"),
        "socks row should read dynamic: {text}"
    );
}

#[test]
fn help_overlay_lists_keys() {
    let mut app = new_app("h");
    app.mode = Mode::Help;
    let text = render(&mut app);
    assert!(text.contains("keybindings"), "help title missing: {text}");
    assert!(text.contains("copy"), "copy key missing: {text}");
    assert!(text.contains("filter"), "filter key missing: {text}");
}

#[test]
fn confirm_drop_prompts_before_dropping() {
    let mut app = new_app("h");
    app.forwards = vec![snapshot("8888", "127.0.0.1:8888", Origin::UserAdded)];
    app.mode = Mode::ConfirmDrop;
    let text = render(&mut app);
    assert!(
        text.contains("drop port 8888?"),
        "confirm prompt missing: {text}"
    );
}

#[test]
fn filter_hides_non_matching_rows() {
    let mut app = new_app("h");
    app.forwards = vec![
        snapshot("8888", "127.0.0.1:8888", Origin::UserAdded),
        snapshot("5432", "127.0.0.1:5432", Origin::UserAdded),
    ];
    app.filter = "5432".into();
    assert_eq!(app.visible().len(), 1, "filter should keep one row");
    let text = render(&mut app);
    assert!(text.contains("5432"), "matching row missing: {text}");
    assert!(
        !text.contains("8888"),
        "non-matching row should be hidden: {text}"
    );
}

#[test]
fn the_filter_ignores_case_and_sees_processes() {
    let mut app = new_app("h");
    app.forwards = vec![
        snapshot("8888", "127.0.0.1:8888", Origin::UserAdded),
        snapshot("5432", "127.0.0.1:5432", Origin::UserAdded),
    ];
    app.listeners = vec![listener(5432, Some((7, "Postgres")))];
    app.reverse = vec![rsnapshot("3000->3000")];
    app.filter = "POSTGRES".into();
    assert_eq!(app.visible(), vec![1]);
    assert_eq!(app.selectable_len(), 1);
    app.filter = "nothing".into();
    let t = app.table_view(&vec![]);
    assert_eq!(t.hint, Some("No forwards match the filter. Press Esc to clear it."));
    assert_eq!(t.title, " forwards (0, filter \"nothing\") ");
    app.filter = String::new();
    let t = app.table_view(&vec![(8888, 2048)]);
    assert_eq!(t.title, " forwards (2) · reverse (1) ");
    assert_eq!(t.rows[0].cells[6], "2.0 KiB/s");
    assert_eq!(t.rows[1].cells[6], "idle");
    assert!(t.rows[2].dim);
}

#[test]
fn detail_pane_shows_full_error_and_bytes() {
    let mut app = new_app("h");
    let mut snap = snapshot("8888", "127.0.0.1:8888", Origin::UserAdded);
    snap.bytes_up = 2048;
    snap.last_error = Some("connection refused dialing target".into());
    app.forwards = vec![snap];
    app.mode = Mode::Detail;
    let text = render(&mut app);
    assert!(
        text.contains("forward :8888"),
        "detail title missing: {text}"
    );
    assert!(text.contains("2.0 KiB"), "byte count missing: {text}");
    assert!(
        text.contains("connection refused"),
        "untruncated error missing: {text}"
    );
}

#[test]
fn details_of_a_reverse_forward() {
    let mut app = new_app("h");
    app.reverse = vec![rsnapshot("0.0.0.0:8080->192.168.1.5:80")];
    let d = app.detail(0, 0).unwrap();
    assert_eq!(d.title, " reverse R:8080 ");
    assert_eq!(d.fields[1].label, "remote bind: ");
    assert_eq!(d.fields[1].value, "0.0.0.0:8080");
    assert_eq!(d.fields[2].value, "192.168.1.5:80");
    assert!(d.spark.is_none());
}

#[test]
fn picker_lists_unforwarded_and_hides_forwarded() {
    let mut app = new_app("h");
    // 8888 is already forwarded; 9000 is not.
    app.forwards = vec![snapshot("8888", "127.0.0.1:8888", Origin::UserAdded)];
    app.listeners = vec![listener(8888, None), listener(9000, Some((7, "api")))];
    assert_eq!(app.discovered_unforwarded().len(), 1);
    app.mode = Mode::Picker;
    let text = render(&mut app);
    assert!(
        text.contains("discovered ports"),
        "picker title missing: {text}"
    );
    assert!(text.contains("9000"), "unforwarded port missing: {text}");
    assert!(text.contains("api (7)"), "process label missing: {text}");
}

#[test]
fn throughput_rate_is_derived_between_samples() {
    let mut app = new_app("h");
    let t0 = 5_000_000_000;
    app.forwards = vec![snapshot("8888", "127.0.0.1:8888", Origin::UserAdded)];
    app.sample_throughput(t0); // baseline
    // Second sample one second later with 1000 more bytes up.
    app.forwards[0].bytes_up = 1000;
    app.sample_throughput(t0 + 1_000_000_000);
    let tp = app.throughput.iter().find(|t| t.port == 8888).unwrap();
    let rate_up = tp.delta_up as f64 / (tp.elapsed as f64 / 1e9);
    assert!(
        (rate_up - 1000.0).abs() < 1.0,
        "rate_up was {rate_up}"
    );
    assert_eq!(tp.history.back().copied(), Some(1000));
}

#[test]
fn samples_are_bounded_and_follow_the_forwards() {
    let mut app = new_app("h");
    app.forwards = vec![snapshot("8888", "127.0.0.1:8888", Origin::UserAdded)];
    for i in 0..100u64 {
        app.forwards[0].bytes_down = i * 10;
        app.sample_throughput(i + 1);
    }
    assert_eq!(app.throughput[0].history.len(), THROUGHPUT_HISTORY);
    assert_eq!(app.throughput[0].history[0], 10);
    // The same moment changes nothing, and a counter that fell counts as nothing.
    app.sample_throughput(100);
    assert_eq!(app.throughput[0].delta_down, 10);
    app.forwards[0].bytes_down = 0;
    app.sample_throughput(200);
    assert_eq!((app.throughput[0].delta_down, app.throughput[0].elapsed), (0, 100));
    assert_eq!(app.detail(0, 0).unwrap().spark.unwrap().len(), THROUGHPUT_HISTORY);
    app.forwards.clear();
    app.sample_throughput(300);
    assert!(app.throughput.is_empty());
}

#[test]
fn clipboard_command_targets_a_known_helper() {
    for os in ["linux", "macos", "windows"] {
        let (prog, _) = clipboard_command(os);
        assert!(
            ["pbcopy", "clip", "xclip"].contains(&prog),
            "unexpected clipboard helper: {prog}"
        );
    }
    assert_eq!(clipboard_command("linux").1, vec!["-selection", "clipboard"]);
}

#[test]
fn browser_command_targets_the_url() {
    for os in ["linux", "macos", "windows"] {
        let (_, args) = browser_command(os, "http://127.0.0.1:8888");
        assert!(
            args.iter().any(|a| a == "http://127.0.0.1:8888"),
            "url should be passed to the opener: {args:?}"
        );
    }
    assert_eq!(browser_command("linux", "u").0, "xdg-open");
}

#[test]
fn selections_wrap_and_stay_within_bounds() {
    let (mut f, mut r) = sets();
    let mut app = new_app("h");
    press(&mut app, Key::Down, &mut f, &mut r);
    assert_eq!(app.table, Some(0));
    app.forwards = vec![
        snapshot("1", "127.0.0.1:1", Origin::UserAdded),
        snapshot("2", "127.0.0.1:2", Origin::UserAdded),
    ];
    press(&mut app, Key::Up, &mut f, &mut r);
    assert_eq!(app.table, Some(1));
    press(&mut app, Key::Char('j'), &mut f, &mut r);
    assert_eq!(app.table, Some(0));
    app.table = Some(9);
    app.clamp_selection();
    assert_eq!((app.table, app.picker), (Some(1), None));
}

#[test]
fn keys_move_between_modes() {
    let (mut f, mut r) = sets();
    let mut app = new_app("h");
    app.forwards = vec![snapshot("1", "127.0.0.1:1", Origin::UserAdded)];
    for (key, mode, back) in [
        (Key::Char('?'), Mode::Help, Key::Char('?')),
        (Key::Char('i'), Mode::Detail, Key::Char('q')),
        (Key::Char('f'), Mode::Picker, Key::Char('f')),
        (Key::Char('/'), Mode::Filter, Key::Enter),
        (Key::Char('a'), Mode::AddInput, Key::Esc),
        (Key::Delete, Mode::ConfirmDrop, Key::Char('n')),
    ] {
        press(&mut app, key, &mut f, &mut r);
        assert_eq!(app.mode, mode);
        press(&mut app, back, &mut f, &mut r);
        assert_eq!(app.mode, Mode::Normal);
    }
    assert_eq!(said(&app), "drop cancelled");
    // Esc clears a filter before it quits.
    app.filter = "x".into();
    assert!(matches!(press(&mut app, Key::Esc, &mut f, &mut r), Effect::Nothing));
    assert_eq!(app.filter, "");
    assert!(matches!(press(&mut app, Key::Esc, &mut f, &mut r), Effect::Quit));
    let ctrl_c = KeyPress { key: Key::Char('c'), ctrl: true };
    assert!(matches!(app.handle_key(ctrl_c, &mut f, &mut r), Effect::Quit));
    assert!(matches!(press(&mut app, Key::Char('c'), &mut f, &mut r), Effect::Nothing));
}

#[test]
fn a_typed_spec_is_bound() {
    let (mut f, mut r) = sets();
    let mut app = new_app("h");
    press(&mut app, Key::Char('a'), &mut f, &mut r);
    for c in "8888x".chars() {
        press(&mut app, Key::Char(c), &mut f, &mut r);
    }
    press(&mut app, Key::Backspace, &mut f, &mut r);
    assert_eq!(app.input, "8888");
    match press(&mut app, Key::Enter, &mut f, &mut r) {
        Effect::Bind { spec, ports, picked } => {
            assert_eq!(ports[0], 8888);
            let at = (spec.local_addr, ports[0]);
            app.finish_bind(&mut f, spec, picked, Ok(at));
        }
        other => panic!("{other:?}"),
    }
    assert_eq!(said(&app), "forwarding on 127.0.0.1:8888");
    assert!(f.contains(8888));
    let spec: ForwardSpec = "8888".parse().unwrap();
    app.finish_bind(&mut f, spec, None, Err("in use".into()));
    assert_eq!(said(&app), "add failed: in use");
}

#[test]
fn a_typed_reverse_spec_is_recorded() {
    let (mut f, mut r) = sets();
    let mut app = new_app("h");
    app.add_forward("-R 3000->3000", &f, &mut r);
    assert_eq!(said(&app), "reverse forward bound on remote 127.0.0.1:3000");
    app.add_forward("-R 3000->3000", &f, &mut r);
    assert_eq!(
        said(&app),
        "reverse add failed: reverse forward on remote 127.0.0.1:3000 already exists"
    );
    app.add_forward("-R x", &f, &mut r);
    assert!(said(&app).starts_with("invalid reverse spec \"x\": "));
    app.add_forward("abc", &f, &mut r);
    assert!(said(&app).starts_with("invalid spec \"abc\": "));
    assert_eq!(f.clear(), 0);
}

#[test]
fn a_confirmed_drop_drops() {
    let (mut f, mut r) = sets();
    let spec: ForwardSpec = "8888".parse().unwrap();
    f.add(spec, Origin::UserAdded, IpAddr::localhost(), 8888).unwrap();
    let mut app = new_app("h");
    app.forwards = vec![snapshot("8888", "127.0.0.1:8888", Origin::UserAdded)];
    press(&mut app, Key::Char('d'), &mut f, &mut r);
    assert!(f.contains(8888), "nothing is dropped before the answer");
    press(&mut app, Key::Char('y'), &mut f, &mut r);
    assert!(!f.contains(8888));
    assert_eq!(said(&app), "dropped 127.0.0.1:8888");
    app.drop_selected(&mut f, &mut r);
    assert_eq!(said(&app), "drop failed: no forward on local port 8888");
}

#[test]
fn visibility_is_toggled_on_the_same_port() {
    let (mut f, mut r) = sets();
    let spec: ForwardSpec = "8888".parse().unwrap();
    f.add(spec, Origin::Remembered, IpAddr::localhost(), 8888).unwrap();
    let mut app = new_app("h");
    app.forwards = vec![snapshot("8888", "127.0.0.1:8888", Origin::Remembered)];
    let (spec, original, origin) = match press(&mut app, Key::Char('v'), &mut f, &mut r) {
        Effect::Toggle { spec, original, origin } => (spec, original, origin),
        other => panic!("{other:?}"),
    };
    assert!(!f.contains(8888));
    assert_eq!(spec.local_addr, IpAddr::unspecified());
    assert!(!spec.local_port_auto);
    let why = app.finish_toggle(&mut f, spec.clone(), origin, Err("denied".into())).unwrap();
    assert_eq!(why, "denied");
    let at = (IpAddr::localhost(), 8888);
    app.finish_restore(&mut f, original.clone(), origin, &why, Ok(at));
    assert_eq!(said(&app), "toggle failed (kept original): denied");
    assert_eq!(f.list()[0].origin, Origin::Remembered);
    f.clear();
    app.finish_restore(&mut f, original, origin, &why, Err("too".into()));
    assert_eq!(said(&app), "toggle failed and restore failed: denied; too");
    let at = (IpAddr::unspecified(), 8888);
    assert!(app.finish_toggle(&mut f, spec, origin, Ok(at)).is_none());
    assert_eq!(said(&app), "0.0.0.0:8888 now exposed");
}

#[test]
fn socks_proxies_are_not_opened_or_exposed() {
    let (mut f, mut r) = sets();
    let mut app = new_app("h");
    app.forwards = vec![snapshot("socks", "127.0.0.1:1080", Origin::UserAdded)];
    press(&mut app, Key::Char('o'), &mut f, &mut r);
    assert_eq!(said(&app), "SOCKS proxy at socks5://127.0.0.1:1080 (press 'y' to copy)");
    press(&mut app, Key::Char('v'), &mut f, &mut r);
    assert_eq!(said(&app), "SOCKS proxy stays loopback (no expose)");
    match press(&mut app, Key::Char('y'), &mut f, &mut r) {
        Effect::Copy(url) => {
            assert_eq!(url, "socks5://127.0.0.1:1080");
            app.finish_copy(&url, Ok(()));
            assert_eq!(said(&app), "copied socks5://127.0.0.1:1080");
            app.finish_copy(&url, Err("none".into()));
            assert_eq!(said(&app), "clipboard unavailable: none");
        }
        other => panic!("{other:?}"),
    }
}

#[test]
fn forwards_are_opened_in_a_browser() {
    let (mut f, mut r) = sets();
    let mut app = new_app("h");
    app.forwards = vec![snapshot("80->8080", "0.0.0.0:8080", Origin::UserAdded)];
    match press(&mut app, Key::Enter, &mut f, &mut r) {
        Effect::Open(url) => {
            assert_eq!(url, "http://127.0.0.1:8080");
            app.finish_open(&url, Ok(()));
            assert_eq!(said(&app), "opening http://127.0.0.1:8080");
            app.finish_open(&url, Err("none".into()));
            assert_eq!(said(&app), "could not open browser: none");
        }
        other => panic!("{other:?}"),
    }
    app.forwards.clear();
    app.reverse = vec![rsnapshot("3000->3000")];
    press(&mut app, Key::Char('o'), &mut f, &mut r);
    assert_eq!(said(&app), "open/copy apply to forwards only");
    press(&mut app, Key::Char('v'), &mut f, &mut r);
    assert_eq!(said(&app), "reverse visibility is set by its bind address at add time");
}

#[test]
fn a_discovered_port_is_picked() {
    let (mut f, mut r) = sets();
    let mut app = new_app("h");
    app.listeners = vec![listener(8888, None), listener(9000, None)];
    press(&mut app, Key::Char('f'), &mut f, &mut r);
    press(&mut app, Key::Down, &mut f, &mut r);
    match press(&mut app, Key::Enter, &mut f, &mut r) {
        Effect::Bind { spec, ports, picked } => {
            assert_eq!((spec.remote_host.as_str(), ports[0]), ("127.0.0.1", 9000));
            app.finish_bind(&mut f, spec, picked, Ok((IpAddr::localhost(), 9000)));
        }
        other => panic!("{other:?}"),
    }
    assert_eq!(said(&app), "forwarding 9000 on 127.0.0.1:9000");
    app.listeners[0].ns = "lxc:x".into();
    app.picker = Some(0);
    assert!(matches!(app.forward_picked(&f), Effect::Nothing));
    assert!(said(&app).starts_with("cannot forward lxc:x:8888: bad namespace"));
}

#[test]
fn the_log_scrolls_within_its_bounds() {
    let (mut f, mut r) = sets();
    let mut app = new_app("h");
    app.logs = (0..10).map(|i| format!("line {i}")).collect();
    let v = app.log_view(8);
    assert_eq!((v.from, v.to, v.title.as_str()), (4, 10, " log "));
    press(&mut app, Key::PageUp, &mut f, &mut r);
    press(&mut app, Key::PageUp, &mut f, &mut r);
    let v = app.log_view(8);
    assert_eq!((v.from, v.to), (0, 6));
    assert_eq!(v.title, " log (scrolled +4, PgDn to follow) ");
    press(&mut app, Key::PageDown, &mut f, &mut r);
    assert_eq!(app.log_view(8).to, 10);
}

#[test]
fn the_bottom_line_follows_the_mode() {
    let mut app = new_app("h");
    assert_eq!(app.footer().tone, Tone::Hint);
    app.message = Some("hello".into());
    assert_eq!((app.footer().tone, app.footer().text.as_str()), (Tone::Notice, "hello"));
    app.mode = Mode::AddInput;
    app.input = "88".into();
    let l = app.footer();
    assert_eq!((l.tone, l.typed.as_deref()), (Tone::Prompt, Some("88")));
    app.mode = Mode::ConfirmDrop;
    assert_eq!(app.footer().text, "drop selection? (y/n)");
}
