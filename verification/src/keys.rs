//! What keys do on the interactive screen.
//!
//! A key changes what the screen is about, and may change the forwards. What needs the
//! outside world (binding a listener, opening a browser, copying) is handed back as an
//! [`Effect`], and what came of it is reported to one of the `finish` functions.

use crate::client::{
    bind_plan, has_port, opt_text, port_ints, Entry, ForwardError, ForwardSet, Forwards, Origin,
};
use crate::control::display_spec;
use crate::discovery::{listener_forward, spec_for_listener};
use crate::forward::{
    debug_str, debug_text, endpoint_text, show_endpoint, Forward, ForwardSpec, ReverseSpec,
};
use crate::net::IpAddr;
use crate::reverse::{
    first_target, remove_target, RemoveTarget, RevEntry, ReverseFault, ReverseSet, Reverses,
};
use crate::text::{
    after_prefix, dec, decimal, is_white, shorten, shortened, strip_prefix, to_chars, trim, trim_start,
    trimmed, trimmed_start,
};
use crate::tui::{moved, App, Mode, Selection};
use vstd::prelude::*;

verus! {

// ---- keys and effects --------------------------------------------------

/// A key.
#[derive(Debug, Clone, Copy, PartialEq, Eq, Structural)]
pub enum Key {
    Char(char),
    Enter,
    Esc,
    Backspace,
    Delete,
    Up,
    Down,
    PageUp,
    PageDown,
    Other,
}

/// A key that was pressed.
#[derive(Debug, Clone, Copy, PartialEq, Eq, Structural)]
pub struct KeyPress {
    pub key: Key,
    /// Together with the control key.
    pub ctrl: bool,
}

/// What is to be done outside.
#[derive(Debug)]
pub enum Effect {
    /// Nothing.
    Nothing,
    /// The session is to end.
    Quit,
    /// A listener is to be bound for this forward, on the first of these ports that can
    /// be had; then [`App::finish_bind`] is told. `picked` is the port that was picked
    /// from the discovered ones.
    Bind { spec: ForwardSpec, ports: Vec<u16>, picked: Option<u16> },
    /// The forward `original`, which is no longer bound, is to be bound as `spec`; then
    /// [`App::finish_toggle`] is told.
    Toggle { spec: ForwardSpec, original: ForwardSpec, origin: Origin },
    /// This address is to be opened; then [`App::finish_open`] is told.
    Open(String),
    /// This text is to be copied; then [`App::finish_copy`] is told.
    Copy(String),
}

/// The model of an [`Effect`].
#[verifier::ext_equal]
pub enum Wanted {
    Nothing,
    Quit,
    Bind { spec: Forward, ports: Seq<int>, picked: Option<u16> },
    Toggle { spec: Forward, original: Forward, origin: Origin },
    Open(Seq<char>),
    Copy(Seq<char>),
}

impl View for Effect {
    type V = Wanted;

    open spec fn view(&self) -> Wanted {
        match self {
            Effect::Nothing => Wanted::Nothing,
            Effect::Quit => Wanted::Quit,
            Effect::Bind { spec, ports, picked } => Wanted::Bind {
                spec: spec@,
                ports: port_ints(ports@),
                picked: *picked,
            },
            Effect::Toggle { spec, original, origin } => Wanted::Toggle {
                spec: spec@,
                original: original@,
                origin: *origin,
            },
            Effect::Open(s) => Wanted::Open(s@),
            Effect::Copy(s) => Wanted::Copy(s@),
        }
    }
}

/// The part of the screen's state that keys change.
#[verifier::ext_equal]
pub struct Ui {
    pub mode: Mode,
    pub input: Seq<char>,
    pub filter: Seq<char>,
    pub log_scroll: usize,
    pub message: Option<Seq<char>>,
    pub table: Option<usize>,
    pub picker: Option<usize>,
}

impl View for App {
    type V = Ui;

    open spec fn view(&self) -> Ui {
        Ui {
            mode: self.mode,
            input: self.input@,
            filter: self.filter@,
            log_scroll: self.log_scroll,
            message: opt_text(self.message),
            table: self.table,
            picker: self.picker,
        }
    }
}

/// The part of the screen's state that keys do not change is the same.
pub open spec fn same_data(a: App, b: App) -> bool {
    &&& a.host == b.host
    &&& a.forwards == b.forwards
    &&& a.reverse == b.reverse
    &&& a.listeners == b.listeners
    &&& a.logs == b.logs
    &&& a.status == b.status
    &&& a.connected == b.connected
    &&& a.agent_version == b.agent_version
    &&& a.throughput == b.throughput
    &&& a.via_ssh == b.via_ssh
    &&& a.default_bind == b.default_bind
}

// ---- small pieces ------------------------------------------------------

/// The local address of a forward, for a browser.
pub open spec fn url_of(port: int) -> Seq<char> {
    "http://127.0.0.1:"@ + decimal(port)
}

/// The local address of a SOCKS proxy.
pub open spec fn socks_url_of(port: int) -> Seq<char> {
    "socks5://127.0.0.1:"@ + decimal(port)
}

/// The local URL for a forward bound on `local_port`. Always loopback, where exposed
/// forwards can be reached too.
pub fn forward_url(local_port: u16) -> (r: String)
    ensures
        r@ == url_of(local_port as int),
{
    String::from_str("http://127.0.0.1:").concat(dec(local_port as u64).as_str())
}

fn socks_url(local_port: u16) -> (r: String)
    ensures
        r@ == socks_url_of(local_port as int),
{
    String::from_str("socks5://127.0.0.1:").concat(dec(local_port as u64).as_str())
}

/// What follows a flag that is a word of its own.
pub open spec fn after_flag(s: Seq<char>, flag: Seq<char>) -> Option<Seq<char>> {
    match after_prefix(s, flag) {
        Some(rest) => if rest.len() == 0 || is_white(rest[0]) {
            Some(trimmed(rest))
        } else {
            None
        },
        None => None,
    }
}

/// The reverse spec in an input that asks for one.
pub open spec fn reverse_rest(input: Seq<char>) -> Option<Seq<char>> {
    let s = trimmed_start(input);
    match after_flag(s, "--reverse"@) {
        Some(r) => Some(r),
        None => match after_flag(s, "-R"@) {
            Some(r) => Some(r),
            None => after_flag(s, "-r"@),
        },
    }
}

fn flag_rest<'a>(s: &'a str, flag: &str) -> (r: Option<&'a str>)
    ensures
        match r {
            Some(t) => after_flag(s@, flag@) == Some(t@),
            None => after_flag(s@, flag@) is None,
        },
{
    match strip_prefix(s, flag) {
        None => None,
        Some(rest) => {
            let cs: Vec<char> = to_chars(rest);
            if cs.len() == 0 || crate::text::is_whitespace(cs[0]) {
                Some(trim(rest))
            } else {
                None
            }
        },
    }
}

/// If `input` begins with a flag that asks for a reverse forward, what follows it; the
/// flag must be a word of its own.
pub fn reverse_flag_rest<'a>(input: &'a str) -> (r: Option<&'a str>)
    ensures
        match r {
            Some(t) => reverse_rest(input@) == Some(t@),
            None => reverse_rest(input@) is None,
        },
{
    let s: &'a str = trim_start(input);
    match flag_rest(s, "--reverse") {
        Some(r) => Some(r),
        None => match flag_rest(s, "-R") {
            Some(r) => Some(r),
            None => flag_rest(s, "-r"),
        },
    }
}

fn wrong(head: &str, spec: &str, why: &str) -> (r: String)
    ensures
        r@ == head@ + debug_text(spec@) + ": "@ + why@,
{
    String::from_str(head).concat(debug_str(spec).as_str()).concat(": ").concat(why)
}

// ---- adding ------------------------------------------------------------

/// What adding a reverse forward makes of the reverse forwards, and what is said.
pub open spec fn reverse_added(spec: Seq<char>, r: Reverses) -> (Reverses, Seq<char>) {
    match crate::forward::reverse_of(spec) {
        Err(e) => (r, "invalid reverse spec "@ + debug_text(spec) + ": "@ + e.text()),
        Ok(x) => if r.has_key(x.key()) {
            (
                r,
                "reverse add failed: "@ + ReverseFault::Exists(
                    x.remote_bind_addr,
                    x.remote_bind_port,
                ).text(),
            )
        } else {
            (
                Reverses {
                    entries: r.entries.push(
                        RevEntry { spec: x, origin: Origin::UserAdded, id: r.version },
                    ),
                    version: (r.version + 1) as u64,
                },
                "reverse forward bound on remote "@ + x.remote_bind_addr.text() + ":"@ + decimal(
                    x.remote_bind_port,
                ),
            )
        },
    }
}

/// What adding a forward asks for, or what is said.
pub open spec fn forward_added(spec: Seq<char>, f: Forwards) -> (Wanted, Option<Seq<char>>) {
    match crate::forward::forward_of(spec, f.default_bind, f.default_ns) {
        Err(e) => (
            Wanted::Nothing,
            Some("invalid spec "@ + debug_text(spec) + ": "@ + e.text()),
        ),
        Ok(x) => match bind_plan(f, x) {
            Err(e) => (Wanted::Nothing, Some("add failed: "@ + e.text())),
            Ok(ports) => (Wanted::Bind { spec: x, ports, picked: None }, None),
        },
    }
}

/// What adding what was typed makes of the screen and the reverse forwards, and what it
/// asks for.
pub open spec fn typed(u: Ui, spec: Seq<char>, f: Forwards, r: Reverses) -> (Ui, Reverses, Wanted) {
    match reverse_rest(spec) {
        Some(rest) => {
            let (r2, said) = reverse_added(rest, r);
            (Ui { message: Some(said), ..u }, r2, Wanted::Nothing)
        },
        None => {
            let (w, said) = forward_added(spec, f);
            match said {
                Some(m) => (Ui { message: Some(m), ..u }, r, w),
                None => (u, r, w),
            }
        },
    }
}

impl App {
    fn add_reverse(&mut self, spec: &str, reverse: &mut ReverseSet)
        requires
            old(reverse)@.wf(),
            old(reverse)@.version < u64::MAX,
        ensures
            final(reverse)@.wf(),
            final(reverse)@ == reverse_added(spec@, old(reverse)@).0,
            final(self)@ == (Ui {
                message: Some(reverse_added(spec@, old(reverse)@).1),
                ..old(self)@
            }),
            same_data(*final(self), *old(self)),
    {
        match ReverseSpec::parse(spec) {
            Err(e) => {
                self.message = Some(
                    wrong("invalid reverse spec ", spec, e.message().as_str()),
                );
            },
            Ok(x) => {
                let mut said: String = String::from_str("reverse forward bound on remote ");
                said.append(x.remote_bind_addr.to_text().as_str());
                said.append(":");
                said.append(dec(x.remote_bind_port as u64).as_str());
                match reverse.add(x, Origin::UserAdded) {
                    Ok(_) => {
                        self.message = Some(said);
                    },
                    Err(e) => {
                        self.message = Some(
                            String::from_str("reverse add failed: ").concat(e.message().as_str()),
                        );
                    },
                }
            },
        }
    }

    /// Adds what was typed: a reverse forward where it begins with the flag for one, else
    /// a forward.
    pub fn add_forward(
        &mut self,
        spec: &str,
        forwards: &ForwardSet,
        reverse: &mut ReverseSet,
    ) -> (e: Effect)
        requires
            old(reverse)@.wf(),
            old(reverse)@.version < u64::MAX,
        ensures
            final(reverse)@.wf(),
            (final(self)@, final(reverse)@, e@) == typed(
                old(self)@,
                spec@,
                forwards@,
                old(reverse)@,
            ),
            same_data(*final(self), *old(self)),
    {
        if let Some(rest) = reverse_flag_rest(spec) {
            self.add_reverse(rest, reverse);
            return Effect::Nothing;
        }
        match forwards.parse_spec(spec) {
            Err(e) => {
                self.message = Some(wrong("invalid spec ", spec, e.message().as_str()));
                Effect::Nothing
            },
            Ok(x) => match forwards.plan_add(&x) {
                Err(e) => {
                    self.message = Some(
                        String::from_str("add failed: ").concat(e.message().as_str()),
                    );
                    Effect::Nothing
                },
                Ok(ports) => Effect::Bind { spec: x, ports, picked: None },
            },
        }
    }

    /// Is told what came of binding a forward: where it is bound, or why it is not.
    pub fn finish_bind(
        &mut self,
        forwards: &mut ForwardSet,
        spec: ForwardSpec,
        picked: Option<u16>,
        outcome: Result<(IpAddr, u16), String>,
    )
        requires
            old(forwards)@.wf(),
            outcome matches Ok(at) ==> at.1 != 0,
        ensures
            final(forwards)@.wf(),
            final(forwards)@.default_ns == old(forwards)@.default_ns,
            final(forwards)@.default_bind == old(forwards)@.default_bind,
            same_data(*final(self), *old(self)),
            ({
                let refused = match outcome {
                    Err(e) => Some(e@),
                    Ok((addr, port)) => if has_port(old(forwards)@.entries, port as int) {
                        Some(ForwardError::AlreadyForwarded(spec.local_port).text())
                    } else {
                        None
                    },
                };
                match refused {
                    Some(why) => {
                        &&& final(forwards)@ == old(forwards)@
                        &&& final(self)@ == (Ui {
                            message: Some("add failed: "@ + why),
                            ..old(self)@
                        })
                    },
                    None => {
                        &&& outcome matches Ok((addr, port)) && final(forwards)@.map() == old(
                            forwards,
                        )@.map().insert(
                            port as int,
                            (Entry {
                                spec: (Forward { local_port: port as int, ..spec@ }),
                                addr,
                                port: port as int,
                                origin: Origin::UserAdded,
                            }),
                        ) && final(self)@ == (Ui {
                            message: Some(
                                (match picked {
                                    Some(p) => "forwarding "@ + decimal(p as int) + " on "@,
                                    None => "forwarding on "@,
                                }) + endpoint_text(addr, port as int),
                            ),
                            ..old(self)@
                        })
                    },
                }
            }),
    {
        match outcome {
            Err(e) => {
                self.message = Some(String::from_str("add failed: ").concat(e.as_str()));
            },
            Ok((addr, port)) => match forwards.add(spec, Origin::UserAdded, addr, port) {
                Err(e) => {
                    self.message = Some(
                        String::from_str("add failed: ").concat(e.message().as_str()),
                    );
                },
                Ok(_) => {
                    let head: String = match picked {
                        Some(p) => String::from_str("forwarding ").concat(
                            dec(p as u64).as_str(),
                        ).concat(" on "),
                        None => String::from_str("forwarding on "),
                    };
                    self.message = Some(head.concat(show_endpoint(&addr, port).as_str()));
                },
            },
        }
    }
}

// ---- dropping ----------------------------------------------------------

/// What dropping the selected row makes of the forwards, the reverse forwards and the
/// screen.
pub open spec fn is_dropped(
    app: App,
    u2: Ui,
    f: Forwards,
    f2: Forwards,
    r: Reverses,
    r2: Reverses,
) -> bool {
    match app.chosen() {
        None => u2 == app@ && f2 == f && r2 == r,
        Some(Selection::Forward(i)) => {
            let p = app.forwards@[i as int].local_port;
            &&& r2 == r
            &&& if has_port(f.entries, p as int) {
                &&& f2.wf()
                &&& f2.map() == f.map().remove(p as int)
                &&& f2.default_ns == f.default_ns
                &&& f2.default_bind == f.default_bind
                &&& u2 == (Ui {
                    message: Some(
                        "dropped "@ + f.map()[p as int].spec.rendered(f.default_bind),
                    ),
                    ..app@
                })
            } else {
                f2 == f && u2 == (Ui {
                    message: Some("drop failed: "@ + ForwardError::NoForward(p).text()),
                    ..app@
                })
            }
        },
        Some(Selection::Reverse(i)) => {
            let s = app.reverse@[i as int].spec@.rendered();
            let t = remove_target(s);
            &&& f2 == f
            &&& if exists|k: int| first_target(r.entries, t, k) {
                let k = choose|k: int| first_target(r.entries, t, k);
                &&& r2 == (Reverses {
                    entries: r.entries.remove(k),
                    version: (r.version + 1) as u64,
                })
                &&& u2 == (Ui {
                    message: Some("dropped reverse "@ + r.entries[k].spec.rendered()),
                    ..app@
                })
            } else {
                r2 == r && u2 == (Ui {
                    message: Some(
                        "drop failed: "@ + (match t {
                            RemoveTarget::Bad(e) => ReverseFault::BadSpec(e),
                            _ => ReverseFault::NoMatch(s),
                        }).text(),
                    ),
                    ..app@
                })
            }
        },
    }
}

impl App {
    /// Drops the selected row.
    pub fn drop_selected(&mut self, forwards: &mut ForwardSet, reverse: &mut ReverseSet)
        requires
            old(forwards)@.wf(),
            old(reverse)@.wf(),
            old(reverse)@.version < u64::MAX,
        ensures
            final(forwards)@.wf(),
            final(reverse)@.wf(),
            is_dropped(
                *old(self),
                final(self)@,
                old(forwards)@,
                final(forwards)@,
                old(reverse)@,
                final(reverse)@,
            ),
            same_data(*final(self), *old(self)),
    {
        match self.selected_row() {
            None => {},
            Some(Selection::Forward(i)) => {
                let port: u16 = self.forwards[i].local_port;
                match forwards.remove(port) {
                    Ok(spec) => {
                        self.message = Some(
                            String::from_str("dropped ").concat(
                                display_spec(&spec, forwards.default_bind()).as_str(),
                            ),
                        );
                    },
                    Err(e) => {
                        self.message = Some(
                            String::from_str("drop failed: ").concat(e.message().as_str()),
                        );
                    },
                }
            },
            Some(Selection::Reverse(i)) => {
                let s: String = self.reverse[i].spec.to_spec_string();
                match reverse.remove(s.as_str()) {
                    Ok(dropped) => {
                        proof {
                            let e = old(reverse)@.entries;
                            let t = remove_target(s@);
                            let k = choose|k: int| #[trigger]
                                first_target(e, t, k) && dropped@ == e[k].spec && reverse@ == (
                                Reverses {
                                    entries: e.remove(k),
                                    version: (old(reverse)@.version + 1) as u64,
                                });
                            let c = choose|c: int| first_target(e, t, c);
                            assert(first_target(e, t, k));
                            assert(first_target(e, t, c));
                            assert(c == k);
                        }
                        self.message = Some(
                            String::from_str("dropped reverse ").concat(
                                dropped.to_spec_string().as_str(),
                            ),
                        );
                    },
                    Err(e) => {
                        self.message = Some(
                            String::from_str("drop failed: ").concat(e.message().as_str()),
                        );
                    },
                }
            },
        }
    }
}

// ---- opening and copying -----------------------------------------------

/// What opening the selected forward asks for, and what is said.
pub open spec fn opened(app: App) -> (Ui, Wanted) {
    match app.chosen() {
        Some(Selection::Forward(i)) => {
            let s = app.forwards@[i as int];
            if s.spec.kind is Socks {
                (
                    Ui {
                        message: Some(
                            "SOCKS proxy at "@ + socks_url_of(s.local_port as int)
                                + " (press 'y' to copy)"@,
                        ),
                        ..app@
                    },
                    Wanted::Nothing,
                )
            } else {
                (app@, Wanted::Open(url_of(s.local_port as int)))
            }
        },
        _ => (app@, Wanted::Nothing),
    }
}

/// What copying the address of the selected forward asks for.
pub open spec fn copied(app: App) -> Wanted {
    match app.chosen() {
        Some(Selection::Forward(i)) => {
            let s = app.forwards@[i as int];
            Wanted::Copy(
                if s.spec.kind is Socks {
                    socks_url_of(s.local_port as int)
                } else {
                    url_of(s.local_port as int)
                },
            )
        },
        _ => Wanted::Nothing,
    }
}

impl App {
    /// Opens the selected forward in a browser. A SOCKS proxy is no address for a
    /// browser: where it is gets said instead.
    pub fn open_selected(&mut self) -> (e: Effect)
        ensures
            (final(self)@, e@) == opened(*old(self)),
            same_data(*final(self), *old(self)),
    {
        match self.selected() {
            None => Effect::Nothing,
            Some(i) => {
                let port: u16 = self.forwards[i].local_port;
                if self.forwards[i].spec.is_socks() {
                    self.message = Some(
                        String::from_str("SOCKS proxy at ").concat(
                            socks_url(port).as_str(),
                        ).concat(" (press 'y' to copy)"),
                    );
                    Effect::Nothing
                } else {
                    Effect::Open(forward_url(port))
                }
            },
        }
    }

    /// Copies the address of the selected forward.
    pub fn copy_selected(&self) -> (e: Effect)
        ensures
            e@ == copied(*self),
    {
        match self.selected() {
            None => Effect::Nothing,
            Some(i) => {
                let port: u16 = self.forwards[i].local_port;
                if self.forwards[i].spec.is_socks() {
                    Effect::Copy(socks_url(port))
                } else {
                    Effect::Copy(forward_url(port))
                }
            },
        }
    }

    /// Is told what came of opening an address.
    pub fn finish_open(&mut self, url: &str, outcome: Result<(), String>)
        ensures
            final(self)@ == (Ui {
                message: Some(
                    match outcome {
                        Ok(_) => "opening "@ + url@,
                        Err(e) => "could not open browser: "@ + e@,
                    },
                ),
                ..old(self)@
            }),
            same_data(*final(self), *old(self)),
    {
        match outcome {
            Ok(_) => {
                self.message = Some(String::from_str("opening ").concat(url));
            },
            Err(e) => {
                self.message = Some(
                    String::from_str("could not open browser: ").concat(e.as_str()),
                );
            },
        }
    }

    /// Is told what came of copying a text.
    pub fn finish_copy(&mut self, url: &str, outcome: Result<(), String>)
        ensures
            final(self)@ == (Ui {
                message: Some(
                    match outcome {
                        Ok(_) => "copied "@ + url@,
                        Err(e) => "clipboard unavailable: "@ + e@,
                    },
                ),
                ..old(self)@
            }),
            same_data(*final(self), *old(self)),
    {
        match outcome {
            Ok(_) => {
                self.message = Some(String::from_str("copied ").concat(url));
            },
            Err(e) => {
                self.message = Some(String::from_str("clipboard unavailable: ").concat(e.as_str()));
            },
        }
    }
}

/// The program that opens an address in a browser on this system, and its arguments.
pub fn browser_command(os: &str, url: &str) -> (r: (&'static str, Vec<String>))
    ensures
        (r.0@, crate::client::string_texts(r.1@)) == (if os@ == "macos"@ {
            ("open"@, seq![url@])
        } else if os@ == "windows"@ {
            ("cmd"@, seq!["/C"@, "start"@, Seq::<char>::empty(), url@])
        } else {
            ("xdg-open"@, seq![url@])
        }),
{
    let mut v: Vec<String> = Vec::new();
    if crate::text::str_eq(os, "macos") {
        v.push(url.to_owned());
        proof {
            assert(crate::client::string_texts(v@) =~= seq![url@]);
        }
        ("open", v)
    } else if crate::text::str_eq(os, "windows") {
        v.push("/C".to_owned());
        v.push("start".to_owned());
        v.push(String::new());
        v.push(url.to_owned());
        proof {
            assert(crate::client::string_texts(v@) =~= seq![
                "/C"@,
                "start"@,
                Seq::<char>::empty(),
                url@,
            ]);
        }
        ("cmd", v)
    } else {
        v.push(url.to_owned());
        proof {
            assert(crate::client::string_texts(v@) =~= seq![url@]);
        }
        ("xdg-open", v)
    }
}

/// The program that takes the clipboard's contents on this system, and its arguments.
pub fn clipboard_command(os: &str) -> (r: (&'static str, Vec<String>))
    ensures
        (r.0@, crate::client::string_texts(r.1@)) == (if os@ == "macos"@ {
            ("pbcopy"@, Seq::<Seq<char>>::empty())
        } else if os@ == "windows"@ {
            ("clip"@, Seq::<Seq<char>>::empty())
        } else {
            ("xclip"@, seq!["-selection"@, "clipboard"@])
        }),
{
    let mut v: Vec<String> = Vec::new();
    proof {
        assert(crate::client::string_texts(v@) =~= Seq::<Seq<char>>::empty());
    }
    if crate::text::str_eq(os, "macos") {
        ("pbcopy", v)
    } else if crate::text::str_eq(os, "windows") {
        ("clip", v)
    } else {
        v.push("-selection".to_owned());
        v.push("clipboard".to_owned());
        proof {
            assert(crate::client::string_texts(v@) =~= seq!["-selection"@, "clipboard"@]);
        }
        ("xclip", v)
    }
}

// ---- visibility --------------------------------------------------------

/// A forward bound at the other of loopback and all addresses, on the port it has.
pub open spec fn flipped(f: Forward, port: int) -> Forward {
    Forward {
        local_addr: if f.local_addr == IpAddr::local() {
            IpAddr::wildcard()
        } else {
            IpAddr::local()
        },
        local_port: port,
        local_port_auto: false,
        ..f
    }
}

/// What changing the visibility of the selected forward makes of the forwards and the
/// screen, and what it asks for. The forward leaves the set until it is bound anew.
pub open spec fn is_toggled(app: App, u2: Ui, f: Forwards, f2: Forwards, w: Wanted) -> bool {
    match app.chosen() {
        Some(Selection::Forward(i)) => {
            let s = app.forwards@[i as int];
            let p = s.local_port as int;
            if s.spec.kind is Socks {
                f2 == f && w == Wanted::Nothing && u2 == (Ui {
                    message: Some("SOCKS proxy stays loopback (no expose)"@),
                    ..app@
                })
            } else if has_port(f.entries, p) {
                &&& f2.wf()
                &&& f2.map() == f.map().remove(p)
                &&& f2.default_ns == f.default_ns
                &&& f2.default_bind == f.default_bind
                &&& u2 == app@
                &&& w == (Wanted::Toggle {
                    spec: flipped(s.spec@, p),
                    original: s.spec@,
                    origin: s.origin,
                })
            } else {
                f2 == f && w == Wanted::Nothing && u2 == (Ui {
                    message: Some(
                        "toggle failed: "@ + ForwardError::NoForward(s.local_port).text(),
                    ),
                    ..app@
                })
            }
        },
        _ => u2 == app@ && f2 == f && w == Wanted::Nothing,
    }
}

impl App {
    /// Changes the visibility of the selected forward between loopback and all
    /// addresses, keeping its port.
    pub fn toggle_visibility(&mut self, forwards: &mut ForwardSet) -> (e: Effect)
        requires
            old(forwards)@.wf(),
        ensures
            final(forwards)@.wf(),
            is_toggled(*old(self), final(self)@, old(forwards)@, final(forwards)@, e@),
            same_data(*final(self), *old(self)),
    {
        match self.selected() {
            None => Effect::Nothing,
            Some(i) => {
                if self.forwards[i].spec.is_socks() {
                    self.message = Some("SOCKS proxy stays loopback (no expose)".to_owned());
                    return Effect::Nothing;
                }
                let port: u16 = self.forwards[i].local_port;
                let origin: Origin = self.forwards[i].origin;
                let original: ForwardSpec = self.forwards[i].spec.clone();
                let mut spec: ForwardSpec = self.forwards[i].spec.clone();
                spec.local_addr = if original.local_addr == IpAddr::localhost() {
                    IpAddr::unspecified()
                } else {
                    IpAddr::localhost()
                };
                spec.local_port = port;
                spec.local_port_auto = false;
                match forwards.remove(port) {
                    Err(e) => {
                        self.message = Some(
                            String::from_str("toggle failed: ").concat(e.message().as_str()),
                        );
                        Effect::Nothing
                    },
                    Ok(_) => Effect::Toggle { spec, original, origin },
                }
            },
        }
    }

    /// Is told what came of binding a forward anew: where it is bound, or why it is not.
    /// Gives the failure back where the forward has to be bound as it was.
    pub fn finish_toggle(
        &mut self,
        forwards: &mut ForwardSet,
        spec: ForwardSpec,
        origin: Origin,
        outcome: Result<(IpAddr, u16), String>,
    ) -> (r: Option<String>)
        requires
            old(forwards)@.wf(),
            outcome matches Ok(at) ==> at.1 != 0,
        ensures
            final(forwards)@.wf(),
            final(forwards)@.default_ns == old(forwards)@.default_ns,
            final(forwards)@.default_bind == old(forwards)@.default_bind,
            same_data(*final(self), *old(self)),
            match r {
                None => {
                    &&& outcome matches Ok((addr, port)) && !has_port(
                        old(forwards)@.entries,
                        port as int,
                    ) && final(forwards)@.map() == old(forwards)@.map().insert(
                        port as int,
                        (Entry {
                            spec: (Forward { local_port: port as int, ..spec@ }),
                            addr,
                            port: port as int,
                            origin,
                        }),
                    ) && final(self)@ == (Ui {
                        message: Some(
                            endpoint_text(addr, port as int) + " now "@ + (if spec.local_addr
                                == IpAddr::local() {
                                "private"@
                            } else {
                                "exposed"@
                            }),
                        ),
                        ..old(self)@
                    })
                },
                Some(why) => {
                    &&& final(forwards)@ == old(forwards)@
                    &&& final(self)@ == old(self)@
                    &&& match outcome {
                        Err(e) => why@ == e@,
                        Ok((addr, port)) => has_port(old(forwards)@.entries, port as int) && why@
                            == ForwardError::AlreadyForwarded(spec.local_port).text(),
                    }
                },
            },
    {
        match outcome {
            Err(e) => Some(e),
            Ok((addr, port)) => {
                let private: bool = spec.local_addr == IpAddr::localhost();
                match forwards.add(spec, origin, addr, port) {
                    Err(e) => Some(e.message()),
                    Ok(_) => {
                        let vis: &'static str = if private {
                            "private"
                        } else {
                            "exposed"
                        };
                        self.message = Some(
                            show_endpoint(&addr, port).concat(" now ").concat(vis),
                        );
                        None
                    },
                }
            },
        }
    }

    /// Is told what came of binding a forward as it was, after changing its visibility
    /// failed for the reason `why`.
    pub fn finish_restore(
        &mut self,
        forwards: &mut ForwardSet,
        original: ForwardSpec,
        origin: Origin,
        why: &str,
        outcome: Result<(IpAddr, u16), String>,
    )
        requires
            old(forwards)@.wf(),
            outcome matches Ok(at) ==> at.1 != 0,
        ensures
            final(forwards)@.wf(),
            final(forwards)@.default_ns == old(forwards)@.default_ns,
            final(forwards)@.default_bind == old(forwards)@.default_bind,
            same_data(*final(self), *old(self)),
            ({
                let refused = match outcome {
                    Err(e) => Some(e@),
                    Ok((addr, port)) => if has_port(old(forwards)@.entries, port as int) {
                        Some(ForwardError::AlreadyForwarded(original.local_port).text())
                    } else {
                        None
                    },
                };
                match refused {
                    Some(e2) => {
                        &&& final(forwards)@ == old(forwards)@
                        &&& final(self)@ == (Ui {
                            message: Some(
                                "toggle failed and restore failed: "@ + why@ + "; "@ + e2,
                            ),
                            ..old(self)@
                        })
                    },
                    None => {
                        &&& outcome matches Ok((addr, port)) && final(forwards)@.map() == old(
                            forwards,
                        )@.map().insert(
                            port as int,
                            (Entry {
                                spec: (Forward { local_port: port as int, ..original@ }),
                                addr,
                                port: port as int,
                                origin,
                            }),
                        )
                        &&& final(self)@ == (Ui {
                            message: Some("toggle failed (kept original): "@ + why@),
                            ..old(self)@
                        })
                    },
                }
            }),
    {
        let refused: Option<String> = match outcome {
            Err(e) => Some(e),
            Ok((addr, port)) => match forwards.add(original, origin, addr, port) {
                Err(e) => Some(e.message()),
                Ok(_) => None,
            },
        };
        match refused {
            Some(e2) => {
                self.message = Some(
                    String::from_str("toggle failed and restore failed: ").concat(why).concat(
                        "; ",
                    ).concat(e2.as_str()),
                );
            },
            None => {
                self.message = Some(
                    String::from_str("toggle failed (kept original): ").concat(why),
                );
            },
        }
    }
}

// ---- the modes ---------------------------------------------------------

/// What a key does while a filter is typed.
pub open spec fn filter_next(u: Ui, key: Key) -> Ui {
    match key {
        Key::Esc => Ui { filter: Seq::empty(), mode: Mode::Normal, ..u },
        Key::Enter => Ui { mode: Mode::Normal, ..u },
        Key::Backspace => Ui { filter: shortened(u.filter), ..u },
        Key::Char(c) => Ui { filter: u.filter.push(c), ..u },
        _ => u,
    }
}

/// What a key does while something is read that only has to be put away again.
pub open spec fn overlay_next(u: Ui, key: Key, toggle: char) -> Ui {
    if key is Esc || key == Key::Char('q') || key == Key::Char(toggle) {
        Ui { mode: Mode::Normal, ..u }
    } else {
        u
    }
}

/// What a key does while a spec is typed.
pub open spec fn input_next(u: Ui, key: Key, f: Forwards, r: Reverses) -> (Ui, Reverses, Wanted) {
    match key {
        Key::Esc => (
            Ui { mode: Mode::Normal, input: Seq::empty(), ..u },
            r,
            Wanted::Nothing,
        ),
        Key::Enter => {
            let v = Ui { mode: Mode::Normal, input: Seq::empty(), ..u };
            if trimmed(u.input).len() == 0 {
                (v, r, Wanted::Nothing)
            } else {
                typed(v, trimmed(u.input), f, r)
            }
        },
        Key::Backspace => (Ui { input: shortened(u.input), ..u }, r, Wanted::Nothing),
        Key::Char(c) => (Ui { input: u.input.push(c), ..u }, r, Wanted::Nothing),
        _ => (u, r, Wanted::Nothing),
    }
}

/// What picking a discovered port asks for, and what the screen is then about.
pub open spec fn picked_next(app: App, f: Forwards) -> (Ui, Wanted) {
    let v = Ui { mode: Mode::Normal, ..app@ };
    let at = match app.picker {
        Some(i) => i as int,
        None => 0,
    };
    if at < app.candidates().len() {
        let l = app.listeners@[app.candidates()[at]];
        match listener_forward(l@, f.default_bind) {
            Err(e) => (
                Ui {
                    message: Some(
                        "cannot forward "@ + l.ns@ + ":"@ + decimal(l.port as int) + ": "@
                            + e.text(),
                    ),
                    ..v
                },
                Wanted::Nothing,
            ),
            Ok(x) => match bind_plan(f, x) {
                Err(e) => (
                    Ui { message: Some("add failed: "@ + e.text()), ..v },
                    Wanted::Nothing,
                ),
                Ok(ports) => (v, Wanted::Bind { spec: x, ports, picked: Some(l.port) }),
            },
        }
    } else {
        (v, Wanted::Nothing)
    }
}

/// What a key does in the picker.
pub open spec fn picker_next(app: App, key: Key, f: Forwards) -> (Ui, Wanted) {
    if key is Esc || key == Key::Char('f') || key == Key::Char('q') {
        (Ui { mode: Mode::Normal, ..app@ }, Wanted::Nothing)
    } else if key is Down || key == Key::Char('j') {
        (
            Ui { picker: moved(app.picker, app.candidates().len(), true), ..app@ },
            Wanted::Nothing,
        )
    } else if key is Up || key == Key::Char('k') {
        (
            Ui { picker: moved(app.picker, app.candidates().len(), false), ..app@ },
            Wanted::Nothing,
        )
    } else if key is Enter {
        picked_next(app, f)
    } else {
        (app@, Wanted::Nothing)
    }
}

impl App {
    /// A key while a filter is typed: the table follows at once.
    pub fn handle_filter(&mut self, key: Key)
        ensures
            final(self)@ == filter_next(old(self)@, key),
            same_data(*final(self), *old(self)),
    {
        match key {
            Key::Esc => {
                self.filter = String::new();
                self.mode = Mode::Normal;
                proof {
                    assert(self.filter@ =~= Seq::<char>::empty());
                }
            },
            Key::Enter => {
                self.mode = Mode::Normal;
            },
            Key::Backspace => {
                self.filter = shorten(self.filter.as_str());
            },
            Key::Char(c) => {
                self.filter.push(c);
            },
            _ => {},
        }
    }

    /// A key while something is read that only has to be put away again, also by the key
    /// that opened it.
    pub fn handle_overlay_dismiss(&mut self, key: Key, toggle: char)
        ensures
            final(self)@ == overlay_next(old(self)@, key, toggle),
            same_data(*final(self), *old(self)),
    {
        let away: bool = match key {
            Key::Esc => true,
            Key::Char(c) => c == 'q' || c == toggle,
            _ => false,
        };
        if away {
            self.mode = Mode::Normal;
        }
    }

    /// A key while a spec is typed.
    pub fn handle_add_input(
        &mut self,
        key: Key,
        forwards: &ForwardSet,
        reverse: &mut ReverseSet,
    ) -> (e: Effect)
        requires
            old(reverse)@.wf(),
            old(reverse)@.version < u64::MAX,
        ensures
            final(reverse)@.wf(),
            (final(self)@, final(reverse)@, e@) == input_next(
                old(self)@,
                key,
                forwards@,
                old(reverse)@,
            ),
            same_data(*final(self), *old(self)),
    {
        match key {
            Key::Esc => {
                self.mode = Mode::Normal;
                self.input = String::new();
                proof {
                    assert(self.input@ =~= Seq::<char>::empty());
                }
                Effect::Nothing
            },
            Key::Enter => {
                let spec: String = trim(self.input.as_str()).to_owned();
                self.mode = Mode::Normal;
                self.input = String::new();
                proof {
                    assert(self.input@ =~= Seq::<char>::empty());
                }
                if spec.as_str().is_empty() {
                    return Effect::Nothing;
                }
                self.add_forward(spec.as_str(), forwards, reverse)
            },
            Key::Backspace => {
                self.input = shorten(self.input.as_str());
                Effect::Nothing
            },
            Key::Char(c) => {
                self.input.push(c);
                Effect::Nothing
            },
            _ => Effect::Nothing,
        }
    }

    /// Forwards the discovered port that is selected in the picker.
    pub fn forward_picked(&mut self, forwards: &ForwardSet) -> (e: Effect)
        ensures
            (final(self)@, e@) == picked_next(*old(self), forwards@),
            same_data(*final(self), *old(self)),
    {
        let at: usize = match self.picker {
            Some(i) => i,
            None => 0,
        };
        let v = self.discovered_unforwarded();
        self.mode = Mode::Normal;
        proof {
            assert(crate::tui::places(v@).len() == v@.len());
        }
        if at >= v.len() {
            return Effect::Nothing;
        }
        let k: usize = v[at];
        proof {
            assert(crate::tui::places(v@)[at as int] == k as int);
        }
        match spec_for_listener(&self.listeners[k], forwards.default_bind()) {
            Err(e) => {
                self.message = Some(
                    String::from_str("cannot forward ").concat(
                        self.listeners[k].ns.as_str(),
                    ).concat(":").concat(dec(self.listeners[k].port as u64).as_str()).concat(
                        ": ",
                    ).concat(e.message().as_str()),
                );
                Effect::Nothing
            },
            Ok(x) => match forwards.plan_add(&x) {
                Err(e) => {
                    self.message = Some(
                        String::from_str("add failed: ").concat(e.message().as_str()),
                    );
                    Effect::Nothing
                },
                Ok(ports) => Effect::Bind {
                    spec: x,
                    ports,
                    picked: Some(self.listeners[k].port),
                },
            },
        }
    }

    /// A key in the picker.
    pub fn handle_picker(&mut self, key: Key, forwards: &ForwardSet) -> (e: Effect)
        ensures
            (final(self)@, e@) == picker_next(*old(self), key, forwards@),
            same_data(*final(self), *old(self)),
    {
        match key {
            Key::Esc | Key::Char('f') | Key::Char('q') => {
                self.mode = Mode::Normal;
                Effect::Nothing
            },
            Key::Down | Key::Char('j') => {
                self.move_picker(true);
                Effect::Nothing
            },
            Key::Up | Key::Char('k') => {
                self.move_picker(false);
                Effect::Nothing
            },
            Key::Enter => self.forward_picked(forwards),
            _ => Effect::Nothing,
        }
    }

    /// A key that answers whether the selected row is to be dropped.
    pub fn handle_confirm_drop(
        &mut self,
        key: Key,
        forwards: &mut ForwardSet,
        reverse: &mut ReverseSet,
    )
        requires
            old(forwards)@.wf(),
            old(reverse)@.wf(),
            old(reverse)@.version < u64::MAX,
        ensures
            final(forwards)@.wf(),
            final(reverse)@.wf(),
            is_confirmed(
                *old(self),
                key,
                final(self)@,
                old(forwards)@,
                final(forwards)@,
                old(reverse)@,
                final(reverse)@,
            ),
            same_data(*final(self), *old(self)),
    {
        match key {
            Key::Char('y') | Key::Char('Y') => {
                self.drop_selected(forwards, reverse);
                let ghost u = self@;
                self.mode = Mode::Normal;
                proof {
                    assert(self@ == (Ui { mode: Mode::Normal, ..u }));
                }
            },
            _ => {
                self.message = Some("drop cancelled".to_owned());
                self.mode = Mode::Normal;
            },
        }
    }
}

/// What a key that answers whether the selected row is to be dropped makes of the
/// forwards, the reverse forwards and the screen.
pub open spec fn is_confirmed(
    app: App,
    key: Key,
    u2: Ui,
    f: Forwards,
    f2: Forwards,
    r: Reverses,
    r2: Reverses,
) -> bool {
    if key == Key::Char('y') || key == Key::Char('Y') {
        exists|u: Ui| #[trigger]
            is_dropped(app, u, f, f2, r, r2) && u2 == (Ui { mode: Mode::Normal, ..u })
    } else {
        f2 == f && r2 == r && u2 == (Ui {
            message: Some("drop cancelled"@),
            mode: Mode::Normal,
            ..app@
        })
    }
}

/// What a key does while the table is browsed, but for what it does to forwards.
pub enum Browse {
    Quit,
    Toggle,
    Open,
    Copy,
    Show(Ui),
}

/// What a key does while the table is browsed.
pub open spec fn browse(app: App, k: KeyPress) -> Browse {
    let u = app@;
    let rev = app.chosen() matches Some(Selection::Reverse(_));
    let n = app.rows().len() + app.reverse_rows();
    match k.key {
        Key::Char('c') => if k.ctrl {
            Browse::Quit
        } else {
            Browse::Show(u)
        },
        Key::Char('q') => Browse::Quit,
        Key::Esc => if u.filter.len() == 0 {
            Browse::Quit
        } else {
            Browse::Show(Ui { filter: Seq::empty(), ..u })
        },
        Key::Char('a') => Browse::Show(
            Ui { mode: Mode::AddInput, input: Seq::empty(), message: None, ..u },
        ),
        Key::Char('d') => if app.chosen() is Some {
            Browse::Show(Ui { mode: Mode::ConfirmDrop, message: None, ..u })
        } else {
            Browse::Show(u)
        },
        Key::Delete => if app.chosen() is Some {
            Browse::Show(Ui { mode: Mode::ConfirmDrop, message: None, ..u })
        } else {
            Browse::Show(u)
        },
        Key::Char('v') => if rev {
            Browse::Show(
                Ui {
                    message: Some("reverse visibility is set by its bind address at add time"@),
                    ..u
                },
            )
        } else {
            Browse::Toggle
        },
        Key::Char('o') => if rev {
            Browse::Show(Ui { message: Some("open/copy apply to forwards only"@), ..u })
        } else {
            Browse::Open
        },
        Key::Enter => if rev {
            Browse::Show(Ui { message: Some("open/copy apply to forwards only"@), ..u })
        } else {
            Browse::Open
        },
        Key::Char('y') => if rev {
            Browse::Show(Ui { message: Some("open/copy apply to forwards only"@), ..u })
        } else {
            Browse::Copy
        },
        Key::Char('i') => if app.chosen() is Some {
            Browse::Show(Ui { mode: Mode::Detail, ..u })
        } else {
            Browse::Show(u)
        },
        Key::Char('f') => Browse::Show(
            Ui { picker: Some(0), mode: Mode::Picker, message: None, ..u },
        ),
        Key::Char('/') => Browse::Show(Ui { mode: Mode::Filter, message: None, ..u }),
        Key::Char('?') => Browse::Show(Ui { mode: Mode::Help, ..u }),
        Key::PageUp => Browse::Show(
            Ui {
                log_scroll: if u.log_scroll + 4 <= usize::MAX {
                    (u.log_scroll + 4) as usize
                } else {
                    usize::MAX
                },
                ..u
            },
        ),
        Key::PageDown => Browse::Show(
            Ui {
                log_scroll: if u.log_scroll >= 4 {
                    (u.log_scroll - 4) as usize
                } else {
                    0
                },
                ..u
            },
        ),
        Key::Down => Browse::Show(Ui { table: moved(u.table, n, true), ..u }),
        Key::Char('j') => Browse::Show(Ui { table: moved(u.table, n, true), ..u }),
        Key::Up => Browse::Show(Ui { table: moved(u.table, n, false), ..u }),
        Key::Char('k') => Browse::Show(Ui { table: moved(u.table, n, false), ..u }),
        _ => Browse::Show(u),
    }
}

/// What a key makes of the forwards and the screen while the table is browsed, and what
/// it asks for.
pub open spec fn is_browsed(
    app: App,
    k: KeyPress,
    u2: Ui,
    f: Forwards,
    f2: Forwards,
    w: Wanted,
) -> bool {
    match browse(app, k) {
        Browse::Quit => u2 == app@ && f2 == f && w == Wanted::Quit,
        Browse::Toggle => is_toggled(app, u2, f, f2, w),
        Browse::Open => (u2, w) == opened(app) && f2 == f,
        Browse::Copy => u2 == app@ && w == copied(app) && f2 == f,
        Browse::Show(u) => u2 == u && f2 == f && w == Wanted::Nothing,
    }
}

impl App {
    /// A key while the table is browsed.
    pub fn handle_normal(&mut self, k: KeyPress, forwards: &mut ForwardSet) -> (e: Effect)
        requires
            old(forwards)@.wf(),
            old(self).forwards@.len() + old(self).reverse@.len() <= usize::MAX,
        ensures
            final(forwards)@.wf(),
            is_browsed(*old(self), k, final(self)@, old(forwards)@, final(forwards)@, e@),
            same_data(*final(self), *old(self)),
    {
        match k.key {
            Key::Char('c') => {
                if k.ctrl {
                    return Effect::Quit;
                }
            },
            Key::Char('q') => {
                return Effect::Quit;
            },
            Key::Esc => {
                // An active filter goes first.
                if self.filter.as_str().is_empty() {
                    return Effect::Quit;
                }
                self.filter = String::new();
                proof {
                    assert(self.filter@ =~= Seq::<char>::empty());
                }
            },
            Key::Char('a') => {
                self.mode = Mode::AddInput;
                self.input = String::new();
                self.message = None;
                proof {
                    assert(self.input@ =~= Seq::<char>::empty());
                }
            },
            Key::Char('d') | Key::Delete => {
                if self.selected_row().is_some() {
                    self.mode = Mode::ConfirmDrop;
                    self.message = None;
                }
            },
            Key::Char('v') => {
                if self.reverse_selected() {
                    self.message = Some(
                        "reverse visibility is set by its bind address at add time".to_owned(),
                    );
                } else {
                    return self.toggle_visibility(forwards);
                }
            },
            Key::Char('o') | Key::Enter => {
                if self.reverse_selected() {
                    self.message = Some("open/copy apply to forwards only".to_owned());
                } else {
                    return self.open_selected();
                }
            },
            Key::Char('y') => {
                if self.reverse_selected() {
                    self.message = Some("open/copy apply to forwards only".to_owned());
                } else {
                    return self.copy_selected();
                }
            },
            Key::Char('i') => {
                if self.selected_row().is_some() {
                    self.mode = Mode::Detail;
                }
            },
            Key::Char('f') => {
                self.picker = Some(0);
                self.mode = Mode::Picker;
                self.message = None;
            },
            Key::Char('/') => {
                self.mode = Mode::Filter;
                self.message = None;
            },
            Key::Char('?') => {
                self.mode = Mode::Help;
            },
            Key::PageUp => {
                self.log_scroll = if self.log_scroll <= usize::MAX - 4 {
                    self.log_scroll + 4
                } else {
                    usize::MAX
                };
            },
            Key::PageDown => {
                self.log_scroll = if self.log_scroll >= 4 {
                    self.log_scroll - 4
                } else {
                    0
                };
            },
            Key::Down | Key::Char('j') => {
                self.move_selection(true);
            },
            Key::Up | Key::Char('k') => {
                self.move_selection(false);
            },
            _ => {},
        }
        Effect::Nothing
    }

    /// A key.
    pub fn handle_key(
        &mut self,
        k: KeyPress,
        forwards: &mut ForwardSet,
        reverse: &mut ReverseSet,
    ) -> (e: Effect)
        requires
            old(forwards)@.wf(),
            old(reverse)@.wf(),
            old(reverse)@.version < u64::MAX,
            old(self).forwards@.len() + old(self).reverse@.len() <= usize::MAX,
        ensures
            final(forwards)@.wf(),
            final(reverse)@.wf(),
            same_data(*final(self), *old(self)),
            ({
                let u2 = final(self)@;
                let f = old(forwards)@;
                let f2 = final(forwards)@;
                let r = old(reverse)@;
                let r2 = final(reverse)@;
                match old(self).mode {
                    Mode::AddInput => (u2, r2, e@) == input_next(old(self)@, k.key, f, r) && f2
                        == f,
                    Mode::Filter => u2 == filter_next(old(self)@, k.key) && f2 == f && r2 == r
                        && e@ == Wanted::Nothing,
                    Mode::ConfirmDrop => is_confirmed(*old(self), k.key, u2, f, f2, r, r2) && e@
                        == Wanted::Nothing,
                    Mode::Help => u2 == overlay_next(old(self)@, k.key, '?') && f2 == f && r2 == r
                        && e@ == Wanted::Nothing,
                    Mode::Detail => u2 == overlay_next(old(self)@, k.key, 'i') && f2 == f && r2
                        == r && e@ == Wanted::Nothing,
                    Mode::Picker => (u2, e@) == picker_next(*old(self), k.key, f) && f2 == f && r2
                        == r,
                    Mode::Normal => is_browsed(*old(self), k, u2, f, f2, e@) && r2 == r,
                }
            }),
    {
        match self.mode {
            Mode::AddInput => self.handle_add_input(k.key, forwards, reverse),
            Mode::Filter => {
                self.handle_filter(k.key);
                Effect::Nothing
            },
            Mode::ConfirmDrop => {
                self.handle_confirm_drop(k.key, forwards, reverse);
                Effect::Nothing
            },
            Mode::Help => {
                self.handle_overlay_dismiss(k.key, '?');
                Effect::Nothing
            },
            Mode::Detail => {
                self.handle_overlay_dismiss(k.key, 'i');
                Effect::Nothing
            },
            Mode::Picker => self.handle_picker(k.key, forwards),
            Mode::Normal => self.handle_normal(k, forwards),
        }
    }
}

// ---- laws --------------------------------------------------------------

/// Nothing is dropped without a confirmation: while the table is browsed no key changes
/// the forwards, but for the one that changes a visibility; and any answer but yes
/// leaves them as they are.
pub proof fn law_drop_needs_confirmation(
    app: App,
    k: KeyPress,
    u2: Ui,
    f: Forwards,
    f2: Forwards,
    r: Reverses,
    r2: Reverses,
    w: Wanted,
)
    ensures
        is_browsed(app, k, u2, f, f2, w) && k.key != Key::Char('v') ==> f2 == f,
        is_confirmed(app, k.key, u2, f, f2, r, r2) && k.key != Key::Char('y') && k.key
            != Key::Char('Y') ==> f2 == f && r2 == r,
{
}

/// While the table is browsed, a session ends by `q`, by control-c, or by Esc where no
/// filter is active; never by anything else.
pub proof fn law_quit(app: App, k: KeyPress)
    ensures
        browse(app, k) is Quit <==> k.key == Key::Char('q') || (k.key == Key::Char('c') && k.ctrl)
            || (k.key is Esc && app.filter@.len() == 0),
{
}

/// Changing a visibility twice gives the address back that the forward had, where that
/// was one of the two; the port stays.
pub proof fn law_toggle_twice(f: Forward, port: int)
    requires
        f.local_addr == IpAddr::local() || f.local_addr == IpAddr::wildcard(),
    ensures
        flipped(flipped(f, port), port).local_addr == f.local_addr,
        flipped(flipped(f, port), port).local_port == port,
{
}

proof fn lemma_flag(flag: Seq<char>, x: Seq<char>)
    requires
        flag.len() > 0,
        !is_white(flag[0]),
    ensures
        trimmed_start(flag + x) == flag + x,
        after_prefix(flag + x, flag) == Some(x),
        x.len() > 0 && x[0] == ' ' ==> after_flag(flag + x, flag) == Some(trimmed(x.drop_first())),
        x.len() > 0 && !is_white(x[0]) ==> after_flag(flag + x, flag) is None,
{
    let s = flag + x;
    assert(s[0] == flag[0]);
    assert(s.subrange(0, flag.len() as int) =~= flag);
    assert(s.skip(flag.len() as int) =~= x);
    if x.len() > 0 && x[0] == ' ' {
        assert(is_white(' '));
        assert(trimmed_start(x) == trimmed_start(x.drop_first()));
    }
}

/// What follows `-R`, `-r` or `--reverse` and a blank is a reverse spec. A flag that goes
/// on asks for none, nor does an input that begins with anything else.
pub proof fn law_reverse_flag(rest: Seq<char>)
    ensures
        reverse_rest("-R "@ + rest) == Some(trimmed(rest)),
        reverse_rest("-r "@ + rest) == Some(trimmed(rest)),
        reverse_rest("--reverse "@ + rest) == Some(trimmed(rest)),
        rest.len() > 0 && !is_white(rest[0]) ==> reverse_rest("-R"@ + rest) is None && reverse_rest(
            "-r"@ + rest,
        ) is None && reverse_rest("--reverse"@ + rest) is None,
        trimmed_start(rest).len() == 0 || trimmed_start(rest)[0] != '-' ==> reverse_rest(
            rest,
        ) is None,
{
    reveal_strlit("-R ");
    reveal_strlit("-R");
    reveal_strlit("-r ");
    reveal_strlit("-r");
    reveal_strlit("--reverse ");
    reveal_strlit("--reverse");
    reveal_strlit(" ");
    let x = " "@ + rest;
    assert(x.drop_first() =~= rest);
    assert("-R "@ + rest =~= "-R"@ + x);
    assert("-r "@ + rest =~= "-r"@ + x);
    assert("--reverse "@ + rest =~= "--reverse"@ + x);
    lemma_flag("-R"@, x);
    lemma_flag("-r"@, x);
    lemma_flag("--reverse"@, x);
    lemma_flag("-R"@, rest);
    lemma_flag("-r"@, rest);
    lemma_flag("--reverse"@, rest);
    lemma_other_flag("-R"@ + x, "--reverse"@, 1);
    lemma_other_flag("-r"@ + x, "--reverse"@, 1);
    lemma_other_flag("-r"@ + x, "-R"@, 1);
    lemma_other_flag("-R"@ + rest, "--reverse"@, 1);
    lemma_other_flag("-r"@ + rest, "--reverse"@, 1);
    lemma_other_flag("-r"@ + rest, "-R"@, 1);
    lemma_other_flag("-R"@ + rest, "-r"@, 1);
    lemma_other_flag("--reverse"@ + rest, "-R"@, 1);
    lemma_other_flag("--reverse"@ + rest, "-r"@, 1);
    lemma_other_flag(trimmed_start(rest), "--reverse"@, 0);
    lemma_other_flag(trimmed_start(rest), "-R"@, 0);
    lemma_other_flag(trimmed_start(rest), "-r"@, 0);
}

proof fn lemma_other_flag(s: Seq<char>, flag: Seq<char>, i: int)
    requires
        0 <= i < flag.len(),
    ensures
        s.len() <= i || s[i] != flag[i] ==> after_flag(s, flag) is None,
{
    if after_prefix(s, flag) is Some {
        assert(s.subrange(0, flag.len() as int)[i] == s[i]);
    }
}

/// A reverse forward is added exactly where its spec can be read and nothing is on its
/// endpoint yet: behind those there are, as the user's own. Else all stays as it is.
pub proof fn law_typed_reverse(spec: Seq<char>, r: Reverses)
    ensures
        ({
            let r2 = reverse_added(spec, r).0;
            let read = crate::forward::reverse_of(spec);
            let free = forall|i: int|
                0 <= i < r.entries.len() ==> (#[trigger] r.entries[i]).spec.key()
                    != read->Ok_0.key();
            &&& read is Ok && free ==> r2.entries.len() == r.entries.len() + 1
                && r2.entries.last().spec == read->Ok_0 && r2.entries.last().origin
                == Origin::UserAdded && r2.entries.drop_last() == r.entries
            &&& !(read is Ok && free) ==> r2 == r
        }),
{
}

/// What was typed is bound as its spec says, with the defaults of the session; where
/// nothing is bound, the user is told why. Typing a forward adds no reverse forward, and
/// typing a reverse forward binds nothing.
pub proof fn law_typed_forward(u: Ui, spec: Seq<char>, f: Forwards, r: Reverses)
    ensures
        ({
            let (u2, r2, w) = typed(u, spec, f, r);
            &&& w matches Wanted::Bind { spec: x, ports, picked } ==> reverse_rest(spec) is None
                && crate::forward::forward_of(spec, f.default_bind, f.default_ns) == Ok::<
                Forward,
                crate::error::SpecFault,
            >(x) && picked is None && ports.len() > 0 && r2 == r && u2 == u
            &&& w is Bind || w is Nothing
            &&& w is Nothing ==> u2.message is Some
            &&& reverse_rest(spec) is None ==> r2 == r
            &&& reverse_rest(spec) is Some ==> w is Nothing
            &&& reverse_rest(spec) is None && crate::forward::forward_of(
                spec,
                f.default_bind,
                f.default_ns,
            ) is Ok && bind_plan(
                f,
                crate::forward::forward_of(spec, f.default_bind, f.default_ns)->Ok_0,
            ) is Ok ==> w is Bind
        }),
{
}

/// Dropping a forward takes the one that is on its local port and no other, and no
/// reverse forward; dropping a reverse forward takes no forward, and at most one reverse
/// forward: one of the entries, the others staying in their order.
pub proof fn law_drop_takes_the_selected(
    app: App,
    u2: Ui,
    f: Forwards,
    f2: Forwards,
    r: Reverses,
    r2: Reverses,
)
    requires
        is_dropped(app, u2, f, f2, r, r2),
    ensures
        app.chosen() is None ==> f2 == f && r2 == r && u2 == app@,
        app.chosen() matches Some(Selection::Forward(i)) ==> ({
            let p = app.forwards@[i as int].local_port as int;
            &&& r2 == r
            &&& has_port(f.entries, p) ==> !f2.map().contains_key(p) && forall|q: int|
                q != p ==> (#[trigger] f2.map().contains_key(q) <==> f.map().contains_key(q)) && (
                f.map().contains_key(q) ==> f2.map()[q] == f.map()[q])
            &&& !has_port(f.entries, p) ==> f2 == f
        }),
        app.chosen() matches Some(Selection::Reverse(i)) ==> f2 == f && (r2 == r || (exists|k: int|
            0 <= k < r.entries.len() && #[trigger] r.entries.remove(k) == r2.entries)),
{
    match app.chosen() {
        Some(Selection::Reverse(i)) => {
            let t = remove_target(app.reverse@[i as int].spec@.rendered());
            if exists|k: int| first_target(r.entries, t, k) {
                let k = choose|k: int| first_target(r.entries, t, k);
                assert(first_target(r.entries, t, k));
                assert(r.entries.remove(k) == r2.entries);
            }
        },
        _ => {},
    }
}

/// A browser gets the loopback address with the local port of the selected forward; a
/// SOCKS proxy is never opened. What is copied is the same address, for a SOCKS proxy
/// under the scheme of one.
pub proof fn law_addresses(app: App, i: usize)
    ensures
        app.chosen() == Some(Selection::Forward(i)) ==> ({
            let s = app.forwards@[i as int];
            let at = "127.0.0.1:"@ + decimal(s.local_port as int);
            &&& opened(app).1 is Open <==> !(s.spec.kind is Socks)
            &&& opened(app).1 matches Wanted::Open(u) ==> u == "http://"@ + at && opened(app).0
                == app@
            &&& copied(app) is Copy
            &&& copied(app)->Copy_0 == (if s.spec.kind is Socks {
                "socks5://"@ + at
            } else {
                "http://"@ + at
            })
        }),
        app.reverse_is_chosen() || app.chosen() is None ==> opened(app) == (app@, Wanted::Nothing)
            && copied(app) == Wanted::Nothing,
{
    reveal_strlit("http://127.0.0.1:");
    reveal_strlit("http://");
    reveal_strlit("socks5://127.0.0.1:");
    reveal_strlit("socks5://");
    reveal_strlit("127.0.0.1:");
    assert("http://127.0.0.1:"@ =~= "http://"@ + "127.0.0.1:"@);
    assert("socks5://127.0.0.1:"@ =~= "socks5://"@ + "127.0.0.1:"@);
    if app.chosen() == Some(Selection::Forward(i)) {
        let d = decimal(app.forwards@[i as int].local_port as int);
        assert("http://"@ + "127.0.0.1:"@ + d =~= "http://"@ + ("127.0.0.1:"@ + d));
        assert("socks5://"@ + "127.0.0.1:"@ + d =~= "socks5://"@ + ("127.0.0.1:"@ + d));
    }
}

impl App {
    /// A reverse forward is selected.
    pub open spec fn reverse_is_chosen(self) -> bool {
        self.chosen() matches Some(Selection::Reverse(_))
    }
}

/// Changing a visibility exposes what was on loopback, and takes what was exposed back to
/// loopback. The forward keeps its port and all that it dials; a SOCKS proxy keeps its
/// address.
pub proof fn law_toggle(app: App, u2: Ui, f: Forwards, f2: Forwards, w: Wanted, i: usize)
    requires
        app.chosen() == Some(Selection::Forward(i)),
        is_toggled(app, u2, f, f2, w),
    ensures
        ({
            let s = app.forwards@[i as int];
            &&& s.spec.kind is Socks ==> w is Nothing && f2 == f && u2.message is Some
            &&& w matches Wanted::Toggle { spec, original, origin } ==> {
                &&& original == s.spec@
                &&& origin == s.origin
                &&& s.spec@.local_addr == IpAddr::local() ==> spec.local_addr == IpAddr::wildcard()
                &&& s.spec@.local_addr != IpAddr::local() ==> spec.local_addr == IpAddr::local()
                &&& spec.local_port == s.local_port
                &&& !spec.local_port_auto
                &&& spec.ns == s.spec@.ns && spec.ns_inherited == s.spec@.ns_inherited
                &&& spec.remote_host == s.spec@.remote_host && spec.remote_port
                    == s.spec@.remote_port && spec.kind == s.spec@.kind
                &&& !f2.map().contains_key(s.local_port as int)
            }
            &&& !(w is Toggle) ==> f2 == f && u2.message is Some
            &&& !(s.spec.kind is Socks) && has_port(f.entries, s.local_port as int) ==> w is Toggle
        }),
{
}

/// A character that was typed is taken back by one backspace, in a filter and in a spec;
/// until Enter, typing asks for nothing and changes nothing else.
pub proof fn law_typing(u: Ui, c: char, key: Key, f: Forwards, r: Reverses)
    ensures
        filter_next(u, Key::Char(c)).filter == u.filter + seq![c],
        filter_next(filter_next(u, Key::Char(c)), Key::Backspace) == u,
        input_next(u, Key::Char(c), f, r).0.input == u.input + seq![c],
        input_next(input_next(u, Key::Char(c), f, r).0, Key::Backspace, f, r).0 == u,
        filter_next(u, key) == (Ui {
            filter: filter_next(u, key).filter,
            mode: filter_next(u, key).mode,
            ..u
        }),
        key != Key::Enter ==> input_next(u, key, f, r) == (
            Ui {
                input: input_next(u, key, f, r).0.input,
                mode: input_next(u, key, f, r).0.mode,
                ..u
            },
            r,
            Wanted::Nothing,
        ),
{
    assert(u.filter.push(c) =~= u.filter + seq![c]);
    assert(u.input.push(c) =~= u.input + seq![c]);
    assert(u.filter.push(c).drop_last() =~= u.filter);
    assert(u.input.push(c).drop_last() =~= u.input);
}

/// Enter and Esc end the typing, and nothing else does. Esc leaves no filter, Enter keeps
/// it; both leave nothing of a spec in the input, and only Enter may ask for something:
/// what adding the spec asks for, where there is more than blanks.
pub proof fn law_typing_ends(u: Ui, key: Key, f: Forwards, r: Reverses)
    ensures
        u.mode == Mode::Filter ==> (filter_next(u, key).mode == Mode::Normal <==> key is Enter
            || key is Esc),
        filter_next(u, Key::Esc).filter.len() == 0,
        filter_next(u, Key::Enter).filter == u.filter,
        u.mode == Mode::AddInput ==> (input_next(u, key, f, r).0.mode == Mode::Normal <==> key
            is Enter || key is Esc),
        key is Enter || key is Esc ==> input_next(u, key, f, r).0.input.len() == 0,
        input_next(u, key, f, r).2 is Bind ==> key is Enter && trimmed(u.input).len() > 0,
        trimmed(u.input).len() > 0 ==> input_next(u, Key::Enter, f, r).1 == typed(
            u,
            trimmed(u.input),
            f,
            r,
        ).1 && input_next(u, Key::Enter, f, r).2 == typed(u, trimmed(u.input), f, r).2,
{
}

/// What is read goes away by Esc, by `q` or by the key that opened it, and by no other.
pub proof fn law_overlay(u: Ui, key: Key, toggle: char)
    ensures
        overlay_next(u, key, toggle) == (Ui { mode: overlay_next(u, key, toggle).mode, ..u }),
        u.mode != Mode::Normal ==> (overlay_next(u, key, toggle).mode == Mode::Normal <==> key is Esc
            || key == Key::Char('q') || key == Key::Char(toggle)),
        overlay_next(u, key, toggle).mode == Mode::Normal || overlay_next(u, key, toggle) == u,
{
}

/// Enter in the picker binds the listener that is selected there: in its namespace, on its
/// port. No other key there binds anything.
pub proof fn law_pick(app: App, key: Key, f: Forwards, ns: crate::forward::Ns)
    ensures
        picker_next(app, key, f).1 is Bind ==> key is Enter,
        picker_next(app, key, f).1 is Bind || picker_next(app, key, f).1 is Nothing,
        key is Enter ==> picker_next(app, key, f).0.mode == Mode::Normal,
        app.picker matches Some(i) ==> (i < app.candidates().len() ==> ({
            let l = app.listeners@[app.candidates()[i as int]];
            ns.named() && l.ns@ == ns.wire() ==> (picker_next(app, Key::Enter, f).1 matches Wanted::Bind {
                spec,
                ports,
                picked,
            } && spec.ns == ns && spec.remote_port == l.port && spec.local_port == l.port
                && spec.local_addr == f.default_bind && picked == Some(l.port))
        })),
{
    if let Some(i) = app.picker {
        if i < app.candidates().len() {
            let l = app.listeners@[app.candidates()[i as int]];
            if ns.named() && l.ns@ == ns.wire() {
                crate::discovery::law_listener_is_forwarded(
                    ns,
                    l@.key.ip,
                    l@.key.port,
                    l@.process,
                    f.default_bind,
                );
            }
        }
    }
}

/// What keys open while the table is browsed: the input by `a`, the filter by `/`, the
/// picker by `f`, the list of keys by `?`, and, where a row is selected, its details by
/// `i` and the question whether to drop it by `d` or Delete. No other key leaves the table.
pub proof fn law_what_keys_open(app: App, k: KeyPress)
    requires
        app.mode == Mode::Normal,
    ensures
        browse(app, k) matches Browse::Show(u) ==> {
            &&& u.mode == Mode::AddInput <==> k.key == Key::Char('a')
            &&& u.mode == Mode::Filter <==> k.key == Key::Char('/')
            &&& u.mode == Mode::Picker <==> k.key == Key::Char('f')
            &&& u.mode == Mode::Help <==> k.key == Key::Char('?')
            &&& u.mode == Mode::Detail <==> k.key == Key::Char('i') && app.chosen() is Some
            &&& u.mode == Mode::ConfirmDrop <==> (k.key == Key::Char('d') || k.key is Delete)
                && app.chosen() is Some
            &&& u.filter == app@.filter || (k.key is Esc && u.filter.len() == 0)
            &&& u.mode == Mode::AddInput ==> u.input.len() == 0
            &&& u.table != app.table ==> k.key is Up || k.key is Down || k.key == Key::Char('j')
                || k.key == Key::Char('k')
        },
        browse(app, k) is Toggle ==> k.key == Key::Char('v'),
        browse(app, k) is Open ==> k.key == Key::Char('o') || k.key is Enter,
        browse(app, k) is Copy ==> k.key == Key::Char('y'),
        !app.reverse_is_chosen() ==> browse(app, KeyPress { key: Key::Char('v'), ctrl: k.ctrl })
            is Toggle && browse(app, KeyPress { key: Key::Char('o'), ctrl: k.ctrl }) is Open
            && browse(app, KeyPress { key: Key::Enter, ctrl: k.ctrl }) is Open && browse(
            app,
            KeyPress { key: Key::Char('y'), ctrl: k.ctrl },
        ) is Copy,
        app.reverse_is_chosen() ==> !(browse(app, k) is Toggle) && !(browse(app, k) is Open) && !(
        browse(app, k) is Copy),
{
}

/// A page up and a page down take the log back to where it was; the log does not scroll
/// beyond its end, and no other key scrolls it.
pub proof fn law_log_scrolls(app: App, up: App, k: KeyPress)
    requires
        app.log_scroll < usize::MAX - 4,
        browse(app, KeyPress { key: Key::PageUp, ctrl: k.ctrl }) == Browse::Show(up@),
    ensures
        up.log_scroll == app.log_scroll + 4,
        browse(up, KeyPress { key: Key::PageDown, ctrl: k.ctrl }) == Browse::Show(app@),
        app.log_scroll < 4 ==> (browse(app, KeyPress { key: Key::PageDown, ctrl: k.ctrl }) matches Browse::Show(
            u,
        ) && u.log_scroll == 0),
        browse(app, k) matches Browse::Show(u) ==> (u.log_scroll != app.log_scroll ==> k.key
            is PageUp || k.key is PageDown),
{
}

/// In the picker, Down and `j` go one row on, Up and `k` one row back; Esc, `f` and `q` leave
/// it, and every other key but Enter does nothing.
pub proof fn law_picker_keys(app: App, key: Key, f: Forwards, i: usize)
    requires
        app.mode == Mode::Picker,
        app.picker == Some(i),
        i < app.candidates().len() <= usize::MAX,
    ensures
        ({
            let n = app.candidates().len();
            let u = picker_next(app, key, f).0;
            &&& key is Down || key == Key::Char('j') ==> u.picker == Some(
                if i + 1 < n {
                    (i + 1) as usize
                } else {
                    0
                },
            ) && u.mode == Mode::Picker
            &&& key is Up || key == Key::Char('k') ==> u.picker == Some(
                if i > 0 {
                    (i - 1) as usize
                } else {
                    (n - 1) as usize
                },
            ) && u.mode == Mode::Picker
            &&& u.mode == Mode::Normal <==> key is Esc || key is Enter || key == Key::Char('f')
                || key == Key::Char('q')
            &&& u.picker != app.picker ==> key is Down || key is Up || key == Key::Char('j') || key
                == Key::Char('k')
        }),
{
    crate::tui::law_selection_moves(i, app.candidates().len());
}

/// `y`, of either case, drops what is selected; any other answer is told as a cancelled drop.
/// Every answer leads back to the table.
pub proof fn law_answers(
    app: App,
    key: Key,
    u2: Ui,
    f: Forwards,
    f2: Forwards,
    r: Reverses,
    r2: Reverses,
    i: usize,
)
    requires
        is_confirmed(app, key, u2, f, f2, r, r2),
    ensures
        u2.mode == Mode::Normal,
        app.chosen() == Some(Selection::Forward(i)) && has_port(
            f.entries,
            app.forwards@[i as int].local_port as int,
        ) ==> (key == Key::Char('y') || key == Key::Char('Y') <==> !f2.map().contains_key(
            app.forwards@[i as int].local_port as int,
        )),
        key != Key::Char('y') && key != Key::Char('Y') ==> u2.message == Some("drop cancelled"@),
{
}

} // verus!
