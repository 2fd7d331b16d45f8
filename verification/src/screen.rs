//! What the interactive screen shows, as texts: the header, the table of forwards, the
//! log, the line at the bottom, and what is laid over them.

use crate::client::{opt_text, string_texts, ForwardSnapshot, Origin};
use crate::command::{pad, padded};
use crate::control::{
    display_spec, health_label, health_text, reverse_health_label, state_text, state_words,
};
use crate::discovery::{found_of, Found, Listener};
use crate::forward::{debug_str, debug_text, endpoint_text, show_endpoint};
use crate::net::IpAddr;
use crate::reverse::ReverseSnapshot;
use crate::supervisor::Status;
use crate::text::{dec, decimal};
use crate::tui::{
    has_sample, places, process_label, process_of, sample_at, samples_of, App, Mode, PortThroughput,
    Selection,
};
use crate::units::{bytes_text, fmt_bytes, fmt_rate, rate_text};
use vstd::prelude::*;

verus! {

// ---- header ------------------------------------------------------------

/// The header.
#[derive(Debug)]
pub struct Header {
    pub title: String,
    pub state: String,
    /// All is well.
    pub good: bool,
    pub agent: String,
    pub transport: &'static str,
    /// The transport is the slow one.
    pub tunnel: bool,
}

impl App {
    /// The header: the host, the state of the session, the agent, and the transport,
    /// which makes the greatest difference in speed.
    pub fn header(&self) -> (r: Header)
        ensures
            r.title@ == "portmanager  "@ + self.host@ + "  "@,
            r.state@ == state_words(self.status),
            r.good == (self.status is Connected),
            r.agent@ == (if self.agent_version@.len() == 0 {
                Seq::<char>::empty()
            } else {
                "  agent v"@ + self.agent_version@
            }),
            r.transport@ == (if self.via_ssh {
                "  SSH TUNNEL — not QUIC"@
            } else {
                "  quic"@
            }),
            r.tunnel == self.via_ssh,
    {
        let agent: String = if self.agent_version.as_str().is_empty() {
            String::new()
        } else {
            String::from_str("  agent v").concat(self.agent_version.as_str())
        };
        proof {
            if self.agent_version@.len() == 0 {
                assert(agent@ =~= Seq::<char>::empty());
            }
        }
        Header {
            title: String::from_str("portmanager  ").concat(self.host.as_str()).concat("  "),
            state: state_text(&self.status),
            good: match self.status {
                Status::Connected => true,
                _ => false,
            },
            agent,
            transport: if self.via_ssh {
                "  SSH TUNNEL — not QUIC"
            } else {
                "  quic"
            },
            tunnel: self.via_ssh,
        }
    }
}

// ---- table -------------------------------------------------------------

/// A row of a table.
#[derive(Debug)]
pub struct Row {
    pub cells: Vec<String>,
    /// Shown with less weight.
    pub dim: bool,
}

/// The model of a [`Row`].
#[verifier::ext_equal]
pub struct Cells {
    pub cells: Seq<Seq<char>>,
    pub dim: bool,
}

impl View for Row {
    type V = Cells;

    open spec fn view(&self) -> Cells {
        Cells { cells: string_texts(self.cells@), dim: self.dim }
    }
}

/// The models of a list of rows.
pub open spec fn cells_of(v: Seq<Row>) -> Seq<Cells> {
    v.map_values(|r: Row| r@)
}

/// A table, or what is shown in its place where it has no rows.
#[derive(Debug)]
pub struct TableView {
    pub title: String,
    pub rows: Vec<Row>,
    pub hint: Option<&'static str>,
}

/// A namespace in words.
pub open spec fn ns_shown(wire: Seq<char>) -> Seq<char> {
    if wire.len() == 0 {
        "host"@
    } else {
        wire
    }
}

/// Who can reach a listener at this address.
pub open spec fn visibility(addr: IpAddr) -> Seq<char> {
    if addr == IpAddr::local() {
        "private"@
    } else {
        "exposed ("@ + addr.text() + ")"@
    }
}

/// The rate of a port, in whole bytes per second: of the first entry for it.
pub open spec fn rate_in(rates: Seq<(u16, u64)>, port: u16) -> nat
    decreases rates.len(),
{
    if rates.len() == 0 {
        0
    } else if rates[0].0 == port {
        rates[0].1 as nat
    } else {
        rate_in(rates.drop_first(), port)
    }
}

/// A process in a table.
pub open spec fn process_shown(p: Option<Seq<char>>) -> Seq<char> {
    match p {
        Some(t) => t,
        None => "—"@,
    }
}

/// A forward's target in words.
pub open spec fn target_shown(s: ForwardSnapshot, socks: Seq<char>) -> Seq<char> {
    if s.spec.kind is Socks {
        socks
    } else {
        s.spec.remote_host@ + ":"@ + decimal(s.spec.remote_port as int)
    }
}

/// The row of a forward.
pub open spec fn forward_row(
    s: ForwardSnapshot,
    listeners: Seq<Found>,
    rates: Seq<(u16, u64)>,
    connected: bool,
) -> Cells {
    Cells {
        cells: seq![
            "→ "@ + decimal(s.local_port as int),
            target_shown(s, "socks5 (dynamic)"@),
            process_shown(
                process_of(listeners, s.spec@.ns.wire(), s.spec.remote_port as int),
            ),
            ns_shown(s.spec@.ns.wire()),
            visibility(s.spec.local_addr),
            s.origin.text(),
            rate_text(rate_in(rates, s.local_port)),
            health_text(connected, s.ok_connections as int, opt_text(s.last_error)),
        ],
        dim: false,
    }
}

/// The row of a reverse forward: the data flows the other way, so the remote end takes
/// the place of the local one.
pub open spec fn reverse_row(s: ReverseSnapshot, connected: bool) -> Cells {
    Cells {
        cells: seq![
            "← "@ + decimal(s.spec.remote_bind_port as int),
            s.spec.local_host@ + ":"@ + decimal(s.spec.local_port as int),
            "—"@,
            ns_shown(s.spec@.ns.wire()),
            visibility(s.spec.remote_bind_addr),
            s.origin.text(),
            "—"@,
            health_text(connected, s.ok_connections as int, opt_text(s.last_error)),
        ],
        dim: true,
    }
}

impl App {
    /// The rows of the table: the forwards that are shown, then the reverse forwards.
    pub open spec fn table_rows(self, rates: Seq<(u16, u64)>) -> Seq<Cells> {
        self.rows().map_values(
            |i: int|
                forward_row(
                    self.forwards@[i],
                    found_of(self.listeners@),
                    rates,
                    self.connected,
                ),
        ) + self.reverse@.take(self.reverse_rows() as int).map_values(
            |s: ReverseSnapshot| reverse_row(s, self.connected),
        )
    }

    /// The title of the table.
    pub open spec fn table_title(self) -> Seq<char> {
        let n = decimal(self.rows().len() as int);
        if self.filter@.len() == 0 {
            " forwards ("@ + n + ")"@ + (if self.reverse@.len() > 0 {
                " · reverse ("@ + decimal(self.reverse@.len() as int) + ")"@
            } else {
                Seq::empty()
            }) + " "@
        } else {
            " forwards ("@ + n + ", filter "@ + debug_text(self.filter@) + ") "@
        }
    }
}

fn ns_text(wire: String) -> (r: String)
    ensures
        r@ == ns_shown(wire@),
{
    if wire.as_str().is_empty() {
        "host".to_owned()
    } else {
        wire
    }
}

fn visibility_text(addr: &IpAddr) -> (r: String)
    ensures
        r@ == visibility(*addr),
{
    if *addr == IpAddr::localhost() {
        "private".to_owned()
    } else {
        String::from_str("exposed (").concat(addr.to_text().as_str()).concat(")")
    }
}

fn rate_of(rates: &Vec<(u16, u64)>, port: u16) -> (r: u64)
    ensures
        r == rate_in(rates@, port),
{
    let mut i: usize = 0;
    proof {
        assert(rates@.skip(0) =~= rates@);
    }
    while i < rates.len()
        invariant
            i <= rates@.len(),
            rate_in(rates@, port) == rate_in(rates@.skip(i as int), port),
        decreases rates@.len() - i,
    {
        proof {
            assert(rates@.skip(i as int)[0] == rates@[i as int]);
            assert(rates@.skip(i as int).drop_first() =~= rates@.skip(i + 1));
        }
        if rates[i].0 == port {
            return rates[i].1;
        }
        i = i + 1;
    }
    0
}

fn process_text(p: Option<String>) -> (r: String)
    ensures
        r@ == process_shown(opt_text(p)),
{
    match p {
        Some(t) => t,
        None => "—".to_owned(),
    }
}

fn target_text(s: &ForwardSnapshot, socks: &str) -> (r: String)
    ensures
        r@ == target_shown(*s, socks@),
{
    if s.spec.is_socks() {
        socks.to_owned()
    } else {
        s.spec.remote_host.clone().concat(":").concat(dec(s.spec.remote_port as u64).as_str())
    }
}

fn show_forward(
    s: &ForwardSnapshot,
    listeners: &Vec<Listener>,
    rates: &Vec<(u16, u64)>,
    connected: bool,
) -> (r: Row)
    ensures
        r@ == forward_row(*s, found_of(listeners@), rates@, connected),
{
    let ns: String = s.spec.ns.to_wire();
    let mut cells: Vec<String> = Vec::new();
    cells.push(String::from_str("→ ").concat(dec(s.local_port as u64).as_str()));
    cells.push(target_text(s, "socks5 (dynamic)"));
    cells.push(process_text(process_label(listeners, ns.as_str(), s.spec.remote_port)));
    cells.push(ns_text(ns));
    cells.push(visibility_text(&s.spec.local_addr));
    cells.push(s.origin.label().to_owned());
    cells.push(fmt_rate(rate_of(rates, s.local_port)));
    cells.push(health_label(connected, s));
    let r = Row { cells, dim: false };
    proof {
        assert(r@.cells =~= forward_row(*s, found_of(listeners@), rates@, connected).cells);
    }
    r
}

fn show_reverse(s: &ReverseSnapshot, connected: bool) -> (r: Row)
    ensures
        r@ == reverse_row(*s, connected),
{
    let mut cells: Vec<String> = Vec::new();
    cells.push(String::from_str("← ").concat(dec(s.spec.remote_bind_port as u64).as_str()));
    cells.push(
        s.spec.local_host.clone().concat(":").concat(dec(s.spec.local_port as u64).as_str()),
    );
    cells.push("—".to_owned());
    cells.push(ns_text(s.spec.ns.to_wire()));
    cells.push(visibility_text(&s.spec.remote_bind_addr));
    cells.push(s.origin.label().to_owned());
    cells.push("—".to_owned());
    cells.push(reverse_health_label(connected, s));
    let r = Row { cells, dim: true };
    proof {
        assert(r@.cells =~= reverse_row(*s, connected).cells);
    }
    r
}

/// The headings of the table's columns.
pub fn table_headings() -> (r: Vec<String>)
    ensures
        string_texts(r@) == seq![
            "Port"@,
            "Forwarded Address"@,
            "Running Process"@,
            "Namespace"@,
            "Visibility"@,
            "Origin"@,
            "Rate"@,
            "Health"@,
        ],
{
    let mut v: Vec<String> = Vec::new();
    v.push("Port".to_owned());
    v.push("Forwarded Address".to_owned());
    v.push("Running Process".to_owned());
    v.push("Namespace".to_owned());
    v.push("Visibility".to_owned());
    v.push("Origin".to_owned());
    v.push("Rate".to_owned());
    v.push("Health".to_owned());
    v
}

impl App {
    /// The table. `rates` gives the rates of local ports in whole bytes per second.
    pub fn table_view(&self, rates: &Vec<(u16, u64)>) -> (r: TableView)
        ensures
            cells_of(r.rows@) == self.table_rows(rates@),
            r.title@ == self.table_title(),
            r.hint is Some <==> self.table_rows(rates@).len() == 0,
            r.hint matches Some(h) ==> h@ == (if self.forwards@.len() == 0 {
                "No forwards yet. Press 'a' to add one (e.g. 8888), or 'f' to pick a discovered port."@
            } else {
                "No forwards match the filter. Press Esc to clear it."@
            }),
    {
        let v: Vec<usize> = self.visible();
        let ghost all = self.table_rows(rates@);
        let ghost n = self.rows().len() as int;
        let ghost m = self.reverse_rows() as int;
        let mut rows: Vec<Row> = Vec::new();
        let mut i: usize = 0;
        proof {
            assert(places(v@).len() == v@.len());
            assert(all.len() == n + m);
            assert(cells_of(rows@) =~= all.take(0));
        }
        while i < v.len()
            invariant
                i <= v@.len(),
                n == v@.len(),
                all.len() >= n,
                all == self.table_rows(rates@),
                places(v@) == self.rows(),
                forall|k: int| 0 <= k < v@.len() ==> (#[trigger] v@[k]) < self.forwards@.len(),
                cells_of(rows@) == all.take(i as int),
            decreases v@.len() - i,
        {
            let ghost before = cells_of(rows@);
            let row = show_forward(
                &self.forwards[v[i]],
                &self.listeners,
                rates,
                self.connected,
            );
            let ghost c = row@;
            rows.push(row);
            proof {
                assert(places(v@)[i as int] == v@[i as int] as int);
                assert(all[i as int] == c);
                assert(cells_of(rows@) =~= before.push(c));
                assert(all.take(i + 1) =~= before.push(c));
            }
            i = i + 1;
        }
        let count: usize = rows.len();
        proof {
            assert(cells_of(rows@).len() == rows@.len());
        }
        let unfiltered: bool = self.filter.as_str().is_empty();
        if unfiltered {
            let mut k: usize = 0;
            while k < self.reverse.len()
                invariant
                    k <= self.reverse@.len(),
                    m == self.reverse@.len(),
                    n == self.rows().len(),
                    self.filter@.len() == 0,
                    all.len() == n + m,
                    all == self.table_rows(rates@),
                    cells_of(rows@) == all.take(n + k),
                decreases self.reverse@.len() - k,
            {
                let ghost before = cells_of(rows@);
                let row = show_reverse(&self.reverse[k], self.connected);
                let ghost c = row@;
                rows.push(row);
                proof {
                    assert(self.reverse@.take(m) =~= self.reverse@);
                    assert(all[n + k] == c);
                    assert(cells_of(rows@) =~= before.push(c));
                    assert(all.take(n + k + 1) =~= before.push(c));
                }
                k = k + 1;
            }
        }
        proof {
            assert(all.take(n + m) =~= all);
            assert(cells_of(rows@).len() == rows@.len());
        }
        let mut title: String = String::from_str(" forwards (");
        title.append(dec(count as u64).as_str());
        if unfiltered {
            title.append(")");
            let ghost before = title@;
            if self.reverse.len() > 0 {
                title.append(" · reverse (");
                title.append(dec(self.reverse.len() as u64).as_str());
                title.append(")");
            } else {
                proof {
                    assert(before =~= before + Seq::<char>::empty());
                }
            }
            title.append(" ");
        } else {
            title.append(", filter ");
            title.append(debug_str(self.filter.as_str()).as_str());
            title.append(") ");
        }
        proof {
            assert(title@ =~= self.table_title());
        }
        let hint: Option<&'static str> = if rows.len() == 0 {
            if self.forwards.len() == 0 {
                Some(
                    "No forwards yet. Press 'a' to add one (e.g. 8888), or 'f' to pick a discovered port.",
                )
            } else {
                Some("No forwards match the filter. Press Esc to clear it.")
            }
        } else {
            None
        };
        TableView { title, rows, hint }
    }
}

// ---- log ---------------------------------------------------------------

/// The lines of the log that are shown.
#[derive(Debug)]
pub struct LogView {
    pub title: String,
    pub from: usize,
    pub to: usize,
}

/// The offset from the end of the log that is kept: never beyond the first page.
pub open spec fn scroll_kept(scroll: int, len: int, inner: int) -> int {
    let most = if len > inner {
        len - inner
    } else {
        0
    };
    if scroll < most {
        scroll
    } else {
        most
    }
}

impl App {
    /// The lines of the log that fit on a pane of `height` rows with a border round it.
    /// The scroll offset is kept within the log, so that scrolling back reaches the end.
    pub fn log_view(&mut self, height: u16) -> (r: LogView)
        ensures
            ({
                let inner = if height >= 2 {
                    height - 2
                } else {
                    0
                };
                let len = old(self).logs@.len() as int;
                let scroll = scroll_kept(old(self).log_scroll as int, len, inner);
                &&& *final(self) == (App { log_scroll: scroll as usize, ..*old(self) })
                &&& r.to == len - scroll
                &&& r.from == (if r.to > inner {
                    r.to - inner
                } else {
                    0int
                })
                &&& r.title@ == (if scroll > 0 {
                    " log (scrolled +"@ + decimal(scroll) + ", PgDn to follow) "@
                } else {
                    " log "@
                })
            }),
            r.from <= r.to <= final(self).logs@.len(),
    {
        let inner: usize = if height >= 2 {
            (height - 2) as usize
        } else {
            0
        };
        let len: usize = self.logs.len();
        let most: usize = if len > inner {
            len - inner
        } else {
            0
        };
        if self.log_scroll > most {
            self.log_scroll = most;
        }
        let to: usize = len - self.log_scroll;
        let from: usize = if to > inner {
            to - inner
        } else {
            0
        };
        let title: String = if self.log_scroll > 0 {
            String::from_str(" log (scrolled +").concat(
                dec(self.log_scroll as u64).as_str(),
            ).concat(", PgDn to follow) ")
        } else {
            " log ".to_owned()
        };
        LogView { title, from, to }
    }
}

// ---- the line at the bottom --------------------------------------------

/// How the line at the bottom is meant.
#[derive(Debug, Clone, Copy, PartialEq, Eq, Structural)]
pub enum Tone {
    /// Something is being typed.
    Prompt,
    /// Something needs attention.
    Notice,
    /// A reminder.
    Hint,
}

/// The line at the bottom.
#[derive(Debug)]
pub struct Footer {
    pub tone: Tone,
    pub text: String,
    /// What was typed so far.
    pub typed: Option<String>,
}

impl App {
    /// What is about to be dropped.
    pub open spec fn drop_what(self) -> Seq<char> {
        match self.chosen() {
            Some(Selection::Forward(i)) => "port "@ + decimal(
                self.forwards@[i as int].local_port as int,
            ),
            Some(Selection::Reverse(i)) => "reverse R:"@ + decimal(
                self.reverse@[i as int].spec.remote_bind_port as int,
            ),
            None => "selection"@,
        }
    }

    /// The line at the bottom.
    pub open spec fn footer_line(self) -> (Tone, Seq<char>, Option<Seq<char>>) {
        match self.mode {
            Mode::AddInput => (
                Tone::Prompt,
                "add forward (-R for reverse): "@,
                Some(self.input@),
            ),
            Mode::Filter => (Tone::Prompt, "filter: "@, Some(self.filter@)),
            Mode::ConfirmDrop => (
                Tone::Notice,
                "drop "@ + self.drop_what() + "? (y/n)"@,
                None,
            ),
            Mode::Picker => (Tone::Hint, "↑/↓ select  enter forward  esc/f close"@, None),
            Mode::Help => (Tone::Hint, "esc/q to close"@, None),
            Mode::Detail => (Tone::Hint, "esc/q to close"@, None),
            Mode::Normal => match self.message {
                Some(m) => (Tone::Notice, m@, None),
                None => (
                    Tone::Hint,
                    "a add  d drop  o open  y copy  i detail  v vis  f find  / filter  ? help  q quit"@,
                    None,
                ),
            },
        }
    }

    /// The line at the bottom.
    pub fn footer(&self) -> (r: Footer)
        ensures
            (r.tone, r.text@, opt_text(r.typed)) == self.footer_line(),
    {
        match self.mode {
            Mode::AddInput => Footer {
                tone: Tone::Prompt,
                text: "add forward (-R for reverse): ".to_owned(),
                typed: Some(self.input.clone()),
            },
            Mode::Filter => Footer {
                tone: Tone::Prompt,
                text: "filter: ".to_owned(),
                typed: Some(self.filter.clone()),
            },
            Mode::ConfirmDrop => {
                let what: String = match self.selected_row() {
                    Some(Selection::Forward(i)) => String::from_str("port ").concat(
                        dec(self.forwards[i].local_port as u64).as_str(),
                    ),
                    Some(Selection::Reverse(i)) => String::from_str("reverse R:").concat(
                        dec(self.reverse[i].spec.remote_bind_port as u64).as_str(),
                    ),
                    None => "selection".to_owned(),
                };
                Footer {
                    tone: Tone::Notice,
                    text: String::from_str("drop ").concat(what.as_str()).concat("? (y/n)"),
                    typed: None,
                }
            },
            Mode::Picker => Footer {
                tone: Tone::Hint,
                text: "↑/↓ select  enter forward  esc/f close".to_owned(),
                typed: None,
            },
            Mode::Help | Mode::Detail => Footer {
                tone: Tone::Hint,
                text: "esc/q to close".to_owned(),
                typed: None,
            },
            Mode::Normal => match &self.message {
                Some(m) => Footer { tone: Tone::Notice, text: m.clone(), typed: None },
                None => Footer {
                    tone: Tone::Hint,
                    text:
                        "a add  d drop  o open  y copy  i detail  v vis  f find  / filter  ? help  q quit".to_owned(),
                    typed: None,
                },
            },
        }
    }
}

// ---- keys --------------------------------------------------------------

/// The keys and what they do.
pub open spec fn help_text() -> Seq<(Seq<char>, Seq<char>)> {
    seq![
        ("a"@, "add a forward (spec, Enter; prefix -R for reverse)"@),
        ("d / Del"@, "drop the selected row, forward or reverse (confirm)"@),
        ("o / Enter"@, "open the forward in a browser (forwards only)"@),
        ("y"@, "copy the forward's URL to the clipboard (forwards only)"@),
        ("i"@, "inspect the selected row (detail + throughput)"@),
        ("v"@, "toggle visibility, private ↔ exposed (forwards only)"@),
        ("f"@, "find: pick a discovered port to forward"@),
        ("/"@, "filter the table (Esc clears)"@),
        ("PgUp / PgDn"@, "scroll the log pane"@),
        ("↑/↓ or k/j"@, "move the selection"@),
        ("? "@, "toggle this help"@),
        ("q"@, "quit"@),
    ]
}

/// The models of a list of pairs of strings.
pub open spec fn pair_texts(v: Seq<(&'static str, &'static str)>) -> Seq<(Seq<char>, Seq<char>)> {
    v.map_values(|p: (&'static str, &'static str)| (p.0@, p.1@))
}

/// The keys and what they do.
pub fn help_rows() -> (r: Vec<(&'static str, &'static str)>)
    ensures
        pair_texts(r@) == help_text(),
{
    let mut v: Vec<(&'static str, &'static str)> = Vec::new();
    v.push(("a", "add a forward (spec, Enter; prefix -R for reverse)"));
    v.push(("d / Del", "drop the selected row, forward or reverse (confirm)"));
    v.push(("o / Enter", "open the forward in a browser (forwards only)"));
    v.push(("y", "copy the forward's URL to the clipboard (forwards only)"));
    v.push(("i", "inspect the selected row (detail + throughput)"));
    v.push(("v", "toggle visibility, private ↔ exposed (forwards only)"));
    v.push(("f", "find: pick a discovered port to forward"));
    v.push(("/", "filter the table (Esc clears)"));
    v.push(("PgUp / PgDn", "scroll the log pane"));
    v.push(("↑/↓ or k/j", "move the selection"));
    v.push(("? ", "toggle this help"));
    v.push(("q", "quit"));
    proof {
        assert(pair_texts(v@) =~= help_text());
    }
    v
}

// ---- details -----------------------------------------------------------

/// A field of the details: its label, filled up to the width of its column, and its
/// value.
#[derive(Debug)]
pub struct Field {
    pub label: String,
    pub value: String,
}

/// The models of a list of fields.
pub open spec fn fields_of(v: Seq<Field>) -> Seq<(Seq<char>, Seq<char>)> {
    v.map_values(|f: Field| (f.label@, f.value@))
}

/// The details of the selected row.
#[derive(Debug)]
pub struct DetailView {
    pub title: String,
    pub fields: Vec<Field>,
    /// The last failure, if there was one, as a field of its own.
    pub error: Option<Field>,
    /// What a forward carried in recent intervals; nothing for a reverse forward.
    pub spark: Option<Vec<u64>>,
}

/// The details of a forward. `up` and `down` are its rates in whole bytes per second.
pub open spec fn forward_fields(s: ForwardSnapshot, bind: IpAddr, up: nat, down: nat) -> Seq<
    (Seq<char>, Seq<char>),
> {
    seq![
        (padded("spec:"@, 9), s.spec@.rendered(bind)),
        (padded("local:"@, 9), endpoint_text(s.local_addr, s.local_port as int)),
        (padded("target:"@, 9), target_shown(s, "socks5 (dynamic, per-connection)"@)),
        (padded("ns:"@, 9), ns_shown(s.spec@.ns.wire())),
        (padded("origin:"@, 9), s.origin.text()),
        (padded("conns:"@, 9), decimal(s.ok_connections as int)),
        (
            padded("up:"@, 9),
            bytes_text(s.bytes_up as nat) + " ("@ + rate_text(up) + ")"@,
        ),
        (
            padded("down:"@, 9),
            bytes_text(s.bytes_down as nat) + " ("@ + rate_text(down) + ")"@,
        ),
    ]
}

/// The details of a reverse forward.
pub open spec fn reverse_fields(s: ReverseSnapshot) -> Seq<(Seq<char>, Seq<char>)> {
    seq![
        (padded("spec:"@, 13), s.spec@.rendered()),
        (
            padded("remote bind:"@, 13),
            s.spec.remote_bind_addr.text() + ":"@ + decimal(s.spec.remote_bind_port as int),
        ),
        (
            padded("local target:"@, 13),
            s.spec.local_host@ + ":"@ + decimal(s.spec.local_port as int),
        ),
        (padded("ns:"@, 13), ns_shown(s.spec@.ns.wire())),
        (padded("origin:"@, 13), s.origin.text()),
        (padded("conns:"@, 13), decimal(s.ok_connections as int)),
        (padded("to remote:"@, 13), bytes_text(s.bytes_down as nat)),
        (padded("from remote:"@, 13), bytes_text(s.bytes_up as nat)),
    ]
}

/// The last failure as a field.
pub open spec fn error_field(error: Option<String>, width: nat) -> Option<(Seq<char>, Seq<char>)> {
    match error {
        Some(e) => Some((padded("error:"@, width), e@)),
        None => None,
    }
}

/// The model of an optional field.
pub open spec fn opt_field(f: Option<Field>) -> Option<(Seq<char>, Seq<char>)> {
    match f {
        Some(x) => Some((x.label@, x.value@)),
        None => None,
    }
}

fn field(label: &str, width: usize, value: String) -> (r: Field)
    ensures
        r.label@ == padded(label@, width as nat),
        r.value@ == value@,
{
    Field { label: pad(label, width), value }
}

fn show_error(error: &Option<String>, width: usize) -> (r: Option<Field>)
    ensures
        opt_field(r) == error_field(*error, width as nat),
{
    match error {
        Some(e) => Some(field("error:", width, e.clone())),
        None => None,
    }
}

/// What the first sample of a port holds of recent intervals.
pub open spec fn history_of(v: Seq<PortThroughput>, port: u16) -> Seq<u64> {
    let s = samples_of(v);
    if has_sample(s, port) {
        s[choose|i: int| sample_at(s, port, i)].history
    } else {
        Seq::empty()
    }
}

fn copy_history(v: &Vec<PortThroughput>, port: u16) -> (r: Vec<u64>)
    ensures
        r@ == history_of(v@, port),
{
    let ghost s = samples_of(v@);
    let mut i: usize = 0;
    while i < v.len()
        invariant
            i <= v@.len(),
            s == samples_of(v@),
            forall|j: int| 0 <= j < i ==> (#[trigger] s[j]).port != port,
        decreases v@.len() - i,
    {
        proof {
            assert(s[i as int] == v@[i as int]@);
        }
        if v[i].port == port {
            let mut r: Vec<u64> = Vec::new();
            let ghost h = v@[i as int].history@;
            let mut k: usize = 0;
            while k < v[i].history.len()
                invariant
                    i < v@.len(),
                    h == v@[i as int].history@,
                    k <= h.len(),
                    r@ == h.take(k as int),
                decreases h.len() - k,
            {
                r.push(v[i].history[k]);
                proof {
                    assert(r@ =~= h.take(k + 1));
                }
                k = k + 1;
            }
            proof {
                assert(r@ =~= h);
                assert(sample_at(s, port, i as int));
                let c = choose|c: int| sample_at(s, port, c);
                assert(sample_at(s, port, c));
                assert(c == i);
            }
            return r;
        }
        i = i + 1;
    }
    Vec::new()
}

fn show_forward_fields(s: &ForwardSnapshot, bind: IpAddr, up: u64, down: u64) -> (r: Vec<Field>)
    ensures
        fields_of(r@) == forward_fields(*s, bind, up as nat, down as nat),
{
    let mut v: Vec<Field> = Vec::new();
    v.push(field("spec:", 9, display_spec(&s.spec, bind)));
    v.push(field("local:", 9, show_endpoint(&s.local_addr, s.local_port)));
    v.push(field("target:", 9, target_text(s, "socks5 (dynamic, per-connection)")));
    v.push(field("ns:", 9, ns_text(s.spec.ns.to_wire())));
    v.push(field("origin:", 9, s.origin.label().to_owned()));
    v.push(field("conns:", 9, dec(s.ok_connections)));
    v.push(
        field(
            "up:",
            9,
            fmt_bytes(s.bytes_up).concat(" (").concat(fmt_rate(up).as_str()).concat(")"),
        ),
    );
    v.push(
        field(
            "down:",
            9,
            fmt_bytes(s.bytes_down).concat(" (").concat(fmt_rate(down).as_str()).concat(")"),
        ),
    );
    proof {
        assert(fields_of(v@) =~= forward_fields(*s, bind, up as nat, down as nat));
    }
    v
}

fn show_reverse_fields(s: &ReverseSnapshot) -> (r: Vec<Field>)
    ensures
        fields_of(r@) == reverse_fields(*s),
{
    let mut v: Vec<Field> = Vec::new();
    v.push(field("spec:", 13, s.spec.to_spec_string()));
    v.push(
        field(
            "remote bind:",
            13,
            s.spec.remote_bind_addr.to_text().concat(":").concat(
                dec(s.spec.remote_bind_port as u64).as_str(),
            ),
        ),
    );
    v.push(
        field(
            "local target:",
            13,
            s.spec.local_host.clone().concat(":").concat(dec(s.spec.local_port as u64).as_str()),
        ),
    );
    v.push(field("ns:", 13, ns_text(s.spec.ns.to_wire())));
    v.push(field("origin:", 13, s.origin.label().to_owned()));
    v.push(field("conns:", 13, dec(s.ok_connections)));
    v.push(field("to remote:", 13, fmt_bytes(s.bytes_down)));
    v.push(field("from remote:", 13, fmt_bytes(s.bytes_up)));
    proof {
        assert(fields_of(v@) =~= reverse_fields(*s));
    }
    v
}

impl App {
    /// The details of the selected row. `up` and `down` are the rates of the selected
    /// forward in whole bytes per second.
    pub fn detail(&self, up: u64, down: u64) -> (r: Option<DetailView>)
        ensures
            match (self.chosen(), r) {
                (None, None) => true,
                (Some(Selection::Forward(i)), Some(d)) => {
                    let s = self.forwards@[i as int];
                    &&& d.title@ == " forward :"@ + decimal(s.local_port as int) + " "@
                    &&& fields_of(d.fields@) == forward_fields(
                        s,
                        self.default_bind,
                        up as nat,
                        down as nat,
                    )
                    &&& opt_field(d.error) == error_field(s.last_error, 9)
                    &&& d.spark matches Some(h) && h@ == history_of(
                        self.throughput@,
                        s.local_port,
                    )
                },
                (Some(Selection::Reverse(i)), Some(d)) => {
                    let s = self.reverse@[i as int];
                    &&& d.title@ == " reverse R:"@ + decimal(s.spec.remote_bind_port as int) + " "@
                    &&& fields_of(d.fields@) == reverse_fields(s)
                    &&& opt_field(d.error) == error_field(s.last_error, 13)
                    &&& d.spark is None
                },
                _ => false,
            },
    {
        match self.selected_row() {
            None => None,
            Some(Selection::Forward(i)) => {
                let s: &ForwardSnapshot = &self.forwards[i];
                Some(
                    DetailView {
                        title: String::from_str(" forward :").concat(
                            dec(s.local_port as u64).as_str(),
                        ).concat(" "),
                        fields: show_forward_fields(s, self.default_bind, up, down),
                        error: show_error(&s.last_error, 9),
                        spark: Some(copy_history(&self.throughput, s.local_port)),
                    },
                )
            },
            Some(Selection::Reverse(i)) => {
                let s: &ReverseSnapshot = &self.reverse[i];
                Some(
                    DetailView {
                        title: String::from_str(" reverse R:").concat(
                            dec(s.spec.remote_bind_port as u64).as_str(),
                        ).concat(" "),
                        fields: show_reverse_fields(s),
                        error: show_error(&s.last_error, 13),
                        spark: None,
                    },
                )
            },
        }
    }
}

// ---- picker ------------------------------------------------------------

/// The row of a discovered port.
pub open spec fn picker_row(l: Listener) -> Cells {
    Cells {
        cells: seq![
            ns_shown(l.ns@),
            l.ip@ + ":"@ + decimal(l.port as int),
            process_shown(
                match l@.process {
                    Some(p) => Some(
                        p.name + " ("@ + crate::text::signed_decimal(p.pid) + ")"@,
                    ),
                    None => None,
                },
            ),
        ],
        dim: false,
    }
}

fn show_listener(l: &Listener) -> (r: Row)
    ensures
        r@ == picker_row(*l),
{
    let mut cells: Vec<String> = Vec::new();
    cells.push(ns_text(l.ns.clone()));
    cells.push(l.ip.clone().concat(":").concat(dec(l.port as u64).as_str()));
    cells.push(
        match &l.process {
            Some(p) => p.name.clone().concat(" (").concat(
                crate::text::dec_i32(p.pid).as_str(),
            ).concat(")"),
            None => "—".to_owned(),
        },
    );
    let r = Row { cells, dim: false };
    proof {
        assert(r@.cells =~= picker_row(*l).cells);
    }
    r
}

impl App {
    /// The discovered ports that are not forwarded.
    pub fn picker_view(&self) -> (r: TableView)
        ensures
            cells_of(r.rows@) == self.candidates().map_values(
                |i: int| picker_row(self.listeners@[i]),
            ),
            r.title@ == " discovered ports ("@ + decimal(self.candidates().len() as int) + ") "@,
            r.hint is Some <==> self.candidates().len() == 0,
            r.hint matches Some(h) ==> h@
                == "No unforwarded ports detected. Listeners appear here as discovery sees them."@,
    {
        let v: Vec<usize> = self.discovered_unforwarded();
        let ghost all = self.candidates().map_values(|i: int| picker_row(self.listeners@[i]));
        let mut rows: Vec<Row> = Vec::new();
        let mut i: usize = 0;
        proof {
            assert(places(v@).len() == v@.len());
            assert(cells_of(rows@) =~= all.take(0));
        }
        while i < v.len()
            invariant
                i <= v@.len(),
                all == self.candidates().map_values(|i: int| picker_row(self.listeners@[i])),
                places(v@) == self.candidates(),
                forall|k: int| 0 <= k < v@.len() ==> (#[trigger] v@[k]) < self.listeners@.len(),
                cells_of(rows@) == all.take(i as int),
            decreases v@.len() - i,
        {
            let ghost before = cells_of(rows@);
            let row = show_listener(&self.listeners[v[i]]);
            let ghost c = row@;
            rows.push(row);
            proof {
                assert(places(v@)[i as int] == v@[i as int] as int);
                assert(all[i as int] == c);
                assert(cells_of(rows@) =~= before.push(c));
                assert(all.take(i + 1) =~= before.push(c));
            }
            i = i + 1;
        }
        proof {
            assert(all.take(i as int) =~= all);
            assert(cells_of(rows@).len() == rows@.len());
        }
        let title: String = String::from_str(" discovered ports (").concat(
            dec(rows.len() as u64).as_str(),
        ).concat(") ");
        let hint: Option<&'static str> = if rows.len() == 0 {
            Some("No unforwarded ports detected. Listeners appear here as discovery sees them.")
        } else {
            None
        };
        TableView { title, rows, hint }
    }
}

// ---- laws --------------------------------------------------------------

/// Scrolling down far enough always reaches the end of the log again, and the log is
/// never scrolled beyond its first page.
pub proof fn law_log_reaches_end(scroll: int, len: int, inner: int)
    requires
        0 <= scroll,
        0 <= len,
        0 <= inner,
    ensures
        0 <= scroll_kept(scroll, len, inner) <= len,
        scroll_kept(scroll, len, inner) <= scroll,
        scroll_kept(0, len, inner) == 0,
        scroll_kept(scroll, len, inner) > 0 ==> len - scroll_kept(scroll, len, inner) >= inner,
{
}

/// The table has as many rows as can be selected.
pub proof fn law_rows_are_selectable(app: App, rates: Seq<(u16, u64)>)
    ensures
        app.table_rows(rates).len() == app.rows().len() + app.reverse_rows(),
{
}

/// The rows of the table are the forwards that are shown, then the reverse forwards; every
/// row has a cell for each heading.
pub proof fn law_table_rows(app: App, rates: Seq<(u16, u64)>, k: int)
    ensures
        0 <= k < app.rows().len() ==> app.table_rows(rates)[k] == forward_row(
            app.forwards@[app.rows()[k]],
            found_of(app.listeners@),
            rates,
            app.connected,
        ) && app.table_rows(rates)[k].cells.len() == 8,
        app.filter@.len() == 0 && 0 <= k < app.reverse@.len() ==> app.table_rows(rates)[app.rows().len()
            + k] == reverse_row(app.reverse@[k], app.connected) && app.table_rows(
            rates,
        )[app.rows().len() + k].cells.len() == 8,
        app.filter@.len() > 0 ==> app.table_rows(rates).len() == app.rows().len(),
{
}

/// A row shows what its forward is: under "Port" the local port, then what it dials, its
/// namespace and who can reach it. The arrow tells the direction.
pub proof fn law_forward_row(
    s: ForwardSnapshot,
    listeners: Seq<Found>,
    rates: Seq<(u16, u64)>,
    connected: bool,
)
    ensures
        ({
            let c = forward_row(s, listeners, rates, connected).cells;
            &&& c[0].len() > 2 && c[0].skip(2) == decimal(s.local_port as int) && c[0][0] == '→'
            &&& !(s.spec.kind is Socks) ==> c[1] == s.spec.remote_host@ + ":"@ + decimal(
                s.spec.remote_port as int,
            )
            &&& c[3] == (if s.spec@.ns.wire().len() == 0 {
                "host"@
            } else {
                s.spec@.ns.wire()
            })
            &&& c[4] == "private"@ <==> s.spec.local_addr == IpAddr::local()
            &&& c[5] == s.origin.text()
            &&& c[7] == health_text(connected, s.ok_connections as int, opt_text(s.last_error))
            &&& !forward_row(s, listeners, rates, connected).dim
        }),
{
    reveal_strlit("→ ");
    reveal_strlit("private");
    reveal_strlit("exposed (");
    crate::text::lemma_decimal_digits(s.local_port as int);
    let c = forward_row(s, listeners, rates, connected).cells;
    assert(c[0].skip(2) =~= decimal(s.local_port as int));
    if s.spec.local_addr != IpAddr::local() {
        assert(c[4][0] == 'e');
        assert("private"@[0] == 'p');
    }
}

/// A row shows what its reverse forward is: under "Port" the remote port, then the local
/// end that it dials. The arrow tells the direction.
pub proof fn law_reverse_row(s: ReverseSnapshot, connected: bool)
    ensures
        ({
            let c = reverse_row(s, connected).cells;
            &&& c[0].len() > 2 && c[0].skip(2) == decimal(s.spec.remote_bind_port as int) && c[0][0]
                == '←'
            &&& c[1] == s.spec.local_host@ + ":"@ + decimal(s.spec.local_port as int)
            &&& c[4] == "private"@ <==> s.spec.remote_bind_addr == IpAddr::local()
            &&& c[5] == s.origin.text()
            &&& c[7] == health_text(connected, s.ok_connections as int, opt_text(s.last_error))
            &&& reverse_row(s, connected).dim
        }),
{
    reveal_strlit("← ");
    reveal_strlit("private");
    reveal_strlit("exposed (");
    crate::text::lemma_decimal_digits(s.spec.remote_bind_port as int);
    let c = reverse_row(s, connected).cells;
    assert(c[0].skip(2) =~= decimal(s.spec.remote_bind_port as int));
    if s.spec.remote_bind_addr != IpAddr::local() {
        assert(c[4][0] == 'e');
        assert("private"@[0] == 'p');
    }
}

/// The rate of a port is that of the first entry for it, and nothing where there is none.
pub proof fn law_rate_in(rates: Seq<(u16, u64)>, port: u16, i: int)
    requires
        0 <= i <= rates.len(),
        forall|j: int| 0 <= j < i ==> (#[trigger] rates[j]).0 != port,
        i < rates.len() ==> rates[i].0 == port,
    ensures
        i < rates.len() ==> rate_in(rates, port) == rates[i].1,
        i == rates.len() ==> rate_in(rates, port) == 0,
    decreases rates.len(),
{
    if rates.len() > 0 && i > 0 {
        let t = rates.drop_first();
        assert(rates[0].0 != port);
        assert forall|j: int| 0 <= j < i - 1 implies (#[trigger] t[j]).0 != port by {
            assert(t[j] == rates[j + 1]);
        }
        if i < rates.len() {
            assert(t[i - 1] == rates[i]);
        }
        law_rate_in(t, port, i - 1);
    }
}

/// The line at the bottom shows what is typed while something is, and only then; it asks
/// before a drop, and names what would go. A message stands there while the table is
/// browsed.
pub proof fn law_footer(app: App)
    ensures
        app.footer_line().2 is Some <==> app.mode == Mode::AddInput || app.mode == Mode::Filter,
        app.mode == Mode::AddInput ==> app.footer_line().2 == Some(app.input@),
        app.mode == Mode::Filter ==> app.footer_line().2 == Some(app.filter@),
        app.mode == Mode::ConfirmDrop ==> crate::text::has_part(
            app.footer_line().1,
            app.drop_what(),
        ) && app.footer_line().0 == Tone::Notice,
        app.chosen() matches Some(Selection::Forward(i)) ==> crate::text::has_part(
            app.drop_what(),
            decimal(app.forwards@[i as int].local_port as int),
        ),
        app.chosen() matches Some(Selection::Reverse(i)) ==> crate::text::has_part(
            app.drop_what(),
            decimal(app.reverse@[i as int].spec.remote_bind_port as int),
        ),
        app.mode == Mode::Normal && app.message is Some ==> app.footer_line().1
            == app.message->Some_0@,
{
    let w = app.drop_what();
    let t = "drop "@ + w + "? (y/n)"@;
    let n: int = "drop "@.len() as int;
    assert(t.subrange(n, n + w.len()) =~= w);
    assert(crate::text::occurs_at(t, w, n));
    match app.chosen() {
        Some(Selection::Forward(i)) => {
            let d = decimal(app.forwards@[i as int].local_port as int);
            let m: int = "port "@.len() as int;
            assert(w.subrange(m, m + d.len()) =~= d);
            assert(crate::text::occurs_at(w, d, m));
        },
        Some(Selection::Reverse(i)) => {
            let d = decimal(app.reverse@[i as int].spec.remote_bind_port as int);
            let m: int = "reverse R:"@.len() as int;
            assert(w.subrange(m, m + d.len()) =~= d);
            assert(crate::text::occurs_at(w, d, m));
        },
        None => {},
    }
}

/// The log is scrolled by as much as was asked for, as far as there are lines above the
/// first page, and not at all where all fits.
pub proof fn law_log_scrolled(scroll: int, len: int, inner: int)
    requires
        0 <= scroll,
        0 <= inner,
        0 <= len,
    ensures
        scroll + inner <= len ==> scroll_kept(scroll, len, inner) == scroll,
        scroll + inner > len && len > inner ==> scroll_kept(scroll, len, inner) == len - inner,
        len <= inner ==> scroll_kept(scroll, len, inner) == 0,
{
}

/// The details give the spec, both ends, the counters and the rates of what is selected.
pub proof fn law_details(s: ForwardSnapshot, r: ReverseSnapshot, bind: IpAddr, up: nat, down: nat)
    ensures
        ({
            let f = forward_fields(s, bind, up, down);
            &&& f[0].1 == s.spec@.rendered(bind)
            &&& f[1].1 == endpoint_text(s.local_addr, s.local_port as int)
            &&& f[5].1 == decimal(s.ok_connections as int)
            &&& f[6].1 == bytes_text(s.bytes_up as nat) + " ("@ + rate_text(up) + ")"@
            &&& f[7].1 == bytes_text(s.bytes_down as nat) + " ("@ + rate_text(down) + ")"@
            &&& f[6].0.take(3) == "up:"@ && f[7].0.take(5) == "down:"@
        }),
        ({
            let f = reverse_fields(r);
            &&& f[0].1 == r.spec@.rendered()
            &&& f[6].0.take(10) == "to remote:"@ && f[6].1 == bytes_text(r.bytes_down as nat)
            &&& f[7].0.take(12) == "from remote:"@ && f[7].1 == bytes_text(r.bytes_up as nat)
        }),
{
    reveal_strlit("up:");
    reveal_strlit("down:");
    reveal_strlit("to remote:");
    reveal_strlit("from remote:");
    crate::command::law_padded("up:"@, 9);
    crate::command::law_padded("down:"@, 9);
    crate::command::law_padded("to remote:"@, 13);
    crate::command::law_padded("from remote:"@, 13);
}

/// What is drawn of a forward's past is what its first sample holds, and nothing where it
/// has none.
pub proof fn law_history(v: Seq<PortThroughput>, port: u16, i: int)
    ensures
        sample_at(samples_of(v), port, i) ==> history_of(v, port) == v[i]@.history,
        (forall|k: int| 0 <= k < v.len() ==> (#[trigger] v[k]).port != port) ==> history_of(
            v,
            port,
        ).len() == 0,
{
    let s = samples_of(v);
    if sample_at(s, port, i) {
        let k = choose|k: int| sample_at(s, port, k);
        assert(sample_at(s, port, k));
        assert(k == i) by {
            if k < i {
                assert(s[k].port == port);
            }
            if i < k {
                assert(s[i].port == port);
            }
        }
    }
    if forall|k: int| 0 <= k < v.len() ==> (#[trigger] v[k]).port != port {
        assert forall|k: int| 0 <= k < s.len() implies (#[trigger] s[k]).port != port by {
            assert(s[k] == v[k]@);
        }
    }
}

/// The title counts the forwards that are shown, and names the filter where there is one;
/// without one it counts the reverse forwards, where there are any.
pub proof fn law_title(app: App)
    ensures
        app.filter@.len() > 0 ==> app.table_title() == " forwards ("@ + decimal(
            app.rows().len() as int,
        ) + ", filter "@ + debug_text(app.filter@) + ") "@,
        app.filter@.len() == 0 && app.reverse@.len() == 0 ==> app.table_title() == " forwards ("@
            + decimal(app.forwards@.len() as int) + ") "@,
        app.filter@.len() == 0 && app.reverse@.len() > 0 ==> app.table_title() == " forwards ("@
            + decimal(app.forwards@.len() as int) + ") · reverse ("@ + decimal(
            app.reverse@.len() as int,
        ) + ") "@,
{
    reveal_strlit(")");
    reveal_strlit(" ");
    reveal_strlit(") ");
    reveal_strlit(" · reverse (");
    reveal_strlit(") · reverse (");
    if app.filter@.len() == 0 {
        crate::tui::law_no_filter_shows_all(app);
        assert(app.rows().len() == app.forwards@.len());
        let h = " forwards ("@ + decimal(app.forwards@.len() as int);
        if app.reverse@.len() == 0 {
            assert(app.table_title() =~= h + ") "@);
        } else {
            let r = decimal(app.reverse@.len() as int);
            assert(app.table_title() =~= h + ") · reverse ("@ + r + ") "@);
        }
    }
}

} // verus!
