//! The state behind the interactive screen: what is shown, what is selected, and how
//! much the forwards carry.
//!
//! The table reads the live forwards on every tick. The process of a forward is found
//! by joining the discovered listeners to it by namespace and remote port. What keys do
//! is in [`crate::keys`], what the screen looks like in [`crate::screen`].

use crate::client::ForwardSnapshot;
use crate::discovery::{found_of, Found, Listener};
use crate::net::IpAddr;
use crate::reverse::ReverseSnapshot;
use crate::supervisor::Status;
use crate::text::{
    contains, dec, dec_i32, decimal, has_part, lowercase_text, signed_decimal, str_eq, to_lowercase,
};
use std::collections::VecDeque;
use vstd::prelude::*;

verus! {

/// What the keys and the screen are about at the moment.
#[derive(Debug, Clone, Copy, PartialEq, Eq, Structural)]
pub enum Mode {
    /// Browsing the table.
    Normal,
    /// Typing a new forward spec.
    AddInput,
    /// Typing a filter for the table.
    Filter,
    /// Confirming a drop of the selected row.
    ConfirmDrop,
    /// Reading the list of keys.
    Help,
    /// Reading the details of the selected row.
    Detail,
    /// Picking one of the discovered ports that are not forwarded.
    Picker,
}

/// The selected row of the table: its place among the forwards or the reverse forwards.
#[derive(Debug, Clone, Copy, PartialEq, Eq, Structural)]
pub enum Selection {
    Forward(usize),
    Reverse(usize),
}

/// What one forward carries, sampled once per tick.
#[derive(Debug)]
pub struct PortThroughput {
    pub port: u16,
    pub prev_up: u64,
    pub prev_down: u64,
    /// When it was sampled, in nanoseconds.
    pub prev_at: u64,
    /// Bytes sent during the last interval.
    pub delta_up: u64,
    /// Bytes received during the last interval.
    pub delta_down: u64,
    /// How long the last interval took, in nanoseconds; 0 where there was none yet.
    pub elapsed: u64,
    /// Bytes of both directions in recent intervals, newest last.
    pub history: VecDeque<u64>,
}

/// The model of a [`PortThroughput`].
#[verifier::ext_equal]
pub struct Sample {
    pub port: u16,
    pub prev_up: u64,
    pub prev_down: u64,
    pub prev_at: u64,
    pub delta_up: u64,
    pub delta_down: u64,
    pub elapsed: u64,
    pub history: Seq<u64>,
}

impl View for PortThroughput {
    type V = Sample;

    open spec fn view(&self) -> Sample {
        Sample {
            port: self.port,
            prev_up: self.prev_up,
            prev_down: self.prev_down,
            prev_at: self.prev_at,
            delta_up: self.delta_up,
            delta_down: self.delta_down,
            elapsed: self.elapsed,
            history: self.history@,
        }
    }
}

/// How many intervals are kept.
pub const THROUGHPUT_HISTORY: usize = 60;

/// The state of the screen.
#[derive(Debug)]
pub struct App {
    pub host: String,
    pub forwards: Vec<ForwardSnapshot>,
    pub reverse: Vec<ReverseSnapshot>,
    pub listeners: Vec<Listener>,
    pub logs: Vec<String>,
    pub status: Status,
    pub connected: bool,
    pub agent_version: String,
    /// The selected row of the table.
    pub table: Option<usize>,
    /// The selected row of the picker.
    pub picker: Option<usize>,
    pub mode: Mode,
    pub input: String,
    /// The filter of the table; empty shows all.
    pub filter: String,
    /// Lines scrolled up from the end of the log.
    pub log_scroll: usize,
    /// What the forwards carry.
    pub throughput: Vec<PortThroughput>,
    /// What is shown at the bottom for the moment.
    pub message: Option<String>,
    /// Whether the data plane is the SSH tunnel.
    pub via_ssh: bool,
    /// The address of listeners whose spec gives none.
    pub default_bind: IpAddr,
}

/// The process that owns the listener on a port of a namespace, in words: of the first
/// of the listeners there whose process is known.
pub open spec fn process_of(listeners: Seq<Found>, ns: Seq<char>, port: int) -> Option<Seq<char>>
    decreases listeners.len(),
{
    if listeners.len() == 0 {
        None
    } else {
        match listeners[0].process {
            Some(p) => if listeners[0].key.ns == ns && listeners[0].key.port == port {
                Some(p.name + " ("@ + signed_decimal(p.pid) + ")"@)
            } else {
                process_of(listeners.drop_first(), ns, port)
            },
            None => process_of(listeners.drop_first(), ns, port),
        }
    }
}

/// What the filter is looked for in.
pub open spec fn haystack(s: ForwardSnapshot, listeners: Seq<Found>) -> Seq<char> {
    decimal(s.local_port as int) + " "@ + s.spec.remote_host@ + ":"@ + decimal(
        s.spec.remote_port as int,
    ) + " "@ + s.spec@.ns.wire() + " "@ + (match process_of(
        listeners,
        s.spec@.ns.wire(),
        s.spec.remote_port as int,
    ) {
        Some(p) => p,
        None => Seq::empty(),
    })
}

/// A selection kept within `n` rows.
pub open spec fn clamped(selected: Option<usize>, n: nat) -> Option<usize> {
    if n == 0 {
        None
    } else {
        match selected {
            None => Some(0),
            Some(i) => if i < n {
                Some(i)
            } else {
                Some((n - 1) as usize)
            },
        }
    }
}

/// A selection moved by one of `n` rows, from the last to the first and back.
pub open spec fn moved(selected: Option<usize>, n: nat, down: bool) -> Option<usize> {
    if n == 0 {
        selected
    } else {
        let cur = match selected {
            None => 0int,
            Some(i) => i as int,
        };
        if down {
            Some(((cur + 1) % (n as int)) as usize)
        } else {
            Some(((cur - 1) % (n as int)) as usize)
        }
    }
}

impl App {
    /// The forward at `i` passes the filter.
    pub open spec fn shows(self, i: int) -> bool {
        self.filter@.len() == 0 || has_part(
            lowercase_text(haystack(self.forwards@[i], found_of(self.listeners@))),
            lowercase_text(self.filter@),
        )
    }

    /// Those of the first `n` forwards that pass the filter.
    pub open spec fn shown(self, n: nat) -> Seq<int>
        decreases n,
    {
        if n == 0 {
            Seq::empty()
        } else {
            let r = self.shown((n - 1) as nat);
            if self.shows(n - 1) {
                r.push(n - 1)
            } else {
                r
            }
        }
    }

    /// The forwards that pass the filter.
    pub open spec fn rows(self) -> Seq<int> {
        self.shown(self.forwards@.len())
    }

    /// How many reverse forwards are shown: all of them, where there is no filter.
    pub open spec fn reverse_rows(self) -> nat {
        if self.filter@.len() == 0 {
            self.reverse@.len()
        } else {
            0
        }
    }

    /// The selected row.
    pub open spec fn chosen(self) -> Option<Selection> {
        match self.table {
            None => None,
            Some(i) => {
                let v = self.rows();
                if i < v.len() {
                    Some(Selection::Forward(v[i as int] as usize))
                } else if i - v.len() < self.reverse_rows() {
                    Some(Selection::Reverse((i - v.len()) as usize))
                } else {
                    None
                }
            },
        }
    }

    /// A forward already dials what listens at `i`.
    pub open spec fn is_forwarded(self, i: int) -> bool {
        exists|k: int|
            0 <= k < self.forwards@.len() && (#[trigger] self.forwards@[k]).spec@.ns.wire()
                == self.listeners@[i].ns@ && self.forwards@[k].spec.remote_port
                == self.listeners@[i].port
    }

    /// Those of the first `n` listeners that no forward dials.
    pub open spec fn open_to(self, n: nat) -> Seq<int>
        decreases n,
    {
        if n == 0 {
            Seq::empty()
        } else {
            let r = self.open_to((n - 1) as nat);
            if self.is_forwarded(n - 1) {
                r
            } else {
                r.push(n - 1)
            }
        }
    }

    /// The listeners that no forward dials.
    pub open spec fn candidates(self) -> Seq<int> {
        self.open_to(self.listeners@.len())
    }
}

proof fn lemma_shown(app: App, n: nat)
    requires
        n <= app.forwards@.len(),
    ensures
        app.shown(n).len() <= n,
        forall|k: int|
            0 <= k < app.shown(n).len() ==> 0 <= #[trigger] app.shown(n)[k] < n && app.shows(
                app.shown(n)[k],
            ),
    decreases n,
{
    if n > 0 {
        lemma_shown(app, (n - 1) as nat);
    }
}

/// Places in a list, as numbers.
pub open spec fn places(v: Seq<usize>) -> Seq<int> {
    v.map_values(|i: usize| i as int)
}

/// The process that owns the listener on a port of a namespace, in words.
pub fn process_label(listeners: &Vec<Listener>, ns: &str, port: u16) -> (r: Option<String>)
    ensures
        crate::client::opt_text(r) == process_of(found_of(listeners@), ns@, port as int),
{
    let ghost f = found_of(listeners@);
    let mut i: usize = 0;
    proof {
        assert(f.skip(0) =~= f);
    }
    while i < listeners.len()
        invariant
            i <= listeners@.len(),
            f == found_of(listeners@),
            process_of(f, ns@, port as int) == process_of(f.skip(i as int), ns@, port as int),
        decreases listeners@.len() - i,
    {
        proof {
            assert(f[i as int] == listeners@[i as int]@);
            assert(f.skip(i as int)[0] == f[i as int]);
            assert(f.skip(i as int).drop_first() =~= f.skip(i + 1));
        }
        if let Some(p) = &listeners[i].process {
            if listeners[i].port == port && str_eq(listeners[i].ns.as_str(), ns) {
                return Some(
                    p.name.clone().concat(" (").concat(dec_i32(p.pid).as_str()).concat(")"),
                );
            }
        }
        i = i + 1;
    }
    proof {
        assert(f.skip(i as int) =~= Seq::<Found>::empty());
    }
    None
}

fn clamp(selected: Option<usize>, n: usize) -> (r: Option<usize>)
    ensures
        r == clamped(selected, n as nat),
{
    if n == 0 {
        return None;
    }
    match selected {
        None => Some(0),
        Some(i) => {
            if i < n {
                Some(i)
            } else {
                Some(n - 1)
            }
        },
    }
}

fn shift(selected: Option<usize>, n: usize, down: bool) -> (r: Option<usize>)
    ensures
        r == moved(selected, n as nat, down),
{
    if n == 0 {
        return selected;
    }
    let cur: usize = match selected {
        None => 0,
        Some(i) => i,
    };
    let c: usize = cur % n;
    proof {
        let d = n as int;
        let q = cur as int / d;
        vstd::arithmetic::div_mod::lemma_fundamental_div_mod(cur as int, d);
        vstd::arithmetic::div_mod::lemma_mod_multiples_vanish(q, c + 1, d);
        vstd::arithmetic::div_mod::lemma_mod_multiples_vanish(q, c - 1, d);
        if c + 1 < n {
            vstd::arithmetic::div_mod::lemma_small_mod((c + 1) as nat, n as nat);
        } else {
            assert(c + 1 == d);
            vstd::arithmetic::div_mod::lemma_mod_self_0(d);
        }
        if c >= 1 {
            vstd::arithmetic::div_mod::lemma_small_mod((c - 1) as nat, n as nat);
        } else {
            vstd::arithmetic::div_mod::lemma_mod_multiples_vanish(-1, d - 1, d);
            vstd::arithmetic::div_mod::lemma_small_mod((d - 1) as nat, n as nat);
            assert(d * (-1) + (d - 1) == c - 1);
        }
    }
    if down {
        if c + 1 == n {
            Some(0)
        } else {
            Some(c + 1)
        }
    } else {
        if c == 0 {
            Some(n - 1)
        } else {
            Some(c - 1)
        }
    }
}

impl App {
    /// An empty screen for `host`.
    pub fn new(host: String, default_bind: IpAddr) -> (r: App)
        ensures
            r.host == host,
            r.default_bind == default_bind,
            r.forwards@.len() == 0,
            r.reverse@.len() == 0,
            r.listeners@.len() == 0,
            r.logs@.len() == 0,
            r.status == Status::Bootstrapping,
            !r.connected,
            r.agent_version@.len() == 0,
            r.table == Some(0usize),
            r.picker == Some(0usize),
            r.mode == Mode::Normal,
            r.input@.len() == 0,
            r.filter@.len() == 0,
            r.log_scroll == 0,
            r.throughput@.len() == 0,
            r.message is None,
            !r.via_ssh,
    {
        App {
            host,
            forwards: Vec::new(),
            reverse: Vec::new(),
            listeners: Vec::new(),
            logs: Vec::new(),
            status: Status::Bootstrapping,
            connected: false,
            agent_version: String::new(),
            table: Some(0),
            picker: Some(0),
            mode: Mode::Normal,
            input: String::new(),
            filter: String::new(),
            log_scroll: 0,
            throughput: Vec::new(),
            message: None,
            via_ssh: false,
            default_bind,
        }
    }

    fn shows_row(&self, i: usize, needle: &str) -> (r: bool)
        requires
            i < self.forwards@.len(),
            self.filter@.len() > 0,
            needle@ == lowercase_text(self.filter@),
        ensures
            r == self.shows(i as int),
    {
        let s: &ForwardSnapshot = &self.forwards[i];
        let ns: String = s.spec.ns.to_wire();
        let mut hay: String = dec(s.local_port as u64);
        hay.append(" ");
        hay.append(s.spec.remote_host.as_str());
        hay.append(":");
        hay.append(dec(s.spec.remote_port as u64).as_str());
        hay.append(" ");
        hay.append(ns.as_str());
        hay.append(" ");
        let ghost before = hay@;
        match process_label(&self.listeners, ns.as_str(), s.spec.remote_port) {
            Some(p) => {
                hay.append(p.as_str());
            },
            None => {
                proof {
                    assert(before =~= before + Seq::<char>::empty());
                }
            },
        }
        proof {
            assert(hay@ =~= haystack(self.forwards@[i as int], found_of(self.listeners@)));
        }
        contains(to_lowercase(hay.as_str()).as_str(), needle)
    }

    /// The forwards that are shown, by their places. The selection and the table both
    /// count these.
    pub fn visible(&self) -> (r: Vec<usize>)
        ensures
            places(r@) == self.rows(),
            forall|k: int| 0 <= k < r@.len() ==> (#[trigger] r@[k]) < self.forwards@.len(),
    {
        let mut v: Vec<usize> = Vec::new();
        let all: bool = self.filter.as_str().is_empty();
        let needle: String = to_lowercase(self.filter.as_str());
        let mut i: usize = 0;
        proof {
            assert(places(v@) =~= Seq::<int>::empty());
        }
        while i < self.forwards.len()
            invariant
                i <= self.forwards@.len(),
                all == (self.filter@.len() == 0),
                needle@ == lowercase_text(self.filter@),
                places(v@) == self.shown(i as nat),
                forall|k: int| 0 <= k < v@.len() ==> (#[trigger] v@[k]) < self.forwards@.len(),
            decreases self.forwards@.len() - i,
        {
            let ghost before = places(v@);
            if all || self.shows_row(i, needle.as_str()) {
                v.push(i);
                proof {
                    assert(places(v@) =~= before.push(i as int));
                }
            }
            i = i + 1;
        }
        v
    }

    /// The discovered listeners that no forward dials, by their places.
    pub fn discovered_unforwarded(&self) -> (r: Vec<usize>)
        ensures
            places(r@) == self.candidates(),
            forall|k: int| 0 <= k < r@.len() ==> (#[trigger] r@[k]) < self.listeners@.len(),
    {
        let mut v: Vec<usize> = Vec::new();
        let mut i: usize = 0;
        proof {
            assert(places(v@) =~= Seq::<int>::empty());
        }
        while i < self.listeners.len()
            invariant
                i <= self.listeners@.len(),
                places(v@) == self.open_to(i as nat),
                forall|k: int| 0 <= k < v@.len() ==> (#[trigger] v@[k]) < self.listeners@.len(),
            decreases self.listeners@.len() - i,
        {
            let ghost before = places(v@);
            let mut found: bool = false;
            let mut k: usize = 0;
            while k < self.forwards.len() && !found
                invariant
                    i < self.listeners@.len(),
                    k <= self.forwards@.len(),
                    found ==> self.is_forwarded(i as int),
                    !found ==> forall|j: int|
                        0 <= j < k ==> !((#[trigger] self.forwards@[j]).spec@.ns.wire()
                            == self.listeners@[i as int].ns@ && self.forwards@[j].spec.remote_port
                            == self.listeners@[i as int].port),
                decreases self.forwards@.len() - k,
            {
                if self.forwards[k].spec.remote_port == self.listeners[i].port && str_eq(
                    self.forwards[k].spec.ns.to_wire().as_str(),
                    self.listeners[i].ns.as_str(),
                ) {
                    assert(self.forwards@[k as int].spec@.ns.wire()
                        == self.listeners@[i as int].ns@);
                    found = true;
                }
                k = k + 1;
            }
            if !found {
                v.push(i);
                proof {
                    assert(!self.is_forwarded(i as int));
                    assert(places(v@) =~= before.push(i as int));
                }
            }
            i = i + 1;
        }
        v
    }

    /// How many rows can be selected: the forwards that are shown, then the reverse
    /// forwards.
    pub fn selectable_len(&self) -> (r: usize)
        requires
            self.forwards@.len() + self.reverse@.len() <= usize::MAX,
        ensures
            r == self.rows().len() + self.reverse_rows(),
    {
        let v = self.visible();
        proof {
            assert(places(v@).len() == v@.len());
            lemma_shown(*self, self.forwards@.len());
        }
        if self.filter.as_str().is_empty() {
            v.len() + self.reverse.len()
        } else {
            v.len()
        }
    }

    /// Keeps both selections within what there is to select.
    pub fn clamp_selection(&mut self)
        requires
            old(self).forwards@.len() + old(self).reverse@.len() <= usize::MAX,
        ensures
            *final(self) == (App {
                table: clamped(old(self).table, old(self).rows().len() + old(self).reverse_rows()),
                picker: clamped(old(self).picker, old(self).candidates().len()),
                ..*old(self)
            }),
    {
        let rows: usize = self.selectable_len();
        let v = self.discovered_unforwarded();
        let discovered: usize = v.len();
        proof {
            assert(places(v@).len() == v@.len());
        }
        self.table = clamp(self.table, rows);
        self.picker = clamp(self.picker, discovered);
    }

    /// The selected row: a forward, or a reverse forward.
    pub fn selected_row(&self) -> (r: Option<Selection>)
        ensures
            r == self.chosen(),
            match r {
                Some(Selection::Forward(i)) => i < self.forwards@.len(),
                Some(Selection::Reverse(i)) => i < self.reverse@.len(),
                None => true,
            },
    {
        match self.table {
            None => None,
            Some(i) => {
                let v = self.visible();
                proof {
                    assert(places(v@).len() == v@.len());
                }
                if i < v.len() {
                    proof {
                        assert(places(v@)[i as int] == v@[i as int] as int);
                    }
                    return Some(Selection::Forward(v[i]));
                }
                let k: usize = i - v.len();
                if self.filter.as_str().is_empty() && k < self.reverse.len() {
                    Some(Selection::Reverse(k))
                } else {
                    None
                }
            },
        }
    }

    /// The selected forward; none where a reverse forward is selected.
    pub fn selected(&self) -> (r: Option<usize>)
        ensures
            r == (match self.chosen() {
                Some(Selection::Forward(i)) => Some(i),
                _ => None::<usize>,
            }),
            r matches Some(i) ==> i < self.forwards@.len(),
    {
        match self.selected_row() {
            Some(Selection::Forward(i)) => Some(i),
            _ => None,
        }
    }

    /// Whether a reverse forward is selected.
    pub fn reverse_selected(&self) -> (r: bool)
        ensures
            r == (self.chosen() matches Some(Selection::Reverse(_))),
    {
        match self.selected_row() {
            Some(Selection::Reverse(_)) => true,
            _ => false,
        }
    }

    /// Selects the next row of the table, or the one before.
    pub fn move_selection(&mut self, down: bool)
        requires
            old(self).forwards@.len() + old(self).reverse@.len() <= usize::MAX,
        ensures
            *final(self) == (App {
                table: moved(
                    old(self).table,
                    old(self).rows().len() + old(self).reverse_rows(),
                    down,
                ),
                ..*old(self)
            }),
    {
        let n: usize = self.selectable_len();
        self.table = shift(self.table, n, down);
    }

    /// Selects the next row of the picker, or the one before.
    pub fn move_picker(&mut self, down: bool)
        ensures
            *final(self) == (App {
                picker: moved(old(self).picker, old(self).candidates().len(), down),
                ..*old(self)
            }),
    {
        let v = self.discovered_unforwarded();
        proof {
            assert(places(v@).len() == v@.len());
        }
        self.picker = shift(self.picker, v.len(), down);
    }
}

// ---- throughput --------------------------------------------------------

/// The models of a list of samples.
pub open spec fn samples_of(v: Seq<PortThroughput>) -> Seq<Sample> {
    v.map_values(|t: PortThroughput| t@)
}

/// Some forward is on this local port.
pub open spec fn is_live(forwards: Seq<ForwardSnapshot>, port: u16) -> bool {
    exists|i: int| 0 <= i < forwards.len() && (#[trigger] forwards[i]).local_port == port
}

/// The samples of forwards that are still there.
pub open spec fn live_samples(s: Seq<Sample>, forwards: Seq<ForwardSnapshot>) -> Seq<Sample>
    decreases s.len(),
{
    if s.len() == 0 {
        s
    } else {
        let r = live_samples(s.drop_last(), forwards);
        if is_live(forwards, s.last().port) {
            r.push(s.last())
        } else {
            r
        }
    }
}

/// The place of the first sample of a port.
pub open spec fn sample_at(s: Seq<Sample>, port: u16, i: int) -> bool {
    &&& 0 <= i < s.len()
    &&& s[i].port == port
    &&& forall|j: int| 0 <= j < i ==> (#[trigger] s[j]).port != port
}

/// There is a sample of the port.
pub open spec fn has_sample(s: Seq<Sample>, port: u16) -> bool {
    exists|i: int| 0 <= i < s.len() && (#[trigger] s[i]).port == port
}

/// What a counter rose by; nothing where it fell.
pub open spec fn risen(now: u64, before: u64) -> u64 {
    if now > before {
        (now - before) as u64
    } else {
        0
    }
}

/// The newest of a list, as many as are kept.
pub open spec fn newest(h: Seq<u64>) -> Seq<u64> {
    if h.len() > THROUGHPUT_HISTORY {
        h.skip(h.len() - THROUGHPUT_HISTORY)
    } else {
        h
    }
}

/// A sample after another look at its forward, at a later time.
pub open spec fn resampled(t: Sample, s: ForwardSnapshot, now: u64) -> Sample {
    if now <= t.prev_at {
        t
    } else {
        let up = risen(s.bytes_up, t.prev_up);
        let down = risen(s.bytes_down, t.prev_down);
        Sample {
            port: t.port,
            prev_up: s.bytes_up,
            prev_down: s.bytes_down,
            prev_at: now,
            delta_up: up,
            delta_down: down,
            elapsed: (now - t.prev_at) as u64,
            history: newest(t.history.push((up + down) as u64)),
        }
    }
}

/// The first sample of a forward: something to hold the next one against.
pub open spec fn baseline(s: ForwardSnapshot, now: u64) -> Sample {
    Sample {
        port: s.local_port,
        prev_up: s.bytes_up,
        prev_down: s.bytes_down,
        prev_at: now,
        delta_up: 0,
        delta_down: 0,
        elapsed: 0,
        history: Seq::empty(),
    }
}

/// The samples after a look at one forward.
pub open spec fn with_sample(samples: Seq<Sample>, s: ForwardSnapshot, now: u64) -> Seq<Sample> {
    if has_sample(samples, s.local_port) {
        let i = choose|i: int| sample_at(samples, s.local_port, i);
        samples.update(i, resampled(samples[i], s, now))
    } else {
        samples.push(baseline(s, now))
    }
}

/// The samples after a look at the first `n` forwards.
pub open spec fn with_samples(
    samples: Seq<Sample>,
    forwards: Seq<ForwardSnapshot>,
    now: u64,
    n: nat,
) -> Seq<Sample>
    decreases n,
{
    if n == 0 {
        samples
    } else {
        with_sample(with_samples(samples, forwards, now, (n - 1) as nat), forwards[n - 1], now)
    }
}

fn port_live(forwards: &Vec<ForwardSnapshot>, port: u16) -> (r: bool)
    ensures
        r == is_live(forwards@, port),
{
    let mut i: usize = 0;
    while i < forwards.len()
        invariant
            i <= forwards@.len(),
            forall|j: int| 0 <= j < i ==> (#[trigger] forwards@[j]).local_port != port,
        decreases forwards@.len() - i,
    {
        if forwards[i].local_port == port {
            return true;
        }
        i = i + 1;
    }
    false
}

fn find_sample(v: &Vec<PortThroughput>, port: u16) -> (r: Option<usize>)
    ensures
        match r {
            Some(i) => sample_at(samples_of(v@), port, i as int) && has_sample(
                samples_of(v@),
                port,
            ),
            None => !has_sample(samples_of(v@), port),
        },
{
    let ghost s = samples_of(v@);
    let mut i: usize = 0;
    while i < v.len()
        invariant
            i <= v@.len(),
            s == samples_of(v@),
            forall|j: int| 0 <= j < i ==> (#[trigger] s[j]).port != port,
        decreases v@.len() - i,
    {
        assert(s[i as int] == v@[i as int]@);
        if v[i].port == port {
            return Some(i);
        }
        i = i + 1;
    }
    None
}

fn resample(t: &mut PortThroughput, s: &ForwardSnapshot, now: u64)
    requires
        s.bytes_up + s.bytes_down <= u64::MAX,
        old(t).history@.len() <= THROUGHPUT_HISTORY,
    ensures
        final(t)@ == resampled(old(t)@, *s, now),
        final(t).history@.len() <= THROUGHPUT_HISTORY,
{
    if now <= t.prev_at {
        return;
    }
    let up: u64 = if s.bytes_up > t.prev_up {
        s.bytes_up - t.prev_up
    } else {
        0
    };
    let down: u64 = if s.bytes_down > t.prev_down {
        s.bytes_down - t.prev_down
    } else {
        0
    };
    t.delta_up = up;
    t.delta_down = down;
    t.elapsed = now - t.prev_at;
    let ghost pushed = t.history@.push((up + down) as u64);
    t.history.push_back(up + down);
    if t.history.len() > THROUGHPUT_HISTORY {
        let _ = t.history.pop_front();
        proof {
            assert(t.history@ =~= pushed.skip(1));
        }
    }
    t.prev_up = s.bytes_up;
    t.prev_down = s.bytes_down;
    t.prev_at = now;
}

/// The history of every sample is as long as is kept, at most.
pub open spec fn bounded(s: Seq<Sample>) -> bool {
    forall|i: int| 0 <= i < s.len() ==> (#[trigger] s[i]).history.len() <= THROUGHPUT_HISTORY
}

impl App {
    /// Samples the counters of the forwards, `now` in nanoseconds. Samples of forwards
    /// that are gone are dropped; a forward that is new gets something to hold the next
    /// sample against.
    pub fn sample_throughput(&mut self, now: u64)
        requires
            bounded(samples_of(old(self).throughput@)),
            forall|i: int|
                0 <= i < old(self).forwards@.len() ==> (#[trigger] old(self).forwards@[i]).bytes_up
                    + old(self).forwards@[i].bytes_down <= u64::MAX,
        ensures
            bounded(samples_of(final(self).throughput@)),
            samples_of(final(self).throughput@) == with_samples(
                live_samples(samples_of(old(self).throughput@), old(self).forwards@),
                old(self).forwards@,
                now,
                old(self).forwards@.len(),
            ),
            *final(self) == (App { throughput: final(self).throughput, ..*old(self) }),
    {
        let ghost s0 = samples_of(self.throughput@);
        let mut kept: Vec<PortThroughput> = Vec::new();
        let mut all: Vec<PortThroughput> = Vec::new();
        std::mem::swap(&mut all, &mut self.throughput);
        let n: usize = all.len();
        let mut i: usize = 0;
        proof {
            assert(s0.take(0) =~= Seq::<Sample>::empty());
            assert(samples_of(kept@) =~= Seq::<Sample>::empty());
        }
        while i < n
            invariant
                i <= n,
                n == s0.len(),
                samples_of(all@) == s0.skip(i as int),
                bounded(s0),
                bounded(samples_of(kept@)),
                self.forwards@ == old(self).forwards@,
                samples_of(kept@) == live_samples(s0.take(i as int), self.forwards@),
                *self == (App { throughput: self.throughput, ..*old(self) }),
            decreases n - i,
        {
            let ghost before = samples_of(kept@);
            proof {
                assert(samples_of(all@).len() == all@.len());
                assert(samples_of(all@)[0] == all@[0]@);
                assert(s0.take(i + 1).drop_last() =~= s0.take(i as int));
                assert(s0.take(i + 1).last() == s0[i as int]);
            }
            let ghost rest = all@;
            let t: PortThroughput = all.remove(0);
            proof {
                assert(t@ == s0[i as int]);
                assert forall|j: int| 0 <= j < all@.len() implies samples_of(all@)[j]
                    == #[trigger] s0.skip(i + 1)[j] by {
                    assert(samples_of(rest)[j + 1] == rest[j + 1]@);
                    assert(s0.skip(i as int)[j + 1] == s0[i + 1 + j]);
                }
                assert(samples_of(all@) =~= s0.skip(i + 1));
            }
            if port_live(&self.forwards, t.port) {
                kept.push(t);
                proof {
                    assert(samples_of(kept@) =~= before.push(s0[i as int]));
                }
            }
            i = i + 1;
        }
        proof {
            assert(s0.take(i as int) =~= s0);
        }
        let ghost l = samples_of(kept@);
        let mut k: usize = 0;
        while k < self.forwards.len()
            invariant
                k <= self.forwards@.len(),
                self.forwards@ == old(self).forwards@,
                bounded(samples_of(kept@)),
                samples_of(kept@) == with_samples(l, self.forwards@, now, k as nat),
                *self == (App { throughput: self.throughput, ..*old(self) }),
                forall|j: int|
                    0 <= j < old(self).forwards@.len() ==> (
                    #[trigger] old(self).forwards@[j]).bytes_up + old(self).forwards@[j].bytes_down
                        <= u64::MAX,
            decreases self.forwards@.len() - k,
        {
            let ghost before = samples_of(kept@);
            let s: &ForwardSnapshot = &self.forwards[k];
            match find_sample(&kept, s.local_port) {
                Some(p) => {
                    proof {
                        assert(before[p as int] == kept@[p as int]@);
                        assert(before[p as int].history.len() <= THROUGHPUT_HISTORY);
                        let c = choose|c: int| sample_at(before, s.local_port, c);
                        assert(sample_at(before, s.local_port, p as int));
                        assert(sample_at(before, s.local_port, c));
                        assert(c == p);
                    }
                    let mut t: PortThroughput = kept.remove(p);
                    resample(&mut t, s, now);
                    let ghost m = t@;
                    kept.insert(p, t);
                    proof {
                        assert(samples_of(kept@) =~= before.update(p as int, m));
                    }
                },
                None => {
                    kept.push(
                        PortThroughput {
                            port: s.local_port,
                            prev_up: s.bytes_up,
                            prev_down: s.bytes_down,
                            prev_at: now,
                            delta_up: 0,
                            delta_down: 0,
                            elapsed: 0,
                            history: VecDeque::new(),
                        },
                    );
                    proof {
                        assert(kept@.last().history@ =~= Seq::<u64>::empty());
                        assert(samples_of(kept@) =~= before.push(baseline(*s, now)));
                    }
                },
            }
            k = k + 1;
        }
        self.throughput = kept;
    }
}

// ---- laws --------------------------------------------------------------

/// Moving down and up again, or up and down again, leaves a selection where it was.
pub proof fn law_selection_returns(i: usize, n: nat, down: bool)
    requires
        i < n,
        n <= usize::MAX,
    ensures
        moved(moved(Some(i), n, down), n, !down) == Some(i),
{
    let d = n as int;
    if down {
        if i + 1 < n {
            vstd::arithmetic::div_mod::lemma_small_mod((i + 1) as nat, n);
            vstd::arithmetic::div_mod::lemma_small_mod(i as nat, n);
        } else {
            vstd::arithmetic::div_mod::lemma_mod_self_0(d);
            vstd::arithmetic::div_mod::lemma_mod_multiples_vanish(-1, d - 1, d);
            vstd::arithmetic::div_mod::lemma_small_mod((d - 1) as nat, n);
            assert(d * (-1) + (d - 1) == -1);
        }
    } else {
        if i >= 1 {
            vstd::arithmetic::div_mod::lemma_small_mod((i - 1) as nat, n);
            vstd::arithmetic::div_mod::lemma_small_mod(i as nat, n);
        } else {
            vstd::arithmetic::div_mod::lemma_mod_multiples_vanish(-1, d - 1, d);
            vstd::arithmetic::div_mod::lemma_small_mod((d - 1) as nat, n);
            assert(d * (-1) + (d - 1) == -1);
            vstd::arithmetic::div_mod::lemma_mod_self_0(d);
        }
    }
}

/// Without a filter every forward is shown, in its place.
pub proof fn law_no_filter_shows_all(app: App)
    requires
        app.filter@.len() == 0,
    ensures
        app.rows() == Seq::new(app.forwards@.len(), |i: int| i),
{
    lemma_all_shown(app, app.forwards@.len());
}

proof fn lemma_all_shown(app: App, n: nat)
    requires
        app.filter@.len() == 0,
    ensures
        app.shown(n) == Seq::new(n, |i: int| i),
    decreases n,
{
    if n > 0 {
        lemma_all_shown(app, (n - 1) as nat);
        assert(app.shown(n) =~= Seq::new(n, |i: int| i));
    } else {
        assert(app.shown(n) =~= Seq::new(n, |i: int| i));
    }
}

/// Once the selections are clamped, something is selected wherever there is something
/// to select.
pub proof fn law_clamped_selects(app: App)
    requires
        app.rows().len() + app.reverse_rows() <= usize::MAX,
        app.table == clamped(app.table, app.rows().len() + app.reverse_rows()),
        app.rows().len() + app.reverse_rows() > 0,
    ensures
        app.chosen() is Some,
{
}

/// A process is named for a listener only where it owns one there, and the first that
/// does is named; where none is named, none is known to own one.
pub proof fn law_named_process_owns(l: Seq<Found>, ns: Seq<char>, port: int)
    ensures
        process_of(l, ns, port) matches Some(t) ==> exists|i: int|
            0 <= i < l.len() && owns_there(#[trigger] l[i], ns, port) && t
                == l[i].process->Some_0.name + " ("@ + signed_decimal(l[i].process->Some_0.pid)
                + ")"@ && forall|j: int| 0 <= j < i ==> !owns_there(#[trigger] l[j], ns, port),
        process_of(l, ns, port) is None ==> forall|i: int|
            0 <= i < l.len() ==> !owns_there(#[trigger] l[i], ns, port),
    decreases l.len(),
{
    if l.len() > 0 {
        let t = l.drop_first();
        law_named_process_owns(t, ns, port);
        if owns_there(l[0], ns, port) {
            assert(process_of(l, ns, port) is Some);
        } else {
            assert(process_of(l, ns, port) == process_of(t, ns, port));
            if process_of(t, ns, port) is Some {
                let i = choose|i: int|
                    0 <= i < t.len() && owns_there(#[trigger] t[i], ns, port) && process_of(
                        t,
                        ns,
                        port,
                    )->Some_0 == t[i].process->Some_0.name + " ("@ + signed_decimal(
                        t[i].process->Some_0.pid,
                    ) + ")"@ && forall|j: int| 0 <= j < i ==> !owns_there(#[trigger] t[j], ns, port);
                assert(l[i + 1] == t[i]);
                assert forall|j: int| 0 <= j < i + 1 implies !owns_there(
                    #[trigger] l[j],
                    ns,
                    port,
                ) by {
                    if j > 0 {
                        assert(l[j] == t[j - 1]);
                    }
                }
            } else {
                assert forall|j: int| 0 <= j < l.len() implies !owns_there(
                    #[trigger] l[j],
                    ns,
                    port,
                ) by {
                    if j > 0 {
                        assert(l[j] == t[j - 1]);
                    }
                }
            }
        }
    }
}

/// The listener is on this port of this namespace, and its process is known.
pub open spec fn owns_there(l: Found, ns: Seq<char>, port: int) -> bool {
    l.process is Some && l.key.ns == ns && l.key.port == port
}

proof fn lemma_shown_rows(app: App, n: nat)
    requires
        n <= app.forwards@.len(),
    ensures
        forall|i: int| app.shown(n).contains(i) <==> 0 <= i < n && app.shows(i),
        forall|a: int, b: int|
            0 <= a < b < app.shown(n).len() ==> #[trigger] app.shown(n)[a] < #[trigger] app.shown(
                n,
            )[b],
        forall|a: int| 0 <= a < app.shown(n).len() ==> 0 <= #[trigger] app.shown(n)[a] < n,
    decreases n,
{
    if n > 0 {
        let m = (n - 1) as nat;
        let r = app.shown(m);
        lemma_shown_rows(app, m);
        assert forall|i: int| app.shown(n).contains(i) <==> 0 <= i < n && app.shows(i) by {
            if r.contains(i) {
                let k = choose|k: int| 0 <= k < r.len() && r[k] == i;
                assert(app.shown(n)[k] == i);
            }
            if i == m && app.shows(i) {
                assert(app.shown(n)[r.len() as int] == i);
            }
            if app.shown(n).contains(i) {
                let k = choose|k: int| 0 <= k < app.shown(n).len() && app.shown(n)[k] == i;
                if k < r.len() {
                    assert(r[k] == i);
                }
            }
        }
    }
}

/// The rows are the forwards that pass the filter, each once, in their order; one passes
/// where its texts hold the filter, whatever the case.
pub proof fn law_rows(app: App)
    ensures
        forall|i: int|
            #[trigger] app.rows().contains(i) <==> 0 <= i < app.forwards@.len() && (
            app.filter@.len() == 0 || exists|at: int|
                0 <= at && at + lowercase_text(app.filter@).len() <= lowercase_text(
                    haystack(app.forwards@[i], found_of(app.listeners@)),
                ).len() && #[trigger] lowercase_text(
                    haystack(app.forwards@[i], found_of(app.listeners@)),
                ).subrange(at, at + lowercase_text(app.filter@).len()) == lowercase_text(
                    app.filter@,
                )),
        forall|a: int, b: int|
            0 <= a < b < app.rows().len() ==> #[trigger] app.rows()[a] < #[trigger] app.rows()[b],
{
    lemma_shown_rows(app, app.forwards@.len());
    assert forall|i: int|
        #[trigger] app.rows().contains(i) <==> 0 <= i < app.forwards@.len() && (app.filter@.len()
            == 0 || exists|at: int|
            0 <= at && at + lowercase_text(app.filter@).len() <= lowercase_text(
                haystack(app.forwards@[i], found_of(app.listeners@)),
            ).len() && #[trigger] lowercase_text(
                haystack(app.forwards@[i], found_of(app.listeners@)),
            ).subrange(at, at + lowercase_text(app.filter@).len()) == lowercase_text(
                app.filter@,
            )) by {
        let h = lowercase_text(haystack(app.forwards@[i], found_of(app.listeners@)));
        let p = lowercase_text(app.filter@);
        assert(app.rows().contains(i) <==> 0 <= i < app.forwards@.len() && app.shows(i));
        if has_part(h, p) {
            let at = choose|at: int| crate::text::occurs_at(h, p, at);
            assert(h.subrange(at, at + p.len()) == p);
        }
        if exists|at: int|
            0 <= at && at + p.len() <= h.len() && #[trigger] h.subrange(at, at + p.len()) == p {
            let at = choose|at: int|
                0 <= at && at + p.len() <= h.len() && #[trigger] h.subrange(at, at + p.len()) == p;
            assert(crate::text::occurs_at(h, p, at));
        }
    }
}

/// A forward is found by its local port, by the host and port it dials, by its namespace
/// and by the process that listens there.
pub proof fn law_what_the_filter_sees(s: ForwardSnapshot, l: Seq<Found>)
    ensures
        has_part(haystack(s, l), decimal(s.local_port as int)),
        has_part(haystack(s, l), s.spec.remote_host@ + ":"@ + decimal(s.spec.remote_port as int)),
        has_part(haystack(s, l), s.spec@.ns.wire()),
        process_of(l, s.spec@.ns.wire(), s.spec.remote_port as int) matches Some(p) ==> has_part(
            haystack(s, l),
            p,
        ),
{
    let h = haystack(s, l);
    let a = decimal(s.local_port as int);
    let b = s.spec.remote_host@ + ":"@ + decimal(s.spec.remote_port as int);
    let c = s.spec@.ns.wire();
    let d = match process_of(l, c, s.spec.remote_port as int) {
        Some(p) => p,
        None => Seq::empty(),
    };
    reveal_strlit(" ");
    assert(h =~= a + " "@ + b + " "@ + c + " "@ + d);
    let n1: int = a.len() as int + 1;
    let n2: int = n1 + b.len() + 1;
    let n3: int = n2 + c.len() + 1;
    assert(h.subrange(0, a.len() as int) =~= a);
    assert(crate::text::occurs_at(h, a, 0));
    assert(h.subrange(n1, n1 + b.len()) =~= b);
    assert(crate::text::occurs_at(h, b, n1));
    assert(h.subrange(n2, n2 + c.len()) =~= c);
    assert(crate::text::occurs_at(h, c, n2));
    assert(h.subrange(n3, n3 + d.len()) =~= d);
    assert(crate::text::occurs_at(h, d, n3));
}

proof fn lemma_open_to(app: App, n: nat)
    requires
        n <= app.listeners@.len(),
    ensures
        forall|i: int| app.open_to(n).contains(i) <==> 0 <= i < n && !app.is_forwarded(i),
        forall|a: int, b: int|
            0 <= a < b < app.open_to(n).len() ==> #[trigger] app.open_to(n)[a] < #[trigger] app.open_to(
                n,
            )[b],
        forall|a: int| 0 <= a < app.open_to(n).len() ==> 0 <= #[trigger] app.open_to(n)[a] < n,
    decreases n,
{
    if n > 0 {
        let m = (n - 1) as nat;
        let r = app.open_to(m);
        lemma_open_to(app, m);
        assert forall|i: int|
            app.open_to(n).contains(i) <==> 0 <= i < n && !app.is_forwarded(i) by {
            if r.contains(i) {
                let k = choose|k: int| 0 <= k < r.len() && r[k] == i;
                assert(app.open_to(n)[k] == i);
            }
            if i == m && !app.is_forwarded(i) {
                assert(app.open_to(n)[r.len() as int] == i);
            }
            if app.open_to(n).contains(i) {
                let k = choose|k: int| 0 <= k < app.open_to(n).len() && app.open_to(n)[k] == i;
                if k < r.len() {
                    assert(r[k] == i);
                }
            }
        }
    }
}

/// The picker offers the listeners that no forward dials, each once, in their order: one
/// is left out only where some forward has its namespace and its port.
pub proof fn law_picker_offers(app: App, i: int)
    requires
        0 <= i < app.listeners@.len(),
    ensures
        app.candidates().contains(i) <==> forall|k: int|
            0 <= k < app.forwards@.len() ==> (#[trigger] app.forwards@[k]).spec@.ns.wire()
                != app.listeners@[i].ns@ || app.forwards@[k].spec.remote_port
                != app.listeners@[i].port,
        forall|a: int, b: int|
            0 <= a < b < app.candidates().len() ==> #[trigger] app.candidates()[a]
                < #[trigger] app.candidates()[b],
{
    lemma_open_to(app, app.listeners@.len());
    assert(app.open_to(app.listeners@.len()).contains(i) <==> !app.is_forwarded(i));
}

/// The forwards that are shown come first, then the reverse forwards: with a filter,
/// none of these.
pub proof fn law_selection_order(app: App, i: usize)
    requires
        app.table == Some(i),
    ensures
        i < app.rows().len() ==> app.chosen() is Some && app.chosen()->Some_0 is Forward
            && app.chosen()->Some_0->Forward_0 == app.rows()[i as int],
        app.chosen() matches Some(Selection::Reverse(k)) ==> app.filter@.len() == 0 && k
            < app.reverse@.len() && i == app.forwards@.len() + k,
        app.filter@.len() == 0 && i < app.forwards@.len() ==> app.chosen() == Some(
            Selection::Forward(i),
        ),
        app.filter@.len() == 0 && app.forwards@.len() <= i < app.forwards@.len()
            + app.reverse@.len() ==> app.chosen() == Some(
            Selection::Reverse((i - app.forwards@.len()) as usize),
        ),
{
    lemma_shown_rows(app, app.forwards@.len());
    assert(app.forwards.len() == app.forwards@.len());
    if app.filter@.len() == 0 {
        law_no_filter_shows_all(app);
    }
}

/// One row further is the next one, and behind the last comes the first; one row back is
/// the one before, and before the first comes the last.
pub proof fn law_selection_moves(i: usize, n: nat)
    requires
        i < n,
        n <= usize::MAX,
    ensures
        i + 1 < n ==> moved(Some(i), n, true) == Some((i + 1) as usize),
        i + 1 == n ==> moved(Some(i), n, true) == Some(0usize),
        i > 0 ==> moved(Some(i), n, false) == Some((i - 1) as usize),
        i == 0 ==> moved(Some(i), n, false) == Some((n - 1) as usize),
{
    if i + 1 < n {
        assert((i + 1) % (n as int) == i + 1) by (nonlinear_arith)
            requires
                0 <= i,
                i + 1 < n,
        ;
    } else {
        assert((i + 1) % (n as int) == 0) by (nonlinear_arith)
            requires
                i + 1 == n,
                n > 0,
        ;
    }
    if i > 0 {
        assert((i - 1) % (n as int) == i - 1) by (nonlinear_arith)
            requires
                0 < i < n,
        ;
    } else {
        assert((-1int) % (n as int) == n - 1) by (nonlinear_arith)
            requires
                n > 0,
        ;
    }
}

/// A selection that is within the rows stays; one beyond them goes to the last.
pub proof fn law_clamped_stays(i: usize, n: nat)
    requires
        0 < n <= usize::MAX,
    ensures
        i < n ==> clamped(Some(i), n) == Some(i),
        i >= n ==> clamped(Some(i), n) == Some((n - 1) as usize),
        clamped(None, n) == Some(0usize),
        clamped(Some(i), 0) is None,
{
}

/// What a forward carried since the last look is how far each counter rose, and nothing
/// where one fell; the newest of the history is both together.
pub proof fn law_throughput(t: Sample, s: ForwardSnapshot, now: u64)
    requires
        now > t.prev_at,
        s.bytes_up + s.bytes_down <= u64::MAX,
        t.history.len() <= THROUGHPUT_HISTORY,
    ensures
        ({
            let r = resampled(t, s, now);
            &&& r.port == t.port
            &&& r.prev_up == s.bytes_up && r.prev_down == s.bytes_down && r.prev_at == now
            &&& r.elapsed + t.prev_at == now
            &&& s.bytes_up >= t.prev_up ==> t.prev_up + r.delta_up == s.bytes_up
            &&& s.bytes_down >= t.prev_down ==> t.prev_down + r.delta_down == s.bytes_down
            &&& s.bytes_up < t.prev_up ==> r.delta_up == 0
            &&& s.bytes_down < t.prev_down ==> r.delta_down == 0
            &&& r.history.len() > 0 && r.history.last() == r.delta_up + r.delta_down
            &&& r.history.len() == t.history.len() + 1 || r.history.len() == THROUGHPUT_HISTORY
            &&& forall|k: int|
                0 <= k < r.history.len() - 1 ==> #[trigger] r.history[k] == t.history[k
                    + t.history.len() + 1 - r.history.len()]
        }),
{
}

/// A look at a forward leaves a sample of its port that holds its counters, and leaves
/// the samples of other ports as they are.
pub proof fn law_sample_is_of_its_forward(samples: Seq<Sample>, s: ForwardSnapshot, now: u64)
    ensures
        ({
            let r = with_sample(samples, s, now);
            &&& has_sample(r, s.local_port)
            &&& r.len() >= samples.len()
            &&& forall|i: int|
                0 <= i < samples.len() && samples[i].port != s.local_port ==> #[trigger] r[i]
                    == samples[i]
            &&& forall|i: int|
                0 <= i < r.len() && i >= samples.len() ==> (#[trigger] r[i]).port == s.local_port
                    && r[i].prev_up == s.bytes_up && r[i].prev_down == s.bytes_down && r[i].prev_at
                    == now && r[i].history.len() == 0
        }),
{
    let r = with_sample(samples, s, now);
    if has_sample(samples, s.local_port) {
        let k = choose|k: int| 0 <= k < samples.len() && (#[trigger] samples[k]).port == s.local_port;
        lemma_first_sample(samples, s.local_port, k);
        let i = choose|i: int| sample_at(samples, s.local_port, i);
        assert(sample_at(samples, s.local_port, i));
        assert(r[i].port == s.local_port);
    } else {
        assert(r[samples.len() as int].port == s.local_port);
    }
}

proof fn lemma_first_sample(s: Seq<Sample>, port: u16, k: int)
    requires
        0 <= k < s.len(),
        s[k].port == port,
    ensures
        exists|i: int| sample_at(s, port, i),
    decreases k,
{
    if exists|j: int| 0 <= j < k && (#[trigger] s[j]).port == port {
        let j = choose|j: int| 0 <= j < k && (#[trigger] s[j]).port == port;
        lemma_first_sample(s, port, j);
    } else {
        assert(sample_at(s, port, k));
    }
}

/// A sample is kept exactly where some forward is on its port.
pub proof fn law_samples_of_the_living(s: Seq<Sample>, forwards: Seq<ForwardSnapshot>, t: Sample)
    ensures
        live_samples(s, forwards).contains(t) <==> s.contains(t) && exists|i: int|
            0 <= i < forwards.len() && (#[trigger] forwards[i]).local_port == t.port,
    decreases s.len(),
{
    if s.len() > 0 {
        let d = s.drop_last();
        let r = live_samples(d, forwards);
        law_samples_of_the_living(d, forwards, t);
        if s.contains(t) {
            let k = choose|k: int| 0 <= k < s.len() && s[k] == t;
            if k < s.len() - 1 {
                assert(d[k] == t);
            }
        }
        if d.contains(t) {
            let k = choose|k: int| 0 <= k < d.len() && d[k] == t;
            assert(s[k] == t);
        }
        assert(s[s.len() - 1] == s.last());
        if is_live(forwards, s.last().port) {
            let all = r.push(s.last());
            if r.contains(t) {
                let k = choose|k: int| 0 <= k < r.len() && r[k] == t;
                assert(all[k] == t);
            }
            assert(all[r.len() as int] == s.last());
            if all.contains(t) {
                let k = choose|k: int| 0 <= k < all.len() && all[k] == t;
                if k < r.len() {
                    assert(r[k] == t);
                }
            }
        }
    }
}

} // verus!
