//! Listening-port discovery.
//!
//! The client opens one dedicated stream per connection epoch and sends the list
//! of namespaces to watch. The agent then periodically scans their TCP tables
//! and pushes snapshots, which the client matches against its auto-forward rules
//! and remembered assignments.

use crate::client::{ForwardSet, Forwards};
use crate::config::{rules_of, AutoForwardRule, Rule};
use crate::error::{SpecError, SpecFault};
use crate::forward::{Forward, ForwardKind, ForwardSpec, Ns, NsSpec};
use crate::net::IpAddr;
use crate::text::{
    parse_unsigned, split_whitespace, str_eq, str_less, strip_prefix, strip_suffix,
};
use vstd::prelude::*;

verus! {

/// Reserved stream-header host marking a discovery stream.
pub const DISCOVERY_HOST: &'static str = "@discovery";

/// Scan and push interval on the agent, in seconds.
pub const SCAN_INTERVAL_SECS: u64 = 3;

/// One discovered listener.
#[derive(Debug, PartialEq, Eq)]
pub struct Listener {
    /// Namespace wire form (`""` = host).
    pub ns: String,
    /// Address the socket is bound to inside that namespace.
    pub ip: String,
    pub port: u16,
    /// The process that owns the listening socket, when it could be resolved.
    pub process: Option<ListenerProc>,
}

/// The process owning a discovered listening socket.
#[derive(Debug, PartialEq, Eq)]
pub struct ListenerProc {
    pub pid: i32,
    pub name: String,
}

/// The model of a [`ListenerProc`].
#[verifier::ext_equal]
pub struct Owner {
    pub pid: int,
    pub name: Seq<char>,
}

/// What tells one listener from another.
#[verifier::ext_equal]
pub struct Key {
    pub ns: Seq<char>,
    pub ip: Seq<char>,
    pub port: int,
}

/// The model of a [`Listener`].
#[verifier::ext_equal]
pub struct Found {
    pub key: Key,
    pub process: Option<Owner>,
}

impl View for ListenerProc {
    type V = Owner;

    open spec fn view(&self) -> Owner {
        Owner { pid: self.pid as int, name: self.name@ }
    }
}

impl View for Listener {
    type V = Found;

    open spec fn view(&self) -> Found {
        Found {
            key: Key { ns: self.ns@, ip: self.ip@, port: self.port as int },
            process: match self.process {
                Some(p) => Some(p@),
                None => None,
            },
        }
    }
}

impl Clone for ListenerProc {
    fn clone(&self) -> (r: Self)
        ensures
            r@ == self@,
    {
        ListenerProc { pid: self.pid, name: self.name.clone() }
    }
}

impl Clone for Listener {
    fn clone(&self) -> (r: Self)
        ensures
            r@ == self@,
    {
        Listener {
            ns: self.ns.clone(),
            ip: self.ip.clone(),
            port: self.port,
            process: match &self.process {
                Some(p) => Some(p.clone()),
                None => None,
            },
        }
    }
}

// ---- the agent's side --------------------------------------------------

/// The namespaces of a watch list: its words that are selectors, where `host` stands
/// for the agent's own namespace.
pub open spec fn watched_in(w: Seq<Seq<char>>) -> Seq<Ns>
    decreases w.len(),
{
    if w.len() == 0 {
        Seq::empty()
    } else {
        let n = watched_in(w.drop_last());
        let wire = if w.last() == "host"@ { Seq::<char>::empty() } else { w.last() };
        match crate::forward::ns_of_wire(wire) {
            Ok(ns) => n.push(ns),
            Err(_) => n,
        }
    }
}

/// The models of a list of namespaces.
pub open spec fn namespaces_of(v: Seq<NsSpec>) -> Seq<Ns> {
    v.map_values(|n: NsSpec| n@)
}

/// Reads the watch list that the client sent.
pub fn parse_watch_list(line: &str) -> (r: Vec<NsSpec>)
    ensures
        namespaces_of(r@) == watched_in(crate::text::words(line@)),
{
    let words: Vec<&str> = split_whitespace(line);
    let ghost w = crate::text::texts(words@);
    let mut v: Vec<NsSpec> = Vec::new();
    let mut i: usize = 0;
    proof {
        assert(w.take(0) =~= Seq::<Seq<char>>::empty());
        assert(namespaces_of(v@) =~= Seq::<Ns>::empty());
    }
    while i < words.len()
        invariant
            i <= words@.len(),
            w == crate::text::texts(words@),
            namespaces_of(v@) == watched_in(w.take(i as int)),
        decreases words@.len() - i,
    {
        let ghost before = namespaces_of(v@);
        proof {
            assert(w.take(i + 1).drop_last() =~= w.take(i as int));
            assert(w.take(i + 1).last() == words@[i as int]@);
        }
        let host: String = String::new();
        let wire: &str = if str_eq(words[i], "host") {
            host.as_str()
        } else {
            words[i]
        };
        match NsSpec::from_wire(wire) {
            Ok(ns) => {
                v.push(ns);
                proof {
                    assert(namespaces_of(v@) =~= before.push(ns@));
                }
            },
            Err(_) => {},
        }
        i = i + 1;
    }
    proof {
        assert(w.take(i as int) =~= w);
    }
    v
}

/// The inode that a namespace link names: `net:[INODE]`.
pub open spec fn inode_of(link: Seq<char>) -> Option<int> {
    match crate::text::after_prefix(link, "net:["@) {
        None => None,
        Some(t) => match crate::text::before_suffix(t, "]"@) {
            None => None,
            Some(n) => match crate::text::unsigned_value(n, u64::MAX as int) {
                Ok(v) => Some(v),
                Err(_) => None,
            },
        },
    }
}

/// Reads the inode out of the target of a `/proc/<pid>/ns/net` link.
pub fn parse_netns_link(link: &str) -> (r: Option<u64>)
    ensures
        inode_of(link@) == (match r {
            Some(n) => Some(n as int),
            None => None,
        }),
{
    match strip_prefix(link, "net:[") {
        None => None,
        Some(t) => match strip_suffix(t, "]") {
            None => None,
            Some(n) => match parse_unsigned(n, u64::MAX) {
                Ok(v) => Some(v),
                Err(_) => None,
            },
        },
    }
}

/// A socket of a process, by the inodes of its network namespace and its own.
#[derive(Debug)]
pub struct SocketOwner {
    pub netns: u64,
    pub inode: u64,
    pub process: ListenerProc,
}

/// The process that owns a socket: the first of the list that has it.
pub open spec fn owner_at(owners: Seq<SocketOwner>, netns: u64, inode: u64) -> Option<Owner>
    decreases owners.len(),
{
    if owners.len() == 0 {
        None
    } else if owners[0].netns == netns && owners[0].inode == inode {
        Some(owners[0].process@)
    } else {
        owner_at(owners.drop_first(), netns, inode)
    }
}

/// The process that owns a socket: the first of the list that has it. Inodes of
/// sockets are unique within a network namespace only.
pub fn owner_of(owners: &Vec<SocketOwner>, netns: u64, inode: u64) -> (r: Option<ListenerProc>)
    ensures
        owner_at(owners@, netns, inode) == (match r {
            Some(p) => Some(p@),
            None => None,
        }),
        match r {
            Some(p) => exists|i: int|
                0 <= i < owners@.len() && (#[trigger] owners@[i]).netns == netns && owners@[i].inode
                    == inode && p@ == owners@[i].process@ && forall|j: int|
                    0 <= j < i ==> !((#[trigger] owners@[j]).netns == netns && owners@[j].inode
                        == inode),
            None => forall|j: int|
                0 <= j < owners@.len() ==> !((#[trigger] owners@[j]).netns == netns
                    && owners@[j].inode == inode),
        },
{
    let mut i: usize = 0;
    proof {
        assert(owners@.skip(0) =~= owners@);
    }
    while i < owners.len()
        invariant
            i <= owners@.len(),
            owner_at(owners@, netns, inode) == owner_at(owners@.skip(i as int), netns, inode),
        decreases owners@.len() - i,
    {
        proof {
            assert(owners@.skip(i as int)[0] == owners@[i as int]);
            assert(owners@.skip(i as int).drop_first() =~= owners@.skip(i + 1));
        }
        if owners[i].netns == netns && owners[i].inode == inode {
            let p: ListenerProc = owners[i].process.clone();
            proof {
                law_owner_has_the_socket(owners@, netns, inode);
                assert(owner_at(owners@, netns, inode) == Some(p@));
            }
            return Some(p);
        }
        i = i + 1;
    }
    proof {
        law_owner_has_the_socket(owners@, netns, inode);
    }
    None
}

/// A process that is found owns that socket of that namespace, and no entry before its
/// own does; where none is found, no entry does.
pub proof fn law_owner_has_the_socket(owners: Seq<SocketOwner>, netns: u64, inode: u64)
    ensures
        match owner_at(owners, netns, inode) {
            Some(p) => exists|i: int|
                0 <= i < owners.len() && (#[trigger] owners[i]).netns == netns && owners[i].inode
                    == inode && owners[i].process@ == p && forall|j: int|
                    0 <= j < i ==> !((#[trigger] owners[j]).netns == netns && owners[j].inode
                        == inode),
            None => forall|j: int|
                0 <= j < owners.len() ==> !((#[trigger] owners[j]).netns == netns
                    && owners[j].inode == inode),
        },
    decreases owners.len(),
{
    if owners.len() > 0 && !(owners[0].netns == netns && owners[0].inode == inode) {
        let t = owners.drop_first();
        law_owner_has_the_socket(t, netns, inode);
        match owner_at(t, netns, inode) {
            Some(p) => {
                let i = choose|i: int|
                    0 <= i < t.len() && (#[trigger] t[i]).netns == netns && t[i].inode == inode
                        && t[i].process@ == p && forall|j: int|
                        0 <= j < i ==> !((#[trigger] t[j]).netns == netns && t[j].inode == inode);
                assert(owners[i + 1] == t[i]);
                assert forall|j: int| 0 <= j < i + 1 implies !((#[trigger] owners[j]).netns
                    == netns && owners[j].inode == inode) by {
                    if j > 0 {
                        assert(owners[j] == t[j - 1]);
                    }
                }
            },
            None => {
                assert forall|j: int| 0 <= j < owners.len() implies !((
                #[trigger] owners[j]).netns == netns && owners[j].inode == inode) by {
                    if j > 0 {
                        assert(owners[j] == t[j - 1]);
                    }
                }
            },
        }
    } else if owners.len() > 0 {
        assert(owners[0].process@ == owner_at(owners, netns, inode)->Some_0);
    }
}

/// A TCP socket as the table of a namespace has it.
#[derive(Debug)]
pub struct SocketRow {
    /// Wire form of the namespace.
    pub ns: String,
    /// Address the socket is bound to inside that namespace.
    pub ip: String,
    pub port: u16,
    /// The socket waits for connections.
    pub listening: bool,
    /// Inode of the network namespace, where it is known.
    pub netns: Option<u64>,
    pub inode: u64,
}

/// A socket as a listener, with its owner where one is known.
pub open spec fn as_found(row: SocketRow, owners: Seq<SocketOwner>) -> Found {
    Found {
        key: Key { ns: row.ns@, ip: row.ip@, port: row.port as int },
        process: match row.netns {
            Some(n) => owner_at(owners, n, row.inode),
            None => None,
        },
    }
}

/// A listener is this socket: the same namespace, address and port, and the process
/// that owns the socket, where the namespace of the socket is known.
pub open spec fn is_row_of(f: Found, row: SocketRow, owners: Seq<SocketOwner>) -> bool {
    &&& f.key.ns == row.ns@
    &&& f.key.ip == row.ip@
    &&& f.key.port == row.port
    &&& match row.netns {
        Some(n) => f.process == owner_at(owners, n, row.inode),
        None => f.process is None,
    }
}

/// A listener is one of the sockets that wait for connections.
pub open spec fn is_listening_row(
    f: Found,
    rows: Seq<SocketRow>,
    owners: Seq<SocketOwner>,
) -> bool {
    exists|i: int|
        0 <= i < rows.len() && (#[trigger] rows[i]).listening && is_row_of(f, rows[i], owners)
}

/// Those of the sockets that wait for connections, with their owners.
pub open spec fn listening_rows(rows: Seq<SocketRow>, owners: Seq<SocketOwner>) -> Seq<Found>
    decreases rows.len(),
{
    if rows.len() == 0 {
        Seq::empty()
    } else {
        let r = listening_rows(rows.drop_last(), owners);
        if rows.last().listening {
            r.push(as_found(rows.last(), owners))
        } else {
            r
        }
    }
}

/// The order of listeners: by namespace, then by address, then by port.
pub open spec fn key_lt(a: Key, b: Key) -> bool {
    ||| crate::text::lex_lt(a.ns, b.ns)
    ||| a.ns == b.ns && crate::text::lex_lt(a.ip, b.ip)
    ||| a.ns == b.ns && a.ip == b.ip && a.port < b.port
}

proof fn lemma_key_total(a: Key, b: Key)
    ensures
        !key_lt(a, a),
        key_lt(a, b) ==> !key_lt(b, a),
        a != b ==> key_lt(a, b) || key_lt(b, a),
{
    crate::text::lemma_lex_total(a.ns, b.ns);
    crate::text::lemma_lex_total(a.ip, b.ip);
    if a.ns == b.ns && a.ip == b.ip && a.port == b.port {
        assert(a =~= b);
    }
}

proof fn lemma_key_trans(a: Key, b: Key, c: Key)
    requires
        key_lt(a, b),
        key_lt(b, c),
    ensures
        key_lt(a, c),
{
    if crate::text::lex_lt(a.ns, b.ns) && crate::text::lex_lt(b.ns, c.ns) {
        crate::text::lemma_lex_trans(a.ns, b.ns, c.ns);
    }
    if crate::text::lex_lt(a.ip, b.ip) && crate::text::lex_lt(b.ip, c.ip) {
        crate::text::lemma_lex_trans(a.ip, b.ip, c.ip);
    }
}

/// The models of a list of listeners.
pub open spec fn found_of(v: Seq<Listener>) -> Seq<Found> {
    v.map_values(|l: Listener| l@)
}

/// The listeners stand in order, none twice.
pub open spec fn in_order(s: Seq<Found>) -> bool {
    forall|i: int, j: int|
        0 <= i < j < s.len() ==> key_lt((#[trigger] s[i]).key, (#[trigger] s[j]).key)
}

/// Some listener of the list has this key.
pub open spec fn has_key(s: Seq<Found>, k: Key) -> bool {
    exists|i: int| 0 <= i < s.len() && (#[trigger] s[i]).key == k
}

/// The owner of the listener with this key.
pub open spec fn owner_in(s: Seq<Found>, k: Key) -> Option<Owner> {
    s[choose|i: int| 0 <= i < s.len() && (#[trigger] s[i]).key == k].process
}

/// The owners of the listeners of a list, by key.
pub open spec fn owners_by_key(s: Seq<Found>) -> Map<Key, Option<Owner>> {
    Map::new(|k: Key| has_key(s, k), |k: Key| owner_in(s, k))
}

/// The listeners after one more row of a table: the first owner that could be
/// resolved for a key stays.
pub open spec fn with_row(m: Map<Key, Option<Owner>>, row: Found) -> Map<Key, Option<Owner>> {
    if m.contains_key(row.key) && m[row.key] is Some {
        m
    } else if m.contains_key(row.key) && row.process is None {
        m
    } else {
        m.insert(row.key, row.process)
    }
}

/// The listeners of all rows.
pub open spec fn with_rows(rows: Seq<Found>) -> Map<Key, Option<Owner>>
    decreases rows.len(),
{
    if rows.len() == 0 {
        Map::empty()
    } else {
        with_row(with_rows(rows.drop_last()), rows.last())
    }
}

proof fn lemma_key_at(s: Seq<Found>, i: int)
    requires
        in_order(s),
        0 <= i < s.len(),
    ensures
        has_key(s, s[i].key),
        owner_in(s, s[i].key) == s[i].process,
{
    let k = choose|k: int| 0 <= k < s.len() && (#[trigger] s[k]).key == s[i].key;
    assert(s[k].key == s[i].key);
    lemma_key_total(s[k].key, s[i].key);
    if k < i {
        assert(key_lt(s[k].key, s[i].key));
    } else if i < k {
        assert(key_lt(s[i].key, s[k].key));
    }
}

proof fn lemma_insert_row(s: Seq<Found>, i: int, row: Found)
    requires
        in_order(s),
        0 <= i <= s.len(),
        forall|j: int| 0 <= j < i ==> key_lt((#[trigger] s[j]).key, row.key),
        i < s.len() ==> key_lt(row.key, s[i].key),
    ensures
        in_order(s.insert(i, row)),
        owners_by_key(s.insert(i, row)) == owners_by_key(s).insert(row.key, row.process),
        !has_key(s, row.key),
{
    let t = s.insert(i, row);
    assert forall|j: int| i <= j < s.len() implies key_lt(row.key, (#[trigger] s[j]).key) by {
        if j > i {
            assert(key_lt(s[i].key, s[j].key));
            lemma_key_trans(row.key, s[i].key, s[j].key);
        }
    }
    assert(!has_key(s, row.key)) by {
        if has_key(s, row.key) {
            let k = choose|k: int| 0 <= k < s.len() && (#[trigger] s[k]).key == row.key;
            lemma_key_total(row.key, row.key);
            if k < i {
                assert(key_lt(s[k].key, row.key));
            } else {
                assert(key_lt(row.key, s[k].key));
            }
        }
    }
    assert forall|a: int, b: int| 0 <= a < b < t.len() implies key_lt(
        (#[trigger] t[a]).key,
        (#[trigger] t[b]).key,
    ) by {
        if a < i && b > i {
            assert(key_lt(s[a].key, s[b - 1].key));
        } else if b < i {
            assert(key_lt(s[a].key, s[b].key));
        } else if a > i {
            assert(key_lt(s[a - 1].key, s[b - 1].key));
        } else if b == i {
            assert(key_lt(s[a].key, row.key));
        } else {
            assert(key_lt(row.key, s[b - 1].key));
        }
    }
    assert(t[i] == row);
    assert forall|k: Key| has_key(t, k) <==> has_key(s, k) || k == row.key by {
        if has_key(s, k) {
            let x = choose|x: int| 0 <= x < s.len() && (#[trigger] s[x]).key == k;
            if x < i {
                assert(t[x] == s[x]);
            } else {
                assert(t[x + 1] == s[x]);
            }
        }
        if has_key(t, k) {
            let x = choose|x: int| 0 <= x < t.len() && (#[trigger] t[x]).key == k;
            if x < i {
                assert(t[x] == s[x]);
            } else if x > i {
                assert(t[x] == s[x - 1]);
            }
        }
        if k == row.key {
            assert(t[i].key == k);
        }
    }
    assert forall|k: Key| has_key(t, k) implies #[trigger] owner_in(t, k) == owners_by_key(
        s,
    ).insert(row.key, row.process)[k] by {
        let x = choose|x: int| 0 <= x < t.len() && (#[trigger] t[x]).key == k;
        assert(t[x].key == k);
        if x < i {
            assert(t[x] == s[x]);
            lemma_key_at(s, x);
        } else if x > i {
            assert(t[x] == s[x - 1]);
            lemma_key_at(s, x - 1);
        }
    }
    assert(owners_by_key(t) =~= owners_by_key(s).insert(row.key, row.process));
}

proof fn lemma_update_row(s: Seq<Found>, i: int, row: Found)
    requires
        in_order(s),
        0 <= i < s.len(),
        s[i].key == row.key,
    ensures
        in_order(s.update(i, row)),
        owners_by_key(s.update(i, row)) == owners_by_key(s).insert(row.key, row.process),
{
    let t = s.update(i, row);
    assert forall|a: int, b: int| 0 <= a < b < t.len() implies key_lt(
        (#[trigger] t[a]).key,
        (#[trigger] t[b]).key,
    ) by {
        assert(key_lt(s[a].key, s[b].key));
    }
    assert forall|k: Key| has_key(t, k) <==> has_key(s, k) by {
        if has_key(s, k) {
            let x = choose|x: int| 0 <= x < s.len() && (#[trigger] s[x]).key == k;
            assert(t[x].key == k);
        }
        if has_key(t, k) {
            let x = choose|x: int| 0 <= x < t.len() && (#[trigger] t[x]).key == k;
            assert(s[x].key == k);
        }
    }
    assert(s[i].key == row.key);
    assert forall|k: Key| has_key(t, k) implies #[trigger] owner_in(t, k) == owners_by_key(
        s,
    ).insert(row.key, row.process)[k] by {
        let x = choose|x: int| 0 <= x < t.len() && (#[trigger] t[x]).key == k;
        assert(t[x].key == k);
        if x != i {
            assert(t[x] == s[x]);
            lemma_key_at(s, x);
            lemma_key_total(s[x].key, s[i].key);
            if x < i {
                assert(key_lt(s[x].key, s[i].key));
            } else {
                assert(key_lt(s[i].key, s[x].key));
            }
        }
    }
    assert(owners_by_key(t) =~= owners_by_key(s).insert(row.key, row.process));
}

fn before(a: &Listener, b: &Listener) -> (r: bool)
    ensures
        r == key_lt(a@.key, b@.key),
{
    if str_less(a.ns.as_str(), b.ns.as_str()) {
        return true;
    }
    if !str_eq(a.ns.as_str(), b.ns.as_str()) {
        return false;
    }
    if str_less(a.ip.as_str(), b.ip.as_str()) {
        return true;
    }
    str_eq(a.ip.as_str(), b.ip.as_str()) && a.port < b.port
}

fn add_row(v: &mut Vec<Listener>, row: Listener)
    requires
        in_order(found_of(old(v)@)),
    ensures
        in_order(found_of(final(v)@)),
        owners_by_key(found_of(final(v)@)) == with_row(
            owners_by_key(found_of(old(v)@)),
            row@,
        ),
{
    let ghost s = found_of(v@);
    let ghost m = owners_by_key(s);
    let ghost x = row@;
    let mut i: usize = 0;
    while i < v.len() && before(&v[i], &row)
        invariant
            i <= v@.len(),
            v@ == old(v)@,
            s == found_of(v@),
            x == row@,
            forall|j: int| 0 <= j < i ==> key_lt((#[trigger] s[j]).key, x.key),
        decreases v@.len() - i,
    {
        assert(s[i as int] == v@[i as int]@);
        i = i + 1;
    }
    proof {
        if i < v@.len() {
            assert(s[i as int] == v@[i as int]@);
            lemma_key_total(s[i as int].key, x.key);
        }
    }
    if i < v.len() && !before(&row, &v[i]) {
        proof {
            lemma_key_at(s, i as int);
        }
        if v[i].process.is_none() && row.process.is_some() {
            proof {
                lemma_update_row(s, i as int, x);
            }
            v.set(i, row);
            proof {
                assert(found_of(v@) =~= s.update(i as int, x));
            }
        }
    } else {
        proof {
            lemma_insert_row(s, i as int, x);
        }
        v.insert(i, row);
        proof {
            assert(found_of(v@) =~= s.insert(i as int, x));
        }
    }
}

/// Merges the rows of all tables: one listener per namespace, address and port, with
/// the first owner that could be resolved, in order.
pub fn merge_rows(rows: &Vec<Listener>) -> (r: Vec<Listener>)
    ensures
        in_order(found_of(r@)),
        owners_by_key(found_of(r@)) == with_rows(found_of(rows@)),
{
    let ghost all = found_of(rows@);
    let mut v: Vec<Listener> = Vec::new();
    let mut i: usize = 0;
    proof {
        assert(all.take(0) =~= Seq::<Found>::empty());
        assert(owners_by_key(found_of(v@)) =~= Map::<Key, Option<Owner>>::empty());
    }
    while i < rows.len()
        invariant
            i <= rows@.len(),
            all == found_of(rows@),
            in_order(found_of(v@)),
            owners_by_key(found_of(v@)) == with_rows(all.take(i as int)),
        decreases rows@.len() - i,
    {
        proof {
            assert(all.take(i + 1).drop_last() =~= all.take(i as int));
            assert(all.take(i + 1).last() == rows@[i as int]@);
        }
        add_row(&mut v, rows[i].clone());
        i = i + 1;
    }
    proof {
        assert(all.take(i as int) =~= all);
    }
    v
}

/// The listeners among the sockets of all tables: one per namespace, address and port,
/// with the first owner that could be resolved, in order.
pub fn scanned(rows: &Vec<SocketRow>, owners: &Vec<SocketOwner>) -> (r: Vec<Listener>)
    ensures
        in_order(found_of(r@)),
        owners_by_key(found_of(r@)) == with_rows(listening_rows(rows@, owners@)),
{
    let mut v: Vec<Listener> = Vec::new();
    let mut i: usize = 0;
    proof {
        assert(rows@.take(0) =~= Seq::<SocketRow>::empty());
        assert(found_of(v@) =~= Seq::<Found>::empty());
    }
    while i < rows.len()
        invariant
            i <= rows@.len(),
            found_of(v@) == listening_rows(rows@.take(i as int), owners@),
        decreases rows@.len() - i,
    {
        let ghost before = found_of(v@);
        proof {
            assert(rows@.take(i + 1).drop_last() =~= rows@.take(i as int));
            assert(rows@.take(i + 1).last() == rows@[i as int]);
        }
        if rows[i].listening {
            let l = Listener {
                ns: rows[i].ns.clone(),
                ip: rows[i].ip.clone(),
                port: rows[i].port,
                process: match rows[i].netns {
                    Some(n) => owner_of(owners, n, rows[i].inode),
                    None => None,
                },
            };
            let ghost m = l@;
            v.push(l);
            proof {
                assert(m == as_found(rows@[i as int], owners@));
                assert(found_of(v@) =~= before.push(m));
            }
        }
        i = i + 1;
    }
    proof {
        assert(rows@.take(i as int) =~= rows@);
    }
    merge_rows(&v)
}

/// What is found is the sockets that wait for connections: each of them by its
/// namespace, address and port, and with the owner of its own socket.
pub proof fn law_listening_is_found(rows: Seq<SocketRow>, owners: Seq<SocketOwner>)
    ensures
        forall|i: int|
            0 <= i < rows.len() && (#[trigger] rows[i]).listening ==> exists|k: int|
                0 <= k < listening_rows(rows, owners).len() && is_row_of(
                    #[trigger] listening_rows(rows, owners)[k],
                    rows[i],
                    owners,
                ),
        forall|k: int|
            0 <= k < listening_rows(rows, owners).len() ==> is_listening_row(
                #[trigger] listening_rows(rows, owners)[k],
                rows,
                owners,
            ),
    decreases rows.len(),
{
    if rows.len() > 0 {
        let t = rows.drop_last();
        let n = rows.len() - 1;
        let before = listening_rows(t, owners);
        let all = listening_rows(rows, owners);
        law_listening_is_found(t, owners);
        assert forall|i: int| 0 <= i < rows.len() && (#[trigger] rows[i]).listening implies exists|
            k: int,
        | 0 <= k < all.len() && is_row_of(#[trigger] all[k], rows[i], owners) by {
            if i < n {
                assert(t[i] == rows[i]);
                let k = choose|k: int|
                    0 <= k < before.len() && is_row_of(#[trigger] before[k], t[i], owners);
                assert(all[k] == before[k]);
            } else {
                assert(is_row_of(all[before.len() as int], rows[i], owners));
            }
        }
        assert forall|k: int| 0 <= k < all.len() implies is_listening_row(
            #[trigger] all[k],
            rows,
            owners,
        ) by {
            if k < before.len() {
                assert(all[k] == before[k]);
                assert(is_listening_row(before[k], t, owners));
                let i = choose|i: int|
                    0 <= i < t.len() && (#[trigger] t[i]).listening && is_row_of(
                        before[k],
                        t[i],
                        owners,
                    );
                assert(rows[i] == t[i]);
            } else {
                assert(is_row_of(all[k], rows[n], owners));
            }
        }
    } else {
        assert(listening_rows(rows, owners).len() == 0);
    }
}

/// Every row is found again, and an owner that was resolved for one of them is not
/// lost.
pub proof fn law_rows_kept(rows: Seq<Found>, i: int)
    requires
        0 <= i < rows.len(),
    ensures
        with_rows(rows).contains_key(rows[i].key),
        rows[i].process is Some ==> with_rows(rows)[rows[i].key] is Some,
    decreases rows.len(),
{
    if i < rows.len() - 1 {
        law_rows_kept(rows.drop_last(), i);
        assert(rows.drop_last()[i] == rows[i]);
    }
}

/// Nothing is found that is in no row.
pub proof fn law_rows_only(rows: Seq<Found>, k: Key)
    requires
        with_rows(rows).contains_key(k),
    ensures
        has_key(rows, k),
        with_rows(rows)[k] is Some ==> exists|i: int|
            0 <= i < rows.len() && (#[trigger] rows[i]).key == k && rows[i].process == with_rows(
                rows,
            )[k],
    decreases rows.len(),
{
    let t = rows.drop_last();
    let n = rows.len() - 1;
    if rows.len() > 0 {
        if with_rows(t).contains_key(k) {
            law_rows_only(t, k);
            let x = choose|x: int| 0 <= x < t.len() && (#[trigger] t[x]).key == k;
            assert(rows[x].key == k);
            if with_rows(rows)[k] is Some && with_rows(rows)[k] == with_rows(t)[k] {
                let y = choose|y: int|
                    0 <= y < t.len() && (#[trigger] t[y]).key == k && t[y].process == with_rows(
                        t,
                    )[k];
                assert(rows[y] == t[y]);
            }
        }
        assert(rows[n] == rows.last());
    }
}

// ---- the client's side -------------------------------------------------

/// The name of a namespace in a watch list.
pub open spec fn watch_name(wire: Seq<char>) -> Seq<char> {
    if wire.len() == 0 {
        "host"@
    } else {
        wire
    }
}

/// The namespaces that discovery watches: the host, those of the rules, and those of
/// the active forwards.
pub open spec fn is_watched(set: Forwards, rules: Seq<Rule>, name: Seq<char>) -> bool {
    ||| name == "host"@
    ||| exists|i: int| 0 <= i < rules.len() && watch_name((#[trigger] rules[i]).ns) == name
    ||| exists|i: int|
        0 <= i < set.entries.len() && watch_name((#[trigger] set.entries[i]).spec.ns.wire())
            == name
}

/// Texts in order, none twice.
pub open spec fn names_in_order(s: Seq<Seq<char>>) -> bool {
    forall|i: int, j: int|
        0 <= i < j < s.len() ==> crate::text::lex_lt(#[trigger] s[i], #[trigger] s[j])
}

fn add_name(v: &mut Vec<String>, name: String)
    requires
        names_in_order(crate::client::string_texts(old(v)@)),
    ensures
        names_in_order(crate::client::string_texts(final(v)@)),
        forall|n: Seq<char>|
            #![trigger crate::client::string_texts(final(v)@).contains(n)]
            crate::client::string_texts(final(v)@).contains(n) <==> crate::client::string_texts(
                old(v)@,
            ).contains(n) || n == name@,
{
    let ghost s = crate::client::string_texts(v@);
    let ghost x = name@;
    let mut i: usize = 0;
    while i < v.len() && str_less(v[i].as_str(), name.as_str())
        invariant
            i <= v@.len(),
            v@ == old(v)@,
            s == crate::client::string_texts(v@),
            x == name@,
            forall|j: int| 0 <= j < i ==> crate::text::lex_lt(#[trigger] s[j], x),
        decreases v@.len() - i,
    {
        assert(s[i as int] == v@[i as int]@);
        i = i + 1;
    }
    if i < v.len() && str_eq(v[i].as_str(), name.as_str()) {
        assert(s[i as int] == x);
        return ;
    }
    proof {
        if i < v@.len() {
            assert(s[i as int] == v@[i as int]@);
            crate::text::lemma_lex_total(s[i as int], x);
        }
        assert forall|j: int| i <= j < s.len() implies crate::text::lex_lt(x, #[trigger] s[j]) by {
            if j > i {
                assert(crate::text::lex_lt(s[i as int], s[j]));
                crate::text::lemma_lex_trans(x, s[i as int], s[j]);
            }
        }
    }
    v.insert(i, name);
    proof {
        let t = s.insert(i as int, x);
        assert(crate::client::string_texts(v@) =~= t);
        assert forall|a: int, b: int| 0 <= a < b < t.len() implies crate::text::lex_lt(
            #[trigger] t[a],
            #[trigger] t[b],
        ) by {
            if a < i && b > i {
                assert(crate::text::lex_lt(s[a], s[b - 1]));
            } else if b < i {
                assert(crate::text::lex_lt(s[a], s[b]));
            } else if a > i {
                assert(crate::text::lex_lt(s[a - 1], s[b - 1]));
            } else if b == i {
                assert(crate::text::lex_lt(s[a], x));
            } else {
                assert(crate::text::lex_lt(x, s[b - 1]));
            }
        }
        assert forall|n: Seq<char>| #[trigger] t.contains(n) <==> s.contains(n) || n == x by {
            if s.contains(n) {
                let k = choose|k: int| 0 <= k < s.len() && s[k] == n;
                if k < i {
                    assert(t[k] == n);
                } else {
                    assert(t[k + 1] == n);
                }
            }
            if n == x {
                assert(t[i as int] == n);
            }
            if t.contains(n) {
                let k = choose|k: int| 0 <= k < t.len() && t[k] == n;
                if k < i {
                    assert(s[k] == n);
                } else if k > i {
                    assert(s[k - 1] == n);
                }
            }
        }
    }
}

fn name_of(wire: &str) -> (r: String)
    ensures
        r@ == watch_name(wire@),
{
    if wire.is_empty() {
        "host".to_owned()
    } else {
        wire.to_owned()
    }
}

/// The namespaces that discovery should watch, in order, none twice.
pub fn active_namespaces(set: &ForwardSet, rules: &Vec<AutoForwardRule>) -> (r: Vec<String>)
    ensures
        names_in_order(crate::client::string_texts(r@)),
        forall|n: Seq<char>|
            #![trigger crate::client::string_texts(r@).contains(n)]
            crate::client::string_texts(r@).contains(n) <==> is_watched(set@, rules_of(rules@), n),
{
    let ghost rs = rules_of(rules@);
    let mut v: Vec<String> = Vec::new();
    add_name(&mut v, "host".to_owned());
    let mut i: usize = 0;
    while i < rules.len()
        invariant
            i <= rules@.len(),
            rs == rules_of(rules@),
            names_in_order(crate::client::string_texts(v@)),
            forall|n: Seq<char>|
                #![trigger crate::client::string_texts(v@).contains(n)]
                crate::client::string_texts(v@).contains(n) <==> n == "host"@ || exists|k: int|
                    0 <= k < i && watch_name((#[trigger] rs[k]).ns) == n,
        decreases rules@.len() - i,
    {
        let ghost prev = crate::client::string_texts(v@);
        assert(rs[i as int] == rules@[i as int]@);
        add_name(&mut v, name_of(rules[i].ns.as_str()));
        i = i + 1;
    }
    let list = set.list();
    let ghost es = set@.entries;
    let mut j: usize = 0;
    while j < list.len()
        invariant
            j <= list@.len(),
            rs == rules_of(rules@),
            es == set@.entries,
            es == crate::client::entries_of(list@),
            names_in_order(crate::client::string_texts(v@)),
            forall|n: Seq<char>|
                #![trigger crate::client::string_texts(v@).contains(n)]
                crate::client::string_texts(v@).contains(n) <==> n == "host"@ || (exists|k: int|
                    0 <= k < rs.len() && watch_name((#[trigger] rs[k]).ns) == n) || exists|k: int|
                    0 <= k < j && watch_name((#[trigger] es[k]).spec.ns.wire()) == n,
        decreases list@.len() - j,
    {
        assert(es[j as int] == list@[j as int]@);
        add_name(&mut v, name_of(list[j].spec.ns.to_wire().as_str()));
        j = j + 1;
    }
    v
}

/// The names of a watch list, with a space between one and the next.
pub open spec fn joined_names(s: Seq<Seq<char>>) -> Seq<char>
    decreases s.len(),
{
    if s.len() == 0 {
        Seq::empty()
    } else if s.len() == 1 {
        s[0]
    } else {
        joined_names(s.drop_last()) + " "@ + s.last()
    }
}

/// The line that carries a watch list.
pub fn watch_line(names: &Vec<String>) -> (r: String)
    ensures
        r@ == joined_names(crate::client::string_texts(names@)) + "\n"@,
{
    let ghost all = crate::client::string_texts(names@);
    let mut s: String = String::new();
    let mut i: usize = 0;
    proof {
        assert(all.take(0) =~= Seq::<Seq<char>>::empty());
    }
    while i < names.len()
        invariant
            i <= names@.len(),
            all == crate::client::string_texts(names@),
            s@ == joined_names(all.take(i as int)),
        decreases names@.len() - i,
    {
        proof {
            assert(all.take(i + 1).drop_last() =~= all.take(i as int));
            assert(all.take(i + 1).last() == names@[i as int]@);
        }
        if i > 0 {
            s.append(" ");
        }
        s.append(names[i].as_str());
        proof {
            if i == 0 {
                assert(s@ =~= all.take(1)[0]);
            }
        }
        i = i + 1;
    }
    proof {
        assert(all.take(i as int) =~= all);
    }
    s.concat("\n")
}

/// Whether two watch lists are the same.
pub fn same_names(a: &Vec<String>, b: &Vec<String>) -> (r: bool)
    ensures
        r == (crate::client::string_texts(a@) == crate::client::string_texts(b@)),
{
    let ghost x = crate::client::string_texts(a@);
    let ghost y = crate::client::string_texts(b@);
    if a.len() != b.len() {
        assert(x.len() != y.len());
        return false;
    }
    let mut i: usize = 0;
    while i < a.len()
        invariant
            i <= a@.len(),
            a@.len() == b@.len(),
            x == crate::client::string_texts(a@),
            y == crate::client::string_texts(b@),
            forall|j: int| 0 <= j < i ==> #[trigger] x[j] == y[j],
        decreases a@.len() - i,
    {
        if !str_eq(a[i].as_str(), b[i].as_str()) {
            assert(x[i as int] != y[i as int]);
            return false;
        }
        i = i + 1;
    }
    assert(x =~= y);
    true
}

/// The forward for a discovered listener: dialed inside its own namespace (on the
/// loopback address where it is bound to a wildcard one), preferring its own port
/// locally.
pub open spec fn listener_forward(l: Found, default_bind: IpAddr) -> Result<Forward, SpecFault> {
    match crate::forward::ns_of_wire(l.key.ns) {
        Err(e) => Err(e),
        Ok(ns) => Ok(
            Forward {
                ns,
                ns_inherited: false,
                remote_host: if l.key.ip == "0.0.0.0"@ || l.key.ip == "::"@ {
                    "127.0.0.1"@
                } else {
                    l.key.ip
                },
                remote_port: l.key.port,
                local_addr: default_bind,
                local_port: l.key.port,
                local_port_auto: true,
                kind: ForwardKind::Direct,
            },
        ),
    }
}

/// Builds the forward for a discovered listener. Its namespace is a fact, not a
/// default; its local address is the default one.
pub fn spec_for_listener(l: &Listener, default_bind: IpAddr) -> (r: Result<
    ForwardSpec,
    SpecError,
>)
    ensures
        crate::error::outcome(r) == listener_forward(l@, default_bind),
{
    match NsSpec::from_wire(l.ns.as_str()) {
        Err(e) => Err(e),
        Ok(ns) => Ok(
            ForwardSpec {
                ns,
                ns_inherited: false,
                remote_host: if str_eq(l.ip.as_str(), "0.0.0.0") || str_eq(l.ip.as_str(), "::") {
                    "127.0.0.1".to_owned()
                } else {
                    l.ip.clone()
                },
                remote_port: l.port,
                local_addr: default_bind,
                local_port: l.port,
                local_port_auto: true,
                kind: ForwardKind::Direct,
            },
        ),
    }
}

/// The first rule that covers a listener.
pub open spec fn first_rule(rules: Seq<Rule>, l: Found, i: int) -> bool {
    &&& 0 <= i < rules.len()
    &&& rules[i].covers(l.key.ns, l.key.port)
    &&& forall|j: int| 0 <= j < i ==> !(#[trigger] rules[j]).covers(l.key.ns, l.key.port)
}

/// A forward of the set already targets the listener.
pub open spec fn is_targeted(set: Forwards, l: Found) -> bool {
    exists|i: int|
        0 <= i < set.entries.len() && (#[trigger] set.entries[i]).spec.ns.wire() == l.key.ns
            && set.entries[i].spec.remote_port == l.key.port
}

/// The local port that an auto-forward asks for: the one it had before, or that of
/// the listener where the rule says so, else one that the system picks.
pub open spec fn preferred_port(rule: Rule, l: Found, assigned: Option<u16>) -> int {
    match assigned {
        Some(p) => p as int,
        None => if rule.local == "same"@ {
            l.key.port
        } else {
            0
        },
    }
}

/// Whether listeners are worth watching: where a rule may forward them, or somebody
/// looks at them.
pub fn is_wanted(rules: &Vec<AutoForwardRule>, shown: bool) -> (r: bool)
    ensures
        r == (rules@.len() > 0 || shown),
{
    rules.len() > 0 || shown
}

/// What to bind for a discovered listener: nothing where no rule covers it or it is
/// forwarded already; else its forward on a fixed local port, by the first rule
/// that covers it.
pub fn consider(
    l: &Listener,
    set: &ForwardSet,
    rules: &Vec<AutoForwardRule>,
    assigned: Option<u16>,
) -> (r: Result<Option<ForwardSpec>, SpecError>)
    ensures
        match r {
            Ok(None) => is_targeted(set@, l@) || forall|i: int| !first_rule(
                rules_of(rules@),
                l@,
                i,
            ),
            Ok(Some(f)) => {
                &&& !is_targeted(set@, l@)
                &&& exists|i: int| #[trigger]
                    first_rule(rules_of(rules@), l@, i) && (listener_forward(
                        l@,
                        set@.default_bind,
                    ) matches Ok(g) && f@ == (Forward {
                        local_port: preferred_port(rules_of(rules@)[i], l@, assigned),
                        local_port_auto: false,
                        ..g
                    }))
            },
            Err(e) => {
                &&& !is_targeted(set@, l@)
                &&& exists|i: int| #[trigger] first_rule(rules_of(rules@), l@, i)
                &&& listener_forward(l@, set@.default_bind) == Err::<Forward, SpecFault>(e@)
            },
        },
{
    let ghost rs = rules_of(rules@);
    let mut i: usize = 0;
    while i < rules.len()
        invariant
            i <= rules@.len(),
            rs == rules_of(rules@),
            forall|j: int| 0 <= j < i ==> !(#[trigger] rs[j]).covers(l@.key.ns, l@.key.port),
        decreases rules@.len() - i,
    {
        assert(rs[i as int] == rules@[i as int]@);
        if rules[i].matches(l.ns.as_str(), l.port) {
            assert(first_rule(rs, l@, i as int));
            if set.targets(l.ns.as_str(), l.port) {
                return Ok(None);
            }
            let port: u16 = match assigned {
                Some(p) => p,
                None => {
                    if str_eq(rules[i].local.as_str(), "same") {
                        l.port
                    } else {
                        0
                    }
                },
            };
            return match spec_for_listener(l, set.default_bind()) {
                Err(e) => Err(e),
                Ok(mut f) => {
                    f.local_port = port;
                    f.local_port_auto = false;
                    Ok(Some(f))
                },
            };
        }
        i = i + 1;
    }
    Ok(None)
}

/// What to try where an auto-forward could not be bound: once more on a port that the
/// system picks, unless that was tried already.
pub fn fallback(spec: &ForwardSpec) -> (r: Option<ForwardSpec>)
    ensures
        match r {
            Some(f) => spec.local_port != 0 && f@ == (Forward { local_port: 0, ..spec@ }),
            None => spec.local_port == 0,
        },
{
    if spec.local_port == 0 {
        None
    } else {
        let mut f = spec.clone();
        f.local_port = 0;
        Some(f)
    }
}

/// A listener that was bound once keeps its local port in later sessions, whatever
/// the rule says.
pub proof fn law_assignment_sticks(rule: Rule, l: Found, port: u16)
    ensures
        preferred_port(rule, l, Some(port)) == port,
{
}

/// Of the owners that were resolved for one namespace, address and port, the first in
/// the tables is shown.
pub proof fn law_first_owner_stays(rows: Seq<Found>, i: int)
    requires
        0 <= i < rows.len(),
        rows[i].process is Some,
        forall|j: int|
            0 <= j < i && (#[trigger] rows[j]).key == rows[i].key ==> rows[j].process is None,
    ensures
        with_rows(rows).contains_key(rows[i].key),
        with_rows(rows)[rows[i].key] == rows[i].process,
    decreases rows.len(),
{
    let t = rows.drop_last();
    let k = rows[i].key;
    if i < t.len() {
        assert(t[i] == rows[i]);
        assert forall|j: int| 0 <= j < i && (#[trigger] t[j]).key == t[i].key implies t[j].process is None by {
            assert(rows[j] == t[j]);
        }
        law_first_owner_stays(t, i);
    } else if with_rows(t).contains_key(k) && with_rows(t)[k] is Some {
        law_rows_only(t, k);
        let j = choose|j: int|
            0 <= j < t.len() && (#[trigger] t[j]).key == k && t[j].process == with_rows(t)[k];
        assert(rows[j] == t[j]);
        assert(false);
    }
}

/// Listeners are ordered by their namespace, within it by their address, and on one
/// address by their port.
pub proof fn law_listener_order(a: Key, b: Key)
    ensures
        crate::text::lex_lt(a.ns, b.ns) ==> key_lt(a, b) && !key_lt(b, a),
        a.ns == b.ns && crate::text::lex_lt(a.ip, b.ip) ==> key_lt(a, b) && !key_lt(b, a),
        a.ns == b.ns && a.ip == b.ip ==> (key_lt(a, b) <==> a.port < b.port),
{
    lemma_key_total(a, b);
    crate::text::lemma_lex_total(a.ip, a.ip);
    crate::text::lemma_lex_total(a.ns, a.ns);
}

/// The names of a list of namespaces, as they stand in a watch list.
pub open spec fn watch_names(nss: Seq<Ns>) -> Seq<Seq<char>> {
    nss.map_values(|n: Ns| watch_name(n.wire()))
}

/// The watch list that the client sends is read by the agent as the namespaces that it
/// was made of, in their order.
pub proof fn law_watch_list_understood(nss: Seq<Ns>)
    requires
        forall|i: int|
            0 <= i < nss.len() ==> (#[trigger] nss[i]).named() && crate::text::no_white(
                nss[i].wire(),
            ),
    ensures
        watched_in(crate::text::words(joined_names(watch_names(nss)) + "\n"@)) == nss,
    decreases nss.len(),
{
    reveal_strlit("\n");
    let names = watch_names(nss);
    let j = joined_names(names);
    lemma_watch_words(nss);
    assert(j + "\n"@ =~= j + seq!['\n'] + Seq::<char>::empty());
    crate::text::lemma_words_join(j, '\n', Seq::empty());
    assert(crate::text::words(Seq::<char>::empty()) =~= Seq::<Seq<char>>::empty());
    assert(crate::text::words(j) + Seq::<Seq<char>>::empty() =~= names);
    lemma_watch_read(nss);
}

proof fn lemma_watch_words(nss: Seq<Ns>)
    requires
        forall|i: int|
            0 <= i < nss.len() ==> (#[trigger] nss[i]).named() && crate::text::no_white(
                nss[i].wire(),
            ),
    ensures
        crate::text::words(joined_names(watch_names(nss))) == watch_names(nss),
    decreases nss.len(),
{
    reveal_strlit(" ");
    reveal_strlit("host");
    let names = watch_names(nss);
    if nss.len() == 0 {
        assert(joined_names(names) =~= Seq::<char>::empty());
        assert(crate::text::words(Seq::<char>::empty()) =~= names);
    } else {
        let t = nss.drop_last();
        let last = names.last();
        assert(nss[nss.len() - 1] == nss.last());
        assert(last == watch_name(nss.last().wire()));
        assert(crate::text::no_white(last) && last.len() > 0);
        crate::text::lemma_words_single(last);
        assert forall|i: int| 0 <= i < t.len() implies (#[trigger] t[i]).named()
            && crate::text::no_white(t[i].wire()) by {
            assert(t[i] == nss[i]);
        }
        lemma_watch_words(t);
        assert(names.drop_last() =~= watch_names(t));
        if nss.len() == 1 {
            assert(names =~= seq![last]);
        } else {
            let front = joined_names(names.drop_last());
            assert(joined_names(names) =~= front + seq![' '] + last);
            crate::text::lemma_words_join(front, ' ', last);
            assert(names =~= names.drop_last() + seq![last]);
        }
    }
}

#[verifier::rlimit(80)]
proof fn lemma_watch_read(nss: Seq<Ns>)
    requires
        forall|i: int| 0 <= i < nss.len() ==> (#[trigger] nss[i]).named(),
    ensures
        watched_in(watch_names(nss)) == nss,
    decreases nss.len(),
{
    let names = watch_names(nss);
    if nss.len() == 0 {
        assert(watched_in(names) =~= nss);
    } else {
        let t = nss.drop_last();
        let n = nss.last();
        assert(nss[nss.len() - 1] == n);
        assert forall|i: int| 0 <= i < t.len() implies (#[trigger] t[i]).named() by {
            assert(t[i] == nss[i]);
        }
        lemma_watch_read(t);
        assert(names.drop_last() =~= watch_names(t));
        assert(names.last() == watch_name(n.wire()));
        crate::forward::law_ns_wire_roundtrip(n);
        lemma_wire_is_not_host(n);
        if n is Host {
            assert(n.wire() =~= Seq::<char>::empty());
        }
        assert(nss =~= t.push(n));
    }
}

proof fn lemma_wire_is_not_host(n: Ns)
    ensures
        n.wire() != "host"@,
        n.wire().len() == 0 <==> n is Host,
{
    reveal_strlit("host");
    reveal_strlit("podman:");
    reveal_strlit("docker:");
    reveal_strlit("pid:");
    reveal_strlit("netns:");
    reveal_strlit("nspath:");
    if n.wire() == "host"@ {
        assert(n.wire()[0] == 'h');
    }
}

/// The link of a network namespace gives the number that stands in it.
pub proof fn law_netns_link(n: int)
    requires
        0 <= n <= u64::MAX,
    ensures
        inode_of("net:["@ + crate::text::decimal(n) + "]"@) == Some(n),
{
    reveal_strlit("net:[");
    reveal_strlit("]");
    let d = crate::text::decimal(n);
    let link = "net:["@ + d + "]"@;
    assert(link.subrange(0, 5) =~= "net:["@);
    assert(crate::text::occurs_at(link, "net:["@, 0));
    let t = link.skip(5);
    assert(t =~= d + "]"@);
    assert(t.subrange(d.len() as int, d.len() as int + 1) =~= "]"@);
    assert(crate::text::occurs_at(t, "]"@, d.len() as int));
    assert(t.take(d.len() as int) =~= d);
    crate::text::lemma_decimal_roundtrip(n, u64::MAX as int);
}

/// A listener is forwarded as what it is: in its own namespace, at its own address (on
/// the loopback address where it is on all of them), on its own port on both sides.
pub proof fn law_listener_is_forwarded(
    ns: Ns,
    ip: Seq<char>,
    port: int,
    process: Option<Owner>,
    bind: IpAddr,
)
    requires
        ns.named(),
    ensures
        ({
            let l = Found { key: Key { ns: ns.wire(), ip, port }, process };
            &&& listener_forward(l, bind) matches Ok(f)
            &&& f.ns == ns
            &&& !f.ns_inherited
            &&& f.remote_port == port
            &&& f.local_port == port
            &&& f.local_port_auto
            &&& f.local_addr == bind
            &&& f.kind == ForwardKind::Direct
            &&& ip == "0.0.0.0"@ || ip == "::"@ ==> f.remote_host == "127.0.0.1"@
            &&& ip != "0.0.0.0"@ && ip != "::"@ ==> f.remote_host == ip
        }),
{
    crate::forward::law_ns_wire_roundtrip(ns);
}

/// A listener that a forward of the set was made for is not forwarded again, whatever
/// local port the forward is on; and one is left alone only where some forward has its
/// namespace and its port.
pub proof fn law_listener_forwarded_once(set: Forwards, l: Found, ns: Ns, i: int, bind: IpAddr)
    requires
        0 <= i < set.entries.len(),
        ns.named(),
        l.key.ns == ns.wire(),
    ensures
        listener_forward(l, bind) matches Ok(f) ==> (set.entries[i].spec == (Forward {
            local_port: set.entries[i].spec.local_port,
            local_port_auto: set.entries[i].spec.local_port_auto,
            ..f
        }) ==> is_targeted(set, l)),
        (forall|j: int|
            0 <= j < set.entries.len() ==> (#[trigger] set.entries[j]).spec.remote_port
                != l.key.port) ==> !is_targeted(set, l),
        (forall|j: int|
            0 <= j < set.entries.len() ==> (#[trigger] set.entries[j]).spec.ns.wire()
                != l.key.ns) ==> !is_targeted(set, l),
{
    crate::forward::law_ns_wire_roundtrip(ns);
}

/// Without a port from an earlier session a listener gets its own port where the rule
/// says `same`, and any other policy leaves the port to the system.
pub proof fn law_local_port_policy(rule: Rule, l: Found)
    ensures
        rule.local == "same"@ ==> preferred_port(rule, l, None) == l.key.port,
        rule.local != "same"@ ==> preferred_port(rule, l, None) == 0,
{
}

/// The host's own namespace is always watched, and so is the namespace of every rule
/// and of every forward; no other is.
pub proof fn law_what_is_watched(set: Forwards, rules: Seq<Rule>, name: Seq<char>)
    ensures
        is_watched(set, rules, "host"@),
        forall|i: int|
            0 <= i < rules.len() && (#[trigger] rules[i]).ns.len() > 0 ==> is_watched(
                set,
                rules,
                rules[i].ns,
            ),
        forall|i: int|
            0 <= i < set.entries.len() && !((#[trigger] set.entries[i]).spec.ns is Host)
                ==> is_watched(set, rules, set.entries[i].spec.ns.wire()),
        name != "host"@ && (forall|i: int|
            0 <= i < rules.len() ==> (#[trigger] rules[i]).ns != name) && (forall|i: int|
            0 <= i < set.entries.len() ==> (#[trigger] set.entries[i]).spec.ns.wire() != name)
            ==> !is_watched(set, rules, name),
{
    assert forall|i: int|
        0 <= i < rules.len() && (#[trigger] rules[i]).ns.len() > 0 implies is_watched(
        set,
        rules,
        rules[i].ns,
    ) by {
        assert(watch_name(rules[i].ns) == rules[i].ns);
    }
    assert forall|i: int|
        0 <= i < set.entries.len() && !((#[trigger] set.entries[i]).spec.ns is Host) implies is_watched(
        set,
        rules,
        set.entries[i].spec.ns.wire(),
    ) by {
        lemma_wire_is_not_host(set.entries[i].spec.ns);
        assert(watch_name(set.entries[i].spec.ns.wire()) == set.entries[i].spec.ns.wire());
    }
}

} // verus!
