//! Bringing up an agent over SSH: which binary suits the remote machine, where it is
//! looked for and deployed, and how it is launched.

use crate::client::string_texts;
use crate::crypto::{sha256, sha256_of, Fingerprint, Identity, Timing};
use crate::forward::{debug_str, debug_text};
use crate::handshake::{Ready, SessionId, Token};
use crate::hexcode::{hex_encode, hex_of};
use crate::text::{
    copy_bytes, dec, pieces, split, split_whitespace, str_eq, strip_prefix, texts, trim,
    words,
};
use vstd::prelude::*;

verus! {

/// Connection timeout for every SSH invocation, so that recovery attempts during an
/// outage fail fast.
pub const SSH_CONNECT_TIMEOUT: &'static str = "ConnectTimeout=10";

/// Everything the client needs to connect to (and later re-attach to) the agent.
pub struct AgentSession {
    /// `hostname:udp_port` to dial.
    pub quic_target: String,
    /// Agent's pinned certificate fingerprint.
    pub agent_fp: Fingerprint,
    /// Client identity used for the connection.
    pub client_id: Identity,
    /// Logical session id.
    pub session_id: SessionId,
    /// Shared re-attach secret.
    pub token: Token,
    /// Agent binary version reported in the handshake.
    pub agent_version: String,
}

/// Everything the client needs to reach a tunnel-mode agent.
pub struct TunnelSession {
    /// Loopback TCP port the agent listens on.
    pub tcp_port: u16,
    /// Shared session secret presented on every tunnel connection.
    pub token: Token,
    /// Agent binary version reported in the handshake.
    pub agent_version: String,
}

impl AgentSession {
    /// The session with an agent on `hostname` that answered `ready`.
    pub fn from_ready(hostname: &str, ready: Ready, client_id: Identity, token: Token) -> (r: Self)
        ensures
            r.quic_target@ == hostname@ + ":"@ + crate::text::decimal(ready.udp_port as int),
            r.agent_fp == ready.agent_fp,
            r.client_id == client_id,
            r.session_id == ready.session_id,
            r.token == token,
            r.agent_version == ready.version,
    {
        AgentSession {
            quic_target: hostname.to_owned().concat(":").concat(
                dec(ready.udp_port as u64).as_str(),
            ),
            agent_fp: ready.agent_fp,
            client_id,
            session_id: ready.session_id,
            token,
            agent_version: ready.version,
        }
    }
}

impl TunnelSession {
    /// The session with a tunnel-mode agent that answered `ready`.
    pub fn from_ready(ready: Ready, token: Token) -> (r: Self)
        ensures
            r.tcp_port == ready.udp_port,
            r.token == token,
            r.agent_version == ready.version,
    {
        TunnelSession { tcp_port: ready.udp_port, token, agent_version: ready.version }
    }
}

/// Default timing for bootstrapped sessions.
pub fn default_timing() -> (r: Timing)
    ensures
        r.keep_alive == crate::crypto::DEFAULT_KEEP_ALIVE,
        r.max_idle == crate::crypto::DEFAULT_MAX_IDLE,
{
    Timing::default()
}

// ---- the remote machine ------------------------------------------------

/// Why there is no agent for the remote machine.
#[derive(Debug, PartialEq, Eq)]
pub enum TargetError {
    UnsupportedOs(String),
    UnsupportedArch(String),
}

/// The model of a [`TargetError`].
#[verifier::ext_equal]
pub enum TargetFault {
    UnsupportedOs(Seq<char>),
    UnsupportedArch(Seq<char>),
}

impl View for TargetError {
    type V = TargetFault;

    open spec fn view(&self) -> TargetFault {
        match self {
            TargetError::UnsupportedOs(s) => TargetFault::UnsupportedOs(s@),
            TargetError::UnsupportedArch(s) => TargetFault::UnsupportedArch(s@),
        }
    }
}

impl TargetFault {
    /// The message for this error.
    pub open spec fn text(self) -> Seq<char> {
        match self {
            TargetFault::UnsupportedOs(s) => "unsupported remote OS "@ + debug_text(s)
                + "; v1 agents are Linux-only"@,
            TargetFault::UnsupportedArch(s) => "unsupported remote arch "@ + debug_text(s)
                + "; v1 supports x86_64 and aarch64"@,
        }
    }
}

impl TargetError {
    /// The message for this error.
    pub fn message(&self) -> (r: String)
        ensures
            r@ == self@.text(),
    {
        match self {
            TargetError::UnsupportedOs(s) => String::from_str("unsupported remote OS ").concat(
                debug_str(s.as_str()).as_str(),
            ).concat("; v1 agents are Linux-only"),
            TargetError::UnsupportedArch(s) => String::from_str("unsupported remote arch ").concat(
                debug_str(s.as_str()).as_str(),
            ).concat("; v1 supports x86_64 and aarch64"),
        }
    }
}

/// The word at `i`, or nothing.
pub open spec fn word_at(s: Seq<char>, i: int) -> Seq<char> {
    if i < words(s).len() {
        words(s)[i]
    } else {
        Seq::empty()
    }
}

/// The target of the agent binary for a machine that reports itself like this.
pub open spec fn triple_of(uname_sm: Seq<char>) -> Result<Seq<char>, TargetFault> {
    let os = word_at(uname_sm, 0);
    let arch = word_at(uname_sm, 1);
    if os != "Linux"@ {
        Err(TargetFault::UnsupportedOs(os))
    } else if arch == "x86_64"@ || arch == "amd64"@ {
        Ok("x86_64-unknown-linux-musl"@)
    } else if arch == "aarch64"@ || arch == "arm64"@ {
        Ok("aarch64-unknown-linux-musl"@)
    } else {
        Err(TargetFault::UnsupportedArch(arch))
    }
}

fn nth_word<'a>(s: &'a str, i: usize) -> (r: &'a str)
    ensures
        r@ == word_at(s@, i as int),
{
    let v: Vec<&'a str> = split_whitespace(s);
    proof {
        assert(texts(v@) == words(s@));
        assert(texts(v@).len() == v@.len());
    }
    if i < v.len() {
        proof {
            assert(texts(v@)[i as int] == v@[i as int]@);
        }
        v[i]
    } else {
        let e: &'static str = "";
        proof {
            reveal_strlit("");
            assert(e@ =~= Seq::<char>::empty());
        }
        e
    }
}

/// Maps `uname -s -m` output to the agent's target triple.
pub fn target_triple(uname_sm: &str) -> (r: Result<&'static str, TargetError>)
    ensures
        match r {
            Ok(t) => triple_of(uname_sm@) == Ok::<Seq<char>, TargetFault>(t@),
            Err(e) => triple_of(uname_sm@) == Err::<Seq<char>, TargetFault>(e@),
        },
{
    let os: &str = nth_word(uname_sm, 0);
    let arch: &str = nth_word(uname_sm, 1);
    if !str_eq(os, "Linux") {
        return Err(TargetError::UnsupportedOs(os.to_owned()));
    }
    if str_eq(arch, "x86_64") || str_eq(arch, "amd64") {
        Ok("x86_64-unknown-linux-musl")
    } else if str_eq(arch, "aarch64") || str_eq(arch, "arm64") {
        Ok("aarch64-unknown-linux-musl")
    } else {
        Err(TargetError::UnsupportedArch(arch.to_owned()))
    }
}

/// The architecture in `uname -s -m` output; nothing where there is none.
pub fn remote_arch(uname_sm: &str) -> (r: String)
    ensures
        r@ == word_at(uname_sm@, 1),
{
    nth_word(uname_sm, 1).to_owned()
}

// ---- paths -------------------------------------------------------------

/// The parts of a path, by which two paths are told apart.
#[derive(Debug)]
pub struct FilePath {
    pub absolute: bool,
    pub parts: Vec<String>,
}

/// The model of a [`FilePath`].
#[verifier::ext_equal]
pub struct Parts {
    pub absolute: bool,
    pub parts: Seq<Seq<char>>,
}

impl View for FilePath {
    type V = Parts;

    open spec fn view(&self) -> Parts {
        Parts { absolute: self.absolute, parts: string_texts(self.parts@) }
    }
}

/// The piece at `i` of a path counts: one that is empty does not, and one that stands
/// for the directory it is in only at the front.
pub open spec fn counts(piece: Seq<char>, i: int) -> bool {
    piece.len() > 0 && (piece != "."@ || i == 0)
}

/// Those of the first `n` pieces that count.
pub open spec fn counted(p: Seq<Seq<char>>, n: nat) -> Seq<Seq<char>>
    decreases n,
{
    if n == 0 {
        Seq::empty()
    } else {
        let r = counted(p, (n - 1) as nat);
        if counts(p[n - 1], n - 1) {
            r.push(p[n - 1])
        } else {
            r
        }
    }
}

/// The parts of a path.
pub open spec fn parts_of(path: Seq<char>) -> Parts {
    Parts {
        absolute: path.len() > 0 && path[0] == '/',
        parts: counted(pieces(path, '/'), pieces(path, '/').len()),
    }
}

/// Texts with a slash between any two of them.
pub open spec fn slashed(parts: Seq<Seq<char>>) -> Seq<char>
    decreases parts.len(),
{
    if parts.len() == 0 {
        Seq::empty()
    } else if parts.len() == 1 {
        parts[0]
    } else {
        slashed(parts.drop_last()) + "/"@ + parts.last()
    }
}

/// A path that starts at the root.
pub open spec fn is_rooted(path: Seq<char>) -> bool {
    path.len() > 0 && path[0] == '/'
}

/// What lies below `path` under `name`; `name` alone where it starts at the root.
pub open spec fn joined(path: Seq<char>, name: Seq<char>) -> Seq<char> {
    if is_rooted(name) {
        name
    } else if path.len() == 0 || path.last() == '/' {
        path + name
    } else {
        path + "/"@ + name
    }
}

/// How many pieces of a path it takes to get to the last of the first `n` that
/// counts; 0 where none does.
pub open spec fn last_counted(p: Seq<Seq<char>>, n: nat) -> nat
    decreases n,
{
    if n == 0 {
        0
    } else if counts(p[n - 1], n - 1) {
        n
    } else {
        last_counted(p, (n - 1) as nat)
    }
}

/// How many pieces of a path it takes to get to the last of the first `n` that is
/// `target`; 0 where none is.
pub open spec fn last_target(p: Seq<Seq<char>>, n: nat) -> nat
    decreases n,
{
    if n == 0 {
        0
    } else if p[n - 1] == "target"@ {
        n
    } else {
        last_target(p, (n - 1) as nat)
    }
}

/// The directory that holds what a path names, if it is in one: the path as it is
/// written, up to the last piece that counts before the one that names it.
pub open spec fn parent_of(path: Seq<char>) -> Option<Seq<char>> {
    let p = pieces(path, '/');
    let n = last_counted(p, p.len());
    if n == 0 {
        None
    } else {
        let m = last_counted(p, (n - 1) as nat);
        Some(
            if m > 0 {
                slashed(p.take(m as int))
            } else if is_rooted(path) {
                "/"@
            } else {
                Seq::empty()
            },
        )
    }
}

/// The innermost `target` directory on a path, the path itself included, as it is
/// written.
pub open spec fn target_of(path: Seq<char>) -> Option<Seq<char>> {
    let p = pieces(path, '/');
    let n = last_target(p, p.len());
    if n == 0 {
        None
    } else if n == last_counted(p, p.len()) {
        Some(path)
    } else {
        Some(slashed(p.take(n as int)))
    }
}

impl FilePath {
    /// Takes a path apart.
    pub fn parse(path: &str) -> (r: FilePath)
        ensures
            r@ == parts_of(path@),
    {
        let list: Vec<&str> = split(path, '/');
        let ghost p = pieces(path@, '/');
        let mut parts: Vec<String> = Vec::new();
        let mut i: usize = 0;
        proof {
            assert(string_texts(parts@) =~= Seq::<Seq<char>>::empty());
        }
        while i < list.len()
            invariant
                i <= list@.len(),
                texts(list@) == p,
                string_texts(parts@) == counted(p, i as nat),
            decreases list@.len() - i,
        {
            let ghost before = string_texts(parts@);
            assert(p[i as int] == list@[i as int]@);
            if !list[i].is_empty() && (i == 0 || !str_eq(list[i], ".")) {
                parts.push(list[i].to_owned());
                proof {
                    assert(string_texts(parts@) =~= before.push(p[i as int]));
                }
            }
            i = i + 1;
        }
        proof {
            assert(p.len() == list@.len());
        }
        let absolute: bool = strip_prefix(path, "/").is_some();
        proof {
            reveal_strlit("/");
            assert("/"@ =~= seq!['/']);
            if path@.len() > 0 {
                assert(path@.take(1) =~= seq![path@[0]]);
                if path@[0] == '/' {
                    assert(path@.take(1) =~= "/"@);
                } else {
                    assert(path@.take(1) != "/"@) by {
                        if path@.take(1) == "/"@ {
                            assert(path@.take(1)[0] == "/"@[0]);
                        }
                    }
                }
            }
        }
        FilePath { absolute, parts }
    }
}

/// Whether a path starts at the root.
fn rooted(path: &str) -> (r: bool)
    ensures
        r == is_rooted(path@),
{
    path.unicode_len() > 0 && path.get_char(0) == '/'
}

/// What lies below `path` under `name`; `name` alone where it starts at the root.
pub fn join_path(path: &str, name: &str) -> (r: String)
    ensures
        r@ == joined(path@, name@),
{
    if rooted(name) {
        return name.to_owned();
    }
    let n: usize = path.unicode_len();
    if n == 0 || path.get_char(n - 1) == '/' {
        path.to_owned().concat(name)
    } else {
        path.to_owned().concat("/").concat(name)
    }
}

/// The first `n` pieces of a path, with a slash between any two of them.
fn first_pieces(list: &Vec<&str>, n: usize) -> (r: String)
    requires
        n <= list@.len(),
    ensures
        r@ == slashed(texts(list@).take(n as int)),
{
    let ghost t = texts(list@);
    let mut s: String = String::new();
    let mut i: usize = 0;
    proof {
        assert(t.take(0) =~= Seq::<Seq<char>>::empty());
        assert(s@ =~= slashed(t.take(0)));
    }
    while i < n
        invariant
            i <= n <= list@.len(),
            t == texts(list@),
            s@ == slashed(t.take(i as int)),
        decreases n - i,
    {
        proof {
            assert(t.take(i + 1).drop_last() =~= t.take(i as int));
            assert(t.take(i + 1).last() == list@[i as int]@);
        }
        if i > 0 {
            s.append("/");
        }
        s.append(list[i]);
        proof {
            if i == 0 {
                assert(s@ =~= t.take(1)[0]);
            }
            assert(s@ =~= slashed(t.take(i + 1)));
        }
        i = i + 1;
    }
    s
}

/// How many pieces it takes to get to the last of the first `n` that counts.
fn count_back(list: &Vec<&str>, n: usize) -> (r: usize)
    requires
        n <= list@.len(),
    ensures
        r == last_counted(texts(list@), n as nat),
        r <= n,
{
    let mut i: usize = n;
    while i > 0
        invariant
            i <= n <= list@.len(),
            last_counted(texts(list@), i as nat) == last_counted(texts(list@), n as nat),
        decreases i,
    {
        assert(texts(list@)[i - 1] == list@[i - 1]@);
        if !list[i - 1].is_empty() && (i == 1 || !str_eq(list[i - 1], ".")) {
            return i;
        }
        i = i - 1;
    }
    0
}

/// The directory that holds what a path names, if it is in one.
pub fn parent_dir(path: &str) -> (r: Option<String>)
    ensures
        match r {
            Some(d) => parent_of(path@) == Some(d@),
            None => parent_of(path@) is None,
        },
{
    let list: Vec<&str> = split(path, '/');
    assert(texts(list@).len() == list@.len());
    let n: usize = count_back(&list, list.len());
    if n == 0 {
        return None;
    }
    let m: usize = count_back(&list, n - 1);
    if m > 0 {
        Some(first_pieces(&list, m))
    } else if rooted(path) {
        Some("/".to_owned())
    } else {
        let d: String = String::new();
        assert(d@ =~= Seq::<char>::empty());
        Some(d)
    }
}

/// The innermost `target` directory on a path, the path itself included.
pub fn target_dir(path: &str) -> (r: Option<String>)
    ensures
        match r {
            Some(d) => target_of(path@) == Some(d@),
            None => target_of(path@) is None,
        },
{
    let list: Vec<&str> = split(path, '/');
    assert(texts(list@).len() == list@.len());
    let mut n: usize = list.len();
    while n > 0 && !str_eq(list[n - 1], "target")
        invariant
            n <= list@.len(),
            last_target(texts(list@), n as nat) == last_target(texts(list@), list@.len()),
        decreases n,
    {
        assert(texts(list@)[n - 1] == list@[n - 1]@);
        n = n - 1;
    }
    if n == 0 {
        return None;
    }
    assert(texts(list@)[n - 1] == list@[n - 1]@);
    if n == count_back(&list, list.len()) {
        Some(path.to_owned())
    } else {
        Some(first_pieces(&list, n))
    }
}

/// Whether two texts name the same path, part by part.
pub fn same_path(a: &str, b: &str) -> (r: bool)
    ensures
        r == (parts_of(a@) == parts_of(b@)),
{
    let x: FilePath = FilePath::parse(a);
    let y: FilePath = FilePath::parse(b);
    if x.absolute != y.absolute || x.parts.len() != y.parts.len() {
        proof {
            if x@ == y@ {
                assert(x@.parts.len() == y@.parts.len());
            }
        }
        return false;
    }
    let mut i: usize = 0;
    while i < x.parts.len()
        invariant
            x@ == parts_of(a@),
            y@ == parts_of(b@),
            i <= x.parts@.len(),
            x.parts@.len() == y.parts@.len(),
            forall|j: int| 0 <= j < i ==> x@.parts[j] == #[trigger] y@.parts[j],
        decreases x.parts@.len() - i,
    {
        proof {
            assert(x@.parts[i as int] == x.parts@[i as int]@);
            assert(y@.parts[i as int] == y.parts@[i as int]@);
        }
        if !str_eq(x.parts[i].as_str(), y.parts[i].as_str()) {
            return false;
        }
        i = i + 1;
    }
    proof {
        assert(x@.parts =~= y@.parts);
    }
    true
}

// ---- where the agent binary is -----------------------------------------

/// The places next to an executable.
pub open spec fn beside(exe: Seq<char>, triple: Seq<char>) -> Seq<Seq<char>> {
    match parent_of(exe) {
        None => Seq::empty(),
        Some(d) => seq![
            joined(joined(d, "agents"@), "agent-"@ + triple),
            joined(d, "agent-"@ + triple),
        ],
    }
}

/// The place in the build directory that an executable lies in, if any.
pub open spec fn in_build(exe: Seq<char>, triple: Seq<char>) -> Seq<Seq<char>> {
    match target_of(exe) {
        None => Seq::empty(),
        Some(d) => seq![joined(joined(d, triple), "release/portmanager"@)],
    }
}

/// The places in caches.
pub open spec fn in_caches(caches: Seq<Seq<char>>, triple: Seq<char>) -> Seq<Seq<char>> {
    caches.map_values(|c: Seq<char>| joined(c, "agent-"@ + triple))
}

/// The places where the agent binary for a target may be, in the order they are
/// looked at: next to the executable as it was invoked and as it resolves, in the
/// caches, and in the build directory that it lies in.
pub open spec fn candidates(
    exe: Seq<char>,
    link: Option<Seq<char>>,
    caches: Seq<Seq<char>>,
    triple: Seq<char>,
) -> Seq<Seq<char>> {
    let resolved = match link {
        Some(r) => beside(r, triple),
        None => Seq::empty(),
    };
    let built = match link {
        Some(r) => in_build(r, triple),
        None => Seq::empty(),
    };
    beside(exe, triple) + resolved + in_caches(caches, triple) + in_build(exe, triple) + built
}

fn put_beside(out: &mut Vec<String>, exe: &str, triple: &str)
    ensures
        string_texts(final(out)@) == string_texts(old(out)@) + beside(exe@, triple@),
{
    let ghost start = string_texts(out@);
    let name: String = String::from_str("agent-").concat(triple);
    match parent_dir(exe) {
        None => {},
        Some(d) => {
            out.push(join_path(join_path(d.as_str(), "agents").as_str(), name.as_str()));
            out.push(join_path(d.as_str(), name.as_str()));
        },
    }
    proof {
        assert(string_texts(out@) =~= start + beside(exe@, triple@));
    }
}

fn put_in_build(out: &mut Vec<String>, exe: &str, triple: &str)
    ensures
        string_texts(final(out)@) == string_texts(old(out)@) + in_build(exe@, triple@),
{
    let ghost start = string_texts(out@);
    match target_dir(exe) {
        None => {},
        Some(d) => {
            out.push(join_path(join_path(d.as_str(), triple).as_str(), "release/portmanager"));
        },
    }
    proof {
        assert(string_texts(out@) =~= start + in_build(exe@, triple@));
    }
}

/// The places where the agent binary for `triple` may be, in lookup order.
pub fn agent_candidates(
    exe: &str,
    link: Option<&str>,
    caches: &Vec<String>,
    triple: &str,
) -> (r: Vec<String>)
    ensures
        string_texts(r@) == candidates(
            exe@,
            match link {
                Some(p) => Some(p@),
                None => None,
            },
            string_texts(caches@),
            triple@,
        ),
{
    let mut out: Vec<String> = Vec::new();
    proof {
        assert(string_texts(out@) =~= Seq::<Seq<char>>::empty());
    }
    put_beside(&mut out, exe, triple);
    if let Some(p) = link {
        put_beside(&mut out, p, triple);
    }
    let ghost start = string_texts(out@);
    let ghost all = in_caches(string_texts(caches@), triple@);
    let name: String = String::from_str("agent-").concat(triple);
    let mut i: usize = 0;
    proof {
        assert(start + all.take(0) =~= start);
    }
    while i < caches.len()
        invariant
            i <= caches@.len(),
            all == in_caches(string_texts(caches@), triple@),
            name@ == "agent-"@ + triple@,
            string_texts(out@) == start + all.take(i as int),
        decreases caches@.len() - i,
    {
        let ghost before = string_texts(out@);
        out.push(join_path(caches[i].as_str(), name.as_str()));
        proof {
            assert(string_texts(caches@)[i as int] == caches@[i as int]@);
            assert(string_texts(out@) =~= before.push(all[i as int]));
            assert(start + all.take(i + 1) =~= before.push(all[i as int]));
        }
        i = i + 1;
    }
    proof {
        assert(all.take(i as int) =~= all);
    }
    put_in_build(&mut out, exe, triple);
    if let Some(p) = link {
        put_in_build(&mut out, p, triple);
    }
    proof {
        assert(string_texts(out@) =~= candidates(
            exe@,
            match link {
                Some(p) => Some(p@),
                None => None,
            },
            string_texts(caches@),
            triple@,
        ));
    }
    out
}

/// The cache directories to search. The one under `xdg` (or, where that is no absolute
/// path, under the home directory) comes first; the platform's own follows where it is
/// another.
pub open spec fn caches_of(
    xdg: Option<Seq<char>>,
    home: Option<Seq<char>>,
    platform: Option<Seq<char>>,
) -> Seq<Seq<char>> {
    let configured = match xdg {
        Some(x) => is_rooted(x),
        None => false,
    };
    let base = if configured {
        xdg
    } else {
        match home {
            Some(h) => Some(joined(h, ".cache"@)),
            None => None,
        }
    };
    let first: Seq<Seq<char>> = match base {
        Some(b) => seq![joined(b, "portmanager/dist"@)],
        None => Seq::empty(),
    };
    match platform {
        None => first,
        Some(p) => {
            let own = joined(p, "portmanager/dist"@);
            if first.len() > 0 && parts_of(first[0]) == parts_of(own) {
                first
            } else {
                first.push(own)
            }
        },
    }
}

/// An optional text.
pub open spec fn opt_str(s: Option<&str>) -> Option<Seq<char>> {
    match s {
        Some(t) => Some(t@),
        None => None,
    }
}

/// The cache directories to search, most likely first: `xdg` is the configured cache
/// directory, `home` the home directory, `platform` the platform's cache directory.
pub fn dist_caches(xdg: Option<&str>, home: Option<&str>, platform: Option<&str>) -> (r: Vec<String>)
    ensures
        string_texts(r@) == caches_of(opt_str(xdg), opt_str(home), opt_str(platform)),
{
    let configured: bool = match xdg {
        Some(x) => rooted(x),
        None => false,
    };
    let base: Option<String> = if configured {
        match xdg {
            Some(x) => Some(x.to_owned()),
            None => None,
        }
    } else {
        match home {
            Some(h) => Some(join_path(h, ".cache")),
            None => None,
        }
    };
    let mut out: Vec<String> = Vec::new();
    if let Some(b) = base {
        out.push(join_path(b.as_str(), "portmanager/dist"));
    }
    let ghost first = string_texts(out@);
    if let Some(p) = platform {
        let own: String = join_path(p, "portmanager/dist");
        let known: bool = out.len() > 0 && same_path(out[0].as_str(), own.as_str());
        if !known {
            out.push(own);
        }
    }
    proof {
        assert(string_texts(out@) =~= caches_of(opt_str(xdg), opt_str(home), opt_str(platform)));
    }
    out
}

/// The place at `i` is the first where there is a file.
pub open spec fn first_present(present: Seq<bool>, i: int) -> bool {
    &&& 0 <= i < present.len()
    &&& present[i]
    &&& forall|j: int| 0 <= j < i ==> !#[trigger] present[j]
}

/// The places that were searched, a line each.
pub open spec fn searched_lines(tried: Seq<Seq<char>>) -> Seq<char>
    decreases tried.len(),
{
    if tried.len() == 0 {
        Seq::empty()
    } else {
        searched_lines(tried.drop_last()) + "\n  "@ + tried.last()
    }
}

/// What is said where there is no agent binary.
pub open spec fn no_agent_text(
    tried: Seq<Seq<char>>,
    triple: Seq<char>,
    remote: Seq<char>,
    local: Seq<char>,
) -> Seq<char> {
    "no agent binary for "@ + triple + " (remote arch "@ + remote + ", local "@ + local
        + ").\nsearched:"@ + searched_lines(tried)
        + "\nfix: build the cross-arch agents with scripts/build-agents.sh (needs a musl cross toolchain, e.g. `cargo install cargo-zigbuild && brew install zig`), point PORTMANAGER_AGENT_BIN at an agent-"@
        + triple
        + ", or install from the Docker image (scripts/install.sh), which bundles both Linux agents."@
}

/// The agent binary that is asked for by its path, `present` where it is a file.
pub fn agent_override(path: &str, present: bool) -> (r: Result<String, String>)
    ensures
        match r {
            Ok(p) => present && p@ == path@,
            Err(e) => !present && e@ == "PORTMANAGER_AGENT_BIN="@ + path@ + " does not exist"@,
        },
{
    if present {
        Ok(path.to_owned())
    } else {
        Err(String::from_str("PORTMANAGER_AGENT_BIN=").concat(path).concat(" does not exist"))
    }
}

/// The agent binary to deploy: the first of the places `tried` where there is a file,
/// else the running executable where both machines have the same architecture.
pub fn pick_agent(
    exe: &str,
    tried: &Vec<String>,
    present: &Vec<bool>,
    triple: &str,
    remote: &str,
    local: &str,
) -> (r: Result<String, String>)
    requires
        present@.len() == tried@.len(),
    ensures
        match r {
            Ok(p) => (exists|i: int| #[trigger]
                first_present(present@, i) && p@ == tried@[i]@) || ((forall|i: int|
                0 <= i < present@.len() ==> !#[trigger] present@[i]) && remote@ == local@ && p@
                == exe@),
            Err(e) => {
                &&& forall|i: int| 0 <= i < present@.len() ==> !#[trigger] present@[i]
                &&& remote@ != local@
                &&& e@ == no_agent_text(string_texts(tried@), triple@, remote@, local@)
            },
        },
{
    let mut i: usize = 0;
    while i < tried.len()
        invariant
            i <= tried@.len(),
            present@.len() == tried@.len(),
            forall|j: int| 0 <= j < i ==> !#[trigger] present@[j],
        decreases tried@.len() - i,
    {
        if present[i] {
            assert(first_present(present@, i as int));
            return Ok(tried[i].clone());
        }
        i = i + 1;
    }
    if str_eq(remote, local) {
        return Ok(exe.to_owned());
    }
    let ghost t = string_texts(tried@);
    let mut lines: String = String::new();
    let mut k: usize = 0;
    proof {
        assert(t.take(0) =~= Seq::<Seq<char>>::empty());
        assert(lines@ =~= searched_lines(t.take(0)));
    }
    while k < tried.len()
        invariant
            k <= tried@.len(),
            t == string_texts(tried@),
            lines@ == searched_lines(t.take(k as int)),
        decreases tried@.len() - k,
    {
        proof {
            assert(t.take(k + 1).drop_last() =~= t.take(k as int));
            assert(t.take(k + 1).last() == tried@[k as int]@);
        }
        lines.append("\n  ");
        lines.append(tried[k].as_str());
        k = k + 1;
    }
    proof {
        assert(t.take(k as int) =~= t);
    }
    Err(
        String::from_str("no agent binary for ").concat(triple).concat(" (remote arch ").concat(
            remote,
        ).concat(", local ").concat(local).concat(").\nsearched:").concat(lines.as_str()).concat(
            "\nfix: build the cross-arch agents with scripts/build-agents.sh (needs a musl cross toolchain, e.g. `cargo install cargo-zigbuild && brew install zig`), point PORTMANAGER_AGENT_BIN at an agent-",
        ).concat(triple).concat(
            ", or install from the Docker image (scripts/install.sh), which bundles both Linux agents.",
        ),
    )
}

// ---- deploying ---------------------------------------------------------

/// The part of a binary's hash that its remote name holds.
pub open spec fn short_hash_of(bytes: Seq<u8>) -> Seq<char> {
    hex_of(sha256_of(bytes).take(6))
}

/// The part of a binary's hash that its remote name holds.
pub fn short_hash(bytes: &Vec<u8>) -> (r: String)
    ensures
        r@ == short_hash_of(bytes@),
{
    let hash = sha256(bytes);
    let head: Vec<u8> = copy_bytes(hash.as_slice(), 0, 6);
    proof {
        assert(head@ =~= sha256_of(bytes@).take(6));
    }
    hex_encode(&head)
}

/// Where the agent binary goes on the remote machine, relative to the home directory.
/// The hash is in the name, so that a file there is the right one.
pub open spec fn remote_path_of(triple: Seq<char>, short: Seq<char>) -> Seq<char> {
    ".cache/portmanager/agent-"@ + triple + "-"@ + short
}

/// Where the agent binary goes on the remote machine, relative to the home directory.
pub fn remote_path(triple: &str, short: &str) -> (r: String)
    ensures
        r@ == remote_path_of(triple@, short@),
{
    String::from_str(".cache/portmanager/agent-").concat(triple).concat("-").concat(short)
}

/// A step of deploying the agent binary.
#[derive(Debug, Clone, Copy, PartialEq, Eq, Structural)]
pub enum DeployPhase {
    /// Is it there already?
    Checking,
    /// Create the directory.
    MakingDir,
    /// Copy it under a temporary name.
    Copying,
    /// Make it executable, and give it its name.
    Installing,
}

/// What comes after a step.
#[derive(Debug, Clone, Copy, PartialEq, Eq, Structural)]
pub enum DeployNext {
    /// Do this.
    Go(DeployPhase),
    /// The binary is in place; remove older ones.
    Deployed,
    /// It could not be deployed.
    Failed(DeployPhase),
}

/// What comes after a step that succeeded or did not.
pub open spec fn after_deploy(phase: DeployPhase, ok: bool) -> DeployNext {
    match phase {
        DeployPhase::Checking => if ok {
            DeployNext::Deployed
        } else {
            DeployNext::Go(DeployPhase::MakingDir)
        },
        DeployPhase::MakingDir => if ok {
            DeployNext::Go(DeployPhase::Copying)
        } else {
            DeployNext::Failed(phase)
        },
        DeployPhase::Copying => if ok {
            DeployNext::Go(DeployPhase::Installing)
        } else {
            DeployNext::Failed(phase)
        },
        DeployPhase::Installing => if ok {
            DeployNext::Deployed
        } else {
            DeployNext::Failed(phase)
        },
    }
}

/// What comes after a step that succeeded or did not.
pub fn deploy_next(phase: DeployPhase, ok: bool) -> (r: DeployNext)
    ensures
        r == after_deploy(phase, ok),
{
    match phase {
        DeployPhase::Checking => {
            if ok {
                DeployNext::Deployed
            } else {
                DeployNext::Go(DeployPhase::MakingDir)
            }
        },
        DeployPhase::MakingDir => {
            if ok {
                DeployNext::Go(DeployPhase::Copying)
            } else {
                DeployNext::Failed(phase)
            }
        },
        DeployPhase::Copying => {
            if ok {
                DeployNext::Go(DeployPhase::Installing)
            } else {
                DeployNext::Failed(phase)
            }
        },
        DeployPhase::Installing => {
            if ok {
                DeployNext::Deployed
            } else {
                DeployNext::Failed(phase)
            }
        },
    }
}

impl DeployPhase {
    /// What is said where this step failed.
    pub fn failure(self) -> (r: &'static str)
        ensures
            r@ == (match self {
                DeployPhase::Checking => "checking remote agent cache"@,
                DeployPhase::MakingDir => "failed to create remote cache directory"@,
                DeployPhase::Copying => "scp of agent binary failed"@,
                DeployPhase::Installing => "failed to install agent binary on remote"@,
            }),
    {
        match self {
            DeployPhase::Checking => "checking remote agent cache",
            DeployPhase::MakingDir => "failed to create remote cache directory",
            DeployPhase::Copying => "scp of agent binary failed",
            DeployPhase::Installing => "failed to install agent binary on remote",
        }
    }

    /// The program of this step, and its arguments: `exe` goes to `path` on `host`.
    pub open spec fn call(self, host: Seq<char>, exe: Seq<char>, path: Seq<char>) -> (
        Seq<char>,
        Seq<Seq<char>>,
    ) {
        match self {
            DeployPhase::Checking => (
                "ssh"@,
                seq!["-o"@, SSH_CONNECT_TIMEOUT@, host, "test -x "@ + path],
            ),
            DeployPhase::MakingDir => ("ssh"@, seq![host, "mkdir -p .cache/portmanager"@]),
            DeployPhase::Copying => (
                "scp"@,
                seq!["-q"@, exe, host + ":"@ + path + ".tmp"@],
            ),
            DeployPhase::Installing => (
                "ssh"@,
                seq![
                    host,
                    "chmod +x "@ + path + ".tmp && mv "@ + path + ".tmp "@ + path,
                ],
            ),
        }
    }

    /// The program of this step, and its arguments.
    pub fn command(self, host: &str, exe: &str, path: &str) -> (r: (&'static str, Vec<String>))
        ensures
            (r.0@, string_texts(r.1@)) == self.call(host@, exe@, path@),
    {
        let mut v: Vec<String> = Vec::new();
        match self {
            DeployPhase::Checking => {
                v.push("-o".to_owned());
                v.push(SSH_CONNECT_TIMEOUT.to_owned());
                v.push(host.to_owned());
                v.push(String::from_str("test -x ").concat(path));
                proof {
                    assert(string_texts(v@) =~= self.call(host@, exe@, path@).1);
                }
                ("ssh", v)
            },
            DeployPhase::MakingDir => {
                v.push(host.to_owned());
                v.push("mkdir -p .cache/portmanager".to_owned());
                proof {
                    assert(string_texts(v@) =~= self.call(host@, exe@, path@).1);
                }
                ("ssh", v)
            },
            DeployPhase::Copying => {
                v.push("-q".to_owned());
                v.push(exe.to_owned());
                v.push(host.to_owned().concat(":").concat(path).concat(".tmp"));
                proof {
                    assert(string_texts(v@) =~= self.call(host@, exe@, path@).1);
                }
                ("scp", v)
            },
            DeployPhase::Installing => {
                v.push(host.to_owned());
                v.push(
                    String::from_str("chmod +x ").concat(path).concat(".tmp && mv ").concat(
                        path,
                    ).concat(".tmp ").concat(path),
                );
                proof {
                    assert(string_texts(v@) =~= self.call(host@, exe@, path@).1);
                }
                ("ssh", v)
            },
        }
    }
}

/// Deploying ends: after four steps it is deployed or has failed, and a binary that
/// is there already is not copied again.
pub proof fn law_deploy_ends(a: bool, b: bool, c: bool, d: bool)
    ensures
        after_deploy(DeployPhase::Checking, true) == DeployNext::Deployed,
        after_deploy(DeployPhase::Checking, a) matches DeployNext::Go(p) ==> (after_deploy(p, b)
            matches DeployNext::Go(q) ==> (after_deploy(q, c) matches DeployNext::Go(s) ==> !(
        after_deploy(s, d) is Go))),
{
}

/// The remote command that removes the binaries for `triple` but the current one.
pub fn gc_command(triple: &str, keep: &str) -> (r: String)
    ensures
        r@ == "find .cache/portmanager -maxdepth 1 -type f -name 'agent-"@ + triple@
            + "-*' ! -name 'agent-"@ + triple@ + "-"@ + keep@
            + "' -delete 2>/dev/null || true"@,
{
    String::from_str("find .cache/portmanager -maxdepth 1 -type f -name 'agent-").concat(
        triple,
    ).concat("-*' ! -name 'agent-").concat(triple).concat("-").concat(keep).concat(
        "' -delete 2>/dev/null || true",
    )
}

// ---- launching ---------------------------------------------------------

/// As many times `-v` as the client was given it.
pub open spec fn verbosity(n: nat) -> Seq<Seq<char>>
    decreases n,
{
    if n == 0 {
        Seq::empty()
    } else {
        verbosity((n - 1) as nat).push("-v"@)
    }
}

/// The arguments of the ssh call that launches the agent: with the address that it is
/// to listen on, or as a tunnel agent on loopback.
pub open spec fn launch_args_of(
    host: Seq<char>,
    path: Seq<char>,
    listen: Option<Seq<char>>,
    grace_secs: int,
    verbose: nat,
) -> Seq<Seq<char>> {
    seq!["-o"@, SSH_CONNECT_TIMEOUT@, host, path, "agent"@, "--listen"@] + (match listen {
        Some(l) => seq![l],
        None => seq!["127.0.0.1:0"@, "--tunnel"@],
    }) + seq!["--grace-secs"@, crate::text::decimal(grace_secs)] + verbosity(verbose)
}

/// The arguments of the ssh call that launches the agent at `path`: with the address
/// that it is to listen on, or as a tunnel agent on loopback.
pub fn launch_args(
    host: &str,
    path: &str,
    listen: Option<&str>,
    grace_secs: u64,
    verbose: u8,
) -> (r: Vec<String>)
    ensures
        string_texts(r@) == launch_args_of(
            host@,
            path@,
            opt_str(listen),
            grace_secs as int,
            verbose as nat,
        ),
{
    let mut v: Vec<String> = Vec::new();
    v.push("-o".to_owned());
    v.push(SSH_CONNECT_TIMEOUT.to_owned());
    v.push(host.to_owned());
    v.push(path.to_owned());
    v.push("agent".to_owned());
    v.push("--listen".to_owned());
    match listen {
        Some(l) => {
            v.push(l.to_owned());
        },
        None => {
            v.push("127.0.0.1:0".to_owned());
            v.push("--tunnel".to_owned());
        },
    }
    v.push("--grace-secs".to_owned());
    v.push(dec(grace_secs).as_str().to_owned());
    let ghost head = string_texts(v@);
    proof {
        assert(head =~= launch_args_of(host@, path@, opt_str(listen), grace_secs as int, 0));
        assert(head + verbosity(0) =~= head);
    }
    let mut i: u8 = 0;
    while i < verbose
        invariant
            i <= verbose,
            string_texts(v@) == head + verbosity(i as nat),
        decreases verbose - i,
    {
        let ghost before = string_texts(v@);
        v.push("-v".to_owned());
        proof {
            assert(string_texts(v@) =~= before.push("-v"@));
            assert(head + verbosity((i + 1) as nat) =~= before.push("-v"@));
        }
        i = i + 1;
    }
    proof {
        assert(string_texts(v@) =~= launch_args_of(
            host@,
            path@,
            opt_str(listen),
            grace_secs as int,
            verbose as nat,
        ));
    }
    v
}

/// The shell script that ends idle agents of another version than its argument, and
/// drops the records of agents that are gone. An agent that serves a client is left
/// alone.
pub const REAP_SCRIPT: &'static str = "\nver=\"$1\"\ndir=\"$HOME/.cache/portmanager/agents\"\n[ -d \"$dir\" ] || exit 0\nfor f in \"$dir\"/*.json; do\n  [ -e \"$f\" ] || continue\n  v=$(sed -n 's/.*\"version\":\"\\([^\"]*\\)\".*/\\1/p' \"$f\")\n  p=$(sed -n 's/.*\"pid\":\\([0-9][0-9]*\\).*/\\1/p' \"$f\")\n  c=$(sed -n 's/.*\"clients\":\\([0-9][0-9]*\\).*/\\1/p' \"$f\")\n  [ -n \"$c\" ] || c=0\n  [ -n \"$p\" ] || { rm -f \"$f\"; continue; }\n  if ! kill -0 \"$p\" 2>/dev/null; then rm -f \"$f\"; continue; fi\n  if [ \"$v\" != \"$ver\" ] && [ \"$c\" -eq 0 ]; then\n    kill -TERM \"$p\" 2>/dev/null && echo \"reaped idle stale agent pid=$p version=$v\"\n    rm -f \"$f\"\n  fi\ndone\n";

/// The arguments of the ssh call that feeds a script to a remote shell; with the
/// script's argument, if it has one.
pub fn script_args(host: &str, arg: Option<&str>) -> (r: Vec<String>)
    ensures
        string_texts(r@) == seq!["-o"@, SSH_CONNECT_TIMEOUT@, host@, "sh"@, "-s"@] + (match arg {
            Some(a) => seq!["--"@, a@],
            None => Seq::<Seq<char>>::empty(),
        }),
{
    let mut v: Vec<String> = Vec::new();
    v.push("-o".to_owned());
    v.push(SSH_CONNECT_TIMEOUT.to_owned());
    v.push(host.to_owned());
    v.push("sh".to_owned());
    v.push("-s".to_owned());
    if let Some(a) = arg {
        v.push("--".to_owned());
        v.push(a.to_owned());
    }
    v
}

/// The lines of a text that hold something, without the blanks around it.
pub open spec fn report_lines_of(p: Seq<Seq<char>>) -> Seq<Seq<char>>
    decreases p.len(),
{
    if p.len() == 0 {
        Seq::empty()
    } else {
        let r = report_lines_of(p.drop_last());
        let t = crate::text::trimmed(p.last());
        if t.len() == 0 {
            r
        } else {
            r.push(t)
        }
    }
}

/// What a script reported, line by line.
pub fn report_lines(out: &str) -> (r: Vec<String>)
    ensures
        string_texts(r@) == report_lines_of(pieces(out@, '\n')),
{
    let list: Vec<&str> = split(out, '\n');
    let ghost p = pieces(out@, '\n');
    let mut r: Vec<String> = Vec::new();
    let mut i: usize = 0;
    proof {
        assert(p.take(0) =~= Seq::<Seq<char>>::empty());
        assert(string_texts(r@) =~= Seq::<Seq<char>>::empty());
    }
    while i < list.len()
        invariant
            i <= list@.len(),
            texts(list@) == p,
            string_texts(r@) == report_lines_of(p.take(i as int)),
        decreases list@.len() - i,
    {
        let ghost before = string_texts(r@);
        proof {
            assert(p.take(i + 1).drop_last() =~= p.take(i as int));
            assert(p.take(i + 1).last() == list@[i as int]@);
        }
        let t: &str = trim(list[i]);
        if !t.is_empty() {
            r.push(t.to_owned());
            proof {
                assert(string_texts(r@) =~= before.push(t@));
            }
        }
        i = i + 1;
    }
    proof {
        assert(p.len() == list@.len());
        assert(p.take(i as int) =~= p);
    }
    r
}

/// The host name in one of the lines of `ssh -G` output, the first that has one.
pub open spec fn named_host(p: Seq<Seq<char>>) -> Option<Seq<char>>
    decreases p.len(),
{
    if p.len() == 0 {
        None
    } else {
        match crate::text::after_prefix(p[0], "hostname "@) {
            Some(rest) => Some(crate::text::trimmed(rest)),
            None => named_host(p.drop_first()),
        }
    }
}

/// The host name behind an SSH alias, from `ssh -G` output; the alias itself where
/// the output has none.
pub open spec fn hostname_of(out: Seq<char>, host: Seq<char>) -> Seq<char> {
    match named_host(pieces(out, '\n')) {
        Some(h) => h,
        None => host,
    }
}

/// The host name behind an SSH alias, from `ssh -G` output.
pub fn ssh_hostname(out: &str, host: &str) -> (r: String)
    ensures
        r@ == hostname_of(out@, host@),
{
    let list: Vec<&str> = split(out, '\n');
    let ghost p = pieces(out@, '\n');
    let mut i: usize = 0;
    proof {
        assert(p.skip(0) =~= p);
    }
    while i < list.len()
        invariant
            i <= list@.len(),
            p == pieces(out@, '\n'),
            texts(list@) == p,
            named_host(p) == named_host(p.skip(i as int)),
        decreases list@.len() - i,
    {
        proof {
            assert(p.skip(i as int)[0] == list@[i as int]@);
            assert(p.skip(i as int).drop_first() =~= p.skip(i + 1));
        }
        if let Some(rest) = strip_prefix(list[i], "hostname ") {
            return trim(rest).to_owned();
        }
        i = i + 1;
    }
    proof {
        assert(p.len() == list@.len());
        assert(p.skip(i as int) =~= Seq::<Seq<char>>::empty());
    }
    host.to_owned()
}

// ---- laws --------------------------------------------------------------

/// There is an agent for Linux on two architectures, each of which goes by two names; any
/// other system is refused by its name, and any other architecture of Linux by its own.
pub proof fn law_targets(os: Seq<char>, arch: Seq<char>)
    requires
        os.len() > 0,
        arch.len() > 0,
        crate::text::no_white(os),
        crate::text::no_white(arch),
    ensures
        ({
            let t = triple_of(os + " "@ + arch);
            &&& os != "Linux"@ ==> t == Err::<Seq<char>, TargetFault>(TargetFault::UnsupportedOs(os))
            &&& os == "Linux"@ && (arch == "x86_64"@ || arch == "aarch64"@) ==> t == Ok::<
                Seq<char>,
                TargetFault,
            >(arch + "-unknown-linux-musl"@)
            &&& arch == "amd64"@ ==> t == triple_of(os + " "@ + "x86_64"@)
            &&& arch == "arm64"@ ==> t == triple_of(os + " "@ + "aarch64"@)
            &&& os == "Linux"@ && arch != "x86_64"@ && arch != "aarch64"@ && arch != "amd64"@
                && arch != "arm64"@ ==> t == Err::<Seq<char>, TargetFault>(
                TargetFault::UnsupportedArch(arch),
            )
        }),
{
    reveal_strlit("x86_64");
    reveal_strlit("aarch64");
    reveal_strlit("amd64");
    reveal_strlit("arm64");
    reveal_strlit("x86_64-unknown-linux-musl");
    reveal_strlit("aarch64-unknown-linux-musl");
    reveal_strlit("-unknown-linux-musl");
    assert("x86_64"@ + "-unknown-linux-musl"@ =~= "x86_64-unknown-linux-musl"@);
    assert("aarch64"@ + "-unknown-linux-musl"@ =~= "aarch64-unknown-linux-musl"@);
    assert(forall|i: int| 0 <= i < 6 ==> !crate::text::is_white(#[trigger] "x86_64"@[i]));
    assert(forall|i: int| 0 <= i < 7 ==> !crate::text::is_white(#[trigger] "aarch64"@[i]));
    lemma_two_words(os, arch);
    lemma_two_words(os, "x86_64"@);
    lemma_two_words(os, "aarch64"@);
    assert("x86_64"@.len() == 6 && "aarch64"@.len() == 7);
    assert("amd64"@.len() == 5 && "arm64"@.len() == 5);
    assert("amd64"@[1] != "arm64"@[1]);
    let s = os + " "@ + arch;
    assert(word_at(s, 0) == os && word_at(s, 1) == arch);
    assert(word_at(os + " "@ + "x86_64"@, 0) == os && word_at(os + " "@ + "x86_64"@, 1)
        == "x86_64"@);
    assert(word_at(os + " "@ + "aarch64"@, 0) == os && word_at(os + " "@ + "aarch64"@, 1)
        == "aarch64"@);
}

proof fn lemma_two_words(a: Seq<char>, b: Seq<char>)
    requires
        a.len() > 0,
        b.len() > 0,
        crate::text::no_white(a),
        crate::text::no_white(b),
    ensures
        words(a + " "@ + b) == seq![a, b],
{
    reveal_strlit(" ");
    assert(" "@ =~= seq![' ']);
    crate::text::lemma_words_join(a, ' ', b);
    crate::text::lemma_words_single(a);
    crate::text::lemma_words_single(b);
    assert(words(a + " "@ + b) =~= seq![a, b]);
}

/// Putting the pieces of a path together again gives the path.
pub proof fn law_slashed(path: Seq<char>)
    ensures
        slashed(pieces(path, '/')) == path,
    decreases path.len(),
{
    reveal_strlit("/");
    let p = pieces(path, '/');
    if path.len() == 0 {
        assert(p =~= seq![Seq::<char>::empty()]);
        assert(slashed(p) =~= path);
    } else {
        let t = path.drop_last();
        let q = pieces(t, '/');
        law_slashed(t);
        crate::text::lemma_pieces_nonempty(t, '/');
        if path.last() == '/' {
            assert(p.drop_last() =~= q);
            assert(slashed(p) =~= t + "/"@ + Seq::<char>::empty());
            assert(slashed(p) =~= path);
        } else {
            assert(p.drop_last() =~= q.drop_last());
            if q.len() == 1 {
                assert(slashed(q) == q[0]);
                assert(slashed(p) =~= path);
            } else {
                assert(slashed(p) =~= slashed(q.drop_last()) + "/"@ + q.last().push(path.last()));
                assert(t == slashed(q.drop_last()) + "/"@ + q.last());
                assert(slashed(p) =~= t.push(path.last()));
                assert(t.push(path.last()) =~= path);
            }
        }
    }
}

/// A name in a directory: it has no slash in it, and is no dot.
pub open spec fn is_name(s: Seq<char>) -> bool {
    s.len() > 0 && s != "."@ && !s.contains('/')
}

/// The directory of what lies in a directory is that directory, written as it was.
pub proof fn law_parent(dir: Seq<char>, last: Seq<char>, name: Seq<char>)
    requires
        is_name(last),
        is_name(name),
    ensures
        parent_of(name) == Some(Seq::<char>::empty()),
        parent_of("/"@ + name) == Some("/"@),
        parent_of(last + "/"@ + name) == Some(last),
        parent_of(dir + "/"@ + last + "/"@ + name) == Some(dir + "/"@ + last),
{
    reveal_strlit("/");
    assert("/"@ =~= seq!['/']);
    crate::text::lemma_pieces_single(name, '/');
    crate::text::lemma_pieces_single(last, '/');
    let one = seq![name];
    assert(last_counted(one, 1) == 1);
    assert(last_counted(one, 0) == 0);
    assert(name[0] != '/') by {
        assert(name.contains(name[0]));
    }
    // below the root
    let none = Seq::<char>::empty();
    crate::text::lemma_pieces_single(none, '/');
    crate::text::lemma_pieces_join(none, '/', name);
    assert(none + seq!['/'] + name =~= "/"@ + name);
    let two = pieces("/"@ + name, '/');
    assert(two =~= seq![none, name]);
    assert(last_counted(two, 2) == 2);
    assert(last_counted(two, 0) == 0);
    assert(last_counted(two, 1) == 0);
    assert(("/"@ + name)[0] == '/');
    // below one name
    crate::text::lemma_pieces_join(last, '/', name);
    let near = pieces(last + "/"@ + name, '/');
    assert(near =~= seq![last, name]);
    assert(last_counted(near, 2) == 2);
    assert(last_counted(near, 1) == 1);
    assert(near.take(1) =~= seq![last]);
    assert(slashed(near.take(1)) == last);
    // below more
    let d = dir + "/"@ + last;
    crate::text::lemma_pieces_join(dir, '/', last);
    crate::text::lemma_pieces_join(d, '/', name);
    let p = pieces(d, '/');
    let all = pieces(d + "/"@ + name, '/');
    crate::text::lemma_pieces_nonempty(dir, '/');
    assert(all =~= p.push(name));
    assert(all.last() == name);
    assert(p.last() == last);
    assert(last_counted(all, all.len()) == all.len());
    assert(last_counted(all, p.len()) == p.len());
    assert(all.take(p.len() as int) =~= p);
    law_slashed(d);
}

/// A path that is joined below a directory lies in it.
pub proof fn law_joined(dir: Seq<char>, last: Seq<char>, name: Seq<char>)
    requires
        is_name(last),
        is_name(name),
    ensures
        joined(dir + "/"@ + last, name) == dir + "/"@ + last + "/"@ + name,
        parent_of(joined(dir + "/"@ + last, name)) == Some(dir + "/"@ + last),
        joined(dir + "/"@, name) == dir + "/"@ + name,
        joined(dir, "/"@ + name) == "/"@ + name,
        joined(Seq::empty(), name) == name,
{
    reveal_strlit("/");
    law_parent(dir, last, name);
    let d = dir + "/"@ + last;
    assert(d.last() == last.last());
    assert(last.contains(last.last()));
    assert(name.contains(name[0]));
    assert(("/"@ + name)[0] == '/');
    assert(Seq::<char>::empty() + name =~= name);
}

/// The build directory that a path lies in is the innermost directory of that name on it;
/// a path without one lies in none.
pub proof fn law_build_dir(dir: Seq<char>, rest: Seq<char>, path: Seq<char>)
    requires
        forall|k: int| 0 <= k < pieces(rest, '/').len() ==> #[trigger] pieces(rest, '/')[k] != "target"@,
        is_name(pieces(rest, '/').last()),
    ensures
        target_of(dir + "/target/"@ + rest) == Some(dir + "/target"@),
        target_of(dir + "/target"@) == Some(dir + "/target"@),
        target_of(path) is None <==> !pieces(path, '/').contains("target"@),
{
    reveal_strlit("/");
    reveal_strlit("target");
    reveal_strlit("/target");
    reveal_strlit("/target/");
    reveal_strlit(".");
    let t = "target"@;
    let d = dir + "/target"@;
    let all = dir + "/target/"@ + rest;
    assert(d =~= dir + seq!['/'] + t);
    assert(all =~= d + seq!['/'] + rest);
    crate::text::lemma_pieces_single(t, '/');
    crate::text::lemma_pieces_join(dir, '/', t);
    crate::text::lemma_pieces_join(d, '/', rest);
    crate::text::lemma_pieces_nonempty(dir, '/');
    crate::text::lemma_pieces_nonempty(rest, '/');
    let p = pieces(d, '/');
    let r = pieces(rest, '/');
    let q = pieces(all, '/');
    assert(q =~= p + r);
    assert(p.last() == t);
    assert(last_target(p, p.len()) == p.len());
    assert(last_counted(p, p.len()) == p.len());
    lemma_last_target_before(p, r, r.len());
    assert(q.last() == r.last());
    assert(last_counted(q, q.len()) == q.len());
    assert(q.take(p.len() as int) =~= p);
    law_slashed(d);
    lemma_target_found(pieces(path, '/'), pieces(path, '/').len());
}

proof fn lemma_last_target_before(p: Seq<Seq<char>>, r: Seq<Seq<char>>, n: nat)
    requires
        p.len() > 0,
        p.last() == "target"@,
        n <= r.len(),
        forall|k: int| 0 <= k < r.len() ==> #[trigger] r[k] != "target"@,
    ensures
        last_target(p + r, p.len() + n) == p.len(),
    decreases n,
{
    if n > 0 {
        lemma_last_target_before(p, r, (n - 1) as nat);
        assert((p + r)[p.len() + n - 1] == r[n - 1]);
    } else {
        assert((p + r)[p.len() - 1] == p.last());
    }
}

proof fn lemma_target_found(p: Seq<Seq<char>>, n: nat)
    requires
        n <= p.len(),
    ensures
        last_target(p, n) <= n,
        last_target(p, n) == 0 <==> forall|k: int| 0 <= k < n ==> #[trigger] p[k] != "target"@,
    decreases n,
{
    if n > 0 {
        lemma_target_found(p, (n - 1) as nat);
    }
}

/// A slash more, at the end or beside another, makes no other path.
pub proof fn law_same_path(a: Seq<char>, b: Seq<char>)
    requires
        a.len() > 0,
    ensures
        parts_of(a + "/"@) == parts_of(a),
        parts_of(a + "//"@ + b) == parts_of(a + "/"@ + b),
{
    reveal_strlit("/");
    reveal_strlit("//");
    let none = Seq::<char>::empty();
    crate::text::lemma_pieces_nonempty(a, '/');
    crate::text::lemma_pieces_nonempty(b, '/');
    crate::text::lemma_pieces_single(none, '/');
    crate::text::lemma_pieces_join(a, '/', none);
    crate::text::lemma_pieces_join(a, '/', b);
    crate::text::lemma_pieces_join(a + "/"@, '/', b);
    let p = pieces(a, '/');
    let q = pieces(b, '/');
    assert(a + "/"@ =~= a + seq!['/'] + none);
    assert(pieces(a + "/"@, '/') =~= p.push(none));
    assert(a + "/"@ + b =~= a + seq!['/'] + b);
    assert(a + "//"@ + b =~= a + "/"@ + seq!['/'] + b);
    assert(pieces(a + "//"@ + b, '/') =~= p.push(none) + q);
    lemma_counted_same(p.push(none), p, p.len());
    lemma_counted_more(p, q, q.len());
    assert(pieces(a + "/"@ + b, '/') =~= p + q);
    assert((a + "/"@)[0] == a[0]);
    assert((a + "//"@ + b)[0] == a[0]);
    assert((a + "/"@ + b)[0] == a[0]);
}

proof fn lemma_counted_same(p: Seq<Seq<char>>, q: Seq<Seq<char>>, n: nat)
    requires
        n <= p.len(),
        n <= q.len(),
        forall|i: int| 0 <= i < n ==> #[trigger] p[i] == q[i],
    ensures
        counted(p, n) == counted(q, n),
    decreases n,
{
    if n > 0 {
        lemma_counted_same(p, q, (n - 1) as nat);
    }
}

proof fn lemma_counted_more(p: Seq<Seq<char>>, q: Seq<Seq<char>>, n: nat)
    requires
        p.len() > 0,
        n <= q.len(),
    ensures
        counted(p.push(Seq::empty()) + q, p.len() + 1 + n) == counted(p + q, p.len() + n),
    decreases n,
{
    let e = p.push(Seq::<char>::empty());
    if n > 0 {
        lemma_counted_more(p, q, (n - 1) as nat);
        assert((e + q)[p.len() as int + n] == q[n - 1]);
        assert((p + q)[p.len() + n - 1] == q[n - 1]);
    } else {
        assert((e + q)[p.len() as int] == Seq::<char>::empty());
        lemma_counted_same(e + q, p + q, p.len());
        assert(counted(e + q, p.len() + 1) == counted(e + q, p.len()));
    }
}

/// The agent binary is looked for next to the executable first, in a directory for agents
/// and beside it; every cache is looked at, and all before the build directory.
pub proof fn law_lookup(
    dir: Seq<char>,
    last: Seq<char>,
    name: Seq<char>,
    link: Option<Seq<char>>,
    caches: Seq<Seq<char>>,
    triple: Seq<char>,
    k: int,
)
    requires
        is_name(last),
        is_name(name),
        !triple.contains('/'),
        0 <= k < caches.len(),
    ensures
        ({
            let exe = dir + "/"@ + last + "/"@ + name;
            let c = candidates(exe, link, caches, triple);
            &&& c.len() >= 2 + caches.len()
            &&& c[0] == dir + "/"@ + last + "/agents/agent-"@ + triple
            &&& c[1] == dir + "/"@ + last + "/agent-"@ + triple
            &&& link is None ==> c[2 + k] == joined(caches[k], "agent-"@ + triple)
            &&& exists|i: int|
                2 <= i < c.len() && #[trigger] c[i] == joined(caches[k], "agent-"@ + triple)
            &&& target_of(exe) is None && link is None ==> c.len() == 2 + caches.len()
        }),
{
    reveal_strlit("/");
    reveal_strlit(".");
    reveal_strlit("agents");
    reveal_strlit("agent-");
    reveal_strlit("/agents/agent-");
    reveal_strlit("/agent-");
    let d = dir + "/"@ + last;
    let exe = d + "/"@ + name;
    let c = candidates(exe, link, caches, triple);
    law_parent(dir, last, name);
    let a = "agent-"@ + triple;
    assert(a[0] == 'a');
    assert(d.last() == last.last());
    assert(last.contains(last.last()));
    let g = joined(d, "agents"@);
    assert(g =~= d + "/"@ + "agents"@);
    assert(g.last() == 's');
    assert(joined(g, a) =~= d + "/agents/agent-"@ + triple);
    assert(joined(d, a) =~= d + "/agent-"@ + triple);
    assert(c[0] == joined(g, a));
    assert(c[1] == joined(d, a));
    let resolved = match link {
        Some(r) => beside(r, triple),
        None => Seq::empty(),
    };
    let i: int = 2 + resolved.len() + k;
    assert(in_caches(caches, triple)[k] == joined(caches[k], a));
    assert(c[i] == in_caches(caches, triple)[k]);
}

/// The configured cache directory counts where it starts at the root; else it is the one in
/// the home directory. The platform's own comes second, where it is another.
pub proof fn law_caches(x: Seq<char>, h: Seq<char>, platform: Option<Seq<char>>)
    requires
        x.len() > 0,
        x.last() != '/',
        h.len() > 0,
        h.last() != '/',
    ensures
        is_rooted(x) ==> caches_of(Some(x), Some(h), platform)[0] == x + "/portmanager/dist"@,
        !is_rooted(x) ==> caches_of(Some(x), Some(h), platform) == caches_of(
            None,
            Some(h),
            platform,
        ),
        caches_of(None, Some(h), platform)[0] == h + "/.cache/portmanager/dist"@,
        caches_of(None, None, None).len() == 0,
        platform is None ==> caches_of(None, Some(h), platform).len() == 1,
        platform == Some(h + "/.cache"@) ==> caches_of(None, Some(h), platform).len() == 1,
        platform matches Some(p) ==> (parts_of(joined(p, "portmanager/dist"@)) != parts_of(
            h + "/.cache/portmanager/dist"@,
        ) ==> caches_of(None, Some(h), platform).len() == 2 && caches_of(None, Some(h), platform)[1]
            == joined(p, "portmanager/dist"@)),
{
    reveal_strlit("/");
    reveal_strlit(".cache");
    reveal_strlit("/.cache");
    reveal_strlit("portmanager/dist");
    reveal_strlit("/portmanager/dist");
    reveal_strlit("/.cache/portmanager/dist");
    assert(joined(x, "portmanager/dist"@) =~= x + "/portmanager/dist"@);
    let c = joined(h, ".cache"@);
    assert(c =~= h + "/.cache"@);
    assert(joined(c, "portmanager/dist"@) =~= h + "/.cache/portmanager/dist"@);
}

/// Every place that was searched is named where there is no agent binary.
pub proof fn law_searched_places_named(tried: Seq<Seq<char>>, i: int)
    requires
        0 <= i < tried.len(),
    ensures
        crate::text::has_part(searched_lines(tried), "\n  "@ + tried[i]),
    decreases tried.len(),
{
    let t = tried.drop_last();
    let n = "\n  "@;
    let s = searched_lines(tried);
    if i < t.len() {
        law_searched_places_named(t, i);
        let r = searched_lines(t);
        let at = choose|at: int| crate::text::occurs_at(r, n + t[i], at);
        assert(s.subrange(at, at + (n + t[i]).len()) =~= r.subrange(at, at + (n + t[i]).len()));
        assert(crate::text::occurs_at(s, n + tried[i], at));
    } else {
        let r = searched_lines(t);
        let at: int = r.len() as int;
        assert(s.subrange(at, at + (n + tried[i]).len()) =~= n + tried[i]);
        assert(crate::text::occurs_at(s, n + tried[i], at));
    }
}

/// A step that fails says that it failed, but for the first, which only looks; the binary
/// is in place only where it was found or was installed, and it is installed only after it
/// was copied, into a directory that was made.
pub proof fn law_deploy_steps(phase: DeployPhase, ok: bool)
    ensures
        phase != DeployPhase::Checking && !ok ==> after_deploy(phase, ok) == DeployNext::Failed(
            phase,
        ),
        after_deploy(phase, ok) is Failed ==> !ok && phase != DeployPhase::Checking,
        after_deploy(phase, ok) is Deployed <==> ok && (phase == DeployPhase::Checking || phase
            == DeployPhase::Installing),
        after_deploy(phase, ok) == DeployNext::Go(DeployPhase::Installing) <==> ok && phase
            == DeployPhase::Copying,
        after_deploy(phase, ok) == DeployNext::Go(DeployPhase::Copying) <==> ok && phase
            == DeployPhase::MakingDir,
        after_deploy(phase, ok) == DeployNext::Go(DeployPhase::MakingDir) <==> !ok && phase
            == DeployPhase::Checking,
{
}

/// A binary is copied under another name than its own, and only the last step gives it its
/// own: what is at its path is never half a binary. What is looked for is at that path.
pub proof fn law_deploy_is_whole(host: Seq<char>, exe: Seq<char>, path: Seq<char>)
    ensures
        ({
            let t = path + ".tmp"@;
            let copy = DeployPhase::Copying.call(host, exe, path);
            let install = DeployPhase::Installing.call(host, exe, path);
            let look = DeployPhase::Checking.call(host, exe, path);
            &&& t != path
            &&& copy.1.last() == host + ":"@ + t && copy.1.contains(exe)
            &&& install.1.last() == "chmod +x "@ + t + " && mv "@ + t + " "@ + path
            &&& install.1[0] == host
            &&& look.1.last() == "test -x "@ + path && look.1.contains(host)
            &&& DeployPhase::MakingDir.call(host, exe, path).1[0] == host
        }),
{
    reveal_strlit(".tmp");
    reveal_strlit(" ");
    reveal_strlit(" && mv ");
    reveal_strlit(".tmp && mv ");
    reveal_strlit(".tmp ");
    let t = path + ".tmp"@;
    assert(t.len() != path.len());
    let copy = DeployPhase::Copying.call(host, exe, path);
    assert(copy.1[1] == exe);
    assert(copy.1.last() =~= host + ":"@ + t);
    let install = DeployPhase::Installing.call(host, exe, path);
    assert(install.1.last() =~= "chmod +x "@ + t + " && mv "@ + t + " "@ + path);
    let look = DeployPhase::Checking.call(host, exe, path);
    assert(look.1[2] == host);
}

/// Binaries with other contents, or for another machine, go to other paths.
pub proof fn law_remote_paths_apart(triple: Seq<char>, a: Seq<char>, b: Seq<char>)
    ensures
        remote_path_of(triple, a) == remote_path_of(triple, b) ==> a == b,
        remote_path_of(a, triple) == remote_path_of(b, triple) ==> a == b,
        remote_path_of(triple, a).len() == ".cache/portmanager/agent--"@.len() + triple.len()
            + a.len(),
{
    reveal_strlit(".cache/portmanager/agent-");
    reveal_strlit(".cache/portmanager/agent--");
    reveal_strlit("-");
    let n: int = 26 + triple.len() as int;
    let x = remote_path_of(triple, a);
    let y = remote_path_of(triple, b);
    assert(x.skip(n) =~= a);
    assert(y.skip(n) =~= b);
    if remote_path_of(a, triple) == remote_path_of(b, triple) {
        assert(remote_path_of(a, triple).len() == remote_path_of(b, triple).len());
        assert(a.len() == b.len());
        assert(remote_path_of(a, triple).subrange(25, 25 + a.len() as int) =~= a);
        assert(remote_path_of(b, triple).subrange(25, 25 + b.len() as int) =~= b);
    }
}

/// The agent is launched on the host from its path. It listens where it is told, or on
/// loopback as a tunnel agent where it is told nothing; it is told the seconds it outlives
/// its client, and is as talkative as the client.
pub proof fn law_launch(
    host: Seq<char>,
    path: Seq<char>,
    listen: Option<Seq<char>>,
    secs: int,
    verbose: nat,
)
    ensures
        ({
            let v = launch_args_of(host, path, listen, secs, verbose);
            let at: int = if listen is Some {
                7
            } else {
                8
            };
            &&& v.len() == at + 2 + verbose
            &&& v[2] == host && v[3] == path && v[4] == "agent"@
            &&& v[5] == "--listen"@
            &&& listen matches Some(l) ==> v[6] == l
            &&& listen is None ==> v[6] == "127.0.0.1:0"@ && v[7] == "--tunnel"@
            &&& v[at] == "--grace-secs"@ && v[at + 1] == crate::text::decimal(secs)
            &&& forall|i: int| at + 2 <= i < v.len() ==> #[trigger] v[i] == "-v"@
        }),
{
    lemma_verbosity(verbose);
}

proof fn lemma_verbosity(n: nat)
    ensures
        verbosity(n).len() == n,
        forall|i: int| 0 <= i < n ==> #[trigger] verbosity(n)[i] == "-v"@,
    decreases n,
{
    if n > 0 {
        lemma_verbosity((n - 1) as nat);
    }
}

/// A report is the lines that hold something, without the blanks around it.
pub proof fn law_report(p: Seq<Seq<char>>, t: Seq<char>)
    ensures
        report_lines_of(p).contains(t) <==> t.len() > 0 && exists|i: int|
            0 <= i < p.len() && crate::text::trimmed(#[trigger] p[i]) == t,
        report_lines_of(p).len() <= p.len(),
    decreases p.len(),
{
    if p.len() > 0 {
        let d = p.drop_last();
        let r = report_lines_of(d);
        let all = report_lines_of(p);
        law_report(d, t);
        if r.contains(t) {
            let k = choose|k: int| 0 <= k < r.len() && r[k] == t;
            assert(all[k] == t);
            let i = choose|i: int| 0 <= i < d.len() && crate::text::trimmed(#[trigger] d[i]) == t;
            assert(p[i] == d[i]);
        }
        let last = crate::text::trimmed(p.last());
        assert(p[p.len() - 1] == p.last());
        if last.len() > 0 {
            assert(all[r.len() as int] == last);
        }
        if all.contains(t) && !r.contains(t) {
            let k = choose|k: int| 0 <= k < all.len() && all[k] == t;
            if k < r.len() {
                assert(r[k] == t);
            }
        }
        if t.len() > 0 && exists|i: int|
            0 <= i < p.len() && crate::text::trimmed(#[trigger] p[i]) == t {
            let i = choose|i: int| 0 <= i < p.len() && crate::text::trimmed(#[trigger] p[i]) == t;
            if i < d.len() {
                assert(d[i] == p[i]);
                assert(r.contains(t));
            }
        }
    }
}

/// The line gives the name of the host.
pub open spec fn names_host(line: Seq<char>) -> bool {
    line.len() >= 9 && line.take(9) == "hostname "@
}

/// The name behind an alias is what the first line says that gives one; without such a
/// line, it is the alias.
pub proof fn law_hostname(out: Seq<char>, host: Seq<char>)
    ensures
        ({
            let p = pieces(out, '\n');
            &&& forall|i: int|
                0 <= i < p.len() && names_host(#[trigger] p[i]) && (forall|j: int|
                    0 <= j < i ==> !names_host(#[trigger] p[j])) ==> hostname_of(out, host)
                    == crate::text::trimmed(p[i].skip(9))
            &&& (forall|i: int| 0 <= i < p.len() ==> !names_host(#[trigger] p[i])) ==> hostname_of(
                out,
                host,
            ) == host
        }),
{
    let p = pieces(out, '\n');
    assert forall|i: int|
        0 <= i < p.len() && names_host(#[trigger] p[i]) && (forall|j: int|
            0 <= j < i ==> !names_host(#[trigger] p[j])) implies hostname_of(out, host)
        == crate::text::trimmed(p[i].skip(9)) by {
        lemma_named_host(p, i);
    }
    if forall|i: int| 0 <= i < p.len() ==> !names_host(#[trigger] p[i]) {
        lemma_named_host(p, p.len() as int);
    }
}

proof fn lemma_named_host(p: Seq<Seq<char>>, i: int)
    requires
        0 <= i <= p.len(),
        forall|j: int| 0 <= j < i ==> !names_host(#[trigger] p[j]),
        i < p.len() ==> names_host(p[i]),
    ensures
        named_host(p) == (if i < p.len() {
            Some(crate::text::trimmed(p[i].skip(9)))
        } else {
            None
        }),
    decreases p.len(),
{
    reveal_strlit("hostname ");
    if p.len() > 0 {
        let l = p[0];
        if l.len() >= 9 {
            assert(l.subrange(0, 9) =~= l.take(9));
        }
        if i > 0 {
            assert(!names_host(l));
            let t = p.drop_first();
            assert forall|j: int| 0 <= j < i - 1 implies !names_host(#[trigger] t[j]) by {
                assert(t[j] == p[j + 1]);
            }
            if i < p.len() {
                assert(t[i - 1] == p[i]);
            }
            lemma_named_host(t, i - 1);
        } else {
            assert(names_host(l));
        }
    }
}

/// The name of a binary holds the first six bytes of its hash.
pub proof fn law_short_hash(bytes: Seq<u8>, i: int)
    requires
        sha256_of(bytes).len() == 32,
        0 <= i < 6,
    ensures
        short_hash_of(bytes).len() == 12,
        short_hash_of(bytes)[2 * i] == crate::hexcode::nibble_char(sha256_of(bytes)[i] as int / 16),
        short_hash_of(bytes)[2 * i + 1] == crate::hexcode::nibble_char(
            sha256_of(bytes)[i] as int % 16,
        ),
{
    let h = sha256_of(bytes).take(6);
    crate::hexcode::lemma_hex_of(h);
    assert(h[i] == sha256_of(bytes)[i]);
    assert(hex_of(h)[2 * i] == crate::hexcode::nibble_char(h[i] as int / 16));
}

} // verus!
