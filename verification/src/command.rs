//! The subcommands that talk to a running session: what is asked of it, and how its
//! answers are shown.

use crate::cli::Command;
use crate::client::string_texts;
use crate::control::{listed_of, Answer, ForwardEntry, Listed, Request, Response};
use crate::error::SpecError;
use crate::error::SpecFault;
use crate::forward::{debug_str, debug_text};
use crate::launch::{all_forwards, all_reverses, parse_reverse_specs, parse_specs};
use crate::net::IpAddr;
use vstd::prelude::*;

verus! {

// ---- what is asked -----------------------------------------------------

/// Why a subcommand asks nothing of the session.
#[derive(Debug, PartialEq, Eq)]
pub enum CommandError {
    /// There is nothing to add.
    NothingToAdd,
    /// There is nothing to drop.
    NothingToDrop,
    /// This forward spec is wrong.
    BadForward(String, SpecError),
    /// This reverse spec is wrong.
    BadReverse(String, SpecError),
}

/// The model of a [`CommandError`].
#[verifier::ext_equal]
pub enum CommandFault {
    NothingToAdd,
    NothingToDrop,
    BadForward(Seq<char>, SpecFault),
    BadReverse(Seq<char>, SpecFault),
}

impl View for CommandError {
    type V = CommandFault;

    open spec fn view(&self) -> CommandFault {
        match self {
            CommandError::NothingToAdd => CommandFault::NothingToAdd,
            CommandError::NothingToDrop => CommandFault::NothingToDrop,
            CommandError::BadForward(s, e) => CommandFault::BadForward(s@, e@),
            CommandError::BadReverse(s, e) => CommandFault::BadReverse(s@, e@),
        }
    }
}

impl CommandFault {
    /// The message for this error.
    pub open spec fn text(self) -> Seq<char> {
        match self {
            CommandFault::NothingToAdd => "add: pass at least one forward spec"@,
            CommandFault::NothingToDrop => {
                "drop: pass at least one forward spec or local port (or --all)"@
            },
            CommandFault::BadForward(s, e) => "invalid forward spec "@ + debug_text(s) + ": "@
                + e.text(),
            CommandFault::BadReverse(s, e) => "invalid reverse spec "@ + debug_text(s) + ": "@
                + e.text(),
        }
    }
}

impl CommandError {
    /// The message for this error.
    pub fn message(&self) -> (r: String)
        ensures
            r@ == self@.text(),
    {
        match self {
            CommandError::NothingToAdd => "add: pass at least one forward spec".to_owned(),
            CommandError::NothingToDrop => {
                "drop: pass at least one forward spec or local port (or --all)".to_owned()
            },
            CommandError::BadForward(s, e) => String::from_str("invalid forward spec ").concat(
                debug_str(s.as_str()).as_str(),
            ).concat(": ").concat(e.message().as_str()),
            CommandError::BadReverse(s, e) => String::from_str("invalid reverse spec ").concat(
                debug_str(s.as_str()).as_str(),
            ).concat(": ").concat(e.message().as_str()),
        }
    }
}

/// The model of a [`Request`].
#[verifier::ext_equal]
pub enum Asked {
    Add(Seq<char>),
    Drop(Seq<char>),
    AddReverse(Seq<char>),
    DropReverse(Seq<char>),
    Clear,
    List,
    Status,
    Stop,
    SetNs(Option<Seq<char>>),
}

impl View for Request {
    type V = Asked;

    open spec fn view(&self) -> Asked {
        match self {
            Request::Add { spec } => Asked::Add(spec@),
            Request::Drop { spec } => Asked::Drop(spec@),
            Request::AddReverse { spec } => Asked::AddReverse(spec@),
            Request::DropReverse { spec } => Asked::DropReverse(spec@),
            Request::Clear => Asked::Clear,
            Request::List => Asked::List,
            Request::Status => Asked::Status,
            Request::Stop => Asked::Stop,
            Request::SetNs { ns } => Asked::SetNs(crate::client::opt_text(*ns)),
        }
    }
}

/// The models of a list of requests.
pub open spec fn asked_of(v: Seq<Request>) -> Seq<Asked> {
    v.map_values(|r: Request| r@)
}

/// One request for each spec.
pub open spec fn for_each(specs: Seq<Seq<char>>, add: bool, reverse: bool) -> Seq<Asked> {
    specs.map_values(
        |s: Seq<char>|
            if add {
                if reverse {
                    Asked::AddReverse(s)
                } else {
                    Asked::Add(s)
                }
            } else {
                if reverse {
                    Asked::DropReverse(s)
                } else {
                    Asked::Drop(s)
                }
            },
    )
}

/// The requests of a subcommand. Specs to add are looked at first, so that the
/// session is not bothered with wrong ones.
pub open spec fn requests_of(cmd: Command, bind: IpAddr) -> Result<Seq<Asked>, CommandFault> {
    match cmd {
        Command::Add { host, specs, reverse } => if specs@.len() == 0 {
            Err(CommandFault::NothingToAdd)
        } else if reverse {
            match all_reverses(string_texts(specs@)) {
                Err((s, e)) => Err(CommandFault::BadReverse(s, e)),
                Ok(_) => Ok(for_each(string_texts(specs@), true, true)),
            }
        } else {
            match all_forwards(string_texts(specs@), bind, None) {
                Err((s, e)) => Err(CommandFault::BadForward(s, e)),
                Ok(_) => Ok(for_each(string_texts(specs@), true, false)),
            }
        },
        Command::Drop { host, specs, all, reverse } => if all {
            Ok(seq![Asked::Clear])
        } else if specs@.len() == 0 {
            Err(CommandFault::NothingToDrop)
        } else {
            Ok(for_each(string_texts(specs@), false, reverse))
        },
        Command::Clear { host } => Ok(seq![Asked::Clear]),
        Command::List { host } => Ok(seq![Asked::List]),
        Command::Status { host } => Ok(seq![Asked::Status]),
        Command::Stop { host } => Ok(seq![Asked::Stop]),
        Command::Ns { host, ns } => Ok(seq![Asked::SetNs(crate::client::opt_text(ns))]),
    }
}

fn one(r: Request) -> (v: Vec<Request>)
    ensures
        asked_of(v@) == seq![r@],
{
    let mut v: Vec<Request> = Vec::new();
    v.push(r);
    proof {
        assert(asked_of(v@) =~= seq![r@]);
    }
    v
}

fn each(specs: &Vec<String>, add: bool, reverse: bool) -> (v: Vec<Request>)
    ensures
        asked_of(v@) == for_each(string_texts(specs@), add, reverse),
{
    let ghost want = for_each(string_texts(specs@), add, reverse);
    let mut v: Vec<Request> = Vec::new();
    let mut i: usize = 0;
    while i < specs.len()
        invariant
            i <= specs@.len(),
            want == for_each(string_texts(specs@), add, reverse),
            asked_of(v@) == want.take(i as int),
        decreases specs@.len() - i,
    {
        let ghost before = asked_of(v@);
        let spec: String = specs[i].clone();
        let r: Request = if add {
            if reverse {
                Request::AddReverse { spec }
            } else {
                Request::Add { spec }
            }
        } else {
            if reverse {
                Request::DropReverse { spec }
            } else {
                Request::Drop { spec }
            }
        };
        let ghost m = r@;
        v.push(r);
        proof {
            assert(string_texts(specs@)[i as int] == specs@[i as int]@);
            assert(m == want[i as int]);
            assert(asked_of(v@) =~= before.push(m));
            assert(want.take(i + 1) =~= before.push(m));
        }
        i = i + 1;
    }
    proof {
        assert(want.take(i as int) =~= want);
    }
    v
}

/// The requests of a subcommand.
pub fn plan_requests(cmd: &Command, bind: IpAddr) -> (r: Result<Vec<Request>, CommandError>)
    ensures
        match r {
            Ok(v) => requests_of(*cmd, bind) == Ok::<Seq<Asked>, CommandFault>(asked_of(v@)),
            Err(e) => requests_of(*cmd, bind) == Err::<Seq<Asked>, CommandFault>(e@),
        },
{
    match cmd {
        Command::Add { host, specs, reverse } => {
            if specs.len() == 0 {
                return Err(CommandError::NothingToAdd);
            }
            if *reverse {
                match parse_reverse_specs(specs) {
                    Err((s, e)) => Err(CommandError::BadReverse(s, e)),
                    Ok(_) => Ok(each(specs, true, true)),
                }
            } else {
                match parse_specs(specs, bind, None) {
                    Err((s, e)) => Err(CommandError::BadForward(s, e)),
                    Ok(_) => Ok(each(specs, true, false)),
                }
            }
        },
        Command::Drop { host, specs, all, reverse } => {
            if *all {
                Ok(one(Request::Clear))
            } else if specs.len() == 0 {
                Err(CommandError::NothingToDrop)
            } else {
                Ok(each(specs, false, *reverse))
            }
        },
        Command::Clear { host } => Ok(one(Request::Clear)),
        Command::List { host } => Ok(one(Request::List)),
        Command::Status { host } => Ok(one(Request::Status)),
        Command::Stop { host } => Ok(one(Request::Stop)),
        Command::Ns { host, ns } => Ok(one(Request::SetNs { ns: crate::client::clone_opt(ns) })),
    }
}

// ---- how answers are shown ---------------------------------------------

/// A text filled up with blanks to `width` characters.
pub open spec fn padded(s: Seq<char>, width: nat) -> Seq<char>
    decreases width,
{
    if s.len() >= width {
        s
    } else {
        padded(s, (width - 1) as nat).push(' ')
    }
}

/// A text filled up with blanks to `width` characters.
pub fn pad(s: &str, width: usize) -> (r: String)
    ensures
        r@ == padded(s@, width as nat),
{
    let mut r: String = s.to_owned();
    let mut n: usize = s.unicode_len();
    if n >= width {
        return r;
    }
    while n < width
        invariant
            s@.len() <= n <= width,
            r@ == padded(s@, n as nat),
        decreases width - n,
    {
        r.push(' ');
        n = n + 1;
    }
    r
}

/// One entry in a line.
pub open spec fn entry_line(e: Listed) -> Seq<char> {
    if e.health.len() == 0 {
        padded(e.local, 24) + " "@ + e.spec
    } else {
        padded(e.local, 24) + " "@ + padded(e.spec, 32) + " "@ + e.health
    }
}

/// One entry in a line.
pub fn show_entry(e: &ForwardEntry) -> (r: String)
    ensures
        r@ == entry_line(e@),
{
    let mut r: String = pad(e.local.as_str(), 24);
    r.append(" ");
    if e.health.as_str().is_empty() {
        r.append(e.spec.as_str());
    } else {
        r.append(pad(e.spec.as_str(), 32).as_str());
        r.append(" ");
        r.append(e.health.as_str());
    }
    r
}

/// The forwards, a line each; or one line that says that there are none.
pub open spec fn forward_lines(v: Seq<Listed>) -> Seq<Seq<char>> {
    if v.len() == 0 {
        seq!["(no forwards)"@]
    } else {
        v.map_values(|e: Listed| entry_line(e))
    }
}

/// The reverse forwards, a line each under a headline; nothing where there are none.
pub open spec fn reverse_lines(v: Seq<Listed>) -> Seq<Seq<char>> {
    if v.len() == 0 {
        Seq::empty()
    } else {
        seq!["reverse forwards:"@] + v.map_values(|e: Listed| "  "@ + entry_line(e))
    }
}

/// The default namespace, where there is one.
pub open spec fn ns_lines(default_ns: Seq<char>) -> Seq<Seq<char>> {
    if default_ns.len() == 0 {
        Seq::empty()
    } else {
        seq!["default namespace: "@ + default_ns]
    }
}

/// The lines that an answer is shown as.
pub open spec fn answer_lines(a: Answer, version: Seq<char>) -> Seq<Seq<char>> {
    match a {
        Answer::Done(message) => seq![message],
        Answer::Forwards { entries, reverse, default_ns } => forward_lines(entries)
            + reverse_lines(reverse) + ns_lines(default_ns),
        Answer::StatusIs { state, agent_version, entries, reverse, default_ns } => seq![
            "session: "@ + state + " (agent v"@ + agent_version + ", client v"@ + version + ")"@,
        ] + forward_lines(entries) + reverse_lines(reverse) + ns_lines(default_ns),
        Answer::Error(message) => Seq::empty(),
    }
}

/// What goes to the error output: the message of an answer that is an error.
pub open spec fn answer_error(a: Answer) -> Option<Seq<char>> {
    match a {
        Answer::Error(message) => Some("error: "@ + message),
        _ => None,
    }
}

fn put_entries(
    out: &mut Vec<String>,
    entries: &Vec<ForwardEntry>,
    reverse: &Vec<ForwardEntry>,
    default_ns: &String,
)
    ensures
        string_texts(final(out)@) == string_texts(old(out)@) + (forward_lines(listed_of(entries@))
            + reverse_lines(listed_of(reverse@)) + ns_lines(default_ns@)),
{
    let ghost start = string_texts(out@);
    let ghost fl = forward_lines(listed_of(entries@));
    let ghost rl = reverse_lines(listed_of(reverse@));
    if entries.len() == 0 {
        out.push("(no forwards)".to_owned());
        proof {
            assert(string_texts(out@) =~= start + fl);
        }
    } else {
        let mut i: usize = 0;
        proof {
            assert(start + fl.take(0) =~= start);
        }
        while i < entries.len()
            invariant
                i <= entries@.len(),
                entries@.len() > 0,
                fl == forward_lines(listed_of(entries@)),
                string_texts(out@) == start + fl.take(i as int),
            decreases entries@.len() - i,
        {
            let ghost before = string_texts(out@);
            out.push(show_entry(&entries[i]));
            proof {
                assert(listed_of(entries@)[i as int] == entries@[i as int]@);
                assert(fl[i as int] == entry_line(entries@[i as int]@));
                assert(string_texts(out@) =~= before.push(fl[i as int]));
                assert(start + fl.take(i + 1) =~= before.push(fl[i as int]));
            }
            i = i + 1;
        }
        proof {
            assert(fl.take(i as int) =~= fl);
        }
    }
    if reverse.len() > 0 {
        out.push("reverse forwards:".to_owned());
        let mut j: usize = 0;
        proof {
            assert(string_texts(out@) =~= start + fl + rl.take(1));
        }
        while j < reverse.len()
            invariant
                j <= reverse@.len(),
                reverse@.len() > 0,
                rl == reverse_lines(listed_of(reverse@)),
                string_texts(out@) == start + fl + rl.take(j + 1),
            decreases reverse@.len() - j,
        {
            let ghost before = string_texts(out@);
            out.push(String::from_str("  ").concat(show_entry(&reverse[j]).as_str()));
            proof {
                assert(listed_of(reverse@)[j as int] == reverse@[j as int]@);
                assert(rl[j + 1] == "  "@ + entry_line(reverse@[j as int]@));
                assert(string_texts(out@) =~= before.push(rl[j + 1]));
                assert(start + fl + rl.take(j + 2) =~= before.push(rl[j + 1]));
            }
            j = j + 1;
        }
        proof {
            assert(rl.take(j + 1) =~= rl);
        }
    } else {
        proof {
            assert(rl =~= Seq::<Seq<char>>::empty());
            assert(string_texts(out@) =~= start + fl + rl);
        }
    }
    let ghost before = string_texts(out@);
    if !default_ns.as_str().is_empty() {
        out.push(String::from_str("default namespace: ").concat(default_ns.as_str()));
    }
    proof {
        assert(string_texts(out@) =~= before + ns_lines(default_ns@));
        assert(string_texts(out@) =~= start + (fl + rl + ns_lines(default_ns@)));
    }
}

/// The lines that an answer is shown as, and what goes to the error output.
pub fn show_response(response: &Response, version: &str) -> (r: (Vec<String>, Option<String>))
    ensures
        string_texts(r.0@) == answer_lines(response@, version@),
        crate::client::opt_text(r.1) == answer_error(response@),
{
    let mut out: Vec<String> = Vec::new();
    proof {
        assert(string_texts(out@) =~= Seq::<Seq<char>>::empty());
    }
    match response {
        Response::Done { message } => {
            out.push(message.clone());
            proof {
                assert(string_texts(out@) =~= seq![message@]);
            }
            (out, None)
        },
        Response::Forwards { entries, reverse, default_ns } => {
            put_entries(&mut out, entries, reverse, default_ns);
            proof {
                assert(string_texts(out@) =~= answer_lines(response@, version@));
            }
            (out, None)
        },
        Response::StatusIs { state, agent_version, entries, reverse, default_ns } => {
            out.push(
                String::from_str("session: ").concat(state.as_str()).concat(" (agent v").concat(
                    agent_version.as_str(),
                ).concat(", client v").concat(version).concat(")"),
            );
            proof {
                assert(string_texts(out@) =~= seq![
                    "session: "@ + state@ + " (agent v"@ + agent_version@ + ", client v"@
                        + version@ + ")"@,
                ]);
            }
            put_entries(&mut out, entries, reverse, default_ns);
            proof {
                assert(string_texts(out@) =~= answer_lines(response@, version@));
            }
            (out, None)
        },
        Response::Error { message } => {
            proof {
                assert(string_texts(out@) =~= answer_lines(response@, version@));
            }
            (out, Some(String::from_str("error: ").concat(message.as_str())))
        },
    }
}

// ---- forgetting, and the remote log ------------------------------------

/// What is said once the saved state of a host was deleted, where there was any.
/// `live` says whether a session for it is running.
pub fn forget_lines(host: &str, forgot: bool, live: bool) -> (r: Vec<String>)
    ensures
        string_texts(r@) == seq![
            (if forgot {
                "forgot saved state for "@
            } else {
                "no saved state for "@
            }) + debug_text(host@),
        ] + (if live {
            seq![
                "note: a session for "@ + debug_text(host@)
                    + " is still running; its current forwards will be re-saved if it persists again (stop it first to keep state cleared)"@,
            ]
        } else {
            Seq::<Seq<char>>::empty()
        }),
{
    let mut r: Vec<String> = Vec::new();
    let head: &str = if forgot {
        "forgot saved state for "
    } else {
        "no saved state for "
    };
    r.push(String::from_str(head).concat(debug_str(host).as_str()));
    if live {
        r.push(
            String::from_str("note: a session for ").concat(debug_str(host).as_str()).concat(
                " is still running; its current forwards will be re-saved if it persists again (stop it first to keep state cleared)",
            ),
        );
    }
    proof {
        assert(string_texts(r@) =~= string_texts(r@.take(1)) + string_texts(r@.skip(1)));
        assert(string_texts(r@.take(1)) =~= seq![head@ + debug_text(host@)]);
        if live {
            assert(string_texts(r@.skip(1)) =~= seq![
                "note: a session for "@ + debug_text(host@)
                    + " is still running; its current forwards will be re-saved if it persists again (stop it first to keep state cleared)"@,
            ]);
        } else {
            assert(string_texts(r@.skip(1)) =~= Seq::<Seq<char>>::empty());
        }
    }
    r
}

/// The arguments of the ssh call that shows the log of the agent on `host`.
pub fn logs_args(host: &str, follow: bool) -> (r: Vec<String>)
    ensures
        string_texts(r@) == seq!["-o"@, "ConnectTimeout=10"@, host@, "tail"@] + (if follow {
            seq!["-f"@]
        } else {
            Seq::<Seq<char>>::empty()
        }) + seq!["-n"@, "200"@, ".cache/portmanager/agent.log"@],
{
    let mut r: Vec<String> = Vec::new();
    r.push("-o".to_owned());
    r.push("ConnectTimeout=10".to_owned());
    r.push(host.to_owned());
    r.push("tail".to_owned());
    if follow {
        r.push("-f".to_owned());
    }
    r.push("-n".to_owned());
    r.push("200".to_owned());
    r.push(".cache/portmanager/agent.log".to_owned());
    r
}

/// What is said when the log of the agent could not be read.
pub fn logs_failure(host: &str) -> (r: String)
    ensures
        r@ == "could not read remote agent log (it may not exist yet — has the agent run on "@
            + debug_text(host@) + "?)"@,
{
    String::from_str(
        "could not read remote agent log (it may not exist yet — has the agent run on ",
    ).concat(debug_str(host).as_str()).concat("?)")
}

/// Specs to add are asked for one by one, in their order, and only where every one of them
/// can be read. Where one cannot, nothing is asked, and one that cannot be read is named.
pub proof fn law_adds(cmd: Command, host: String, specs: Vec<String>, bind: IpAddr)
    ensures
        cmd == (Command::Add { host, specs, reverse: false }) ==> match requests_of(cmd, bind) {
            Ok(v) => specs@.len() > 0 && v.len() == specs@.len() && forall|i: int|
                0 <= i < v.len() ==> (#[trigger] v[i]) == Asked::Add(specs@[i]@)
                    && crate::forward::forward_of(specs@[i]@, bind, None) is Ok,
            Err(CommandFault::NothingToAdd) => specs@.len() == 0,
            Err(CommandFault::BadForward(s, e)) => exists|i: int|
                0 <= i < specs@.len() && s == #[trigger] specs@[i]@ && crate::forward::forward_of(
                    s,
                    bind,
                    None,
                ) == Err::<crate::forward::Forward, SpecFault>(e),
            Err(_) => false,
        },
        cmd == (Command::Add { host, specs, reverse: true }) ==> match requests_of(cmd, bind) {
            Ok(v) => specs@.len() > 0 && v.len() == specs@.len() && forall|i: int|
                0 <= i < v.len() ==> (#[trigger] v[i]) == Asked::AddReverse(specs@[i]@)
                    && crate::forward::reverse_of(specs@[i]@) is Ok,
            Err(CommandFault::NothingToAdd) => specs@.len() == 0,
            Err(CommandFault::BadReverse(s, e)) => exists|i: int|
                0 <= i < specs@.len() && s == #[trigger] specs@[i]@ && crate::forward::reverse_of(s)
                    == Err::<crate::forward::Reverse, SpecFault>(e),
            Err(_) => false,
        },
{
    let t = string_texts(specs@);
    assert(forall|i: int| 0 <= i < t.len() ==> #[trigger] t[i] == specs@[i]@);
    crate::launch::law_specs_are_read(t, bind, None);
    crate::launch::law_reverse_specs_are_read(t);
    if let Ok(v) = all_forwards(t, bind, None) {
        assert forall|i: int| 0 <= i < t.len() implies crate::forward::forward_of(
            #[trigger] specs@[i]@,
            bind,
            None,
        ) is Ok by {
            assert(crate::forward::forward_of(t[i], bind, None) is Ok);
        }
    }
    if let Ok(v) = all_reverses(t) {
        assert forall|i: int| 0 <= i < t.len() implies crate::forward::reverse_of(
            #[trigger] specs@[i]@,
        ) is Ok by {
            assert(crate::forward::reverse_of(t[i]) is Ok);
        }
    }
}

/// Specs to drop are asked for one by one, in their order and as they are; with `--all`,
/// everything goes by one request, whatever specs there are.
pub proof fn law_drops(
    cmd: Command,
    host: String,
    specs: Vec<String>,
    all: bool,
    reverse: bool,
    bind: IpAddr,
)
    requires
        cmd == (Command::Drop { host, specs, all, reverse }),
    ensures
        match requests_of(cmd, bind) {
            Ok(v) => if all {
                v == seq![Asked::Clear]
            } else {
                v.len() == specs@.len() && forall|i: int|
                    0 <= i < v.len() ==> #[trigger] v[i] == (if reverse {
                        Asked::DropReverse(specs@[i]@)
                    } else {
                        Asked::Drop(specs@[i]@)
                    })
            },
            Err(e) => e == CommandFault::NothingToDrop && !all && specs@.len() == 0,
        },
{
}

/// The other subcommands ask one thing each, which is what they are named after.
pub proof fn law_single_requests(cmd: Command, bind: IpAddr)
    ensures
        !(cmd is Add) && !(cmd is Drop) ==> (requests_of(cmd, bind) matches Ok(v) && v.len() == 1 && (
        cmd is Clear <==> v[0] is Clear) && (cmd is List <==> v[0] is List) && (cmd is Status <==> v[0] is Status)
            && (cmd is Stop <==> v[0] is Stop) && (cmd is Ns <==> v[0] is SetNs)),
        cmd matches Command::Ns { host, ns } ==> (requests_of(cmd, bind) matches Ok(v)
            && v[0]->SetNs_0 == (match ns {
            Some(s) => Some(s@),
            None => None,
        })),
{
}

/// A text is filled up with blanks behind it, to the width and no further.
pub proof fn law_padded(s: Seq<char>, width: nat)
    ensures
        s.len() >= width ==> padded(s, width) == s,
        s.len() < width ==> padded(s, width).len() == width,
        padded(s, width).take(s.len() as int) == s,
        forall|i: int| s.len() <= i < padded(s, width).len() ==> #[trigger] padded(s, width)[i] == ' ',
    decreases width,
{
    if s.len() >= width {
        assert(s.take(s.len() as int) =~= s);
    } else {
        let w = (width - 1) as nat;
        law_padded(s, w);
        assert(padded(s, width).take(s.len() as int) =~= padded(s, w).take(s.len() as int));
    }
}

/// A line of the list has the local end in front, then the spec and then the health, each
/// in a column of its own as long as it fits.
pub proof fn law_columns(e: Listed)
    requires
        e.local.len() <= 24,
        e.spec.len() <= 32,
    ensures
        entry_line(e).take(e.local.len() as int) == e.local,
        entry_line(e).subrange(25, 25 + e.spec.len() as int) == e.spec,
        e.health.len() > 0 ==> entry_line(e).skip(58) == e.health,
        e.health.len() == 0 ==> entry_line(e).len() == 25 + e.spec.len(),
{
    reveal_strlit(" ");
    law_padded(e.local, 24);
    law_padded(e.spec, 32);
    let a = padded(e.local, 24);
    let b = padded(e.spec, 32);
    let l = entry_line(e);
    assert(l.take(e.local.len() as int) =~= a.take(e.local.len() as int));
    if e.health.len() == 0 {
        assert(l.subrange(25, 25 + e.spec.len() as int) =~= e.spec);
    } else {
        assert(l.subrange(25, 25 + e.spec.len() as int) =~= b.take(e.spec.len() as int));
        assert(l.skip(58) =~= e.health);
    }
}

/// A list shows every forward in a line of its own, then every reverse forward in one under
/// a headline, then the default namespace; what there is none of takes no line, but that
/// there are no forwards is said.
pub proof fn law_list_lines(
    entries: Seq<Listed>,
    reverse: Seq<Listed>,
    default_ns: Seq<char>,
    version: Seq<char>,
)
    ensures
        ({
            let l = answer_lines(Answer::Forwards { entries, reverse, default_ns }, version);
            let n: int = if entries.len() == 0 {
                1
            } else {
                entries.len() as int
            };
            let m: int = if reverse.len() == 0 {
                0
            } else {
                reverse.len() as int + 1
            };
            &&& l.len() == n + m + (if default_ns.len() == 0 {
                0int
            } else {
                1int
            })
            &&& forall|i: int| 0 <= i < entries.len() ==> #[trigger] entry_line(entries[i]) == l[i]
            &&& entries.len() == 0 ==> l[0] == "(no forwards)"@
            &&& forall|i: int|
                0 <= i < reverse.len() ==> l[n + 1 + i] == "  "@ + #[trigger] entry_line(reverse[i])
            &&& default_ns.len() > 0 ==> l.last() == "default namespace: "@ + default_ns
        }),
{
}

/// An error is shown as one, and nothing else is.
pub proof fn law_errors_apart(a: Answer, version: Seq<char>)
    ensures
        answer_error(a) is Some <==> a is Error,
        a is Error ==> answer_lines(a, version).len() == 0,
        !(a is Error) ==> answer_lines(a, version).len() > 0,
{
}

} // verus!
