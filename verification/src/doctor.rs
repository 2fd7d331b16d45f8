//! A diagnostic checklist for a host: SSH reachability, the remote system, the agent
//! binary for it, its firewall, and a session that may be running.

use crate::bootstrap::{hostname_of, ssh_hostname, target_triple, triple_of};
use crate::client::{opt_text, string_texts};
use crate::firewall::{diagnose, diagnosis};
use crate::forward::{debug_str, debug_text};
use crate::supervisor::advise_port;
use crate::text::{dec, lines, lines_of, str_eq, trim};
use vstd::prelude::*;

verus! {

/// What a running session said.
#[derive(Debug)]
pub enum Probe {
    /// Its state.
    Running { state: String, agent_version: String, forwards: u64 },
    /// Something else.
    Unexpected,
    /// Nothing: there is none.
    Absent,
}

/// What was found out about a host. An error is given in words.
#[derive(Debug)]
pub struct Facts {
    /// What `ssh -G` says of it.
    pub ssh_config: Result<String, String>,
    /// What `uname -s -m` says there.
    pub uname: Result<String, String>,
    /// The agent binary for it; looked for only where the remote system is supported.
    pub agent: Result<String, String>,
    /// What the firewall probe printed there; none where it could not run.
    pub firewall: Option<String>,
    pub session: Probe,
    /// The last lines of the agent's log; looked for only where the host is known.
    pub log: Result<String, String>,
}

/// A check that passed.
pub open spec fn passed(msg: Seq<char>) -> Seq<char> {
    "  [ok]   "@ + msg
}

/// A check that failed.
pub open spec fn failed(msg: Seq<char>) -> Seq<char> {
    "  [FAIL] "@ + msg
}

/// A remark.
pub open spec fn noted(msg: Seq<char>) -> Seq<char> {
    "  [note] "@ + msg
}

fn pass(msg: String) -> (r: String)
    ensures
        r@ == passed(msg@),
{
    String::from_str("  [ok]   ").concat(msg.as_str())
}

fn fail(msg: String) -> (r: String)
    ensures
        r@ == failed(msg@),
{
    String::from_str("  [FAIL] ").concat(msg.as_str())
}

fn note(msg: String) -> (r: String)
    ensures
        r@ == noted(msg@),
{
    String::from_str("  [note] ").concat(msg.as_str())
}

/// Does the SSH configuration know the host?
pub open spec fn config_check(host: Seq<char>, out: Result<String, String>) -> Seq<char> {
    match out {
        Ok(o) => passed(
            "ssh config resolves "@ + debug_text(host) + " -> "@ + hostname_of(o@, host),
        ),
        Err(e) => failed("ssh -G "@ + host + " failed: "@ + e@),
    }
}

/// Can the host be reached, and is its system supported?
pub open spec fn system_checks(uname: Result<String, String>) -> Seq<Seq<char>> {
    match uname {
        Err(e) => seq![failed("ssh connect / uname failed: "@ + e@)],
        Ok(u) => {
            let t = crate::text::trimmed(u@);
            seq![
                passed("ssh connect ok; remote uname -sm: "@ + t),
                match triple_of(t) {
                    Ok(triple) => passed("supported remote target: "@ + triple),
                    Err(e) => failed("unsupported remote: "@ + e.text()),
                },
            ]
        },
    }
}

/// The remote system is one that there are agents for.
pub open spec fn is_supported(uname: Result<String, String>) -> bool {
    uname matches Ok(u) && triple_of(crate::text::trimmed(u@)) is Ok
}

/// Is there an agent binary for it?
pub open spec fn agent_check(agent: Result<String, String>) -> Seq<char> {
    match agent {
        Ok(path) => passed("agent binary available: "@ + path@),
        Err(e) => failed("no agent binary: "@ + e@),
    }
}

/// What has to be open for the agent, where the host can be reached.
pub open spec fn firewall_notes(uname: Result<String, String>, markers: Option<String>) -> Seq<
    Seq<char>,
> {
    if uname is Ok {
        seq![noted(diagnosis(opt_text(markers), crate::supervisor::advised_port(None)))]
    } else {
        Seq::empty()
    }
}

/// Is a session running, and is its agent up to date?
pub open spec fn session_notes(host: Seq<char>, version: Seq<char>, session: Probe) -> Seq<Seq<char>> {
    match session {
        Probe::Running { state, agent_version, forwards } => seq![
            passed(
                "running session: "@ + state@ + "; agent v"@ + agent_version@ + "; "@
                    + crate::text::decimal(forwards as int) + " forward(s)"@,
            ),
        ] + (if agent_version@ == version {
            Seq::<Seq<char>>::empty()
        } else {
            seq![
                noted(
                    "agent is v"@ + agent_version@ + " but this client is v"@ + version
                        + " — re-run `portmanager "@ + host
                        + " ...` to redeploy/update the agent"@,
                ),
            ]
        }),
        Probe::Unexpected => seq![noted("running session answered unexpectedly"@)],
        Probe::Absent => seq![
            noted(
                "no running local session for this host (start one with `portmanager <host> <spec>`)"@,
            ),
        ],
    }
}

/// What the agent logged last.
pub open spec fn log_lines(log: Result<String, String>) -> Seq<Seq<char>> {
    match log {
        Ok(l) => if crate::text::trimmed(l@).len() > 0 {
            seq![Seq::<char>::empty(), "remote agent log (last lines):"@] + lines_of(l@).map_values(
                |s: Seq<char>| "  "@ + s,
            )
        } else {
            seq![noted("remote agent log is empty"@)]
        },
        Err(_) => seq![noted("no remote agent log yet (agent has not run on this host)"@)],
    }
}

/// The checklist, line by line.
pub open spec fn checklist_of(host: Seq<char>, version: Seq<char>, f: Facts) -> Seq<Seq<char>> {
    seq!["diagnosing "@ + debug_text(host), Seq::<char>::empty(), config_check(host, f.ssh_config)]
        + system_checks(f.uname) + (if is_supported(f.uname) {
        seq![agent_check(f.agent)]
    } else {
        Seq::<Seq<char>>::empty()
    }) + firewall_notes(f.uname, f.firewall) + session_notes(host, version, f.session) + (if f.ssh_config is Ok {
        log_lines(f.log)
    } else {
        Seq::<Seq<char>>::empty()
    }) + seq![Seq::<char>::empty()]
}

/// How many of the checks that a session depends on failed.
pub open spec fn failures_of(f: Facts) -> int {
    (if f.ssh_config is Err {
        1int
    } else {
        0int
    }) + (if is_supported(f.uname) {
        if f.agent is Err {
            1int
        } else {
            0int
        }
    } else {
        1int
    })
}

/// Whether the remote system is one that there are agents for: then its target and
/// architecture.
pub fn supported(uname: &Result<String, String>) -> (r: Option<(&'static str, String)>)
    ensures
        r is Some <==> is_supported(*uname),
        match r {
            Some((triple, arch)) => {
                &&& *uname matches Ok(u) && triple_of(crate::text::trimmed(u@)) == Ok::<
                    Seq<char>,
                    crate::bootstrap::TargetFault,
                >(triple@) && arch@ == crate::bootstrap::word_at(crate::text::trimmed(u@), 1)
            },
            None => true,
        },
{
    match uname {
        Err(_) => None,
        Ok(u) => {
            let t: &str = trim(u.as_str());
            match target_triple(t) {
                Ok(triple) => Some((triple, crate::bootstrap::remote_arch(t))),
                Err(_) => None,
            }
        },
    }
}

fn put_system(out: &mut Vec<String>, uname: &Result<String, String>)
    ensures
        string_texts(final(out)@) == string_texts(old(out)@) + system_checks(*uname),
{
    let ghost start = string_texts(out@);
    match uname {
        Err(e) => {
            out.push(fail(String::from_str("ssh connect / uname failed: ").concat(e.as_str())));
        },
        Ok(u) => {
            let t: &str = trim(u.as_str());
            out.push(pass(String::from_str("ssh connect ok; remote uname -sm: ").concat(t)));
            match target_triple(t) {
                Ok(triple) => {
                    out.push(pass(String::from_str("supported remote target: ").concat(triple)));
                },
                Err(e) => {
                    out.push(
                        fail(
                            String::from_str("unsupported remote: ").concat(e.message().as_str()),
                        ),
                    );
                },
            }
        },
    }
    proof {
        assert(string_texts(out@) =~= start + system_checks(*uname));
    }
}

fn put_firewall(out: &mut Vec<String>, uname: &Result<String, String>, markers: &Option<String>)
    ensures
        string_texts(final(out)@) == string_texts(old(out)@) + firewall_notes(*uname, *markers),
{
    let ghost start = string_texts(out@);
    if uname.is_ok() {
        let printed: Option<&str> = match markers {
            Some(m) => Some(m.as_str()),
            None => None,
        };
        out.push(note(diagnose(printed, &advise_port(None))));
    }
    proof {
        assert(string_texts(out@) =~= start + firewall_notes(*uname, *markers));
    }
}

fn put_session(out: &mut Vec<String>, host: &str, version: &str, session: &Probe)
    ensures
        string_texts(final(out)@) == string_texts(old(out)@) + session_notes(
            host@,
            version@,
            *session,
        ),
{
    let ghost start = string_texts(out@);
    match session {
        Probe::Running { state, agent_version, forwards } => {
            out.push(
                pass(
                    String::from_str("running session: ").concat(state.as_str()).concat(
                        "; agent v",
                    ).concat(agent_version.as_str()).concat("; ").concat(
                        dec(*forwards).as_str(),
                    ).concat(" forward(s)"),
                ),
            );
            if !str_eq(agent_version.as_str(), version) {
                out.push(
                    note(
                        String::from_str("agent is v").concat(agent_version.as_str()).concat(
                            " but this client is v",
                        ).concat(version).concat(" — re-run `portmanager ").concat(host).concat(
                            " ...` to redeploy/update the agent",
                        ),
                    ),
                );
            }
        },
        Probe::Unexpected => {
            out.push(note("running session answered unexpectedly".to_owned()));
        },
        Probe::Absent => {
            out.push(
                note(
                    "no running local session for this host (start one with `portmanager <host> <spec>`)".to_owned(),
                ),
            );
        },
    }
    proof {
        assert(string_texts(out@) =~= start + session_notes(host@, version@, *session));
    }
}

fn put_log(out: &mut Vec<String>, log: &Result<String, String>)
    ensures
        string_texts(final(out)@) == string_texts(old(out)@) + log_lines(*log),
{
    let ghost start = string_texts(out@);
    match log {
        Ok(l) => {
            if trim(l.as_str()).is_empty() {
                out.push(note("remote agent log is empty".to_owned()));
                proof {
                    assert(string_texts(out@) =~= start + log_lines(*log));
                }
            } else {
                let list: Vec<&str> = lines(l.as_str());
                let ghost all = log_lines(*log);
                out.push(String::new());
                out.push("remote agent log (last lines):".to_owned());
                let mut i: usize = 0;
                proof {
                    assert(string_texts(out@) =~= start + all.take(2));
                }
                while i < list.len()
                    invariant
                        i <= list@.len(),
                        crate::text::texts(list@) == lines_of(l@),
                        *log == Ok::<String, String>(*l),
                        crate::text::trimmed(l@).len() > 0,
                        all == log_lines(*log),
                        string_texts(out@) == start + all.take(i + 2),
                    decreases list@.len() - i,
                {
                    let ghost before = string_texts(out@);
                    out.push(String::from_str("  ").concat(list[i]));
                    proof {
                        assert(lines_of(l@)[i as int] == list@[i as int]@);
                        assert(all[i + 2] == "  "@ + list@[i as int]@);
                        assert(string_texts(out@) =~= before.push(all[i + 2]));
                        assert(start + all.take(i + 3) =~= before.push(all[i + 2]));
                    }
                    i = i + 1;
                }
                proof {
                    assert(lines_of(l@).len() == list@.len());
                    assert(all.take(i + 2) =~= all);
                }
            }
        },
        Err(_) => {
            out.push(
                note("no remote agent log yet (agent has not run on this host)".to_owned()),
            );
            proof {
                assert(string_texts(out@) =~= start + log_lines(*log));
            }
        },
    }
}

/// The checklist, line by line, and how many of the checks that a session depends on
/// failed.
pub fn checklist(host: &str, version: &str, f: &Facts) -> (r: (Vec<String>, u32))
    ensures
        string_texts(r.0@) == checklist_of(host@, version@, *f),
        r.1 == failures_of(*f),
{
    let mut out: Vec<String> = Vec::new();
    let mut failures: u32 = 0;
    out.push(String::from_str("diagnosing ").concat(debug_str(host).as_str()));
    out.push(String::new());
    match &f.ssh_config {
        Ok(o) => {
            out.push(
                pass(
                    String::from_str("ssh config resolves ").concat(
                        debug_str(host).as_str(),
                    ).concat(" -> ").concat(ssh_hostname(o.as_str(), host).as_str()),
                ),
            );
        },
        Err(e) => {
            out.push(
                fail(
                    String::from_str("ssh -G ").concat(host).concat(" failed: ").concat(
                        e.as_str(),
                    ),
                ),
            );
            failures = failures + 1;
        },
    }
    proof {
        assert(string_texts(out@) =~= seq![
            "diagnosing "@ + debug_text(host@),
            Seq::<char>::empty(),
            config_check(host@, f.ssh_config),
        ]);
    }
    put_system(&mut out, &f.uname);
    let ghost before = string_texts(out@);
    if supported(&f.uname).is_some() {
        match &f.agent {
            Ok(path) => {
                out.push(pass(String::from_str("agent binary available: ").concat(path.as_str())));
            },
            Err(e) => {
                out.push(fail(String::from_str("no agent binary: ").concat(e.as_str())));
                failures = failures + 1;
            },
        }
        proof {
            assert(string_texts(out@) =~= before + seq![agent_check(f.agent)]);
        }
    } else {
        failures = failures + 1;
        proof {
            assert(string_texts(out@) =~= before + Seq::<Seq<char>>::empty());
        }
    }
    put_firewall(&mut out, &f.uname, &f.firewall);
    put_session(&mut out, host, version, &f.session);
    if f.ssh_config.is_ok() {
        put_log(&mut out, &f.log);
    }
    let ghost before_last = string_texts(out@);
    out.push(String::new());
    proof {
        assert(string_texts(out@) =~= before_last.push(Seq::<char>::empty()));
        assert(string_texts(out@) =~= checklist_of(host@, version@, *f));
    }
    (out, failures)
}

/// How the diagnosis ends.
pub fn verdict(failures: u32) -> (r: Result<&'static str, String>)
    ensures
        match r {
            Ok(s) => failures == 0 && s@ == "all critical checks passed"@,
            Err(e) => failures > 0 && e@ == crate::text::decimal(failures as int)
                + " critical check(s) failed"@,
        },
{
    if failures == 0 {
        Ok("all critical checks passed")
    } else {
        Err(dec(failures as u64).concat(" critical check(s) failed"))
    }
}

/// The line says that a check failed.
pub open spec fn says_failed(line: Seq<char>) -> bool {
    line.len() >= 9 && line.take(9) == "  [FAIL] "@
}

/// One where it holds, else none.
pub open spec fn one_if(b: bool) -> int {
    if b {
        1
    } else {
        0
    }
}

/// The failures are the lines that say so: of the SSH configuration, of the remote system,
/// and, where that is supported, of the agent binary. What is noted is no failure.
pub proof fn law_failures_counted(host: Seq<char>, version: Seq<char>, f: Facts)
    ensures
        ({
            let s = system_checks(f.uname);
            &&& failures_of(f) == one_if(says_failed(config_check(host, f.ssh_config))) + one_if(
                says_failed(s.last()),
            ) + one_if(is_supported(f.uname) && says_failed(agent_check(f.agent)))
            &&& s.len() == 2 ==> !says_failed(s[0])
            &&& says_failed(s.last()) <==> !is_supported(f.uname)
            &&& says_failed(config_check(host, f.ssh_config)) <==> f.ssh_config is Err
            &&& says_failed(agent_check(f.agent)) <==> f.agent is Err
            &&& forall|i: int|
                0 <= i < session_notes(host, version, f.session).len() ==> !says_failed(
                    #[trigger] session_notes(host, version, f.session)[i],
                )
            &&& forall|i: int|
                0 <= i < firewall_notes(f.uname, f.firewall).len() ==> !says_failed(
                    #[trigger] firewall_notes(f.uname, f.firewall)[i],
                )
        }),
{
    assert forall|m: Seq<char>|
        says_failed(#[trigger] failed(m)) by {
        lemma_said(m);
    }
    assert forall|m: Seq<char>|
        !says_failed(#[trigger] passed(m)) by {
        lemma_said(m);
    }
    assert forall|m: Seq<char>|
        !says_failed(#[trigger] noted(m)) by {
        lemma_said(m);
    }
}

proof fn lemma_said(m: Seq<char>)
    ensures
        says_failed(failed(m)),
        !says_failed(passed(m)),
        !says_failed(noted(m)),
{
    reveal_strlit("  [FAIL] ");
    reveal_strlit("  [ok]   ");
    reveal_strlit("  [note] ");
    assert(failed(m).take(9) =~= "  [FAIL] "@);
    assert(passed(m).take(9)[3] != "  [FAIL] "@[3]);
    assert(noted(m).take(9)[3] != "  [FAIL] "@[3]);
}

/// The checklist holds every check that was made, in the order in which they depend on each
/// other: the agent binary is looked at only where the system is supported, the firewall
/// only where the host was reached, the log only where the host is known.
pub proof fn law_checklist_holds(host: Seq<char>, version: Seq<char>, f: Facts)
    ensures
        ({
            let c = checklist_of(host, version, f);
            let s = system_checks(f.uname);
            &&& c.len() >= 4
            &&& c[2] == config_check(host, f.ssh_config)
            &&& c[3] == s[0]
            &&& s.len() == 2 ==> c[4] == s[1]
            &&& c.contains(agent_check(f.agent)) || !is_supported(f.uname)
            &&& is_supported(f.uname) ==> c[5] == agent_check(f.agent)
            &&& f.ssh_config is Err ==> c.len() == 3 + s.len() + one_if(is_supported(f.uname))
                + firewall_notes(f.uname, f.firewall).len() + session_notes(
                host,
                version,
                f.session,
            ).len() + 1
            &&& f.uname is Ok <==> firewall_notes(f.uname, f.firewall).len() == 1
            &&& f.uname is Err ==> firewall_notes(f.uname, f.firewall).len() == 0
        }),
{
    let c = checklist_of(host, version, f);
    if is_supported(f.uname) {
        assert(c[5] == agent_check(f.agent));
    }
}

/// A running session is remarked on exactly where its agent has another version than the
/// client.
pub proof fn law_version_skew(host: Seq<char>, version: Seq<char>, session: Probe)
    ensures
        session matches Probe::Running { state, agent_version, forwards } ==> (agent_version@
            == version <==> session_notes(host, version, session).len() == 1),
        session is Running <==> session_notes(host, version, session)[0].take(9) == "  [ok]   "@,
{
    reveal_strlit("  [FAIL] ");
    reveal_strlit("  [ok]   ");
    reveal_strlit("  [note] ");
    let l = session_notes(host, version, session)[0];
    match session {
        Probe::Running { state, agent_version, forwards } => {
            assert(l.take(9) =~= "  [ok]   "@);
        },
        _ => {
            assert(l.take(9)[3] == 'n');
            assert("  [ok]   "@[3] == 'o');
        },
    }
}

} // verus!
