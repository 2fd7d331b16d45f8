//! Diagnose blocked inbound UDP, the most common confusing setup failure.
//!
//! The QUIC data channel needs the agent's UDP port reachable from the client.
//! Over the SSH channel the active host firewall is detected, and the advisory
//! gives the exact command that opens the port. The remote firewall is never
//! changed.

use crate::text::{contains_line, dec};
use vstd::prelude::*;

verus! {

/// The port (or range) to advise opening, rendered per firewall syntax.
#[derive(Debug, Clone, Copy, PartialEq, Eq, Structural)]
pub enum AdvisePort {
    Single(u16),
    Range(u16, u16),
}

impl AdvisePort {
    /// The port, or the two ends of the range with `sep` between them.
    pub open spec fn text(self, sep: Seq<char>) -> Seq<char> {
        match self {
            AdvisePort::Single(p) => crate::text::decimal(p as int),
            AdvisePort::Range(a, b) => crate::text::decimal(a as int) + sep + crate::text::decimal(
                b as int,
            ),
        }
    }

    fn show(&self, sep: &str) -> (r: String)
        ensures
            r@ == self.text(sep@),
    {
        match self {
            AdvisePort::Single(p) => dec(*p as u64),
            AdvisePort::Range(a, b) => dec(*a as u64).concat(sep).concat(dec(*b as u64).as_str()),
        }
    }

    /// Human description, e.g. `UDP 60000-61000`.
    pub fn human(&self) -> (r: String)
        ensures
            r@ == "UDP "@ + self.text("-"@),
    {
        String::from_str("UDP ").concat(self.show("-").as_str())
    }

    /// Range syntax of `ufw` and `iptables`: `60000:61000`.
    pub fn colon(&self) -> (r: String)
        ensures
            r@ == self.text(":"@),
    {
        self.show(":")
    }

    /// Range syntax of `firewalld` and `nft`: `60000-61000`.
    pub fn dash(&self) -> (r: String)
        ensures
            r@ == self.text("-"@),
    {
        self.show("-")
    }
}

/// A detected, active host firewall front-end.
#[derive(Debug, Clone, Copy, PartialEq, Eq, Structural)]
pub enum Firewall {
    Ufw,
    Firewalld,
    Nftables,
    Iptables,
}

impl Firewall {
    /// The command that opens `port` for inbound UDP under this firewall.
    pub open spec fn command(self, port: AdvisePort) -> Seq<char> {
        match self {
            Firewall::Ufw => "sudo ufw allow "@ + port.text(":"@) + "/udp"@,
            Firewall::Firewalld => "sudo firewall-cmd --permanent --add-port="@ + port.text("-"@)
                + "/udp && sudo firewall-cmd --reload"@,
            Firewall::Nftables => "sudo nft add rule inet filter input udp dport "@ + port.text(
                "-"@,
            )
                + " accept  # table/chain names may differ; check `sudo nft list ruleset`"@,
            Firewall::Iptables => "sudo iptables -A INPUT -p udp --dport "@ + port.text(":"@)
                + " -j ACCEPT  # then persist (e.g. netfilter-persistent save)"@,
        }
    }

    /// The name of the firewall.
    pub open spec fn name(self) -> Seq<char> {
        match self {
            Firewall::Ufw => "ufw"@,
            Firewall::Firewalld => "firewalld"@,
            Firewall::Nftables => "nftables"@,
            Firewall::Iptables => "iptables"@,
        }
    }

    /// The command that opens `port` for inbound UDP under this firewall.
    pub fn open_command(&self, port: &AdvisePort) -> (r: String)
        ensures
            r@ == self.command(*port),
    {
        match self {
            Firewall::Ufw => String::from_str("sudo ufw allow ").concat(
                port.colon().as_str(),
            ).concat("/udp"),
            Firewall::Firewalld => String::from_str(
                "sudo firewall-cmd --permanent --add-port=",
            ).concat(port.dash().as_str()).concat("/udp && sudo firewall-cmd --reload"),
            Firewall::Nftables => String::from_str(
                "sudo nft add rule inet filter input udp dport ",
            ).concat(port.dash().as_str()).concat(
                " accept  # table/chain names may differ; check `sudo nft list ruleset`",
            ),
            Firewall::Iptables => String::from_str(
                "sudo iptables -A INPUT -p udp --dport ",
            ).concat(port.colon().as_str()).concat(
                " -j ACCEPT  # then persist (e.g. netfilter-persistent save)",
            ),
        }
    }

    /// The name of the firewall.
    pub fn label(&self) -> (r: &'static str)
        ensures
            r@ == self.name(),
    {
        match self {
            Firewall::Ufw => "ufw",
            Firewall::Firewalld => "firewalld",
            Firewall::Nftables => "nftables",
            Firewall::Iptables => "iptables",
        }
    }
}

/// The note on firewalls that the host does not see.
pub open spec fn cloud_note() -> Seq<char> {
    "Cloud security groups / network ACLs (AWS, GCP, Azure, …) are separate and must be opened there too — they can't be seen or changed from inside the host."@
}

fn cloud() -> (r: &'static str)
    ensures
        r@ == cloud_note(),
{
    "Cloud security groups / network ACLs (AWS, GCP, Azure, …) are separate and must be opened there too — they can't be seen or changed from inside the host."
}

/// The advisory for a detected firewall, or for none.
pub open spec fn advice(chosen: Option<Firewall>, port: AdvisePort) -> Seq<char> {
    let human = "UDP "@ + port.text("-"@);
    match chosen {
        Some(fw) => "Active host firewall: "@ + fw.name() + ". To allow "@ + human
            + " on the remote, run there:\n    "@ + fw.command(port) + "\n"@ + cloud_note(),
        None => "No active host firewall detected. If "@ + human
            + " is blocked, it is most likely a cloud security group / network ACL — open it there.\n"@
            + cloud_note(),
    }
}

/// Builds a neutral advisory: which firewall is active and how to open `port`.
/// `chosen` is the highest-level active firewall, or `None` if none was detected.
pub fn advisory(chosen: Option<Firewall>, port: &AdvisePort) -> (r: String)
    ensures
        r@ == advice(chosen, *port),
{
    match chosen {
        Some(fw) => String::from_str("Active host firewall: ").concat(fw.label()).concat(
            ". To allow ",
        ).concat(port.human().as_str()).concat(" on the remote, run there:\n    ").concat(
            fw.open_command(port).as_str(),
        ).concat("\n").concat(cloud()),
        None => String::from_str("No active host firewall detected. If ").concat(
            port.human().as_str(),
        ).concat(
            " is blocked, it is most likely a cloud security group / network ACL — open it there.\n",
        ).concat(cloud()),
    }
}

/// The firewall that the probe's markers point at: the front-end that manages the
/// lower layers before what it manages.
pub open spec fn chosen_of(markers: Seq<char>) -> Option<Firewall> {
    if crate::text::has_line(markers, "active:ufw"@) {
        Some(Firewall::Ufw)
    } else if crate::text::has_line(markers, "active:firewalld"@) {
        Some(Firewall::Firewalld)
    } else if crate::text::has_line(markers, "active:nftables"@) {
        Some(Firewall::Nftables)
    } else if crate::text::has_line(markers, "have:iptables"@) {
        Some(Firewall::Iptables)
    } else if crate::text::has_line(markers, "have:nft"@) {
        Some(Firewall::Nftables)
    } else {
        None
    }
}

/// Reads the probe's markers, one per line, into the highest-priority active
/// firewall.
pub fn select_firewall(markers: &str) -> (r: Option<Firewall>)
    ensures
        r == chosen_of(markers@),
{
    if contains_line(markers, "active:ufw") {
        Some(Firewall::Ufw)
    } else if contains_line(markers, "active:firewalld") {
        Some(Firewall::Firewalld)
    } else if contains_line(markers, "active:nftables") {
        Some(Firewall::Nftables)
    } else if contains_line(markers, "have:iptables") {
        Some(Firewall::Iptables)
    } else if contains_line(markers, "have:nft") {
        Some(Firewall::Nftables)
    } else {
        None
    }
}

/// Root-free firewall probe fed to the remote `sh` over SSH; it prints one marker
/// per line.
pub fn detect_script() -> (r: &'static str)
    ensures
        r@ == "\nfor s in ufw firewalld nftables; do\n  systemctl is-active --quiet \"$s\" 2>/dev/null && echo \"active:$s\"\ndone\ncommand -v nft >/dev/null 2>&1 && echo \"have:nft\"\ncommand -v iptables >/dev/null 2>&1 && echo \"have:iptables\"\n"@,
{
    "\nfor s in ufw firewalld nftables; do\n  systemctl is-active --quiet \"$s\" 2>/dev/null && echo \"active:$s\"\ndone\ncommand -v nft >/dev/null 2>&1 && echo \"have:nft\"\ncommand -v iptables >/dev/null 2>&1 && echo \"have:iptables\"\n"
}

/// What is said of the firewall of a host, from what the probe printed; a generic hint
/// where the probe could not run.
pub open spec fn diagnosis(markers: Option<Seq<char>>, port: AdvisePort) -> Seq<char> {
    match markers {
        Some(m) => advice(chosen_of(m), port),
        None => "Could not inspect the remote firewall. Ensure "@ + ("UDP "@ + port.text("-"@))
            + " is allowed inbound (host firewall and any cloud security group)."@,
    }
}

/// A printable advisory for opening `port`, from what the probe printed; a generic
/// hint where the probe could not run.
pub fn diagnose(markers: Option<&str>, port: &AdvisePort) -> (r: String)
    ensures
        r@ == diagnosis(
            match markers {
                Some(m) => Some(m@),
                None => None,
            },
            *port,
        ),
{
    match markers {
        Some(m) => advisory(select_firewall(m), port),
        None => String::from_str("Could not inspect the remote firewall. Ensure ").concat(
            port.human().as_str(),
        ).concat(" is allowed inbound (host firewall and any cloud security group)."),
    }
}

/// What is said when the agent on `host` does not answer on its UDP port: what to open,
/// and the two ways round it.
pub fn udp_failure_message(host: &str, markers: Option<&str>, port: &AdvisePort) -> (r: String)
    ensures
        r@ == "could not reach the agent on "@ + host@ + " over "@ + ("UDP "@ + port.text("-"@))
            + ".\n"@ + diagnosis(
            match markers {
                Some(m) => Some(m@),
                None => None,
            },
            *port,
        )
            + "\nOr name a port that is open with --remote-udp 0.0.0.0:PORT, or carry the data over SSH with --via-ssh."@,
{
    String::from_str("could not reach the agent on ").concat(host).concat(" over ").concat(
        port.human().as_str(),
    ).concat(".\n").concat(diagnose(markers, port).as_str()).concat(
        "\nOr name a port that is open with --remote-udp 0.0.0.0:PORT, or carry the data over SSH with --via-ssh.",
    )
}

/// A firewall is named only where the probe found it: as an active one, or else as a tool
/// that is there. One is named wherever there is a marker for one.
pub proof fn law_firewall_was_found(m: Seq<char>)
    ensures
        chosen_of(m) matches Some(fw) ==> crate::text::has_line(m, "active:"@ + fw.name()) || (fw
            == Firewall::Iptables && crate::text::has_line(m, "have:iptables"@)) || (fw
            == Firewall::Nftables && crate::text::has_line(m, "have:nft"@)),
        chosen_of(m) is None ==> forall|fw: Firewall| #![trigger fw.name()]
            fw != Firewall::Iptables ==> !crate::text::has_line(m, "active:"@ + fw.name()),
        chosen_of(m) is None ==> !crate::text::has_line(m, "have:iptables"@)
            && !crate::text::has_line(m, "have:nft"@),
{
    reveal_strlit("active:");
    reveal_strlit("active:ufw");
    reveal_strlit("active:firewalld");
    reveal_strlit("active:nftables");
    reveal_strlit("ufw");
    reveal_strlit("firewalld");
    reveal_strlit("nftables");
    assert("active:"@ + "ufw"@ =~= "active:ufw"@);
    assert("active:"@ + "firewalld"@ =~= "active:firewalld"@);
    assert("active:"@ + "nftables"@ =~= "active:nftables"@);
    assert forall|fw: Firewall| #![trigger fw.name()]
        chosen_of(m) is None && fw != Firewall::Iptables implies !crate::text::has_line(
        m,
        "active:"@ + fw.name(),
    ) by {
        match fw {
            Firewall::Ufw => {},
            Firewall::Firewalld => {},
            Firewall::Nftables => {},
            Firewall::Iptables => {},
        }
    }
}

/// A front-end that manages others goes before them: `ufw` before all, `firewalld` before
/// `nftables`, and one that is active before a tool that is only there.
pub proof fn law_front_end_first(m: Seq<char>)
    ensures
        crate::text::has_line(m, "active:ufw"@) <==> chosen_of(m) == Some(Firewall::Ufw),
        chosen_of(m) == Some(Firewall::Firewalld) <==> crate::text::has_line(
            m,
            "active:firewalld"@,
        ) && !crate::text::has_line(m, "active:ufw"@),
        chosen_of(m) == Some(Firewall::Iptables) ==> !crate::text::has_line(m, "active:ufw"@)
            && !crate::text::has_line(m, "active:firewalld"@) && !crate::text::has_line(
            m,
            "active:nftables"@,
        ),
        crate::text::has_line(m, "active:nftables"@) ==> chosen_of(m) is Some && chosen_of(m)
            != Some(Firewall::Iptables),
{
}

proof fn lemma_part_between(a: Seq<char>, b: Seq<char>, c: Seq<char>)
    ensures
        crate::text::has_part(a + b + c, b),
{
    let s = a + b + c;
    let at: int = a.len() as int;
    assert(s.subrange(at, at + b.len()) =~= b);
    assert(crate::text::occurs_at(s, b, at));
}

/// Every command opens the very port it is asked to, for UDP; a range by its two ends, with
/// the sign between them that the firewall reads.
pub proof fn law_command_opens(fw: Firewall, p: u16, a: u16, b: u16)
    ensures
        crate::text::has_part(
            fw.command(AdvisePort::Single(p)),
            crate::text::decimal(p as int),
        ),
        crate::text::has_part(
            fw.command(AdvisePort::Range(a, b)),
            crate::text::decimal(a as int) + (if fw == Firewall::Ufw || fw == Firewall::Iptables {
                ":"@
            } else {
                "-"@
            }) + crate::text::decimal(b as int),
        ),
        crate::text::has_part(fw.command(AdvisePort::Single(p)), "udp"@),
        crate::text::has_part(fw.command(AdvisePort::Range(a, b)), "udp"@),
{
    lemma_command_parts(fw, AdvisePort::Single(p));
    lemma_command_parts(fw, AdvisePort::Range(a, b));
}

proof fn lemma_command_parts(fw: Firewall, port: AdvisePort)
    ensures
        crate::text::has_part(
            fw.command(port),
            port.text(
                if fw == Firewall::Ufw || fw == Firewall::Iptables {
                    ":"@
                } else {
                    "-"@
                },
            ),
        ),
        crate::text::has_part(fw.command(port), "udp"@),
{
    reveal_strlit("udp");
    reveal_strlit("/udp");
    reveal_strlit("/udp && sudo firewall-cmd --reload");
    reveal_strlit("sudo nft add rule inet filter input udp dport ");
    reveal_strlit("sudo iptables -A INPUT -p udp --dport ");
    match fw {
        Firewall::Ufw => {
            let t = port.text(":"@);
            lemma_part_between("sudo ufw allow "@, t, "/udp"@);
            assert(fw.command(port) =~= ("sudo ufw allow "@ + t + "/"@) + "udp"@ + Seq::empty()) by {
                reveal_strlit("/");
                assert("/udp"@ =~= "/"@ + "udp"@);
            }
            lemma_part_between("sudo ufw allow "@ + t + "/"@, "udp"@, Seq::empty());
        },
        Firewall::Firewalld => {
            let t = port.text("-"@);
            let head = "sudo firewall-cmd --permanent --add-port="@;
            let tail = "/udp && sudo firewall-cmd --reload"@;
            lemma_part_between(head, t, tail);
            assert(tail.subrange(1, 4) =~= "udp"@);
            assert(fw.command(port) =~= (head + t + tail.take(1)) + tail.subrange(1, 4)
                + tail.skip(4));
            lemma_part_between(head + t + tail.take(1), "udp"@, tail.skip(4));
        },
        Firewall::Nftables => {
            let t = port.text("-"@);
            let head = "sudo nft add rule inet filter input udp dport "@;
            let tail = " accept  # table/chain names may differ; check `sudo nft list ruleset`"@;
            lemma_part_between(head, t, tail);
            assert(head.subrange(36, 39) =~= "udp"@);
            assert(fw.command(port) =~= head.take(36) + head.subrange(36, 39) + (head.skip(39) + t
                + tail));
            lemma_part_between(head.take(36), "udp"@, head.skip(39) + t + tail);
        },
        Firewall::Iptables => {
            let t = port.text(":"@);
            let head = "sudo iptables -A INPUT -p udp --dport "@;
            let tail = " -j ACCEPT  # then persist (e.g. netfilter-persistent save)"@;
            lemma_part_between(head, t, tail);
            assert(head.subrange(26, 29) =~= "udp"@);
            assert(fw.command(port) =~= head.take(26) + head.subrange(26, 29) + (head.skip(29) + t
                + tail));
            lemma_part_between(head.take(26), "udp"@, head.skip(29) + t + tail);
        },
    }
}

/// An advisory names the firewall and gives the command for it; every one names the port,
/// and says that a cloud has firewalls of its own.
pub proof fn law_advice(fw: Firewall, port: AdvisePort)
    ensures
        crate::text::has_part(advice(Some(fw), port), fw.command(port)),
        crate::text::has_part(advice(Some(fw), port), fw.name()),
        crate::text::has_part(advice(Some(fw), port), "UDP "@ + port.text("-"@)),
        crate::text::has_part(advice(None, port), "UDP "@ + port.text("-"@)),
        crate::text::has_part(advice(Some(fw), port), cloud_note()),
        crate::text::has_part(advice(None, port), cloud_note()),
        crate::text::has_part(diagnosis(None, port), "UDP "@ + port.text("-"@)),
{
    let human = "UDP "@ + port.text("-"@);
    let s1 = "Active host firewall: "@;
    let s2 = ". To allow "@;
    let s3 = " on the remote, run there:\n    "@;
    let t = advice(Some(fw), port);
    lemma_part_between(s1, fw.name(), s2 + human + s3 + fw.command(port) + "\n"@ + cloud_note());
    assert(t =~= s1 + fw.name() + (s2 + human + s3 + fw.command(port) + "\n"@ + cloud_note()));
    lemma_part_between(s1 + fw.name() + s2, human, s3 + fw.command(port) + "\n"@ + cloud_note());
    assert(t =~= (s1 + fw.name() + s2) + human + (s3 + fw.command(port) + "\n"@ + cloud_note()));
    lemma_part_between(s1 + fw.name() + s2 + human + s3, fw.command(port), "\n"@ + cloud_note());
    assert(t =~= (s1 + fw.name() + s2 + human + s3) + fw.command(port) + ("\n"@ + cloud_note()));
    lemma_part_between(
        s1 + fw.name() + s2 + human + s3 + fw.command(port) + "\n"@,
        cloud_note(),
        Seq::empty(),
    );
    assert(t =~= (s1 + fw.name() + s2 + human + s3 + fw.command(port) + "\n"@) + cloud_note()
        + Seq::empty());
    let n1 = "No active host firewall detected. If "@;
    let n2 =
        " is blocked, it is most likely a cloud security group / network ACL — open it there.\n"@;
    let u = advice(None, port);
    lemma_part_between(n1, human, n2 + cloud_note());
    assert(u =~= n1 + human + (n2 + cloud_note()));
    lemma_part_between(n1 + human + n2, cloud_note(), Seq::empty());
    assert(u =~= (n1 + human + n2) + cloud_note() + Seq::empty());
    lemma_part_between(
        "Could not inspect the remote firewall. Ensure "@,
        human,
        " is allowed inbound (host firewall and any cloud security group)."@,
    );
}

} // verus!
