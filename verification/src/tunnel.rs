//! SSH local-forward tunnel: what `ssh` is asked for, and how long its forward is
//! waited for.

use crate::text::dec;
use vstd::prelude::*;

verus! {

/// The `-L` argument: the local port, forwarded to the agent's loopback port.
pub open spec fn forward_arg(local_port: int, agent_port: int) -> Seq<char> {
    "127.0.0.1:"@ + crate::text::decimal(local_port) + ":127.0.0.1:"@ + crate::text::decimal(
        agent_port,
    )
}

/// The `-L` argument: the local port, forwarded to the agent's loopback port.
pub fn forward_spec(local_port: u16, agent_port: u16) -> (r: String)
    ensures
        r@ == forward_arg(local_port as int, agent_port as int),
{
    String::from_str("127.0.0.1:").concat(dec(local_port as u64).as_str()).concat(
        ":127.0.0.1:",
    ).concat(dec(agent_port as u64).as_str())
}

/// The arguments of the long-lived `ssh` process that carries the data plane.
pub open spec fn tunnel_args_of(host: Seq<char>, local_port: int, agent_port: int) -> Seq<
    Seq<char>,
> {
    seq![
        "-o"@,
        "ConnectTimeout=10"@,
        "-o"@,
        "ExitOnForwardFailure=yes"@,
        "-o"@,
        "ServerAliveInterval=10"@,
        "-o"@,
        "ServerAliveCountMax=3"@,
        "-N"@,
        "-L"@,
        forward_arg(local_port, agent_port),
        host,
    ]
}

/// The arguments of the long-lived `ssh` process that carries the data plane: it
/// exits where the forward cannot bind, and notices a dead transport.
pub fn tunnel_args(host: &str, local_port: u16, agent_port: u16) -> (r: Vec<String>)
    ensures
        crate::client::string_texts(r@) == tunnel_args_of(
            host@,
            local_port as int,
            agent_port as int,
        ),
{
    let mut v: Vec<String> = Vec::new();
    v.push("-o".to_owned());
    v.push("ConnectTimeout=10".to_owned());
    v.push("-o".to_owned());
    v.push("ExitOnForwardFailure=yes".to_owned());
    v.push("-o".to_owned());
    v.push("ServerAliveInterval=10".to_owned());
    v.push("-o".to_owned());
    v.push("ServerAliveCountMax=3".to_owned());
    v.push("-N".to_owned());
    v.push("-L".to_owned());
    v.push(forward_spec(local_port, agent_port));
    v.push(host.to_owned());
    proof {
        assert(crate::client::string_texts(v@) =~= tunnel_args_of(
            host@,
            local_port as int,
            agent_port as int,
        ));
    }
    v
}

/// What one look at a forward that is coming up says.
#[derive(Debug, Clone, Copy, PartialEq, Eq, Structural)]
pub enum Readiness {
    /// It accepts connections.
    Ready,
    /// The process that was to serve it is gone.
    Exited,
    /// It took too long.
    TimedOut,
    /// Look again in a moment.
    Pending,
}

/// What one look at a forward that is coming up says: whether it accepted a
/// connection counts first, then whether its process is gone, then the time.
pub fn readiness(connected: bool, exited: bool, late: bool) -> (r: Readiness)
    ensures
        r == (if connected {
            Readiness::Ready
        } else if exited {
            Readiness::Exited
        } else if late {
            Readiness::TimedOut
        } else {
            Readiness::Pending
        }),
{
    if connected {
        Readiness::Ready
    } else if exited {
        Readiness::Exited
    } else if late {
        Readiness::TimedOut
    } else {
        Readiness::Pending
    }
}

/// The forward goes from a loopback port to a loopback port, the local one first.
pub proof fn law_forward_ends(local_port: int, agent_port: int)
    requires
        0 <= local_port <= 65535,
        0 <= agent_port <= 65535,
    ensures
        crate::text::pieces(forward_arg(local_port, agent_port), ':') == seq![
            "127.0.0.1"@,
            crate::text::decimal(local_port),
            "127.0.0.1"@,
            crate::text::decimal(agent_port),
        ],
{
    reveal_strlit("127.0.0.1:");
    reveal_strlit(":127.0.0.1:");
    reveal_strlit("127.0.0.1");
    let h = "127.0.0.1"@;
    let a = crate::text::decimal(local_port);
    let b = crate::text::decimal(agent_port);
    crate::text::lemma_decimal_digits(local_port);
    crate::text::lemma_decimal_digits(agent_port);
    assert(!a.contains(':')) by {
        assert forall|i: int| 0 <= i < a.len() implies a[i] != ':' by {
            assert(crate::text::is_digit(a[i]));
        }
    }
    assert(!b.contains(':')) by {
        assert forall|i: int| 0 <= i < b.len() implies b[i] != ':' by {
            assert(crate::text::is_digit(b[i]));
        }
    }
    crate::text::lemma_pieces_single(h, ':');
    crate::text::lemma_pieces_single(a, ':');
    crate::text::lemma_pieces_single(b, ':');
    crate::text::lemma_pieces_join(h, ':', a);
    crate::text::lemma_pieces_join(h + seq![':'] + a, ':', h);
    crate::text::lemma_pieces_join(h + seq![':'] + a + seq![':'] + h, ':', b);
    assert(forward_arg(local_port, agent_port) =~= h + seq![':'] + a + seq![':'] + h + seq![':'] + b);
    assert(crate::text::pieces(forward_arg(local_port, agent_port), ':') =~= seq![h, a, h, b]);
}

/// The tunnel asks for the forward behind `-L`, runs no command, gives up where the forward
/// cannot bind, and names the host last.
pub proof fn law_tunnel_asks(host: Seq<char>, local_port: int, agent_port: int)
    ensures
        ({
            let v = tunnel_args_of(host, local_port, agent_port);
            &&& v.last() == host
            &&& exists|i: int|
                0 <= i < v.len() - 1 && v[i] == "-L"@ && #[trigger] v[i + 1] == forward_arg(
                    local_port,
                    agent_port,
                )
            &&& v.contains("-N"@)
            &&& v.contains("ExitOnForwardFailure=yes"@)
        }),
{
    let v = tunnel_args_of(host, local_port, agent_port);
    let at: int = 9;
    assert(v[at + 1] == forward_arg(local_port, agent_port));
    assert(v[8] == "-N"@);
    assert(v[3] == "ExitOnForwardFailure=yes"@);
}

} // verus!
