use crate::numerals::{decimal, decimal_text, law_decimal_is_injective};
use crate::text::begins_with;
use crate::views::{group_texts, texts};
use vstd::prelude::*;

verus! {

broadcast use group_texts;

/// The local address that a tunnel listens on.
pub open spec fn bind_text(port: u16) -> Seq<char> {
    "127.0.0.1:"@ + decimal(port as nat)
}

/// The local address that a tunnel listens on.
pub fn bind_address(port: u16) -> (result: String)
    ensures
        result@ == bind_text(port),
{
    let mut out: String = "127.0.0.1:".to_owned();
    let number = decimal_text(port as u64);
    out.append(&number);
    out
}

/// The address under which an HTTP client reaches a tunnel.
pub open spec fn proxy_text(bind: Seq<char>) -> Seq<char> {
    "socks5h://"@ + bind
}

/// The address under which an HTTP client reaches a tunnel.
pub fn proxy_address(bind: &str) -> (result: String)
    ensures
        result@ == proxy_text(bind@),
{
    let mut out: String = "socks5h://".to_owned();
    out.append(bind);
    out
}

/// The arguments with which `ssh` opens a tunnel.
pub open spec fn ssh_arguments_of(bind: Seq<char>, target: Seq<char>) -> Seq<Seq<char>> {
    seq![
        "-N"@,
        "-D"@,
        bind,
        "-o"@,
        "ExitOnForwardFailure=yes"@,
        "-o"@,
        "BatchMode=yes"@,
        "-o"@,
        "ServerAliveInterval=30"@,
        "-o"@,
        "ServerAliveCountMax=3"@,
        target,
    ]
}

/// The arguments with which `ssh` opens a tunnel.
pub fn ssh_arguments(bind: &str, target: &str) -> (result: Vec<String>)
    ensures
        texts(result@) == ssh_arguments_of(bind@, target@),
{
    let mut out: Vec<String> = Vec::new();
    out.push("-N".to_owned());
    out.push("-D".to_owned());
    out.push(bind.to_owned());
    out.push("-o".to_owned());
    out.push("ExitOnForwardFailure=yes".to_owned());
    out.push("-o".to_owned());
    out.push("BatchMode=yes".to_owned());
    out.push("-o".to_owned());
    out.push("ServerAliveInterval=30".to_owned());
    out.push("-o".to_owned());
    out.push("ServerAliveCountMax=3".to_owned());
    out.push(target.to_owned());
    assert(texts(out@) =~= ssh_arguments_of(bind@, target@));
    out
}

/// What to do about a tunnel that is being opened.
#[derive(Debug)]
pub enum TunnelStep {
    /// Use it.
    Ready,
    /// Give up, with this message.
    Exited { message: String },
    /// End its process and give up, with this message.
    TimedOut { message: String },
    /// Look again after this many milliseconds.
    Wait { millis: u64 },
}

/// What is said of a tunnel whose process has ended.
pub open spec fn exited_text(target: Seq<char>, status: Seq<char>) -> Seq<char> {
    "SSH tunnel via "@ + target + " exited before it was ready: "@ + status
}

/// What is said of a tunnel that took too long.
pub open spec fn timed_out_text(target: Seq<char>, bind: Seq<char>) -> Seq<char> {
    "timed out waiting for SSH tunnel via "@ + target + " on "@ + bind
}

/// How many milliseconds a tunnel may take to open.
pub const MAX_TUNNEL_MILLIS: u128 = 15000;

/// What to do about a tunnel that is being opened: whether it could be connected to, how its
/// process has ended if it has, and how many milliseconds it has taken.
pub fn tunnel_step(
    target: &str,
    bind: &str,
    connected: bool,
    exited: &Option<String>,
    millis: u128,
) -> (result: TunnelStep)
    ensures
        match result {
            TunnelStep::Exited { message } => (*exited matches Some(status) && message@
                == exited_text(target@, status@)),
            TunnelStep::Ready => exited is None && connected,
            TunnelStep::TimedOut { message } => exited is None && !connected && millis
                >= MAX_TUNNEL_MILLIS && message@ == timed_out_text(target@, bind@),
            TunnelStep::Wait { millis: pause } => exited is None && !connected && millis
                < MAX_TUNNEL_MILLIS && pause == 100,
        },
{
    match exited {
        Some(status) => {
            let mut message: String = "SSH tunnel via ".to_owned();
            message.append(target);
            message.append(" exited before it was ready: ");
            message.append(status);
            TunnelStep::Exited { message }
        },
        None => {
            if connected {
                TunnelStep::Ready
            } else if millis >= MAX_TUNNEL_MILLIS {
                let mut message: String = "timed out waiting for SSH tunnel via ".to_owned();
                message.append(target);
                message.append(" on ");
                message.append(bind);
                TunnelStep::TimedOut { message }
            } else {
                TunnelStep::Wait { millis: 100 }
            }
        },
    }
}

/// The tunnel is bound to a port of this machine, and the proxy is found there.
pub proof fn law_tunnel_address(a: u16, b: u16)
    ensures
        begins_with(bind_text(a), "127.0.0.1:"@),
        bind_text(a) == bind_text(b) ==> a == b,
        proxy_text(bind_text(a)) == "socks5h://"@ + ("127.0.0.1:"@ + decimal(a as nat)),
{
    let head = "127.0.0.1:"@;
    assert(bind_text(a).subrange(0, head.len() as int) =~= head);
    if bind_text(a) == bind_text(b) {
        assert(decimal(a as nat) =~= bind_text(a).skip(head.len() as int));
        assert(decimal(b as nat) =~= bind_text(b).skip(head.len() as int));
        law_decimal_is_injective(a as nat, b as nat);
    }
}

/// The tunnel forwards the ports of its address and nothing else, gives up where it cannot, and ends
/// at the target.
pub proof fn law_ssh_arguments(bind: Seq<char>, target: Seq<char>)
    ensures
        ({
            let arguments = ssh_arguments_of(bind, target);
            &&& arguments[0] == "-N"@
            &&& arguments[1] == "-D"@
            &&& arguments[2] == bind
            &&& arguments.last() == target
            &&& arguments.contains("ExitOnForwardFailure=yes"@)
            &&& arguments.contains("BatchMode=yes"@)
            &&& arguments.contains("ServerAliveInterval=30"@)
            &&& arguments.contains("ServerAliveCountMax=3"@)
            &&& arguments.len() == 12
        }),
{
    let arguments = ssh_arguments_of(bind, target);
    assert(arguments[4] == "ExitOnForwardFailure=yes"@);
    assert(arguments[6] == "BatchMode=yes"@);
    assert(arguments[8] == "ServerAliveInterval=30"@);
    assert(arguments[10] == "ServerAliveCountMax=3"@);
}

/// A tunnel has fifteen seconds to come up.
pub proof fn law_tunnel_time()
    ensures
        MAX_TUNNEL_MILLIS == 15 * 1000,
{
}

} // verus!
