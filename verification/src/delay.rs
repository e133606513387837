//! The delay test of a single address: what is sent where, and what the outcome is.

use vstd::prelude::*;

use crate::digits::{decimal, decimal_text};
use crate::settings::{parse_url, parsed_url, reply_view, UrlParts, UrlView};
use crate::text::same_text;

verus! {

/// The delay that stands for a test that took too long.
pub const DELAY_TIMEOUT: u32 = 10_000;

/// How a delay test is carried out.
#[derive(Debug)]
pub struct DelayPlan {
    /// Whether a TLS handshake is measured; otherwise the round trip of a request.
    pub https: bool,
    /// The host whose name the handshake checks.
    pub host: String,
    /// Where to connect to.
    pub address: String,
    /// What to send first; before a handshake it opens a tunnel.
    pub request: Option<String>,
}

/// What a plan stands for.
pub struct DelayPlanView {
    pub https: bool,
    pub host: Seq<char>,
    pub address: Seq<char>,
    pub request: Option<Seq<char>>,
}

impl View for DelayPlan {
    type V = DelayPlanView;

    open spec fn view(&self) -> DelayPlanView {
        DelayPlanView {
            https: self.https,
            host: self.host@,
            address: self.address@,
            request: match self.request {
                Some(request) => Some(request@),
                None => None,
            },
        }
    }
}

/// Why an address cannot be tested.
#[derive(Debug)]
pub enum DelayRefusal {
    /// The address cannot be parsed.
    Unparsable { reason: String },
    /// The address has no host.
    NoHost,
}

impl DelayRefusal {
    /// The text of the refusal.
    pub fn message(&self) -> (text: String)
        ensures
            text@ == match self {
                DelayRefusal::Unparsable { reason } => reason@,
                DelayRefusal::NoHost => "Invalid URL: no host"@,
            },
    {
        match self {
            DelayRefusal::Unparsable { reason } => reason.clone(),
            DelayRefusal::NoHost => "Invalid URL: no host".to_owned(),
        }
    }
}

/// Whether requests go through the local proxy.
pub fn uses_proxy(system_proxy: Option<bool>, tun_mode: Option<bool>) -> (result: bool)
    ensures
        result == (system_proxy == Some(true) || tun_mode == Some(true)),
{
    let system: bool = match system_proxy {
        Some(enabled) => enabled,
        None => false,
    };
    let tun: bool = match tun_mode {
        Some(enabled) => enabled,
        None => false,
    };
    system || tun
}

/// A host and a port.
pub open spec fn host_port(host: Seq<char>, port: u16) -> Seq<char> {
    host + ":"@ + decimal(port as nat)
}

fn join_host_port(host: &str, port: u16) -> (text: String)
    ensures
        text@ == host_port(host@, port),
{
    host.to_owned().concat(":").concat(decimal_text(port as u64).as_str())
}

/// The plan of a delay test, given the parts of the address and the port of the local proxy.
pub open spec fn delay_plan(
    url: Seq<char>,
    scheme: Seq<char>,
    host: Seq<char>,
    port: Option<u16>,
    proxy_port: Option<u16>,
) -> DelayPlanView {
    let https = scheme == "https"@;
    let target = host_port(
        host,
        match port {
            Some(port) => port,
            None => if https {
                443
            } else {
                80
            },
        },
    );
    DelayPlanView {
        https,
        host,
        address: match proxy_port {
            Some(proxy_port) => host_port("127.0.0.1"@, proxy_port),
            None => target,
        },
        request: match (https, proxy_port) {
            (true, Some(_)) => Some(
                "CONNECT "@ + target + " HTTP/1.1\r\nHost: "@ + target + "\r\n\r\n"@,
            ),
            (true, None) => None,
            (false, Some(_)) => Some(
                "HEAD "@ + url + " HTTP/1.1\r\nHost: "@ + host + "\r\nConnection: close\r\n\r\n"@,
            ),
            (false, None) => Some(
                "HEAD / HTTP/1.1\r\nHost: "@ + host + "\r\nConnection: close\r\n\r\n"@,
            ),
        },
    }
}

/// Plans a delay test, given what parsing made of the address.
pub fn plan_parsed_delay(url: &str, reply: Result<UrlParts, String>, proxy_port: Option<u16>) -> (result: Result<
    DelayPlan,
    DelayRefusal,
>)
    ensures
        planned_delay(result, url@, reply_view(reply), proxy_port),
{
    let parts = match reply {
        Ok(parts) => parts,
        Err(reason) => return Err(DelayRefusal::Unparsable { reason }),
    };
    let host = match parts.host {
        Some(host) => host,
        None => return Err(DelayRefusal::NoHost),
    };
    let https: bool = same_text(parts.scheme.as_str(), "https");
    let port: u16 = match parts.port {
        Some(port) => port,
        None => if https {
            443
        } else {
            80
        },
    };
    let target = join_host_port(host.as_str(), port);
    let request: Option<String> = match proxy_port {
        Some(_) => if https {
            Some(
                "CONNECT ".to_owned().concat(target.as_str()).concat(" HTTP/1.1\r\nHost: ").concat(
                    target.as_str(),
                ).concat("\r\n\r\n"),
            )
        } else {
            Some(
                "HEAD ".to_owned().concat(url).concat(" HTTP/1.1\r\nHost: ").concat(host.as_str()).concat(
                    "\r\nConnection: close\r\n\r\n",
                ),
            )
        },
        None => if https {
            None
        } else {
            Some(
                "HEAD / HTTP/1.1\r\nHost: ".to_owned().concat(host.as_str()).concat(
                    "\r\nConnection: close\r\n\r\n",
                ),
            )
        },
    };
    let address: String = match proxy_port {
        Some(proxy_port) => join_host_port("127.0.0.1", proxy_port),
        None => target,
    };
    Ok(DelayPlan { https, host, address, request })
}

/// Whether a plan is the one for an address that was parsed.
pub open spec fn planned_delay(
    result: Result<DelayPlan, DelayRefusal>,
    url: Seq<char>,
    reply: Result<UrlView, Seq<char>>,
    proxy_port: Option<u16>,
) -> bool {
    match (result, reply) {
        (Err(refusal), Err(reason)) => refusal is Unparsable && refusal->Unparsable_reason@ == reason,
        (Err(refusal), Ok(parts)) => parts.1 is None && refusal is NoHost,
        (Ok(plan), Ok(parts)) => parts.1 is Some && plan@ == delay_plan(
            url,
            parts.0,
            parts.1->0,
            parts.2,
            proxy_port,
        ),
        (Ok(_), Err(_)) => false,
    }
}

/// Plans a delay test of an address.
pub fn plan_delay(url: &str, proxy_port: Option<u16>) -> (result: Result<DelayPlan, DelayRefusal>)
    ensures
        planned_delay(result, url@, parsed_url(url@), proxy_port),
{
    plan_parsed_delay(url, parse_url(url), proxy_port)
}

/// Whether the code 200 stands somewhere in a reply.
pub open spec fn opens_tunnel(reply: Seq<u8>) -> bool {
    exists|i: int|
        0 <= i && i + 2 < reply.len() && #[trigger] reply[i] == 50 && reply[i + 1] == 48 && reply[i + 2] == 48
}

/// Whether the local proxy opened a tunnel.
pub fn tunnel_opened(reply: &[u8]) -> (opened: bool)
    ensures
        opened == opens_tunnel(reply@),
{
    let mut i: usize = 0;
    while i < reply.len() && reply.len() - i > 2
        invariant
            i <= reply.len(),
            forall|k: int|
                0 <= k < i && k + 2 < reply@.len() ==> !(#[trigger] reply@[k] == 50 && reply@[k + 1] == 48
                    && reply@[k + 2] == 48),
        decreases reply.len() - i,
    {
        if reply[i] == 50 && reply[i + 1] == 48 && reply[i + 2] == 48 {
            assert(reply@[i as int] == 50);
            return true;
        }
        i += 1;
    }
    false
}

/// The delay that is reported for a number of milliseconds: its low 32 bits, but never zero, which
/// stands for no answer.
pub fn reported_delay(elapsed_ms: u64) -> (delay: u32)
    ensures
        delay == if elapsed_ms as int % 0x1_0000_0000 == 0 {
            1
        } else {
            elapsed_ms as int % 0x1_0000_0000
        },
{
    let low: u64 = elapsed_ms % 0x1_0000_0000;
    if low == 0 {
        1
    } else {
        low as u32
    }
}

} // verus!
