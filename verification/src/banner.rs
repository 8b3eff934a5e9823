//! The text printed when the server starts.

use vstd::prelude::*;
use crate::content::{decimal, push_decimal};
use crate::text::append_str;

verus! {

/// The address of the server on this machine.
pub open spec fn local_url(port: u16) -> Seq<char> {
    "http://localhost:"@ + decimal(port as nat)
}

/// The address of the server on the network: on the machine's network
/// address, `127.0.0.1` where it has none.
pub open spec fn network_url(ip: Option<Seq<char>>, port: u16) -> Seq<char> {
    let host = match ip {
        Some(a) => a,
        None => "127.0.0.1"@,
    };
    "http://"@ + host + ":"@ + decimal(port as nat)
}

/// An empty banner line.
pub open spec fn blank_line() -> Seq<char> {
    "                                                         "@
}

/// The lines of the start banner, before the QR code of the network address.
/// The clipboard line appears where the local address was copied.
pub open spec fn banner_lines(port: u16, ip: Option<Seq<char>>, copied: bool) -> Seq<Seq<char>> {
    seq![
        blank_line(),
        "   Serving!                                              "@,
        blank_line(),
        "   - Local:            "@ + local_url(port) + "             "@,
        "   - On Your Network:  "@ + network_url(ip, port) + "          "@,
        blank_line(),
    ] + (if copied {
        seq!["   Copied local address to clipboard!"@ + "                    "@, blank_line()]
    } else {
        Seq::empty()
    }) + seq![""@, "Sacan QR Code"@]
}

/// The address of the server on this machine.
pub fn local_address(port: u16) -> (r: String)
    ensures
        r@ == local_url(port),
{
    let mut r = String::new();
    append_str(&mut r, "http://localhost:");
    push_decimal(&mut r, port as usize);
    r
}

/// The address of the server on the network, from the machine's network
/// address (`None` where it has none).
pub fn network_address(ip: &Option<String>, port: u16) -> (r: String)
    ensures
        r@ == network_url(match ip { Some(a) => Some(a@), None => None }, port),
{
    let mut r = String::new();
    append_str(&mut r, "http://");
    match ip {
        Some(a) => append_str(&mut r, a.as_str()),
        None => append_str(&mut r, "127.0.0.1"),
    }
    append_str(&mut r, ":");
    push_decimal(&mut r, port as usize);
    r
}

fn line(prefix: &str, middle: &String, suffix: &str) -> (r: String)
    ensures
        r@ == prefix@ + middle@ + suffix@,
{
    let mut r = String::new();
    append_str(&mut r, prefix);
    append_str(&mut r, middle.as_str());
    append_str(&mut r, suffix);
    r
}

/// The lines of the start banner for `port`, the machine's network address
/// `ip`, and whether the local address was `copied` to the clipboard.
pub fn banner(port: u16, ip: &Option<String>, copied: bool) -> (r: Vec<String>)
    ensures
        r@.map_values(|s: String| s@) == banner_lines(port, match ip { Some(a) => Some(a@), None => None }, copied),
{
    let local = local_address(port);
    let network = network_address(ip, port);
    let mut r: Vec<String> = Vec::new();
    r.push("                                                         ".to_string());
    r.push("   Serving!                                              ".to_string());
    r.push("                                                         ".to_string());
    r.push(line("   - Local:            ", &local, "             "));
    r.push(line("   - On Your Network:  ", &network, "          "));
    r.push("                                                         ".to_string());
    if copied {
        r.push(line("   Copied local address to clipboard!", &String::new(), "                    "));
        r.push("                                                         ".to_string());
    }
    r.push("".to_string());
    r.push("Sacan QR Code".to_string());
    assert(r@.map_values(|s: String| s@) =~= banner_lines(
        port,
        match ip { Some(a) => Some(a@), None => None },
        copied,
    ));
    r
}

} // verus!
