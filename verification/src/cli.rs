//! The command line: its options, the address the server listens on, and
//! the state every request is answered with.

use vstd::prelude::*;
use crate::config::{Config, ConfigFormat};
use crate::content::{decimal, push_decimal};
use crate::text::{code_point, append_str, chars_of, vec_contains, vec_eq};

verus! {

/// The command line options.
#[derive(Debug, Clone)]
pub struct Args {
    /// Path to the directory to serve (default `.`).
    pub path: String,
    /// Address/port tuple string to listen to.
    pub listen: Option<String>,
    /// Explicit port mapping.
    pub port: Option<u16>,
    /// Single Page Application fallback.
    pub single: bool,
    /// Path to a custom configuration file.
    pub config: Option<String>,
    /// Enable verbose log outputs.
    pub debug: bool,
    /// Prevent copying the local address to the clipboard.
    pub no_clipboard: bool,
    /// Initialize a configuration file (json, yaml, toml).
    pub init: Option<String>,
}

/// What every request is answered with: the configuration and the served
/// directory.
#[derive(Debug, Clone)]
pub struct AppState {
    pub config: Config,
    pub base_path: String,
}

/// `c` is an ASCII decimal digit.
pub open spec fn is_digit(c: char) -> bool {
    48 <= (c as int) <= 57
}

/// The number written by the decimal digits `s`.
pub open spec fn digits_value(s: Seq<char>) -> int
    decreases s.len(),
{
    if s.len() == 0 {
        0
    } else {
        digits_value(s.drop_last()) * 10 + ((s.last() as int) - 48)
    }
}

/// What `str::parse::<u16>` gives for `s`: an optional `+` followed by at
/// least one decimal digit, whose value fits in 16 bits.
pub open spec fn parse_u16(s: Seq<char>) -> Option<u16> {
    digits_u16(unsigned_digits(s))
}

/// `s` without a leading `+`.
pub open spec fn unsigned_digits(s: Seq<char>) -> Seq<char> {
    if s.len() > 0 && s[0] == '+' {
        s.drop_first()
    } else {
        s
    }
}

/// Every character of `d` is a decimal digit.
pub open spec fn all_digits(d: Seq<char>) -> bool {
    forall|i: int| 0 <= i < d.len() ==> is_digit(#[trigger] d[i])
}

/// The 16-bit number that the digits `d` write, if they are at least one
/// digit and the number fits.
pub open spec fn digits_u16(d: Seq<char>) -> Option<u16> {
    if d.len() > 0 && all_digits(d) && digits_value(d) <= 65535 {
        Some(digits_value(d) as u16)
    } else {
        None
    }
}

pub(crate) proof fn lemma_digits_value_nonneg(s: Seq<char>)
    requires
        forall|i: int| 0 <= i < s.len() ==> is_digit(#[trigger] s[i]),
    ensures
        digits_value(s) >= 0,
    decreases s.len(),
{
    if s.len() > 0 {
        lemma_digits_value_nonneg(s.drop_last());
    }
}

proof fn lemma_digits_value_grows(s: Seq<char>, i: int)
    requires
        0 <= i <= s.len(),
        forall|j: int| 0 <= j < s.len() ==> is_digit(#[trigger] s[j]),
    ensures
        digits_value(s.take(i)) <= digits_value(s),
    decreases s.len() - i,
{
    if i < s.len() {
        lemma_digits_value_grows(s, i + 1);
        assert(s.take(i + 1).drop_last() =~= s.take(i));
        assert forall|j: int| 0 <= j < s.take(i).len() implies is_digit(#[trigger] s.take(i)[j]) by {
            assert(s.take(i)[j] == s[j]);
        }
        lemma_digits_value_nonneg(s.take(i));
    } else {
        assert(s.take(i) =~= s);
    }
}

/// Parses a port number as `str::parse::<u16>` does.
pub fn parse_port(s: &str) -> (r: Option<u16>)
    ensures
        r == parse_u16(s@),
{
    let v = chars_of(s);
    let start: usize = if v.len() > 0 && v[0] == '+' { 1 } else { 0 };
    let ghost d = unsigned_digits(s@);
    assert(d =~= v@.subrange(start as int, v@.len() as int));
    if start >= v.len() {
        return None;
    }
    let mut acc: u32 = 0;
    let mut i: usize = start;
    while i < v.len()
        invariant
            start <= i <= v.len(),
            v@ == s@,
            d == unsigned_digits(s@),
            d == v@.subrange(start as int, v@.len() as int),
            forall|j: int| 0 <= j < i - start ==> is_digit(#[trigger] d[j]),
            acc as int == digits_value(d.take(i - start)),
            acc <= 65535,
        decreases v.len() - i,
    {
        let c = v[i];
        let code = code_point(c);
        assert(d[i - start] == c);
        if code < 48 || code > 57 {
            assert(!is_digit(d[i - start]));
            assert(!all_digits(d));
            return None;
        }
        assert(is_digit(d[i - start]));
        assert(d.take(i + 1 - start).drop_last() =~= d.take(i - start));
        assert(d.take(i + 1 - start).last() == c);
        let next = acc * 10 + (code - 48);
        i += 1;
        if next > 65535 {
            proof {
                assert forall|j: int| 0 <= j < i - start implies is_digit(#[trigger] d.take(i - start)[j]) by {
                    assert(d.take(i - start)[j] == d[j]);
                }
                assert(digits_value(d.take(i - start)) == next);
                if all_digits(d) {
                    lemma_digits_value_grows(d, i - start);
                }
            }
            return None;
        }
        acc = next;
    }
    assert(d.take(v.len() - start) =~= d);
    Some(acc as u16)
}

/// The text of the address the server listens on: `--listen` as given when
/// it holds a colon, else all interfaces on the port it names (3000 when it
/// names none); else all interfaces on `--port`; else on port 3000.
pub open spec fn listen_text(listen: Option<Seq<char>>, port: Option<u16>) -> Seq<char> {
    match listen {
        Some(l) => if l.contains(':') {
            l
        } else {
            let p: u16 = match parse_u16(l) { Some(p) => p, None => 3000 };
            "0.0.0.0:"@ + decimal(p as nat)
        },
        None => match port {
            Some(p) => "0.0.0.0:"@ + decimal(p as nat),
            None => "0.0.0.0:"@ + decimal(3000),
        },
    }
}

fn all_interfaces(port: u16) -> (r: String)
    ensures
        r@ == "0.0.0.0:"@ + decimal(port as nat),
{
    let mut r = String::new();
    append_str(&mut r, "0.0.0.0:");
    push_decimal(&mut r, port as usize);
    r
}

/// The text of the address the server listens on.
pub fn listen_address(listen: &Option<String>, port: Option<u16>) -> (r: String)
    ensures
        r@ == listen_text(match listen { Some(l) => Some(l@), None => None }, port),
{
    match listen {
        Some(l) => {
            if vec_contains(&chars_of(l.as_str()), ':') {
                l.clone()
            } else {
                let p = match parse_port(l.as_str()) {
                    Some(p) => p,
                    None => 3000,
                };
                all_interfaces(p)
            }
        },
        None => match port {
            Some(p) => all_interfaces(p),
            None => all_interfaces(3000),
        },
    }
}

/// The log filter: debug output for this crate and the HTTP layer with
/// `--debug`, else informational output for this crate.
pub fn log_filter(debug: bool) -> (r: String)
    ensures
        r@ == (if debug { "serve=debug,tower_http=debug"@ } else { "serve=info"@ }),
{
    if debug {
        "serve=debug,tower_http=debug".to_string()
    } else {
        "serve=info".to_string()
    }
}

/// The format of the configuration file that `--init` writes.
pub open spec fn init_format_of(arg: Seq<char>) -> Option<ConfigFormat> {
    if arg == "json"@ {
        Some(ConfigFormat::Json)
    } else if arg == "yaml"@ || arg == "yml"@ {
        Some(ConfigFormat::Yaml)
    } else if arg == "toml"@ {
        Some(ConfigFormat::Toml)
    } else {
        None
    }
}

/// The format that `--init <arg>` asks for, if it names one.
pub fn init_format(arg: &str) -> (r: Option<ConfigFormat>)
    ensures
        r == init_format_of(arg@),
{
    let v = chars_of(arg);
    if vec_eq(&v, &chars_of("json")) {
        Some(ConfigFormat::Json)
    } else if vec_eq(&v, &chars_of("yaml")) || vec_eq(&v, &chars_of("yml")) {
        Some(ConfigFormat::Yaml)
    } else if vec_eq(&v, &chars_of("toml")) {
        Some(ConfigFormat::Toml)
    } else {
        None
    }
}

/// The name of the configuration file written in format `f`.
pub open spec fn init_file_of(f: ConfigFormat) -> Seq<char> {
    match f {
        ConfigFormat::Json => "serve.json"@,
        ConfigFormat::Yaml => "serve.yaml"@,
        ConfigFormat::Toml => "serve.toml"@,
    }
}

impl ConfigFormat {
    /// The name of the configuration file written in this format.
    pub fn init_file(&self) -> (r: String)
        ensures
            r@ == init_file_of(*self),
    {
        match self {
            ConfigFormat::Json => "serve.json".to_string(),
            ConfigFormat::Yaml => "serve.yaml".to_string(),
            ConfigFormat::Toml => "serve.toml".to_string(),
        }
    }
}

/// A port written in decimal digits, with or without a leading `+`, reads
/// back as that port.
pub proof fn law_port_round_trip(port: u16)
    ensures
        parse_u16(decimal(port as nat)) == Some(port),
        parse_u16(seq!['+'] + decimal(port as nat)) == Some(port),
{
    let d = decimal(port as nat);
    crate::ranges::lemma_decimal_digits(port as nat);
    assert(is_digit(d[0]));
    assert((seq!['+'] + d).drop_first() =~= d);
}

/// `--listen` wins over `--port`: an address with a colon is used as given,
/// a bare port number listens on all interfaces on that port; without
/// `--listen` the server listens on all interfaces on `--port`, by default
/// `0.0.0.0:3000`.
pub proof fn law_listen_address(l: Seq<char>, n: u16, port: Option<u16>)
    ensures
        l.contains(':') ==> listen_text(Some(l), port) == l,
        listen_text(Some(decimal(n as nat)), port) == "0.0.0.0:"@ + decimal(n as nat),
        listen_text(None, Some(n)) == "0.0.0.0:"@ + decimal(n as nat),
        listen_text(None, None) == "0.0.0.0:3000"@,
{
    law_port_round_trip(n);
    let d = decimal(n as nat);
    crate::ranges::lemma_decimal_digits(n as nat);
    if d.contains(':') {
        let k = choose|k: int| 0 <= k < d.len() && d[k] == ':';
        assert(is_digit(d[k]));
    }
    reveal_strlit("0.0.0.0:");
    reveal_strlit("0.0.0.0:3000");
    reveal_with_fuel(decimal, 5);
    assert(decimal(3000) =~= seq!['3', '0', '0', '0']);
    assert("0.0.0.0:"@ + decimal(3000) =~= "0.0.0.0:3000"@);
}

} // verus!
