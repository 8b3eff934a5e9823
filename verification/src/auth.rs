//! HTTP Basic Authentication: which rule protects a path (the most specific
//! one) and whether a request's credentials satisfy it.

use vstd::prelude::*;
use crate::config::AuthRule;
use crate::patterns::{glob_hits, glob_selects};
use crate::text::{append_str, push_char, vec_eq, chars_of};

verus! {

/// The sources of authentication rules.
pub open spec fn auth_sources(rules: Seq<AuthRule>) -> Seq<Seq<char>> {
    rules.map_values(|r: AuthRule| r.source@)
}

/// The most specific rule of `sources` for `path`: among the globs that
/// select the path, the longest, the first of them where several are
/// longest.
pub open spec fn most_specific(sources: Seq<Seq<char>>, path: Seq<char>) -> Option<int>
    decreases sources.len(),
{
    if sources.len() == 0 {
        None
    } else {
        let last = sources.len() - 1;
        let prev = most_specific(sources.drop_last(), path);
        if glob_hits(sources[last], path) {
            match prev {
                Some(i) => if sources[i].len() >= sources[last].len() { Some(i) } else { Some(last) },
                None => Some(last),
            }
        } else {
            prev
        }
    }
}

/// The rule whose glob is the most specific one for `path`: a glob that
/// selects it and that no other selecting glob is longer than; `None` when no
/// glob selects it.
pub proof fn law_most_specific_rule(sources: Seq<Seq<char>>, path: Seq<char>)
    ensures
        most_specific(sources, path) matches Some(i) ==> {
            &&& 0 <= i < sources.len()
            &&& glob_hits(sources[i], path)
            &&& forall|j: int| 0 <= j < sources.len() && glob_hits(#[trigger] sources[j], path) ==> sources[j].len() <= sources[i].len()
            &&& forall|j: int| 0 <= j < i && glob_hits(#[trigger] sources[j], path) ==> sources[j].len() < sources[i].len()
        },
        most_specific(sources, path) is None ==> forall|j: int| 0 <= j < sources.len() ==> !glob_hits(#[trigger] sources[j], path),
    decreases sources.len(),
{
    if sources.len() > 0 {
        let d = sources.drop_last();
        let last = sources.len() - 1;
        law_most_specific_rule(d, path);
        match most_specific(sources, path) {
            Some(i) => {
                if i < last {
                    assert(d[i] == sources[i]);
                }
                assert forall|j: int| 0 <= j < sources.len() && glob_hits(#[trigger] sources[j], path) implies sources[j].len()
                    <= sources[i].len() by {
                    if j < last {
                        assert(d[j] == sources[j]);
                    }
                }
                assert forall|j: int| 0 <= j < i && glob_hits(#[trigger] sources[j], path) implies sources[j].len()
                    < sources[i].len() by {
                    assert(d[j] == sources[j]);
                    if let Some(k) = most_specific(d, path) {
                        assert(d[k] == sources[k]);
                    }
                }
            },
            None => {
                assert forall|j: int| 0 <= j < sources.len() implies !glob_hits(#[trigger] sources[j], path) by {
                    if j < last {
                        assert(d[j] == sources[j]);
                    }
                }
            },
        }
    }
}

/// The digit of the standard base64 alphabet for `n` (`0 <= n < 64`).
pub open spec fn b64_digit(n: int) -> char {
    if n < 26 {
        (65 + n) as char
    } else if n < 52 {
        (97 + n - 26) as char
    } else if n < 62 {
        (48 + n - 52) as char
    } else if n == 62 {
        '+'
    } else {
        '/'
    }
}

/// Standard base64 with padding: each three bytes become four digits; a last
/// group of one or two bytes is padded with `=`.
pub open spec fn base64(b: Seq<u8>) -> Seq<char>
    decreases b.len(),
{
    if b.len() == 0 {
        Seq::empty()
    } else if b.len() == 1 {
        let x = b[0] as int;
        seq![b64_digit(x / 4), b64_digit((x % 4) * 16), '=', '=']
    } else if b.len() == 2 {
        let x = b[0] as int;
        let y = b[1] as int;
        seq![b64_digit(x / 4), b64_digit((x % 4) * 16 + y / 16), b64_digit((y % 16) * 4), '=']
    } else {
        let x = b[0] as int;
        let y = b[1] as int;
        let z = b[2] as int;
        seq![
            b64_digit(x / 4),
            b64_digit((x % 4) * 16 + y / 16),
            b64_digit((y % 16) * 4 + z / 64),
            b64_digit(z % 64),
        ] + base64(b.skip(3))
    }
}

fn b64_char(n: u32) -> (c: char)
    requires
        n < 64,
    ensures
        c == b64_digit(n as int),
{
    if n < 26 {
        char_from_ascii(65 + n)
    } else if n < 52 {
        char_from_ascii(97 + n - 26)
    } else if n < 62 {
        char_from_ascii(48 + n - 52)
    } else if n == 62 {
        '+'
    } else {
        '/'
    }
}

/// The character with the ASCII code `n`.
fn char_from_ascii(n: u32) -> (c: char)
    requires
        n < 128,
    ensures
        c as int == n as int,
{
    (n as u8) as char
}

/// Appends the base64 text of `b` to `s`.
pub fn push_base64(s: &mut String, b: &[u8])
    ensures
        final(s)@ == old(s)@ + base64(b@),
{
    let ghost start = s@;
    let mut i: usize = 0;
    assert(b@.skip(0) =~= b@);
    while b.len() - i >= 3
        invariant
            i <= b.len(),
            start + base64(b@) == s@ + base64(b@.skip(i as int)),
        decreases b.len() - i,
    {
        let x = b[i] as u32;
        let y = b[i + 1] as u32;
        let z = b[i + 2] as u32;
        let ghost before = s@;
        push_char(s, b64_char(x / 4));
        push_char(s, b64_char((x % 4) * 16 + y / 16));
        push_char(s, b64_char((y % 16) * 4 + z / 64));
        push_char(s, b64_char(z % 64));
        let ghost rest = b@.skip(i as int);
        assert(rest[0] == b[i as int] && rest[1] == b[i + 1] && rest[2] == b[i + 2]);
        assert(rest.skip(3) =~= b@.skip(i + 3));
        assert(s@ =~= before + base64(rest).subrange(0, 4));
        assert(base64(rest) =~= base64(rest).subrange(0, 4) + base64(b@.skip(i + 3)));
        i += 3;
    }
    let ghost rest = b@.skip(i as int);
    if b.len() - i == 1 {
        let x = b[i] as u32;
        push_char(s, b64_char(x / 4));
        push_char(s, b64_char((x % 4) * 16));
        push_char(s, '=');
        push_char(s, '=');
        assert(rest[0] == b[i as int]);
    } else if b.len() - i == 2 {
        let x = b[i] as u32;
        let y = b[i + 1] as u32;
        push_char(s, b64_char(x / 4));
        push_char(s, b64_char((x % 4) * 16 + y / 16));
        push_char(s, b64_char((y % 16) * 4));
        push_char(s, '=');
        assert(rest[0] == b[i as int] && rest[1] == b[i + 1]);
    }
    assert(s@ =~= start + base64(b@));
}

/// The `Authorization` header value that carries the credentials `username`
/// and `password`: `Basic ` and the base64 of `username:password` in UTF-8.
pub open spec fn basic_credentials(username: Seq<char>, password: Seq<char>) -> Seq<char> {
    "Basic "@ + base64(vstd::utf8::encode_utf8(username.push(':') + password))
}

/// The `Authorization` header value that carries `username` and `password`.
pub fn credentials_header(username: &str, password: &str) -> (r: String)
    ensures
        r@ == basic_credentials(username@, password@),
{
    let mut plain = String::new();
    append_str(&mut plain, username);
    push_char(&mut plain, ':');
    append_str(&mut plain, password);
    let mut r = String::new();
    append_str(&mut r, "Basic ");
    push_base64(&mut r, plain.as_str().as_bytes());
    r
}

/// The password of a rule: the configured one, else the value of the
/// environment variable it names (`env_value`, where that variable is set).
pub open spec fn effective_password(password: Option<Seq<char>>, env_value: Option<Seq<char>>) -> Option<Seq<char>> {
    match password {
        Some(p) => Some(p),
        None => env_value,
    }
}

/// The password of `rule`, given the value of its environment variable.
pub fn rule_password(rule: &AuthRule, env_value: Option<String>) -> (r: Option<String>)
    ensures
        (match r { Some(p) => Some(p@), None => None }) == effective_password(
            match rule.password { Some(p) => Some(p@), None => None },
            match env_value { Some(v) => Some(v@), None => None },
        ),
{
    match &rule.password {
        Some(p) => Some(p.clone()),
        None => env_value,
    }
}

/// A request with the `Authorization` header `given` satisfies `rule`: the
/// rule has a password and the header carries the rule's user name and that
/// password.
pub open spec fn authorized(rule: AuthRule, given: Option<Seq<char>>) -> bool {
    match (rule.password, given) {
        (Some(p), Some(g)) => g == basic_credentials(rule.username@, p@),
        _ => false,
    }
}

/// Whether the `Authorization` header `given` satisfies `rule`.
pub fn check_credentials(rule: &AuthRule, given: &Option<String>) -> (b: bool)
    ensures
        b == authorized(*rule, match given { Some(g) => Some(g@), None => None }),
{
    match (&rule.password, given) {
        (Some(p), Some(g)) => {
            let expected = credentials_header(rule.username.as_str(), p.as_str());
            vec_eq(&chars_of(g.as_str()), &chars_of(expected.as_str()))
        },
        _ => false,
    }
}

/// The index of the most specific rule of `rules` for `path`.
pub fn auth_rule_for(rules: &Vec<AuthRule>, path: &str) -> (r: Option<usize>)
    ensures
        match r {
            Some(i) => most_specific(auth_sources(rules@), path@) == Some(i as int) && i < rules.len(),
            None => most_specific(auth_sources(rules@), path@) is None,
        },
{
    let ghost srcs = auth_sources(rules@);
    let mut best: Option<usize> = None;
    let mut i: usize = 0;
    assert(srcs.take(0) =~= Seq::<Seq<char>>::empty());
    while i < rules.len()
        invariant
            i <= rules.len(),
            srcs == auth_sources(rules@),
            match best {
                Some(k) => most_specific(srcs.take(i as int), path@) == Some(k as int) && k < i,
                None => most_specific(srcs.take(i as int), path@) is None,
            },
        decreases rules.len() - i,
    {
        let ghost t = srcs.take(i + 1);
        assert(t.drop_last() =~= srcs.take(i as int));
        assert(t[i as int] == rules@[i as int].source@);
        if glob_selects(rules[i].source.as_str(), path) {
            match best {
                Some(k) => {
                    assert(t[k as int] == rules@[k as int].source@);
                    if rules[k].source.as_str().unicode_len() < rules[i].source.as_str().unicode_len() {
                        best = Some(i);
                    }
                },
                None => {
                    best = Some(i);
                },
            }
        }
        i += 1;
    }
    assert(srcs.take(rules.len() as int) =~= srcs);
    best
}

} // verus!
