//! HTTP Range requests on streamed files: the `Range` header, the part of a
//! file it selects, and which files answer it.

use vstd::prelude::*;
use crate::cli::{all_digits, digits_value, is_digit, lemma_digits_value_nonneg};
use crate::config::{Config, StreamConfig, extension_of, path_extension};
use crate::content::{decimal, decimal_digit, push_decimal};
use crate::text::{append_str, chars_of, code_point, vec_eq};

verus! {

/// A single byte range of a `Range` header.
#[derive(Debug, Clone, Copy, PartialEq, Eq)]
pub enum RangeRequest {
    /// `bytes=first-last` or, without `last`, `bytes=first-`.
    Span { first: u64, last: Option<u64> },
    /// `bytes=-length`: the last `length` bytes.
    Suffix { length: u64 },
}

/// The index of the first `-` in `s`, if any.
pub open spec fn first_dash(s: Seq<char>) -> Option<int>
    decreases s.len(),
{
    if s.len() == 0 {
        None
    } else if s[0] == '-' {
        Some(0)
    } else {
        match first_dash(s.drop_first()) {
            Some(i) => Some(i + 1),
            None => None,
        }
    }
}

/// The number written by the digits `d`, if they are at least one digit and
/// the number fits in 64 bits.
pub open spec fn digits_u64(d: Seq<char>) -> Option<u64> {
    if d.len() > 0 && all_digits(d) && digits_value(d) <= u64::MAX {
        Some(digits_value(d) as u64)
    } else {
        None
    }
}

/// The single byte range that a `Range` header value asks for: `bytes=`
/// followed by `first-last` (with `first <= last`), `first-` or `-length`,
/// numbers in decimal digits. Any other value (several ranges, other units,
/// spaces) asks for none, and the whole file is sent.
pub open spec fn parse_range(h: Seq<char>) -> Option<RangeRequest> {
    if h.len() < 6 || h.subrange(0, 6) != "bytes="@ {
        None
    } else {
        let spec = h.skip(6);
        match first_dash(spec) {
            None => None,
            Some(k) => {
                let a = spec.take(k);
                let b = spec.skip(k + 1);
                if a.len() == 0 {
                    match digits_u64(b) {
                        Some(n) => Some(RangeRequest::Suffix { length: n }),
                        None => None,
                    }
                } else {
                    match digits_u64(a) {
                        None => None,
                        Some(first) => if b.len() == 0 {
                            Some(RangeRequest::Span { first, last: None })
                        } else {
                            match digits_u64(b) {
                                Some(last) => if first <= last {
                                    Some(RangeRequest::Span { first, last: Some(last) })
                                } else {
                                    None
                                },
                                None => None,
                            }
                        },
                    }
                }
            },
        }
    }
}

/// The bytes, first and last inclusive, that the range `r` selects of a file
/// of `len` bytes; `None` when it selects none (the range is not
/// satisfiable): a span starting at or past the end, an empty suffix, an
/// empty file.
pub open spec fn selected_bytes(r: RangeRequest, len: nat) -> Option<(nat, nat)> {
    match r {
        RangeRequest::Span { first, last } => if first >= len {
            None
        } else {
            let end: nat = match last {
                Some(l) => if l < len - 1 { l as nat } else { (len - 1) as nat },
                None => (len - 1) as nat,
            };
            Some((first as nat, end))
        },
        RangeRequest::Suffix { length } => if length == 0 || len == 0 {
            None
        } else {
            let n: nat = if length < len { length as nat } else { len };
            Some(((len - n) as nat, (len - 1) as nat))
        },
    }
}

/// The extensions that answer Range requests when none are configured.
pub open spec fn default_stream_extensions() -> Seq<Seq<char>> {
    seq!["mp4"@, "webm"@, "ogg"@, "mp3"@, "wav"@, "pdf"@, "mkv"@, "mov"@]
}

/// The configured stream extensions.
pub open spec fn stream_extensions(cfg: Config) -> Seq<Seq<char>> {
    match cfg.stream {
        Some(StreamConfig { stream_extensions: Some(v), .. }) => v@.map_values(|e: String| e@),
        _ => default_stream_extensions(),
    }
}

/// Range requests are answered (by default they are).
pub open spec fn ranges_enabled(cfg: Config) -> bool {
    match cfg.stream {
        Some(StreamConfig { enable_ranges: Some(b), .. }) => b,
        _ => true,
    }
}

/// The file at `path` answers Range requests: ranges are enabled and its
/// extension is a stream extension.
pub open spec fn streamed(cfg: Config, path: Seq<char>) -> bool {
    ranges_enabled(cfg) && match path_extension(path) {
        Some(e) => stream_extensions(cfg).contains(e),
        None => false,
    }
}

/// The `Content-Range` of the bytes `first..=last` of a file of `len` bytes.
pub open spec fn content_range(first: nat, last: nat, len: nat) -> Seq<char> {
    "bytes "@ + decimal(first) + seq!['-'] + decimal(last) + seq!['/'] + decimal(len)
}

/// The `Content-Range` of a refused range on a file of `len` bytes.
pub open spec fn unsatisfied_range(len: nat) -> Seq<char> {
    "bytes */"@ + decimal(len)
}

/// The index of the first `-` in `v`, if any.
fn find_dash(v: &Vec<char>, from: usize) -> (r: Option<usize>)
    requires
        from <= v.len(),
    ensures
        match r {
            Some(k) => from <= k < v.len() && first_dash(v@.skip(from as int)) == Some(k - from),
            None => first_dash(v@.skip(from as int)) is None,
        },
{
    let mut i = from;
    while i < v.len()
        invariant
            from <= i <= v.len(),
            first_dash(v@.skip(from as int)) == (match first_dash(v@.skip(i as int)) {
                Some(j) => Some(j + (i - from)),
                None => None,
            }),
        decreases v.len() - i,
    {
        if v[i] == '-' {
            assert(v@.skip(i as int)[0] == '-');
            return Some(i);
        }
        assert(v@.skip(i as int).drop_first() =~= v@.skip(i + 1));
        i += 1;
    }
    assert(v@.skip(i as int) =~= Seq::<char>::empty());
    None
}

proof fn lemma_digits_value_bound(s: Seq<char>, i: int)
    requires
        0 <= i <= s.len(),
        all_digits(s),
    ensures
        0 <= digits_value(s.take(i)) <= digits_value(s),
    decreases s.len() - i,
{
    assert forall|j: int| 0 <= j < s.take(i).len() implies is_digit(#[trigger] s.take(i)[j]) by {
        assert(s.take(i)[j] == s[j]);
    }
    lemma_digits_value_nonneg(s.take(i));
    if i < s.len() {
        lemma_digits_value_bound(s, i + 1);
        assert(s.take(i + 1).drop_last() =~= s.take(i));
    } else {
        assert(s.take(i) =~= s);
    }
}

/// The number written by the digits `v[from..to]`, if it is one.
fn number_in(v: &Vec<char>, from: usize, to: usize) -> (r: Option<u64>)
    requires
        from <= to <= v.len(),
    ensures
        r == digits_u64(v@.subrange(from as int, to as int)),
{
    let ghost d = v@.subrange(from as int, to as int);
    if from == to {
        return None;
    }
    let mut acc: u64 = 0;
    let mut i = from;
    assert(d.take(0) =~= Seq::<char>::empty());
    while i < to
        invariant
            from <= i <= to <= v.len(),
            d == v@.subrange(from as int, to as int),
            forall|j: int| 0 <= j < i - from ==> is_digit(#[trigger] d[j]),
            acc as int == digits_value(d.take(i - from)),
        decreases to - i,
    {
        let code = code_point(v[i]);
        assert(d[i - from] == v@[i as int]);
        if code < 48 || code > 57 {
            assert(!is_digit(d[i - from]));
            assert(!all_digits(d));
            return None;
        }
        assert(d.take(i + 1 - from).drop_last() =~= d.take(i - from));
        let digit = (code - 48) as u64;
        if acc > (u64::MAX - digit) / 10 {
            proof {
                assert(digits_value(d.take(i + 1 - from)) == acc * 10 + digit);
                assert(acc * 10 + digit > u64::MAX) by (nonlinear_arith)
                    requires
                        acc > (u64::MAX - digit) / 10,
                        digit <= 9,
                ;
                if all_digits(d) {
                    lemma_digits_value_bound(d, i + 1 - from);
                }
            }
            return None;
        }
        assert(acc * 10 + digit <= u64::MAX) by (nonlinear_arith)
            requires
                acc <= (u64::MAX - digit) / 10,
                digit <= 9,
        ;
        acc = acc * 10 + digit;
        i += 1;
    }
    assert(d.take(to - from) =~= d);
    Some(acc)
}

/// The single byte range that the `Range` header value `h` asks for.
pub fn parse_range_header(h: &str) -> (r: Option<RangeRequest>)
    ensures
        r == parse_range(h@),
{
    let v = chars_of(h);
    if v.len() < 6 {
        return None;
    }
    let mut prefix: Vec<char> = Vec::new();
    let mut i: usize = 0;
    while i < 6
        invariant
            i <= 6 <= v.len(),
            prefix@ == v@.subrange(0, i as int),
        decreases 6 - i,
    {
        prefix.push(v[i]);
        i += 1;
        assert(prefix@ =~= v@.subrange(0, i as int));
    }
    if !vec_eq(&prefix, &chars_of("bytes=")) {
        return None;
    }
    let ghost spec = v@.skip(6);
    match find_dash(&v, 6) {
        None => None,
        Some(k) => {
            assert(spec.take(k - 6) =~= v@.subrange(6, k as int));
            assert(spec.skip(k - 6 + 1) =~= v@.subrange(k + 1, v@.len() as int));
            if k == 6 {
                match number_in(&v, k + 1, v.len()) {
                    Some(n) => Some(RangeRequest::Suffix { length: n }),
                    None => None,
                }
            } else {
                match number_in(&v, 6, k) {
                    None => None,
                    Some(first) => {
                        if k + 1 == v.len() {
                            Some(RangeRequest::Span { first, last: None })
                        } else {
                            match number_in(&v, k + 1, v.len()) {
                                Some(last) => if first <= last {
                                    Some(RangeRequest::Span { first, last: Some(last) })
                                } else {
                                    None
                                },
                                None => None,
                            }
                        }
                    },
                }
            }
        },
    }
}

/// The bytes, first and last inclusive, that `r` selects of a file of `len`
/// bytes, if any.
pub fn select_bytes(r: RangeRequest, len: usize) -> (s: Option<(usize, usize)>)
    ensures
        match s {
            Some((a, b)) => selected_bytes(r, len as nat) == Some((a as nat, b as nat)),
            None => selected_bytes(r, len as nat) is None,
        },
{
    match r {
        RangeRequest::Span { first, last } => {
            if first >= len as u64 {
                None
            } else {
                let end: usize = match last {
                    Some(l) => if l < (len - 1) as u64 { l as usize } else { len - 1 },
                    None => len - 1,
                };
                Some((first as usize, end))
            }
        },
        RangeRequest::Suffix { length } => {
            if length == 0 || len == 0 {
                None
            } else {
                let n: usize = if length < len as u64 { length as usize } else { len };
                Some((len - n, len - 1))
            }
        },
    }
}

fn ranges_on(cfg: &Config) -> (b: bool)
    ensures
        b == ranges_enabled(*cfg),
{
    match &cfg.stream {
        Some(StreamConfig { enable_ranges: Some(b), .. }) => *b,
        _ => true,
    }
}

fn default_extensions() -> (r: Vec<String>)
    ensures
        r@.map_values(|e: String| e@) == default_stream_extensions(),
{
    let r = vec![
        "mp4".to_string(),
        "webm".to_string(),
        "ogg".to_string(),
        "mp3".to_string(),
        "wav".to_string(),
        "pdf".to_string(),
        "mkv".to_string(),
        "mov".to_string(),
    ];
    assert(r@.map_values(|e: String| e@) =~= default_stream_extensions());
    r
}

fn contains_string(list: &Vec<String>, e: &String) -> (b: bool)
    ensures
        b == list@.map_values(|x: String| x@).contains(e@),
{
    let ghost views = list@.map_values(|x: String| x@);
    let mut i: usize = 0;
    while i < list.len()
        invariant
            i <= list.len(),
            views == list@.map_values(|x: String| x@),
            forall|j: int| 0 <= j < i ==> views[j] != e@,
        decreases list.len() - i,
    {
        assert(views[i as int] == list@[i as int]@);
        if vec_eq(&chars_of(list[i].as_str()), &chars_of(e.as_str())) {
            return true;
        }
        i += 1;
    }
    false
}

/// Whether the file at `path` answers Range requests.
pub fn is_streamed(cfg: &Config, path: &str) -> (b: bool)
    ensures
        b == streamed(*cfg, path@),
{
    if !ranges_on(cfg) {
        return false;
    }
    match extension_of(path) {
        None => false,
        Some(e) => match &cfg.stream {
            Some(StreamConfig { stream_extensions: Some(v), .. }) => contains_string(v, &e),
            _ => contains_string(&default_extensions(), &e),
        },
    }
}

/// The `Content-Range` of the bytes `first..=last` of a file of `len` bytes.
pub fn content_range_value(first: usize, last: usize, len: usize) -> (r: String)
    ensures
        r@ == content_range(first as nat, last as nat, len as nat),
{
    let mut r = String::new();
    append_str(&mut r, "bytes ");
    push_decimal(&mut r, first);
    append_str(&mut r, "-");
    push_decimal(&mut r, last);
    append_str(&mut r, "/");
    push_decimal(&mut r, len);
    proof {
        reveal_strlit("-");
        reveal_strlit("/");
    }
    r
}

/// The `Content-Range` of a refused range on a file of `len` bytes.
pub fn unsatisfied_range_value(len: usize) -> (r: String)
    ensures
        r@ == unsatisfied_range(len as nat),
{
    let mut r = String::new();
    append_str(&mut r, "bytes */");
    push_decimal(&mut r, len);
    r
}

proof fn lemma_default_extensions(e: Seq<char>)
    ensures
        default_stream_extensions().contains(e) <==> (e == "mp4"@ || e == "webm"@ || e == "ogg"@ || e == "mp3"@ || e == "wav"@
            || e == "pdf"@ || e == "mkv"@ || e == "mov"@),
{
    let d = default_stream_extensions();
    if e == "mp4"@ { assert(d[0] == e); }
    if e == "webm"@ { assert(d[1] == e); }
    if e == "ogg"@ { assert(d[2] == e); }
    if e == "mp3"@ { assert(d[3] == e); }
    if e == "wav"@ { assert(d[4] == e); }
    if e == "pdf"@ { assert(d[5] == e); }
    if e == "mkv"@ { assert(d[6] == e); }
    if e == "mov"@ { assert(d[7] == e); }
}

/// Which files answer Range requests: none when `enableRanges` is `false`;
/// otherwise (it is on by default) those whose extension is configured in
/// `streamExtensions`, or, where no extensions are configured (with or
/// without a `stream` section), those with the extension `mp4`, `webm`,
/// `ogg`, `mp3`, `wav`, `pdf`, `mkv` or `mov`.
pub proof fn law_stream_option(cfg: Config, path: Seq<char>)
    ensures
        (match cfg.stream { Some(s) => s.enable_ranges is None, None => true }) ==> ranges_enabled(cfg),
        (match cfg.stream { Some(s) => s.enable_ranges == Some(false), None => false }) ==> !streamed(cfg, path),
        (match cfg.stream { Some(s) => s.stream_extensions is None, None => true }) ==> (streamed(cfg, path) <==> ranges_enabled(cfg)
            && match path_extension(path) {
            Some(e) => e == "mp4"@ || e == "webm"@ || e == "ogg"@ || e == "mp3"@ || e == "wav"@ || e == "pdf"@ || e == "mkv"@
                || e == "mov"@,
            None => false,
        }),
        (match cfg.stream { Some(s) => s.stream_extensions is Some, None => false }) ==> (streamed(cfg, path) <==> ranges_enabled(cfg)
            && match path_extension(path) {
            Some(e) => exists|i: int| 0 <= i < cfg.stream->0.stream_extensions->0@.len()
                && #[trigger] cfg.stream->0.stream_extensions->0@[i]@ == e,
            None => false,
        }),
{
    if let Some(e) = path_extension(path) {
        lemma_default_extensions(e);
        if let Some(s) = cfg.stream {
            if let Some(v) = s.stream_extensions {
                let views = v@.map_values(|x: String| x@);
                if exists|i: int| 0 <= i < v@.len() && #[trigger] v@[i]@ == e {
                    let i = choose|i: int| 0 <= i < v@.len() && #[trigger] v@[i]@ == e;
                    assert(views[i] == e);
                }
                if views.contains(e) {
                    let i = choose|i: int| 0 <= i < views.len() && views[i] == e;
                    assert(v@[i]@ == e);
                }
            }
        }
    }
}

pub(crate) proof fn lemma_decimal_digits(n: nat)
    ensures
        decimal(n).len() > 0,
        all_digits(decimal(n)),
        digits_value(decimal(n)) == n,
    decreases n,
{
    let d = decimal(n);
    let k: int = (n % 10) as int;
    assert(d.last() == decimal_digit(k));
    assert((decimal_digit(k) as int) == 48 + k);
    assert(digits_value(d) == digits_value(d.drop_last()) * 10 + ((d.last() as int) - 48));
    assert(n == (n / 10) * 10 + (n % 10)) by (nonlinear_arith);
    if n < 10 {
        assert(d.drop_last() =~= Seq::<char>::empty());
    } else {
        lemma_decimal_digits(n / 10);
        assert(d.drop_last() =~= decimal(n / 10));
        assert forall|i: int| 0 <= i < d.len() implies is_digit(#[trigger] d[i]) by {
            if i < d.len() - 1 {
                assert(d[i] == decimal(n / 10)[i]);
            }
        }
    }
}

proof fn lemma_no_dash_in_digits(d: Seq<char>)
    requires
        all_digits(d),
    ensures
        first_dash(d) is None,
    decreases d.len(),
{
    if d.len() > 0 {
        assert(is_digit(d[0]));
        assert forall|i: int| 0 <= i < d.drop_first().len() implies is_digit(#[trigger] d.drop_first()[i]) by {
            assert(d.drop_first()[i] == d[i + 1]);
        }
        lemma_no_dash_in_digits(d.drop_first());
    }
}

proof fn lemma_dash_after_digits(a: Seq<char>, b: Seq<char>)
    requires
        all_digits(a),
    ensures
        first_dash(a + seq!['-'] + b) == Some(a.len() as int),
    decreases a.len(),
{
    let s = a + seq!['-'] + b;
    if a.len() > 0 {
        assert(is_digit(a[0]));
        assert(s[0] == a[0]);
        assert forall|i: int| 0 <= i < a.drop_first().len() implies is_digit(#[trigger] a.drop_first()[i]) by {
            assert(a.drop_first()[i] == a[i + 1]);
        }
        lemma_dash_after_digits(a.drop_first(), b);
        assert(s.drop_first() =~= a.drop_first() + seq!['-'] + b);
    } else {
        assert(s[0] == '-');
    }
}

/// A `Range` header written from numbers reads back as those numbers:
/// `bytes=first-last` as that span where `first <= last` (as nothing
/// otherwise), `bytes=first-` as the span to the end, `bytes=-length` as
/// that suffix.
pub proof fn law_range_header_round_trip(first: u64, last: u64, length: u64)
    ensures
        first <= last ==> parse_range("bytes="@ + decimal(first as nat) + seq!['-'] + decimal(last as nat)) == Some(
            RangeRequest::Span { first, last: Some(last) },
        ),
        first > last ==> parse_range("bytes="@ + decimal(first as nat) + seq!['-'] + decimal(last as nat)) is None,
        parse_range("bytes="@ + decimal(first as nat) + seq!['-']) == Some(RangeRequest::Span { first, last: None }),
        parse_range("bytes="@ + seq!['-'] + decimal(length as nat)) == Some(RangeRequest::Suffix { length }),
{
    reveal_strlit("bytes=");
    let pre = "bytes="@;
    let a = decimal(first as nat);
    let b = decimal(last as nat);
    let c = decimal(length as nat);
    lemma_decimal_digits(first as nat);
    lemma_decimal_digits(last as nat);
    lemma_decimal_digits(length as nat);
    let h1 = pre + a + seq!['-'] + b;
    assert(h1.subrange(0, 6) =~= pre);
    assert(h1.skip(6) =~= a + seq!['-'] + b);
    lemma_dash_after_digits(a, b);
    assert((a + seq!['-'] + b).take(a.len() as int) =~= a);
    assert((a + seq!['-'] + b).skip(a.len() as int + 1) =~= b);
    let h2 = pre + a + seq!['-'];
    assert(h2.subrange(0, 6) =~= pre);
    assert(h2.skip(6) =~= a + seq!['-'] + Seq::<char>::empty());
    lemma_dash_after_digits(a, Seq::<char>::empty());
    assert((a + seq!['-'] + Seq::<char>::empty()).take(a.len() as int) =~= a);
    assert((a + seq!['-'] + Seq::<char>::empty()).skip(a.len() as int + 1) =~= Seq::<char>::empty());
    let h3 = pre + seq!['-'] + c;
    assert(h3.subrange(0, 6) =~= pre);
    assert(h3.skip(6) =~= Seq::<char>::empty() + seq!['-'] + c);
    lemma_dash_after_digits(Seq::<char>::empty(), c);
    assert((Seq::<char>::empty() + seq!['-'] + c).take(0) =~= Seq::<char>::empty());
    assert((Seq::<char>::empty() + seq!['-'] + c).skip(1) =~= c);
}

} // verus!
