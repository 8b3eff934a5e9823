//! The replies a request can get, and the routing rules of the configuration
//! that decide a request before the file system is consulted: ignored paths,
//! Basic authentication, custom headers, redirects, clean URLs, trailing
//! slashes and rewrites.

use vstd::prelude::*;
use crate::auth::{auth_rule_for, auth_sources, authorized, check_credentials, most_specific};
use crate::config::{AuthRule, Config, CleanUrls, Header, HeaderRule, Redirect, Rewrite};
use crate::headers::{header_sendable, redirect_status, redirect_status_for, sendable};
use crate::patterns::{any_glob_hits, any_glob_selects, glob_hits, glob_selects, ignored, matches_ignore, string_views};
use crate::text::{
    chars_of, ends_with, ends_with_char, leading_run, push_char, string_from_range, trailing_cut, trim_leading,
    trim_trailing, vec_contains, vec_ends_with, vec_eq,
};

verus! {

// ---------------------------------------------------------------------------
// Replies.

/// The body of a reply.
#[derive(Debug)]
pub enum Body {
    /// No body.
    Empty,
    /// A plain text body.
    Text(String),
    /// An HTML page.
    Html(String),
    /// The bytes of a file.
    Bytes(Vec<u8>),
}

/// The answer to a request.
#[derive(Debug)]
pub enum Reply {
    /// A redirect: the status and the `Location` header, no other header.
    Redirect { status: u16, location: String },
    /// A status, the headers (inserted in this order, a later one replacing an
    /// earlier one of the same name) and a body.
    Page { status: u16, headers: Vec<Header>, body: Body },
    /// A status and a plain text body, without the configured headers.
    Bare { status: u16, text: String },
}

/// A header as its name and value.
pub type HeaderView = (Seq<char>, Seq<char>);

/// The views of headers.
pub open spec fn header_views(v: Seq<Header>) -> Seq<HeaderView> {
    v.map_values(|h: Header| (h.key@, h.value@))
}

/// A character in ASCII lower case (other characters unchanged).
pub open spec fn ascii_lower(c: char) -> char {
    if 65 <= (c as int) <= 90 {
        ((c as int) + 32) as char
    } else {
        c
    }
}

/// A header name as HTTP compares it: in ASCII lower case.
pub open spec fn header_key(name: Seq<char>) -> Seq<char> {
    name.map_values(|c: char| ascii_lower(c))
}

/// The headers a reply carries once its header list is inserted, in order,
/// into an HTTP header map: each name (compared in lower case) holds the value
/// of its last insertion.
pub open spec fn effective_headers(hs: Seq<HeaderView>) -> Map<Seq<char>, Seq<char>>
    decreases hs.len(),
{
    if hs.len() == 0 {
        Map::empty()
    } else {
        effective_headers(hs.drop_last()).insert(header_key(hs.last().0), hs.last().1)
    }
}

/// Appending a header sets its name and leaves every other name as it was.
pub proof fn lemma_effective_push(hs: Seq<HeaderView>, h: HeaderView)
    ensures
        effective_headers(hs.push(h)) == effective_headers(hs).insert(header_key(h.0), h.1),
{
    assert(hs.push(h).drop_last() =~= hs);
}

/// The last header of a name wins: a header that no later header of the same
/// name (in lower case) follows is in effect with its value.
pub proof fn lemma_effective_last_wins(hs: Seq<HeaderView>, k: int)
    requires
        0 <= k < hs.len(),
        forall|j: int| k < j < hs.len() ==> header_key(#[trigger] hs[j].0) != header_key(hs[k].0),
    ensures
        effective_headers(hs).contains_key(header_key(hs[k].0)),
        effective_headers(hs)[header_key(hs[k].0)] == hs[k].1,
    decreases hs.len(),
{
    if k < hs.len() - 1 {
        let d = hs.drop_last();
        assert forall|j: int| k < j < d.len() implies header_key(#[trigger] d[j].0) != header_key(d[k].0) by {
            assert(d[j] == hs[j]);
        }
        lemma_effective_last_wins(d, k);
        assert(d[k] == hs[k]);
        assert(header_key(hs.last().0) != header_key(hs[k].0));
    }
}

/// The view of a body.
pub enum BodyView {
    Empty,
    Text(Seq<char>),
    Html(Seq<char>),
    Bytes(Seq<u8>),
}

/// The view of a reply.
pub enum ReplyView {
    Redirect { status: u16, location: Seq<char> },
    Page { status: u16, headers: Seq<HeaderView>, body: BodyView },
    Bare { status: u16, text: Seq<char> },
}

impl View for Body {
    type V = BodyView;

    open spec fn view(&self) -> BodyView {
        match self {
            Body::Empty => BodyView::Empty,
            Body::Text(t) => BodyView::Text(t@),
            Body::Html(h) => BodyView::Html(h@),
            Body::Bytes(b) => BodyView::Bytes(b@),
        }
    }
}

impl View for Reply {
    type V = ReplyView;

    open spec fn view(&self) -> ReplyView {
        match self {
            Reply::Redirect { status, location } => ReplyView::Redirect { status: *status, location: location@ },
            Reply::Page { status, headers, body } => ReplyView::Page {
                status: *status,
                headers: header_views(headers@),
                body: body@,
            },
            Reply::Bare { status, text } => ReplyView::Bare { status: *status, text: text@ },
        }
    }
}

/// `404 Not Found` with the headers gathered so far.
pub open spec fn not_found(headers: Seq<HeaderView>) -> ReplyView {
    ReplyView::Page { status: 404, headers, body: BodyView::Text("404 Not Found"@) }
}

/// `500 Internal Server Error`, without the configured headers.
pub open spec fn server_error() -> ReplyView {
    ReplyView::Bare { status: 500, text: "Internal Server Error"@ }
}

/// The refusal of a symlink when symlinks are not allowed.
pub open spec fn symlink_refused() -> ReplyView {
    ReplyView::Bare { status: 404, text: "Forbidden (Symlink)"@ }
}

pub(crate) fn not_found_reply(headers: Vec<Header>) -> (r: Reply)
    ensures
        r@ == not_found(header_views(headers@)),
{
    Reply::Page { status: 404, headers, body: Body::Text("404 Not Found".to_string()) }
}

pub(crate) fn server_error_reply() -> (r: Reply)
    ensures
        r@ == server_error(),
{
    Reply::Bare { status: 500, text: "Internal Server Error".to_string() }
}

// ---------------------------------------------------------------------------
// Requests.

/// What the answer to a request depends on besides the file system.
#[derive(Debug, Clone)]
pub struct RequestInfo {
    /// The request's path.
    pub path: String,
    /// The `If-None-Match` header, if any.
    pub if_none_match: Option<String>,
    /// The `Range` header, if any.
    pub range: Option<String>,
    /// The `Authorization` header, if any.
    pub authorization: Option<String>,
}

/// The view of a request.
pub struct RequestView {
    pub path: Seq<char>,
    pub if_none_match: Option<Seq<char>>,
    pub range: Option<Seq<char>>,
    pub authorization: Option<Seq<char>>,
}

/// The view of an optional string.
pub open spec fn opt_view(s: Option<String>) -> Option<Seq<char>> {
    match s {
        Some(v) => Some(v@),
        None => None,
    }
}

impl View for RequestInfo {
    type V = RequestView;

    open spec fn view(&self) -> RequestView {
        RequestView {
            path: self.path@,
            if_none_match: opt_view(self.if_none_match),
            range: opt_view(self.range),
            authorization: opt_view(self.authorization),
        }
    }
}

/// The challenge sent to a request without the credentials of the rule that
/// protects its path.
pub open spec fn challenge() -> ReplyView {
    ReplyView::Page {
        status: 401,
        headers: seq![("www-authenticate"@, "Basic realm=\"serve\""@)],
        body: BodyView::Text("401 Unauthorized"@),
    }
}

fn challenge_reply() -> (r: Reply)
    ensures
        r@ == challenge(),
{
    let mut headers: Vec<Header> = Vec::new();
    headers.push(Header { key: "www-authenticate".to_string(), value: "Basic realm=\"serve\"".to_string() });
    assert(header_views(headers@) =~= seq![("www-authenticate"@, "Basic realm=\"serve\""@)]);
    Reply::Page { status: 401, headers, body: Body::Text("401 Unauthorized".to_string()) }
}

// ---------------------------------------------------------------------------
// The routing rules.

/// The authentication rule that protects `path`: the most specific one.
pub open spec fn auth_rule(cfg: Config, path: Seq<char>) -> Option<AuthRule> {
    match cfg.auth {
        Some(v) => match most_specific(auth_sources(v@), path) {
            Some(i) => Some(v@[i]),
            None => None,
        },
        None => None,
    }
}

/// A rule protects `path` and the `Authorization` header does not satisfy it.
pub open spec fn auth_denied(cfg: Config, path: Seq<char>, authorization: Option<Seq<char>>) -> bool {
    match auth_rule(cfg, path) {
        Some(rule) => !authorized(rule, authorization),
        None => false,
    }
}

/// The ignore patterns of the configuration.
pub open spec fn ignore_globs(cfg: Config) -> Seq<Seq<char>> {
    match cfg.ignore {
        Some(v) => string_views(v@),
        None => Seq::empty(),
    }
}

/// The request path relative to the served directory: without leading
/// slashes.
pub open spec fn relative(path: Seq<char>) -> Seq<char> {
    trim_leading(path, '/')
}

/// The sendable headers of `hs`, in order.
pub open spec fn sendable_headers(hs: Seq<Header>) -> Seq<HeaderView>
    decreases hs.len(),
{
    if hs.len() == 0 {
        Seq::empty()
    } else {
        let rest = sendable_headers(hs.drop_last());
        if header_sendable(hs.last()) {
            rest.push((hs.last().key@, hs.last().value@))
        } else {
            rest
        }
    }
}

/// The headers that the rules `rules` add for `path`: those of every rule
/// whose glob selects the path, in the order of the rules.
pub open spec fn rule_headers(rules: Seq<HeaderRule>, path: Seq<char>) -> Seq<HeaderView>
    decreases rules.len(),
{
    if rules.len() == 0 {
        Seq::empty()
    } else {
        let rest = rule_headers(rules.drop_last(), path);
        if glob_hits(rules.last().source@, path) {
            rest + sendable_headers(rules.last().headers@)
        } else {
            rest
        }
    }
}

/// The configured headers for `path`.
pub open spec fn config_headers(cfg: Config, path: Seq<char>) -> Seq<HeaderView> {
    match cfg.headers {
        Some(v) => rule_headers(v@, path),
        None => Seq::empty(),
    }
}

/// The index of the first glob of `sources` that selects `path`.
pub open spec fn first_hit(sources: Seq<Seq<char>>, path: Seq<char>) -> Option<int>
    decreases sources.len(),
{
    if sources.len() == 0 {
        None
    } else if glob_hits(sources[0], path) {
        Some(0)
    } else {
        match first_hit(sources.drop_first(), path) {
            Some(i) => Some(i + 1),
            None => None,
        }
    }
}

/// The sources of redirects.
pub open spec fn redirect_sources(rs: Seq<Redirect>) -> Seq<Seq<char>> {
    rs.map_values(|r: Redirect| r.source@)
}

/// The sources of rewrites.
pub open spec fn rewrite_sources(rs: Seq<Rewrite>) -> Seq<Seq<char>> {
    rs.map_values(|r: Rewrite| r.source@)
}

/// The redirect that applies to `path`: the first whose source selects it.
pub open spec fn redirect_for(cfg: Config, path: Seq<char>) -> Option<Redirect> {
    match cfg.redirects {
        Some(v) => match first_hit(redirect_sources(v@), path) {
            Some(i) => Some(v@[i]),
            None => None,
        },
        None => None,
    }
}

/// Clean URLs apply to `path`.
pub open spec fn clean_urls_apply(cfg: Config, path: Seq<char>) -> bool {
    match cfg.clean_urls {
        Some(CleanUrls::Boolean(b)) => b,
        Some(CleanUrls::Globs(g)) => any_glob_hits(string_views(g@), path),
        None => false,
    }
}

/// Where clean URLs send `path`: a path ending in `.html` loses that
/// extension.
pub open spec fn clean_target(cfg: Config, path: Seq<char>) -> Option<Seq<char>> {
    if clean_urls_apply(cfg, path) && ends_with(path, ".html"@) {
        Some(path.subrange(0, path.len() - 5))
    } else {
        None
    }
}

/// Where the trailing slash setting sends `path`: with `true`, a path that
/// neither ends in a slash nor holds a dot gains a slash; with `false`, a path
/// other than `/` that ends in slashes loses them.
pub open spec fn trailing_slash_target(ts: Option<bool>, path: Seq<char>) -> Option<Seq<char>> {
    match ts {
        Some(true) => if !ends_with_char(path, '/') && !path.contains('.') {
            Some(path.push('/'))
        } else {
            None
        },
        Some(false) => if ends_with_char(path, '/') && path != seq!['/'] {
            Some(trim_trailing(path, '/'))
        } else {
            None
        },
        None => None,
    }
}

/// The path after rewriting: the destination of the first rewrite whose
/// source selects `path`, else `path`.
pub open spec fn rewritten(cfg: Config, path: Seq<char>) -> Seq<char> {
    match cfg.rewrites {
        Some(v) => match first_hit(rewrite_sources(v@), path) {
            Some(i) => v@[i].destination@,
            None => path,
        },
        None => path,
    }
}

/// A rewrite applies to `path`.
pub open spec fn rewrite_fired(cfg: Config, path: Seq<char>) -> bool {
    match cfg.rewrites {
        Some(v) => first_hit(rewrite_sources(v@), path) is Some,
        None => false,
    }
}

/// What the routing rules decide for a request path.
pub enum RouteView {
    /// The request is answered by the rules.
    Reply(ReplyView),
    /// The request is served from the file system: the path to look up and
    /// the headers gathered.
    Serve { path: Seq<char>, headers: Seq<HeaderView>, rewrote: bool },
}

/// The routing rules, in order: an ignored path is not found; a protected
/// path without its credentials is challenged; a redirect applies; a clean URL
/// redirects; the trailing slash setting redirects; else the (rewritten) path
/// is served with the configured headers. `ignored_is_dir` tells whether the
/// ignored candidate (the path below the public directory) is a directory.
pub open spec fn route(cfg: Config, path: Seq<char>, ignored_is_dir: bool, authorization: Option<Seq<char>>) -> RouteView {
    if ignored(relative(path), ignored_is_dir, ignore_globs(cfg)) {
        RouteView::Reply(not_found(Seq::empty()))
    } else if auth_denied(cfg, path, authorization) {
        RouteView::Reply(challenge())
    } else if let Some(r) = redirect_for(cfg, path) {
        RouteView::Reply(ReplyView::Redirect { status: redirect_status(r.redirect_type), location: r.destination@ })
    } else if let Some(t) = clean_target(cfg, path) {
        RouteView::Reply(ReplyView::Redirect { status: 301, location: t })
    } else if let Some(t) = trailing_slash_target(cfg.trailing_slash, path) {
        RouteView::Reply(ReplyView::Redirect { status: 301, location: t })
    } else {
        RouteView::Serve {
            path: rewritten(cfg, path),
            headers: config_headers(cfg, path),
            rewrote: rewrite_fired(cfg, path),
        }
    }
}

proof fn lemma_first_hit(sources: Seq<Seq<char>>, path: Seq<char>, i: int)
    requires
        0 <= i <= sources.len(),
        forall|j: int| 0 <= j < i ==> !glob_hits(#[trigger] sources[j], path),
    ensures
        i < sources.len() && glob_hits(sources[i], path) ==> first_hit(sources, path) == Some(i),
        i == sources.len() ==> first_hit(sources, path) is None,
    decreases i,
{
    if i > 0 {
        assert forall|j: int| 0 <= j < i - 1 implies !glob_hits(#[trigger] sources.drop_first()[j], path) by {
            assert(sources.drop_first()[j] == sources[j + 1]);
        }
        assert(!glob_hits(sources[0], path));
        lemma_first_hit(sources.drop_first(), path, i - 1);
        if i < sources.len() {
            assert(sources.drop_first()[i - 1] == sources[i]);
        }
    }
}

/// The path relative to the served directory: `path` without leading
/// slashes.
pub fn relative_path(path: &String) -> (r: String)
    ensures
        r@ == relative(path@),
{
    let v = chars_of(path.as_str());
    let k = leading_run(&v, '/');
    string_from_range(&v, k, v.len())
}

fn copy_header(h: &Header) -> (r: Header)
    ensures
        r.key@ == h.key@,
        r.value@ == h.value@,
{
    Header { key: h.key.clone(), value: h.value.clone() }
}

/// Appends the sendable headers of `hs` to `out`.
fn push_sendable(out: &mut Vec<Header>, hs: &Vec<Header>)
    ensures
        header_views(final(out)@) == header_views(old(out)@) + sendable_headers(hs@),
{
    let ghost start = header_views(out@);
    let mut i: usize = 0;
    assert(hs@.take(0) =~= Seq::<Header>::empty());
    assert(start + sendable_headers(hs@.take(0)) =~= start);
    while i < hs.len()
        invariant
            i <= hs.len(),
            header_views(out@) == start + sendable_headers(hs@.take(i as int)),
        decreases hs.len() - i,
    {
        assert(hs@.take(i + 1).drop_last() =~= hs@.take(i as int));
        assert(hs@.take(i + 1).last() == hs@[i as int]);
        if sendable(&hs[i]) {
            let ghost before = out@;
            out.push(copy_header(&hs[i]));
            assert(header_views(out@) =~= header_views(before).push((hs@[i as int].key@, hs@[i as int].value@)));
        }
        i += 1;
    }
    assert(hs@.take(hs.len() as int) =~= hs@);
}

/// The configured headers for `path`.
fn collect_headers(cfg: &Config, path: &String) -> (r: Vec<Header>)
    ensures
        header_views(r@) == config_headers(*cfg, path@),
{
    let mut out: Vec<Header> = Vec::new();
    match &cfg.headers {
        None => {
            assert(header_views(out@) =~= Seq::<HeaderView>::empty());
        },
        Some(rules) => {
            let mut i: usize = 0;
            assert(rules@.take(0) =~= Seq::<HeaderRule>::empty());
            assert(header_views(out@) =~= Seq::<HeaderView>::empty());
            while i < rules.len()
                invariant
                    i <= rules.len(),
                    header_views(out@) == rule_headers(rules@.take(i as int), path@),
                decreases rules.len() - i,
            {
                assert(rules@.take(i + 1).drop_last() =~= rules@.take(i as int));
                assert(rules@.take(i + 1).last() == rules@[i as int]);
                if glob_selects(rules[i].source.as_str(), path.as_str()) {
                    push_sendable(&mut out, &rules[i].headers);
                }
                i += 1;
            }
            assert(rules@.take(rules.len() as int) =~= rules@);
        },
    }
    out
}

/// The index of the first redirect whose source selects `path`.
fn find_redirect(rs: &Vec<Redirect>, path: &String) -> (r: Option<usize>)
    ensures
        match r {
            Some(i) => first_hit(redirect_sources(rs@), path@) == Some(i as int) && i < rs.len(),
            None => first_hit(redirect_sources(rs@), path@) is None,
        },
{
    let ghost srcs = redirect_sources(rs@);
    let mut i: usize = 0;
    while i < rs.len()
        invariant
            i <= rs.len(),
            srcs == redirect_sources(rs@),
            forall|j: int| 0 <= j < i ==> !glob_hits(#[trigger] srcs[j], path@),
        decreases rs.len() - i,
    {
        assert(srcs[i as int] == rs@[i as int].source@);
        if glob_selects(rs[i].source.as_str(), path.as_str()) {
            proof {
                lemma_first_hit(srcs, path@, i as int);
            }
            return Some(i);
        }
        i += 1;
    }
    proof {
        lemma_first_hit(srcs, path@, i as int);
    }
    None
}

/// The index of the first rewrite whose source selects `path`.
fn find_rewrite(rs: &Vec<Rewrite>, path: &String) -> (r: Option<usize>)
    ensures
        match r {
            Some(i) => first_hit(rewrite_sources(rs@), path@) == Some(i as int) && i < rs.len(),
            None => first_hit(rewrite_sources(rs@), path@) is None,
        },
{
    let ghost srcs = rewrite_sources(rs@);
    let mut i: usize = 0;
    while i < rs.len()
        invariant
            i <= rs.len(),
            srcs == rewrite_sources(rs@),
            forall|j: int| 0 <= j < i ==> !glob_hits(#[trigger] srcs[j], path@),
        decreases rs.len() - i,
    {
        assert(srcs[i as int] == rs@[i as int].source@);
        if glob_selects(rs[i].source.as_str(), path.as_str()) {
            proof {
                lemma_first_hit(srcs, path@, i as int);
            }
            return Some(i);
        }
        i += 1;
    }
    proof {
        lemma_first_hit(srcs, path@, i as int);
    }
    None
}

/// Whether clean URLs apply to `path`.
fn clean_urls_on(cfg: &Config, path: &String) -> (b: bool)
    ensures
        b == clean_urls_apply(*cfg, path@),
{
    match &cfg.clean_urls {
        Some(CleanUrls::Boolean(b)) => *b,
        Some(CleanUrls::Globs(g)) => any_glob_selects(g, path.as_str()),
        None => false,
    }
}

/// Where the trailing slash setting sends `path`, if anywhere.
fn trailing_slash_redirect(ts: Option<bool>, path: &String) -> (r: Option<String>)
    ensures
        match r {
            Some(t) => trailing_slash_target(ts, path@) == Some(t@),
            None => trailing_slash_target(ts, path@) is None,
        },
{
    let v = chars_of(path.as_str());
    let ends_slash = v.len() > 0 && v[v.len() - 1] == '/';
    match ts {
        Some(true) => {
            if !ends_slash && !vec_contains(&v, '.') {
                let mut t = path.clone();
                push_char(&mut t, '/');
                Some(t)
            } else {
                None
            }
        },
        Some(false) => {
            if ends_slash && !vec_eq(&v, &chars_of("/")) {
                proof {
                    reveal_strlit("/");
                }
                assert("/"@ =~= seq!['/']);
                let k = trailing_cut(&v, '/');
                Some(string_from_range(&v, 0, k))
            } else {
                proof {
                    reveal_strlit("/");
                }
                assert("/"@ =~= seq!['/']);
                None
            }
        },
        None => None,
    }
}

/// The path after the configured rewrites, and whether a rewrite applied.
fn rewrite_path(cfg: &Config, path: &String) -> (r: (String, bool))
    ensures
        r.0@ == rewritten(*cfg, path@),
        r.1 == rewrite_fired(*cfg, path@),
{
    match &cfg.rewrites {
        Some(rs) => match find_rewrite(rs, path) {
            Some(i) => (rs[i].destination.clone(), true),
            None => (path.clone(), false),
        },
        None => (path.clone(), false),
    }
}

/// What the routing rules decide for a request path.
pub enum Route {
    /// The request is answered by the rules.
    Reply(Reply),
    /// The request is served from the file system.
    Serve { path: String, headers: Vec<Header>, rewrote: bool },
}

impl View for Route {
    type V = RouteView;

    open spec fn view(&self) -> RouteView {
        match self {
            Route::Reply(r) => RouteView::Reply(r@),
            Route::Serve { path, headers, rewrote } => RouteView::Serve {
                path: path@,
                headers: header_views(headers@),
                rewrote: *rewrote,
            },
        }
    }
}

/// Whether the credentials `authorization` are refused for `path`.
fn access_denied(cfg: &Config, path: &String, authorization: &Option<String>) -> (b: bool)
    ensures
        b == auth_denied(*cfg, path@, opt_view(*authorization)),
{
    match &cfg.auth {
        None => false,
        Some(rules) => match auth_rule_for(rules, path.as_str()) {
            None => false,
            Some(i) => !check_credentials(&rules[i], authorization),
        },
    }
}

/// Applies the routing rules to the request path `path` with the
/// `Authorization` header `authorization`; `ignored_is_dir` tells whether the
/// path below the public directory is a directory.
pub fn route_request(cfg: &Config, path: &String, ignored_is_dir: bool, authorization: &Option<String>) -> (r: Route)
    ensures
        r@ == route(*cfg, path@, ignored_is_dir, opt_view(*authorization)),
{
    let rel = relative_path(path);
    let is_ignored = match &cfg.ignore {
        Some(globs) => matches_ignore(&rel, ignored_is_dir, globs),
        None => {
            assert(!ignored(rel@, ignored_is_dir, Seq::empty()));
            false
        },
    };
    if is_ignored {
        let empty: Vec<Header> = Vec::new();
        assert(header_views(empty@) =~= Seq::<HeaderView>::empty());
        return Route::Reply(not_found_reply(empty));
    }
    if access_denied(cfg, path, authorization) {
        return Route::Reply(challenge_reply());
    }
    let headers = collect_headers(cfg, path);
    if let Some(rs) = &cfg.redirects {
        if let Some(i) = find_redirect(rs, path) {
            let status = redirect_status_for(rs[i].redirect_type);
            return Route::Reply(Reply::Redirect { status, location: rs[i].destination.clone() });
        }
    }
    let v = chars_of(path.as_str());
    if clean_urls_on(cfg, path) && vec_ends_with(&v, &chars_of(".html")) {
        proof {
            reveal_strlit(".html");
        }
        let t = string_from_range(&v, 0, v.len() - 5);
        return Route::Reply(Reply::Redirect { status: 301, location: t });
    }
    proof {
        reveal_strlit(".html");
    }
    if let Some(t) = trailing_slash_redirect(cfg.trailing_slash, path) {
        return Route::Reply(Reply::Redirect { status: 301, location: t });
    }
    let (routed, rewrote) = rewrite_path(cfg, path);
    Route::Serve { path: routed, headers, rewrote }
}

// ---------------------------------------------------------------------------
// Laws of the routing rules.

proof fn lemma_trim_trailing_ends(s: Seq<char>, c: char)
    ensures
        !ends_with_char(trim_trailing(s, c), c),
        trim_trailing(s, c).len() <= s.len(),
    decreases s.len(),
{
    if s.len() > 0 && s.last() == c {
        lemma_trim_trailing_ends(s.drop_last(), c);
    }
}

/// A path that the ignore patterns exclude is answered `404 Not Found`
/// without headers, whatever else the configuration says.
pub proof fn law_ignored_paths_are_not_found(
    cfg: Config,
    path: Seq<char>,
    ignored_is_dir: bool,
    authorization: Option<Seq<char>>,
)
    requires
        ignored(relative(path), ignored_is_dir, ignore_globs(cfg)),
    ensures
        route(cfg, path, ignored_is_dir, authorization) == RouteView::Reply(not_found(Seq::empty())),
{
}

/// Following a trailing slash redirect does not redirect again: the target
/// of a redirect of the trailing slash setting is left alone by that setting.
pub proof fn law_trailing_slash_settles(ts: Option<bool>, path: Seq<char>)
    requires
        trailing_slash_target(ts, path) is Some,
    ensures
        trailing_slash_target(ts, trailing_slash_target(ts, path)->0) is None,
{
    if ts == Some(false) {
        lemma_trim_trailing_ends(path, '/');
    } else {
        assert(ends_with_char(path.push('/'), '/'));
    }
}

/// A clean URL redirect drops exactly the `.html` extension: the target
/// followed by `.html` is the requested path.
pub proof fn law_clean_url_drops_extension(cfg: Config, path: Seq<char>)
    requires
        clean_target(cfg, path) is Some,
    ensures
        clean_target(cfg, path)->0 + ".html"@ == path,
{
    reveal_strlit(".html");
    assert(path.subrange(0, path.len() - 5) + path.subrange(path.len() - 5, path.len() as int) =~= path);
}

/// Redirects take precedence over clean URLs and trailing slashes, and carry
/// the configured destination.
pub proof fn law_redirect_first(cfg: Config, path: Seq<char>, ignored_is_dir: bool, authorization: Option<Seq<char>>)
    requires
        !ignored(relative(path), ignored_is_dir, ignore_globs(cfg)),
        !auth_denied(cfg, path, authorization),
        redirect_for(cfg, path) is Some,
    ensures
        route(cfg, path, ignored_is_dir, authorization) == RouteView::Reply(ReplyView::Redirect {
            status: redirect_status(redirect_for(cfg, path)->0.redirect_type),
            location: redirect_for(cfg, path)->0.destination@,
        }),
{
}

/// The configured headers are chosen by the requested path, not the
/// rewritten one, and a served path is the rewritten one.
pub proof fn law_headers_follow_request_path(
    cfg: Config,
    path: Seq<char>,
    ignored_is_dir: bool,
    authorization: Option<Seq<char>>,
)
    requires
        route(cfg, path, ignored_is_dir, authorization) is Serve,
    ensures
        route(cfg, path, ignored_is_dir, authorization) == (RouteView::Serve {
            path: rewritten(cfg, path),
            headers: config_headers(cfg, path),
            rewrote: rewrite_fired(cfg, path),
        }),
{
}

/// A protected path is served only to a request carrying the credentials of
/// the most specific rule that protects it; any other request that is not
/// ignored is challenged.
pub proof fn law_protected_paths_need_credentials(
    cfg: Config,
    path: Seq<char>,
    ignored_is_dir: bool,
    authorization: Option<Seq<char>>,
)
    requires
        !ignored(relative(path), ignored_is_dir, ignore_globs(cfg)),
        auth_rule(cfg, path) is Some,
    ensures
        !authorized(auth_rule(cfg, path)->0, authorization) ==> route(cfg, path, ignored_is_dir, authorization)
            == RouteView::Reply(challenge()),
        route(cfg, path, ignored_is_dir, authorization) != RouteView::Reply(challenge()) ==> authorized(
            auth_rule(cfg, path)->0,
            authorization,
        ),
{
}

/// `cleanUrls` as a boolean switches the clean URL redirect on or off for
/// every path ending in `.html`; absent, it is off; as globs, it is on for
/// the paths some glob selects.
pub proof fn law_clean_urls_option(cfg: Config, path: Seq<char>)
    ensures
        cfg.clean_urls is None ==> clean_target(cfg, path) is None,
        cfg.clean_urls == Some(CleanUrls::Boolean(false)) ==> clean_target(cfg, path) is None,
        cfg.clean_urls == Some(CleanUrls::Boolean(true)) ==> (clean_target(cfg, path) is Some <==> ends_with(path, ".html"@)),
        cfg.clean_urls matches Some(CleanUrls::Globs(g)) ==> (clean_target(cfg, path) is Some <==> ends_with(path, ".html"@)
            && exists|i: int| 0 <= i < g@.len() && glob_hits(#[trigger] g@[i]@, path)),
{
    if let Some(CleanUrls::Globs(g)) = cfg.clean_urls {
        let views = string_views(g@);
        if exists|i: int| 0 <= i < g@.len() && glob_hits(#[trigger] g@[i]@, path) {
            let i = choose|i: int| 0 <= i < g@.len() && glob_hits(#[trigger] g@[i]@, path);
            assert(views[i] == g@[i]@);
        }
        if any_glob_hits(views, path) {
            let i = choose|i: int| 0 <= i < views.len() && glob_hits(#[trigger] views[i], path);
            assert(views[i] == g@[i]@);
        }
    }
}

/// With clean URLs on, a request for a `.html` path that no earlier rule
/// answers is redirected (301) to the path without `.html`.
pub proof fn law_clean_url_redirects(cfg: Config, path: Seq<char>, ignored_is_dir: bool, authorization: Option<Seq<char>>)
    requires
        cfg.clean_urls == Some(CleanUrls::Boolean(true)),
        ends_with(path, ".html"@),
        !ignored(relative(path), ignored_is_dir, ignore_globs(cfg)),
        !auth_denied(cfg, path, authorization),
        redirect_for(cfg, path) is None,
    ensures
        route(cfg, path, ignored_is_dir, authorization) == RouteView::Reply(ReplyView::Redirect {
            status: 301,
            location: path.subrange(0, path.len() - 5),
        }),
        path.subrange(0, path.len() - 5) + ".html"@ == path,
{
    reveal_strlit(".html");
    assert(path.subrange(0, path.len() - 5) + path.subrange(path.len() - 5, path.len() as int) =~= path);
}

proof fn lemma_sendable_contains(hs: Seq<Header>, m: int)
    requires
        0 <= m < hs.len(),
        header_sendable(hs[m]),
    ensures
        sendable_headers(hs).contains((hs[m].key@, hs[m].value@)),
    decreases hs.len(),
{
    let rest = sendable_headers(hs.drop_last());
    if m == hs.len() - 1 {
        assert(rest.push((hs[m].key@, hs[m].value@))[rest.len() as int] == (hs[m].key@, hs[m].value@));
    } else {
        assert(hs.drop_last()[m] == hs[m]);
        lemma_sendable_contains(hs.drop_last(), m);
        let k = choose|k: int| 0 <= k < rest.len() && rest[k] == (hs[m].key@, hs[m].value@);
        if header_sendable(hs.last()) {
            assert(rest.push((hs.last().key@, hs.last().value@))[k] == rest[k]);
        }
    }
}

proof fn lemma_sendable_only(hs: Seq<Header>, h: HeaderView)
    ensures
        sendable_headers(hs).contains(h) ==> exists|m: int|
            0 <= m < hs.len() && header_sendable(#[trigger] hs[m]) && h == (hs[m].key@, hs[m].value@),
    decreases hs.len(),
{
    if hs.len() > 0 {
        let rest = sendable_headers(hs.drop_last());
        lemma_sendable_only(hs.drop_last(), h);
        if sendable_headers(hs).contains(h) {
            let k = choose|k: int| 0 <= k < sendable_headers(hs).len() && sendable_headers(hs)[k] == h;
            if k < rest.len() {
                if header_sendable(hs.last()) {
                    assert(rest.push((hs.last().key@, hs.last().value@))[k] == rest[k]);
                }
                assert(rest.contains(h));
                let m = choose|m: int| 0 <= m < hs.drop_last().len() && header_sendable(#[trigger] hs.drop_last()[m])
                    && h == (hs.drop_last()[m].key@, hs.drop_last()[m].value@);
                assert(hs.drop_last()[m] == hs[m]);
            } else {
                assert(header_sendable(hs.last()));
                assert(h == (hs[hs.len() - 1].key@, hs[hs.len() - 1].value@));
            }
        }
    }
}

/// Every header rule whose glob selects the path adds each of its sendable
/// headers, after those of the earlier rules; rules that do not select it add
/// nothing.
pub proof fn law_matching_rules_add_headers(rules: Seq<HeaderRule>, path: Seq<char>, i: int, m: int)
    requires
        0 <= i < rules.len(),
        glob_hits(rules[i].source@, path),
        0 <= m < rules[i].headers@.len(),
        header_sendable(rules[i].headers@[m]),
    ensures
        rule_headers(rules, path).contains((rules[i].headers@[m].key@, rules[i].headers@[m].value@)),
        rule_headers(rules.take(i + 1), path) == rule_headers(rules.take(i), path) + sendable_headers(rules[i].headers@),
    decreases rules.len(),
{
    let h = (rules[i].headers@[m].key@, rules[i].headers@[m].value@);
    assert(rules.take(i + 1).drop_last() =~= rules.take(i));
    assert(rules.take(i + 1).last() == rules[i]);
    if i == rules.len() - 1 {
        lemma_sendable_contains(rules[i].headers@, m);
        let rest = rule_headers(rules.drop_last(), path);
        let add = sendable_headers(rules[i].headers@);
        let k = choose|k: int| 0 <= k < add.len() && add[k] == h;
        assert((rest + add)[rest.len() + k] == h);
    } else {
        assert(rules.drop_last()[i] == rules[i]);
        assert(rules.drop_last().take(i + 1) =~= rules.take(i + 1));
        assert(rules.drop_last().take(i) =~= rules.take(i));
        law_matching_rules_add_headers(rules.drop_last(), path, i, m);
        let rest = rule_headers(rules.drop_last(), path);
        let k = choose|k: int| 0 <= k < rest.len() && rest[k] == h;
        if glob_hits(rules.last().source@, path) {
            assert((rest + sendable_headers(rules.last().headers@))[k] == h);
        }
    }
}

/// Only the rules that select the path add headers, and only their sendable
/// ones.
pub proof fn law_headers_come_from_matching_rules(rules: Seq<HeaderRule>, path: Seq<char>, h: HeaderView)
    ensures
        rule_headers(rules, path).contains(h) ==> exists|i: int, m: int|
            0 <= i < rules.len() && glob_hits(#[trigger] rules[i].source@, path) && 0 <= m < rules[i].headers@.len()
                && header_sendable(#[trigger] rules[i].headers@[m]) && h == (rules[i].headers@[m].key@, rules[i].headers@[m].value@),
    decreases rules.len(),
{
    if rules.len() > 0 && rule_headers(rules, path).contains(h) {
        let rest = rule_headers(rules.drop_last(), path);
        law_headers_come_from_matching_rules(rules.drop_last(), path, h);
        let last = rules.len() - 1;
        if rest.contains(h) {
            let (i, m) = choose|i: int, m: int|
                0 <= i < rules.drop_last().len() && glob_hits(#[trigger] rules.drop_last()[i].source@, path) && 0 <= m
                    < rules.drop_last()[i].headers@.len() && header_sendable(#[trigger] rules.drop_last()[i].headers@[m])
                    && h == (rules.drop_last()[i].headers@[m].key@, rules.drop_last()[i].headers@[m].value@);
            assert(rules.drop_last()[i] == rules[i]);
            assert(glob_hits(rules[i].source@, path) && header_sendable(rules[i].headers@[m]));
        } else {
            assert(glob_hits(rules[last].source@, path));
            let add = sendable_headers(rules[last].headers@);
            let k = choose|k: int| 0 <= k < (rest + add).len() && (rest + add)[k] == h;
            if k < rest.len() {
                assert(rest[k] == h);
            }
            assert(add[k - rest.len()] == h);
            lemma_sendable_only(rules[last].headers@, h);
            let m = choose|m: int| 0 <= m < rules[last].headers@.len() && header_sendable(#[trigger] rules[last].headers@[m])
                && h == (rules[last].headers@[m].key@, rules[last].headers@[m].value@);
            assert(glob_hits(rules[last].source@, path) && header_sendable(rules[last].headers@[m]));
        }
    }
}

/// The status of a redirect: its type where that is a status from 100 to
/// 999, else 301 (also where no type is given).
pub proof fn law_redirect_status(ty: Option<u16>)
    ensures
        ty is None ==> redirect_status(ty) == 301,
        forall|c: u16| ty == Some(c) && 100 <= c <= 999 ==> redirect_status(ty) == c,
        forall|c: u16| ty == Some(c) && !(100 <= c <= 999) ==> redirect_status(ty) == 301,
{
}

proof fn lemma_trim_trailing_shape(p: Seq<char>, c: char)
    ensures
        trim_trailing(p, c).len() <= p.len(),
        trim_trailing(p, c) == p.subrange(0, trim_trailing(p, c).len() as int),
        forall|j: int| trim_trailing(p, c).len() <= j < p.len() ==> p[j] == c,
        !ends_with_char(trim_trailing(p, c), c),
    decreases p.len(),
{
    if p.len() > 0 && p.last() == c {
        lemma_trim_trailing_shape(p.drop_last(), c);
        let t = trim_trailing(p, c);
        assert(p.drop_last().subrange(0, t.len() as int) =~= p.subrange(0, t.len() as int));
        assert forall|j: int| t.len() <= j < p.len() implies p[j] == c by {
            if j < p.len() - 1 {
                assert(p.drop_last()[j] == p[j]);
            }
        }
    } else {
        assert(p.subrange(0, p.len() as int) =~= p);
    }
}

/// `trailingSlash: true` adds a slash to a path that ends in none and holds
/// no dot; `false` strips the trailing slashes of any path but `/`, leaving
/// a prefix of the path followed only by slashes and not ending in one;
/// absent, no path is redirected.
pub proof fn law_trailing_slash_option(path: Seq<char>)
    ensures
        trailing_slash_target(None, path) is None,
        !ends_with_char(path, '/') && !path.contains('.') ==> trailing_slash_target(Some(true), path) == Some(path.push('/')),
        ends_with_char(path, '/') || path.contains('.') ==> trailing_slash_target(Some(true), path) is None,
        !ends_with_char(path, '/') || path == seq!['/'] ==> trailing_slash_target(Some(false), path) is None,
        trailing_slash_target(Some(false), path) matches Some(t) ==> {
            &&& t.len() < path.len()
            &&& t == path.subrange(0, t.len() as int)
            &&& !ends_with_char(t, '/')
            &&& forall|j: int| t.len() <= j < path.len() ==> path[j] == '/'
        },
{
    lemma_trim_trailing_shape(path, '/');
}

/// The first rewrite whose source selects the path decides where it is
/// looked up: its destination is served in place of the path.
pub proof fn law_first_rewrite_applies(cfg: Config, path: Seq<char>, i: int)
    requires
        cfg.rewrites is Some,
        0 <= i < cfg.rewrites->0@.len(),
        glob_hits(cfg.rewrites->0@[i].source@, path),
        forall|j: int| 0 <= j < i ==> !glob_hits(#[trigger] cfg.rewrites->0@[j].source@, path),
    ensures
        rewritten(cfg, path) == cfg.rewrites->0@[i].destination@,
        rewrite_fired(cfg, path),
{
    let v = cfg.rewrites->0@;
    let srcs = rewrite_sources(v);
    assert forall|j: int| 0 <= j < i implies !glob_hits(#[trigger] srcs[j], path) by {
        assert(srcs[j] == v[j].source@);
    }
    assert(srcs[i] == v[i].source@);
    lemma_first_hit(srcs, path, i);
}

/// A path that no rewrite selects is looked up as it is.
pub proof fn law_unrewritten_path(cfg: Config, path: Seq<char>)
    requires
        cfg.rewrites is Some ==> forall|j: int| 0 <= j < cfg.rewrites->0@.len() ==> !glob_hits(
            #[trigger] cfg.rewrites->0@[j].source@,
            path,
        ),
    ensures
        rewritten(cfg, path) == path,
        !rewrite_fired(cfg, path),
{
    if cfg.rewrites is Some {
        let v = cfg.rewrites->0@;
        let srcs = rewrite_sources(v);
        assert forall|j: int| 0 <= j < srcs.len() implies !glob_hits(#[trigger] srcs[j], path) by {
            assert(srcs[j] == v[j].source@);
        }
        lemma_first_hit(srcs, path, srcs.len() as int);
    }
}

/// The redirect that applies to a path is the first whose source selects
/// it; where none does, no redirect applies.
pub proof fn law_first_redirect_applies(cfg: Config, path: Seq<char>, i: int)
    requires
        cfg.redirects is Some,
        0 <= i <= cfg.redirects->0@.len(),
        forall|j: int| 0 <= j < i ==> !glob_hits(#[trigger] cfg.redirects->0@[j].source@, path),
    ensures
        i < cfg.redirects->0@.len() && glob_hits(cfg.redirects->0@[i].source@, path) ==> redirect_for(cfg, path) == Some(
            cfg.redirects->0@[i],
        ),
        i == cfg.redirects->0@.len() ==> redirect_for(cfg, path) is None,
{
    let v = cfg.redirects->0@;
    let srcs = redirect_sources(v);
    assert forall|j: int| 0 <= j < i implies !glob_hits(#[trigger] srcs[j], path) by {
        assert(srcs[j] == v[j].source@);
    }
    if i < v.len() {
        assert(srcs[i] == v[i].source@);
    }
    lemma_first_hit(srcs, path, i);
}

/// A path that is not ignored is challenged exactly when a rule protects it
/// and the request does not carry, as `Authorization`, that rule's user name
/// and password in Basic form; a rule without a password admits nobody.
pub proof fn law_challenge_exactly_without_credentials(
    cfg: Config,
    path: Seq<char>,
    ignored_is_dir: bool,
    authorization: Option<Seq<char>>,
)
    requires
        !ignored(relative(path), ignored_is_dir, ignore_globs(cfg)),
    ensures
        auth_rule(cfg, path) is None ==> route(cfg, path, ignored_is_dir, authorization) != RouteView::Reply(challenge()),
        auth_rule(cfg, path) matches Some(rule) ==> (route(cfg, path, ignored_is_dir, authorization) == RouteView::Reply(
            challenge(),
        ) <==> !(rule.password is Some && authorization == Some(
            crate::auth::basic_credentials(rule.username@, rule.password->0@),
        ))),
{
}

} // verus!
