//! Serving a routed path from the file system: a state machine that asks the
//! caller one file system question at a time (does it exist, is it a
//! directory, is it a symlink, what does it hold) and ends in the reply.

use vstd::prelude::*;
use crate::config::{Config, DirectoryListing, Header};
use crate::ranges::{
    RangeRequest,
    content_range, content_range_value, parse_range, parse_range_header, select_bytes, selected_bytes, streamed,
    is_streamed, unsatisfied_range, unsatisfied_range_value,
};
use crate::content::{content_type_for, etag_of, mime_type_of, weak_etag};
use crate::handler::{
    Body, BodyView, HeaderView, Reply, ReplyView, RequestInfo, RequestView, Route, RouteView, header_views,
    rewrite_fired, config_headers, header_key, effective_headers, lemma_effective_push, lemma_effective_last_wins,
    ignore_globs, not_found, opt_view,
    not_found_reply, relative, relative_path, route, route_request, server_error, server_error_reply,
    symlink_refused,
};
use crate::listing::{DirEntry, EntryView, entry_views, listing_entries, listing_page, render_directory_listing};
use crate::patterns::{any_glob_hits, any_glob_selects, string_views};
use crate::text::{chars_of, ends_with, vec_ends_with};

verus! {

/// Which file a question is about, all below the lookup root of the
/// resolution (the `public` subdirectory of the served directory when one is
/// configured, else the served directory itself) at the relative path: that
/// path itself, or with its extension set to `html` (`html`), and then, if
/// `index`, the `index.html` inside it.
#[derive(Debug, Clone, Copy, PartialEq, Eq)]
pub struct Target {
    pub html: bool,
    pub index: bool,
}

/// The relative path itself.
pub open spec fn direct() -> Target {
    Target { html: false, index: false }
}

/// A question about the file system.
#[derive(Debug, Clone, Copy, PartialEq, Eq)]
pub enum Probe {
    /// Does the target exist?
    Exists(Target),
    /// Is the target a directory?
    IsDir(Target),
    /// Is the target a symlink (false where its metadata cannot be read)?
    IsSymlink(Target),
    /// What are the entries of the target directory?
    ListDir(Target),
    /// What are the bytes of the target file?
    Read(Target),
}

/// Where the resolution stands: which answer it waits for.
#[derive(Debug, Clone, Copy, PartialEq, Eq)]
pub enum Stage {
    /// Whether the path exists.
    Direct,
    /// Whether the path with the `html` extension exists.
    Html,
    /// Whether the target is a directory.
    Dir,
    /// Whether the directory found is a symlink (asked when symlinks are not
    /// allowed).
    DirLink,
    /// Whether the directory holds `index.html`.
    Index,
    /// The entries of the directory to list.
    Listing,
    /// Whether the target exists.
    Exists,
    /// Whether the target is a symlink.
    Symlink,
    /// Whether the target is a directory, just before reading it.
    NotDir,
    /// The bytes of the target.
    Read,
}

/// A resolution in progress.
#[derive(Debug)]
pub struct Resolution {
    /// The answer it waits for.
    pub stage: Stage,
    /// The file it is about.
    pub target: Target,
    /// The routed (rewritten) request path.
    pub path: String,
    /// The directory below the served one that files are looked up in
    /// (`public`), if any.
    pub root: Option<String>,
    /// The routed path relative to the lookup root.
    pub rel: String,
    /// The headers gathered by the routing rules.
    pub headers: Vec<Header>,
    /// Whether a rewrite applied to the request.
    pub rewrote: bool,
    /// Whether the single page application fallback to `/index.html` was
    /// taken.
    pub fallback: bool,
}

/// The view of a resolution.
pub struct ResolutionView {
    pub stage: Stage,
    pub target: Target,
    pub path: Seq<char>,
    pub root: Option<Seq<char>>,
    pub rel: Seq<char>,
    pub headers: Seq<HeaderView>,
    pub rewrote: bool,
    pub fallback: bool,
}

impl View for Resolution {
    type V = ResolutionView;

    open spec fn view(&self) -> ResolutionView {
        ResolutionView {
            stage: self.stage,
            target: self.target,
            path: self.path@,
            root: opt_view(self.root),
            rel: self.rel@,
            headers: header_views(self.headers@),
            rewrote: self.rewrote,
            fallback: self.fallback,
        }
    }
}

/// A file read from the file system: its path (as text) and its bytes.
#[derive(Debug)]
pub struct FileContents {
    pub path: String,
    pub bytes: Vec<u8>,
}

/// The caller's answer to a probe.
#[derive(Debug)]
pub enum Answer {
    /// The answer to `Exists`, `IsDir` or `IsSymlink`.
    Flag(bool),
    /// The entries of a directory, or `None` where reading it failed.
    Entries(Option<Vec<DirEntry>>),
    /// The contents of a file, or `None` where reading it failed.
    Contents(Option<FileContents>),
}

/// The view of an answer.
pub enum AnswerView {
    Flag(bool),
    Entries(Option<Seq<EntryView>>),
    Contents(Option<(Seq<char>, Seq<u8>)>),
}

impl View for Answer {
    type V = AnswerView;

    open spec fn view(&self) -> AnswerView {
        match self {
            Answer::Flag(b) => AnswerView::Flag(*b),
            Answer::Entries(Some(es)) => AnswerView::Entries(Some(entry_views(es@))),
            Answer::Entries(None) => AnswerView::Entries(None),
            Answer::Contents(Some(c)) => AnswerView::Contents(Some((c.path@, c.bytes@))),
            Answer::Contents(None) => AnswerView::Contents(None),
        }
    }
}

/// What comes next: a question to the caller, or the reply.
#[derive(Debug)]
pub enum Next {
    Ask(Resolution, Probe),
    Done(Reply),
}

/// The view of what comes next.
pub enum NextView {
    Ask(ResolutionView, Probe),
    Done(ReplyView),
}

impl View for Next {
    type V = NextView;

    open spec fn view(&self) -> NextView {
        match self {
            Next::Ask(r, p) => NextView::Ask(r@, *p),
            Next::Done(r) => NextView::Done(r@),
        }
    }
}

/// The answer `a` is of the kind that stage `s` waits for.
pub open spec fn answer_fits(s: Stage, a: AnswerView) -> bool {
    match s {
        Stage::Listing => a is Entries,
        Stage::Read => a is Contents,
        _ => a is Flag,
    }
}

/// The probe `p` asks what stage `s` waits for.
pub open spec fn probe_fits(s: Stage, p: Probe) -> bool {
    match s {
        Stage::Direct | Stage::Html | Stage::Index | Stage::Exists => p is Exists,
        Stage::Dir | Stage::NotDir => p is IsDir,
        Stage::Symlink | Stage::DirLink => p is IsSymlink,
        Stage::Listing => p is ListDir,
        Stage::Read => p is Read,
    }
}

/// Directories without an index are listed at `path` (by default they are).
pub open spec fn listing_enabled(cfg: Config, path: Seq<char>) -> bool {
    match cfg.directory_listing {
        Some(DirectoryListing::Boolean(b)) => b,
        Some(DirectoryListing::Globs(g)) => any_glob_hits(string_views(g@), path),
        None => true,
    }
}

/// Symlinks may be served (by default they may not).
pub open spec fn symlinks_allowed(cfg: Config) -> bool {
    match cfg.symlinks {
        Some(b) => b,
        None => false,
    }
}

/// ETags are generated (by default they are).
pub open spec fn etag_enabled(cfg: Config) -> bool {
    match cfg.etag {
        Some(b) => b,
        None => true,
    }
}

/// A missing target of `r` falls back to `/index.html`: single page
/// application mode is on, no rewrite applied to the request, and the
/// fallback was not taken yet.
pub open spec fn spa_fallback(cfg: Config, r: ResolutionView) -> bool {
    cfg.spa == Some(true) && !r.rewrote && !r.fallback
}

/// The part of a file of bytes `bytes` that the request's `Range` header
/// selects, with the headers `hs` gathered so far: `206 Partial Content` with
/// the selected bytes and their `Content-Range`, or `416 Range Not
/// Satisfiable` with the file's length; the whole file with `200` where the
/// header asks for no single byte range.
pub open spec fn range_reply(range: Option<Seq<char>>, hs: Seq<HeaderView>, bytes: Seq<u8>) -> ReplyView {
    let parsed = match range {
        Some(h) => parse_range(h),
        None => None,
    };
    match parsed {
        Some(r) => match selected_bytes(r, bytes.len()) {
            Some((first, last)) => ReplyView::Page {
                status: 206,
                headers: hs.push(("content-range"@, content_range(first, last, bytes.len()))),
                body: BodyView::Bytes(bytes.subrange(first as int, last + 1int)),
            },
            None => ReplyView::Page {
                status: 416,
                headers: hs.push(("content-range"@, unsatisfied_range(bytes.len()))),
                body: BodyView::Empty,
            },
        },
        None => ReplyView::Page { status: 200, headers: hs, body: BodyView::Bytes(bytes) },
    }
}

/// The reply with a file at `path` holding `bytes`: its media type is added
/// to the headers, and for a streamed file `Accept-Ranges: bytes`; with ETags
/// on, a request whose `If-None-Match` equals the file's ETag is answered 304
/// without body, any other gets the ETag; a streamed file then answers the
/// request's `Range` (see `range_reply`), any other file is sent whole with
/// 200.
pub open spec fn file_reply(cfg: Config, req: RequestView, headers: Seq<HeaderView>, path: Seq<char>, bytes: Seq<u8>) -> ReplyView {
    let with_type = headers.push(("content-type"@, mime_type_of(path)));
    let base = if streamed(cfg, path) { with_type.push(("accept-ranges"@, "bytes"@)) } else { with_type };
    if etag_enabled(cfg) && req.if_none_match == Some(etag_of(bytes)) {
        ReplyView::Page { status: 304, headers: base, body: BodyView::Empty }
    } else {
        let hs = if etag_enabled(cfg) { base.push(("etag"@, etag_of(bytes))) } else { base };
        if streamed(cfg, path) {
            range_reply(req.range, hs, bytes)
        } else {
            ReplyView::Page { status: 200, headers: hs, body: BodyView::Bytes(bytes) }
        }
    }
}

/// The resolution `r` moved to stage `s` and target `t`.
pub open spec fn moved(r: ResolutionView, s: Stage, t: Target) -> ResolutionView {
    ResolutionView { stage: s, target: t, ..r }
}

/// How a request starts: the routing rules answer it, or its resolution
/// starts by asking whether the routed path exists.
pub open spec fn start(cfg: Config, req: RequestView, ignored_is_dir: bool) -> NextView {
    match route(cfg, req.path, ignored_is_dir, req.authorization) {
        RouteView::Reply(r) => NextView::Done(r),
        RouteView::Serve { path: p, headers, rewrote } => NextView::Ask(
            ResolutionView {
                stage: Stage::Direct,
                target: direct(),
                path: p,
                root: opt_view(cfg.public),
                rel: relative(p),
                headers,
                rewrote,
                fallback: false,
            },
            Probe::Exists(direct()),
        ),
    }
}

/// The resolution restarted on `/index.html`, for the single page
/// application fallback.
pub open spec fn restart_on_index(r: ResolutionView) -> ResolutionView {
    ResolutionView {
        stage: Stage::Direct,
        target: direct(),
        path: "/index.html"@,
        root: r.root,
        rel: "index.html"@,
        headers: r.headers,
        rewrote: r.rewrote,
        fallback: true,
    }
}

/// One step of the resolution: from stage and answer to the next question or
/// the reply. A missing path not ending in `.html` is tried with the `html`
/// extension; a directory is served by its `index.html`, else listed (where
/// listing is on) or not found; a missing target is not found; a symlink is
/// refused unless symlinks are allowed, a directory as well as a file; a
/// directory is not read; a file is served by `file_reply`; a failed read is a
/// server error. A missing target falls back once to `/index.html` in single
/// page application mode, unless a rewrite applied.
pub open spec fn step(cfg: Config, req: RequestView, r: ResolutionView, a: AnswerView) -> NextView {
    let t = r.target;
    match (r.stage, a) {
        (Stage::Direct, AnswerView::Flag(exists)) => if !exists && !ends_with(r.path, ".html"@) {
            NextView::Ask(moved(r, Stage::Html, Target { html: true, index: false }), Probe::Exists(Target { html: true, index: false }))
        } else {
            NextView::Ask(moved(r, Stage::Dir, direct()), Probe::IsDir(direct()))
        },
        (Stage::Html, AnswerView::Flag(exists)) => {
            let nt = if exists { t } else { direct() };
            NextView::Ask(moved(r, Stage::Dir, nt), Probe::IsDir(nt))
        },
        (Stage::Dir, AnswerView::Flag(is_dir)) => if is_dir {
            if symlinks_allowed(cfg) {
                NextView::Ask(moved(r, Stage::Index, t), Probe::Exists(Target { index: true, ..t }))
            } else {
                NextView::Ask(moved(r, Stage::DirLink, t), Probe::IsSymlink(t))
            }
        } else {
            NextView::Ask(moved(r, Stage::Exists, t), Probe::Exists(t))
        },
        (Stage::DirLink, AnswerView::Flag(is_link)) => if is_link {
            NextView::Done(symlink_refused())
        } else {
            NextView::Ask(moved(r, Stage::Index, t), Probe::Exists(Target { index: true, ..t }))
        },
        (Stage::Index, AnswerView::Flag(exists)) => if exists {
            NextView::Ask(moved(r, Stage::Exists, Target { index: true, ..t }), Probe::Exists(Target { index: true, ..t }))
        } else if listing_enabled(cfg, r.path) {
            NextView::Ask(moved(r, Stage::Listing, t), Probe::ListDir(t))
        } else {
            NextView::Done(not_found(r.headers))
        },
        (Stage::Listing, AnswerView::Entries(entries)) => match entries {
            Some(es) => NextView::Done(ReplyView::Page {
                status: 200,
                headers: r.headers,
                body: BodyView::Html(listing_page(r.path, listing_entries(r.path, es, ignore_globs(cfg)))),
            }),
            None => NextView::Done(server_error()),
        },
        (Stage::Exists, AnswerView::Flag(exists)) => if !exists {
            if spa_fallback(cfg, r) {
                NextView::Ask(restart_on_index(r), Probe::Exists(direct()))
            } else {
                NextView::Done(not_found(r.headers))
            }
        } else {
            NextView::Ask(moved(r, Stage::Symlink, t), Probe::IsSymlink(t))
        },
        (Stage::Symlink, AnswerView::Flag(is_link)) => if is_link && !symlinks_allowed(cfg) {
            NextView::Done(symlink_refused())
        } else {
            NextView::Ask(moved(r, Stage::NotDir, t), Probe::IsDir(t))
        },
        (Stage::NotDir, AnswerView::Flag(is_dir)) => if is_dir {
            NextView::Done(not_found(r.headers))
        } else {
            NextView::Ask(moved(r, Stage::Read, t), Probe::Read(t))
        },
        (Stage::Read, AnswerView::Contents(contents)) => match contents {
            Some((p, bytes)) => NextView::Done(file_reply(cfg, req, r.headers, p, bytes)),
            None => NextView::Done(server_error()),
        },
        _ => NextView::Done(server_error()),
    }
}

fn with_stage(r: Resolution, s: Stage, t: Target) -> (n: Resolution)
    ensures
        n@ == moved(r@, s, t),
{
    Resolution {
        stage: s,
        target: t,
        path: r.path,
        root: r.root,
        rel: r.rel,
        headers: r.headers,
        rewrote: r.rewrote,
        fallback: r.fallback,
    }
}

/// Starts answering a request for `path`: the routing rules answer it, or the
/// resolution asks its first question. `ignored_is_dir` tells whether the path
/// below the public directory is a directory.
pub fn begin(cfg: &Config, req: &RequestInfo, ignored_is_dir: bool) -> (n: Next)
    ensures
        n@ == start(*cfg, req@, ignored_is_dir),
        n matches Next::Ask(r, p) ==> probe_fits(r.stage, p),
{
    match route_request(cfg, &req.path, ignored_is_dir, &req.authorization) {
        Route::Reply(r) => Next::Done(r),
        Route::Serve { path: p, headers, rewrote } => {
            let rel = relative_path(&p);
            let t = Target { html: false, index: false };
            let root = match &cfg.public {
                Some(d) => Some(d.clone()),
                None => None,
            };
            Next::Ask(
                Resolution { stage: Stage::Direct, target: t, path: p, root, rel, headers, rewrote, fallback: false },
                Probe::Exists(t),
            )
        },
    }
}

fn listing_on(cfg: &Config, path: &String) -> (b: bool)
    ensures
        b == listing_enabled(*cfg, path@),
{
    match &cfg.directory_listing {
        Some(DirectoryListing::Boolean(b)) => *b,
        Some(DirectoryListing::Globs(g)) => any_glob_selects(g, path.as_str()),
        None => true,
    }
}

fn range_part(range: &Option<String>, hs: Vec<Header>, bytes: Vec<u8>) -> (r: Reply)
    ensures
        r@ == range_reply(opt_view(*range), header_views(hs@), bytes@),
{
    let parsed = match range {
        Some(h) => parse_range_header(h.as_str()),
        None => None,
    };
    let mut hs = hs;
    let ghost before = hs@;
    match parsed {
        Some(r) => match select_bytes(r, bytes.len()) {
            Some((first, last)) => {
                hs.push(Header { key: "content-range".to_string(), value: content_range_value(first, last, bytes.len()) });
                assert(header_views(hs@) =~= header_views(before).push(
                    ("content-range"@, content_range(first as nat, last as nat, bytes@.len())),
                ));
                let mut part: Vec<u8> = Vec::new();
                let mut i = first;
                while i <= last
                    invariant
                        first <= last < bytes.len(),
                        first <= i <= last + 1,
                        part@ == bytes@.subrange(first as int, i as int),
                    decreases last + 1 - i,
                {
                    part.push(bytes[i]);
                    i += 1;
                    assert(part@ =~= bytes@.subrange(first as int, i as int));
                }
                Reply::Page { status: 206, headers: hs, body: Body::Bytes(part) }
            },
            None => {
                hs.push(Header { key: "content-range".to_string(), value: unsatisfied_range_value(bytes.len()) });
                assert(header_views(hs@) =~= header_views(before).push(("content-range"@, unsatisfied_range(bytes@.len()))));
                Reply::Page { status: 416, headers: hs, body: Body::Empty }
            },
        },
        None => Reply::Page { status: 200, headers: hs, body: Body::Bytes(bytes) },
    }
}

fn serve_file(cfg: &Config, req: &RequestInfo, headers: Vec<Header>, file: FileContents) -> (r: Reply)
    ensures
        r@ == file_reply(*cfg, req@, header_views(headers@), file.path@, file.bytes@),
{
    let mut hs = headers;
    let ghost before = hs@;
    hs.push(Header { key: "content-type".to_string(), value: content_type_for(file.path.as_str()) });
    assert(header_views(hs@) =~= header_views(before).push(("content-type"@, mime_type_of(file.path@))));
    let stream = is_streamed(cfg, file.path.as_str());
    if stream {
        let ghost mid = hs@;
        hs.push(Header { key: "accept-ranges".to_string(), value: "bytes".to_string() });
        assert(header_views(hs@) =~= header_views(mid).push(("accept-ranges"@, "bytes"@)));
    }
    let etag_on = match cfg.etag {
        Some(b) => b,
        None => true,
    };
    if etag_on {
        let tag = weak_etag(file.bytes.as_slice());
        let fresh = match &req.if_none_match {
            Some(s) => *s == tag,
            None => false,
        };
        if fresh {
            return Reply::Page { status: 304, headers: hs, body: Body::Empty };
        }
        let ghost mid = hs@;
        hs.push(Header { key: "etag".to_string(), value: tag });
        assert(header_views(hs@) =~= header_views(mid).push(("etag"@, etag_of(file.bytes@))));
    }
    if stream {
        range_part(&req.range, hs, file.bytes)
    } else {
        Reply::Page { status: 200, headers: hs, body: Body::Bytes(file.bytes) }
    }
}

/// Moves the resolution `res` one step on with the caller's answer to its
/// question: the next question, or the reply.
pub fn advance(cfg: &Config, req: &RequestInfo, res: Resolution, answer: Answer) -> (n: Next)
    requires
        answer_fits(res.stage, answer@),
    ensures
        n@ == step(*cfg, req@, res@, answer@),
        n matches Next::Ask(r, p) ==> probe_fits(r.stage, p),
{
    let t = res.target;
    match (res.stage, answer) {
        (Stage::Direct, Answer::Flag(exists)) => {
            let ends_html = vec_ends_with(&chars_of(res.path.as_str()), &chars_of(".html"));
            if !exists && !ends_html {
                let h = Target { html: true, index: false };
                Next::Ask(with_stage(res, Stage::Html, h), Probe::Exists(h))
            } else {
                let d = Target { html: false, index: false };
                Next::Ask(with_stage(res, Stage::Dir, d), Probe::IsDir(d))
            }
        },
        (Stage::Html, Answer::Flag(exists)) => {
            let nt = if exists { t } else { Target { html: false, index: false } };
            Next::Ask(with_stage(res, Stage::Dir, nt), Probe::IsDir(nt))
        },
        (Stage::Dir, Answer::Flag(is_dir)) => {
            let allowed = match cfg.symlinks {
                Some(b) => b,
                None => false,
            };
            if is_dir && allowed {
                Next::Ask(with_stage(res, Stage::Index, t), Probe::Exists(Target { index: true, ..t }))
            } else if is_dir {
                Next::Ask(with_stage(res, Stage::DirLink, t), Probe::IsSymlink(t))
            } else {
                Next::Ask(with_stage(res, Stage::Exists, t), Probe::Exists(t))
            }
        },
        (Stage::DirLink, Answer::Flag(is_link)) => {
            if is_link {
                Next::Done(Reply::Bare { status: 404, text: "Forbidden (Symlink)".to_string() })
            } else {
                Next::Ask(with_stage(res, Stage::Index, t), Probe::Exists(Target { index: true, ..t }))
            }
        },
        (Stage::Index, Answer::Flag(exists)) => {
            if exists {
                let it = Target { index: true, ..t };
                Next::Ask(with_stage(res, Stage::Exists, it), Probe::Exists(it))
            } else if listing_on(cfg, &res.path) {
                Next::Ask(with_stage(res, Stage::Listing, t), Probe::ListDir(t))
            } else {
                Next::Done(not_found_reply(res.headers))
            }
        },
        (Stage::Listing, Answer::Entries(entries)) => match entries {
            Some(es) => {
                let empty: Vec<String> = Vec::new();
                let globs = match &cfg.ignore {
                    Some(g) => g,
                    None => &empty,
                };
                assert(string_views(globs@) == ignore_globs(*cfg)) by {
                    assert(string_views(empty@) =~= Seq::<Seq<char>>::empty());
                }
                let html = render_directory_listing(&res.path, &es, globs);
                Next::Done(Reply::Page { status: 200, headers: res.headers, body: Body::Html(html) })
            },
            None => Next::Done(server_error_reply()),
        },
        (Stage::Exists, Answer::Flag(exists)) => {
            if !exists {
                let fallback = match cfg.spa {
                    Some(b) => b,
                    None => false,
                } && !res.rewrote && !res.fallback;
                if fallback {
                    let d = Target { html: false, index: false };
                    let restarted = Resolution {
                        stage: Stage::Direct,
                        target: d,
                        path: "/index.html".to_string(),
                        root: res.root,
                        rel: "index.html".to_string(),
                        headers: res.headers,
                        rewrote: res.rewrote,
                        fallback: true,
                    };
                    Next::Ask(restarted, Probe::Exists(d))
                } else {
                    Next::Done(not_found_reply(res.headers))
                }
            } else {
                Next::Ask(with_stage(res, Stage::Symlink, t), Probe::IsSymlink(t))
            }
        },
        (Stage::Symlink, Answer::Flag(is_link)) => {
            let allowed = match cfg.symlinks {
                Some(b) => b,
                None => false,
            };
            if is_link && !allowed {
                Next::Done(Reply::Bare { status: 404, text: "Forbidden (Symlink)".to_string() })
            } else {
                Next::Ask(with_stage(res, Stage::NotDir, t), Probe::IsDir(t))
            }
        },
        (Stage::NotDir, Answer::Flag(is_dir)) => {
            if is_dir {
                Next::Done(not_found_reply(res.headers))
            } else {
                Next::Ask(with_stage(res, Stage::Read, t), Probe::Read(t))
            }
        },
        (Stage::Read, Answer::Contents(contents)) => match contents {
            Some(file) => Next::Done(serve_file(cfg, req, res.headers, file)),
            None => Next::Done(server_error_reply()),
        },
        (_, _) => Next::Done(server_error_reply()),
    }
}

// ---------------------------------------------------------------------------
// Laws of the resolution.

/// How far a resolution has come: each question moves it further.
pub open spec fn stage_rank(s: Stage) -> int {
    match s {
        Stage::Direct => 0,
        Stage::Html => 1,
        Stage::Dir => 2,
        Stage::DirLink => 3,
        Stage::Index => 4,
        Stage::Listing => 5,
        Stage::Exists => 5,
        Stage::Symlink => 6,
        Stage::NotDir => 7,
        Stage::Read => 8,
    }
}

/// How far a resolution has come, counting the fallback to `/index.html`.
pub open spec fn progress(r: ResolutionView) -> int {
    stage_rank(r.stage) + if r.fallback { 9int } else { 0int }
}

/// Every step either replies or asks a question of the kind its new stage
/// waits for, from further on, keeping the gathered headers and the lookup
/// root: a request is answered after at most eighteen questions.
pub proof fn law_resolution_progresses(cfg: Config, req: RequestView, r: ResolutionView, a: AnswerView)
    requires
        answer_fits(r.stage, a),
    ensures
        step(cfg, req, r, a) matches NextView::Ask(r2, p) ==> {
            &&& probe_fits(r2.stage, p)
            &&& progress(r2) > progress(r)
            &&& progress(r2) <= 17
            &&& r2.headers == r.headers
            &&& r2.root == r.root
            &&& (r2.fallback == r.fallback ==> r2.path == r.path && r2.rel == r.rel)
        },
{
}

/// The first question of a served request is whether the routed path exists,
/// below the `public` directory where one is configured.
pub proof fn law_start_asks_existence(cfg: Config, req: RequestView, ignored_is_dir: bool)
    ensures
        start(cfg, req, ignored_is_dir) matches NextView::Ask(r, p) ==> {
            &&& r.stage == Stage::Direct
            &&& p == Probe::Exists(direct())
            &&& progress(r) == 0
            &&& r.root == opt_view(cfg.public)
            &&& r.rel == relative(r.path)
            &&& r.rewrote == rewrite_fired(cfg, req.path)
            &&& r.headers == config_headers(cfg, req.path)
        },
{
}

/// A file is answered `304 Not Modified` exactly when ETags are on and the
/// request's `If-None-Match` equals the file's ETag. Otherwise a file that is
/// not streamed is sent whole with 200, and a streamed one answers its
/// `Range`. Either way the configured headers come first, then the media
/// type.
pub proof fn law_file_reply(cfg: Config, req: RequestView, headers: Seq<HeaderView>, path: Seq<char>, bytes: Seq<u8>)
    ensures
        file_reply(cfg, req, headers, path, bytes) matches ReplyView::Page { status, headers: hs, body } && {
            &&& (status == 304) == (etag_enabled(cfg) && req.if_none_match == Some(etag_of(bytes)))
            &&& status != 304 && !streamed(cfg, path) ==> status == 200 && body == BodyView::Bytes(bytes)
            &&& hs.len() > headers.len()
            &&& hs.subrange(0, headers.len() as int) == headers
            &&& hs[headers.len() as int] == ("content-type"@, mime_type_of(path))
        },
{
    let with_type = headers.push(("content-type"@, mime_type_of(path)));
    let base = if streamed(cfg, path) { with_type.push(("accept-ranges"@, "bytes"@)) } else { with_type };
    let hs = if etag_enabled(cfg) { base.push(("etag"@, etag_of(bytes))) } else { base };
    assert(with_type.subrange(0, headers.len() as int) =~= headers);
    assert(base.subrange(0, headers.len() as int) =~= headers);
    assert(hs.subrange(0, headers.len() as int) =~= headers);
    assert(hs.push(("content-range"@, Seq::empty())).subrange(0, headers.len() as int) =~= headers);
    assert forall|v: Seq<char>| #[trigger] hs.push(("content-range"@, v)).subrange(0, headers.len() as int) == headers by {
        assert(hs.push(("content-range"@, v)).subrange(0, headers.len() as int) =~= headers);
    }
}

/// A range read from a header never ends before it starts.
pub proof fn law_parsed_range_ordered(h: Seq<char>)
    ensures
        parse_range(h) matches Some(RangeRequest::Span { first, last: Some(l) }) ==> first <= l,
{
}

/// A satisfiable range sends exactly the selected bytes, the last ones of
/// the file for a suffix; the selection lies within the file.
pub proof fn law_range_selection(r: RangeRequest, len: nat)
    requires
        r matches RangeRequest::Span { first, last: Some(l) } ==> first <= l,
    ensures
        selected_bytes(r, len) matches Some((first, last)) ==> first <= last < len,
        match r {
            RangeRequest::Suffix { length } => length > 0 && len > 0 ==> match selected_bytes(r, len) {
                Some((first, last)) => last == len - 1 && last - first + 1 == (if length < len {
                    length as nat
                } else {
                    len
                }),
                None => false,
            },
            RangeRequest::Span { first, last } => first < len ==> match selected_bytes(r, len) {
                Some((a, b)) => a == first && b == match last {
                    Some(l) => if l < len - 1 { l as nat } else { (len - 1) as nat },
                    None => (len - 1) as nat,
                },
                None => false,
            },
        },
{
}

/// A symlink is never followed unless symlinks are allowed, whatever it
/// links to: a directory found is asked about first and refused if it is a
/// link (before its `index.html` or its listing is looked at), and every file
/// about to be read (the path, its `.html` variant or a directory's
/// `index.html`) is refused if it is a link: the index of a directory is only
/// looked for once the directory was found not to be a link, and a file is
/// only read after it was found not to be a link.
pub proof fn law_symlinks_refused(cfg: Config, req: RequestView, r: ResolutionView)
    requires
        !symlinks_allowed(cfg),
    ensures
        r.stage == Stage::Dir ==> step(cfg, req, r, AnswerView::Flag(true)) == NextView::Ask(
            moved(r, Stage::DirLink, r.target),
            Probe::IsSymlink(r.target),
        ),
        r.stage == Stage::DirLink ==> step(cfg, req, r, AnswerView::Flag(true)) == NextView::Done(symlink_refused()),
        r.stage == Stage::Symlink ==> step(cfg, req, r, AnswerView::Flag(true)) == NextView::Done(symlink_refused()),
        forall|a: AnswerView| #[trigger] step(cfg, req, r, a) matches NextView::Ask(r2, p) ==> (r2.stage == Stage::Index
            ==> r.stage == Stage::DirLink && a == AnswerView::Flag(false)),
        forall|a: AnswerView| #[trigger] step(cfg, req, r, a) matches NextView::Ask(r2, p) ==> (r2.stage == Stage::NotDir
            ==> r.stage == Stage::Symlink && a == AnswerView::Flag(false)),
        forall|a: AnswerView| #[trigger] step(cfg, req, r, a) matches NextView::Ask(r2, p) ==> (r2.stage == Stage::Read
            ==> r.stage == Stage::NotDir),
{
}

/// In single page application mode a missing target is looked up again as
/// `/index.html` below the same root, once, unless a rewrite applied to the
/// request: a second miss, or a miss without the mode, is not found.
pub proof fn law_spa_fallback(cfg: Config, req: RequestView, r: ResolutionView)
    requires
        r.stage == Stage::Exists,
    ensures
        cfg.spa == Some(true) && !r.rewrote && !r.fallback ==> step(cfg, req, r, AnswerView::Flag(false))
            == NextView::Ask(restart_on_index(r), Probe::Exists(direct())),
        !(cfg.spa == Some(true) && !r.rewrote && !r.fallback) ==> step(cfg, req, r, AnswerView::Flag(false))
            == NextView::Done(not_found(r.headers)),
        restart_on_index(r).root == r.root,
{
}

/// A header name that serving a file adds itself.
pub open spec fn added_by_server(key: Seq<char>) -> bool {
    ||| key == header_key("content-type"@)
    ||| key == header_key("accept-ranges"@)
    ||| key == header_key("etag"@)
    ||| key == header_key("content-range"@)
}

/// A configured header (gathered by the routing rules, so sendable) that no
/// later configured header of the same name follows, and whose name serving
/// a file does not add itself, is in effect with its value in every reply
/// with headers that the resolution gives: a file (200, 206, 304, 416), a
/// listing (200) or a not found (404).
pub proof fn law_configured_headers_apply(cfg: Config, req: RequestView, r: ResolutionView, a: AnswerView, k: int)
    requires
        0 <= k < r.headers.len(),
        forall|j: int| k < j < r.headers.len() ==> header_key(#[trigger] r.headers[j].0) != header_key(r.headers[k].0),
        !added_by_server(header_key(r.headers[k].0)),
    ensures
        step(cfg, req, r, a) matches NextView::Done(ReplyView::Page { headers: hs, .. }) ==> {
            &&& effective_headers(hs).contains_key(header_key(r.headers[k].0))
            &&& effective_headers(hs)[header_key(r.headers[k].0)] == r.headers[k].1
        },
{
    let key = header_key(r.headers[k].0);
    lemma_effective_last_wins(r.headers, k);
    if let (Stage::Read, AnswerView::Contents(Some((path, bytes)))) = (r.stage, a) {
        let headers = r.headers;
        let ct = ("content-type"@, mime_type_of(path));
        let with_type = headers.push(ct);
        lemma_effective_push(headers, ct);
        let ar = ("accept-ranges"@, "bytes"@);
        lemma_effective_push(with_type, ar);
        let base = if streamed(cfg, path) { with_type.push(ar) } else { with_type };
        assert(effective_headers(base).contains_key(key) && effective_headers(base)[key] == r.headers[k].1);
        let et = ("etag"@, etag_of(bytes));
        lemma_effective_push(base, et);
        let hs = if etag_enabled(cfg) { base.push(et) } else { base };
        assert(effective_headers(hs).contains_key(key) && effective_headers(hs)[key] == r.headers[k].1);
        assert forall|v: Seq<char>| #[trigger] effective_headers(hs.push(("content-range"@, v))) == effective_headers(hs).insert(
            header_key("content-range"@),
            v,
        ) by {
            lemma_effective_push(hs, ("content-range"@, v));
        }
    }
}

/// `directoryListing` decides what a directory without `index.html` gets:
/// as `true` or absent, its listing; as `false`, 404; as globs, the listing
/// exactly where some glob selects the path.
pub proof fn law_directory_listing_option(cfg: Config, req: RequestView, r: ResolutionView)
    requires
        r.stage == Stage::Index,
    ensures
        cfg.directory_listing is None || cfg.directory_listing == Some(DirectoryListing::Boolean(true)) ==> step(
            cfg,
            req,
            r,
            AnswerView::Flag(false),
        ) == NextView::Ask(moved(r, Stage::Listing, r.target), Probe::ListDir(r.target)),
        cfg.directory_listing == Some(DirectoryListing::Boolean(false)) ==> step(cfg, req, r, AnswerView::Flag(false))
            == NextView::Done(not_found(r.headers)),
        cfg.directory_listing matches Some(DirectoryListing::Globs(g)) ==> (step(cfg, req, r, AnswerView::Flag(false)) is Ask
            <==> exists|i: int| 0 <= i < g@.len() && crate::patterns::glob_hits(#[trigger] g@[i]@, r.path)),
{
    if let Some(DirectoryListing::Globs(g)) = cfg.directory_listing {
        let views = string_views(g@);
        if exists|i: int| 0 <= i < g@.len() && crate::patterns::glob_hits(#[trigger] g@[i]@, r.path) {
            let i = choose|i: int| 0 <= i < g@.len() && crate::patterns::glob_hits(#[trigger] g@[i]@, r.path);
            assert(views[i] == g@[i]@);
        }
        if any_glob_hits(views, r.path) {
            let i = choose|i: int| 0 <= i < views.len() && crate::patterns::glob_hits(#[trigger] views[i], r.path);
            assert(views[i] == g@[i]@);
        }
    }
}

/// A listing answers 200 with the page of the path's shown entries and the
/// gathered headers; a failed read of the directory answers 500.
pub proof fn law_listing_reply(cfg: Config, req: RequestView, r: ResolutionView, es: Seq<EntryView>)
    requires
        r.stage == Stage::Listing,
    ensures
        step(cfg, req, r, AnswerView::Entries(Some(es))) == NextView::Done(ReplyView::Page {
            status: 200,
            headers: r.headers,
            body: BodyView::Html(listing_page(r.path, listing_entries(r.path, es, ignore_globs(cfg)))),
        }),
        step(cfg, req, r, AnswerView::Entries(None)) == NextView::Done(server_error()),
{
}

/// `symlinks`: only `true` lets a symlink be followed; absent or `false`, a
/// link (to a file or a directory) is refused.
pub proof fn law_symlinks_option(cfg: Config, req: RequestView, r: ResolutionView)
    ensures
        r.stage == Stage::Symlink ==> (step(cfg, req, r, AnswerView::Flag(true)) == NextView::Done(symlink_refused())
            <==> cfg.symlinks != Some(true)),
        r.stage == Stage::Dir && cfg.symlinks != Some(true) ==> step(cfg, req, r, AnswerView::Flag(true)) == NextView::Ask(
            moved(r, Stage::DirLink, r.target),
            Probe::IsSymlink(r.target),
        ),
        r.stage == Stage::Dir && cfg.symlinks == Some(true) ==> step(cfg, req, r, AnswerView::Flag(true)) == NextView::Ask(
            moved(r, Stage::Index, r.target),
            Probe::Exists(Target { index: true, ..r.target }),
        ),
{
}

/// `etag`: absent or `true`, a file carries its weak ETag and a request
/// whose `If-None-Match` equals it is answered 304; `false`, no file is
/// answered 304 and none carries an ETag.
pub proof fn law_etag_option(cfg: Config, req: RequestView, headers: Seq<HeaderView>, path: Seq<char>, bytes: Seq<u8>)
    ensures
        cfg.etag != Some(false) && req.if_none_match == Some(etag_of(bytes)) ==> (file_reply(
            cfg,
            req,
            headers,
            path,
            bytes,
        ) matches ReplyView::Page { status: 304, .. }),
        cfg.etag != Some(false) && !streamed(cfg, path) && req.if_none_match != Some(etag_of(bytes)) ==> file_reply(
            cfg,
            req,
            headers,
            path,
            bytes,
        ) == (ReplyView::Page {
            status: 200,
            headers: headers.push(("content-type"@, mime_type_of(path))).push(("etag"@, etag_of(bytes))),
            body: BodyView::Bytes(bytes),
        }),
        cfg.etag == Some(false) ==> !(file_reply(cfg, req, headers, path, bytes) matches ReplyView::Page { status: 304, .. }),
        cfg.etag == Some(false) && !streamed(cfg, path) ==> file_reply(cfg, req, headers, path, bytes) == (ReplyView::Page {
            status: 200,
            headers: headers.push(("content-type"@, mime_type_of(path))),
            body: BodyView::Bytes(bytes),
        }),
{
}

/// Where the resolution stands after the caller answers its questions with
/// `answers`, one by one, from `n`; a reply ends it early.
pub open spec fn after_answers(cfg: Config, req: RequestView, n: NextView, answers: Seq<AnswerView>) -> NextView
    decreases answers.len(),
{
    if answers.len() == 0 {
        n
    } else {
        match n {
            NextView::Ask(r, _) => after_answers(cfg, req, step(cfg, req, r, answers[0]), answers.drop_first()),
            NextView::Done(_) => n,
        }
    }
}

/// The `.html` variant of the path.
pub open spec fn html_variant() -> Target {
    Target { html: true, index: false }
}

/// The `index.html` of the path.
pub open spec fn index_of_path() -> Target {
    Target { html: false, index: true }
}

/// A path that names an existing file (not a directory, not a link) is read
/// itself, and the file read is answered by `file_reply` with the gathered
/// headers.
pub proof fn law_existing_file_is_read(cfg: Config, req: RequestView, r: ResolutionView, path: Seq<char>, bytes: Seq<u8>)
    requires
        r.stage == Stage::Direct,
    ensures
        after_answers(
            cfg,
            req,
            NextView::Ask(r, Probe::Exists(direct())),
            seq![AnswerView::Flag(true), AnswerView::Flag(false), AnswerView::Flag(true), AnswerView::Flag(false), AnswerView::Flag(false)],
        ) == NextView::Ask(moved(r, Stage::Read, direct()), Probe::Read(direct())),
        step(cfg, req, moved(r, Stage::Read, direct()), AnswerView::Contents(Some((path, bytes)))) == NextView::Done(
            file_reply(cfg, req, r.headers, path, bytes),
        ),
{
    reveal_with_fuel(after_answers, 6);
}

/// A missing path that does not end in `.html` is looked up with the `html`
/// extension, and where that names a file, the file read is that one.
pub proof fn law_html_variant_is_read(cfg: Config, req: RequestView, r: ResolutionView)
    requires
        r.stage == Stage::Direct,
        !ends_with(r.path, ".html"@),
    ensures
        step(cfg, req, r, AnswerView::Flag(false)) == NextView::Ask(moved(r, Stage::Html, html_variant()), Probe::Exists(html_variant())),
        after_answers(
            cfg,
            req,
            NextView::Ask(r, Probe::Exists(direct())),
            seq![AnswerView::Flag(false), AnswerView::Flag(true), AnswerView::Flag(false), AnswerView::Flag(true), AnswerView::Flag(false), AnswerView::Flag(false)],
        ) == NextView::Ask(moved(r, Stage::Read, html_variant()), Probe::Read(html_variant())),
{
    reveal_with_fuel(after_answers, 7);
}

/// A directory (not a link) that holds `index.html` is answered with that
/// file: the file read is the directory's `index.html`.
pub proof fn law_directory_index_is_read(cfg: Config, req: RequestView, r: ResolutionView)
    requires
        r.stage == Stage::Direct,
        !symlinks_allowed(cfg),
    ensures
        after_answers(
            cfg,
            req,
            NextView::Ask(r, Probe::Exists(direct())),
            seq![
                AnswerView::Flag(true),
                AnswerView::Flag(true),
                AnswerView::Flag(false),
                AnswerView::Flag(true),
                AnswerView::Flag(true),
                AnswerView::Flag(false),
                AnswerView::Flag(false),
            ],
        ) == NextView::Ask(moved(r, Stage::Read, index_of_path()), Probe::Read(index_of_path())),
{
    reveal_with_fuel(after_answers, 8);
}

/// A directory (not a link) without `index.html` is listed where listing is
/// on for its path, else answered 404.
pub proof fn law_directory_without_index(cfg: Config, req: RequestView, r: ResolutionView)
    requires
        r.stage == Stage::Direct,
        !symlinks_allowed(cfg),
    ensures
        after_answers(
            cfg,
            req,
            NextView::Ask(r, Probe::Exists(direct())),
            seq![AnswerView::Flag(true), AnswerView::Flag(true), AnswerView::Flag(false), AnswerView::Flag(false)],
        ) == if listing_enabled(cfg, r.path) {
            NextView::Ask(moved(r, Stage::Listing, direct()), Probe::ListDir(direct()))
        } else {
            NextView::Done(not_found(r.headers))
        },
{
    reveal_with_fuel(after_answers, 5);
}

/// A path that names nothing, not even with the `html` extension, is
/// answered 404 with the gathered headers, unless the single page
/// application fallback applies.
pub proof fn law_missing_path_not_found(cfg: Config, req: RequestView, r: ResolutionView)
    requires
        r.stage == Stage::Direct,
        !ends_with(r.path, ".html"@),
        !spa_fallback(cfg, r),
    ensures
        after_answers(
            cfg,
            req,
            NextView::Ask(r, Probe::Exists(direct())),
            seq![AnswerView::Flag(false), AnswerView::Flag(false), AnswerView::Flag(false), AnswerView::Flag(false)],
        ) == NextView::Done(not_found(r.headers)),
{
    reveal_with_fuel(after_answers, 5);
}

} // verus!
