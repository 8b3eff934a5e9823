use serve::config::{AuthRule, CleanUrls, Config, DirectoryListing, Header, HeaderRule, Redirect, Rewrite, StreamConfig};
use serve::handler::{relative_path, route_request, Body, Reply, RequestInfo, Route};
use serve::listing::DirEntry;
use serve::resolve::{advance, begin, Answer, FileContents, Next, Probe, Target};

/// A file system node of the fake file system used by these tests.
#[derive(Clone)]
enum Node {
    File(Vec<u8>),
    Dir(Vec<DirEntry>),
    Link(Vec<u8>),
    Unreadable,
    UnlistableDir,
    LinkDir(Vec<DirEntry>),
}

/// The path a probe is about, below the served directory.
fn target_path(root: &Option<String>, rel: &str, t: Target) -> String {
    let mut p = match root {
        Some(r) => format!("{}/{}", r, rel),
        None => rel.to_string(),
    };
    if t.html {
        if let Some(dot) = p.rfind('.') {
            if dot > p.rfind('/').map(|s| s + 1).unwrap_or(0) {
                p.truncate(dot);
            }
        }
        p.push_str(".html");
    }
    if t.index {
        if !p.is_empty() && !p.ends_with('/') {
            p.push('/');
        }
        p.push_str("index.html");
    }
    p
}

/// Answers a request against a fake file system, counting the questions.
fn serve_request(cfg: &Config, req: &RequestInfo, fs: &[(&str, Node)]) -> (Reply, usize) {
    let lookup = |p: &str| fs.iter().find(|(name, _)| *name == p).map(|(_, n)| n.clone());
    let rel0 = relative_path(&req.path);
    let probe0 = match &cfg.public {
        Some(r) => format!("{}/{}", r, rel0),
        None => rel0,
    };
    let ignored_is_dir = matches!(lookup(&probe0), Some(Node::Dir(_)) | Some(Node::LinkDir(_)));
    let mut next = begin(cfg, req, ignored_is_dir);
    let mut questions = 0;
    loop {
        match next {
            Next::Done(reply) => return (reply, questions),
            Next::Ask(res, probe) => {
                questions += 1;
                let answer = match probe {
                    Probe::Exists(t) => Answer::Flag(lookup(&target_path(&res.root, &res.rel, t)).is_some()),
                    Probe::IsDir(t) => Answer::Flag(matches!(
                        lookup(&target_path(&res.root, &res.rel, t)),
                        Some(Node::Dir(_)) | Some(Node::UnlistableDir) | Some(Node::LinkDir(_))
                    )),
                    Probe::IsSymlink(t) => Answer::Flag(matches!(
                        lookup(&target_path(&res.root, &res.rel, t)),
                        Some(Node::Link(_)) | Some(Node::LinkDir(_))
                    )),
                    Probe::ListDir(t) => match lookup(&target_path(&res.root, &res.rel, t)) {
                        Some(Node::Dir(es)) | Some(Node::LinkDir(es)) => Answer::Entries(Some(es)),
                        _ => Answer::Entries(None),
                    },
                    Probe::Read(t) => {
                        let p = target_path(&res.root, &res.rel, t);
                        match lookup(&p) {
                            Some(Node::File(b)) | Some(Node::Link(b)) => {
                                Answer::Contents(Some(FileContents { path: p, bytes: b }))
                            }
                            _ => Answer::Contents(None),
                        }
                    }
                };
                next = advance(cfg, req, res, answer);
            }
        }
    }
}

fn request(path: &str) -> RequestInfo {
    RequestInfo { path: path.to_string(), if_none_match: None, range: None, authorization: None }
}

fn serve_counted(cfg: &Config, path: &str, if_none_match: Option<&str>, fs: &[(&str, Node)]) -> (Reply, usize) {
    let req = RequestInfo { if_none_match: if_none_match.map(|s| s.to_string()), ..request(path) };
    serve_request(cfg, &req, fs)
}

fn serve(cfg: &Config, path: &str, fs: &[(&str, Node)]) -> Reply {
    serve_counted(cfg, path, None, fs).0
}

fn status(r: &Reply) -> u16 {
    match r {
        Reply::Redirect { status, .. } | Reply::Page { status, .. } | Reply::Bare { status, .. } => *status,
    }
}

fn location(r: &Reply) -> Option<String> {
    match r {
        Reply::Redirect { location, .. } => Some(location.clone()),
        _ => None,
    }
}

fn header_list(r: &Reply) -> Vec<(String, String)> {
    match r {
        Reply::Page { headers, .. } => headers.iter().map(|h| (h.key.clone(), h.value.clone())).collect(),
        _ => Vec::new(),
    }
}

fn entry(name: &str, is_dir: bool) -> DirEntry {
    DirEntry { name: name.to_string(), is_dir }
}

#[test]
fn test_trailing_slash_redirect() {
    let cfg = Config { trailing_slash: Some(true), ..Default::default() };
    let res = serve(&cfg, "/test", &[]);
    assert_eq!(status(&res), 301);
    assert_eq!(location(&res).unwrap(), "/test/");
}

#[test]
fn test_clean_urls_redirect() {
    let cfg = Config { clean_urls: Some(CleanUrls::Boolean(true)), ..Default::default() };
    let res = serve(&cfg, "/page.html", &[]);
    assert_eq!(status(&res), 301);
    assert_eq!(location(&res).unwrap(), "/page");
}

#[test]
fn test_ignore_feature() {
    let cfg = Config { ignore: Some(vec![".env".to_string(), "node_modules/**".to_string()]), ..Default::default() };
    let res1 = serve(&cfg, "/.env", &[]);
    assert_eq!(status(&res1), 404);
    let res2 = serve(&cfg, "/node_modules/pkg/index.js", &[]);
    assert_eq!(status(&res2), 404);
    let res3 = serve(&cfg, "/public/index.html", &[]);
    assert_eq!(status(&res3), 404);
}

#[test]
fn ignored_file_is_not_served_even_when_present() {
    let cfg = Config { ignore: Some(vec![".env".to_string()]), ..Default::default() };
    let fs = [(".env", Node::File(b"SECRET=1".to_vec()))];
    let res = serve(&cfg, "/.env", &fs);
    assert_eq!(status(&res), 404);
    assert!(header_list(&res).is_empty());
}

#[test]
fn ignored_directory_hides_its_children_path() {
    let cfg = Config { ignore: Some(vec!["private/**".to_string()]), ..Default::default() };
    let fs = [("private", Node::Dir(vec![])), ("private/index.html", Node::File(b"x".to_vec()))];
    let res = serve(&cfg, "/private", &fs);
    assert_eq!(status(&res), 404);
}

#[test]
fn trailing_slash_false_removes_all_slashes() {
    let cfg = Config { trailing_slash: Some(false), ..Default::default() };
    let res = serve(&cfg, "/docs//", &[]);
    assert_eq!(status(&res), 301);
    assert_eq!(location(&res).unwrap(), "/docs");
    // The root is left alone.
    let root = serve(&cfg, "/", &[]);
    assert!(location(&root).is_none());
}

#[test]
fn trailing_slash_true_leaves_files_with_dots() {
    let cfg = Config { trailing_slash: Some(true), ..Default::default() };
    let res = serve(&cfg, "/style.css", &[("style.css", Node::File(b"a{}".to_vec()))]);
    assert_eq!(status(&res), 200);
    // The redirect target is not redirected again.
    let again = serve(&cfg, "/test/", &[]);
    assert!(location(&again).is_none());
}

#[test]
fn redirect_first_match_and_status() {
    let cfg = Config {
        redirects: Some(vec![
            Redirect { source: "/old/**".to_string(), destination: "/new".to_string(), redirect_type: Some(302) },
            Redirect { source: "/old/a".to_string(), destination: "/other".to_string(), redirect_type: None },
        ]),
        clean_urls: Some(CleanUrls::Boolean(true)),
        ..Default::default()
    };
    let res = serve(&cfg, "/old/a", &[]);
    assert_eq!(status(&res), 302);
    assert_eq!(location(&res).unwrap(), "/new");
}

#[test]
fn redirect_with_invalid_status_uses_301() {
    let cfg = Config {
        redirects: Some(vec![Redirect { source: "/x".to_string(), destination: "/y".to_string(), redirect_type: Some(42) }]),
        ..Default::default()
    };
    let res = serve(&cfg, "/x", &[]);
    assert_eq!(status(&res), 301);
    assert_eq!(location(&res).unwrap(), "/y");
    let cfg2 = Config {
        redirects: Some(vec![Redirect { source: "/x".to_string(), destination: "/y".to_string(), redirect_type: None }]),
        ..Default::default()
    };
    assert_eq!(status(&serve(&cfg2, "/x", &[])), 301);
}

#[test]
fn invalid_glob_never_matches() {
    let cfg = Config {
        redirects: Some(vec![Redirect { source: "[".to_string(), destination: "/y".to_string(), redirect_type: None }]),
        ..Default::default()
    };
    let res = serve(&cfg, "/[", &[]);
    assert!(location(&res).is_none());
}

#[test]
fn clean_urls_by_glob() {
    let cfg = Config { clean_urls: Some(CleanUrls::Globs(vec!["/blog/**".to_string()])), ..Default::default() };
    let res = serve(&cfg, "/blog/post.html", &[]);
    assert_eq!(location(&res).unwrap(), "/blog/post");
    let other = serve(&cfg, "/about.html", &[("about.html", Node::File(b"hi".to_vec()))]);
    assert_eq!(status(&other), 200);
}

#[test]
fn clean_url_is_served_from_html_file() {
    let cfg = Config { clean_urls: Some(CleanUrls::Boolean(true)), ..Default::default() };
    let res = serve(&cfg, "/about", &[("about.html", Node::File(b"<p>about</p>".to_vec()))]);
    assert_eq!(status(&res), 200);
    match res {
        Reply::Page { body: Body::Bytes(b), .. } => assert_eq!(b, b"<p>about</p>".to_vec()),
        _ => panic!("expected a file"),
    }
}

#[test]
fn rewrite_serves_destination() {
    let cfg = Config {
        rewrites: Some(vec![Rewrite { source: "/app/**".to_string(), destination: "/index.html".to_string() }]),
        ..Default::default()
    };
    let res = serve(&cfg, "/app/settings", &[("index.html", Node::File(b"spa".to_vec()))]);
    assert_eq!(status(&res), 200);
    match res {
        Reply::Page { body: Body::Bytes(b), .. } => assert_eq!(b, b"spa".to_vec()),
        _ => panic!("expected the rewritten file"),
    }
}

#[test]
fn custom_headers_are_added_in_order() {
    let cfg = Config {
        headers: Some(vec![
            HeaderRule {
                source: "**/*.txt".to_string(),
                headers: vec![
                    Header { key: "X-Test".to_string(), value: "one".to_string() },
                    Header { key: "bad name".to_string(), value: "dropped".to_string() },
                    Header { key: "X-Bad-Value".to_string(), value: "a\nb".to_string() },
                ],
            },
            HeaderRule { source: "/nomatch".to_string(), headers: vec![Header { key: "X-No".to_string(), value: "no".to_string() }] },
        ]),
        etag: Some(false),
        ..Default::default()
    };
    let res = serve(&cfg, "/a.txt", &[("a.txt", Node::File(b"text".to_vec()))]);
    assert_eq!(status(&res), 200);
    assert_eq!(
        header_list(&res),
        vec![
            ("X-Test".to_string(), "one".to_string()),
            ("content-type".to_string(), "text/plain".to_string()),
        ]
    );
    // The configured headers also accompany a not found reply.
    let missing = serve(&cfg, "/b.txt", &[]);
    assert_eq!(status(&missing), 404);
    assert_eq!(header_list(&missing), vec![("X-Test".to_string(), "one".to_string())]);
}

#[test]
fn etag_and_not_modified() {
    let cfg = Config::default();
    let fs = [("hello.txt", Node::File(b"hello".to_vec()))];
    let res = serve(&cfg, "/hello.txt", &fs);
    let tag = "W/\"5-2cf24dba5fb0a30e26e83b2ac5b9e29e1b161e5c1fa7425e73043362938b9824\"";
    assert_eq!(status(&res), 200);
    assert_eq!(
        header_list(&res),
        vec![("content-type".to_string(), "text/plain".to_string()), ("etag".to_string(), tag.to_string())]
    );
    let (again, _) = serve_counted(&cfg, "/hello.txt", Some(tag), &fs);
    assert_eq!(status(&again), 304);
    match again {
        Reply::Page { body: Body::Empty, headers, .. } => assert_eq!(headers.len(), 1),
        _ => panic!("expected 304 without body"),
    }
    let (stale, _) = serve_counted(&cfg, "/hello.txt", Some("W/\"0-x\""), &fs);
    assert_eq!(status(&stale), 200);
}

#[test]
fn etag_off_sends_no_etag() {
    let cfg = Config { etag: Some(false), ..Default::default() };
    let fs = [("hello.txt", Node::File(b"hello".to_vec()))];
    let res = serve(&cfg, "/hello.txt", &fs);
    assert_eq!(header_list(&res), vec![("content-type".to_string(), "text/plain".to_string())]);
}

#[test]
fn directory_index_is_served() {
    let fs = [("docs", Node::Dir(vec![entry("index.html", false)])), ("docs/index.html", Node::File(b"<h1>docs</h1>".to_vec()))];
    let res = serve(&Config::default(), "/docs", &fs);
    assert_eq!(status(&res), 200);
    assert_eq!(header_list(&res)[0], ("content-type".to_string(), "text/html".to_string()));
}

#[test]
fn directory_listing_when_no_index() {
    let fs = [("pics", Node::Dir(vec![entry("b.png", false), entry("a", true), entry("a.png", false)]))];
    let res = serve(&Config::default(), "/pics", &fs);
    assert_eq!(status(&res), 200);
    match res {
        Reply::Page { body: Body::Html(html), .. } => {
            let a = html.find("href=\"a/\"").unwrap();
            let apng = html.find("href=\"a.png\"").unwrap();
            let bpng = html.find("href=\"b.png\"").unwrap();
            assert!(a < apng && apng < bpng);
            assert!(html.contains("<li><a href=\"..\">..</a></li>"));
        }
        _ => panic!("expected a listing"),
    }
}

#[test]
fn directory_listing_off_is_not_found() {
    let cfg = Config { directory_listing: Some(DirectoryListing::Boolean(false)), ..Default::default() };
    let fs = [("pics", Node::Dir(vec![entry("a.png", false)]))];
    assert_eq!(status(&serve(&cfg, "/pics", &fs)), 404);
    let by_glob = Config { directory_listing: Some(DirectoryListing::Globs(vec!["/open".to_string()])), ..Default::default() };
    let fs2 = [("open", Node::Dir(vec![])), ("closed", Node::Dir(vec![]))];
    assert_eq!(status(&serve(&by_glob, "/open", &fs2)), 200);
    assert_eq!(status(&serve(&by_glob, "/closed", &fs2)), 404);
}

#[test]
fn unreadable_directory_is_server_error() {
    let fs = [("d", Node::UnlistableDir)];
    let res = serve(&Config::default(), "/d", &fs);
    match res {
        Reply::Bare { status, text } => {
            assert_eq!(status, 500);
            assert_eq!(text, "Internal Server Error");
        }
        _ => panic!("expected a server error"),
    }
}

#[test]
fn unreadable_file_is_server_error() {
    let fs = [("f.bin", Node::Unreadable)];
    let res = serve(&Config::default(), "/f.bin", &fs);
    assert!(matches!(res, Reply::Bare { status: 500, .. }));
}

#[test]
fn symlinks_refused_unless_allowed() {
    let fs = [("link.txt", Node::Link(b"x".to_vec()))];
    let res = serve(&Config::default(), "/link.txt", &fs);
    match res {
        Reply::Bare { status, text } => {
            assert_eq!(status, 404);
            assert_eq!(text, "Forbidden (Symlink)");
        }
        _ => panic!("expected the symlink refusal"),
    }
    let allowed = Config { symlinks: Some(true), ..Default::default() };
    assert_eq!(status(&serve(&allowed, "/link.txt", &fs)), 200);
}

#[test]
fn missing_file_is_not_found_with_text() {
    let res = serve(&Config::default(), "/nothing", &[]);
    match res {
        Reply::Page { status, body: Body::Text(t), .. } => {
            assert_eq!(status, 404);
            assert_eq!(t, "404 Not Found");
        }
        _ => panic!("expected 404"),
    }
}

#[test]
fn requests_end_within_eight_questions() {
    let fs = [("docs", Node::Dir(vec![])), ("docs/index.html", Node::File(b"x".to_vec()))];
    let (_, n) = serve_counted(&Config::default(), "/docs", None, &fs);
    assert!(n <= 8);
    let (_, m) = serve_counted(&Config::default(), "/missing", None, &[]);
    assert_eq!(m, 4);
}

#[test]
fn route_request_serves_rewritten_path_with_request_headers() {
    let cfg = Config {
        rewrites: Some(vec![Rewrite { source: "/a".to_string(), destination: "/b".to_string() }]),
        headers: Some(vec![HeaderRule { source: "/a".to_string(), headers: vec![Header { key: "X-A".to_string(), value: "1".to_string() }] }]),
        ..Default::default()
    };
    match route_request(&cfg, &"/a".to_string(), false, &None) {
        Route::Serve { path, headers, rewrote } => {
            assert_eq!(path, "/b");
            assert!(rewrote);
            assert_eq!(headers.len(), 1);
            assert_eq!(headers[0].key, "X-A");
        }
        _ => panic!("expected the rewritten path"),
    }
}

#[test]
fn relative_path_drops_leading_slashes() {
    assert_eq!(relative_path(&"///a/b/".to_string()), "a/b/");
    assert_eq!(relative_path(&"/".to_string()), "");
}

fn auth_rule(source: &str, user: &str, password: Option<&str>) -> AuthRule {
    AuthRule {
        source: source.to_string(),
        username: user.to_string(),
        password: password.map(|p| p.to_string()),
        env_password: None,
    }
}

fn with_auth(path: &str, authorization: Option<&str>) -> RequestInfo {
    RequestInfo { authorization: authorization.map(|a| a.to_string()), ..request(path) }
}

#[test]
fn auth_challenges_without_credentials() {
    let cfg = Config { auth: Some(vec![auth_rule("/private/**", "admin", Some("secretpassword"))]), ..Default::default() };
    let fs = [("private/a.txt", Node::File(b"a".to_vec())), ("public.txt", Node::File(b"p".to_vec()))];
    let (res, _) = serve_request(&cfg, &with_auth("/private/a.txt", None), &fs);
    assert_eq!(status(&res), 401);
    assert_eq!(
        header_list(&res),
        vec![("www-authenticate".to_string(), "Basic realm=\"serve\"".to_string())]
    );
    // admin:secretpassword
    let good = "Basic YWRtaW46c2VjcmV0cGFzc3dvcmQ=";
    let (ok, _) = serve_request(&cfg, &with_auth("/private/a.txt", Some(good)), &fs);
    assert_eq!(status(&ok), 200);
    let (bad, _) = serve_request(&cfg, &with_auth("/private/a.txt", Some("Basic YWRtaW46d3Jvbmc=")), &fs);
    assert_eq!(status(&bad), 401);
    let (open, _) = serve_request(&cfg, &with_auth("/public.txt", None), &fs);
    assert_eq!(status(&open), 200);
}

#[test]
fn auth_most_specific_rule_wins_regardless_of_order() {
    let rules = vec![auth_rule("/**", "all", Some("a")), auth_rule("/admin/**", "root", Some("r"))];
    let mut reversed = rules.clone();
    reversed.reverse();
    let fs = [("admin/x", Node::File(b"x".to_vec()))];
    // root:r
    let root = "Basic cm9vdDpy";
    // all:a
    let all = "Basic YWxsOmE=";
    for rs in [rules, reversed] {
        let cfg = Config { auth: Some(rs), ..Default::default() };
        assert_eq!(status(&serve_request(&cfg, &with_auth("/admin/x", Some(root)), &fs).0), 200);
        assert_eq!(status(&serve_request(&cfg, &with_auth("/admin/x", Some(all)), &fs).0), 401);
        assert_eq!(status(&serve_request(&cfg, &with_auth("/other", Some(all)), &fs).0), 404);
    }
}

#[test]
fn auth_rule_without_password_refuses_everyone() {
    let cfg = Config { auth: Some(vec![auth_rule("/**", "admin", None)]), ..Default::default() };
    let (res, _) = serve_request(&cfg, &with_auth("/x", Some("Basic YWRtaW46")), &[]);
    assert_eq!(status(&res), 401);
}

#[test]
fn ignored_paths_are_not_found_before_auth() {
    let cfg = Config {
        ignore: Some(vec!["secret".to_string()]),
        auth: Some(vec![auth_rule("/**", "admin", Some("x"))]),
        ..Default::default()
    };
    assert_eq!(status(&serve_request(&cfg, &with_auth("/secret", None), &[]).0), 404);
}

#[test]
fn spa_fallback_serves_index() {
    let cfg = Config { spa: Some(true), ..Default::default() };
    let fs = [("index.html", Node::File(b"<app/>".to_vec()))];
    let (res, n) = serve_request(&cfg, &request("/some/route"), &fs);
    assert_eq!(status(&res), 200);
    match res {
        Reply::Page { body: Body::Bytes(b), .. } => assert_eq!(b, b"<app/>".to_vec()),
        _ => panic!("expected the index"),
    }
    assert!(n <= 16);
    // Without an index the fallback gives up.
    assert_eq!(status(&serve_request(&cfg, &request("/x"), &[]).0), 404);
    // Configured rewrites that do not apply keep the fallback.
    let with_rewrites = Config { spa: Some(true), rewrites: Some(vec![]), ..Default::default() };
    assert_eq!(status(&serve_request(&with_rewrites, &request("/some/route"), &fs).0), 200);
    // A rewrite that applied to a missing file is not found.
    let rewriting = Config {
        spa: Some(true),
        rewrites: Some(vec![Rewrite { source: "/old/**".to_string(), destination: "/gone.html".to_string() }]),
        ..Default::default()
    };
    assert_eq!(status(&serve_request(&rewriting, &request("/old/x"), &fs).0), 404);
}

fn ranged(path: &str, range: &str) -> RequestInfo {
    RequestInfo { range: Some(range.to_string()), ..request(path) }
}

#[test]
fn range_requests_on_streamed_files() {
    let cfg = Config { etag: Some(false), ..Default::default() };
    let fs = [("v.mp4", Node::File(b"0123456789".to_vec())), ("t.txt", Node::File(b"0123456789".to_vec()))];
    let (part, _) = serve_request(&cfg, &ranged("/v.mp4", "bytes=2-4"), &fs);
    assert_eq!(status(&part), 206);
    assert_eq!(
        header_list(&part),
        vec![
            ("content-type".to_string(), "video/mp4".to_string()),
            ("accept-ranges".to_string(), "bytes".to_string()),
            ("content-range".to_string(), "bytes 2-4/10".to_string()),
        ]
    );
    match part {
        Reply::Page { body: Body::Bytes(b), .. } => assert_eq!(b, b"234".to_vec()),
        _ => panic!("expected bytes"),
    }
    let (suffix, _) = serve_request(&cfg, &ranged("/v.mp4", "bytes=-3"), &fs);
    match suffix {
        Reply::Page { status: 206, body: Body::Bytes(b), .. } => assert_eq!(b, b"789".to_vec()),
        _ => panic!("expected the suffix"),
    }
    let (open, _) = serve_request(&cfg, &ranged("/v.mp4", "bytes=7-"), &fs);
    match open {
        Reply::Page { status: 206, body: Body::Bytes(b), .. } => assert_eq!(b, b"789".to_vec()),
        _ => panic!("expected the tail"),
    }
    let (clamped, _) = serve_request(&cfg, &ranged("/v.mp4", "bytes=8-100"), &fs);
    assert_eq!(header_list(&clamped)[2].1, "bytes 8-9/10");
    let (refused, _) = serve_request(&cfg, &ranged("/v.mp4", "bytes=10-"), &fs);
    assert_eq!(status(&refused), 416);
    assert_eq!(header_list(&refused)[2].1, "bytes */10");
    let (ignored, _) = serve_request(&cfg, &ranged("/v.mp4", "bytes=0-1,4-5"), &fs);
    assert_eq!(status(&ignored), 200);
    let (text, _) = serve_request(&cfg, &ranged("/t.txt", "bytes=2-4"), &fs);
    assert_eq!(status(&text), 200);
    let off = Config {
        stream: Some(StreamConfig { stream_extensions: None, enable_ranges: Some(false) }),
        ..Default::default()
    };
    assert_eq!(status(&serve_request(&off, &ranged("/v.mp4", "bytes=2-4"), &fs).0), 200);
    let txt = Config {
        stream: Some(StreamConfig { stream_extensions: Some(vec!["txt".to_string()]), enable_ranges: None }),
        ..Default::default()
    };
    assert_eq!(status(&serve_request(&txt, &ranged("/t.txt", "bytes=2-4"), &fs).0), 206);
}

#[test]
fn symlinked_directory_is_refused() {
    let fs = [
        ("docs", Node::LinkDir(vec![entry("index.html", false)])),
        ("docs/index.html", Node::File(b"<h1>docs</h1>".to_vec())),
        ("pics", Node::LinkDir(vec![entry("a.png", false)])),
    ];
    for path in ["/docs", "/pics"] {
        match serve(&Config::default(), path, &fs) {
            Reply::Bare { status, text } => {
                assert_eq!(status, 404);
                assert_eq!(text, "Forbidden (Symlink)");
            }
            _ => panic!("expected the symlink refusal"),
        }
    }
    let allowed = Config { symlinks: Some(true), ..Default::default() };
    assert_eq!(status(&serve(&allowed, "/docs", &fs)), 200);
    assert_eq!(status(&serve(&allowed, "/pics", &fs)), 200);
}

#[test]
fn files_are_served_from_public() {
    let cfg = Config {
        public: Some("public".to_string()),
        clean_urls: Some(CleanUrls::Boolean(true)),
        rewrites: Some(vec![Rewrite { source: "/app/**".to_string(), destination: "/index.html".to_string() }]),
        ..Default::default()
    };
    let fs = [
        ("public/index.html", Node::File(b"<app/>".to_vec())),
        ("index.html", Node::File(b"outside".to_vec())),
    ];
    let res = serve(&cfg, "/app/dashboard", &fs);
    assert_eq!(status(&res), 200);
    assert_eq!(header_list(&res)[0], ("content-type".to_string(), "text/html".to_string()));
    match res {
        Reply::Page { body: Body::Bytes(b), .. } => assert_eq!(b, b"<app/>".to_vec()),
        _ => panic!("expected the file below public"),
    }
    let other = Config { public: Some("public".to_string()), ..Default::default() };
    assert_eq!(status(&serve(&other, "/outside.txt", &[("outside.txt", Node::File(b"x".to_vec()))])), 404);
}
