use serve::listing::{render_directory_listing, DirEntry};
use serve::patterns::{glob_selects, matches_ignore};

fn entries(list: &[(&str, bool)]) -> Vec<DirEntry> {
    list.iter().map(|(n, d)| DirEntry { name: n.to_string(), is_dir: *d }).collect()
}

const HEAD: &str = "<html><head><title>Index of /x</title><style>body{font-family:sans-serif;padding:20px;}ul{list-style:none;padding:0;}li{margin-bottom:10px;}a{text-decoration:none;color:#007bff;}a:hover{text-decoration:underline;}</style></head><body><h1>Index of /x</h1><ul>";

#[test]
fn listing_exact_page() {
    let html = render_directory_listing(&"/x".to_string(), &entries(&[("b.txt", false), ("sub", true)]), &vec![]);
    let expected = format!(
        "{}<li><a href=\"..\">..</a></li><li><a href=\"sub/\">sub/</a></li><li><a href=\"b.txt\">b.txt</a></li></ul></body></html>",
        HEAD
    );
    assert_eq!(html, expected);
}

#[test]
fn listing_root_has_no_parent_link() {
    let html = render_directory_listing(&"/".to_string(), &entries(&[]), &vec![]);
    assert!(!html.contains("href=\"..\""));
    assert!(html.ends_with("<h1>Index of /</h1><ul></ul></body></html>"));
}

#[test]
fn listing_order_dirs_first_then_code_point_order() {
    let html = render_directory_listing(
        &"/".to_string(),
        &entries(&[("b", false), ("B", false), ("z", true), ("a", true), ("é", false)]),
        &vec![],
    );
    let pos = |s: &str| html.find(s).unwrap();
    assert!(pos("href=\"a/\"") < pos("href=\"z/\""));
    assert!(pos("href=\"z/\"") < pos("href=\"B\""));
    assert!(pos("href=\"B\"") < pos("href=\"b\""));
    assert!(pos("href=\"b\"") < pos("href=\"é\""));
}

#[test]
fn listing_order_does_not_depend_on_read_order() {
    let a = render_directory_listing(&"/d/".to_string(), &entries(&[("x", false), ("y", true), ("w", false)]), &vec![]);
    let b = render_directory_listing(&"/d/".to_string(), &entries(&[("w", false), ("x", false), ("y", true)]), &vec![]);
    assert_eq!(a, b);
}

#[test]
fn listing_hides_ignored_entries() {
    let html = render_directory_listing(
        &"/x".to_string(),
        &entries(&[(".env", false), ("node_modules", true), ("app.js", false)]),
        &vec!["x/.env".to_string(), "x/node_modules/**".to_string()],
    );
    assert!(!html.contains(".env"));
    assert!(!html.contains("node_modules"));
    assert!(html.contains("href=\"app.js\""));
}

#[test]
fn matches_ignore_cases() {
    let pats = vec!["node_modules/**".to_string(), "*.log".to_string(), "[".to_string()];
    assert!(matches_ignore(&"node_modules/pkg/index.js".to_string(), false, &pats));
    assert!(matches_ignore(&"node_modules".to_string(), true, &pats));
    assert!(!matches_ignore(&"node_modules".to_string(), false, &pats));
    assert!(matches_ignore(&"debug.log".to_string(), false, &pats));
    assert!(!matches_ignore(&"".to_string(), true, &vec!["**".to_string()]));
    assert!(!matches_ignore(&"src/main.rs".to_string(), false, &pats));
}

#[test]
fn glob_selects_compiles_and_matches() {
    assert!(glob_selects("/app/**", "/app/a/b"));
    assert!(!glob_selects("/app/**", "/other"));
    assert!(!glob_selects("a**", "a"));
    assert!(glob_selects("c?t", "cat"));
}
