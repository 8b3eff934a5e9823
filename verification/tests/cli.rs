use serve::banner::{banner, local_address, network_address};
use serve::cli::{init_format, listen_address, log_filter, parse_port};
use serve::config::ConfigFormat;
use serve::content::{content_type_for, weak_etag};

#[test]
fn parse_port_like_std() {
    assert_eq!(parse_port("8080"), Some(8080));
    assert_eq!(parse_port("+80"), Some(80));
    assert_eq!(parse_port("0"), Some(0));
    assert_eq!(parse_port("65535"), Some(65535));
    assert_eq!(parse_port("65536"), None);
    assert_eq!(parse_port("99999999999"), None);
    assert_eq!(parse_port(""), None);
    assert_eq!(parse_port("+"), None);
    assert_eq!(parse_port("-1"), None);
    assert_eq!(parse_port("8a"), None);
    for s in ["1", "300", "007", "+65535", "x", "1 "] {
        assert_eq!(parse_port(s), s.parse::<u16>().ok());
    }
}

#[test]
fn listen_address_choices() {
    assert_eq!(listen_address(&Some("localhost:8080".to_string()), Some(1)), "localhost:8080");
    assert_eq!(listen_address(&Some("8080".to_string()), None), "0.0.0.0:8080");
    assert_eq!(listen_address(&Some("abc".to_string()), None), "0.0.0.0:3000");
    assert_eq!(listen_address(&None, Some(5000)), "0.0.0.0:5000");
    assert_eq!(listen_address(&None, None), "0.0.0.0:3000");
}

#[test]
fn log_filter_levels() {
    assert_eq!(log_filter(true), "serve=debug,tower_http=debug");
    assert_eq!(log_filter(false), "serve=info");
}

#[test]
fn init_formats() {
    assert_eq!(init_format("json"), Some(ConfigFormat::Json));
    assert_eq!(init_format("yml"), Some(ConfigFormat::Yaml));
    assert_eq!(init_format("toml"), Some(ConfigFormat::Toml));
    assert_eq!(init_format("xml"), None);
    assert_eq!(ConfigFormat::Yaml.init_file(), "serve.yaml");
}

#[test]
fn banner_addresses_and_lines() {
    assert_eq!(local_address(3000), "http://localhost:3000");
    assert_eq!(network_address(&Some("192.168.1.5".to_string()), 80), "http://192.168.1.5:80");
    assert_eq!(network_address(&None, 8080), "http://127.0.0.1:8080");
    let lines = banner(3000, &None, true);
    assert_eq!(lines.len(), 10);
    assert_eq!(lines[3], "   - Local:            http://localhost:3000             ");
    assert_eq!(lines[6], "   Copied local address to clipboard!                    ");
    assert_eq!(lines[9], "Sacan QR Code");
    assert_eq!(banner(3000, &None, false).len(), 8);
}

#[test]
fn weak_etag_exact() {
    assert_eq!(weak_etag(b""), "W/\"0-e3b0c44298fc1c149afbf4c8996fb92427ae41e4649b934ca495991b7852b855\"");
    assert_eq!(weak_etag(b"hello"), "W/\"5-2cf24dba5fb0a30e26e83b2ac5b9e29e1b161e5c1fa7425e73043362938b9824\"");
}

#[test]
fn content_types() {
    assert_eq!(content_type_for("index.html"), "text/html");
    assert_eq!(content_type_for("a/b/movie.mp4"), "video/mp4");
    assert_eq!(content_type_for("data.unknownext"), "application/octet-stream");
}
