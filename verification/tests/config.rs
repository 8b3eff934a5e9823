use serve::config::{format_for_extension, Config, ConfigFormat, ConfigSource};

fn source(s: ConfigSource) -> Option<String> {
    match s {
        ConfigSource::File(p) => Some(p),
        ConfigSource::Defaults => None,
    }
}

#[test]
fn default_config_is_empty() {
    let c = Config::default();
    assert!(c.public.is_none() && c.clean_urls.is_none() && c.trailing_slash.is_none());
    assert!(c.rewrites.is_none() && c.redirects.is_none() && c.headers.is_none());
    assert!(c.directory_listing.is_none() && c.symlinks.is_none() && c.etag.is_none());
    assert!(c.ignore.is_none() && c.spa.is_none());
}

#[test]
fn custom_config_file_comes_first() {
    let r = Config::find_and_load(Some("my.toml".to_string()), true, &vec![true, true, true, true]);
    assert_eq!(source(r), Some("my.toml".to_string()));
}

#[test]
fn missing_custom_file_falls_back_to_defaults_in_order() {
    let r = Config::find_and_load(Some("my.toml".to_string()), false, &vec![false, true, false, true]);
    assert_eq!(source(r), Some("serve.yaml".to_string()));
    let r2 = Config::find_and_load(None, false, &vec![false, false, true, true]);
    assert_eq!(source(r2), Some("serve.yml".to_string()));
    let r3 = Config::find_and_load(None, false, &vec![false, false, false, false]);
    assert_eq!(source(r3), None);
}

#[test]
fn default_config_files_order() {
    assert_eq!(Config::default_config_files(), vec!["serve.json", "serve.yaml", "serve.yml", "serve.toml"]);
}

#[test]
fn format_by_extension() {
    assert_eq!(ConfigFormat::for_path("serve.json"), ConfigFormat::Json);
    assert_eq!(ConfigFormat::for_path("conf/serve.yaml"), ConfigFormat::Yaml);
    assert_eq!(ConfigFormat::for_path("serve.yml"), ConfigFormat::Yaml);
    assert_eq!(ConfigFormat::for_path("serve.toml"), ConfigFormat::Toml);
    assert_eq!(ConfigFormat::for_path("serve.conf"), ConfigFormat::Json);
    assert_eq!(ConfigFormat::for_path("serve"), ConfigFormat::Json);
    assert_eq!(ConfigFormat::for_path(".toml"), ConfigFormat::Json);
    assert_eq!(format_for_extension(Some("yml")), ConfigFormat::Yaml);
    assert_eq!(format_for_extension(None), ConfigFormat::Json);
}
