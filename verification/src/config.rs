//! The configuration model (`serve.json`, `serve.yaml`, `serve.toml`) and the
//! choice of the file it is read from.

use vstd::prelude::*;
use crate::text::{chars_of, vec_eq};

verus! {

/// Settings of the server. Every option is optional; an absent option takes
/// the documented default where it is used.
#[derive(Debug, Clone)]
pub struct Config {
    /// Subdirectory to serve assets from.
    pub public: Option<String>,
    /// Remove `.html` extensions from URLs.
    pub clean_urls: Option<CleanUrls>,
    /// Enforce (`true`) or remove (`false`) trailing slashes.
    pub trailing_slash: Option<bool>,
    /// Internal path rewrites, first match wins.
    pub rewrites: Option<Vec<Rewrite>>,
    /// HTTP redirects, first match wins.
    pub redirects: Option<Vec<Redirect>>,
    /// Custom headers per path glob.
    pub headers: Option<Vec<HeaderRule>>,
    /// Whether directories without an index are listed (default: listed).
    pub directory_listing: Option<DirectoryListing>,
    /// Whether symlinks may be served (default: not).
    pub symlinks: Option<bool>,
    /// Whether weak ETags are generated (default: generated).
    pub etag: Option<bool>,
    /// Globs of paths excluded from serving and listing.
    pub ignore: Option<Vec<String>>,
    /// Single page application mode, set by `--single`.
    pub spa: Option<bool>,
    /// Range requests for media files.
    pub stream: Option<StreamConfig>,
    /// HTTP Basic Authentication rules.
    pub auth: Option<Vec<AuthRule>>,
}

/// `stream`: which files answer HTTP Range requests.
#[derive(Debug, Clone)]
pub struct StreamConfig {
    /// Extensions of the files that answer Range requests (default: `mp4`,
    /// `webm`, `ogg`, `mp3`, `wav`, `pdf`, `mkv`, `mov`).
    pub stream_extensions: Option<Vec<String>>,
    /// Whether Range requests are answered (default: they are).
    pub enable_ranges: Option<bool>,
}

/// `auth`: the paths that `source` selects need the given credentials.
#[derive(Debug, Clone)]
pub struct AuthRule {
    /// Path glob of the protected paths.
    pub source: String,
    /// The authorized user name.
    pub username: String,
    /// The authorized password.
    pub password: Option<String>,
    /// Name of the environment variable holding the password.
    pub env_password: Option<String>,
}

/// `cleanUrls`: on or off everywhere, or on for the paths that a glob selects.
#[derive(Debug, Clone)]
pub enum CleanUrls {
    Boolean(bool),
    Globs(Vec<String>),
}

/// An internal rewrite of `source` paths to `destination`.
#[derive(Debug, Clone)]
pub struct Rewrite {
    pub source: String,
    pub destination: String,
}

/// A redirect of `source` paths to `destination` with status `redirect_type`
/// (default 301).
#[derive(Debug, Clone)]
pub struct Redirect {
    pub source: String,
    pub destination: String,
    pub redirect_type: Option<u16>,
}

/// Headers added to responses for the paths that `source` selects.
#[derive(Debug, Clone)]
pub struct HeaderRule {
    pub source: String,
    pub headers: Vec<Header>,
}

/// One header name and value.
#[derive(Debug, Clone)]
pub struct Header {
    pub key: String,
    pub value: String,
}

/// `directoryListing`: on or off everywhere, or on for the paths that a glob
/// selects.
#[derive(Debug, Clone)]
pub enum DirectoryListing {
    Boolean(bool),
    Globs(Vec<String>),
}

impl Config {
    /// Every option of the configuration is absent.
    pub open spec fn is_empty(&self) -> bool {
        &&& self.public is None
        &&& self.clean_urls is None
        &&& self.trailing_slash is None
        &&& self.rewrites is None
        &&& self.redirects is None
        &&& self.headers is None
        &&& self.directory_listing is None
        &&& self.symlinks is None
        &&& self.etag is None
        &&& self.ignore is None
        &&& self.spa is None
        &&& self.stream is None
        &&& self.auth is None
    }
}

impl Default for Config {
    fn default() -> (c: Config)
        ensures
            c.is_empty(),
    {
        Config {
            public: None,
            clean_urls: None,
            trailing_slash: None,
            rewrites: None,
            redirects: None,
            headers: None,
            directory_listing: None,
            symlinks: None,
            etag: None,
            ignore: None,
            spa: None,
            stream: None,
            auth: None,
        }
    }
}

/// The formats a configuration file may be written in.
#[derive(Debug, Clone, Copy, PartialEq, Eq)]
pub enum ConfigFormat {
    Json,
    Yaml,
    Toml,
}

/// The format a configuration file is read as, by its extension: `yaml` and
/// `yml` are YAML, `toml` is TOML, `json`, any other extension and none are
/// JSON.
pub open spec fn format_of_extension(ext: Option<Seq<char>>) -> ConfigFormat {
    match ext {
        Some(e) => if e == "yaml"@ || e == "yml"@ {
            ConfigFormat::Yaml
        } else if e == "toml"@ {
            ConfigFormat::Toml
        } else {
            ConfigFormat::Json
        },
        None => ConfigFormat::Json,
    }
}

/// What `std::path::Path::extension` gives for `path`, as text.
pub uninterp spec fn path_extension(path: Seq<char>) -> Option<Seq<char>>;

/// `Path::new(path).extension()` as a string. Trusted: the result is the
/// extension that std computes for this path (a function of the path alone).
#[verifier::external_body]
pub(crate) fn extension_of(path: &str) -> (r: Option<String>)
    ensures
        r matches Some(e) ==> path_extension(path@) == Some(e@),
        r is None ==> path_extension(path@) is None,
{
    std::path::Path::new(path).extension().map(|e| e.to_string_lossy().into_owned())
}

/// The format of the configuration file found under `path`.
pub fn format_for_extension(ext: Option<&str>) -> (f: ConfigFormat)
    ensures
        f == format_of_extension(match ext { Some(e) => Some(e@), None => None }),
{
    match ext {
        Some(e) => {
            let v = chars_of(e);
            if vec_eq(&v, &chars_of("yaml")) || vec_eq(&v, &chars_of("yml")) {
                ConfigFormat::Yaml
            } else if vec_eq(&v, &chars_of("toml")) {
                ConfigFormat::Toml
            } else {
                ConfigFormat::Json
            }
        },
        None => ConfigFormat::Json,
    }
}

impl ConfigFormat {
    /// The format in which the configuration file `path` is read.
    pub fn for_path(path: &str) -> (f: ConfigFormat)
        ensures
            f == format_of_extension(path_extension(path@)),
    {
        match extension_of(path) {
            Some(e) => format_for_extension(Some(e.as_str())),
            None => format_for_extension(None),
        }
    }
}

/// The files searched for a configuration, in order.
pub open spec fn default_config_names() -> Seq<Seq<char>> {
    seq!["serve.json"@, "serve.yaml"@, "serve.yml"@, "serve.toml"@]
}

/// Where the configuration comes from.
#[derive(Debug, Clone)]
pub enum ConfigSource {
    /// Read the configuration from this file.
    File(String),
    /// No file was found: every option takes its default.
    Defaults,
}

/// The view of a configuration source: the file's path, or `None` for the
/// defaults.
pub open spec fn source_view(s: ConfigSource) -> Option<Seq<char>> {
    match s {
        ConfigSource::File(p) => Some(p@),
        ConfigSource::Defaults => None,
    }
}

/// The index of the first existing default file, if any.
pub open spec fn first_present(present: Seq<bool>) -> Option<int>
    decreases present.len(),
{
    if present.len() == 0 {
        None
    } else if present[0] {
        Some(0)
    } else {
        match first_present(present.drop_first()) {
            Some(i) => Some(i + 1),
            None => None,
        }
    }
}

/// Where the configuration is found: the custom file if it was given and
/// exists, else the first default file that exists, else the defaults.
/// `present[i]` tells whether the `i`-th default file exists; a missing entry
/// counts as absent.
pub open spec fn config_source(custom: Option<Seq<char>>, custom_exists: bool, present: Seq<bool>) -> Option<Seq<char>> {
    if custom is Some && custom_exists {
        custom
    } else {
        match first_present(present.take(if present.len() < 4 { present.len() as int } else { 4 })) {
            Some(i) => Some(default_config_names()[i]),
            None => None,
        }
    }
}

proof fn lemma_first_present(present: Seq<bool>, i: int)
    requires
        0 <= i <= present.len(),
        forall|j: int| 0 <= j < i ==> !present[j],
    ensures
        i < present.len() && present[i] ==> first_present(present) == Some(i),
        i == present.len() ==> first_present(present) is None,
    decreases i,
{
    if i > 0 {
        lemma_first_present(present.drop_first(), i - 1);
    }
}

impl Config {
    /// The files searched for a configuration when none is given, in order.
    pub fn default_config_files() -> (r: Vec<String>)
        ensures
            r@.map_values(|s: String| s@) == default_config_names(),
    {
        let r = vec![
            "serve.json".to_string(),
            "serve.yaml".to_string(),
            "serve.yml".to_string(),
            "serve.toml".to_string(),
        ];
        assert(r@.map_values(|s: String| s@) =~= default_config_names());
        r
    }

    /// Chooses where the configuration comes from: `custom_path` when it was
    /// given and `custom_exists`, else the first of `default_config_files()`
    /// whose entry of `present` is true, else the defaults.
    pub fn find_and_load(custom_path: Option<String>, custom_exists: bool, present: &Vec<bool>) -> (r: ConfigSource)
        ensures
            source_view(r) == config_source(
                match custom_path { Some(p) => Some(p@), None => None },
                custom_exists,
                present@,
            ),
    {
        if let Some(path) = custom_path {
            if custom_exists {
                return ConfigSource::File(path);
            }
        }
        let names = Self::default_config_files();
        assert(names@.len() == names@.map_values(|s: String| s@).len());
        let n: usize = if present.len() < 4 { present.len() } else { 4 };
        let ghost p = present@.take(n as int);
        let mut i: usize = 0;
        while i < n
            invariant
                i <= n <= 4,
                n <= present.len(),
                n == (if present.len() < 4 { present.len() } else { 4 }),
                p == present@.take(n as int),
                names.len() == 4,
                !(custom_path is Some && custom_exists),
                names@.map_values(|s: String| s@) == default_config_names(),
                forall|j: int| 0 <= j < i ==> !p[j],
            decreases n - i,
        {
            assert(p[i as int] == present@[i as int]);
            if present[i] {
                proof {
                    lemma_first_present(p, i as int);
                }
                let name = names[i].clone();
                assert(names@.map_values(|s: String| s@)[i as int] == names@[i as int]@);
                return ConfigSource::File(name);
            }
            i += 1;
        }
        proof {
            lemma_first_present(p, n as int);
        }
        ConfigSource::Defaults
    }
}

/// The configuration is looked for in this order: the given file where it
/// exists, then `serve.json`, `serve.yaml`, `serve.yml` and `serve.toml`,
/// the first of them that exists; where none exists, the defaults apply.
pub proof fn law_config_search_order(custom: Option<Seq<char>>, custom_exists: bool, present: Seq<bool>, i: int)
    requires
        0 <= i <= present.len(),
        i <= 4,
        forall|j: int| 0 <= j < i ==> !present[j],
    ensures
        custom is Some && custom_exists ==> config_source(custom, custom_exists, present) == custom,
        !(custom is Some && custom_exists) && i < present.len() && i < 4 && present[i] ==> config_source(
            custom,
            custom_exists,
            present,
        ) == Some(seq!["serve.json"@, "serve.yaml"@, "serve.yml"@, "serve.toml"@][i]),
        !(custom is Some && custom_exists) && (i == present.len() || i == 4) ==> config_source(custom, custom_exists, present)
            is None,
{
    let n: int = if present.len() < 4 { present.len() as int } else { 4 };
    let t = present.take(n);
    lemma_first_present(t, i);
    assert(default_config_names() == seq!["serve.json"@, "serve.yaml"@, "serve.yml"@, "serve.toml"@]);
}

} // verus!
