//! Runtime configuration: defaults, the paths derived from the data
//! directory, choosing the config file, and command-line overrides.
//! Paths are held as strings and joined the way `Path::join` joins them on
//! Unix.
use vstd::prelude::*;
use crate::text::{chars_of, push_all, string_of};

verus! {

/// `base` joined with `seg` as `Path::join` does on Unix: an absolute `seg`
/// replaces `base`; otherwise a `/` separates them unless `base` is empty or
/// already ends in one.
pub open spec fn path_join(base: Seq<char>, seg: Seq<char>) -> Seq<char> {
    if seg.len() > 0 && seg[0] == '/' {
        seg
    } else if base.len() == 0 {
        seg
    } else if base.last() == '/' {
        base + seg
    } else {
        base + seq!['/'] + seg
    }
}

/// Joins two paths (see [`path_join`]).
pub fn join_path(base: &str, seg: &str) -> (r: String)
    ensures
        r@ == path_join(base@, seg@),
{
    let b = chars_of(base);
    let s = chars_of(seg);
    if s.len() > 0 && s[0] == '/' {
        return string_of(&s);
    }
    if b.len() == 0 {
        return string_of(&s);
    }
    let mut out: Vec<char> = Vec::new();
    push_all(&mut out, &b);
    if b[b.len() - 1] != '/' {
        out.push('/');
    }
    push_all(&mut out, &s);
    string_of(&out)
}

/// Calls `dirs::data_dir`; nothing is claimed of the result, which depends on
/// the environment and the platform.
#[verifier::external_body]
fn platform_data_dir() -> (r: Option<String>) {
    dirs::data_dir().map(|p| p.to_string_lossy().into_owned())
}

/// Calls `dirs::config_dir`; nothing is claimed of the result, which depends on
/// the environment and the platform.
#[verifier::external_body]
fn platform_config_dir() -> (r: Option<String>) {
    dirs::config_dir().map(|p| p.to_string_lossy().into_owned())
}

/// The `arcanum` directory under `base`, or under `.` when there is no base.
pub open spec fn arcanum_dir(base: Option<Seq<char>>) -> Seq<char> {
    match base {
        Some(b) => path_join(b, "arcanum"@),
        None => path_join("."@, "arcanum"@),
    }
}

/// The `arcanum` directory under a platform directory (see [`arcanum_dir`]).
pub fn arcanum_dir_in(base: Option<String>) -> (r: String)
    ensures
        r@ == arcanum_dir(match base {
            Some(b) => Some(b@),
            None => None,
        }),
{
    match base {
        Some(b) => join_path(b.as_str(), "arcanum"),
        None => join_path(".", "arcanum"),
    }
}

pub fn default_port() -> (r: u16)
    ensures
        r == 6202,
{
    6202
}

pub fn default_bind() -> (r: String)
    ensures
        r@ == "127.0.0.1"@,
{
    String::from_str("127.0.0.1")
}

pub fn default_mgmt_port() -> (r: u16)
    ensures
        r == 6203,
{
    6203
}

/// The data directory: `arcanum` under the platform's data directory.
pub fn default_data_dir() -> (r: String)
    ensures
        exists|b: Option<Seq<char>>| r@ == arcanum_dir(b),
{
    let b = platform_data_dir();
    let ghost gb = match &b {
        Some(x) => Some(x@),
        None => None,
    };
    arcanum_dir_in(b)
}

/// The config directory: `arcanum` under the platform's config directory.
pub fn default_config_dir() -> (r: String)
    ensures
        exists|b: Option<Seq<char>>| r@ == arcanum_dir(b),
{
    let b = platform_config_dir();
    arcanum_dir_in(b)
}

pub struct HttpServerConfig {
    pub port: u16,
    pub bind: String,
}

pub struct MgmtConfig {
    pub port: u16,
}

pub struct DataConfig {
    pub dir: String,
    pub packages_dir: Option<String>,
    pub auto_load_packages: bool,
}

pub struct ArcanumConfig {
    pub http_server: HttpServerConfig,
    pub mgmt: MgmtConfig,
    pub data: DataConfig,
}

pub enum Command {
    /// Connect to a running Arcanum node
    Shell {
        /// Management server host
        host: String,
        /// Management server port
        port: u16,
        /// Run a single command (call/notify) and exit
        args: Vec<String>,
    },
}

pub struct CliArgs {
    pub command: Option<Command>,
    pub config: Option<String>,
    pub data_dir: Option<String>,
    pub port: Option<u16>,
    pub bind: Option<String>,
    pub mgmt_port: Option<u16>,
    pub packages_dir: Option<String>,
    pub auto_load_packages: bool,
}

/// The model of an optional string.
pub open spec fn opt_view(s: Option<String>) -> Option<Seq<char>> {
    match s {
        Some(x) => Some(x@),
        None => None,
    }
}

impl Default for HttpServerConfig {
    fn default() -> (r: HttpServerConfig)
        ensures
            r.port == 6202,
            r.bind@ == "127.0.0.1"@,
    {
        HttpServerConfig { port: default_port(), bind: default_bind() }
    }
}

impl Default for MgmtConfig {
    fn default() -> (r: MgmtConfig)
        ensures
            r.port == 6203,
    {
        MgmtConfig { port: default_mgmt_port() }
    }
}

impl Default for DataConfig {
    fn default() -> (r: DataConfig)
        ensures
            exists|b: Option<Seq<char>>| r.dir@ == arcanum_dir(b),
            r.packages_dir is None,
            !r.auto_load_packages,
    {
        DataConfig { dir: default_data_dir(), packages_dir: None, auto_load_packages: false }
    }
}

impl Default for ArcanumConfig {
    fn default() -> (r: ArcanumConfig)
        ensures
            r.http_server.port == 6202,
            r.http_server.bind@ == "127.0.0.1"@,
            r.mgmt.port == 6203,
            exists|b: Option<Seq<char>>| r.data.dir@ == arcanum_dir(b),
            r.data.packages_dir is None,
            !r.data.auto_load_packages,
    {
        ArcanumConfig {
            http_server: HttpServerConfig::default(),
            mgmt: MgmtConfig::default(),
            data: DataConfig::default(),
        }
    }
}

impl ArcanumConfig {
    /// Where packages are auto-loaded from: the configured directory, or
    /// `packages` under the data directory.
    pub fn packages_dir(&self) -> (r: String)
        ensures
            r@ == match self.data.packages_dir {
                Some(d) => d@,
                None => path_join(self.data.dir@, "packages"@),
            },
    {
        match &self.data.packages_dir {
            Some(d) => d.clone(),
            None => join_path(self.data.dir.as_str(), "packages"),
        }
    }

    /// `state` under the data directory.
    pub fn state_dir(&self) -> (r: String)
        ensures
            r@ == path_join(self.data.dir@, "state"@),
    {
        join_path(self.data.dir.as_str(), "state")
    }

    /// `scheduler.db` under the data directory.
    pub fn scheduler_db_path(&self) -> (r: String)
        ensures
            r@ == path_join(self.data.dir@, "scheduler.db"@),
    {
        join_path(self.data.dir.as_str(), "scheduler.db")
    }

    /// `store` under the data directory.
    pub fn store_dir(&self) -> (r: String)
        ensures
            r@ == path_join(self.data.dir@, "store"@),
    {
        join_path(self.data.dir.as_str(), "store")
    }
}

/// The config file candidates under a config directory, in order of preference.
pub open spec fn config_candidates(config_dir: Seq<char>) -> Seq<Seq<char>> {
    seq![path_join(config_dir, "config.toml"@), path_join(config_dir, "arcanum.toml"@), "arcanum.toml"@]
}

/// The config file candidates (see [`config_candidates`]).
pub fn candidate_config_paths(config_dir: &str) -> (r: Vec<String>)
    ensures
        r@.map_values(|s: String| s@) == config_candidates(config_dir@),
{
    let mut r: Vec<String> = Vec::new();
    r.push(join_path(config_dir, "config.toml"));
    r.push(join_path(config_dir, "arcanum.toml"));
    r.push(String::from_str("arcanum.toml"));
    assert(r@.map_values(|s: String| s@) =~= config_candidates(config_dir@));
    r
}

/// The config file to read: the one given on the command line, else the first
/// candidate that exists, else the first candidate.
pub open spec fn chosen_config(cli_config: Option<Seq<char>>, candidates: Seq<Seq<char>>, exists: Seq<bool>) -> Seq<char> {
    match cli_config {
        Some(c) => c,
        None => if exists_index(exists) < exists.len() {
            candidates[exists_index(exists)]
        } else {
            candidates[0]
        },
    }
}

/// The position of the first `true`, or the length when there is none.
pub open spec fn exists_index(exists: Seq<bool>) -> int
    decreases exists.len(),
{
    if exists.len() == 0 {
        0
    } else if exists[0] {
        0
    } else {
        1 + exists_index(exists.drop_first())
    }
}

/// Chooses the config file (see [`chosen_config`]); `exists[i]` says whether
/// `candidates[i]` exists.
pub fn find_config(cli: &CliArgs, candidates: &Vec<String>, exists: &Vec<bool>) -> (r: String)
    requires
        candidates.len() > 0,
        candidates.len() == exists.len(),
    ensures
        r@ == chosen_config(opt_view(cli.config), candidates@.map_values(|s: String| s@), exists@),
{
    if let Some(path) = &cli.config {
        return path.clone();
    }
    let ghost cv = candidates@.map_values(|s: String| s@);
    assert(exists@.skip(0) =~= exists@);
    let mut i: usize = 0;
    while i < exists.len()
        invariant
            i <= exists.len() == candidates.len(),
            candidates.len() > 0,
            cv == candidates@.map_values(|s: String| s@),
            forall|j: int| 0 <= j < i ==> !exists@[j],
            cli.config is None,
            exists_index(exists@) == i + exists_index(exists@.skip(i as int)),
        decreases exists.len() - i,
    {
        assert(exists@.skip(i as int).drop_first() =~= exists@.skip(i + 1));
        if exists[i] {
            assert(exists@.skip(i as int)[0] == exists@[i as int]);
            assert(exists_index(exists@.skip(i as int)) == 0);
            assert(cv[i as int] == candidates@[i as int]@);
            return candidates[i].clone();
        }
        i = i + 1;
    }
    assert(exists@.skip(i as int) =~= Seq::<bool>::empty());
    candidates[0].clone()
}

/// The configuration with the command-line overrides applied.
pub open spec fn overridden(c: ArcanumConfig, cli: CliArgs) -> (Seq<char>, Option<Seq<char>>, bool, u16, Seq<char>, u16) {
    (
        match cli.data_dir { Some(d) => d@, None => c.data.dir@ },
        match cli.packages_dir { Some(d) => Some(d@), None => opt_view(c.data.packages_dir) },
        cli.auto_load_packages || c.data.auto_load_packages,
        match cli.port { Some(p) => p, None => c.http_server.port },
        match cli.bind { Some(b) => b@, None => c.http_server.bind@ },
        match cli.mgmt_port { Some(p) => p, None => c.mgmt.port },
    )
}

/// Applies the command-line overrides to a loaded configuration: each option
/// given on the command line replaces the configured value, and the
/// auto-load flag can only be switched on.
pub fn apply_cli_overrides(config: ArcanumConfig, cli: &CliArgs) -> (r: ArcanumConfig)
    ensures
        r.data.dir@ == overridden(config, *cli).0,
        opt_view(r.data.packages_dir) == overridden(config, *cli).1,
        r.data.auto_load_packages == overridden(config, *cli).2,
        r.http_server.port == overridden(config, *cli).3,
        r.http_server.bind@ == overridden(config, *cli).4,
        r.mgmt.port == overridden(config, *cli).5,
{
    let mut config = config;
    if let Some(dir) = &cli.data_dir {
        config.data.dir = dir.clone();
    }
    if let Some(port) = cli.port {
        config.http_server.port = port;
    }
    if let Some(bind) = &cli.bind {
        config.http_server.bind = bind.clone();
    }
    if let Some(port) = cli.mgmt_port {
        config.mgmt.port = port;
    }
    if let Some(dir) = &cli.packages_dir {
        config.data.packages_dir = Some(dir.clone());
    }
    if cli.auto_load_packages {
        config.data.auto_load_packages = true;
    }
    config
}

} // verus!
