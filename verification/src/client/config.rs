//! The station's settings: the INI file, the command line and how the two
//! combine.

use configparser::ini::Ini;
use vstd::prelude::*;
use vstd::utf8::is_ascii_chars;
use crate::number::{decimal, decimal_text, read_unsigned, unsigned};
use crate::text::{
    ascii_lower, join2, join3, lower, opt_view, same, to_ascii_lower, to_lowercase, trim, trimmed, views,
};

verus! {

/// Why the settings could not be read or written.
#[derive(Debug, Clone)]
pub enum ConfigError {
    Io(String),
    Parse(String),
    NoConfigDir,
}

impl ConfigError {
    /// The message for the operator.
    pub open spec fn text(self) -> Seq<char> {
        match self {
            ConfigError::Io(e) => "IO error: "@ + e@,
            ConfigError::Parse(e) => "Parse error: "@ + e@,
            ConfigError::NoConfigDir => "Config directory not found"@,
        }
    }

    /// The message for the operator.
    pub fn message(&self) -> (r: String)
        ensures
            r@ == self.text(),
    {
        match self {
            ConfigError::Io(e) => join2("IO error: ", e.as_str()),
            ConfigError::Parse(e) => join2("Parse error: ", e.as_str()),
            ConfigError::NoConfigDir => "Config directory not found".to_owned(),
        }
    }
}

// ---------------------------------------------------------------------------
// INI files
// ---------------------------------------------------------------------------

/// `Ini` of the `configparser` crate: the sections of an INI file, their keys
/// and values.
#[verifier::external_type_specification]
#[verifier::external_body]
pub struct ExIni(configparser::ini::Ini);

/// Section, key and value texts of an INI file. A key without a value is not
/// among them.
pub type Entries = Map<(Seq<char>, Seq<char>), Seq<char>>;

/// What an INI file holds.
pub uninterp spec fn ini_entries(ini: Ini) -> Entries;

/// What the text of an INI file says, or why it cannot be read.
pub uninterp spec fn ini_parsed(text: Seq<char>) -> Result<Entries, Seq<char>>;

/// The texts of all INI files with these entries, in whatever order.
pub uninterp spec fn ini_texts(entries: Entries) -> Set<Seq<char>>;

/// `Ini::new` of the `configparser` crate holds nothing.
#[verifier::external_body]
fn ini_new() -> (r: Ini)
    ensures
        ini_entries(r) == no_entries(),
{
    Ini::new()
}

/// `Ini::read` of the `configparser` crate, with its default settings: what
/// the text says, or the message of the error in it.
#[verifier::external_body]
fn ini_read(text: String) -> (r: Result<Ini, String>)
    ensures
        match r {
            Ok(ini) => ini_parsed(text@) == parsed_as(ini_entries(ini)),
            Err(e) => ini_parsed(text@) == parse_failed(e@),
        },
{
    let mut ini = Ini::new();
    ini.read(text)?;
    Ok(ini)
}

/// `Ini::get` of the `configparser` crate, with its default settings: the
/// value under a section and a key, whose ASCII letters it takes in lower
/// case.
#[verifier::external_body]
fn ini_get(ini: &Ini, section: &str, key: &str) -> (r: Option<String>)
    requires
        is_ascii_chars(section@),
        is_ascii_chars(key@),
    ensures
        opt_view(r) == entry(ini_entries(*ini), ascii_lower(section@), ascii_lower(key@)),
{
    ini.get(section, key)
}

/// `Ini::set` of the `configparser` crate, with its default settings and a
/// value: the value is put under the section and the key, whose ASCII letters
/// it takes in lower case.
#[verifier::external_body]
fn ini_set(ini: &mut Ini, section: &str, key: &str, value: String)
    requires
        is_ascii_chars(section@),
        is_ascii_chars(key@),
    ensures
        ini_entries(*final(ini)) == ini_entries(*old(ini)).insert(
            (ascii_lower(section@), ascii_lower(key@)),
            value@,
        ),
{
    ini.set(section, key, Some(value));
}

/// `Ini::writes` of the `configparser` crate: a text of these entries, which
/// reads back as they are where names and values are plain. The order of
/// sections and keys in it is left open.
#[verifier::external_body]
fn ini_writes(ini: &Ini) -> (r: String)
    ensures
        ini_texts(ini_entries(*ini)).contains(r@),
        plain_entries(ini_entries(*ini)) ==> ini_parsed(r@) == parsed_as(ini_entries(*ini)),
{
    ini.writes()
}

/// No entries.
pub open spec fn no_entries() -> Entries {
    Map::empty()
}

/// A text read with these entries.
pub open spec fn parsed_as(m: Entries) -> Result<Entries, Seq<char>> {
    Ok(m)
}

/// A text that could not be read.
pub open spec fn parse_failed(e: Seq<char>) -> Result<Entries, Seq<char>> {
    Err(e)
}

/// The value under a section and a key.
pub open spec fn entry(m: Entries, section: Seq<char>, key: Seq<char>) -> Option<Seq<char>> {
    if m.dom().contains((section, key)) {
        Some(m[(section, key)])
    } else {
        None
    }
}

/// A section name or a key of small letters and underscores, and not the name
/// of the section that has no header.
pub open spec fn plain_name(s: Seq<char>) -> bool {
    s.len() > 0 && s != "default"@ && forall|i: int|
        0 <= i < s.len() ==> 'a' <= #[trigger] s[i] <= 'z' || s[i] == '_'
}

/// A value on one line, without whitespace at its ends and without a character
/// that would begin a comment.
pub open spec fn plain_value(s: Seq<char>) -> bool {
    trim(s) == s && forall|i: int|
        0 <= i < s.len() ==> (#[trigger] s[i]) != '\n' && s[i] != ';' && s[i] != '#'
}

/// Every name and every value is plain.
pub open spec fn plain_entries(m: Entries) -> bool {
    forall|k: (Seq<char>, Seq<char>)| #[trigger]
        m.dom().contains(k) ==> plain_name(k.0) && plain_name(k.1) && plain_value(m[k])
}

// ---------------------------------------------------------------------------
// Settings
// ---------------------------------------------------------------------------

/// How long to wait for an answer, and whether to come back after a loss.
#[derive(Debug, Clone)]
pub struct ConnectionConfig {
    pub response_timeout_secs: u64,
    pub auto_reconnect: bool,
}

impl Default for ConnectionConfig {
    fn default() -> (r: ConnectionConfig)
        ensures
            r.response_timeout_secs == 30,
            r.auto_reconnect,
    {
        ConnectionConfig { response_timeout_secs: 30, auto_reconnect: true }
    }
}

/// The page cache.
#[derive(Debug, Clone)]
pub struct CacheSection {
    pub enabled: bool,
    pub max_bytes: u64,
    pub max_ttl_seconds: u64,
    pub dir: Option<String>,
}

impl Default for CacheSection {
    fn default() -> (r: CacheSection)
        ensures
            r.enabled,
            r.max_bytes == 209_715_200,
            r.max_ttl_seconds == 86_400,
            r.dir is None,
    {
        CacheSection { enabled: true, max_bytes: 209_715_200, max_ttl_seconds: 86_400, dir: None }
    }
}

impl CacheSection {
    /// The directory of the cache: the configured one, else the one that the
    /// system offers.
    pub fn effective_dir(&self, system_dir: Option<String>) -> (r: Result<String, ConfigError>)
        ensures
            match (self.dir, system_dir) {
                (Some(d), _) => r matches Ok(p) && p@ == d@,
                (None, Some(d)) => r matches Ok(p) && p@ == d@,
                (None, None) => r == Err::<String, ConfigError>(ConfigError::NoConfigDir),
            },
    {
        match &self.dir {
            Some(d) => Ok(d.clone()),
            None => match system_dir {
                Some(d) => Ok(d),
                None => Err(ConfigError::NoConfigDir),
            },
        }
    }
}

/// The settings of the station.
#[derive(Debug, Clone)]
pub struct FileConfig {
    pub agwpe_host: String,
    pub agwpe_port: u16,
    pub my_callsign: String,
    pub target_callsign: String,
    pub bpq_command: String,
    pub skip_bpq_app: bool,
    pub cache: CacheSection,
    pub connection: ConnectionConfig,
}

/// The settings by the texts and numbers that they hold.
pub struct ConfigView {
    pub agwpe_host: Seq<char>,
    pub agwpe_port: u16,
    pub my_callsign: Seq<char>,
    pub target_callsign: Seq<char>,
    pub bpq_command: Seq<char>,
    pub skip_bpq_app: bool,
    pub cache_enabled: bool,
    pub cache_max_bytes: u64,
    pub cache_max_ttl_seconds: u64,
    pub cache_dir: Option<Seq<char>>,
    pub response_timeout_secs: u64,
    pub auto_reconnect: bool,
}

impl View for FileConfig {
    type V = ConfigView;

    open spec fn view(&self) -> ConfigView {
        ConfigView {
            agwpe_host: self.agwpe_host@,
            agwpe_port: self.agwpe_port,
            my_callsign: self.my_callsign@,
            target_callsign: self.target_callsign@,
            bpq_command: self.bpq_command@,
            skip_bpq_app: self.skip_bpq_app,
            cache_enabled: self.cache.enabled,
            cache_max_bytes: self.cache.max_bytes,
            cache_max_ttl_seconds: self.cache.max_ttl_seconds,
            cache_dir: opt_view(self.cache.dir),
            response_timeout_secs: self.connection.response_timeout_secs,
            auto_reconnect: self.connection.auto_reconnect,
        }
    }
}

/// The settings of a station without a file.
pub open spec fn default_config() -> ConfigView {
    ConfigView {
        agwpe_host: "127.0.0.1"@,
        agwpe_port: 8000,
        my_callsign: Seq::<char>::empty(),
        target_callsign: Seq::<char>::empty(),
        bpq_command: "WEB"@,
        skip_bpq_app: false,
        cache_enabled: true,
        cache_max_bytes: 209_715_200,
        cache_max_ttl_seconds: 86_400,
        cache_dir: None,
        response_timeout_secs: 30,
        auto_reconnect: true,
    }
}

/// A text, or another where there is none.
pub open spec fn text_or(v: Option<Seq<char>>, default: Seq<char>) -> Seq<char> {
    match v {
        Some(s) => s,
        None => default,
    }
}

/// The number that a text stands for, or another where it stands for none.
pub open spec fn number_or(v: Option<Seq<char>>, max: nat, default: nat) -> nat {
    match v {
        Some(s) => match unsigned(s, max) {
            Some(n) => n,
            None => default,
        },
        None => default,
    }
}

/// A word for yes.
pub open spec fn is_yes(s: Seq<char>) -> bool {
    let w = lower(s);
    w == "true"@ || w == "1"@ || w == "yes"@ || w == "on"@
}

/// Yes or no, or another answer where there is none.
pub open spec fn yes_or(v: Option<Seq<char>>, default: bool) -> bool {
    match v {
        Some(s) => is_yes(s),
        None => default,
    }
}

/// The values of an INI file that are settings, where it has them.
#[derive(Debug)]
pub struct RawSettings {
    pub agwpe_host: Option<String>,
    pub agwpe_port: Option<String>,
    pub my_callsign: Option<String>,
    pub target_callsign: Option<String>,
    pub bpq_command: Option<String>,
    pub skip_bpq_app: Option<String>,
    pub cache_enabled: Option<String>,
    pub cache_max_bytes: Option<String>,
    pub cache_max_ttl_seconds: Option<String>,
    pub cache_dir: Option<String>,
    pub response_timeout_secs: Option<String>,
    pub auto_reconnect: Option<String>,
}

/// The values by their texts.
pub struct RawView {
    pub agwpe_host: Option<Seq<char>>,
    pub agwpe_port: Option<Seq<char>>,
    pub my_callsign: Option<Seq<char>>,
    pub target_callsign: Option<Seq<char>>,
    pub bpq_command: Option<Seq<char>>,
    pub skip_bpq_app: Option<Seq<char>>,
    pub cache_enabled: Option<Seq<char>>,
    pub cache_max_bytes: Option<Seq<char>>,
    pub cache_max_ttl_seconds: Option<Seq<char>>,
    pub cache_dir: Option<Seq<char>>,
    pub response_timeout_secs: Option<Seq<char>>,
    pub auto_reconnect: Option<Seq<char>>,
}

impl View for RawSettings {
    type V = RawView;

    open spec fn view(&self) -> RawView {
        RawView {
            agwpe_host: opt_view(self.agwpe_host),
            agwpe_port: opt_view(self.agwpe_port),
            my_callsign: opt_view(self.my_callsign),
            target_callsign: opt_view(self.target_callsign),
            bpq_command: opt_view(self.bpq_command),
            skip_bpq_app: opt_view(self.skip_bpq_app),
            cache_enabled: opt_view(self.cache_enabled),
            cache_max_bytes: opt_view(self.cache_max_bytes),
            cache_max_ttl_seconds: opt_view(self.cache_max_ttl_seconds),
            cache_dir: opt_view(self.cache_dir),
            response_timeout_secs: opt_view(self.response_timeout_secs),
            auto_reconnect: opt_view(self.auto_reconnect),
        }
    }
}

/// The values under the sections and keys of the settings.
pub open spec fn raw_of(m: Entries) -> RawView {
    RawView {
        agwpe_host: entry(m, "server"@, "agwpe_host"@),
        agwpe_port: entry(m, "server"@, "agwpe_port"@),
        my_callsign: entry(m, "session"@, "my_callsign"@),
        target_callsign: entry(m, "session"@, "target_callsign"@),
        bpq_command: entry(m, "session"@, "bpq_command"@),
        skip_bpq_app: entry(m, "session"@, "skip_bpq_app"@),
        cache_enabled: entry(m, "cache"@, "enabled"@),
        cache_max_bytes: entry(m, "cache"@, "max_bytes"@),
        cache_max_ttl_seconds: entry(m, "cache"@, "max_ttl_seconds"@),
        cache_dir: entry(m, "cache"@, "dir"@),
        response_timeout_secs: entry(m, "connection"@, "response_timeout_secs"@),
        auto_reconnect: entry(m, "connection"@, "auto_reconnect"@),
    }
}

/// The settings that the entries of an INI file make.
pub open spec fn config_of(m: Entries) -> ConfigView {
    settings_of(raw_of(m))
}

/// The settings that the values of an INI file make.
pub open spec fn settings_of(v: RawView) -> ConfigView {
    ConfigView {
        agwpe_host: text_or(v.agwpe_host, "127.0.0.1"@),
        agwpe_port: number_or(v.agwpe_port, u16::MAX as nat, 8000) as u16,
        my_callsign: text_or(v.my_callsign, Seq::<char>::empty()),
        target_callsign: text_or(v.target_callsign, Seq::<char>::empty()),
        bpq_command: text_or(v.bpq_command, "WEB"@),
        skip_bpq_app: match v.skip_bpq_app {
            Some(s) => lower(s) == "true"@,
            None => false,
        },
        cache_enabled: yes_or(v.cache_enabled, true),
        cache_max_bytes: number_or(v.cache_max_bytes, u64::MAX as nat, 209_715_200) as u64,
        cache_max_ttl_seconds: number_or(v.cache_max_ttl_seconds, u64::MAX as nat, 86_400) as u64,
        cache_dir: match v.cache_dir {
            Some(s) => if trim(s).len() == 0 {
                None
            } else {
                Some(s)
            },
            None => None,
        },
        response_timeout_secs: number_or(v.response_timeout_secs, u64::MAX as nat, 30) as u64,
        auto_reconnect: yes_or(v.auto_reconnect, true),
    }
}

/// A truth value as text.
pub open spec fn bool_text(b: bool) -> Seq<char> {
    if b {
        "true"@
    } else {
        "false"@
    }
}

/// The entries that hold the settings.
pub open spec fn entries_of(c: ConfigView) -> Entries {
    let m = no_entries().insert(("server"@, "agwpe_host"@), c.agwpe_host).insert(
        ("server"@, "agwpe_port"@),
        decimal(c.agwpe_port as nat),
    ).insert(("session"@, "my_callsign"@), c.my_callsign).insert(
        ("session"@, "target_callsign"@),
        c.target_callsign,
    ).insert(("session"@, "bpq_command"@), c.bpq_command).insert(
        ("session"@, "skip_bpq_app"@),
        bool_text(c.skip_bpq_app),
    ).insert(("cache"@, "enabled"@), bool_text(c.cache_enabled)).insert(
        ("cache"@, "max_bytes"@),
        decimal(c.cache_max_bytes as nat),
    ).insert(("cache"@, "max_ttl_seconds"@), decimal(c.cache_max_ttl_seconds as nat));
    let m = match c.cache_dir {
        Some(d) => m.insert(("cache"@, "dir"@), d),
        None => m,
    };
    m.insert(
        ("connection"@, "response_timeout_secs"@),
        decimal(c.response_timeout_secs as nat),
    ).insert(("connection"@, "auto_reconnect"@), bool_text(c.auto_reconnect))
}

/// A name that `Ini` keeps as it is.
spec fn kept(s: Seq<char>) -> bool {
    is_ascii_chars(s) && ascii_lower(s) == s
}

/// Names of small letters and underscores are kept.
proof fn lemma_plain_is_kept(s: Seq<char>)
    requires
        plain_name(s),
    ensures
        kept(s),
{
    assert(ascii_lower(s) =~= s);
}

/// The names of the sections.
proof fn lemma_sections()
    ensures
        plain_name("server"@),
        plain_name("session"@),
        plain_name("cache"@),
        plain_name("connection"@),
{
    reveal_strlit("default");
    reveal_strlit("server");
    reveal_strlit("session");
    reveal_strlit("cache");
    reveal_strlit("connection");
    assert("session"@[0] != "default"@[0]);
}

/// The keys.
proof fn lemma_keys()
    ensures
        plain_name("agwpe_host"@),
        plain_name("agwpe_port"@),
        plain_name("my_callsign"@),
        plain_name("target_callsign"@),
        plain_name("bpq_command"@),
        plain_name("skip_bpq_app"@),
        plain_name("enabled"@),
        plain_name("max_bytes"@),
        plain_name("max_ttl_seconds"@),
        plain_name("dir"@),
        plain_name("response_timeout_secs"@),
        plain_name("auto_reconnect"@),
{
    reveal_strlit("default");
    reveal_strlit("agwpe_host");
    reveal_strlit("agwpe_port");
    reveal_strlit("my_callsign");
    reveal_strlit("target_callsign");
    reveal_strlit("bpq_command");
    reveal_strlit("skip_bpq_app");
    reveal_strlit("enabled");
    reveal_strlit("max_bytes");
    reveal_strlit("max_ttl_seconds");
    reveal_strlit("dir");
    reveal_strlit("response_timeout_secs");
    reveal_strlit("auto_reconnect");
    assert("enabled"@[0] != "default"@[0]);
}

/// All names that the settings use.
proof fn lemma_names()
    ensures
        kept("server"@) && kept("session"@) && kept("cache"@) && kept("connection"@),
        kept("agwpe_host"@) && kept("agwpe_port"@) && kept("my_callsign"@),
        kept("target_callsign"@) && kept("bpq_command"@) && kept("skip_bpq_app"@),
        kept("enabled"@) && kept("max_bytes"@) && kept("max_ttl_seconds"@) && kept("dir"@),
        kept("response_timeout_secs"@) && kept("auto_reconnect"@),
{
    lemma_sections();
    lemma_keys();
    lemma_plain_is_kept("server"@);
    lemma_plain_is_kept("session"@);
    lemma_plain_is_kept("cache"@);
    lemma_plain_is_kept("connection"@);
    lemma_plain_is_kept("agwpe_host"@);
    lemma_plain_is_kept("agwpe_port"@);
    lemma_plain_is_kept("my_callsign"@);
    lemma_plain_is_kept("target_callsign"@);
    lemma_plain_is_kept("bpq_command"@);
    lemma_plain_is_kept("skip_bpq_app"@);
    lemma_plain_is_kept("enabled"@);
    lemma_plain_is_kept("max_bytes"@);
    lemma_plain_is_kept("max_ttl_seconds"@);
    lemma_plain_is_kept("dir"@);
    lemma_plain_is_kept("response_timeout_secs"@);
    lemma_plain_is_kept("auto_reconnect"@);
}

/// A text, or another where there is none.
fn text_else(v: Option<String>, default: &str) -> (r: String)
    ensures
        r@ == text_or(opt_view(v), default@),
{
    match v {
        Some(s) => s,
        None => default.to_owned(),
    }
}

/// The number that a text stands for, or another where it stands for none.
fn number_else(v: Option<String>, max: u64, default: u64) -> (r: u64)
    requires
        default <= max,
    ensures
        r == number_or(opt_view(v), max as nat, default as nat),
        r <= max,
{
    match v {
        Some(s) => match read_unsigned(s.as_str(), max) {
            Some(n) => n,
            None => default,
        },
        None => default,
    }
}

/// Tells whether a word means yes.
pub fn means_yes(s: &str) -> (r: bool)
    ensures
        r == is_yes(s@),
{
    let w = to_lowercase(s);
    same(w.as_str(), "true") || same(w.as_str(), "1") || same(w.as_str(), "yes") || same(
        w.as_str(),
        "on",
    )
}

/// Yes or no, or another answer where there is none.
fn yes_else(v: Option<String>, default: bool) -> (r: bool)
    ensures
        r == yes_or(opt_view(v), default),
{
    match v {
        Some(s) => means_yes(s.as_str()),
        None => default,
    }
}

/// A truth value as text.
pub fn text_of_bool(b: bool) -> (r: String)
    ensures
        r@ == bool_text(b),
{
    if b {
        "true".to_owned()
    } else {
        "false".to_owned()
    }
}

impl Default for FileConfig {
    fn default() -> (r: FileConfig)
        ensures
            r@ == default_config(),
    {
        FileConfig {
            agwpe_host: "127.0.0.1".to_owned(),
            agwpe_port: 8000,
            my_callsign: String::new(),
            target_callsign: String::new(),
            bpq_command: "WEB".to_owned(),
            skip_bpq_app: false,
            cache: CacheSection::default(),
            connection: ConnectionConfig::default(),
        }
    }
}

/// What reading a file came to, by its texts.
pub open spec fn contents_view(c: Result<Option<String>, String>) -> Result<
    Option<Seq<char>>,
    Seq<char>,
> {
    match c {
        Ok(text) => Ok(opt_view(text)),
        Err(e) => Err(e@),
    }
}

/// There is a file with this text.
pub open spec fn file_with(text: Seq<char>) -> Result<Option<Seq<char>>, Seq<char>> {
    Ok(Some(text))
}

/// The message for a file that cannot be read.
pub open spec fn unread(path: Seq<char>, why: Seq<char>) -> Seq<char> {
    "couldn't read "@ + path + (": "@ + why)
}

/// The settings that reading the file at a path makes: the defaults where there
/// is no file, an error that names the path where it cannot be read or is no INI
/// file.
pub open spec fn loaded(
    path: Seq<char>,
    contents: Result<Option<Seq<char>>, Seq<char>>,
) -> Result<ConfigView, Seq<char>> {
    match contents {
        Ok(None) => Ok(default_config()),
        Ok(Some(text)) => match ini_parsed(text) {
            Ok(m) => Ok(config_of(m)),
            Err(e) => Err(unread(path, e)),
        },
        Err(e) => Err(unread(path, e)),
    }
}

/// Success with these settings.
pub open spec fn loaded_as(c: ConfigView) -> Result<ConfigView, Seq<char>> {
    Ok(c)
}

/// Settings whose texts a file can hold as they are.
pub open spec fn plain_settings(c: ConfigView) -> bool {
    &&& plain_value(c.agwpe_host)
    &&& plain_value(c.my_callsign)
    &&& plain_value(c.target_callsign)
    &&& plain_value(c.bpq_command)
    &&& c.cache_dir matches Some(d) ==> plain_value(d) && d.len() > 0
}

/// A text without whitespace, comment characters or line breaks is plain.
proof fn lemma_plain_word(s: Seq<char>)
    requires
        forall|i: int|
            0 <= i < s.len() ==> ('0' <= #[trigger] s[i] <= '9') || ('a' <= s[i] <= 'z'),
    ensures
        plain_value(s),
{
    if s.len() > 0 {
        assert('0' <= s[0] <= '9' || 'a' <= s[0] <= 'z');
        assert('0' <= s[s.len() - 1] <= '9' || 'a' <= s[s.len() - 1] <= 'z');
    }
}

/// Numbers and truth values are plain.
proof fn lemma_plain_numbers(n: nat, b: bool)
    ensures
        plain_value(decimal(n)),
        plain_value(bool_text(b)),
{
    crate::number::lemma_decimal(n);
    assert forall|i: int| 0 <= i < decimal(n).len() implies ('0' <= #[trigger] decimal(n)[i]
        <= '9') || ('a' <= decimal(n)[i] <= 'z') by {
        assert(crate::text::is_digit(decimal(n)[i]));
    }
    lemma_plain_word(decimal(n));
    reveal_strlit("true");
    reveal_strlit("false");
    lemma_plain_word("true"@);
    lemma_plain_word("false"@);
}

/// Plain settings make plain entries.
proof fn lemma_plain_settings(c: ConfigView)
    requires
        plain_settings(c),
    ensures
        plain_entries(entries_of(c)),
{
    lemma_sections();
    lemma_keys();
    lemma_plain_numbers(c.agwpe_port as nat, c.skip_bpq_app);
    lemma_plain_numbers(c.cache_max_bytes as nat, c.cache_enabled);
    lemma_plain_numbers(c.cache_max_ttl_seconds as nat, c.auto_reconnect);
    lemma_plain_numbers(c.response_timeout_secs as nat, true);
}

/// No two settings share a section and a key.
proof fn lemma_distinct_names()
    ensures
        "server"@ != "session"@ && "server"@ != "cache"@ && "server"@ != "connection"@,
        "session"@ != "cache"@ && "session"@ != "connection"@ && "cache"@ != "connection"@,
        "agwpe_host"@ != "agwpe_port"@,
        "my_callsign"@ != "target_callsign"@ && "my_callsign"@ != "bpq_command"@,
        "my_callsign"@ != "skip_bpq_app"@ && "target_callsign"@ != "bpq_command"@,
        "target_callsign"@ != "skip_bpq_app"@ && "bpq_command"@ != "skip_bpq_app"@,
        "enabled"@ != "max_bytes"@ && "enabled"@ != "max_ttl_seconds"@ && "enabled"@ != "dir"@,
        "max_bytes"@ != "max_ttl_seconds"@ && "max_bytes"@ != "dir"@,
        "max_ttl_seconds"@ != "dir"@,
        "response_timeout_secs"@ != "auto_reconnect"@,
{
    reveal_strlit("server");
    reveal_strlit("session");
    reveal_strlit("cache");
    reveal_strlit("connection");
    reveal_strlit("agwpe_host");
    reveal_strlit("agwpe_port");
    reveal_strlit("my_callsign");
    reveal_strlit("target_callsign");
    reveal_strlit("bpq_command");
    reveal_strlit("skip_bpq_app");
    reveal_strlit("enabled");
    reveal_strlit("max_bytes");
    reveal_strlit("max_ttl_seconds");
    reveal_strlit("dir");
    reveal_strlit("response_timeout_secs");
    reveal_strlit("auto_reconnect");
    assert("server"@.len() == 6 && "session"@.len() == 7);
    assert("cache"@.len() == 5 && "connection"@.len() == 10);
    assert("my_callsign"@.len() == 11 && "target_callsign"@.len() == 15);
    assert("bpq_command"@.len() == 11 && "skip_bpq_app"@.len() == 12);
    assert("enabled"@.len() == 7 && "max_bytes"@.len() == 9);
    assert("max_ttl_seconds"@.len() == 15 && "dir"@.len() == 3);
    assert("response_timeout_secs"@.len() == 21 && "auto_reconnect"@.len() == 14);
    assert("agwpe_host"@[6] != "agwpe_port"@[6]);
    assert("my_callsign"@[0] != "bpq_command"@[0]);
}

/// A truth value's text is understood as that value.
proof fn lemma_bool_text(b: bool)
    ensures
        is_yes(bool_text(b)) == b,
        (lower(bool_text(b)) == "true"@) == b,
{
    reveal_strlit("true");
    reveal_strlit("false");
    reveal_strlit("1");
    reveal_strlit("yes");
    reveal_strlit("on");
    assert(ascii_lower("true"@) =~= "true"@);
    assert(ascii_lower("false"@) =~= "false"@);
}

/// The entries that hold the settings make those settings again, where a cache
/// directory, if there is one, has a name that is not blank.
pub proof fn settings_round_trip(c: ConfigView)
    requires
        c.cache_dir matches Some(d) ==> trim(d).len() > 0,
    ensures
        config_of(entries_of(c)) == c,
{
    lemma_distinct_names();
    lemma_bool_text(c.skip_bpq_app);
    lemma_bool_text(c.cache_enabled);
    lemma_bool_text(c.auto_reconnect);
    crate::number::unsigned_decimal_round_trip(c.agwpe_port as nat, u16::MAX as nat);
    crate::number::unsigned_decimal_round_trip(c.cache_max_bytes as nat, u64::MAX as nat);
    crate::number::unsigned_decimal_round_trip(c.cache_max_ttl_seconds as nat, u64::MAX as nat);
    crate::number::unsigned_decimal_round_trip(c.response_timeout_secs as nat, u64::MAX as nat);
}

/// Settings or an error, by what they hold.
pub open spec fn config_result(
    r: Result<FileConfig, ConfigError>,
    expected: Result<ConfigView, Seq<char>>,
) -> bool {
    match expected {
        Ok(c) => r matches Ok(f) && f@ == c,
        Err(e) => r matches Err(ConfigError::Parse(m)) && m@ == e,
    }
}

/// The settings that the values of an INI file make.
pub fn settings_from(raw: RawSettings) -> (r: FileConfig)
    ensures
        r@ == settings_of(raw@),
{
    proof {
        reveal_strlit("");
        assert(""@ =~= Seq::<char>::empty());
    }
    let skip_bpq_app = match raw.skip_bpq_app {
        Some(s) => same(to_lowercase(s.as_str()).as_str(), "true"),
        None => false,
    };
    let dir = match raw.cache_dir {
        Some(s) => if trimmed(s.as_str()).as_str().is_empty() {
            None
        } else {
            Some(s)
        },
        None => None,
    };
    FileConfig {
        agwpe_host: text_else(raw.agwpe_host, "127.0.0.1"),
        agwpe_port: number_else(raw.agwpe_port, 0xffff, 8000) as u16,
        my_callsign: text_else(raw.my_callsign, ""),
        target_callsign: text_else(raw.target_callsign, ""),
        bpq_command: text_else(raw.bpq_command, "WEB"),
        skip_bpq_app,
        cache: CacheSection {
            enabled: yes_else(raw.cache_enabled, true),
            max_bytes: number_else(raw.cache_max_bytes, u64::MAX, 209_715_200),
            max_ttl_seconds: number_else(raw.cache_max_ttl_seconds, u64::MAX, 86_400),
            dir,
        },
        connection: ConnectionConfig {
            response_timeout_secs: number_else(raw.response_timeout_secs, u64::MAX, 30),
            auto_reconnect: yes_else(raw.auto_reconnect, true),
        },
    }
}

/// The settings that the entries of an INI file make.
pub fn config_from_ini(ini: &Ini) -> (r: FileConfig)
    ensures
        r@ == config_of(ini_entries(*ini)),
{
    proof {
        lemma_names();
    }
    settings_from(
        RawSettings {
            agwpe_host: ini_get(ini, "server", "agwpe_host"),
            agwpe_port: ini_get(ini, "server", "agwpe_port"),
            my_callsign: ini_get(ini, "session", "my_callsign"),
            target_callsign: ini_get(ini, "session", "target_callsign"),
            bpq_command: ini_get(ini, "session", "bpq_command"),
            skip_bpq_app: ini_get(ini, "session", "skip_bpq_app"),
            cache_enabled: ini_get(ini, "cache", "enabled"),
            cache_max_bytes: ini_get(ini, "cache", "max_bytes"),
            cache_max_ttl_seconds: ini_get(ini, "cache", "max_ttl_seconds"),
            cache_dir: ini_get(ini, "cache", "dir"),
            response_timeout_secs: ini_get(ini, "connection", "response_timeout_secs"),
            auto_reconnect: ini_get(ini, "connection", "auto_reconnect"),
        },
    )
}

/// The message for a file that cannot be read.
fn unread_text(path: &str, why: &str) -> (r: String)
    ensures
        r@ == unread(path@, why@),
{
    let tail = join2(": ", why);
    join3("couldn't read ", path, tail.as_str())
}

impl FileConfig {
    /// Reads the settings from what reading the file at `path` came to: its
    /// contents, nothing where there is no file, or the message of the error.
    /// Without a file they are the defaults.
    pub fn load(path: &str, contents: Result<Option<String>, String>) -> (r: Result<
        FileConfig,
        ConfigError,
    >)
        ensures
            config_result(r, loaded(path@, contents_view(contents))),
    {
        match contents {
            Ok(None) => Ok(FileConfig::default()),
            Ok(Some(text)) => match ini_read(text) {
                Ok(ini) => Ok(config_from_ini(&ini)),
                Err(e) => Err(ConfigError::Parse(unread_text(path, e.as_str()))),
            },
            Err(e) => Err(ConfigError::Parse(unread_text(path, e.as_str()))),
        }
    }

    /// The contents of a file that holds these settings. It reads back as they
    /// are where their texts are plain.
    pub fn save(&self) -> (r: String)
        ensures
            ini_texts(entries_of(self@)).contains(r@),
            plain_settings(self@) ==> forall|path: Seq<char>| #[trigger]
                loaded(path, file_with(r@)) == loaded_as(self@),
    {
        proof {
            lemma_names();
        }
        let mut ini = ini_new();
        ini_set(&mut ini, "server", "agwpe_host", self.agwpe_host.clone());
        ini_set(&mut ini, "server", "agwpe_port", decimal_text(self.agwpe_port as u64));
        ini_set(&mut ini, "session", "my_callsign", self.my_callsign.clone());
        ini_set(&mut ini, "session", "target_callsign", self.target_callsign.clone());
        ini_set(&mut ini, "session", "bpq_command", self.bpq_command.clone());
        ini_set(&mut ini, "session", "skip_bpq_app", text_of_bool(self.skip_bpq_app));
        ini_set(&mut ini, "cache", "enabled", text_of_bool(self.cache.enabled));
        ini_set(&mut ini, "cache", "max_bytes", decimal_text(self.cache.max_bytes));
        ini_set(&mut ini, "cache", "max_ttl_seconds", decimal_text(self.cache.max_ttl_seconds));
        if let Some(d) = &self.cache.dir {
            ini_set(&mut ini, "cache", "dir", d.clone());
        }
        ini_set(
            &mut ini,
            "connection",
            "response_timeout_secs",
            decimal_text(self.connection.response_timeout_secs),
        );
        ini_set(
            &mut ini,
            "connection",
            "auto_reconnect",
            text_of_bool(self.connection.auto_reconnect),
        );
        assert(ini_entries(ini) =~= entries_of(self@));
        proof {
            if plain_settings(self@) {
                lemma_plain_settings(self@);
                settings_round_trip(self@);
            }
        }
        ini_writes(&ini)
    }

    /// Sets the node to connect to.
    pub fn update_target(&mut self, target: &str)
        ensures
            final(self)@ == (ConfigView { target_callsign: target@, ..old(self)@ }),
    {
        self.target_callsign = target.to_owned();
    }
}

// ---------------------------------------------------------------------------
// The command line
// ---------------------------------------------------------------------------

/// The settings file for the whole system.
pub const SYSTEM_CONFIG_PATH: &'static str = "/etc/packet-browser/config.ini";

/// What the command line says.
#[derive(Debug, Clone)]
pub struct CliArgs {
    pub config_path: Option<String>,
    pub agwpe_host: Option<String>,
    pub agwpe_port: Option<u16>,
    pub listen_addr: String,
    pub bpq_command: Option<String>,
    pub verbosity: u8,
    pub allowed_hosts: Vec<String>,
}

/// The settings with what the command line says in their place.
pub open spec fn overridden(
    c: ConfigView,
    agwpe_host: Option<Seq<char>>,
    agwpe_port: Option<u16>,
    bpq_command: Option<Seq<char>>,
) -> ConfigView {
    ConfigView {
        agwpe_host: text_or(agwpe_host, c.agwpe_host),
        agwpe_port: match agwpe_port {
            Some(p) => p,
            None => c.agwpe_port,
        },
        bpq_command: text_or(bpq_command, c.bpq_command),
        ..c
    }
}

impl CliArgs {
    /// The path of the settings file: the one on the command line; else the
    /// user's, where there is such a file; else the one for the whole system,
    /// where there is one; else the user's, for a file that may be made there.
    pub fn settings_path(
        &self,
        user_path: Option<String>,
        user_file: bool,
        system_file: bool,
    ) -> (r: Result<String, ConfigError>)
        ensures
            match (self.config_path, user_path) {
                (Some(p), _) => r matches Ok(q) && q@ == p@,
                (None, Some(p)) => r matches Ok(q) && q@ == (if user_file || !system_file {
                    p@
                } else {
                    SYSTEM_CONFIG_PATH@
                }),
                (None, None) => if system_file {
                    r matches Ok(q) && q@ == SYSTEM_CONFIG_PATH@
                } else {
                    r == Err::<String, ConfigError>(ConfigError::NoConfigDir)
                },
            },
    {
        match &self.config_path {
            Some(p) => Ok(p.clone()),
            None => match user_path {
                Some(p) => {
                    if user_file || !system_file {
                        Ok(p)
                    } else {
                        Ok(SYSTEM_CONFIG_PATH.to_owned())
                    }
                },
                None => {
                    if system_file {
                        Ok(SYSTEM_CONFIG_PATH.to_owned())
                    } else {
                        Err(ConfigError::NoConfigDir)
                    }
                },
            },
        }
    }

    /// The settings in force: those of the file, with what the command line
    /// says in their place.
    pub fn resolve_config(&self, path: &str, contents: Result<Option<String>, String>) -> (r:
        Result<FileConfig, ConfigError>)
        ensures
            match loaded(path@, contents_view(contents)) {
                Ok(c) => r matches Ok(f) && f@ == overridden(
                    c,
                    opt_view(self.agwpe_host),
                    self.agwpe_port,
                    opt_view(self.bpq_command),
                ),
                Err(e) => r matches Err(ConfigError::Parse(m)) && m@ == e,
            },
    {
        let mut config = match FileConfig::load(path, contents) {
            Ok(c) => c,
            Err(e) => {
                return Err(e);
            },
        };
        if let Some(host) = &self.agwpe_host {
            config.agwpe_host = host.clone();
        }
        if let Some(port) = self.agwpe_port {
            config.agwpe_port = port;
        }
        if let Some(cmd) = &self.bpq_command {
            config.bpq_command = cmd.clone();
        }
        Ok(config)
    }
}

/// Host names as the command line gives them, trimmed and in lower case, the
/// blank ones left out.
pub open spec fn clean_hosts(raw: Seq<Seq<char>>) -> Seq<Seq<char>>
    decreases raw.len(),
{
    if raw.len() == 0 {
        Seq::<Seq<char>>::empty()
    } else {
        let done = clean_hosts(raw.drop_last());
        let host = ascii_lower(trim(raw.last()));
        if host.len() == 0 {
            done
        } else {
            done.push(host)
        }
    }
}

/// Cleans the host names of the command line.
pub fn cleaned_hosts(raw: &Vec<String>) -> (r: Vec<String>)
    ensures
        views(r@) == clean_hosts(views(raw@)),
{
    let mut out: Vec<String> = Vec::new();
    let mut i: usize = 0;
    assert(views(out@) =~= clean_hosts(views(raw@).take(0)));
    while i < raw.len()
        invariant
            i <= raw@.len(),
            views(out@) == clean_hosts(views(raw@).take(i as int)),
        decreases raw.len() - i,
    {
        let host = to_ascii_lower(trimmed(raw[i].as_str()).as_str());
        assert(views(raw@).take(i + 1).drop_last() =~= views(raw@).take(i as int));
        assert(views(raw@).take(i + 1).last() == raw@[i as int]@);
        if !host.as_str().is_empty() {
            proof {
                crate::text::lemma_views_push(out@, host);
            }
            out.push(host);
        }
        i += 1;
    }
    assert(views(raw@).take(i as int) =~= views(raw@));
    out
}

// ---------------------------------------------------------------------------
// Laws
// ---------------------------------------------------------------------------

/// Each setting is read from its own section and key; a number that is set is
/// the one that is used.
pub proof fn settings_have_their_places(m: Entries, v: Seq<char>, n: u64, p: u16)
    ensures
        config_of(m.insert(("server"@, "agwpe_host"@), v)).agwpe_host == v,
        config_of(m.insert(("server"@, "agwpe_port"@), decimal(p as nat))).agwpe_port == p,
        config_of(m.insert(("session"@, "my_callsign"@), v)).my_callsign == v,
        config_of(m.insert(("session"@, "target_callsign"@), v)).target_callsign == v,
        config_of(m.insert(("session"@, "bpq_command"@), v)).bpq_command == v,
        config_of(m.insert(("session"@, "skip_bpq_app"@), "true"@)).skip_bpq_app,
        config_of(m.insert(("cache"@, "enabled"@), "true"@)).cache_enabled,
        !config_of(m.insert(("cache"@, "enabled"@), "false"@)).cache_enabled,
        config_of(m.insert(("cache"@, "max_bytes"@), decimal(n as nat))).cache_max_bytes == n,
        config_of(
            m.insert(("cache"@, "max_ttl_seconds"@), decimal(n as nat)),
        ).cache_max_ttl_seconds == n,
        trim(v).len() > 0 ==> config_of(m.insert(("cache"@, "dir"@), v)).cache_dir == Some(v),
        trim(v).len() == 0 ==> config_of(m.insert(("cache"@, "dir"@), v)).cache_dir is None,
        config_of(
            m.insert(("connection"@, "response_timeout_secs"@), decimal(n as nat)),
        ).response_timeout_secs == n,
        config_of(m.insert(("connection"@, "auto_reconnect"@), "true"@)).auto_reconnect,
        !config_of(m.insert(("connection"@, "auto_reconnect"@), "false"@)).auto_reconnect,
{
    lemma_bool_text(true);
    lemma_bool_text(false);
    crate::number::unsigned_decimal_round_trip(p as nat, u16::MAX as nat);
    crate::number::unsigned_decimal_round_trip(n as nat, u64::MAX as nat);
}

/// What a file does not set is as it is without a file: the modem at port 8000
/// of this machine, the application WEB, 200 MiB of pages for a day, answers
/// within half a minute.
pub proof fn settings_have_their_defaults(path: Seq<char>)
    ensures
        config_of(no_entries()) == default_config(),
        loaded(path, Ok(None)) == Ok::<ConfigView, Seq<char>>(config_of(no_entries())),
        ({
            let c = config_of(no_entries());
            &&& c.agwpe_host == "127.0.0.1"@
            &&& c.agwpe_port == 8000
            &&& c.my_callsign.len() == 0
            &&& c.target_callsign.len() == 0
            &&& c.bpq_command == "WEB"@
            &&& !c.skip_bpq_app
            &&& c.cache_enabled
            &&& c.cache_max_bytes == 200 * 1024 * 1024
            &&& c.cache_max_ttl_seconds == 24 * 60 * 60
            &&& c.cache_dir is None
            &&& c.response_timeout_secs == 30
            &&& c.auto_reconnect
        }),
{
}

/// The words for yes are these, in any case of their letters; any other word
/// means no.
pub proof fn these_words_mean_yes(word: Seq<char>, default: bool)
    requires
        is_ascii_chars(word),
    ensures
        yes_or(Some(word), default) <==> seq!["1"@, "on"@, "true"@, "yes"@].contains(
            ascii_lower(word),
        ),
        yes_or(None, default) == default,
{
    let yes = seq!["1"@, "on"@, "true"@, "yes"@];
    assert(yes[0] == "1"@ && yes[1] == "on"@ && yes[2] == "true"@ && yes[3] == "yes"@);
}

/// A file that cannot be read or is none is named in the error, with the reason.
pub proof fn unread_files_are_named(path: Seq<char>, why: Seq<char>, text: Seq<char>)
    ensures
        loaded(path, Err(why)) == Err::<ConfigView, Seq<char>>(
            "couldn't read "@ + path + ": "@ + why,
        ),
        ini_parsed(text) == parse_failed(why) ==> loaded(path, Ok(Some(text))) == Err::<
            ConfigView,
            Seq<char>,
        >("couldn't read "@ + path + ": "@ + why),
{
    assert("couldn't read "@ + path + (": "@ + why) =~= "couldn't read "@ + path + ": "@ + why);
}

/// What the command line says goes before the file, and for the rest the file
/// holds.
pub proof fn the_command_line_goes_first(
    c: ConfigView,
    host: Option<Seq<char>>,
    port: Option<u16>,
    command: Option<Seq<char>>,
)
    ensures
        ({
            let n = overridden(c, host, port, command);
            &&& host is Some ==> n.agwpe_host == host->Some_0
            &&& host is None ==> n.agwpe_host == c.agwpe_host
            &&& port is Some ==> n.agwpe_port == port->Some_0
            &&& port is None ==> n.agwpe_port == c.agwpe_port
            &&& command is Some ==> n.bpq_command == command->Some_0
            &&& command is None ==> n.bpq_command == c.bpq_command
            &&& n == (ConfigView {
                agwpe_host: n.agwpe_host,
                agwpe_port: n.agwpe_port,
                bpq_command: n.bpq_command,
                ..c
            })
        }),
{
}

/// Host names of the command line keep their order, without the space around
/// them and in small letters; blank ones count for nothing.
pub proof fn host_names_are_cleaned(
    raw: Seq<Seq<char>>,
    lead: Seq<char>,
    name: Seq<char>,
    tail: Seq<char>,
)
    requires
        crate::text::all_space(lead),
        crate::text::all_space(tail),
        name.len() > 0,
        !crate::text::is_space(name[0]),
        !crate::text::is_space(name.last()),
    ensures
        clean_hosts(raw.push(lead + name + tail)) == clean_hosts(raw).push(ascii_lower(name)),
        clean_hosts(raw.push(lead)) == clean_hosts(raw),
        clean_hosts(Seq::empty()).len() == 0,
{
    crate::text::trimming_takes_space_alone(lead, name, tail);
    assert(raw.push(lead + name + tail).drop_last() =~= raw);
    assert(raw.push(lead).drop_last() =~= raw);
    crate::text::lemma_trim_blank(lead);
    assert(ascii_lower(Seq::<char>::empty()) =~= Seq::<char>::empty());
    assert(trim(lead) =~= Seq::<char>::empty());
}

} // verus!
