//! Configuration resolution: the runtime environment profile, layered
//! key/value sources merged in precedence order, and the decoded
//! settings with a structured connection descriptor.

use crate::secret::SecretString;
use crate::text::{ci_matches, eq_ignore_ascii_case};
use vstd::prelude::*;

verus! {

/// Why configuration resolution failed.
#[derive(Debug)]
pub enum ConfigError {
    /// The environment variable named a profile this service does not know.
    UnsupportedEnvironment,
    /// A required field is absent from every source; carries its path.
    MissingField(String),
    /// A field is present but its value does not parse; carries its path.
    InvalidValue(String),
}

/// The mathematical shape of a [`ConfigError`].
pub enum ConfigErrorV {
    UnsupportedEnvironment,
    MissingField(Seq<char>),
    InvalidValue(Seq<char>),
}

impl View for ConfigError {
    type V = ConfigErrorV;

    open spec fn view(&self) -> ConfigErrorV {
        match self {
            ConfigError::UnsupportedEnvironment => ConfigErrorV::UnsupportedEnvironment,
            ConfigError::MissingField(p) => ConfigErrorV::MissingField(p@),
            ConfigError::InvalidValue(p) => ConfigErrorV::InvalidValue(p@),
        }
    }
}

/// The runtime environment profile the process runs under.
#[derive(Clone, Copy, PartialEq, Eq, Structural, Debug)]
pub enum Environment {
    Local,
    Production,
}

impl Environment {
    /// The profile's name, as it appears in configuration file names.
    pub fn as_str(&self) -> (r: &'static str)
        ensures
            self is Local ==> r@ == "local"@,
            self is Production ==> r@ == "production"@,
    {
        match self {
            Environment::Local => "local",
            Environment::Production => "production",
        }
    }

    /// Reads a profile name, ignoring ASCII case; any name other than
    /// the two known profiles is unsupported.
    pub fn try_from(value: &str) -> (r: Result<Environment, ConfigError>)
        ensures
            ci_matches(value@, "local"@) ==> r == Ok::<Environment, ConfigError>(
                Environment::Local,
            ),
            ci_matches(value@, "production"@) ==> r == Ok::<Environment, ConfigError>(
                Environment::Production,
            ),
            !ci_matches(value@, "local"@) && !ci_matches(value@, "production"@) ==> r
                == Err::<Environment, ConfigError>(ConfigError::UnsupportedEnvironment),
    {
        proof {
            reveal_strlit("local");
            reveal_strlit("production");
        }
        if eq_ignore_ascii_case(value, "local") {
            Ok(Environment::Local)
        } else if eq_ignore_ascii_case(value, "production") {
            Ok(Environment::Production)
        } else {
            Err(ConfigError::UnsupportedEnvironment)
        }
    }
}

/// Selects the environment profile from the value of the selecting
/// environment variable: absent means the local profile; a present
/// value must name a known profile, ignoring ASCII case.
pub fn resolve_environment(value: &Option<String>) -> (r: Result<Environment, ConfigError>)
    ensures
        value is None ==> r == Ok::<Environment, ConfigError>(Environment::Local),
        value matches Some(v) ==> {
            &&& ci_matches(v@, "local"@) ==> r == Ok::<Environment, ConfigError>(
                Environment::Local,
            )
            &&& ci_matches(v@, "production"@) ==> r == Ok::<Environment, ConfigError>(
                Environment::Production,
            )
            &&& !ci_matches(v@, "local"@) && !ci_matches(v@, "production"@) ==> r == Err::<
                Environment,
                ConfigError,
            >(ConfigError::UnsupportedEnvironment)
        },
{
    match value {
        None => Ok(Environment::Local),
        Some(v) => Environment::try_from(v.as_str()),
    }
}

/// One key/value pair of a configuration source; keys are dotted paths
/// such as `database.port`.
pub struct Entry {
    pub key: String,
    pub value: String,
}

/// The mathematical shape of an [`Entry`].
pub struct EntryV {
    pub key: Seq<char>,
    pub value: Seq<char>,
}

impl View for Entry {
    type V = EntryV;

    open spec fn view(&self) -> EntryV {
        EntryV { key: self.key@, value: self.value@ }
    }
}

impl Clone for Entry {
    fn clone(&self) -> (r: Self)
        ensures
            r@ == self@,
    {
        Entry { key: self.key.clone(), value: self.value.clone() }
    }
}

/// The views of a list of entries.
pub open spec fn entries_view(es: Seq<Entry>) -> Seq<EntryV> {
    es.map_values(|e: Entry| e@)
}

/// The value the merged entry list gives to `key`: the value of the
/// last entry with that key, since later entries override earlier ones.
pub open spec fn lookup(entries: Seq<EntryV>, key: Seq<char>) -> Option<Seq<char>>
    decreases entries.len(),
{
    if entries.len() == 0 {
        None
    } else if entries.last().key == key {
        Some(entries.last().value)
    } else {
        lookup(entries.drop_last(), key)
    }
}

/// Finds the overriding value of `key`, scanning from the highest
/// precedence down.
pub fn find_value(entries: &Vec<Entry>, key: &str) -> (r: Option<String>)
    ensures
        match lookup(entries_view(entries@), key@) {
            None => r is None,
            Some(v) => r matches Some(s) && s@ == v,
        },
{
    let mut i: usize = entries.len();
    proof {
        assert(entries_view(entries@).take(entries@.len() as int) =~= entries_view(entries@));
    }
    while i > 0
        invariant
            0 <= i <= entries@.len(),
            lookup(entries_view(entries@), key@) == lookup(
                entries_view(entries@).take(i as int),
                key@,
            ),
        decreases i,
    {
        i = i - 1;
        proof {
            assert(entries_view(entries@).take(i + 1).last() == entries@[i as int]@);
            assert(entries_view(entries@).take(i + 1).drop_last() =~= entries_view(
                entries@,
            ).take(i as int));
        }
        if crate::text::str_eq(entries[i].key.as_str(), key) {
            return Some(entries[i].value.clone());
        }
    }
    proof {
        assert(entries_view(entries@).take(0) =~= Seq::<EntryV>::empty());
    }
    None
}

/// Keys in a later source override the earlier ones: looking a key up
/// in concatenated sources reads the later part first, and falls back
/// to the earlier part only when the key is absent there.
pub proof fn lemma_later_source_overrides(a: Seq<EntryV>, b: Seq<EntryV>, key: Seq<char>)
    ensures
        lookup(a + b, key) == (match lookup(b, key) {
            Some(v) => Some(v),
            None => lookup(a, key),
        }),
    decreases b.len(),
{
    if b.len() == 0 {
        assert(a + b =~= a);
    } else {
        assert((a + b).last() == b.last());
        if b.last().key == key {
        } else {
            assert((a + b).drop_last() =~= a + b.drop_last());
            lemma_later_source_overrides(a, b.drop_last(), key);
        }
    }
}

/// The concatenation of the sources, lowest precedence first.
pub open spec fn concat_sources(sources: Seq<Seq<EntryV>>) -> Seq<EntryV>
    decreases sources.len(),
{
    if sources.len() == 0 {
        Seq::empty()
    } else {
        concat_sources(sources.drop_last()) + sources.last()
    }
}

/// The views of a list of sources.
pub open spec fn sources_view(sources: Seq<Vec<Entry>>) -> Seq<Seq<EntryV>> {
    sources.map_values(|v: Vec<Entry>| entries_view(v@))
}

/// Applies the ordered list of override sources: the result holds every
/// entry, sources in the given order, so a later source takes
/// precedence under [`lookup`].
pub fn merge_sources(sources: &Vec<Vec<Entry>>) -> (merged: Vec<Entry>)
    ensures
        entries_view(merged@) == concat_sources(sources_view(sources@)),
{
    let mut merged: Vec<Entry> = Vec::new();
    proof {
        assert(sources_view(sources@).take(0) =~= Seq::<Seq<EntryV>>::empty());
        assert(entries_view(merged@) =~= Seq::<EntryV>::empty());
    }
    let mut i: usize = 0;
    while i < sources.len()
        invariant
            0 <= i <= sources@.len(),
            entries_view(merged@) == concat_sources(sources_view(sources@).take(i as int)),
        decreases sources@.len() - i,
    {
        let source = &sources[i];
        let mut j: usize = 0;
        proof {
            assert(entries_view(source@).take(0) =~= Seq::<EntryV>::empty());
            assert(entries_view(merged@) + entries_view(source@).take(0) =~= entries_view(
                merged@,
            ));
        }
        let ghost base = entries_view(merged@);
        while j < source.len()
            invariant
                0 <= j <= source@.len(),
                source@ == sources@[i as int]@,
                entries_view(merged@) == base + entries_view(source@).take(j as int),
            decreases source@.len() - j,
        {
            let entry = source[j].clone();
            let ghost ev = entry@;
            let ghost mpre = merged@;
            merged.push(entry);
            proof {
                assert(merged@ == mpre.push(merged@.last()));
                assert(ev == source@[j as int]@);
                assert(entries_view(merged@) =~= entries_view(mpre).push(ev)) by {
                    assert forall|k: int| 0 <= k < merged@.len() implies entries_view(merged@)[k]
                        == entries_view(mpre).push(ev)[k] by {
                        if k < mpre.len() {
                            assert(merged@[k] == mpre[k]);
                        } else {
                            assert(merged@[k]@ == ev);
                        }
                    }
                }
                assert(entries_view(source@).take(j + 1).drop_last() =~= entries_view(
                    source@,
                ).take(j as int));
                assert(entries_view(source@).take(j + 1).last() == source@[j as int]@);
                assert(entries_view(source@).take(j + 1) =~= entries_view(source@).take(
                    j as int,
                ).push(ev));
                assert(entries_view(merged@) =~= base + entries_view(source@).take(j + 1));
            }
            j += 1;
        }
        proof {
            assert(entries_view(source@).take(source@.len() as int) =~= entries_view(source@));
            assert(sources_view(sources@).take(i + 1).drop_last() =~= sources_view(
                sources@,
            ).take(i as int));
            assert(sources_view(sources@).take(i + 1).last() == entries_view(
                sources@[i as int]@,
            ));
        }
        i += 1;
    }
    proof {
        assert(sources_view(sources@).take(sources@.len() as int) =~= sources_view(sources@));
    }
    merged
}

/// What parsing a boolean field yields: exactly `true` or `false`.
pub open spec fn spec_parse_bool(s: Seq<char>) -> Option<bool> {
    if s == "true"@ {
        Some(true)
    } else if s == "false"@ {
        Some(false)
    } else {
        None
    }
}

/// Parses a boolean configuration value.
pub fn parse_bool(s: &str) -> (r: Option<bool>)
    ensures
        r == spec_parse_bool(s@),
{
    if crate::text::str_eq(s, "true") {
        Some(true)
    } else if crate::text::str_eq(s, "false") {
        Some(false)
    } else {
        None
    }
}

/// Where and how the HTTP listener binds.
pub struct ApplicationSettings {
    pub port: u16,
    pub host: String,
}

/// The mathematical shape of [`ApplicationSettings`].
pub struct ApplicationSettingsV {
    pub port: u16,
    pub host: Seq<char>,
}

impl View for ApplicationSettings {
    type V = ApplicationSettingsV;

    open spec fn view(&self) -> ApplicationSettingsV {
        ApplicationSettingsV { port: self.port, host: self.host@ }
    }
}

/// How to reach the database; the password stays behind
/// [`SecretString`].
pub struct DatabaseSettings {
    pub user: String,
    pub password: SecretString,
    pub port: u16,
    pub host: String,
    pub name: String,
    pub require_ssl: bool,
}

/// The mathematical shape of [`DatabaseSettings`].
pub struct DatabaseSettingsV {
    pub user: Seq<char>,
    pub password: Seq<char>,
    pub port: u16,
    pub host: Seq<char>,
    pub name: Seq<char>,
    pub require_ssl: bool,
}

impl View for DatabaseSettings {
    type V = DatabaseSettingsV;

    open spec fn view(&self) -> DatabaseSettingsV {
        DatabaseSettingsV {
            user: self.user@,
            password: self.password@,
            port: self.port,
            host: self.host@,
            name: self.name@,
            require_ssl: self.require_ssl,
        }
    }
}

/// Everything the process needs at startup.
pub struct Settings {
    pub database: DatabaseSettings,
    pub application: ApplicationSettings,
}

/// The mathematical shape of [`Settings`].
pub struct SettingsV {
    pub database: DatabaseSettingsV,
    pub application: ApplicationSettingsV,
}

impl View for Settings {
    type V = SettingsV;

    open spec fn view(&self) -> SettingsV {
        SettingsV { database: self.database@, application: self.application@ }
    }
}

/// What decoding the merged entries yields: the settings when every
/// required field is present and parses, else the first offending
/// field's path, checked in a fixed order.
pub open spec fn spec_decode(entries: Seq<EntryV>) -> Result<SettingsV, ConfigErrorV> {
    let db_user = lookup(entries, "database.user"@);
    let db_password = lookup(entries, "database.password"@);
    let db_port = lookup(entries, "database.port"@);
    let db_host = lookup(entries, "database.host"@);
    let db_name = lookup(entries, "database.name"@);
    let db_ssl = lookup(entries, "database.require_ssl"@);
    let app_port = lookup(entries, "application.port"@);
    let app_host = lookup(entries, "application.host"@);
    if db_user is None {
        Err(ConfigErrorV::MissingField("database.user"@))
    } else if db_password is None {
        Err(ConfigErrorV::MissingField("database.password"@))
    } else if db_port is None {
        Err(ConfigErrorV::MissingField("database.port"@))
    } else if crate::text::spec_parse_u16(db_port->Some_0) is None {
        Err(ConfigErrorV::InvalidValue("database.port"@))
    } else if db_host is None {
        Err(ConfigErrorV::MissingField("database.host"@))
    } else if db_name is None {
        Err(ConfigErrorV::MissingField("database.name"@))
    } else if db_ssl is None {
        Err(ConfigErrorV::MissingField("database.require_ssl"@))
    } else if spec_parse_bool(db_ssl->Some_0) is None {
        Err(ConfigErrorV::InvalidValue("database.require_ssl"@))
    } else if app_port is None {
        Err(ConfigErrorV::MissingField("application.port"@))
    } else if crate::text::spec_parse_u16(app_port->Some_0) is None {
        Err(ConfigErrorV::InvalidValue("application.port"@))
    } else if app_host is None {
        Err(ConfigErrorV::MissingField("application.host"@))
    } else {
        Ok(
            SettingsV {
                database: DatabaseSettingsV {
                    user: db_user->Some_0,
                    password: db_password->Some_0,
                    port: crate::text::spec_parse_u16(db_port->Some_0)->Some_0,
                    host: db_host->Some_0,
                    name: db_name->Some_0,
                    require_ssl: spec_parse_bool(db_ssl->Some_0)->Some_0,
                },
                application: ApplicationSettingsV {
                    port: crate::text::spec_parse_u16(app_port->Some_0)->Some_0,
                    host: app_host->Some_0,
                },
            },
        )
    }
}

/// Decodes the merged entries into [`Settings`], reporting the path of
/// the first missing or unparsable field.
pub fn decode_settings(entries: &Vec<Entry>) -> (r: Result<Settings, ConfigError>)
    ensures
        ({
            let d = spec_decode(entries_view(entries@));
            match r {
                Ok(s) => d == Ok::<SettingsV, ConfigErrorV>(s@),
                Err(e) => d == Err::<SettingsV, ConfigErrorV>(e@),
            }
        }),
{
    let db_user = match find_value(entries, "database.user") {
        Some(v) => v,
        None => {
            return Err(ConfigError::MissingField("database.user".to_owned()));
        },
    };
    let db_password = match find_value(entries, "database.password") {
        Some(v) => v,
        None => {
            return Err(ConfigError::MissingField("database.password".to_owned()));
        },
    };
    let db_port_raw = match find_value(entries, "database.port") {
        Some(v) => v,
        None => {
            return Err(ConfigError::MissingField("database.port".to_owned()));
        },
    };
    let db_port = match crate::text::parse_u16(db_port_raw.as_str()) {
        Some(v) => v,
        None => {
            return Err(ConfigError::InvalidValue("database.port".to_owned()));
        },
    };
    let db_host = match find_value(entries, "database.host") {
        Some(v) => v,
        None => {
            return Err(ConfigError::MissingField("database.host".to_owned()));
        },
    };
    let db_name = match find_value(entries, "database.name") {
        Some(v) => v,
        None => {
            return Err(ConfigError::MissingField("database.name".to_owned()));
        },
    };
    let db_ssl_raw = match find_value(entries, "database.require_ssl") {
        Some(v) => v,
        None => {
            return Err(ConfigError::MissingField("database.require_ssl".to_owned()));
        },
    };
    let db_ssl = match parse_bool(db_ssl_raw.as_str()) {
        Some(v) => v,
        None => {
            return Err(ConfigError::InvalidValue("database.require_ssl".to_owned()));
        },
    };
    let app_port_raw = match find_value(entries, "application.port") {
        Some(v) => v,
        None => {
            return Err(ConfigError::MissingField("application.port".to_owned()));
        },
    };
    let app_port = match crate::text::parse_u16(app_port_raw.as_str()) {
        Some(v) => v,
        None => {
            return Err(ConfigError::InvalidValue("application.port".to_owned()));
        },
    };
    let app_host = match find_value(entries, "application.host") {
        Some(v) => v,
        None => {
            return Err(ConfigError::MissingField("application.host".to_owned()));
        },
    };
    Ok(
        Settings {
            database: DatabaseSettings {
                user: db_user,
                password: SecretString::new(db_password),
                port: db_port,
                host: db_host,
                name: db_name,
                require_ssl: db_ssl,
            },
            application: ApplicationSettings { port: app_port, host: app_host },
        },
    )
}

/// Resolves the settings from the ordered override sources: merge in
/// precedence order, then decode.
pub fn resolve_settings(sources: &Vec<Vec<Entry>>) -> (r: Result<Settings, ConfigError>)
    ensures
        ({
            let d = spec_decode(concat_sources(sources_view(sources@)));
            match r {
                Ok(s) => d == Ok::<SettingsV, ConfigErrorV>(s@),
                Err(e) => d == Err::<SettingsV, ConfigErrorV>(e@),
            }
        }),
{
    let merged = merge_sources(sources);
    decode_settings(&merged)
}

/// Lower-cases one ASCII byte.
pub open spec fn lower_byte(x: u8) -> u8 {
    if 65 <= x <= 90 {
        (x + 32) as u8
    } else {
        x
    }
}

/// Turns the name of an override variable (after its prefix) into a
/// dotted configuration path: the nesting separator `__` becomes `.`,
/// and letters are lower-cased.
pub open spec fn transform_key_bytes(b: Seq<u8>) -> Seq<u8>
    decreases b.len(),
{
    if b.len() == 0 {
        seq![]
    } else if b.len() >= 2 && b[0] == 95 && b[1] == 95 {
        seq![46u8] + transform_key_bytes(b.skip(2))
    } else {
        seq![lower_byte(b[0])] + transform_key_bytes(b.skip(1))
    }
}

/// Whether an environment variable named `k` addresses this service's
/// configuration: the reserved `APP_` prefix followed by an ASCII path.
pub open spec fn is_app_key(k: Seq<char>) -> bool {
    k.len() > 4 && k[0] == 'A' && k[1] == 'P' && k[2] == 'P' && k[3] == '_'
        && vstd::utf8::is_ascii_chars(k)
}

/// The configuration entries the process environment contributes: each
/// variable with the reserved prefix, in order, its name rewritten to a
/// dotted path.
pub open spec fn spec_env_overrides(vars: Seq<EntryV>) -> Seq<EntryV>
    decreases vars.len(),
{
    if vars.len() == 0 {
        seq![]
    } else {
        let rest = spec_env_overrides(vars.drop_last());
        let v = vars.last();
        if is_app_key(v.key) {
            rest + seq![
                EntryV {
                    key: crate::text::ascii_chars_of(
                        transform_key_bytes(crate::text::ascii_bytes_of(v.key.skip(4))),
                    ),
                    value: v.value,
                },
            ]
        } else {
            rest
        }
    }
}

/// Rewrites one override variable's name (everything after the prefix)
/// into a dotted configuration path.
fn transform_key(key: &str) -> (r: String)
    requires
        key.is_ascii(),
        key@.len() > 4,
    ensures
        r@ == crate::text::ascii_chars_of(
            transform_key_bytes(crate::text::ascii_bytes_of(key@.skip(4))),
        ),
{
    let bytes = key.as_bytes_vec();
    proof {
        crate::text::lemma_ascii_chars_encode(key@);
        assert(bytes@ == crate::text::ascii_bytes_of(key@));
        assert(bytes@.skip(4) =~= crate::text::ascii_bytes_of(key@.skip(4)));
    }
    let ghost tail = bytes@.skip(4);
    let n = bytes.len();
    let mut out: Vec<u8> = Vec::new();
    let mut c: usize = 4;
    proof {
        assert(tail.skip(0) =~= tail);
        assert(out@ + transform_key_bytes(tail) =~= transform_key_bytes(tail));
    }
    while c < n
        invariant
            4 <= c <= n,
            n == bytes@.len(),
            tail == bytes@.skip(4),
            forall|t: int| 0 <= t < bytes@.len() ==> bytes@[t] < 0x80,
            forall|t: int| 0 <= t < out@.len() ==> out@[t] < 0x80,
            transform_key_bytes(tail) == out@ + transform_key_bytes(bytes@.skip(c as int)),
        decreases n - c,
    {
        let ghost rem = bytes@.skip(c as int);
        proof {
            assert(rem[0] == bytes@[c as int]);
            if c + 1 < n {
                assert(rem[1] == bytes@[c as int + 1]);
            }
        }
        if bytes[c] == 95 && c + 1 < n && bytes[c + 1] == 95 {
            out.push(46);
            proof {
                assert(rem.skip(2) =~= bytes@.skip(c as int + 2));
                assert(transform_key_bytes(rem) == seq![46u8] + transform_key_bytes(rem.skip(2)));
                assert(out@ + transform_key_bytes(bytes@.skip(c as int + 2))
                    =~= transform_key_bytes(tail));
            }
            c += 2;
        } else {
            let x = bytes[c];
            let y = if 65 <= x && x <= 90 {
                x + 32
            } else {
                x
            };
            out.push(y);
            proof {
                assert(y == lower_byte(rem[0]));
                assert(rem.skip(1) =~= bytes@.skip(c as int + 1));
                assert(transform_key_bytes(rem) == seq![lower_byte(rem[0])] + transform_key_bytes(
                    rem.skip(1),
                ));
                assert(out@ + transform_key_bytes(bytes@.skip(c as int + 1))
                    =~= transform_key_bytes(tail));
            }
            c += 1;
        }
    }
    proof {
        assert(bytes@.skip(n as int) =~= Seq::<u8>::empty());
        assert(out@ + transform_key_bytes(bytes@.skip(n as int)) =~= out@);
        crate::text::lemma_ascii_bytes_decode(out@);
    }
    crate::text::string_from_bytes_lossy(&out)
}

/// Collects the override entries the process environment contributes:
/// each variable whose name carries the reserved prefix, its name
/// rewritten to a dotted path, values untouched, order kept.
pub fn env_overrides(vars: &Vec<Entry>) -> (r: Vec<Entry>)
    ensures
        entries_view(r@) == spec_env_overrides(entries_view(vars@)),
{
    let mut out: Vec<Entry> = Vec::new();
    proof {
        assert(entries_view(vars@).take(0) =~= Seq::<EntryV>::empty());
        assert(entries_view(out@) =~= spec_env_overrides(entries_view(vars@).take(0)));
    }
    let mut i: usize = 0;
    while i < vars.len()
        invariant
            0 <= i <= vars@.len(),
            entries_view(out@) == spec_env_overrides(entries_view(vars@).take(i as int)),
        decreases vars@.len() - i,
    {
        let key = vars[i].key.as_str();
        proof {
            assert(entries_view(vars@).take(i + 1).drop_last() =~= entries_view(vars@).take(
                i as int,
            ));
            assert(entries_view(vars@).take(i + 1).last() == vars@[i as int]@);
        }
        let n = key.unicode_len();
        let is_app = key.is_ascii() && n > 4 && key.get_char(0) == 'A' && key.get_char(1) == 'P'
            && key.get_char(2) == 'P' && key.get_char(3) == '_';
        proof {
            assert(is_app == is_app_key(vars@[i as int]@.key));
        }
        if is_app {
            let new_key = transform_key(key);
            let ghost opre = out@;
            out.push(Entry { key: new_key, value: vars[i].value.clone() });
            proof {
                assert(entries_view(out@) =~= entries_view(opre).push(out@.last()@)) by {
                    assert forall|k: int| 0 <= k < out@.len() implies entries_view(out@)[k]
                        == entries_view(opre).push(out@.last()@)[k] by {
                        if k < opre.len() {
                            assert(out@[k] == opre[k]);
                        }
                    }
                }
                assert(entries_view(out@) =~= spec_env_overrides(entries_view(vars@).take(i + 1)));
            }
        }
        i += 1;
    }
    proof {
        assert(entries_view(vars@).take(vars@.len() as int) =~= entries_view(vars@));
    }
    out
}

/// The TLS requirement of a database connection.
#[derive(Clone, Copy, PartialEq, Eq, Structural, Debug)]
pub enum SslMode {
    /// The connection must be encrypted.
    Require,
    /// Encryption is attempted but not demanded.
    Prefer,
}

/// The structured set of parameters needed to open a database
/// connection.  The password stays wrapped, so rendering the descriptor
/// can never leak it.
pub struct ConnectionDescriptor {
    pub host: String,
    pub port: u16,
    pub username: String,
    pub password: SecretString,
    pub database: Option<String>,
    pub ssl_mode: SslMode,
}

impl DatabaseSettings {
    /// The connection descriptor for administrative use: every field of
    /// these settings but the database name, which is left out; TLS is
    /// required exactly when the settings demand it.
    pub fn without_db(&self) -> (d: ConnectionDescriptor)
        ensures
            d.host@ == self.host@,
            d.port == self.port,
            d.username@ == self.user@,
            d.password@ == self.password@,
            d.database is None,
            d.ssl_mode == (if self.require_ssl {
                SslMode::Require
            } else {
                SslMode::Prefer
            }),
    {
        let ssl_mode = if self.require_ssl {
            SslMode::Require
        } else {
            SslMode::Prefer
        };
        ConnectionDescriptor {
            host: self.host.clone(),
            port: self.port,
            username: self.user.clone(),
            password: self.password.clone(),
            database: None,
            ssl_mode,
        }
    }

    /// The full connection descriptor for normal operation: as
    /// [`DatabaseSettings::without_db`], plus the database name.
    pub fn with_db(&self) -> (d: ConnectionDescriptor)
        ensures
            d.host@ == self.host@,
            d.port == self.port,
            d.username@ == self.user@,
            d.password@ == self.password@,
            d.database matches Some(n) && n@ == self.name@,
            d.ssl_mode == (if self.require_ssl {
                SslMode::Require
            } else {
                SslMode::Prefer
            }),
    {
        let mut d = self.without_db();
        d.database = Some(self.name.clone());
        d
    }
}

} // verus!
