//! The configuration of the server.

pub mod secrets;

use crate::text::text_equal;
use rand::Rng;
use vstd::prelude::*;

verus! {

/// Whether a byte is an ASCII letter or digit.
pub open spec fn is_alphanumeric(b: u8) -> bool {
    (0x30 <= b <= 0x39) || (0x41 <= b <= 0x5a) || (0x61 <= b <= 0x7a)
}

/// A letter or digit drawn at random.
///
/// Calls `rand::Rng::sample` on the generator of the thread, with
/// `rand::distributions::Alphanumeric`. It is one of the ASCII letters and digits; which
/// one is left to chance.
#[verifier::external_body]
pub(crate) fn random_alphanumeric() -> (b: u8)
    ensures
        is_alphanumeric(b),
{
    rand::thread_rng().sample(rand::distributions::Alphanumeric)
}

/// Whether a text is made of ASCII letters and digits.
pub open spec fn all_alphanumeric(s: Seq<char>) -> bool {
    forall|i: int|
        0 <= i < s.len() ==> (#[trigger] s[i]) as u32 <= 0x7f && is_alphanumeric(s[i] as u8)
}

/// The text of some letters, one character for each byte.
pub fn uuid_of(letters: &Vec<u8>) -> (r: String)
    ensures
        r@ == Seq::new(letters@.len(), |i: int| letters@[i] as char),
{
    let mut s = String::new();
    let mut i: usize = 0;
    while i < letters.len()
        invariant
            i <= letters@.len(),
            s@ == Seq::new(i as nat, |j: int| letters@[j] as char),
        decreases letters@.len() - i,
    {
        s.push(letters[i] as char);
        assert(s@ =~= Seq::new((i + 1) as nat, |j: int| letters@[j] as char));
        i += 1;
    }
    s
}

/// A name for this instance: thirty letters and digits drawn at random.
pub fn generate_uuid() -> (r: String)
    ensures
        r@.len() == 30,
        all_alphanumeric(r@),
{
    let mut letters: Vec<u8> = Vec::new();
    let mut i: usize = 0;
    while i < 30
        invariant
            i <= 30,
            letters@.len() == i,
            forall|j: int| 0 <= j < letters@.len() ==> is_alphanumeric(#[trigger] letters@[j]),
        decreases 30 - i,
    {
        letters.push(random_alphanumeric());
        i += 1;
    }
    let r = uuid_of(&letters);
    assert forall|j: int| 0 <= j < r@.len() implies (#[trigger] r@[j]) as u32 <= 0x7f
        && is_alphanumeric(r@[j] as u8) by {
        assert(is_alphanumeric(letters@[j]));
    }
    r
}

/// A user in the configuration.
#[derive(Debug)]
pub struct UsersConfig {
    pub username: String,
    pub password: String,
    pub tenant: Option<String>,
}

/// A listener in the configuration.
#[derive(Debug)]
pub struct ListenerConfig {
    pub port: u16,
    pub websocket: bool,
    pub tlscrt: Option<String>,
    pub tlskey: Option<String>,
}

/// The contents of a user entry.
#[verifier::ext_equal]
pub struct UsersConfigView {
    pub username: Seq<char>,
    pub password: Seq<char>,
    pub tenant: Option<Seq<char>>,
}

/// The contents of a listener entry.
#[verifier::ext_equal]
pub struct ListenerConfigView {
    pub port: u16,
    pub websocket: bool,
    pub tlscrt: Option<Seq<char>>,
    pub tlskey: Option<Seq<char>>,
}

impl View for UsersConfig {
    type V = UsersConfigView;

    open spec fn view(&self) -> UsersConfigView {
        UsersConfigView {
            username: self.username@,
            password: self.password@,
            tenant: crate::broker::optional_text(self.tenant),
        }
    }
}

impl View for ListenerConfig {
    type V = ListenerConfigView;

    open spec fn view(&self) -> ListenerConfigView {
        ListenerConfigView {
            port: self.port,
            websocket: self.websocket,
            tlscrt: crate::broker::optional_text(self.tlscrt),
            tlskey: crate::broker::optional_text(self.tlskey),
        }
    }
}

fn clone_optional(s: &Option<String>) -> (r: Option<String>)
    ensures
        crate::broker::optional_text(r) == crate::broker::optional_text(*s),
{
    match s {
        Some(t) => Some(t.clone()),
        None => None,
    }
}

impl Clone for UsersConfig {
    fn clone(&self) -> (r: Self)
        ensures
            r@ == self@,
    {
        UsersConfig {
            username: self.username.clone(),
            password: self.password.clone(),
            tenant: clone_optional(&self.tenant),
        }
    }
}

impl Clone for ListenerConfig {
    fn clone(&self) -> (r: Self)
        ensures
            r@ == self@,
    {
        ListenerConfig {
            port: self.port,
            websocket: self.websocket,
            tlscrt: clone_optional(&self.tlscrt),
            tlskey: clone_optional(&self.tlskey),
        }
    }
}

/// The settings of the server.
#[derive(Debug)]
pub struct SystemConfig {
    pub mqtt_database_host: String,
    pub mqtt_database_db: String,
    pub mqtt_database_username: String,
    pub mqtt_database_password: String,
    pub logging_remote: bool,
    pub logging_endpoint: String,
    pub auth_method: String,
    pub password_file: String,
    pub persist_method: String,
    pub persist_data_store: String,
    /// The largest remaining length that is accepted of a packet, in bytes. Packets that
    /// claim more are refused before their contents are read.
    pub max_packet_size: usize,
    /// How many seconds a connection has for its CONNECT packet.
    pub connect_timeout: u64,
    pub listeners: Vec<ListenerConfig>,
    pub users: Vec<UsersConfig>,
}

/// The setting of a text that is not given.
pub fn default_resource() -> (r: String)
    ensures
        r@ == ""@,
{
    "".to_owned()
}

/// The setting of a switch that is not given.
pub fn default_bool_false() -> (r: bool)
    ensures
        r == false,
{
    false
}

/// The largest packet where none is given: 1 MiB.
pub fn default_max_packet_size() -> (r: usize)
    ensures
        r == 1024 * 1024,
{
    1_048_576
}

/// The time for CONNECT where none is given: ten seconds.
pub fn default_connect_timeout() -> (r: u64)
    ensures
        r == 10,
{
    10
}

/// The empty settings, before any are loaded.
pub open spec fn is_empty_config(c: SystemConfig) -> bool {
    &&& c.mqtt_database_host@ == ""@
    &&& c.mqtt_database_db@ == ""@
    &&& c.mqtt_database_username@ == ""@
    &&& c.mqtt_database_password@ == ""@
    &&& !c.logging_remote
    &&& c.logging_endpoint@ == ""@
    &&& c.auth_method@ == ""@
    &&& c.password_file@ == ""@
    &&& c.persist_method@ == ""@
    &&& c.persist_data_store@ == ""@
    &&& c.max_packet_size == 0
    &&& c.connect_timeout == 0
    &&& c.listeners@.len() == 0
    &&& c.users@.len() == 0
}

impl Default for SystemConfig {
    fn default() -> (r: Self)
        ensures
            is_empty_config(r),
    {
        SystemConfig {
            mqtt_database_host: default_resource(),
            mqtt_database_db: default_resource(),
            mqtt_database_username: default_resource(),
            mqtt_database_password: default_resource(),
            logging_remote: false,
            logging_endpoint: default_resource(),
            auth_method: default_resource(),
            password_file: default_resource(),
            persist_method: default_resource(),
            persist_data_store: default_resource(),
            max_packet_size: 0,
            connect_timeout: 0,
            listeners: Vec::new(),
            users: Vec::new(),
        }
    }
}

/// The settings together with the names of this instance.
pub struct GlobalConfig {
    pub uuid: String,
    pub hostname: String,
    pub config: SystemConfig,
}

impl GlobalConfig {
    /// An instance on a host, with a name of its own and no settings yet.
    pub fn new(hostname: String) -> (r: GlobalConfig)
        ensures
            r.hostname@ == hostname@,
            r.uuid@.len() == 30,
            all_alphanumeric(r.uuid@),
            is_empty_config(r.config),
    {
        GlobalConfig { uuid: generate_uuid(), hostname, config: SystemConfig::default() }
    }
}

/// The settings as a file gives them; what may be left out is `None` where it is.
#[derive(Debug)]
pub struct ConfigFile {
    pub mqtt_database_host: Option<String>,
    pub mqtt_database_db: Option<String>,
    pub mqtt_database_username: Option<String>,
    pub mqtt_database_password: Option<String>,
    pub logging_remote: Option<bool>,
    pub logging_endpoint: Option<String>,
    pub auth_method: String,
    pub password_file: Option<String>,
    pub persist_method: String,
    pub persist_data_store: Option<String>,
    pub max_packet_size: Option<usize>,
    pub connect_timeout: Option<u64>,
    pub listeners: Vec<ListenerConfig>,
    pub users: Vec<UsersConfig>,
}

/// A text setting; an empty one where it is left out.
pub open spec fn given_text(given: Option<String>) -> Seq<char> {
    match given {
        Some(s) => s@,
        None => ""@,
    }
}

/// Whether settings are those of a file: what it gives, and a default for what it leaves
/// out.
pub open spec fn is_loaded(c: SystemConfig, file: ConfigFile) -> bool {
    &&& c.mqtt_database_host@ == given_text(file.mqtt_database_host)
    &&& c.mqtt_database_db@ == given_text(file.mqtt_database_db)
    &&& c.mqtt_database_username@ == given_text(file.mqtt_database_username)
    &&& c.mqtt_database_password@ == given_text(file.mqtt_database_password)
    &&& c.logging_remote == (file.logging_remote == Some(true))
    &&& c.logging_endpoint@ == given_text(file.logging_endpoint)
    &&& c.auth_method@ == file.auth_method@
    &&& c.password_file@ == given_text(file.password_file)
    &&& c.persist_method@ == file.persist_method@
    &&& c.persist_data_store@ == given_text(file.persist_data_store)
    &&& c.max_packet_size == match file.max_packet_size {
        Some(n) => n,
        None => 1_048_576,
    }
    &&& c.connect_timeout == match file.connect_timeout {
        Some(n) => n,
        None => 10,
    }
    &&& c.listeners@ == file.listeners@
    &&& c.users@ == file.users@
}

fn text_setting(given: Option<String>) -> (r: String)
    ensures
        r@ == given_text(given),
{
    match given {
        Some(s) => s,
        None => default_resource(),
    }
}

/// Takes over the settings of a file; the names of the instance stay.
pub fn load_config(global: &mut GlobalConfig, file: ConfigFile)
    ensures
        is_loaded(final(global).config, file),
        *final(global) == (GlobalConfig { config: final(global).config, ..*old(global) }),
{
    global.config = SystemConfig {
        mqtt_database_host: text_setting(file.mqtt_database_host),
        mqtt_database_db: text_setting(file.mqtt_database_db),
        mqtt_database_username: text_setting(file.mqtt_database_username),
        mqtt_database_password: text_setting(file.mqtt_database_password),
        logging_remote: match file.logging_remote {
            Some(on) => on,
            None => default_bool_false(),
        },
        logging_endpoint: text_setting(file.logging_endpoint),
        auth_method: file.auth_method,
        password_file: text_setting(file.password_file),
        persist_method: file.persist_method,
        persist_data_store: text_setting(file.persist_data_store),
        max_packet_size: match file.max_packet_size {
            Some(n) => n,
            None => default_max_packet_size(),
        },
        connect_timeout: match file.connect_timeout {
            Some(n) => n,
            None => default_connect_timeout(),
        },
        listeners: file.listeners,
        users: file.users,
    };
}

/// Settings from a file that does not say how large a packet may be take packets of up to
/// 1 MiB, and settings from one that does not say how long a connection has for its
/// CONNECT packet give it ten seconds; what a file says counts.
pub proof fn law_defaults(c: SystemConfig, file: ConfigFile)
    requires
        is_loaded(c, file),
    ensures
        file.max_packet_size is None ==> c.max_packet_size == 1024 * 1024,
        file.max_packet_size matches Some(n) ==> c.max_packet_size == n,
        file.connect_timeout is None ==> c.connect_timeout == 10,
        file.connect_timeout matches Some(n) ==> c.connect_timeout == n,
{
}

/// The name of this instance.
pub fn get_uuid(global: &GlobalConfig) -> (r: &String)
    ensures
        r@ == global.uuid@,
{
    &global.uuid
}

/// The name of the host.
pub fn get_hostname(global: &GlobalConfig) -> (r: &String)
    ensures
        r@ == global.hostname@,
{
    &global.hostname
}

/// The settings for tests that keep nothing.
pub fn load_test_config(config: &mut SystemConfig)
    ensures
        final(config).persist_method@ == "test"@,
        *final(config) == (SystemConfig {
            persist_method: final(config).persist_method,
            ..*old(config)
        }),
{
    config.persist_method = "test".to_owned();
}

/// The settings for tests that keep their data in files.
pub fn load_sqlite_test_config(config: &mut SystemConfig)
    ensures
        final(config).persist_method@ == "sqlite"@,
        final(config).persist_data_store@ == "./tests/data"@,
        *final(config) == (SystemConfig {
            persist_method: final(config).persist_method,
            persist_data_store: final(config).persist_data_store,
            ..*old(config)
        }),
{
    config.persist_method = "sqlite".to_owned();
    config.persist_data_store = "./tests/data".to_owned();
}

/// The contents of the listener entries.
pub open spec fn listener_views(list: Seq<ListenerConfig>) -> Seq<ListenerConfigView> {
    list.map_values(|l: ListenerConfig| l@)
}

/// The contents of the user entries.
pub open spec fn user_views(list: Seq<UsersConfig>) -> Seq<UsersConfigView> {
    list.map_values(|u: UsersConfig| u@)
}

/// The listeners.
pub fn get_listeners(config: &SystemConfig) -> (r: Vec<ListenerConfig>)
    ensures
        listener_views(r@) == listener_views(config.listeners@),
{
    let ghost all = listener_views(config.listeners@);
    let mut list: Vec<ListenerConfig> = Vec::new();
    let mut i: usize = 0;
    assert(listener_views(list@) =~= all.take(0));
    while i < config.listeners.len()
        invariant
            i <= config.listeners@.len(),
            all == listener_views(config.listeners@),
            listener_views(list@) == all.take(i as int),
        decreases config.listeners@.len() - i,
    {
        let ghost before = listener_views(list@);
        let entry = config.listeners[i].clone();
        list.push(entry);
        assert(listener_views(list@) =~= before.push(entry@));
        assert(all.take(i + 1) =~= all.take(i as int).push(all[i as int]));
        i += 1;
    }
    assert(all.take(i as int) =~= all);
    list
}

/// The users.
pub fn get_users(config: &SystemConfig) -> (r: Vec<UsersConfig>)
    ensures
        user_views(r@) == user_views(config.users@),
{
    let ghost all = user_views(config.users@);
    let mut list: Vec<UsersConfig> = Vec::new();
    let mut i: usize = 0;
    assert(user_views(list@) =~= all.take(0));
    while i < config.users.len()
        invariant
            i <= config.users@.len(),
            all == user_views(config.users@),
            user_views(list@) == all.take(i as int),
        decreases config.users@.len() - i,
    {
        let ghost before = user_views(list@);
        let entry = config.users[i].clone();
        list.push(entry);
        assert(user_views(list@) =~= before.push(entry@));
        assert(all.take(i + 1) =~= all.take(i as int).push(all[i as int]));
        i += 1;
    }
    assert(all.take(i as int) =~= all);
    list
}

/// The text setting under a name.
pub open spec fn string_setting(c: SystemConfig, key: Seq<char>) -> Option<Seq<char>> {
    if key == "auth_method"@ {
        Some(c.auth_method@)
    } else if key == "persist_method"@ {
        Some(c.persist_method@)
    } else if key == "logging_endpoint"@ {
        Some(c.logging_endpoint@)
    } else if key == "mqtt_database_host"@ {
        Some(c.mqtt_database_host@)
    } else if key == "mqtt_database_db"@ {
        Some(c.mqtt_database_db@)
    } else if key == "mqtt_database_username"@ {
        Some(c.mqtt_database_username@)
    } else if key == "mqtt_database_password"@ {
        Some(c.mqtt_database_password@)
    } else if key == "password_file"@ {
        Some(c.password_file@)
    } else if key == "persist_data_store"@ {
        Some(c.persist_data_store@)
    } else {
        None
    }
}

/// The text setting under a name.
pub fn get_string(config: &SystemConfig, key: &str) -> (r: Option<String>)
    ensures
        crate::broker::optional_text(r) == string_setting(*config, key@),
{
    if text_equal(key, "auth_method") {
        Some(config.auth_method.clone())
    } else if text_equal(key, "persist_method") {
        Some(config.persist_method.clone())
    } else if text_equal(key, "logging_endpoint") {
        Some(config.logging_endpoint.clone())
    } else if text_equal(key, "mqtt_database_host") {
        Some(config.mqtt_database_host.clone())
    } else if text_equal(key, "mqtt_database_db") {
        Some(config.mqtt_database_db.clone())
    } else if text_equal(key, "mqtt_database_username") {
        Some(config.mqtt_database_username.clone())
    } else if text_equal(key, "mqtt_database_password") {
        Some(config.mqtt_database_password.clone())
    } else if text_equal(key, "password_file") {
        Some(config.password_file.clone())
    } else if text_equal(key, "persist_data_store") {
        Some(config.persist_data_store.clone())
    } else {
        None
    }
}

/// The switch under a name. Validation and policies are always off.
pub fn get_bool(config: &SystemConfig, key: &str) -> (r: Option<bool>)
    ensures
        r == (if key@ == "logging_remote"@ {
            Some(config.logging_remote)
        } else if key@ == "enable_validation"@ || key@ == "enable_policy"@ {
            Some(false)
        } else {
            None
        }),
{
    if text_equal(key, "logging_remote") {
        Some(config.logging_remote)
    } else if text_equal(key, "enable_validation") || text_equal(key, "enable_policy") {
        Some(false)
    } else {
        None
    }
}

/// The largest remaining length that is accepted of a packet.
pub fn get_max_packet_size(config: &SystemConfig) -> (r: usize)
    ensures
        r == config.max_packet_size,
{
    config.max_packet_size
}

/// How many seconds a connection has for its CONNECT packet.
pub fn get_connect_timeout(config: &SystemConfig) -> (r: u64)
    ensures
        r == config.connect_timeout,
{
    config.connect_timeout
}

/// Whether the server runs, and whether it takes connections.
pub struct State {
    livez: bool,
    readyz: bool,
}

/// Whether the server runs, and whether it takes connections.
pub struct StateView {
    pub livez: bool,
    pub readyz: bool,
}

impl View for State {
    type V = StateView;

    closed spec fn view(&self) -> StateView {
        StateView { livez: self.livez, readyz: self.readyz }
    }
}

impl State {
    /// Neither.
    pub fn new() -> (r: State)
        ensures
            r@ == (StateView { livez: false, readyz: false }),
    {
        State { livez: false, readyz: false }
    }
}

/// Whether the server runs.
pub fn get_livez(state: &State) -> (r: bool)
    ensures
        r == state@.livez,
{
    state.livez
}

/// Whether the server takes connections.
pub fn get_readyz(state: &State) -> (r: bool)
    ensures
        r == state@.readyz,
{
    state.readyz
}

/// From now on the server runs and takes connections.
pub fn set_readyz(state: &mut State)
    ensures
        final(state)@ == (StateView { livez: true, readyz: true }),
{
    state.livez = true;
    state.readyz = true;
}

/// The names of the settings are told apart.
proof fn lemma_names_differ()
    ensures
        "auth_method"@ != "persist_method"@,
        "auth_method"@ != "logging_endpoint"@,
        "auth_method"@ != "mqtt_database_host"@,
        "auth_method"@ != "mqtt_database_db"@,
        "auth_method"@ != "mqtt_database_username"@,
        "auth_method"@ != "mqtt_database_password"@,
        "auth_method"@ != "password_file"@,
        "auth_method"@ != "persist_data_store"@,
        "persist_method"@ != "logging_endpoint"@,
        "persist_method"@ != "mqtt_database_host"@,
        "persist_method"@ != "mqtt_database_db"@,
        "persist_method"@ != "mqtt_database_username"@,
        "persist_method"@ != "mqtt_database_password"@,
        "persist_method"@ != "password_file"@,
        "persist_method"@ != "persist_data_store"@,
        "logging_endpoint"@ != "mqtt_database_host"@,
        "logging_endpoint"@ != "mqtt_database_db"@,
        "logging_endpoint"@ != "mqtt_database_username"@,
        "logging_endpoint"@ != "mqtt_database_password"@,
        "logging_endpoint"@ != "password_file"@,
        "logging_endpoint"@ != "persist_data_store"@,
        "mqtt_database_host"@ != "mqtt_database_db"@,
        "mqtt_database_host"@ != "mqtt_database_username"@,
        "mqtt_database_host"@ != "mqtt_database_password"@,
        "mqtt_database_host"@ != "password_file"@,
        "mqtt_database_host"@ != "persist_data_store"@,
        "mqtt_database_db"@ != "mqtt_database_username"@,
        "mqtt_database_db"@ != "mqtt_database_password"@,
        "mqtt_database_db"@ != "password_file"@,
        "mqtt_database_db"@ != "persist_data_store"@,
        "mqtt_database_username"@ != "mqtt_database_password"@,
        "mqtt_database_username"@ != "password_file"@,
        "mqtt_database_username"@ != "persist_data_store"@,
        "mqtt_database_password"@ != "password_file"@,
        "mqtt_database_password"@ != "persist_data_store"@,
        "password_file"@ != "persist_data_store"@,
{
    reveal_strlit("auth_method");
    reveal_strlit("persist_method");
    reveal_strlit("logging_endpoint");
    reveal_strlit("mqtt_database_host");
    reveal_strlit("mqtt_database_db");
    reveal_strlit("mqtt_database_username");
    reveal_strlit("mqtt_database_password");
    reveal_strlit("password_file");
    reveal_strlit("persist_data_store");
    assert("auth_method"@.len() != "persist_method"@.len());
    assert("auth_method"@.len() != "logging_endpoint"@.len());
    assert("auth_method"@.len() != "mqtt_database_host"@.len());
    assert("auth_method"@.len() != "mqtt_database_db"@.len());
    assert("auth_method"@.len() != "mqtt_database_username"@.len());
    assert("auth_method"@.len() != "mqtt_database_password"@.len());
    assert("auth_method"@.len() != "password_file"@.len());
    assert("auth_method"@.len() != "persist_data_store"@.len());
    assert("persist_method"@.len() != "logging_endpoint"@.len());
    assert("persist_method"@.len() != "mqtt_database_host"@.len());
    assert("persist_method"@.len() != "mqtt_database_db"@.len());
    assert("persist_method"@.len() != "mqtt_database_username"@.len());
    assert("persist_method"@.len() != "mqtt_database_password"@.len());
    assert("persist_method"@.len() != "password_file"@.len());
    assert("persist_method"@.len() != "persist_data_store"@.len());
    assert("logging_endpoint"@.len() != "mqtt_database_host"@.len());
    assert("logging_endpoint"@[0] != "mqtt_database_db"@[0]);
    assert("logging_endpoint"@.len() != "mqtt_database_username"@.len());
    assert("logging_endpoint"@.len() != "mqtt_database_password"@.len());
    assert("logging_endpoint"@.len() != "password_file"@.len());
    assert("logging_endpoint"@.len() != "persist_data_store"@.len());
    assert("mqtt_database_host"@.len() != "mqtt_database_db"@.len());
    assert("mqtt_database_host"@.len() != "mqtt_database_username"@.len());
    assert("mqtt_database_host"@.len() != "mqtt_database_password"@.len());
    assert("mqtt_database_host"@.len() != "password_file"@.len());
    assert("mqtt_database_host"@[0] != "persist_data_store"@[0]);
    assert("mqtt_database_db"@.len() != "mqtt_database_username"@.len());
    assert("mqtt_database_db"@.len() != "mqtt_database_password"@.len());
    assert("mqtt_database_db"@.len() != "password_file"@.len());
    assert("mqtt_database_db"@.len() != "persist_data_store"@.len());
    assert("mqtt_database_username"@[14] != "mqtt_database_password"@[14]);
    assert("mqtt_database_username"@.len() != "password_file"@.len());
    assert("mqtt_database_username"@.len() != "persist_data_store"@.len());
    assert("mqtt_database_password"@.len() != "password_file"@.len());
    assert("mqtt_database_password"@.len() != "persist_data_store"@.len());
    assert("password_file"@.len() != "persist_data_store"@.len());
}

/// Every text setting that a file gives is found under its own name, and an empty one where
/// the file leaves it out.
pub proof fn law_text_settings(c: SystemConfig, file: ConfigFile)
    requires
        is_loaded(c, file),
    ensures
        string_setting(c, "auth_method"@) == Some(file.auth_method@),
        string_setting(c, "persist_method"@) == Some(file.persist_method@),
        string_setting(c, "logging_endpoint"@) == Some(given_text(file.logging_endpoint)),
        string_setting(c, "mqtt_database_host"@) == Some(given_text(file.mqtt_database_host)),
        string_setting(c, "mqtt_database_db"@) == Some(given_text(file.mqtt_database_db)),
        string_setting(c, "mqtt_database_username"@) == Some(
            given_text(file.mqtt_database_username),
        ),
        string_setting(c, "mqtt_database_password"@) == Some(
            given_text(file.mqtt_database_password),
        ),
        string_setting(c, "password_file"@) == Some(given_text(file.password_file)),
        string_setting(c, "persist_data_store"@) == Some(given_text(file.persist_data_store)),
        given_text(None).len() == 0,
        file.logging_remote matches Some(on) ==> c.logging_remote == on,
        file.logging_remote is None ==> !c.logging_remote,
        c.listeners@ == file.listeners@,
        c.users@ == file.users@,
{
    lemma_names_differ();
    reveal_strlit("");
}

/// There is no text setting under any other name.
pub proof fn law_other_names(c: SystemConfig, key: Seq<char>)
    requires
        string_setting(c, key) is Some,
    ensures
        seq![
            "auth_method"@,
            "persist_method"@,
            "logging_endpoint"@,
            "mqtt_database_host"@,
            "mqtt_database_db"@,
            "mqtt_database_username"@,
            "mqtt_database_password"@,
            "password_file"@,
            "persist_data_store"@,
        ].contains(key),
{
    let names = seq![
        "auth_method"@,
        "persist_method"@,
        "logging_endpoint"@,
        "mqtt_database_host"@,
        "mqtt_database_db"@,
        "mqtt_database_username"@,
        "mqtt_database_password"@,
        "password_file"@,
        "persist_data_store"@,
    ];
    assert(names[0] == "auth_method"@ && names[1] == "persist_method"@);
    assert(names[2] == "logging_endpoint"@ && names[3] == "mqtt_database_host"@);
    assert(names[4] == "mqtt_database_db"@ && names[5] == "mqtt_database_username"@);
    assert(names[6] == "mqtt_database_password"@ && names[7] == "password_file"@);
    assert(names[8] == "persist_data_store"@);
}

} // verus!
