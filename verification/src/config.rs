//! The settings of the program: their defaults, the file that they come from, and the
//! environment variables that override them.

use crate::env::{
    bool_after, bool_error, empty_error, env_value, error_of, non_empty_value, optional_after,
    optional_view, override_bool, override_optional_string, override_parsed, override_string,
    parsed_after, parsed_error, read_env, read_non_empty_env, string_after, ConfigError, EnvVars,
    ErrorView, FromText,
};
use crate::json::{JsonObject, JsonView};
use crate::serde_values::object_in_text;
use crate::text::{lower, same_text, to_lower, trim, trimmed};
use std::path::PathBuf;
use vstd::prelude::*;
use vstd::string::*;

verus! {

/// A path, which is only carried along.
#[verifier::external_type_specification]
#[verifier::external_body]
pub struct ExPathBuf(std::path::PathBuf);

/// The library that encrypts connections.
#[derive(Debug, Clone, Copy, PartialEq, Eq, Structural)]
pub enum TlsBackend {
    Rustls,
    NativeTls,
}

impl Default for TlsBackend {
    /// Rustls.
    fn default() -> (backend: TlsBackend)
        ensures
            backend == TlsBackend::Rustls,
    {
        TlsBackend::Rustls
    }
}

impl TlsBackend {
    /// Reads the name of a backend, in letters of any case and with any whitespace around it.
    pub fn from_str(value: &str) -> (result: Result<TlsBackend, String>)
        ensures
            match result {
                Ok(backend) => TlsBackend::text_value(value@) == Ok::<TlsBackend, Seq<char>>(
                    backend,
                ),
                Err(reason) => TlsBackend::text_value(value@) == Err::<TlsBackend, Seq<char>>(
                    reason@,
                ),
            },
    {
        let word = to_lower(trim(value).as_str());
        let text = word.as_str();
        if same_text(text, "rustls") {
            Ok(TlsBackend::Rustls)
        } else if same_text(text, "native-tls") || same_text(text, "native_tls") || same_text(
            text,
            "nativetls",
        ) {
            Ok(TlsBackend::NativeTls)
        } else {
            let mut reason = "不支持的 TLS 后端: ".to_owned();
            reason.append(text);
            Err(reason)
        }
    }
}

impl std::str::FromStr for TlsBackend {
    type Err = String;

    /// Reads the name of a backend as [`TlsBackend::from_str`] does.
    fn from_str(value: &str) -> (result: Result<TlsBackend, String>)
        ensures
            match result {
                Ok(backend) => TlsBackend::text_value(value@) == Ok::<TlsBackend, Seq<char>>(
                    backend,
                ),
                Err(reason) => TlsBackend::text_value(value@) == Err::<TlsBackend, Seq<char>>(
                    reason@,
                ),
            },
    {
        TlsBackend::from_str(value)
    }
}

impl FromText for TlsBackend {
    open spec fn text_value(text: Seq<char>) -> Result<TlsBackend, Seq<char>> {
        let word = lower(trimmed(text));
        if word == "rustls"@ {
            Ok(TlsBackend::Rustls)
        } else if word == "native-tls"@ || word == "native_tls"@ || word == "nativetls"@ {
            Ok(TlsBackend::NativeTls)
        } else {
            Err("不支持的 TLS 后端: "@ + word)
        }
    }

    fn from_text(text: &str) -> (result: Result<TlsBackend, String>) {
        TlsBackend::from_str(text)
    }
}

/// A character is a decimal digit.
pub open spec fn is_digit(c: char) -> bool {
    '0' <= c && c <= '9'
}

/// The number that decimal digits stand for.
pub open spec fn decimal(digits: Seq<char>) -> nat
    decreases digits.len(),
{
    if digits.len() == 0 {
        0
    } else {
        decimal(digits.drop_last()) * 10 + (digits.last() as nat - '0' as nat) as nat
    }
}

/// A text without the plus sign that it may begin with.
pub open spec fn unsigned_part(text: Seq<char>) -> Seq<char> {
    if text.len() > 0 && text[0] == '+' {
        text.drop_first()
    } else {
        text
    }
}

/// The number of at most 16 bits that a text stands for: decimal digits, one at least, after a
/// plus sign that may be left out.
pub open spec fn u16_in(text: Seq<char>) -> Option<u16> {
    let digits = unsigned_part(text);
    if digits.len() > 0 && (forall|i: int| 0 <= i < digits.len() ==> is_digit(#[trigger] digits[i]))
        && decimal(digits) <= u16::MAX {
        Some(decimal(digits) as u16)
    } else {
        None
    }
}

/// The message of the error with which [`str::parse`] refuses a text as a `u16`.
pub uninterp spec fn u16_refusal(text: Seq<char>) -> Seq<char>;

/// [`str::parse`] into a `u16`. It takes decimal digits, one at least, after a plus sign that may
/// be left out, if the number fits; it refuses any other text, with a message that depends on the
/// text alone.
#[verifier::external_body]
fn parse_u16(text: &str) -> (result: Result<u16, String>)
    ensures
        match result {
            Ok(number) => u16_in(text@) == Some(number),
            Err(reason) => u16_in(text@) is None && reason@ == u16_refusal(text@),
        },
{
    text.parse::<u16>().map_err(|error| error.to_string())
}

impl FromText for u16 {
    open spec fn text_value(text: Seq<char>) -> Result<u16, Seq<char>> {
        match u16_in(text) {
            Some(number) => Ok(number),
            None => Err(u16_refusal(text)),
        }
    }

    fn from_text(text: &str) -> (result: Result<u16, String>) {
        parse_u16(text)
    }
}

/// A mode of load balancing that there is.
pub open spec fn is_load_balancing_mode(mode: Seq<char>) -> bool {
    mode == "priority"@ || mode == "balanced"@
}

/// The mode of load balancing, which a variable may replace.
pub open spec fn load_balancing_after(
    setting: Seq<char>,
    env: Map<Seq<char>, Seq<char>>,
) -> Seq<char> {
    match env_value(env, "KIRO_RS_LOAD_BALANCING_MODE"@) {
        Some(mode) => if is_load_balancing_mode(mode) {
            mode
        } else {
            setting
        },
        None => setting,
    }
}

/// The variable for the mode of load balancing holds no mode that there is.
pub open spec fn load_balancing_error(env: Map<Seq<char>, Seq<char>>) -> Option<ErrorView> {
    match env_value(env, "KIRO_RS_LOAD_BALANCING_MODE"@) {
        Some(mode) => if is_load_balancing_mode(mode) {
            None
        } else {
            Some(ErrorView::InvalidLoadBalancingMode)
        },
        None => None,
    }
}

/// Replaces the mode of load balancing by the value of its variable.
pub fn override_load_balancing_mode(target: &mut String, env: &EnvVars) -> (result: Result<
    (),
    ConfigError,
>)
    ensures
        error_of(result) == load_balancing_error(env@),
        final(target)@ == load_balancing_after(old(target)@, env@),
{
    if let Some(value) = read_env(env, "KIRO_RS_LOAD_BALANCING_MODE") {
        if same_text(value.as_str(), "priority") || same_text(value.as_str(), "balanced") {
            *target = value;
        } else {
            return Err(ConfigError::InvalidLoadBalancingMode);
        }
    }
    Ok(())
}

/// The endpoints, which a variable may replace; one that is set to nothing takes them away.
pub open spec fn endpoints_after(
    setting: Map<Seq<char>, JsonView>,
    env: Map<Seq<char>, Seq<char>>,
) -> Map<Seq<char>, JsonView> {
    match env_value(env, "KIRO_RS_ENDPOINTS"@) {
        Some(text) => if text.len() == 0 {
            Map::empty()
        } else {
            match object_in_text(text) {
                Ok(members) => members,
                Err(_) => setting,
            }
        },
        None => setting,
    }
}

/// The variable for the endpoints holds something, and no JSON object.
pub open spec fn endpoints_error(env: Map<Seq<char>, Seq<char>>) -> Option<ErrorView> {
    match env_value(env, "KIRO_RS_ENDPOINTS"@) {
        Some(text) => if text.len() == 0 {
            None
        } else {
            match object_in_text(text) {
                Ok(_) => None,
                Err(reason) => Some(ErrorView::InvalidEndpoints { reason }),
            }
        },
        None => None,
    }
}

/// Replaces the endpoints by the JSON object in their variable; an empty value takes them away.
pub fn override_endpoints(target: &mut JsonObject, env: &EnvVars) -> (result: Result<
    (),
    ConfigError,
>)
    ensures
        error_of(result) == endpoints_error(env@),
        final(target)@ == endpoints_after(old(target)@, env@),
{
    if let Some(value) = read_env(env, "KIRO_RS_ENDPOINTS") {
        if value.as_str().is_empty() {
            target.clear();
        } else {
            match JsonObject::from_text(value.as_str()) {
                Ok(endpoints) => {
                    *target = endpoints;
                },
                Err(reason) => {
                    return Err(ConfigError::InvalidEndpoints { reason });
                },
            }
        }
    }
    Ok(())
}

/// The settings.
#[derive(Debug, Clone)]
pub struct Config {
    pub host: String,
    pub port: u16,
    pub region: String,
    /// The region that tokens are refreshed in; [`Config::region`] where there is none.
    pub auth_region: Option<String>,
    /// The region that requests go to; [`Config::region`] where there is none.
    pub api_region: Option<String>,
    pub kiro_version: String,
    pub machine_id: Option<String>,
    pub api_key: Option<String>,
    pub system_version: String,
    pub node_version: String,
    pub tls_backend: TlsBackend,
    /// Where tokens are counted, if elsewhere.
    pub count_tokens_api_url: Option<String>,
    pub count_tokens_api_key: Option<String>,
    /// `x-api-key` or `bearer`.
    pub count_tokens_auth_type: String,
    /// `http://host:port`, `https://host:port` or `socks5://host:port`.
    pub proxy_url: Option<String>,
    pub proxy_username: Option<String>,
    pub proxy_password: Option<String>,
    pub admin_api_key: Option<String>,
    /// `priority` or `balanced`.
    pub load_balancing_mode: String,
    /// Whether thinking is taken out of responses that are not streamed.
    pub extract_thinking: bool,
    /// The endpoint of credentials that name none.
    pub default_endpoint: String,
    /// The parameters of each endpoint, by its name.
    pub endpoints: JsonObject,
    /// The file that the settings come from and are saved to.
    pub config_path: Option<PathBuf>,
}

/// What the settings are.
#[verifier::ext_equal]
pub struct ConfigView {
    pub host: Seq<char>,
    pub port: u16,
    pub region: Seq<char>,
    pub auth_region: Option<Seq<char>>,
    pub api_region: Option<Seq<char>>,
    pub kiro_version: Seq<char>,
    pub machine_id: Option<Seq<char>>,
    pub api_key: Option<Seq<char>>,
    pub system_version: Seq<char>,
    pub node_version: Seq<char>,
    pub tls_backend: TlsBackend,
    pub count_tokens_api_url: Option<Seq<char>>,
    pub count_tokens_api_key: Option<Seq<char>>,
    pub count_tokens_auth_type: Seq<char>,
    pub proxy_url: Option<Seq<char>>,
    pub proxy_username: Option<Seq<char>>,
    pub proxy_password: Option<Seq<char>>,
    pub admin_api_key: Option<Seq<char>>,
    pub load_balancing_mode: Seq<char>,
    pub extract_thinking: bool,
    pub default_endpoint: Seq<char>,
    pub endpoints: Map<Seq<char>, JsonView>,
    pub config_path: Option<PathBuf>,
}

impl View for Config {
    type V = ConfigView;

    open spec fn view(&self) -> ConfigView {
        ConfigView {
            host: self.host@,
            port: self.port,
            region: self.region@,
            auth_region: optional_view(self.auth_region),
            api_region: optional_view(self.api_region),
            kiro_version: self.kiro_version@,
            machine_id: optional_view(self.machine_id),
            api_key: optional_view(self.api_key),
            system_version: self.system_version@,
            node_version: self.node_version@,
            tls_backend: self.tls_backend,
            count_tokens_api_url: optional_view(self.count_tokens_api_url),
            count_tokens_api_key: optional_view(self.count_tokens_api_key),
            count_tokens_auth_type: self.count_tokens_auth_type@,
            proxy_url: optional_view(self.proxy_url),
            proxy_username: optional_view(self.proxy_username),
            proxy_password: optional_view(self.proxy_password),
            admin_api_key: optional_view(self.admin_api_key),
            load_balancing_mode: self.load_balancing_mode@,
            extract_thinking: self.extract_thinking,
            default_endpoint: self.default_endpoint@,
            endpoints: self.endpoints@,
            config_path: self.config_path,
        }
    }
}

/// The number of settings that a variable can override.
pub const OVERRIDES: usize = 22;

/// What is wrong with the variable that is looked at after `step` others.
pub open spec fn error_at(env: Map<Seq<char>, Seq<char>>, step: int) -> Option<ErrorView> {
    if step == 0 {
        empty_error(env, "KIRO_RS_HOST"@)
    } else if step == 1 {
        parsed_error::<u16>(env, "KIRO_RS_PORT"@)
    } else if step == 2 {
        empty_error(env, "KIRO_RS_REGION"@)
    } else if step == 5 {
        empty_error(env, "KIRO_RS_KIRO_VERSION"@)
    } else if step == 8 {
        empty_error(env, "KIRO_RS_SYSTEM_VERSION"@)
    } else if step == 9 {
        empty_error(env, "KIRO_RS_NODE_VERSION"@)
    } else if step == 10 {
        parsed_error::<TlsBackend>(env, "KIRO_RS_TLS_BACKEND"@)
    } else if step == 13 {
        empty_error(env, "KIRO_RS_COUNT_TOKENS_AUTH_TYPE"@)
    } else if step == 18 {
        load_balancing_error(env)
    } else if step == 19 {
        bool_error(env, "KIRO_RS_EXTRACT_THINKING"@)
    } else if step == 20 {
        empty_error(env, "KIRO_RS_DEFAULT_ENDPOINT"@)
    } else if step == 21 {
        endpoints_error(env)
    } else {
        None
    }
}

/// The number of overrides, from the one at `step` on, up to the first variable at fault.
pub open spec fn sound_steps(env: Map<Seq<char>, Seq<char>>, step: int) -> int
    decreases OVERRIDES - step,
{
    if step >= OVERRIDES || error_at(env, step) is Some {
        step
    } else {
        sound_steps(env, step + 1)
    }
}

/// What is wrong with the first variable at fault, if any is.
pub open spec fn env_error(env: Map<Seq<char>, Seq<char>>) -> Option<ErrorView> {
    error_at(env, sound_steps(env, 0))
}

/// The settings after the first `steps` overrides.
pub open spec fn overridden(
    config: ConfigView,
    env: Map<Seq<char>, Seq<char>>,
    steps: int,
) -> ConfigView {
    ConfigView {
        host: if steps > 0 {
            string_after(config.host, env, "KIRO_RS_HOST"@)
        } else {
            config.host
        },
        port: if steps > 1 {
            parsed_after(config.port, env, "KIRO_RS_PORT"@)
        } else {
            config.port
        },
        region: if steps > 2 {
            string_after(config.region, env, "KIRO_RS_REGION"@)
        } else {
            config.region
        },
        auth_region: if steps > 3 {
            optional_after(config.auth_region, env, "KIRO_RS_AUTH_REGION"@)
        } else {
            config.auth_region
        },
        api_region: if steps > 4 {
            optional_after(config.api_region, env, "KIRO_RS_API_REGION"@)
        } else {
            config.api_region
        },
        kiro_version: if steps > 5 {
            string_after(config.kiro_version, env, "KIRO_RS_KIRO_VERSION"@)
        } else {
            config.kiro_version
        },
        machine_id: if steps > 6 {
            optional_after(config.machine_id, env, "KIRO_RS_MACHINE_ID"@)
        } else {
            config.machine_id
        },
        api_key: if steps > 7 {
            optional_after(config.api_key, env, "KIRO_RS_API_KEY"@)
        } else {
            config.api_key
        },
        system_version: if steps > 8 {
            string_after(config.system_version, env, "KIRO_RS_SYSTEM_VERSION"@)
        } else {
            config.system_version
        },
        node_version: if steps > 9 {
            string_after(config.node_version, env, "KIRO_RS_NODE_VERSION"@)
        } else {
            config.node_version
        },
        tls_backend: if steps > 10 {
            parsed_after(config.tls_backend, env, "KIRO_RS_TLS_BACKEND"@)
        } else {
            config.tls_backend
        },
        count_tokens_api_url: if steps > 11 {
            optional_after(config.count_tokens_api_url, env, "KIRO_RS_COUNT_TOKENS_API_URL"@)
        } else {
            config.count_tokens_api_url
        },
        count_tokens_api_key: if steps > 12 {
            optional_after(config.count_tokens_api_key, env, "KIRO_RS_COUNT_TOKENS_API_KEY"@)
        } else {
            config.count_tokens_api_key
        },
        count_tokens_auth_type: if steps > 13 {
            string_after(config.count_tokens_auth_type, env, "KIRO_RS_COUNT_TOKENS_AUTH_TYPE"@)
        } else {
            config.count_tokens_auth_type
        },
        proxy_url: if steps > 14 {
            optional_after(config.proxy_url, env, "KIRO_RS_PROXY_URL"@)
        } else {
            config.proxy_url
        },
        proxy_username: if steps > 15 {
            optional_after(config.proxy_username, env, "KIRO_RS_PROXY_USERNAME"@)
        } else {
            config.proxy_username
        },
        proxy_password: if steps > 16 {
            optional_after(config.proxy_password, env, "KIRO_RS_PROXY_PASSWORD"@)
        } else {
            config.proxy_password
        },
        admin_api_key: if steps > 17 {
            optional_after(config.admin_api_key, env, "KIRO_RS_ADMIN_API_KEY"@)
        } else {
            config.admin_api_key
        },
        load_balancing_mode: if steps > 18 {
            load_balancing_after(config.load_balancing_mode, env)
        } else {
            config.load_balancing_mode
        },
        extract_thinking: if steps > 19 {
            bool_after(config.extract_thinking, env, "KIRO_RS_EXTRACT_THINKING"@)
        } else {
            config.extract_thinking
        },
        default_endpoint: if steps > 20 {
            string_after(config.default_endpoint, env, "KIRO_RS_DEFAULT_ENDPOINT"@)
        } else {
            config.default_endpoint
        },
        endpoints: if steps > 21 {
            endpoints_after(config.endpoints, env)
        } else {
            config.endpoints
        },
        config_path: config.config_path,
    }
}

/// The settings after the overrides by the environment, up to the first variable at fault.
pub open spec fn settings_after_env(
    config: ConfigView,
    env: Map<Seq<char>, Seq<char>>,
) -> ConfigView {
    overridden(config, env, sound_steps(env, 0))
}

/// The address that the program listens on.
pub fn default_host() -> (host: String)
    ensures
        host@ == "127.0.0.1"@,
{
    "127.0.0.1".to_owned()
}

/// The port that the program listens on.
pub fn default_port() -> (port: u16)
    ensures
        port == 8080,
{
    8080
}

/// The region.
pub fn default_region() -> (region: String)
    ensures
        region@ == "us-east-1"@,
{
    "us-east-1".to_owned()
}

/// The version of Kiro that requests name.
pub fn default_kiro_version() -> (version: String)
    ensures
        version@ == "0.11.107"@,
{
    "0.11.107".to_owned()
}

/// The systems that requests may name.
pub open spec fn system_versions() -> Seq<Seq<char>> {
    seq!["darwin#24.6.0"@, "win32#10.0.22631"@]
}

/// [`fastrand::usize`] below a bound, which must not be zero. It gives some number below the
/// bound, and which one is left to chance.
#[verifier::external_body]
fn random_below(bound: usize) -> (number: usize)
    requires
        bound > 0,
    ensures
        number < bound,
{
    fastrand::usize(..bound)
}

/// One of the systems that requests may name.
pub fn system_version_at(index: usize) -> (version: String)
    requires
        index < 2,
    ensures
        version@ == system_versions()[index as int],
{
    if index == 0 {
        "darwin#24.6.0".to_owned()
    } else {
        "win32#10.0.22631".to_owned()
    }
}

/// The system that requests name: one of those there are, whichever chance gives.
pub fn default_system_version() -> (version: String)
    ensures
        system_versions().contains(version@),
{
    let index = random_below(2);
    let version = system_version_at(index);
    assert(system_versions()[index as int] == version@);
    version
}

/// The version of Node that requests name.
pub fn default_node_version() -> (version: String)
    ensures
        version@ == "22.22.0"@,
{
    "22.22.0".to_owned()
}

/// How requests to count tokens are authenticated.
pub fn default_count_tokens_auth_type() -> (kind: String)
    ensures
        kind@ == "x-api-key"@,
{
    "x-api-key".to_owned()
}

/// The library that encrypts connections.
pub fn default_tls_backend() -> (backend: TlsBackend)
    ensures
        backend == TlsBackend::Rustls,
{
    TlsBackend::Rustls
}

/// The mode of load balancing.
pub fn default_load_balancing_mode() -> (mode: String)
    ensures
        mode@ == "priority"@,
{
    "priority".to_owned()
}

/// Whether thinking is taken out of responses that are not streamed.
pub fn default_extract_thinking() -> (extract: bool)
    ensures
        extract,
{
    true
}

/// The endpoint of credentials that name none.
pub fn default_endpoint() -> (endpoint: String)
    ensures
        endpoint@ == "ide"@,
{
    "ide".to_owned()
}

/// The settings where nothing is set, on that system.
pub open spec fn default_settings(system_version: Seq<char>) -> ConfigView {
    ConfigView {
        host: "127.0.0.1"@,
        port: 8080,
        region: "us-east-1"@,
        auth_region: None,
        api_region: None,
        kiro_version: "0.11.107"@,
        machine_id: None,
        api_key: None,
        system_version,
        node_version: "22.22.0"@,
        tls_backend: TlsBackend::Rustls,
        count_tokens_api_url: None,
        count_tokens_api_key: None,
        count_tokens_auth_type: "x-api-key"@,
        proxy_url: None,
        proxy_username: None,
        proxy_password: None,
        admin_api_key: None,
        load_balancing_mode: "priority"@,
        extract_thinking: true,
        default_endpoint: "ide"@,
        endpoints: Map::empty(),
        config_path: None,
    }
}

/// The settings are those where nothing is set, on one of the systems there are.
pub open spec fn is_default(config: ConfigView) -> bool {
    system_versions().contains(config.system_version) && config == default_settings(
        config.system_version,
    )
}

impl Default for Config {
    /// The settings where nothing is set.
    fn default() -> (config: Config)
        ensures
            is_default(config@),
    {
        Config::with_system_version(default_system_version())
    }
}

/// The file among the standard ones that the settings come from: the first that exists.
pub open spec fn discovered_path(default_exists: bool, nested_exists: bool) -> Option<Seq<char>> {
    if default_exists {
        Some("config.json"@)
    } else if nested_exists {
        Some("config/config.json"@)
    } else {
        None
    }
}

/// The file that the settings come from: the one that is asked for, or else the one that the
/// environment names, or else the first of the standard ones that exists.
pub open spec fn selected_path(
    asked: Option<Seq<char>>,
    env: Map<Seq<char>, Seq<char>>,
    default_exists: bool,
    nested_exists: bool,
) -> Option<Seq<char>> {
    match asked {
        Some(path) => Some(path),
        None => match non_empty_value(env, "KIRO_RS_CONFIG"@) {
            Some(path) => Some(path),
            None => discovered_path(default_exists, nested_exists),
        },
    }
}

/// The settings that a file holds, if there is one.
pub open spec fn file_settings(file: Option<Config>) -> Option<ConfigView> {
    match file {
        Some(settings) => Some(settings@),
        None => None,
    }
}

/// The settings of a file, or else the default ones, before the environment overrides them.
pub open spec fn settings_before_env(file: Option<ConfigView>, config: ConfigView) -> bool {
    match file {
        Some(settings) => config == settings,
        None => is_default(config),
    }
}

impl Config {
    /// The settings where nothing is set, on that system.
    pub fn with_system_version(system_version: String) -> (config: Config)
        ensures
            config@ == default_settings(system_version@),
    {
        Config {
            host: default_host(),
            port: default_port(),
            region: default_region(),
            auth_region: None,
            api_region: None,
            kiro_version: default_kiro_version(),
            machine_id: None,
            api_key: None,
            system_version,
            node_version: default_node_version(),
            tls_backend: default_tls_backend(),
            count_tokens_api_url: None,
            count_tokens_api_key: None,
            count_tokens_auth_type: default_count_tokens_auth_type(),
            proxy_url: None,
            proxy_username: None,
            proxy_password: None,
            admin_api_key: None,
            load_balancing_mode: default_load_balancing_mode(),
            extract_thinking: default_extract_thinking(),
            default_endpoint: default_endpoint(),
            endpoints: JsonObject::new(),
            config_path: None,
        }
    }

    /// The standard file that the settings come from.
    pub fn default_config_path() -> (path: &'static str)
        ensures
            path@ == "config.json"@,
    {
        "config.json"
    }

    /// The region that tokens are refreshed in.
    pub fn effective_auth_region(&self) -> (region: &str)
        ensures
            region@ == (match self@.auth_region {
                Some(own) => own,
                None => self@.region,
            }),
    {
        match &self.auth_region {
            Some(region) => region.as_str(),
            None => self.region.as_str(),
        }
    }

    /// The region that requests go to.
    pub fn effective_api_region(&self) -> (region: &str)
        ensures
            region@ == (match self@.api_region {
                Some(own) => own,
                None => self@.region,
            }),
    {
        match &self.api_region {
            Some(region) => region.as_str(),
            None => self.region.as_str(),
        }
    }

    /// The file among the standard ones that the settings come from, given which of the two
    /// exist.
    pub fn discover_default_config_path(default_exists: bool, nested_exists: bool) -> (path: Option<
        &'static str,
    >)
        ensures
            path is Some <==> discovered_path(default_exists, nested_exists) is Some,
            path matches Some(name) ==> discovered_path(default_exists, nested_exists) == Some(
                name@,
            ),
    {
        if default_exists {
            Some(Config::default_config_path())
        } else if nested_exists {
            Some("config/config.json")
        } else {
            None
        }
    }

    /// The file that the settings come from, given which of the two standard ones exist.
    pub fn select_config_path(
        config_path: Option<&str>,
        env: &EnvVars,
        default_exists: bool,
        nested_exists: bool,
    ) -> (path: Option<String>)
        ensures
            optional_view(path) == selected_path(
                match config_path {
                    Some(asked) => Some(asked@),
                    None => None,
                },
                env@,
                default_exists,
                nested_exists,
            ),
    {
        match config_path {
            Some(path) => Some(path.to_owned()),
            None => match read_non_empty_env(env, "KIRO_RS_CONFIG") {
                Some(path) => Some(path),
                None => match Config::discover_default_config_path(default_exists, nested_exists) {
                    Some(path) => Some(path.to_owned()),
                    None => None,
                },
            },
        }
    }

    /// The settings that a file holds, or the default ones where there is no such file. Either
    /// way they are saved to that file.
    pub fn load(content: Option<Config>, path: PathBuf) -> (config: Config)
        ensures
            config@.config_path == Some(path),
            settings_before_env(
                match content {
                    Some(settings) => Some((ConfigView { config_path: None, ..settings@ })),
                    None => None,
                },
                (ConfigView { config_path: None, ..config@ }),
            ),
    {
        let mut config = match content {
            Some(settings) => settings,
            None => Config::default(),
        };
        config.config_path = Some(path);
        config
    }

    /// The settings that the program runs with: those of the file, where there is one, or else
    /// the default ones, and over them those of the environment.
    pub fn load_runtime_with_env(file: Option<Config>, env: &EnvVars) -> (result: Result<
        Config,
        ConfigError,
    >)
        ensures
            match result {
                Ok(config) => env_error(env@) is None && exists|before: ConfigView|
                    #[trigger] settings_before_env(file_settings(file), before) && config@
                        == settings_after_env(before, env@),
                Err(error) => env_error(env@) == Some(error@),
            },
    {
        let mut config = match file {
            Some(settings) => settings,
            None => Config::default(),
        };
        assert(settings_before_env(file_settings(file), config@));
        config.apply_env_overrides_from(env)?;
        Ok(config)
    }

    /// The file that the settings come from, if any.
    pub fn config_path(&self) -> (path: Option<&PathBuf>)
        ensures
            path == (match self@.config_path {
                Some(own) => Some(&own),
                None => None,
            }),
    {
        match &self.config_path {
            Some(path) => Some(path),
            None => None,
        }
    }

    /// The file to save the settings to.
    pub fn save_path(&self) -> (result: Result<&PathBuf, ConfigError>)
        ensures
            match result {
                Ok(path) => self@.config_path == Some(*path),
                Err(error) => self@.config_path is None && error@ == ErrorView::UnknownPath,
            },
    {
        match &self.config_path {
            Some(path) => Ok(path),
            None => Err(ConfigError::UnknownPath),
        }
    }

    /// Overrides the settings by the environment variables, one after the other, as far as the
    /// first that is at fault.
    pub fn apply_env_overrides_from(&mut self, env: &EnvVars) -> (result: Result<(), ConfigError>)
        ensures
            error_of(result) == env_error(env@),
            final(self)@ == settings_after_env(old(self)@, env@),
    {
        override_string(&mut self.host, env, "KIRO_RS_HOST")?;
        assert(sound_steps(env@, 0) == sound_steps(env@, 1));
        override_parsed(&mut self.port, env, "KIRO_RS_PORT")?;
        assert(sound_steps(env@, 0) == sound_steps(env@, 2));
        override_string(&mut self.region, env, "KIRO_RS_REGION")?;
        assert(sound_steps(env@, 0) == sound_steps(env@, 3));
        override_optional_string(&mut self.auth_region, env, "KIRO_RS_AUTH_REGION");
        assert(sound_steps(env@, 0) == sound_steps(env@, 4));
        override_optional_string(&mut self.api_region, env, "KIRO_RS_API_REGION");
        assert(sound_steps(env@, 0) == sound_steps(env@, 5));
        override_string(&mut self.kiro_version, env, "KIRO_RS_KIRO_VERSION")?;
        assert(sound_steps(env@, 0) == sound_steps(env@, 6));
        override_optional_string(&mut self.machine_id, env, "KIRO_RS_MACHINE_ID");
        assert(sound_steps(env@, 0) == sound_steps(env@, 7));
        override_optional_string(&mut self.api_key, env, "KIRO_RS_API_KEY");
        assert(sound_steps(env@, 0) == sound_steps(env@, 8));
        override_string(&mut self.system_version, env, "KIRO_RS_SYSTEM_VERSION")?;
        assert(sound_steps(env@, 0) == sound_steps(env@, 9));
        override_string(&mut self.node_version, env, "KIRO_RS_NODE_VERSION")?;
        assert(sound_steps(env@, 0) == sound_steps(env@, 10));
        override_parsed(&mut self.tls_backend, env, "KIRO_RS_TLS_BACKEND")?;
        assert(sound_steps(env@, 0) == sound_steps(env@, 11));
        override_optional_string(&mut self.count_tokens_api_url, env, "KIRO_RS_COUNT_TOKENS_API_URL");
        assert(sound_steps(env@, 0) == sound_steps(env@, 12));
        override_optional_string(&mut self.count_tokens_api_key, env, "KIRO_RS_COUNT_TOKENS_API_KEY");
        assert(sound_steps(env@, 0) == sound_steps(env@, 13));
        override_string(&mut self.count_tokens_auth_type, env, "KIRO_RS_COUNT_TOKENS_AUTH_TYPE")?;
        assert(sound_steps(env@, 0) == sound_steps(env@, 14));
        override_optional_string(&mut self.proxy_url, env, "KIRO_RS_PROXY_URL");
        assert(sound_steps(env@, 0) == sound_steps(env@, 15));
        override_optional_string(&mut self.proxy_username, env, "KIRO_RS_PROXY_USERNAME");
        assert(sound_steps(env@, 0) == sound_steps(env@, 16));
        override_optional_string(&mut self.proxy_password, env, "KIRO_RS_PROXY_PASSWORD");
        assert(sound_steps(env@, 0) == sound_steps(env@, 17));
        override_optional_string(&mut self.admin_api_key, env, "KIRO_RS_ADMIN_API_KEY");
        assert(sound_steps(env@, 0) == sound_steps(env@, 18));
        override_load_balancing_mode(&mut self.load_balancing_mode, env)?;
        assert(sound_steps(env@, 0) == sound_steps(env@, 19));
        override_bool(&mut self.extract_thinking, env, "KIRO_RS_EXTRACT_THINKING")?;
        assert(sound_steps(env@, 0) == sound_steps(env@, 20));
        override_string(&mut self.default_endpoint, env, "KIRO_RS_DEFAULT_ENDPOINT")?;
        assert(sound_steps(env@, 0) == sound_steps(env@, 21));
        override_endpoints(&mut self.endpoints, env)?;
        assert(sound_steps(env@, 0) == sound_steps(env@, 22));
        Ok(())
    }
}

} // verus!
