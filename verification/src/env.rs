//! The environment variables that configure the program, and how they override a setting.

use crate::text::{same_text, to_lower, trim, trimmed, lower};
use vstd::prelude::*;
use vstd::string::*;

verus! {

/// The environment variables that are set. Of two with one name the later one counts.
#[derive(Debug)]
pub struct EnvVars {
    pub entries: Vec<(String, String)>,
}

/// The map that a list of variables stands for.
pub open spec fn variables(entries: Seq<(String, String)>) -> Map<Seq<char>, Seq<char>>
    decreases entries.len(),
{
    if entries.len() == 0 {
        Map::empty()
    } else {
        variables(entries.drop_last()).insert(entries.last().0@, entries.last().1@)
    }
}

impl View for EnvVars {
    type V = Map<Seq<char>, Seq<char>>;

    open spec fn view(&self) -> Map<Seq<char>, Seq<char>> {
        variables(self.entries@)
    }
}

proof fn lemma_variables(entries: Seq<(String, String)>, key: Seq<char>, from: int)
    requires
        0 <= from <= entries.len(),
        forall|i: int| from <= i < entries.len() ==> (#[trigger] entries[i]).0@ != key,
    ensures
        variables(entries).contains_key(key) == variables(entries.take(from)).contains_key(key),
        variables(entries).contains_key(key) ==> variables(entries)[key] == variables(
            entries.take(from),
        )[key],
    decreases entries.len(),
{
    if from < entries.len() {
        assert(entries[entries.len() - 1].0@ != key);
        lemma_variables(entries.drop_last(), key, from);
        assert(entries.drop_last().take(from) =~= entries.take(from));
    } else {
        assert(entries.take(from) =~= entries);
    }
}

impl EnvVars {
    /// No variables.
    pub fn new() -> (env: EnvVars)
        ensures
            env@ == Map::<Seq<char>, Seq<char>>::empty(),
    {
        EnvVars { entries: Vec::new() }
    }

    /// Sets a variable.
    pub fn set(&mut self, key: &str, value: &str)
        ensures
            final(self)@ == old(self)@.insert(key@, value@),
    {
        let ghost before = self.entries@;
        self.entries.push((key.to_owned(), value.to_owned()));
        assert(self.entries@.drop_last() =~= before);
    }

    /// The value of a variable.
    pub fn get(&self, key: &str) -> (value: Option<&String>)
        ensures
            value is Some <==> self@.contains_key(key@),
            value matches Some(text) ==> text@ == self@[key@],
    {
        let mut at: usize = self.entries.len();
        while at > 0
            invariant
                at <= self.entries@.len(),
                forall|i: int|
                    at <= i < self.entries@.len() ==> (#[trigger] self.entries@[i]).0@ != key@,
            decreases at,
        {
            if same_text(self.entries[at - 1].0.as_str(), key) {
                proof {
                    lemma_variables(self.entries@, key@, at as int);
                }
                return Some(&self.entries[at - 1].1);
            }
            at = at - 1;
        }
        proof {
            lemma_variables(self.entries@, key@, 0);
        }
        None
    }
}

/// The value of a variable without the whitespace around it.
pub open spec fn env_value(env: Map<Seq<char>, Seq<char>>, key: Seq<char>) -> Option<Seq<char>> {
    if env.contains_key(key) {
        Some(trimmed(env[key]))
    } else {
        None
    }
}

/// What is wrong with the configuration.
#[derive(Debug)]
pub enum ConfigError {
    /// A variable is set to nothing.
    Empty { key: String },
    /// A variable is set to what its setting cannot be.
    Invalid { key: String, reason: String },
    /// A variable is set to what is neither yes nor no.
    InvalidBool { key: String },
    /// The mode of load balancing is none of those there are.
    InvalidLoadBalancingMode,
    /// The endpoints are no JSON object, for the reason that reading them gave.
    InvalidEndpoints { reason: String },
    /// There is no file to save to.
    UnknownPath,
}

/// What an error says.
#[verifier::ext_equal]
pub enum ErrorView {
    Empty { key: Seq<char> },
    Invalid { key: Seq<char>, reason: Seq<char> },
    InvalidBool { key: Seq<char> },
    InvalidLoadBalancingMode,
    InvalidEndpoints { reason: Seq<char> },
    UnknownPath,
}

impl View for ConfigError {
    type V = ErrorView;

    open spec fn view(&self) -> ErrorView {
        match self {
            ConfigError::Empty { key } => ErrorView::Empty { key: key@ },
            ConfigError::Invalid { key, reason } => ErrorView::Invalid {
                key: key@,
                reason: reason@,
            },
            ConfigError::InvalidBool { key } => ErrorView::InvalidBool { key: key@ },
            ConfigError::InvalidLoadBalancingMode => ErrorView::InvalidLoadBalancingMode,
            ConfigError::InvalidEndpoints { reason } => ErrorView::InvalidEndpoints {
                reason: reason@,
            },
            ConfigError::UnknownPath => ErrorView::UnknownPath,
        }
    }
}

/// The message of an error.
pub open spec fn error_message(error: ErrorView) -> Seq<char> {
    match error {
        ErrorView::Empty { key } => "环境变量 "@ + key + " 不能为空"@,
        ErrorView::Invalid { key, reason } => "解析环境变量 "@ + key + " 失败: "@ + reason,
        ErrorView::InvalidBool { key } => "解析环境变量 "@ + key
            + " 失败: 期望 true/false、1/0、yes/no 或 on/off"@,
        ErrorView::InvalidLoadBalancingMode =>
            "环境变量 KIRO_RS_LOAD_BALANCING_MODE 只能是 priority 或 balanced"@,
        ErrorView::InvalidEndpoints { .. } => "解析环境变量 KIRO_RS_ENDPOINTS 失败，应为 JSON 对象"@,
        ErrorView::UnknownPath => "配置文件路径未知，无法保存配置"@,
    }
}

impl ConfigError {
    /// The message of the error.
    pub fn message(&self) -> (text: String)
        ensures
            text@ == error_message(self@),
    {
        match self {
            ConfigError::Empty { key } => {
                let mut text = "环境变量 ".to_owned();
                text.append(key.as_str());
                text.append(" 不能为空");
                text
            },
            ConfigError::Invalid { key, reason } => {
                let mut text = "解析环境变量 ".to_owned();
                text.append(key.as_str());
                text.append(" 失败: ");
                text.append(reason.as_str());
                text
            },
            ConfigError::InvalidBool { key } => {
                let mut text = "解析环境变量 ".to_owned();
                text.append(key.as_str());
                text.append(" 失败: 期望 true/false、1/0、yes/no 或 on/off");
                text
            },
            ConfigError::InvalidLoadBalancingMode =>
                "环境变量 KIRO_RS_LOAD_BALANCING_MODE 只能是 priority 或 balanced".to_owned(),
            ConfigError::InvalidEndpoints { .. } =>
                "解析环境变量 KIRO_RS_ENDPOINTS 失败，应为 JSON 对象".to_owned(),
            ConfigError::UnknownPath => "配置文件路径未知，无法保存配置".to_owned(),
        }
    }
}

/// What an error came from, where it came from another one.
pub open spec fn error_cause(error: ErrorView) -> Option<Seq<char>> {
    match error {
        ErrorView::InvalidEndpoints { reason } => Some(reason),
        _ => None,
    }
}

impl ConfigError {
    /// The message of the error that this one came from, where it came from another one.
    pub fn cause(&self) -> (reason: Option<&str>)
        ensures
            reason is Some <==> error_cause(self@) is Some,
            reason matches Some(text) ==> error_cause(self@) == Some(text@),
    {
        match self {
            ConfigError::InvalidEndpoints { reason } => Some(reason.as_str()),
            _ => None,
        }
    }
}

/// The value of a variable without the whitespace around it.
pub fn read_env(env: &EnvVars, key: &str) -> (value: Option<String>)
    ensures
        value is Some <==> env_value(env@, key@) is Some,
        value matches Some(text) ==> env_value(env@, key@) == Some(text@),
{
    match env.get(key) {
        Some(value) => Some(trim(value.as_str())),
        None => None,
    }
}

/// The value of a variable that is set to something.
pub open spec fn non_empty_value(env: Map<Seq<char>, Seq<char>>, key: Seq<char>) -> Option<
    Seq<char>,
> {
    match env_value(env, key) {
        Some(text) => if text.len() > 0 {
            Some(text)
        } else {
            None
        },
        None => None,
    }
}

/// The value of a variable that is set to something.
pub fn read_non_empty_env(env: &EnvVars, key: &str) -> (value: Option<String>)
    ensures
        value is Some <==> non_empty_value(env@, key@) is Some,
        value matches Some(text) ==> non_empty_value(env@, key@) == Some(text@),
{
    match read_env(env, key) {
        Some(value) => if value.as_str().is_empty() {
            None
        } else {
            Some(value)
        },
        None => None,
    }
}

/// A setting that a variable replaces, where it is set to something.
pub open spec fn string_after(
    setting: Seq<char>,
    env: Map<Seq<char>, Seq<char>>,
    key: Seq<char>,
) -> Seq<char> {
    match non_empty_value(env, key) {
        Some(text) => text,
        None => setting,
    }
}

/// A variable that must not be set to nothing is.
pub open spec fn empty_error(env: Map<Seq<char>, Seq<char>>, key: Seq<char>) -> Option<
    ErrorView,
> {
    match env_value(env, key) {
        Some(text) => if text.len() == 0 {
            Some(ErrorView::Empty { key })
        } else {
            None
        },
        None => None,
    }
}

/// What an error, if any, says.
pub open spec fn error_of(result: Result<(), ConfigError>) -> Option<ErrorView> {
    match result {
        Ok(_) => None,
        Err(error) => Some(error@),
    }
}

/// Replaces a setting by the value of a variable, which must not be empty.
pub fn override_string(target: &mut String, env: &EnvVars, key: &str) -> (result: Result<
    (),
    ConfigError,
>)
    ensures
        error_of(result) == empty_error(env@, key@),
        final(target)@ == string_after(old(target)@, env@, key@),
{
    if let Some(value) = read_env(env, key) {
        if value.as_str().is_empty() {
            return Err(ConfigError::Empty { key: key.to_owned() });
        }
        *target = value;
    }
    Ok(())
}

/// An optional setting that a variable replaces, where it is set; one that is set to nothing
/// takes the setting away.
pub open spec fn optional_after(
    setting: Option<Seq<char>>,
    env: Map<Seq<char>, Seq<char>>,
    key: Seq<char>,
) -> Option<Seq<char>> {
    match env_value(env, key) {
        Some(text) => if text.len() == 0 {
            None
        } else {
            Some(text)
        },
        None => setting,
    }
}

/// What an optional setting is.
pub open spec fn optional_view(setting: Option<String>) -> Option<Seq<char>> {
    match setting {
        Some(text) => Some(text@),
        None => None,
    }
}

/// Replaces an optional setting by the value of a variable; an empty value takes it away.
pub fn override_optional_string(target: &mut Option<String>, env: &EnvVars, key: &str)
    ensures
        optional_view(*final(target)) == optional_after(optional_view(*old(target)), env@, key@),
{
    if let Some(value) = read_env(env, key) {
        if value.as_str().is_empty() {
            *target = None;
        } else {
            *target = Some(value);
        }
    }
}

/// What a setting can be read from.
pub trait FromText: Sized {
    /// What a text stands for, or why it stands for nothing.
    spec fn text_value(text: Seq<char>) -> Result<Self, Seq<char>>;

    /// Reads what a text stands for, or why it stands for nothing.
    fn from_text(text: &str) -> (result: Result<Self, String>)
        ensures
            match result {
                Ok(value) => Self::text_value(text@) == Ok::<Self, Seq<char>>(value),
                Err(reason) => Self::text_value(text@) == Err::<Self, Seq<char>>(reason@),
            },
    ;
}

/// A setting that a variable replaces by what its value stands for.
pub open spec fn parsed_after<T: FromText>(
    setting: T,
    env: Map<Seq<char>, Seq<char>>,
    key: Seq<char>,
) -> T {
    match non_empty_value(env, key) {
        Some(text) => match T::text_value(text) {
            Ok(value) => value,
            Err(_) => setting,
        },
        None => setting,
    }
}

/// The value of a variable is empty or stands for nothing.
pub open spec fn parsed_error<T: FromText>(
    env: Map<Seq<char>, Seq<char>>,
    key: Seq<char>,
) -> Option<ErrorView> {
    match env_value(env, key) {
        Some(text) => if text.len() == 0 {
            Some(ErrorView::Empty { key })
        } else {
            match T::text_value(text) {
                Ok(_) => None,
                Err(reason) => Some(ErrorView::Invalid { key, reason }),
            }
        },
        None => None,
    }
}

/// Replaces a setting by what the value of a variable stands for.
pub fn override_parsed<T: FromText>(target: &mut T, env: &EnvVars, key: &str) -> (result: Result<
    (),
    ConfigError,
>)
    ensures
        error_of(result) == parsed_error::<T>(env@, key@),
        *final(target) == parsed_after(*old(target), env@, key@),
{
    if let Some(value) = read_env(env, key) {
        if value.as_str().is_empty() {
            return Err(ConfigError::Empty { key: key.to_owned() });
        }
        match T::from_text(value.as_str()) {
            Ok(parsed) => {
                *target = parsed;
            },
            Err(reason) => {
                return Err(ConfigError::Invalid { key: key.to_owned(), reason });
            },
        }
    }
    Ok(())
}

/// What a text says that is yes or no, in letters of any case.
pub open spec fn bool_value(text: Seq<char>) -> Option<bool> {
    let word = lower(trimmed(text));
    if word == "true"@ || word == "1"@ || word == "yes"@ || word == "y"@ || word == "on"@ {
        Some(true)
    } else if word == "false"@ || word == "0"@ || word == "no"@ || word == "n"@ || word == "off"@ {
        Some(false)
    } else {
        None
    }
}

/// Reads a text that is yes or no.
pub fn parse_bool_env(key: &str, value: &str) -> (result: Result<bool, ConfigError>)
    ensures
        match result {
            Ok(truth) => bool_value(value@) == Some(truth),
            Err(error) => bool_value(value@) is None && error@ == (ErrorView::InvalidBool {
                key: key@,
            }),
        },
{
    let word = to_lower(trim(value).as_str());
    let text = word.as_str();
    if same_text(text, "true") || same_text(text, "1") || same_text(text, "yes") || same_text(
        text,
        "y",
    ) || same_text(text, "on") {
        Ok(true)
    } else if same_text(text, "false") || same_text(text, "0") || same_text(text, "no")
        || same_text(text, "n") || same_text(text, "off") {
        Ok(false)
    } else {
        Err(ConfigError::InvalidBool { key: key.to_owned() })
    }
}

/// A setting that a variable replaces, where its value is yes or no.
pub open spec fn bool_after(
    setting: bool,
    env: Map<Seq<char>, Seq<char>>,
    key: Seq<char>,
) -> bool {
    match env_value(env, key) {
        Some(text) => match bool_value(text) {
            Some(truth) => truth,
            None => setting,
        },
        None => setting,
    }
}

/// The value of a variable is neither yes nor no.
pub open spec fn bool_error(env: Map<Seq<char>, Seq<char>>, key: Seq<char>) -> Option<ErrorView> {
    match env_value(env, key) {
        Some(text) => if bool_value(text) is None {
            Some(ErrorView::InvalidBool { key })
        } else {
            None
        },
        None => None,
    }
}

/// Replaces a setting by the value of a variable, which must be yes or no.
pub fn override_bool(target: &mut bool, env: &EnvVars, key: &str) -> (result: Result<
    (),
    ConfigError,
>)
    ensures
        error_of(result) == bool_error(env@, key@),
        *final(target) == bool_after(*old(target), env@, key@),
{
    if let Some(value) = read_env(env, key) {
        match parse_bool_env(key, value.as_str()) {
            Ok(truth) => {
                *target = truth;
            },
            Err(error) => {
                return Err(error);
            },
        }
    }
    Ok(())
}

} // verus!
