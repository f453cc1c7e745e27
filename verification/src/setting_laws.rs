//! What each setting becomes under an environment, and what is refused.

use crate::config::{
    decimal, default_settings, discovered_path, env_error, error_at, file_settings, is_default,
    is_digit, selected_path, settings_after_env, settings_before_env, sound_steps, system_versions,
    u16_in, u16_refusal, Config, ConfigView, TlsBackend,
};
use crate::env::{
    bool_after, bool_value, env_value, error_cause, error_message, error_of, non_empty_value,
    optional_after, optional_view, string_after, variables, ConfigError, EnvVars, ErrorView,
    FromText,
};
use crate::json::JsonView;
use crate::serde_values::object_in_text;
use crate::text::{is_whitespace, lower, trimmed};
use crate::text_laws::{is_blank, law_trimmed};
use vstd::prelude::*;

verus! {

/// The variable is set to this text, with any whitespace around it.
pub open spec fn is_set_to(
    env: Map<Seq<char>, Seq<char>>,
    key: Seq<char>,
    value: Seq<char>,
) -> bool {
    &&& env.contains_key(key)
    &&& value.len() > 0 ==> !is_whitespace(value[0]) && !is_whitespace(value.last())
    &&& exists|before: Seq<char>, after: Seq<char>|
        is_blank(before) && is_blank(after) && env[key] == #[trigger] (before + value + after)
}

/// The variable is set, to nothing but whitespace.
pub open spec fn is_set_to_nothing(env: Map<Seq<char>, Seq<char>>, key: Seq<char>) -> bool {
    env.contains_key(key) && is_blank(env[key])
}

/// The value of a variable is what it is set to.
pub proof fn law_value_of_a_variable(
    env: Map<Seq<char>, Seq<char>>,
    key: Seq<char>,
    value: Seq<char>,
)
    ensures
        is_set_to(env, key, value) ==> env_value(env, key) == Some(value),
        is_set_to_nothing(env, key) ==> env_value(env, key) == Some(Seq::<char>::empty()),
        env.contains_key(key) <==> env_value(env, key) is Some,
{
    if is_set_to(env, key, value) {
        let (before, after) = choose|before: Seq<char>, after: Seq<char>|
            is_blank(before) && is_blank(after) && env[key] == #[trigger] (before + value + after);
        law_trimmed(before, value, after);
    }
    if is_set_to_nothing(env, key) {
        let nothing = Seq::<char>::empty();
        law_trimmed(env[key], nothing, nothing);
        assert(env[key] + nothing + nothing =~= env[key]);
    }
}

/// A variable that is not at fault but whose value is empty is set to nothing but whitespace.
pub proof fn law_empty_values(env: Map<Seq<char>, Seq<char>>, key: Seq<char>)
    requires
        env_value(env, key) == Some(Seq::<char>::empty()),
    ensures
        is_set_to_nothing(env, key),
{
    lemma_trimmed_to_nothing(env[key]);
}

proof fn lemma_trimmed_to_nothing(text: Seq<char>)
    requires
        trimmed(text).len() == 0,
    ensures
        is_blank(text),
{
    let start = crate::text::trimmed_start(text);
    lemma_end_to_nothing(start);
    lemma_start_to_blank(text);
}

proof fn lemma_end_to_nothing(text: Seq<char>)
    requires
        crate::text::trimmed_end(text).len() == 0,
    ensures
        is_blank(text),
    decreases text.len(),
{
    if text.len() > 0 {
        lemma_end_to_nothing(text.drop_last());
        assert forall|i: int| 0 <= i < text.len() implies is_whitespace(#[trigger] text[i]) by {
            if i < text.len() - 1 {
                assert(is_whitespace(text.drop_last()[i]));
            }
        }
    }
}

proof fn lemma_start_to_blank(text: Seq<char>)
    requires
        is_blank(crate::text::trimmed_start(text)),
    ensures
        is_blank(text),
    decreases text.len(),
{
    if text.len() > 0 && is_whitespace(text[0]) {
        lemma_start_to_blank(text.drop_first());
        assert forall|i: int| 0 <= i < text.len() implies is_whitespace(#[trigger] text[i]) by {
            if i > 0 {
                assert(is_whitespace(text.drop_first()[i - 1]));
            }
        }
    }
}

/// The variables are looked at one by one, up to the first that is at fault.
pub proof fn law_overrides_stop_at_the_first_fault(
    env: Map<Seq<char>, Seq<char>>,
    step: int,
)
    requires
        0 <= step <= 22,
    ensures
        step <= sound_steps(env, step) <= 22,
        forall|i: int|
            step <= i < sound_steps(env, step) ==> #[trigger] error_at(env, i) is None,
        sound_steps(env, step) < 22 ==> error_at(env, sound_steps(env, step)) is Some,
        env_error(env) is None <==> sound_steps(env, 0) == 22,
        env_error(env) == error_at(env, sound_steps(env, 0)),
    decreases 22 - step,
{
    if step < 22 && error_at(env, step) is None {
        law_overrides_stop_at_the_first_fault(env, step + 1);
    }
    lemma_first_step(env);
}

proof fn lemma_steps(env: Map<Seq<char>, Seq<char>>, step: int)
    requires
        0 <= step <= 22,
    ensures
        step <= sound_steps(env, step) <= 22,
        sound_steps(env, step) < 22 ==> error_at(env, sound_steps(env, step)) is Some,
    decreases 22 - step,
{
    if step < 22 && error_at(env, step) is None {
        lemma_steps(env, step + 1);
    }
}

proof fn lemma_first_step(env: Map<Seq<char>, Seq<char>>)
    ensures
        env_error(env) is None <==> sound_steps(env, 0) == 22,
{
    lemma_steps(env, 0);
}

/// Settings behind a fault stay as they were.
pub proof fn law_settings_behind_a_fault_stay(
    config: ConfigView,
    env: Map<Seq<char>, Seq<char>>,
)
    ensures
        ({
            let after = settings_after_env(config, env);
            let steps = sound_steps(env, 0);
            &&& steps <= 0 ==> after.host == config.host
            &&& steps <= 1 ==> after.port == config.port
            &&& steps <= 2 ==> after.region == config.region
            &&& steps <= 3 ==> after.auth_region == config.auth_region
            &&& steps <= 4 ==> after.api_region == config.api_region
            &&& steps <= 5 ==> after.kiro_version == config.kiro_version
            &&& steps <= 6 ==> after.machine_id == config.machine_id
            &&& steps <= 7 ==> after.api_key == config.api_key
            &&& steps <= 8 ==> after.system_version == config.system_version
            &&& steps <= 9 ==> after.node_version == config.node_version
            &&& steps <= 10 ==> after.tls_backend == config.tls_backend
            &&& steps <= 11 ==> after.count_tokens_api_url == config.count_tokens_api_url
            &&& steps <= 12 ==> after.count_tokens_api_key == config.count_tokens_api_key
            &&& steps <= 13 ==> after.count_tokens_auth_type == config.count_tokens_auth_type
            &&& steps <= 14 ==> after.proxy_url == config.proxy_url
            &&& steps <= 15 ==> after.proxy_username == config.proxy_username
            &&& steps <= 16 ==> after.proxy_password == config.proxy_password
            &&& steps <= 17 ==> after.admin_api_key == config.admin_api_key
            &&& steps <= 18 ==> after.load_balancing_mode == config.load_balancing_mode
            &&& steps <= 19 ==> after.extract_thinking == config.extract_thinking
            &&& steps <= 20 ==> after.default_endpoint == config.default_endpoint
            &&& steps <= 21 ==> after.endpoints == config.endpoints
            &&& after.config_path == config.config_path
        }),
{
}

/// A setting that must be something becomes just what its variable is set to.
pub proof fn law_texts_are_set(
    config: ConfigView,
    env: Map<Seq<char>, Seq<char>>,
    value: Seq<char>,
)
    requires
        value.len() > 0,
    ensures
        ({
            let after = settings_after_env(config, env);
            let steps = sound_steps(env, 0);
            &&& steps > 0 && is_set_to(env, "KIRO_RS_HOST"@, value) ==> after.host == value
            &&& steps > 2 && is_set_to(env, "KIRO_RS_REGION"@, value) ==> after.region == value
            &&& steps > 5 && is_set_to(env, "KIRO_RS_KIRO_VERSION"@, value) ==> after.kiro_version == value
            &&& steps > 8 && is_set_to(env, "KIRO_RS_SYSTEM_VERSION"@, value) ==> after.system_version == value
            &&& steps > 9 && is_set_to(env, "KIRO_RS_NODE_VERSION"@, value) ==> after.node_version == value
            &&& steps > 13 && is_set_to(env, "KIRO_RS_COUNT_TOKENS_AUTH_TYPE"@, value) ==> after.count_tokens_auth_type == value
            &&& steps > 20 && is_set_to(env, "KIRO_RS_DEFAULT_ENDPOINT"@, value) ==> after.default_endpoint == value
        }),
{
    law_value_of_a_variable(env, "KIRO_RS_HOST"@, value);
    law_value_of_a_variable(env, "KIRO_RS_REGION"@, value);
    law_value_of_a_variable(env, "KIRO_RS_KIRO_VERSION"@, value);
    law_value_of_a_variable(env, "KIRO_RS_SYSTEM_VERSION"@, value);
    law_value_of_a_variable(env, "KIRO_RS_NODE_VERSION"@, value);
    law_value_of_a_variable(env, "KIRO_RS_COUNT_TOKENS_AUTH_TYPE"@, value);
    law_value_of_a_variable(env, "KIRO_RS_DEFAULT_ENDPOINT"@, value);
}

/// An optional setting becomes just what its variable is set to, and is taken away where that is
/// nothing.
pub proof fn law_optional_texts_are_set(
    config: ConfigView,
    env: Map<Seq<char>, Seq<char>>,
    value: Seq<char>,
)
    requires
        value.len() > 0,
    ensures
        ({
            let after = settings_after_env(config, env);
            let steps = sound_steps(env, 0);
            &&& steps > 3 && is_set_to(env, "KIRO_RS_AUTH_REGION"@, value)
                ==> after.auth_region == Some(value)
            &&& steps > 3 && is_set_to_nothing(env, "KIRO_RS_AUTH_REGION"@)
                ==> after.auth_region is None
            &&& steps > 4 && is_set_to(env, "KIRO_RS_API_REGION"@, value)
                ==> after.api_region == Some(value)
            &&& steps > 4 && is_set_to_nothing(env, "KIRO_RS_API_REGION"@)
                ==> after.api_region is None
            &&& steps > 6 && is_set_to(env, "KIRO_RS_MACHINE_ID"@, value)
                ==> after.machine_id == Some(value)
            &&& steps > 6 && is_set_to_nothing(env, "KIRO_RS_MACHINE_ID"@)
                ==> after.machine_id is None
            &&& steps > 7 && is_set_to(env, "KIRO_RS_API_KEY"@, value)
                ==> after.api_key == Some(value)
            &&& steps > 7 && is_set_to_nothing(env, "KIRO_RS_API_KEY"@)
                ==> after.api_key is None
            &&& steps > 11 && is_set_to(env, "KIRO_RS_COUNT_TOKENS_API_URL"@, value)
                ==> after.count_tokens_api_url == Some(value)
            &&& steps > 11 && is_set_to_nothing(env, "KIRO_RS_COUNT_TOKENS_API_URL"@)
                ==> after.count_tokens_api_url is None
            &&& steps > 12 && is_set_to(env, "KIRO_RS_COUNT_TOKENS_API_KEY"@, value)
                ==> after.count_tokens_api_key == Some(value)
            &&& steps > 12 && is_set_to_nothing(env, "KIRO_RS_COUNT_TOKENS_API_KEY"@)
                ==> after.count_tokens_api_key is None
            &&& steps > 14 && is_set_to(env, "KIRO_RS_PROXY_URL"@, value)
                ==> after.proxy_url == Some(value)
            &&& steps > 14 && is_set_to_nothing(env, "KIRO_RS_PROXY_URL"@)
                ==> after.proxy_url is None
            &&& steps > 15 && is_set_to(env, "KIRO_RS_PROXY_USERNAME"@, value)
                ==> after.proxy_username == Some(value)
            &&& steps > 15 && is_set_to_nothing(env, "KIRO_RS_PROXY_USERNAME"@)
                ==> after.proxy_username is None
            &&& steps > 16 && is_set_to(env, "KIRO_RS_PROXY_PASSWORD"@, value)
                ==> after.proxy_password == Some(value)
            &&& steps > 16 && is_set_to_nothing(env, "KIRO_RS_PROXY_PASSWORD"@)
                ==> after.proxy_password is None
            &&& steps > 17 && is_set_to(env, "KIRO_RS_ADMIN_API_KEY"@, value)
                ==> after.admin_api_key == Some(value)
            &&& steps > 17 && is_set_to_nothing(env, "KIRO_RS_ADMIN_API_KEY"@)
                ==> after.admin_api_key is None
        }),
{
    law_value_of_a_variable(env, "KIRO_RS_AUTH_REGION"@, value);
    law_value_of_a_variable(env, "KIRO_RS_API_REGION"@, value);
    law_value_of_a_variable(env, "KIRO_RS_MACHINE_ID"@, value);
    law_value_of_a_variable(env, "KIRO_RS_API_KEY"@, value);
    law_value_of_a_variable(env, "KIRO_RS_COUNT_TOKENS_API_URL"@, value);
    law_value_of_a_variable(env, "KIRO_RS_COUNT_TOKENS_API_KEY"@, value);
    law_value_of_a_variable(env, "KIRO_RS_PROXY_URL"@, value);
    law_value_of_a_variable(env, "KIRO_RS_PROXY_USERNAME"@, value);
    law_value_of_a_variable(env, "KIRO_RS_PROXY_PASSWORD"@, value);
    law_value_of_a_variable(env, "KIRO_RS_ADMIN_API_KEY"@, value);
}

/// Decimal digits stand for ten times what those before the last one stand for, and the last one.
pub proof fn law_decimal(digits: Seq<char>, digit: char)
    requires
        '0' <= digit && digit <= '9',
    ensures
        decimal(digits.push(digit)) == 10 * decimal(digits) + (digit as int - 0x30),
        decimal(Seq::<char>::empty()) == 0,
{
    assert(digits.push(digit).drop_last() =~= digits);
}

/// All characters are decimal digits, and there is one at least.
pub open spec fn is_number(digits: Seq<char>) -> bool {
    digits.len() > 0 && forall|i: int|
        0 <= i < digits.len() ==> '0' <= #[trigger] digits[i] && digits[i] <= '9'
}

/// A port is read from digits, with or without a plus sign before them, where they stand for a
/// number of 16 bits, and from nothing else.
pub proof fn law_ports(digits: Seq<char>)
    ensures
        is_number(digits) && decimal(digits) <= 65535 ==> {
            &&& u16_in(digits) == Some(decimal(digits) as u16)
            &&& u16_in(seq!['+'] + digits) == Some(decimal(digits) as u16)
        },
        u16_in(digits) matches Some(number) ==> {
            let rest = if digits.len() > 0 && digits[0] == '+' {
                digits.drop_first()
            } else {
                digits
            };
            is_number(rest) && decimal(rest) == number
        },
{
    assert((seq!['+'] + digits).drop_first() =~= digits);
    assert forall|i: int| 0 <= i < digits.len() && is_number(digits) implies is_digit(
        #[trigger] digits[i],
    ) by {}
    if u16_in(digits) is Some {
        let rest = if digits.len() > 0 && digits[0] == '+' {
            digits.drop_first()
        } else {
            digits
        };
        assert forall|i: int| 0 <= i < rest.len() implies '0' <= #[trigger] rest[i] && rest[i]
            <= '9' by {
            assert(is_digit(rest[i]));
        }
    }
}

/// The port becomes the number that its variable stands for.
pub proof fn law_port_is_set(
    config: ConfigView,
    env: Map<Seq<char>, Seq<char>>,
    value: Seq<char>,
    number: u16,
)
    requires
        value.len() > 0,
        sound_steps(env, 0) > 1,
        is_set_to(env, "KIRO_RS_PORT"@, value),
        u16_in(value) == Some(number),
    ensures
        settings_after_env(config, env).port == number,
{
    law_value_of_a_variable(env, "KIRO_RS_PORT"@, value);
}

/// The backend becomes the one that its variable names, in letters of any case.
pub proof fn law_backend_is_set(
    config: ConfigView,
    env: Map<Seq<char>, Seq<char>>,
    value: Seq<char>,
)
    requires
        sound_steps(env, 0) > 10,
        is_set_to(env, "KIRO_RS_TLS_BACKEND"@, value),
    ensures
        lower(value) == "rustls"@ ==> settings_after_env(config, env).tls_backend
            == TlsBackend::Rustls,
        lower(value) == "native-tls"@ || lower(value) == "native_tls"@ || lower(value)
            == "nativetls"@ ==> settings_after_env(config, env).tls_backend
            == TlsBackend::NativeTls,
{
    law_value_of_a_variable(env, "KIRO_RS_TLS_BACKEND"@, value);
    lemma_backend_names();
    lemma_trimmed_already(value);
}

proof fn lemma_backend_names()
    ensures
        "rustls"@ != "native-tls"@,
        "rustls"@ != "native_tls"@,
        "rustls"@ != "nativetls"@,
        "rustls"@.len() > 0,
        "native-tls"@.len() > 0,
        "native_tls"@.len() > 0,
        "nativetls"@.len() > 0,
{
    reveal_strlit("rustls");
    reveal_strlit("native-tls");
    reveal_strlit("native_tls");
    reveal_strlit("nativetls");
    assert("rustls"@.len() == 6);
}

proof fn lemma_trimmed_already(value: Seq<char>)
    requires
        value.len() > 0 ==> !is_whitespace(value[0]) && !is_whitespace(value.last()),
    ensures
        trimmed(value) == value,
{
    let nothing = Seq::<char>::empty();
    law_trimmed(nothing, value, nothing);
    assert(nothing + value + nothing =~= value);
}

/// The text is one of those that say yes, in letters of any case.
pub open spec fn says_yes(value: Seq<char>) -> bool {
    let word = lower(value);
    word == "true"@ || word == "1"@ || word == "yes"@ || word == "y"@ || word == "on"@
}

/// The text is one of those that say no, in letters of any case.
pub open spec fn says_no(value: Seq<char>) -> bool {
    let word = lower(value);
    word == "false"@ || word == "0"@ || word == "no"@ || word == "n"@ || word == "off"@
}

proof fn lemma_yes_is_not_no(value: Seq<char>)
    ensures
        !(says_yes(value) && says_no(value)),
{
    reveal_strlit("true");
    reveal_strlit("1");
    reveal_strlit("yes");
    reveal_strlit("y");
    reveal_strlit("on");
    reveal_strlit("false");
    reveal_strlit("0");
    reveal_strlit("no");
    reveal_strlit("n");
    reveal_strlit("off");
    assert("true"@.len() == 4 && "1"@.len() == 1 && "yes"@.len() == 3 && "y"@.len() == 1
        && "on"@.len() == 2);
    assert("false"@.len() == 5 && "0"@.len() == 1 && "no"@.len() == 2 && "n"@.len() == 1
        && "off"@.len() == 3);
    assert("1"@[0] == '1' && "y"@[0] == 'y' && "0"@[0] == '0' && "n"@[0] == 'n');
    assert("on"@[0] == 'o' && "no"@[0] == 'n' && "yes"@[0] == 'y' && "off"@[0] == 'o');
}

/// A text without whitespace around it says yes, or no, or neither.
pub proof fn law_yes_and_no(value: Seq<char>)
    requires
        value.len() > 0 ==> !is_whitespace(value[0]) && !is_whitespace(value.last()),
    ensures
        bool_value(value) == Some(true) <==> says_yes(value),
        bool_value(value) == Some(false) <==> says_no(value),
{
    lemma_trimmed_already(value);
    lemma_yes_is_not_no(value);
}

/// Whether thinking is extracted becomes what its variable says.
pub proof fn law_thinking_is_set(
    config: ConfigView,
    env: Map<Seq<char>, Seq<char>>,
    value: Seq<char>,
)
    requires
        sound_steps(env, 0) > 19,
        is_set_to(env, "KIRO_RS_EXTRACT_THINKING"@, value),
    ensures
        says_yes(value) ==> settings_after_env(config, env).extract_thinking,
        says_no(value) ==> !settings_after_env(config, env).extract_thinking,
{
    law_value_of_a_variable(env, "KIRO_RS_EXTRACT_THINKING"@, value);
    law_yes_and_no(value);
}

/// The mode of load balancing becomes what its variable is set to.
pub proof fn law_load_balancing_is_set(
    config: ConfigView,
    env: Map<Seq<char>, Seq<char>>,
    value: Seq<char>,
)
    requires
        sound_steps(env, 0) > 18,
        is_set_to(env, "KIRO_RS_LOAD_BALANCING_MODE"@, value),
    ensures
        settings_after_env(config, env).load_balancing_mode == value,
        value == "priority"@ || value == "balanced"@,
{
    law_value_of_a_variable(env, "KIRO_RS_LOAD_BALANCING_MODE"@, value);
    law_overrides_stop_at_the_first_fault(env, 0);
    assert(error_at(env, 18) is None);
}

/// The endpoints become the members of the object that their variable holds, and are taken away
/// where it is set to nothing.
pub proof fn law_endpoints_are_set(
    config: ConfigView,
    env: Map<Seq<char>, Seq<char>>,
    value: Seq<char>,
    members: Map<Seq<char>, JsonView>,
)
    requires
        sound_steps(env, 0) > 21,
    ensures
        value.len() > 0 && is_set_to(env, "KIRO_RS_ENDPOINTS"@, value) && object_in_text(value)
            == Ok::<Map<Seq<char>, JsonView>, Seq<char>>(members) ==> settings_after_env(
            config,
            env,
        ).endpoints == members,
        is_set_to_nothing(env, "KIRO_RS_ENDPOINTS"@) ==> settings_after_env(config, env).endpoints
            == Map::<Seq<char>, JsonView>::empty(),
{
    law_value_of_a_variable(env, "KIRO_RS_ENDPOINTS"@, value);
}

/// The variable that is looked at after `step` others, and what is wrong with it: a setting that
/// must be something is set to nothing, or something cannot be read. Optional settings are never
/// at fault.
pub proof fn law_faults(env: Map<Seq<char>, Seq<char>>, value: Seq<char>)
    requires
        value.len() > 0,
    ensures
        error_at(env, 0) == if is_set_to_nothing(env, "KIRO_RS_HOST"@) {
            Some(ErrorView::Empty { key: "KIRO_RS_HOST"@ })
        } else {
            None
        },
        error_at(env, 2) == if is_set_to_nothing(env, "KIRO_RS_REGION"@) {
            Some(ErrorView::Empty { key: "KIRO_RS_REGION"@ })
        } else {
            None
        },
        error_at(env, 5) == if is_set_to_nothing(env, "KIRO_RS_KIRO_VERSION"@) {
            Some(ErrorView::Empty { key: "KIRO_RS_KIRO_VERSION"@ })
        } else {
            None
        },
        error_at(env, 8) == if is_set_to_nothing(env, "KIRO_RS_SYSTEM_VERSION"@) {
            Some(ErrorView::Empty { key: "KIRO_RS_SYSTEM_VERSION"@ })
        } else {
            None
        },
        error_at(env, 9) == if is_set_to_nothing(env, "KIRO_RS_NODE_VERSION"@) {
            Some(ErrorView::Empty { key: "KIRO_RS_NODE_VERSION"@ })
        } else {
            None
        },
        error_at(env, 13) == if is_set_to_nothing(env, "KIRO_RS_COUNT_TOKENS_AUTH_TYPE"@) {
            Some(ErrorView::Empty { key: "KIRO_RS_COUNT_TOKENS_AUTH_TYPE"@ })
        } else {
            None
        },
        error_at(env, 20) == if is_set_to_nothing(env, "KIRO_RS_DEFAULT_ENDPOINT"@) {
            Some(ErrorView::Empty { key: "KIRO_RS_DEFAULT_ENDPOINT"@ })
        } else {
            None
        },
        error_at(env, 3) is None,
        error_at(env, 4) is None,
        error_at(env, 6) is None,
        error_at(env, 7) is None,
        error_at(env, 11) is None,
        error_at(env, 12) is None,
        error_at(env, 14) is None,
        error_at(env, 15) is None,
        error_at(env, 16) is None,
        error_at(env, 17) is None,
        is_set_to_nothing(env, "KIRO_RS_PORT"@) ==> error_at(env, 1) == Some(
            ErrorView::Empty { key: "KIRO_RS_PORT"@ },
        ),
        is_set_to(env, "KIRO_RS_PORT"@, value) ==> error_at(env, 1) == if u16_in(value) is Some {
            None
        } else {
            Some(ErrorView::Invalid { key: "KIRO_RS_PORT"@, reason: u16_refusal(value) })
        },
        is_set_to_nothing(env, "KIRO_RS_TLS_BACKEND"@) ==> error_at(env, 10) == Some(
            ErrorView::Empty { key: "KIRO_RS_TLS_BACKEND"@ },
        ),
        is_set_to(env, "KIRO_RS_TLS_BACKEND"@, value) ==> error_at(env, 10) == if lower(value)
            == "rustls"@ || lower(value) == "native-tls"@ || lower(value) == "native_tls"@ || lower(
            value,
        ) == "nativetls"@ {
            None
        } else {
            Some(
                ErrorView::Invalid {
                    key: "KIRO_RS_TLS_BACKEND"@,
                    reason: "不支持的 TLS 后端: "@ + lower(value),
                },
            )
        },
        is_set_to_nothing(env, "KIRO_RS_LOAD_BALANCING_MODE"@) ==> error_at(env, 18) == Some(
            ErrorView::InvalidLoadBalancingMode,
        ),
        is_set_to(env, "KIRO_RS_LOAD_BALANCING_MODE"@, value) ==> error_at(env, 18) == if value
            == "priority"@ || value == "balanced"@ {
            None
        } else {
            Some(ErrorView::InvalidLoadBalancingMode)
        },
        is_set_to_nothing(env, "KIRO_RS_EXTRACT_THINKING"@) ==> error_at(env, 19) == Some(
            ErrorView::InvalidBool { key: "KIRO_RS_EXTRACT_THINKING"@ },
        ),
        is_set_to(env, "KIRO_RS_EXTRACT_THINKING"@, value) ==> error_at(env, 19) == if says_yes(
            value,
        ) || says_no(value) {
            None
        } else {
            Some(ErrorView::InvalidBool { key: "KIRO_RS_EXTRACT_THINKING"@ })
        },
        is_set_to_nothing(env, "KIRO_RS_ENDPOINTS"@) ==> error_at(env, 21) is None,
        is_set_to(env, "KIRO_RS_ENDPOINTS"@, value) ==> error_at(env, 21) == match object_in_text(
            value,
        ) {
            Ok(_) => None,
            Err(reason) => Some(ErrorView::InvalidEndpoints { reason }),
        },
        !env.contains_key("KIRO_RS_PORT"@) ==> error_at(env, 1) is None,
        !env.contains_key("KIRO_RS_TLS_BACKEND"@) ==> error_at(env, 10) is None,
        !env.contains_key("KIRO_RS_LOAD_BALANCING_MODE"@) ==> error_at(env, 18) is None,
        !env.contains_key("KIRO_RS_EXTRACT_THINKING"@) ==> error_at(env, 19) is None,
        !env.contains_key("KIRO_RS_ENDPOINTS"@) ==> error_at(env, 21) is None,
{
    lemma_set_to_nothing(env, "KIRO_RS_HOST"@);
    lemma_set_to_nothing(env, "KIRO_RS_REGION"@);
    lemma_set_to_nothing(env, "KIRO_RS_KIRO_VERSION"@);
    lemma_set_to_nothing(env, "KIRO_RS_SYSTEM_VERSION"@);
    lemma_set_to_nothing(env, "KIRO_RS_NODE_VERSION"@);
    lemma_set_to_nothing(env, "KIRO_RS_COUNT_TOKENS_AUTH_TYPE"@);
    lemma_set_to_nothing(env, "KIRO_RS_DEFAULT_ENDPOINT"@);
    law_value_of_a_variable(env, "KIRO_RS_PORT"@, value);
    law_value_of_a_variable(env, "KIRO_RS_TLS_BACKEND"@, value);
    law_value_of_a_variable(env, "KIRO_RS_LOAD_BALANCING_MODE"@, value);
    law_value_of_a_variable(env, "KIRO_RS_EXTRACT_THINKING"@, value);
    law_value_of_a_variable(env, "KIRO_RS_ENDPOINTS"@, value);
    if value.len() > 0 ==> !is_whitespace(value[0]) && !is_whitespace(value.last()) {
        lemma_trimmed_already(value);
        law_yes_and_no(value);
    }
    lemma_empty_words();
}

proof fn lemma_empty_words()
    ensures
        Seq::<char>::empty() != "priority"@,
        Seq::<char>::empty() != "balanced"@,
        bool_value(Seq::<char>::empty()) is None,
{
    let nothing = Seq::<char>::empty();
    reveal_strlit("priority");
    reveal_strlit("balanced");
    reveal_strlit("true");
    reveal_strlit("1");
    reveal_strlit("yes");
    reveal_strlit("y");
    reveal_strlit("on");
    reveal_strlit("false");
    reveal_strlit("0");
    reveal_strlit("no");
    reveal_strlit("n");
    reveal_strlit("off");
    assert("priority"@.len() == 8 && "balanced"@.len() == 8);
    lemma_trimmed_already(nothing);
    assert(lower(nothing).len() == 0);
    assert("true"@.len() == 4 && "1"@.len() == 1 && "yes"@.len() == 3 && "y"@.len() == 1
        && "on"@.len() == 2);
    assert("false"@.len() == 5 && "0"@.len() == 1 && "no"@.len() == 2 && "n"@.len() == 1
        && "off"@.len() == 3);
}

proof fn lemma_set_to_nothing(env: Map<Seq<char>, Seq<char>>, key: Seq<char>)
    ensures
        is_set_to_nothing(env, key) <==> env_value(env, key) == Some(Seq::<char>::empty()),
        env_value(env, key) matches Some(text) && text.len() == 0 ==> is_set_to_nothing(env, key),
{
    law_value_of_a_variable(env, key, Seq::<char>::empty());
    if let Some(text) = env_value(env, key) {
        if text.len() == 0 {
            assert(text =~= Seq::<char>::empty());
            law_empty_values(env, key);
        }
    }
}

/// A setting becomes what its variable is set to. Where that is nothing an optional setting is
/// taken away, and any other stays, as it does where the variable is not set.
pub proof fn law_one_setting(
    text: Seq<char>,
    optional: Option<Seq<char>>,
    truth: bool,
    env: Map<Seq<char>, Seq<char>>,
    key: Seq<char>,
    value: Seq<char>,
)
    requires
        value.len() > 0,
    ensures
        is_set_to(env, key, value) ==> {
            &&& string_after(text, env, key) == value
            &&& optional_after(optional, env, key) == Some(value)
            &&& non_empty_value(env, key) == Some(value)
            &&& says_yes(value) ==> bool_after(truth, env, key)
            &&& says_no(value) ==> !bool_after(truth, env, key)
        },
        is_set_to_nothing(env, key) ==> {
            &&& string_after(text, env, key) == text
            &&& optional_after(optional, env, key) is None
            &&& non_empty_value(env, key) is None
            &&& bool_after(truth, env, key) == truth
        },
        !env.contains_key(key) ==> {
            &&& string_after(text, env, key) == text
            &&& optional_after(optional, env, key) == optional
            &&& non_empty_value(env, key) is None
            &&& bool_after(truth, env, key) == truth
        },
{
    law_value_of_a_variable(env, key, value);
    lemma_empty_words();
    if is_set_to(env, key, value) {
        law_yes_and_no(value);
    }
}

/// Whitespace around the name of a backend, and around yes and no, does not matter.
pub proof fn law_whitespace_around_names(
    before: Seq<char>,
    value: Seq<char>,
    after: Seq<char>,
)
    requires
        is_blank(before),
        is_blank(after),
        value.len() > 0 ==> !is_whitespace(value[0]) && !is_whitespace(value.last()),
    ensures
        bool_value(before + value + after) == bool_value(value),
        TlsBackend::text_value(before + value + after) == TlsBackend::text_value(value),
{
    law_trimmed(before, value, after);
    lemma_trimmed_already(value);
}

/// The names of the backends are these, in letters of any case; any other text is refused.
pub proof fn law_backend_names(value: Seq<char>)
    requires
        value.len() > 0 ==> !is_whitespace(value[0]) && !is_whitespace(value.last()),
    ensures
        TlsBackend::text_value(value) == Ok::<TlsBackend, Seq<char>>(TlsBackend::Rustls)
            <==> lower(value) == "rustls"@,
        TlsBackend::text_value(value) == Ok::<TlsBackend, Seq<char>>(TlsBackend::NativeTls)
            <==> lower(value) == "native-tls"@ || lower(value) == "native_tls"@ || lower(value)
            == "nativetls"@,
        TlsBackend::text_value(value) matches Err(reason) ==> reason == "不支持的 TLS 后端: "@
            + lower(value),
{
    lemma_trimmed_already(value);
    lemma_backend_names();
}

/// A text is read as a port, or refused for the reason that reading it gives.
pub proof fn law_port_texts(value: Seq<char>)
    ensures
        u16_in(value) matches Some(number) ==> u16::text_value(value) == Ok::<u16, Seq<char>>(
            number,
        ),
        u16_in(value) is None ==> u16::text_value(value) == Err::<u16, Seq<char>>(
            u16_refusal(value),
        ),
{
}

/// The settings come from the file that is asked for; or else from the one that the environment
/// names; or else from `config.json`, or else from `config/config.json`, if they exist.
pub proof fn law_file_is_chosen(
    asked: Seq<char>,
    env: Map<Seq<char>, Seq<char>>,
    named: Seq<char>,
    default_exists: bool,
    nested_exists: bool,
)
    ensures
        selected_path(Some(asked), env, default_exists, nested_exists) == Some(asked),
        named.len() > 0 && is_set_to(env, "KIRO_RS_CONFIG"@, named) ==> selected_path(
            None,
            env,
            default_exists,
            nested_exists,
        ) == Some(named),
        !env.contains_key("KIRO_RS_CONFIG"@) || is_set_to_nothing(env, "KIRO_RS_CONFIG"@)
            ==> selected_path(None, env, default_exists, nested_exists) == if default_exists {
            Some("config.json"@)
        } else if nested_exists {
            Some("config/config.json"@)
        } else {
            None
        },
        discovered_path(default_exists, nested_exists) == if default_exists {
            Some("config.json"@)
        } else if nested_exists {
            Some("config/config.json"@)
        } else {
            None
        },
{
    law_value_of_a_variable(env, "KIRO_RS_CONFIG"@, named);
}

/// The settings before the environment are those of the file, or else the default ones.
pub proof fn law_settings_before_the_environment(
    file: Config,
    config: ConfigView,
)
    ensures
        settings_before_env(Some(file@), config) <==> config == file@,
        file_settings(Some(file)) == Some(file@),
        file_settings(None) is None,
        default_settings(config.system_version).system_version == config.system_version,
        settings_before_env(None, config) ==> {
            &&& config.system_version == "darwin#24.6.0"@ || config.system_version
                == "win32#10.0.22631"@
            &&& config.host == "127.0.0.1"@
            &&& config.port == 8080
            &&& config.region == "us-east-1"@
            &&& config.kiro_version == "0.11.107"@
            &&& config.node_version == "22.22.0"@
            &&& config.tls_backend == TlsBackend::Rustls
            &&& config.count_tokens_auth_type == "x-api-key"@
            &&& config.load_balancing_mode == "priority"@
            &&& config.extract_thinking
            &&& config.default_endpoint == "ide"@
            &&& config.endpoints == Map::<Seq<char>, JsonView>::empty()
            &&& config.config_path is None
            &&& config.auth_region is None
            &&& config.api_region is None
            &&& config.machine_id is None
            &&& config.api_key is None
            &&& config.count_tokens_api_url is None
            &&& config.count_tokens_api_key is None
            &&& config.proxy_url is None
            &&& config.proxy_username is None
            &&& config.proxy_password is None
            &&& config.admin_api_key is None
        },
{
    if settings_before_env(None, config) {
        assert(is_default(config));
        let at = choose|i: int|
            0 <= i < system_versions().len() && system_versions()[i] == config.system_version;
        assert(at == 0 || at == 1);
    }
}

/// What an optional setting, the settings, the variables and the errors are, is what they hold.
pub proof fn law_views(
    config: Config,
    text: String,
    entries: Seq<(String, String)>,
    name: String,
    env: EnvVars,
    error: ConfigError,
)
    ensures
        optional_view(Some(text)) == Some(text@),
        optional_view(None) is None,
        variables(entries.push((name, text))) == variables(entries).insert(name@, text@),
        variables(Seq::<(String, String)>::empty()) == Map::<Seq<char>, Seq<char>>::empty(),
        env@ == variables(env.entries@),
        error_of(Err(error)) == Some(error@),
        error_of(Ok(())) is None,
        config@.port == config.port,
        config@.tls_backend == config.tls_backend,
        config@.load_balancing_mode == config.load_balancing_mode@,
        config@.extract_thinking == config.extract_thinking,
        config@.endpoints == config.endpoints@,
        config@.config_path == config.config_path,
        config@.host == config.host@,
        config@.region == config.region@,
        config@.kiro_version == config.kiro_version@,
        config@.system_version == config.system_version@,
        config@.node_version == config.node_version@,
        config@.count_tokens_auth_type == config.count_tokens_auth_type@,
        config@.default_endpoint == config.default_endpoint@,
        config@.auth_region == optional_view(config.auth_region),
        config@.api_region == optional_view(config.api_region),
        config@.machine_id == optional_view(config.machine_id),
        config@.api_key == optional_view(config.api_key),
        config@.count_tokens_api_url == optional_view(config.count_tokens_api_url),
        config@.count_tokens_api_key == optional_view(config.count_tokens_api_key),
        config@.proxy_url == optional_view(config.proxy_url),
        config@.proxy_username == optional_view(config.proxy_username),
        config@.proxy_password == optional_view(config.proxy_password),
        config@.admin_api_key == optional_view(config.admin_api_key),
{
    assert(entries.push((name, text)).drop_last() =~= entries);
}

/// The messages of errors name the variable and the reason.
pub proof fn law_messages(key: Seq<char>, reason: Seq<char>)
    ensures
        error_message(ErrorView::Empty { key }) == "环境变量 "@ + key + " 不能为空"@,
        error_message(ErrorView::Invalid { key, reason }) == "解析环境变量 "@ + key + " 失败: "@
            + reason,
        error_message(ErrorView::InvalidBool { key }) == "解析环境变量 "@ + key
            + " 失败: 期望 true/false、1/0、yes/no 或 on/off"@,
        error_cause(ErrorView::InvalidEndpoints { reason }) == Some(reason),
        error_cause(ErrorView::Invalid { key, reason }) is None,
{
}

} // verus!
