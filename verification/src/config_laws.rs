//! What holds of the settings, whatever the file and the environment say.

use crate::config::{
    env_error, error_at, is_default, is_load_balancing_mode, settings_after_env, sound_steps,
    ConfigView, OVERRIDES,
};
use vstd::prelude::*;

verus! {

proof fn lemma_sound_steps(env: Map<Seq<char>, Seq<char>>, step: int)
    requires
        0 <= step <= OVERRIDES,
    ensures
        step <= sound_steps(env, step) <= OVERRIDES,
        sound_steps(env, step) < OVERRIDES ==> error_at(env, sound_steps(env, step)) is Some,
        forall|i: int|
            step <= i < sound_steps(env, step) ==> #[trigger] error_at(env, i) is None,
    decreases OVERRIDES - step,
{
    if step < OVERRIDES && error_at(env, step) is None {
        lemma_sound_steps(env, step + 1);
    }
}

/// The environment is refused if and only if one of its variables is at fault, and then for the
/// first of them.
pub proof fn law_first_fault_is_reported(env: Map<Seq<char>, Seq<char>>)
    ensures
        env_error(env) is None <==> forall|step: int|
            0 <= step < OVERRIDES ==> #[trigger] error_at(env, step) is None,
        env_error(env) is Some ==> exists|step: int|
            0 <= step < OVERRIDES && #[trigger] error_at(env, step) == env_error(env) && forall|
                earlier: int,
            |
                0 <= earlier < step ==> #[trigger] error_at(env, earlier) is None,
{
    lemma_sound_steps(env, 0);
}

/// A setting whose variable is not set stays as it was.
pub proof fn law_unset_variables_change_nothing(
    config: ConfigView,
    env: Map<Seq<char>, Seq<char>>,
)
    ensures
        ({
            let after = settings_after_env(config, env);
            &&& !env.contains_key("KIRO_RS_HOST"@) ==> after.host == config.host
            &&& !env.contains_key("KIRO_RS_PORT"@) ==> after.port == config.port
            &&& !env.contains_key("KIRO_RS_REGION"@) ==> after.region == config.region
            &&& !env.contains_key("KIRO_RS_AUTH_REGION"@)
                ==> after.auth_region == config.auth_region
            &&& !env.contains_key("KIRO_RS_API_REGION"@) ==> after.api_region == config.api_region
            &&& !env.contains_key("KIRO_RS_KIRO_VERSION"@)
                ==> after.kiro_version == config.kiro_version
            &&& !env.contains_key("KIRO_RS_MACHINE_ID"@) ==> after.machine_id == config.machine_id
            &&& !env.contains_key("KIRO_RS_API_KEY"@) ==> after.api_key == config.api_key
            &&& !env.contains_key("KIRO_RS_SYSTEM_VERSION"@)
                ==> after.system_version == config.system_version
            &&& !env.contains_key("KIRO_RS_NODE_VERSION"@)
                ==> after.node_version == config.node_version
            &&& !env.contains_key("KIRO_RS_TLS_BACKEND"@)
                ==> after.tls_backend == config.tls_backend
            &&& !env.contains_key("KIRO_RS_COUNT_TOKENS_API_URL"@)
                ==> after.count_tokens_api_url == config.count_tokens_api_url
            &&& !env.contains_key("KIRO_RS_COUNT_TOKENS_API_KEY"@)
                ==> after.count_tokens_api_key == config.count_tokens_api_key
            &&& !env.contains_key("KIRO_RS_COUNT_TOKENS_AUTH_TYPE"@)
                ==> after.count_tokens_auth_type == config.count_tokens_auth_type
            &&& !env.contains_key("KIRO_RS_PROXY_URL"@) ==> after.proxy_url == config.proxy_url
            &&& !env.contains_key("KIRO_RS_PROXY_USERNAME"@)
                ==> after.proxy_username == config.proxy_username
            &&& !env.contains_key("KIRO_RS_PROXY_PASSWORD"@)
                ==> after.proxy_password == config.proxy_password
            &&& !env.contains_key("KIRO_RS_ADMIN_API_KEY"@)
                ==> after.admin_api_key == config.admin_api_key
            &&& !env.contains_key("KIRO_RS_LOAD_BALANCING_MODE"@)
                ==> after.load_balancing_mode == config.load_balancing_mode
            &&& !env.contains_key("KIRO_RS_EXTRACT_THINKING"@)
                ==> after.extract_thinking == config.extract_thinking
            &&& !env.contains_key("KIRO_RS_DEFAULT_ENDPOINT"@)
                ==> after.default_endpoint == config.default_endpoint
            &&& !env.contains_key("KIRO_RS_ENDPOINTS"@) ==> after.endpoints == config.endpoints
            &&& after.config_path == config.config_path
        }),
{
}

/// Where no variable is at fault, a setting whose variable is set does not depend on what it was.
pub proof fn law_set_variables_decide(
    config: ConfigView,
    other: ConfigView,
    env: Map<Seq<char>, Seq<char>>,
)
    requires
        env_error(env) is None,
    ensures
        ({
            let after = settings_after_env(config, env);
            let same = settings_after_env(other, env);
            &&& env.contains_key("KIRO_RS_HOST"@) ==> after.host == same.host
            &&& env.contains_key("KIRO_RS_PORT"@) ==> after.port == same.port
            &&& env.contains_key("KIRO_RS_REGION"@) ==> after.region == same.region
            &&& env.contains_key("KIRO_RS_AUTH_REGION"@) ==> after.auth_region == same.auth_region
            &&& env.contains_key("KIRO_RS_API_REGION"@) ==> after.api_region == same.api_region
            &&& env.contains_key("KIRO_RS_KIRO_VERSION"@)
                ==> after.kiro_version == same.kiro_version
            &&& env.contains_key("KIRO_RS_MACHINE_ID"@) ==> after.machine_id == same.machine_id
            &&& env.contains_key("KIRO_RS_API_KEY"@) ==> after.api_key == same.api_key
            &&& env.contains_key("KIRO_RS_SYSTEM_VERSION"@)
                ==> after.system_version == same.system_version
            &&& env.contains_key("KIRO_RS_NODE_VERSION"@)
                ==> after.node_version == same.node_version
            &&& env.contains_key("KIRO_RS_TLS_BACKEND"@) ==> after.tls_backend == same.tls_backend
            &&& env.contains_key("KIRO_RS_COUNT_TOKENS_API_URL"@)
                ==> after.count_tokens_api_url == same.count_tokens_api_url
            &&& env.contains_key("KIRO_RS_COUNT_TOKENS_API_KEY"@)
                ==> after.count_tokens_api_key == same.count_tokens_api_key
            &&& env.contains_key("KIRO_RS_COUNT_TOKENS_AUTH_TYPE"@)
                ==> after.count_tokens_auth_type == same.count_tokens_auth_type
            &&& env.contains_key("KIRO_RS_PROXY_URL"@) ==> after.proxy_url == same.proxy_url
            &&& env.contains_key("KIRO_RS_PROXY_USERNAME"@)
                ==> after.proxy_username == same.proxy_username
            &&& env.contains_key("KIRO_RS_PROXY_PASSWORD"@)
                ==> after.proxy_password == same.proxy_password
            &&& env.contains_key("KIRO_RS_ADMIN_API_KEY"@)
                ==> after.admin_api_key == same.admin_api_key
            &&& env.contains_key("KIRO_RS_LOAD_BALANCING_MODE"@)
                ==> after.load_balancing_mode == same.load_balancing_mode
            &&& env.contains_key("KIRO_RS_EXTRACT_THINKING"@)
                ==> after.extract_thinking == same.extract_thinking
            &&& env.contains_key("KIRO_RS_DEFAULT_ENDPOINT"@)
                ==> after.default_endpoint == same.default_endpoint
            &&& env.contains_key("KIRO_RS_ENDPOINTS"@) ==> after.endpoints == same.endpoints
        }),
{
    lemma_sound_steps(env, 0);
    assert(error_at(env, 0) is None);
    assert(error_at(env, 1) is None);
    assert(error_at(env, 2) is None);
    assert(error_at(env, 5) is None);
    assert(error_at(env, 8) is None);
    assert(error_at(env, 9) is None);
    assert(error_at(env, 10) is None);
    assert(error_at(env, 13) is None);
    assert(error_at(env, 18) is None);
    assert(error_at(env, 19) is None);
    assert(error_at(env, 20) is None);
    assert(error_at(env, 21) is None);
}

/// An environment that sets nothing is accepted and changes nothing.
pub proof fn law_empty_environment_changes_nothing(config: ConfigView)
    ensures
        env_error(Map::empty()) is None,
        settings_after_env(config, Map::empty()) == config,
{
    let env = Map::<Seq<char>, Seq<char>>::empty();
    lemma_sound_steps(env, 0);
    law_unset_variables_change_nothing(config, env);
}

/// To override the settings by one environment twice is to do it once.
pub proof fn law_overriding_twice(config: ConfigView, env: Map<Seq<char>, Seq<char>>)
    ensures
        settings_after_env(settings_after_env(config, env), env) == settings_after_env(config, env),
{
}

/// The settings can be used: those that must be something are, and there is such a mode of load
/// balancing.
pub open spec fn is_usable(config: ConfigView) -> bool {
    &&& config.host.len() > 0
    &&& config.region.len() > 0
    &&& config.kiro_version.len() > 0
    &&& config.system_version.len() > 0
    &&& config.node_version.len() > 0
    &&& config.count_tokens_auth_type.len() > 0
    &&& config.default_endpoint.len() > 0
    &&& is_load_balancing_mode(config.load_balancing_mode)
}

/// The default settings can be used.
pub proof fn law_defaults_are_usable(config: ConfigView)
    requires
        is_default(config),
    ensures
        is_usable(config),
{
    reveal_strlit("127.0.0.1");
    reveal_strlit("us-east-1");
    reveal_strlit("0.11.107");
    reveal_strlit("22.22.0");
    reveal_strlit("x-api-key");
    reveal_strlit("ide");
    reveal_strlit("darwin#24.6.0");
    reveal_strlit("win32#10.0.22631");
}

/// No environment makes settings that can be used into ones that cannot.
pub proof fn law_overrides_keep_settings_usable(
    config: ConfigView,
    env: Map<Seq<char>, Seq<char>>,
)
    requires
        is_usable(config),
    ensures
        is_usable(settings_after_env(config, env)),
{
}

} // verus!
