use mist::EnvMap;

fn env_of(pairs: &[(&str, &str)]) -> EnvMap {
    EnvMap { vars: pairs.iter().map(|(k, v)| (k.to_string(), v.to_string())).collect() }
}

#[test]
fn expands_a_set_placeholder() {
    let env = env_of(&[("HOME", "/users/me")]);
    assert_eq!(mist::expand_env_vars("%HOME%/cache", &env), "/users/me/cache");
}

#[test]
fn keeps_an_unset_placeholder() {
    let env = env_of(&[]);
    assert_eq!(mist::expand_env_vars("%UNSET%/x", &env), "%UNSET%/x");
}

#[test]
fn expands_several_placeholders() {
    let env = env_of(&[("A", "1"), ("B", "2")]);
    assert_eq!(mist::expand_env_vars("%A%-%B%-%A%", &env), "1-2-1");
}

#[test]
fn no_placeholder_is_unchanged() {
    let env = env_of(&[("HOME", "/users/me")]);
    assert_eq!(mist::expand_env_vars("C:\\Temp\\cache", &env), "C:\\Temp\\cache");
}

#[test]
fn empty_token_keeps_both_signs() {
    let env = env_of(&[("X", "v")]);
    assert_eq!(mist::expand_env_vars("a%%b", &env), "a%%b");
    // After an empty pair the second sign can still open a real token.
    assert_eq!(mist::expand_env_vars("%%X%", &env), "%v");
}

#[test]
fn unclosed_sign_is_kept() {
    let env = env_of(&[("HOME", "/users/me")]);
    assert_eq!(mist::expand_env_vars("50% done", &env), "50% done");
}

#[test]
fn first_entry_wins_on_duplicates() {
    let env = env_of(&[("D", "first"), ("D", "second")]);
    assert_eq!(mist::expand_env_vars("%D%", &env), "first");
}

#[test]
fn value_is_not_rescanned() {
    let env = env_of(&[("A", "%B%"), ("B", "x")]);
    assert_eq!(mist::expand_env_vars("%A%", &env), "%B%");
}
