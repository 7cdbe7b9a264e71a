use mediator::environment::{EnvError, EnvironmentLoader};

fn parse(line: &str) -> Option<(String, String)> {
    let bytes: Vec<u8> = line.as_bytes().to_vec();
    EnvironmentLoader::parse_env_line(&bytes).map(|(k, v)| {
        (String::from_utf8(k).unwrap(), String::from_utf8(v).unwrap())
    })
}

fn bool_of(value: Option<&str>, default: Option<bool>, required: bool) -> Result<bool, EnvError> {
    EnvironmentLoader::validate_bool(
        value.map(|v| v.as_bytes().to_vec()),
        default,
        required,
    )
}

#[test]
fn loader_remembers_its_path() {
    let loader = EnvironmentLoader::new(".env");
    assert_eq!(loader.path, ".env");
}

#[test]
fn plain_pair_parses() {
    assert_eq!(parse("KEY=value"), Some(("KEY".to_string(), "value".to_string())));
}

#[test]
fn pair_is_trimmed_and_unquoted() {
    assert_eq!(parse("  HOST =  \"127.0.0.1\"  "), Some(("HOST".to_string(), "127.0.0.1".to_string())));
    assert_eq!(parse("NAME='svc'"), Some(("NAME".to_string(), "svc".to_string())));
}

#[test]
fn value_keeps_later_equals_signs() {
    assert_eq!(parse("KEY=a=b"), Some(("KEY".to_string(), "a=b".to_string())));
}

#[test]
fn comments_and_blanks_carry_nothing() {
    assert_eq!(parse("# a comment"), None);
    assert_eq!(parse("   "), None);
    assert_eq!(parse(""), None);
}

#[test]
fn line_without_equals_carries_nothing() {
    assert_eq!(parse("no_equals_here"), None);
}

#[test]
fn boolean_words_are_read_case_insensitively() {
    assert_eq!(bool_of(Some("TRUE"), None, false), Ok(true));
    assert_eq!(bool_of(Some("YeS"), None, false), Ok(true));
    assert_eq!(bool_of(Some("1"), None, false), Ok(true));
    assert_eq!(bool_of(Some("on"), None, false), Ok(true));
    assert_eq!(bool_of(Some("False"), None, false), Ok(false));
    assert_eq!(bool_of(Some("0"), None, false), Ok(false));
    assert_eq!(bool_of(Some("NO"), None, false), Ok(false));
    assert_eq!(bool_of(Some("off"), None, false), Ok(false));
}

#[test]
fn non_boolean_word_is_an_error() {
    assert_eq!(bool_of(Some("banana"), Some(true), true), Err(EnvError::NotBoolean));
}

#[test]
fn unset_value_falls_back() {
    assert_eq!(bool_of(None, None, true), Err(EnvError::MissingRequired));
    assert_eq!(bool_of(None, Some(true), false), Ok(true));
    assert_eq!(bool_of(None, None, false), Err(EnvError::NoDefault));
}

#[test]
fn empty_value_falls_back_like_an_unset_one() {
    assert_eq!(bool_of(Some(""), Some(false), false), Ok(false));
    assert_eq!(bool_of(Some(""), None, true), Err(EnvError::MissingRequired));
}

#[test]
fn resolve_default_matches_the_fallback_rules() {
    assert_eq!(EnvironmentLoader::resolve_default::<u16>(Some(8080), true), Err(EnvError::MissingRequired));
    assert_eq!(EnvironmentLoader::resolve_default::<u16>(Some(8080), false), Ok(8080));
    assert_eq!(EnvironmentLoader::resolve_default::<u16>(None, false), Err(EnvError::NoDefault));
}
