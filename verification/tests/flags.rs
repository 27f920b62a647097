use opto_sync_web_server::env_map::{merge_env, value, EnvMap};
use opto_sync_web_server::flags::{
    admit_parsed_flags, apply_cli_flags_from, DomainConfig, DOMAIN_CONFIG_SOURCE,
};

fn no_flags() -> Result<EnvMap, String> {
    admit_parsed_flags(Vec::new(), Vec::new(), EnvMap::new())
}

#[test]
fn domain_manifest_controls_runtime_default() {
    let env = apply_cli_flags_from(Some(".cli-flags.toml"), EnvMap::new(), no_flags())
        .expect("embedded Opto Sync config must be executable");
    assert_eq!(value(&env, "OPTO_SYNC_WEB_BIND"), Some("127.0.0.1:8081"));
}

#[test]
fn cli_overrides_merge_into_map_without_mutating_process_env() {
    let mut initial = EnvMap::new();
    initial.insert("ENV_MAP_PROBE".into(), "before".into());
    let env = apply_cli_flags_from(Some(".cli-flags.toml"), initial, no_flags()).expect("valid flags");
    assert_eq!(value(&env, "ENV_MAP_PROBE"), Some("before"));
}

#[test]
fn domain_manifest_rejects_wrong_mode_and_secret_defaults() {
    let wrong_mode = DOMAIN_CONFIG_SOURCE.replacen("mode = \"server\"", "mode = \"client\"", 1);
    assert!(DomainConfig::parse(&wrong_mode).is_err());
    let secret_default = DOMAIN_CONFIG_SOURCE.replacen(
        "secret = false\ndefault = \"127.0.0.1:8081\"",
        "secret = true\ndefault = \"plaintext\"",
        1,
    );
    assert!(DomainConfig::parse(&secret_default).is_err());
}

#[test]
fn parse_failure_does_not_mutate_process_environment() {
    let mut initial = EnvMap::new();
    initial.insert("ENV_MAP_PROBE".into(), "keep".into());
    let parsed = admit_parsed_flags(
        vec!["--this-flag-is-not-declared".to_string()],
        Vec::new(),
        EnvMap::new(),
    );
    assert!(apply_cli_flags_from(Some(".cli-flags.toml"), initial, parsed).is_err());
}

// Further cases.

fn config(bindings: &str) -> String {
    format!(
        "version = 1\nmode = \"server\"\nstrict = true\n[flags2env]\ncontract = \".cli-flags.toml\"\nrequire_audit = true\nprecedence = \"argv-over-env\"\n{bindings}"
    )
}

fn parse_err(source: &str) -> String {
    DomainConfig::parse(source).expect_err("configuration must be refused")
}

#[test]
fn embedded_config_parses_and_selects_contract() {
    let domain = DomainConfig::embedded().expect("embedded config parses");
    assert_eq!(domain.contract(), ".cli-flags.toml");
}

#[test]
fn comments_and_unknown_tables_are_ignored() {
    let source = config("# a comment\n[other]\nanything = \"x\" # trailing\n[[env]]\nname = \"a_b\" # note\nkey = \"A_B\"\nkind = \"url\"\nrequired = false\nsecret = true\n");
    assert!(DomainConfig::parse(&source).is_ok());
}

#[test]
fn hash_inside_quotes_is_not_a_comment() {
    let source = config("[[env]]\nname = \"n\"\nkey = \"K\"\nkind = \"string\"\nrequired = false\nsecret = false\ndefault = \"a#b\"\n");
    assert!(DomainConfig::parse(&source).is_ok());
}

#[test]
fn crlf_lines_are_accepted() {
    let source = config("").replace('\n', "\r\n");
    assert!(DomainConfig::parse(&source).is_ok());
}

#[test]
fn plus_signed_version_is_an_integer() {
    let source = config("").replacen("version = 1", "version = +1", 1);
    assert!(DomainConfig::parse(&source).is_ok());
}

#[test]
fn invalid_scalars_are_refused() {
    assert_eq!(
        parse_err(&config("").replacen("version = 1", "version = one", 1)),
        ".opto-sync.toml contains an invalid integer"
    );
    assert_eq!(
        parse_err(&config("").replacen("version = 1", "version = 99999999999", 1)),
        ".opto-sync.toml contains an invalid integer"
    );
    assert_eq!(
        parse_err(&config("").replacen("strict = true", "strict = yes", 1)),
        ".opto-sync.toml contains an invalid boolean"
    );
    assert_eq!(
        parse_err(&config("").replacen("mode = \"server\"", "mode = server", 1)),
        ".opto-sync.toml common envelope requires quoted strings"
    );
    assert_eq!(
        parse_err(&config("").replacen("mode = \"server\"", "mode = \"\"", 1)),
        ".opto-sync.toml contains an unsafe string"
    );
}

#[test]
fn quoting_errors_are_refused() {
    assert_eq!(
        parse_err(&config("").replacen("mode = \"server\"", "mode = \"ser\\ver\"", 1)),
        ".opto-sync.toml common envelope does not permit escaped strings"
    );
    assert_eq!(
        parse_err(&config("").replacen("mode = \"server\"", "mode = \"server", 1)),
        ".opto-sync.toml has an unterminated string"
    );
}

#[test]
fn structural_errors_are_refused() {
    assert_eq!(parse_err(&config("just words\n")), ".opto-sync.toml is invalid");
    assert_eq!(
        parse_err(&config("").replacen("strict = true", "strict = true\nstrict = true", 1)),
        ".opto-sync.toml contains a duplicate field"
    );
    assert_eq!(
        parse_err(&config("").replacen("mode = \"server\"", "mode = \"client\"", 1)),
        ".opto-sync.toml must be strict version-1 server config"
    );
    assert_eq!(
        parse_err("version = 1\nmode = \"server\"\nstrict = true\n"),
        ".opto-sync.toml has no flags contract"
    );
    assert_eq!(
        parse_err(&config("").replacen("argv-over-env", "env-over-argv", 1)),
        ".opto-sync.toml must select audited .cli-flags.toml with argv-over-env precedence"
    );
    assert_eq!(parse_err("a = \"\0\""), ".opto-sync.toml is invalid");
    assert_eq!(parse_err(&"#".repeat(70_000)), ".opto-sync.toml is invalid");
}

#[test]
fn binding_errors_name_the_binding() {
    let complete = "name = \"web\"\nkey = \"WEB\"\nkind = \"string\"\nrequired = true\nsecret = false\n";
    assert_eq!(
        parse_err(&config("[[env]]\nkey = \"WEB\"\n")),
        ".opto-sync.toml env binding has no name"
    );
    assert_eq!(
        parse_err(&config("[[env]]\nname = \"web\"\n")),
        ".opto-sync.toml binding web has no key"
    );
    assert_eq!(
        parse_err(&config("[[env]]\nname = \"web\"\nkey = \"WEB\"\nkind = \"string\"\nrequired = true\n")),
        ".opto-sync.toml binding web has no secret flag"
    );
    assert_eq!(
        parse_err(&config(&format!("[[env]]\n{complete}secret = true\n"))),
        ".opto-sync.toml contains a duplicate field"
    );
    assert_eq!(
        parse_err(&config("[[env]]\nname = \"Web\"\nkey = \"WEB\"\nkind = \"string\"\nrequired = true\nsecret = false\n")),
        ".opto-sync.toml binding Web is invalid"
    );
    assert_eq!(
        parse_err(&config("[[env]]\nname = \"web\"\nkey = \"WEB\"\nkind = \"float\"\nrequired = true\nsecret = false\n")),
        ".opto-sync.toml binding web is invalid"
    );
    assert_eq!(
        parse_err(&config(&format!("[[env]]\n{complete}[[env]]\nname = \"other\"\nkey = \"WEB\"\nkind = \"json\"\nrequired = false\nsecret = false\n"))),
        ".opto-sync.toml binding other is duplicated or aliases another binding"
    );
    assert_eq!(
        parse_err(&config("[[env]]\nname = \"token\"\nkey = \"TOKEN\"\nkind = \"string\"\nrequired = true\nsecret = true\ndefault = \"x\"\n")),
        ".opto-sync.toml secret binding token may not have a plaintext default"
    );
}

#[test]
fn required_binding_without_value_or_default_is_missing() {
    let domain = DomainConfig::parse(&config("[[env]]\nname = \"token\"\nkey = \"TOKEN\"\nkind = \"string\"\nrequired = true\nsecret = true\n")).expect("valid");
    let mut env = EnvMap::new();
    assert_eq!(
        domain.apply(&mut env),
        Err(".opto-sync.toml required binding token is missing".to_string())
    );
    let mut present = EnvMap::new();
    present.insert("TOKEN".into(), "s3cret".into());
    assert_eq!(domain.apply(&mut present), Ok(()));
    assert_eq!(value(&present, "TOKEN"), Some("s3cret"));
}

#[test]
fn blank_value_is_replaced_by_default_and_present_value_kept() {
    let domain = DomainConfig::embedded().expect("embedded config parses");
    let mut blank = EnvMap::new();
    blank.insert("OPTO_SYNC_WEB_BIND".into(), " \t".into());
    domain.apply(&mut blank).expect("default applies");
    assert_eq!(value(&blank, "OPTO_SYNC_WEB_BIND"), Some("127.0.0.1:8081"));
    let mut set = EnvMap::new();
    set.insert("OPTO_SYNC_WEB_BIND".into(), "0.0.0.0:9000".into());
    domain.apply(&mut set).expect("value kept");
    assert_eq!(value(&set, "OPTO_SYNC_WEB_BIND"), Some("0.0.0.0:9000"));
}

#[test]
fn argv_flags_take_precedence_over_environment() {
    let mut initial = EnvMap::new();
    initial.insert("OPTO_SYNC_WEB_BIND".into(), "10.0.0.1:1".into());
    initial.insert("KEEP".into(), "yes".into());
    let mut flags = EnvMap::new();
    flags.insert("OPTO_SYNC_WEB_BIND".into(), "10.0.0.2:2".into());
    let env = apply_cli_flags_from(Some(".cli-flags.toml"), initial, Ok(flags)).expect("valid");
    assert_eq!(value(&env, "OPTO_SYNC_WEB_BIND"), Some("10.0.0.2:2"));
    assert_eq!(value(&env, "KEEP"), Some("yes"));
}

#[test]
fn merge_env_prefers_overrides() {
    let mut base = EnvMap::new();
    base.insert("A".into(), "1".into());
    base.insert("B".into(), "2".into());
    let mut over = EnvMap::new();
    over.insert("B".into(), "3".into());
    over.insert("C".into(), "4".into());
    let merged = merge_env(base, over);
    assert_eq!(value(&merged, "A"), Some("1"));
    assert_eq!(value(&merged, "B"), Some("3"));
    assert_eq!(value(&merged, "C"), Some("4"));
    assert_eq!(value(&merged, "D"), None);
}

#[test]
fn env_map_insert_returns_replaced_value() {
    let mut env = EnvMap::new();
    assert_eq!(env.insert("K".into(), "1".into()), None);
    assert_eq!(env.insert("K".into(), "2".into()), Some("1".to_string()));
    assert_eq!(env.get("K"), Some(&"2".to_string()));
}

#[test]
fn wrong_contract_path_is_refused() {
    assert_eq!(
        apply_cli_flags_from(Some("other.toml"), EnvMap::new(), no_flags()).err(),
        Some(".opto-sync.toml flags2env contract does not match the executable contract path".to_string())
    );
    assert!(apply_cli_flags_from(None, EnvMap::new(), no_flags()).is_err());
}

#[test]
fn parser_findings_are_reported_in_order() {
    assert_eq!(
        admit_parsed_flags(vec!["--a".into(), "--b".into()], vec!["x".into()], EnvMap::new()).err(),
        Some("unknown command-line option(s): --a, --b".to_string())
    );
    assert_eq!(
        admit_parsed_flags(Vec::new(), vec!["x bad".into(), "y bad".into()], EnvMap::new()).err(),
        Some("invalid command-line value(s): x bad; y bad".to_string())
    );
    let mut flags = EnvMap::new();
    flags.insert("F".into(), "v".into());
    let admitted = admit_parsed_flags(Vec::new(), Vec::new(), flags).expect("clean");
    assert_eq!(value(&admitted, "F"), Some("v"));
}

#[test]
fn parse_refuses_the_text_outside_any_table_key() {
    let source = config("[[env]]\n= \"x\"\n");
    assert!(DomainConfig::parse(&source).is_err());
}

#[test]
fn applying_twice_changes_nothing() {
    let domain = DomainConfig::embedded().expect("embedded config parses");
    let mut env = EnvMap::new();
    env.insert("OTHER".into(), "x".into());
    domain.apply(&mut env).expect("first application");
    let first = (value(&env, "OPTO_SYNC_WEB_BIND").map(str::to_string), value(&env, "OTHER").map(str::to_string));
    domain.apply(&mut env).expect("second application");
    let second = (value(&env, "OPTO_SYNC_WEB_BIND").map(str::to_string), value(&env, "OTHER").map(str::to_string));
    assert_eq!(first, second);
    assert_eq!(second.0.as_deref(), Some("127.0.0.1:8081"));
}

#[test]
fn appending_a_comment_line_changes_nothing() {
    let base = DomainConfig::parse(DOMAIN_CONFIG_SOURCE).expect("embedded config parses");
    let longer = format!("{DOMAIN_CONFIG_SOURCE}   # trailing note\r\n");
    assert_eq!(DomainConfig::parse(&longer), Ok(base));
}

#[test]
fn blank_and_comment_lines_after_unterminated_last_line_change_nothing() {
    let source = DOMAIN_CONFIG_SOURCE.trim_end_matches('\n');
    let base = DomainConfig::parse(source);
    assert!(base.is_ok());
    let longer = format!("{source}\n\n# comment\n");
    assert_eq!(DomainConfig::parse(&longer), base);
    let with_cr = format!("{source}\r\n  \n");
    assert_eq!(DomainConfig::parse(&with_cr), base);
}
