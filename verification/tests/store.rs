use bloom::model::{Config, Rule, RulesError, Theme, Violation, MAX_REPLACEMENT_LEN, SCHEMA_VERSION};
use bloom::store::{config_path, find_index, find_rule, load_or_default, quarantine_path, validate};

fn rule(id: &str, trigger: &str, replacement: &str) -> Rule {
    Rule {
        id: id.to_string(),
        trigger: trigger.to_string(),
        replacement: replacement.to_string(),
        enabled: true,
        created_at: "2026-09-04T10:00:00+00:00".to_string(),
    }
}

fn config_with(rules: Vec<Rule>) -> Config {
    let mut c = Config::default();
    c.rules = rules;
    c
}

fn violation_of(c: &Config) -> Violation {
    match validate(c) {
        Err(RulesError::Validation(v)) => v,
        Err(e) => panic!("unexpected error: {}", e.message()),
        Ok(()) => panic!("configuration was accepted"),
    }
}

fn validation_message(c: &Config) -> String {
    match validate(c) {
        Err(e) => e.message(),
        Ok(()) => panic!("configuration was accepted"),
    }
}

#[test]
fn default_config_values() {
    let c = Config::default();
    assert_eq!(c.version, SCHEMA_VERSION);
    assert!(c.start_with_windows);
    assert_eq!(c.blacklist, vec!["KeePass.exe", "1password.exe", "Bitwarden.exe"]);
    assert!(c.scoped_to.is_none());
    assert_eq!(c.theme.mode, "dark");
    assert!(!c.show_debug_log);
    assert!(c.rules.is_empty());
}

#[test]
fn default_theme_is_dark() {
    assert_eq!(bloom::model::default_theme().mode, "dark");
}

#[test]
fn validate_accepts_default_and_sample_rules() {
    assert!(validate(&Config::default()).is_ok());
    let c = config_with(vec![
        rule("01A", "answer short", "Answer in short in plain English."),
        rule("01B", ";code", "Act as a senior software engineer."),
        rule("01C", "/pr", "Write a PR description."),
        rule("01D", "!!clarify", "Ask about anything ambiguous."),
    ]);
    assert!(validate(&c).is_ok());
}

#[test]
fn validate_accepts_each_theme_mode() {
    for mode in ["dark", "light", "system"] {
        let mut c = Config::default();
        c.theme = Theme { mode: mode.to_string() };
        assert!(validate(&c).is_ok(), "{mode}");
    }
}

#[test]
fn validate_rejects_other_schema_version() {
    let mut c = Config::default();
    c.version = 2;
    assert!(matches!(violation_of(&c), Violation::UnsupportedVersion(2)));
    assert_eq!(validation_message(&c), "rule validation: unsupported schema version: 2 (expected 1)");
}

#[test]
fn validate_rejects_unknown_theme() {
    let mut c = Config::default();
    c.theme = Theme { mode: "blue".to_string() };
    match violation_of(&c) {
        Violation::UnsupportedTheme(m) => assert_eq!(m, "blue"),
        _ => panic!("wrong violation"),
    }
    assert_eq!(validation_message(&c), "rule validation: unsupported theme mode: \"blue\"");
}

#[test]
fn validate_rejects_duplicate_id() {
    let c = config_with(vec![rule("X1", "a", "1"), rule("X1", "b", "2")]);
    match violation_of(&c) {
        Violation::DuplicateId(id) => assert_eq!(id, "X1"),
        _ => panic!("wrong violation"),
    }
    assert_eq!(validation_message(&c), "rule validation: duplicate id: X1");
}

#[test]
fn validate_allows_repeated_empty_ids() {
    let c = config_with(vec![rule("", "a", "1"), rule("", "b", "2")]);
    assert!(validate(&c).is_ok());
}

#[test]
fn validate_rejects_empty_trigger() {
    let c = config_with(vec![rule("X1", "", "1")]);
    assert!(matches!(violation_of(&c), Violation::EmptyTrigger));
    assert_eq!(validation_message(&c), "rule validation: trigger cannot be empty");
}

#[test]
fn validate_rejects_unnormalized_triggers() {
    for t in ["answer  short", " answer", "answer ", "answer\tshort"] {
        let c = config_with(vec![rule("X1", t, "1")]);
        match violation_of(&c) {
            Violation::UnnormalizedTrigger(got) => assert_eq!(got, t),
            _ => panic!("wrong violation for {t:?}"),
        }
    }
    let c = config_with(vec![rule("X1", "answer  short", "1")]);
    assert_eq!(
        validation_message(&c),
        "rule validation: trigger must be trimmed with single internal spaces: \"answer  short\""
    );
}

#[test]
fn validate_rejects_long_trigger() {
    let ok = "a".repeat(32);
    assert!(validate(&config_with(vec![rule("X1", &ok, "1")])).is_ok());
    let c = config_with(vec![rule("X1", &"a".repeat(33), "1")]);
    assert!(matches!(violation_of(&c), Violation::TriggerTooLong(33)));
    assert_eq!(validation_message(&c), "rule validation: trigger too long: 33 chars (max 32)");
}

#[test]
fn validate_counts_characters_not_bytes() {
    let t = "é".repeat(32);
    assert!(validate(&config_with(vec![rule("X1", &t, "1")])).is_ok());
}

#[test]
fn validate_rejects_duplicate_trigger_ignoring_case() {
    let c = config_with(vec![rule("X1", "Answer Short", "1"), rule("X2", "answer short", "2")]);
    match violation_of(&c) {
        Violation::DuplicateTrigger(t) => assert_eq!(t, "answer short"),
        _ => panic!("wrong violation"),
    }
    assert_eq!(validation_message(&c), "rule validation: duplicate trigger: \"answer short\"");
}

#[test]
fn validate_rejects_long_replacement() {
    let ok = "x".repeat(MAX_REPLACEMENT_LEN);
    assert!(validate(&config_with(vec![rule("X1", "a", &ok)])).is_ok());
    let c = config_with(vec![rule("X1", "a", &"x".repeat(4097))]);
    assert!(matches!(violation_of(&c), Violation::ReplacementTooLong(4097)));
    assert_eq!(validation_message(&c), "rule validation: replacement too long: 4097 chars (max 4096)");
}

#[test]
fn validate_reports_first_violation_in_order() {
    let mut c = config_with(vec![rule("X1", "", "1")]);
    c.version = 7;
    assert!(matches!(violation_of(&c), Violation::UnsupportedVersion(7)));
    let c = config_with(vec![rule("X1", "ok", "1"), rule("X2", "bad  one", "2"), rule("X3", "", "3")]);
    assert!(matches!(violation_of(&c), Violation::UnnormalizedTrigger(_)));
}

#[test]
fn find_index_and_find_rule_pick_first_match() {
    let c = config_with(vec![rule("A", "a", "1"), rule("B", "b", "2"), rule("C", "c", "3")]);
    assert_eq!(find_index(&c, "B"), Some(1));
    assert_eq!(find_index(&c, "Z"), None);
    assert_eq!(find_rule(&c, "C").map(|r| r.trigger.clone()), Some("c".to_string()));
    assert!(find_rule(&c, "").is_none());
    let dup = config_with(vec![rule("", "a", "1"), rule("", "b", "2")]);
    assert_eq!(find_index(&dup, ""), Some(0));
}

#[test]
fn load_or_default_without_file_gives_defaults() {
    let c = load_or_default(None).ok().unwrap();
    assert_eq!(c.blacklist.len(), 3);
    assert!(c.rules.is_empty());
    assert_eq!(c.theme.mode, "dark");
}

#[test]
fn load_or_default_validates_parsed_config() {
    let good = config_with(vec![rule("A", "a", "1")]);
    let c = load_or_default(Some(Ok(good))).ok().unwrap();
    assert_eq!(c.rules[0].id, "A");
    let mut bad = Config::default();
    bad.version = 3;
    match load_or_default(Some(Ok(bad))) {
        Err(RulesError::Validation(Violation::UnsupportedVersion(3))) => {}
        _ => panic!("expected a version violation"),
    }
}

#[test]
fn load_or_default_passes_parse_errors_on() {
    let e = serde_json::from_str::<serde_json::Value>("{").unwrap_err();
    let r = load_or_default(Some(Err(RulesError::Json(e))));
    match r {
        Err(e @ RulesError::Json(_)) => {
            assert_eq!(e.message(), "invalid JSON: EOF while parsing an object at line 1 column 1")
        }
        _ => panic!("expected the JSON error back"),
    }
    let io = std::io::Error::new(std::io::ErrorKind::NotFound, "gone");
    match load_or_default(Some(Err(RulesError::Io(io)))) {
        Err(e @ RulesError::Io(_)) => assert_eq!(e.message(), "io: gone"),
        _ => panic!("expected the io error back"),
    }
}

#[test]
fn config_path_names_rules_json_in_dir() {
    let p = config_path("/tmp/bloom");
    let expected = std::path::Path::new("/tmp/bloom").join("rules.json");
    assert_eq!(p, expected.to_string_lossy());
    assert!(p.starts_with("/tmp/bloom"));
    assert!(p.ends_with("rules.json"));
    assert_ne!(p, "/tmp/bloom");
    assert_eq!(config_path(""), "rules.json");
}

#[test]
fn quarantine_path_is_beside_the_file() {
    let p = quarantine_path("/tmp/bloom/rules.json", 1234);
    assert_eq!(p, "/tmp/bloom/rules.json.broken-1234");
    assert_eq!(quarantine_path("/", 7), "./rules.json.broken-7");
    assert_eq!(quarantine_path("other.json", 0), "other.json.broken-0");
}
