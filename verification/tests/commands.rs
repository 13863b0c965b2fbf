use bloom::commands::{
    add_rule, add_rule_as, app_meta, delete_rule, export_target, get_config, import_json, merge_import,
    save_all, update_rule, validate_rule_fields, CommandError,
};
use bloom::model::{Config, Rule, Theme, Violation};

fn rule(id: &str, trigger: &str, replacement: &str) -> Rule {
    Rule {
        id: id.to_string(),
        trigger: trigger.to_string(),
        replacement: replacement.to_string(),
        enabled: true,
        created_at: "2026-09-04T10:00:00+00:00".to_string(),
    }
}

fn config_with(rules: Vec<Rule>) -> Config {
    let mut c = Config::default();
    c.rules = rules;
    c
}

fn triggers(c: &Config) -> Vec<String> {
    c.rules.iter().map(|r| r.trigger.clone()).collect()
}

#[test]
fn validate_rule_fields_normalizes_trigger() {
    let mut r = rule("", "  answer \t  short  ", "x");
    assert!(validate_rule_fields(&mut r).is_ok());
    assert_eq!(r.trigger, "answer short");
    let mut blank = rule("", " \t ", "x");
    assert!(matches!(validate_rule_fields(&mut blank), Err(CommandError::EmptyTrigger)));
    assert_eq!(blank.trigger, "");
}

#[test]
fn validate_rule_fields_limits() {
    let mut long = rule("", &"a".repeat(33), "x");
    assert!(matches!(validate_rule_fields(&mut long), Err(CommandError::TriggerTooLong)));
    let mut long_rep = rule("", "a", &"x".repeat(4097));
    assert!(matches!(validate_rule_fields(&mut long_rep), Err(CommandError::ReplacementTooLong)));
    let mut edge = rule("", &"a".repeat(32), &"x".repeat(4096));
    assert!(validate_rule_fields(&mut edge).is_ok());
}

#[test]
fn add_rule_assigns_fresh_id_and_normalizes() {
    let mut c = Config::default();
    let mut r = rule("__new_1", "  answer   short ", "Answer in short in plain English.");
    r.created_at = String::new();
    let out = add_rule(&mut c, r).ok().unwrap();
    assert_eq!(out.rules.len(), 1);
    let added = &out.rules[0];
    assert_eq!(added.trigger, "answer short");
    assert_eq!(added.id.len(), 26);
    assert_ne!(added.id, "__new_1");
    assert!(!added.created_at.is_empty());
    assert_eq!(c.rules.len(), 1);
    assert_eq!(c.rules[0].id, added.id);
}

#[test]
fn add_rule_keeps_given_creation_time() {
    let mut c = Config::default();
    let out = add_rule(&mut c, rule("", "x", "y")).ok().unwrap();
    assert_eq!(out.rules[0].created_at, "2026-09-04T10:00:00+00:00");
}

#[test]
fn add_rule_as_uses_given_id_and_stamp() {
    let mut c = Config::default();
    let mut r = rule("draft", ";test", "body");
    r.created_at = String::new();
    let out = add_rule_as(&mut c, r, "01ID".to_string(), "STAMP".to_string()).ok().unwrap();
    assert_eq!(out.rules[0].id, "01ID");
    assert_eq!(out.rules[0].created_at, "STAMP");
    assert_eq!(out.rules[0].trigger, ";test");
}

#[test]
fn add_rule_rejects_duplicate_trigger_ignoring_case() {
    let mut c = config_with(vec![rule("A", "answer short", "1")]);
    let e = add_rule(&mut c, rule("", "Answer   Short", "2")).err().unwrap();
    match &e {
        CommandError::DuplicateTrigger(t) => assert_eq!(t, "Answer Short"),
        _ => panic!("wrong error"),
    }
    assert_eq!(e.message(), "duplicate trigger: \"Answer Short\"");
    assert_eq!(c.rules.len(), 1);
}

#[test]
fn add_rule_refusals_leave_config_alone() {
    let mut c = config_with(vec![rule("A", "a", "1")]);
    let e = add_rule(&mut c, rule("", "   ", "2")).err().unwrap();
    assert_eq!(e.message(), "trigger cannot be empty");
    let e = add_rule(&mut c, rule("", &"b".repeat(40), "2")).err().unwrap();
    assert_eq!(e.message(), "trigger too long (max 32)");
    let e = add_rule(&mut c, rule("", "b", &"z".repeat(5000))).err().unwrap();
    assert_eq!(e.message(), "replacement too long (max 4096)");
    assert_eq!(triggers(&c), vec!["a"]);
}

#[test]
fn update_rule_replaces_in_place() {
    let mut c = config_with(vec![rule("A", "a", "1"), rule("B", "b", "2"), rule("C", "c", "3")]);
    let out = update_rule(&mut c, "B".to_string(), rule("B", "  B  two ", "new")).ok().unwrap();
    assert_eq!(triggers(&out), vec!["a", "B two", "c"]);
    assert_eq!(out.rules[1].replacement, "new");
    assert_eq!(out.rules[1].id, "B");
}

#[test]
fn update_rule_may_change_case_of_own_trigger() {
    let mut c = config_with(vec![rule("A", "abc", "1")]);
    assert!(update_rule(&mut c, "A".to_string(), rule("A", "ABC", "1")).is_ok());
    assert_eq!(c.rules[0].trigger, "ABC");
}

#[test]
fn update_rule_keeps_stored_creation_time() {
    let mut c = config_with(vec![rule("A", "abc", "1")]);
    c.rules[0].created_at = "FIRST".to_string();
    let mut r = rule("A", "abc", "2");
    r.created_at = "2000-01-01T00:00:00Z".to_string();
    let out = update_rule(&mut c, "A".to_string(), r).ok().unwrap();
    assert_eq!(out.rules[0].created_at, "FIRST");
    let mut r = rule("A", "abc", "3");
    r.created_at = String::new();
    let out = update_rule(&mut c, "A".to_string(), r).ok().unwrap();
    assert_eq!(out.rules[0].created_at, "FIRST");
    assert_eq!(out.rules[0].replacement, "3");
}

#[test]
fn update_rule_refusals() {
    let mut c = config_with(vec![rule("A", "a", "1"), rule("B", "b", "2")]);
    let e = update_rule(&mut c, "A".to_string(), rule("B", "a", "1")).err().unwrap();
    assert!(matches!(e, CommandError::IdMismatch));
    assert_eq!(e.message(), "rule id mismatch");
    let e = update_rule(&mut c, "Z".to_string(), rule("Z", "z", "1")).err().unwrap();
    assert!(matches!(&e, CommandError::NotFound(id) if id == "Z"));
    assert_eq!(e.message(), "rule not found: Z");
    let e = update_rule(&mut c, "A".to_string(), rule("A", "B", "1")).err().unwrap();
    assert_eq!(e.message(), "duplicate trigger: \"B\"");
    assert_eq!(triggers(&c), vec!["a", "b"]);
}

#[test]
fn delete_rule_removes_by_id() {
    let mut c = config_with(vec![rule("A", "a", "1"), rule("B", "b", "2")]);
    let out = delete_rule(&mut c, "A".to_string()).ok().unwrap();
    assert_eq!(triggers(&out), vec!["b"]);
    let e = delete_rule(&mut c, "A".to_string()).err().unwrap();
    assert_eq!(e.message(), "rule not found: A");
    assert_eq!(triggers(&c), vec!["b"]);
}

#[test]
fn get_config_returns_a_copy() {
    let c = config_with(vec![rule("A", "a", "1")]);
    let copy = get_config(&c);
    assert_eq!(copy.rules[0].id, "A");
    assert_eq!(copy.blacklist, c.blacklist);
}

#[test]
fn save_all_applies_settings() {
    let mut c = Config::default();
    let out = save_all(
        &mut c,
        false,
        vec!["password.exe".to_string()],
        Some(vec!["notepad.exe".to_string()]),
        Some(Theme { mode: "light".to_string() }),
        true,
    )
    .ok()
    .unwrap();
    assert!(!out.start_with_windows);
    assert_eq!(out.blacklist, vec!["password.exe"]);
    assert_eq!(out.scoped_to, Some(vec!["notepad.exe".to_string()]));
    assert_eq!(out.theme.mode, "light");
    assert!(out.show_debug_log);
    let out = save_all(&mut c, true, vec![], None, None, false).ok().unwrap();
    assert_eq!(out.theme.mode, "light");
}

#[test]
fn save_all_reports_invalid_theme_but_keeps_settings() {
    let mut c = Config::default();
    let e = save_all(&mut c, true, vec![], None, Some(Theme { mode: "neon".to_string() }), false)
        .err()
        .unwrap();
    assert!(matches!(&e, CommandError::Invalid(Violation::UnsupportedTheme(m)) if m == "neon"));
    assert_eq!(e.message(), "rule validation: unsupported theme mode: \"neon\"");
    assert_eq!(c.theme.mode, "neon");
    assert!(c.blacklist.is_empty());
}

#[test]
fn import_json_replaces_valid_config() {
    let mut c = config_with(vec![rule("A", "a", "1")]);
    let incoming = config_with(vec![rule("X", "x", "9"), rule("Y", "y", "8")]);
    let out = import_json(&mut c, incoming).ok().unwrap();
    assert_eq!(triggers(&out), vec!["x", "y"]);
    assert_eq!(triggers(&c), vec!["x", "y"]);
}

#[test]
fn import_json_refuses_invalid_config() {
    let mut c = config_with(vec![rule("A", "a", "1")]);
    let incoming = config_with(vec![rule("X", "x", "9"), rule("Y", "X", "8")]);
    let e = import_json(&mut c, incoming).err().unwrap();
    assert_eq!(e.message(), "rule validation: duplicate trigger: \"X\"");
    assert_eq!(triggers(&c), vec!["a"]);
}

#[test]
fn merge_import_skips_conflicts_without_decision() {
    let mut c = config_with(vec![rule("A", "answer short", "old")]);
    let incoming = config_with(vec![rule("X", "Answer Short", "new"), rule("Y", "/pr", "pr body")]);
    let out = merge_import(&mut c, incoming, &vec![]).ok().unwrap();
    assert_eq!(triggers(&out), vec!["answer short", "/pr"]);
    assert_eq!(out.rules[0].replacement, "old");
    assert_eq!(out.rules[1].id.len(), 26);
    assert_ne!(out.rules[1].id, "Y");
}

#[test]
fn merge_import_overwrite_keeps_identity() {
    let mut c = config_with(vec![rule("A", "answer short", "old"), rule("B", ";code", "c")]);
    c.rules[0].created_at = "FIRST".to_string();
    let incoming = config_with(vec![rule("X", "Answer Short", "new")]);
    let decisions = vec![("Answer Short".to_string(), "overwrite".to_string())];
    let out = merge_import(&mut c, incoming, &decisions).ok().unwrap();
    assert_eq!(out.rules.len(), 2);
    assert_eq!(out.rules[0].id, "A");
    assert_eq!(out.rules[0].created_at, "FIRST");
    assert_eq!(out.rules[0].trigger, "Answer Short");
    assert_eq!(out.rules[0].replacement, "new");
}

#[test]
fn merge_import_decision_by_lowercase_key() {
    let mut c = config_with(vec![rule("A", "abc", "old")]);
    let incoming = config_with(vec![rule("X", "ABC", "new")]);
    let decisions = vec![("abc".to_string(), "overwrite".to_string())];
    let out = merge_import(&mut c, incoming, &decisions).ok().unwrap();
    assert_eq!(out.rules[0].replacement, "new");
    let incoming = config_with(vec![rule("Y", "ABC", "newer")]);
    let decisions = vec![("ABC".to_string(), "skip".to_string()), ("abc".to_string(), "overwrite".to_string())];
    let out = merge_import(&mut c, incoming, &decisions).ok().unwrap();
    assert_eq!(out.rules[0].replacement, "new");
}

#[test]
fn merge_import_stamps_appended_rules() {
    let mut c = Config::default();
    let mut r = rule("X", "fresh", "1");
    r.created_at = String::new();
    let out = merge_import(&mut c, config_with(vec![r]), &vec![]).ok().unwrap();
    assert!(!out.rules[0].created_at.is_empty());
}

#[test]
fn merge_import_refuses_invalid_import() {
    let mut c = config_with(vec![rule("A", "a", "1")]);
    let mut incoming = config_with(vec![rule("X", "x", "1")]);
    incoming.version = 9;
    let e = merge_import(&mut c, incoming, &vec![]).err().unwrap();
    assert_eq!(e.message(), "rule validation: unsupported schema version: 9 (expected 1)");
    assert_eq!(triggers(&c), vec!["a"]);
}

#[test]
fn app_meta_uses_parent_directory() {
    let m = app_meta(Some("/opt/bloom/bloom.exe".to_string()), "/home/u/bloom/rules.json".to_string());
    assert_eq!(m.install_dir, "/opt/bloom");
    assert_eq!(m.config_path, "/home/u/bloom/rules.json");
    let m = app_meta(None, "c".to_string());
    assert_eq!(m.install_dir, "");
    let m = app_meta(Some("/".to_string()), "c".to_string());
    assert_eq!(m.install_dir, "");
}

#[test]
fn export_target_prefers_given_path() {
    assert_eq!(
        export_target(Some("/tmp/out.json".to_string()), Some("/home/u/Downloads".to_string())),
        Some("/tmp/out.json".to_string())
    );
    let fallback = export_target(Some(String::new()), Some("/home/u/Downloads".to_string())).unwrap();
    assert_eq!(
        fallback,
        std::path::Path::new("/home/u/Downloads").join("bloom-rules.json").to_string_lossy()
    );
    assert!(fallback.ends_with("bloom-rules.json"));
    assert!(fallback.len() > "/home/u/Downloads".len());
    assert_eq!(export_target(None, None), None);
}

#[test]
fn command_error_messages() {
    assert_eq!(CommandError::EmptyTrigger.message(), "trigger cannot be empty");
    assert_eq!(CommandError::NoEntropy.message(), "CSPRNG unavailable");
    assert_eq!(CommandError::NoClock.message(), "system time before Unix epoch");
    assert_eq!(
        CommandError::Invalid(Violation::Other("APPDATA not set".to_string())).message(),
        "rule validation: APPDATA not set"
    );
    assert_eq!(
        CommandError::DuplicateTrigger("say \"hi\"".to_string()).message(),
        "duplicate trigger: \"say \\\"hi\\\"\""
    );
}

#[test]
fn operations_keep_config_valid() {
    let mut c = Config::default();
    add_rule(&mut c, rule("", "answer short", "1")).ok().unwrap();
    add_rule(&mut c, rule("", ";code", "2")).ok().unwrap();
    let id = c.rules[1].id.clone();
    assert!(bloom::store::validate(&c).is_ok());
    update_rule(&mut c, id.clone(), rule(&id, "  ;Code  ", "3")).ok().unwrap();
    assert!(bloom::store::validate(&c).is_ok());
    let incoming = config_with(vec![rule("X", ";CODE", "4"), rule("Y", "/pr", "5")]);
    let decisions = vec![(";CODE".to_string(), "overwrite".to_string())];
    merge_import(&mut c, incoming, &decisions).ok().unwrap();
    assert!(bloom::store::validate(&c).is_ok());
    assert_eq!(c.rules.len(), 3);
    assert_eq!(c.rules[1].id, id);
    delete_rule(&mut c, id).ok().unwrap();
    assert!(bloom::store::validate(&c).is_ok());
}

#[test]
fn normalizing_twice_changes_nothing() {
    let mut r = rule("", "  multi   word\ttrigger ", "x");
    validate_rule_fields(&mut r).ok().unwrap();
    let once = r.trigger.clone();
    validate_rule_fields(&mut r).ok().unwrap();
    assert_eq!(r.trigger, once);
    assert_eq!(once, "multi word trigger");
}

#[test]
fn delete_undoes_add() {
    let mut c = config_with(vec![rule("A", "a", "1"), rule("B", "b", "2")]);
    let before = triggers(&c);
    let added = add_rule(&mut c, rule("", "new one", "3")).ok().unwrap();
    let id = added.rules[2].id.clone();
    let out = delete_rule(&mut c, id).ok().unwrap();
    assert_eq!(triggers(&out), before);
    assert_eq!(out.rules[1].id, "B");
}

#[test]
fn update_changes_only_its_rule() {
    let mut c = config_with(vec![rule("A", "a", "1"), rule("B", "b", "2"), rule("C", "c", "3")]);
    c.blacklist = vec!["x.exe".to_string()];
    let out = update_rule(&mut c, "B".to_string(), rule("B", "bee", "22")).ok().unwrap();
    assert_eq!(triggers(&out), vec!["a", "bee", "c"]);
    assert_eq!(out.rules[0].replacement, "1");
    assert_eq!(out.rules[2].replacement, "3");
    assert_eq!(out.blacklist, vec!["x.exe"]);
}

#[test]
fn merge_appends_new_triggers_in_order() {
    let mut c = config_with(vec![rule("A", "a", "1"), rule("B", "b", "2")]);
    let mut fresh = rule("Z", "zed", "9");
    fresh.created_at = "KEEP".to_string();
    let incoming = config_with(vec![rule("X", "new1", "n1"), rule("Y", "B", "clash"), fresh]);
    let out = merge_import(&mut c, incoming, &vec![]).ok().unwrap();
    assert_eq!(triggers(&out), vec!["a", "b", "new1", "zed"]);
    assert_eq!(out.rules[0].id, "A");
    assert_eq!(out.rules[1].replacement, "2");
    assert_eq!(out.rules[3].created_at, "KEEP");
    assert_ne!(out.rules[2].id, out.rules[3].id);
}

#[test]
fn merge_of_only_clashes_draws_nothing_and_succeeds() {
    let mut c = config_with(vec![rule("A", "a", "1")]);
    let incoming = config_with(vec![rule("X", "A", "2")]);
    let decisions = vec![("A".to_string(), "overwrite".to_string())];
    let out = merge_import(&mut c, incoming, &decisions).ok().unwrap();
    assert_eq!(out.rules.len(), 1);
    assert_eq!(out.rules[0].id, "A");
    assert_eq!(out.rules[0].replacement, "2");
}

#[test]
fn merge_rules_uses_given_ids_and_stamps() {
    let mut rules = vec![rule("A", "a", "1")];
    let mut r = rule("X", "b", "2");
    r.created_at = String::new();
    let incoming = vec![rule("Y", "A", "3"), r];
    let ids = vec!["unused".to_string(), "ID2".to_string()];
    let stamps = vec!["unused".to_string(), "T2".to_string()];
    bloom::commands::merge_rules(&mut rules, &incoming, &vec![], &ids, &stamps);
    assert_eq!(rules.len(), 2);
    assert_eq!(rules[1].id, "ID2");
    assert_eq!(rules[1].created_at, "T2");
}

#[test]
fn clock_gives_rfc3339_text() {
    let t = bloom::clock::now_rfc3339().unwrap();
    assert!(t.len() >= 20);
    assert_eq!(&t[4..5], "-");
    assert_eq!(&t[10..11], "T");
    let (secs, nanos) = bloom::clock::now_since_epoch().unwrap();
    assert!(secs > 1_600_000_000);
    assert!(nanos < 1_000_000_000);
}

#[test]
fn rfc3339_for_readings() {
    assert_eq!(bloom::clock::rfc3339_for(Some((0, 0))).unwrap(), "1970-01-01T00:00:00+00:00");
    assert_eq!(
        bloom::clock::rfc3339_for(Some((1_431_648_000, 123_000_000))).unwrap(),
        "2015-05-15T00:00:00.123+00:00"
    );
    assert!(bloom::clock::rfc3339_for(None).is_none());
    assert!(bloom::clock::rfc3339_for(Some((u64::MAX, 0))).is_none());
}
