//! The rules of the rules-file format, and lookups into a configuration.
//! Reading and writing the file itself happens outside the library.
use vstd::prelude::*;
use crate::paths::{
    adjoined, ends_with, file_name_of, is_verbatim, join_path, parent_of, path_file_name, path_joined,
    path_parent,
};
use crate::text::{
    collapse, lower_seq, chars_of, collapse_vec, lower_vec, same_chars, same_text, cat_chars, decimal,
    decimal_text, string_of,
};
use crate::model::{
    is_default_config, Config, ConfigView, Rule, RuleView, RulesError, Violation, ViolationView, MAX_REPLACEMENT_LEN,
    MAX_TRIGGER_LEN, SCHEMA_VERSION,
};

verus! {

/// The theme modes a rules file may name.
pub open spec fn theme_ok(mode: Seq<char>) -> bool {
    mode == "dark"@ || mode == "light"@ || mode == "system"@
}

/// The reason rule `k` is rejected, given the rules before it (the format
/// checks each rule in file order, against the rules that came earlier).
pub open spec fn rule_violation(rules: Seq<RuleView>, k: int) -> Option<ViolationView> {
    let r = rules[k];
    if r.id.len() > 0 && exists|j: int| 0 <= j < k && #[trigger] rules[j].id == r.id {
        Some(ViolationView::DuplicateId(r.id))
    } else if r.trigger.len() == 0 {
        Some(ViolationView::EmptyTrigger)
    } else if collapse(r.trigger) != r.trigger {
        Some(ViolationView::UnnormalizedTrigger(r.trigger))
    } else if r.trigger.len() > MAX_TRIGGER_LEN {
        Some(ViolationView::TriggerTooLong(r.trigger.len()))
    } else if exists|j: int|
        0 <= j < k && #[trigger] lower_seq(rules[j].trigger) == lower_seq(r.trigger) {
        Some(ViolationView::DuplicateTrigger(r.trigger))
    } else if r.replacement.len() > MAX_REPLACEMENT_LEN {
        Some(ViolationView::ReplacementTooLong(r.replacement.len()))
    } else {
        None
    }
}

/// The first rejected rule among the first `n`, if any.
pub open spec fn rules_violation(rules: Seq<RuleView>, n: int) -> Option<ViolationView>
    decreases n,
{
    if n <= 0 {
        None
    } else {
        match rules_violation(rules, n - 1) {
            Some(v) => Some(v),
            None => rule_violation(rules, n - 1),
        }
    }
}

/// The first reason the configuration is rejected, in the order the format
/// checks them: version, theme, then each rule in order.
pub open spec fn config_violation(c: ConfigView) -> Option<ViolationView> {
    if c.version != SCHEMA_VERSION {
        Some(ViolationView::UnsupportedVersion(c.version))
    } else if !theme_ok(c.theme_mode) {
        Some(ViolationView::UnsupportedTheme(c.theme_mode))
    } else {
        rules_violation(c.rules, c.rules.len() as int)
    }
}

/// The fields of one rule are acceptable on their own: a non-empty,
/// collapsed trigger of at most `MAX_TRIGGER_LEN` characters, and a
/// replacement of at most `MAX_REPLACEMENT_LEN` characters.
pub open spec fn rule_fields_ok(r: RuleView) -> bool {
    &&& r.trigger.len() > 0
    &&& collapse(r.trigger) == r.trigger
    &&& r.trigger.len() <= MAX_TRIGGER_LEN
    &&& r.replacement.len() <= MAX_REPLACEMENT_LEN
}

/// A list of rules is acceptable: each rule's fields are, no two rules share
/// a non-empty id, and no two triggers are equal up to ASCII case.
pub open spec fn rules_ok(rules: Seq<RuleView>) -> bool {
    &&& forall|k: int| 0 <= k < rules.len() ==> rule_fields_ok(#[trigger] rules[k])
    &&& forall|j: int, k: int|
        0 <= j < k < rules.len() && rules[k].id.len() > 0 ==> #[trigger] rules[j].id
            != #[trigger] rules[k].id
    &&& forall|j: int, k: int|
        0 <= j < k < rules.len() ==> lower_seq(#[trigger] rules[j].trigger) != lower_seq(
            #[trigger] rules[k].trigger,
        )
}

/// A configuration the format accepts.
pub open spec fn config_ok(c: ConfigView) -> bool {
    &&& c.version == SCHEMA_VERSION
    &&& theme_ok(c.theme_mode)
    &&& rules_ok(c.rules)
}

proof fn lemma_rules_violation_none(rules: Seq<RuleView>, n: int)
    requires
        0 <= n <= rules.len(),
    ensures
        rules_violation(rules, n) is None <==> forall|k: int|
            0 <= k < n ==> #[trigger] rule_violation(rules, k) is None,
    decreases n,
{
    if n > 0 {
        lemma_rules_violation_none(rules, n - 1);
    }
}

proof fn lemma_first_violation(rules: Seq<RuleView>, k: int, n: int)
    requires
        0 <= k < n,
        rules_violation(rules, k) is None,
    ensures
        rule_violation(rules, k) is Some ==> rules_violation(rules, n) == rule_violation(rules, k),
        rule_violation(rules, k) is None ==> rules_violation(rules, k + 1) is None,
    decreases n - k,
{
    if n > k + 1 {
        lemma_first_violation(rules, k, n - 1);
    }
}

/// The format's checks in order accept exactly the configurations that
/// `config_ok` describes.
pub proof fn lemma_violation_iff(c: ConfigView)
    ensures
        config_violation(c) is None <==> config_ok(c),
{
    let rules = c.rules;
    lemma_rules_violation_none(rules, rules.len() as int);
    if c.version == SCHEMA_VERSION && theme_ok(c.theme_mode) {
        if rules_ok(rules) {
            assert forall|k: int| 0 <= k < rules.len() implies #[trigger] rule_violation(
                rules,
                k,
            ) is None by {
                assert(rule_fields_ok(rules[k]));
                if rules[k].id.len() > 0 {
                    assert forall|j: int| 0 <= j < k implies #[trigger] rules[j].id
                        != rules[k].id by {}
                }
                assert forall|j: int| 0 <= j < k implies #[trigger] lower_seq(rules[j].trigger)
                    != lower_seq(rules[k].trigger) by {}
            }
        }
        if forall|k: int| 0 <= k < rules.len() ==> #[trigger] rule_violation(rules, k) is None {
            assert forall|k: int| 0 <= k < rules.len() implies rule_fields_ok(
                #[trigger] rules[k],
            ) by {
                assert(rule_violation(rules, k) is None);
            }
            assert forall|j: int, k: int|
                0 <= j < k < rules.len() && rules[k].id.len() > 0 implies #[trigger] rules[j].id
                != #[trigger] rules[k].id by {
                assert(rule_violation(rules, k) is None);
            }
            assert forall|j: int, k: int| 0 <= j < k < rules.len() implies lower_seq(
                #[trigger] rules[j].trigger,
            ) != lower_seq(#[trigger] rules[k].trigger) by {
                assert(rule_violation(rules, k) is None);
            }
        }
    }
}


/// Strict check of a configuration: the schema version, the theme, then
/// each rule in file order (duplicate id, empty trigger, trigger not in
/// collapsed form, trigger too long, duplicate trigger up to ASCII case,
/// replacement too long). The first failure is reported.
pub fn validate(cfg: &Config) -> (r: Result<(), RulesError>)
    ensures
        r is Ok <==> config_violation(cfg@) is None,
        r is Ok <==> config_ok(cfg@),
        r matches Err(e) ==> (e matches RulesError::Validation(v) && Some(v@) == config_violation(
            cfg@,
        )),
{
    proof {
        lemma_violation_iff(cfg@);
    }
    if cfg.version != SCHEMA_VERSION {
        return Err(RulesError::Validation(Violation::UnsupportedVersion(cfg.version)));
    }
    let mode = cfg.theme.mode.as_str();
    if !(same_text(mode, "dark") || same_text(mode, "light") || same_text(mode, "system")) {
        return Err(RulesError::Validation(Violation::UnsupportedTheme(cfg.theme.mode.clone())));
    }
    let ghost rv = cfg@.rules;
    let n = cfg.rules.len();
    let mut seen: Vec<Vec<char>> = Vec::new();
    let mut k: usize = 0;
    while k < n
        invariant
            k <= n,
            n == cfg.rules@.len(),
            rv == cfg@.rules,
            rv.len() == n,
            config_violation(cfg@) == rules_violation(rv, n as int),
            rules_violation(rv, k as int) is None,
            config_violation(cfg@) is None <==> config_ok(cfg@),
            seen@.len() == k,
            forall|j: int| 0 <= j < k ==> (#[trigger] seen@[j])@ == lower_seq(rv[j].trigger),
        decreases n - k,
    {
        let r = &cfg.rules[k];
        assert(rv[k as int] == r@);
        proof {
            lemma_first_violation(rv, k as int, n as int);
        }
        if !r.id.as_str().is_empty() {
            let mut j: usize = 0;
            while j < k
                invariant
                    j <= k < n,
                    n == cfg.rules@.len(),
                    rv == cfg@.rules,
                    r == cfg.rules@[k as int],
                    config_violation(cfg@) == rules_violation(rv, n as int),
                    rules_violation(rv, k as int) is None,
                    config_violation(cfg@) is None <==> config_ok(cfg@),
                    r.id@.len() > 0,
                    forall|i: int| 0 <= i < j ==> rv[i].id != r.id@,
                decreases k - j,
            {
                if cfg.rules[j].id == r.id {
                    assert(rv[j as int].id == rv[k as int].id);
                    proof {
                        lemma_first_violation(rv, k as int, n as int);
                    }
                    return Err(RulesError::Validation(Violation::DuplicateId(r.id.clone())));
                }
                j = j + 1;
            }
        }
        assert(!(r.id@.len() > 0 && exists|j: int| 0 <= j < k && #[trigger] rv[j].id == rv[k as int].id));
        let t = chars_of(r.trigger.as_str());
        if t.len() == 0 {
            return Err(RulesError::Validation(Violation::EmptyTrigger));
        }
        let normalized = collapse_vec(&t);
        if !same_chars(&normalized, &t) {
            return Err(RulesError::Validation(Violation::UnnormalizedTrigger(r.trigger.clone())));
        }
        if t.len() > MAX_TRIGGER_LEN {
            return Err(RulesError::Validation(Violation::TriggerTooLong(t.len())));
        }
        let lt = lower_vec(&t);
        let mut j: usize = 0;
        while j < k
            invariant
                j <= k < n,
                n == cfg.rules@.len(),
                rv == cfg@.rules,
                r == cfg.rules@[k as int],
                config_violation(cfg@) == rules_violation(rv, n as int),
                rules_violation(rv, k as int) is None,
                config_violation(cfg@) is None <==> config_ok(cfg@),
                !(r.id@.len() > 0 && exists|j: int| 0 <= j < k && #[trigger] rv[j].id == rv[k as int].id),
                r.trigger@.len() > 0,
                collapse(r.trigger@) == r.trigger@,
                r.trigger@.len() <= MAX_TRIGGER_LEN,
                lt@ == lower_seq(r.trigger@),
                seen@.len() == k,
                forall|i: int| 0 <= i < k ==> (#[trigger] seen@[i])@ == lower_seq(rv[i].trigger),
                forall|i: int| 0 <= i < j ==> lower_seq(rv[i].trigger) != lt@,
            decreases k - j,
        {
            if same_chars(&seen[j], &lt) {
                assert(lower_seq(rv[j as int].trigger) == lower_seq(rv[k as int].trigger));
                proof {
                    lemma_first_violation(rv, k as int, n as int);
                }
                return Err(RulesError::Validation(Violation::DuplicateTrigger(r.trigger.clone())));
            }
            j = j + 1;
        }
        let count = chars_of(r.replacement.as_str()).len();
        if count > MAX_REPLACEMENT_LEN {
            return Err(RulesError::Validation(Violation::ReplacementTooLong(count)));
        }
        assert(rule_violation(rv, k as int) is None);
        seen.push(lt);
        k = k + 1;
    }
    Ok(())
}


/// Path of the rules file inside the configuration directory `dir`.
pub fn config_path(dir: &str) -> (p: String)
    ensures
        p@ == path_joined(dir@, "rules.json"@),
        ends_with(p@, "rules.json"@),
        !is_verbatim(dir@) ==> adjoined(dir@, "rules.json"@, p@),
{
    let name = "rules.json";
    proof {
        reveal_strlit("rules.json");
        assert(name@[0] != '.');
    }
    join_path(dir, name)
}

/// A broken file's new name: its name, `.broken-`, then the time in
/// seconds.
pub open spec fn broken_name(name: Seq<char>, secs: u64) -> Seq<char> {
    name + ".broken-"@ + decimal(secs as nat)
}

/// Where a broken rules file at `path` is moved: beside it (in its parent
/// directory, or `.` when it has none), named after it (or `rules.json` when
/// it has no file name) with `.broken-` and the time `secs` appended.
pub fn quarantine_path(path: &str, secs: u64) -> (r: String)
    ensures
        r@ == path_joined(
            match path_parent(path@) {
                Some(q) => q,
                None => "."@,
            },
            broken_name(
                match path_file_name(path@) {
                    Some(n) => n,
                    None => "rules.json"@,
                },
                secs,
            ),
        ),
{
    let parent = match parent_of(path) {
        Some(q) => q,
        None => String::from_str("."),
    };
    let name = match file_name_of(path) {
        Some(n) => n,
        None => String::from_str("rules.json"),
    };
    let a = cat_chars(chars_of(name.as_str()), chars_of(".broken-"));
    let full = string_of(&cat_chars(a, decimal_text(secs)));
    join_path(parent.as_str(), full.as_str())
}

/// Position of the first rule with the given id (`Iterator::position`).
pub fn find_index(cfg: &Config, id: &str) -> (r: Option<usize>)
    ensures
        r matches Some(i) ==> i < cfg@.rules.len() && cfg@.rules[i as int].id == id@ && forall|
            j: int,
        | 0 <= j < i ==> #[trigger] cfg@.rules[j].id != id@,
        r is None ==> forall|j: int| 0 <= j < cfg@.rules.len() ==> #[trigger] cfg@.rules[j].id
            != id@,
{
    let n = cfg.rules.len();
    let mut i: usize = 0;
    while i < n
        invariant
            i <= n,
            n == cfg@.rules.len(),
            forall|j: int| 0 <= j < i ==> #[trigger] cfg@.rules[j].id != id@,
        decreases n - i,
    {
        assert(cfg@.rules[i as int] == cfg.rules@[i as int]@);
        if same_text(cfg.rules[i].id.as_str(), id) {
            return Some(i);
        }
        i = i + 1;
    }
    None
}

/// The first rule with the given id (`Iterator::find`).
pub fn find_rule<'a>(cfg: &'a Config, id: &str) -> (r: Option<&'a Rule>)
    ensures
        r matches Some(x) ==> exists|i: int|
            0 <= i < cfg@.rules.len() && x@ == cfg@.rules[i] && x@.id == id@ && forall|j: int|
                0 <= j < i ==> #[trigger] cfg@.rules[j].id != id@,
        r is None ==> forall|j: int| 0 <= j < cfg@.rules.len() ==> #[trigger] cfg@.rules[j].id
            != id@,
{
    match find_index(cfg, id) {
        Some(i) => {
            assert(cfg@.rules[i as int] == cfg.rules@[i as int]@);
            Some(&cfg.rules[i])
        },
        None => None,
    }
}

/// Loading of the rules file, once read and parsed: `None` when there is no
/// file (the defaults are used), the read or parse error as it came, or the
/// parsed configuration if it passes `validate`.
pub fn load_or_default(loaded: Option<Result<Config, RulesError>>) -> (r: Result<Config, RulesError>)
    ensures
        loaded is None ==> (r matches Ok(c) && is_default_config(c@)),
        loaded matches Some(Err(e)) ==> r == Err::<Config, RulesError>(e),
        loaded matches Some(Ok(c)) ==> {
            &&& (r is Ok <==> config_ok(c@))
            &&& r matches Ok(x) ==> x@ == c@
            &&& r matches Err(e) ==> (e matches RulesError::Validation(v) && Some(v@)
                == config_violation(c@))
        },
{
    match loaded {
        None => Ok(Config::default()),
        Some(Err(e)) => Err(e),
        Some(Ok(cfg)) => {
            match validate(&cfg) {
                Ok(()) => Ok(cfg),
                Err(e) => Err(e),
            }
        },
    }
}

} // verus!
