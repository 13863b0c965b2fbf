//! The editing operations behind the rules window: each takes the current
//! configuration, changes it in place, and hands back the whole new
//! configuration so the window has one source of truth on every round-trip.
use vstd::prelude::*;
use crate::text::{
    collapse, lower_seq, chars_of, collapse_vec, lower_vec, eq_ignore_case, string_of, cat_chars, decimal,
    decimal_text, debug_quoted, debug_text,
};
use crate::model::{
    Config, ConfigView, Rule, RuleView, Theme, Violation, ViolationView, MAX_REPLACEMENT_LEN,
    MAX_TRIGGER_LEN, texts, opt_texts, rule_views, validation_text,
};
use crate::store::{config_ok, config_violation, find_index, validate};
use crate::model::RulesError;
use crate::ids::{is_generated_id, new_id};
use crate::clock::now_rfc3339;
use crate::paths::{adjoined, ends_with, is_verbatim, join_path, parent_of, path_joined, path_parent};

verus! {

/// Why an editing operation was refused.
#[derive(Debug)]
pub enum CommandError {
    /// The trigger is empty once its whitespace is collapsed.
    EmptyTrigger,
    /// The trigger has more than `MAX_TRIGGER_LEN` characters.
    TriggerTooLong,
    /// The replacement has more than `MAX_REPLACEMENT_LEN` characters.
    ReplacementTooLong,
    /// Another rule already has this trigger, up to ASCII case.
    DuplicateTrigger(String),
    /// The rule's own id differs from the id it is stored under.
    IdMismatch,
    /// No rule has this id.
    NotFound(String),
    /// The configuration breaks the rules-file format.
    Invalid(Violation),
    /// The operating system's random source failed, so no id could be made.
    NoEntropy,
    /// The system clock reads before the Unix epoch (or beyond what can be
    /// written as a date), so no creation time could be set.
    NoClock,
}

/// A refusal as plain values.
pub enum CommandErrorView {
    EmptyTrigger,
    TriggerTooLong,
    ReplacementTooLong,
    DuplicateTrigger(Seq<char>),
    IdMismatch,
    NotFound(Seq<char>),
    Invalid(ViolationView),
    NoEntropy,
    NoClock,
}

impl View for CommandError {
    type V = CommandErrorView;

    open spec fn view(&self) -> CommandErrorView {
        match self {
            CommandError::EmptyTrigger => CommandErrorView::EmptyTrigger,
            CommandError::TriggerTooLong => CommandErrorView::TriggerTooLong,
            CommandError::ReplacementTooLong => CommandErrorView::ReplacementTooLong,
            CommandError::DuplicateTrigger(s) => CommandErrorView::DuplicateTrigger(s@),
            CommandError::IdMismatch => CommandErrorView::IdMismatch,
            CommandError::NotFound(s) => CommandErrorView::NotFound(s@),
            CommandError::Invalid(v) => CommandErrorView::Invalid(v@),
            CommandError::NoEntropy => CommandErrorView::NoEntropy,
            CommandError::NoClock => CommandErrorView::NoClock,
        }
    }
}

/// The text of a refusal, as the rules window shows it.
pub open spec fn command_text(e: CommandErrorView) -> Seq<char> {
    match e {
        CommandErrorView::EmptyTrigger => "trigger cannot be empty"@,
        CommandErrorView::TriggerTooLong => "trigger too long (max "@ + decimal(MAX_TRIGGER_LEN as nat)
            + ")"@,
        CommandErrorView::ReplacementTooLong => "replacement too long (max "@ + decimal(
            MAX_REPLACEMENT_LEN as nat,
        ) + ")"@,
        CommandErrorView::DuplicateTrigger(t) => "duplicate trigger: "@ + debug_text(t),
        CommandErrorView::IdMismatch => "rule id mismatch"@,
        CommandErrorView::NotFound(id) => "rule not found: "@ + id,
        CommandErrorView::Invalid(v) => validation_text(v),
        CommandErrorView::NoEntropy => "CSPRNG unavailable"@,
        CommandErrorView::NoClock => "system time before Unix epoch"@,
    }
}

impl CommandError {
    /// The refusal as a message (see `command_text`).
    pub fn message(&self) -> (m: String)
        ensures
            m@ == command_text(self@),
    {
        let v = match self {
            CommandError::EmptyTrigger => chars_of("trigger cannot be empty"),
            CommandError::TriggerTooLong => {
                let a = cat_chars(chars_of("trigger too long (max "), decimal_text(MAX_TRIGGER_LEN as u64));
                cat_chars(a, chars_of(")"))
            },
            CommandError::ReplacementTooLong => {
                let a = cat_chars(
                    chars_of("replacement too long (max "),
                    decimal_text(MAX_REPLACEMENT_LEN as u64),
                );
                cat_chars(a, chars_of(")"))
            },
            CommandError::DuplicateTrigger(t) => cat_chars(
                chars_of("duplicate trigger: "),
                chars_of(debug_quoted(t.as_str()).as_str()),
            ),
            CommandError::IdMismatch => chars_of("rule id mismatch"),
            CommandError::NotFound(id) => cat_chars(chars_of("rule not found: "), chars_of(id.as_str())),
            CommandError::Invalid(v) => cat_chars(chars_of("rule validation: "), chars_of(v.message().as_str())),
            CommandError::NoEntropy => chars_of("CSPRNG unavailable"),
            CommandError::NoClock => chars_of("system time before Unix epoch"),
        };
        string_of(&v)
    }
}

/// The outcome of an operation as plain values.
pub open spec fn outcome_view(r: Result<Config, CommandError>) -> Result<ConfigView, CommandErrorView> {
    match r {
        Ok(c) => Ok(c@),
        Err(e) => Err(e@),
    }
}

/// A rule with another trigger.
pub open spec fn with_trigger(r: RuleView, t: Seq<char>) -> RuleView {
    RuleView { trigger: t, ..r }
}

/// A configuration with another list of rules.
pub open spec fn with_rules(c: ConfigView, rules: Seq<RuleView>) -> ConfigView {
    ConfigView { rules, ..c }
}

/// The first problem with a collapsed trigger `t` and a replacement, if any.
pub open spec fn fields_problem(t: Seq<char>, replacement: Seq<char>) -> Option<CommandErrorView> {
    if t.len() == 0 {
        Some(CommandErrorView::EmptyTrigger)
    } else if t.len() > MAX_TRIGGER_LEN {
        Some(CommandErrorView::TriggerTooLong)
    } else if replacement.len() > MAX_REPLACEMENT_LEN {
        Some(CommandErrorView::ReplacementTooLong)
    } else {
        None
    }
}

/// Some rule other than the one at `skip` has trigger `t`, up to ASCII case.
pub open spec fn trigger_taken(rules: Seq<RuleView>, t: Seq<char>, skip: int) -> bool {
    exists|i: int| 0 <= i < rules.len() && i != skip && #[trigger] lower_seq(rules[i].trigger) == lower_seq(t)
}

/// Normalizes the rule's trigger (whitespace collapsed, ends trimmed) and
/// checks the trigger is non-empty and short enough and the replacement
/// short enough. The trigger stays normalized even when a check fails.
pub fn validate_rule_fields(rule: &mut Rule) -> (r: Result<(), CommandError>)
    ensures
        final(rule)@ == with_trigger(old(rule)@, collapse(old(rule)@.trigger)),
        r is Ok <==> fields_problem(collapse(old(rule)@.trigger), old(rule)@.replacement) is None,
        r matches Err(e) ==> Some(e@) == fields_problem(
            collapse(old(rule)@.trigger),
            old(rule)@.replacement,
        ),
{
    let t = chars_of(rule.trigger.as_str());
    let normalized = collapse_vec(&t);
    rule.trigger = string_of(&normalized);
    if normalized.len() == 0 {
        return Err(CommandError::EmptyTrigger);
    }
    if normalized.len() > MAX_TRIGGER_LEN {
        return Err(CommandError::TriggerTooLong);
    }
    if chars_of(rule.replacement.as_str()).len() > MAX_REPLACEMENT_LEN {
        return Err(CommandError::ReplacementTooLong);
    }
    Ok(())
}

/// Whether some rule other than the one at `skip` has trigger `t`, up to
/// ASCII case (`eq_ignore_ascii_case`).
fn trigger_taken_at(rules: &Vec<Rule>, t: &Vec<char>, skip: Option<usize>) -> (r: bool)
    ensures
        r == trigger_taken(
            rule_views(rules@),
            t@,
            match skip {
                Some(k) => k as int,
                None => -1,
            },
        ),
{
    let ghost rv = rule_views(rules@);
    let mut i: usize = 0;
    while i < rules.len()
        invariant
            i <= rules.len(),
            rv == rule_views(rules@),
            forall|j: int|
                0 <= j < i && j != (match skip {
                    Some(k) => k as int,
                    None => -1,
                }) ==> #[trigger] lower_seq(rv[j].trigger) != lower_seq(t@),
        decreases rules.len() - i,
    {
        if skip != Some(i) {
            let other = chars_of(rules[i].trigger.as_str());
            if eq_ignore_case(&other, t) {
                assert(lower_seq(rv[i as int].trigger) == lower_seq(t@));
                return true;
            }
        }
        i = i + 1;
    }
    false
}

/// The configuration after an operation: the operation's new configuration
/// when it succeeds, the old one unchanged when it is refused.
pub open spec fn applied(
    old: ConfigView,
    new: ConfigView,
    o: Result<ConfigView, CommandErrorView>,
) -> bool {
    match o {
        Ok(c) => new == c,
        Err(_) => new == old,
    }
}

/// A rule as the server settles it before storing: the given id, and the
/// given timestamp when it came without one.
pub open spec fn settled(rule: RuleView, id: Seq<char>, stamp: Seq<char>) -> RuleView {
    RuleView {
        id,
        created_at: if rule.created_at.len() == 0 {
            stamp
        } else {
            rule.created_at
        },
        ..rule
    }
}

/// Adding a (settled) rule: its trigger is normalized and checked, it must
/// not clash with an existing trigger up to ASCII case, and it goes last.
pub open spec fn add_outcome(c: ConfigView, rule: RuleView) -> Result<ConfigView, CommandErrorView> {
    let t = collapse(rule.trigger);
    match fields_problem(t, rule.replacement) {
        Some(e) => Err(e),
        None => if trigger_taken(c.rules, t, -1) {
            Err(CommandErrorView::DuplicateTrigger(t))
        } else {
            Ok(with_rules(c, c.rules.push(with_trigger(rule, t))))
        },
    }
}

/// Position of the first rule with the given id, or -1.
pub open spec fn index_of_id(rules: Seq<RuleView>, id: Seq<char>) -> int
    decreases rules.len(),
{
    if rules.len() == 0 {
        -1
    } else if rules[0].id == id {
        0
    } else {
        let k = index_of_id(rules.drop_first(), id);
        if k < 0 {
            -1
        } else {
            k + 1
        }
    }
}

/// `index_of_id` names the first rule with the id, or -1 when none has it.
pub proof fn lemma_index_of_id(rules: Seq<RuleView>, id: Seq<char>)
    ensures
        -1 <= index_of_id(rules, id) < rules.len(),
        index_of_id(rules, id) >= 0 ==> rules[index_of_id(rules, id)].id == id && forall|j: int|
            0 <= j < index_of_id(rules, id) ==> #[trigger] rules[j].id != id,
        index_of_id(rules, id) < 0 ==> forall|j: int| 0 <= j < rules.len() ==> #[trigger] rules[j].id != id,
    decreases rules.len(),
{
    if rules.len() > 0 && rules[0].id != id {
        let rest = rules.drop_first();
        lemma_index_of_id(rest, id);
        if index_of_id(rest, id) < 0 {
            assert forall|j: int| 0 <= j < rules.len() implies #[trigger] rules[j].id != id by {
                if j > 0 {
                    assert(rules[j] == rest[j - 1]);
                }
            }
        } else {
            assert forall|j: int| 0 <= j < index_of_id(rules, id) implies #[trigger] rules[j].id != id by {
                if j > 0 {
                    assert(rules[j] == rest[j - 1]);
                }
            }
        }
    }
}

/// Replacing the rule stored under `id`: the rule must carry that same id,
/// its fields are normalized and checked, the id must exist, and the
/// trigger must not clash with another rule's. The stored rule's creation
/// time stays: it is set on first write and never modified.
pub open spec fn update_outcome(c: ConfigView, id: Seq<char>, rule: RuleView) -> Result<
    ConfigView,
    CommandErrorView,
> {
    if rule.id != id {
        Err(CommandErrorView::IdMismatch)
    } else {
        let t = collapse(rule.trigger);
        match fields_problem(t, rule.replacement) {
            Some(e) => Err(e),
            None => {
                let pos = index_of_id(c.rules, id);
                if pos < 0 {
                    Err(CommandErrorView::NotFound(id))
                } else if trigger_taken(c.rules, t, pos) {
                    Err(CommandErrorView::DuplicateTrigger(t))
                } else {
                    Ok(with_rules(c, c.rules.update(pos, RuleView { trigger: t, created_at: c.rules[pos].created_at, ..rule })))
                }
            },
        }
    }
}

/// Removing the first rule with the given id.
pub open spec fn delete_outcome(c: ConfigView, id: Seq<char>) -> Result<ConfigView, CommandErrorView> {
    let pos = index_of_id(c.rules, id);
    if pos < 0 {
        Err(CommandErrorView::NotFound(id))
    } else {
        Ok(with_rules(c, c.rules.remove(pos)))
    }
}

/// Position of the first rule with the given id, as the spec names it.
fn position_of_id(cfg: &Config, id: &str) -> (r: Option<usize>)
    ensures
        r matches Some(i) ==> i as int == index_of_id(cfg@.rules, id@) && i < cfg.rules@.len(),
        r is None ==> index_of_id(cfg@.rules, id@) < 0,
{
    proof {
        lemma_index_of_id(cfg@.rules, id@);
    }
    let r = find_index(cfg, id);
    proof {
        let k = index_of_id(cfg@.rules, id@);
        if let Some(i) = r {
            if k >= 0 && k != i {
                if k < i {
                    assert(cfg@.rules[k].id == id@);
                } else {
                    assert(cfg@.rules[i as int].id == id@);
                }
            }
            if k < 0 {
                assert(cfg@.rules[i as int].id == id@);
            }
        } else {
            if k >= 0 {
                assert(cfg@.rules[k].id == id@);
            }
        }
    }
    r
}

/// The current configuration.
pub fn get_config(cfg: &Config) -> (r: Config)
    ensures
        r@ == cfg@,
{
    cfg.clone()
}

/// Adds a rule under the given id; `stamp` becomes its creation time when
/// it has none. See `add_outcome`.
pub fn add_rule_as(cfg: &mut Config, rule: Rule, id: String, stamp: String) -> (r: Result<
    Config,
    CommandError,
>)
    ensures
        outcome_view(r) == add_outcome(old(cfg)@, settled(rule@, id@, stamp@)),
        applied(old(cfg)@, final(cfg)@, outcome_view(r)),
{
    let mut rule = rule;
    rule.id = id;
    if rule.created_at.as_str().is_empty() {
        rule.created_at = stamp;
    }
    let ghost settled_rule = rule@;
    match validate_rule_fields(&mut rule) {
        Ok(()) => {},
        Err(e) => return Err(e),
    }
    let t = chars_of(rule.trigger.as_str());
    if trigger_taken_at(&cfg.rules, &t, None) {
        return Err(CommandError::DuplicateTrigger(rule.trigger));
    }
    let ghost before = cfg@;
    cfg.rules.push(rule);
    assert(cfg@.rules =~= before.rules.push(with_trigger(settled_rule, t@)));
    Ok(cfg.clone())
}

/// Removes the first rule with the given id. See `delete_outcome`.
pub fn delete_rule(cfg: &mut Config, id: String) -> (r: Result<Config, CommandError>)
    ensures
        outcome_view(r) == delete_outcome(old(cfg)@, id@),
        applied(old(cfg)@, final(cfg)@, outcome_view(r)),
{
    let pos = match position_of_id(cfg, id.as_str()) {
        Some(p) => p,
        None => return Err(CommandError::NotFound(id)),
    };
    let ghost before = cfg@;
    cfg.rules.remove(pos);
    assert(cfg@.rules =~= before.rules.remove(pos as int));
    Ok(cfg.clone())
}

/// The configuration with the settings of the settings window applied; the
/// theme changes only when one is given.
pub open spec fn with_settings(
    c: ConfigView,
    start_with_windows: bool,
    blacklist: Seq<Seq<char>>,
    scoped_to: Option<Seq<Seq<char>>>,
    theme_mode: Option<Seq<char>>,
    show_debug_log: bool,
) -> ConfigView {
    ConfigView {
        start_with_windows,
        blacklist,
        scoped_to,
        theme_mode: match theme_mode {
            Some(m) => m,
            None => c.theme_mode,
        },
        show_debug_log,
        ..c
    }
}

/// Applies the settings window's values, then checks the result as saving
/// does. The new settings stay in place even when the check fails; on
/// success the caller writes the file and applies the autostart setting.
pub fn save_all(
    cfg: &mut Config,
    start_with_windows: bool,
    blacklist: Vec<String>,
    scoped_to: Option<Vec<String>>,
    theme: Option<Theme>,
    show_debug_log: bool,
) -> (r: Result<Config, CommandError>)
    ensures
        final(cfg)@ == with_settings(
            old(cfg)@,
            start_with_windows,
            texts(blacklist@),
            opt_texts(scoped_to),
            match theme {
                Some(t) => Some(t.mode@),
                None => None,
            },
            show_debug_log,
        ),
        r is Ok <==> config_ok(final(cfg)@),
        r matches Ok(c) ==> c@ == final(cfg)@,
        r matches Err(e) ==> (e matches CommandError::Invalid(v) && Some(v@) == config_violation(
            final(cfg)@,
        )),
{
    cfg.start_with_windows = start_with_windows;
    cfg.blacklist = blacklist;
    cfg.scoped_to = scoped_to;
    cfg.show_debug_log = show_debug_log;
    if let Some(t) = theme {
        cfg.theme = t;
    }
    match validate(cfg) {
        Ok(()) => Ok(cfg.clone()),
        Err(RulesError::Validation(v)) => Err(CommandError::Invalid(v)),
        Err(_) => vstd::pervasive::unreached(),
    }
}

/// Replaces the whole configuration by an imported one, if it passes
/// `validate`; otherwise nothing changes.
pub fn import_json(cfg: &mut Config, incoming: Config) -> (r: Result<Config, CommandError>)
    ensures
        r is Ok <==> config_ok(incoming@),
        r matches Ok(c) ==> c@ == incoming@,
        r matches Err(e) ==> (e matches CommandError::Invalid(v) && Some(v@) == config_violation(
            incoming@,
        )),
        final(cfg)@ == (if config_ok(incoming@) {
            incoming@
        } else {
            old(cfg)@
        }),
{
    match validate(&incoming) {
        Ok(()) => {},
        Err(RulesError::Validation(v)) => return Err(CommandError::Invalid(v)),
        Err(_) => vstd::pervasive::unreached(),
    }
    *cfg = incoming.clone();
    Ok(incoming)
}

/// Adds a rule under a fresh id, stamped with the current time when it
/// comes without a creation time. Whatever id and time came, the outcome is
/// `add_outcome` of them. The only other outcomes are `NoEntropy` (the
/// random source failed) and `NoClock` (a stamp was needed and the clock
/// could not give one); both change nothing.
pub fn add_rule(cfg: &mut Config, rule: Rule) -> (r: Result<Config, CommandError>)
    ensures
        r matches Err(CommandError::NoEntropy) ==> final(cfg)@ == old(cfg)@,
        r matches Err(CommandError::NoClock) ==> final(cfg)@ == old(cfg)@ && rule@.created_at.len()
            == 0,
        !(r matches Err(CommandError::NoEntropy)) && !(r matches Err(CommandError::NoClock)) ==> exists|
            id: Seq<char>,
            stamp: Seq<char>,
        |
            {
                &&& is_generated_id(id)
                &&& stamp.len() > 0
                &&& outcome_view(r) == add_outcome(old(cfg)@, #[trigger] settled(rule@, id, stamp))
                &&& applied(old(cfg)@, final(cfg)@, outcome_view(r))
            },
{
    let id = match new_id() {
        Some(id) => id,
        None => return Err(CommandError::NoEntropy),
    };
    let needs_stamp = rule.created_at.as_str().is_empty();
    let stamp = if needs_stamp {
        match now_rfc3339() {
            Some(s) => s,
            None => return Err(CommandError::NoClock),
        }
    } else {
        String::new()
    };
    let ghost id_v = id@;
    let ghost stamp_v = if needs_stamp {
        stamp@
    } else {
        seq!['0']
    };
    assert(settled(rule@, id@, stamp@) == settled(rule@, id_v, stamp_v));
    let r = add_rule_as(cfg, rule, id, stamp);
    assert(add_outcome(old(cfg)@, settled(rule@, id_v, stamp_v)) is Ok ==> r is Ok);
    r
}

/// Replaces the rule stored under `id` (keeping the stored creation time).
/// See `update_outcome`.
pub fn update_rule(cfg: &mut Config, id: String, rule: Rule) -> (r: Result<Config, CommandError>)
    ensures
        outcome_view(r) == update_outcome(old(cfg)@, id@, rule@),
        applied(old(cfg)@, final(cfg)@, outcome_view(r)),
{
    let mut rule = rule;
    if rule.id != id {
        return Err(CommandError::IdMismatch);
    }
    let ghost given = rule@;
    match validate_rule_fields(&mut rule) {
        Ok(()) => {},
        Err(e) => return Err(e),
    }
    let pos = match position_of_id(cfg, id.as_str()) {
        Some(p) => p,
        None => return Err(CommandError::NotFound(id)),
    };
    let t = chars_of(rule.trigger.as_str());
    if trigger_taken_at(&cfg.rules, &t, Some(pos)) {
        return Err(CommandError::DuplicateTrigger(rule.trigger));
    }
    let ghost before = cfg@;
    rule.created_at = cfg.rules[pos].created_at.clone();
    assert(before.rules[pos as int] == cfg.rules@[pos as int]@);
    cfg.rules.set(pos, rule);
    assert(cfg@.rules =~= before.rules.update(
        pos as int,
        RuleView { trigger: t@, created_at: before.rules[pos as int].created_at, ..given },
    ));
    Ok(cfg.clone())
}

/// Decisions for import conflicts as plain values: (trigger, decision)
/// pairs.
pub open spec fn decision_views(ds: Seq<(String, String)>) -> Seq<(Seq<char>, Seq<char>)> {
    ds.map_values(|p: (String, String)| (p.0@, p.1@))
}

/// The decision recorded for a key: the first pair with that key.
pub open spec fn lookup(ds: Seq<(Seq<char>, Seq<char>)>, key: Seq<char>) -> Option<Seq<char>>
    decreases ds.len(),
{
    if ds.len() == 0 {
        None
    } else if ds[0].0 == key {
        Some(ds[0].1)
    } else {
        lookup(ds.drop_first(), key)
    }
}

/// A conflict on `trigger` is overwritten when the decision recorded for the
/// trigger as written (or else for its lowercase form) is "overwrite"; with
/// any other decision, or none, it is skipped.
pub open spec fn overwrites(ds: Seq<(Seq<char>, Seq<char>)>, trigger: Seq<char>) -> bool {
    let d = match lookup(ds, trigger) {
        Some(d) => Some(d),
        None => lookup(ds, lower_seq(trigger)),
    };
    d == Some("overwrite"@)
}

/// Position of the last rule whose lowercase trigger is `key`, or -1.
pub open spec fn last_index_of_key(rules: Seq<RuleView>, key: Seq<char>) -> int
    decreases rules.len(),
{
    if rules.len() == 0 {
        -1
    } else if lower_seq(rules.last().trigger) == key {
        rules.len() - 1
    } else {
        last_index_of_key(rules.drop_last(), key)
    }
}

/// Merging one imported rule. When its trigger clashes (up to ASCII case)
/// with a current rule, the decision says whether the imported content
/// replaces that rule, which keeps its id and creation time; otherwise it
/// is appended under `id`, stamped when it has no creation time.
pub open spec fn merge_step(
    rules: Seq<RuleView>,
    incoming: RuleView,
    ds: Seq<(Seq<char>, Seq<char>)>,
    id: Seq<char>,
    stamp: Seq<char>,
) -> Seq<RuleView> {
    let idx = last_index_of_key(rules, lower_seq(incoming.trigger));
    if idx >= 0 {
        if overwrites(ds, incoming.trigger) {
            rules.update(
                idx,
                RuleView { id: rules[idx].id, created_at: rules[idx].created_at, ..incoming },
            )
        } else {
            rules
        }
    } else {
        rules.push(settled(incoming, id, stamp))
    }
}

/// Merging the imported rules in order; imported rule `k` would be
/// appended under `ids[k]`, stamped `stamps[k]` when it has no creation
/// time.
pub open spec fn merge_all(
    rules: Seq<RuleView>,
    incoming: Seq<RuleView>,
    ds: Seq<(Seq<char>, Seq<char>)>,
    ids: Seq<Seq<char>>,
    stamps: Seq<Seq<char>>,
) -> Seq<RuleView>
    decreases incoming.len(),
{
    if incoming.len() == 0 {
        rules
    } else {
        merge_step(
            merge_all(rules, incoming.drop_last(), ds, ids.drop_last(), stamps.drop_last()),
            incoming.last(),
            ds,
            ids.last(),
            stamps.last(),
        )
    }
}

/// Some rule's trigger equals `t` up to ASCII case.
pub open spec fn clashes(rules: Seq<RuleView>, t: Seq<char>) -> bool {
    trigger_taken(rules, t, -1)
}

/// The decision recorded for a key, as `lookup` names it.
fn lookup_decision<'a>(ds: &'a Vec<(String, String)>, key: &Vec<char>) -> (r: Option<&'a String>)
    ensures
        match lookup(decision_views(ds@), key@) {
            Some(d) => r matches Some(x) && x@ == d,
            None => r is None,
        },
{
    let ghost dv = decision_views(ds@);
    let mut i: usize = 0;
    assert(dv.skip(0) =~= dv);
    while i < ds.len()
        invariant
            i <= ds.len(),
            dv == decision_views(ds@),
            lookup(dv, key@) == lookup(dv.skip(i as int), key@),
        decreases ds.len() - i,
    {
        assert(dv.skip(i as int)[0] == dv[i as int]);
        if crate::text::same_chars(&chars_of(ds[i].0.as_str()), key) {
            return Some(&ds[i].1);
        }
        assert(dv.skip(i as int).drop_first() =~= dv.skip(i + 1));
        i = i + 1;
    }
    None
}

/// Whether the decisions say to overwrite a conflict on `trigger`.
fn wants_overwrite(ds: &Vec<(String, String)>, trigger: &String) -> (r: bool)
    ensures
        r == overwrites(decision_views(ds@), trigger@),
{
    let t = chars_of(trigger.as_str());
    let d = match lookup_decision(ds, &t) {
        Some(d) => Some(d),
        None => lookup_decision(ds, &lower_vec(&t)),
    };
    match d {
        Some(d) => crate::text::same_text(d.as_str(), "overwrite"),
        None => false,
    }
}

/// Position of the last rule whose lowercase trigger is `key`.
fn last_with_key(rules: &Vec<Rule>, key: &Vec<char>) -> (r: Option<usize>)
    ensures
        match r {
            Some(i) => i as int == last_index_of_key(rule_views(rules@), key@) && i < rules@.len(),
            None => last_index_of_key(rule_views(rules@), key@) == -1,
        },
{
    let ghost rv = rule_views(rules@);
    let mut j: usize = rules.len();
    assert(rv.take(j as int) =~= rv);
    while j > 0
        invariant
            j <= rules@.len(),
            rv == rule_views(rules@),
            last_index_of_key(rv, key@) == last_index_of_key(rv.take(j as int), key@),
        decreases j,
    {
        let t = lower_vec(&chars_of(rules[j - 1].trigger.as_str()));
        assert(rv.take(j as int).last() == rv[j - 1]);
        if crate::text::same_chars(&t, key) {
            return Some(j - 1);
        }
        assert(rv.take(j as int).drop_last() =~= rv.take(j - 1));
        j = j - 1;
    }
    None
}

/// Merges imported rules into `rules`, given an id and a creation time for
/// each imported rule (used when it is appended, the time only when it has
/// none). See `merge_all`.
pub fn merge_rules(
    rules: &mut Vec<Rule>,
    incoming: &Vec<Rule>,
    decisions: &Vec<(String, String)>,
    ids: &Vec<String>,
    stamps: &Vec<String>,
)
    requires
        ids@.len() == incoming@.len(),
        stamps@.len() == incoming@.len(),
    ensures
        rule_views(final(rules)@) == merge_all(
            rule_views(old(rules)@),
            rule_views(incoming@),
            decision_views(decisions@),
            texts(ids@),
            texts(stamps@),
        ),
{
    let ghost start = rule_views(rules@);
    let ghost inc = rule_views(incoming@);
    let ghost dv = decision_views(decisions@);
    let ghost iv = texts(ids@);
    let ghost sv = texts(stamps@);
    let mut k: usize = 0;
    assert(inc.take(0) =~= Seq::<RuleView>::empty());
    while k < incoming.len()
        invariant
            k <= incoming@.len(),
            ids@.len() == incoming@.len(),
            stamps@.len() == incoming@.len(),
            inc == rule_views(incoming@),
            dv == decision_views(decisions@),
            iv == texts(ids@),
            sv == texts(stamps@),
            rule_views(rules@) == merge_all(start, inc.take(k as int), dv, iv.take(k as int), sv.take(k as int)),
        decreases incoming.len() - k,
    {
        assert(inc.take(k + 1).drop_last() =~= inc.take(k as int));
        assert(iv.take(k + 1).drop_last() =~= iv.take(k as int));
        assert(sv.take(k + 1).drop_last() =~= sv.take(k as int));
        assert(inc.take(k + 1).last() == inc[k as int]);
        assert(iv.take(k + 1).last() == iv[k as int]);
        assert(sv.take(k + 1).last() == sv[k as int]);
        let ghost before = rule_views(rules@);
        let imported = incoming[k].clone();
        let key = lower_vec(&chars_of(imported.trigger.as_str()));
        match last_with_key(rules, &key) {
            Some(i) => {
                if wants_overwrite(decisions, &imported.trigger) {
                    let mut replacing = imported;
                    replacing.id = rules[i].id.clone();
                    replacing.created_at = rules[i].created_at.clone();
                    rules.set(i, replacing);
                    assert(rule_views(rules@) =~= merge_step(before, inc[k as int], dv, iv[k as int], sv[k as int]));
                }
            },
            None => {
                let mut appended = imported;
                appended.id = ids[k].clone();
                if appended.created_at.as_str().is_empty() {
                    appended.created_at = stamps[k].clone();
                }
                rules.push(appended);
                assert(rule_views(rules@) =~= merge_step(before, inc[k as int], dv, iv[k as int], sv[k as int]));
            },
        }
        k = k + 1;
    }
    assert(inc.take(k as int) =~= inc);
    assert(iv.take(k as int) =~= iv);
    assert(sv.take(k as int) =~= sv);
}

/// What merging draws for imported rule `k`: a generated id when its
/// trigger clashes with no current rule (it will be appended), and then a
/// non-empty time too when it has no creation time.
pub open spec fn drawn_for(
    current: Seq<RuleView>,
    incoming: Seq<RuleView>,
    ids: Seq<Seq<char>>,
    stamps: Seq<Seq<char>>,
    k: int,
) -> bool {
    !clashes(current, incoming[k].trigger) ==> {
        &&& is_generated_id(ids[k])
        &&& incoming[k].created_at.len() == 0 ==> stamps[k].len() > 0
    }
}

/// Merges an imported configuration's rules into the current one. The
/// import must pass `validate` (else nothing changes). Each imported rule
/// that clashes with a current trigger follows its decision (see
/// `overwrites`); the others are appended under fresh ids, stamped with the
/// current time when they have none. Only the rules change. Ids and times
/// are drawn only for the rules to be appended, before anything changes:
/// when the random source (`NoEntropy`) or the clock (`NoClock`) fails for
/// one of them, nothing changes. When every imported trigger clashes,
/// nothing is drawn and a valid import always succeeds.
pub fn merge_import(cfg: &mut Config, incoming: Config, decisions: &Vec<(String, String)>) -> (r:
    Result<Config, CommandError>)
    ensures
        !config_ok(incoming@) ==> {
            &&& r matches Err(CommandError::Invalid(v)) && Some(v@) == config_violation(incoming@)
            &&& final(cfg)@ == old(cfg)@
        },
        r is Err ==> final(cfg)@ == old(cfg)@,
        r matches Err(CommandError::NoEntropy) ==> exists|k: int|
            0 <= k < incoming@.rules.len() && !#[trigger] clashes(old(cfg)@.rules, incoming@.rules[k].trigger),
        r matches Err(CommandError::NoClock) ==> exists|k: int|
            0 <= k < incoming@.rules.len() && !#[trigger] clashes(old(cfg)@.rules, incoming@.rules[k].trigger)
                && incoming@.rules[k].created_at.len() == 0,
        r matches Err(e) ==> (e is Invalid || e is NoEntropy || e is NoClock),
        r matches Err(CommandError::Invalid(_)) ==> !config_ok(incoming@),
        config_ok(incoming@) && (forall|k: int|
            0 <= k < incoming@.rules.len() ==> #[trigger] clashes(old(cfg)@.rules, incoming@.rules[k].trigger))
            ==> r is Ok,
        r is Ok ==> exists|ids: Seq<Seq<char>>, stamps: Seq<Seq<char>>|
            {
                &&& ids.len() == incoming@.rules.len()
                &&& stamps.len() == incoming@.rules.len()
                &&& forall|k: int| 0 <= k < ids.len() ==> #[trigger] drawn_for(old(cfg)@.rules, incoming@.rules, ids, stamps, k)
                &&& final(cfg)@ == with_rules(
                    old(cfg)@,
                    #[trigger] merge_all(
                        old(cfg)@.rules,
                        incoming@.rules,
                        decision_views(decisions@),
                        ids,
                        stamps,
                    ),
                )
                &&& r matches Ok(c) && c@ == final(cfg)@
            },
{
    match validate(&incoming) {
        Ok(()) => {},
        Err(RulesError::Validation(v)) => return Err(CommandError::Invalid(v)),
        Err(_) => vstd::pervasive::unreached(),
    }
    let ghost start = cfg@;
    let ghost inc = incoming@.rules;
    let n = incoming.rules.len();
    let mut ids: Vec<String> = Vec::new();
    let mut stamps: Vec<String> = Vec::new();
    let mut k: usize = 0;
    while k < n
        invariant
            k <= n,
            n == incoming.rules@.len(),
            inc == incoming@.rules,
            config_ok(incoming@),
            cfg@ == start,
            ids@.len() == k,
            stamps@.len() == k,
            forall|j: int| 0 <= j < k ==> #[trigger] drawn_for(start.rules, inc, texts(ids@), texts(stamps@), j),
        decreases n - k,
    {
        let t = chars_of(incoming.rules[k].trigger.as_str());
        assert(inc[k as int] == incoming.rules@[k as int]@);
        let ghost ids0 = ids@;
        let ghost stamps0 = stamps@;
        if trigger_taken_at(&cfg.rules, &t, None) {
            ids.push(String::new());
            stamps.push(String::new());
        } else {
            assert(!clashes(start.rules, inc[k as int].trigger));
            let id = match new_id() {
                Some(id) => id,
                None => return Err(CommandError::NoEntropy),
            };
            let stamp = if incoming.rules[k].created_at.as_str().is_empty() {
                match now_rfc3339() {
                    Some(s) => s,
                    None => return Err(CommandError::NoClock),
                }
            } else {
                String::new()
            };
            ids.push(id);
            stamps.push(stamp);
        }
        assert forall|j: int| 0 <= j <= k implies #[trigger] drawn_for(start.rules, inc, texts(ids@), texts(stamps@), j) by {
            if j < k {
                assert(texts(ids@)[j] == texts(ids0)[j]);
                assert(texts(stamps@)[j] == texts(stamps0)[j]);
                assert(drawn_for(start.rules, inc, texts(ids0), texts(stamps0), j));
            }
        }
        k = k + 1;
    }
    let ghost before = cfg@;
    merge_rules(&mut cfg.rules, &incoming.rules, decisions, &ids, &stamps);
    assert(cfg@ == with_rules(before, merge_all(before.rules, incoming@.rules, decision_views(decisions@), texts(ids@), texts(stamps@))));
    Ok(cfg.clone())
}

/// What the About panel shows: where the program is installed and where
/// its rules file lives.
pub struct AppMeta {
    pub install_dir: String,
    pub config_path: String,
}

/// The About panel's data, from the running executable's path (`None`
/// when unknown) and the rules file's path: the install directory is the
/// executable's parent directory, empty when there is none.
pub fn app_meta(exe_path: Option<String>, config_path: String) -> (m: AppMeta)
    ensures
        m.config_path@ == config_path@,
        m.install_dir@ == match exe_path {
            Some(p) => match path_parent(p@) {
                Some(q) => q,
                None => Seq::<char>::empty(),
            },
            None => Seq::<char>::empty(),
        },
{
    let install_dir = match exe_path {
        Some(p) => match parent_of(p.as_str()) {
            Some(d) => d,
            None => String::new(),
        },
        None => String::new(),
    };
    AppMeta { install_dir, config_path }
}

/// Where an export is written: the given path unless it is missing or
/// empty; then `bloom-rules.json` in the fallback directory (the downloads
/// or home directory), or `None` when no fallback directory is known.
pub fn export_target(path: Option<String>, fallback_dir: Option<String>) -> (r: Option<String>)
    ensures
        path matches Some(p) ==> (p@.len() > 0 ==> (r matches Some(t) && t@ == p@)),
        (path is None || path->0@.len() == 0) ==> match fallback_dir {
            None => r is None,
            Some(d) => r matches Some(t) && t@ == path_joined(d@, "bloom-rules.json"@) && ends_with(
                t@,
                "bloom-rules.json"@,
            ) && (!is_verbatim(d@) ==> adjoined(d@, "bloom-rules.json"@, t@)),
        },
{
    if let Some(p) = path {
        if !p.as_str().is_empty() {
            return Some(p);
        }
    }
    match fallback_dir {
        Some(d) => {
            let name = "bloom-rules.json";
            proof {
                reveal_strlit("bloom-rules.json");
                assert(name@[0] != '.');
            }
            Some(join_path(d.as_str(), name))
        },
        None => None,
    }
}

} // verus!
