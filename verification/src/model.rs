//! The data model of the rules file: rules, theme, the whole configuration,
//! and the errors that loading and checking it can report.
use vstd::prelude::*;
use crate::text::{cat_chars, chars_of, debug_quoted, debug_text, decimal, decimal_text, string_of};

verus! {

/// Version of the rules file format; bumped only on breaking changes.
pub const SCHEMA_VERSION: u32 = 1;
/// Longest trigger accepted, in characters.
pub const MAX_TRIGGER_LEN: usize = 32;
/// Longest replacement accepted, in characters.
pub const MAX_REPLACEMENT_LEN: usize = 4096;

/// One text-replacement rule.
pub struct Rule {
    /// Sortable id (timestamp prefix + random tail); stable across edits.
    pub id: String,
    /// What the user types, optionally scoped as `app.exe:shortcut`.
    pub trigger: String,
    /// What the trigger expands to.
    pub replacement: String,
    pub enabled: bool,
    /// Timestamp of first write; never modified afterwards.
    pub created_at: String,
}

/// The UI theme.
pub struct Theme {
    /// "dark" | "light" | "system".
    pub mode: String,
}

/// The whole rules file.
pub struct Config {
    pub version: u32,
    pub start_with_windows: bool,
    /// Executable file names in which nothing expands (case-insensitive).
    pub blacklist: Vec<String>,
    /// When present, expansion happens only in these executables.
    pub scoped_to: Option<Vec<String>>,
    pub theme: Theme,
    pub show_debug_log: bool,
    pub rules: Vec<Rule>,
}

/// A rule as plain values.
pub struct RuleView {
    pub id: Seq<char>,
    pub trigger: Seq<char>,
    pub replacement: Seq<char>,
    pub enabled: bool,
    pub created_at: Seq<char>,
}

/// The whole rules file as plain values.
pub struct ConfigView {
    pub version: u32,
    pub start_with_windows: bool,
    pub blacklist: Seq<Seq<char>>,
    pub scoped_to: Option<Seq<Seq<char>>>,
    pub theme_mode: Seq<char>,
    pub show_debug_log: bool,
    pub rules: Seq<RuleView>,
}

impl View for Rule {
    type V = RuleView;

    open spec fn view(&self) -> RuleView {
        RuleView {
            id: self.id@,
            trigger: self.trigger@,
            replacement: self.replacement@,
            enabled: self.enabled,
            created_at: self.created_at@,
        }
    }
}

/// The views of a list of strings.
pub open spec fn texts(v: Seq<String>) -> Seq<Seq<char>> {
    v.map_values(|s: String| s@)
}

/// The views of a list of rules.
pub open spec fn rule_views(v: Seq<Rule>) -> Seq<RuleView> {
    v.map_values(|r: Rule| r@)
}

/// The view of an optional list of strings.
pub open spec fn opt_texts(o: Option<Vec<String>>) -> Option<Seq<Seq<char>>> {
    match o {
        Some(v) => Some(texts(v@)),
        None => None,
    }
}

impl View for Config {
    type V = ConfigView;

    open spec fn view(&self) -> ConfigView {
        ConfigView {
            version: self.version,
            start_with_windows: self.start_with_windows,
            blacklist: texts(self.blacklist@),
            scoped_to: opt_texts(self.scoped_to),
            theme_mode: self.theme.mode@,
            show_debug_log: self.show_debug_log,
            rules: rule_views(self.rules@),
        }
    }
}

impl Clone for Rule {
    fn clone(&self) -> (r: Self)
        ensures
            r == *self,
    {
        Rule {
            id: self.id.clone(),
            trigger: self.trigger.clone(),
            replacement: self.replacement.clone(),
            enabled: self.enabled,
            created_at: self.created_at.clone(),
        }
    }
}

impl Clone for Theme {
    fn clone(&self) -> (r: Self)
        ensures
            r == *self,
    {
        Theme { mode: self.mode.clone() }
    }
}

/// A copy of a list of strings.
pub fn clone_strings(v: &Vec<String>) -> (r: Vec<String>)
    ensures
        r@ == v@,
{
    let r = v.clone();
    assert(r@ =~= v@);
    r
}

/// A copy of a list of rules.
pub fn clone_rules(v: &Vec<Rule>) -> (r: Vec<Rule>)
    ensures
        r@ == v@,
{
    let r = v.clone();
    assert(r@ =~= v@);
    r
}

impl Clone for Config {
    fn clone(&self) -> (r: Self)
        ensures
            r@ == self@,
    {
        let scoped_to = match &self.scoped_to {
            Some(v) => Some(clone_strings(v)),
            None => None,
        };
        Config {
            version: self.version,
            start_with_windows: self.start_with_windows,
            blacklist: clone_strings(&self.blacklist),
            scoped_to,
            theme: self.theme.clone(),
            show_debug_log: self.show_debug_log,
            rules: clone_rules(&self.rules),
        }
    }
}

/// The theme a fresh configuration starts with: dark.
pub fn default_theme() -> (t: Theme)
    ensures
        t.mode@ == "dark"@,
{
    Theme { mode: String::from_str("dark") }
}

/// The executables blacklisted in a fresh configuration: common password
/// managers.
pub open spec fn default_blacklist() -> Seq<Seq<char>> {
    seq!["KeePass.exe"@, "1password.exe"@, "Bitwarden.exe"@]
}

/// The configuration used when there is no rules file yet: current schema
/// version, start with Windows, the password managers blacklisted, no global
/// scope, dark theme, no debug log, no rules.
pub open spec fn is_default_config(c: ConfigView) -> bool {
    &&& c.version == SCHEMA_VERSION
    &&& c.start_with_windows
    &&& c.blacklist == default_blacklist()
    &&& c.scoped_to is None
    &&& c.theme_mode == "dark"@
    &&& !c.show_debug_log
    &&& c.rules.len() == 0
}

impl Default for Config {
    fn default() -> (c: Self)
        ensures
            is_default_config(c@),
    {
        let mut blacklist: Vec<String> = Vec::new();
        blacklist.push(String::from_str("KeePass.exe"));
        blacklist.push(String::from_str("1password.exe"));
        blacklist.push(String::from_str("Bitwarden.exe"));
        assert(texts(blacklist@) =~= default_blacklist());
        let rules: Vec<Rule> = Vec::new();
        assert(rule_views(rules@) =~= Seq::<RuleView>::empty());
        Config {
            version: SCHEMA_VERSION,
            start_with_windows: true,
            blacklist,
            scoped_to: None,
            theme: default_theme(),
            show_debug_log: false,
            rules,
        }
    }
}


#[verifier::external_type_specification]
#[verifier::external_body]
pub struct ExJsonError(serde_json::Error);

#[verifier::external_type_specification]
#[verifier::external_body]
pub struct ExIoError(std::io::Error);

/// Why a configuration was rejected.
#[derive(Debug)]
pub enum Violation {
    /// The file's schema version is not `SCHEMA_VERSION`.
    UnsupportedVersion(u32),
    /// The theme mode is not one of "dark", "light", "system".
    UnsupportedTheme(String),
    /// Two rules share this (non-empty) id.
    DuplicateId(String),
    /// A rule has an empty trigger.
    EmptyTrigger,
    /// A trigger has whitespace at an end or a whitespace run other than one space.
    UnnormalizedTrigger(String),
    /// A trigger has this many characters, more than `MAX_TRIGGER_LEN`.
    TriggerTooLong(usize),
    /// Two rules have this trigger, up to ASCII case.
    DuplicateTrigger(String),
    /// A replacement has this many characters, more than `MAX_REPLACEMENT_LEN`.
    ReplacementTooLong(usize),
    /// Any other reason, as text.
    Other(String),
}

/// A violation as plain values.
pub enum ViolationView {
    UnsupportedVersion(u32),
    UnsupportedTheme(Seq<char>),
    DuplicateId(Seq<char>),
    EmptyTrigger,
    UnnormalizedTrigger(Seq<char>),
    TriggerTooLong(nat),
    DuplicateTrigger(Seq<char>),
    ReplacementTooLong(nat),
    Other(Seq<char>),
}

impl View for Violation {
    type V = ViolationView;

    open spec fn view(&self) -> ViolationView {
        match self {
            Violation::UnsupportedVersion(v) => ViolationView::UnsupportedVersion(*v),
            Violation::UnsupportedTheme(s) => ViolationView::UnsupportedTheme(s@),
            Violation::DuplicateId(s) => ViolationView::DuplicateId(s@),
            Violation::EmptyTrigger => ViolationView::EmptyTrigger,
            Violation::UnnormalizedTrigger(s) => ViolationView::UnnormalizedTrigger(s@),
            Violation::TriggerTooLong(n) => ViolationView::TriggerTooLong(*n as nat),
            Violation::DuplicateTrigger(s) => ViolationView::DuplicateTrigger(s@),
            Violation::ReplacementTooLong(n) => ViolationView::ReplacementTooLong(*n as nat),
            Violation::Other(s) => ViolationView::Other(s@),
        }
    }
}

/// Errors of loading, saving and checking the rules file.
#[derive(Debug)]
pub enum RulesError {
    /// The file is not valid JSON for a configuration.
    Json(serde_json::Error),
    /// Reading or writing the file failed.
    Io(std::io::Error),
    /// The configuration breaks a rule of the format.
    Validation(Violation),
}

/// The text of a violation, as the rules file's error messages word it.
pub open spec fn violation_text(v: ViolationView) -> Seq<char> {
    match v {
        ViolationView::UnsupportedVersion(n) => "unsupported schema version: "@ + decimal(n as nat)
            + " (expected "@ + decimal(SCHEMA_VERSION as nat) + ")"@,
        ViolationView::UnsupportedTheme(m) => "unsupported theme mode: "@ + debug_text(m),
        ViolationView::DuplicateId(id) => "duplicate id: "@ + id,
        ViolationView::EmptyTrigger => "trigger cannot be empty"@,
        ViolationView::UnnormalizedTrigger(t) => "trigger must be trimmed with single internal spaces: "@
            + debug_text(t),
        ViolationView::TriggerTooLong(n) => "trigger too long: "@ + decimal(n) + " chars (max "@ + decimal(
            MAX_TRIGGER_LEN as nat,
        ) + ")"@,
        ViolationView::DuplicateTrigger(t) => "duplicate trigger: "@ + debug_text(t),
        ViolationView::ReplacementTooLong(n) => "replacement too long: "@ + decimal(n) + " chars (max "@
            + decimal(MAX_REPLACEMENT_LEN as nat) + ")"@,
        ViolationView::Other(s) => s,
    }
}

/// The text of a rules-file error: the violation under "rule validation: ".
pub open spec fn validation_text(v: ViolationView) -> Seq<char> {
    "rule validation: "@ + violation_text(v)
}

impl Violation {
    /// The violation as a message (see `violation_text`).
    pub fn message(&self) -> (m: String)
        ensures
            m@ == violation_text(self@),
    {
        let v = match self {
            Violation::UnsupportedVersion(n) => {
                let a = cat_chars(chars_of("unsupported schema version: "), decimal_text(*n as u64));
                let b = cat_chars(a, chars_of(" (expected "));
                let c = cat_chars(b, decimal_text(SCHEMA_VERSION as u64));
                cat_chars(c, chars_of(")"))
            },
            Violation::UnsupportedTheme(m) => cat_chars(
                chars_of("unsupported theme mode: "),
                chars_of(debug_quoted(m.as_str()).as_str()),
            ),
            Violation::DuplicateId(id) => cat_chars(chars_of("duplicate id: "), chars_of(id.as_str())),
            Violation::EmptyTrigger => chars_of("trigger cannot be empty"),
            Violation::UnnormalizedTrigger(t) => cat_chars(
                chars_of("trigger must be trimmed with single internal spaces: "),
                chars_of(debug_quoted(t.as_str()).as_str()),
            ),
            Violation::TriggerTooLong(n) => {
                let a = cat_chars(chars_of("trigger too long: "), decimal_text(*n as u64));
                let b = cat_chars(a, chars_of(" chars (max "));
                let c = cat_chars(b, decimal_text(MAX_TRIGGER_LEN as u64));
                cat_chars(c, chars_of(")"))
            },
            Violation::DuplicateTrigger(t) => cat_chars(
                chars_of("duplicate trigger: "),
                chars_of(debug_quoted(t.as_str()).as_str()),
            ),
            Violation::ReplacementTooLong(n) => {
                let a = cat_chars(chars_of("replacement too long: "), decimal_text(*n as u64));
                let b = cat_chars(a, chars_of(" chars (max "));
                let c = cat_chars(b, decimal_text(MAX_REPLACEMENT_LEN as u64));
                cat_chars(c, chars_of(")"))
            },
            Violation::Other(s) => chars_of(s.as_str()),
        };
        string_of(&v)
    }
}

/// `serde_json::Error`'s `Display`: the parser's description of the error
/// with its line and column. Nothing is stated of the text.
#[verifier::external_body]
fn json_error_text(e: &serde_json::Error) -> String {
    format!("{}", e)
}

/// `std::io::Error`'s `Display`: the operating system's description of the
/// error. Nothing is stated of the text.
#[verifier::external_body]
fn io_error_text(e: &std::io::Error) -> String {
    format!("{}", e)
}

/// `s` starts with `p`.
pub open spec fn starts_with(s: Seq<char>, p: Seq<char>) -> bool {
    p.len() <= s.len() && s.subrange(0, p.len() as int) == p
}

impl RulesError {
    /// The error as a message: "invalid JSON: " or "io: " before the
    /// underlying error's text, or the violation under "rule validation: ".
    pub fn message(&self) -> (m: String)
        ensures
            self matches RulesError::Validation(v) ==> m@ == validation_text(v@),
            self is Json ==> starts_with(m@, "invalid JSON: "@),
            self is Io ==> starts_with(m@, "io: "@),
    {
        let v = match self {
            RulesError::Json(e) => {
                let r = cat_chars(chars_of("invalid JSON: "), chars_of(json_error_text(e).as_str()));
                assert(r@.subrange(0, "invalid JSON: "@.len() as int) =~= "invalid JSON: "@);
                r
            },
            RulesError::Io(e) => {
                let r = cat_chars(chars_of("io: "), chars_of(io_error_text(e).as_str()));
                assert(r@.subrange(0, "io: "@.len() as int) =~= "io: "@);
                r
            },
            RulesError::Validation(v) => cat_chars(chars_of("rule validation: "), chars_of(v.message().as_str())),
        };
        string_of(&v)
    }
}

} // verus!
