use bloom::hook::{
    focus_from_path, match_position, match_trigger, vk_action, BufAction, Expansion, Focus, KeyBuffer,
    BUF_MAX, VK_BACK, VK_DOWN, VK_END, VK_ESCAPE, VK_F1, VK_F12, VK_HOME, VK_LEFT, VK_OEM_1, VK_OEM_2,
    VK_OEM_MINUS, VK_OEM_PERIOD, VK_RETURN, VK_SHIFT, VK_SPACE, VK_TAB,
};
use bloom::model::Rule;

fn rule(trigger: &str, replacement: &str) -> Rule {
    Rule {
        id: format!("id-{trigger}"),
        trigger: trigger.to_string(),
        replacement: replacement.to_string(),
        enabled: true,
        created_at: "2026-09-04T10:00:00+00:00".to_string(),
    }
}

fn sample_rules() -> Vec<Rule> {
    vec![
        rule("answer short", "Answer in short in plain English."),
        rule(";test", "Write tests first."),
        rule("/pr", "Describe the change."),
        rule("!!x", "Think harder."),
    ]
}

fn everywhere() -> Focus {
    Focus { exe: "notepad.exe".to_string(), excluded: false }
}

/// Presses the keys that type `text` on a US layout.
fn type_text(buf: &mut KeyBuffer, text: &str) -> bool {
    let mut boundary = false;
    for c in text.chars() {
        let (vk, shift): (u16, bool) = match c {
            'a'..='z' => (c as u16 - 'a' as u16 + 0x41, false),
            'A'..='Z' => (c as u16 - 'A' as u16 + 0x41, true),
            '0'..='9' => (c as u16, false),
            '!' => (0x31, true),
            ' ' => (VK_SPACE, false),
            '\n' => (VK_RETURN, false),
            ';' => (VK_OEM_1, false),
            '/' => (VK_OEM_2, false),
            '.' => (VK_OEM_PERIOD, false),
            '_' => (VK_OEM_MINUS, true),
            _ => panic!("no key for {c:?}"),
        };
        boundary = buf.handle_key(vk, shift);
    }
    boundary
}

fn expand_after(text: &str, rules: &[Rule], focus: &Focus) -> (Option<Expansion>, String) {
    let mut buf = KeyBuffer::new();
    type_text(&mut buf, text);
    let e = buf.complete(&rules.to_vec(), focus);
    (e, buf.text())
}

#[test]
fn vk_action_maps_letters_digits_and_symbols() {
    assert_eq!(vk_action(0x41, false), BufAction::Char('a'));
    assert_eq!(vk_action(0x5A, true), BufAction::Char('z'));
    assert_eq!(vk_action(0x35, false), BufAction::Char('5'));
    assert_eq!(vk_action(0x31, true), BufAction::Char('!'));
    assert_eq!(vk_action(0x39, true), BufAction::Char('('));
    assert_eq!(vk_action(0x30, true), BufAction::Char(')'));
    assert_eq!(vk_action(0x30, false), BufAction::Char('0'));
    assert_eq!(vk_action(VK_TAB, false), BufAction::Char('\t'));
    assert_eq!(vk_action(VK_SPACE, true), BufAction::Char(' '));
    assert_eq!(vk_action(VK_RETURN, false), BufAction::Char('\n'));
    assert_eq!(vk_action(VK_OEM_1, false), BufAction::Char(';'));
    assert_eq!(vk_action(VK_OEM_1, true), BufAction::Char(':'));
    assert_eq!(vk_action(VK_OEM_2, false), BufAction::Char('/'));
    assert_eq!(vk_action(VK_OEM_2, true), BufAction::Char('?'));
    assert_eq!(vk_action(0xDE, true), BufAction::Char('"'));
    assert_eq!(vk_action(0xDC, false), BufAction::Char('\\'));
}

#[test]
fn vk_action_backspace_and_passive_keys() {
    assert_eq!(vk_action(VK_BACK, false), BufAction::Backspace);
    for vk in [VK_ESCAPE, VK_LEFT, VK_DOWN, VK_HOME, VK_END, VK_SHIFT, 0x11, 0x12, 0x5B, VK_F1, VK_F12] {
        assert_eq!(vk_action(vk, false), BufAction::Ignore, "vk {vk:#x}");
    }
    assert_eq!(vk_action(0x7C, false), BufAction::Ignore);
    assert_eq!(vk_action(0xE5, false), BufAction::Ignore);
}

#[test]
fn answer_short_expands_and_keeps_the_space() {
    let (e, rest) = expand_after("answer short ", &sample_rules(), &everywhere());
    let e = e.unwrap();
    assert_eq!(e.paste, "Answer in short in plain English. ");
    assert_eq!(e.backspaces, 13);
    assert_eq!(rest, "");
}

#[test]
fn expansion_after_newline_keeps_the_newline() {
    let (e, _) = expand_after("answer short\n", &sample_rules(), &everywhere());
    let e = e.unwrap();
    assert_eq!(e.paste, "Answer in short in plain English.\n");
    assert_eq!(e.backspaces, 13);
}

#[test]
fn sentence_before_trigger_stays() {
    let (e, _) = expand_after("have an icecream. answer short ", &sample_rules(), &everywhere());
    assert_eq!(e.unwrap().backspaces, 13);
}

#[test]
fn punctuation_prefixed_triggers_fire() {
    let (e, _) = expand_after(";test ", &sample_rules(), &everywhere());
    let e = e.unwrap();
    assert_eq!(e.paste, "Write tests first. ");
    assert_eq!(e.backspaces, 6);
    let (e, _) = expand_after("/pr ", &sample_rules(), &everywhere());
    assert_eq!(e.unwrap().paste, "Describe the change. ");
    let (e, _) = expand_after("!!x ", &sample_rules(), &everywhere());
    assert_eq!(e.unwrap().backspaces, 4);
}

#[test]
fn trigger_needs_word_start() {
    let (e, rest) = expand_after("xanswer short ", &sample_rules(), &everywhere());
    assert!(e.is_none());
    assert_eq!(rest, "xanswer short ");
}

#[test]
fn backspace_then_space_does_not_expand() {
    let mut buf = KeyBuffer::new();
    type_text(&mut buf, "answer short");
    assert!(!buf.handle_key(VK_BACK, false));
    assert!(buf.handle_key(VK_SPACE, false));
    assert_eq!(buf.text(), "answer shor ");
    assert!(buf.complete(&sample_rules(), &everywhere()).is_none());
}

#[test]
fn arrow_keys_leave_buffer() {
    let mut buf = KeyBuffer::new();
    type_text(&mut buf, "answer sh");
    assert!(!buf.handle_key(VK_LEFT, false));
    assert!(!buf.handle_key(VK_SHIFT, true));
    type_text(&mut buf, "ort");
    assert!(type_text(&mut buf, " "));
    assert_eq!(buf.complete(&sample_rules(), &everywhere()).unwrap().backspaces, 13);
}

#[test]
fn buffer_is_capped_between_boundaries() {
    let mut buf = KeyBuffer::new();
    type_text(&mut buf, &"a".repeat(70));
    assert_eq!(buf.text().len(), BUF_MAX);
    type_text(&mut buf, "  ");
    assert_eq!(buf.text().len(), BUF_MAX + 2);
}

#[test]
fn unmatched_boundary_keeps_buffer_for_multi_word_triggers() {
    let mut buf = KeyBuffer::new();
    type_text(&mut buf, "answer ");
    assert!(buf.complete(&sample_rules(), &everywhere()).is_none());
    assert_eq!(buf.text(), "answer ");
    type_text(&mut buf, "short ");
    assert!(buf.complete(&sample_rules(), &everywhere()).is_some());
}

#[test]
fn disabled_rule_does_not_fire() {
    let mut rules = sample_rules();
    rules[0].enabled = false;
    let (e, _) = expand_after("answer short ", &rules, &everywhere());
    assert!(e.is_none());
}

#[test]
fn first_matching_rule_wins() {
    let rules = vec![rule("short", "S"), rule("answer short", "A")];
    let (e, _) = expand_after("answer short ", &rules, &everywhere());
    let e = e.unwrap();
    assert_eq!(e.paste, "S ");
    assert_eq!(e.backspaces, 6);
}

#[test]
fn excluded_application_never_expands() {
    let focus = Focus { exe: "keepass.exe".to_string(), excluded: true };
    let (e, rest) = expand_after("answer short ", &sample_rules(), &focus);
    assert!(e.is_none());
    assert_eq!(rest, "answer short ");
}

#[test]
fn app_scoped_rule_fires_only_in_its_app() {
    let rules = vec![rule("Code.exe: ;log", "console.log()")];
    let code = Focus { exe: "code.exe".to_string(), excluded: false };
    let (e, _) = expand_after(";log ", &rules, &code);
    let e = e.unwrap();
    assert_eq!(e.paste, "console.log() ");
    assert_eq!(e.backspaces, 5);
    let (e, _) = expand_after(";log ", &rules, &everywhere());
    assert!(e.is_none());
    let unknown = Focus { exe: String::new(), excluded: false };
    let (e, _) = expand_after(";log ", &rules, &unknown);
    assert!(e.is_none());
}

#[test]
fn match_trigger_on_typed_text() {
    let rules = sample_rules();
    assert_eq!(match_trigger("answer short ", &rules, "").map(|r| r.id), Some("id-answer short".to_string()));
    assert!(match_trigger("answer short", &rules, "").is_none());
    assert!(match_trigger(" ", &rules, "").is_none());
    assert!(match_trigger("", &rules, "").is_none());
    assert!(match_trigger("an answer short\t", &rules, "").is_some());
}

#[test]
fn match_ignores_case() {
    let rules = sample_rules();
    let upper = match_trigger("ANSWER Short ", &rules, "").map(|r| r.id);
    let lower = match_trigger("answer short ", &rules, "").map(|r| r.id);
    assert_eq!(upper, lower);
    assert!(upper.is_some());
}

#[test]
fn match_position_reports_index() {
    let rules = sample_rules();
    let typed: Vec<char> = "/pr ".chars().collect();
    assert_eq!(match_position(&typed, &rules, &vec![]), Some(2));
}

#[test]
fn focus_blacklist_is_case_insensitive() {
    let blacklist = vec![" KeePass.exe ".to_string()];
    let f = focus_from_path(Some("C:\\Program Files\\KeePass\\KEEPASS.EXE".to_string()), &blacklist, &None);
    assert_eq!(f.exe, "keepass.exe");
    assert!(f.excluded);
    let f = focus_from_path(
        Some("C:\\Program Files\\KeePass\\KeePass.exe".to_string()),
        &blacklist,
        &Some(vec!["keepass.exe".to_string()]),
    );
    assert!(f.excluded);
}

#[test]
fn focus_scoped_to_filters() {
    let path = Some("C:\\Windows\\notepad.exe".to_string());
    let none: Vec<String> = vec![];
    let f = focus_from_path(path.clone(), &none, &Some(vec!["Notepad.exe".to_string()]));
    assert_eq!(f.exe, "notepad.exe");
    assert!(!f.excluded);
    let f = focus_from_path(path.clone(), &none, &Some(vec!["code.exe".to_string()]));
    assert!(f.excluded);
    let f = focus_from_path(path.clone(), &none, &None);
    assert!(!f.excluded);
}

#[test]
fn focus_empty_scope_means_everywhere() {
    let f = focus_from_path(Some("C:\\Windows\\notepad.exe".to_string()), &vec![], &Some(vec![]));
    assert!(!f.excluded);
}

#[test]
fn focus_unknown_window() {
    let f = focus_from_path(None, &vec!["a.exe".to_string()], &Some(vec!["b.exe".to_string()]));
    assert_eq!(f.exe, "");
    assert!(!f.excluded);
    let f = focus_from_path(Some("C:\\dir\\".to_string()), &vec![], &Some(vec!["b.exe".to_string()]));
    assert_eq!(f.exe, "");
    assert!(!f.excluded);
    let f = focus_from_path(Some("plain.exe".to_string()), &vec![], &None);
    assert_eq!(f.exe, "plain.exe");
}

#[test]
fn match_trigger_accepts_text_with_accents() {
    let rules = sample_rules();
    assert!(match_trigger("café answer short ", &rules, "").is_some());
    assert!(match_trigger("answer shorté ", &rules, "").is_none());
}

#[test]
fn tab_completes_a_trigger() {
    let mut buf = KeyBuffer::new();
    type_text(&mut buf, ";test");
    assert!(buf.handle_key(VK_TAB, false));
    let e = buf.complete(&sample_rules(), &everywhere()).unwrap();
    assert_eq!(e.paste, "Write tests first.\t");
    assert_eq!(e.backspaces, 6);
}

#[test]
fn scoped_trigger_erases_only_its_span() {
    let rules = vec![rule("code.exe:;t", "T")];
    let code = Focus { exe: "code.exe".to_string(), excluded: false };
    let (e, _) = expand_after("hello ;t ", &rules, &code);
    let e = e.unwrap();
    assert_eq!(e.backspaces, 3);
    assert_eq!(e.paste, "T ");
}
