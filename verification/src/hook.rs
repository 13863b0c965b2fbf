//! The keystroke side of text replacement: which keys feed the typed-text
//! buffer, how the buffer evolves, which rule a whitespace boundary
//! completes, and which focused applications are left alone. Installing the
//! system-wide keyboard hook, reading the focused window and typing the
//! replacement happen outside the library.
use vstd::prelude::*;
use crate::text::{
    is_whitespace,
    is_ws, lower_seq, trim, collapse, chars_of, lower_vec, trim_vec, collapse_vec,
    eq_ignore_case, same_chars, string_of, all_ascii, first_index_of, last_index_of, slice_vec,
    find_first, find_last,
};
use crate::model::{Rule, RuleView, rule_views, texts};

verus! {

/// Windows virtual-key codes the buffer distinguishes.
pub const VK_BACK: u16 = 0x08;
pub const VK_TAB: u16 = 0x09;
pub const VK_RETURN: u16 = 0x0D;
pub const VK_SHIFT: u16 = 0x10;
pub const VK_CONTROL: u16 = 0x11;
pub const VK_MENU: u16 = 0x12;
pub const VK_ESCAPE: u16 = 0x1B;
pub const VK_SPACE: u16 = 0x20;
pub const VK_PRIOR: u16 = 0x21;
pub const VK_NEXT: u16 = 0x22;
pub const VK_END: u16 = 0x23;
pub const VK_HOME: u16 = 0x24;
pub const VK_LEFT: u16 = 0x25;
pub const VK_UP: u16 = 0x26;
pub const VK_RIGHT: u16 = 0x27;
pub const VK_DOWN: u16 = 0x28;
pub const VK_INSERT: u16 = 0x2D;
pub const VK_DELETE: u16 = 0x2E;
pub const VK_LWIN: u16 = 0x5B;
pub const VK_F1: u16 = 0x70;
pub const VK_F12: u16 = 0x7B;
pub const VK_OEM_1: u16 = 0xBA;
pub const VK_OEM_PLUS: u16 = 0xBB;
pub const VK_OEM_COMMA: u16 = 0xBC;
pub const VK_OEM_MINUS: u16 = 0xBD;
pub const VK_OEM_PERIOD: u16 = 0xBE;
pub const VK_OEM_2: u16 = 0xBF;
pub const VK_OEM_3: u16 = 0xC0;
pub const VK_OEM_4: u16 = 0xDB;
pub const VK_OEM_5: u16 = 0xDC;
pub const VK_OEM_6: u16 = 0xDD;
pub const VK_OEM_7: u16 = 0xDE;

/// The longest the buffer grows by typing non-whitespace characters.
pub const BUF_MAX: usize = 64;

/// What a key does to the buffer.
#[derive(Clone, Copy, Debug, PartialEq, Eq, Structural)]
pub enum BufAction {
    /// A typed character (letters folded to lowercase, US layout).
    Char(char),
    /// Backspace: the buffer loses its last character.
    Backspace,
    /// Modifiers, navigation, function keys and the rest: no change.
    Ignore,
}

/// Keys that leave the buffer alone: Escape, arrows, Home, End, Page
/// Up/Down, Insert, Delete, Shift, Ctrl, Alt, the Windows key, F1..F12.
pub open spec fn is_passive_key(v: u16) -> bool {
    ||| v == VK_ESCAPE
    ||| v == VK_LEFT
    ||| v == VK_RIGHT
    ||| v == VK_UP
    ||| v == VK_DOWN
    ||| v == VK_HOME
    ||| v == VK_END
    ||| v == VK_PRIOR
    ||| v == VK_NEXT
    ||| v == VK_INSERT
    ||| v == VK_DELETE
    ||| v == VK_SHIFT
    ||| v == VK_CONTROL
    ||| v == VK_MENU
    ||| v == VK_LWIN
    ||| (VK_F1 <= v && v <= VK_F12)
}

/// The character a key types on a US layout, given the Shift state; `None`
/// for keys that type nothing the buffer keeps.
pub open spec fn key_char(v: u16, shift: bool) -> Option<char> {
    if 0x41 <= v && v <= 0x5A {
        Some((v - 0x41 + 0x61) as char)
    } else if 0x30 <= v && v <= 0x39 {
        if shift {
            Some(
                if v == 0x30 {
                    ')'
                } else if v == 0x31 {
                    '!'
                } else if v == 0x32 {
                    '@'
                } else if v == 0x33 {
                    '#'
                } else if v == 0x34 {
                    '$'
                } else if v == 0x35 {
                    '%'
                } else if v == 0x36 {
                    '^'
                } else if v == 0x37 {
                    '&'
                } else if v == 0x38 {
                    '*'
                } else {
                    '('
                },
            )
        } else {
            Some(v as char)
        }
    } else if v == VK_SPACE {
        Some(' ')
    } else if v == VK_RETURN {
        Some('\n')
    } else if v == VK_TAB {
        Some('\t')
    } else if v == VK_OEM_1 {
        Some(if shift { ':' } else { ';' })
    } else if v == VK_OEM_2 {
        Some(if shift { '?' } else { '/' })
    } else if v == VK_OEM_3 {
        Some(if shift { '~' } else { '`' })
    } else if v == VK_OEM_4 {
        Some(if shift { '{' } else { '[' })
    } else if v == VK_OEM_5 {
        Some(if shift { '|' } else { '\\' })
    } else if v == VK_OEM_6 {
        Some(if shift { '}' } else { ']' })
    } else if v == VK_OEM_7 {
        Some(if shift { '"' } else { '\'' })
    } else if v == VK_OEM_MINUS {
        Some(if shift { '_' } else { '-' })
    } else if v == VK_OEM_PLUS {
        Some(if shift { '+' } else { '=' })
    } else if v == VK_OEM_COMMA {
        Some(if shift { '<' } else { ',' })
    } else if v == VK_OEM_PERIOD {
        Some(if shift { '>' } else { '.' })
    } else {
        None
    }
}

/// What a key does: passive keys first, then Backspace, then typed
/// characters; anything else is ignored.
pub open spec fn key_action(v: u16, shift: bool) -> BufAction {
    if is_passive_key(v) {
        BufAction::Ignore
    } else if v == VK_BACK {
        BufAction::Backspace
    } else {
        match key_char(v, shift) {
            Some(c) => BufAction::Char(c),
            None => BufAction::Ignore,
        }
    }
}

/// Maps a virtual-key code and the Shift state to what the key does to the
/// buffer (US layout; letters folded to lowercase since matching ignores
/// case).
pub fn vk_action(vk: u16, shift_down: bool) -> (r: BufAction)
    ensures
        r == key_action(vk, shift_down),
{
    let v = vk;
    if v == VK_ESCAPE || v == VK_LEFT || v == VK_RIGHT || v == VK_UP || v == VK_DOWN
        || v == VK_HOME || v == VK_END || v == VK_PRIOR || v == VK_NEXT || v == VK_INSERT || v
        == VK_DELETE || v == VK_SHIFT || v == VK_CONTROL || v == VK_MENU || v == VK_LWIN || (
    VK_F1 <= v && v <= VK_F12) {
        return BufAction::Ignore;
    }
    if v == VK_BACK {
        return BufAction::Backspace;
    }
    let c: char = if 0x41 <= v && v <= 0x5A {
        ((v - 0x41 + 0x61) as u8) as char
    } else if 0x30 <= v && v <= 0x39 {
        if shift_down {
            if v == 0x30 {
                ')'
            } else if v == 0x31 {
                '!'
            } else if v == 0x32 {
                '@'
            } else if v == 0x33 {
                '#'
            } else if v == 0x34 {
                '$'
            } else if v == 0x35 {
                '%'
            } else if v == 0x36 {
                '^'
            } else if v == 0x37 {
                '&'
            } else if v == 0x38 {
                '*'
            } else {
                '('
            }
        } else {
            (v as u8) as char
        }
    } else if v == VK_SPACE {
        ' '
    } else if v == VK_RETURN {
        '\n'
    } else if v == VK_TAB {
        '\t'
    } else if v == VK_OEM_1 {
        if shift_down { ':' } else { ';' }
    } else if v == VK_OEM_2 {
        if shift_down { '?' } else { '/' }
    } else if v == VK_OEM_3 {
        if shift_down { '~' } else { '`' }
    } else if v == VK_OEM_4 {
        if shift_down { '{' } else { '[' }
    } else if v == VK_OEM_5 {
        if shift_down { '|' } else { '\\' }
    } else if v == VK_OEM_6 {
        if shift_down { '}' } else { ']' }
    } else if v == VK_OEM_7 {
        if shift_down { '"' } else { '\'' }
    } else if v == VK_OEM_MINUS {
        if shift_down { '_' } else { '-' }
    } else if v == VK_OEM_PLUS {
        if shift_down { '+' } else { '=' }
    } else if v == VK_OEM_COMMA {
        if shift_down { '<' } else { ',' }
    } else if v == VK_OEM_PERIOD {
        if shift_down { '>' } else { '.' }
    } else {
        return BufAction::Ignore;
    };
    BufAction::Char(c)
}

/// A trigger split at its first ':' into an application scope (trimmed,
/// lowercase) and the trigger proper (trimmed): `app.exe:shortcut`. Without
/// a ':' there is no scope and the trigger is taken as it is.
pub open spec fn scope_split(t: Seq<char>) -> (Option<Seq<char>>, Seq<char>) {
    let p = first_index_of(t, ':');
    if p < 0 {
        (None, t)
    } else {
        (Some(lower_seq(trim(t.subrange(0, p)))), trim(t.subrange(p + 1, t.len() as int)))
    }
}

/// Rule `r` completes the typed text `head` (the buffer without its final
/// whitespace) in application `exe`: it is enabled; its trigger, whitespace
/// collapsed, is not empty; its scope, if any, is `exe` up to ASCII case
/// (and `exe` is known); and `head` ends with the trigger up to ASCII case,
/// at its start or right after whitespace.
pub open spec fn rule_fires(r: RuleView, head: Seq<char>, exe: Seq<char>) -> bool {
    let (scope, raw) = scope_split(r.trigger);
    let trig = collapse(raw);
    &&& r.enabled
    &&& trig.len() > 0
    &&& match scope {
        Some(sc) => exe.len() > 0 && sc == lower_seq(exe),
        None => true,
    }
    &&& head.len() >= trig.len()
    &&& lower_seq(head.subrange(head.len() - trig.len(), head.len() as int)) == lower_seq(trig)
    &&& (head.len() == trig.len() || is_ws(head[head.len() - trig.len() - 1]))
}

/// Position of the first rule among the first `n` that fires, or -1.
pub open spec fn first_firing(rules: Seq<RuleView>, head: Seq<char>, exe: Seq<char>, n: int) -> int
    decreases n,
{
    if n <= 0 {
        -1
    } else {
        let k = first_firing(rules, head, exe, n - 1);
        if k >= 0 {
            k
        } else if rule_fires(rules[n - 1], head, exe) {
            n - 1
        } else {
            -1
        }
    }
}

/// The rule a typed text completes, as a position (-1 for none): the text
/// must end with whitespace after at least one other character, and the
/// first rule, in order, that fires on the text before that whitespace wins.
pub open spec fn match_index(buffer: Seq<char>, rules: Seq<RuleView>, exe: Seq<char>) -> int {
    if buffer.len() < 2 || !is_ws(buffer.last()) {
        -1
    } else {
        first_firing(rules, buffer.drop_last(), exe, rules.len() as int)
    }
}

proof fn lemma_first_firing_stable(
    rules: Seq<RuleView>,
    head: Seq<char>,
    exe: Seq<char>,
    i: int,
    n: int,
)
    requires
        0 <= i < n <= rules.len(),
        first_firing(rules, head, exe, i) == -1,
        rule_fires(rules[i], head, exe),
    ensures
        first_firing(rules, head, exe, n) == i,
    decreases n,
{
    if n > i + 1 {
        lemma_first_firing_stable(rules, head, exe, i, n - 1);
    }
}

/// Splits a trigger at its first ':' as `scope_split` describes.
fn split_scope(t: &Vec<char>) -> (r: (Option<Vec<char>>, Vec<char>))
    ensures
        scope_split(t@) == (match r.0 {
            Some(s) => Some(s@),
            None => None::<Seq<char>>,
        }, r.1@),
{
    match find_first(t, ':') {
        None => {
            let whole = slice_vec(t, 0, t.len());
            assert(whole@ =~= t@);
            (None, whole)
        },
        Some(p) => {
            let n = t.len();
            let scope = lower_vec(&trim_vec(&slice_vec(t, 0, p)));
            let rest = trim_vec(&slice_vec(t, p + 1, n));
            (Some(scope), rest)
        },
    }
}

/// Whether rule `r` fires on `head` in application `exe`.
fn fires(r: &Rule, head: &Vec<char>, exe: &Vec<char>) -> (b: bool)
    ensures
        b == rule_fires(r@, head@, exe@),
{
    if !r.enabled {
        return false;
    }
    let t = chars_of(r.trigger.as_str());
    let (scope, raw) = split_scope(&t);
    let trig = collapse_vec(&raw);
    if trig.len() == 0 {
        return false;
    }
    match scope {
        Some(sc) => {
            if exe.len() == 0 {
                return false;
            }
            if !eq_ignore_case(&sc, exe) {
                proof {
                    crate::text::lemma_lower_idempotent(trim(t@.subrange(0, first_index_of(t@, ':'))));
                }
                return false;
            }
            proof {
                crate::text::lemma_lower_idempotent(trim(t@.subrange(0, first_index_of(t@, ':'))));
            }
        },
        None => {},
    }
    let h = head.len();
    let n = trig.len();
    if h < n {
        return false;
    }
    let end = slice_vec(head, h - n, h);
    if !eq_ignore_case(&end, &trig) {
        return false;
    }
    h == n || is_whitespace(head[h - n - 1])
}

/// Position of the rule the buffer completes, as `match_index` names it.
pub fn match_position(buffer: &Vec<char>, rules: &Vec<Rule>, exe: &Vec<char>) -> (r: Option<usize>)
    ensures
        match r {
            Some(i) => i as int == match_index(buffer@, rule_views(rules@), exe@) && i < rules@.len(),
            None => match_index(buffer@, rule_views(rules@), exe@) == -1,
        },
{
    let ghost rv = rule_views(rules@);
    if buffer.len() < 2 || !is_whitespace(buffer[buffer.len() - 1]) {
        return None;
    }
    let head = slice_vec(buffer, 0, buffer.len() - 1);
    assert(head@ =~= buffer@.drop_last());
    let mut i: usize = 0;
    while i < rules.len()
        invariant
            i <= rules@.len(),
            rv == rule_views(rules@),
            buffer@.len() >= 2,
            is_ws(buffer@.last()),
            head@ == buffer@.drop_last(),
            first_firing(rv, head@, exe@, i as int) == -1,
        decreases rules.len() - i,
    {
        assert(rv[i as int] == rules@[i as int]@);
        if fires(&rules[i], &head, exe) {
            proof {
                lemma_first_firing_stable(rv, head@, exe@, i as int, rv.len() as int);
            }
            return Some(i);
        }
        i = i + 1;
    }
    None
}

/// Bytes of a character in UTF-8.
pub open spec fn utf8_width(c: char) -> nat {
    let u = c as u32;
    if u < 0x80 {
        1
    } else if u < 0x800 {
        2
    } else if u < 0x10000 {
        3
    } else {
        4
    }
}

/// Bytes of a text in UTF-8.
pub open spec fn utf8_len(s: Seq<char>) -> nat
    decreases s.len(),
{
    if s.len() == 0 {
        0
    } else {
        utf8_len(s.drop_last()) + utf8_width(s.last())
    }
}

/// Byte offset `b` of `s` falls between two characters.
pub open spec fn on_char_boundary(s: Seq<char>, b: int) -> bool {
    exists|k: int| 0 <= k <= s.len() && #[trigger] utf8_len(s.take(k)) == b
}

/// Checking rule `r` against `head` byte-wise would cut `head` inside a
/// character: the rule is enabled, has a trigger, suits the application,
/// and the trigger's byte length does not end on a character boundary
/// counted from the end of `head`.
pub open spec fn cuts_inside(r: RuleView, head: Seq<char>, exe: Seq<char>) -> bool {
    let (scope, raw) = scope_split(r.trigger);
    let trig = collapse(raw);
    &&& r.enabled
    &&& trig.len() > 0
    &&& match scope {
        Some(sc) => exe.len() > 0 && sc == lower_seq(exe),
        None => true,
    }
    &&& utf8_len(head) >= utf8_len(trig)
    &&& !on_char_boundary(head, utf8_len(head) - utf8_len(trig))
}

/// Typed text on which a byte-wise matcher slices inside a character: the
/// final whitespace takes more than one byte, or a rule checked before the
/// first one that fires cuts inside a character.
pub open spec fn cuts_text(buffer: Seq<char>, rules: Seq<RuleView>, exe: Seq<char>) -> bool {
    &&& buffer.len() > 0
    &&& is_ws(buffer.last())
    &&& {
        ||| utf8_width(buffer.last()) > 1
        ||| (buffer.len() >= 2 && exists|i: int|
            0 <= i < rules.len() && first_firing(rules, buffer.drop_last(), exe, i) == -1
                && #[trigger] cuts_inside(rules[i], buffer.drop_last(), exe))
    }
}

proof fn lemma_ascii_utf8_len(s: Seq<char>)
    requires
        all_ascii(s),
    ensures
        utf8_len(s) == s.len(),
    decreases s.len(),
{
    if s.len() > 0 {
        lemma_ascii_utf8_len(s.drop_last());
    }
}

/// ASCII text is never cut inside a character.
pub proof fn lemma_ascii_never_cut(buffer: Seq<char>, rules: Seq<RuleView>, exe: Seq<char>)
    requires
        all_ascii(buffer),
    ensures
        !cuts_text(buffer, rules, exe),
{
    if buffer.len() >= 2 {
        let head = buffer.drop_last();
        assert(all_ascii(head));
        lemma_ascii_utf8_len(head);
        assert forall|i: int| 0 <= i < rules.len() implies !#[trigger] cuts_inside(rules[i], head, exe) by {
            let (scope, raw) = scope_split(rules[i].trigger);
            let trig = collapse(raw);
            if utf8_len(head) >= utf8_len(trig) {
                let b = utf8_len(head) - utf8_len(trig);
                assert(all_ascii(head.take(b)));
                lemma_ascii_utf8_len(head.take(b));
                assert(utf8_len(head.take(b)) == b);
            }
        }
    }
}

/// The rule that a typed text completes in application `exe` (see
/// `match_index`). Text that `cuts_text` describes is left out: a
/// byte-wise check would slice it inside a character (ASCII text, as the
/// keystroke buffer holds, never is).
pub fn match_trigger(buffer: &str, rules: &Vec<Rule>, exe: &str) -> (r: Option<Rule>)
    requires
        !cuts_text(buffer@, rule_views(rules@), exe@),
    ensures
        r is None <==> match_index(buffer@, rule_views(rules@), exe@) == -1,
        r matches Some(x) ==> x@ == rule_views(rules@)[match_index(buffer@, rule_views(rules@), exe@)],
{
    let b = chars_of(buffer);
    let e = chars_of(exe);
    match match_position(&b, rules, &e) {
        Some(i) => {
            assert(rule_views(rules@)[i as int] == rules@[i as int]@);
            Some(rules[i].clone())
        },
        None => None,
    }
}

/// Last position at or before `i` where `t` occurs in `s`, or -1.
pub open spec fn last_occurrence_from(s: Seq<char>, t: Seq<char>, i: int) -> int
    decreases i + 1,
{
    if i < 0 {
        -1
    } else if s.subrange(i, i + t.len()) == t {
        i
    } else {
        last_occurrence_from(s, t, i - 1)
    }
}

/// Last position where `t` occurs in `s` (`str::rfind`), or -1.
pub open spec fn last_occurrence(s: Seq<char>, t: Seq<char>) -> int {
    if t.len() > s.len() {
        -1
    } else {
        last_occurrence_from(s, t, s.len() - t.len())
    }
}

/// The trigger a rule matches on: the part after its application scope,
/// if any, with whitespace collapsed.
pub open spec fn trigger_proper(t: Seq<char>) -> Seq<char> {
    collapse(scope_split(t).1)
}

/// How many characters to erase when a rule fires: from the last place the
/// rule's trigger proper occurs in the buffer (ignoring ASCII case) to the
/// end, the final whitespace included; the whole buffer should it not occur
/// (which cannot happen for a rule that fired, see the laws).
pub open spec fn erase_count(buffer: Seq<char>, trigger: Seq<char>) -> int {
    let at = last_occurrence(lower_seq(buffer), lower_seq(trigger_proper(trigger)));
    buffer.len() - (if at < 0 {
        0
    } else {
        at
    })
}

/// Where `t` last occurs in `s`.
fn rfind(s: &Vec<char>, t: &Vec<char>) -> (r: Option<usize>)
    ensures
        match r {
            Some(i) => i as int == last_occurrence(s@, t@) && i <= s@.len(),
            None => last_occurrence(s@, t@) == -1,
        },
{
    if t.len() > s.len() {
        return None;
    }
    let sl = s.len();
    let tl = t.len();
    let mut j: usize = sl - tl;
    loop
        invariant
            sl == s@.len(),
            tl == t@.len(),
            tl <= sl,
            j <= sl - tl,
            last_occurrence(s@, t@) == last_occurrence_from(s@, t@, j as int),
        decreases j,
    {
        let candidate = slice_vec(s, j, j + tl);
        if same_chars(&candidate, t) {
            return Some(j);
        }
        if j == 0 {
            assert(last_occurrence_from(s@, t@, -1) == -1);
            return None;
        }
        j = j - 1;
    }
}

/// What to do when a rule fires: erase `backspaces` typed characters (the
/// trigger and the whitespace after it), then paste `paste`: the rule's
/// replacement as it is written (placeholders included) followed by that
/// whitespace, so the boundary stays after the expansion.
pub struct Expansion {
    pub paste: String,
    pub backspaces: usize,
}

/// The text the application shows after an expansion: the typed text
/// less its last `backspaces` characters, then what was pasted.
pub open spec fn text_after(buffer: Seq<char>, backspaces: int, paste: Seq<char>) -> Seq<char> {
    buffer.subrange(0, buffer.len() - backspaces) + paste
}

/// The focused application, as the matcher sees it.
pub struct Focus {
    /// Lowercase executable file name; empty when unknown.
    pub exe: String,
    /// Whether expansion is switched off in this application.
    pub excluded: bool,
}

/// The file name at the end of a Windows path (after the last '\\').
pub open spec fn exe_name(path: Seq<char>) -> Seq<char> {
    let i = last_index_of(path, '\\');
    if i < 0 {
        path
    } else {
        path.subrange(i + 1, path.len() as int)
    }
}

/// Some entry of the list, trimmed and lowercased, is `exe`.
pub open spec fn listed(list: Seq<Seq<char>>, exe: Seq<char>) -> bool {
    exists|k: int| 0 <= k < list.len() && lower_seq(trim(#[trigger] list[k])) == exe
}

/// The focus for the module path of the focused window's process (`None`
/// when there is no such window or it cannot be read): the lowercase file
/// name, excluded when the blacklist names it, or when a non-empty
/// `scoped_to` does not name it. An unknown application is never excluded.
pub open spec fn focus_of(
    path: Option<Seq<char>>,
    blacklist: Seq<Seq<char>>,
    scoped_to: Option<Seq<Seq<char>>>,
) -> (Seq<char>, bool) {
    match path {
        None => (Seq::empty(), false),
        Some(p) => {
            let exe = lower_seq(exe_name(p));
            if exe.len() == 0 {
                (Seq::empty(), false)
            } else if listed(blacklist, exe) {
                (exe, true)
            } else {
                match scoped_to {
                    Some(scope) => (exe, scope.len() > 0 && !listed(scope, exe)),
                    None => (exe, false),
                }
            }
        },
    }
}

/// Whether some entry of the list, trimmed and lowercased, is `exe`.
fn is_listed(list: &Vec<String>, exe: &Vec<char>) -> (b: bool)
    ensures
        b == listed(texts(list@), exe@),
{
    let ghost lv = texts(list@);
    let mut k: usize = 0;
    while k < list.len()
        invariant
            k <= list@.len(),
            lv == texts(list@),
            forall|j: int| 0 <= j < k ==> lower_seq(trim(#[trigger] lv[j])) != exe@,
        decreases list.len() - k,
    {
        let entry = lower_vec(&trim_vec(&chars_of(list[k].as_str())));
        assert(lv[k as int] == list@[k as int]@);
        if same_chars(&entry, exe) {
            return true;
        }
        k = k + 1;
    }
    false
}

/// The focus for the focused window's module path (see `focus_of`).
pub fn focus_from_path(
    path: Option<String>,
    blacklist: &Vec<String>,
    scoped_to: &Option<Vec<String>>,
) -> (f: Focus)
    ensures
        (f.exe@, f.excluded) == focus_of(
            match path {
                Some(p) => Some(p@),
                None => None,
            },
            texts(blacklist@),
            crate::model::opt_texts(*scoped_to),
        ),
{
    let p = match path {
        None => return Focus { exe: String::new(), excluded: false },
        Some(p) => chars_of(p.as_str()),
    };
    let n = p.len();
    let name = match find_last(&p, '\\') {
        Some(i) => slice_vec(&p, i + 1, n),
        None => slice_vec(&p, 0, n),
    };
    assert(p@.subrange(0, n as int) =~= p@);
    let exe = lower_vec(&name);
    if exe.len() == 0 {
        return Focus { exe: String::new(), excluded: false };
    }
    if is_listed(blacklist, &exe) {
        return Focus { exe: string_of(&exe), excluded: true };
    }
    let excluded = match scoped_to {
        Some(scope) => scope.len() > 0 && !is_listed(scope, &exe),
        None => false,
    };
    Focus { exe: string_of(&exe), excluded }
}

/// The characters a key types that end a word: space, newline, tab.
pub open spec fn is_boundary_char(c: char) -> bool {
    c == ' ' || c == '\n' || c == '\t'
}

/// The buffer after a key: a typed character is appended (and, unless it
/// is a space, newline or tab, the oldest character goes once the buffer holds
/// more than `BUF_MAX`); Backspace removes the last character; other keys
/// change nothing.
pub open spec fn after_key(buf: Seq<char>, a: BufAction) -> Seq<char> {
    match a {
        BufAction::Char(c) => if is_boundary_char(c) {
            buf.push(c)
        } else if buf.len() + 1 > BUF_MAX {
            buf.push(c).drop_first()
        } else {
            buf.push(c)
        },
        BufAction::Backspace => if buf.len() > 0 {
            buf.drop_last()
        } else {
            buf
        },
        BufAction::Ignore => buf,
    }
}

/// The key typed a space, newline or tab: time to look for a completed trigger.
pub open spec fn is_boundary(a: BufAction) -> bool {
    a matches BufAction::Char(c) && is_boundary_char(c)
}

/// The typed-text buffer of the keyboard hook.
pub struct KeyBuffer {
    chars: Vec<char>,
}

impl View for KeyBuffer {
    type V = Seq<char>;

    closed spec fn view(&self) -> Seq<char> {
        self.chars@
    }
}

impl KeyBuffer {
    /// An empty buffer.
    pub fn new() -> (b: Self)
        ensures
            b@ == Seq::<char>::empty(),
    {
        KeyBuffer { chars: Vec::new() }
    }

    /// The buffered text.
    pub fn text(&self) -> (s: String)
        ensures
            s@ == self@,
    {
        string_of(&self.chars)
    }

    /// Feeds one key press (virtual-key code and Shift state) to the buffer;
    /// says whether it was a whitespace boundary, after which the caller
    /// looks for a completed trigger with `complete`.
    pub fn handle_key(&mut self, vk: u16, shift_down: bool) -> (boundary: bool)
        ensures
            final(self)@ == after_key(old(self)@, key_action(vk, shift_down)),
            boundary == is_boundary(key_action(vk, shift_down)),
    {
        match vk_action(vk, shift_down) {
            BufAction::Char(c) => {
                self.chars.push(c);
                if c == ' ' || c == '\n' || c == '\t' {
                    return true;
                }
                if self.chars.len() > BUF_MAX {
                    self.chars.remove(0);
                    proof {
                        assert(self.chars@ =~= old(self)@.push(c).drop_first());
                    }
                }
                false
            },
            BufAction::Backspace => {
                self.chars.pop();
                false
            },
            BufAction::Ignore => false,
        }
    }

    /// After a boundary: unless the focused application is excluded, finds
    /// the rule the buffer completes (see `match_index`); when there is one,
    /// empties the buffer and says how many characters to erase and what to
    /// paste (the replacement, then the whitespace just typed). Otherwise
    /// the buffer is kept.
    pub fn complete(&mut self, rules: &Vec<Rule>, focus: &Focus) -> (r: Option<Expansion>)
        ensures
            focus.excluded ==> r is None && final(self)@ == old(self)@,
            !focus.excluded ==> {
                let i = match_index(old(self)@, rule_views(rules@), focus.exe@);
                &&& i < 0 ==> r is None && final(self)@ == old(self)@
                &&& i >= 0 ==> (r matches Some(e) && e.paste@ == rule_views(rules@)[i].replacement.push(
                    old(self)@.last(),
                ) && e.backspaces == erase_count(old(self)@, rule_views(rules@)[i].trigger)
                    && final(self)@ == Seq::<char>::empty())
            },
    {
        if focus.excluded {
            return None;
        }
        let exe = chars_of(focus.exe.as_str());
        let i = match match_position(&self.chars, rules, &exe) {
            Some(i) => i,
            None => return None,
        };
        let rule = &rules[i];
        assert(rule_views(rules@)[i as int] == rule@);
        let buf_lc = lower_vec(&self.chars);
        let (_scope, raw) = split_scope(&chars_of(rule.trigger.as_str()));
        let trig_lc = lower_vec(&collapse_vec(&raw));
        let len = self.chars.len();
        let start = match rfind(&buf_lc, &trig_lc) {
            Some(at) => at,
            None => 0,
        };
        let n = len - start;
        let boundary = self.chars[len - 1];
        let mut paste = rule.replacement.clone();
        paste.push(boundary);
        self.chars.clear();
        Some(Expansion { paste, backspaces: n })
    }
}

} // verus!
