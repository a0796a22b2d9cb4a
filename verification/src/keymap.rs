use vstd::prelude::*;
use vstd::string::StrSliceExecFns;
use crate::unicode::str_eq;
use crate::unicode::str_starts_with;

verus! {

/// The editor's modes; they govern how keystrokes are interpreted.
#[derive(Clone, Copy, Debug, PartialEq, Eq, Structural)]
pub enum Mode {
    Normal,
    Insert,
    Visual,
    VisualLine,
    VisualBlock,
}

/// The closed set of commands a key sequence can resolve to.
#[derive(Clone, Copy, Debug, PartialEq, Eq, Structural)]
pub enum Action {
    MoveLeft,
    MoveRight,
    MoveUp,
    MoveDown,
    LineStart,
    LineEnd,
    GotoTop,
    GotoBottom,
    EnterInsert,
    Append,
    OpenBelow,
    OpenAbove,
    DeleteCharUnder,
    DeleteLine,
    OperatorDelete,
    OperatorChange,
    OperatorYank,
    MoveWordForward,
    MoveWordBackward,
    MoveEndWord,
    Undo,
    Redo,
    CommandPrompt,
    EnterVisual,
    EnterVisualLine,
    EnterVisualBlock,
    PasteAfter,
    PasteBefore,
}

/// A key-sequence-to-action mapping.  Later entries win, so overrides are
/// plain appends.
pub struct Keymap {
    entries: Vec<(String, Action)>,
}

impl View for Keymap {
    type V = Seq<(Seq<char>, Action)>;

    closed spec fn view(&self) -> Seq<(Seq<char>, Action)> {
        self.entries@.map_values(|p: (String, Action)| (p.0@, p.1))
    }
}

/// The action bound to `key`, taking the latest matching entry.
pub open spec fn keymap_lookup(m: Seq<(Seq<char>, Action)>, key: Seq<char>) -> Option<Action>
    decreases m.len()
{
    if m.len() == 0 {
        None
    } else if m.last().0 == key {
        Some(m.last().1)
    } else {
        keymap_lookup(m.drop_last(), key)
    }
}

/// Whether some bound sequence has `p` as a prefix.
pub open spec fn keymap_has_prefix(m: Seq<(Seq<char>, Action)>, p: Seq<char>) -> bool {
    exists|k: int| 0 <= k < m.len() && (#[trigger] m[k].0.len()) >= p.len()
        && m[k].0.subrange(0, p.len() as int) == p
}

impl Keymap {
    pub fn new() -> (m: Keymap)
        ensures
            m@ == Seq::<(Seq<char>, Action)>::empty(),
    {
        let m = Keymap { entries: Vec::new() };
        proof {
            assert(m@ =~= Seq::<(Seq<char>, Action)>::empty());
        }
        m
    }

    /// Binds `seq` to `act`; it shadows any earlier binding of `seq`.
    pub fn insert_binding(&mut self, seq: String, act: Action)
        ensures
            final(self)@ == old(self)@.push((seq@, act)),
    {
        let ghost s0 = self@;
        let ghost key = seq@;
        self.entries.push((seq, act));
        proof {
            assert(final(self)@ =~= s0.push((key, act)));
        }
    }

    pub fn len(&self) -> (n: usize)
        ensures
            n == self@.len(),
    {
        self.entries.len()
    }

    /// Looks a whole sequence up; the latest binding wins.
    pub fn get(&self, key: &str) -> (r: Option<Action>)
        ensures
            r == keymap_lookup(self@, key@),
    {
        let n = self.entries.len();
        proof {
            assert(self@.take(n as int) =~= self@);
        }
        let mut i: usize = n;
        while i > 0
            invariant
                n == self.entries@.len(),
                self@.len() == n,
                i <= n,
                keymap_lookup(self@.take(i as int), key@) == keymap_lookup(self@, key@),
            decreases i,
        {
            i = i - 1;
            proof {
                assert(self@.take(i as int + 1).last() == self@[i as int]);
                assert(self@.take(i as int + 1).drop_last() =~= self@.take(i as int));
                assert(self@[i as int].0 == self.entries@[i as int].0@);
            }
            if str_eq(self.entries[i].0.as_str(), key) {
                return Some(self.entries[i].1);
            }
        }
        proof {
            assert(self@.take(0) =~= Seq::<(Seq<char>, Action)>::empty());
        }
        None
    }

    /// Whether any bound sequence starts with `p`.
    pub fn has_prefix(&self, p: &str) -> (r: bool)
        ensures
            r == keymap_has_prefix(self@, p@),
    {
        let n = self.entries.len();
        let mut i: usize = 0;
        while i < n
            invariant
                n == self.entries@.len(),
                i <= n,
                forall|k: int| 0 <= k < i ==> !((#[trigger] self@[k].0.len()) >= p@.len()
                    && self@[k].0.subrange(0, p@.len() as int) == p@),
            decreases n - i,
        {
            if str_starts_with(self.entries[i].0.as_str(), p) {
                proof {
                    assert(self@[i as int].0 == self.entries@[i as int].0@);
                    assert((self@[i as int].0.len()) >= p@.len()
                        && self@[i as int].0.subrange(0, p@.len() as int) == p@);
                }
                return true;
            }
            i += 1;
        }
        false
    }
}

/// The built-in bindings of the editor, later-wins order.
pub open spec fn default_bindings() -> Seq<(Seq<char>, Action)> {
    seq![
        ("h"@, Action::MoveLeft),
        ("j"@, Action::MoveDown),
        ("k"@, Action::MoveUp),
        ("l"@, Action::MoveRight),
        ("0"@, Action::LineStart),
        ("$"@, Action::LineEnd),
        ("gg"@, Action::GotoTop),
        ("G"@, Action::GotoBottom),
        ("i"@, Action::EnterInsert),
        ("v"@, Action::EnterVisual),
        ("V"@, Action::EnterVisualLine),
        ("a"@, Action::Append),
        ("o"@, Action::OpenBelow),
        ("O"@, Action::OpenAbove),
        ("x"@, Action::DeleteCharUnder),
        ("dd"@, Action::DeleteLine),
        ("d"@, Action::OperatorDelete),
        ("c"@, Action::OperatorChange),
        ("y"@, Action::OperatorYank),
        ("u"@, Action::Undo),
        ("w"@, Action::MoveWordForward),
        ("b"@, Action::MoveWordBackward),
        ("e"@, Action::MoveEndWord),
        (":"@, Action::CommandPrompt),
        ("p"@, Action::PasteAfter),
        ("P"@, Action::PasteBefore),
    ]
}

/// The standard modal bindings.
pub fn default_keymap() -> (m: Keymap)
    ensures
        m@ == default_bindings(),
{
    let mut m = Keymap::new();
    m.insert_binding(String::from_str("h"), Action::MoveLeft);
    m.insert_binding(String::from_str("j"), Action::MoveDown);
    m.insert_binding(String::from_str("k"), Action::MoveUp);
    m.insert_binding(String::from_str("l"), Action::MoveRight);
    m.insert_binding(String::from_str("0"), Action::LineStart);
    m.insert_binding(String::from_str("$"), Action::LineEnd);
    m.insert_binding(String::from_str("gg"), Action::GotoTop);
    m.insert_binding(String::from_str("G"), Action::GotoBottom);
    m.insert_binding(String::from_str("i"), Action::EnterInsert);
    m.insert_binding(String::from_str("v"), Action::EnterVisual);
    m.insert_binding(String::from_str("V"), Action::EnterVisualLine);
    m.insert_binding(String::from_str("a"), Action::Append);
    m.insert_binding(String::from_str("o"), Action::OpenBelow);
    m.insert_binding(String::from_str("O"), Action::OpenAbove);
    m.insert_binding(String::from_str("x"), Action::DeleteCharUnder);
    m.insert_binding(String::from_str("dd"), Action::DeleteLine);
    m.insert_binding(String::from_str("d"), Action::OperatorDelete);
    m.insert_binding(String::from_str("c"), Action::OperatorChange);
    m.insert_binding(String::from_str("y"), Action::OperatorYank);
    m.insert_binding(String::from_str("u"), Action::Undo);
    m.insert_binding(String::from_str("w"), Action::MoveWordForward);
    m.insert_binding(String::from_str("b"), Action::MoveWordBackward);
    m.insert_binding(String::from_str("e"), Action::MoveEndWord);
    m.insert_binding(String::from_str(":"), Action::CommandPrompt);
    m.insert_binding(String::from_str("p"), Action::PasteAfter);
    m.insert_binding(String::from_str("P"), Action::PasteBefore);
    proof {
        assert(m@ =~= default_bindings());
    }
    m
}

/// Configuration the loader hands the editor: the merged keymap and whether
/// to start in insert mode.
pub struct EditorConfig {
    pub keymap: Keymap,
    pub start_in_insert: bool,
}


/// ASCII-case-insensitive character equality.
pub open spec fn eq_ic(a: char, b: char) -> bool {
    ||| a == b
    ||| ((a as u32) >= 65 && (a as u32) <= 90 && (b as u32) == (a as u32) + 32)
    ||| ((b as u32) >= 65 && (b as u32) <= 90 && (a as u32) == (b as u32) + 32)
}

/// ASCII-case-insensitive string equality.
pub open spec fn str_eq_ic(a: Seq<char>, b: Seq<char>) -> bool {
    a.len() == b.len() && forall|j: int| 0 <= j < a.len() ==> eq_ic(#[trigger] a[j], b[j])
}

/// Index of the first non-quote character at or after `i`.
pub open spec fn qs_ltrim(s: Seq<char>, i: int) -> int
    decreases s.len() - i when 0 <= i <= s.len()
{
    if i >= s.len() {
        i
    } else if s[i] == '"' {
        qs_ltrim(s, i + 1)
    } else {
        i
    }
}

/// Index just past the last non-quote character before `j`, not below `a`.
pub open spec fn qs_rtrim(s: Seq<char>, a: int, j: int) -> int
    decreases j when 0 <= a && a <= j <= s.len()
{
    if j <= a {
        j
    } else if s[j - 1] == '"' {
        qs_rtrim(s, a, j - 1)
    } else {
        j
    }
}

/// The string with double quotes removed from both ends.
pub open spec fn strip_quotes_spec(s: Seq<char>) -> Seq<char> {
    let a = qs_ltrim(s, 0);
    s.subrange(a, qs_rtrim(s, a, s.len() as int))
}

/// Index of the first `'='` at or after `i`, or `s.len()` when none.
pub open spec fn eq_scan(s: Seq<char>, i: int) -> int
    decreases s.len() - i when 0 <= i <= s.len()
{
    if i >= s.len() {
        s.len() as int
    } else if s[i] == '=' {
        i
    } else {
        eq_scan(s, i + 1)
    }
}

/// Whether a configuration value switches a flag on: 1/true/yes/on,
/// case-insensitively.
pub open spec fn truthy(v: Seq<char>) -> bool {
    ||| str_eq_ic(v, "1"@)
    ||| str_eq_ic(v, "true"@)
    ||| str_eq_ic(v, "yes"@)
    ||| str_eq_ic(v, "on"@)
}

/// What one configuration line does to `(section, bindings, start flag)`:
/// blanks and comments are skipped, `[name]` switches the section, and a
/// `key = value` line appends a binding in `[normal]` (when the action name
/// parses) or sets the start flag in `[general]`.
pub open spec fn line_effect(
    sec: Seq<char>, km: Seq<(Seq<char>, Action)>, sii: bool, line: Seq<char>,
) -> (Seq<char>, Seq<(Seq<char>, Action)>, bool) {
    let t = crate::editor::trim_spec(line);
    if t.len() == 0 {
        (sec, km, sii)
    } else if t[0] == '#' {
        (sec, km, sii)
    } else if t[0] == '[' && t[t.len() - 1] == ']' {
        (t.subrange(1, t.len() - 1), km, sii)
    } else {
        let e = eq_scan(t, 0);
        if e >= t.len() {
            (sec, km, sii)
        } else {
            let key = crate::editor::trim_spec(t.subrange(0, e));
            let val = crate::editor::trim_spec(t.subrange(e + 1, t.len() as int));
            if sec == "normal"@ {
                match action_for(val) {
                    Some(a) => (sec, km.push((strip_quotes_spec(key), a)), sii),
                    None => (sec, km, sii),
                }
            } else if sec == "general"@ {
                if str_eq_ic(key, "start_in_insert"@) {
                    (sec, km, truthy(strip_quotes_spec(val)))
                } else {
                    (sec, km, sii)
                }
            } else {
                (sec, km, sii)
            }
        }
    }
}

/// The whole configuration text folded line by line from line `k` on.
pub open spec fn config_fold(
    content: Seq<char>, k: int, sec: Seq<char>, km: Seq<(Seq<char>, Action)>, sii: bool,
) -> (Seq<char>, Seq<(Seq<char>, Action)>, bool)
    decreases crate::textmodel::line_count_of(content) - k when 0 <= k
{
    if k >= crate::textmodel::line_count_of(content) {
        (sec, km, sii)
    } else {
        let e = line_effect(sec, km, sii, crate::textmodel::line_at(content, k));
        config_fold(content, k + 1, e.0, e.1, e.2)
    }
}

fn char_eq_ignore_ascii_case(a: char, b: char) -> (r: bool)
    ensures
        r == eq_ic(a, b),
{
    let au = a as u32;
    let bu = b as u32;
    au == bu || (au >= 65 && au <= 90 && bu == au + 32)
        || (bu >= 65 && bu <= 90 && au == bu + 32)
}

fn str_eq_ignore_ascii_case(a: &str, b: &str) -> (r: bool)
    ensures
        r == str_eq_ic(a@, b@),
{
    let n = a.unicode_len();
    let m = b.unicode_len();
    if n != m {
        return false;
    }
    let mut k: usize = 0;
    while k < n
        invariant
            n == a@.len(),
            n == b@.len(),
            k <= n,
            forall|j: int| 0 <= j < k ==> eq_ic(#[trigger] a@[j], b@[j]),
        decreases n - k,
    {
        if !char_eq_ignore_ascii_case(a.get_char(k), b.get_char(k)) {
            return false;
        }
        k += 1;
    }
    true
}

fn strip_quotes(s: &str) -> (r: String)
    ensures
        r@ == strip_quotes_spec(s@),
{
    let n = s.unicode_len();
    let mut a: usize = 0;
    while a < n && s.get_char(a) == '"'
        invariant
            n == s@.len(),
            a <= n,
            qs_ltrim(s@, a as int) == qs_ltrim(s@, 0),
        decreases n - a,
    {
        a += 1;
    }
    proof {
        assert(qs_ltrim(s@, 0) == a as int);
    }
    let mut b: usize = n;
    while b > a && s.get_char(b - 1) == '"'
        invariant
            n == s@.len(),
            a <= b <= n,
            qs_rtrim(s@, a as int, b as int) == qs_rtrim(s@, a as int, n as int),
        decreases b,
    {
        b = b - 1;
    }
    proof {
        assert(qs_rtrim(s@, a as int, b as int) == b as int);
    }
    s.substring_char(a, b).to_owned()
}

/// One configuration line applied to the keymap being built: section
/// headers switch sections, `sequence = action` lines in `[normal]` append
/// an override, and `start_in_insert` in `[general]` sets the start mode.
fn apply_config_line(km: &mut Keymap, section: &mut String, sii: &mut bool, line: &str)
    ensures
        final(km)@.len() >= old(km)@.len(),
        final(km)@.subrange(0, old(km)@.len() as int) == old(km)@,
        ({
            let e = line_effect(old(section)@, old(km)@, *old(sii), line@);
            final(section)@ == e.0 && final(km)@ == e.1 && *final(sii) == e.2
        }),
{
    let t = crate::editor::str_trim(line);
    let tn = t.as_str().unicode_len();
    if tn == 0 {
        return;
    }
    if t.as_str().get_char(0) == '#' {
        return;
    }
    if t.as_str().get_char(0) == '[' && t.as_str().get_char(tn - 1) == ']' {
        let inner = t.as_str().substring_char(1, tn - 1);
        *section = inner.to_owned();
        return;
    }
    let mut eq: usize = 0;
    while eq < tn && t.as_str().get_char(eq) != '='
        invariant
            tn == t@.len(),
            eq <= tn,
            eq_scan(t@, eq as int) == eq_scan(t@, 0),
        decreases tn - eq,
    {
        proof {
            assert(eq_scan(t@, eq as int) == eq_scan(t@, eq as int + 1));
        }
        eq += 1;
    }
    proof {
        assert(eq_scan(t@, 0) == eq as int);
    }
    if eq >= tn {
        return;
    }
    let lhs = t.as_str().substring_char(0, eq);
    let key = crate::editor::str_trim(lhs);
    let rhs = t.as_str().substring_char(eq + 1, tn);
    let val = crate::editor::str_trim(rhs);
    if str_eq(section.as_str(), "normal") {
        let sq = strip_quotes(key.as_str());
        match parse_action(val.as_str()) {
            Some(a) => {
                let ghost k0 = km@;
                km.insert_binding(sq, a);
                proof {
                    assert(km@.subrange(0, k0.len() as int) =~= k0);
                }
            },
            None => {},
        }
    } else if str_eq(section.as_str(), "general") {
        if str_eq_ignore_ascii_case(key.as_str(), "start_in_insert") {
            let v = strip_quotes(val.as_str());
            *sii = str_eq_ignore_ascii_case(v.as_str(), "1")
                || str_eq_ignore_ascii_case(v.as_str(), "true")
                || str_eq_ignore_ascii_case(v.as_str(), "yes")
                || str_eq_ignore_ascii_case(v.as_str(), "on");
        }
    }
}

/// Merges the overrides found in one configuration file's text onto the
/// given bindings; later lines win, since lookups take the latest entry.
pub fn apply_config_text(base: Keymap, content: &str) -> (r: EditorConfig)
    ensures
        r.keymap@.len() >= base@.len(),
        r.keymap@.subrange(0, base@.len() as int) == base@,
        ({
            let fold = config_fold(content@, 0, Seq::<char>::empty(), base@, false);
            r.keymap@ == fold.1 && r.start_in_insert == fold.2
        }),
{
    let ghost b0 = base@;
    let ghost s0 = content@;
    let mut km = base;
    let mut start_in_insert = false;
    let mut section = String::new();
    let mut cur = String::new();
    let n = content.unicode_len();
    let mut k: usize = 0;
    let ghost mut lk: int = 0;
    proof {
        assert(km@.subrange(0, b0.len() as int) =~= b0);
        crate::textmodel::lemma_line_props(s0, 0);
        assert(cur@ =~= s0.subrange(0, 0));
    }
    while k < n
        invariant
            n == content@.len(),
            s0 == content@,
            k <= n,
            km@.len() >= b0.len(),
            km@.subrange(0, b0.len() as int) == b0,
            0 <= lk < crate::textmodel::line_count_of(s0),
            crate::textmodel::line_start(s0, lk) <= k as int
                <= crate::textmodel::line_end(s0, lk),
            cur@ == s0.subrange(crate::textmodel::line_start(s0, lk), k as int),
            config_fold(s0, lk, section@, km@, start_in_insert)
                == config_fold(s0, 0, Seq::<char>::empty(), b0, false),
        decreases n - k,
    {
        proof {
            crate::textmodel::lemma_line_props(s0, lk);
        }
        let c = content.get_char(k);
        if c == '\n' {
            proof {
                crate::textmodel::lemma_next_newline(
                    s0, crate::textmodel::line_start(s0, lk),
                );
                assert(crate::textmodel::line_end(s0, lk) == k as int);
                assert(cur@ == crate::textmodel::line_at(s0, lk));
            }
            let ghost e0 = (section@, km@, start_in_insert);
            let ghost k1 = km@;
            apply_config_line(&mut km, &mut section, &mut start_in_insert, cur.as_str());
            proof {
                assert(km@.subrange(0, b0.len() as int)
                    =~= k1.subrange(0, b0.len() as int));
                assert((section@, km@, start_in_insert) == line_effect(
                    e0.0, e0.1, e0.2, crate::textmodel::line_at(s0, lk),
                ));
                assert(config_fold(s0, lk + 1, section@, km@, start_in_insert)
                    == config_fold(s0, 0, Seq::<char>::empty(), b0, false));
                lk = lk + 1;
            }
            cur = String::new();
            proof {
                assert(crate::textmodel::line_start(s0, lk) == k as int + 1);
                assert(cur@ =~= s0.subrange(k as int + 1, k as int + 1));
                crate::textmodel::lemma_line_props(s0, lk);
            }
        } else {
            crate::unicode::push_char(&mut cur, c);
            proof {
                assert((k as int) < crate::textmodel::line_end(s0, lk));
                assert(cur@ =~= s0.subrange(
                    crate::textmodel::line_start(s0, lk), k as int + 1,
                ));
            }
        }
        k += 1;
    }
    proof {
        crate::textmodel::lemma_line_props(s0, lk);
        assert(crate::textmodel::line_end(s0, lk) == n as int);
        assert(lk == crate::textmodel::line_count_of(s0) - 1);
        assert(cur@ == crate::textmodel::line_at(s0, lk));
    }
    let ghost e0 = (section@, km@, start_in_insert);
    let ghost k1 = km@;
    apply_config_line(&mut km, &mut section, &mut start_in_insert, cur.as_str());
    proof {
        assert(km@.subrange(0, b0.len() as int) =~= k1.subrange(0, b0.len() as int));
        assert((section@, km@, start_in_insert) == line_effect(
            e0.0, e0.1, e0.2, crate::textmodel::line_at(s0, lk),
        ));
        assert(config_fold(s0, lk + 1, section@, km@, start_in_insert)
            == config_fold(s0, 0, Seq::<char>::empty(), b0, false));
    }
    EditorConfig { keymap: km, start_in_insert }
}

/// The action a configuration name denotes, if any.
pub open spec fn action_for(s: Seq<char>) -> Option<Action> {
    if s == "move_left"@ || s == "h"@ {
        Some(Action::MoveLeft)
    } else if s == "move_down"@ || s == "j"@ {
        Some(Action::MoveDown)
    } else if s == "move_up"@ || s == "k"@ {
        Some(Action::MoveUp)
    } else if s == "move_right"@ || s == "l"@ {
        Some(Action::MoveRight)
    } else if s == "line_start"@ || s == "0"@ {
        Some(Action::LineStart)
    } else if s == "line_end"@ || s == "$"@ {
        Some(Action::LineEnd)
    } else if s == "goto_top"@ || s == "gg"@ {
        Some(Action::GotoTop)
    } else if s == "goto_bottom"@ || s == "G"@ {
        Some(Action::GotoBottom)
    } else if s == "insert"@ || s == "i"@ {
        Some(Action::EnterInsert)
    } else if s == "append"@ || s == "a"@ {
        Some(Action::Append)
    } else if s == "open_below"@ || s == "o"@ {
        Some(Action::OpenBelow)
    } else if s == "open_above"@ || s == "O"@ {
        Some(Action::OpenAbove)
    } else if s == "delete_char"@ || s == "x"@ {
        Some(Action::DeleteCharUnder)
    } else if s == "delete_line"@ || s == "dd"@ {
        Some(Action::DeleteLine)
    } else if s == "delete"@ || s == "d"@ {
        Some(Action::OperatorDelete)
    } else if s == "change"@ || s == "c"@ {
        Some(Action::OperatorChange)
    } else if s == "yank"@ || s == "y"@ {
        Some(Action::OperatorYank)
    } else if s == "undo"@ || s == "u"@ {
        Some(Action::Undo)
    } else if s == "redo"@ {
        Some(Action::Redo)
    } else if s == "move_word_forward"@ || s == "w"@ {
        Some(Action::MoveWordForward)
    } else if s == "move_word_backward"@ || s == "b"@ {
        Some(Action::MoveWordBackward)
    } else if s == "move_end_word"@ || s == "e"@ {
        Some(Action::MoveEndWord)
    } else if s == "command"@ || s == ":"@ {
        Some(Action::CommandPrompt)
    } else if s == "visual"@ || s == "v"@ {
        Some(Action::EnterVisual)
    } else if s == "visual_line"@ || s == "V"@ {
        Some(Action::EnterVisualLine)
    } else if s == "paste_after"@ || s == "p"@ {
        Some(Action::PasteAfter)
    } else if s == "paste_before"@ || s == "P"@ {
        Some(Action::PasteBefore)
    } else {
        None
    }
}

/// A named action from a configuration file: either a long name or the key
/// it is bound to by default.  The name must already be trimmed.
pub fn parse_action(name: &str) -> (r: Option<Action>)
    ensures
        r == action_for(name@),
{
    if str_eq(name, "move_left") || str_eq(name, "h") {
        Some(Action::MoveLeft)
    } else if str_eq(name, "move_down") || str_eq(name, "j") {
        Some(Action::MoveDown)
    } else if str_eq(name, "move_up") || str_eq(name, "k") {
        Some(Action::MoveUp)
    } else if str_eq(name, "move_right") || str_eq(name, "l") {
        Some(Action::MoveRight)
    } else if str_eq(name, "line_start") || str_eq(name, "0") {
        Some(Action::LineStart)
    } else if str_eq(name, "line_end") || str_eq(name, "$") {
        Some(Action::LineEnd)
    } else if str_eq(name, "goto_top") || str_eq(name, "gg") {
        Some(Action::GotoTop)
    } else if str_eq(name, "goto_bottom") || str_eq(name, "G") {
        Some(Action::GotoBottom)
    } else if str_eq(name, "insert") || str_eq(name, "i") {
        Some(Action::EnterInsert)
    } else if str_eq(name, "append") || str_eq(name, "a") {
        Some(Action::Append)
    } else if str_eq(name, "open_below") || str_eq(name, "o") {
        Some(Action::OpenBelow)
    } else if str_eq(name, "open_above") || str_eq(name, "O") {
        Some(Action::OpenAbove)
    } else if str_eq(name, "delete_char") || str_eq(name, "x") {
        Some(Action::DeleteCharUnder)
    } else if str_eq(name, "delete_line") || str_eq(name, "dd") {
        Some(Action::DeleteLine)
    } else if str_eq(name, "delete") || str_eq(name, "d") {
        Some(Action::OperatorDelete)
    } else if str_eq(name, "change") || str_eq(name, "c") {
        Some(Action::OperatorChange)
    } else if str_eq(name, "yank") || str_eq(name, "y") {
        Some(Action::OperatorYank)
    } else if str_eq(name, "undo") || str_eq(name, "u") {
        Some(Action::Undo)
    } else if str_eq(name, "redo") {
        Some(Action::Redo)
    } else if str_eq(name, "move_word_forward") || str_eq(name, "w") {
        Some(Action::MoveWordForward)
    } else if str_eq(name, "move_word_backward") || str_eq(name, "b") {
        Some(Action::MoveWordBackward)
    } else if str_eq(name, "move_end_word") || str_eq(name, "e") {
        Some(Action::MoveEndWord)
    } else if str_eq(name, "command") || str_eq(name, ":") {
        Some(Action::CommandPrompt)
    } else if str_eq(name, "visual") || str_eq(name, "v") {
        Some(Action::EnterVisual)
    } else if str_eq(name, "visual_line") || str_eq(name, "V") {
        Some(Action::EnterVisualLine)
    } else if str_eq(name, "paste_after") || str_eq(name, "p") {
        Some(Action::PasteAfter)
    } else if str_eq(name, "paste_before") || str_eq(name, "P") {
        Some(Action::PasteBefore)
    } else {
        None
    }
}

} // verus!
