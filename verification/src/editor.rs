use vstd::prelude::*;
use vstd::string::StrSliceExecFns;
use crate::buffer::Buffer;
use crate::buffer::line_width_of;
use crate::buffer::lemma_width_upto_nonneg;
use crate::textmodel::MAX_TEXT_LEN;
use crate::textmodel::line_count_of;
use crate::textmodel::line_at;
use crate::textmodel::line_start;
use crate::textmodel::row_at;
use crate::textmodel::insert_text_at;
use crate::textmodel::remove_text_range;
use crate::textmodel::lemma_newline_count_le;
use crate::buffer::char_index_clamped;
use crate::buffer::del_prev_span;
use crate::keymap::Mode;
use crate::keymap::Action;
use crate::keymap::Keymap;
use crate::keymap::default_keymap;
use crate::keymap::default_bindings;

verus! {

/// What processing one normal-mode key reports back to the input loop.
#[derive(Clone, Copy, Debug, PartialEq, Eq, Structural)]
pub enum NormalInputResult {
    Nothing,
    CommandPrompt,
}

/// The shape of the clipboard's contents, which governs paste semantics.
#[derive(Clone, Copy, Debug, PartialEq, Eq, Structural)]
pub enum ClipboardKind {
    Charwise,
    Linewise,
    Blockwise,
}

/// One undo step: the whole document and the cursor at the moment the
/// snapshot was taken.
pub struct EditorSnapshot {
    pub text: String,
    pub cx: usize,
    pub cy: usize,
}

/// The editing core: document, cursor, mode, pending key state, clipboard
/// and undo history.
#[verifier::ext_equal]
pub struct Editor {
    pub buf: Buffer,
    pub filename: Option<String>,
    pub dirty: bool,
    pub cx: usize,
    pub cy: usize,
    pub status: String,
    pub quit_times: u8,
    pub mode: Mode,
    pub keymap: Keymap,
    pub pending: String,
    pub pending_waiting: bool,
    pub op_pending: Option<(Action, usize)>,
    pub clipboard: String,
    pub clipboard_kind: ClipboardKind,
    pub visual_anchor: Option<(usize, usize)>,
    pub undo_stack: Vec<EditorSnapshot>,
    pub redo_stack: Vec<EditorSnapshot>,
    pub undo_group_active: bool,
    pub count_group_active: bool,
}

/// Row clamped to the last line.
pub open spec fn clamp_row(s: Seq<char>, y: int) -> int {
    if y <= line_count_of(s) - 1 {
        y
    } else {
        line_count_of(s) - 1
    }
}

/// Column clamped to the display width of row `y`.
pub open spec fn clamp_col(s: Seq<char>, y: int, x: int) -> int {
    let w = line_width_of(line_at(s, y));
    if x <= w {
        x
    } else {
        w
    }
}

/// Clamping a cursor twice gives the same cursor as clamping it once.
pub proof fn lemma_clamp_idempotent(s: Seq<char>, y: int, x: int)
    ensures
        clamp_row(s, clamp_row(s, y)) == clamp_row(s, y),
        ({
            let y1 = clamp_row(s, y);
            let x1 = clamp_col(s, y1, x);
            clamp_col(s, clamp_row(s, y1), x1) == x1
        }),
{
}

/// `s` records exactly the document and cursor of `e`.
pub open spec fn snapshot_of(e: &Editor, s: EditorSnapshot) -> bool {
    s.text@ == e.buf@ && s.cx == e.cx && s.cy == e.cy
}

/// The snapshot's cursor lies within its own document.
pub open spec fn snapshot_ok(s: EditorSnapshot) -> bool {
    (s.cy as nat) < line_count_of(s.text@)
        && s.cx as int <= line_width_of(line_at(s.text@, s.cy as int))
}

/// Two snapshot stacks hold the same documents and cursors.
pub open spec fn snaps_eq(a: Seq<EditorSnapshot>, b: Seq<EditorSnapshot>) -> bool {
    a.len() == b.len() && forall|k: int| 0 <= k < a.len() ==> (#[trigger] a[k]).text@ == b[k].text@
        && a[k].cx == b[k].cx && a[k].cy == b[k].cy
}

/// The parts an edit's snapshot push leaves: one new undo entry recording
/// `o`, and a cleared redo stack.
pub open spec fn pushes_snapshot(o: &Editor, f: &Editor) -> bool {
    &&& f.undo_stack@.len() == o.undo_stack@.len() + 1
    &&& f.undo_stack@.drop_last() == o.undo_stack@
    &&& snapshot_of(o, f.undo_stack@.last())
    &&& f.redo_stack@.len() == 0
}

/// The undo-grouping rule applied at the start of an edit: inside an
/// insert-mode group or a counted group nothing is pushed; otherwise a
/// snapshot of the pre-edit state is pushed and the redo stack cleared.
pub open spec fn edit_start_rel(o: &Editor, f: &Editor) -> bool {
    &&& f.count_group_active == o.count_group_active
    &&& if o.count_group_active {
        f.undo_stack@ == o.undo_stack@ && f.redo_stack@ == o.redo_stack@
            && f.undo_group_active == o.undo_group_active
    } else if o.mode == Mode::Insert {
        if o.undo_group_active {
            f.undo_stack@ == o.undo_stack@ && f.redo_stack@ == o.redo_stack@
                && f.undo_group_active == true
        } else {
            pushes_snapshot(o, f) && f.undo_group_active == true
        }
    } else {
        pushes_snapshot(o, f) && f.undo_group_active == false
    }
}

pub open spec fn name_view(o: Option<String>) -> Option<Seq<char>> {
    match o {
        Some(s) => Some(s@),
        None => None,
    }
}

pub open spec fn same_ui(a: &Editor, b: &Editor) -> bool {
    name_view(a.filename) == name_view(b.filename) && a.status@ == b.status@
        && a.quit_times == b.quit_times
}

pub open spec fn same_keymap(a: &Editor, b: &Editor) -> bool {
    a.keymap@ == b.keymap@
}

pub open spec fn same_clip(a: &Editor, b: &Editor) -> bool {
    a.clipboard@ == b.clipboard@ && a.clipboard_kind == b.clipboard_kind
}

pub open spec fn same_pending(a: &Editor, b: &Editor) -> bool {
    a.pending@ == b.pending@ && a.pending_waiting == b.pending_waiting
        && a.op_pending == b.op_pending
}

pub open spec fn same_hist(a: &Editor, b: &Editor) -> bool {
    a.undo_stack@ == b.undo_stack@ && a.redo_stack@ == b.redo_stack@
        && a.undo_group_active == b.undo_group_active
        && a.count_group_active == b.count_group_active
}

pub open spec fn same_mode(a: &Editor, b: &Editor) -> bool {
    a.mode == b.mode && a.visual_anchor == b.visual_anchor
}

pub open spec fn same_doc(a: &Editor, b: &Editor) -> bool {
    a.buf@ == b.buf@
}

pub open spec fn same_cursor(a: &Editor, b: &Editor) -> bool {
    a.cx == b.cx && a.cy == b.cy
}

/// Cursor advance of a typed character: its display width, minimum 1.
pub open spec fn char_advance(c: char) -> int {
    match crate::unicode::char_display_width(c) {
        Some(w) => if w == 0 { 1 } else { w as int },
        None => 1,
    }
}

pub open spec fn is_ws_char(c: char) -> bool {
    c == ' ' || c == '\t' || c == '\n' || c == '\r'
}

/// Index of the first non-blank character at or after `i`.
pub open spec fn ltrim_len(s: Seq<char>, i: int) -> int
    decreases s.len() - i when 0 <= i <= s.len()
{
    if i >= s.len() {
        i
    } else if is_ws_char(s[i]) {
        ltrim_len(s, i + 1)
    } else {
        i
    }
}

/// Index just past the last non-blank character before `j`.
pub open spec fn rtrim_len(s: Seq<char>, j: int) -> int
    decreases j when 0 <= j <= s.len()
{
    if j <= 0 {
        0
    } else if is_ws_char(s[j - 1]) {
        rtrim_len(s, j - 1)
    } else {
        j
    }
}

/// The string with blanks removed from both ends.
pub open spec fn trim_spec(s: Seq<char>) -> Seq<char> {
    let a = ltrim_len(s, 0);
    let b = rtrim_len(s, s.len() as int);
    if a >= b {
        Seq::<char>::empty()
    } else {
        s.subrange(a, b)
    }
}

pub open spec fn is_digit_char(c: char) -> bool {
    '0' <= c && c <= '9'
}

pub open spec fn all_digit_chars(s: Seq<char>) -> bool {
    forall|k: int| 0 <= k < s.len() ==> is_digit_char(#[trigger] s[k])
}

/// Numeric value of a digit string.
pub open spec fn digits_val(s: Seq<char>) -> int
    decreases s.len()
{
    if s.len() == 0 {
        0
    } else {
        digits_val(s.drop_last()) * 10 + (s.last() as int - 48)
    }
}

pub proof fn lemma_digits_val_nonneg(s: Seq<char>)
    requires
        all_digit_chars(s),
    ensures
        digits_val(s) >= 0,
    decreases s.len(),
{
    if s.len() > 0 {
        assert(all_digit_chars(s.drop_last())) by {
            assert(forall|k: int| 0 <= k < s.len() - 1
                ==> is_digit_char(#[trigger] s.drop_last()[k]) == is_digit_char(s[k]));
        }
        lemma_digits_val_nonneg(s.drop_last());
        assert(is_digit_char(s.last()));
        assert(s.last() as int >= 48);
    }
}


/// Exclusive end column of a swept range: one grapheme further when the
/// motion is inclusive.
pub open spec fn sweep_end_col(s: Seq<char>, ey: int, ex: int, inclusive: bool) -> int {
    if inclusive {
        crate::buffer::next_col_spec(row_at(s, ey), ex)
    } else {
        ex
    }
}

/// The text swept between `(sy, sx)` and `(ey, ex)`, bounds clamped.
pub open spec fn extract_spec(
    s: Seq<char>, sy: int, sx: int, ey: int, ex: int, inclusive: bool,
) -> Seq<char> {
    let a = char_index_clamped(s, sy, sx);
    let b = char_index_clamped(s, ey, sweep_end_col(s, ey, ex, inclusive));
    let e2 = if b <= s.len() { b } else { s.len() as int };
    let a2 = if a <= e2 { a } else { e2 };
    s.subrange(a2, e2)
}

/// The document with that swept range removed.
pub open spec fn delete_range_spec(
    s: Seq<char>, sy: int, sx: int, ey: int, ex: int, inclusive: bool,
) -> Seq<char> {
    let a = char_index_clamped(s, sy, sx);
    let b = char_index_clamped(s, ey, sweep_end_col(s, ey, ex, inclusive));
    if a < b && b <= s.len() {
        remove_text_range(s, a, b)
    } else {
        s
    }
}

/// Whether a sweep from `(sy, sx)` to `(ey, ex)` counts as whole lines for
/// the clipboard.
pub open spec fn sweep_is_linewise(s: Seq<char>, sy: int, sx: int, ey: int, ex: int) -> bool {
    sy < ey && sx == 0 && ex >= line_width_of(row_at(s, ey))
}

/// Rows `sy..=ey` joined with newlines.
pub open spec fn joined_rows(s: Seq<char>, sy: int, ey: int) -> Seq<char>
    decreases ey - sy
{
    if ey < sy {
        Seq::<char>::empty()
    } else if ey == sy {
        row_at(s, sy)
    } else {
        joined_rows(s, sy, ey - 1).push('\n') + row_at(s, ey)
    }
}

/// Joined rows are exactly the contiguous span of the document from the
/// start of the first row to the end of the last.
pub proof fn lemma_joined_rows_span(s: Seq<char>, sy: int, ey: int)
    requires
        0 <= sy <= ey < line_count_of(s),
    ensures
        joined_rows(s, sy, ey) == s.subrange(line_start(s, sy), crate::textmodel::line_end(s, ey)),
        0 <= line_start(s, sy) <= crate::textmodel::line_end(s, ey) <= s.len(),
        joined_rows(s, sy, ey).len() <= s.len(),
    decreases ey - sy,
{
    crate::textmodel::lemma_line_props(s, ey);
    if ey == sy {
        assert(row_at(s, sy) == line_at(s, sy));
    } else {
        lemma_joined_rows_span(s, sy, ey - 1);
        crate::textmodel::lemma_line_props(s, ey - 1);
        crate::textmodel::lemma_line_props(s, sy);
        let a = line_start(s, sy);
        let b1 = crate::textmodel::line_end(s, ey - 1);
        let b2 = crate::textmodel::line_end(s, ey);
        assert(line_start(s, ey) == b1 + 1);
        assert(s[b1] == '\n');
        assert(joined_rows(s, sy, ey) =~= s.subrange(a, b2));
    }
}

/// The character-wise selection: anchor and cursor ordered by document
/// position, `None` when empty or without an anchor.
pub open spec fn visual_char_sel(e: &Editor) -> Option<((usize, usize), (usize, usize))> {
    match e.visual_anchor {
        None => None,
        Some((ax, ay)) => {
            let o = if e.cy > ay || (e.cy == ay && e.cx >= ax) {
                (ay, ax, e.cy, e.cx)
            } else {
                (e.cy, e.cx, ay, ax)
            };
            if o.2 > o.0 || (o.2 == o.0 && o.3 > o.1) {
                Some(((o.0, o.1), (o.2, o.3)))
            } else {
                None
            }
        },
    }
}

/// The rows a line-wise selection covers.
pub open spec fn visual_line_sel(e: &Editor) -> Option<(usize, usize)> {
    match e.visual_anchor {
        None => None,
        Some((ax, ay)) => if e.cy >= ay {
            Some((ay, e.cy))
        } else {
            Some((e.cy, ay))
        },
    }
}

/// The rectangle a block-wise selection covers.
pub open spec fn visual_block_sel(e: &Editor) -> Option<(usize, usize, usize, usize)> {
    match e.visual_anchor {
        None => None,
        Some((ax, ay)) => {
            let rows = if e.cy >= ay { (ay, e.cy) } else { (e.cy, ay) };
            let cols = if e.cx >= ax { (ax, e.cx) } else { (e.cx, ax) };
            Some((rows.0, rows.1, cols.0, cols.1))
        },
    }
}

/// Block-wise paste: clipboard line `i` goes into document row `y`, row by
/// row, stopping when the document runs out of rows; lines that would push
/// the document over its size bound are dropped.
pub open spec fn block_paste_spec(s: Seq<char>, clip: Seq<char>, i: int, y: int, col: int)
    -> Seq<char>
    decreases line_count_of(clip) - i when i <= line_count_of(clip)
{
    if i >= line_count_of(clip) {
        s
    } else if y >= line_count_of(s) {
        s
    } else {
        let seg = line_at(clip, i);
        let s2 = if s.len() + seg.len() <= MAX_TEXT_LEN {
            insert_text_at(s, char_index_clamped(s, y, col), seg)
        } else {
            s
        };
        block_paste_spec(s2, clip, i + 1, y + 1, col)
    }
}

/// One row of a block-wise extraction: the swept text of row `y` between
/// the block's columns, clamped to the row's width.
pub open spec fn block_row_cols(s: Seq<char>, y: int, left: int, right: int) -> (int, int) {
    let w = line_width_of(row_at(s, y));
    (if left <= w { left } else { w }, if right <= w { right } else { w })
}

/// The text a block selection covers, rows joined with newlines.
pub open spec fn block_extract_spec(s: Seq<char>, y: int, ey: int, left: int, right: int)
    -> Seq<char>
    decreases ey - y
{
    let c = block_row_cols(s, y, left, right);
    if y > ey {
        Seq::<char>::empty()
    } else if y == ey {
        extract_spec(s, y, c.0, y, c.1, false)
    } else {
        extract_spec(s, y, c.0, y, c.1, false).push('\n')
            + block_extract_spec(s, y + 1, ey, left, right)
    }
}

/// The document with a block selection removed, bottom row first.
pub open spec fn block_delete_spec(s: Seq<char>, sy: int, y: int, left: int, right: int)
    -> Seq<char>
    decreases y - sy + 1
{
    if y < sy {
        s
    } else {
        let c = block_row_cols(s, y, left, right);
        block_delete_spec(
            delete_range_spec(s, y, c.0, y, c.1, false), sy, y - 1, left, right,
        )
    }
}

/// The first word start at or below row `y`, as `(row, column)`.
pub open spec fn find_next_word_from(s: Seq<char>, y: int) -> Option<(int, int)>
    decreases line_count_of(s) - y when 0 <= y
{
    if y >= line_count_of(s) {
        None
    } else {
        match crate::buffer::first_word_start_chars(row_at(s, y)) {
            Some(t) => Some((y, crate::buffer::chars_to_col_spec(row_at(s, y), t))),
            None => find_next_word_from(s, y + 1),
        }
    }
}

/// The last word start at or above row `y`, as `(row, column)`.
pub open spec fn find_prev_word_from(s: Seq<char>, y: int) -> Option<(int, int)>
    decreases y + 1 when 0 <= y
{
    let r = if y < line_count_of(s) {
        crate::buffer::last_word_start_chars(row_at(s, y))
    } else {
        None
    };
    match r {
        Some(t) => Some((y, crate::buffer::chars_to_col_spec(row_at(s, y), t))),
        None => if y == 0 {
            None
        } else {
            find_prev_word_from(s, y - 1)
        },
    }
}

/// The end of the first word at or below row `y`, as `(row, column)`.
pub open spec fn find_next_word_end_from(s: Seq<char>, y: int) -> Option<(int, int)>
    decreases line_count_of(s) - y when 0 <= y
{
    if y >= line_count_of(s) {
        None
    } else {
        match crate::buffer::first_word_end_chars(row_at(s, y)) {
            Some(t) => Some((y, crate::buffer::chars_to_col_spec(row_at(s, y), t))),
            None => find_next_word_end_from(s, y + 1),
        }
    }
}

/// One step of the forward-word motion.  At a line end it continues on a
/// later line; when a delete or change operator is pending (`dc`) and this
/// is the last repetition (`rem <= 1`), it stops at the start of the next
/// line so only the line break is swept.
pub open spec fn word_fwd_step(s: Seq<char>, y: int, c: int, rem: int, dc: bool)
    -> Option<(int, int)>
{
    let nx = crate::buffer::next_word_start_spec(row_at(s, y), c);
    if nx == c {
        if y + 1 >= line_count_of(s) {
            None
        } else if dc && rem <= 1 {
            Some((y + 1, 0))
        } else {
            find_next_word_from(s, y + 1)
        }
    } else {
        Some((y, nx))
    }
}

/// The forward-word motion repeated; a repetition that makes no progress
/// ends the motion where it stands.
pub open spec fn word_fwd_target(s: Seq<char>, y: int, c: int, i: int, n: int, dc: bool)
    -> (int, int)
    decreases n - i
{
    if i >= n {
        (y, c)
    } else {
        match word_fwd_step(s, y, c, n - i, dc) {
            Some(p) => word_fwd_target(s, p.0, p.1, i + 1, n, dc),
            None => (y, c),
        }
    }
}

/// One step of the backward-word motion, continuing on earlier lines.
pub open spec fn word_bwd_step(s: Seq<char>, y: int, c: int) -> Option<(int, int)> {
    let pv = crate::buffer::prev_word_start_spec(row_at(s, y), c);
    if pv == c {
        find_prev_word_from(s, if y == 0 { 0 } else { y - 1 })
    } else {
        Some((y, pv))
    }
}

pub open spec fn word_bwd_target(s: Seq<char>, y: int, c: int, i: int, n: int) -> (int, int)
    decreases n - i
{
    if i >= n {
        (y, c)
    } else {
        match word_bwd_step(s, y, c) {
            Some(p) => word_bwd_target(s, p.0, p.1, i + 1, n),
            None => (y, c),
        }
    }
}

/// One step of the end-of-word motion, continuing on later lines.
pub open spec fn word_end_step(s: Seq<char>, y: int, c: int) -> Option<(int, int)> {
    let en = crate::buffer::end_of_word_spec(row_at(s, y), c);
    if en == c {
        find_next_word_end_from(s, y + 1)
    } else {
        Some((y, en))
    }
}

pub open spec fn word_end_target(s: Seq<char>, y: int, c: int, i: int, n: int) -> (int, int)
    decreases n - i
{
    if i >= n {
        (y, c)
    } else {
        match word_end_step(s, y, c) {
            Some(p) => word_end_target(s, p.0, p.1, i + 1, n),
            None => (y, c),
        }
    }
}

/// Where a motion lands, repeated `n` times from `(y, c)`.
pub open spec fn motion_target_spec(s: Seq<char>, y: int, c: int, act: Action, n: int, dc: bool)
    -> (int, int)
{
    match act {
        Action::MoveWordForward => word_fwd_target(s, y, c, 0, n, dc),
        Action::MoveWordBackward => word_bwd_target(s, y, c, 0, n),
        Action::MoveEndWord => word_end_target(s, y, c, 0, n),
        Action::LineStart => (y, 0),
        Action::LineEnd => (y, line_width_of(row_at(s, y))),
        _ => (y, c),
    }
}

/// Cursor and motion target ordered by document position: `(sy, sx, ey, ex)`.
pub open spec fn order_positions(ly: int, lx: int, ty: int, tx: int) -> (int, int, int, int) {
    if ty > ly || (ty == ly && tx >= lx) {
        (ly, lx, ty, tx)
    } else {
        (ty, tx, ly, lx)
    }
}

/// Everything applying an operator (or just moving) to a computed target
/// leaves behind; `eff` is the effective operator.
pub open spec fn sweep_rel(
    o: &Editor, f: &Editor, s: Seq<char>, ty: int, tx: int, inclusive: bool,
    eff: Option<(Action, usize)>,
) -> bool {
    match eff {
        Some(opc) => {
            let ok = opc.0;
            let ord = order_positions(o.cy as int, o.cx as int, ty, tx);
            let sy = ord.0;
            let sx = ord.1;
            let ey = ord.2;
            let ex = ord.3;
            let nonempty = ey > sy || (ey == sy && ex > sx);
            let dc = ok == Action::OperatorDelete || ok == Action::OperatorChange;
            &&& (!dc ==> same_hist(o, f))
            &&& (nonempty && dc ==> ({
                &&& f.clipboard@ == extract_spec(s, sy, sx, ey, ex, inclusive)
                &&& f.clipboard_kind == (if sweep_is_linewise(s, sy, sx, ey, ex) {
                    ClipboardKind::Linewise
                } else {
                    ClipboardKind::Charwise
                })
                &&& f.buf@ == delete_range_spec(s, sy, sx, ey, ex, inclusive)
                &&& f.cx as int == sx && f.cy as int == sy
                &&& f.dirty == true
                &&& f.mode == (if ok == Action::OperatorChange { Mode::Insert } else { o.mode })
            }))
            &&& (nonempty && ok == Action::OperatorYank ==> ({
                &&& f.clipboard@ == extract_spec(s, sy, sx, ey, ex, inclusive)
                &&& f.clipboard_kind == (if sweep_is_linewise(s, sy, sx, ey, ex) {
                    ClipboardKind::Linewise
                } else {
                    ClipboardKind::Charwise
                })
                &&& f.buf@ == s
                &&& same_cursor(o, f)
                &&& f.mode == o.mode
                &&& f.dirty == o.dirty
            }))
            &&& (nonempty && !dc && ok != Action::OperatorYank ==> f.buf@ == s
                && same_clip(o, f) && same_cursor(o, f) && f.mode == o.mode
                && f.dirty == o.dirty)
            &&& (!nonempty ==> f.buf@ == s && same_clip(o, f) && same_cursor(o, f)
                && f.mode == o.mode && f.dirty == o.dirty)
        },
        None => {
            &&& f.buf@ == s
            &&& same_hist(o, f)
            &&& same_clip(o, f)
            &&& f.cx as int == tx && f.cy as int == ty
            &&& f.mode == o.mode
            &&& f.dirty == o.dirty
        },
    }
}


/// What entering a visual variant does to mode and anchor: the active
/// variant toggles off, another variant switches keeping the anchor, and
/// from a non-visual mode the anchor is set at the cursor.
pub open spec fn toggle_rel(o: &Editor, f: &Editor, target: Mode) -> bool {
    match o.mode {
        Mode::Visual | Mode::VisualLine | Mode::VisualBlock => {
            if o.mode == target {
                f.mode == Mode::Normal && f.visual_anchor is None
            } else {
                f.mode == target && f.visual_anchor == (
                    if o.visual_anchor is Some {
                        o.visual_anchor
                    } else {
                        Some((o.cx, o.cy))
                    }
                )
            }
        },
        _ => f.mode == target && f.visual_anchor == Some((o.cx, o.cy)),
    }
}


/// Whether an action edits the document (for undo grouping under a count).
pub open spec fn is_editing_spec(act: Action) -> bool {
    act == Action::DeleteLine || act == Action::DeleteCharUnder || act == Action::OpenAbove
        || act == Action::OpenBelow
}

pub open spec fn is_word_motion(act: Action) -> bool {
    act == Action::MoveWordForward || act == Action::MoveWordBackward
        || act == Action::MoveEndWord
}

pub open spec fn is_motion_act(act: Action) -> bool {
    is_word_motion(act) || act == Action::LineStart || act == Action::LineEnd
}

pub open spec fn is_operator_act(act: Action) -> bool {
    act == Action::OperatorDelete || act == Action::OperatorChange
        || act == Action::OperatorYank
}

/// The two states agree on every field the undo-group flag is not part of.
pub open spec fn eq_core_fields(a: &Editor, b: &Editor) -> bool {
    &&& a.buf == b.buf
    &&& a.filename == b.filename
    &&& a.dirty == b.dirty
    &&& a.cx == b.cx && a.cy == b.cy
    &&& a.status == b.status
    &&& a.quit_times == b.quit_times
    &&& a.mode == b.mode
    &&& a.keymap == b.keymap
    &&& a.pending == b.pending
    &&& a.pending_waiting == b.pending_waiting
    &&& a.op_pending == b.op_pending
    &&& a.clipboard == b.clipboard
    &&& a.clipboard_kind == b.clipboard_kind
    &&& a.visual_anchor == b.visual_anchor
}

/// Opening the single undo group of a counted edit: one snapshot of `o`
/// pushed, redo cleared, the count-group flag raised, all else untouched.
pub open spec fn group_open_rel(o: &Editor, p: &Editor) -> bool {
    &&& pushes_snapshot(o, p)
    &&& p.undo_group_active == o.undo_group_active
    &&& p.count_group_active == true
    &&& eq_core_fields(o, p)
}

/// Closing that group: only the count-group flag drops.
pub open spec fn group_close_rel(q: &Editor, f: &Editor) -> bool {
    &&& eq_core_fields(q, f)
    &&& f.undo_stack == q.undo_stack
    &&& f.redo_stack == q.redo_stack
    &&& f.undo_group_active == q.undo_group_active
    &&& f.count_group_active == false
}

/// Each adjacent pair of the state trace is one application of the action.
pub open spec fn chain_ok(states: Seq<Editor>, act: Action) -> bool {
    forall|j: int| 0 <= j < states.len() - 1
        ==> #[trigger] action_rel(&states[j], &states[j + 1], act)
}

/// `n` applications of the one-action relation: some trace of `n + 1`
/// states leads from `o` to `f`, each step related by `action_rel`.
pub open spec fn action_iter(o: Editor, f: Editor, act: Action, n: int) -> bool {
    exists|states: Seq<Editor>| #![trigger chain_ok(states, act)]
        states.len() == n + 1 && states.first() == o && states.last() == f
        && chain_ok(states, act)
}

/// What deleting `count` whole lines at the cursor leaves behind: the rows
/// captured line-wise, the span removed in one piece, the cursor clamped to
/// column 0 of the same row index.
pub open spec fn delete_lines_rel(o: &Editor, f: &Editor, count: int) -> bool {
    &&& edit_start_rel(o, f)
    &&& f.clipboard_kind == ClipboardKind::Linewise
    &&& f.dirty == true
    &&& f.cx == 0
    &&& ({
        let s = o.buf@;
        let lc = line_count_of(s) as int;
        let sy = o.cy as int;
        if sy >= lc {
            f.buf@ == s && f.clipboard@ == Seq::<char>::empty() && f.cy as int == lc - 1
        } else {
            let ey = if sy + count - 1 <= lc - 1 { sy + count - 1 } else { lc - 1 };
            f.clipboard@ == joined_rows(s, sy, ey)
                && f.buf@ == remove_text_range(
                    s,
                    line_start(s, sy),
                    if ey + 1 < lc { line_start(s, ey + 1) } else { s.len() as int },
                )
                && f.cy as int == clamp_row(f.buf@, sy)
        }
    })
    &&& same_mode(o, f)
    &&& same_pending(o, f)
    &&& same_keymap(o, f)
    &&& same_ui(o, f)
    &&& f.cursor_ok()
}

/// A counted editing run inside one undo group: the group opened on `o`,
/// the action iterated, and the group closed.
pub open spec fn grouped_run(o: Editor, p: Editor, q: Editor, f: Editor, act: Action, n: int)
    -> bool
{
    group_open_rel(&o, &p) && action_iter(p, q, act, n) && group_close_rel(&q, &f)
}

/// What repeating an action `count` times leaves behind: a counted
/// multi-line delete in one piece, otherwise the action relation iterated,
/// inside one undo group when the action edits the document.
pub open spec fn counted_rel(o: Editor, f: Editor, act: Action, count: int) -> bool {
    let n = if count >= 1 { count } else { 1int };
    &&& (act == Action::DeleteLine && n > 1 ==> delete_lines_rel(&o, &f, n))
    &&& (!(act == Action::DeleteLine && n > 1) && !o.count_group_active
        && (!is_word_motion(act) || o.op_pending is None) ==> (
        if n <= 1 || !is_editing_spec(act) {
            action_iter(o, f, act, n)
        } else {
            exists|p: Editor, q: Editor|
                #![trigger group_open_rel(&o, &p), group_close_rel(&q, &f)]
                grouped_run(o, p, q, f, act, n)
        }
    ))
}


/// Clearing `m` whole lines walking downward: each step empties the row
/// under the cursor and moves down while a next row exists.
pub open spec fn change_rows(s: Seq<char>, y: int, m: int) -> (Seq<char>, int)
    decreases m
{
    if m <= 0 {
        (s, y)
    } else {
        let s2 = if 0 <= y < line_count_of(s) {
            remove_text_range(s, line_start(s, y), crate::textmodel::line_end(s, y))
        } else {
            s
        };
        let y2 = if y + 1 < line_count_of(s2) { y + 1 } else { y };
        change_rows(s2, y2, m - 1)
    }
}

/// What resolving a pending operator against an action leaves behind: a
/// repeated delete works on whole lines, a repeated change empties them and
/// enters insert mode, a repeated yank captures them, a motion sweeps the
/// spanned range, and anything else drops the operator and runs counted.
pub open spec fn op_pair_rel(o: Editor, f: Editor, opk: Action, act: Action, n: int) -> bool {
    let s = o.buf@;
    let m = if n >= 1 { n } else { 1int };
    if opk == Action::OperatorDelete
        && (act == Action::OperatorDelete || act == Action::DeleteLine) {
        counted_rel(o, f, Action::DeleteLine, n)
    } else if opk == Action::OperatorChange && act == Action::OperatorChange {
        let cr = change_rows(s, o.cy as int, m);
        let e1 = if n >= 1 { n - 1 } else { 0int };
        let pre = if e1 > cr.1 { 0int } else { cr.1 - e1 };
        &&& f.buf@ == cr.0
        &&& f.mode == Mode::Insert
        &&& f.visual_anchor == o.visual_anchor
        &&& f.cy as int == clamp_row(f.buf@, pre)
        &&& f.cx as int == clamp_col(f.buf@, f.cy as int, 0)
        &&& f.dirty == true
        &&& same_hist(&o, &f)
        &&& same_clip(&o, &f)
        &&& f.op_pending == o.op_pending
    } else if opk == Action::OperatorYank && act == Action::OperatorYank {
        let lc = line_count_of(s) as int;
        &&& f.buf@ == s
        &&& same_cursor(&o, &f)
        &&& f.mode == o.mode
        &&& f.visual_anchor == o.visual_anchor
        &&& same_hist(&o, &f)
        &&& f.dirty == o.dirty
        &&& f.op_pending == o.op_pending
        &&& f.clipboard_kind == o.clipboard_kind
        &&& ((o.cy as int) < lc ==> ({
            let last = if n >= 1 && n - 1 <= lc - 1 - o.cy { o.cy + n - 1 } else { lc - 1 };
            f.clipboard@ == (if last >= o.cy { joined_rows(s, o.cy as int, last) } else {
                Seq::<char>::empty()
            })
        }))
        &&& ((o.cy as int) >= lc ==> f.clipboard@ == Seq::<char>::empty())
    } else if is_motion_act(act) {
        let dc2 = opk == Action::OperatorDelete || opk == Action::OperatorChange;
        let t = motion_target_spec(s, o.cy as int, o.cx as int, act, m, dc2);
        let incl = act == Action::MoveEndWord || act == Action::LineEnd;
        let ord = order_positions(o.cy as int, o.cx as int, t.0, t.1);
        let nonempty = ord.2 > ord.0 || (ord.2 == ord.0 && ord.3 > ord.1);
        &&& (nonempty && dc2 ==> ({
            &&& f.clipboard@ == extract_spec(s, ord.0, ord.1, ord.2, ord.3, incl)
            &&& f.clipboard_kind == (if sweep_is_linewise(s, ord.0, ord.1, ord.2, ord.3) {
                ClipboardKind::Linewise
            } else {
                ClipboardKind::Charwise
            })
            &&& f.buf@ == delete_range_spec(s, ord.0, ord.1, ord.2, ord.3, incl)
            &&& f.dirty == true
            &&& f.mode == (if opk == Action::OperatorChange { Mode::Insert } else { o.mode })
            &&& f.cy as int == clamp_row(f.buf@, ord.0)
            &&& f.cx as int == clamp_col(f.buf@, f.cy as int, ord.1)
        }))
        &&& (nonempty && opk == Action::OperatorYank ==> ({
            &&& f.clipboard@ == extract_spec(s, ord.0, ord.1, ord.2, ord.3, incl)
            &&& f.clipboard_kind == (if sweep_is_linewise(s, ord.0, ord.1, ord.2, ord.3) {
                ClipboardKind::Linewise
            } else {
                ClipboardKind::Charwise
            })
            &&& f.buf@ == s
            &&& f.mode == o.mode
            &&& f.dirty == o.dirty
            &&& f.cy as int == clamp_row(s, o.cy as int)
            &&& f.cx as int == clamp_col(s, f.cy as int, o.cx as int)
        }))
        &&& (nonempty && !dc2 && opk != Action::OperatorYank ==> f.buf@ == s
            && same_clip(&o, &f) && f.mode == o.mode && f.dirty == o.dirty
            && f.cy as int == clamp_row(s, o.cy as int)
            && f.cx as int == clamp_col(s, f.cy as int, o.cx as int))
        &&& (!nonempty ==> f.buf@ == s && same_clip(&o, &f) && f.mode == o.mode
            && f.dirty == o.dirty
            && f.cy as int == clamp_row(s, o.cy as int)
            && f.cx as int == clamp_col(s, f.cy as int, o.cx as int))
        &&& (dc2 ==> (if m > 1 && !o.count_group_active {
            pushes_snapshot(&o, &f) && f.undo_group_active == o.undo_group_active
                && f.count_group_active == o.count_group_active
        } else {
            edit_start_rel(&o, &f)
        }))
        &&& (!dc2 ==> same_hist(&o, &f))
        &&& f.visual_anchor == o.visual_anchor
    } else {
        counted_rel(o, f, act, n)
    }
}

/// Nothing observable changed.
pub open spec fn same_all(a: &Editor, b: &Editor) -> bool {
    &&& same_doc(a, b)
    &&& same_cursor(a, b)
    &&& same_mode(a, b)
    &&& same_hist(a, b)
    &&& same_clip(a, b)
    &&& same_pending(a, b)
    &&& same_keymap(a, b)
    &&& same_ui(a, b)
    &&& a.dirty == b.dirty
}

pub proof fn lemma_rtrim_bounds(s: Seq<char>, j: int)
    requires
        0 <= j <= s.len(),
    ensures
        0 <= rtrim_len(s, j) <= j,
    decreases j,
{
    if j > 0 && is_ws_char(s[j - 1]) {
        lemma_rtrim_bounds(s, j - 1);
    }
}

fn char_is_ws(c: char) -> (r: bool)
    ensures
        r == is_ws_char(c),
{
    c == ' ' || c == '\t' || c == '\n' || c == '\r'
}

/// The input with blanks removed from both ends.
pub fn str_trim(s: &str) -> (r: String)
    ensures
        r@ == trim_spec(s@),
{
    let n = s.unicode_len();
    let mut a: usize = 0;
    while a < n && char_is_ws(s.get_char(a))
        invariant
            n == s@.len(),
            a <= n,
            ltrim_len(s@, a as int) == ltrim_len(s@, 0),
        decreases n - a,
    {
        a += 1;
    }
    proof {
        assert(ltrim_len(s@, 0) == a as int);
    }
    let mut b: usize = n;
    while b > a && char_is_ws(s.get_char(b - 1))
        invariant
            n == s@.len(),
            a <= b <= n,
            rtrim_len(s@, b as int) == rtrim_len(s@, n as int),
        decreases b,
    {
        b = b - 1;
    }
    if a >= b {
        proof {
            lemma_rtrim_bounds(s@, b as int);
            assert(trim_spec(s@) =~= Seq::<char>::empty());
        }
        String::new()
    } else {
        proof {
            assert(rtrim_len(s@, n as int) == b as int);
        }
        let t = s.substring_char(a, b);
        t.to_owned()
    }
}

/// The numeric value of a digit string; `None` when it exceeds `usize`.
pub fn parse_digits(s: &str) -> (r: Option<usize>)
    requires
        all_digit_chars(s@),
    ensures
        (r matches Some(v) ==> v as int == digits_val(s@)),
        (r is None ==> digits_val(s@) > usize::MAX),
{
    let n = s.unicode_len();
    let mut acc: usize = 0;
    let mut of: bool = false;
    let mut k: usize = 0;
    while k < n
        invariant
            n == s@.len(),
            k <= n,
            all_digit_chars(s@),
            !of ==> acc as int == digits_val(s@.take(k as int)),
            of ==> digits_val(s@.take(k as int)) > usize::MAX,
        decreases n - k,
    {
        proof {
            assert(s@.take(k as int + 1).drop_last() =~= s@.take(k as int));
            assert(s@.take(k as int + 1).last() == s@[k as int]);
            assert(all_digit_chars(s@.take(k as int))) by {
                assert(forall|j: int| 0 <= j < k
                    ==> (#[trigger] s@.take(k as int)[j]) == s@[j]);
            }
            lemma_digits_val_nonneg(s@.take(k as int));
            assert(is_digit_char(s@[k as int]));
        }
        let c = s.get_char(k);
        let d = (c as u32 - 48) as usize;
        if !of {
            if acc > (usize::MAX - d) / 10 {
                of = true;
            } else {
                acc = acc * 10 + d;
            }
        }
        k += 1;
    }
    proof {
        assert(s@.take(n as int) =~= s@);
    }
    if of {
        None
    } else {
        Some(acc)
    }
}

/// Everything `undo` leaves behind on success: the top snapshot restored
/// with a clamped cursor, the pre-undo state pushed for redo, mode kept.
pub open spec fn undo_rel(o: &Editor, f: &Editor) -> bool {
    &&& o.undo_stack@.len() > 0
    &&& f.undo_stack@ == o.undo_stack@.drop_last()
    &&& f.redo_stack@.len() == o.redo_stack@.len() + 1
    &&& f.redo_stack@.drop_last() == o.redo_stack@
    &&& snapshot_of(o, f.redo_stack@.last())
    &&& ({
        let sn = o.undo_stack@.last();
        f.buf@ == sn.text@ && f.cy as int == clamp_row(sn.text@, sn.cy as int)
            && f.cx as int == clamp_col(sn.text@, f.cy as int, sn.cx as int)
    })
    &&& f.mode == o.mode
    &&& f.visual_anchor == o.visual_anchor
    &&& f.undo_group_active == false
    &&& f.count_group_active == o.count_group_active
    &&& f.dirty == o.dirty
    &&& same_ui(o, f)
    &&& same_keymap(o, f)
    &&& same_clip(o, f)
    &&& same_pending(o, f)
}

/// Everything `redo` leaves behind on success, symmetric to `undo_rel`.
pub open spec fn redo_rel(o: &Editor, f: &Editor) -> bool {
    &&& o.redo_stack@.len() > 0
    &&& f.redo_stack@ == o.redo_stack@.drop_last()
    &&& f.undo_stack@.len() == o.undo_stack@.len() + 1
    &&& f.undo_stack@.drop_last() == o.undo_stack@
    &&& snapshot_of(o, f.undo_stack@.last())
    &&& ({
        let sn = o.redo_stack@.last();
        f.buf@ == sn.text@ && f.cy as int == clamp_row(sn.text@, sn.cy as int)
            && f.cx as int == clamp_col(sn.text@, f.cy as int, sn.cx as int)
    })
    &&& f.mode == o.mode
    &&& f.visual_anchor == o.visual_anchor
    &&& f.undo_group_active == false
    &&& f.count_group_active == o.count_group_active
    &&& f.dirty == o.dirty
    &&& same_ui(o, f)
    &&& same_keymap(o, f)
    &&& same_clip(o, f)
    &&& same_pending(o, f)
}

/// Law: for a state whose cursor is in bounds, `undo` followed by `redo`
/// restores the post-edit state: document, cursor, history and mode.
pub proof fn lemma_undo_redo_inverse(e0: Editor, e1: Editor, e2: Editor)
    requires
        e0.cursor_ok(),
        snapshot_ok(e0.undo_stack@.last()),
        e0.undo_stack@.len() > 0,
        undo_rel(&e0, &e1),
        redo_rel(&e1, &e2),
    ensures
        e2.buf@ == e0.buf@,
        e2.cx == e0.cx,
        e2.cy == e0.cy,
        e2.mode == e0.mode,
        snaps_eq(e2.undo_stack@, e0.undo_stack@),
        snaps_eq(e2.redo_stack@, e0.redo_stack@),
{
    let sn = e1.redo_stack@.last();
    assert(sn.text@ == e0.buf@ && sn.cx == e0.cx && sn.cy == e0.cy);
    assert(e2.buf@ == e0.buf@);
    assert(e2.cy as int == clamp_row(e0.buf@, e0.cy as int));
    assert(e2.cy == e0.cy);
    assert(e2.cx as int == clamp_col(e0.buf@, e0.cy as int, e0.cx as int));
    assert(e2.cx == e0.cx);
    let top = e0.undo_stack@.last();
    let top2 = e2.undo_stack@.last();
    assert(top2.text@ == e1.buf@ && top2.cx == e1.cx && top2.cy == e1.cy);
    assert(e1.buf@ == top.text@);
    assert(e1.cy as int == clamp_row(top.text@, top.cy as int));
    assert(e1.cy == top.cy);
    assert(e1.cx == top.cx);
    assert(e2.undo_stack@.drop_last() == e1.undo_stack@);
    assert(e1.undo_stack@ == e0.undo_stack@.drop_last());
    assert forall|k: int| 0 <= k < e2.undo_stack@.len() implies
        (#[trigger] e2.undo_stack@[k]).text@ == e0.undo_stack@[k].text@
        && e2.undo_stack@[k].cx == e0.undo_stack@[k].cx
        && e2.undo_stack@[k].cy == e0.undo_stack@[k].cy
    by {
        if k < e2.undo_stack@.len() - 1 {
            assert(e2.undo_stack@[k] == e2.undo_stack@.drop_last()[k]);
            assert(e0.undo_stack@.drop_last()[k] == e0.undo_stack@[k]);
        } else {
            assert(e2.undo_stack@[k] == top2);
            assert(e0.undo_stack@[k] == top);
        }
    }
    assert(e2.redo_stack@ == e1.redo_stack@.drop_last());
    assert(e1.redo_stack@.drop_last() == e0.redo_stack@);
}

/// Law: an edit that pushed a snapshot, followed by `undo`, restores the
/// pre-edit document, cursor and undo stack.
pub proof fn lemma_edit_undo_inverse(e0: Editor, e1: Editor, e2: Editor)
    requires
        e0.cursor_ok(),
        e1.undo_stack@.len() == e0.undo_stack@.len() + 1,
        e1.undo_stack@.drop_last() == e0.undo_stack@,
        snapshot_of(&e0, e1.undo_stack@.last()),
        undo_rel(&e1, &e2),
    ensures
        e2.buf@ == e0.buf@,
        e2.cx == e0.cx,
        e2.cy == e0.cy,
        e2.undo_stack@ == e0.undo_stack@,
{
    let sn = e1.undo_stack@.last();
    assert(e2.buf@ == sn.text@);
    assert(e2.cy as int == clamp_row(e0.buf@, e0.cy as int));
    assert(e2.cy == e0.cy);
    assert(e2.cx == e0.cx);
}

/// What one action leaves behind, variant by variant, with the final
/// cursor clamp folded in.
pub open spec fn action_rel(o: &Editor, f: &Editor, act: Action) -> bool {
    ({
        let s = o.buf@;
        let lc = line_count_of(s) as int;
        &&& (act == Action::MoveUp ==> f.buf@ == s && same_hist(o, f)
            && same_clip(o, f) && same_mode(o, f) && f.dirty == o.dirty
            && f.op_pending == o.op_pending
            && f.cy as int == clamp_row(s, if o.cy > 0 { o.cy - 1 } else { 0int })
            && f.cx as int == clamp_col(s, f.cy as int, o.cx as int))
        &&& (act == Action::MoveDown ==> f.buf@ == s && same_hist(o, f)
            && same_clip(o, f) && same_mode(o, f) && f.dirty == o.dirty
            && f.op_pending == o.op_pending
            && f.cy as int == clamp_row(s, if o.cy + 1 < lc { o.cy + 1 } else {
                o.cy as int
            })
            && f.cx as int == clamp_col(s, f.cy as int, o.cx as int))
        &&& (act == Action::MoveLeft ==> f.buf@ == s && same_hist(o, f)
            && same_clip(o, f) && same_mode(o, f) && f.dirty == o.dirty
            && f.op_pending == o.op_pending
            && ({
                let pre = if o.cx > 0 {
                    (o.cy as int, crate::buffer::prev_col_spec(row_at(s, o.cy as int),
                        o.cx as int))
                } else if o.cy > 0 {
                    (o.cy - 1, line_width_of(row_at(s, o.cy as int - 1)))
                } else {
                    (o.cy as int, o.cx as int)
                };
                f.cy as int == clamp_row(s, pre.0)
                    && f.cx as int == clamp_col(s, f.cy as int, pre.1)
            }))
        &&& (act == Action::MoveRight ==> f.buf@ == s && same_hist(o, f)
            && same_clip(o, f) && same_mode(o, f) && f.dirty == o.dirty
            && f.op_pending == o.op_pending
            && ({
                let len = line_width_of(row_at(s, o.cy as int));
                let pre = if (o.cx as int) < len {
                    (o.cy as int, crate::buffer::next_col_spec(row_at(s, o.cy as int),
                        o.cx as int))
                } else if o.cy + 1 < lc {
                    (o.cy + 1, 0int)
                } else {
                    (o.cy as int, o.cx as int)
                };
                f.cy as int == clamp_row(s, pre.0)
                    && f.cx as int == clamp_col(s, f.cy as int, pre.1)
            }))
        &&& (act == Action::LineStart ==> f.buf@ == s && same_hist(o, f)
            && same_clip(o, f) && same_mode(o, f) && f.dirty == o.dirty
            && f.op_pending == o.op_pending
            && f.cy as int == clamp_row(s, o.cy as int) && f.cx == 0)
        &&& (act == Action::LineEnd ==> f.buf@ == s && same_hist(o, f)
            && same_clip(o, f) && same_mode(o, f) && f.dirty == o.dirty
            && f.op_pending == o.op_pending
            && f.cy as int == clamp_row(s, o.cy as int)
            && f.cx as int == clamp_col(s, f.cy as int,
                line_width_of(row_at(s, o.cy as int))))
        &&& (act == Action::GotoTop ==> f.buf@ == s && same_hist(o, f)
            && same_clip(o, f) && same_mode(o, f) && f.dirty == o.dirty
            && f.op_pending == o.op_pending && f.cy == 0 && f.cx == 0)
        &&& (act == Action::GotoBottom ==> f.buf@ == s && same_hist(o, f)
            && same_clip(o, f) && same_mode(o, f) && f.dirty == o.dirty
            && f.op_pending == o.op_pending
            && f.cy as int == lc - 1
            && f.cx as int == clamp_col(s, lc - 1,
                line_width_of(row_at(s, lc - 1))))
        &&& (act == Action::EnterInsert ==> f.buf@ == s && same_hist(o, f)
            && same_clip(o, f) && f.dirty == o.dirty
            && f.op_pending == o.op_pending
            && f.mode == Mode::Insert && f.visual_anchor == o.visual_anchor
            && f.cy as int == clamp_row(s, o.cy as int)
            && f.cx as int == clamp_col(s, f.cy as int, o.cx as int))
        &&& (act == Action::Append ==> f.buf@ == s && same_hist(o, f)
            && same_clip(o, f) && f.dirty == o.dirty
            && f.op_pending == o.op_pending
            && f.mode == Mode::Insert && f.visual_anchor == o.visual_anchor
            && ({
                let len = line_width_of(row_at(s, o.cy as int));
                let prex = if (o.cx as int) < len {
                    crate::buffer::next_col_spec(row_at(s, o.cy as int), o.cx as int)
                } else {
                    o.cx as int
                };
                f.cy as int == clamp_row(s, o.cy as int)
                    && f.cx as int == clamp_col(s, f.cy as int, prex)
            }))
        &&& (act == Action::EnterVisual ==> f.buf@ == s && same_hist(o, f)
            && same_clip(o, f) && f.dirty == o.dirty
            && f.op_pending == o.op_pending
            && toggle_rel(o, f, Mode::Visual))
        &&& (act == Action::EnterVisualLine ==> f.buf@ == s && same_hist(o, f)
            && same_clip(o, f) && f.dirty == o.dirty
            && f.op_pending == o.op_pending
            && toggle_rel(o, f, Mode::VisualLine))
        &&& (act == Action::EnterVisualBlock ==> f.buf@ == s && same_hist(o, f)
            && same_clip(o, f) && f.dirty == o.dirty
            && f.op_pending == o.op_pending
            && toggle_rel(o, f, Mode::VisualBlock))
        &&& (act == Action::OpenBelow ==> edit_start_rel(o, f)
            && same_clip(o, f) && f.dirty == true
            && f.op_pending == o.op_pending
            && f.mode == Mode::Insert && f.visual_anchor == o.visual_anchor
            && ({
                let idx = char_index_clamped(s, o.cy as int,
                    line_width_of(row_at(s, o.cy as int)));
                &&& (s.len() < MAX_TEXT_LEN
                    ==> f.buf@ == insert_text_at(s, idx, seq!['\n']))
                &&& (s.len() >= MAX_TEXT_LEN ==> f.buf@ == s)
                &&& f.cy as int == clamp_row(f.buf@, o.cy + 1)
                &&& f.cx as int == clamp_col(f.buf@, f.cy as int, 0)
            }))
        &&& (act == Action::OpenAbove ==> edit_start_rel(o, f)
            && same_clip(o, f) && f.dirty == true
            && f.op_pending == o.op_pending
            && f.mode == Mode::Insert && f.visual_anchor == o.visual_anchor
            && ({
                let idx = char_index_clamped(s, o.cy as int, 0);
                &&& (s.len() < MAX_TEXT_LEN
                    ==> f.buf@ == insert_text_at(s, idx, seq!['\n']))
                &&& (s.len() >= MAX_TEXT_LEN ==> f.buf@ == s)
                &&& f.cy as int == clamp_row(f.buf@, o.cy as int)
                &&& f.cx as int == clamp_col(f.buf@, f.cy as int, 0)
            }))
        &&& (act == Action::DeleteCharUnder ==> edit_start_rel(o, f)
            && same_clip(o, f) && f.dirty == true
            && f.op_pending == o.op_pending && same_mode(o, f)
            && ({
                let line = row_at(s, o.cy as int);
                let ls = line_start(s, o.cy as int);
                let span = crate::buffer::del_at_span(line, o.cx as int);
                &&& (line.len() == 0 || span is None ==> f.buf@ == s)
                &&& (line.len() > 0 ==> (span matches Some(ab) ==> f.buf@
                    == remove_text_range(s, ls + ab.0, ls + ab.1)))
                &&& f.cy as int == clamp_row(f.buf@, o.cy as int)
                &&& f.cx as int == clamp_col(f.buf@, f.cy as int, o.cx as int)
            }))
        &&& (act == Action::DeleteLine ==> edit_start_rel(o, f)
            && f.dirty == true && f.op_pending == o.op_pending && same_mode(o, f)
            && f.clipboard@ == row_at(s, o.cy as int)
            && f.clipboard_kind == ClipboardKind::Linewise
            && ({
                &&& ((o.cy as nat) >= line_count_of(s) ==> f.buf@ == s)
                &&& ((o.cy as nat) < line_count_of(s) ==> f.buf@ == remove_text_range(
                    s,
                    line_start(s, o.cy as int),
                    if o.cy + 1 < lc { line_start(s, o.cy as int + 1) } else {
                        s.len() as int
                    },
                ))
                &&& f.cy as int == clamp_row(f.buf@, o.cy as int)
                &&& f.cx == 0
            }))
        &&& (act == Action::CommandPrompt ==> f.buf@ == s && same_hist(o, f)
            && same_clip(o, f) && same_mode(o, f) && f.dirty == o.dirty
            && f.op_pending == o.op_pending
            && f.cy as int == clamp_row(s, o.cy as int)
            && f.cx as int == clamp_col(s, f.cy as int, o.cx as int))
        &&& (act == Action::OperatorDelete ==> f.buf@ == s && same_hist(o, f)
            && same_clip(o, f) && same_mode(o, f) && f.dirty == o.dirty
            && f.op_pending == Some((Action::OperatorDelete, 1usize))
            && f.cy as int == clamp_row(s, o.cy as int)
            && f.cx as int == clamp_col(s, f.cy as int, o.cx as int))
        &&& (act == Action::OperatorChange ==> f.buf@ == s && same_hist(o, f)
            && same_clip(o, f) && same_mode(o, f) && f.dirty == o.dirty
            && f.op_pending == Some((Action::OperatorChange, 1usize))
            && f.cy as int == clamp_row(s, o.cy as int)
            && f.cx as int == clamp_col(s, f.cy as int, o.cx as int))
        &&& (act == Action::OperatorYank ==> f.buf@ == s && same_hist(o, f)
            && same_clip(o, f) && same_mode(o, f) && f.dirty == o.dirty
            && f.op_pending == Some((Action::OperatorYank, 1usize))
            && f.cy as int == clamp_row(s, o.cy as int)
            && f.cx as int == clamp_col(s, f.cy as int, o.cx as int))
        &&& (act == Action::Undo ==> f.op_pending == o.op_pending
            && (o.undo_stack@.len() > 0 ==> undo_rel(o, f))
            && (o.undo_stack@.len() == 0 ==> f.buf@ == s && same_hist(o, f)
                && same_clip(o, f) && same_mode(o, f) && f.dirty == o.dirty
                && f.cy as int == clamp_row(s, o.cy as int)
                && f.cx as int == clamp_col(s, f.cy as int, o.cx as int)))
        &&& (act == Action::Redo ==> f.op_pending == o.op_pending
            && (o.redo_stack@.len() > 0 ==> redo_rel(o, f))
            && (o.redo_stack@.len() == 0 ==> f.buf@ == s && same_hist(o, f)
                && same_clip(o, f) && same_mode(o, f) && f.dirty == o.dirty
                && f.cy as int == clamp_row(s, o.cy as int)
                && f.cx as int == clamp_col(s, f.cy as int, o.cx as int)))
        &&& ((act == Action::MoveWordForward || act == Action::MoveWordBackward
            || act == Action::MoveEndWord) ==> ({
            &&& (o.op_pending is None ==> f.buf@ == s && same_hist(o, f)
                && same_clip(o, f) && same_mode(o, f) && f.dirty == o.dirty
                && f.op_pending is None
                && ({
                    let t = motion_target_spec(s, o.cy as int, o.cx as int, act, 1,
                        false);
                    f.cy as int == clamp_row(s, t.0)
                        && f.cx as int == clamp_col(s, f.cy as int, t.1)
                }))
            &&& (o.op_pending is Some ==> f.op_pending is None)
        }))
        &&& (act == Action::PasteAfter ==> f.op_pending == o.op_pending
            && same_mode(o, f) && same_clip(o, f)
            && ({
                let clip = o.clipboard@;
                &&& (clip.len() == 0 ==> f.buf@ == s && same_hist(o, f)
                    && f.dirty == o.dirty
                    && f.cy as int == clamp_row(s, o.cy as int)
                    && f.cx as int == clamp_col(s, f.cy as int, o.cx as int))
                &&& (clip.len() > 0 ==> edit_start_rel(o, f) && f.dirty == true
                    && (o.clipboard_kind == ClipboardKind::Linewise ==> ({
                        let clean = if clip.last() == '\n' { clip.drop_last() } else {
                            clip
                        };
                        let ins = seq!['\n'] + clean;
                        let idx = char_index_clamped(s, o.cy as int,
                            line_width_of(row_at(s, o.cy as int)));
                        &&& (s.len() + ins.len() <= MAX_TEXT_LEN
                            ==> f.buf@ == insert_text_at(s, idx, ins))
                        &&& (s.len() + ins.len() > MAX_TEXT_LEN ==> f.buf@ == s)
                        &&& f.cy as int == clamp_row(f.buf@, o.cy + 1)
                        &&& f.cx as int == clamp_col(f.buf@, f.cy as int, 0)
                    }))
                    && (o.clipboard_kind == ClipboardKind::Charwise ==> ({
                        let idx = char_index_clamped(s, o.cy as int, o.cx as int);
                        &&& (s.len() + clip.len() <= MAX_TEXT_LEN
                            ==> f.buf@ == insert_text_at(s, idx, clip))
                        &&& (s.len() + clip.len() > MAX_TEXT_LEN ==> f.buf@ == s)
                        &&& f.cy as int == clamp_row(f.buf@, o.cy as int)
                        &&& f.cx as int == clamp_col(f.buf@, f.cy as int, o.cx as int)
                    }))
                    && (o.clipboard_kind == ClipboardKind::Blockwise ==> ({
                        &&& (clip.len() <= MAX_TEXT_LEN ==> f.buf@
                            == block_paste_spec(s, clip, 0, o.cy + 1, o.cx as int))
                        &&& (clip.len() > MAX_TEXT_LEN ==> f.buf@ == s)
                        &&& f.cy as int == clamp_row(f.buf@, o.cy + 1)
                        &&& f.cx as int == clamp_col(f.buf@, f.cy as int, o.cx as int)
                    })))
            }))
        &&& (act == Action::PasteBefore ==> f.op_pending == o.op_pending
            && same_mode(o, f) && same_clip(o, f)
            && ({
                let clip = o.clipboard@;
                &&& (clip.len() == 0 ==> f.buf@ == s && same_hist(o, f)
                    && f.dirty == o.dirty
                    && f.cy as int == clamp_row(s, o.cy as int)
                    && f.cx as int == clamp_col(s, f.cy as int, o.cx as int))
                &&& (clip.len() > 0 ==> edit_start_rel(o, f) && f.dirty == true
                    && (o.clipboard_kind == ClipboardKind::Linewise ==> ({
                        let ins = clip.push('\n');
                        let idx = if (o.cy as nat) < line_count_of(s) {
                            line_start(s, o.cy as int)
                        } else {
                            s.len() as int
                        };
                        &&& (s.len() + ins.len() <= MAX_TEXT_LEN
                            ==> f.buf@ == insert_text_at(s, idx, ins))
                        &&& (s.len() + ins.len() > MAX_TEXT_LEN ==> f.buf@ == s)
                        &&& f.cy as int == clamp_row(f.buf@, o.cy as int)
                        &&& f.cx as int == clamp_col(f.buf@, f.cy as int, 0)
                    }))
                    && (o.clipboard_kind == ClipboardKind::Charwise ==> ({
                        let idx = char_index_clamped(s, o.cy as int, o.cx as int);
                        &&& (s.len() + clip.len() <= MAX_TEXT_LEN
                            ==> f.buf@ == insert_text_at(s, idx, clip))
                        &&& (s.len() + clip.len() > MAX_TEXT_LEN ==> f.buf@ == s)
                        &&& f.cy as int == clamp_row(f.buf@, o.cy as int)
                        &&& f.cx as int == clamp_col(f.buf@, f.cy as int, o.cx as int)
                    }))
                    && (o.clipboard_kind == ClipboardKind::Blockwise ==> ({
                        &&& (clip.len() <= MAX_TEXT_LEN ==> f.buf@
                            == block_paste_spec(s, clip, 0, o.cy as int, o.cx as int))
                        &&& (clip.len() > MAX_TEXT_LEN ==> f.buf@ == s)
                        &&& f.cy as int == clamp_row(f.buf@, o.cy as int)
                        &&& f.cx as int == clamp_col(f.buf@, f.cy as int, o.cx as int)
                    })))
            }))
    })
}

impl Editor {
    /// Document bound and history bound: everything the operations assume.
    pub open spec fn wf(&self) -> bool {
        &&& self.buf.wf()
        &&& forall|k: int| 0 <= k < self.undo_stack@.len()
            ==> (#[trigger] self.undo_stack@[k]).text@.len() <= MAX_TEXT_LEN
        &&& forall|k: int| 0 <= k < self.redo_stack@.len()
            ==> (#[trigger] self.redo_stack@[k]).text@.len() <= MAX_TEXT_LEN
    }

    /// The cursor invariant: the row exists and the column is at most the
    /// row's display width.
    pub open spec fn cursor_ok(&self) -> bool {
        &&& (self.cy as nat) < line_count_of(self.buf@)
        &&& self.cx as int <= line_width_of(line_at(self.buf@, self.cy as int))
    }

    /// Numeric bounds on the cursor that keep its arithmetic inside
    /// `usize`; every clamped cursor satisfies them.
    pub open spec fn cursor_bounded(&self) -> bool {
        self.cx <= 4 * MAX_TEXT_LEN && self.cy <= MAX_TEXT_LEN
    }

    /// A fresh editor: one empty line, normal mode, default bindings.
    pub fn new() -> (e: Editor)
        ensures
            e.wf(),
            e.cursor_ok(),
            e.cursor_bounded(),
            e.buf@ == Seq::<char>::empty(),
            e.cx == 0 && e.cy == 0,
            e.dirty == false,
            e.mode == Mode::Normal,
            e.keymap@ == default_bindings(),
            e.pending@ == Seq::<char>::empty(),
            e.pending_waiting == false,
            e.op_pending is None,
            e.clipboard@ == Seq::<char>::empty(),
            e.clipboard_kind == ClipboardKind::Charwise,
            e.visual_anchor is None,
            e.undo_stack@.len() == 0,
            e.redo_stack@.len() == 0,
            e.undo_group_active == false,
            e.count_group_active == false,
    {
        proof {
            reveal_strlit("");
        }
        let buf = Buffer::from_string(String::new());
        proof {
            assert(buf@ =~= Seq::<char>::empty());
            lemma_width_upto_nonneg(
                crate::unicode::grapheme_split(line_at(buf@, 0)),
                crate::unicode::grapheme_split(line_at(buf@, 0)).len() as int,
            );
        }
        Editor {
            buf,
            filename: None,
            dirty: false,
            cx: 0,
            cy: 0,
            status: String::new(),
            quit_times: 1,
            mode: Mode::Normal,
            keymap: default_keymap(),
            pending: String::new(),
            pending_waiting: false,
            op_pending: None,
            clipboard: String::new(),
            clipboard_kind: ClipboardKind::Charwise,
            visual_anchor: None,
            undo_stack: Vec::new(),
            redo_stack: Vec::new(),
            undo_group_active: false,
            count_group_active: false,
        }
    }

    /// Replaces the status message.
    pub fn set_status(&mut self, msg: &str)
        ensures
            final(self).status@ == msg@,
            final(self).buf@ == old(self).buf@,
            same_cursor(old(self), final(self)),
            same_mode(old(self), final(self)),
            same_hist(old(self), final(self)),
            same_clip(old(self), final(self)),
            same_pending(old(self), final(self)),
            same_keymap(old(self), final(self)),
            final(self).dirty == old(self).dirty,
            final(self).filename == old(self).filename,
            final(self).quit_times == old(self).quit_times,
    {
        self.status = msg.to_owned();
    }

    /// Clamps the cursor into the document: row to the last line, column to
    /// the row's width.  Doing it twice changes nothing more.
    pub fn clamp_cursor(&mut self)
        requires
            old(self).wf(),
        ensures
            final(self).wf(),
            final(self).cursor_ok(),
            final(self).cursor_bounded(),
            final(self).cy as int == clamp_row(old(self).buf@, old(self).cy as int),
            final(self).cx as int == clamp_col(
                old(self).buf@, final(self).cy as int, old(self).cx as int,
            ),
            final(self).buf@ == old(self).buf@,
            same_mode(old(self), final(self)),
            same_hist(old(self), final(self)),
            same_clip(old(self), final(self)),
            same_pending(old(self), final(self)),
            same_keymap(old(self), final(self)),
            same_ui(old(self), final(self)),
            final(self).dirty == old(self).dirty,
    {
        proof {
            lemma_newline_count_le(self.buf@, 0);
        }
        let lc = self.buf.line_count();
        let max_y = lc - 1;
        if self.cy > max_y {
            self.cy = max_y;
        }
        let w = self.buf.line_width(self.cy);
        if self.cx > w {
            self.cx = w;
        }
    }

    /// Ends the active insert-mode undo group without leaving insert mode,
    /// so the next edit opens a fresh group.
    pub fn end_undo_group(&mut self)
        ensures
            final(self).undo_group_active == false,
            final(self).buf@ == old(self).buf@,
            same_cursor(old(self), final(self)),
            same_mode(old(self), final(self)),
            final(self).undo_stack@ == old(self).undo_stack@,
            final(self).redo_stack@ == old(self).redo_stack@,
            final(self).count_group_active == old(self).count_group_active,
            same_clip(old(self), final(self)),
            same_pending(old(self), final(self)),
            same_keymap(old(self), final(self)),
            same_ui(old(self), final(self)),
            final(self).dirty == old(self).dirty,
    {
        self.undo_group_active = false;
    }

    pub fn undo_stack_len(&self) -> (n: usize)
        ensures
            n == self.undo_stack@.len(),
    {
        self.undo_stack.len()
    }

    /// Opens an undo step for the edit that is about to happen, following
    /// the grouping rules.
    fn on_edit_start(&mut self)
        requires
            old(self).wf(),
        ensures
            final(self).wf(),
            edit_start_rel(old(self), final(self)),
            final(self).buf@ == old(self).buf@,
            same_cursor(old(self), final(self)),
            same_mode(old(self), final(self)),
            same_clip(old(self), final(self)),
            same_pending(old(self), final(self)),
            same_keymap(old(self), final(self)),
            same_ui(old(self), final(self)),
            final(self).dirty == old(self).dirty,
    {
        let ghost u0 = self.undo_stack@;
        if self.count_group_active {
        } else if matches!(self.mode, Mode::Insert) {
            if !self.undo_group_active {
                let snap = EditorSnapshot {
                    text: self.buf.text_string(),
                    cx: self.cx,
                    cy: self.cy,
                };
                self.undo_stack.push(snap);
                self.redo_stack.clear();
                self.undo_group_active = true;
                proof {
                    assert(self.undo_stack@.drop_last() =~= u0);
                }
            }
        } else {
            let snap = EditorSnapshot {
                text: self.buf.text_string(),
                cx: self.cx,
                cy: self.cy,
            };
            self.undo_stack.push(snap);
            self.redo_stack.clear();
            self.undo_group_active = false;
            proof {
                assert(self.undo_stack@.drop_last() =~= u0);
            }
        }
    }

    /// Restores the top undo snapshot, pushing the current state for redo;
    /// reports whether there was anything to undo.
    pub fn undo(&mut self) -> (r: bool)
        requires
            old(self).wf(),
        ensures
            final(self).wf(),
            r == (old(self).undo_stack@.len() > 0),
            !r ==> same_all(old(self), final(self)),
            r ==> undo_rel(old(self), final(self)),
            r ==> final(self).cursor_ok(),
            r ==> final(self).cursor_bounded(),
    {
        let ghost r0 = self.redo_stack@;
        match self.undo_stack.pop() {
            None => false,
            Some(prev) => {
                let cur = EditorSnapshot {
                    text: self.buf.text_string(),
                    cx: self.cx,
                    cy: self.cy,
                };
                self.redo_stack.push(cur);
                proof {
                    assert(self.redo_stack@.drop_last() =~= r0);
                }
                self.buf = Buffer::from_text(prev.text);
                self.cx = prev.cx;
                self.cy = prev.cy;
                self.clamp_cursor();
                self.undo_group_active = false;
                true
            },
        }
    }

    /// Restores the top redo snapshot, pushing the current state back for
    /// undo; reports whether there was anything to redo.
    pub fn redo(&mut self) -> (r: bool)
        requires
            old(self).wf(),
        ensures
            final(self).wf(),
            r == (old(self).redo_stack@.len() > 0),
            !r ==> same_all(old(self), final(self)),
            r ==> redo_rel(old(self), final(self)),
            r ==> final(self).cursor_ok(),
            r ==> final(self).cursor_bounded(),
    {
        let ghost u0 = self.undo_stack@;
        match self.redo_stack.pop() {
            None => false,
            Some(next) => {
                let cur = EditorSnapshot {
                    text: self.buf.text_string(),
                    cx: self.cx,
                    cy: self.cy,
                };
                self.undo_stack.push(cur);
                proof {
                    assert(self.undo_stack@.drop_last() =~= u0);
                }
                self.buf = Buffer::from_text(next.text);
                self.cx = next.cx;
                self.cy = next.cy;
                self.clamp_cursor();
                self.undo_group_active = false;
                true
            },
        }
    }

    /// Types one character at the cursor and advances the column by the
    /// character's display width (minimum one column).
    pub fn insert_char(&mut self, ch: char)
        requires
            old(self).wf(),
            old(self).cursor_bounded(),
        ensures
            final(self).wf(),
            edit_start_rel(old(self), final(self)),
            ({
                let s = old(self).buf@;
                if s.len() < MAX_TEXT_LEN {
                    final(self).buf@ == insert_text_at(
                        s,
                        char_index_clamped(s, old(self).cy as int, old(self).cx as int),
                        seq![ch],
                    )
                } else {
                    final(self).buf@ == s
                }
            }),
            final(self).cx as int == old(self).cx + char_advance(ch),
            final(self).cy == old(self).cy,
            final(self).dirty == true,
            same_mode(old(self), final(self)),
            same_clip(old(self), final(self)),
            same_pending(old(self), final(self)),
            same_keymap(old(self), final(self)),
            same_ui(old(self), final(self)),
    {
        self.on_edit_start();
        self.buf.insert_char(self.cx, self.cy, ch);
        let w = crate::unicode::width_of_char(ch);
        let adv: usize = match w {
            Some(x) => if x == 0 { 1 } else { x },
            None => 1,
        };
        self.cx = self.cx + adv;
        self.dirty = true;
    }

    /// Splits the current line at the cursor; the cursor moves to the start
    /// of the new line below.
    pub fn insert_newline(&mut self)
        requires
            old(self).wf(),
            old(self).cursor_bounded(),
        ensures
            final(self).wf(),
            edit_start_rel(old(self), final(self)),
            ({
                let s = old(self).buf@;
                if s.len() < MAX_TEXT_LEN {
                    final(self).buf@ == insert_text_at(
                        s,
                        char_index_clamped(s, old(self).cy as int, old(self).cx as int),
                        seq!['\n'],
                    )
                } else {
                    final(self).buf@ == s
                }
            }),
            final(self).cy == old(self).cy + 1,
            final(self).cx == 0,
            final(self).dirty == true,
            same_mode(old(self), final(self)),
            same_clip(old(self), final(self)),
            same_pending(old(self), final(self)),
            same_keymap(old(self), final(self)),
            same_ui(old(self), final(self)),
    {
        self.on_edit_start();
        let x = self.cx;
        self.buf.insert_newline(x, self.cy);
        self.cy = self.cy + 1;
        self.cx = 0;
        self.dirty = true;
    }

    /// Deletes the grapheme left of the cursor; at the start of a line it
    /// joins the line onto the previous one instead.
    pub fn delete_char(&mut self)
        requires
            old(self).wf(),
        ensures
            final(self).wf(),
            edit_start_rel(old(self), final(self)),
            ({
                let o = *old(self);
                let f = *final(self);
                let s = o.buf@;
                if o.cx > 0 {
                    let line = row_at(s, o.cy as int);
                    let ls = line_start(s, o.cy as int);
                    let span = del_prev_span(line, o.cx as int);
                    &&& f.cy == o.cy
                    &&& f.dirty == true
                    &&& (line.len() == 0 ==> f.buf@ == s && f.cx == 0)
                    &&& (line.len() > 0 && span.1 < span.2 ==> f.buf@ == remove_text_range(
                        s, ls + span.1, ls + span.2,
                    ) && f.cx as int == span.0)
                    &&& (line.len() > 0 && span.1 >= span.2 ==> f.buf@ == s
                        && f.cx as int == o.cx - 1)
                } else if o.cy > 0 {
                    &&& f.cy == o.cy - 1
                    &&& f.dirty == true
                    &&& ((o.cy as nat) < line_count_of(s) ==> f.buf@ == remove_text_range(
                        s, line_start(s, o.cy as int) - 1, line_start(s, o.cy as int),
                    ) && f.cx as int == line_width_of(line_at(s, o.cy as int - 1)))
                    &&& ((o.cy as nat) >= line_count_of(s) ==> f.buf@ == s && f.cx == 0)
                } else {
                    f.buf@ == s && f.cx == o.cx && f.cy == o.cy && f.dirty == o.dirty
                }
            }),
            same_mode(old(self), final(self)),
            same_clip(old(self), final(self)),
            same_pending(old(self), final(self)),
            same_keymap(old(self), final(self)),
            same_ui(old(self), final(self)),
    {
        self.on_edit_start();
        if self.cx > 0 {
            self.cx = self.buf.delete_prev(self.cx, self.cy);
            self.dirty = true;
        } else if self.cy > 0 {
            let new_x = self.buf.merge_up(self.cy);
            self.cy = self.cy - 1;
            self.cx = new_x;
            self.dirty = true;
        }
    }

    /// Moves to 1-based line `n1`, clamped to the document; column 0.
    pub fn goto_line(&mut self, n1: usize)
        requires
            old(self).wf(),
        ensures
            final(self).wf(),
            final(self).cursor_ok(),
            final(self).cursor_bounded(),
            ({
                let lc = line_count_of(old(self).buf@) as int;
                let t = if n1 as int >= lc { lc - 1 } else if n1 == 0 { 0int } else { n1 - 1 };
                final(self).cy as int == t
            }),
            final(self).cx == 0,
            final(self).buf@ == old(self).buf@,
            same_mode(old(self), final(self)),
            same_hist(old(self), final(self)),
            same_clip(old(self), final(self)),
            same_pending(old(self), final(self)),
            same_keymap(old(self), final(self)),
            same_ui(old(self), final(self)),
            final(self).dirty == old(self).dirty,
    {
        let lc = self.buf.line_count();
        let m = if n1 < lc { n1 } else { lc };
        let target = if m == 0 { 0 } else { m - 1 };
        self.cy = target;
        self.cx = 0;
        self.clamp_cursor();
        proof {
            lemma_width_upto_nonneg(
                crate::unicode::grapheme_split(line_at(self.buf@, self.cy as int)),
                crate::unicode::grapheme_split(
                    line_at(self.buf@, self.cy as int),
                ).len() as int,
            );
        }
    }

    /// Runs a command-line command: a bare line number (1-based, clamped,
    /// `0` means line 1), `$` for the last line, or `+n`/`-n` for a relative
    /// jump.  Anything else is reported as unhandled.
    pub fn execute_ex_command(&mut self, cmd: &str) -> (r: bool)
        requires
            old(self).wf(),
        ensures
            final(self).wf(),
            ({
                let o = *old(self);
                let f = *final(self);
                let s = o.buf@;
                let lc = line_count_of(s) as int;
                let t = trim_spec(cmd@);
                if t == "$"@ {
                    r == true && f.cy as int == lc - 1 && f.cx == 0 && f.buf@ == s
                } else if t.len() > 1 && (t[0] == '+' || t[0] == '-')
                    && all_digit_chars(t.subrange(1, t.len() as int)) {
                    let d = digits_val(t.subrange(1, t.len() as int));
                    if d <= usize::MAX {
                        let raw = if t[0] == '+' { o.cy + d } else { o.cy - d };
                        let tgt = if raw < 0 { 0int } else if raw > lc - 1 { lc - 1 } else { raw };
                        r == true && f.cy as int == tgt && f.cx == 0 && f.buf@ == s
                    } else {
                        r == false && f.cy == o.cy && f.cx == o.cx && f.buf@ == s
                    }
                } else if t.len() > 0 && all_digit_chars(t) {
                    let d = digits_val(t);
                    if d <= usize::MAX {
                        let n1 = if d == 0 { 1int } else { d };
                        let tgt = if n1 >= lc { lc - 1 } else { n1 - 1 };
                        r == true && f.cy as int == tgt && f.cx == 0 && f.buf@ == s
                    } else {
                        r == true && f.cy == o.cy && f.cx == o.cx && f.buf@ == s
                    }
                } else {
                    r == false && f.cy == o.cy && f.cx == o.cx && f.buf@ == s
                }
            }),
            same_mode(old(self), final(self)),
            same_hist(old(self), final(self)),
            same_clip(old(self), final(self)),
            same_pending(old(self), final(self)),
            same_keymap(old(self), final(self)),
            same_ui(old(self), final(self)),
            final(self).dirty == old(self).dirty,
    {
        let t = str_trim(cmd);
        let n = t.as_str().unicode_len();
        if crate::unicode::str_eq(t.as_str(), "$") {
            let lc = self.buf.line_count();
            self.cy = lc - 1;
            self.cx = 0;
            return true;
        }
        if n > 1 {
            let c0 = t.as_str().get_char(0);
            if c0 == '+' || c0 == '-' {
                let rest = t.as_str().substring_char(1, n);
                if str_all_digits(rest) {
                    match parse_digits(rest) {
                        Some(d) => {
                            let lc = self.buf.line_count();
                            let up = c0 == '+';
                            let tgt: usize = if up {
                                if d > lc - 1 || self.cy > lc - 1 - d {
                                    lc - 1
                                } else {
                                    self.cy + d
                                }
                            } else {
                                if d > self.cy {
                                    0
                                } else {
                                    let c = self.cy - d;
                                    if c > lc - 1 {
                                        lc - 1
                                    } else {
                                        c
                                    }
                                }
                            };
                            self.cy = tgt;
                            self.cx = 0;
                            self.clamp_cursor();
                            proof {
                                lemma_width_upto_nonneg(
                                    crate::unicode::grapheme_split(
                                        line_at(self.buf@, self.cy as int),
                                    ),
                                    crate::unicode::grapheme_split(
                                        line_at(self.buf@, self.cy as int),
                                    ).len() as int,
                                );
                            }
                            return true;
                        },
                        None => {
                            return false;
                        },
                    }
                }
                return false;
            }
        }
        if n > 0 && str_all_digits(t.as_str()) {
            match parse_digits(t.as_str()) {
                Some(d) => {
                    let n1: usize = if d == 0 { 1 } else { d };
                    self.goto_line(n1);
                },
                None => {},
            }
            return true;
        }
        false
    }

    /// Rows `sy..=ey` joined with newlines, as one string.
    pub(crate) fn rows_joined(&self, sy: usize, ey: usize) -> (r: String)
        requires
            self.wf(),
            sy <= ey,
            (ey as nat) < line_count_of(self.buf@),
        ensures
            r@ == joined_rows(self.buf@, sy as int, ey as int),
            r@.len() <= self.buf@.len(),
    {
        let mut acc = self.buf.line_string(sy);
        let mut y: usize = sy;
        while y < ey
            invariant
                self.wf(),
                sy <= y <= ey,
                (ey as nat) < line_count_of(self.buf@),
                acc@ == joined_rows(self.buf@, sy as int, y as int),
            decreases ey - y,
        {
            y = y + 1;
            crate::unicode::push_char(&mut acc, '\n');
            let row = self.buf.line_string(y);
            acc.append(row.as_str());
            proof {
                assert(acc@ =~= joined_rows(self.buf@, sy as int, y as int));
            }
        }
        proof {
            lemma_joined_rows_span(self.buf@, sy as int, ey as int);
        }
        acc
    }

    /// The text swept between two positions, end-exclusive unless the
    /// motion is inclusive.
    fn extract_range(&self, start: (usize, usize), end: (usize, usize), inclusive: bool)
        -> (r: String)
        requires
            self.wf(),
        ensures
            r@ == extract_spec(
                self.buf@, start.0 as int, start.1 as int, end.0 as int, end.1 as int, inclusive,
            ),
            r@.len() <= self.buf@.len(),
    {
        let (sy, sx) = start;
        let (ey, ex0) = end;
        let start_char = self.buf.char_index_at_col(sy, sx);
        let end_col = if inclusive {
            self.buf.next_col(ex0, ey)
        } else {
            ex0
        };
        let end_char = self.buf.char_index_at_col(ey, end_col);
        self.buf.string_from_char_range(start_char, end_char)
    }

    /// Removes the swept text from the document.
    fn delete_range(&mut self, start: (usize, usize), end: (usize, usize), inclusive: bool)
        requires
            old(self).wf(),
        ensures
            final(self).wf(),
            final(self).buf@ == delete_range_spec(
                old(self).buf@, start.0 as int, start.1 as int, end.0 as int, end.1 as int,
                inclusive,
            ),
            same_cursor(old(self), final(self)),
            same_mode(old(self), final(self)),
            same_hist(old(self), final(self)),
            same_clip(old(self), final(self)),
            same_pending(old(self), final(self)),
            same_keymap(old(self), final(self)),
            same_ui(old(self), final(self)),
            final(self).dirty == old(self).dirty,
    {
        let (sy, sx) = start;
        let (ey, ex0) = end;
        let start_char = self.buf.char_index_at_col(sy, sx);
        let end_col = if inclusive {
            self.buf.next_col(ex0, ey)
        } else {
            ex0
        };
        let end_char = self.buf.char_index_at_col(ey, end_col);
        self.buf.remove_char_range(start_char, end_char);
    }

    /// Enters, switches or leaves a visual mode: entering the active visual
    /// variant again leaves it; switching keeps the anchor.
    pub fn toggle_visual_mode(&mut self, target: Mode)
        ensures
            toggle_rel(old(self), final(self), target),
            final(self).buf@ == old(self).buf@,
            same_cursor(old(self), final(self)),
            same_hist(old(self), final(self)),
            same_clip(old(self), final(self)),
            same_pending(old(self), final(self)),
            same_keymap(old(self), final(self)),
            same_ui(old(self), final(self)),
            final(self).dirty == old(self).dirty,
    {
        match self.mode {
            Mode::Visual | Mode::VisualLine | Mode::VisualBlock => {
                if self.mode == target {
                    self.mode = Mode::Normal;
                    self.visual_anchor = None;
                } else {
                    self.mode = target;
                    if self.visual_anchor.is_none() {
                        self.visual_anchor = Some((self.cx, self.cy));
                    }
                }
            },
            _ => {
                self.mode = target;
                self.visual_anchor = Some((self.cx, self.cy));
            },
        }
    }

    /// The character-wise selection between anchor and cursor, ordered by
    /// document position; `None` when it is empty or no anchor exists.
    pub fn visual_bounds_char(&self) -> (r: Option<((usize, usize), (usize, usize))>)
        ensures
            r == visual_char_sel(self),
    {
        match self.visual_anchor {
            None => None,
            Some((ax, ay)) => {
                let (bx, by) = (self.cx, self.cy);
                let (sy, sx, ey, ex) = if (by > ay) || (by == ay && bx >= ax) {
                    (ay, ax, by, bx)
                } else {
                    (by, bx, ay, ax)
                };
                if ey > sy || (ey == sy && ex > sx) {
                    Some(((sy, sx), (ey, ex)))
                } else {
                    None
                }
            },
        }
    }

    /// The rows a line-wise selection covers.
    pub fn visual_bounds_line(&self) -> (r: Option<(usize, usize)>)
        ensures
            r == visual_line_sel(self),
    {
        match self.visual_anchor {
            None => None,
            Some((ax, ay)) => {
                let cy = self.cy;
                if cy >= ay {
                    Some((ay, cy))
                } else {
                    Some((cy, ay))
                }
            },
        }
    }

    /// The rectangle a block-wise selection covers: rows and columns taken
    /// independently.
    pub fn visual_bounds_block(&self) -> (r: Option<(usize, usize, usize, usize)>)
        ensures
            r == visual_block_sel(self),
    {
        match self.visual_anchor {
            None => None,
            Some((ax, ay)) => {
                let (cx, cy) = (self.cx, self.cy);
                let (sy, ey) = if cy >= ay { (ay, cy) } else { (cy, ay) };
                let (left, right) = if cx >= ax { (ax, cx) } else { (cx, ax) };
                Some((sy, ey, left, right))
            },
        }
    }

    /// Deletes `count` whole lines from the cursor row down (clamped),
    /// capturing them line-wise into the clipboard; the cursor moves to
    /// column 0 of the same row index, clamped.
    pub fn delete_n_lines(&mut self, count: usize)
        requires
            old(self).wf(),
            count >= 1,
        ensures
            final(self).wf(),
            final(self).cursor_ok(),
            final(self).cursor_bounded(),
            delete_lines_rel(old(self), final(self), count as int),
    {
        self.on_edit_start();
        let lc = self.buf.line_count();
        let sy = self.cy;
        if sy >= lc {
            self.clipboard = String::new();
            self.clipboard_kind = ClipboardKind::Linewise;
            self.cy = lc - 1;
            self.cx = 0;
            self.dirty = true;
            proof {
                lemma_newline_count_le(self.buf@, 0);
                lemma_width_upto_nonneg(
                    crate::unicode::grapheme_split(line_at(self.buf@, self.cy as int)),
                    crate::unicode::grapheme_split(
                        line_at(self.buf@, self.cy as int),
                    ).len() as int,
                );
            }
            return;
        }
        let ey = if count - 1 <= lc - 1 - sy {
            sy + count - 1
        } else {
            lc - 1
        };
        self.clipboard = self.rows_joined(sy, ey);
        self.clipboard_kind = ClipboardKind::Linewise;
        proof {
            lemma_joined_rows_span(self.buf@, sy as int, ey as int);
        }
        let a = self.buf.line_start_char(sy);
        let b = if ey + 1 < lc {
            self.buf.line_start_char(ey + 1)
        } else {
            self.buf.char_len()
        };
        proof {
            crate::textmodel::lemma_line_props(self.buf@, ey as int);
            if a >= b {
                assert(remove_text_range(self.buf@, a as int, b as int) =~= self.buf@);
            }
        }
        self.buf.remove_char_range(a, b);
        proof {
            if !(a < b) {
                assert(self.buf@ =~= remove_text_range(
                    old(self).buf@, a as int, b as int,
                ));
            }
        }
        let lc2 = self.buf.line_count();
        if self.cy >= lc2 {
            self.cy = lc2 - 1;
        }
        self.cx = 0;
        self.dirty = true;
        proof {
            lemma_newline_count_le(self.buf@, 0);
            lemma_width_upto_nonneg(
                crate::unicode::grapheme_split(line_at(self.buf@, self.cy as int)),
                crate::unicode::grapheme_split(line_at(self.buf@, self.cy as int)).len() as int,
            );
        }
    }

    /// Writes the clipboard's lines into successive document rows starting
    /// at `start_line`, at column `col`; stops when rows run out.
    fn paste_block_at(&mut self, start_line: usize, col: usize)
        requires
            old(self).wf(),
            start_line <= MAX_TEXT_LEN + 1,
        ensures
            final(self).wf(),
            old(self).clipboard@.len() <= MAX_TEXT_LEN ==> final(self).buf@ == block_paste_spec(
                old(self).buf@, old(self).clipboard@, 0, start_line as int, col as int,
            ),
            old(self).clipboard@.len() > MAX_TEXT_LEN ==> final(self).buf@ == old(self).buf@,
            final(self).cy == start_line,
            final(self).cx == col,
            same_mode(old(self), final(self)),
            same_hist(old(self), final(self)),
            same_clip(old(self), final(self)),
            same_pending(old(self), final(self)),
            same_keymap(old(self), final(self)),
            same_ui(old(self), final(self)),
            final(self).dirty == old(self).dirty,
    {
        let ghost s0 = self.buf@;
        let ghost clip0 = self.clipboard@;
        if self.clipboard.as_str().unicode_len() > MAX_TEXT_LEN {
            self.cy = start_line;
            self.cx = col;
            return;
        }
        let cb = Buffer::from_text(self.clipboard.clone());
        let m = cb.line_count();
        let mut i: usize = 0;
        let mut y: usize = start_line;
        let mut done: bool = false;
        while i < m && !done
            invariant
                self.wf(),
                cb.wf(),
                cb@ == clip0,
                self.clipboard@ == clip0,
                m as nat == line_count_of(clip0),
                i <= m,
                y == start_line + i,
                start_line <= MAX_TEXT_LEN + 1,
                same_mode(old(self), self),
                same_hist(old(self), self),
                same_clip(old(self), self),
                same_pending(old(self), self),
                same_keymap(old(self), self),
                same_ui(old(self), self),
                self.dirty == old(self).dirty,
                self.cx == old(self).cx && self.cy == old(self).cy,
                !done ==> block_paste_spec(self.buf@, clip0, i as int, y as int, col as int)
                    == block_paste_spec(s0, clip0, 0, start_line as int, col as int),
                done ==> self.buf@ == block_paste_spec(
                    s0, clip0, 0, start_line as int, col as int,
                ),
            decreases m as int - i as int + (if done { 0int } else { 1int }),
        {
            let lc = self.buf.line_count();
            if y >= lc {
                proof {
                    assert(block_paste_spec(self.buf@, clip0, i as int, y as int, col as int)
                        == self.buf@);
                }
                done = true;
            } else {
                let seg = cb.line_string(i);
                let ghost before = self.buf@;
                self.buf.insert_str_at(y, col, seg.as_str());
                proof {
                    assert(block_paste_spec(before, clip0, i as int, y as int, col as int)
                        == block_paste_spec(
                            self.buf@, clip0, i as int + 1, y as int + 1, col as int,
                        ));
                }
                i += 1;
                y += 1;
            }
        }
        proof {
            if !done {
                assert(block_paste_spec(self.buf@, clip0, i as int, y as int, col as int)
                    == self.buf@);
            }
        }
        self.cy = start_line;
        self.cx = col;
    }

    /// Pastes the clipboard after the cursor position: line-wise below the
    /// current line, character-wise at the cursor column, block-wise into
    /// the rows below.  An empty clipboard does nothing.
    pub fn paste_after(&mut self)
        requires
            old(self).wf(),
            old(self).cursor_bounded(),
        ensures
            final(self).wf(),
            ({
                let o = *old(self);
                let f = *final(self);
                let s = o.buf@;
                let clip = o.clipboard@;
                if clip.len() == 0 {
                    same_all(&o, &f)
                } else {
                    &&& edit_start_rel(&o, &f)
                    &&& f.dirty == true
                    &&& same_clip(&o, &f)
                    &&& same_mode(&o, &f)
                    &&& (o.clipboard_kind == ClipboardKind::Linewise ==> ({
                        let clean = if clip.last() == '\n' { clip.drop_last() } else { clip };
                        let ins = seq!['\n'] + clean;
                        let idx = char_index_clamped(
                            s, o.cy as int, line_width_of(row_at(s, o.cy as int)),
                        );
                        &&& (s.len() + ins.len() <= MAX_TEXT_LEN
                            ==> f.buf@ == insert_text_at(s, idx, ins))
                        &&& (s.len() + ins.len() > MAX_TEXT_LEN ==> f.buf@ == s)
                        &&& f.cy == o.cy + 1
                        &&& f.cx == 0
                    }))
                    &&& (o.clipboard_kind == ClipboardKind::Charwise ==> ({
                        let idx = char_index_clamped(s, o.cy as int, o.cx as int);
                        &&& (s.len() + clip.len() <= MAX_TEXT_LEN
                            ==> f.buf@ == insert_text_at(s, idx, clip))
                        &&& (s.len() + clip.len() > MAX_TEXT_LEN ==> f.buf@ == s)
                        &&& f.cy == o.cy
                        &&& f.cx == o.cx
                    }))
                    &&& (o.clipboard_kind == ClipboardKind::Blockwise ==> ({
                        &&& (clip.len() <= MAX_TEXT_LEN
                            ==> f.buf@ == block_paste_spec(s, clip, 0, o.cy + 1, o.cx as int))
                        &&& (clip.len() > MAX_TEXT_LEN ==> f.buf@ == s)
                        &&& f.cy == o.cy + 1
                        &&& f.cx == o.cx
                    }))
                }
            }),
            same_pending(old(self), final(self)),
            same_keymap(old(self), final(self)),
            same_ui(old(self), final(self)),
    {
        let n = self.clipboard.as_str().unicode_len();
        if n == 0 {
            return;
        }
        self.on_edit_start();
        if matches!(self.clipboard_kind, ClipboardKind::Linewise) {
            let end_col = self.buf.line_width(self.cy);
            let mut ins = String::new();
            crate::unicode::push_char(&mut ins, '\n');
            let last = self.clipboard.as_str().get_char(n - 1);
            if last == '\n' {
                let clean = self.clipboard.as_str().substring_char(0, n - 1);
                ins.append(clean);
            } else {
                ins.append(self.clipboard.as_str());
            }
            proof {
                assert(ins@ =~= seq!['\n'] + (
                    if old(self).clipboard@.last() == '\n' {
                        old(self).clipboard@.drop_last()
                    } else {
                        old(self).clipboard@
                    }
                ));
            }
            let cy0 = self.cy;
            self.buf.insert_str_at(cy0, end_col, ins.as_str());
            self.cy = self.cy + 1;
            self.cx = 0;
        } else if matches!(self.clipboard_kind, ClipboardKind::Charwise) {
            let insert_col = self.cx;
            let cy0 = self.cy;
            let clip = self.clipboard.clone();
            self.buf.insert_str_at(cy0, insert_col, clip.as_str());
            self.cx = insert_col;
        } else {
            let start_line = self.cy + 1;
            let col0 = self.cx;
            self.paste_block_at(start_line, col0);
        }
        self.dirty = true;
    }

    /// Pastes the clipboard before the cursor position: line-wise above the
    /// current line, character-wise at the cursor column, block-wise into
    /// the rows from the current one down.  An empty clipboard does nothing.
    pub fn paste_before(&mut self)
        requires
            old(self).wf(),
            old(self).cursor_bounded(),
        ensures
            final(self).wf(),
            ({
                let o = *old(self);
                let f = *final(self);
                let s = o.buf@;
                let clip = o.clipboard@;
                if clip.len() == 0 {
                    same_all(&o, &f)
                } else {
                    &&& edit_start_rel(&o, &f)
                    &&& f.dirty == true
                    &&& same_clip(&o, &f)
                    &&& same_mode(&o, &f)
                    &&& (o.clipboard_kind == ClipboardKind::Linewise ==> ({
                        let ins = clip.push('\n');
                        let idx = if (o.cy as nat) < line_count_of(s) {
                            line_start(s, o.cy as int)
                        } else {
                            s.len() as int
                        };
                        &&& (s.len() + ins.len() <= MAX_TEXT_LEN
                            ==> f.buf@ == insert_text_at(s, idx, ins))
                        &&& (s.len() + ins.len() > MAX_TEXT_LEN ==> f.buf@ == s)
                        &&& f.cy == o.cy
                        &&& f.cx == 0
                    }))
                    &&& (o.clipboard_kind == ClipboardKind::Charwise ==> ({
                        let idx = char_index_clamped(s, o.cy as int, o.cx as int);
                        &&& (s.len() + clip.len() <= MAX_TEXT_LEN
                            ==> f.buf@ == insert_text_at(s, idx, clip))
                        &&& (s.len() + clip.len() > MAX_TEXT_LEN ==> f.buf@ == s)
                        &&& f.cy == o.cy
                        &&& f.cx == o.cx
                    }))
                    &&& (o.clipboard_kind == ClipboardKind::Blockwise ==> ({
                        &&& (clip.len() <= MAX_TEXT_LEN
                            ==> f.buf@ == block_paste_spec(s, clip, 0, o.cy as int, o.cx as int))
                        &&& (clip.len() > MAX_TEXT_LEN ==> f.buf@ == s)
                        &&& f.cy == o.cy
                        &&& f.cx == o.cx
                    }))
                }
            }),
            same_pending(old(self), final(self)),
            same_keymap(old(self), final(self)),
            same_ui(old(self), final(self)),
    {
        let n = self.clipboard.as_str().unicode_len();
        if n == 0 {
            return;
        }
        self.on_edit_start();
        if matches!(self.clipboard_kind, ClipboardKind::Linewise) {
            let mut text = self.clipboard.clone();
            crate::unicode::push_char(&mut text, '\n');
            let insert_line = self.cy;
            self.buf.insert_str_at_line_start(insert_line, text.as_str());
            self.cx = 0;
        } else if matches!(self.clipboard_kind, ClipboardKind::Charwise) {
            let cy0 = self.cy;
            let cx0 = self.cx;
            let clip = self.clipboard.clone();
            self.buf.insert_str_at(cy0, cx0, clip.as_str());
        } else {
            let start_line = self.cy;
            let col0 = self.cx;
            self.paste_block_at(start_line, col0);
        }
        self.dirty = true;
    }

    /// The text of a rectangular block selection, rows joined by newlines.
    fn extract_block(&self, sy: usize, ey: usize, left: usize, right: usize) -> (r: String)
        requires
            self.wf(),
            sy <= ey,
        ensures
            r@ == block_extract_spec(self.buf@, sy as int, ey as int, left as int, right as int),
    {
        let mut out = String::new();
        let mut y: usize = sy;
        let mut done: bool = false;
        while !done
            invariant
                self.wf(),
                sy <= y <= ey,
                !done ==> block_extract_spec(
                    self.buf@, sy as int, ey as int, left as int, right as int,
                ) == out@ + block_extract_spec(
                    self.buf@, y as int, ey as int, left as int, right as int,
                ),
                done ==> out@ == block_extract_spec(
                    self.buf@, sy as int, ey as int, left as int, right as int,
                ),
            decreases ey as int - y as int + (if done { 0int } else { 1int }),
        {
            let lw = self.buf.line_width(y);
            let start = if left < lw { left } else { lw };
            let end = if right < lw { right } else { lw };
            let seg = self.extract_range((y, start), (y, end), false);
            out.append(seg.as_str());
            if y == ey {
                done = true;
            } else {
                crate::unicode::push_char(&mut out, '\n');
                y += 1;
            }
        }
        out
    }

    /// Removes a rectangular block selection, bottom row first.
    fn delete_block(&mut self, sy: usize, ey: usize, left: usize, right: usize)
        requires
            old(self).wf(),
            sy <= ey,
        ensures
            final(self).wf(),
            final(self).buf@ == block_delete_spec(
                old(self).buf@, sy as int, ey as int, left as int, right as int,
            ),
            same_cursor(old(self), final(self)),
            same_mode(old(self), final(self)),
            same_hist(old(self), final(self)),
            same_clip(old(self), final(self)),
            same_pending(old(self), final(self)),
            same_keymap(old(self), final(self)),
            same_ui(old(self), final(self)),
            final(self).dirty == old(self).dirty,
    {
        let ghost s0 = self.buf@;
        let mut y: usize = ey;
        let mut done: bool = false;
        while !done
            invariant
                self.wf(),
                sy <= y <= ey,
                same_cursor(old(self), self),
                same_mode(old(self), self),
                same_hist(old(self), self),
                same_clip(old(self), self),
                same_pending(old(self), self),
                same_keymap(old(self), self),
                same_ui(old(self), self),
                self.dirty == old(self).dirty,
                !done ==> block_delete_spec(
                    self.buf@, sy as int, y as int, left as int, right as int,
                ) == block_delete_spec(s0, sy as int, ey as int, left as int, right as int),
                done ==> self.buf@ == block_delete_spec(
                    s0, sy as int, ey as int, left as int, right as int,
                ),
            decreases y as int - sy as int + (if done { 0int } else { 1int }),
        {
            let lw = self.buf.line_width(y);
            let start = if left < lw { left } else { lw };
            let end = if right < lw { right } else { lw };
            let ghost before = self.buf@;
            self.delete_range((y, start), (y, end), false);
            proof {
                assert(block_delete_spec(before, sy as int, y as int, left as int, right as int)
                    == block_delete_spec(
                        self.buf@, sy as int, y as int - 1, left as int, right as int,
                    ));
            }
            if y == sy {
                proof {
                    assert(block_delete_spec(
                        self.buf@, sy as int, sy as int - 1, left as int, right as int,
                    ) == self.buf@);
                }
                done = true;
            } else {
                y = y - 1;
            }
        }
    }

    /// Removes whole rows `sy..=ey` from the document.
    fn remove_lines(&mut self, sy: usize, ey: usize)
        requires
            old(self).wf(),
            sy <= ey,
            (ey as nat) < line_count_of(old(self).buf@),
        ensures
            final(self).wf(),
            final(self).buf@ == remove_text_range(
                old(self).buf@,
                line_start(old(self).buf@, sy as int),
                if ey as int + 1 < line_count_of(old(self).buf@) {
                    line_start(old(self).buf@, ey as int + 1)
                } else {
                    old(self).buf@.len() as int
                },
            ),
            same_cursor(old(self), final(self)),
            same_mode(old(self), final(self)),
            same_hist(old(self), final(self)),
            same_clip(old(self), final(self)),
            same_pending(old(self), final(self)),
            same_keymap(old(self), final(self)),
            same_ui(old(self), final(self)),
            final(self).dirty == old(self).dirty,
    {
        let lc = self.buf.line_count();
        proof {
            lemma_joined_rows_span(self.buf@, sy as int, ey as int);
            crate::textmodel::lemma_line_props(self.buf@, ey as int);
        }
        let a = self.buf.line_start_char(sy);
        let b = if ey + 1 < lc {
            self.buf.line_start_char(ey + 1)
        } else {
            self.buf.char_len()
        };
        proof {
            if a >= b {
                assert(remove_text_range(self.buf@, a as int, b as int) =~= self.buf@);
            }
        }
        self.buf.remove_char_range(a, b);
        proof {
            if !(a < b) {
                assert(self.buf@ =~= remove_text_range(
                    old(self).buf@, a as int, b as int,
                ));
            }
        }
    }

    /// Deletes the visual selection into the clipboard with the matching
    /// shape, then returns to normal mode and clears the anchor.
    pub fn visual_delete(&mut self)
        requires
            old(self).wf(),
        ensures
            final(self).wf(),
            final(self).mode == Mode::Normal,
            final(self).visual_anchor is None,
            same_pending(old(self), final(self)),
            same_keymap(old(self), final(self)),
            same_ui(old(self), final(self)),
            ({
                let o = *old(self);
                let f = *final(self);
                let s = o.buf@;
                let lc = line_count_of(s) as int;
                match o.mode {
                    Mode::Visual => (match visual_char_sel(&o) {
                        Some(sel) => {
                            let sy = sel.0.0 as int;
                            let sx = sel.0.1 as int;
                            let ey = sel.1.0 as int;
                            let ex = sel.1.1 as int;
                            &&& edit_start_rel(&o, &f)
                            &&& f.clipboard@ == extract_spec(s, sy, sx, ey, ex, false)
                            &&& f.clipboard_kind == (if sweep_is_linewise(s, sy, sx, ey, ex) {
                                ClipboardKind::Linewise
                            } else {
                                ClipboardKind::Charwise
                            })
                            &&& f.buf@ == delete_range_spec(s, sy, sx, ey, ex, false)
                            &&& f.cx as int == sx && f.cy as int == sy
                            &&& f.dirty == true
                        },
                        None => f.buf@ == s && same_clip(&o, &f) && same_hist(&o, &f)
                            && same_cursor(&o, &f) && f.dirty == o.dirty,
                    }),
                    Mode::VisualLine => (match visual_line_sel(&o) {
                        Some(sel) => {
                            let sy2 = if (sel.0 as int) <= lc - 1 { sel.0 as int } else { lc - 1 };
                            let ey2 = if (sel.1 as int) <= lc - 1 { sel.1 as int } else { lc - 1 };
                            &&& edit_start_rel(&o, &f)
                            &&& f.clipboard@ == joined_rows(s, sy2, ey2)
                            &&& f.clipboard_kind == ClipboardKind::Linewise
                            &&& f.buf@ == remove_text_range(
                                s,
                                line_start(s, sy2),
                                if ey2 + 1 < lc { line_start(s, ey2 + 1) } else { s.len() as int },
                            )
                            &&& f.cy == sel.0 && f.cx == 0
                            &&& f.dirty == true
                        },
                        None => f.buf@ == s && same_clip(&o, &f) && same_hist(&o, &f)
                            && same_cursor(&o, &f) && f.dirty == o.dirty,
                    }),
                    Mode::VisualBlock => (match visual_block_sel(&o) {
                        Some(sel) => {
                            let sy = sel.0 as int;
                            let ey = sel.1 as int;
                            let left = sel.2 as int;
                            let right = sel.3 as int;
                            &&& edit_start_rel(&o, &f)
                            &&& f.clipboard@ == block_extract_spec(s, sy, ey, left, right)
                            &&& f.clipboard_kind == ClipboardKind::Blockwise
                            &&& f.buf@ == block_delete_spec(s, sy, ey, left, right)
                            &&& f.cy == sel.0 && f.cx == sel.2
                            &&& f.dirty == true
                        },
                        None => f.buf@ == s && same_clip(&o, &f) && same_hist(&o, &f)
                            && same_cursor(&o, &f) && f.dirty == o.dirty,
                    }),
                    _ => f.buf@ == s && same_clip(&o, &f) && same_hist(&o, &f)
                        && same_cursor(&o, &f) && f.dirty == o.dirty,
                }
            }),
    {
        match self.mode {
            Mode::Visual => {
                match self.visual_bounds_char() {
                    Some((start, end)) => {
                        self.on_edit_start();
                        let clip = self.extract_range(start, end, false);
                        let lw = self.buf.line_width(end.0);
                        self.clipboard = clip;
                        self.clipboard_kind = if start.0 < end.0 && start.1 == 0 && end.1 >= lw {
                            ClipboardKind::Linewise
                        } else {
                            ClipboardKind::Charwise
                        };
                        self.delete_range(start, end, false);
                        self.cx = start.1;
                        self.cy = start.0;
                        self.dirty = true;
                    },
                    None => {},
                }
            },
            Mode::VisualLine => {
                match self.visual_bounds_line() {
                    Some((sy, ey)) => {
                        self.on_edit_start();
                        let lc = self.buf.line_count();
                        let sy2 = if sy <= lc - 1 { sy } else { lc - 1 };
                        let ey2 = if ey <= lc - 1 { ey } else { lc - 1 };
                        self.clipboard = self.rows_joined(sy2, ey2);
                        self.clipboard_kind = ClipboardKind::Linewise;
                        self.remove_lines(sy2, ey2);
                        self.cy = sy;
                        self.cx = 0;
                        self.dirty = true;
                    },
                    None => {},
                }
            },
            Mode::VisualBlock => {
                match self.visual_bounds_block() {
                    Some((sy, ey, left, right)) => {
                        self.on_edit_start();
                        self.clipboard = self.extract_block(sy, ey, left, right);
                        self.clipboard_kind = ClipboardKind::Blockwise;
                        self.delete_block(sy, ey, left, right);
                        self.cy = sy;
                        self.cx = left;
                        self.dirty = true;
                    },
                    None => {},
                }
            },
            _ => {},
        }
        self.mode = Mode::Normal;
        self.visual_anchor = None;
    }

    /// Copies the visual selection into the clipboard with the matching
    /// shape, then returns to normal mode and clears the anchor; the
    /// document and cursor stay put.
    pub fn visual_yank(&mut self)
        requires
            old(self).wf(),
        ensures
            final(self).wf(),
            final(self).mode == Mode::Normal,
            final(self).visual_anchor is None,
            final(self).buf@ == old(self).buf@,
            same_cursor(old(self), final(self)),
            same_hist(old(self), final(self)),
            same_pending(old(self), final(self)),
            same_keymap(old(self), final(self)),
            same_ui(old(self), final(self)),
            final(self).dirty == old(self).dirty,
            ({
                let o = *old(self);
                let f = *final(self);
                let s = o.buf@;
                let lc = line_count_of(s) as int;
                match o.mode {
                    Mode::Visual => (match visual_char_sel(&o) {
                        Some(sel) => {
                            let sy = sel.0.0 as int;
                            let sx = sel.0.1 as int;
                            let ey = sel.1.0 as int;
                            let ex = sel.1.1 as int;
                            &&& f.clipboard@ == extract_spec(s, sy, sx, ey, ex, false)
                            &&& f.clipboard_kind == (if sweep_is_linewise(s, sy, sx, ey, ex) {
                                ClipboardKind::Linewise
                            } else {
                                ClipboardKind::Charwise
                            })
                        },
                        None => same_clip(&o, &f),
                    }),
                    Mode::VisualLine => (match visual_line_sel(&o) {
                        Some(sel) => {
                            let sy2 = if (sel.0 as int) <= lc - 1 { sel.0 as int } else { lc - 1 };
                            let ey2 = if (sel.1 as int) <= lc - 1 { sel.1 as int } else { lc - 1 };
                            &&& f.clipboard@ == joined_rows(s, sy2, ey2)
                            &&& f.clipboard_kind == ClipboardKind::Linewise
                        },
                        None => same_clip(&o, &f),
                    }),
                    Mode::VisualBlock => (match visual_block_sel(&o) {
                        Some(sel) => {
                            &&& f.clipboard@ == block_extract_spec(
                                s, sel.0 as int, sel.1 as int, sel.2 as int, sel.3 as int,
                            )
                            &&& f.clipboard_kind == ClipboardKind::Blockwise
                        },
                        None => same_clip(&o, &f),
                    }),
                    _ => same_clip(&o, &f),
                }
            }),
    {
        match self.mode {
            Mode::Visual => {
                match self.visual_bounds_char() {
                    Some((start, end)) => {
                        let clip = self.extract_range(start, end, false);
                        let lw = self.buf.line_width(end.0);
                        self.clipboard = clip;
                        self.clipboard_kind = if start.0 < end.0 && start.1 == 0 && end.1 >= lw {
                            ClipboardKind::Linewise
                        } else {
                            ClipboardKind::Charwise
                        };
                    },
                    None => {},
                }
            },
            Mode::VisualLine => {
                match self.visual_bounds_line() {
                    Some((sy, ey)) => {
                        let lc = self.buf.line_count();
                        let sy2 = if sy <= lc - 1 { sy } else { lc - 1 };
                        let ey2 = if ey <= lc - 1 { ey } else { lc - 1 };
                        self.clipboard = self.rows_joined(sy2, ey2);
                        self.clipboard_kind = ClipboardKind::Linewise;
                    },
                    None => {},
                }
            },
            Mode::VisualBlock => {
                match self.visual_bounds_block() {
                    Some((sy, ey, left, right)) => {
                        self.clipboard = self.extract_block(sy, ey, left, right);
                        self.clipboard_kind = ClipboardKind::Blockwise;
                    },
                    None => {},
                }
            },
            _ => {},
        }
        self.mode = Mode::Normal;
        self.visual_anchor = None;
    }

    /// Deletes the visual selection like `visual_delete`, then enters
    /// insert mode; the anchor is cleared.
    pub fn visual_change(&mut self)
        requires
            old(self).wf(),
        ensures
            final(self).wf(),
            final(self).mode == Mode::Insert,
            final(self).visual_anchor is None,
            same_pending(old(self), final(self)),
            same_keymap(old(self), final(self)),
            same_ui(old(self), final(self)),
            ({
                let o = *old(self);
                let f = *final(self);
                let s = o.buf@;
                let lc = line_count_of(s) as int;
                match o.mode {
                    Mode::Visual => (match visual_char_sel(&o) {
                        Some(sel) => {
                            let sy = sel.0.0 as int;
                            let sx = sel.0.1 as int;
                            let ey = sel.1.0 as int;
                            let ex = sel.1.1 as int;
                            &&& edit_start_rel(&o, &f)
                            &&& f.clipboard@ == extract_spec(s, sy, sx, ey, ex, false)
                            &&& f.clipboard_kind == (if sweep_is_linewise(s, sy, sx, ey, ex) {
                                ClipboardKind::Linewise
                            } else {
                                ClipboardKind::Charwise
                            })
                            &&& f.buf@ == delete_range_spec(s, sy, sx, ey, ex, false)
                            &&& f.cx as int == sx && f.cy as int == sy
                            &&& f.dirty == true
                        },
                        None => f.buf@ == s && same_clip(&o, &f) && same_hist(&o, &f)
                            && same_cursor(&o, &f) && f.dirty == o.dirty,
                    }),
                    Mode::VisualLine => (match visual_line_sel(&o) {
                        Some(sel) => {
                            let sy2 = if (sel.0 as int) <= lc - 1 { sel.0 as int } else { lc - 1 };
                            let ey2 = if (sel.1 as int) <= lc - 1 { sel.1 as int } else { lc - 1 };
                            &&& edit_start_rel(&o, &f)
                            &&& f.clipboard@ == joined_rows(s, sy2, ey2)
                            &&& f.clipboard_kind == ClipboardKind::Linewise
                            &&& f.buf@ == remove_text_range(
                                s,
                                line_start(s, sy2),
                                if ey2 + 1 < lc { line_start(s, ey2 + 1) } else { s.len() as int },
                            )
                            &&& f.cy == sel.0 && f.cx == 0
                            &&& f.dirty == true
                        },
                        None => f.buf@ == s && same_clip(&o, &f) && same_hist(&o, &f)
                            && same_cursor(&o, &f) && f.dirty == o.dirty,
                    }),
                    Mode::VisualBlock => (match visual_block_sel(&o) {
                        Some(sel) => {
                            let sy = sel.0 as int;
                            let ey = sel.1 as int;
                            let left = sel.2 as int;
                            let right = sel.3 as int;
                            &&& edit_start_rel(&o, &f)
                            &&& f.clipboard@ == block_extract_spec(s, sy, ey, left, right)
                            &&& f.clipboard_kind == ClipboardKind::Blockwise
                            &&& f.buf@ == block_delete_spec(s, sy, ey, left, right)
                            &&& f.cy == sel.0 && f.cx == sel.2
                            &&& f.dirty == true
                        },
                        None => f.buf@ == s && same_clip(&o, &f) && same_hist(&o, &f)
                            && same_cursor(&o, &f) && f.dirty == o.dirty,
                    }),
                    _ => f.buf@ == s && same_clip(&o, &f) && same_hist(&o, &f)
                        && same_cursor(&o, &f) && f.dirty == o.dirty,
                }
            }),
    {
        match self.mode {
            Mode::Visual => {
                match self.visual_bounds_char() {
                    Some((start, end)) => {
                        self.on_edit_start();
                        let clip = self.extract_range(start, end, false);
                        let lw = self.buf.line_width(end.0);
                        self.clipboard = clip;
                        self.clipboard_kind = if start.0 < end.0 && start.1 == 0 && end.1 >= lw {
                            ClipboardKind::Linewise
                        } else {
                            ClipboardKind::Charwise
                        };
                        self.delete_range(start, end, false);
                        self.cx = start.1;
                        self.cy = start.0;
                        self.dirty = true;
                    },
                    None => {},
                }
            },
            Mode::VisualLine => {
                match self.visual_bounds_line() {
                    Some((sy, ey)) => {
                        self.on_edit_start();
                        let lc = self.buf.line_count();
                        let sy2 = if sy <= lc - 1 { sy } else { lc - 1 };
                        let ey2 = if ey <= lc - 1 { ey } else { lc - 1 };
                        self.clipboard = self.rows_joined(sy2, ey2);
                        self.clipboard_kind = ClipboardKind::Linewise;
                        self.remove_lines(sy2, ey2);
                        self.cy = sy;
                        self.cx = 0;
                        self.dirty = true;
                    },
                    None => {},
                }
            },
            Mode::VisualBlock => {
                match self.visual_bounds_block() {
                    Some((sy, ey, left, right)) => {
                        self.on_edit_start();
                        self.clipboard = self.extract_block(sy, ey, left, right);
                        self.clipboard_kind = ClipboardKind::Blockwise;
                        self.delete_block(sy, ey, left, right);
                        self.cy = sy;
                        self.cx = left;
                        self.dirty = true;
                    },
                    None => {},
                }
            },
            _ => {},
        }
        self.mode = Mode::Insert;
        self.visual_anchor = None;
    }

    /// The first word start at or below row `y`.
    fn find_next_word_start_from(&self, y: usize) -> (r: Option<(usize, usize)>)
        requires
            self.wf(),
        ensures
            ({
                let sp = find_next_word_from(self.buf@, y as int);
                &&& (sp is None ==> r is None)
                &&& (sp matches Some(p) ==> (r matches Some(q) && q.0 as int == p.0
                    && q.1 as int == p.1 && (q.0 as nat) < line_count_of(self.buf@)
                    && q.1 <= 4 * MAX_TEXT_LEN))
            }),
    {
        let lc = self.buf.line_count();
        let mut y2 = y;
        while y2 < lc
            invariant
                self.wf(),
                lc as nat == line_count_of(self.buf@),
                find_next_word_from(self.buf@, y2 as int)
                    == find_next_word_from(self.buf@, y as int),
            decreases lc - y2,
        {
            match self.buf.first_word_start(y2) {
                Some(col) => {
                    return Some((y2, col));
                },
                None => {},
            }
            y2 += 1;
        }
        None
    }

    /// The last word start at or above row `y`.
    fn find_prev_word_start_from(&self, y: usize) -> (r: Option<(usize, usize)>)
        requires
            self.wf(),
        ensures
            ({
                let sp = find_prev_word_from(self.buf@, y as int);
                &&& (sp is None ==> r is None)
                &&& (sp matches Some(p) ==> (r matches Some(q) && q.0 as int == p.0
                    && q.1 as int == p.1 && (q.0 as nat) < line_count_of(self.buf@)
                    && q.1 <= 4 * MAX_TEXT_LEN))
            }),
    {
        let lc = self.buf.line_count();
        let mut yy = y;
        let mut done = false;
        let mut res: Option<(usize, usize)> = None;
        while !done
            invariant
                self.wf(),
                lc as nat == line_count_of(self.buf@),
                !done ==> res is None,
                !done ==> find_prev_word_from(self.buf@, yy as int)
                    == find_prev_word_from(self.buf@, y as int),
                done ==> ({
                    let sp = find_prev_word_from(self.buf@, y as int);
                    &&& (sp is None ==> res is None)
                    &&& (sp matches Some(p) ==> (res matches Some(q) && q.0 as int == p.0
                        && q.1 as int == p.1 && (q.0 as nat) < line_count_of(self.buf@)
                        && q.1 <= 4 * MAX_TEXT_LEN))
                }),
            decreases yy as int + (if done { 0int } else { 1int }),
        {
            let mut found = false;
            if yy < lc {
                match self.buf.last_word_start(yy) {
                    Some(col) => {
                        res = Some((yy, col));
                        done = true;
                        found = true;
                    },
                    None => {},
                }
            }
            if !found {
                if yy == 0 {
                    done = true;
                } else {
                    yy -= 1;
                }
            }
        }
        res
    }

    /// The end of the first word at or below row `y`.
    fn find_next_word_end_from(&self, y: usize) -> (r: Option<(usize, usize)>)
        requires
            self.wf(),
        ensures
            ({
                let sp = find_next_word_end_from(self.buf@, y as int);
                &&& (sp is None ==> r is None)
                &&& (sp matches Some(p) ==> (r matches Some(q) && q.0 as int == p.0
                    && q.1 as int == p.1 && (q.0 as nat) < line_count_of(self.buf@)
                    && q.1 <= 4 * MAX_TEXT_LEN))
            }),
    {
        let lc = self.buf.line_count();
        let mut y2 = y;
        while y2 < lc
            invariant
                self.wf(),
                lc as nat == line_count_of(self.buf@),
                find_next_word_end_from(self.buf@, y2 as int)
                    == find_next_word_end_from(self.buf@, y as int),
            decreases lc - y2,
        {
            match self.buf.first_word_end(y2) {
                Some(col) => {
                    return Some((y2, col));
                },
                None => {},
            }
            y2 += 1;
        }
        None
    }

    /// Applies the effective operator to the span between the cursor and a
    /// computed target, or, with none pending, just moves the cursor there.
    #[verifier::rlimit(60)]
    #[verifier::spinoff_prover]
    fn apply_range_or_move(
        &mut self, target: (usize, usize), inclusive: bool, op: Option<(Action, usize)>,
    )
        requires
            old(self).wf(),
        ensures
            final(self).wf(),
            same_keymap(old(self), final(self)),
            same_ui(old(self), final(self)),
            final(self).pending@ == old(self).pending@,
            final(self).pending_waiting == old(self).pending_waiting,
            final(self).visual_anchor == old(self).visual_anchor,
            final(self).op_pending == (
                if op is Some { old(self).op_pending } else { None::<(Action, usize)> }
            ),
            ({
                let o = *old(self);
                let f = *final(self);
                let s = o.buf@;
                let eff = if op is Some { op } else { o.op_pending };
                &&& sweep_rel(&o, &f, s, target.0 as int, target.1 as int, inclusive, eff)
                &&& (match eff {
                    Some(opc) => (opc.0 == Action::OperatorDelete
                        || opc.0 == Action::OperatorChange) ==> edit_start_rel(&o, &f),
                    None => true,
                })
            }),
    {
        let eff = match op {
            Some(p) => Some(p),
            None => {
                let t = self.op_pending;
                self.op_pending = None;
                t
            },
        };
        match eff {
            Some((op_kind, _oc)) => {
                if matches!(op_kind, Action::OperatorDelete | Action::OperatorChange) {
                    self.on_edit_start();
                }
                let target_col = target.1;
                let target_line = target.0;
                let last_col = self.cx;
                let last_line = self.cy;
                let (sy, sx, ey, ex) = if (target_line > last_line)
                    || (target_line == last_line && target_col >= last_col) {
                    (last_line, last_col, target_line, target_col)
                } else {
                    (target_line, target_col, last_line, last_col)
                };
                if ey > sy || (ey == sy && ex > sx) {
                    match op_kind {
                        Action::OperatorDelete | Action::OperatorChange => {
                            let clip = self.extract_range((sy, sx), (ey, ex), inclusive);
                            let lw = self.buf.line_width(ey);
                            self.clipboard = clip;
                            self.clipboard_kind = if sy < ey && sx == 0 && ex >= lw {
                                ClipboardKind::Linewise
                            } else {
                                ClipboardKind::Charwise
                            };
                            self.delete_range((sy, sx), (ey, ex), inclusive);
                            self.cx = sx;
                            self.cy = sy;
                            self.dirty = true;
                            if matches!(op_kind, Action::OperatorChange) {
                                self.mode = Mode::Insert;
                            }
                        },
                        Action::OperatorYank => {
                            let clip = self.extract_range((sy, sx), (ey, ex), inclusive);
                            let lw = self.buf.line_width(ey);
                            self.clipboard = clip;
                            self.clipboard_kind = if sy < ey && sx == 0 && ex >= lw {
                                ClipboardKind::Linewise
                            } else {
                                ClipboardKind::Charwise
                            };
                        },
                        _ => {},
                    }
                }
            },
            None => {
                self.cx = target.1;
                self.cy = target.0;
            },
        }
    }

    /// Computes where a motion lands, repeated `count` times, and applies
    /// the pending operator to the swept span (or just moves).  A counted
    /// delete or change opens one undo group for the whole operation.
    pub fn apply_motion(&mut self, act: Action, count: usize, op: Option<(Action, usize)>)
        requires
            old(self).wf(),
            old(self).cursor_bounded(),
            matches!(act, Action::MoveWordForward | Action::MoveWordBackward
                | Action::MoveEndWord | Action::LineStart | Action::LineEnd),
        ensures
            final(self).wf(),
            same_keymap(old(self), final(self)),
            same_ui(old(self), final(self)),
            final(self).pending@ == old(self).pending@,
            final(self).pending_waiting == old(self).pending_waiting,
            final(self).visual_anchor == old(self).visual_anchor,
            final(self).op_pending == (
                if op is Some { old(self).op_pending } else { None::<(Action, usize)> }
            ),
            ({
                let o = *old(self);
                let f = *final(self);
                let s = o.buf@;
                let n = if count >= 1 { count as int } else { 1int };
                let eff = if op is Some { op } else { o.op_pending };
                let dc = (match op {
                    Some(p) => p.0 == Action::OperatorDelete || p.0 == Action::OperatorChange,
                    None => false,
                });
                let t = motion_target_spec(s, o.cy as int, o.cx as int, act, n, dc);
                &&& sweep_rel(
                    &o, &f, s, t.0, t.1,
                    act == Action::MoveEndWord || act == Action::LineEnd, eff,
                )
                &&& (match eff {
                    Some(opc) => (opc.0 == Action::OperatorDelete
                        || opc.0 == Action::OperatorChange) ==> (
                        if n > 1 && dc && !o.count_group_active {
                            pushes_snapshot(&o, &f)
                                && f.undo_group_active == o.undo_group_active
                                && f.count_group_active == o.count_group_active
                        } else {
                            edit_start_rel(&o, &f)
                        }
                    ),
                    None => true,
                })
            }),
    {
        let n: usize = if count >= 1 { count } else { 1 };
        let mut grouped_here = false;
        if n > 1 {
            match op {
                Some((op_kind, _)) => {
                    if (matches!(op_kind, Action::OperatorDelete | Action::OperatorChange))
                        && !self.count_group_active {
                        let snap = EditorSnapshot {
                            text: self.buf.text_string(),
                            cx: self.cx,
                            cy: self.cy,
                        };
                        let ghost u0 = self.undo_stack@;
                        self.undo_stack.push(snap);
                        self.redo_stack.clear();
                        self.count_group_active = true;
                        grouped_here = true;
                        proof {
                            assert(self.undo_stack@.drop_last() =~= u0);
                        }
                    }
                },
                None => {},
            }
        }
        let ghost s0 = self.buf@;
        let dc_exec = match op {
            Some((k, _)) => matches!(k, Action::OperatorDelete | Action::OperatorChange),
            None => false,
        };
        match act {
            Action::MoveWordForward => {
                let mut y = self.cy;
                let mut tc = self.cx;
                let mut i: usize = 0;
                let mut stop = false;
                while i < n && !stop
                    invariant
                        self.wf(),
                        self.buf@ == s0,
                        i <= n,
                        y <= MAX_TEXT_LEN,
                        tc <= 4 * MAX_TEXT_LEN,
                        !stop ==> word_fwd_target(s0, y as int, tc as int, i as int, n as int,
                            dc_exec)
                            == word_fwd_target(s0, old(self).cy as int, old(self).cx as int, 0,
                                n as int, dc_exec),
                        stop ==> (y as int, tc as int) == word_fwd_target(
                            s0, old(self).cy as int, old(self).cx as int, 0, n as int, dc_exec,
                        ),
                    decreases n as int - i as int + (if stop { 0int } else { 1int }),
                {
                    let cur_next = self.buf.next_word_start(tc, y);
                    if cur_next == tc {
                        let lc = self.buf.line_count();
                        proof {
                            lemma_newline_count_le(self.buf@, 0);
                        }
                        if y + 1 >= lc {
                            proof {
                                assert(word_fwd_step(
                                    s0, y as int, tc as int, n as int - i as int, dc_exec,
                                ) is None);
                                assert(word_fwd_target(
                                    s0, y as int, tc as int, i as int, n as int, dc_exec,
                                ) == (y as int, tc as int));
                            }
                            stop = true;
                        } else if dc_exec && n - i <= 1 {
                            proof {
                                assert(word_fwd_step(
                                    s0, y as int, tc as int, n as int - i as int, dc_exec,
                                ) == Some((y as int + 1, 0int)));
                            }
                            y = y + 1;
                            tc = 0;
                            i += 1;
                        } else {
                            match self.find_next_word_start_from(y + 1) {
                                Some((ny, nx)) => {
                                    proof {
                                        assert(word_fwd_step(
                                            s0, y as int, tc as int, n as int - i as int,
                                            dc_exec,
                                        ) == Some((ny as int, nx as int)));
                                    }
                                    y = ny;
                                    tc = nx;
                                    i += 1;
                                },
                                None => {
                                    proof {
                                        assert(word_fwd_step(
                                            s0, y as int, tc as int, n as int - i as int,
                                            dc_exec,
                                        ) is None);
                                        assert(word_fwd_target(
                                            s0, y as int, tc as int, i as int, n as int,
                                            dc_exec,
                                        ) == (y as int, tc as int));
                                    }
                                    stop = true;
                                },
                            }
                        }
                    } else {
                        proof {
                            assert(word_fwd_step(
                                s0, y as int, tc as int, n as int - i as int, dc_exec,
                            ) == Some((y as int, cur_next as int)));
                        }
                        tc = cur_next;
                        i += 1;
                    }
                }
                proof {
                    if !stop {
                        assert(word_fwd_target(s0, y as int, tc as int, i as int, n as int,
                            dc_exec) == (y as int, tc as int));
                    }
                }
                self.apply_range_or_move((y, tc), false, op);
            },
            Action::MoveWordBackward => {
                let mut y = self.cy;
                let mut tc = self.cx;
                let mut i: usize = 0;
                let mut stop = false;
                while i < n && !stop
                    invariant
                        self.wf(),
                        self.buf@ == s0,
                        i <= n,
                        y <= MAX_TEXT_LEN,
                        tc <= 4 * MAX_TEXT_LEN,
                        !stop ==> word_bwd_target(s0, y as int, tc as int, i as int, n as int)
                            == word_bwd_target(s0, old(self).cy as int, old(self).cx as int, 0,
                                n as int),
                        stop ==> (y as int, tc as int) == word_bwd_target(
                            s0, old(self).cy as int, old(self).cx as int, 0, n as int,
                        ),
                    decreases n as int - i as int + (if stop { 0int } else { 1int }),
                {
                    let cur_prev = self.buf.prev_word_start(tc, y);
                    if cur_prev == tc {
                        let yq = if y == 0 { 0 } else { y - 1 };
                        match self.find_prev_word_start_from(yq) {
                            Some((ny, nx)) => {
                                proof {
                                    assert(word_bwd_step(s0, y as int, tc as int)
                                        == Some((ny as int, nx as int)));
                                    lemma_newline_count_le(s0, 0);
                                }
                                y = ny;
                                tc = nx;
                                i += 1;
                            },
                            None => {
                                proof {
                                    assert(word_bwd_step(s0, y as int, tc as int) is None);
                                    assert(word_bwd_target(
                                        s0, y as int, tc as int, i as int, n as int,
                                    ) == (y as int, tc as int));
                                }
                                stop = true;
                            },
                        }
                    } else {
                        proof {
                            assert(word_bwd_step(s0, y as int, tc as int)
                                == Some((y as int, cur_prev as int)));
                        }
                        tc = cur_prev;
                        i += 1;
                    }
                }
                proof {
                    if !stop {
                        assert(word_bwd_target(s0, y as int, tc as int, i as int, n as int)
                            == (y as int, tc as int));
                    }
                }
                self.apply_range_or_move((y, tc), false, op);
            },
            Action::MoveEndWord => {
                let mut y = self.cy;
                let mut tc = self.cx;
                let mut i: usize = 0;
                let mut stop = false;
                while i < n && !stop
                    invariant
                        self.wf(),
                        self.buf@ == s0,
                        i <= n,
                        y <= MAX_TEXT_LEN,
                        tc <= 4 * MAX_TEXT_LEN,
                        !stop ==> word_end_target(s0, y as int, tc as int, i as int, n as int)
                            == word_end_target(s0, old(self).cy as int, old(self).cx as int, 0,
                                n as int),
                        stop ==> (y as int, tc as int) == word_end_target(
                            s0, old(self).cy as int, old(self).cx as int, 0, n as int,
                        ),
                    decreases n as int - i as int + (if stop { 0int } else { 1int }),
                {
                    let cur_end = self.buf.end_of_word(tc, y);
                    if cur_end == tc {
                        match self.find_next_word_end_from(y + 1) {
                            Some((ny, nx)) => {
                                proof {
                                    assert(word_end_step(s0, y as int, tc as int)
                                        == Some((ny as int, nx as int)));
                                    lemma_newline_count_le(s0, 0);
                                }
                                y = ny;
                                tc = nx;
                                i += 1;
                            },
                            None => {
                                proof {
                                    assert(word_end_step(s0, y as int, tc as int) is None);
                                    assert(word_end_target(
                                        s0, y as int, tc as int, i as int, n as int,
                                    ) == (y as int, tc as int));
                                }
                                stop = true;
                            },
                        }
                    } else {
                        proof {
                            assert(word_end_step(s0, y as int, tc as int)
                                == Some((y as int, cur_end as int)));
                        }
                        tc = cur_end;
                        i += 1;
                    }
                }
                proof {
                    if !stop {
                        assert(word_end_target(s0, y as int, tc as int, i as int, n as int)
                            == (y as int, tc as int));
                    }
                }
                self.apply_range_or_move((y, tc), true, op);
            },
            Action::LineStart => {
                let cy0 = self.cy;
                self.apply_range_or_move((cy0, 0), false, op);
            },
            Action::LineEnd => {
                let end = self.buf.line_width(self.cy);
                let cy0 = self.cy;
                self.apply_range_or_move((cy0, end), true, op);
            },
            _ => {
                proof {
                    assert(false);
                }
            },
        }
        if grouped_here {
            self.count_group_active = false;
        }
    }

    /// Whether an action edits the document (and so takes part in undo
    /// grouping under a count).
    fn is_editing_action(act: Action) -> (r: bool)
        ensures
            r == (act == Action::DeleteLine || act == Action::DeleteCharUnder
                || act == Action::OpenAbove || act == Action::OpenBelow),
    {
        matches!(
            act,
            Action::DeleteLine | Action::DeleteCharUnder | Action::OpenAbove | Action::OpenBelow
        )
    }

    /// Executes one action against the current state and clamps the cursor.
    #[verifier::rlimit(100)]
    #[verifier::spinoff_prover]
    pub fn apply_action(&mut self, act: Action)
        requires
            old(self).wf(),
            old(self).cursor_bounded(),
        ensures
            final(self).wf(),
            final(self).cursor_ok(),
            final(self).cursor_bounded(),
            same_keymap(old(self), final(self)),
            same_ui(old(self), final(self)),
            final(self).pending@ == old(self).pending@,
            final(self).pending_waiting == old(self).pending_waiting,
            action_rel(old(self), final(self), act),
    {
        match act {
            Action::MoveLeft => {
                if self.cx > 0 {
                    self.cx = self.buf.prev_col(self.cx, self.cy);
                } else if self.cy > 0 {
                    self.cy = self.cy - 1;
                    self.cx = self.buf.line_width(self.cy);
                }
            },
            Action::MoveRight => {
                let len = self.buf.line_width(self.cy);
                if self.cx < len {
                    self.cx = self.buf.next_col(self.cx, self.cy);
                } else {
                    let lc = self.buf.line_count();
                    if self.cy + 1 < lc {
                        self.cy = self.cy + 1;
                        self.cx = 0;
                    }
                }
            },
            Action::MoveUp => {
                if self.cy > 0 {
                    self.cy = self.cy - 1;
                }
            },
            Action::MoveDown => {
                let lc = self.buf.line_count();
                if self.cy + 1 < lc {
                    self.cy = self.cy + 1;
                }
            },
            Action::LineStart => {
                self.cx = 0;
            },
            Action::LineEnd => {
                self.cx = self.buf.line_width(self.cy);
            },
            Action::GotoTop => {
                self.cy = 0;
                self.cx = 0;
            },
            Action::GotoBottom => {
                let lc = self.buf.line_count();
                self.cy = lc - 1;
                self.cx = self.buf.line_width(self.cy);
                proof {
                    lemma_newline_count_le(self.buf@, 0);
                }
            },
            Action::EnterInsert => {
                self.mode = Mode::Insert;
            },
            Action::EnterVisual => {
                self.toggle_visual_mode(Mode::Visual);
            },
            Action::EnterVisualLine => {
                self.toggle_visual_mode(Mode::VisualLine);
            },
            Action::EnterVisualBlock => {
                self.toggle_visual_mode(Mode::VisualBlock);
            },
            Action::Append => {
                let len = self.buf.line_width(self.cy);
                if self.cx < len {
                    self.cx = self.buf.next_col(self.cx, self.cy);
                }
                self.mode = Mode::Insert;
            },
            Action::OpenBelow => {
                self.on_edit_start();
                let len = self.buf.line_width(self.cy);
                let cy0 = self.cy;
                self.buf.insert_newline(len, cy0);
                self.cy = self.cy + 1;
                self.cx = 0;
                self.dirty = true;
                self.mode = Mode::Insert;
            },
            Action::OpenAbove => {
                self.on_edit_start();
                let cy0 = self.cy;
                self.buf.insert_newline(0, cy0);
                self.cx = 0;
                self.dirty = true;
                self.mode = Mode::Insert;
            },
            Action::DeleteCharUnder => {
                self.on_edit_start();
                let cx0 = self.cx;
                let cy0 = self.cy;
                self.buf.delete_at(cx0, cy0);
                self.dirty = true;
            },
            Action::DeleteLine => {
                self.on_edit_start();
                let cy0 = self.cy;
                self.clipboard = self.buf.line_string(cy0);
                self.clipboard_kind = ClipboardKind::Linewise;
                self.buf.delete_line(cy0);
                let lc2 = self.buf.line_count();
                if self.cy >= lc2 {
                    self.cy = lc2 - 1;
                }
                self.cx = 0;
                self.dirty = true;
            },
            Action::CommandPrompt => {},
            Action::OperatorDelete => {
                self.op_pending = Some((Action::OperatorDelete, 1));
            },
            Action::OperatorChange => {
                self.op_pending = Some((Action::OperatorChange, 1));
            },
            Action::OperatorYank => {
                self.op_pending = Some((Action::OperatorYank, 1));
            },
            Action::Undo => {
                let _ = self.undo();
            },
            Action::Redo => {
                let _ = self.redo();
            },
            Action::MoveWordForward | Action::MoveWordBackward | Action::MoveEndWord => {
                self.apply_motion(act, 1, None);
            },
            Action::PasteAfter => {
                self.paste_after();
            },
            Action::PasteBefore => {
                self.paste_before();
            },
        }
        self.clamp_cursor();
    }

    /// Repeats an action `count` times (a multi-line delete is done in one
    /// piece); a counted editing action opens a single undo group.
    pub fn apply_action_count(&mut self, act: Action, count: usize)
        requires
            old(self).wf(),
            old(self).cursor_bounded(),
        ensures
            final(self).wf(),
            final(self).cursor_ok(),
            final(self).cursor_bounded(),
            same_keymap(old(self), final(self)),
            same_ui(old(self), final(self)),
            final(self).pending@ == old(self).pending@,
            final(self).pending_waiting == old(self).pending_waiting,
            !(act == Action::DeleteLine && count > 1)
                ==> final(self).count_group_active == false,
            (count <= 1 && old(self).count_group_active == false)
                ==> action_rel(old(self), final(self), act),
            counted_rel(*old(self), *final(self), act, count as int),
    {
        let n: usize = if count >= 1 { count } else { 1 };
        if matches!(act, Action::DeleteLine) && n > 1 {
            self.delete_n_lines(n);
            return;
        }
        let ghost track = !old(self).count_group_active
            && (!is_word_motion(act) || old(self).op_pending is None);
        let mut grouped = false;
        if n > 1 && !self.count_group_active && Self::is_editing_action(act) {
            let snap = EditorSnapshot {
                text: self.buf.text_string(),
                cx: self.cx,
                cy: self.cy,
            };
            let ghost u0 = self.undo_stack@;
            self.undo_stack.push(snap);
            self.redo_stack.clear();
            self.count_group_active = true;
            grouped = true;
            proof {
                assert(self.undo_stack@.drop_last() =~= u0);
            }
        }
        let ghost start = *self;
        let ghost mut trace: Seq<Editor> = seq![start];
        proof {
            if grouped {
                assert(group_open_rel(old(self), &start));
            }
        }
        let mut i: usize = 0;
        while i < n
            invariant
                self.wf(),
                self.cursor_bounded(),
                i <= n,
                n >= 1,
                i > 0 ==> self.cursor_ok(),
                same_keymap(old(self), self),
                same_ui(old(self), self),
                self.pending@ == old(self).pending@,
                self.pending_waiting == old(self).pending_waiting,
                (n == 1 && i == 0 && !old(self).count_group_active)
                    ==> same_all(old(self), self),
                (n == 1 && i == 1 && !old(self).count_group_active)
                    ==> action_rel(old(self), self, act),
                track == (!old(self).count_group_active
                    && (!is_word_motion(act) || old(self).op_pending is None)),
                grouped ==> group_open_rel(old(self), &start),
                !grouped ==> start == *old(self),
                grouped ==> n > 1 && !old(self).count_group_active
                    && is_editing_spec(act) && act != Action::DeleteLine,
                trace.len() == i + 1,
                trace.first() == start,
                trace.last() == *self,
                track ==> chain_ok(trace, act),
                track ==> self.count_group_active == start.count_group_active,
                track && is_word_motion(act) ==> self.op_pending is None,
            decreases n - i,
        {
            let ghost prev = *self;
            self.apply_action(act);
            proof {
                if track {
                    assert(action_rel(&prev, self, act));
                    assert(self.count_group_active == prev.count_group_active) by {
                        match act {
                            Action::MoveLeft => {},
                            Action::MoveRight => {},
                            Action::MoveUp => {},
                            Action::MoveDown => {},
                            Action::LineStart => {},
                            Action::LineEnd => {},
                            Action::GotoTop => {},
                            Action::GotoBottom => {},
                            Action::EnterInsert => {},
                            Action::Append => {},
                            Action::OpenBelow => {},
                            Action::OpenAbove => {},
                            Action::DeleteCharUnder => {},
                            Action::DeleteLine => {},
                            Action::OperatorDelete => {},
                            Action::OperatorChange => {},
                            Action::OperatorYank => {},
                            Action::MoveWordForward => {},
                            Action::MoveWordBackward => {},
                            Action::MoveEndWord => {},
                            Action::Undo => {},
                            Action::Redo => {},
                            Action::CommandPrompt => {},
                            Action::EnterVisual => {},
                            Action::EnterVisualLine => {},
                            Action::EnterVisualBlock => {},
                            Action::PasteAfter => {},
                            Action::PasteBefore => {},
                        }
                    }
                    if is_word_motion(act) {
                        assert(self.op_pending is None) by {
                            match act {
                            Action::MoveLeft => {},
                            Action::MoveRight => {},
                            Action::MoveUp => {},
                            Action::MoveDown => {},
                            Action::LineStart => {},
                            Action::LineEnd => {},
                            Action::GotoTop => {},
                            Action::GotoBottom => {},
                            Action::EnterInsert => {},
                            Action::Append => {},
                            Action::OpenBelow => {},
                            Action::OpenAbove => {},
                            Action::DeleteCharUnder => {},
                            Action::DeleteLine => {},
                            Action::OperatorDelete => {},
                            Action::OperatorChange => {},
                            Action::OperatorYank => {},
                            Action::MoveWordForward => {},
                            Action::MoveWordBackward => {},
                            Action::MoveEndWord => {},
                            Action::Undo => {},
                            Action::Redo => {},
                            Action::CommandPrompt => {},
                            Action::EnterVisual => {},
                            Action::EnterVisualLine => {},
                            Action::EnterVisualBlock => {},
                            Action::PasteAfter => {},
                            Action::PasteBefore => {},
                            }
                        }
                    }
                }
                let t2 = trace.push(*self);
                if track {
                    assert forall|j: int| 0 <= j < t2.len() - 1
                        implies #[trigger] action_rel(&t2[j], &t2[j + 1], act) by {
                        if j < t2.len() - 2 {
                            assert(t2[j] == trace[j]);
                            assert(t2[j + 1] == trace[j + 1]);
                            assert(action_rel(&trace[j], &trace[j + 1], act));
                        } else {
                            assert(t2[j] == prev);
                            assert(t2[j + 1] == *self);
                        }
                    }
                }
                trace = t2;
            }
            i += 1;
        }
        let ghost q = *self;
        self.count_group_active = false;
        proof {
            if track {
                let ghost ncr = if count as int >= 1 { count as int } else { 1int };
                assert(ncr == n as int);
                assert(trace.len() == n as int + 1 && trace.first() == start
                    && trace.last() == q && chain_ok(trace, act));
                assert(action_iter(start, q, act, n as int));
                assert(action_iter(start, q, act, ncr));
                if grouped {
                    assert(group_close_rel(&q, self));
                    assert(grouped_run(*old(self), start, q, *self, act, ncr));
                } else {
                    assert(q.count_group_active == false);
                    assert(*self =~= q);
                    assert(action_iter(*old(self), *self, act, ncr));
                }
                assert(counted_rel(*old(self), *self, act, count as int));
            }
        }
    }
}

/// Whether every character is an ASCII digit.
pub fn str_all_digits(s: &str) -> (r: bool)
    ensures
        r == all_digit_chars(s@),
{
    let n = s.unicode_len();
    let mut k: usize = 0;
    while k < n
        invariant
            n == s@.len(),
            k <= n,
            forall|j: int| 0 <= j < k ==> is_digit_char(#[trigger] s@[j]),
        decreases n - k,
    {
        let c = s.get_char(k);
        if !(c >= '0' && c <= '9') {
            return false;
        }
        k += 1;
    }
    true
}




} // verus!
