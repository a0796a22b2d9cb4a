use vstd::prelude::*;
use ropey::Rope;
use vstd::string::StrSliceExecFns;
use vstd::string::StringExecFns;
use crate::textmodel::MAX_TEXT_LEN;
use crate::textmodel::line_count_of;
use crate::textmodel::line_start;
use crate::textmodel::line_end;
use crate::textmodel::line_at;
use crate::textmodel::row_at;
use crate::textmodel::insert_text_at;
use crate::textmodel::remove_text_range;
use crate::textmodel::join_lines;
use crate::textmodel::join_lines_upto;
use crate::textmodel::lemma_line_props;
use crate::textstore::rope_text;
use crate::textstore::rope_from_str;
use crate::textstore::rope_to_string;
use crate::textstore::rope_len_chars;
use crate::textstore::rope_len_lines;
use crate::textstore::rope_line_to_char;
use crate::textstore::rope_insert;
use crate::textstore::rope_remove;
use crate::textstore::rope_slice_string;
use crate::unicode::grapheme_split;
use crate::unicode::word_split;
use crate::unicode::word_segments_of;
use crate::unicode::str_is_word_seg;
use crate::unicode::seg_is_word;
use crate::unicode::str_display_width;
use crate::unicode::views_of;
use crate::unicode::graphemes_of;
use crate::unicode::display_width_of;
use crate::unicode::strip_crs;
use crate::unicode::push_char;
use crate::unicode::lemma_flatten_take_len;
use crate::unicode::lemma_flatten_take_step;

verus! {

/// The tab stop: a tab advances to the next multiple of this column.
pub const TABSTOP: usize = 4;

/// The document text: a rope of characters, viewed as the flat character
/// sequence it stores, with lines split on `'\n'`.
pub struct Buffer {
    rope: Rope,
}

impl View for Buffer {
    type V = Seq<char>;

    closed spec fn view(&self) -> Seq<char> {
        rope_text(self.rope)
    }
}

pub open spec fn is_tab_seg(g: Seq<char>) -> bool {
    g.len() == 1 && g[0] == '\t'
}

/// Display width of grapheme `g` when it starts at column `col`: a tab
/// reaches the next tab stop, anything else is its Unicode width, minimum 1.
pub open spec fn gw_at_spec(col: int, g: Seq<char>) -> int {
    if is_tab_seg(g) {
        (col / 4 + 1) * 4 - col
    } else if str_display_width(g) == 0 {
        1
    } else {
        str_display_width(g) as int
    }
}

/// Accumulated display width of the first `k` graphemes.
pub open spec fn width_upto(gs: Seq<Seq<char>>, k: int) -> int
    decreases k
{
    if k <= 0 {
        0
    } else {
        let c = width_upto(gs, k - 1);
        c + gw_at_spec(c, gs[k - 1])
    }
}

/// Display width of a whole line.
pub open spec fn line_width_of(line: Seq<char>) -> int {
    width_upto(grapheme_split(line), grapheme_split(line).len() as int)
}

/// Each grapheme is at least one column wide, so accumulated widths are
/// non-negative and grow with the number of graphemes.
pub proof fn lemma_width_upto_nonneg(gs: Seq<Seq<char>>, k: int)
    ensures
        width_upto(gs, k) >= 0,
        width_upto(gs, k) >= k,
    decreases k,
{
    if k > 0 {
        lemma_width_upto_nonneg(gs, k - 1);
    }
}

/// Char offset within the line of the grapheme whose display span holds
/// `col`; a column at or past the end of the line maps to the line's length.
pub open spec fn col_chars_rec(gs: Seq<Seq<char>>, i: int, acc: int, ci: int, col: int) -> int
    decreases gs.len() - i when 0 <= i <= gs.len()
{
    if i >= gs.len() {
        ci
    } else {
        let w = gw_at_spec(acc, gs[i]);
        if acc + w > col {
            ci
        } else {
            col_chars_rec(gs, i + 1, acc + w, ci + gs[i].len(), col)
        }
    }
}

pub open spec fn col_to_chars_spec(line: Seq<char>, col: int) -> int {
    col_chars_rec(grapheme_split(line), 0, 0, 0, col)
}

/// Start column of the grapheme that holds char offset `t`; offsets at or
/// past the end of the line map to the line's full width.
pub open spec fn chars_col_rec(gs: Seq<Seq<char>>, i: int, acc: int, p: int, t: int) -> int
    decreases gs.len() - i when 0 <= i <= gs.len()
{
    if i >= gs.len() {
        acc
    } else {
        let np = p + gs[i].len();
        if np > t {
            acc
        } else {
            chars_col_rec(gs, i + 1, acc + gw_at_spec(acc, gs[i]), np, t)
        }
    }
}

pub open spec fn chars_to_col_spec(line: Seq<char>, t: int) -> int {
    chars_col_rec(grapheme_split(line), 0, 0, 0, t)
}

/// Whole-document char index of display column `col` on row `y`.
pub open spec fn char_index_spec(s: Seq<char>, y: int, col: int) -> int {
    line_start(s, y) + col_to_chars_spec(line_at(s, y), col)
}

/// Whole-document char index, with rows past the end clamped to the end.
pub open spec fn char_index_clamped(s: Seq<char>, y: int, col: int) -> int {
    if y < line_count_of(s) {
        char_index_spec(s, y, col)
    } else {
        s.len() as int
    }
}

/// Start column of the grapheme left of `col`, or 0 when there is none.
pub open spec fn prev_col_rec(gs: Seq<Seq<char>>, i: int, acc: int, prev: int, col: int) -> int
    decreases gs.len() - i when 0 <= i <= gs.len()
{
    if i >= gs.len() {
        prev
    } else {
        let w = gw_at_spec(acc, gs[i]);
        if acc >= col {
            prev
        } else {
            prev_col_rec(gs, i + 1, acc + w, acc, col)
        }
    }
}

pub open spec fn prev_col_spec(line: Seq<char>, col: int) -> int {
    if col <= 0 {
        0
    } else {
        prev_col_rec(grapheme_split(line), 0, 0, 0, col)
    }
}

/// Column one grapheme right of `col`, clamped to the line's width.
pub open spec fn next_col_rec(gs: Seq<Seq<char>>, i: int, acc: int, col: int, lw: int) -> int
    decreases gs.len() - i when 0 <= i <= gs.len()
{
    if i >= gs.len() {
        lw
    } else {
        let w = gw_at_spec(acc, gs[i]);
        if acc >= col {
            if acc + w <= lw {
                acc + w
            } else {
                lw
            }
        } else {
            next_col_rec(gs, i + 1, acc + w, col, lw)
        }
    }
}

pub open spec fn next_col_spec(line: Seq<char>, col: int) -> int {
    if col >= line_width_of(line) {
        line_width_of(line)
    } else {
        next_col_rec(grapheme_split(line), 0, 0, col, line_width_of(line))
    }
}

/// Column of the grapheme containing UTF-8 byte offset `tb`.
pub open spec fn byte_col_rec(gs: Seq<Seq<char>>, i: int, acc: int, bpos: int, tb: int) -> int
    decreases gs.len() - i when 0 <= i <= gs.len()
{
    if i >= gs.len() {
        acc
    } else {
        let nb = bpos + crate::unicode::utf8_len_of(gs[i]);
        if nb > tb {
            acc
        } else {
            byte_col_rec(gs, i + 1, acc + gw_at_spec(acc, gs[i]), nb, tb)
        }
    }
}

pub open spec fn byte_to_col_spec(line: Seq<char>, tb: int) -> int {
    byte_col_rec(grapheme_split(line), 0, 0, 0, tb)
}

/// Walk for deleting the grapheme before `col`: yields the start column,
/// start char offset, and end char offset of the last grapheme left of `col`.
pub open spec fn del_prev_rec(
    gs: Seq<Seq<char>>, i: int, acc: int, pa: int, pc: int, ci: int, col: int,
) -> (int, int, int)
    decreases gs.len() - i when 0 <= i <= gs.len()
{
    if i >= gs.len() {
        (pa, pc, ci)
    } else {
        let w = gw_at_spec(acc, gs[i]);
        if acc >= col {
            (pa, pc, ci)
        } else {
            del_prev_rec(gs, i + 1, acc + w, acc, ci, ci + gs[i].len(), col)
        }
    }
}

pub open spec fn del_prev_span(line: Seq<char>, col: int) -> (int, int, int) {
    del_prev_rec(grapheme_split(line), 0, 0, 0, 0, 0, col)
}

/// Char-offset span of the grapheme whose display span holds `col`, if any.
pub open spec fn del_at_rec(
    gs: Seq<Seq<char>>, i: int, acc: int, ci: int, col: int,
) -> Option<(int, int)>
    decreases gs.len() - i when 0 <= i <= gs.len()
{
    if i >= gs.len() {
        None
    } else {
        let w = gw_at_spec(acc, gs[i]);
        if acc <= col < acc + w {
            Some((ci, ci + gs[i].len()))
        } else {
            del_at_rec(gs, i + 1, acc + w, ci + gs[i].len(), col)
        }
    }
}

pub open spec fn del_at_span(line: Seq<char>, col: int) -> Option<(int, int)> {
    del_at_rec(grapheme_split(line), 0, 0, 0, col)
}

/// Walk for `next_word_start`: the char offset of the first word segment at
/// or after `ci`, skipping the segment that contains `ci`; `None` when no
/// such segment exists on the line.
pub open spec fn nws_rec(
    ws: Seq<Seq<char>>, i: int, p: int, ci: int, cur_end: Option<int>,
) -> Option<int>
    decreases ws.len() - i when 0 <= i <= ws.len()
{
    if i >= ws.len() {
        None
    } else {
        let end = p + ws[i].len();
        if cur_end is None && p <= ci < end {
            nws_rec(ws, i + 1, end, ci, Some(end))
        } else if p >= ci && (match cur_end {
            Some(e) => p >= e && crate::unicode::seg_is_word(ws[i]),
            None => crate::unicode::seg_is_word(ws[i]),
        }) {
            Some(p)
        } else {
            nws_rec(ws, i + 1, end, ci, cur_end)
        }
    }
}

/// The next word start's column; the original column when no word follows
/// on this line (cross-line continuation is the caller's).
pub open spec fn next_word_start_spec(line: Seq<char>, col: int) -> int {
    match nws_rec(word_split(line), 0, 0, col_to_chars_spec(line, col), None) {
        Some(t) => chars_to_col_spec(line, t),
        None => col,
    }
}

/// Walk for `prev_word_start`: the char offset of the last word segment
/// strictly before `ci`, or `None` when there is none.
pub open spec fn pws_rec(ws: Seq<Seq<char>>, i: int, p: int, ci: int, best: Option<int>)
    -> Option<int>
    decreases ws.len() - i when 0 <= i <= ws.len()
{
    if i >= ws.len() {
        best
    } else if p >= ci {
        best
    } else {
        pws_rec(
            ws, i + 1, p + ws[i].len(), ci,
            if crate::unicode::seg_is_word(ws[i]) { Some(p) } else { best },
        )
    }
}

/// The previous word start's column; the original column when no word
/// starts before it on this line.
pub open spec fn prev_word_start_spec(line: Seq<char>, col: int) -> int {
    match pws_rec(word_split(line), 0, 0, col_to_chars_spec(line, col), None) {
        Some(t) => chars_to_col_spec(line, t),
        None => col,
    }
}

/// Walk for `end_of_word`: the char offset just past the word segment that
/// contains `ci`, else past the first word segment after `ci`; `None` when
/// there is none.
pub open spec fn eow_rec(ws: Seq<Seq<char>>, i: int, p: int, ci: int) -> Option<int>
    decreases ws.len() - i when 0 <= i <= ws.len()
{
    if i >= ws.len() {
        None
    } else {
        let end = p + ws[i].len();
        if crate::unicode::seg_is_word(ws[i]) && p <= ci < end {
            Some(end)
        } else if p >= ci && crate::unicode::seg_is_word(ws[i]) {
            Some(end)
        } else {
            eow_rec(ws, i + 1, end, ci)
        }
    }
}

/// The column just past the current or next word; the original column when
/// no word remains on this line.
pub open spec fn end_of_word_spec(line: Seq<char>, col: int) -> int {
    match eow_rec(word_split(line), 0, 0, col_to_chars_spec(line, col)) {
        Some(t) => chars_to_col_spec(line, t),
        None => col,
    }
}

/// Char offset of the first word segment of the line, if any.
pub open spec fn fws_rec(ws: Seq<Seq<char>>, i: int, p: int) -> Option<int>
    decreases ws.len() - i when 0 <= i <= ws.len()
{
    if i >= ws.len() {
        None
    } else if crate::unicode::seg_is_word(ws[i]) {
        Some(p)
    } else {
        fws_rec(ws, i + 1, p + ws[i].len())
    }
}

pub open spec fn first_word_start_chars(line: Seq<char>) -> Option<int> {
    fws_rec(word_split(line), 0, 0)
}

/// Char offset of the last word segment of the line, if any.
pub open spec fn lws_rec(ws: Seq<Seq<char>>, i: int, p: int, best: Option<int>) -> Option<int>
    decreases ws.len() - i when 0 <= i <= ws.len()
{
    if i >= ws.len() {
        best
    } else {
        lws_rec(
            ws, i + 1, p + ws[i].len(),
            if crate::unicode::seg_is_word(ws[i]) { Some(p) } else { best },
        )
    }
}

pub open spec fn last_word_start_chars(line: Seq<char>) -> Option<int> {
    lws_rec(word_split(line), 0, 0, None)
}

/// Char offset just past the first word segment of the line, if any.
pub open spec fn fwe_rec(ws: Seq<Seq<char>>, i: int, p: int) -> Option<int>
    decreases ws.len() - i when 0 <= i <= ws.len()
{
    if i >= ws.len() {
        None
    } else if crate::unicode::seg_is_word(ws[i]) {
        Some(p + ws[i].len())
    } else {
        fwe_rec(ws, i + 1, p + ws[i].len())
    }
}

pub open spec fn first_word_end_chars(line: Seq<char>) -> Option<int> {
    fwe_rec(word_split(line), 0, 0)
}

impl Buffer {
    pub open spec fn wf(&self) -> bool {
        self@.len() <= MAX_TEXT_LEN
    }

    /// Builds a buffer from raw text; carriage returns are stripped on load.
    pub fn from_string(s: String) -> (b: Buffer)
        requires
            s@.len() <= MAX_TEXT_LEN,
        ensures
            b@ == s@.filter(|c: char| c != '\r'),
            b.wf(),
    {
        let t = strip_crs(s.as_str());
        proof {
            s@.lemma_filter_len(|c: char| c != '\r');
        }
        Buffer { rope: rope_from_str(t.as_str()) }
    }

    /// Rebuilds a buffer from text taken out of a buffer, exactly as it is;
    /// used to restore undo snapshots byte for byte.
    pub fn from_text(s: String) -> (b: Buffer)
        requires
            s@.len() <= MAX_TEXT_LEN,
        ensures
            b@ == s@,
            b.wf(),
    {
        Buffer { rope: rope_from_str(s.as_str()) }
    }

    /// Char index where row `y` starts.
    pub fn line_start_char(&self, y: usize) -> (i: usize)
        requires
            (y as nat) < line_count_of(self@),
        ensures
            i as int == line_start(self@, y as int),
            i as nat <= self@.len(),
    {
        proof {
            lemma_line_props(self@, y as int);
        }
        rope_line_to_char(&self.rope, y)
    }

    /// The whole text as one string, newlines included.
    pub fn text_string(&self) -> (s: String)
        ensures
            s@ == self@,
    {
        rope_to_string(&self.rope)
    }

    pub fn char_len(&self) -> (n: usize)
        ensures
            n as nat == self@.len(),
    {
        rope_len_chars(&self.rope)
    }

    pub fn line_count(&self) -> (n: usize)
        ensures
            n as nat == line_count_of(self@),
            n >= 1,
    {
        rope_len_lines(&self.rope)
    }

    /// The line's text without its trailing newline; an out-of-range row
    /// yields the empty string.
    pub fn line_string(&self, y: usize) -> (s: String)
        ensures
            s@ == row_at(self@, y as int),
            s@.len() <= self@.len(),
    {
        let lc = self.line_count();
        if y >= lc {
            return String::new();
        }
        proof {
            lemma_line_props(self@, y as int);
        }
        let a = rope_line_to_char(&self.rope, y);
        let b = rope_line_to_char(&self.rope, y + 1);
        let s = rope_slice_string(&self.rope, a, b);
        if y + 1 < lc {
            let n = s.as_str().unicode_len();
            let t = s.as_str().substring_char(0, n - 1);
            let r = t.to_owned();
            proof {
                assert(r@ =~= line_at(self@, y as int));
            }
            r
        } else {
            proof {
                assert(s@ =~= line_at(self@, y as int));
            }
            s
        }
    }

    /// Joins the given lines with newlines into a fresh buffer.
    pub fn from_lines(lines: Vec<String>) -> (b: Buffer)
        requires
            join_lines(views_of(lines@)).len() <= MAX_TEXT_LEN,
        ensures
            b@ == join_lines(views_of(lines@)).filter(|c: char| c != '\r'),
            b.wf(),
    {
        let n = lines.len();
        let mut s = String::new();
        let mut i: usize = 0;
        while i < n
            invariant
                n == lines@.len(),
                i <= n,
                s@ == join_lines_upto(views_of(lines@), i as int),
            decreases n - i,
        {
            if i > 0 {
                push_char(&mut s, '\n');
            }
            s.append(lines[i].as_str());
            assert(s@ =~= join_lines_upto(views_of(lines@), i as int + 1));
            i += 1;
        }
        Buffer::from_string(s)
    }

    /// The document as a vector of lines, in order.
    pub fn to_lines(&self) -> (v: Vec<String>)
        ensures
            v@.len() == line_count_of(self@),
            forall|y: int| 0 <= y < v@.len() ==> views_of(v@)[y] == line_at(self@, y),
    {
        let lc = self.line_count();
        let mut v: Vec<String> = Vec::new();
        let mut y: usize = 0;
        while y < lc
            invariant
                lc as nat == line_count_of(self@),
                y <= lc,
                v@.len() == y,
                forall|j: int| 0 <= j < y ==> views_of(v@)[j] == line_at(self@, j),
            decreases lc - y,
        {
            v.push(self.line_string(y));
            y += 1;
        }
        v
    }

    /// Width contribution of one grapheme starting at column `col`.
    fn gw_at(col: usize, g: &str) -> (w: usize)
        requires
            col <= 4 * MAX_TEXT_LEN,
        ensures
            w as int == gw_at_spec(col as int, g@),
            1 <= w,
            g@.len() > 0 ==> w as int <= 4 * g@.len(),
    {
        let n = g.unicode_len();
        if n == 1 && g.get_char(0) == '\t' {
            ((col / TABSTOP) + 1) * TABSTOP - col
        } else {
            let w0 = display_width_of(g);
            if w0 == 0 {
                1
            } else {
                w0
            }
        }
    }

    /// Display width of a full line of text.
    fn width_of_line(row: &str) -> (w: usize)
        requires
            row@.len() <= MAX_TEXT_LEN,
        ensures
            w as int == line_width_of(row@),
            w <= 4 * MAX_TEXT_LEN,
    {
        let gs = graphemes_of(row);
        let n = gs.len();
        let mut acc: usize = 0;
        let mut i: usize = 0;
        while i < n
            invariant
                n == gs@.len(),
                views_of(gs@) == grapheme_split(row@),
                views_of(gs@).flatten() == row@,
                row@.len() <= MAX_TEXT_LEN,
                forall|k: int| 0 <= k < n ==> #[trigger] gs@[k]@.len() > 0,
                i <= n,
                acc as int == width_upto(grapheme_split(row@), i as int),
                acc as int <= 4 * views_of(gs@).take(i as int).flatten().len(),
            decreases n - i,
        {
            proof {
                lemma_flatten_take_step(views_of(gs@), i as int);
                lemma_flatten_take_len(views_of(gs@), i as int + 1);
                assert(views_of(gs@)[i as int] == gs@[i as int]@);
            }
            let w = Self::gw_at(acc, gs[i].as_str());
            acc = acc + w;
            i += 1;
        }
        proof {
            assert(views_of(gs@).take(n as int) =~= views_of(gs@));
        }
        acc
    }

    /// Display width of row `y`; 0 for an out-of-range row.
    pub fn line_width(&self, y: usize) -> (w: usize)
        requires
            self.wf(),
        ensures
            w as int == line_width_of(row_at(self@, y as int)),
            w <= 4 * MAX_TEXT_LEN,
    {
        let row = self.line_string(y);
        Self::width_of_line(row.as_str())
    }

    /// Char offset within `row` of the grapheme whose span holds `col`.
    fn col_chars_in_line(row: &str, col: usize) -> (r: usize)
        requires
            row@.len() <= MAX_TEXT_LEN,
        ensures
            r as int == col_to_chars_spec(row@, col as int),
            r <= row@.len(),
    {
        let gs = graphemes_of(row);
        let n = gs.len();
        let mut acc: usize = 0;
        let mut ci: usize = 0;
        let mut i: usize = 0;
        while i < n
            invariant
                n == gs@.len(),
                views_of(gs@) == grapheme_split(row@),
                views_of(gs@).flatten() == row@,
                row@.len() <= MAX_TEXT_LEN,
                forall|k: int| 0 <= k < n ==> #[trigger] gs@[k]@.len() > 0,
                i <= n,
                acc as int <= 4 * views_of(gs@).take(i as int).flatten().len(),
                ci == views_of(gs@).take(i as int).flatten().len(),
                col_chars_rec(grapheme_split(row@), i as int, acc as int, ci as int, col as int)
                    == col_to_chars_spec(row@, col as int),
            decreases n - i,
        {
            proof {
                lemma_flatten_take_step(views_of(gs@), i as int);
                lemma_flatten_take_len(views_of(gs@), i as int + 1);
                assert(views_of(gs@)[i as int] == gs@[i as int]@);
            }
            let w = Self::gw_at(acc, gs[i].as_str());
            if acc + w > col {
                return ci;
            }
            let gl = gs[i].as_str().unicode_len();
            acc = acc + w;
            ci = ci + gl;
            i += 1;
        }
        proof {
            lemma_flatten_take_len(views_of(gs@), n as int);
        }
        ci
    }

    /// Start column of the grapheme at char offset `t` in `row`.
    fn chars_col_in_line(row: &str, t: usize) -> (r: usize)
        requires
            row@.len() <= MAX_TEXT_LEN,
        ensures
            r as int == chars_to_col_spec(row@, t as int),
            r <= 4 * MAX_TEXT_LEN,
    {
        let gs = graphemes_of(row);
        let n = gs.len();
        let mut acc: usize = 0;
        let mut p: usize = 0;
        let mut i: usize = 0;
        while i < n
            invariant
                n == gs@.len(),
                views_of(gs@) == grapheme_split(row@),
                views_of(gs@).flatten() == row@,
                row@.len() <= MAX_TEXT_LEN,
                forall|k: int| 0 <= k < n ==> #[trigger] gs@[k]@.len() > 0,
                i <= n,
                acc as int <= 4 * views_of(gs@).take(i as int).flatten().len(),
                p == views_of(gs@).take(i as int).flatten().len(),
                chars_col_rec(grapheme_split(row@), i as int, acc as int, p as int, t as int)
                    == chars_to_col_spec(row@, t as int),
            decreases n - i,
        {
            proof {
                lemma_flatten_take_step(views_of(gs@), i as int);
                lemma_flatten_take_len(views_of(gs@), i as int + 1);
                assert(views_of(gs@)[i as int] == gs@[i as int]@);
            }
            let gl = gs[i].as_str().unicode_len();
            if p + gl > t {
                return acc;
            }
            let w = Self::gw_at(acc, gs[i].as_str());
            acc = acc + w;
            p = p + gl;
            i += 1;
        }
        proof {
            lemma_flatten_take_len(views_of(gs@), n as int);
        }
        acc
    }

    /// Whole-document char index of `(row, column)`; rows past the end map
    /// to the end of the text.
    pub fn char_index_at_col(&self, y: usize, col: usize) -> (r: usize)
        requires
            self.wf(),
        ensures
            r as int == char_index_clamped(self@, y as int, col as int),
            r as nat <= self@.len(),
    {
        let lc = self.line_count();
        if y >= lc {
            return self.char_len();
        }
        proof {
            lemma_line_props(self@, y as int);
        }
        let a = rope_line_to_char(&self.rope, y);
        let row = self.line_string(y);
        let off = Self::col_chars_in_line(row.as_str(), col);
        a + off
    }

    /// Column of the previous grapheme, or 0 at the line start.
    pub fn prev_col(&self, col: usize, y: usize) -> (r: usize)
        requires
            self.wf(),
        ensures
            r as int == prev_col_spec(row_at(self@, y as int), col as int),
            r <= col,
    {
        if col == 0 {
            return 0;
        }
        let row = self.line_string(y);
        let gs = graphemes_of(row.as_str());
        let n = gs.len();
        let mut acc: usize = 0;
        let mut prev: usize = 0;
        let mut i: usize = 0;
        while i < n
            invariant
                n == gs@.len(),
                views_of(gs@) == grapheme_split(row@),
                views_of(gs@).flatten() == row@,
                row@.len() <= MAX_TEXT_LEN,
                row@ == row_at(self@, y as int),
                forall|k: int| 0 <= k < n ==> #[trigger] gs@[k]@.len() > 0,
                i <= n,
                acc as int <= 4 * views_of(gs@).take(i as int).flatten().len(),
                prev <= acc,
                prev <= col,
                prev_col_rec(grapheme_split(row@), i as int, acc as int, prev as int, col as int)
                    == prev_col_spec(row@, col as int),
            decreases n - i,
        {
            proof {
                lemma_flatten_take_step(views_of(gs@), i as int);
                lemma_flatten_take_len(views_of(gs@), i as int + 1);
                assert(views_of(gs@)[i as int] == gs@[i as int]@);
            }
            let w = Self::gw_at(acc, gs[i].as_str());
            if acc >= col {
                return prev;
            }
            prev = acc;
            acc = acc + w;
            i += 1;
        }
        prev
    }

    /// Column one grapheme to the right, clamped to the line's width.
    pub fn next_col(&self, col: usize, y: usize) -> (r: usize)
        requires
            self.wf(),
        ensures
            r as int == next_col_spec(row_at(self@, y as int), col as int),
            r <= 4 * MAX_TEXT_LEN,
    {
        let row = self.line_string(y);
        let len = Self::width_of_line(row.as_str());
        if col >= len {
            return len;
        }
        let gs = graphemes_of(row.as_str());
        let n = gs.len();
        let mut acc: usize = 0;
        let mut i: usize = 0;
        while i < n
            invariant
                n == gs@.len(),
                views_of(gs@) == grapheme_split(row@),
                views_of(gs@).flatten() == row@,
                row@.len() <= MAX_TEXT_LEN,
                row@ == row_at(self@, y as int),
                forall|k: int| 0 <= k < n ==> #[trigger] gs@[k]@.len() > 0,
                i <= n,
                col < len,
                len as int == line_width_of(row@),
                len <= 4 * MAX_TEXT_LEN,
                acc as int <= 4 * views_of(gs@).take(i as int).flatten().len(),
                next_col_rec(grapheme_split(row@), i as int, acc as int, col as int, len as int)
                    == next_col_spec(row@, col as int),
            decreases n - i,
        {
            proof {
                lemma_flatten_take_step(views_of(gs@), i as int);
                lemma_flatten_take_len(views_of(gs@), i as int + 1);
                assert(views_of(gs@)[i as int] == gs@[i as int]@);
            }
            let w = Self::gw_at(acc, gs[i].as_str());
            if acc >= col {
                proof {
                    assert(next_col_rec(
                        grapheme_split(row@), i as int, acc as int, col as int, len as int,
                    ) == if acc + w <= len { (acc + w) as int } else { len as int });
                }
                if acc + w <= len {
                    return acc + w;
                } else {
                    return len;
                }
            }
            proof {
                assert(next_col_rec(
                    grapheme_split(row@), i as int, acc as int, col as int, len as int,
                ) == next_col_rec(
                    grapheme_split(row@), i as int + 1, acc as int + w as int, col as int,
                    len as int,
                ));
            }
            acc = acc + w;
            i += 1;
        }
        proof {
            assert(next_col_rec(
                grapheme_split(row@), n as int, acc as int, col as int, len as int,
            ) == len as int);
        }
        len
    }

    /// UTF-8 byte offset within row `y` of display column `col`.
    pub fn col_to_byte(&self, y: usize, col: usize) -> (r: usize)
        requires
            self.wf(),
        ensures
            r as int == crate::unicode::utf8_len_upto(
                row_at(self@, y as int),
                col_to_chars_spec(row_at(self@, y as int), col as int),
            ),
    {
        let row = self.line_string(y);
        let ci = Self::col_chars_in_line(row.as_str(), col);
        let mut n: usize = 0;
        let mut k: usize = 0;
        while k < ci
            invariant
                ci <= row@.len(),
                row@.len() <= MAX_TEXT_LEN,
                k <= ci,
                n as int == crate::unicode::utf8_len_upto(row@, k as int),
                n <= 4 * k,
            decreases ci - k,
        {
            let c = row.as_str().get_char(k);
            n = n + crate::unicode::char_utf8_len(c);
            k += 1;
        }
        n
    }

    /// Column of the grapheme containing UTF-8 byte offset `target_b`.
    pub fn byte_to_col_in_line(&self, y: usize, target_b: usize) -> (r: usize)
        requires
            self.wf(),
        ensures
            r as int == byte_to_col_spec(row_at(self@, y as int), target_b as int),
            r <= 4 * MAX_TEXT_LEN,
    {
        let row = self.line_string(y);
        let gs = graphemes_of(row.as_str());
        let n = gs.len();
        let mut acc: usize = 0;
        let mut bpos: usize = 0;
        let mut i: usize = 0;
        while i < n
            invariant
                n == gs@.len(),
                views_of(gs@) == grapheme_split(row@),
                views_of(gs@).flatten() == row@,
                row@.len() <= MAX_TEXT_LEN,
                row@ == row_at(self@, y as int),
                forall|k: int| 0 <= k < n ==> #[trigger] gs@[k]@.len() > 0,
                i <= n,
                acc as int <= 4 * views_of(gs@).take(i as int).flatten().len(),
                bpos as int <= 4 * views_of(gs@).take(i as int).flatten().len(),
                byte_col_rec(grapheme_split(row@), i as int, acc as int, bpos as int, target_b as int)
                    == byte_to_col_spec(row@, target_b as int),
            decreases n - i,
        {
            proof {
                lemma_flatten_take_step(views_of(gs@), i as int);
                lemma_flatten_take_len(views_of(gs@), i as int + 1);
                assert(views_of(gs@)[i as int] == gs@[i as int]@);
                crate::unicode::lemma_utf8_len_upto_bounds(gs@[i as int]@, gs@[i as int]@.len() as int);
                lemma_flatten_take_len(views_of(gs@), i as int);
            }
            let bl = crate::unicode::str_utf8_len(gs[i].as_str());
            if bpos + bl > target_b {
                proof {
                    assert(byte_col_rec(
                        grapheme_split(row@), i as int, acc as int, bpos as int, target_b as int,
                    ) == acc as int);
                }
                return acc;
            }
            let w = Self::gw_at(acc, gs[i].as_str());
            proof {
                assert(byte_col_rec(
                    grapheme_split(row@), i as int, acc as int, bpos as int, target_b as int,
                ) == byte_col_rec(
                    grapheme_split(row@), i as int + 1, acc as int + w as int,
                    bpos as int + bl as int, target_b as int,
                ));
            }
            acc = acc + w;
            bpos = bpos + bl;
            i += 1;
        }
        proof {
            lemma_flatten_take_len(views_of(gs@), n as int);
            assert(byte_col_rec(
                grapheme_split(row@), n as int, acc as int, bpos as int, target_b as int,
            ) == acc as int);
        }
        acc
    }

    /// Inserts `s` at `(row, column)`; a row past the end appends at the end
    /// of the text.  Text that would grow the document past its size bound
    /// is dropped whole.
    pub fn insert_str_at(&mut self, y: usize, col: usize, s: &str)
        requires
            old(self).wf(),
        ensures
            final(self).wf(),
            old(self)@.len() + s@.len() <= MAX_TEXT_LEN ==> final(self)@ == insert_text_at(
                old(self)@, char_index_clamped(old(self)@, y as int, col as int), s@,
            ),
            old(self)@.len() + s@.len() > MAX_TEXT_LEN ==> final(self)@ == old(self)@,
    {
        let n = self.char_len();
        let sl = s.unicode_len();
        if sl > MAX_TEXT_LEN || n > MAX_TEXT_LEN - sl {
            return;
        }
        let idx = self.char_index_at_col(y, col);
        rope_insert(&mut self.rope, idx, s);
    }

    /// Inserts one character at `(column, row)`.
    pub fn insert_char(&mut self, col: usize, y: usize, ch: char)
        requires
            old(self).wf(),
        ensures
            final(self).wf(),
            old(self)@.len() < MAX_TEXT_LEN ==> final(self)@ == insert_text_at(
                old(self)@, char_index_clamped(old(self)@, y as int, col as int), seq![ch],
            ),
            old(self)@.len() >= MAX_TEXT_LEN ==> final(self)@ == old(self)@,
    {
        let mut t = String::new();
        push_char(&mut t, ch);
        proof {
            assert(t@ =~= seq![ch]);
        }
        self.insert_str_at(y, col, t.as_str());
    }

    /// Splits the line at `(column, row)` in two.
    pub fn insert_newline(&mut self, col: usize, y: usize)
        requires
            old(self).wf(),
        ensures
            final(self).wf(),
            old(self)@.len() < MAX_TEXT_LEN ==> final(self)@ == insert_text_at(
                old(self)@, char_index_clamped(old(self)@, y as int, col as int), seq!['\n'],
            ),
            old(self)@.len() >= MAX_TEXT_LEN ==> final(self)@ == old(self)@,
    {
        self.insert_char(col, y, '\n');
    }

    /// Inserts `s` at the very start of row `y`; a row past the end appends
    /// at the end of the text.
    pub fn insert_str_at_line_start(&mut self, y: usize, s: &str)
        requires
            old(self).wf(),
        ensures
            final(self).wf(),
            old(self)@.len() + s@.len() <= MAX_TEXT_LEN ==> final(self)@ == insert_text_at(
                old(self)@,
                if (y as nat) < line_count_of(old(self)@) {
                    line_start(old(self)@, y as int)
                } else {
                    old(self)@.len() as int
                },
                s@,
            ),
            old(self)@.len() + s@.len() > MAX_TEXT_LEN ==> final(self)@ == old(self)@,
    {
        let n = self.char_len();
        let sl = s.unicode_len();
        if sl > MAX_TEXT_LEN || n > MAX_TEXT_LEN - sl {
            return;
        }
        let lc = self.line_count();
        let idx = if y >= lc {
            self.char_len()
        } else {
            proof {
                lemma_line_props(self@, y as int);
            }
            rope_line_to_char(&self.rope, y)
        };
        rope_insert(&mut self.rope, idx, s);
    }

    /// Removes line `y` and its trailing newline; removing the last line
    /// leaves a single empty line.
    pub fn delete_line(&mut self, y: usize)
        requires
            old(self).wf(),
        ensures
            final(self).wf(),
            y as nat >= line_count_of(old(self)@) ==> final(self)@ == old(self)@,
            (y as nat) < line_count_of(old(self)@) ==> final(self)@ == remove_text_range(
                old(self)@,
                line_start(old(self)@, y as int),
                if (y as nat) + 1 < line_count_of(old(self)@) {
                    line_start(old(self)@, y as int + 1)
                } else {
                    old(self)@.len() as int
                },
            ),
    {
        let lc = self.line_count();
        if y >= lc {
            return;
        }
        proof {
            lemma_line_props(self@, y as int);
        }
        let start = rope_line_to_char(&self.rope, y);
        let end = if y + 1 < lc {
            rope_line_to_char(&self.rope, y + 1)
        } else {
            self.char_len()
        };
        rope_remove(&mut self.rope, start, end);
    }

    /// Removes the grapheme just left of `col`, returning its start column;
    /// a no-op returning 0 at the line start or on an empty line.
    pub fn delete_prev(&mut self, col: usize, y: usize) -> (r: usize)
        requires
            old(self).wf(),
        ensures
            final(self).wf(),
            ({
                let line = row_at(old(self)@, y as int);
                let ls = line_start(old(self)@, y as int);
                let span = del_prev_span(line, col as int);
                if line.len() == 0 || col == 0 {
                    r == 0 && final(self)@ == old(self)@
                } else if span.1 < span.2 {
                    r as int == span.0 && final(self)@ == remove_text_range(
                        old(self)@, ls + span.1, ls + span.2,
                    )
                } else {
                    r as int == col - 1 && final(self)@ == old(self)@
                }
            }),
    {
        let row = self.line_string(y);
        if row.as_str().unicode_len() == 0 || col == 0 {
            return 0;
        }
        let gs = graphemes_of(row.as_str());
        let n = gs.len();
        let mut acc: usize = 0;
        let mut pa: usize = 0;
        let mut pc: usize = 0;
        let mut ci: usize = 0;
        let mut i: usize = 0;
        while i < n && acc < col
            invariant
                n == gs@.len(),
                views_of(gs@) == grapheme_split(row@),
                views_of(gs@).flatten() == row@,
                row@.len() <= MAX_TEXT_LEN,
                row@ == row_at(self@, y as int),
                forall|k: int| 0 <= k < n ==> #[trigger] gs@[k]@.len() > 0,
                i <= n,
                acc as int <= 4 * views_of(gs@).take(i as int).flatten().len(),
                pa <= acc,
                pc <= ci,
                ci == views_of(gs@).take(i as int).flatten().len(),
                del_prev_rec(
                    grapheme_split(row@), i as int, acc as int, pa as int, pc as int,
                    ci as int, col as int,
                ) == del_prev_span(row@, col as int),
            decreases n - i,
        {
            proof {
                lemma_flatten_take_step(views_of(gs@), i as int);
                lemma_flatten_take_len(views_of(gs@), i as int + 1);
                assert(views_of(gs@)[i as int] == gs@[i as int]@);
            }
            let w = Self::gw_at(acc, gs[i].as_str());
            let gl = gs[i].as_str().unicode_len();
            pa = acc;
            pc = ci;
            ci = ci + gl;
            acc = acc + w;
            i += 1;
        }
        proof {
            lemma_flatten_take_len(views_of(gs@), i as int);
            assert(del_prev_rec(
                grapheme_split(row@), i as int, acc as int, pa as int, pc as int,
                ci as int, col as int,
            ) == (pa as int, pc as int, ci as int));
        }
        if pc < ci {
            let lc = self.line_count();
            proof {
                lemma_line_props(self@, y as int);
            }
            let a = rope_line_to_char(&self.rope, y);
            rope_remove(&mut self.rope, a + pc, a + ci);
            pa
        } else {
            col - 1
        }
    }

    /// Removes the grapheme whose display span holds `col`; a no-op when
    /// there is none.
    pub fn delete_at(&mut self, col: usize, y: usize)
        requires
            old(self).wf(),
        ensures
            final(self).wf(),
            ({
                let line = row_at(old(self)@, y as int);
                let ls = line_start(old(self)@, y as int);
                let span = del_at_span(line, col as int);
                &&& (line.len() == 0 || span is None ==> final(self)@ == old(self)@)
                &&& (line.len() > 0 ==> (span matches Some(ab) ==> final(self)@
                    == remove_text_range(old(self)@, ls + ab.0, ls + ab.1)))
            }),
    {
        let row = self.line_string(y);
        if row.as_str().unicode_len() == 0 {
            return;
        }
        let gs = graphemes_of(row.as_str());
        let n = gs.len();
        let mut acc: usize = 0;
        let mut ci: usize = 0;
        let mut i: usize = 0;
        while i < n
            invariant
                n == gs@.len(),
                views_of(gs@) == grapheme_split(row@),
                views_of(gs@).flatten() == row@,
                row@.len() <= MAX_TEXT_LEN,
                self@ == old(self)@,
                self.wf(),
                row@ == row_at(self@, y as int),
                forall|k: int| 0 <= k < n ==> #[trigger] gs@[k]@.len() > 0,
                i <= n,
                acc as int <= 4 * views_of(gs@).take(i as int).flatten().len(),
                ci == views_of(gs@).take(i as int).flatten().len(),
                del_at_rec(grapheme_split(row@), i as int, acc as int, ci as int, col as int)
                    == del_at_span(row@, col as int),
            decreases n - i,
        {
            proof {
                lemma_flatten_take_step(views_of(gs@), i as int);
                lemma_flatten_take_len(views_of(gs@), i as int + 1);
                assert(views_of(gs@)[i as int] == gs@[i as int]@);
            }
            let w = Self::gw_at(acc, gs[i].as_str());
            let gl = gs[i].as_str().unicode_len();
            if acc <= col && col < acc + w {
                proof {
                    assert(del_at_rec(
                        grapheme_split(row@), i as int, acc as int, ci as int, col as int,
                    ) == Some((ci as int, ci as int + gs@[i as int]@.len())));
                    lemma_line_props(self@, y as int);
                }
                let a = rope_line_to_char(&self.rope, y);
                rope_remove(&mut self.rope, a + ci, a + ci + gl);
                return;
            }
            acc = acc + w;
            ci = ci + gl;
            i += 1;
        }
    }

    /// Joins row `y` onto the previous row, removing the newline between
    /// them; returns the previous row's original display width.
    pub fn merge_up(&mut self, y: usize) -> (r: usize)
        requires
            old(self).wf(),
        ensures
            final(self).wf(),
            ({
                let s = old(self)@;
                if y == 0 || y as nat >= line_count_of(s) {
                    r == 0 && final(self)@ == s
                } else {
                    r as int == line_width_of(line_at(s, y as int - 1))
                        && final(self)@ == remove_text_range(
                            s, line_start(s, y as int) - 1, line_start(s, y as int),
                        )
                }
            }),
    {
        let lc = self.line_count();
        if y == 0 || y >= lc {
            return 0;
        }
        let new_x = self.line_width(y - 1);
        proof {
            lemma_line_props(self@, y as int);
            lemma_line_props(self@, y as int - 1);
        }
        let start = rope_line_to_char(&self.rope, y);
        rope_remove(&mut self.rope, start - 1, start);
        new_x
    }

    /// Empties row `y`, keeping its line break.
    pub fn clear_line(&mut self, y: usize)
        requires
            old(self).wf(),
        ensures
            final(self).wf(),
            y as nat >= line_count_of(old(self)@) ==> final(self)@ == old(self)@,
            (y as nat) < line_count_of(old(self)@) ==> final(self)@ == remove_text_range(
                old(self)@, line_start(old(self)@, y as int), line_end(old(self)@, y as int),
            ),
    {
        let lc = self.line_count();
        if y >= lc {
            return;
        }
        proof {
            lemma_line_props(self@, y as int);
        }
        let start = rope_line_to_char(&self.rope, y);
        let row = self.line_string(y);
        let n = row.as_str().unicode_len();
        if n > 0 {
            rope_remove(&mut self.rope, start, start + n);
        } else {
            proof {
                assert(remove_text_range(
                    self@, line_start(self@, y as int), line_end(self@, y as int),
                ) =~= self@);
            }
        }
    }

    /// Removes the chars in `[start_char, end_char)`; a no-op when the range
    /// is empty or out of bounds.
    pub fn remove_char_range(&mut self, start_char: usize, end_char: usize)
        requires
            old(self).wf(),
        ensures
            final(self).wf(),
            (start_char < end_char && end_char as nat <= old(self)@.len()) ==> final(self)@
                == remove_text_range(old(self)@, start_char as int, end_char as int),
            !(start_char < end_char && end_char as nat <= old(self)@.len()) ==> final(self)@
                == old(self)@,
    {
        let n = self.char_len();
        if start_char < end_char && end_char <= n {
            rope_remove(&mut self.rope, start_char, end_char);
        }
    }

    /// The text in `[start_char, end_char)`, the bounds clamped to the
    /// document.
    pub fn string_from_char_range(&self, start_char: usize, end_char: usize) -> (r: String)
        ensures
            ({
                let n = self@.len() as int;
                let e = if end_char as int <= n { end_char as int } else { n };
                let a = if start_char as int <= e { start_char as int } else { e };
                r@ == self@.subrange(a, e)
            }),
    {
        let n = self.char_len();
        let e = if end_char <= n { end_char } else { n };
        let a = if start_char <= e { start_char } else { e };
        rope_slice_string(&self.rope, a, e)
    }

    /// Column of the start of the next word on the line; the original
    /// column when no further word exists on this line.
    pub fn next_word_start(&self, col: usize, y: usize) -> (r: usize)
        requires
            self.wf(),
        ensures
            r as int == next_word_start_spec(row_at(self@, y as int), col as int),
            r <= 4 * MAX_TEXT_LEN || r == col,
    {
        let row = self.line_string(y);
        let ci = Self::col_chars_in_line(row.as_str(), col);
        let ws = word_segments_of(row.as_str());
        let n = ws.len();
        let ghost ci0 = col_to_chars_spec(row@, col as int);
        let mut p: usize = 0;
        let mut cur_end: Option<usize> = None;
        let mut i: usize = 0;
        let mut target: usize = 0;
        let mut found: bool = false;
        while i < n && !found
            invariant
                n == ws@.len(),
                views_of(ws@) == word_split(row@),
                views_of(ws@).flatten() == row@,
                row@.len() <= MAX_TEXT_LEN,
                ci as int == ci0,
                i <= n,
                p == views_of(ws@).take(i as int).flatten().len(),
                (match cur_end {
                    Some(e) => e as int <= p as int,
                    None => true,
                }),
                !found ==> nws_rec(
                    word_split(row@), i as int, p as int,
                    ci0,
                    (match cur_end { Some(e) => Some(e as int), None => None::<int> }),
                ) == nws_rec(word_split(row@), 0, 0, ci0, None::<int>),
                found ==> Some(target as int) == nws_rec(
                    word_split(row@), 0, 0, ci0, None::<int>,
                ),
            decreases n as int - i as int + (if found { 0int } else { 1int }),
        {
            proof {
                lemma_flatten_take_step(views_of(ws@), i as int);
                lemma_flatten_take_len(views_of(ws@), i as int + 1);
                assert(views_of(ws@)[i as int] == ws@[i as int]@);
            }
            let gl = ws[i].as_str().unicode_len();
            let end = p + gl;
            let wseg = str_is_word_seg(ws[i].as_str());
            let ghost ce = (match cur_end { Some(e) => Some(e as int), None => None::<int> });
            if cur_end.is_none() && p <= ci && ci < end {
                proof {
                    assert(nws_rec(word_split(row@), i as int, p as int, ci0, ce)
                        == nws_rec(
                            word_split(row@), i as int + 1, end as int, ci0,
                            Some(end as int),
                        ));
                }
                cur_end = Some(end);
            } else {
                let hit = match cur_end {
                    Some(e) => p >= ci && p >= e && wseg,
                    None => p >= ci && wseg,
                };
                if hit {
                    proof {
                        assert(nws_rec(
                            word_split(row@), i as int, p as int, ci0, ce,
                        ) == Some(p as int));
                    }
                    target = p;
                    found = true;
                } else {
                    proof {
                        assert(nws_rec(
                            word_split(row@), i as int, p as int, ci0, ce,
                        ) == nws_rec(
                            word_split(row@), i as int + 1, end as int, ci0, ce,
                        ));
                    }
                }
            }
            if !found {
                p = end;
                i += 1;
            }
        }
        if found {
            Self::chars_col_in_line(row.as_str(), target)
        } else {
            proof {
                assert(nws_rec(
                    word_split(row@), i as int, p as int, ci0,
                    (match cur_end { Some(e) => Some(e as int), None => None::<int> }),
                ) is None);
            }
            col
        }
    }

    /// Column of the start of the previous word on the line; the original
    /// column when no word starts before it on this line.
    pub fn prev_word_start(&self, col: usize, y: usize) -> (r: usize)
        requires
            self.wf(),
        ensures
            r as int == prev_word_start_spec(row_at(self@, y as int), col as int),
            r <= 4 * MAX_TEXT_LEN || r == col,
    {
        let row = self.line_string(y);
        let ci = Self::col_chars_in_line(row.as_str(), col);
        let ws = word_segments_of(row.as_str());
        let n = ws.len();
        let ghost ci0 = col_to_chars_spec(row@, col as int);
        let mut p: usize = 0;
        let mut best: Option<usize> = None;
        let mut i: usize = 0;
        while i < n && p < ci
            invariant
                n == ws@.len(),
                views_of(ws@) == word_split(row@),
                views_of(ws@).flatten() == row@,
                row@.len() <= MAX_TEXT_LEN,
                ci as int == ci0,
                ci <= row@.len(),
                i <= n,
                p == views_of(ws@).take(i as int).flatten().len(),
                (match best {
                    Some(b) => b <= p,
                    None => true,
                }),
                pws_rec(word_split(row@), i as int, p as int, ci0,
                    (match best { Some(b) => Some(b as int), None => None::<int> }))
                    == pws_rec(word_split(row@), 0, 0, ci0, None::<int>),
            decreases n - i,
        {
            proof {
                lemma_flatten_take_step(views_of(ws@), i as int);
                lemma_flatten_take_len(views_of(ws@), i as int + 1);
                assert(views_of(ws@)[i as int] == ws@[i as int]@);
            }
            let gl = ws[i].as_str().unicode_len();
            let wseg = str_is_word_seg(ws[i].as_str());
            proof {
                assert(pws_rec(word_split(row@), i as int, p as int, ci0,
                    (match best { Some(b) => Some(b as int), None => None::<int> }))
                    == pws_rec(
                        word_split(row@), i as int + 1, p as int + gl as int, ci0,
                        (if seg_is_word(ws@[i as int]@) { Some(p as int) } else {
                            (match best { Some(b) => Some(b as int), None => None::<int> })
                        }),
                    ));
            }
            if wseg {
                best = Some(p);
            }
            p = p + gl;
            i += 1;
        }
        proof {
            assert(pws_rec(word_split(row@), i as int, p as int, ci0,
                (match best { Some(b) => Some(b as int), None => None::<int> }))
                == (match best { Some(b) => Some(b as int), None => None::<int> }));
        }
        match best {
            Some(b) => Self::chars_col_in_line(row.as_str(), b),
            None => col,
        }
    }

    /// Column just past the end of the word under or after the cursor; the
    /// original column when there is none on this line.
    pub fn end_of_word(&self, col: usize, y: usize) -> (r: usize)
        requires
            self.wf(),
        ensures
            r as int == end_of_word_spec(row_at(self@, y as int), col as int),
            r <= 4 * MAX_TEXT_LEN || r == col,
    {
        let row = self.line_string(y);
        let ci = Self::col_chars_in_line(row.as_str(), col);
        let ws = word_segments_of(row.as_str());
        let n = ws.len();
        let ghost ci0 = col_to_chars_spec(row@, col as int);
        let mut p: usize = 0;
        let mut i: usize = 0;
        let mut target: usize = 0;
        let mut found: bool = false;
        while i < n && !found
            invariant
                n == ws@.len(),
                views_of(ws@) == word_split(row@),
                views_of(ws@).flatten() == row@,
                row@.len() <= MAX_TEXT_LEN,
                ci as int == ci0,
                i <= n,
                p == views_of(ws@).take(i as int).flatten().len(),
                !found ==> eow_rec(word_split(row@), i as int, p as int, ci0)
                    == eow_rec(word_split(row@), 0, 0, ci0),
                found ==> Some(target as int) == eow_rec(word_split(row@), 0, 0, ci0),
            decreases n as int - i as int + (if found { 0int } else { 1int }),
        {
            proof {
                lemma_flatten_take_step(views_of(ws@), i as int);
                lemma_flatten_take_len(views_of(ws@), i as int + 1);
                assert(views_of(ws@)[i as int] == ws@[i as int]@);
            }
            let gl = ws[i].as_str().unicode_len();
            let end = p + gl;
            let wseg = str_is_word_seg(ws[i].as_str());
            if wseg && p <= ci && ci < end {
                proof {
                    assert(eow_rec(word_split(row@), i as int, p as int, ci0)
                        == Some(end as int));
                }
                target = end;
                found = true;
            } else if p >= ci && wseg {
                proof {
                    assert(eow_rec(word_split(row@), i as int, p as int, ci0)
                        == Some(end as int));
                }
                target = end;
                found = true;
            } else {
                proof {
                    assert(eow_rec(word_split(row@), i as int, p as int, ci0)
                        == eow_rec(
                            word_split(row@), i as int + 1, end as int, ci0,
                        ));
                }
                p = end;
                i += 1;
            }
        }
        if found {
            Self::chars_col_in_line(row.as_str(), target)
        } else {
            proof {
                assert(eow_rec(word_split(row@), i as int, p as int, ci0) is None);
            }
            col
        }
    }

    /// Column of the first word on row `y`, if it has one.
    pub fn first_word_start(&self, y: usize) -> (r: Option<usize>)
        requires
            self.wf(),
        ensures
            ({
                let line = row_at(self@, y as int);
                match first_word_start_chars(line) {
                    Some(t) => r matches Some(c) && c as int == chars_to_col_spec(line, t)
                        && c <= 4 * MAX_TEXT_LEN,
                    None => r is None,
                }
            }),
    {
        let row = self.line_string(y);
        let ws = word_segments_of(row.as_str());
        let n = ws.len();
        let mut p: usize = 0;
        let mut i: usize = 0;
        while i < n
            invariant
                n == ws@.len(),
                views_of(ws@) == word_split(row@),
                views_of(ws@).flatten() == row@,
                row@.len() <= MAX_TEXT_LEN,
                row@ == row_at(self@, y as int),
                i <= n,
                p == views_of(ws@).take(i as int).flatten().len(),
                fws_rec(word_split(row@), i as int, p as int)
                    == first_word_start_chars(row@),
            decreases n - i,
        {
            proof {
                lemma_flatten_take_step(views_of(ws@), i as int);
                lemma_flatten_take_len(views_of(ws@), i as int + 1);
                assert(views_of(ws@)[i as int] == ws@[i as int]@);
            }
            let gl = ws[i].as_str().unicode_len();
            if str_is_word_seg(ws[i].as_str()) {
                return Some(Self::chars_col_in_line(row.as_str(), p));
            }
            p = p + gl;
            i += 1;
        }
        None
    }

    /// Column of the last word on row `y`, if it has one.
    pub fn last_word_start(&self, y: usize) -> (r: Option<usize>)
        requires
            self.wf(),
        ensures
            ({
                let line = row_at(self@, y as int);
                match last_word_start_chars(line) {
                    Some(t) => r matches Some(c) && c as int == chars_to_col_spec(line, t)
                        && c <= 4 * MAX_TEXT_LEN,
                    None => r is None,
                }
            }),
    {
        let row = self.line_string(y);
        let ws = word_segments_of(row.as_str());
        let n = ws.len();
        let mut p: usize = 0;
        let mut best: Option<usize> = None;
        let mut i: usize = 0;
        while i < n
            invariant
                n == ws@.len(),
                views_of(ws@) == word_split(row@),
                views_of(ws@).flatten() == row@,
                row@.len() <= MAX_TEXT_LEN,
                row@ == row_at(self@, y as int),
                i <= n,
                p == views_of(ws@).take(i as int).flatten().len(),
                (match best {
                    Some(b) => b <= p,
                    None => true,
                }),
                lws_rec(
                    word_split(row@), i as int, p as int,
                    (match best { Some(b) => Some(b as int), None => None::<int> }),
                ) == last_word_start_chars(row@),
            decreases n - i,
        {
            proof {
                lemma_flatten_take_step(views_of(ws@), i as int);
                lemma_flatten_take_len(views_of(ws@), i as int + 1);
                assert(views_of(ws@)[i as int] == ws@[i as int]@);
            }
            let gl = ws[i].as_str().unicode_len();
            if str_is_word_seg(ws[i].as_str()) {
                best = Some(p);
            }
            p = p + gl;
            i += 1;
        }
        match best {
            Some(b) => Some(Self::chars_col_in_line(row.as_str(), b)),
            None => None,
        }
    }

    /// Column just past the first word on row `y`, if it has one.
    pub fn first_word_end(&self, y: usize) -> (r: Option<usize>)
        requires
            self.wf(),
        ensures
            ({
                let line = row_at(self@, y as int);
                match first_word_end_chars(line) {
                    Some(t) => r matches Some(c) && c as int == chars_to_col_spec(line, t)
                        && c <= 4 * MAX_TEXT_LEN,
                    None => r is None,
                }
            }),
    {
        let row = self.line_string(y);
        let ws = word_segments_of(row.as_str());
        let n = ws.len();
        let mut p: usize = 0;
        let mut i: usize = 0;
        while i < n
            invariant
                n == ws@.len(),
                views_of(ws@) == word_split(row@),
                views_of(ws@).flatten() == row@,
                row@.len() <= MAX_TEXT_LEN,
                row@ == row_at(self@, y as int),
                i <= n,
                p == views_of(ws@).take(i as int).flatten().len(),
                fwe_rec(word_split(row@), i as int, p as int)
                    == first_word_end_chars(row@),
            decreases n - i,
        {
            proof {
                lemma_flatten_take_step(views_of(ws@), i as int);
                lemma_flatten_take_len(views_of(ws@), i as int + 1);
                assert(views_of(ws@)[i as int] == ws@[i as int]@);
            }
            let gl = ws[i].as_str().unicode_len();
            if str_is_word_seg(ws[i].as_str()) {
                return Some(Self::chars_col_in_line(row.as_str(), p + gl));
            }
            p = p + gl;
            i += 1;
        }
        None
    }
}

} // verus!
