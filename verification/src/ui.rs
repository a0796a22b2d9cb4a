use vstd::prelude::*;
use vstd::string::StrSliceExecFns;
use crate::editor::Editor;
use crate::textmodel::MAX_TEXT_LEN;
use crate::unicode::grapheme_split;
use crate::unicode::views_of;
use crate::unicode::graphemes_of;
use crate::unicode::display_width_of;
use crate::unicode::str_display_width;
use crate::unicode::lemma_flatten_take_len;
use crate::unicode::lemma_flatten_take_step;

verus! {

/// Render-side state: the screen size, the scroll offsets, and a cache of
/// what was last drawn (so unchanged rows are not redrawn).
pub struct Ui {
    pub screen_cols: u16,
    pub screen_rows: u16,
    pub off_x: usize,
    pub off_y: usize,
    pub prev_lines: Vec<String>,
    pub prev_status: String,
    pub prev_message: String,
}

/// Length in graphemes of the longest prefix whose plain width fits `max_w`.
pub open spec fn fit_prefix_rec(gs: Seq<Seq<char>>, i: int, acc: int, max_w: int) -> int
    decreases gs.len() - i when 0 <= i <= gs.len()
{
    if i >= gs.len() {
        i
    } else {
        let w0 = str_display_width(gs[i]);
        let w = if w0 == 0 { 1int } else { w0 as int };
        if acc + w > max_w {
            i
        } else {
            fit_prefix_rec(gs, i + 1, acc + w, max_w)
        }
    }
}

impl Ui {
    /// A fresh render state for a terminal of the given size; one row is
    /// reserved for the status bar.
    pub fn new_sized(cols: u16, rows: u16) -> (u: Ui)
        ensures
            u.screen_cols == cols,
            u.screen_rows == (if rows >= 1 { (rows - 1) as u16 } else { 0u16 }),
            u.off_x == 0 && u.off_y == 0,
            u.prev_lines@.len() == u.screen_rows as int,
            u.prev_status@.len() == 0,
            u.prev_message@.len() == 0,
    {
        let sr: u16 = if rows >= 1 { rows - 1 } else { 0 };
        let mut lines: Vec<String> = Vec::new();
        let mut k: u16 = 0;
        while k < sr
            invariant
                k <= sr,
                lines@.len() == k as int,
            decreases sr - k,
        {
            lines.push(String::new());
            k = k + 1;
        }
        Ui {
            screen_cols: cols,
            screen_rows: sr,
            off_x: 0,
            off_y: 0,
            prev_lines: lines,
            prev_status: String::new(),
            prev_message: String::new(),
        }
    }

    /// Adopts a new terminal size and invalidates the draw cache.
    pub fn resize(&mut self, w: u16, h: u16)
        ensures
            final(self).screen_cols == w,
            final(self).screen_rows == (if h >= 1 { (h - 1) as u16 } else { 0u16 }),
            final(self).prev_lines@.len() == final(self).screen_rows as int,
            forall|k: int| 0 <= k < final(self).prev_lines@.len()
                ==> (#[trigger] final(self).prev_lines@[k])@.len() == 0,
            final(self).prev_status@.len() == 0,
            final(self).prev_message@.len() == 0,
            final(self).off_x == old(self).off_x,
            final(self).off_y == old(self).off_y,
    {
        self.screen_cols = w;
        self.screen_rows = if h >= 1 { h - 1 } else { 0 };
        let sr = self.screen_rows;
        let mut lines: Vec<String> = Vec::new();
        let mut k: u16 = 0;
        while k < sr
            invariant
                k <= sr,
                lines@.len() == k as int,
                forall|j: int| 0 <= j < k ==> (#[trigger] lines@[j])@.len() == 0,
            decreases sr - k,
        {
            lines.push(String::new());
            k = k + 1;
        }
        self.prev_lines = lines;
        self.prev_status = String::new();
        self.prev_message = String::new();
    }

    /// Forgets everything previously drawn, forcing a full redraw.
    pub fn clear_cache(&mut self)
        ensures
            final(self).prev_lines@.len() == old(self).prev_lines@.len(),
            forall|k: int| 0 <= k < final(self).prev_lines@.len()
                ==> (#[trigger] final(self).prev_lines@[k])@.len() == 0,
            final(self).prev_status@.len() == 0,
            final(self).prev_message@.len() == 0,
            final(self).screen_cols == old(self).screen_cols,
            final(self).screen_rows == old(self).screen_rows,
            final(self).off_x == old(self).off_x,
            final(self).off_y == old(self).off_y,
    {
        let n = self.prev_lines.len();
        let mut lines: Vec<String> = Vec::new();
        let mut k: usize = 0;
        while k < n
            invariant
                k <= n,
                lines@.len() == k as int,
                forall|j: int| 0 <= j < k ==> (#[trigger] lines@[j])@.len() == 0,
            decreases n - k,
        {
            lines.push(String::new());
            k = k + 1;
        }
        self.prev_lines = lines;
        self.prev_status = String::new();
        self.prev_message = String::new();
    }

    /// Moves the scroll offsets so the cursor lies inside the viewport.
    pub fn scroll(&mut self, ed: &Editor)
        requires
            old(self).screen_rows >= 1,
            old(self).screen_cols >= 1,
        ensures
            final(self).off_y <= (ed.cy as int)
                < final(self).off_y + final(self).screen_rows as int,
            final(self).off_x <= (ed.cx as int)
                < final(self).off_x + final(self).screen_cols as int,
            final(self).screen_cols == old(self).screen_cols,
            final(self).screen_rows == old(self).screen_rows,
            final(self).prev_lines@ == old(self).prev_lines@,
            final(self).prev_status@ == old(self).prev_status@,
            final(self).prev_message@ == old(self).prev_message@,
    {
        if ed.cy < self.off_y {
            self.off_y = ed.cy;
        }
        if ed.cy >= self.off_y && ed.cy - self.off_y >= self.screen_rows as usize {
            self.off_y = ed.cy - (self.screen_rows as usize - 1);
        }
        if ed.cx < self.off_x {
            self.off_x = ed.cx;
        }
        if ed.cx >= self.off_x && ed.cx - self.off_x >= self.screen_cols as usize {
            self.off_x = ed.cx - (self.screen_cols as usize - 1);
        }
    }

    /// The longest grapheme prefix of `s` whose display width (tabs counted
    /// plainly) fits in `max_w` columns.
    pub fn truncate_to_width(s: &str, max_w: usize) -> (r: String)
        requires
            s@.len() <= MAX_TEXT_LEN,
        ensures
            r@ == views_of_take(grapheme_split(s@),
                fit_prefix_rec(grapheme_split(s@), 0, 0, max_w as int)),
    {
        if max_w == 0 {
            proof {
                assert(views_of_take(grapheme_split(s@), 0) =~= Seq::<char>::empty());
            }
            return String::new();
        }
        let gs = graphemes_of(s);
        let n = gs.len();
        let mut out = String::new();
        let mut acc: usize = 0;
        let mut i: usize = 0;
        while i < n
            invariant
                n == gs@.len(),
                views_of(gs@) == grapheme_split(s@),
                views_of(gs@).flatten() == s@,
                s@.len() <= MAX_TEXT_LEN,
                forall|k: int| 0 <= k < n ==> #[trigger] gs@[k]@.len() > 0,
                i <= n,
                acc <= max_w,
                out@ == views_of_take(grapheme_split(s@), i as int),
                fit_prefix_rec(grapheme_split(s@), i as int, acc as int, max_w as int)
                    == fit_prefix_rec(grapheme_split(s@), 0, 0, max_w as int),
            decreases n - i,
        {
            proof {
                lemma_flatten_take_step(views_of(gs@), i as int);
                lemma_flatten_take_len(views_of(gs@), i as int + 1);
                assert(views_of(gs@)[i as int] == gs@[i as int]@);
            }
            let w0 = display_width_of(gs[i].as_str());
            let w: usize = if w0 == 0 { 1 } else { w0 };
            if w > max_w - acc {
                return out;
            }
            out.append(gs[i].as_str());
            proof {
                assert(out@ =~= views_of_take(grapheme_split(s@), i as int + 1));
            }
            acc = acc + w;
            i += 1;
        }
        out
    }
}

/// The first `k` graphemes joined back into one character sequence.
pub open spec fn views_of_take(gs: Seq<Seq<char>>, k: int) -> Seq<char> {
    gs.take(k).flatten()
}

} // verus!
