use vstd::prelude::*;
use vstd::string::StrSliceExecFns;
use crate::editor::Editor;
use crate::editor::NormalInputResult;
use crate::editor::is_digit_char;
use crate::editor::digits_val;
use crate::editor::parse_digits;
use crate::editor::same_keymap;
use crate::editor::same_ui;
use crate::editor::same_doc;
use crate::editor::same_hist;
use crate::editor::same_clip;
use crate::editor::same_cursor;
use crate::editor::same_mode;
use crate::editor::op_pair_rel;
use crate::editor::counted_rel;
use crate::editor::action_rel;
use crate::editor::is_operator_act;
use crate::editor::change_rows;
use crate::buffer::lemma_width_upto_nonneg;
use crate::keymap::Action;
use crate::keymap::Mode;
use crate::keymap::keymap_has_prefix;
use crate::keymap::keymap_lookup;
use crate::textmodel::lemma_newline_count_le;
use crate::textmodel::line_count_of;
use crate::unicode::push_char;
use crate::unicode::str_eq;

verus! {

/// Length of the run of digits starting at `i`.
pub open spec fn digits_run(s: Seq<char>, i: int) -> int
    decreases s.len() - i when 0 <= i <= s.len()
{
    if i >= s.len() {
        0
    } else if is_digit_char(s[i]) {
        1 + digits_run(s, i + 1)
    } else {
        0
    }
}

/// Length of a leading count: `[1-9][0-9]*`, or 0 when there is none (a
/// leading `0` is the line-start command, not a count).
pub open spec fn count_prefix_len(s: Seq<char>) -> int {
    if s.len() > 0 && '1' <= s[0] && s[0] <= '9' {
        1 + digits_run(s, 1)
    } else {
        0
    }
}

/// The pending-sequence invariant: a non-empty pending string is either a
/// bare count awaiting a command, or its remainder after the count is still
/// a prefix of some bound key sequence.
pub open spec fn pending_viable(p: Seq<char>, m: Seq<(Seq<char>, Action)>) -> bool {
    ||| p.len() == 0
    ||| count_prefix_len(p) == p.len()
    ||| keymap_has_prefix(m, p.subrange(count_prefix_len(p), p.len() as int))
}

/// The two states agree on everything except the pending key text and its
/// waiting flag.
pub open spec fn eq_mod_pending(a: &Editor, b: &Editor) -> bool {
    &&& a.buf == b.buf
    &&& a.filename == b.filename
    &&& a.dirty == b.dirty
    &&& a.cx == b.cx && a.cy == b.cy
    &&& a.status == b.status
    &&& a.quit_times == b.quit_times
    &&& a.mode == b.mode
    &&& a.keymap == b.keymap
    &&& a.op_pending == b.op_pending
    &&& a.clipboard == b.clipboard
    &&& a.clipboard_kind == b.clipboard_kind
    &&& a.visual_anchor == b.visual_anchor
    &&& a.undo_stack == b.undo_stack
    &&& a.redo_stack == b.redo_stack
    &&& a.undo_group_active == b.undo_group_active
    &&& a.count_group_active == b.count_group_active
}

/// As `eq_mod_pending`, with the pending operator also left open.
pub open spec fn eq_mod_pending_op(a: &Editor, b: &Editor) -> bool {
    &&& a.buf == b.buf
    &&& a.filename == b.filename
    &&& a.dirty == b.dirty
    &&& a.cx == b.cx && a.cy == b.cy
    &&& a.status == b.status
    &&& a.quit_times == b.quit_times
    &&& a.mode == b.mode
    &&& a.keymap == b.keymap
    &&& a.clipboard == b.clipboard
    &&& a.clipboard_kind == b.clipboard_kind
    &&& a.visual_anchor == b.visual_anchor
    &&& a.undo_stack == b.undo_stack
    &&& a.redo_stack == b.redo_stack
    &&& a.undo_group_active == b.undo_group_active
    &&& a.count_group_active == b.count_group_active
}

/// The pending string resolves in this very call: it is a usable bare
/// count, or its remainder after the count matches or prefixes a binding.
pub open spec fn resolves_now(p: Seq<char>, m: Seq<(Seq<char>, Action)>) -> bool {
    let cpl = count_prefix_len(p);
    let restp = p.subrange(cpl, p.len() as int);
    &&& (cpl == 0 || digits_val(p.subrange(0, cpl)) <= usize::MAX)
    &&& ((cpl == p.len() && p.len() > 0)
        || (restp.len() > 0
            && (keymap_lookup(m, restp) is Some || keymap_has_prefix(m, restp))))
}

/// The longest-prefix resolution: the largest `i` whose first `i` pending
/// characters split as `[count]key` with `key` bound; yields the consumed
/// length, the action, and the count (1 when absent or past `usize`).
pub open spec fn greedy_split(p: Seq<char>, m: Seq<(Seq<char>, Action)>, i: int)
    -> Option<(int, Action, int)>
    decreases i
{
    if i < 1 {
        None
    } else {
        let cand = p.take(i);
        let cpl = count_prefix_len(cand);
        if cpl < i {
            match keymap_lookup(m, cand.subrange(cpl, i)) {
                Some(a) => Some((
                    i, a,
                    if cpl > 0 && digits_val(cand.subrange(0, cpl)) <= usize::MAX {
                        digits_val(cand.subrange(0, cpl))
                    } else {
                        1int
                    },
                )),
                None => greedy_split(p, m, i - 1),
            }
        } else {
            greedy_split(p, m, i - 1)
        }
    }
}

fn is_ascii_digit_exec(c: char) -> (r: bool)
    ensures
        r == is_digit_char(c),
{
    c >= '0' && c <= '9'
}

/// Splits a leading numeric count off a key sequence: the count's value
/// (`None` when absent or past `usize`) and the index where the remainder
/// starts.
pub fn parse_count_prefix(seq: &str) -> (r: (Option<usize>, usize))
    ensures
        r.1 as int == count_prefix_len(seq@),
        r.1 as int <= seq@.len(),
        count_prefix_len(seq@) == 0 ==> r.0 is None,
        count_prefix_len(seq@) > 0 ==> ({
            let v = digits_val(seq@.subrange(0, count_prefix_len(seq@)));
            &&& (r.0 matches Some(c) ==> c as int == v)
            &&& (v > usize::MAX <==> r.0 is None)
        }),
{
    let n = seq.unicode_len();
    if n == 0 {
        return (None, 0);
    }
    let c0 = seq.get_char(0);
    if !(c0 >= '1' && c0 <= '9') {
        return (None, 0);
    }
    let mut idx: usize = 1;
    while idx < n && is_ascii_digit_exec(seq.get_char(idx))
        invariant
            n == seq@.len(),
            1 <= idx <= n,
            '1' <= seq@[0] && seq@[0] <= '9',
            digits_run(seq@, 1) == idx - 1 + digits_run(seq@, idx as int),
            forall|j: int| 0 <= j < idx ==> is_digit_char(#[trigger] seq@[j]),
        decreases n - idx,
    {
        proof {
            assert(digits_run(seq@, idx as int) == 1 + digits_run(seq@, idx as int + 1));
        }
        idx += 1;
    }
    proof {
        if idx == n {
            assert(digits_run(seq@, n as int) == 0);
        } else {
            assert(digits_run(seq@, idx as int) == 0);
        }
        assert(count_prefix_len(seq@) == idx as int);
    }
    let digits = seq.substring_char(0, idx);
    proof {
        assert(digits@ == seq@.subrange(0, idx as int));
        assert(crate::editor::all_digit_chars(digits@)) by {
            assert(forall|j: int| 0 <= j < idx
                ==> (#[trigger] digits@[j]) == seq@[j]);
        }
    }
    let count = parse_digits(digits);
    (count, idx)
}

impl Editor {
    /// Feeds one normal-mode key.  The pending sequence accumulates counts
    /// and multi-key commands, resolving them against the keymap: an exact
    /// match executes (combining with a pending operator), a strict prefix
    /// waits, and otherwise the longest valid prefix of the whole pending
    /// string runs and the rest is reprocessed; unusable leading characters
    /// are dropped one by one.
    #[verifier::rlimit(100)]
    #[verifier::spinoff_prover]
    pub fn process_normal_char(&mut self, c: char) -> (r: NormalInputResult)
        requires
            old(self).wf(),
            old(self).cursor_bounded(),
        ensures
            final(self).wf(),
            final(self).cursor_bounded(),
            old(self).cursor_ok() ==> final(self).cursor_ok(),
            same_keymap(old(self), final(self)),
            same_ui(old(self), final(self)),
            pending_viable(final(self).pending@, final(self).keymap@),
            r == NormalInputResult::CommandPrompt ==> final(self).pending@.len() == 0,
            ({
                let o = *old(self);
                let f = *final(self);
                let p_all = o.pending@.push(c);
                let cpl = count_prefix_len(p_all);
                let restp = p_all.subrange(cpl, p_all.len() as int);
                let k_ok = cpl == 0 || digits_val(p_all.subrange(0, cpl)) <= usize::MAX;
                let kv = if cpl > 0 { digits_val(p_all.subrange(0, cpl)) } else { 1int };
                &&& (k_ok && cpl == p_all.len() && p_all.len() > 0 ==> (
                    f.pending@ == p_all && f.pending_waiting == true
                        && eq_mod_pending(&f, &o) && r == NormalInputResult::Nothing
                ))
                &&& (k_ok && restp.len() > 0 ==> (match keymap_lookup(o.keymap@, restp) {
                    Some(act) => {
                        &&& (act == Action::CommandPrompt
                            ==> r == NormalInputResult::CommandPrompt
                            && f.pending@.len() == 0 && f.pending_waiting == false
                            && eq_mod_pending(&f, &o))
                        &&& (act == Action::EnterVisual ==> r == NormalInputResult::Nothing
                            && f.pending@.len() == 0 && f.pending_waiting == false
                            && (exists|oa: Editor, fa: Editor|
                                #![trigger eq_mod_pending(&oa, &o), eq_mod_pending(&fa, &f)]
                                eq_mod_pending(&oa, &o) && eq_mod_pending(&fa, &f)
                                    && action_rel(&oa, &fa, act)))
                        &&& (act != Action::CommandPrompt && act != Action::EnterVisual
                            && cpl > 0 && (restp == "gg"@ || restp == "G"@) ==> (
                            f.cy as int == (if kv >= line_count_of(o.buf@) {
                                line_count_of(o.buf@) as int - 1
                            } else if kv == 0 {
                                0int
                            } else {
                                kv - 1
                            })
                            && f.cx == 0 && f.buf@ == o.buf@ && same_hist(&o, &f)
                            && same_clip(&o, &f) && same_mode(&o, &f)
                            && f.op_pending == o.op_pending && f.dirty == o.dirty
                            && f.pending@.len() == 0 && f.pending_waiting == false
                            && r == NormalInputResult::Nothing
                        ))
                        &&& (act != Action::CommandPrompt && act != Action::EnterVisual
                            && !(cpl > 0 && (restp == "gg"@ || restp == "G"@)) ==> (
                            match o.op_pending {
                                Some(opc) => r == NormalInputResult::Nothing
                                    && f.pending@.len() == 0 && f.pending_waiting == false
                                    && (exists|oa: Editor, fa: Editor|
                                        #![trigger eq_mod_pending_op(&oa, &o),
                                            eq_mod_pending(&fa, &f)]
                                        eq_mod_pending_op(&oa, &o)
                                            && oa.op_pending is None
                                            && eq_mod_pending(&fa, &f)
                                            && op_pair_rel(
                                                oa, fa, opc.0, act,
                                                if cpl > 0 { kv } else { opc.1 as int },
                                            )),
                                None => {
                                    &&& (is_operator_act(act) ==> (
                                        f.op_pending == Some((
                                            act,
                                            (if cpl > 0 { kv } else { 1int }) as usize,
                                        ))
                                        && f.buf@ == o.buf@ && same_hist(&o, &f)
                                        && same_clip(&o, &f) && same_cursor(&o, &f)
                                        && same_mode(&o, &f) && f.dirty == o.dirty
                                        && f.pending@.len() == 0
                                        && f.pending_waiting == true
                                        && r == NormalInputResult::Nothing
                                    ))
                                    &&& (!is_operator_act(act)
                                        ==> r == NormalInputResult::Nothing
                                        && f.pending@.len() == 0
                                        && f.pending_waiting == false
                                        && (exists|oa: Editor, fa: Editor|
                                            #![trigger eq_mod_pending(&oa, &o),
                                                eq_mod_pending(&fa, &f)]
                                            eq_mod_pending(&oa, &o)
                                                && eq_mod_pending(&fa, &f)
                                                && counted_rel(
                                                    oa, fa, act,
                                                    if cpl > 0 { kv } else { 1int },
                                                )))
                                },
                            }
                        ))
                    },
                    None => keymap_has_prefix(o.keymap@, restp) ==> (
                        f.pending@ == p_all && f.pending_waiting == true
                            && eq_mod_pending(&f, &o) && r == NormalInputResult::Nothing
                    ),
                }))
            }),
    {
        push_char(&mut self.pending, c);
        let ghost p_all = old(self).pending@.push(c);
        loop
            invariant
                self.wf(),
                self.cursor_bounded(),
                old(self).cursor_ok() ==> self.cursor_ok(),
                same_keymap(old(self), self),
                same_ui(old(self), self),
                p_all == old(self).pending@.push(c),
                resolves_now(p_all, old(self).keymap@) ==> (self.pending@ == p_all
                    && eq_mod_pending(old(self), self)),
            decreases self.pending@.len(),
        {
            let ghost plen0 = self.pending@.len();
            let pn = self.pending.as_str().unicode_len();
            let (count, rest_idx) = parse_count_prefix(self.pending.as_str());
            let ghost rn = resolves_now(p_all, old(self).keymap@);
            proof {
                if rn {
                    assert(self.pending@ == p_all);
                    assert(rest_idx as int == count_prefix_len(p_all));
                }
            }
            if count.is_some() && rest_idx >= pn {
                self.pending_waiting = true;
                proof {
                    assert(count_prefix_len(self.pending@) == self.pending@.len());
                    if rn {
                        assert(eq_mod_pending(self, old(self)));
                        assert(self.pending@ == p_all);
                        assert(self.pending_waiting == true);
                        assert(count_prefix_len(p_all) == p_all.len());
                        assert(p_all.subrange(count_prefix_len(p_all), p_all.len() as int)
                            .len() == 0);
                    }
                }
                return NormalInputResult::Nothing;
            }
            if rest_idx < pn {
                let rest = self.pending.as_str().substring_char(rest_idx, pn).to_owned();
                proof {
                    if rn {
                        assert(rest@ =~= p_all.subrange(
                            count_prefix_len(p_all), p_all.len() as int,
                        ));
                    }
                }
                match self.keymap.get(rest.as_str()) {
                    Some(act) => {
                        if matches!(act, Action::CommandPrompt) {
                            self.pending = String::new();
                            self.pending_waiting = false;
                            return NormalInputResult::CommandPrompt;
                        }
                        if matches!(act, Action::EnterVisual) {
                            let ghost oa = *self;
                            self.apply_action(act);
                            let ghost fa = *self;
                            self.pending = String::new();
                            self.pending_waiting = false;
                            proof {
                                if rn {
                                    assert(eq_mod_pending(&oa, old(self)));
                                    assert(eq_mod_pending(&fa, self));
                                    assert(action_rel(&oa, &fa, act));
                                }
                            }
                            return NormalInputResult::Nothing;
                        }
                        let mut jumped = false;
                        match count {
                            Some(nn) => {
                                if str_eq(rest.as_str(), "gg") || str_eq(rest.as_str(), "G") {
                                    self.goto_line(nn);
                                    jumped = true;
                                    proof {
                                        if rn {
                                            assert(nn as int == digits_val(p_all.subrange(
                                                0, count_prefix_len(p_all),
                                            )));
                                        }
                                    }
                                }
                            },
                            None => {},
                        }
                        if !jumped {
                            let opp = self.op_pending;
                            match opp {
                                Some((op_kind, n0)) => {
                                    self.op_pending = None;
                                    let effective = match count {
                                        Some(v) => v,
                                        None => n0,
                                    };
                                    let ghost oa = *self;
                                    self.run_operator_pair(op_kind, act, effective);
                                    let ghost fa = *self;
                                    self.pending = String::new();
                                    self.pending_waiting = false;
                                    proof {
                                        if rn {
                                            assert(eq_mod_pending_op(&oa, old(self)));
                                            assert(oa.op_pending is None);
                                            assert(op_pair_rel(
                                                oa, fa, op_kind, act, effective as int,
                                            ));
                                            assert(eq_mod_pending(&fa, self));
                                            assert(old(self).op_pending
                                                == Some((op_kind, n0)));
                                            assert(count_prefix_len(p_all) > 0
                                                ==> effective as int == digits_val(
                                                    p_all.subrange(
                                                        0, count_prefix_len(p_all),
                                                    ),
                                                ));
                                            assert(count_prefix_len(p_all) == 0
                                                ==> effective as int == n0 as int);
                                        }
                                    }
                                    return NormalInputResult::Nothing;
                                },
                                None => {
                                    if matches!(
                                        act,
                                        Action::OperatorDelete | Action::OperatorChange
                                            | Action::OperatorYank
                                    ) {
                                        let n1 = match count {
                                            Some(v) => v,
                                            None => 1,
                                        };
                                        self.op_pending = Some((act, n1));
                                        self.pending = String::new();
                                        self.pending_waiting = true;
                                        return NormalInputResult::Nothing;
                                    } else {
                                        let n1 = match count {
                                            Some(v) => v,
                                            None => 1,
                                        };
                                        let ghost oa = *self;
                                        self.apply_action_count(act, n1);
                                        let ghost fa = *self;
                                        self.pending = String::new();
                                        self.pending_waiting = false;
                                        proof {
                                            if rn {
                                                assert(eq_mod_pending(&oa, old(self)));
                                                assert(counted_rel(oa, fa, act, n1 as int));
                                                assert(eq_mod_pending(&fa, self));
                                                assert(count_prefix_len(p_all) > 0
                                                    ==> n1 as int == digits_val(
                                                        p_all.subrange(
                                                            0, count_prefix_len(p_all),
                                                        ),
                                                    ));
                                                assert(count_prefix_len(p_all) == 0
                                                    ==> n1 == 1);
                                            }
                                        }
                                        return NormalInputResult::Nothing;
                                    }
                                },
                            }
                        }
                        self.pending = String::new();
                        self.pending_waiting = false;
                        return NormalInputResult::Nothing;
                    },
                    None => {},
                }
                if self.keymap.has_prefix(rest.as_str()) {
                    self.pending_waiting = true;
                    return NormalInputResult::Nothing;
                }
            }
            // Longest valid prefix of the whole pending string.
            let mut consumed: usize = 0;
            let mut found: Option<(Action, usize)> = None;
            let mut i2 = pn;
            while i2 >= 1 && found.is_none()
                invariant
                    self.wf(),
                    pn == self.pending@.len(),
                    i2 <= pn,
                    found is Some ==> 1 <= consumed <= pn,
                decreases i2 as int + (if found is Some { 0int } else { 1int }),
            {
                let cand = self.pending.as_str().substring_char(0, i2);
                let (cnt2, kidx) = parse_count_prefix(cand);
                if kidx < i2 {
                    let key = cand.substring_char(kidx, i2);
                    match self.keymap.get(key) {
                        Some(a) => {
                            let n2 = match cnt2 {
                                Some(v) => v,
                                None => 1,
                            };
                            found = Some((a, n2));
                            consumed = i2;
                        },
                        None => {
                            i2 -= 1;
                        },
                    }
                } else {
                    i2 -= 1;
                }
            }
            match found {
                Some((act, n2)) => {
                    if matches!(act, Action::CommandPrompt) {
                        self.pending = String::new();
                        self.pending_waiting = false;
                        return NormalInputResult::CommandPrompt;
                    }
                    if matches!(act, Action::EnterVisual) {
                        self.apply_action(act);
                        let rest2 = self.pending.as_str().substring_char(consumed, pn)
                            .to_owned();
                        self.pending = rest2;
                        if self.pending.as_str().unicode_len() == 0 {
                            self.pending_waiting = false;
                            return NormalInputResult::Nothing;
                        }
                        continue;
                    }
                    let cand = self.pending.as_str().substring_char(0, consumed).to_owned();
                    let (cnt3, kidx3) = parse_count_prefix(cand.as_str());
                    let key2 = cand.as_str().substring_char(kidx3, consumed).to_owned();
                    let jumped2 = match cnt3 {
                        Some(nn) => {
                            if str_eq(key2.as_str(), "gg") || str_eq(key2.as_str(), "G") {
                                self.goto_line(nn);
                                true
                            } else {
                                false
                            }
                        },
                        None => false,
                    };
                    if !jumped2 {
                        let taken = self.op_pending;
                        self.op_pending = None;
                        match taken {
                            Some((op_kind, n0)) => {
                                let effective = if n2 >= n0 { n2 } else { n0 };
                                self.run_operator_pair(op_kind, act, effective);
                            },
                            None => {
                                if matches!(
                                    act,
                                    Action::OperatorDelete | Action::OperatorChange
                                        | Action::OperatorYank
                                ) {
                                    self.op_pending = Some((act, n2));
                                } else {
                                    self.apply_action_count(act, n2);
                                }
                            },
                        }
                    }
                    let rest2 = self.pending.as_str().substring_char(consumed, pn).to_owned();
                    self.pending = rest2;
                    if self.pending.as_str().unicode_len() == 0 {
                        self.pending_waiting = false;
                        return NormalInputResult::Nothing;
                    }
                    proof {
                        assert(self.pending@.len() < plen0);
                    }
                    continue;
                },
                None => {},
            }
            // Nothing matched anywhere: drop the first character and retry.
            if pn >= 1 {
                let rest2 = self.pending.as_str().substring_char(1, pn).to_owned();
                self.pending = rest2;
            }
            if self.pending.as_str().unicode_len() == 0 {
                self.pending_waiting = false;
                return NormalInputResult::Nothing;
            }
            proof {
                assert(self.pending@.len() < plen0);
            }
        }
    }

    /// Resolves a pending operator against a freshly resolved action: a
    /// repeated operator works on whole lines, a motion sweeps a range, and
    /// anything else drops the operator and runs `count` times.
    fn run_operator_pair(&mut self, op_kind: Action, act: Action, effective: usize)
        requires
            old(self).wf(),
            old(self).cursor_bounded(),
        ensures
            final(self).wf(),
            final(self).cursor_bounded(),
            old(self).cursor_ok() ==> final(self).cursor_ok(),
            same_keymap(old(self), final(self)),
            same_ui(old(self), final(self)),
            final(self).pending@ == old(self).pending@,
            op_pair_rel(*old(self), *final(self), op_kind, act, effective as int),
    {
        if (matches!(op_kind, Action::OperatorDelete)
            && matches!(act, Action::OperatorDelete))
            || (matches!(op_kind, Action::OperatorDelete) && matches!(act, Action::DeleteLine)) {
            self.apply_action_count(Action::DeleteLine, effective);
            proof {
                assert(op_pair_rel(*old(self), *self, op_kind, act, effective as int));
            }
        } else if matches!(op_kind, Action::OperatorChange)
            && matches!(act, Action::OperatorChange) {
            let m: usize = if effective >= 1 { effective } else { 1 };
            let mut k: usize = 0;
            while k < m
                invariant
                    self.wf(),
                    self.cursor_bounded(),
                    k <= m,
                    m >= 1,
                    same_keymap(old(self), self),
                    same_ui(old(self), self),
                    self.pending@ == old(self).pending@,
                    same_hist(old(self), self),
                    same_clip(old(self), self),
                    self.op_pending == old(self).op_pending,
                    self.visual_anchor == old(self).visual_anchor,
                    self.mode == old(self).mode,
                    k > 0 ==> self.dirty == true,
                    k > 0 ==> self.cx == 0,
                    k == 0 ==> self.dirty == old(self).dirty,
                    change_rows(self.buf@, self.cy as int, (m - k) as int)
                        == change_rows(old(self).buf@, old(self).cy as int, m as int),
                decreases m - k,
            {
                let ghost b0 = self.buf@;
                let ghost y0 = self.cy as int;
                let cy0 = self.cy;
                self.buf.clear_line(cy0);
                self.cx = 0;
                self.dirty = true;
                let lc = self.buf.line_count();
                proof {
                    lemma_newline_count_le(self.buf@, 0);
                    assert(change_rows(b0, y0, (m - k) as int)
                        == change_rows(
                            self.buf@,
                            (if y0 + 1 < line_count_of(self.buf@) { y0 + 1 } else { y0 }),
                            (m - k) as int - 1,
                        ));
                }
                if self.cy + 1 < lc {
                    self.cy = self.cy + 1;
                }
                k += 1;
            }
            proof {
                assert(change_rows(self.buf@, self.cy as int, 0)
                    == (self.buf@, self.cy as int));
            }
            self.mode = Mode::Insert;
            let e1: usize = if effective >= 1 { effective - 1 } else { 0 };
            self.cy = if e1 > self.cy { 0 } else { self.cy - e1 };
            self.clamp_cursor();
            proof {
                assert(op_pair_rel(*old(self), *self, op_kind, act, effective as int));
                lemma_width_upto_nonneg(
                    crate::unicode::grapheme_split(
                        crate::textmodel::line_at(self.buf@, self.cy as int),
                    ),
                    crate::unicode::grapheme_split(
                        crate::textmodel::line_at(self.buf@, self.cy as int),
                    ).len() as int,
                );
            }
        } else if matches!(op_kind, Action::OperatorYank)
            && matches!(act, Action::OperatorYank) {
            let lc = self.buf.line_count();
            let cy0 = self.cy;
            if cy0 < lc {
                let last = if effective >= 1 && effective - 1 <= lc - 1 - cy0 {
                    cy0 + effective - 1
                } else {
                    lc - 1
                };
                if last >= cy0 {
                    self.clipboard = self.rows_joined(cy0, last);
                } else {
                    self.clipboard = String::new();
                }
            } else {
                self.clipboard = String::new();
            }
            proof {
                assert(op_pair_rel(*old(self), *self, op_kind, act, effective as int));
            }
        } else if matches!(
            act,
            Action::MoveWordForward | Action::MoveWordBackward | Action::MoveEndWord
                | Action::LineStart | Action::LineEnd
        ) {
            self.apply_motion(act, effective, Some((op_kind, effective)));
            self.clamp_cursor();
            proof {
                assert(op_pair_rel(*old(self), *self, op_kind, act, effective as int));
            }
        } else {
            self.apply_action_count(act, effective);
            proof {
                assert(op_pair_rel(*old(self), *self, op_kind, act, effective as int));
            }
        }
    }

    /// Fires when the pending-sequence timeout elapses: a bare count is
    /// discarded; otherwise the longest valid prefix runs once (an operator
    /// stays pending), and an unusable sequence is dropped entirely.
    pub fn process_pending_timeout(&mut self) -> (r: NormalInputResult)
        requires
            old(self).wf(),
            old(self).cursor_bounded(),
        ensures
            final(self).wf(),
            final(self).cursor_bounded(),
            old(self).cursor_ok() ==> final(self).cursor_ok(),
            same_keymap(old(self), final(self)),
            same_ui(old(self), final(self)),
            old(self).pending@.len() == 0 ==> *final(self) == *old(self)
                && r == NormalInputResult::Nothing,
            (old(self).pending@.len() > 0
                && count_prefix_len(old(self).pending@) == old(self).pending@.len()
                && digits_val(old(self).pending@) <= usize::MAX) ==> (
                final(self).pending@.len() == 0 && final(self).pending_waiting == false
                && same_doc(old(self), final(self)) && same_hist(old(self), final(self))
                && same_clip(old(self), final(self)) && same_cursor(old(self), final(self))
                && same_mode(old(self), final(self))
                && final(self).op_pending == old(self).op_pending
                && r == NormalInputResult::Nothing
            ),
            ({
                let o = *old(self);
                let f = *final(self);
                let p0 = o.pending@;
                let bare_ok = count_prefix_len(p0) == p0.len()
                    && digits_val(p0) <= usize::MAX;
                (p0.len() > 0 && !bare_ok) ==> (
                    match greedy_split(p0, o.keymap@, p0.len() as int) {
                        Some(res) => {
                            &&& (res.1 == Action::CommandPrompt
                                ==> r == NormalInputResult::CommandPrompt
                                && f.pending@.len() == 0 && f.pending_waiting == false
                                && eq_mod_pending(&f, &o))
                            &&& (is_operator_act(res.1) ==> (
                                f.op_pending == Some((res.1, res.2 as usize))
                                && f.buf@ == o.buf@ && same_hist(&o, &f)
                                && same_clip(&o, &f) && same_cursor(&o, &f)
                                && same_mode(&o, &f) && f.dirty == o.dirty
                                && f.pending@ == p0.subrange(res.0, p0.len() as int)
                                && f.pending_waiting == (f.pending@.len() > 0)
                                && r == NormalInputResult::Nothing
                            ))
                            &&& (res.1 != Action::CommandPrompt && !is_operator_act(res.1)
                                ==> (
                                r == NormalInputResult::Nothing
                                && f.pending@ == p0.subrange(res.0, p0.len() as int)
                                && f.pending_waiting == (f.pending@.len() > 0)
                                && f.op_pending is None
                                && (exists|oa: Editor, fa: Editor|
                                    #![trigger eq_mod_pending(&oa, &o),
                                        eq_mod_pending_op(&fa, &f)]
                                    eq_mod_pending(&oa, &o) && eq_mod_pending_op(&fa, &f)
                                        && counted_rel(oa, fa, res.1, res.2))
                            ))
                        },
                        None => f.pending@.len() == 0 && f.pending_waiting == false
                            && eq_mod_pending(&f, &o) && r == NormalInputResult::Nothing,
                    }
                )
            }),
    {
        let pn = self.pending.as_str().unicode_len();
        if pn == 0 {
            return NormalInputResult::Nothing;
        }
        let (cnt, idx) = parse_count_prefix(self.pending.as_str());
        proof {
            if count_prefix_len(self.pending@) == self.pending@.len() {
                assert(self.pending@.subrange(0, self.pending@.len() as int)
                    =~= self.pending@);
            }
        }
        if cnt.is_some() && idx >= pn {
            self.pending = String::new();
            self.pending_waiting = false;
            return NormalInputResult::Nothing;
        }
        let ghost p0 = old(self).pending@;
        let ghost m0 = old(self).keymap@;
        let mut consumed: usize = 0;
        let mut found: Option<(Action, usize)> = None;
        let mut i2 = pn;
        while i2 >= 1 && found.is_none()
            invariant
                self.wf(),
                pn == self.pending@.len(),
                i2 <= pn,
                p0 == old(self).pending@,
                m0 == old(self).keymap@,
                self.pending@ == old(self).pending@,
                self.keymap == old(self).keymap,
                found is Some ==> 1 <= consumed <= pn,
                found is None ==> greedy_split(p0, m0, i2 as int)
                    == greedy_split(p0, m0, pn as int),
                (match found {
                    Some(p2) => Some((consumed as int, p2.0, p2.1 as int))
                        == greedy_split(p0, m0, pn as int),
                    None => true,
                }),
            decreases i2 as int + (if found is Some { 0int } else { 1int }),
        {
            let cand = self.pending.as_str().substring_char(0, i2);
            proof {
                assert(cand@ =~= p0.take(i2 as int));
            }
            let (cnt2, kidx) = parse_count_prefix(cand);
            if kidx < i2 {
                let key = cand.substring_char(kidx, i2);
                proof {
                    assert(key@ =~= p0.take(i2 as int).subrange(
                        count_prefix_len(p0.take(i2 as int)), i2 as int,
                    ));
                }
                match self.keymap.get(key) {
                    Some(a) => {
                        let n2 = match cnt2 {
                            Some(v) => v,
                            None => 1,
                        };
                        proof {
                            assert(greedy_split(p0, m0, i2 as int)
                                == Some((i2 as int, a, n2 as int)));
                        }
                        found = Some((a, n2));
                        consumed = i2;
                    },
                    None => {
                        proof {
                            assert(greedy_split(p0, m0, i2 as int)
                                == greedy_split(p0, m0, i2 as int - 1));
                        }
                        i2 -= 1;
                    },
                }
            } else {
                proof {
                    assert(greedy_split(p0, m0, i2 as int)
                        == greedy_split(p0, m0, i2 as int - 1));
                }
                i2 -= 1;
            }
        }
        proof {
            if found is None {
                assert(greedy_split(p0, m0, 0) is None);
            }
        }
        match found {
            Some((act, n2)) => {
                if matches!(act, Action::CommandPrompt) {
                    self.pending = String::new();
                    self.pending_waiting = false;
                    proof {
                        assert(eq_mod_pending(self, old(self)));
                    }
                    return NormalInputResult::CommandPrompt;
                }
                if matches!(
                    act,
                    Action::OperatorDelete | Action::OperatorChange | Action::OperatorYank
                ) {
                    self.op_pending = Some((act, n2));
                    let rest2 = self.pending.as_str().substring_char(consumed, pn)
                        .to_owned();
                    self.pending = rest2;
                    if self.pending.as_str().unicode_len() == 0 {
                        self.pending_waiting = false;
                        return NormalInputResult::Nothing;
                    }
                    self.pending_waiting = true;
                    NormalInputResult::Nothing
                } else {
                    let ghost oa = *self;
                    self.apply_action_count(act, n2);
                    let ghost fa = *self;
                    self.op_pending = None;
                    let rest2 = self.pending.as_str().substring_char(consumed, pn)
                        .to_owned();
                    self.pending = rest2;
                    proof {
                        assert(eq_mod_pending(&oa, old(self)));
                        assert(counted_rel(oa, fa, act, n2 as int));
                    }
                    if self.pending.as_str().unicode_len() == 0 {
                        self.pending_waiting = false;
                        proof {
                            assert(eq_mod_pending_op(&fa, self));
                        }
                        return NormalInputResult::Nothing;
                    }
                    self.pending_waiting = true;
                    proof {
                        assert(eq_mod_pending_op(&fa, self));
                    }
                    NormalInputResult::Nothing
                }
            },
            None => {
                self.pending = String::new();
                self.pending_waiting = false;
                proof {
                    assert(eq_mod_pending(self, old(self)));
                }
                NormalInputResult::Nothing
            },
        }
    }
}

} // verus!
