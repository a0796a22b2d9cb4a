use vstd::prelude::*;

verus! {

/// Upper bound on the number of characters a document may hold.  It keeps
/// every display-width and index computation inside `usize` on 32-bit as
/// well as 64-bit targets; operations that would grow the text past it
/// leave the buffer unchanged.
pub const MAX_TEXT_LEN: usize = 0x0FFF_FFFF;

/// Index of the first newline at or after `i`, or `s.len()` when there is none.
pub open spec fn next_newline(s: Seq<char>, i: int) -> int
    decreases s.len() - i when 0 <= i <= s.len()
{
    if i >= s.len() {
        s.len() as int
    } else if s[i] == '\n' {
        i
    } else {
        next_newline(s, i + 1)
    }
}

/// Number of newline characters in `s` at index `i` or later.
pub open spec fn newline_count_from(s: Seq<char>, i: int) -> nat
    decreases s.len() - i when 0 <= i <= s.len()
{
    if i >= s.len() {
        0
    } else {
        (if s[i] == '\n' { 1nat } else { 0nat }) + newline_count_from(s, i + 1)
    }
}

/// A document always has one line more than it has newlines.
pub open spec fn line_count_of(s: Seq<char>) -> nat {
    newline_count_from(s, 0) + 1
}

/// First character index of line `y`: one past the `y`-th newline.
pub open spec fn line_start(s: Seq<char>, y: int) -> int
    decreases y
{
    if y <= 0 {
        0
    } else {
        next_newline(s, line_start(s, y - 1)) + 1
    }
}

/// Index just past the last character of line `y` (its newline, or the end).
pub open spec fn line_end(s: Seq<char>, y: int) -> int {
    next_newline(s, line_start(s, y))
}

/// The characters of line `y`, without the trailing newline.
pub open spec fn line_at(s: Seq<char>, y: int) -> Seq<char> {
    s.subrange(line_start(s, y), line_end(s, y))
}

/// The characters of line `y`, or the empty sequence for an out-of-range row.
pub open spec fn row_at(s: Seq<char>, y: int) -> Seq<char> {
    if 0 <= y < line_count_of(s) {
        line_at(s, y)
    } else {
        Seq::<char>::empty()
    }
}

pub open spec fn insert_text_at(s: Seq<char>, i: int, t: Seq<char>) -> Seq<char> {
    s.subrange(0, i) + t + s.subrange(i, s.len() as int)
}

pub open spec fn remove_text_range(s: Seq<char>, a: int, b: int) -> Seq<char> {
    s.subrange(0, a) + s.subrange(b, s.len() as int)
}

/// The lines `ls[0], .., ls[k-1]` joined with single newlines.
pub open spec fn join_lines_upto(ls: Seq<Seq<char>>, k: int) -> Seq<char>
    decreases k
{
    if k <= 0 {
        Seq::<char>::empty()
    } else if k == 1 {
        ls[0]
    } else {
        join_lines_upto(ls, k - 1).push('\n') + ls[k - 1]
    }
}

pub open spec fn join_lines(ls: Seq<Seq<char>>) -> Seq<char> {
    join_lines_upto(ls, ls.len() as int)
}

pub proof fn lemma_newline_count_le(s: Seq<char>, i: int)
    requires
        0 <= i <= s.len(),
    ensures
        newline_count_from(s, i) <= s.len() - i,
    decreases s.len() - i,
{
    if i < s.len() {
        lemma_newline_count_le(s, i + 1);
    }
}

pub proof fn lemma_next_newline(s: Seq<char>, i: int)
    requires
        0 <= i <= s.len(),
    ensures
        i <= next_newline(s, i) <= s.len(),
        next_newline(s, i) < s.len() ==> s[next_newline(s, i)] == '\n',
        forall|j: int| i <= j < next_newline(s, i) ==> s[j] != '\n',
        newline_count_from(s, i) == newline_count_from(s, next_newline(s, i)),
    decreases s.len() - i,
{
    if i >= s.len() {
    } else if s[i] == '\n' {
    } else {
        lemma_next_newline(s, i + 1);
    }
}

pub proof fn lemma_line_start_count(s: Seq<char>, y: int)
    requires
        0 <= y < line_count_of(s),
    ensures
        0 <= line_start(s, y) <= s.len(),
        newline_count_from(s, line_start(s, y)) == line_count_of(s) - 1 - y,
    decreases y,
{
    if y == 0 {
    } else {
        lemma_line_start_count(s, y - 1);
        let p = line_start(s, y - 1);
        lemma_next_newline(s, p);
        let nn = next_newline(s, p);
        assert(newline_count_from(s, nn) == line_count_of(s) - y);
        if nn >= s.len() {
            assert(newline_count_from(s, nn) == 0);
            assert(false);
        }
        assert(s[nn] == '\n');
        assert(newline_count_from(s, nn) == 1 + newline_count_from(s, nn + 1));
    }
}

/// The basic geometry of line `y`: where it starts and ends, that only its
/// final position (if any) holds a newline, and how it abuts line `y + 1`.
pub proof fn lemma_line_props(s: Seq<char>, y: int)
    requires
        0 <= y < line_count_of(s),
    ensures
        0 <= line_start(s, y) <= line_end(s, y) <= s.len(),
        y < line_count_of(s) - 1 ==> line_end(s, y) < s.len()
            && s[line_end(s, y)] == '\n'
            && line_start(s, y + 1) == line_end(s, y) + 1
            && line_start(s, y + 1) <= s.len(),
        y == line_count_of(s) - 1 ==> line_end(s, y) == s.len(),
        forall|j: int| line_start(s, y) <= j < line_end(s, y) ==> s[j] != '\n',
{
    lemma_line_start_count(s, y);
    let p = line_start(s, y);
    lemma_next_newline(s, p);
    let nn = next_newline(s, p);
    if y < line_count_of(s) - 1 {
        assert(newline_count_from(s, nn) > 0);
        if nn >= s.len() {
            assert(newline_count_from(s, nn) == 0);
            assert(false);
        }
    } else {
        if nn < s.len() {
            assert(s[nn] == '\n');
            assert(newline_count_from(s, nn) == 1 + newline_count_from(s, nn + 1));
            assert(false);
        }
    }
}

/// Inserting text and then removing the same span restores the original
/// document exactly.
pub proof fn lemma_insert_remove_round_trip(s: Seq<char>, i: int, t: Seq<char>)
    requires
        0 <= i <= s.len(),
    ensures
        remove_text_range(insert_text_at(s, i, t), i, i + t.len()) == s,
{
    let ins = insert_text_at(s, i, t);
    assert(remove_text_range(ins, i, i + t.len()) =~= s);
}

} // verus!
