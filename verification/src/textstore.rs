use vstd::prelude::*;
use ropey::Rope;
use crate::textmodel::line_count_of;
use crate::textmodel::line_start;
use crate::textmodel::insert_text_at;
use crate::textmodel::remove_text_range;

verus! {

#[verifier::external_type_specification]
#[verifier::external_body]
pub struct ExRope(Rope);

/// The characters a rope holds, in document order.
pub uninterp spec fn rope_text(r: Rope) -> Seq<char>;

/// Relies on ropey's `Rope::from_str`: the rope holds exactly the given text.
#[verifier::external_body]
pub fn rope_from_str(s: &str) -> (r: Rope)
    ensures
        rope_text(r) == s@,
{
    Rope::from_str(s)
}

/// Relies on ropey's `Display` impl for `Rope`: writes out the whole text.
#[verifier::external_body]
pub fn rope_to_string(r: &Rope) -> (s: String)
    ensures
        s@ == rope_text(*r),
{
    r.to_string()
}

/// Relies on ropey's `Rope::len_chars`.
#[verifier::external_body]
pub fn rope_len_chars(r: &Rope) -> (n: usize)
    ensures
        n as nat == rope_text(*r).len(),
{
    r.len_chars()
}

/// Relies on ropey's `Rope::len_lines`: one more than the number of line
/// breaks, and with default features disabled only `'\n'` breaks a line.
#[verifier::external_body]
pub fn rope_len_lines(r: &Rope) -> (n: usize)
    ensures
        n as nat == line_count_of(rope_text(*r)),
{
    r.len_lines()
}

/// Relies on ropey's `Rope::line_to_char`: the char index where line `y`
/// starts; `y` may be one past the last line, giving the end of the text.
#[verifier::external_body]
pub fn rope_line_to_char(r: &Rope, y: usize) -> (i: usize)
    requires
        y as nat <= line_count_of(rope_text(*r)),
    ensures
        i as int == if (y as nat) < line_count_of(rope_text(*r)) {
            line_start(rope_text(*r), y as int)
        } else {
            rope_text(*r).len() as int
        },
{
    r.line_to_char(y)
}

/// Relies on ropey's `Rope::insert` at a char index.
#[verifier::external_body]
pub fn rope_insert(r: &mut Rope, i: usize, s: &str)
    requires
        i as nat <= rope_text(*old(r)).len(),
        rope_text(*old(r)).len() + s@.len() <= usize::MAX,
    ensures
        rope_text(*final(r)) == insert_text_at(rope_text(*old(r)), i as int, s@),
{
    r.insert(i, s)
}

/// Relies on ropey's `Rope::remove` over a char range.
#[verifier::external_body]
pub fn rope_remove(r: &mut Rope, a: usize, b: usize)
    requires
        a <= b,
        b as nat <= rope_text(*old(r)).len(),
    ensures
        rope_text(*final(r)) == remove_text_range(rope_text(*old(r)), a as int, b as int),
{
    r.remove(a..b)
}

/// Relies on ropey's `Rope::slice` and the slice's `Display` impl.
#[verifier::external_body]
pub fn rope_slice_string(r: &Rope, a: usize, b: usize) -> (s: String)
    requires
        a <= b,
        b as nat <= rope_text(*r).len(),
    ensures
        s@ == rope_text(*r).subrange(a as int, b as int),
{
    r.slice(a..b).to_string()
}

} // verus!
