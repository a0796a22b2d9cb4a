use vstd::prelude::*;
use unicode_segmentation::UnicodeSegmentation;
use unicode_width::UnicodeWidthChar;
use unicode_width::UnicodeWidthStr;

verus! {

/// The extended grapheme clusters of a character sequence, in order.
pub uninterp spec fn grapheme_split(s: Seq<char>) -> Seq<Seq<char>>;

/// The word-boundary segments of a character sequence, in order.
pub uninterp spec fn word_split(s: Seq<char>) -> Seq<Seq<char>>;

/// The terminal display width of a character sequence.
pub uninterp spec fn str_display_width(s: Seq<char>) -> nat;

/// The terminal display width of one character; `None` for control characters.
pub uninterp spec fn char_display_width(c: char) -> Option<usize>;

/// Whether a character is alphanumeric under Unicode rules.
pub uninterp spec fn unicode_alnum(c: char) -> bool;

pub open spec fn views_of(v: Seq<String>) -> Seq<Seq<char>> {
    v.map_values(|g: String| g@)
}

/// Relies on unicode_segmentation's `graphemes(s, true)`: splits a string
/// into extended grapheme clusters; their concatenation is the input and
/// each cluster is non-empty.
#[verifier::external_body]
pub fn graphemes_of(s: &str) -> (v: Vec<String>)
    ensures
        views_of(v@) == grapheme_split(s@),
        views_of(v@).flatten() == s@,
        forall|k: int| 0 <= k < v@.len() ==> #[trigger] v@[k]@.len() > 0,
{
    UnicodeSegmentation::graphemes(s, true).map(|g| g.to_string()).collect()
}

/// Relies on unicode_segmentation's `split_word_bounds`: splits a string at
/// word boundaries; the segments concatenate back to the input and each is
/// non-empty.
#[verifier::external_body]
pub fn word_segments_of(s: &str) -> (v: Vec<String>)
    ensures
        views_of(v@) == word_split(s@),
        views_of(v@).flatten() == s@,
        forall|k: int| 0 <= k < v@.len() ==> #[trigger] v@[k]@.len() > 0,
{
    UnicodeSegmentation::split_word_bounds(s).map(|g| g.to_string()).collect()
}

/// Relies on unicode_width's `UnicodeWidthStr::width`: by its width rules a
/// single character contributes at most 3 columns, and ligature sequences
/// only ever narrow a string, so the total is at most 3 per character; the
/// empty string has width 0.
#[verifier::external_body]
pub fn display_width_of(s: &str) -> (w: usize)
    ensures
        w as nat == str_display_width(s@),
        w <= 3 * s@.len(),
        s@.len() == 0 ==> w == 0,
{
    UnicodeWidthStr::width(s)
}

/// Relies on unicode_width's `UnicodeWidthChar::width`: `None` marks a
/// control character; any other character is at most 3 columns wide.
#[verifier::external_body]
pub fn width_of_char(c: char) -> (w: Option<usize>)
    ensures
        w == char_display_width(c),
        w matches Some(x) ==> x <= 3,
{
    UnicodeWidthChar::width(c)
}

/// Relies on std's `char::is_alphanumeric` (the Unicode alphabetic and
/// numeric categories, which vstd leaves unspecified).
#[verifier::external_body]
pub fn char_is_alnum(c: char) -> (r: bool)
    ensures
        r == unicode_alnum(c),
{
    c.is_alphanumeric()
}

/// Relies on std's `str::replace` with a `char` pattern and an empty
/// replacement: it removes every occurrence of that character.
#[verifier::external_body]
pub fn strip_crs(s: &str) -> (r: String)
    ensures
        r@ == s@.filter(|c: char| c != '\r'),
{
    s.replace('\r', "")
}

/// Relies on std's `String::push`: appends one character.
#[verifier::external_body]
pub fn push_char(s: &mut String, c: char)
    ensures
        final(s)@ == old(s)@.push(c),
{
    s.push(c)
}

/// A word character for the motions: alphanumeric or underscore.
pub open spec fn is_word_char(c: char) -> bool {
    unicode_alnum(c) || c == '_'
}

/// A segment counts as a word when it holds at least one word character.
pub open spec fn seg_is_word(g: Seq<char>) -> bool {
    exists|k: int| 0 <= k < g.len() && is_word_char(g[k])
}

/// Whether the segment holds at least one word character.
pub fn str_is_word_seg(g: &str) -> (r: bool)
    ensures
        r == seg_is_word(g@),
{
    let n = g.unicode_len();
    let mut k: usize = 0;
    while k < n
        invariant
            n == g@.len(),
            k <= n,
            forall|j: int| 0 <= j < k ==> !is_word_char(g@[j]),
        decreases n - k,
    {
        let c = g.get_char(k);
        if char_is_alnum(c) || c == '_' {
            assert(is_word_char(g@[k as int]));
            return true;
        }
        k += 1;
    }
    false
}

/// Character-wise string equality.
pub fn str_eq(a: &str, b: &str) -> (r: bool)
    ensures
        r == (a@ == b@),
{
    let n = a.unicode_len();
    let m = b.unicode_len();
    if n != m {
        return false;
    }
    let mut k: usize = 0;
    while k < n
        invariant
            n == a@.len(),
            n == b@.len(),
            k <= n,
            forall|j: int| 0 <= j < k ==> a@[j] == b@[j],
        decreases n - k,
    {
        if a.get_char(k) != b.get_char(k) {
            return false;
        }
        k += 1;
    }
    proof {
        assert(a@ =~= b@);
    }
    true
}

/// Whether `a` begins with `p`, character-wise.
pub fn str_starts_with(a: &str, p: &str) -> (r: bool)
    ensures
        r == (a@.len() >= p@.len() && a@.subrange(0, p@.len() as int) == p@),
{
    let n = a.unicode_len();
    let m = p.unicode_len();
    if m > n {
        return false;
    }
    let mut k: usize = 0;
    while k < m
        invariant
            n == a@.len(),
            m == p@.len(),
            m <= n,
            k <= m,
            forall|j: int| 0 <= j < k ==> a@[j] == p@[j],
        decreases m - k,
    {
        if a.get_char(k) != p.get_char(k) {
            proof {
                assert(a@.subrange(0, p@.len() as int)[k as int] != p@[k as int]);
            }
            return false;
        }
        k += 1;
    }
    proof {
        assert(a@.subrange(0, p@.len() as int) =~= p@);
    }
    true
}

/// Number of UTF-8 bytes a character occupies, from its code point range.
pub open spec fn utf8_len(c: char) -> int {
    if (c as u32) < 0x80 {
        1
    } else if (c as u32) < 0x800 {
        2
    } else if (c as u32) < 0x10000 {
        3
    } else {
        4
    }
}

pub fn char_utf8_len(c: char) -> (n: usize)
    ensures
        n == utf8_len(c),
{
    let u = c as u32;
    if u < 0x80 {
        1
    } else if u < 0x800 {
        2
    } else if u < 0x10000 {
        3
    } else {
        4
    }
}

/// Total UTF-8 byte length of the first `k` characters.
pub open spec fn utf8_len_upto(s: Seq<char>, k: int) -> int
    decreases k
{
    if k <= 0 {
        0
    } else {
        utf8_len_upto(s, k - 1) + utf8_len(s[k - 1])
    }
}

pub open spec fn utf8_len_of(s: Seq<char>) -> int {
    utf8_len_upto(s, s.len() as int)
}

pub proof fn lemma_utf8_len_upto_bounds(s: Seq<char>, k: int)
    requires
        0 <= k <= s.len(),
    ensures
        k <= utf8_len_upto(s, k) <= 4 * k,
    decreases k,
{
    if k > 0 {
        lemma_utf8_len_upto_bounds(s, k - 1);
    }
}

/// UTF-8 byte length of a whole string, counted character by character.
pub fn str_utf8_len(s: &str) -> (n: usize)
    requires
        s@.len() <= crate::textmodel::MAX_TEXT_LEN,
    ensures
        n == utf8_len_of(s@),
{
    let m = s.unicode_len();
    let mut n: usize = 0;
    let mut k: usize = 0;
    while k < m
        invariant
            m == s@.len(),
            m <= crate::textmodel::MAX_TEXT_LEN,
            k <= m,
            n == utf8_len_upto(s@, k as int),
            n <= 4 * k,
        decreases m - k,
    {
        let c = s.get_char(k);
        n = n + char_utf8_len(c);
        k += 1;
    }
    n
}

/// A prefix of the segment list never flattens to more than the whole.
pub proof fn lemma_flatten_take_len(gs: Seq<Seq<char>>, i: int)
    requires
        0 <= i <= gs.len(),
    ensures
        gs.take(i).flatten().len() <= gs.flatten().len(),
    decreases gs.len() - i,
{
    if i == gs.len() {
        assert(gs.take(i) =~= gs);
    } else {
        lemma_flatten_take_len(gs, i + 1);
        assert(gs.take(i + 1) =~= gs.take(i).push(gs[i]));
        gs.take(i).lemma_flatten_push(gs[i]);
    }
}

/// Flattening one more segment appends exactly that segment.
pub proof fn lemma_flatten_take_step(gs: Seq<Seq<char>>, i: int)
    requires
        0 <= i < gs.len(),
    ensures
        gs.take(i + 1).flatten() == gs.take(i).flatten() + gs[i],
{
    assert(gs.take(i + 1) =~= gs.take(i).push(gs[i]));
    gs.take(i).lemma_flatten_push(gs[i]);
}

} // verus!
