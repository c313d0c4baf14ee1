//! ANSI escape scanning, display-width measurement and line splitting.

use vstd::prelude::*;
use crate::chars::{split_chars, split_spec, views};
use crate::error::LayoutError;

verus! {

/// The terminal display width that `unicode-width` assigns to a character
/// (`None` for control characters).
pub uninterp spec fn unicode_width(c: char) -> Option<usize>;

/// Display width of one character (`UnicodeWidthChar::width` of unicode-width).
#[verifier::external_body]
pub(crate) fn char_width(c: char) -> (r: Option<usize>)
    ensures
        r == unicode_width(c),
        c < '\u{20}' ==> r is None,
        '\u{20}' <= c < '\u{7f}' ==> r == Some(1usize),
        '\u{7f}' <= c < '\u{a0}' ==> r is None,
        '\u{a0}' <= c ==> (r is Some && r.unwrap() <= 3),
{
    unicode_width::UnicodeWidthChar::width(c)
}

/// Width of a character as the layout counts it: control characters count as zero.
pub open spec fn cell_width(c: char) -> usize {
    match unicode_width(c) {
        Some(w) => w,
        None => 0,
    }
}

/// The escape character that starts every ANSI sequence.
pub open spec fn esc() -> char {
    '\u{1b}'
}

/// End (exclusive) of a CSI sequence whose parameters start at `j`: just past the first
/// final byte in `@`..=`~`.
pub open spec fn csi_end(s: Seq<char>, j: int) -> Option<int>
    decreases s.len() - j,
{
    if j < 0 || j >= s.len() {
        None
    } else if '@' <= s[j] <= '~' {
        Some(j + 1)
    } else {
        csi_end(s, j + 1)
    }
}

/// End (exclusive) of an OSC sequence whose payload starts at `j`: just past the first BEL,
/// or just past the first ESC `\` string terminator.
pub open spec fn osc_end(s: Seq<char>, j: int) -> Option<int>
    decreases s.len() - j,
{
    if j < 0 || j >= s.len() {
        None
    } else if s[j] == '\u{7}' {
        Some(j + 1)
    } else if s[j] == esc() && j + 1 < s.len() && s[j + 1] == '\\' {
        Some(j + 2)
    } else {
        osc_end(s, j + 1)
    }
}

/// End (exclusive) of the ANSI sequence that follows an ESC, where `i` is the index just
/// after the ESC.
pub open spec fn escape_end(s: Seq<char>, i: int) -> Result<int, LayoutError> {
    if i >= s.len() {
        Err(LayoutError::TruncatedEscape)
    } else if s[i] == '[' {
        match csi_end(s, i + 1) {
            Some(e) => Ok(e),
            None => Err(LayoutError::TruncatedCsi),
        }
    } else if s[i] == ']' {
        match osc_end(s, i + 1) {
            Some(e) => Ok(e),
            None => Err(LayoutError::TruncatedOsc),
        }
    } else {
        Ok(i + 1)
    }
}

proof fn lemma_csi_end_bounds(s: Seq<char>, j: int)
    requires
        0 <= j,
    ensures
        csi_end(s, j) matches Some(e) ==> j < e <= s.len(),
    decreases s.len() - j,
{
    if 0 <= j < s.len() && !('@' <= s[j] <= '~') {
        lemma_csi_end_bounds(s, j + 1);
    }
}

proof fn lemma_osc_end_bounds(s: Seq<char>, j: int)
    requires
        0 <= j,
    ensures
        osc_end(s, j) matches Some(e) ==> j < e <= s.len(),
    decreases s.len() - j,
{
    if 0 <= j < s.len() && s[j] != '\u{7}' && !(s[j] == esc() && j + 1 < s.len() && s[j + 1] == '\\') {
        lemma_osc_end_bounds(s, j + 1);
    }
}

/// Bounds of a successfully scanned escape sequence.
pub proof fn lemma_escape_end_bounds(s: Seq<char>, i: int)
    requires
        0 <= i,
    ensures
        escape_end(s, i) matches Ok(e) ==> i < e <= s.len(),
{
    lemma_csi_end_bounds(s, i + 1);
    lemma_osc_end_bounds(s, i + 1);
}

/// Scans the ANSI sequence that follows an ESC at `i - 1` and returns the index just past it.
pub fn consume_ansi(s: &[char], i: usize) -> (r: Result<usize, LayoutError>)
    requires
        i <= s@.len(),
    ensures
        match r {
            Ok(e) => escape_end(s@, i as int) == Ok::<int, LayoutError>(e as int),
            Err(err) => escape_end(s@, i as int) == Err::<int, LayoutError>(err),
        },
{
    proof {
        lemma_escape_end_bounds(s@, i as int);
    }
    if i >= s.len() {
        return Err(LayoutError::TruncatedEscape);
    }
    let kind = s[i];
    if kind == '[' {
        let mut j = i + 1;
        while j < s.len()
            invariant
                i < j <= s@.len(),
                s@[i as int] == '[',
                csi_end(s@, i + 1) == csi_end(s@, j as int),
            decreases s@.len() - j,
        {
            let c = s[j];
            if '@' <= c && c <= '~' {
                proof {
                    assert(csi_end(s@, j as int) == Some(j + 1));
                }
                return Ok(j + 1);
            }
            j += 1;
        }
        Err(LayoutError::TruncatedCsi)
    } else if kind == ']' {
        let mut j = i + 1;
        while j < s.len()
            invariant
                i < j <= s@.len(),
                s@[i as int] == ']',
                osc_end(s@, i + 1) == osc_end(s@, j as int),
            decreases s@.len() - j,
        {
            let c = s[j];
            if c == '\u{7}' {
                proof {
                    assert(osc_end(s@, j as int) == Some(j + 1));
                }
                return Ok(j + 1);
            }
            if c == '\u{1b}' && j + 1 < s.len() && s[j + 1] == '\\' {
                proof {
                    assert(osc_end(s@, j as int) == Some(j + 2));
                }
                return Ok(j + 2);
            }
            j += 1;
        }
        Err(LayoutError::TruncatedOsc)
    } else {
        Ok(i + 1)
    }
}

/// Saturating addition of widths.
pub open spec fn sat_add(a: usize, b: usize) -> usize {
    if a + b > usize::MAX { usize::MAX } else { (a + b) as usize }
}

/// Visible width of `s` from index `i`: the sum of character widths outside ANSI
/// sequences. A malformed sequence hides the rest of the text.
pub open spec fn visible_width_from(s: Seq<char>, i: int) -> nat
    decreases s.len() - i,
{
    if i < 0 || i >= s.len() {
        0
    } else if s[i] == esc() {
        match escape_end(s, i + 1) {
            Ok(e) => if i < e <= s.len() { visible_width_from(s, e) } else { 0 },
            Err(_) => 0,
        }
    } else {
        cell_width(s[i]) as nat + visible_width_from(s, i + 1)
    }
}

/// Display width of a line, saturated at `usize::MAX`.
pub open spec fn visible_width_spec(s: Seq<char>) -> usize {
    if visible_width_from(s, 0) > usize::MAX { usize::MAX } else { visible_width_from(s, 0) as usize }
}

/// Display width of a line, ignoring ANSI escape sequences.
pub fn visible_width(s: &[char]) -> (r: usize)
    ensures
        r == visible_width_spec(s@),
{
    let mut width: usize = 0;
    let mut i: usize = 0;
    let ghost total = visible_width_from(s@, 0);
    let ghost mut prefix: nat = 0;
    while i < s.len()
        invariant
            i <= s@.len(),
            total == visible_width_from(s@, 0),
            prefix + visible_width_from(s@, i as int) == total,
            width == (if prefix > usize::MAX { usize::MAX as nat } else { prefix }),
        decreases s@.len() - i,
    {
        let c = s[i];
        if c == '\u{1b}' {
            proof {
                lemma_escape_end_bounds(s@, i + 1);
            }
            match consume_ansi(s, i + 1) {
                Ok(e) => {
                    i = e;
                },
                Err(_) => {
                    i = s.len();
                },
            }
        } else {
            let w = match char_width(c) {
                Some(w) => w,
                None => 0,
            };
            proof {
                prefix = prefix + w as nat;
            }
            width = width.saturating_add(w);
            i += 1;
        }
    }
    width
}


/// The lines of a text node: text holding a tab or carriage return is rejected, and the
/// rest splits at each line feed.
pub open spec fn text_lines_spec(s: Seq<char>) -> Result<Seq<Seq<char>>, LayoutError> {
    if s.contains('\r') || s.contains('\t') {
        Err(LayoutError::TabOrCarriageReturn)
    } else {
        Ok(split_spec(s, '\n'))
    }
}

/// Splits template text into lines, rejecting tabs and carriage returns.
pub fn split_text_lines(text: &[char]) -> (r: Result<Vec<Vec<char>>, LayoutError>)
    ensures
        match r {
            Ok(lines) => text_lines_spec(text@) == Ok::<Seq<Seq<char>>, LayoutError>(views(lines@)),
            Err(e) => text_lines_spec(text@) == Err::<Seq<Seq<char>>, LayoutError>(e),
        },
{
    let mut i: usize = 0;
    while i < text.len()
        invariant
            i <= text@.len(),
            forall|j: int| 0 <= j < i ==> text@[j] != '\r' && text@[j] != '\t',
        decreases text@.len() - i,
    {
        if text[i] == '\r' || text[i] == '\t' {
            proof {
                assert(text@.contains(text@[i as int]));
            }
            return Err(LayoutError::TabOrCarriageReturn);
        }
        i += 1;
    }
    Ok(split_chars(text, '\n'))
}

/// Whether `s` holds no ESC character.
pub open spec fn no_escape(s: Seq<char>) -> bool {
    forall|k: int| 0 <= k < s.len() ==> #[trigger] s[k] != esc()
}

/// Whether `q` is one complete CSI escape sequence (such as an SGR style `ESC [ 3 1 m`):
/// ESC, `[`, parameter and intermediate bytes, and one final byte in `@`..=`~`.
pub open spec fn is_csi_sequence(q: Seq<char>) -> bool {
    &&& q.len() >= 3
    &&& q[0] == esc()
    &&& q[1] == '['
    &&& forall|k: int| 2 <= k < q.len() - 1 ==> !('@' <= #[trigger] q[k] <= '~')
    &&& '@' <= q.last() <= '~'
}

/// The summed display width of the characters of `s`.
pub open spec fn chars_width(s: Seq<char>) -> nat
    decreases s.len(),
{
    if s.len() == 0 {
        0
    } else {
        cell_width(s[0]) as nat + chars_width(s.drop_first())
    }
}

proof fn lemma_chars_width_concat(a: Seq<char>, b: Seq<char>)
    ensures
        chars_width(a + b) == chars_width(a) + chars_width(b),
    decreases a.len(),
{
    if a.len() == 0 {
        assert(a + b =~= b);
    } else {
        assert((a + b).drop_first() =~= a.drop_first() + b);
        lemma_chars_width_concat(a.drop_first(), b);
    }
}

proof fn lemma_plain_width(s: Seq<char>, i: int)
    requires
        0 <= i <= s.len(),
        forall|k: int| i <= k < s.len() ==> #[trigger] s[k] != esc(),
    ensures
        visible_width_from(s, i) == chars_width(s.subrange(i, s.len() as int)),
    decreases s.len() - i,
{
    if i < s.len() {
        lemma_plain_width(s, i + 1);
        assert(s.subrange(i, s.len() as int).drop_first() =~= s.subrange(i + 1, s.len() as int));
    } else {
        assert(s.subrange(i, s.len() as int) =~= Seq::<char>::empty());
    }
}

proof fn lemma_csi_end_at(s: Seq<char>, j: int, e: int)
    requires
        0 <= j < e <= s.len(),
        forall|k: int| j <= k < e - 1 ==> !('@' <= #[trigger] s[k] <= '~'),
        '@' <= s[e - 1] <= '~',
    ensures
        csi_end(s, j) == Some(e),
    decreases e - j,
{
    if j < e - 1 {
        lemma_csi_end_at(s, j + 1, e);
    }
}

proof fn lemma_width_around_csi(a: Seq<char>, q: Seq<char>, b: Seq<char>, i: int)
    requires
        0 <= i <= a.len(),
        no_escape(a),
        no_escape(b),
        is_csi_sequence(q),
    ensures
        visible_width_from(a + q + b, i) == chars_width(a.subrange(i, a.len() as int)) + chars_width(b),
    decreases a.len() - i,
{
    let s = a + q + b;
    if i < a.len() {
        assert(s[i] == a[i]);
        lemma_width_around_csi(a, q, b, i + 1);
        assert(a.subrange(i, a.len() as int).drop_first() =~= a.subrange(i + 1, a.len() as int));
    } else {
        let n = a.len() as int;
        let e = n + q.len();
        assert(s[n] == q[0]);
        assert(s[n + 1] == q[1]);
        assert forall|k: int| n + 2 <= k < e - 1 implies !('@' <= #[trigger] s[k] <= '~') by {
            assert(s[k] == q[k - n]);
        }
        assert(s[e - 1] == q[q.len() - 1]);
        lemma_csi_end_at(s, n + 2, e);
        assert forall|k: int| e <= k < s.len() implies #[trigger] s[k] != esc() by {
            assert(s[k] == b[k - e]);
        }
        lemma_plain_width(s, e);
        assert(s.subrange(e, s.len() as int) =~= b);
        assert(a.subrange(n, n) =~= Seq::<char>::empty());
    }
}

/// Law: an escape sequence takes no width. Inserting one complete CSI sequence (an SGR
/// style, a cursor command) into text without escapes leaves its visible width unchanged,
/// and that width is the summed width of its characters.
pub proof fn lemma_escape_takes_no_width(a: Seq<char>, q: Seq<char>, b: Seq<char>)
    requires
        no_escape(a),
        no_escape(b),
        is_csi_sequence(q),
    ensures
        visible_width_from(a + q + b, 0) == visible_width_from(a + b, 0),
        visible_width_from(a + b, 0) == chars_width(a) + chars_width(b),
        visible_width_spec(a + q + b) == visible_width_spec(a + b),
{
    lemma_width_around_csi(a, q, b, 0);
    assert(a.subrange(0, a.len() as int) =~= a);
    let s = a + b;
    assert forall|k: int| 0 <= k < s.len() implies #[trigger] s[k] != esc() by {
        if k < a.len() {
            assert(s[k] == a[k]);
        } else {
            assert(s[k] == b[k - a.len()]);
        }
    }
    lemma_plain_width(s, 0);
    assert(s.subrange(0, s.len() as int) =~= s);
    lemma_chars_width_concat(a, b);
}

} // verus!
