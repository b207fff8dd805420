//! Turning segments into text pieces for display, withheld pieces drawn with a
//! chosen character.

use crate::classify::{lossy_text, utf8_lossy};
use crate::segment::{ranges_valid, segment, segments_view, tiling, Segment, SegmentError, SegmentView};
use std::ops::Range;
use vstd::prelude::*;
use vstd::string::StrSliceExecFns;

verus! {

/// The character that marks withheld text in a transcript shown as one string.
pub const REDACTED_CHAR: char = '\u{2588}';

/// Which way a transcript went.
#[derive(Debug, Clone, Copy, PartialEq, Eq, Structural)]
pub enum Direction {
    /// From the client to the server.
    Send,
    /// From the server to the client.
    Received,
}

impl Direction {
    /// The word shown for the direction.
    pub fn label(&self) -> (r: String)
        ensures
            r@ == (match self {
                Direction::Send => "send"@,
                Direction::Received => "received"@,
            }),
    {
        match self {
            Direction::Send => "send".to_string(),
            Direction::Received => "received".to_string(),
        }
    }
}

/// A piece of displayed text, marked when it stands for withheld bytes.
#[derive(Debug, Clone, PartialEq, Eq)]
pub struct TextPiece {
    pub text: String,
    pub redacted: bool,
}

/// Relies on `String::push`: appends one character.
#[verifier::external_body]
fn push_char(s: &mut String, c: char)
    ensures
        final(s)@ == old(s)@.push(c),
{
    s.push(c)
}

/// `n` copies of `c`.
pub open spec fn repeated(c: char, n: nat) -> Seq<char> {
    Seq::new(n, |_i: int| c)
}

/// The text drawn for `size` withheld bytes: the redaction character once per
/// byte.
pub fn get_redacted_string(redacted_char: char, size: usize) -> (r: String)
    ensures
        r@ == repeated(redacted_char, size as nat),
{
    let mut s = String::new();
    let mut i: usize = 0;
    while i < size
        invariant
            i <= size,
            s@ == repeated(redacted_char, i as nat),
        decreases size - i,
    {
        push_char(&mut s, redacted_char);
        i = i + 1;
        assert(s@ == repeated(redacted_char, i as nat));
    }
    s
}

/// The text piece drawn for one segment.
pub open spec fn piece_of(s: SegmentView, redacted_char: char) -> (Seq<char>, bool) {
    match s {
        SegmentView::Disclosed(b) => (utf8_lossy(b), false),
        SegmentView::Redacted(n) => (repeated(redacted_char, n), true),
    }
}

/// The text and the mark of one piece.
pub open spec fn piece_view(p: TextPiece) -> (Seq<char>, bool) {
    (p.text@, p.redacted)
}

/// Draws each segment as a text piece: disclosed bytes as text (invalid UTF-8
/// replaced), withheld bytes as the redaction character, once per byte.
pub fn segment_texts(segments: &Vec<Segment>, redacted_char: char) -> (r: Vec<TextPiece>)
    ensures
        r@.len() == segments@.len(),
        forall|i: int|
            0 <= i < r@.len() ==> piece_view(#[trigger] r@[i]) == piece_of(
                segments@[i]@,
                redacted_char,
            ),
{
    let mut out: Vec<TextPiece> = Vec::new();
    let mut i: usize = 0;
    while i < segments.len()
        invariant
            i <= segments@.len(),
            out@.len() == i,
            forall|j: int|
                0 <= j < i ==> piece_view(#[trigger] out@[j]) == piece_of(
                    segments@[j]@,
                    redacted_char,
                ),
        decreases segments.len() - i,
    {
        let piece = match &segments[i] {
            Segment::Disclosed(b) => TextPiece { text: lossy_text(b.as_slice()), redacted: false },
            Segment::Redacted(n) => TextPiece {
                text: get_redacted_string(redacted_char, *n),
                redacted: true,
            },
        };
        out.push(piece);
        i = i + 1;
    }
    out
}

/// The text pieces of a partly disclosed buffer, withheld ranges drawn with
/// `redacted_char`; fails when the ranges are not well formed over it.
pub fn redactions_in_red(
    bytes: &Vec<u8>,
    redacted_ranges: &Vec<Range<usize>>,
    redacted_char: char,
) -> (r: Result<Vec<TextPiece>, SegmentError>)
    ensures
        r is Err <==> !ranges_valid(redacted_ranges@, bytes@.len()),
        r matches Ok(v) ==> v@.len() == tiling(bytes@, redacted_ranges@).len() && forall|i: int|
            0 <= i < v@.len() ==> piece_view(#[trigger] v@[i]) == piece_of(
                tiling(bytes@, redacted_ranges@)[i],
                redacted_char,
            ),
{
    match segment(bytes.as_slice(), redacted_ranges) {
        Ok(segments) => {
            let r = segment_texts(&segments, redacted_char);
            assert forall|i: int| 0 <= i < r@.len() implies piece_view(#[trigger] r@[i])
                == piece_of(tiling(bytes@, redacted_ranges@)[i], redacted_char) by {
                assert(segments_view(segments@)[i] == segments@[i]@);
            }
            Ok(r)
        },
        Err(e) => Err(e),
    }
}

/// The texts laid end to end.
pub open spec fn joined(parts: Seq<Seq<char>>) -> Seq<char>
    decreases parts.len(),
{
    if parts.len() == 0 {
        seq![]
    } else {
        joined(parts.drop_last()) + parts.last()
    }
}

/// The texts of some strings.
pub open spec fn texts(v: Seq<String>) -> Seq<Seq<char>> {
    v.map_values(|s: String| s@)
}

/// A non-empty run in which either every character is the redaction character
/// or none is.
pub open spec fn is_run(p: Seq<char>) -> bool {
    p.len() > 0 && forall|i: int|
        0 <= i < p.len() ==> (#[trigger] p[i] == REDACTED_CHAR) == (p[0] == REDACTED_CHAR)
}

/// `parts` are the maximal runs of `text`: they join up to it, each is a run,
/// and neighbouring runs are of different kinds.
pub open spec fn maximal_runs(parts: Seq<Seq<char>>, text: Seq<char>) -> bool {
    &&& joined(parts) == text
    &&& forall|i: int| 0 <= i < parts.len() ==> is_run(#[trigger] parts[i])
    &&& forall|i: int|
        0 < i < parts.len() ==> (#[trigger] parts[i][0] == REDACTED_CHAR) != (parts[i
            - 1][0] == REDACTED_CHAR)
}

/// Splits a text in which withheld characters were drawn as [`REDACTED_CHAR`]
/// into its maximal runs of withheld and of ordinary text, in order.
pub fn split_text(text: String) -> (r: Vec<String>)
    ensures
        maximal_runs(texts(r@), text@),
{
    let n = text.as_str().unicode_len();
    let mut parts: Vec<String> = Vec::new();
    let mut current = String::new();
    let mut current_red = false;
    let mut i: usize = 0;
    while i < n
        invariant
            n == text@.len(),
            i <= n,
            joined(texts(parts@)) + current@ == text@.subrange(0, i as int),
            forall|j: int| 0 <= j < parts@.len() ==> is_run(#[trigger] texts(parts@)[j]),
            forall|j: int|
                0 < j < parts@.len() ==> (#[trigger] texts(parts@)[j][0] == REDACTED_CHAR) != (
                texts(parts@)[j - 1][0] == REDACTED_CHAR),
            i > 0 ==> is_run(current@) && current_red == (current@[0] == REDACTED_CHAR),
            i == 0 ==> current@.len() == 0 && parts@.len() == 0,
            i > 0 && parts@.len() > 0 ==> (current@[0] == REDACTED_CHAR) != (texts(
                parts@,
            ).last()[0] == REDACTED_CHAR),
        decreases n - i,
    {
        let c = text.as_str().get_char(i);
        let ghost old_parts = texts(parts@);
        let ghost old_current = current@;
        let red = c == REDACTED_CHAR;
        if i == 0 || red == current_red {
            push_char(&mut current, c);
            assert(current@ == old_current.push(c));
            assert(is_run(current@));
            assert(joined(texts(parts@)) + current@ == (joined(old_parts) + old_current).push(c));
        } else {
            let done = current;
            parts.push(done);
            current = String::new();
            push_char(&mut current, c);
            assert(texts(parts@) == old_parts.push(old_current));
            assert(texts(parts@).drop_last() == old_parts);
            assert(current@ == seq![c]);
            assert(joined(texts(parts@)) + current@ == (joined(old_parts) + old_current).push(c));
            assert(is_run(current@));
        }
        current_red = red;
        assert(text@.subrange(0, i + 1) == text@.subrange(0, i as int).push(c));
        i = i + 1;
    }
    if n > 0 {
        let ghost old_parts = texts(parts@);
        let ghost old_current = current@;
        parts.push(current);
        assert(texts(parts@) == old_parts.push(old_current));
        assert(texts(parts@).drop_last() == old_parts);
    } else {
        assert(current@ == Seq::<char>::empty());
        assert(joined(texts(parts@)) + current@ == joined(texts(parts@)));
    }
    assert(text@.subrange(0, n as int) == text@);
    parts
}

} // verus!
