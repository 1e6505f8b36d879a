//! Scanning a format string into literal runs and placeholders.
//!
//! A format string is cut, left to right, into maximal runs of text without
//! braces and into groups `{ .. }` whose inside is ASCII whitespace only.
//! Anything else is refused with the offset at which it was found.

use std::ops::Range;
use vstd::prelude::*;
use vstd::string::StringSliceAdditionalSpecFns;
use vstd::utf8::*;

use crate::syntax::{Span, StrLit};
use crate::text::{lemma_boundary_after_ascii, substr};

verus! {

/// The byte `{`.
pub const OPEN: u8 = 0x7b;

/// The byte `}`.
pub const CLOSE: u8 = 0x7d;

/// One segment of a format string.
#[derive(Debug, PartialEq)]
pub enum FmtSpec<'s> {
    /// A run of text without braces, copied to the output as it is.
    Lit { span: Range<usize>, val: &'s str },
    /// A placeholder group, braces included, that an argument fills.
    Arg { span: Range<usize> },
}

/// The model of a segment: its interval, and for a literal run its bytes.
pub enum FmtSpecView {
    Lit { span: Span, val: Seq<u8> },
    Arg { span: Span },
}

impl FmtSpecView {
    /// The interval of the source that the segment covers.
    pub open spec fn span(self) -> Span {
        match self {
            FmtSpecView::Lit { span, .. } => span,
            FmtSpecView::Arg { span } => span,
        }
    }
}

impl<'s> View for FmtSpec<'s> {
    type V = FmtSpecView;

    open spec fn view(&self) -> FmtSpecView {
        match *self {
            FmtSpec::Lit { span, val } => FmtSpecView::Lit {
                span: crate::syntax::span_of(span),
                val: val.spec_bytes(),
            },
            FmtSpec::Arg { span } => FmtSpecView::Arg { span: crate::syntax::span_of(span) },
        }
    }
}

impl<'s> DeepView for FmtSpec<'s> {
    type V = FmtSpecView;

    open spec fn deep_view(&self) -> FmtSpecView {
        self@
    }
}

/// Whether a byte is one of the two braces.
pub open spec fn is_brace(b: u8) -> bool {
    b == OPEN || b == CLOSE
}

/// Whether a byte is ASCII whitespace: space, tab, line feed, form feed or
/// carriage return.
pub open spec fn is_blank(b: u8) -> bool {
    b == 0x20 || b == 0x09 || b == 0x0a || b == 0x0c || b == 0x0d
}

/// The first position at or after `from` that holds a brace, or the length of
/// the text if there is none.
pub open spec fn plain_end(text: Seq<u8>, from: int) -> int
    decreases text.len() - from,
{
    if from < 0 || from >= text.len() || is_brace(text[from]) {
        from
    } else {
        plain_end(text, from + 1)
    }
}

/// The first position in `[from, to)` that does not hold ASCII whitespace, or
/// `to` if there is none.
pub open spec fn blank_end(text: Seq<u8>, from: int, to: int) -> int
    decreases to - from,
{
    if from >= to || !is_blank(text[from]) {
        from
    } else {
        blank_end(text, from + 1, to)
    }
}

/// A segment put in front of the outcome of scanning what follows it.
pub open spec fn and_then_scan(
    head: Seq<FmtSpecView>,
    tail: Result<Seq<FmtSpecView>, int>,
) -> Result<Seq<FmtSpecView>, int> {
    match tail {
        Ok(segments) => Ok(head + segments),
        Err(offset) => Err(offset),
    }
}

/// The outcome of scanning `text` from position `pos` on, where the first byte
/// of the text stands at offset `base` of the source.
pub open spec fn scan_from(text: Seq<u8>, base: int, pos: int) -> Result<Seq<FmtSpecView>, int>
    decreases text.len() - pos,
    via scan_from_decreases
{
    if pos < 0 || pos >= text.len() {
        Ok(Seq::empty())
    } else if !is_brace(text[pos]) {
        let end = plain_end(text, pos);
        let lit = FmtSpecView::Lit {
            span: Span { start: base + pos, end: base + end },
            val: text.subrange(pos, end),
        };
        and_then_scan(seq![lit], scan_from(text, base, end))
    } else if text[pos] == OPEN {
        let close = plain_end(text, pos + 1);
        if close < text.len() && text[close] == CLOSE {
            let inside = blank_end(text, pos + 1, close);
            if inside < close {
                Err(base + inside)
            } else {
                let arg = FmtSpecView::Arg {
                    span: Span { start: base + pos, end: base + close + 1 },
                };
                and_then_scan(seq![arg], scan_from(text, base, close + 1))
            }
        } else {
            Err(base + pos)
        }
    } else {
        Err(base + pos)
    }
}

#[via_fn]
proof fn scan_from_decreases(text: Seq<u8>, base: int, pos: int) {
    if 0 <= pos < text.len() {
        lemma_plain_end(text, pos);
        lemma_plain_end(text, pos + 1);
    }
}

/// The outcome of scanning a whole format string whose first byte stands at
/// offset `base`: its segments in order, or the offset of what was refused.
pub open spec fn scan(text: Seq<u8>, base: int) -> Result<Seq<FmtSpecView>, int> {
    scan_from(text, base, 0)
}

/// `plain_end` stops at the first brace and nowhere before.
pub proof fn lemma_plain_end(text: Seq<u8>, from: int)
    requires
        0 <= from <= text.len(),
    ensures
        from <= plain_end(text, from) <= text.len(),
        forall|i: int| from <= i < plain_end(text, from) ==> !is_brace(#[trigger] text[i]),
        plain_end(text, from) < text.len() ==> is_brace(text[plain_end(text, from)]),
        from < text.len() && !is_brace(text[from]) ==> from < plain_end(text, from),
    decreases text.len() - from,
{
    if from < text.len() && !is_brace(text[from]) {
        lemma_plain_end(text, from + 1);
    }
}

/// `blank_end` stops at the first byte that is not whitespace and nowhere
/// before.
pub proof fn lemma_blank_end(text: Seq<u8>, from: int, to: int)
    requires
        0 <= from <= to <= text.len(),
    ensures
        from <= blank_end(text, from, to) <= to,
        forall|i: int| from <= i < blank_end(text, from, to) ==> is_blank(#[trigger] text[i]),
        blank_end(text, from, to) < to ==> !is_blank(text[blank_end(text, from, to)]),
    decreases to - from,
{
    if from < to && is_blank(text[from]) {
        lemma_blank_end(text, from + 1, to);
    }
}

fn is_brace_byte(b: u8) -> (r: bool)
    ensures
        r == is_brace(b),
{
    b == OPEN || b == CLOSE
}

fn is_blank_byte(b: u8) -> (r: bool)
    ensures
        r == is_blank(b),
{
    b == 0x20 || b == 0x09 || b == 0x0a || b == 0x0c || b == 0x0d
}

/// Finds the first brace at or after `from`.
fn find_brace(bytes: &[u8], from: usize) -> (end: usize)
    requires
        from <= bytes@.len(),
    ensures
        end == plain_end(bytes@, from as int),
        from <= end <= bytes@.len(),
{
    let mut i: usize = from;
    while i < bytes.len() && !is_brace_byte(bytes[i])
        invariant
            from <= i <= bytes@.len(),
            plain_end(bytes@, from as int) == plain_end(bytes@, i as int),
        decreases bytes@.len() - i,
    {
        i += 1;
    }
    i
}

/// Finds the first byte in `[from, to)` that is not ASCII whitespace.
fn find_nonblank(bytes: &[u8], from: usize, to: usize) -> (end: usize)
    requires
        from <= to <= bytes@.len(),
    ensures
        end == blank_end(bytes@, from as int, to as int),
        from <= end <= to,
{
    let mut i: usize = from;
    while i < to && is_blank_byte(bytes[i])
        invariant
            from <= i <= to <= bytes@.len(),
            blank_end(bytes@, from as int, to as int) == blank_end(bytes@, i as int, to as int),
        decreases to - i,
    {
        i += 1;
    }
    i
}

/// Scans the format string of a string literal into its segments.
///
/// The text of the literal starts one byte after the literal's own start, past
/// the opening quote, and every span that is returned counts from there. On
/// success the segments are those of [`scan`]; on failure the offset is the
/// one that [`scan`] gives.
pub fn extract_fmt<'s>(input: &StrLit<'s>) -> (res: Result<Vec<FmtSpec<'s>>, usize>)
    requires
        input.span.start + 1 + input.val.spec_bytes().len() <= usize::MAX,
    ensures
        match res {
            Ok(specs) => scan(input.val.spec_bytes(), input.span.start + 1) == Ok::<
                Seq<FmtSpecView>,
                int,
            >(specs.deep_view()),
            Err(offset) => scan(input.val.spec_bytes(), input.span.start + 1) == Err::<
                Seq<FmtSpecView>,
                int,
            >(offset as int),
        },
{
    scan_fmt(input.val, input.span.start + 1)
}

/// Scans a format string whose first byte stands at offset `base` of the
/// source.
///
/// On success the segments are those of [`scan`], with spans that count from
/// `base`; on failure the offset is the one that [`scan`] gives.
pub fn scan_fmt<'s>(text: &'s str, base: usize) -> (res: Result<Vec<FmtSpec<'s>>, usize>)
    requires
        base + text.spec_bytes().len() <= usize::MAX,
    ensures
        match res {
            Ok(specs) => scan(text.spec_bytes(), base as int) == Ok::<Seq<FmtSpecView>, int>(
                specs.deep_view(),
            ),
            Err(offset) => scan(text.spec_bytes(), base as int) == Err::<Seq<FmtSpecView>, int>(
                offset as int,
            ),
        },
{
    let bytes = text.as_bytes();
    let mut specs: Vec<FmtSpec<'s>> = Vec::new();
    let mut pos: usize = 0;
    proof {
        encode_utf8_valid_utf8(text@);
        is_char_boundary_start_end_of_seq(bytes@);
        assert(specs.deep_view() =~= Seq::<FmtSpecView>::empty());
    }
    while pos < bytes.len()
        invariant
            bytes@ == text.spec_bytes(),
            valid_utf8(bytes@),
            pos <= bytes@.len(),
            base + bytes@.len() <= usize::MAX,
            is_char_boundary(bytes@, pos as int),
            scan(bytes@, base as int) == and_then_scan(
                specs.deep_view(),
                scan_from(bytes@, base as int, pos as int),
            ),
        decreases bytes@.len() - pos,
    {
        let ghost before = specs.deep_view();
        let b: u8 = bytes[pos];
        if b == CLOSE {
            return Err(base + pos);
        }
        if b == OPEN {
            let close: usize = find_brace(bytes, pos + 1);
            if close >= bytes.len() || bytes[close] != CLOSE {
                return Err(base + pos);
            }
            let inside: usize = find_nonblank(bytes, pos + 1, close);
            if inside < close {
                return Err(base + inside);
            }
            specs.push(FmtSpec::Arg { span: (base + pos)..(base + close + 1) });
            proof {
                lemma_boundary_after_ascii(bytes@, close as int);
                let arg = FmtSpecView::Arg {
                    span: Span { start: base + pos, end: base + close + 1 },
                };
                assert(specs.deep_view() =~= before.push(arg));
                lemma_and_then_scan_push(
                    before,
                    arg,
                    scan_from(bytes@, base as int, close + 1),
                );
            }
            pos = close + 1;
        } else {
            let end: usize = find_brace(bytes, pos);
            proof {
                lemma_plain_end(bytes@, pos as int);
                if end < bytes@.len() {
                    lemma_boundary_after_ascii(bytes@, end as int);
                } else {
                    is_char_boundary_start_end_of_seq(bytes@);
                }
            }
            let val = substr(text, pos, end);
            specs.push(FmtSpec::Lit { span: (base + pos)..(base + end), val });
            proof {
                let lit = FmtSpecView::Lit {
                    span: Span { start: base + pos, end: base + end },
                    val: bytes@.subrange(pos as int, end as int),
                };
                assert(specs.deep_view() =~= before.push(lit));
                lemma_and_then_scan_push(before, lit, scan_from(bytes@, base as int, end as int));
            }
            pos = end;
        }
    }
    proof {
        assert(specs.deep_view() + Seq::<FmtSpecView>::empty() =~= specs.deep_view());
    }
    Ok(specs)
}

/// Putting `head`, then one more segment, in front of an outcome is putting
/// `head` with that segment at its end in front of it.
proof fn lemma_and_then_scan_push(
    head: Seq<FmtSpecView>,
    next: FmtSpecView,
    tail: Result<Seq<FmtSpecView>, int>,
)
    ensures
        and_then_scan(head, and_then_scan(seq![next], tail)) == and_then_scan(
            head.push(next),
            tail,
        ),
{
    if let Ok(segments) = tail {
        assert(head + (seq![next] + segments) =~= head.push(next) + segments);
    }
}

} // verus!
