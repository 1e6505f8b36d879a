//! What holds of every scan of a format string.
//!
//! The segments of a format string that scans are the one segmentation that
//! it has; a format string without braces is a single literal run; and a
//! format string that does not scan is refused at an offset within it.

use vstd::prelude::*;
use vstd::utf8::*;

use crate::fmt::{
    blank_end, is_blank, is_brace, lemma_blank_end, lemma_plain_end, plain_end, scan, scan_from,
    FmtSpecView, CLOSE, OPEN,
};
use crate::syntax::{Span, StrLit};

verus! {

/// The bytes of the source that a segment stands for: the bytes of a literal
/// run, and for a placeholder those of the text within its span.
pub open spec fn text_of(segment: FmtSpecView, text: Seq<u8>, base: int) -> Seq<u8> {
    match segment {
        FmtSpecView::Lit { val, .. } => val,
        FmtSpecView::Arg { span } => text.subrange(span.start - base, span.end - base),
    }
}

/// The bytes that each of `segments` stands for, in order.
pub open spec fn texts_of(segments: Seq<FmtSpecView>, text: Seq<u8>, base: int) -> Seq<Seq<u8>> {
    Seq::new(segments.len(), |i: int| text_of(segments[i], text, base))
}

/// Whether `segments` cover the offsets from `from` to `to` without gap or
/// overlap: none is empty, the first starts at `from`, each starts where the
/// one before it ends, and the last ends at `to`.
pub open spec fn tiles(segments: Seq<FmtSpecView>, from: int, to: int) -> bool {
    &&& segments.len() == 0 ==> from == to
    &&& segments.len() > 0 ==> segments.first().span().start == from && segments.last().span().end
        == to
    &&& forall|i: int|
        0 <= i < segments.len() ==> (#[trigger] segments[i]).span().start < segments[i].span().end
    &&& forall|i: int|
        0 <= i < segments.len() - 1 ==> (#[trigger] segments[i]).span().end == segments[i
            + 1].span().start
}

/// Whether a segment has the shape that the scanner accepts at its place in
/// `text`: a literal run holds the bytes of its span and no brace; a
/// placeholder opens and closes with a brace and holds only ASCII whitespace
/// between them.
pub open spec fn well_shaped(segment: FmtSpecView, text: Seq<u8>, base: int) -> bool {
    let first = segment.span().start - base;
    let last = segment.span().end - base - 1;
    &&& 0 <= first <= last < text.len()
    &&& match segment {
        FmtSpecView::Lit { val, .. } => {
            &&& val == text.subrange(first, last + 1)
            &&& forall|k: int| first <= k <= last ==> !is_brace(#[trigger] text[k])
        },
        FmtSpecView::Arg { .. } => {
            &&& first < last
            &&& text[first] == OPEN
            &&& text[last] == CLOSE
            &&& forall|k: int| first < k < last ==> is_blank(#[trigger] text[k])
        },
    }
}

/// Where the segment that starts at `pos` ends, if there is one.
spec fn step_end(text: Seq<u8>, pos: int) -> int {
    if !is_brace(text[pos]) {
        plain_end(text, pos)
    } else {
        plain_end(text, pos + 1) + 1
    }
}

/// One step of a scan that succeeds: the first segment and what follows it.
proof fn lemma_scan_from_step(text: Seq<u8>, base: int, pos: int)
    requires
        0 <= pos < text.len(),
        scan_from(text, base, pos) is Ok,
    ensures
        ({
            let segments = scan_from(text, base, pos)->Ok_0;
            let next = step_end(text, pos);
            let rest = scan_from(text, base, next);
            &&& pos < next <= text.len()
            &&& rest is Ok
            &&& segments.len() == rest->Ok_0.len() + 1
            &&& segments =~= seq![segments[0]] + rest->Ok_0
            &&& segments[0].span() == Span { start: base + pos, end: base + next }
            &&& well_shaped(segments[0], text, base)
            &&& segments[0] is Lit ==> next == text.len() || is_brace(text[next])
            &&& segments[0] is Lit <==> !is_brace(text[pos])
        }),
{
    lemma_plain_end(text, pos);
    lemma_plain_end(text, pos + 1);
    if is_brace(text[pos]) {
        lemma_blank_end(text, pos + 1, plain_end(text, pos + 1));
    }
}

proof fn lemma_scan_from_tiles(text: Seq<u8>, base: int, pos: int)
    requires
        0 <= pos <= text.len(),
        scan_from(text, base, pos) is Ok,
    ensures
        tiles(scan_from(text, base, pos)->Ok_0, base + pos, base + text.len()),
    decreases text.len() - pos,
{
    if pos < text.len() {
        let segments = scan_from(text, base, pos)->Ok_0;
        let next = step_end(text, pos);
        let rest = scan_from(text, base, next)->Ok_0;
        lemma_scan_from_step(text, base, pos);
        lemma_scan_from_tiles(text, base, next);
        if rest.len() > 0 {
            assert(segments.last() == rest.last());
            assert(segments[1] == rest.first());
        }
        assert forall|i: int| 0 <= i < segments.len() implies (#[trigger] segments[i]).span().start
            < segments[i].span().end by {
            if i > 0 {
                assert(segments[i] == rest[i - 1]);
            }
        }
        assert forall|i: int| 0 <= i < segments.len() - 1 implies (#[trigger] segments[
            i
        ]).span().end == segments[i + 1].span().start by {
            assert(segments[i + 1] == rest[i]);
            if i > 0 {
                assert(segments[i] == rest[i - 1]);
            }
        }
    }
}

proof fn lemma_scan_from_shapes(text: Seq<u8>, base: int, pos: int)
    requires
        0 <= pos <= text.len(),
        scan_from(text, base, pos) is Ok,
    ensures
        ({
            let segments = scan_from(text, base, pos)->Ok_0;
            &&& forall|i: int|
                0 <= i < segments.len() ==> well_shaped(#[trigger] segments[i], text, base)
            &&& forall|i: int|
                0 <= i < segments.len() - 1 ==> !((#[trigger] segments[i]) is Lit && segments[i
                    + 1] is Lit)
            &&& segments.len() > 0 && segments[0] is Lit ==> pos < text.len() && !is_brace(
                text[pos],
            )
        }),
    decreases text.len() - pos,
{
    if pos < text.len() {
        let segments = scan_from(text, base, pos)->Ok_0;
        let next = step_end(text, pos);
        let rest = scan_from(text, base, next)->Ok_0;
        lemma_scan_from_step(text, base, pos);
        lemma_scan_from_shapes(text, base, next);
        assert forall|i: int| 0 <= i < segments.len() implies well_shaped(
            #[trigger] segments[i],
            text,
            base,
        ) by {
            if i > 0 {
                assert(segments[i] == rest[i - 1]);
            }
        }
        assert forall|i: int| 0 <= i < segments.len() - 1 implies !((#[trigger] segments[i]) is Lit
            && segments[i + 1] is Lit) by {
            assert(segments[i + 1] == rest[i]);
            if i > 0 {
                assert(segments[i] == rest[i - 1]);
            }
        }
    }
}

proof fn lemma_scan_from_texts(text: Seq<u8>, base: int, pos: int)
    requires
        0 <= pos <= text.len(),
        scan_from(text, base, pos) is Ok,
    ensures
        texts_of(scan_from(text, base, pos)->Ok_0, text, base).flatten() == text.subrange(
            pos,
            text.len() as int,
        ),
    decreases text.len() - pos,
{
    let segments = scan_from(text, base, pos)->Ok_0;
    let texts = texts_of(segments, text, base);
    if pos >= text.len() {
        assert(texts =~= Seq::<Seq<u8>>::empty());
        assert(text.subrange(pos, text.len() as int) =~= Seq::<u8>::empty());
    } else {
        let next = step_end(text, pos);
        let rest = scan_from(text, base, next)->Ok_0;
        lemma_scan_from_step(text, base, pos);
        lemma_scan_from_texts(text, base, next);
        assert(texts.drop_first() =~= texts_of(rest, text, base));
        assert(texts.first() == text.subrange(pos, next));
        assert(text.subrange(pos, next) + text.subrange(next, text.len() as int) =~= text.subrange(
            pos,
            text.len() as int,
        ));
    }
}

/// The segments of a format string that scans cover it without gap or
/// overlap, and the bytes that they stand for, put one after the other, are
/// the format string.
pub proof fn lemma_scan_partitions(text: Seq<u8>, base: int)
    requires
        scan(text, base) is Ok,
    ensures
        tiles(scan(text, base)->Ok_0, base, base + text.len()),
        texts_of(scan(text, base)->Ok_0, text, base).flatten() == text,
{
    lemma_scan_from_tiles(text, base, 0);
    lemma_scan_from_texts(text, base, 0);
    assert(text.subrange(0, text.len() as int) =~= text);
}

/// Whether `segments` are a segmentation of `text`: they cover it without
/// gap or overlap, each is well shaped, and no literal run is followed by
/// another, so that each is as long as it can be.
pub open spec fn segmentation(segments: Seq<FmtSpecView>, text: Seq<u8>, base: int) -> bool {
    &&& tiles(segments, base, base + text.len())
    &&& forall|i: int| 0 <= i < segments.len() ==> well_shaped(#[trigger] segments[i], text, base)
    &&& forall|i: int|
        0 <= i < segments.len() - 1 ==> !((#[trigger] segments[i]) is Lit && segments[i + 1] is Lit)
}

/// The segments of a format string that scans are a segmentation of it, and
/// the span of each is well formed.
pub proof fn lemma_scan_is_segmentation(text: Seq<u8>, base: int)
    requires
        scan(text, base) is Ok,
    ensures
        segmentation(scan(text, base)->Ok_0, text, base),
        forall|i: int|
            0 <= i < scan(text, base)->Ok_0.len() ==> (#[trigger] scan(
                text,
                base,
            )->Ok_0[i]).span().wf(),
{
    lemma_scan_from_tiles(text, base, 0);
    lemma_scan_from_shapes(text, base, 0);
}

/// `plain_end` is the one position that holds a brace, or is the end, with
/// no brace between `from` and it.
proof fn lemma_plain_end_is(text: Seq<u8>, from: int, end: int)
    requires
        0 <= from <= end <= text.len(),
        forall|i: int| from <= i < end ==> !is_brace(#[trigger] text[i]),
        end < text.len() ==> is_brace(text[end]),
    ensures
        plain_end(text, from) == end,
    decreases end - from,
{
    if from < end {
        lemma_plain_end_is(text, from + 1, end);
    }
}

/// `blank_end` is `to` where all of `[from, to)` is whitespace.
proof fn lemma_blank_end_is(text: Seq<u8>, from: int, to: int)
    requires
        0 <= from <= to <= text.len(),
        forall|i: int| from <= i < to ==> is_blank(#[trigger] text[i]),
    ensures
        blank_end(text, from, to) == to,
    decreases to - from,
{
    if from < to {
        lemma_blank_end_is(text, from + 1, to);
    }
}

proof fn lemma_scan_from_unique(text: Seq<u8>, base: int, pos: int, segments: Seq<FmtSpecView>)
    requires
        0 <= pos <= text.len(),
        tiles(segments, base + pos, base + text.len()),
        forall|i: int| 0 <= i < segments.len() ==> well_shaped(#[trigger] segments[i], text, base),
        forall|i: int|
            0 <= i < segments.len() - 1 ==> !((#[trigger] segments[i]) is Lit && segments[i
                + 1] is Lit),
    ensures
        scan_from(text, base, pos) == Ok::<Seq<FmtSpecView>, int>(segments),
    decreases segments.len(),
{
    if segments.len() == 0 {
        assert(segments =~= Seq::<FmtSpecView>::empty());
    } else {
        let head = segments[0];
        let rest = segments.drop_first();
        let next = head.span().end - base;
        assert(well_shaped(head, text, base));
        assert forall|i: int| 0 <= i < rest.len() implies well_shaped(
            #[trigger] rest[i],
            text,
            base,
        ) by {
            assert(rest[i] == segments[i + 1]);
        }
        assert forall|i: int| 0 <= i < rest.len() - 1 implies !((#[trigger] rest[i]) is Lit
            && rest[i + 1] is Lit) by {
            assert(rest[i] == segments[i + 1]);
            assert(rest[i + 1] == segments[i + 2]);
        }
        assert forall|i: int| 0 <= i < rest.len() implies (#[trigger] rest[i]).span().start
            < rest[i].span().end by {
            assert(rest[i] == segments[i + 1]);
        }
        assert forall|i: int| 0 <= i < rest.len() - 1 implies (#[trigger] rest[i]).span().end
            == rest[i + 1].span().start by {
            assert(rest[i] == segments[i + 1]);
            assert(rest[i + 1] == segments[i + 2]);
        }
        if rest.len() > 0 {
            assert(rest.first() == segments[1]);
            assert(rest.last() == segments.last());
            assert(segments[0].span().end == segments[1].span().start);
            assert(well_shaped(segments[1], text, base));
        }
        assert(tiles(rest, base + next, base + text.len()));
        lemma_scan_from_unique(text, base, next, rest);
        match head {
            FmtSpecView::Lit { .. } => {
                lemma_plain_end_is(text, pos, next);
            },
            FmtSpecView::Arg { .. } => {
                assert forall|i: int| pos + 1 <= i < next - 1 implies !is_brace(
                    #[trigger] text[i],
                ) by {
                    assert(is_blank(text[i]));
                }
                lemma_plain_end_is(text, pos + 1, next - 1);
                lemma_blank_end_is(text, pos + 1, next - 1);
            },
        }
        assert(seq![head] + rest =~= segments);
    }
}

/// A segmentation of a format string is what scanning it gives: the format
/// string scans, and to these segments.
pub proof fn lemma_segmentation_is_scan(text: Seq<u8>, base: int, segments: Seq<FmtSpecView>)
    requires
        segmentation(segments, text, base),
    ensures
        scan(text, base) == Ok::<Seq<FmtSpecView>, int>(segments),
{
    lemma_scan_from_unique(text, base, 0, segments);
}

proof fn lemma_scan_from_err(text: Seq<u8>, base: int, pos: int)
    requires
        0 <= pos <= text.len(),
        scan_from(text, base, pos) is Err,
    ensures
        ({
            let at = scan_from(text, base, pos)->Err_0 - base;
            &&& pos <= at < text.len()
            &&& !is_blank(text[at])
        }),
    decreases text.len() - pos,
{
    lemma_plain_end(text, pos);
    lemma_plain_end(text, pos + 1);
    if !is_brace(text[pos]) {
        lemma_scan_from_err(text, base, plain_end(text, pos));
    } else if text[pos] == OPEN {
        let close = plain_end(text, pos + 1);
        if close < text.len() && text[close] == CLOSE {
            lemma_blank_end(text, pos + 1, close);
            if blank_end(text, pos + 1, close) >= close {
                lemma_scan_from_err(text, base, close + 1);
            }
        }
    }
}

/// The offset at which a format string is refused lies within it, at a byte
/// that is not whitespace.
pub proof fn lemma_scan_error_offset(text: Seq<u8>, base: int)
    requires
        scan(text, base) is Err,
    ensures
        base <= scan(text, base)->Err_0 < base + text.len(),
        !is_blank(text[scan(text, base)->Err_0 - base]),
{
    lemma_scan_from_err(text, base, 0);
}

/// A format string that is not empty and holds no brace scans to one literal
/// run that covers all of it.
pub proof fn lemma_scan_plain(text: Seq<u8>, base: int)
    requires
        text.len() > 0,
        forall|i: int| 0 <= i < text.len() ==> !is_brace(#[trigger] text[i]),
    ensures
        scan(text, base) == Ok::<Seq<FmtSpecView>, int>(
            seq![
                FmtSpecView::Lit {
                    span: Span { start: base, end: base + text.len() },
                    val: text,
                },
            ],
        ),
{
    lemma_plain_end(text, 0);
    let lit = FmtSpecView::Lit { span: Span { start: base, end: base + text.len() }, val: text };
    assert(plain_end(text, 0) == text.len());
    assert(scan_from(text, base, text.len() as int) == Ok::<Seq<FmtSpecView>, int>(Seq::empty()));
    assert(text.subrange(0, text.len() as int) =~= text);
    assert(seq![lit] + Seq::<FmtSpecView>::empty() =~= seq![lit]);
}

/// The encoding of a scalar value other than the two braces holds no brace.
proof fn lemma_scalar_without_brace(scalar: u32)
    requires
        is_scalar(scalar),
        scalar != 0x7b,
        scalar != 0x7d,
    ensures
        encode_scalar(scalar).len() > 0,
        forall|j: int|
            0 <= j < encode_scalar(scalar).len() ==> !is_brace(#[trigger] encode_scalar(scalar)[j]),
{
    assert(scalar <= 0x7f ==> (scalar & 0x7f) as u8 != 0x7bu8 && (scalar & 0x7f) as u8 != 0x7du8)
        by (bit_vector)
        requires
            scalar != 0x7b,
            scalar != 0x7d,
    ;
    assert(0xc0u8 | ((scalar >> 6) & 0x1f) as u8 >= 0x80u8) by (bit_vector);
    assert(0xe0u8 | ((scalar >> 12) & 0x0f) as u8 >= 0x80u8) by (bit_vector);
    assert(0xf0u8 | ((scalar >> 18) & 0x07) as u8 >= 0x80u8) by (bit_vector);
    assert(0x80u8 | (scalar & 0x3f) as u8 >= 0x80u8) by (bit_vector);
    assert(0x80u8 | ((scalar >> 6) & 0x3f) as u8 >= 0x80u8) by (bit_vector);
    assert(0x80u8 | ((scalar >> 12) & 0x3f) as u8 >= 0x80u8) by (bit_vector);
}

/// A text none of whose characters is a brace has no brace among its bytes,
/// and has bytes if it has characters.
pub proof fn lemma_text_without_brace(chars: Seq<char>)
    requires
        forall|i: int| 0 <= i < chars.len() ==> #[trigger] chars[i] != '{' && chars[i] != '}',
    ensures
        chars.len() > 0 ==> encode_utf8(chars).len() > 0,
        forall|j: int|
            0 <= j < encode_utf8(chars).len() ==> !is_brace(#[trigger] encode_utf8(chars)[j]),
    decreases chars.len(),
{
    if chars.len() > 0 {
        let head = encode_scalar(chars[0] as u32);
        let tail = encode_utf8(chars.drop_first());
        char_is_scalar(chars[0]);
        assert(chars[0] != '{' && chars[0] != '}');
        char_u32_cast(chars[0], chars[0] as u32);
        char_u32_cast('{', 0x7b);
        char_u32_cast('}', 0x7d);
        lemma_scalar_without_brace(chars[0] as u32);
        let rest = chars.drop_first();
        assert forall|i: int| 0 <= i < rest.len() implies #[trigger] rest[i] != '{' && rest[i]
            != '}' by {
            assert(rest[i] == chars[i + 1]);
        }
        lemma_text_without_brace(rest);
        assert forall|j: int| 0 <= j < encode_utf8(chars).len() implies !is_brace(
            #[trigger] encode_utf8(chars)[j],
        ) by {
            if j < head.len() {
                assert(encode_utf8(chars)[j] == head[j]);
            } else {
                assert(encode_utf8(chars)[j] == tail[j - head.len()]);
            }
        }
    }
}

/// A string literal that is not empty and in which no brace occurs scans to
/// one literal run, which starts one byte after the literal does and is as
/// long as its text.
pub proof fn lemma_scan_plain_literal(lit: StrLit)
    requires
        lit.val@.len() > 0,
        forall|i: int|
            0 <= i < lit.val@.len() ==> #[trigger] lit.val@[i] != '{' && lit.val@[i] != '}',
    ensures
        scan(lit@.val, lit@.span.start + 1) == Ok::<Seq<FmtSpecView>, int>(
            seq![
                FmtSpecView::Lit {
                    span: Span {
                        start: lit@.span.start + 1,
                        end: lit@.span.start + 1 + lit@.val.len(),
                    },
                    val: lit@.val,
                },
            ],
        ),
{
    lemma_text_without_brace(lit.val@);
    lemma_scan_plain(lit@.val, lit@.span.start + 1);
}

} // verus!
