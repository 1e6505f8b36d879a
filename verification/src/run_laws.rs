//! What holds of every program that is compiled.
//!
//! A program compiles when each of its statements does, and then to the
//! operations of its statements in their order; otherwise its error is that
//! of the first statement that has one. The placeholders that an error names
//! lie within the format string.

use vstd::prelude::*;

use crate::fmt::{scan, FmtSpecView};
use crate::fmt_laws::{lemma_scan_is_segmentation, well_shaped};
use crate::run::{macro_ops, placeholders, program_ops, ErrorView};
use crate::syntax::{MacroView, Span};

verus! {

/// The operations of each statement, for statements that all compile.
pub open spec fn statement_ops(statements: Seq<MacroView>) -> Seq<Seq<Seq<u8>>> {
    Seq::new(statements.len(), |i: int| macro_ops(statements[i])->Ok_0)
}

/// A program that compiles has only statements that compile, and its
/// operations are theirs, one statement after the other.
pub proof fn lemma_program_ops_ok(statements: Seq<MacroView>)
    requires
        program_ops(statements) is Ok,
    ensures
        forall|i: int| 0 <= i < statements.len() ==> macro_ops(#[trigger] statements[i]) is Ok,
        program_ops(statements)->Ok_0 == statement_ops(statements).flatten(),
    decreases statements.len(),
{
    if statements.len() > 0 {
        let before = statements.drop_last();
        let last = statements.last();
        lemma_program_ops_ok(before);
        assert forall|i: int| 0 <= i < statements.len() implies macro_ops(
            #[trigger] statements[i],
        ) is Ok by {
            if i < before.len() {
                assert(statements[i] == before[i]);
            }
        }
        assert(statement_ops(statements) =~= statement_ops(before).push(macro_ops(last)->Ok_0));
        statement_ops(before).lemma_flatten_push(macro_ops(last)->Ok_0);
    } else {
        assert(statement_ops(statements) =~= Seq::<Seq<Seq<u8>>>::empty());
    }
}

/// A program that does not compile has a first statement that does not, and
/// the error of the program is the error of that statement.
pub proof fn lemma_program_ops_err(statements: Seq<MacroView>) -> (first: int)
    requires
        program_ops(statements) is Err,
    ensures
        0 <= first < statements.len(),
        forall|i: int| 0 <= i < first ==> macro_ops(#[trigger] statements[i]) is Ok,
        macro_ops(statements[first]) == Err::<Seq<Seq<u8>>, ErrorView>(
            program_ops(statements)->Err_0,
        ),
    decreases statements.len(),
{
    let before = statements.drop_last();
    if program_ops(before) is Err {
        let first = lemma_program_ops_err(before);
        assert forall|i: int| 0 <= i < first implies macro_ops(#[trigger] statements[i]) is Ok by {
            assert(statements[i] == before[i]);
        }
        assert(statements[first] == before[first]);
        first
    } else {
        lemma_program_ops_ok(before);
        assert forall|i: int| 0 <= i < before.len() implies macro_ops(
            #[trigger] statements[i],
        ) is Ok by {
            assert(statements[i] == before[i]);
        }
        statements.len() - 1
    }
}

/// Each placeholder of a segment list is the span of one of its segments.
proof fn lemma_placeholders_are_segments(segments: Seq<FmtSpecView>, k: int) -> (i: int)
    requires
        0 <= k < placeholders(segments).len(),
    ensures
        0 <= i < segments.len(),
        segments[i] == (FmtSpecView::Arg { span: placeholders(segments)[k] }),
    decreases segments.len(),
{
    let before = segments.drop_last();
    if k < placeholders(before).len() {
        let i = lemma_placeholders_are_segments(before, k);
        assert(segments[i] == before[i]);
        i
    } else {
        segments.len() - 1
    }
}

/// The placeholders of a format string that scans lie within it, and none is
/// empty.
pub proof fn lemma_placeholders_in_text(text: Seq<u8>, base: int)
    requires
        scan(text, base) is Ok,
    ensures
        forall|k: int|
            0 <= k < placeholders(scan(text, base)->Ok_0).len() ==> {
                let hole: Span = #[trigger] placeholders(scan(text, base)->Ok_0)[k];
                base <= hole.start < hole.end <= base + text.len()
            },
{
    let segments = scan(text, base)->Ok_0;
    lemma_scan_is_segmentation(text, base);
    assert forall|k: int| 0 <= k < placeholders(segments).len() implies {
        let hole: Span = #[trigger] placeholders(segments)[k];
        base <= hole.start < hole.end <= base + text.len()
    } by {
        let i = lemma_placeholders_are_segments(segments, k);
        assert(well_shaped(segments[i], text, base));
    }
}

} // verus!
