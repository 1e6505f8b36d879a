//! What a diagnostic says about an error.
//!
//! An error is described by a code, the offset at which the report is
//! anchored, a headline and a list of labelled spans. Messages are kept in
//! parts, so that whoever draws the report decides how a number is written
//! and what a tint looks like.

use std::ops::Range;
use vstd::prelude::*;

use crate::grammar::{ParseError, ParseErrorView};
use crate::fmt::scan;
use crate::fmt_laws::lemma_scan_error_offset;
use crate::run::{
    all_compilable, compilable, print_ops, program_ops, scannable, Error, ErrorView,
};
use crate::syntax::{span_of, spans_of, MacroView, Span, StrLitView};

verus! {

/// Which of the two colours of a report a part or a label takes.
#[derive(Debug, PartialEq, Eq, Clone, Copy)]
pub enum Tint {
    First,
    Second,
}

/// One part of a message.
#[derive(Debug, PartialEq)]
pub enum Part<'a> {
    /// Fixed wording.
    Text(&'static str),
    /// A number, written in decimal.
    Count(usize),
    /// Text of the source, written between double quotes and tinted.
    Quoted(&'a str, Tint),
    /// A name that the parser gave, tinted.
    Tinted(&'a str, Tint),
}

/// The model of a [`Part`].
pub enum PartView {
    Text(Seq<char>),
    Count(int),
    Quoted(Seq<char>, Tint),
    Tinted(Seq<char>, Tint),
}

impl<'a> View for Part<'a> {
    type V = PartView;

    open spec fn view(&self) -> PartView {
        match *self {
            Part::Text(text) => PartView::Text(text@),
            Part::Count(n) => PartView::Count(n as int),
            Part::Quoted(text, tint) => PartView::Quoted(text@, tint),
            Part::Tinted(text, tint) => PartView::Tinted(text@, tint),
        }
    }
}

impl<'a> DeepView for Part<'a> {
    type V = PartView;

    open spec fn deep_view(&self) -> PartView {
        self@
    }
}

/// A span of the source that a report points at, with what it says there.
#[derive(Debug, PartialEq)]
pub struct Label<'a> {
    pub span: Range<usize>,
    pub message: Option<Vec<Part<'a>>>,
    pub tint: Tint,
}

/// The model of a [`Label`].
pub struct LabelView {
    pub span: Span,
    pub message: Option<Seq<PartView>>,
    pub tint: Tint,
}

impl<'a> View for Label<'a> {
    type V = LabelView;

    open spec fn view(&self) -> LabelView {
        LabelView {
            span: span_of(self.span),
            message: match self.message {
                Some(parts) => Some(parts.deep_view()),
                None => None,
            },
            tint: self.tint,
        }
    }
}

impl<'a> DeepView for Label<'a> {
    type V = LabelView;

    open spec fn deep_view(&self) -> LabelView {
        self@
    }
}

/// What a report of an error holds.
#[derive(Debug, PartialEq)]
pub struct Diagnostic<'a> {
    pub code: &'static str,
    pub offset: usize,
    pub message: Option<Vec<Part<'a>>>,
    pub labels: Vec<Label<'a>>,
}

/// The model of a [`Diagnostic`].
pub struct DiagnosticView {
    pub code: Seq<char>,
    pub offset: int,
    pub message: Option<Seq<PartView>>,
    pub labels: Seq<LabelView>,
}

impl<'a> View for Diagnostic<'a> {
    type V = DiagnosticView;

    open spec fn view(&self) -> DiagnosticView {
        DiagnosticView {
            code: self.code@,
            offset: self.offset as int,
            message: match self.message {
                Some(parts) => Some(parts.deep_view()),
                None => None,
            },
            labels: self.labels.deep_view(),
        }
    }
}

/// A label over `span` with fixed wording.
pub open spec fn plain_label(span: Span, text: Seq<char>, tint: Tint) -> LabelView {
    LabelView { span, message: Some(seq![PartView::Text(text)]), tint }
}

/// Labels without a message over each of `spans`, in order.
pub open spec fn bare_labels(spans: Seq<Span>, tint: Tint) -> Seq<LabelView> {
    Seq::new(spans.len(), |i: int| LabelView { span: spans[i], message: None, tint })
}

/// Labels over each of `spans`, in order, that call the argument unused.
pub open spec fn unused_labels(spans: Seq<Span>) -> Seq<LabelView> {
    Seq::new(spans.len(), |i: int| plain_label(spans[i], "argument never used"@, Tint::First))
}

/// The list of what was expected: an opening, then the names in order with a
/// comma between two of them.
pub open spec fn expected_parts(expected: Seq<Seq<char>>) -> Seq<PartView> {
    Seq::new(
        if expected.len() == 0 {
            1
        } else {
            2 * expected.len()
        },
        |k: int|
            if k == 0 {
                PartView::Text("Expected one of: "@)
            } else if k % 2 == 1 {
                PartView::Tinted(expected[k / 2], Tint::Second)
            } else {
                PartView::Text(", "@)
            },
    )
}

/// The headline for an unexpected token with the text `text`.
pub open spec fn unexpected_parts(text: Seq<char>) -> Seq<PartView> {
    seq![PartView::Text("encountered unexpected syntax "@), PartView::Quoted(text, Tint::First)]
}

/// The headline for placeholders that outnumber the arguments.
pub open spec fn shortfall_parts(holes: int, given: int) -> Seq<PartView> {
    seq![
        PartView::Count(holes),
        PartView::Text(
            if holes == 1 {
                " positional argument in format string, but there "@
            } else {
                " positional arguments in format string, but there "@
            },
        ),
        PartView::Text(
            if given == 1 {
                "is "@
            } else {
                "are "@
            },
        ),
        PartView::Count(given),
        PartView::Text(
            if given == 1 {
                " argument"@
            } else {
                " arguments"@
            },
        ),
    ]
}

/// Whether an error can be described: it is not an error of the grammar's own
/// actions, at least one placeholder is named where arguments are missing,
/// and an offset that stands alone is not the largest that there is, so that
/// a label of one byte can start at it.
pub open spec fn reportable(e: ErrorView) -> bool {
    match e {
        ErrorView::NotEnoughFmtArguments(holes, _) => holes.len() > 0,
        ErrorView::ParseError(ParseErrorView::InvalidToken { location }) => location < usize::MAX,
        ErrorView::ParseError(ParseErrorView::UnrecognizedEof { location, .. }) => location
            < usize::MAX,
        ErrorView::ParseError(ParseErrorView::User { .. }) => false,
        _ => true,
    }
}

/// Tells whether an error can be described.
pub fn is_reportable<'src>(error: &Error<'src>) -> (yes: bool)
    ensures
        yes == reportable(error@),
{
    match error {
        Error::NotEnoughFmtArguments(fmt_specifiers, _) => fmt_specifiers.len() > 0,
        Error::ParseError(ParseError::InvalidToken { location }) => *location < usize::MAX,
        Error::ParseError(ParseError::UnrecognizedEof { location, .. }) => *location < usize::MAX,
        Error::ParseError(ParseError::User { .. }) => false,
        _ => true,
    }
}

/// What the report of an error holds. Nothing is said of an error that is
/// not [`reportable`].
pub open spec fn describe(e: ErrorView) -> DiagnosticView
    recommends
        reportable(e),
{
    match e {
        ErrorView::MissingFmtStr(name) => DiagnosticView {
            code: "MissingFmtStr"@,
            offset: name.start,
            message: None,
            labels: seq![
                plain_label(name, "requires at least a format string argument"@, Tint::First),
            ],
        },
        ErrorView::ExtraFmtArguments(fmt_str, surplus) => DiagnosticView {
            code: "ExtraFmtArguments"@,
            offset: fmt_str.start,
            message: Some(
                seq![
                    PartView::Text(
                        if surplus.len() == 1 {
                            "unused formatting argument"@
                        } else {
                            "multiple unused formatting arguments"@
                        },
                    ),
                ],
            ),
            labels: unused_labels(surplus).push(
                plain_label(fmt_str, "multiple missing formatting specifiers"@, Tint::Second),
            ),
        },
        ErrorView::NotEnoughFmtArguments(holes, given) => DiagnosticView {
            code: "NotEnoughFmtArguments"@,
            offset: holes[0].start,
            message: Some(shortfall_parts(holes.len() as int, given.len() as int)),
            labels: bare_labels(holes, Tint::First) + bare_labels(given, Tint::Second),
        },
        ErrorView::ParseError(ParseErrorView::ExtraToken { start, token, end }) => DiagnosticView {
            code: "ExtraToken"@,
            offset: start,
            message: Some(unexpected_parts(token.text)),
            labels: seq![plain_label(Span { start, end }, "unexpected syntax"@, Tint::First)],
        },
        ErrorView::ParseError(ParseErrorView::InvalidToken { location }) => DiagnosticView {
            code: "InvalidToken"@,
            offset: location,
            message: Some(seq![PartView::Text("encountered unexpected syntax"@)]),
            labels: seq![
                plain_label(
                    Span { start: location, end: location + 1 },
                    "unexpected syntax"@,
                    Tint::First,
                ),
            ],
        },
        ErrorView::ParseError(
            ParseErrorView::UnrecognizedEof { location, expected },
        ) => DiagnosticView {
            code: "UnrecognizedEof"@,
            offset: location,
            message: Some(seq![PartView::Text("unexpected end of file"@)]),
            labels: seq![
                LabelView {
                    span: Span { start: location, end: location + 1 },
                    message: Some(expected_parts(expected)),
                    tint: Tint::Second,
                },
            ],
        },
        ErrorView::ParseError(
            ParseErrorView::UnrecognizedToken { start, token, end, expected },
        ) => DiagnosticView {
            code: "UnrecognizedToken"@,
            offset: start,
            message: Some(unexpected_parts(token.text)),
            labels: if expected.len() == 0 {
                seq![plain_label(Span { start, end }, "unexpected syntax"@, Tint::First)]
            } else {
                seq![
                    plain_label(Span { start, end }, "unexpected syntax"@, Tint::First),
                    LabelView {
                        span: Span { start, end },
                        message: Some(expected_parts(expected)),
                        tint: Tint::Second,
                    },
                ]
            },
        },
        ErrorView::ParseError(ParseErrorView::User { .. }) => arbitrary(),
    }
}

/// A label over `span` with fixed wording.
fn label_with_text<'a>(span: Range<usize>, text: &'static str, tint: Tint) -> (label: Label<'a>)
    ensures
        label@ == plain_label(span_of(span), text@, tint),
{
    let mut parts: Vec<Part<'a>> = Vec::new();
    parts.push(Part::Text(text));
    assert(parts.deep_view() =~= seq![PartView::Text(text@)]);
    Label { span, message: Some(parts), tint }
}

/// Adds a label without a message for each of `spans`.
fn push_bare_labels<'a>(labels: &mut Vec<Label<'a>>, spans: &Vec<Range<usize>>, tint: Tint)
    ensures
        final(labels).deep_view() == old(labels).deep_view() + bare_labels(spans_of(spans@), tint),
{
    let ghost before = labels.deep_view();
    let ghost added = bare_labels(spans_of(spans@), tint);
    let mut i: usize = 0;
    while i < spans.len()
        invariant
            i <= spans.len(),
            added == bare_labels(spans_of(spans@), tint),
            labels.deep_view() == before + added.take(i as int),
        decreases spans.len() - i,
    {
        let ghost so_far = labels.deep_view();
        let label = Label { span: spans[i].start..spans[i].end, message: None, tint };
        assert(label@ == added[i as int]);
        labels.push(label);
        assert(labels.deep_view() =~= so_far.push(added[i as int]));
        assert(so_far.push(added[i as int]) =~= before + added.take(i + 1));
        i += 1;
    }
    assert(added.take(i as int) =~= added);
}

/// The parts that list what was expected.
fn list_expected<'a>(expected: &'a Vec<String>) -> (parts: Vec<Part<'a>>)
    ensures
        parts.deep_view() == expected_parts(expected.deep_view()),
{
    let mut parts: Vec<Part<'a>> = Vec::new();
    parts.push(Part::Text("Expected one of: "));
    let mut i: usize = 0;
    while i < expected.len()
        invariant
            i <= expected.len(),
            parts@.len() == (if i == 0 {
                1int
            } else {
                2 * i
            }),
            forall|k: int|
                0 <= k < parts@.len() ==> (#[trigger] parts@[k])@ == expected_parts(
                    expected.deep_view(),
                )[k],
        decreases expected.len() - i,
    {
        if i > 0 {
            parts.push(Part::Text(", "));
        }
        parts.push(Part::Tinted(expected[i].as_str(), Tint::Second));
        i += 1;
    }
    assert(parts.deep_view() =~= expected_parts(expected.deep_view()));
    parts
}

/// The headline for an unexpected token.
fn unexpected<'a>(text: &'a str) -> (parts: Vec<Part<'a>>)
    ensures
        parts.deep_view() == unexpected_parts(text@),
{
    let mut parts: Vec<Part<'a>> = Vec::new();
    parts.push(Part::Text("encountered unexpected syntax "));
    parts.push(Part::Quoted(text, Tint::First));
    assert(parts.deep_view() =~= unexpected_parts(text@));
    parts
}

/// The headline of one fixed text.
fn headline<'a>(text: &'static str) -> (parts: Vec<Part<'a>>)
    ensures
        parts.deep_view() == seq![PartView::Text(text@)],
{
    let mut parts: Vec<Part<'a>> = Vec::new();
    parts.push(Part::Text(text));
    assert(parts.deep_view() =~= seq![PartView::Text(text@)]);
    parts
}

/// The headline for placeholders that outnumber the arguments.
fn shortfall<'a>(holes: usize, given: usize) -> (parts: Vec<Part<'a>>)
    ensures
        parts.deep_view() == shortfall_parts(holes as int, given as int),
{
    let mut parts: Vec<Part<'a>> = Vec::new();
    parts.push(Part::Count(holes));
    parts.push(
        Part::Text(
            if holes == 1 {
                " positional argument in format string, but there "
            } else {
                " positional arguments in format string, but there "
            },
        ),
    );
    parts.push(
        Part::Text(
            if given == 1 {
                "is "
            } else {
                "are "
            },
        ),
    );
    parts.push(Part::Count(given));
    parts.push(
        Part::Text(
            if given == 1 {
                " argument"
            } else {
                " arguments"
            },
        ),
    );
    assert(parts.deep_view() =~= shortfall_parts(holes as int, given as int));
    parts
}

/// Describes an error for a report: its code, the offset of its anchor, its
/// headline and its labels in the order in which they are drawn.
///
/// An error of the grammar's own actions is never made, and none is
/// described.
pub fn report_error<'a, 'src>(error: &'a Error<'src>) -> (diagnostic: Diagnostic<'a>)
    requires
        reportable(error@),
    ensures
        diagnostic@ == describe(error@),
{
    match error {
        Error::MissingFmtStr(range) => {
            let mut labels: Vec<Label<'a>> = Vec::new();
            labels.push(
                label_with_text(
                    range.start..range.end,
                    "requires at least a format string argument",
                    Tint::First,
                ),
            );
            assert(labels.deep_view() =~= describe(error@).labels);
            Diagnostic { code: "MissingFmtStr", offset: range.start, message: None, labels }
        },
        Error::ExtraFmtArguments(fmt_str, args) => {
            let mut labels: Vec<Label<'a>> = Vec::new();
            let ghost unused = unused_labels(spans_of(args@));
            let mut i: usize = 0;
            assert(labels.deep_view() =~= unused.take(0));
            while i < args.len()
                invariant
                    i <= args.len(),
                    unused == unused_labels(spans_of(args@)),
                    labels.deep_view() == unused.take(i as int),
                decreases args.len() - i,
            {
                let ghost so_far = labels.deep_view();
                let label = label_with_text(
                    args[i].start..args[i].end,
                    "argument never used",
                    Tint::First,
                );
                assert(label@ == unused[i as int]);
                labels.push(label);
                assert(labels.deep_view() =~= so_far.push(unused[i as int]));
                assert(so_far.push(unused[i as int]) =~= unused.take(i + 1));
                i += 1;
            }
            assert(unused.take(i as int) =~= unused);
            let ghost so_far = labels.deep_view();
            let last = label_with_text(
                fmt_str.start..fmt_str.end,
                "multiple missing formatting specifiers",
                Tint::Second,
            );
            let ghost last_view = last@;
            labels.push(last);
            assert(labels.deep_view() =~= so_far.push(last_view));
            let message = headline(
                if args.len() == 1 {
                    "unused formatting argument"
                } else {
                    "multiple unused formatting arguments"
                },
            );
            Diagnostic {
                code: "ExtraFmtArguments",
                offset: fmt_str.start,
                message: Some(message),
                labels,
            }
        },
        Error::NotEnoughFmtArguments(fmt_specifiers, args) => {
            let mut labels: Vec<Label<'a>> = Vec::new();
            push_bare_labels(&mut labels, fmt_specifiers, Tint::First);
            push_bare_labels(&mut labels, args, Tint::Second);
            assert(labels.deep_view() =~= describe(error@).labels);
            Diagnostic {
                code: "NotEnoughFmtArguments",
                offset: fmt_specifiers[0].start,
                message: Some(shortfall(fmt_specifiers.len(), args.len())),
                labels,
            }
        },
        Error::ParseError(ParseError::ExtraToken { token }) => {
            let mut labels: Vec<Label<'a>> = Vec::new();
            labels.push(label_with_text(token.0..token.2, "unexpected syntax", Tint::First));
            assert(labels.deep_view() =~= describe(error@).labels);
            Diagnostic {
                code: "ExtraToken",
                offset: token.0,
                message: Some(unexpected(token.1.1)),
                labels,
            }
        },
        Error::ParseError(ParseError::InvalidToken { location }) => {
            let mut labels: Vec<Label<'a>> = Vec::new();
            labels.push(
                label_with_text(*location..(*location + 1), "unexpected syntax", Tint::First),
            );
            assert(labels.deep_view() =~= describe(error@).labels);
            Diagnostic {
                code: "InvalidToken",
                offset: *location,
                message: Some(headline("encountered unexpected syntax")),
                labels,
            }
        },
        Error::ParseError(ParseError::UnrecognizedEof { location, expected }) => {
            let mut labels: Vec<Label<'a>> = Vec::new();
            labels.push(
                Label {
                    span: *location..(*location + 1),
                    message: Some(list_expected(expected)),
                    tint: Tint::Second,
                },
            );
            assert(labels.deep_view() =~= describe(error@).labels);
            Diagnostic {
                code: "UnrecognizedEof",
                offset: *location,
                message: Some(headline("unexpected end of file")),
                labels,
            }
        },
        Error::ParseError(ParseError::UnrecognizedToken { token, expected }) => {
            let mut labels: Vec<Label<'a>> = Vec::new();
            labels.push(label_with_text(token.0..token.2, "unexpected syntax", Tint::First));
            if expected.len() > 0 {
                labels.push(
                    Label {
                        span: token.0..token.2,
                        message: Some(list_expected(expected)),
                        tint: Tint::Second,
                    },
                );
            }
            assert(labels.deep_view() =~= describe(error@).labels);
            Diagnostic {
                code: "UnrecognizedToken",
                offset: token.0,
                message: Some(unexpected(token.1.1)),
                labels,
            }
        },
        Error::ParseError(ParseError::User { .. }) => unreached(),
    }
}

/// Every error that compiling `print!` gives can be described.
pub proof fn lemma_print_errors_reportable(name: Span, args: Seq<StrLitView>)
    requires
        scannable(args),
        print_ops(name, args) is Err,
    ensures
        reportable(print_ops(name, args)->Err_0),
{
    if args.len() > 0 {
        let text = args[0].val;
        let base = args[0].span.start + 1;
        if scan(text, base) is Err {
            lemma_scan_error_offset(text, base);
        }
    }
}

/// Every error that compiling a program gives can be described.
pub proof fn lemma_program_errors_reportable(statements: Seq<MacroView>)
    requires
        all_compilable(statements),
        program_ops(statements) is Err,
    ensures
        reportable(program_ops(statements)->Err_0),
    decreases statements.len(),
{
    let before = statements.drop_last();
    let last = statements.last();
    assert forall|i: int| 0 <= i < before.len() implies compilable(#[trigger] before[i]) by {
        assert(before[i] == statements[i]);
    }
    if program_ops(before) is Err {
        lemma_program_errors_reportable(before);
    } else {
        assert(compilable(last));
        if last.args.len() > 0 {
            lemma_print_errors_reportable(last.name.span, last.args);
        }
    }
}

} // verus!
