//! Compiling macro invocations into output operations, and running them.
//!
//! An invocation of `print!` or `println!` becomes a list of texts to write.
//! The format string is scanned, its placeholders are matched with the
//! arguments that follow it by position, and every mismatch is reported with
//! the spans that a diagnostic needs. A program is compiled statement by
//! statement; the first error ends it and nothing is written.

use std::ops::Range;
use vstd::prelude::*;
use vstd::string::StringSliceAdditionalSpecFns;
use vstd::utf8::*;

use crate::fmt::{extract_fmt, scan, FmtSpec, FmtSpecView};
use crate::text::str_eq;
use crate::grammar::{ParseError, ParseErrorView};
use crate::syntax::{span_of, spans_of, Macro, MacroView, Main, Span, StrLit, StrLitView};

verus! {

/// Why a program was refused.
#[derive(Debug, PartialEq)]
pub enum Error<'src> {
    /// The source, or a format string in it, is not well formed.
    ParseError(ParseError<'src>),
    /// `print!` without arguments; the span is that of the macro's name.
    MissingFmtStr(Range<usize>),
    /// More arguments than placeholders: the span of the format string, and
    /// those of the arguments that nothing uses.
    ExtraFmtArguments(Range<usize>, Vec<Range<usize>>),
    /// Fewer arguments than placeholders: the spans of all placeholders, and
    /// those of all arguments that were given.
    NotEnoughFmtArguments(Vec<Range<usize>>, Vec<Range<usize>>),
}

/// The model of an [`Error`].
pub enum ErrorView {
    ParseError(ParseErrorView),
    MissingFmtStr(Span),
    ExtraFmtArguments(Span, Seq<Span>),
    NotEnoughFmtArguments(Seq<Span>, Seq<Span>),
}

impl<'src> View for Error<'src> {
    type V = ErrorView;

    open spec fn view(&self) -> ErrorView {
        match *self {
            Error::ParseError(e) => ErrorView::ParseError(e@),
            Error::MissingFmtStr(name) => ErrorView::MissingFmtStr(span_of(name)),
            Error::ExtraFmtArguments(fmt_str, surplus) => ErrorView::ExtraFmtArguments(
                span_of(fmt_str),
                spans_of(surplus@),
            ),
            Error::NotEnoughFmtArguments(holes, given) => ErrorView::NotEnoughFmtArguments(
                spans_of(holes@),
                spans_of(given@),
            ),
        }
    }
}

/// One output operation: a text whose bytes are written to the sink.
#[derive(Debug, PartialEq)]
pub struct EmitOp<'src> {
    pub text: &'src str,
}

impl<'src> View for EmitOp<'src> {
    type V = Seq<u8>;

    open spec fn view(&self) -> Seq<u8> {
        self.text.spec_bytes()
    }
}

impl<'src> DeepView for EmitOp<'src> {
    type V = Seq<u8>;

    open spec fn deep_view(&self) -> Seq<u8> {
        self@
    }
}

/// The macros that this language knows.
#[derive(Debug, PartialEq, Eq, Clone, Copy)]
pub enum MacroKind {
    Print,
    Println,
}

/// The macro that a name stands for, if it stands for one.
pub open spec fn kind_of(name: Seq<char>) -> Option<MacroKind> {
    if name == "print!"@ {
        Some(MacroKind::Print)
    } else if name == "println!"@ {
        Some(MacroKind::Println)
    } else {
        None
    }
}

/// The spans of the placeholders among `segments`, in order.
pub open spec fn placeholders(segments: Seq<FmtSpecView>) -> Seq<Span>
    decreases segments.len(),
{
    if segments.len() == 0 {
        Seq::empty()
    } else {
        let before = placeholders(segments.drop_last());
        match segments.last() {
            FmtSpecView::Arg { span } => before.push(span),
            FmtSpecView::Lit { .. } => before,
        }
    }
}

/// The spans of `args`, in order.
pub open spec fn arg_spans(args: Seq<StrLitView>) -> Seq<Span> {
    Seq::new(args.len(), |i: int| args[i].span)
}

/// The texts written for `segments` when `args` fill its placeholders by
/// position: a literal run gives its own bytes, and a placeholder the text of
/// the argument with as many placeholders before it.
pub open spec fn fill(segments: Seq<FmtSpecView>, args: Seq<StrLitView>) -> Seq<Seq<u8>> {
    Seq::new(
        segments.len(),
        |i: int|
            match segments[i] {
                FmtSpecView::Lit { val, .. } => val,
                FmtSpecView::Arg { .. } => args[placeholders(segments.take(i)).len() as int].val,
            },
    )
}

/// What `print!` with these arguments compiles to.
///
/// The first argument is the format string and the others fill its
/// placeholders. Without any argument the format string is missing; a format
/// string that does not scan is an invalid token at the offset of the scan;
/// with too many arguments those beyond the placeholders are reported, and
/// with too few all placeholders and all arguments that were given.
pub open spec fn print_ops(name: Span, args: Seq<StrLitView>) -> Result<Seq<Seq<u8>>, ErrorView> {
    if args.len() == 0 {
        Err(ErrorView::MissingFmtStr(name))
    } else {
        let fmt_str = args[0];
        let rest = args.subrange(1, args.len() as int);
        match scan(fmt_str.val, fmt_str.span.start + 1) {
            Err(location) => Err(
                ErrorView::ParseError(ParseErrorView::InvalidToken { location }),
            ),
            Ok(segments) => {
                let holes = placeholders(segments);
                if rest.len() > holes.len() {
                    Err(
                        ErrorView::ExtraFmtArguments(
                            fmt_str.span,
                            arg_spans(rest.subrange(holes.len() as int, rest.len() as int)),
                        ),
                    )
                } else if rest.len() < holes.len() {
                    Err(ErrorView::NotEnoughFmtArguments(holes, arg_spans(rest)))
                } else {
                    Ok(fill(segments, rest))
                }
            },
        }
    }
}

/// The one byte of a line feed.
pub open spec fn newline() -> Seq<u8> {
    seq![0x0au8]
}

/// What `println!` with these arguments compiles to: what `print!` does, if
/// there is any argument, and then a line feed.
pub open spec fn println_ops(name: Span, args: Seq<StrLitView>) -> Result<Seq<Seq<u8>>, ErrorView> {
    if args.len() == 0 {
        Ok(seq![newline()])
    } else {
        match print_ops(name, args) {
            Ok(ops) => Ok(ops.push(newline())),
            Err(e) => Err(e),
        }
    }
}

/// What one invocation compiles to, by the kind of its macro. Nothing is said
/// of a macro that is not known.
pub open spec fn macro_ops(m: MacroView) -> Result<Seq<Seq<u8>>, ErrorView>
    recommends
        kind_of(m.name.name) is Some,
{
    match kind_of(m.name.name) {
        Some(MacroKind::Print) => print_ops(m.name.span, m.args),
        Some(MacroKind::Println) => println_ops(m.name.span, m.args),
        None => arbitrary(),
    }
}

/// What a program compiles to: the operations of its statements in order, or
/// the error of the first statement that has one.
pub open spec fn program_ops(statements: Seq<MacroView>) -> Result<Seq<Seq<u8>>, ErrorView>
    decreases statements.len(),
{
    if statements.len() == 0 {
        Ok(Seq::empty())
    } else {
        match program_ops(statements.drop_last()) {
            Err(e) => Err(e),
            Ok(ops) => match macro_ops(statements.last()) {
                Err(e) => Err(e),
                Ok(more) => Ok(ops + more),
            },
        }
    }
}

/// Whether the format string of an invocation, if it has one, ends at an
/// offset that a `usize` holds.
pub open spec fn scannable(args: Seq<StrLitView>) -> bool {
    args.len() > 0 ==> args[0].span.start + 1 + args[0].val.len() <= usize::MAX
}

/// Whether an invocation can be compiled: its macro is known, and its format
/// string is scannable.
pub open spec fn compilable(m: MacroView) -> bool {
    kind_of(m.name.name) is Some && scannable(m.args)
}

/// Tells which macro a name stands for.
pub fn macro_kind(name: &str) -> (kind: Option<MacroKind>)
    ensures
        kind == kind_of(name@),
{
    if str_eq(name, "print!") {
        Some(MacroKind::Print)
    } else if str_eq(name, "println!") {
        Some(MacroKind::Println)
    } else {
        None
    }
}

/// Tells whether an invocation can be compiled.
pub fn is_compilable<'src>(m: &Macro<'src>) -> (yes: bool)
    ensures
        yes == compilable(m@),
{
    if macro_kind(m.name.name).is_none() {
        return false;
    }
    if m.args.len() == 0 {
        return true;
    }
    let fmt_str = &m.args[0];
    let len: usize = fmt_str.val.as_bytes().len();
    assert(m@.args[0] == fmt_str@);
    fmt_str.span.start < usize::MAX && len <= usize::MAX - fmt_str.span.start - 1
}

/// A segment list has at least as many placeholders as any of its prefixes,
/// and one more than the prefix that ends just before a placeholder.
proof fn lemma_placeholders_prefix(segments: Seq<FmtSpecView>, i: int)
    requires
        0 <= i <= segments.len(),
    ensures
        placeholders(segments.take(i)).len() <= placeholders(segments).len(),
        i < segments.len() ==> placeholders(segments.take(i + 1)) == (match segments[i] {
            FmtSpecView::Arg { span } => placeholders(segments.take(i)).push(span),
            FmtSpecView::Lit { .. } => placeholders(segments.take(i)),
        }),
    decreases segments.len() - i,
{
    if i < segments.len() {
        assert(segments.take(i + 1).drop_last() =~= segments.take(i));
        lemma_placeholders_prefix(segments, i + 1);
    } else {
        assert(segments.take(i) =~= segments);
    }
}

/// Collects the spans of the placeholders among `specs`.
fn placeholder_spans<'src>(specs: &Vec<FmtSpec<'src>>) -> (holes: Vec<Range<usize>>)
    ensures
        spans_of(holes@) == placeholders(specs.deep_view()),
{
    let mut holes: Vec<Range<usize>> = Vec::new();
    let mut i: usize = 0;
    proof {
        assert(specs.deep_view().take(0) =~= Seq::<FmtSpecView>::empty());
    }
    while i < specs.len()
        invariant
            i <= specs.len(),
            spans_of(holes@) =~= placeholders(specs.deep_view().take(i as int)),
        decreases specs.len() - i,
    {
        proof {
            lemma_placeholders_prefix(specs.deep_view(), i as int);
        }
        match &specs[i] {
            FmtSpec::Arg { span } => {
                holes.push(span.start..span.end);
            },
            FmtSpec::Lit { .. } => {},
        }
        i += 1;
    }
    proof {
        assert(specs.deep_view().take(i as int) =~= specs.deep_view());
    }
    holes
}

/// Collects the spans of the arguments from index `from` on.
fn spans_from<'src>(args: &[StrLit<'src>], from: usize) -> (spans: Vec<Range<usize>>)
    requires
        from <= args@.len(),
    ensures
        spans_of(spans@) == arg_spans(args.deep_view().subrange(from as int, args@.len() as int)),
{
    let mut spans: Vec<Range<usize>> = Vec::new();
    let mut i: usize = from;
    while i < args.len()
        invariant
            from <= i <= args@.len(),
            spans@.len() == i - from,
            forall|j: int| 0 <= j < spans@.len() ==> span_of(spans@[j]) == args@[from + j]@.span,
        decreases args@.len() - i,
    {
        spans.push(args[i].span.start..args[i].span.end);
        i += 1;
    }
    assert(spans_of(spans@) =~= arg_spans(
        args.deep_view().subrange(from as int, args@.len() as int),
    ));
    spans
}

/// Compiles an invocation of `print!`.
///
/// `print_name_span` is the span of the macro's name and `args` are its
/// arguments. The result is what [`print_ops`] says: the texts to write in
/// order, or the error.
pub fn build_print<'src>(print_name_span: Range<usize>, args: &[StrLit<'src>]) -> (res: Result<
    Vec<EmitOp<'src>>,
    Error<'src>,
>)
    requires
        scannable(args.deep_view()),
    ensures
        match res {
            Ok(ops) => print_ops(span_of(print_name_span), args.deep_view()) == Ok::<
                Seq<Seq<u8>>,
                ErrorView,
            >(ops.deep_view()),
            Err(e) => print_ops(span_of(print_name_span), args.deep_view()) == Err::<
                Seq<Seq<u8>>,
                ErrorView,
            >(e@),
        },
{
    if args.len() == 0 {
        return Err(Error::MissingFmtStr(print_name_span));
    }
    let fmt_str = &args[0];
    let ghost rest = args.deep_view().subrange(1, args@.len() as int);
    let specs = match extract_fmt(fmt_str) {
        Ok(specs) => specs,
        Err(location) => {
            return Err(Error::ParseError(ParseError::InvalidToken { location }));
        },
    };
    let ghost segments = specs.deep_view();
    let holes = placeholder_spans(&specs);
    let given: usize = args.len() - 1;
    let expected: usize = holes.len();
    if given > expected {
        let surplus = spans_from(args, 1 + expected);
        proof {
            assert(rest.subrange(expected as int, rest.len() as int) =~= args.deep_view().subrange(
                1 + expected,
                args@.len() as int,
            ));
        }
        return Err(Error::ExtraFmtArguments(fmt_str.span.start..fmt_str.span.end, surplus));
    }
    if given < expected {
        let provided = spans_from(args, 1);
        return Err(Error::NotEnoughFmtArguments(holes, provided));
    }
    let mut ops: Vec<EmitOp<'src>> = Vec::new();
    let mut next: usize = 1;
    let mut i: usize = 0;
    proof {
        assert(segments.take(0) =~= Seq::<FmtSpecView>::empty());
    }
    while i < specs.len()
        invariant
            segments == specs.deep_view(),
            rest == args.deep_view().subrange(1, args@.len() as int),
            placeholders(segments).len() == args@.len() - 1,
            i <= specs.len(),
            1 <= next <= args@.len(),
            next - 1 == placeholders(segments.take(i as int)).len(),
            ops@.len() == i,
            forall|j: int| 0 <= j < i ==> #[trigger] ops@[j]@ == fill(segments, rest)[j],
        decreases specs.len() - i,
    {
        proof {
            lemma_placeholders_prefix(segments, i as int);
            lemma_placeholders_prefix(segments, i + 1);
        }
        match &specs[i] {
            FmtSpec::Lit { val, .. } => {
                ops.push(EmitOp { text: val });
            },
            FmtSpec::Arg { .. } => {
                ops.push(EmitOp { text: args[next].val });
                next += 1;
            },
        }
        i += 1;
    }
    assert(ops.deep_view() =~= fill(segments, rest));
    Ok(ops)
}

/// Compiles an invocation of `println!`: what `print!` gives for the same
/// arguments, if there are any, and a line feed after it.
pub fn build_println<'src>(println_name_span: Range<usize>, args: &[StrLit<'src>]) -> (res:
    Result<Vec<EmitOp<'src>>, Error<'src>>)
    requires
        scannable(args.deep_view()),
    ensures
        match res {
            Ok(ops) => println_ops(span_of(println_name_span), args.deep_view()) == Ok::<
                Seq<Seq<u8>>,
                ErrorView,
            >(ops.deep_view()),
            Err(e) => println_ops(span_of(println_name_span), args.deep_view()) == Err::<
                Seq<Seq<u8>>,
                ErrorView,
            >(e@),
        },
{
    let mut ops: Vec<EmitOp<'src>> = if args.len() > 0 {
        match build_print(println_name_span, args) {
            Ok(ops) => ops,
            Err(e) => {
                return Err(e);
            },
        }
    } else {
        Vec::new()
    };
    let ghost before = ops.deep_view();
    let line_feed: &'static str = "\n";
    proof {
        reveal_strlit("\n");
        assert(line_feed@ =~= seq!['\n']);
        lemma_line_feed(line_feed);
    }
    ops.push(EmitOp { text: line_feed });
    assert(ops.deep_view() =~= before.push(newline()));
    if args.len() == 0 {
        assert(before.push(newline()) =~= seq![newline()]);
    }
    Ok(ops)
}

/// A text of the one character line feed is the one byte line feed.
proof fn lemma_line_feed(s: &str)
    requires
        s@ == seq!['\n'],
    ensures
        s.spec_bytes() == newline(),
{
    is_ascii_chars_encode_utf8(s@);
    assert(s.spec_bytes() =~= newline());
}

/// Compiles one invocation, by the name of its macro.
pub fn build_macro_invocation<'src>(m: &Macro<'src>) -> (res: Result<
    Vec<EmitOp<'src>>,
    Error<'src>,
>)
    requires
        compilable(m@),
    ensures
        match res {
            Ok(ops) => macro_ops(m@) == Ok::<Seq<Seq<u8>>, ErrorView>(ops.deep_view()),
            Err(e) => macro_ops(m@) == Err::<Seq<Seq<u8>>, ErrorView>(e@),
        },
{
    match macro_kind(m.name.name) {
        Some(MacroKind::Print) => build_print(
            m.name.span.start..m.name.span.end,
            m.args.as_slice(),
        ),
        Some(MacroKind::Println) => build_println(
            m.name.span.start..m.name.span.end,
            m.args.as_slice(),
        ),
        None => unreached(),
    }
}

/// Whether every statement of a program can be compiled.
pub open spec fn all_compilable(statements: Seq<MacroView>) -> bool {
    forall|i: int| 0 <= i < statements.len() ==> compilable(#[trigger] statements[i])
}

/// Compiles a program into the operations that its `main` performs.
///
/// The statements are compiled in order and their operations follow each
/// other. The first statement with an error ends the compilation with that
/// error, and no operation is returned at all.
pub fn build_main<'src>(program: &Main<'src>) -> (res: Result<Vec<EmitOp<'src>>, Error<'src>>)
    requires
        all_compilable(program@),
    ensures
        match res {
            Ok(ops) => program_ops(program@) == Ok::<Seq<Seq<u8>>, ErrorView>(ops.deep_view()),
            Err(e) => program_ops(program@) == Err::<Seq<Seq<u8>>, ErrorView>(e@),
        },
{
    let mut ops: Vec<EmitOp<'src>> = Vec::new();
    let mut i: usize = 0;
    proof {
        assert(ops.deep_view() =~= Seq::<Seq<u8>>::empty());
    }
    while i < program.statements.len()
        invariant
            all_compilable(program@),
            i <= program.statements.len(),
            program_ops(program@.take(i as int)) == Ok::<Seq<Seq<u8>>, ErrorView>(ops.deep_view()),
        decreases program.statements.len() - i,
    {
        let ghost before = ops.deep_view();
        proof {
            assert(program@.take(i + 1).drop_last() =~= program@.take(i as int));
            assert(program.statements[i as int]@ == program@[i as int]);
        }
        match build_macro_invocation(&program.statements[i]) {
            Ok(mut more) => {
                let ghost added = more.deep_view();
                ops.append(&mut more);
                assert(ops.deep_view() =~= before + added);
            },
            Err(e) => {
                proof {
                    lemma_program_ops_failed(program@, i + 1);
                }
                return Err(e);
            },
        }
        i += 1;
    }
    proof {
        assert(program@.take(i as int) =~= program@);
    }
    Ok(ops)
}

/// A program fails with the error of any of its prefixes that fails.
proof fn lemma_program_ops_failed(statements: Seq<MacroView>, i: int)
    requires
        0 <= i <= statements.len(),
        program_ops(statements.take(i)) is Err,
    ensures
        program_ops(statements) == program_ops(statements.take(i)),
    decreases statements.len() - i,
{
    if i < statements.len() {
        assert(statements.take(i + 1).drop_last() =~= statements.take(i));
        lemma_program_ops_failed(statements, i + 1);
    } else {
        assert(statements.take(i) =~= statements);
    }
}

/// Compiles a program and, if that succeeds, writes its output to `std_out`.
///
/// The output is the bytes of all operations of the program, one after the
/// other. If any statement has an error, that error is returned and nothing
/// is written.
pub fn run<'src>(program: &Main<'src>, std_out: &mut Vec<u8>) -> (res: Result<(), Error<'src>>)
    requires
        all_compilable(program@),
    ensures
        match res {
            Ok(_) => {
                &&& program_ops(program@) is Ok
                &&& final(std_out)@ == old(std_out)@ + program_ops(program@)->Ok_0.flatten()
            },
            Err(e) => {
                &&& program_ops(program@) == Err::<Seq<Seq<u8>>, ErrorView>(e@)
                &&& final(std_out)@ == old(std_out)@
            },
        },
{
    let ops = match build_main(program) {
        Ok(ops) => ops,
        Err(e) => {
            return Err(e);
        },
    };
    let ghost plan = ops.deep_view();
    let mut i: usize = 0;
    proof {
        assert(plan.take(0) =~= Seq::<Seq<u8>>::empty());
    }
    while i < ops.len()
        invariant
            plan == ops.deep_view(),
            i <= ops.len(),
            std_out@ == old(std_out)@ + plan.take(i as int).flatten(),
        decreases ops.len() - i,
    {
        proof {
            assert(plan.take(i + 1) =~= plan.take(i as int).push(plan[i as int]));
            plan.take(i as int).lemma_flatten_push(plan[i as int]);
        }
        write_bytes(std_out, ops[i].text.as_bytes());
        i += 1;
    }
    proof {
        assert(plan.take(i as int) =~= plan);
    }
    Ok(())
}

/// Appends `bytes` to the sink.
fn write_bytes(std_out: &mut Vec<u8>, bytes: &[u8])
    ensures
        final(std_out)@ == old(std_out)@ + bytes@,
{
    let mut i: usize = 0;
    while i < bytes.len()
        invariant
            i <= bytes@.len(),
            std_out@ == old(std_out)@ + bytes@.take(i as int),
        decreases bytes@.len() - i,
    {
        std_out.push(bytes[i]);
        assert(bytes@.take(i + 1) =~= bytes@.take(i as int).push(bytes@[i as int]));
        i += 1;
    }
    assert(bytes@.take(i as int) =~= bytes@);
}

} // verus!
