//! The syntax tree of a program: a list of macro invocations whose arguments
//! are string literals.
//!
//! Every position is a byte offset into the source text, so the model of a
//! piece of text is the sequence of its UTF-8 bytes.

use std::ops::Range;
use vstd::prelude::*;
use vstd::string::StringSliceAdditionalSpecFns;

verus! {

/// A half-open interval `[start, end)` of byte offsets into the source.
pub struct Span {
    pub start: int,
    pub end: int,
}

impl Span {
    /// Whether the interval ends no earlier than it starts.
    pub open spec fn wf(self) -> bool {
        self.start <= self.end
    }
}

/// The interval that a range of offsets stands for.
pub open spec fn span_of(r: Range<usize>) -> Span {
    Span { start: r.start as int, end: r.end as int }
}

/// The intervals that a list of ranges stands for, in order.
pub open spec fn spans_of(rs: Seq<Range<usize>>) -> Seq<Span> {
    Seq::new(rs.len(), |i: int| span_of(rs[i]))
}

/// A string literal: where it stands in the source, and the text between its
/// quotes.
#[derive(Debug)]
pub struct StrLit<'s> {
    pub span: Range<usize>,
    pub val: &'s str,
}

/// The model of a string literal: its interval and the bytes of its text.
pub struct StrLitView {
    pub span: Span,
    pub val: Seq<u8>,
}

impl<'s> View for StrLit<'s> {
    type V = StrLitView;

    open spec fn view(&self) -> StrLitView {
        StrLitView { span: span_of(self.span), val: self.val.spec_bytes() }
    }
}

impl<'s> DeepView for StrLit<'s> {
    type V = StrLitView;

    open spec fn deep_view(&self) -> StrLitView {
        self@
    }
}

/// The name of a macro, with its place in the source.
#[derive(Debug)]
pub struct Name<'s> {
    pub span: Range<usize>,
    pub name: &'s str,
}

/// The model of a macro name: its interval and its characters.
pub struct NameView {
    pub span: Span,
    pub name: Seq<char>,
}

impl<'s> View for Name<'s> {
    type V = NameView;

    open spec fn view(&self) -> NameView {
        NameView { span: span_of(self.span), name: self.name@ }
    }
}

impl<'s> DeepView for Name<'s> {
    type V = NameView;

    open spec fn deep_view(&self) -> NameView {
        self@
    }
}

/// One macro invocation: its name and its arguments in order.
#[derive(Debug)]
pub struct Macro<'s> {
    pub name: Name<'s>,
    pub args: Vec<StrLit<'s>>,
}

/// The model of a macro invocation.
pub struct MacroView {
    pub name: NameView,
    pub args: Seq<StrLitView>,
}

impl<'s> View for Macro<'s> {
    type V = MacroView;

    open spec fn view(&self) -> MacroView {
        MacroView { name: self.name@, args: self.args.deep_view() }
    }
}

impl<'s> DeepView for Macro<'s> {
    type V = MacroView;

    open spec fn deep_view(&self) -> MacroView {
        self@
    }
}

/// A whole program: the statements of `main`, in source order.
#[derive(Debug)]
pub struct Main<'s> {
    pub statements: Vec<Macro<'s>>,
}

impl<'s> View for Main<'s> {
    type V = Seq<MacroView>;

    open spec fn view(&self) -> Seq<MacroView> {
        self.statements.deep_view()
    }
}

impl<'s> DeepView for Main<'s> {
    type V = Seq<MacroView>;

    open spec fn deep_view(&self) -> Seq<MacroView> {
        self@
    }
}

} // verus!
