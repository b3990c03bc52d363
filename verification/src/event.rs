//! The event model: the closed set of typed events the parser emits.

use vstd::prelude::*;
use crate::arena::{ChunkSlice, Span};

verus! {

/// The fault taxonomy, one code per distinct diagnostic.
#[derive(Clone, Copy, PartialEq, Eq, Structural, Debug)]
pub enum ErrorCode {
    /// Input ended inside an open construct.
    UnexpectedEof,
    /// A byte that no construct allows at that position.
    UnexpectedChar,
    /// An attribute brace group left open at end of line.
    Unclosed,
    /// A quoted string left open.
    UnclosedStringValue,
    /// An array bracket left open at end of line.
    UnclosedArray,
    /// A freeform block left open at end of input.
    UnclosedFreeform,
    /// A text run left open.
    UnclosedText,
    /// An interpolation expression left open at end of line.
    UnclosedInterpolation,
    /// A tab character where indentation must be space-only.
    NoTabs,
}

impl ErrorCode {
    /// The wire name of the code, as it crosses the host boundary.
    pub fn wire_name(&self) -> (r: &'static str)
        ensures
            *self is UnexpectedEof ==> r@ == "unexpected_eof"@,
            *self is UnexpectedChar ==> r@ == "unexpected_char"@,
            *self is Unclosed ==> r@ == "unclosed"@,
            *self is UnclosedStringValue ==> r@ == "unclosed_string_value"@,
            *self is UnclosedArray ==> r@ == "unclosed_array"@,
            *self is UnclosedFreeform ==> r@ == "unclosed_freeform"@,
            *self is UnclosedText ==> r@ == "unclosed_text"@,
            *self is UnclosedInterpolation ==> r@ == "unclosed_interpolation"@,
            *self is NoTabs ==> r@ == "no_tabs"@,
    {
        match self {
            ErrorCode::UnexpectedEof => "unexpected_eof",
            ErrorCode::UnexpectedChar => "unexpected_char",
            ErrorCode::Unclosed => "unclosed",
            ErrorCode::UnclosedStringValue => "unclosed_string_value",
            ErrorCode::UnclosedArray => "unclosed_array",
            ErrorCode::UnclosedFreeform => "unclosed_freeform",
            ErrorCode::UnclosedText => "unclosed_text",
            ErrorCode::UnclosedInterpolation => "unclosed_interpolation",
            ErrorCode::NoTabs => "no_tabs",
        }
    }
}

/// One unit of parser output: a structural marker, a content or value
/// event, or a terminal diagnostic.  Every event carries the span of the
/// bytes it was recognized from; content-bearing events also carry a
/// `ChunkSlice` locating their content in the arena.
///
/// An element opener's classes travel as one slice over the dotted run
/// (`class1.class2`): class names cannot contain a dot, so the list is
/// recovered by splitting on `.`, and the handle stays zero-copy.
#[derive(Clone, Copy, PartialEq, Eq, Structural, Debug)]
pub enum Event {
    ElementStart {
        name: Option<ChunkSlice>,
        id: Option<ChunkSlice>,
        classes: Option<ChunkSlice>,
        suffix: Option<ChunkSlice>,
        span: Span,
    },
    ElementEnd { span: Span },
    EmbeddedStart { name: Option<ChunkSlice>, span: Span },
    EmbeddedEnd { span: Span },
    ArrayStart { span: Span },
    ArrayEnd { span: Span },
    DirectiveStart { name: ChunkSlice, namespace: Option<ChunkSlice>, span: Span },
    DirectiveEnd { span: Span },
    FreeformStart { span: Span },
    FreeformEnd { span: Span },
    Attribute { key: ChunkSlice, span: Span },
    IdReference { id: ChunkSlice, span: Span },
    AttributeMerge { id: ChunkSlice, span: Span },
    NilValue { span: Span },
    BoolValue { value: bool, span: Span },
    IntegerValue { value: i64, span: Span },
    /// A floating-point literal; the parser classifies it but hands the
    /// literal bytes through unmodified, to be interpreted by the caller.
    FloatValue { value: ChunkSlice, span: Span },
    RationalValue { numerator: i64, denominator: i64, span: Span },
    /// A complex literal, split into its real and imaginary literal parts,
    /// handed through as raw bytes like a float.
    ComplexValue { real: ChunkSlice, imag: ChunkSlice, span: Span },
    StringValue { value: ChunkSlice, span: Span },
    QuotedStringValue { value: ChunkSlice, span: Span },
    Text { content: ChunkSlice, span: Span },
    Comment { content: ChunkSlice, span: Span },
    RawContent { content: ChunkSlice, span: Span },
    InlineDirective {
        name: ChunkSlice,
        namespace: Option<ChunkSlice>,
        raw: bool,
        content: ChunkSlice,
        span: Span,
    },
    Interpolation { expression: ChunkSlice, span: Span },
    Error { code: ErrorCode, span: Span },
}

impl Event {
    /// The span every event carries.
    pub open spec fn span(self) -> Span {
        match self {
            Event::ElementStart { span, .. } => span,
            Event::ElementEnd { span } => span,
            Event::EmbeddedStart { span, .. } => span,
            Event::EmbeddedEnd { span } => span,
            Event::ArrayStart { span } => span,
            Event::ArrayEnd { span } => span,
            Event::DirectiveStart { span, .. } => span,
            Event::DirectiveEnd { span } => span,
            Event::FreeformStart { span } => span,
            Event::FreeformEnd { span } => span,
            Event::Attribute { span, .. } => span,
            Event::IdReference { span, .. } => span,
            Event::AttributeMerge { span, .. } => span,
            Event::NilValue { span } => span,
            Event::BoolValue { span, .. } => span,
            Event::IntegerValue { span, .. } => span,
            Event::FloatValue { span, .. } => span,
            Event::RationalValue { span, .. } => span,
            Event::ComplexValue { span, .. } => span,
            Event::StringValue { span, .. } => span,
            Event::QuotedStringValue { span, .. } => span,
            Event::Text { span, .. } => span,
            Event::Comment { span, .. } => span,
            Event::RawContent { span, .. } => span,
            Event::InlineDirective { span, .. } => span,
            Event::Interpolation { span, .. } => span,
            Event::Error { span, .. } => span,
        }
    }
}

} // verus!
