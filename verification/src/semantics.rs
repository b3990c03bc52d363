//! The parser's semantics: what event sequence a given input denotes.
//!
//! Everything here is specification-level.  `process` gives the events of
//! every complete line of the input, `finish_step` the events of the final
//! partial line plus the closing of still-open constructs.  The executable
//! scanner and driver are proved to produce exactly these sequences, so
//! the observable event stream is a function of the concatenated input
//! bytes alone — which is what makes chunking invariance provable.

use vstd::prelude::*;
use crate::arena::{ChunkSlice, Span};
use crate::event::{ErrorCode, Event};
use crate::scan::{
    bare_end, dot_run_end, find_byte, find_nl, has_esc, int_lit_val, is_digit, is_int_lit,
    is_name_char, is_name_start, lemma_find_nl_bounds, name_end, quote_end, skip_spaces, unescape,
};

verus! {

/// The scanner's line mode: ordinary syntax, or inside a freeform block
/// where every line is raw content.
#[derive(Clone, Copy, PartialEq, Eq, Structural, Debug)]
pub enum Mode {
    Normal,
    Freeform,
}

/// The kinds of indentation-scoped constructs the parser keeps open.
#[derive(Clone, Copy, PartialEq, Eq, Structural, Debug)]
pub enum OpenKind {
    Element,
    Embedded,
    Directive,
}

/// One open construct: its kind and the indentation of its opening line.
#[derive(Clone, Copy, PartialEq, Eq, Structural, Debug)]
pub struct Open {
    pub kind: OpenKind,
    pub indent: usize,
}

/// The resumable scanner state carried between lines, at the
/// specification level: the stack of open constructs, the line mode,
/// whether a terminal error has been emitted, and the bytes so far
/// written to the arena's copies region.
#[verifier::ext_equal]
pub struct ScanState {
    pub stack: Seq<Open>,
    pub mode: Mode,
    pub faulted: bool,
    pub copies: Seq<u8>,
}

/// The outcome of one line: the events it emits and the state after it.
#[verifier::ext_equal]
pub struct LineOut {
    pub events: Seq<Event>,
    pub st: ScanState,
}

/// The outcome of scanning a value or an attribute group: events, the
/// position after it, the copies region after it, and whether it ended in
/// the stream's terminal error.
#[verifier::ext_equal]
pub struct ValOut {
    pub events: Seq<Event>,
    pub next: int,
    pub copies: Seq<u8>,
    pub failed: bool,
}

/// The outcome of processing all complete lines from a position.
#[verifier::ext_equal]
pub struct Run {
    pub events: Seq<Event>,
    pub pos: int,
    pub st: ScanState,
}

pub open spec fn mk_span(lo: int, hi: int) -> Span {
    Span { start: lo as usize, end: hi as usize }
}

/// A slice into the arena's input region.
pub open spec fn in_slice(start: int, len: int) -> ChunkSlice {
    ChunkSlice { in_copies: false, start: start as usize, len: len as usize }
}

/// A slice into the arena's copies region.
pub open spec fn copy_slice(start: int, len: int) -> ChunkSlice {
    ChunkSlice { in_copies: true, start: start as usize, len: len as usize }
}

/// The error event for an unexpected byte at `p`, or for running off the
/// end of the input when `p` has reached `end` on the final line.
pub open spec fn err_at(p: int, end: int, at_eof: bool) -> Event {
    Event::Error {
        code: if at_eof && p >= end {
            ErrorCode::UnexpectedEof
        } else {
            ErrorCode::UnexpectedChar
        },
        span: if p < end {
            mk_span(p, p + 1)
        } else {
            mk_span(p, p)
        },
    }
}

pub open spec fn err_ev(code: ErrorCode, lo: int, hi: int) -> Event {
    Event::Error { code, span: mk_span(lo, hi) }
}

/// The End event that closes an open construct, at position `at`.
pub open spec fn end_event(kind: OpenKind, at: int) -> Event {
    match kind {
        OpenKind::Element => Event::ElementEnd { span: mk_span(at, at) },
        OpenKind::Embedded => Event::EmbeddedEnd { span: mk_span(at, at) },
        OpenKind::Directive => Event::DirectiveEnd { span: mk_span(at, at) },
    }
}

/// The outcome of closing constructs: their End events and what remains
/// of the stack.
#[verifier::ext_equal]
pub struct CloseOut {
    pub events: Seq<Event>,
    pub stack: Seq<Open>,
}

/// Closes every open construct whose indentation is at or beyond
/// `indent`, innermost first.
pub open spec fn close_ge(stack: Seq<Open>, indent: int, at: int) -> CloseOut
    decreases stack.len(),
{
    if stack.len() > 0 && stack.last().indent >= indent {
        let rest = close_ge(stack.drop_last(), indent, at);
        CloseOut {
            events: seq![end_event(stack.last().kind, at)] + rest.events,
            stack: rest.stack,
        }
    } else {
        CloseOut { events: Seq::empty(), stack }
    }
}

/// Closes every open construct, innermost first.
pub open spec fn close_all(stack: Seq<Open>, at: int) -> Seq<Event>
    decreases stack.len(),
{
    if stack.len() > 0 {
        seq![end_event(stack.last().kind, at)] + close_all(stack.drop_last(), at)
    } else {
        Seq::empty()
    }
}

// ---------------------------------------------------------------------
// numeric classification
// ---------------------------------------------------------------------

/// The end of the digit run starting at `i`.
pub open spec fn digits_end(s: Seq<u8>, i: int, end: int) -> int
    decreases end - i,
{
    if i < end && is_digit(s[i]) {
        digits_end(s, i + 1, end)
    } else {
        i
    }
}

/// A floating-point literal: optional minus, digits with a decimal point
/// and/or an exponent, with at least one digit overall.
pub open spec fn is_float_lit(s: Seq<u8>, i: int, end: int) -> bool {
    let a = if i < end && s[i] == 45 { i + 1 } else { i };
    let d1 = digits_end(s, a, end);
    let has_dot = d1 < end && s[d1] == 46;
    let d2 = if has_dot { digits_end(s, d1 + 1, end) } else { d1 };
    let has_digit = d1 > a || (has_dot && d2 > d1 + 1);
    let has_exp = d2 < end && (s[d2] == 101 || s[d2] == 69);
    if has_exp {
        let e0 = if d2 + 1 < end && (s[d2 + 1] == 43 || s[d2 + 1] == 45) { d2 + 2 } else { d2 + 1 };
        let d3 = digits_end(s, e0, end);
        has_digit && d3 == end && d3 > e0
    } else {
        has_digit && d2 == end && has_dot
    }
}

/// An integer or float literal.
pub open spec fn is_num_lit(s: Seq<u8>, i: int, end: int) -> bool {
    is_int_lit(s, i, end) || is_float_lit(s, i, end)
}

/// The position of the last `+` or `-` in `(i, end)` that is not an
/// exponent sign, splitting a complex literal into its parts; `-1` when
/// there is none.
pub open spec fn sign_split(s: Seq<u8>, i: int, end: int) -> int
    decreases end - i,
{
    if end - 1 <= i || end > s.len() {
        -1
    } else if (s[end - 1] == 43 || s[end - 1] == 45) && s[end - 2] != 101 && s[end - 2] != 69 {
        end - 1
    } else {
        sign_split(s, i, end - 1)
    }
}

/// A complex literal body (the token without its trailing `i` marker).
pub open spec fn is_complex_body(s: Seq<u8>, i: int, end: int) -> bool {
    let m = sign_split(s, i, end);
    if m >= 0 {
        is_num_lit(s, i, m) && is_num_lit(s, m + 1, end)
    } else {
        i < end && is_num_lit(s, i, end)
    }
}

/// The token `nil`.
pub open spec fn is_kw_nil(s: Seq<u8>, i: int, end: int) -> bool {
    end - i == 3 && s[i] == 110 && s[i + 1] == 105 && s[i + 2] == 108
}

/// The token `true`.
pub open spec fn is_kw_true(s: Seq<u8>, i: int, end: int) -> bool {
    end - i == 4 && s[i] == 116 && s[i + 1] == 114 && s[i + 2] == 117 && s[i + 3] == 101
}

/// The token `false`.
pub open spec fn is_kw_false(s: Seq<u8>, i: int, end: int) -> bool {
    end - i == 5 && s[i] == 102 && s[i + 1] == 97 && s[i + 2] == 108 && s[i + 3] == 115
        && s[i + 4] == 101
}

/// Whether the bare token `[i, end)` is a rational literal, and where its
/// separator stands.
pub open spec fn rational_sep(s: Seq<u8>, i: int, end: int) -> int {
    find_byte(s, i, end, 47)
}

pub open spec fn is_rational_lit(s: Seq<u8>, i: int, end: int) -> bool {
    let d = rational_sep(s, i, end);
    d < end && is_int_lit(s, i, d) && is_int_lit(s, d + 1, end)
}

/// The scalar event a bare token denotes.  Classification is in priority
/// order: keyword, rational, complex, float, integer, bare string.
pub open spec fn bare_value_event(s: Seq<u8>, k: int, te: int) -> Event {
    if is_kw_nil(s, k, te) {
        Event::NilValue { span: mk_span(k, te) }
    } else if is_kw_true(s, k, te) {
        Event::BoolValue { value: true, span: mk_span(k, te) }
    } else if is_kw_false(s, k, te) {
        Event::BoolValue { value: false, span: mk_span(k, te) }
    } else if is_rational_lit(s, k, te) {
        let d = rational_sep(s, k, te);
        Event::RationalValue {
            numerator: int_lit_val(s, k, d) as i64,
            denominator: int_lit_val(s, d + 1, te) as i64,
            span: mk_span(k, te),
        }
    } else if te - 1 > k && s[te - 1] == 105 && is_complex_body(s, k, te - 1) {
        let m = sign_split(s, k, te - 1);
        if m >= 0 {
            Event::ComplexValue {
                real: in_slice(k, m - k),
                imag: in_slice(m, te - 1 - m),
                span: mk_span(k, te),
            }
        } else {
            Event::ComplexValue {
                real: in_slice(k, 0),
                imag: in_slice(k, te - 1 - k),
                span: mk_span(k, te),
            }
        }
    } else if is_float_lit(s, k, te) {
        Event::FloatValue { value: in_slice(k, te - k), span: mk_span(k, te) }
    } else if is_int_lit(s, k, te) {
        Event::IntegerValue { value: int_lit_val(s, k, te) as i64, span: mk_span(k, te) }
    } else {
        Event::StringValue { value: in_slice(k, te - k), span: mk_span(k, te) }
    }
}

// ---------------------------------------------------------------------
// values and arrays
// ---------------------------------------------------------------------

/// Scans one value starting at `k`: a quoted string, an array, or a bare
/// token.  `fuel` only bounds the recursion; callers pass more than the
/// remaining line length, so it never runs out.
pub open spec fn parse_value(
    s: Seq<u8>,
    k: int,
    end: int,
    copies: Seq<u8>,
    at_eof: bool,
    fuel: nat,
) -> ValOut
    decreases fuel,
{
    if fuel == 0 {
        ValOut { events: seq![err_at(k, end, at_eof)], next: k, copies, failed: true }
    } else if k >= end {
        ValOut { events: seq![err_at(k, end, at_eof)], next: k, copies, failed: true }
    } else if s[k] == 34 {
        let qe = quote_end(s, k + 1, end);
        if qe >= end {
            ValOut {
                events: seq![err_ev(ErrorCode::UnclosedStringValue, k, end)],
                next: end,
                copies,
                failed: true,
            }
        } else if has_esc(s, k + 1, qe) {
            let un = unescape(s, k + 1, qe);
            ValOut {
                events: seq![
                    Event::QuotedStringValue {
                        value: copy_slice(copies.len() as int, un.len() as int),
                        span: mk_span(k, qe + 1),
                    },
                ],
                next: qe + 1,
                copies: copies + un,
                failed: false,
            }
        } else {
            ValOut {
                events: seq![
                    Event::QuotedStringValue {
                        value: in_slice(k + 1, qe - (k + 1)),
                        span: mk_span(k, qe + 1),
                    },
                ],
                next: qe + 1,
                copies,
                failed: false,
            }
        }
    } else if s[k] == 91 {
        let inner = array_rest(s, k + 1, end, copies, at_eof, (fuel - 1) as nat);
        ValOut {
            events: seq![Event::ArrayStart { span: mk_span(k, k + 1) }] + inner.events,
            next: inner.next,
            copies: inner.copies,
            failed: inner.failed,
        }
    } else {
        let te = bare_end(s, k, end);
        if te == k {
            ValOut { events: seq![err_at(k, end, at_eof)], next: k, copies, failed: true }
        } else {
            ValOut {
                events: seq![bare_value_event(s, k, te)],
                next: te,
                copies,
                failed: false,
            }
        }
    }
}

/// Scans the items of an array starting at `k` (just past the opening
/// bracket), up to and including the closing bracket.
pub open spec fn array_rest(
    s: Seq<u8>,
    k: int,
    end: int,
    copies: Seq<u8>,
    at_eof: bool,
    fuel: nat,
) -> ValOut
    decreases fuel,
{
    if fuel == 0 {
        ValOut {
            events: seq![err_ev(ErrorCode::UnclosedArray, end, end)],
            next: end,
            copies,
            failed: true,
        }
    } else {
        let p = skip_spaces(s, k, end);
        if p >= end {
            ValOut {
                events: seq![err_ev(ErrorCode::UnclosedArray, end, end)],
                next: end,
                copies,
                failed: true,
            }
        } else if s[p] == 93 {
            ValOut {
                events: seq![Event::ArrayEnd { span: mk_span(p, p + 1) }],
                next: p + 1,
                copies,
                failed: false,
            }
        } else {
            let v = parse_value(s, p, end, copies, at_eof, (fuel - 1) as nat);
            if v.failed {
                v
            } else {
                let q = skip_spaces(s, v.next, end);
                let k2 = if q < end && s[q] == 44 { q + 1 } else { q };
                let rest = array_rest(s, k2, end, v.copies, at_eof, (fuel - 1) as nat);
                ValOut {
                    events: v.events + rest.events,
                    next: rest.next,
                    copies: rest.copies,
                    failed: rest.failed,
                }
            }
        }
    }
}

// ---------------------------------------------------------------------
// attribute groups
// ---------------------------------------------------------------------

/// Scans the entries of a brace-delimited attribute group, starting just
/// past the opening brace, up to and including the closing brace.  Each
/// entry is a key, optionally followed by a colon and a value; a key
/// alone is a presence-only attribute.
pub open spec fn attrs_rest(
    s: Seq<u8>,
    k: int,
    end: int,
    copies: Seq<u8>,
    at_eof: bool,
    fuel: nat,
) -> ValOut
    decreases fuel,
{
    if fuel == 0 {
        ValOut {
            events: seq![err_ev(ErrorCode::Unclosed, end, end)],
            next: end,
            copies,
            failed: true,
        }
    } else {
        let p = skip_spaces(s, k, end);
        if p >= end {
            ValOut {
                events: seq![err_ev(ErrorCode::Unclosed, end, end)],
                next: end,
                copies,
                failed: true,
            }
        } else if s[p] == 125 {
            ValOut { events: Seq::empty(), next: p + 1, copies, failed: false }
        } else if !is_name_start(s[p]) {
            ValOut { events: seq![err_at(p, end, at_eof)], next: p, copies, failed: true }
        } else {
            let kend = name_end(s, p, end);
            let attr_ev = Event::Attribute { key: in_slice(p, kend - p), span: mk_span(p, kend) };
            let after = if kend < end && s[kend] == 58 {
                let q = skip_spaces(s, kend + 1, end);
                let v = parse_value(s, q, end, copies, at_eof, (end - q + 2) as nat);
                ValOut {
                    events: seq![attr_ev] + v.events,
                    next: v.next,
                    copies: v.copies,
                    failed: v.failed,
                }
            } else {
                ValOut { events: seq![attr_ev], next: kend, copies, failed: false }
            };
            if after.failed {
                after
            } else {
                let r = skip_spaces(s, after.next, end);
                if r >= end {
                    ValOut {
                        events: after.events + seq![err_ev(ErrorCode::Unclosed, end, end)],
                        next: end,
                        copies: after.copies,
                        failed: true,
                    }
                } else if s[r] == 44 {
                    let rest = attrs_rest(s, r + 1, end, after.copies, at_eof, (fuel - 1) as nat);
                    ValOut {
                        events: after.events + rest.events,
                        next: rest.next,
                        copies: rest.copies,
                        failed: rest.failed,
                    }
                } else if s[r] == 125 {
                    ValOut { events: after.events, next: r + 1, copies: after.copies, failed: false }
                } else {
                    ValOut {
                        events: after.events + seq![err_at(r, end, at_eof)],
                        next: r,
                        copies: after.copies,
                        failed: true,
                    }
                }
            }
        }
    }
}

// ---------------------------------------------------------------------
// line forms
// ---------------------------------------------------------------------

/// Whether the dotted class run `[k, ce)` is well formed: every dot is
/// followed, within the run, by a name character.
pub open spec fn dotrun_valid(s: Seq<u8>, k: int, ce: int) -> bool {
    forall|m: int| k <= m < ce && #[trigger] s[m] == 46 ==> m + 1 < ce && is_name_char(s[m + 1])
}

/// The opener of an element line: optional name, optional `#id`,
/// optional dotted classes, optional suffix.  On success the single event
/// is the ElementStart; on failure the single event is the fault.
pub open spec fn element_opener(
    s: Seq<u8>,
    j: int,
    end: int,
    copies: Seq<u8>,
    at_eof: bool,
) -> ValOut {
    let name = if is_name_start(s[j]) {
        Some(in_slice(j, name_end(s, j, end) - j))
    } else {
        None
    };
    let k0 = if is_name_start(s[j]) { name_end(s, j, end) } else { j };
    if k0 < end && s[k0] == 35 && name_end(s, k0 + 1, end) == k0 + 1 {
        ValOut { events: seq![err_at(k0 + 1, end, at_eof)], next: end, copies, failed: true }
    } else {
        let id = if k0 < end && s[k0] == 35 {
            Some(in_slice(k0 + 1, name_end(s, k0 + 1, end) - (k0 + 1)))
        } else {
            None
        };
        let k1 = if k0 < end && s[k0] == 35 { name_end(s, k0 + 1, end) } else { k0 };
        if k1 < end && s[k1] == 46 && !dotrun_valid(s, k1, dot_run_end(s, k1, end)) {
            ValOut {
                events: seq![err_ev(ErrorCode::UnexpectedChar, k1, dot_run_end(s, k1, end))],
                next: end,
                copies,
                failed: true,
            }
        } else {
            let classes = if k1 < end && s[k1] == 46 {
                Some(in_slice(k1 + 1, dot_run_end(s, k1, end) - (k1 + 1)))
            } else {
                None
            };
            let k2 = if k1 < end && s[k1] == 46 { dot_run_end(s, k1, end) } else { k1 };
            let suffix = if k2 < end && (s[k2] == 33 || s[k2] == 63) {
                Some(in_slice(k2, 1))
            } else {
                None
            };
            let k3 = if k2 < end && (s[k2] == 33 || s[k2] == 63) { k2 + 1 } else { k2 };
            ValOut {
                events: seq![
                    Event::ElementStart { name, id, classes, suffix, span: mk_span(j, k3) },
                ],
                next: k3,
                copies,
                failed: false,
            }
        }
    }
}

/// An element line: the opener, then an optional brace-delimited
/// attribute group, then trailing text.
pub open spec fn do_element(
    s: Seq<u8>,
    j: int,
    end: int,
    indent: int,
    st: ScanState,
    at_eof: bool,
) -> LineOut {
    let o = element_opener(s, j, end, st.copies, at_eof);
    if o.failed {
        LineOut { events: o.events, st: ScanState { faulted: true, ..st } }
    } else {
        let k3 = o.next;
        let stack2 = st.stack.push(Open { kind: OpenKind::Element, indent: indent as usize });
        if k3 < end && s[k3] == 123 {
            let a = attrs_rest(s, k3 + 1, end, st.copies, at_eof, (end - k3 + 2) as nat);
            if a.failed {
                LineOut {
                    events: o.events + a.events,
                    st: ScanState { stack: stack2, copies: a.copies, faulted: true, ..st },
                }
            } else {
                let t = skip_spaces(s, a.next, end);
                let tev: Seq<Event> = if t < end {
                    seq![Event::Text { content: in_slice(t, end - t), span: mk_span(t, end) }]
                } else {
                    Seq::empty()
                };
                LineOut {
                    events: o.events + a.events + tev,
                    st: ScanState { stack: stack2, copies: a.copies, ..st },
                }
            }
        } else {
            let t = skip_spaces(s, k3, end);
            let tev: Seq<Event> = if t < end {
                seq![Event::Text { content: in_slice(t, end - t), span: mk_span(t, end) }]
            } else {
                Seq::empty()
            };
            LineOut {
                events: o.events + tev,
                st: ScanState { stack: stack2, ..st },
            }
        }
    }
}

/// A standalone value line: one value, then nothing but spaces.
pub open spec fn do_value_line(
    s: Seq<u8>,
    j: int,
    end: int,
    st: ScanState,
    at_eof: bool,
) -> LineOut {
    let v = parse_value(s, j, end, st.copies, at_eof, (end - j + 2) as nat);
    if v.failed {
        LineOut { events: v.events, st: ScanState { copies: v.copies, faulted: true, ..st } }
    } else {
        let r = skip_spaces(s, v.next, end);
        if r < end {
            LineOut {
                events: v.events + seq![err_at(r, end, at_eof)],
                st: ScanState { copies: v.copies, faulted: true, ..st },
            }
        } else {
            LineOut { events: v.events, st: ScanState { copies: v.copies, ..st } }
        }
    }
}

/// A directive line: `@name`, optionally `@ns:name`, either opening an
/// indentation-scoped directive or, with a parenthesized body, an inline
/// directive; `@!` marks the inline body raw.
pub open spec fn do_directive(
    s: Seq<u8>,
    j: int,
    end: int,
    indent: int,
    st: ScanState,
    at_eof: bool,
) -> LineOut {
    let raw = j + 1 < end && s[j + 1] == 33;
    let a = if raw { j + 2 } else { j + 1 };
    let n1 = name_end(s, a, end);
    if n1 == a {
        LineOut { events: seq![err_at(a, end, at_eof)], st: ScanState { faulted: true, ..st } }
    } else if n1 < end && s[n1] == 58 && name_end(s, n1 + 1, end) == n1 + 1 {
        LineOut {
            events: seq![err_at(n1 + 1, end, at_eof)],
            st: ScanState { faulted: true, ..st },
        }
    } else {
        let has_ns = n1 < end && s[n1] == 58;
        let namespace = if has_ns { Some(in_slice(a, n1 - a)) } else { None };
        let nstart = if has_ns { n1 + 1 } else { a };
        let nend = if has_ns { name_end(s, n1 + 1, end) } else { n1 };
        let name = in_slice(nstart, nend - nstart);
        if nend < end && s[nend] == 40 {
            let close = find_byte(s, nend + 1, end, 41);
            if close >= end {
                LineOut {
                    events: seq![err_ev(ErrorCode::Unclosed, j, end)],
                    st: ScanState { faulted: true, ..st },
                }
            } else {
                let r = skip_spaces(s, close + 1, end);
                if r < end {
                    LineOut {
                        events: seq![err_at(r, end, at_eof)],
                        st: ScanState { faulted: true, ..st },
                    }
                } else {
                    LineOut {
                        events: seq![
                            Event::InlineDirective {
                                name,
                                namespace,
                                raw,
                                content: in_slice(nend + 1, close - (nend + 1)),
                                span: mk_span(j, close + 1),
                            },
                        ],
                        st,
                    }
                }
            }
        } else if raw {
            LineOut {
                events: seq![err_at(nend, end, at_eof)],
                st: ScanState { faulted: true, ..st },
            }
        } else {
            let r = skip_spaces(s, nend, end);
            if r < end {
                LineOut {
                    events: seq![err_at(r, end, at_eof)],
                    st: ScanState { faulted: true, ..st },
                }
            } else {
                LineOut {
                    events: seq![
                        Event::DirectiveStart { name, namespace, span: mk_span(j, nend) },
                    ],
                    st: ScanState {
                        stack: st.stack.push(
                            Open { kind: OpenKind::Directive, indent: indent as usize },
                        ),
                        ..st
                    },
                }
            }
        }
    }
}

/// A one-token line holding a slice payload after a marker byte: an id
/// reference, an attribute merge, or an embedded-block opener.
pub open spec fn do_marker(
    s: Seq<u8>,
    j: int,
    end: int,
    indent: int,
    st: ScanState,
    at_eof: bool,
) -> LineOut {
    let idend = name_end(s, j + 1, end);
    let trailing = skip_spaces(s, idend, end);
    if s[j] == 33 {
        // embedded block, name optional
        if trailing < end {
            LineOut {
                events: seq![err_at(trailing, end, at_eof)],
                st: ScanState { faulted: true, ..st },
            }
        } else {
            let name = if idend > j + 1 { Some(in_slice(j + 1, idend - (j + 1))) } else { None };
            LineOut {
                events: seq![Event::EmbeddedStart { name, span: mk_span(j, idend) }],
                st: ScanState {
                    stack: st.stack.push(
                        Open { kind: OpenKind::Embedded, indent: indent as usize },
                    ),
                    ..st
                },
            }
        }
    } else {
        // id reference or attribute merge, id required
        if idend == j + 1 {
            LineOut {
                events: seq![err_at(j + 1, end, at_eof)],
                st: ScanState { faulted: true, ..st },
            }
        } else if trailing < end {
            LineOut {
                events: seq![err_at(trailing, end, at_eof)],
                st: ScanState { faulted: true, ..st },
            }
        } else {
            let id = in_slice(j + 1, idend - (j + 1));
            let ev = if s[j] == 42 {
                Event::IdReference { id, span: mk_span(j, idend) }
            } else {
                Event::AttributeMerge { id, span: mk_span(j, idend) }
            };
            LineOut { events: seq![ev], st }
        }
    }
}

/// An interpolation line: `$(expression)`.
pub open spec fn do_interp(
    s: Seq<u8>,
    j: int,
    end: int,
    st: ScanState,
    at_eof: bool,
) -> LineOut {
    if j + 1 >= end || s[j + 1] != 40 {
        LineOut {
            events: seq![err_at(j + 1, end, at_eof)],
            st: ScanState { faulted: true, ..st },
        }
    } else {
        let close = find_byte(s, j + 2, end, 41);
        if close >= end {
            LineOut {
                events: seq![err_ev(ErrorCode::UnclosedInterpolation, j, end)],
                st: ScanState { faulted: true, ..st },
            }
        } else {
            let r = skip_spaces(s, close + 1, end);
            if r < end {
                LineOut {
                    events: seq![err_at(r, end, at_eof)],
                    st: ScanState { faulted: true, ..st },
                }
            } else {
                LineOut {
                    events: seq![
                        Event::Interpolation {
                            expression: in_slice(j + 2, close - (j + 2)),
                            span: mk_span(j, close + 1),
                        },
                    ],
                    st,
                }
            }
        }
    }
}

/// Whether `[j, end)` is exactly the freeform delimiter `'''`.
pub open spec fn is_fence(s: Seq<u8>, j: int, end: int) -> bool {
    end - j == 3 && s[j] == 39 && s[j + 1] == 39 && s[j + 2] == 39
}

/// One line of input: the events it emits and the state after it.
#[verifier::opaque]
pub open spec fn do_line(
    s: Seq<u8>,
    start: int,
    end: int,
    st: ScanState,
    at_eof: bool,
) -> LineOut {
    if st.faulted {
        LineOut { events: Seq::empty(), st }
    } else if st.mode is Freeform {
        if is_fence(s, start, end) {
            LineOut {
                events: seq![Event::FreeformEnd { span: mk_span(start, end) }],
                st: ScanState { mode: Mode::Normal, ..st },
            }
        } else {
            LineOut {
                events: seq![
                    Event::RawContent {
                        content: in_slice(start, end - start),
                        span: mk_span(start, end),
                    },
                ],
                st,
            }
        }
    } else {
        let j = skip_spaces(s, start, end);
        if j < end && s[j] == 9 {
            LineOut {
                events: seq![err_ev(ErrorCode::NoTabs, j, j + 1)],
                st: ScanState { faulted: true, ..st },
            }
        } else if j >= end {
            LineOut { events: Seq::empty(), st }
        } else {
            let indent = j - start;
            let closed = close_ge(st.stack, indent, j);
            let st1 = ScanState { stack: closed.stack, ..st };
            let b = s[j];
            let inner = if b == 59 {
                LineOut {
                    events: seq![
                        Event::Comment {
                            content: in_slice(j + 1, end - (j + 1)),
                            span: mk_span(j, end),
                        },
                    ],
                    st: st1,
                }
            } else if b == 39 {
                if is_fence(s, j, end) {
                    LineOut {
                        events: seq![Event::FreeformStart { span: mk_span(j, end) }],
                        st: ScanState { mode: Mode::Freeform, ..st1 },
                    }
                } else {
                    LineOut {
                        events: seq![err_at(j, end, at_eof)],
                        st: ScanState { faulted: true, ..st1 },
                    }
                }
            } else if b == 64 {
                do_directive(s, j, end, indent, st1, at_eof)
            } else if b == 33 || b == 42 || b == 38 {
                do_marker(s, j, end, indent, st1, at_eof)
            } else if b == 36 {
                do_interp(s, j, end, st1, at_eof)
            } else if is_name_start(b) || b == 35 || b == 46 {
                do_element(s, j, end, indent, st1, at_eof)
            } else if b == 34 || is_digit(b) || b == 45 || b == 91 {
                do_value_line(s, j, end, st1, at_eof)
            } else {
                LineOut {
                    events: seq![err_at(j, end, at_eof)],
                    st: ScanState { faulted: true, ..st1 },
                }
            };
            LineOut { events: closed.events + inner.events, st: inner.st }
        }
    }
}

// ---------------------------------------------------------------------
// the streaming steps
// ---------------------------------------------------------------------

/// Processes every complete line from `p`: each line up to a newline
/// still within the input, stopping at the first line that faults.
pub open spec fn process(s: Seq<u8>, p: int, st: ScanState) -> Run
    decreases s.len() - p,
    via process_decreases
{
    if st.faulted || p < 0 || p >= s.len() {
        Run { events: Seq::empty(), pos: p, st }
    } else {
        let nl = find_nl(s, p);
        if nl >= s.len() {
            Run { events: Seq::empty(), pos: p, st }
        } else {
            let lo = do_line(s, p, nl, st, false);
            if lo.st.faulted {
                Run { events: lo.events, pos: nl + 1, st: lo.st }
            } else {
                let r = process(s, nl + 1, lo.st);
                Run { events: lo.events + r.events, pos: r.pos, st: r.st }
            }
        }
    }
}

#[via_fn]
proof fn process_decreases(s: Seq<u8>, p: int, st: ScanState) {
    if !(st.faulted || p < 0 || p >= s.len()) {
        lemma_find_nl_bounds(s, p);
    }
}

/// The end of input: the final partial line, if any, then either the
/// freeform fault or the closing of every still-open construct.
pub open spec fn finish_step(s: Seq<u8>, p: int, st: ScanState) -> Run {
    if st.faulted {
        Run { events: Seq::empty(), pos: p, st }
    } else {
        let lo = if p < s.len() {
            do_line(s, p, s.len() as int, st, true)
        } else {
            LineOut { events: Seq::empty(), st }
        };
        if lo.st.faulted {
            Run { events: lo.events, pos: s.len() as int, st: lo.st }
        } else if lo.st.mode is Freeform {
            Run {
                events: lo.events
                    + seq![err_ev(ErrorCode::UnclosedFreeform, s.len() as int, s.len() as int)],
                pos: s.len() as int,
                st: ScanState { faulted: true, ..lo.st },
            }
        } else {
            Run {
                events: lo.events + close_all(lo.st.stack, s.len() as int),
                pos: s.len() as int,
                st: ScanState { stack: Seq::empty(), ..lo.st },
            }
        }
    }
}

/// The initial scanner state.
pub open spec fn init_state() -> ScanState {
    ScanState { stack: Seq::empty(), mode: Mode::Normal, faulted: false, copies: Seq::empty() }
}

/// The full event stream an input denotes: feed everything, then finish.
pub open spec fn doc_events(input: Seq<u8>) -> Seq<Event> {
    let r = process(input, 0, init_state());
    r.events + finish_step(input, r.pos, r.st).events
}

} // verus!
