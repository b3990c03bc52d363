//! Span discipline: every emitted event has `span.end >= span.start`,
//! every event lies inside the line it came from, and span starts are
//! non-decreasing across the emission order.  The development follows the
//! semantics bottom-up and ends in a theorem about the whole document.

use vstd::prelude::*;
use crate::event::Event;
use crate::scan::{
    bare_end, lemma_bare_end_bounds, lemma_dot_run_end_bounds, lemma_find_byte_bounds,
    lemma_find_nl_bounds, lemma_name_end_bounds, lemma_quote_end_bounds, lemma_skip_spaces_bounds,
    name_end, quote_end, skip_spaces,
};
use crate::semantics::{
    array_rest, attrs_rest, bare_value_event, close_all, close_ge, do_directive, do_element,
    do_interp, do_line, do_marker, do_value_line, doc_events, element_opener, finish_step,
    init_state, mk_span, parse_value, process, Open, ScanState, ValOut,
};
use crate::laws::{lemma_attrs_rest_next_bounds, lemma_parse_value_bounds};

verus! {

/// All spans well formed (`end >= start`), inside `[lo, hi]`, with starts
/// non-decreasing in emission order.
pub open spec fn spans_chained(evs: Seq<Event>, lo: int, hi: int) -> bool {
    &&& forall|i: int|
        0 <= i < evs.len() ==> lo <= (#[trigger] evs[i]).span().start
            && evs[i].span().start <= evs[i].span().end && evs[i].span().end <= hi
    &&& forall|i: int|
        0 <= i && i + 1 < evs.len() ==> (#[trigger] evs[i]).span().start
            <= evs[i + 1].span().start
}

pub proof fn lemma_spans_chained_widen(evs: Seq<Event>, lo: int, hi: int, lo2: int, hi2: int)
    requires
        spans_chained(evs, lo, hi),
        lo2 <= lo,
        hi <= hi2,
    ensures
        spans_chained(evs, lo2, hi2),
{
}

pub proof fn lemma_spans_chained_concat(e1: Seq<Event>, e2: Seq<Event>, lo: int, m: int, hi: int)
    requires
        spans_chained(e1, lo, m),
        spans_chained(e2, m, hi),
        lo <= m <= hi,
    ensures
        spans_chained(e1 + e2, lo, hi),
{
    let e = e1 + e2;
    assert forall|i: int|
        0 <= i < e.len() implies lo <= (#[trigger] e[i]).span().start
            && e[i].span().start <= e[i].span().end && e[i].span().end <= hi by {
        if i < e1.len() {
            assert(e[i] == e1[i]);
        } else {
            assert(e[i] == e2[i - e1.len()]);
        }
    }
    assert forall|i: int|
        0 <= i && i + 1 < e.len() implies (#[trigger] e[i]).span().start
            <= e[i + 1].span().start by {
        if i + 1 < e1.len() {
            assert(e[i] == e1[i] && e[i + 1] == e1[i + 1]);
        } else if i >= e1.len() {
            assert(e[i] == e2[i - e1.len()] && e[i + 1] == e2[i + 1 - e1.len()]);
        } else {
            assert(e[i] == e1[i] && e[i + 1] == e2[0]);
        }
    }
}

pub proof fn lemma_close_ge_spans(stack: Seq<Open>, indent: int, at: int)
    requires
        0 <= at <= usize::MAX,
    ensures
        spans_chained(close_ge(stack, indent, at).events, at, at),
    decreases stack.len(),
{
    if stack.len() > 0 && stack.last().indent >= indent {
        lemma_close_ge_spans(stack.drop_last(), indent, at);
        let rest = close_ge(stack.drop_last(), indent, at);
        lemma_spans_chained_concat(
            seq![crate::semantics::end_event(stack.last().kind, at)],
            rest.events,
            at,
            at,
            at,
        );
    }
}

pub proof fn lemma_close_all_spans(stack: Seq<Open>, at: int)
    requires
        0 <= at <= usize::MAX,
    ensures
        spans_chained(close_all(stack, at), at, at),
    decreases stack.len(),
{
    if stack.len() > 0 {
        lemma_close_all_spans(stack.drop_last(), at);
        lemma_spans_chained_concat(
            seq![crate::semantics::end_event(stack.last().kind, at)],
            close_all(stack.drop_last(), at),
            at,
            at,
            at,
        );
    }
}

pub proof fn lemma_bare_value_event_span(s: Seq<u8>, k: int, te: int)
    requires
        0 <= k <= te <= usize::MAX,
    ensures
        bare_value_event(s, k, te).span() == mk_span(k, te),
{
}

pub proof fn lemma_parse_value_spans(
    s: Seq<u8>,
    k: int,
    end: int,
    copies: Seq<u8>,
    at_eof: bool,
    fuel: nat,
)
    requires
        0 <= k <= end <= usize::MAX,
    ensures
        ({
            let v = parse_value(s, k, end, copies, at_eof, fuel);
            &&& k <= v.next <= end
            &&& !v.failed ==> spans_chained(v.events, k, v.next)
            &&& v.failed ==> spans_chained(v.events, k, end)
        }),
    decreases fuel, 1nat,
{
    let v = parse_value(s, k, end, copies, at_eof, fuel);
    if fuel > 0 && k < end {
        if s[k] == 34 {
            lemma_quote_end_bounds(s, k + 1, end);
        } else if s[k] == 91 {
            lemma_array_rest_spans(s, k + 1, end, copies, at_eof, (fuel - 1) as nat);
            let inner = array_rest(s, k + 1, end, copies, at_eof, (fuel - 1) as nat);
            if inner.failed {
                lemma_spans_chained_widen(inner.events, k + 1, end, k + 1, end);
                lemma_spans_chained_concat(
                    seq![Event::ArrayStart { span: mk_span(k, k + 1) }],
                    inner.events,
                    k,
                    k + 1,
                    end,
                );
            } else {
                lemma_spans_chained_concat(
                    seq![Event::ArrayStart { span: mk_span(k, k + 1) }],
                    inner.events,
                    k,
                    k + 1,
                    inner.next,
                );
            }
        } else {
            lemma_bare_end_bounds(s, k, end);
            let te = bare_end(s, k, end);
            if te > k {
                lemma_bare_value_event_span(s, k, te);
            }
        }
    }
}

pub proof fn lemma_array_rest_spans(
    s: Seq<u8>,
    k: int,
    end: int,
    copies: Seq<u8>,
    at_eof: bool,
    fuel: nat,
)
    requires
        0 <= k <= end <= usize::MAX,
    ensures
        ({
            let v = array_rest(s, k, end, copies, at_eof, fuel);
            &&& k <= v.next <= end
            &&& !v.failed ==> spans_chained(v.events, k, v.next)
            &&& v.failed ==> spans_chained(v.events, k, end)
        }),
    decreases fuel, 0nat,
{
    if fuel > 0 {
        lemma_skip_spaces_bounds(s, k, end);
        let p = skip_spaces(s, k, end);
        if p < end && s[p] != 93 {
            lemma_parse_value_spans(s, p, end, copies, at_eof, (fuel - 1) as nat);
            let v = parse_value(s, p, end, copies, at_eof, (fuel - 1) as nat);
            if v.failed {
                lemma_spans_chained_widen(v.events, p, end, k, end);
            } else {
                lemma_skip_spaces_bounds(s, v.next, end);
                let q = skip_spaces(s, v.next, end);
                let k2 = if q < end && s[q] == 44 { q + 1 } else { q };
                lemma_array_rest_spans(s, k2, end, v.copies, at_eof, (fuel - 1) as nat);
                let rest = array_rest(s, k2, end, v.copies, at_eof, (fuel - 1) as nat);
                if rest.failed {
                    lemma_spans_chained_widen(rest.events, k2, end, v.next, end);
                    lemma_spans_chained_widen(v.events, p, v.next, k, v.next);
                    lemma_spans_chained_concat(v.events, rest.events, k, v.next, end);
                } else {
                    lemma_spans_chained_widen(rest.events, k2, rest.next, v.next, rest.next);
                    lemma_spans_chained_widen(v.events, p, v.next, k, v.next);
                    lemma_spans_chained_concat(v.events, rest.events, k, v.next, rest.next);
                }
            }
        }
    }
}

/// One attribute entry (key and optional value), starting at its key.
#[verifier::rlimit(100)]
#[verifier::spinoff_prover]
pub proof fn lemma_attr_entry_spans(
    s: Seq<u8>,
    p: int,
    end: int,
    copies: Seq<u8>,
    at_eof: bool,
)
    requires
        0 <= p < end <= usize::MAX,
        crate::scan::is_name_start(s[p]),
    ensures
        ({
            let kend = name_end(s, p, end);
            let attr_ev = Event::Attribute {
                key: crate::semantics::in_slice(p, kend - p),
                span: mk_span(p, kend),
            };
            let after: ValOut = if kend < end && s[kend] == 58 {
                let q = skip_spaces(s, kend + 1, end);
                let v = parse_value(s, q, end, copies, at_eof, (end - q + 2) as nat);
                ValOut {
                    events: seq![attr_ev] + v.events,
                    next: v.next,
                    copies: v.copies,
                    failed: v.failed,
                }
            } else {
                ValOut { events: seq![attr_ev], next: kend, copies, failed: false }
            };
            &&& p <= after.next <= end
            &&& !after.failed ==> spans_chained(after.events, p, after.next)
            &&& after.failed ==> spans_chained(after.events, p, end)
        }),
{
    lemma_name_end_bounds(s, p, end);
    let kend = name_end(s, p, end);
    let attr_ev = Event::Attribute {
        key: crate::semantics::in_slice(p, kend - p),
        span: mk_span(p, kend),
    };
    if kend < end && s[kend] == 58 {
        lemma_skip_spaces_bounds(s, kend + 1, end);
        let q = skip_spaces(s, kend + 1, end);
        lemma_parse_value_spans(s, q, end, copies, at_eof, (end - q + 2) as nat);
        let v = parse_value(s, q, end, copies, at_eof, (end - q + 2) as nat);
        if v.failed {
            lemma_spans_chained_widen(v.events, q, end, kend, end);
            lemma_spans_chained_concat(seq![attr_ev], v.events, p, kend, end);
        } else {
            lemma_spans_chained_widen(v.events, q, v.next, kend, v.next);
            lemma_spans_chained_concat(seq![attr_ev], v.events, p, kend, v.next);
        }
    }
}

#[verifier::rlimit(100)]
#[verifier::spinoff_prover]
pub proof fn lemma_attrs_rest_spans(
    s: Seq<u8>,
    k: int,
    end: int,
    copies: Seq<u8>,
    at_eof: bool,
    fuel: nat,
)
    requires
        0 <= k <= end <= usize::MAX,
    ensures
        ({
            let a = attrs_rest(s, k, end, copies, at_eof, fuel);
            &&& k <= a.next <= end
            &&& !a.failed ==> spans_chained(a.events, k, a.next)
            &&& a.failed ==> spans_chained(a.events, k, end)
        }),
    decreases fuel,
{
    if fuel > 0 {
        lemma_skip_spaces_bounds(s, k, end);
        let p = skip_spaces(s, k, end);
        if p < end && s[p] != 125 && crate::scan::is_name_start(s[p]) {
            lemma_attr_entry_spans(s, p, end, copies, at_eof);
            lemma_name_end_bounds(s, p, end);
            let kend = name_end(s, p, end);
            let attr_ev = Event::Attribute {
                key: crate::semantics::in_slice(p, kend - p),
                span: mk_span(p, kend),
            };
            let after: ValOut = if kend < end && s[kend] == 58 {
                let q = skip_spaces(s, kend + 1, end);
                let v = parse_value(s, q, end, copies, at_eof, (end - q + 2) as nat);
                ValOut {
                    events: seq![attr_ev] + v.events,
                    next: v.next,
                    copies: v.copies,
                    failed: v.failed,
                }
            } else {
                ValOut { events: seq![attr_ev], next: kend, copies, failed: false }
            };
            if !after.failed {
                lemma_skip_spaces_bounds(s, after.next, end);
                let r = skip_spaces(s, after.next, end);
                if r >= end {
                    lemma_spans_chained_widen(after.events, p, after.next, k, end);
                    lemma_spans_chained_concat(
                        after.events,
                        seq![crate::semantics::err_ev(crate::event::ErrorCode::Unclosed, end, end)],
                        k,
                        end,
                        end,
                    );
                } else if s[r] == 44 {
                    lemma_attrs_rest_spans(s, r + 1, end, after.copies, at_eof, (fuel - 1) as nat);
                    let rest = attrs_rest(s, r + 1, end, after.copies, at_eof, (fuel - 1) as nat);
                    lemma_spans_chained_widen(after.events, p, after.next, k, after.next);
                    if rest.failed {
                        lemma_spans_chained_widen(rest.events, r + 1, end, after.next, end);
                        lemma_spans_chained_concat(after.events, rest.events, k, after.next, end);
                    } else {
                        lemma_spans_chained_widen(
                            rest.events,
                            r + 1,
                            rest.next,
                            after.next,
                            rest.next,
                        );
                        lemma_spans_chained_concat(
                            after.events,
                            rest.events,
                            k,
                            after.next,
                            rest.next,
                        );
                    }
                } else if s[r] == 125 {
                    lemma_spans_chained_widen(after.events, p, after.next, k, r + 1);
                } else {
                    lemma_spans_chained_widen(after.events, p, after.next, k, after.next);
                    lemma_spans_chained_concat(
                        after.events,
                        seq![crate::semantics::err_at(r, end, at_eof)],
                        k,
                        after.next,
                        end,
                    );
                }
            } else {
                lemma_spans_chained_widen(after.events, p, end, k, end);
            }
        }
    }
}

#[verifier::rlimit(100)]
#[verifier::spinoff_prover]
pub proof fn lemma_element_opener_spans(
    s: Seq<u8>,
    j: int,
    end: int,
    copies: Seq<u8>,
    at_eof: bool,
)
    requires
        0 <= j < end <= usize::MAX,
    ensures
        ({
            let o = element_opener(s, j, end, copies, at_eof);
            &&& j <= o.next <= end
            &&& !o.failed ==> spans_chained(o.events, j, o.next)
            &&& o.failed ==> spans_chained(o.events, j, end)
        }),
{
    lemma_name_end_bounds(s, j, end);
    let k0 = if crate::scan::is_name_start(s[j]) { name_end(s, j, end) } else { j };
    if k0 < end {
        lemma_name_end_bounds(s, k0 + 1, end);
    }
    let k1 = if k0 < end && s[k0] == 35 { name_end(s, k0 + 1, end) } else { k0 };
    if k1 < end {
        lemma_dot_run_end_bounds(s, k1, end);
    }
}

#[verifier::rlimit(100)]
#[verifier::spinoff_prover]
pub proof fn lemma_do_element_spans(
    s: Seq<u8>,
    j: int,
    end: int,
    indent: int,
    st: ScanState,
    at_eof: bool,
)
    requires
        0 <= j < end <= usize::MAX,
    ensures
        spans_chained(do_element(s, j, end, indent, st, at_eof).events, j, end),
{
    lemma_element_opener_spans(s, j, end, st.copies, at_eof);
    let o = element_opener(s, j, end, st.copies, at_eof);
    if !o.failed {
        let k3 = o.next;
        if k3 < end && s[k3] == 123 {
            lemma_attrs_rest_spans(s, k3 + 1, end, st.copies, at_eof, (end - k3 + 2) as nat);
            let a = attrs_rest(s, k3 + 1, end, st.copies, at_eof, (end - k3 + 2) as nat);
            if a.failed {
                lemma_spans_chained_widen(a.events, k3 + 1, end, k3, end);
                lemma_spans_chained_concat(o.events, a.events, j, k3, end);
            } else {
                lemma_spans_chained_widen(a.events, k3 + 1, a.next, k3, a.next);
                lemma_spans_chained_concat(o.events, a.events, j, k3, a.next);
                lemma_skip_spaces_bounds(s, a.next, end);
                let t = skip_spaces(s, a.next, end);
                if t < end {
                    lemma_spans_chained_concat(
                        o.events + a.events,
                        seq![
                            Event::Text {
                                content: crate::semantics::in_slice(t, end - t),
                                span: mk_span(t, end),
                            },
                        ],
                        j,
                        a.next,
                        end,
                    );
                } else {
                    lemma_spans_chained_widen(o.events + a.events, j, a.next, j, end);
                }
            }
        } else {
            lemma_skip_spaces_bounds(s, k3, end);
            let t = skip_spaces(s, k3, end);
            if t < end {
                lemma_spans_chained_concat(
                    o.events,
                    seq![
                        Event::Text {
                            content: crate::semantics::in_slice(t, end - t),
                            span: mk_span(t, end),
                        },
                    ],
                    j,
                    k3,
                    end,
                );
            } else {
                lemma_spans_chained_widen(o.events, j, k3, j, end);
            }
        }
    }
}

pub proof fn lemma_do_directive_spans(
    s: Seq<u8>,
    j: int,
    end: int,
    indent: int,
    st: ScanState,
    at_eof: bool,
)
    requires
        0 <= j < end <= usize::MAX,
    ensures
        spans_chained(do_directive(s, j, end, indent, st, at_eof).events, j, end),
{
    let raw = j + 1 < end && s[j + 1] == 33;
    let a = if raw { j + 2 } else { j + 1 };
    lemma_name_end_bounds(s, a, end);
    let n1 = name_end(s, a, end);
    if n1 < end && s[n1] == 58 {
        lemma_name_end_bounds(s, n1 + 1, end);
    }
    let has_ns = n1 < end && s[n1] == 58;
    let nend = if has_ns { name_end(s, n1 + 1, end) } else { n1 };
    if nend < end && s[nend] == 40 {
        lemma_find_byte_bounds(s, nend + 1, end, 41);
        let close = crate::scan::find_byte(s, nend + 1, end, 41);
        if close < end {
            lemma_skip_spaces_bounds(s, close + 1, end);
        }
    }
    lemma_skip_spaces_bounds(s, nend, end);
}

pub proof fn lemma_do_marker_spans(
    s: Seq<u8>,
    j: int,
    end: int,
    indent: int,
    st: ScanState,
    at_eof: bool,
)
    requires
        0 <= j < end <= usize::MAX,
    ensures
        spans_chained(do_marker(s, j, end, indent, st, at_eof).events, j, end),
{
    lemma_name_end_bounds(s, j + 1, end);
    lemma_skip_spaces_bounds(s, name_end(s, j + 1, end), end);
}

pub proof fn lemma_do_interp_spans(s: Seq<u8>, j: int, end: int, st: ScanState, at_eof: bool)
    requires
        0 <= j < end <= usize::MAX,
    ensures
        spans_chained(do_interp(s, j, end, st, at_eof).events, j, end),
{
    if j + 1 < end && s[j + 1] == 40 {
        lemma_find_byte_bounds(s, j + 2, end, 41);
        let close = crate::scan::find_byte(s, j + 2, end, 41);
        if close < end {
            lemma_skip_spaces_bounds(s, close + 1, end);
        }
    }
}

pub proof fn lemma_do_value_line_spans(s: Seq<u8>, j: int, end: int, st: ScanState, at_eof: bool)
    requires
        0 <= j < end <= usize::MAX,
    ensures
        spans_chained(do_value_line(s, j, end, st, at_eof).events, j, end),
{
    lemma_parse_value_spans(s, j, end, st.copies, at_eof, (end - j + 2) as nat);
    let v = parse_value(s, j, end, st.copies, at_eof, (end - j + 2) as nat);
    if !v.failed {
        lemma_skip_spaces_bounds(s, v.next, end);
        let r = skip_spaces(s, v.next, end);
        if r < end {
            lemma_spans_chained_concat(
                v.events,
                seq![crate::semantics::err_at(r, end, at_eof)],
                j,
                v.next,
                end,
            );
        } else {
            lemma_spans_chained_widen(v.events, j, v.next, j, end);
        }
    }
}

/// Every line's events are well formed, lie within the line, and carry
/// non-decreasing span starts.
#[verifier::rlimit(100)]
#[verifier::spinoff_prover]
pub proof fn lemma_do_line_spans(s: Seq<u8>, start: int, end: int, st: ScanState, at_eof: bool)
    requires
        0 <= start <= end <= usize::MAX,
    ensures
        spans_chained(do_line(s, start, end, st, at_eof).events, start, end),
{
    reveal(do_line);
    if !st.faulted {
        if st.mode is Freeform {
        } else {
            lemma_skip_spaces_bounds(s, start, end);
            let j = skip_spaces(s, start, end);
            if j < end && s[j] != 9 {
                let indent = j - start;
                lemma_close_ge_spans(st.stack, indent, j);
                let closed = close_ge(st.stack, indent, j);
                let st1 = ScanState { stack: closed.stack, ..st };
                let b = s[j];
                let inner = if b == 59 {
                    seq![
                        Event::Comment {
                            content: crate::semantics::in_slice(j + 1, end - (j + 1)),
                            span: mk_span(j, end),
                        },
                    ]
                } else if b == 39 {
                    if crate::semantics::is_fence(s, j, end) {
                        seq![Event::FreeformStart { span: mk_span(j, end) }]
                    } else {
                        seq![crate::semantics::err_at(j, end, at_eof)]
                    }
                } else if b == 64 {
                    lemma_do_directive_spans(s, j, end, indent, st1, at_eof);
                    do_directive(s, j, end, indent, st1, at_eof).events
                } else if b == 33 || b == 42 || b == 38 {
                    lemma_do_marker_spans(s, j, end, indent, st1, at_eof);
                    do_marker(s, j, end, indent, st1, at_eof).events
                } else if b == 36 {
                    lemma_do_interp_spans(s, j, end, st1, at_eof);
                    do_interp(s, j, end, st1, at_eof).events
                } else if crate::scan::is_name_start(b) || b == 35 || b == 46 {
                    lemma_do_element_spans(s, j, end, indent, st1, at_eof);
                    do_element(s, j, end, indent, st1, at_eof).events
                } else if b == 34 || crate::scan::is_digit(b) || b == 45 || b == 91 {
                    lemma_do_value_line_spans(s, j, end, st1, at_eof);
                    do_value_line(s, j, end, st1, at_eof).events
                } else {
                    seq![crate::semantics::err_at(j, end, at_eof)]
                };
                assert(spans_chained(inner, j, end));
                lemma_spans_chained_widen(closed.events, j, j, start, j);
                lemma_spans_chained_concat(closed.events, inner, start, j, end);
            }
        }
    }
}

/// All complete lines: events lie within `[p, r.pos]` with non-decreasing
/// starts, and the cursor only moves forward.
pub proof fn lemma_process_spans(s: Seq<u8>, p: int, st: ScanState)
    requires
        0 <= p <= s.len(),
        s.len() <= usize::MAX,
    ensures
        ({
            let r = process(s, p, st);
            &&& p <= r.pos <= s.len()
            &&& spans_chained(r.events, p, r.pos)
        }),
    decreases s.len() - p,
{
    if !(st.faulted || p >= s.len()) {
        lemma_find_nl_bounds(s, p);
        let nl = crate::scan::find_nl(s, p);
        if nl < s.len() {
            lemma_do_line_spans(s, p, nl, st, false);
            let lo = do_line(s, p, nl, st, false);
            if lo.st.faulted {
                lemma_spans_chained_widen(lo.events, p, nl, p, nl + 1);
            } else {
                lemma_process_spans(s, nl + 1, lo.st);
                let r = process(s, nl + 1, lo.st);
                lemma_spans_chained_widen(lo.events, p, nl, p, nl + 1);
                lemma_spans_chained_concat(lo.events, r.events, p, nl + 1, r.pos);
            }
        }
    }
}

pub proof fn lemma_finish_spans(s: Seq<u8>, p: int, st: ScanState)
    requires
        0 <= p <= s.len(),
        s.len() <= usize::MAX,
    ensures
        spans_chained(finish_step(s, p, st).events, p, s.len() as int),
{
    let len = s.len() as int;
    if !st.faulted {
        let lo = if p < len {
            lemma_do_line_spans(s, p, len, st, true);
            do_line(s, p, len, st, true)
        } else {
            crate::semantics::LineOut { events: Seq::empty(), st }
        };
        assert(spans_chained(lo.events, p, len));
        if !lo.st.faulted {
            if lo.st.mode is Freeform {
                lemma_spans_chained_concat(
                    lo.events,
                    seq![
                        crate::semantics::err_ev(
                            crate::event::ErrorCode::UnclosedFreeform,
                            len,
                            len,
                        ),
                    ],
                    p,
                    len,
                    len,
                );
            } else {
                lemma_close_all_spans(lo.st.stack, len);
                lemma_spans_chained_concat(lo.events, close_all(lo.st.stack, len), p, len, len);
            }
        }
    }
}

/// Span monotonicity over the whole document: every emitted event has
/// `span.end >= span.start`, and span starts never decrease across the
/// emission order.
pub proof fn theorem_span_monotonicity(input: Seq<u8>)
    requires
        input.len() <= usize::MAX,
    ensures
        spans_chained(doc_events(input), 0, input.len() as int),
{
    lemma_process_spans(input, 0, init_state());
    let r = process(input, 0, init_state());
    lemma_finish_spans(input, r.pos, r.st);
    lemma_spans_chained_widen(r.events, 0, r.pos, 0, r.pos);
    lemma_spans_chained_concat(
        r.events,
        finish_step(input, r.pos, r.st).events,
        0,
        r.pos,
        input.len() as int,
    );
}

} // verus!
