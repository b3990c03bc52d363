//! Bracket well-formedness: scanning the emitted stream with a stack,
//! every Start event is matched by an End event of the same kind at the
//! same depth, before any enclosing construct closes — provided the
//! parse runs to completion without a fault (a faulted stream is a valid
//! prefix that stops early).

use vstd::prelude::*;
use crate::event::Event;
use crate::semantics::{
    attrs_rest, close_all, close_ge, do_directive, do_element, do_interp, do_line, do_marker,
    do_value_line, doc_events, element_opener, finish_step, init_state, parse_value, process,
    Mode, Open, OpenKind, ScanState, ValOut,
};
use crate::scan::{name_end, skip_spaces};

verus! {

/// The kinds of paired constructs visible in the event stream.
pub enum BracketKind {
    Element,
    Embedded,
    Directive,
    Array,
    Freeform,
}

/// The bracket a Start event opens, if any.
pub open spec fn opens(e: Event) -> Option<BracketKind> {
    match e {
        Event::ElementStart { .. } => Some(BracketKind::Element),
        Event::EmbeddedStart { .. } => Some(BracketKind::Embedded),
        Event::DirectiveStart { .. } => Some(BracketKind::Directive),
        Event::ArrayStart { .. } => Some(BracketKind::Array),
        Event::FreeformStart { .. } => Some(BracketKind::Freeform),
        _ => None,
    }
}

/// The bracket an End event closes, if any.
pub open spec fn closes(e: Event) -> Option<BracketKind> {
    match e {
        Event::ElementEnd { .. } => Some(BracketKind::Element),
        Event::EmbeddedEnd { .. } => Some(BracketKind::Embedded),
        Event::DirectiveEnd { .. } => Some(BracketKind::Directive),
        Event::ArrayEnd { .. } => Some(BracketKind::Array),
        Event::FreeformEnd { .. } => Some(BracketKind::Freeform),
        _ => None,
    }
}

/// Scans the events against a stack of open brackets: a Start pushes, an
/// End must match the innermost open bracket and pops it, anything else
/// passes through.  `None` marks a mismatch or an underflow.
pub open spec fn sim(evs: Seq<Event>, stack: Seq<BracketKind>) -> Option<Seq<BracketKind>>
    decreases evs.len(),
{
    if evs.len() == 0 {
        Some(stack)
    } else {
        let e = evs[0];
        match opens(e) {
            Some(k) => sim(evs.skip(1), stack.push(k)),
            None => match closes(e) {
                Some(k) => if stack.len() > 0 && stack.last() == k {
                    sim(evs.skip(1), stack.drop_last())
                } else {
                    None
                },
                None => sim(evs.skip(1), stack),
            },
        }
    }
}

pub proof fn lemma_sim_concat(e1: Seq<Event>, e2: Seq<Event>, stack: Seq<BracketKind>)
    ensures
        sim(e1 + e2, stack) == (match sim(e1, stack) {
            Some(m) => sim(e2, m),
            None => None,
        }),
    decreases e1.len(),
{
    if e1.len() == 0 {
        assert(e1 + e2 =~= e2);
    } else {
        assert((e1 + e2)[0] == e1[0]);
        assert((e1 + e2).skip(1) =~= e1.skip(1) + e2);
        let e = e1[0];
        match opens(e) {
            Some(k) => {
                lemma_sim_concat(e1.skip(1), e2, stack.push(k));
            }
            None => match closes(e) {
                Some(k) => {
                    if stack.len() > 0 && stack.last() == k {
                        lemma_sim_concat(e1.skip(1), e2, stack.drop_last());
                    }
                }
                None => {
                    lemma_sim_concat(e1.skip(1), e2, stack);
                }
            },
        }
    }
}

/// A single non-structural event leaves the stack as it is.
pub proof fn lemma_sim_single(e: Event, stack: Seq<BracketKind>)
    requires
        opens(e) is None,
        closes(e) is None,
    ensures
        sim(seq![e], stack) == Some(stack),
{
    reveal_with_fuel(sim, 4);
    assert(seq![e].skip(1) =~= Seq::<Event>::empty());
}

/// The bracket kind of an open construct.
pub open spec fn bracket_of(k: OpenKind) -> BracketKind {
    match k {
        OpenKind::Element => BracketKind::Element,
        OpenKind::Embedded => BracketKind::Embedded,
        OpenKind::Directive => BracketKind::Directive,
    }
}

/// The stack of brackets the scan state holds open, bottom first.
pub open spec fn kinds_of(stack: Seq<Open>) -> Seq<BracketKind> {
    stack.map_values(|o: Open| bracket_of(o.kind))
}

pub open spec fn sim_stack(st: ScanState) -> Seq<BracketKind> {
    if st.mode is Freeform {
        kinds_of(st.stack).push(BracketKind::Freeform)
    } else {
        kinds_of(st.stack)
    }
}

/// Values and arrays emit balanced events: the bracket stack is exactly
/// restored.
pub proof fn lemma_parse_value_sim(
    s: Seq<u8>,
    k: int,
    end: int,
    copies: Seq<u8>,
    at_eof: bool,
    fuel: nat,
    stack: Seq<BracketKind>,
)
    requires
        0 <= k <= end,
    ensures
        ({
            let v = parse_value(s, k, end, copies, at_eof, fuel);
            !v.failed ==> sim(v.events, stack) == Some(stack)
        }),
    decreases fuel, 1nat,
{
    reveal_with_fuel(sim, 4);
    let v = parse_value(s, k, end, copies, at_eof, fuel);
    if fuel > 0 && 0 <= k < end && !v.failed {
        if s[k] == 34 {
            lemma_sim_single(v.events[0], stack);
            assert(v.events =~= seq![v.events[0]]);
        } else if s[k] == 91 {
            let inner = crate::semantics::array_rest(s, k + 1, end, copies, at_eof,
                (fuel - 1) as nat);
            lemma_array_rest_sim(s, k + 1, end, copies, at_eof, (fuel - 1) as nat,
                stack.push(BracketKind::Array));
            let head = seq![
                Event::ArrayStart { span: crate::semantics::mk_span(k, k + 1) },
            ];
            lemma_sim_concat(head, inner.events, stack);
            assert(head.skip(1) =~= Seq::<Event>::empty());
            assert(sim(head, stack) == Some(stack.push(BracketKind::Array)));
            assert(stack.push(BracketKind::Array).drop_last() =~= stack);
        } else {
            lemma_sim_single(v.events[0], stack);
            assert(v.events =~= seq![v.events[0]]);
        }
    } else if fuel > 0 && k >= end {
    }
}

/// The items of an array, with the array's bracket on top of the stack:
/// on success the closing bracket pops exactly it.
pub proof fn lemma_array_rest_sim(
    s: Seq<u8>,
    k: int,
    end: int,
    copies: Seq<u8>,
    at_eof: bool,
    fuel: nat,
    stack: Seq<BracketKind>,
)
    requires
        0 <= k <= end,
        stack.len() > 0,
        stack.last() == BracketKind::Array,
    ensures
        ({
            let v = crate::semantics::array_rest(s, k, end, copies, at_eof, fuel);
            !v.failed ==> sim(v.events, stack) == Some(stack.drop_last())
        }),
    decreases fuel, 0nat,
{
    reveal_with_fuel(sim, 4);
    let v = crate::semantics::array_rest(s, k, end, copies, at_eof, fuel);
    if fuel > 0 && !v.failed {
        let p = skip_spaces(s, k, end);
        if p < end {
            if s[p] == 93 {
                assert(v.events =~= seq![v.events[0]]);
                assert(seq![v.events[0]].skip(1) =~= Seq::<Event>::empty());
            } else {
                crate::scan::lemma_skip_spaces_bounds(s, k, end);
                let item = parse_value(s, p, end, copies, at_eof, (fuel - 1) as nat);
                if !item.failed {
                    lemma_parse_value_sim(s, p, end, copies, at_eof, (fuel - 1) as nat, stack);
                    crate::laws::lemma_parse_value_bounds(s, p, end, copies, at_eof,
                        (fuel - 1) as nat);
                    let q = skip_spaces(s, item.next, end);
                    crate::scan::lemma_skip_spaces_bounds(s, item.next, end);
                    let k2 = if q < end && s[q] == 44 { q + 1 } else { q };
                    lemma_array_rest_sim(s, k2, end, item.copies, at_eof, (fuel - 1) as nat,
                        stack);
                    let rest = crate::semantics::array_rest(s, k2, end, item.copies, at_eof,
                        (fuel - 1) as nat);
                    lemma_sim_concat(item.events, rest.events, stack);
                }
            }
        }
    }
}

/// Attribute entries are balanced.
pub proof fn lemma_attrs_rest_sim(
    s: Seq<u8>,
    k: int,
    end: int,
    copies: Seq<u8>,
    at_eof: bool,
    fuel: nat,
    stack: Seq<BracketKind>,
)
    requires
        0 <= k <= end,
    ensures
        ({
            let a = attrs_rest(s, k, end, copies, at_eof, fuel);
            !a.failed ==> sim(a.events, stack) == Some(stack)
        }),
    decreases fuel,
{
    reveal_with_fuel(sim, 4);
    let a = attrs_rest(s, k, end, copies, at_eof, fuel);
    if fuel > 0 && !a.failed {
        let p = skip_spaces(s, k, end);
        crate::scan::lemma_skip_spaces_bounds(s, k, end);
        if p < end && s[p] != 125 && crate::scan::is_name_start(s[p]) {
            let kend = name_end(s, p, end);
            crate::scan::lemma_name_end_bounds(s, p, end);
            let attr_ev = Event::Attribute {
                key: crate::semantics::in_slice(p, kend - p),
                span: crate::semantics::mk_span(p, kend),
            };
            let after: ValOut = if kend < end && s[kend] == 58 {
                let q = skip_spaces(s, kend + 1, end);
                crate::scan::lemma_skip_spaces_bounds(s, kend + 1, end);
                let v = parse_value(s, q, end, copies, at_eof, (end - q + 2) as nat);
                lemma_parse_value_sim(s, q, end, copies, at_eof, (end - q + 2) as nat, stack);
                lemma_sim_single(attr_ev, stack);
                lemma_sim_concat(seq![attr_ev], v.events, stack);
                ValOut {
                    events: seq![attr_ev] + v.events,
                    next: v.next,
                    copies: v.copies,
                    failed: v.failed,
                }
            } else {
                lemma_sim_single(attr_ev, stack);
                ValOut { events: seq![attr_ev], next: kend, copies, failed: false }
            };
            if !after.failed {
                assert(sim(after.events, stack) == Some(stack));
                if kend < end && s[kend] == 58 {
                    let q = skip_spaces(s, kend + 1, end);
                    crate::laws::lemma_parse_value_bounds(s, q, end, copies, at_eof,
                        (end - q + 2) as nat);
                }
                let r = skip_spaces(s, after.next, end);
                crate::scan::lemma_skip_spaces_bounds(s, after.next, end);
                if r < end && s[r] == 44 {
                    lemma_attrs_rest_sim(s, r + 1, end, after.copies, at_eof, (fuel - 1) as nat,
                        stack);
                    let rest = attrs_rest(s, r + 1, end, after.copies, at_eof, (fuel - 1) as nat);
                    lemma_sim_concat(after.events, rest.events, stack);
                }
            }
        }
    }
}

pub proof fn lemma_kinds_push(stack: Seq<Open>, o: Open)
    ensures
        kinds_of(stack.push(o)) == kinds_of(stack).push(bracket_of(o.kind)),
{
    assert(kinds_of(stack.push(o)) =~= kinds_of(stack).push(bracket_of(o.kind)));
}

pub proof fn lemma_kinds_drop_last(stack: Seq<Open>)
    requires
        stack.len() > 0,
    ensures
        kinds_of(stack).len() == stack.len(),
        kinds_of(stack.drop_last()) == kinds_of(stack).drop_last(),
        kinds_of(stack).last() == bracket_of(stack.last().kind),
{
    assert(kinds_of(stack.drop_last()) =~= kinds_of(stack).drop_last());
}

/// The dedent closing pops exactly the closed constructs' brackets.
pub proof fn lemma_close_ge_sim(stack: Seq<Open>, indent: int, at: int)
    ensures
        ({
            let c = close_ge(stack, indent, at);
            sim(c.events, kinds_of(stack)) == Some(kinds_of(c.stack))
        }),
    decreases stack.len(),
{
    reveal_with_fuel(sim, 4);
    if stack.len() > 0 && stack.last().indent >= indent {
        let rest = close_ge(stack.drop_last(), indent, at);
        let e = crate::semantics::end_event(stack.last().kind, at);
        lemma_kinds_drop_last(stack);
        lemma_close_ge_sim(stack.drop_last(), indent, at);
        lemma_sim_concat(seq![e], rest.events, kinds_of(stack));
        assert(seq![e].skip(1) =~= Seq::<Event>::empty());
        assert(closes(e) == Some(bracket_of(stack.last().kind)));
        assert(sim(seq![e], kinds_of(stack)) == Some(kinds_of(stack.drop_last())));
    }
}

/// Closing everything empties the bracket stack.
pub proof fn lemma_close_all_sim(stack: Seq<Open>, at: int)
    ensures
        sim(close_all(stack, at), kinds_of(stack)) == Some(Seq::<BracketKind>::empty()),
    decreases stack.len(),
{
    reveal_with_fuel(sim, 4);
    if stack.len() > 0 {
        let e = crate::semantics::end_event(stack.last().kind, at);
        lemma_kinds_drop_last(stack);
        lemma_close_all_sim(stack.drop_last(), at);
        lemma_sim_concat(seq![e], close_all(stack.drop_last(), at), kinds_of(stack));
        assert(seq![e].skip(1) =~= Seq::<Event>::empty());
    } else {
        assert(kinds_of(stack) =~= Seq::<BracketKind>::empty());
    }
}

/// An element line pushes exactly one Element bracket.
#[verifier::rlimit(100)]
#[verifier::spinoff_prover]
pub proof fn lemma_do_element_sim(
    s: Seq<u8>,
    j: int,
    end: int,
    indent: int,
    st: ScanState,
    at_eof: bool,
    stack: Seq<BracketKind>,
)
    requires
        0 <= j < end,
        !st.faulted,
        st.mode is Normal,
        stack == kinds_of(st.stack),
    ensures
        ({
            let lo = do_element(s, j, end, indent, st, at_eof);
            !lo.st.faulted ==> sim(lo.events, stack) == Some(sim_stack(lo.st))
        }),
{
    reveal_with_fuel(sim, 4);
    let o = element_opener(s, j, end, st.copies, at_eof);
    let lo = do_element(s, j, end, indent, st, at_eof);
    if !lo.st.faulted {
        crate::scan::lemma_name_end_bounds(s, j, end);
        let k0 = if crate::scan::is_name_start(s[j]) { name_end(s, j, end) } else { j };
        if k0 < end && s[k0] == 35 {
            crate::scan::lemma_name_end_bounds(s, k0 + 1, end);
        }
        let k1 = if k0 < end && s[k0] == 35 { name_end(s, k0 + 1, end) } else { k0 };
        if k1 < end && s[k1] == 46 {
            crate::scan::lemma_dot_run_end_bounds(s, k1, end);
        }
        let k3 = o.next;
        let opened = Open { kind: OpenKind::Element, indent: indent as usize };
        let pushed = stack.push(BracketKind::Element);
        lemma_kinds_push(st.stack, opened);
        assert(o.events =~= seq![o.events[0]]);
        assert(seq![o.events[0]].skip(1) =~= Seq::<Event>::empty());
        assert(sim(o.events, stack) == Some(pushed));
        if k3 < end && s[k3] == 123 {
            let a = attrs_rest(s, k3 + 1, end, st.copies, at_eof, (end - k3 + 2) as nat);
            lemma_attrs_rest_sim(s, k3 + 1, end, st.copies, at_eof, (end - k3 + 2) as nat,
                pushed);
            lemma_sim_concat(o.events, a.events, stack);
            let t = skip_spaces(s, a.next, end);
            if t < end {
                let tev = seq![
                    Event::Text {
                        content: crate::semantics::in_slice(t, end - t),
                        span: crate::semantics::mk_span(t, end),
                    },
                ];
                lemma_sim_concat(o.events + a.events, tev, stack);
                lemma_sim_single(tev[0], pushed);
                assert(tev =~= seq![tev[0]]);
            }
        } else {
            let t = skip_spaces(s, k3, end);
            if t < end {
                let tev = seq![
                    Event::Text {
                        content: crate::semantics::in_slice(t, end - t),
                        span: crate::semantics::mk_span(t, end),
                    },
                ];
                lemma_sim_concat(o.events, tev, stack);
                lemma_sim_single(tev[0], pushed);
                assert(tev =~= seq![tev[0]]);
            }
        }
    }
}

/// One line of input transforms the bracket stack exactly as it
/// transforms the scanner's open-construct stack and mode.
#[verifier::rlimit(100)]
#[verifier::spinoff_prover]
pub proof fn lemma_do_line_sim(s: Seq<u8>, start: int, end: int, st: ScanState, at_eof: bool)
    requires
        0 <= start <= end,
        !st.faulted,
    ensures
        ({
            let lo = do_line(s, start, end, st, at_eof);
            !lo.st.faulted ==> sim(lo.events, sim_stack(st)) == Some(sim_stack(lo.st))
        }),
{
    reveal(do_line);
    reveal_with_fuel(sim, 4);
    let lo = do_line(s, start, end, st, at_eof);
    if !lo.st.faulted {
        if st.mode is Freeform {
            assert(lo.events =~= seq![lo.events[0]]);
            assert(seq![lo.events[0]].skip(1) =~= Seq::<Event>::empty());
            if crate::semantics::is_fence(s, start, end) {
                assert(kinds_of(st.stack).push(BracketKind::Freeform).drop_last()
                    =~= kinds_of(st.stack));
            }
        } else {
            let j = skip_spaces(s, start, end);
            crate::scan::lemma_skip_spaces_bounds(s, start, end);
            if j < end && s[j] != 9 {
                let indent = j - start;
                let closed = close_ge(st.stack, indent, j);
                let st1 = ScanState { stack: closed.stack, ..st };
                lemma_close_ge_sim(st.stack, indent, j);
                let base = kinds_of(closed.stack);
                let b = s[j];
                let inner: Seq<Event> = if b == 59 {
                    let ev = seq![
                        Event::Comment {
                            content: crate::semantics::in_slice(j + 1, end - (j + 1)),
                            span: crate::semantics::mk_span(j, end),
                        },
                    ];
                    lemma_sim_single(ev[0], base);
                    ev
                } else if b == 39 {
                    seq![Event::FreeformStart { span: crate::semantics::mk_span(j, end) }]
                } else if b == 64 {
                    lemma_do_directive_sim(s, j, end, indent, st1, at_eof, base);
                    do_directive(s, j, end, indent, st1, at_eof).events
                } else if b == 33 || b == 42 || b == 38 {
                    lemma_do_marker_sim(s, j, end, indent, st1, at_eof, base);
                    do_marker(s, j, end, indent, st1, at_eof).events
                } else if b == 36 {
                    let ev = crate::semantics::do_interp(s, j, end, st1, at_eof).events;
                    lemma_sim_single(ev[0], base);
                    assert(ev =~= seq![ev[0]]);
                    ev
                } else if crate::scan::is_name_start(b) || b == 35 || b == 46 {
                    lemma_do_element_sim(s, j, end, indent, st1, at_eof, base);
                    do_element(s, j, end, indent, st1, at_eof).events
                } else {
                    lemma_parse_value_sim(s, j, end, st1.copies, at_eof, (end - j + 2) as nat,
                        base);
                    do_value_line(s, j, end, st1, at_eof).events
                };
                assert(lo.events == closed.events + inner);
                lemma_sim_concat(closed.events, inner, sim_stack(st));
            }
        }
    }
}

/// The cursor only moves forward through the input.
pub proof fn lemma_process_pos_bounds(s: Seq<u8>, p: int, st: ScanState)
    requires
        0 <= p <= s.len(),
    ensures
        p <= process(s, p, st).pos <= s.len(),
    decreases s.len() - p,
{
    if !(st.faulted || p >= s.len()) {
        crate::scan::lemma_find_nl_bounds(s, p);
        let nl = crate::scan::find_nl(s, p);
        if nl < s.len() {
            let lo = do_line(s, p, nl, st, false);
            if !lo.st.faulted {
                lemma_process_pos_bounds(s, nl + 1, lo.st);
            }
        }
    }
}

/// Every complete line: a clean run transforms the bracket stack from the
/// initial to the final scanner stack.
pub proof fn lemma_process_sim(s: Seq<u8>, p: int, st: ScanState)
    requires
        !st.faulted,
    ensures
        ({
            let r = process(s, p, st);
            !r.st.faulted ==> sim(r.events, sim_stack(st)) == Some(sim_stack(r.st))
        }),
    decreases s.len() - p,
{
    if !(p < 0 || p >= s.len()) {
        crate::scan::lemma_find_nl_bounds(s, p);
        let nl = crate::scan::find_nl(s, p);
        if nl < s.len() {
            let lo = do_line(s, p, nl, st, false);
            let r = process(s, p, st);
            if !lo.st.faulted {
                lemma_do_line_sim(s, p, nl, st, false);
                lemma_process_sim(s, nl + 1, lo.st);
                lemma_sim_concat(lo.events, process(s, nl + 1, lo.st).events, sim_stack(st));
            }
        }
    }
}

/// Bracket well-formedness: when the parse runs to completion without a
/// fault, scanning the whole document's events with a bracket stack
/// matches every Start with an End of the same kind, in LIFO order, and
/// ends with the stack empty.
pub proof fn theorem_bracket_well_formedness(input: Seq<u8>)
    requires
        ({
            let r = process(input, 0, init_state());
            !finish_step(input, r.pos, r.st).st.faulted
        }),
    ensures
        sim(doc_events(input), Seq::empty()) == Some(Seq::<BracketKind>::empty()),
{
    reveal_with_fuel(sim, 4);
    let r = process(input, 0, init_state());
    let fin = finish_step(input, r.pos, r.st);
    lemma_process_sim(input, 0, init_state());
    lemma_process_pos_bounds(input, 0, init_state());
    assert(sim_stack(init_state()) =~= Seq::<BracketKind>::empty());
    assert(!r.st.faulted);
    lemma_sim_concat(r.events, fin.events, Seq::empty());
    let len = input.len() as int;
    let lo = if r.pos < len {
        do_line(input, r.pos, len, r.st, true)
    } else {
        crate::semantics::LineOut { events: Seq::empty(), st: r.st }
    };
    assert(!lo.st.faulted);
    if r.pos < len {
        lemma_do_line_sim(input, r.pos, len, r.st, true);
    }
    lemma_sim_concat(lo.events, close_all(lo.st.stack, len), sim_stack(r.st));
    lemma_close_all_sim(lo.st.stack, len);
    assert(!(lo.st.mode is Freeform));
    assert(fin.events =~= lo.events + close_all(lo.st.stack, len));
}

/// Whether a diagnostic event occurs in the stream.
pub open spec fn has_error(evs: Seq<Event>) -> bool {
    exists|i: int| 0 <= i < evs.len() && (#[trigger] evs[i]) is Error
}

/// A failed value scan ends in an Error event.
proof fn lemma_parse_value_fault(
    s: Seq<u8>,
    k: int,
    end: int,
    copies: Seq<u8>,
    at_eof: bool,
    fuel: nat,
)
    ensures
        ({
            let v = parse_value(s, k, end, copies, at_eof, fuel);
            v.failed ==> v.events.len() > 0 && v.events.last() is Error
        }),
    decreases fuel, 1nat,
{
    let v = parse_value(s, k, end, copies, at_eof, fuel);
    if v.failed && fuel > 0 && k < end && s[k] != 34 && s[k] == 91 {
        lemma_array_rest_fault(s, k + 1, end, copies, at_eof, (fuel - 1) as nat);
    }
}

proof fn lemma_array_rest_fault(
    s: Seq<u8>,
    k: int,
    end: int,
    copies: Seq<u8>,
    at_eof: bool,
    fuel: nat,
)
    ensures
        ({
            let v = crate::semantics::array_rest(s, k, end, copies, at_eof, fuel);
            v.failed ==> v.events.len() > 0 && v.events.last() is Error
        }),
    decreases fuel, 0nat,
{
    let v = crate::semantics::array_rest(s, k, end, copies, at_eof, fuel);
    if v.failed && fuel > 0 {
        let p = skip_spaces(s, k, end);
        if p < end && s[p] != 93 {
            let item = parse_value(s, p, end, copies, at_eof, (fuel - 1) as nat);
            lemma_parse_value_fault(s, p, end, copies, at_eof, (fuel - 1) as nat);
            if !item.failed {
                let q = skip_spaces(s, item.next, end);
                let k2 = if q < end && s[q] == 44 { q + 1 } else { q };
                lemma_array_rest_fault(s, k2, end, item.copies, at_eof, (fuel - 1) as nat);
            }
        }
    }
}

proof fn lemma_attrs_rest_fault(
    s: Seq<u8>,
    k: int,
    end: int,
    copies: Seq<u8>,
    at_eof: bool,
    fuel: nat,
)
    ensures
        ({
            let a = attrs_rest(s, k, end, copies, at_eof, fuel);
            a.failed ==> a.events.len() > 0 && a.events.last() is Error
        }),
    decreases fuel,
{
    let a = attrs_rest(s, k, end, copies, at_eof, fuel);
    if a.failed && fuel > 0 {
        let p = skip_spaces(s, k, end);
        if p < end && s[p] != 125 && crate::scan::is_name_start(s[p]) {
            let kend = name_end(s, p, end);
            if kend < end && s[kend] == 58 {
                let q = skip_spaces(s, kend + 1, end);
                lemma_parse_value_fault(s, q, end, copies, at_eof, (end - q + 2) as nat);
            }
            let after: ValOut = if kend < end && s[kend] == 58 {
                let q = skip_spaces(s, kend + 1, end);
                let v = parse_value(s, q, end, copies, at_eof, (end - q + 2) as nat);
                ValOut {
                    events: seq![
                        Event::Attribute {
                            key: crate::semantics::in_slice(p, kend - p),
                            span: crate::semantics::mk_span(p, kend),
                        },
                    ] + v.events,
                    next: v.next,
                    copies: v.copies,
                    failed: v.failed,
                }
            } else {
                ValOut {
                    events: seq![
                        Event::Attribute {
                            key: crate::semantics::in_slice(p, kend - p),
                            span: crate::semantics::mk_span(p, kend),
                        },
                    ],
                    next: kend,
                    copies,
                    failed: false,
                }
            };
            if !after.failed {
                let r = skip_spaces(s, after.next, end);
                if r < end && s[r] == 44 {
                    lemma_attrs_rest_fault(s, r + 1, end, after.copies, at_eof,
                        (fuel - 1) as nat);
                }
            }
        }
    }
}

/// A faulted line ends in an Error event.
#[verifier::rlimit(100)]
#[verifier::spinoff_prover]
proof fn lemma_do_line_fault(s: Seq<u8>, start: int, end: int, st: ScanState, at_eof: bool)
    requires
        !st.faulted,
    ensures
        ({
            let lo = do_line(s, start, end, st, at_eof);
            lo.st.faulted ==> lo.events.len() > 0 && lo.events.last() is Error
        }),
{
    reveal(do_line);
    let lo = do_line(s, start, end, st, at_eof);
    if lo.st.faulted && !(st.mode is Freeform) {
        let j = skip_spaces(s, start, end);
        if j < end && s[j] != 9 {
            let b = s[j];
            let st1 = ScanState { stack: close_ge(st.stack, j - start, j).stack, ..st };
            if b == 64 || b == 33 || b == 42 || b == 38 || b == 36 {
            } else if crate::scan::is_name_start(b) || b == 35 || b == 46 {
                let o = element_opener(s, j, end, st1.copies, at_eof);
                if !o.failed && o.next < end && s[o.next] == 123 {
                    lemma_attrs_rest_fault(s, o.next + 1, end, st1.copies, at_eof,
                        (end - o.next + 2) as nat);
                }
            } else if b == 34 || crate::scan::is_digit(b) || b == 45 || b == 91 {
                lemma_parse_value_fault(s, j, end, st1.copies, at_eof, (end - j + 2) as nat);
            }
        }
    }
}

/// An event stream with no Error event comes from a run that never
/// faulted.
proof fn lemma_process_fault(s: Seq<u8>, p: int, st: ScanState)
    requires
        !st.faulted,
    ensures
        ({
            let r = process(s, p, st);
            r.st.faulted ==> has_error(r.events)
        }),
    decreases s.len() - p,
{
    if !(p < 0 || p >= s.len()) {
        crate::scan::lemma_find_nl_bounds(s, p);
        let nl = crate::scan::find_nl(s, p);
        if nl < s.len() {
            let lo = do_line(s, p, nl, st, false);
            lemma_do_line_fault(s, p, nl, st, false);
            if lo.st.faulted {
                let r = process(s, p, st);
                assert(r.events.last() is Error);
                assert(0 <= r.events.len() - 1 < r.events.len());
            } else {
                lemma_process_fault(s, nl + 1, lo.st);
                let rest = process(s, nl + 1, lo.st);
                if rest.st.faulted {
                    let w = choose|i: int| 0 <= i < rest.events.len()
                        && (#[trigger] rest.events[i]) is Error;
                    assert((lo.events + rest.events)[lo.events.len() + w] is Error);
                }
            }
        }
    }
}

/// Bracket well-formedness over the observable stream alone: a document
/// whose event sequence holds no Error event is balanced.
pub proof fn theorem_error_free_stream_is_balanced(input: Seq<u8>)
    requires
        !has_error(doc_events(input)),
    ensures
        sim(doc_events(input), Seq::empty()) == Some(Seq::<BracketKind>::empty()),
{
    let r = process(input, 0, init_state());
    let fin = finish_step(input, r.pos, r.st);
    lemma_process_fault(input, 0, init_state());
    if r.st.faulted {
        let w = choose|i: int| 0 <= i < r.events.len() && (#[trigger] r.events[i]) is Error;
        assert((r.events + fin.events)[w] is Error);
        assert(false);
    }
    let len = input.len() as int;
    let lo = if r.pos < len {
        do_line(input, r.pos, len, r.st, true)
    } else {
        crate::semantics::LineOut { events: Seq::empty(), st: r.st }
    };
    if r.pos < len {
        lemma_do_line_fault(input, r.pos, len, r.st, true);
    }
    if lo.st.faulted {
        assert(fin.events.last() is Error);
        assert((r.events + fin.events)[r.events.len() + fin.events.len() - 1] is Error);
        assert(false);
    }
    if lo.st.mode is Freeform {
        assert(fin.events.last() is Error);
        assert((r.events + fin.events)[r.events.len() + fin.events.len() - 1] is Error);
        assert(false);
    }
    theorem_bracket_well_formedness(input);
}

/// A directive line: the block form pushes its bracket, the inline form
/// is neutral.
proof fn lemma_do_directive_sim(
    s: Seq<u8>,
    j: int,
    end: int,
    indent: int,
    st: ScanState,
    at_eof: bool,
    stack: Seq<BracketKind>,
)
    requires
        !st.faulted,
        st.mode is Normal,
        stack == kinds_of(st.stack),
    ensures
        ({
            let lo = do_directive(s, j, end, indent, st, at_eof);
            !lo.st.faulted ==> sim(lo.events, stack) == Some(sim_stack(lo.st))
        }),
{
    reveal_with_fuel(sim, 4);
    let lo = do_directive(s, j, end, indent, st, at_eof);
    if !lo.st.faulted {
        assert(lo.events =~= seq![lo.events[0]]);
        assert(seq![lo.events[0]].skip(1) =~= Seq::<Event>::empty());
        if lo.st.stack.len() > st.stack.len() {
            lemma_kinds_push(st.stack, Open { kind: OpenKind::Directive, indent: indent as usize });
        }
    }
}

/// A marker line: the embedded form pushes its bracket, references are
/// neutral.
proof fn lemma_do_marker_sim(
    s: Seq<u8>,
    j: int,
    end: int,
    indent: int,
    st: ScanState,
    at_eof: bool,
    stack: Seq<BracketKind>,
)
    requires
        !st.faulted,
        st.mode is Normal,
        stack == kinds_of(st.stack),
    ensures
        ({
            let lo = do_marker(s, j, end, indent, st, at_eof);
            !lo.st.faulted ==> sim(lo.events, stack) == Some(sim_stack(lo.st))
        }),
{
    reveal_with_fuel(sim, 4);
    let lo = do_marker(s, j, end, indent, st, at_eof);
    if !lo.st.faulted {
        assert(lo.events =~= seq![lo.events[0]]);
        assert(seq![lo.events[0]].skip(1) =~= Seq::<Event>::empty());
        if lo.st.stack.len() > st.stack.len() {
            lemma_kinds_push(st.stack, Open { kind: OpenKind::Embedded, indent: indent as usize });
        }
    }
}

} // verus!
