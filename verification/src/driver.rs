//! The streaming driver: owns the arena, the resumable scanner state and
//! the event queue, and exposes `feed` / `finish` / `read`.
//!
//! Every public operation is proved equal to its specification-level
//! transition (`feed_spec`, `finish_spec`, `read_spec`), so the queue a
//! caller drains is exactly the event sequence the input bytes denote.

use vstd::prelude::*;
use crate::arena::{ChunkArena, ChunkSlice, Span};
use crate::event::{ErrorCode, Event};
use crate::parser::{bare_event_x, dotrun_valid_x, err_at_x, is_fence_x};
use crate::scan::{
    bare_end_x, dot_run_end_x, find_byte_x, find_nl, find_nl_from, has_esc_x, name_end_x,
    quote_end_x, skip_spaces_x, unescape_x, byte_is_digit, byte_is_name_start,
};
use crate::semantics::{
    array_rest, attrs_rest, close_all, close_ge, do_directive, do_element, do_interp, do_line,
    do_marker, do_value_line, doc_events, end_event, err_at, err_ev, finish_step, init_state,
    mk_span, parse_value, process, CloseOut, LineOut, Mode, Open, OpenKind, Run, ScanState,
    ValOut,
};

verus! {

/// The driver's state as the specification sees it.
#[verifier::ext_equal]
pub struct DriverView {
    pub input: Seq<u8>,
    pub pos: int,
    pub scan: ScanState,
    pub queue: Seq<Event>,
    pub read_pos: int,
    pub finished: bool,
}

/// What `feed` does: append the bytes, then process every complete line.
pub open spec fn feed_spec(v: DriverView, bytes: Seq<u8>) -> DriverView {
    if v.finished {
        v
    } else {
        let s2 = v.input + bytes;
        let r = process(s2, v.pos, v.scan);
        DriverView {
            input: s2,
            pos: r.pos,
            scan: r.st,
            queue: v.queue + r.events,
            read_pos: v.read_pos,
            finished: false,
        }
    }
}

/// What `finish` does: process the final partial line and close or fault
/// what is still open.
pub open spec fn finish_spec(v: DriverView) -> DriverView {
    if v.finished {
        v
    } else {
        let r = finish_step(v.input, v.pos, v.scan);
        DriverView {
            input: v.input,
            pos: r.pos,
            scan: r.st,
            queue: v.queue + r.events,
            read_pos: v.read_pos,
            finished: true,
        }
    }
}

/// What `read` does: hand out the next buffered event, or nothing.
pub open spec fn read_spec(v: DriverView) -> (Option<Event>, DriverView) {
    if v.read_pos < v.queue.len() {
        (Some(v.queue[v.read_pos]), DriverView { read_pos: v.read_pos + 1, ..v })
    } else {
        (None, v)
    }
}

/// The state of a freshly constructed driver.
pub open spec fn init_view() -> DriverView {
    DriverView {
        input: Seq::empty(),
        pos: 0,
        scan: init_state(),
        queue: Seq::empty(),
        read_pos: 0,
        finished: false,
    }
}

/// The streaming parser: scanner, structural parser, arena and output
/// queue as one unit.  Multiple instances are fully independent.
pub struct StreamingParser {
    pub arena: ChunkArena,
    pub pos: usize,
    pub stack: Vec<Open>,
    pub mode: Mode,
    pub faulted: bool,
    pub finished: bool,
    pub queue: Vec<Event>,
    pub read_pos: usize,
}

impl StreamingParser {
    /// The resumable scanner state this driver carries.
    pub open spec fn scan_state(self) -> ScanState {
        ScanState {
            stack: self.stack@,
            mode: self.mode,
            faulted: self.faulted,
            copies: self.arena.copies@,
        }
    }

    /// The driver as the specification sees it.
    pub open spec fn dv(self) -> DriverView {
        DriverView {
            input: self.arena.input@,
            pos: self.pos as int,
            scan: self.scan_state(),
            queue: self.queue@,
            read_pos: self.read_pos as int,
            finished: self.finished,
        }
    }

    /// Well-formedness: the cursor sits inside the input, behind it every
    /// complete line is already processed, and the input leaves room for
    /// the scanner's arithmetic.
    pub open spec fn wf(self) -> bool {
        &&& self.pos <= self.arena.input@.len()
        &&& self.arena.input@.len() <= usize::MAX - 8
        &&& self.read_pos <= self.queue@.len()
        &&& (!self.faulted ==> find_nl(self.arena.input@, self.pos as int)
            == self.arena.input@.len())
    }

    /// A fresh parser; `capacity_hint` sizes only the initial queue
    /// allocation and never bounds correctness.
    pub fn new(capacity_hint: usize) -> (p: StreamingParser)
        ensures
            p.dv() == init_view(),
            p.wf(),
    {
        let p = StreamingParser {
            arena: ChunkArena::new(),
            pos: 0,
            stack: Vec::new(),
            mode: Mode::Normal,
            faulted: false,
            finished: false,
            queue: Vec::with_capacity(capacity_hint),
            read_pos: 0,
        };
        proof {
            assert(p.dv() =~= init_view());
        }
        p
    }

    /// The arena backing every slice this parser has emitted.
    pub fn arena(&self) -> (a: &ChunkArena)
        ensures
            a.input@ == self.arena.input@,
            a.copies@ == self.arena.copies@,
    {
        &self.arena
    }

    /// Pops and returns the next buffered event in document order, or
    /// `None` when the queue is empty; always safe to call again.
    pub fn read(&mut self) -> (r: Option<Event>)
        requires
            old(self).wf(),
        ensures
            final(self).wf(),
            (r, final(self).dv()) == read_spec(old(self).dv()),
    {
        if self.read_pos < self.queue.len() {
            let e = self.queue[self.read_pos];
            self.read_pos = self.read_pos + 1;
            proof {
                assert(final(self).dv() =~= read_spec(old(self).dv()).1);
            }
            Some(e)
        } else {
            proof {
                assert(final(self).dv() =~= read_spec(old(self).dv()).1);
            }
            None
        }
    }

    /// Appends the bytes to the arena and resumes scanning, enqueueing
    /// every event completed by this call.
    #[verifier::rlimit(100)]
    #[verifier::spinoff_prover]
    pub fn feed(&mut self, bytes: &[u8])
        requires
            old(self).wf(),
            old(self).arena.input@.len() + bytes@.len() <= usize::MAX - 8,
        ensures
            final(self).wf(),
            final(self).dv() == feed_spec(old(self).dv(), bytes@),
    {
        if self.finished {
            proof {
                assert(final(self).dv() =~= feed_spec(old(self).dv(), bytes@));
            }
            return;
        }
        let _base = self.arena.append(bytes);
        let ghost s2 = self.arena.input@;
        let ghost st0 = self.scan_state();
        let ghost pos0 = self.pos as int;
        let ghost q0 = self.queue@;
        let ghost full = process(s2, pos0, st0);
        let mut done = false;
        while !done
            invariant
                self.arena.input@ == s2,
                self.pos <= s2.len(),
                s2.len() <= usize::MAX - 8,
                self.finished == false,
                self.read_pos == old(self).read_pos,
                old(self).read_pos <= q0.len(),
                q0.len() <= self.queue@.len(),
                self.queue@.subrange(0, q0.len() as int) == q0,
                done ==> self.faulted || find_nl(s2, self.pos as int) == s2.len(),
                ({
                    let rest = process(s2, self.pos as int, self.scan_state());
                    full.events == self.queue@.skip(q0.len() as int) + rest.events
                        && full.pos == rest.pos && full.st == rest.st
                }),
            decreases s2.len() - self.pos, (if done { 0int } else { 1int }),
        {
            if self.faulted {
                done = true;
            } else {
                let nl = find_nl_from(&self.arena.input, self.pos);
                if nl >= self.arena.input.len() {
                    done = true;
                } else {
                    let ghost pre_q = self.queue@;
                    let ghost pre_st = self.scan_state();
                    let ghost p = self.pos as int;
                    self.run_line(self.pos, nl, false);
                    self.pos = nl + 1;
                    proof {
                        let lo = do_line(s2, p, nl as int, pre_st, false);
                        let rest_now = process(s2, self.pos as int, self.scan_state());
                        assert(process(s2, p, pre_st) == if lo.st.faulted {
                            Run { events: lo.events, pos: nl + 1, st: lo.st }
                        } else {
                            let r = process(s2, nl + 1, lo.st);
                            Run { events: lo.events + r.events, pos: r.pos, st: r.st }
                        });
                        if lo.st.faulted {
                            assert(process(s2, self.pos as int, self.scan_state())
                                == Run {
                                    events: Seq::<Event>::empty(),
                                    pos: self.pos as int,
                                    st: lo.st,
                                });
                        }
                        assert(self.queue@.skip(q0.len() as int)
                            =~= pre_q.skip(q0.len() as int) + lo.events);
                        assert(full.events
                            =~= self.queue@.skip(q0.len() as int) + rest_now.events);
                        assert(self.queue@.subrange(0, q0.len() as int) =~= q0);
                    }
                }
            }
        }
        proof {
            let rest = process(s2, self.pos as int, self.scan_state());
            assert(rest == Run {
                events: Seq::<Event>::empty(),
                pos: self.pos as int,
                st: self.scan_state(),
            });
            assert(full.events =~= self.queue@.skip(q0.len() as int));
            assert(self.queue@ =~= q0 + full.events);
            assert(old(self).dv().input + bytes@ == s2);
            assert(final(self).dv() =~= feed_spec(old(self).dv(), bytes@));
        }
    }

    /// Signals the end of input: the pending partial line is completed or
    /// faulted, and every still-open construct is closed.
    #[verifier::rlimit(100)]
    #[verifier::spinoff_prover]
    pub fn finish(&mut self)
        requires
            old(self).wf(),
        ensures
            final(self).wf(),
            final(self).dv() == finish_spec(old(self).dv()),
    {
        if self.finished {
            proof {
                assert(final(self).dv() =~= finish_spec(old(self).dv()));
            }
            return;
        }
        self.finished = true;
        if self.faulted {
            proof {
                assert(final(self).dv() =~= finish_spec(old(self).dv()));
            }
            return;
        }
        let len = self.arena.input.len();
        let ghost st0 = self.scan_state();
        let ghost pos0 = self.pos as int;
        let ghost s = self.arena.input@;
        if self.pos < len {
            self.run_line(self.pos, len, true);
        }
        self.pos = len;
        let ghost lo = if pos0 < s.len() {
            do_line(s, pos0, s.len() as int, st0, true)
        } else {
            LineOut { events: Seq::empty(), st: st0 }
        };
        if self.faulted {
            proof {
                assert(final(self).dv() =~= finish_spec(old(self).dv()));
            }
            return;
        }
        if matches!(self.mode, Mode::Freeform) {
            self.queue.push(Event::Error {
                code: ErrorCode::UnclosedFreeform,
                span: Span { start: len, end: len },
            });
            self.faulted = true;
            proof {
                assert(final(self).dv() =~= finish_spec(old(self).dv()));
            }
            return;
        }
        self.close_all_x(len);
        proof {
            assert(final(self).dv() =~= finish_spec(old(self).dv()));
        }
    }

    /// Closes every open construct, innermost first, at position `at`.
    fn close_all_x(&mut self, at: usize)
        ensures
            final(self).queue@ == old(self).queue@ + close_all(old(self).stack@, at as int),
            final(self).stack@ == Seq::<Open>::empty(),
            final(self).mode == old(self).mode,
            final(self).faulted == old(self).faulted,
            final(self).arena == old(self).arena,
            final(self).pos == old(self).pos,
            final(self).read_pos == old(self).read_pos,
            final(self).finished == old(self).finished,
    {
        let ghost orig = self.stack@;
        let ghost q0 = self.queue@;
        while self.stack.len() > 0
            invariant
                q0.len() <= self.queue@.len(),
                self.queue@.subrange(0, q0.len() as int) == q0,
                close_all(orig, at as int)
                    == self.queue@.skip(q0.len() as int) + close_all(self.stack@, at as int),
                self.mode == old(self).mode,
                self.faulted == old(self).faulted,
                self.arena == old(self).arena,
                self.pos == old(self).pos,
                self.read_pos == old(self).read_pos,
                self.finished == old(self).finished,
            decreases self.stack@.len(),
        {
            let ghost pre_q = self.queue@;
            let ghost pre_stack = self.stack@;
            let top = self.stack[self.stack.len() - 1];
            self.stack.pop();
            self.push_end_event(top.kind, at);
            proof {
                assert(pre_stack.last() == top);
                assert(self.stack@ =~= pre_stack.drop_last());
                assert(close_all(pre_stack, at as int)
                    =~= seq![end_event(top.kind, at as int)] + close_all(self.stack@, at as int));
                assert(self.queue@.skip(q0.len() as int)
                    =~= pre_q.skip(q0.len() as int) + seq![end_event(top.kind, at as int)]);
                assert(close_all(orig, at as int)
                    =~= self.queue@.skip(q0.len() as int) + close_all(self.stack@, at as int));
                assert(self.queue@.subrange(0, q0.len() as int) =~= q0);
            }
        }
        proof {
            assert(close_all(self.stack@, at as int) =~= Seq::<Event>::empty());
            assert(final(self).queue@ =~= q0 + close_all(orig, at as int));
        }
    }

    /// Closes every open construct at or beyond `indent`, innermost
    /// first, at position `at`.
    fn close_ge_x(&mut self, indent: usize, at: usize)
        ensures
            ({
                let c = close_ge(old(self).stack@, indent as int, at as int);
                final(self).queue@ == old(self).queue@ + c.events && final(self).stack@ == c.stack
            }),
            final(self).mode == old(self).mode,
            final(self).faulted == old(self).faulted,
            final(self).arena == old(self).arena,
            final(self).pos == old(self).pos,
            final(self).read_pos == old(self).read_pos,
            final(self).finished == old(self).finished,
    {
        let ghost orig = self.stack@;
        let ghost q0 = self.queue@;
        while self.stack.len() > 0 && self.stack[self.stack.len() - 1].indent >= indent
            invariant
                q0.len() <= self.queue@.len(),
                self.queue@.subrange(0, q0.len() as int) == q0,
                close_ge(orig, indent as int, at as int).events
                    == self.queue@.skip(q0.len() as int)
                        + close_ge(self.stack@, indent as int, at as int).events,
                close_ge(orig, indent as int, at as int).stack
                    == close_ge(self.stack@, indent as int, at as int).stack,
                self.mode == old(self).mode,
                self.faulted == old(self).faulted,
                self.arena == old(self).arena,
                self.pos == old(self).pos,
                self.read_pos == old(self).read_pos,
                self.finished == old(self).finished,
            decreases self.stack@.len(),
        {
            let ghost pre_q = self.queue@;
            let ghost pre_stack = self.stack@;
            let top = self.stack[self.stack.len() - 1];
            self.stack.pop();
            self.push_end_event(top.kind, at);
            proof {
                assert(pre_stack.last() == top);
                assert(self.stack@ =~= pre_stack.drop_last());
                assert(close_ge(pre_stack, indent as int, at as int).events
                    =~= seq![end_event(top.kind, at as int)]
                        + close_ge(self.stack@, indent as int, at as int).events);
                assert(self.queue@.skip(q0.len() as int)
                    =~= pre_q.skip(q0.len() as int) + seq![end_event(top.kind, at as int)]);
                assert(close_ge(orig, indent as int, at as int).events
                    =~= self.queue@.skip(q0.len() as int)
                        + close_ge(self.stack@, indent as int, at as int).events);
                assert(self.queue@.subrange(0, q0.len() as int) =~= q0);
            }
        }
        proof {
            assert(close_ge(self.stack@, indent as int, at as int)
                == CloseOut { events: Seq::<Event>::empty(), stack: self.stack@ });
            assert(final(self).queue@
                =~= q0 + close_ge(orig, indent as int, at as int).events);
        }
    }

    /// Scans one line `[start, end)` and enqueues exactly the events the
    /// semantics gives it.
    #[verifier::rlimit(100)]
    #[verifier::spinoff_prover]
    fn run_line(&mut self, start: usize, end: usize, at_eof: bool)
        requires
            start <= end,
            end <= old(self).arena.input@.len(),
            old(self).arena.input@.len() <= usize::MAX - 8,
        ensures
            ({
                let lo = do_line(
                    old(self).arena.input@,
                    start as int,
                    end as int,
                    old(self).scan_state(),
                    at_eof,
                );
                final(self).queue@ == old(self).queue@ + lo.events
                    && final(self).scan_state() == lo.st
            }),
            final(self).arena.input@ == old(self).arena.input@,
            final(self).pos == old(self).pos,
            final(self).read_pos == old(self).read_pos,
            final(self).finished == old(self).finished,
    {
        proof {
            reveal(do_line);
        }
        let ghost lo = do_line(
            self.arena.input@,
            start as int,
            end as int,
            self.scan_state(),
            at_eof,
        );
        if self.faulted {
            proof {
                assert(self.queue@ =~= old(self).queue@ + lo.events);
            }
            return;
        }
        if matches!(self.mode, Mode::Freeform) {
            if is_fence_x(&self.arena.input, start, end) {
                self.queue.push(Event::FreeformEnd { span: Span { start, end } });
                self.mode = Mode::Normal;
            } else {
                self.queue.push(Event::RawContent {
                    content: ChunkSlice { in_copies: false, start, len: end - start },
                    span: Span { start, end },
                });
            }
            proof {
                assert(self.queue@ =~= old(self).queue@ + lo.events);
                assert(self.scan_state() =~= lo.st);
            }
            return;
        }
        let j = skip_spaces_x(&self.arena.input, start, end);
        if j < end && self.arena.input[j] == 9 {
            self.queue.push(Event::Error {
                code: ErrorCode::NoTabs,
                span: Span { start: j, end: j + 1 },
            });
            self.faulted = true;
            proof {
                assert(self.queue@ =~= old(self).queue@ + lo.events);
                assert(self.scan_state() =~= lo.st);
            }
            return;
        }
        if j >= end {
            proof {
                assert(self.queue@ =~= old(self).queue@ + lo.events);
            }
            return;
        }
        let indent = j - start;
        self.close_ge_x(indent, j);
        let ghost q1 = self.queue@;
        let ghost st1 = self.scan_state();
        let b = self.arena.input[j];
        if b == 59 {
            self.queue.push(Event::Comment {
                content: ChunkSlice { in_copies: false, start: j + 1, len: end - (j + 1) },
                span: Span { start: j, end },
            });
        } else if b == 39 {
            if is_fence_x(&self.arena.input, j, end) {
                self.queue.push(Event::FreeformStart { span: Span { start: j, end } });
                self.mode = Mode::Freeform;
            } else {
                self.queue.push(err_at_x(j, end, at_eof));
                self.faulted = true;
            }
        } else if b == 64 {
            self.line_directive(j, end, indent, at_eof);
        } else if b == 33 || b == 42 || b == 38 {
            self.line_marker(j, end, indent, at_eof);
        } else if b == 36 {
            self.line_interp(j, end, at_eof);
        } else if byte_is_name_start(b) || b == 35 || b == 46 {
            self.line_element(j, end, indent, at_eof);
        } else if b == 34 || byte_is_digit(b) || b == 45 || b == 91 {
            self.line_value(j, end, at_eof);
        } else {
            self.queue.push(err_at_x(j, end, at_eof));
            self.faulted = true;
        }
        proof {
            assert(self.queue@ =~= old(self).queue@ + lo.events);
            assert(self.scan_state() =~= lo.st);
        }
    }

    /// A directive line (`@name`, `@ns:name`, `@name(body)`, `@!name(body)`).
    #[verifier::rlimit(100)]
    #[verifier::spinoff_prover]
    fn line_directive(&mut self, j: usize, end: usize, indent: usize, at_eof: bool)
        requires
            j < end,
            end <= old(self).arena.input@.len(),
        ensures
            ({
                let lo = do_directive(
                    old(self).arena.input@,
                    j as int,
                    end as int,
                    indent as int,
                    old(self).scan_state(),
                    at_eof,
                );
                final(self).queue@ == old(self).queue@ + lo.events
                    && final(self).scan_state() == lo.st
            }),
            final(self).arena.input@ == old(self).arena.input@,
            final(self).pos == old(self).pos,
            final(self).read_pos == old(self).read_pos,
            final(self).finished == old(self).finished,
    {
        let raw = j + 1 < end && self.arena.input[j + 1] == 33;
        let a = if raw { j + 2 } else { j + 1 };
        let n1 = name_end_x(&self.arena.input, a, end);
        if n1 == a {
            self.queue.push(err_at_x(a, end, at_eof));
            self.faulted = true;
            return;
        }
        let has_ns = n1 < end && self.arena.input[n1] == 58;
        if has_ns {
            let n2 = name_end_x(&self.arena.input, n1 + 1, end);
            if n2 == n1 + 1 {
                self.queue.push(err_at_x(n1 + 1, end, at_eof));
                self.faulted = true;
                return;
            }
        }
        let namespace = if has_ns {
            Some(ChunkSlice { in_copies: false, start: a, len: n1 - a })
        } else {
            None
        };
        let nstart = if has_ns { n1 + 1 } else { a };
        let nend = if has_ns { name_end_x(&self.arena.input, n1 + 1, end) } else { n1 };
        let name = ChunkSlice { in_copies: false, start: nstart, len: nend - nstart };
        if nend < end && self.arena.input[nend] == 40 {
            let close = find_byte_x(&self.arena.input, nend + 1, end, 41);
            if close >= end {
                self.queue.push(Event::Error {
                    code: ErrorCode::Unclosed,
                    span: Span { start: j, end },
                });
                self.faulted = true;
                return;
            }
            let r = skip_spaces_x(&self.arena.input, close + 1, end);
            if r < end {
                self.queue.push(err_at_x(r, end, at_eof));
                self.faulted = true;
                return;
            }
            self.queue.push(Event::InlineDirective {
                name,
                namespace,
                raw,
                content: ChunkSlice {
                    in_copies: false,
                    start: nend + 1,
                    len: close - (nend + 1),
                },
                span: Span { start: j, end: close + 1 },
            });
        } else if raw {
            self.queue.push(err_at_x(nend, end, at_eof));
            self.faulted = true;
        } else {
            let r = skip_spaces_x(&self.arena.input, nend, end);
            if r < end {
                self.queue.push(err_at_x(r, end, at_eof));
                self.faulted = true;
                return;
            }
            self.queue.push(Event::DirectiveStart {
                name,
                namespace,
                span: Span { start: j, end: nend },
            });
            self.stack.push(Open { kind: OpenKind::Directive, indent });
        }
    }

    /// A marker line: embedded-block opener, id reference, or attribute
    /// merge.
    fn line_marker(&mut self, j: usize, end: usize, indent: usize, at_eof: bool)
        requires
            j < end,
            end <= old(self).arena.input@.len(),
        ensures
            ({
                let lo = do_marker(
                    old(self).arena.input@,
                    j as int,
                    end as int,
                    indent as int,
                    old(self).scan_state(),
                    at_eof,
                );
                final(self).queue@ == old(self).queue@ + lo.events
                    && final(self).scan_state() == lo.st
            }),
            final(self).arena.input@ == old(self).arena.input@,
            final(self).pos == old(self).pos,
            final(self).read_pos == old(self).read_pos,
            final(self).finished == old(self).finished,
    {
        let idend = name_end_x(&self.arena.input, j + 1, end);
        let trailing = skip_spaces_x(&self.arena.input, idend, end);
        if self.arena.input[j] == 33 {
            if trailing < end {
                self.queue.push(err_at_x(trailing, end, at_eof));
                self.faulted = true;
            } else {
                let name = if idend > j + 1 {
                    Some(ChunkSlice { in_copies: false, start: j + 1, len: idend - (j + 1) })
                } else {
                    None
                };
                self.queue.push(Event::EmbeddedStart {
                    name,
                    span: Span { start: j, end: idend },
                });
                self.stack.push(Open { kind: OpenKind::Embedded, indent });
            }
        } else {
            if idend == j + 1 {
                self.queue.push(err_at_x(j + 1, end, at_eof));
                self.faulted = true;
            } else if trailing < end {
                self.queue.push(err_at_x(trailing, end, at_eof));
                self.faulted = true;
            } else {
                let id = ChunkSlice { in_copies: false, start: j + 1, len: idend - (j + 1) };
                let span = Span { start: j, end: idend };
                if self.arena.input[j] == 42 {
                    self.queue.push(Event::IdReference { id, span });
                } else {
                    self.queue.push(Event::AttributeMerge { id, span });
                }
            }
        }
    }

    /// An interpolation line: `$(expression)`.
    fn line_interp(&mut self, j: usize, end: usize, at_eof: bool)
        requires
            j < end,
            end <= old(self).arena.input@.len(),
        ensures
            ({
                let lo = do_interp(
                    old(self).arena.input@,
                    j as int,
                    end as int,
                    old(self).scan_state(),
                    at_eof,
                );
                final(self).queue@ == old(self).queue@ + lo.events
                    && final(self).scan_state() == lo.st
            }),
            final(self).arena.input@ == old(self).arena.input@,
            final(self).pos == old(self).pos,
            final(self).read_pos == old(self).read_pos,
            final(self).finished == old(self).finished,
    {
        if j + 1 >= end || self.arena.input[j + 1] != 40 {
            self.queue.push(err_at_x(j + 1, end, at_eof));
            self.faulted = true;
            return;
        }
        let close = find_byte_x(&self.arena.input, j + 2, end, 41);
        if close >= end {
            self.queue.push(Event::Error {
                code: ErrorCode::UnclosedInterpolation,
                span: Span { start: j, end },
            });
            self.faulted = true;
            return;
        }
        let r = skip_spaces_x(&self.arena.input, close + 1, end);
        if r < end {
            self.queue.push(err_at_x(r, end, at_eof));
            self.faulted = true;
            return;
        }
        self.queue.push(Event::Interpolation {
            expression: ChunkSlice { in_copies: false, start: j + 2, len: close - (j + 2) },
            span: Span { start: j, end: close + 1 },
        });
    }

    /// An element line: opener (name, id, classes, suffix), attributes,
    /// Scans an element opener (name, id, classes, suffix) and emits its
    /// ElementStart, or the fault that stops the line.
    #[verifier::rlimit(100)]
    #[verifier::spinoff_prover]
    fn element_opener_x(&mut self, j: usize, end: usize, at_eof: bool) -> (r: (usize, bool))
        requires
            j < end,
            end <= old(self).arena.input@.len(),
        ensures
            ({
                let o = crate::semantics::element_opener(
                    old(self).arena.input@,
                    j as int,
                    end as int,
                    old(self).arena.copies@,
                    at_eof,
                );
                final(self).queue@ == old(self).queue@ + o.events
                    && r.0 as int == o.next && r.1 == o.failed
            }),
            r.0 <= end,
            final(self).arena == old(self).arena,
            final(self).stack@ == old(self).stack@,
            final(self).mode == old(self).mode,
            final(self).faulted == old(self).faulted,
            final(self).pos == old(self).pos,
            final(self).read_pos == old(self).read_pos,
            final(self).finished == old(self).finished,
    {
        let has_name = byte_is_name_start(self.arena.input[j]);
        let ne = name_end_x(&self.arena.input, j, end);
        let name = if has_name {
            Some(ChunkSlice { in_copies: false, start: j, len: ne - j })
        } else {
            None
        };
        let k0 = if has_name { ne } else { j };
        let has_id = k0 < end && self.arena.input[k0] == 35;
        let mut id: Option<ChunkSlice> = None;
        let mut k1 = k0;
        if has_id {
            let idend = name_end_x(&self.arena.input, k0 + 1, end);
            if idend == k0 + 1 {
                self.queue.push(err_at_x(k0 + 1, end, at_eof));
                return (end, true);
            }
            id = Some(ChunkSlice { in_copies: false, start: k0 + 1, len: idend - (k0 + 1) });
            k1 = idend;
        }
        let has_classes = k1 < end && self.arena.input[k1] == 46;
        let mut classes: Option<ChunkSlice> = None;
        let mut k2 = k1;
        if has_classes {
            let ce = dot_run_end_x(&self.arena.input, k1, end);
            proof {
                assert(crate::scan::dot_run_end(self.arena.input@, k1 as int, end as int)
                    == crate::scan::dot_run_end(self.arena.input@, k1 + 1, end as int));
                crate::scan::lemma_dot_run_end_bounds(self.arena.input@, k1 + 1, end as int);
            }
            if !dotrun_valid_x(&self.arena.input, k1, ce) {
                self.queue.push(Event::Error {
                    code: ErrorCode::UnexpectedChar,
                    span: Span { start: k1, end: ce },
                });
                return (end, true);
            }
            classes = Some(ChunkSlice { in_copies: false, start: k1 + 1, len: ce - (k1 + 1) });
            k2 = ce;
        }
        let has_suffix = k2 < end && (self.arena.input[k2] == 33 || self.arena.input[k2] == 63);
        let suffix = if has_suffix {
            Some(ChunkSlice { in_copies: false, start: k2, len: 1 })
        } else {
            None
        };
        let k3 = if has_suffix { k2 + 1 } else { k2 };
        self.queue.push(Event::ElementStart {
            name,
            id,
            classes,
            suffix,
            span: Span { start: j, end: k3 },
        });
        (k3, false)
    }

    /// An element line: the opener, then attributes, then trailing text.
    #[verifier::rlimit(100)]
    #[verifier::spinoff_prover]
    fn line_element(&mut self, j: usize, end: usize, indent: usize, at_eof: bool)
        requires
            j < end,
            end <= old(self).arena.input@.len(),
            old(self).arena.input@.len() <= usize::MAX - 8,
        ensures
            ({
                let lo = do_element(
                    old(self).arena.input@,
                    j as int,
                    end as int,
                    indent as int,
                    old(self).scan_state(),
                    at_eof,
                );
                final(self).queue@ == old(self).queue@ + lo.events
                    && final(self).scan_state() == lo.st
            }),
            final(self).arena.input@ == old(self).arena.input@,
            final(self).pos == old(self).pos,
            final(self).read_pos == old(self).read_pos,
            final(self).finished == old(self).finished,
    {
        let (k3, failed) = self.element_opener_x(j, end, at_eof);
        if failed {
            self.faulted = true;
            return;
        }
        self.stack.push(Open { kind: OpenKind::Element, indent });
        let after_attrs: usize;
        if k3 < end && self.arena.input[k3] == 123 {
            let (next, failed) = self.exec_attrs(k3 + 1, end, at_eof, end - k3 + 2);
            if failed {
                self.faulted = true;
                return;
            }
            after_attrs = next;
        } else {
            after_attrs = k3;
        }
        let t = skip_spaces_x(&self.arena.input, after_attrs, end);
        if t < end {
            self.queue.push(Event::Text {
                content: ChunkSlice { in_copies: false, start: t, len: end - t },
                span: Span { start: t, end },
            });
        }
    }

    /// A standalone value line.
    fn line_value(&mut self, j: usize, end: usize, at_eof: bool)
        requires
            j < end,
            end <= old(self).arena.input@.len(),
            old(self).arena.input@.len() <= usize::MAX - 8,
        ensures
            ({
                let lo = do_value_line(
                    old(self).arena.input@,
                    j as int,
                    end as int,
                    old(self).scan_state(),
                    at_eof,
                );
                final(self).queue@ == old(self).queue@ + lo.events
                    && final(self).scan_state() == lo.st
            }),
            final(self).arena.input@ == old(self).arena.input@,
            final(self).pos == old(self).pos,
            final(self).read_pos == old(self).read_pos,
            final(self).finished == old(self).finished,
    {
        let (next, failed) = self.exec_value(j, end, at_eof, end - j + 2);
        if failed {
            self.faulted = true;
            return;
        }
        let r = skip_spaces_x(&self.arena.input, next, end);
        if r < end {
            self.queue.push(err_at_x(r, end, at_eof));
            self.faulted = true;
        }
    }

    /// Scans one value (quoted string, array, or bare token) starting at
    /// `k`; returns the position after it and whether it faulted.
    fn exec_value(&mut self, k: usize, end: usize, at_eof: bool, fuel: usize) -> (r: (usize, bool))
        requires
            k <= end,
            end <= old(self).arena.input@.len(),
            old(self).arena.input@.len() <= usize::MAX - 8,
        ensures
            ({
                let v = parse_value(
                    old(self).arena.input@,
                    k as int,
                    end as int,
                    old(self).arena.copies@,
                    at_eof,
                    fuel as nat,
                );
                final(self).queue@ == old(self).queue@ + v.events
                    && final(self).arena.copies@ == v.copies
                    && r.0 as int == v.next && r.1 == v.failed
            }),
            r.0 <= end,
            final(self).arena.input@ == old(self).arena.input@,
            final(self).stack@ == old(self).stack@,
            final(self).mode == old(self).mode,
            final(self).faulted == old(self).faulted,
            final(self).pos == old(self).pos,
            final(self).read_pos == old(self).read_pos,
            final(self).finished == old(self).finished,
        decreases fuel,
    {
        if fuel == 0 {
            self.queue.push(err_at_x(k, end, at_eof));
            return (k, true);
        }
        if k >= end {
            self.queue.push(err_at_x(k, end, at_eof));
            return (k, true);
        }
        let b = self.arena.input[k];
        if b == 34 {
            let qe = quote_end_x(&self.arena.input, k + 1, end);
            if qe >= end {
                self.queue.push(Event::Error {
                    code: ErrorCode::UnclosedStringValue,
                    span: Span { start: k, end },
                });
                return (end, true);
            }
            if has_esc_x(&self.arena.input, k + 1, qe) {
                let un = unescape_x(&self.arena.input, k + 1, qe);
                let base = self.arena.append_copy(&un);
                self.queue.push(Event::QuotedStringValue {
                    value: ChunkSlice { in_copies: true, start: base, len: un.len() },
                    span: Span { start: k, end: qe + 1 },
                });
            } else {
                self.queue.push(Event::QuotedStringValue {
                    value: ChunkSlice { in_copies: false, start: k + 1, len: qe - (k + 1) },
                    span: Span { start: k, end: qe + 1 },
                });
            }
            (qe + 1, false)
        } else if b == 91 {
            self.queue.push(Event::ArrayStart { span: Span { start: k, end: k + 1 } });
            self.exec_array_rest(k + 1, end, at_eof, fuel - 1)
        } else {
            let te = bare_end_x(&self.arena.input, k, end);
            if te == k {
                self.queue.push(err_at_x(k, end, at_eof));
                return (k, true);
            }
            let ev = bare_event_x(&self.arena.input, k, te);
            self.queue.push(ev);
            (te, false)
        }
    }

    /// Scans the items of an array starting just past its opening bracket.
    fn exec_array_rest(
        &mut self,
        k: usize,
        end: usize,
        at_eof: bool,
        fuel: usize,
    ) -> (r: (usize, bool))
        requires
            k <= end,
            end <= old(self).arena.input@.len(),
            old(self).arena.input@.len() <= usize::MAX - 8,
        ensures
            ({
                let v = array_rest(
                    old(self).arena.input@,
                    k as int,
                    end as int,
                    old(self).arena.copies@,
                    at_eof,
                    fuel as nat,
                );
                final(self).queue@ == old(self).queue@ + v.events
                    && final(self).arena.copies@ == v.copies
                    && r.0 as int == v.next && r.1 == v.failed
            }),
            r.0 <= end,
            final(self).arena.input@ == old(self).arena.input@,
            final(self).stack@ == old(self).stack@,
            final(self).mode == old(self).mode,
            final(self).faulted == old(self).faulted,
            final(self).pos == old(self).pos,
            final(self).read_pos == old(self).read_pos,
            final(self).finished == old(self).finished,
        decreases fuel,
    {
        if fuel == 0 {
            self.queue.push(Event::Error {
                code: ErrorCode::UnclosedArray,
                span: Span { start: end, end },
            });
            return (end, true);
        }
        let p = skip_spaces_x(&self.arena.input, k, end);
        if p >= end {
            self.queue.push(Event::Error {
                code: ErrorCode::UnclosedArray,
                span: Span { start: end, end },
            });
            return (end, true);
        }
        if self.arena.input[p] == 93 {
            self.queue.push(Event::ArrayEnd { span: Span { start: p, end: p + 1 } });
            return (p + 1, false);
        }
        let (vnext, vfailed) = self.exec_value(p, end, at_eof, fuel - 1);
        if vfailed {
            return (vnext, true);
        }
        let q = skip_spaces_x(&self.arena.input, vnext, end);
        let k2 = if q < end && self.arena.input[q] == 44 { q + 1 } else { q };
        self.exec_array_rest(k2, end, at_eof, fuel - 1)
    }

    /// Scans the entries of a brace-delimited attribute group, starting
    /// just past the opening brace.
    #[verifier::rlimit(100)]
    #[verifier::spinoff_prover]
    fn exec_attrs(&mut self, k: usize, end: usize, at_eof: bool, fuel: usize) -> (r: (usize, bool))
        requires
            k <= end,
            end <= old(self).arena.input@.len(),
            old(self).arena.input@.len() <= usize::MAX - 8,
        ensures
            ({
                let a = attrs_rest(
                    old(self).arena.input@,
                    k as int,
                    end as int,
                    old(self).arena.copies@,
                    at_eof,
                    fuel as nat,
                );
                final(self).queue@ == old(self).queue@ + a.events
                    && final(self).arena.copies@ == a.copies
                    && r.0 as int == a.next && r.1 == a.failed
            }),
            r.0 <= end,
            final(self).arena.input@ == old(self).arena.input@,
            final(self).stack@ == old(self).stack@,
            final(self).mode == old(self).mode,
            final(self).faulted == old(self).faulted,
            final(self).pos == old(self).pos,
            final(self).read_pos == old(self).read_pos,
            final(self).finished == old(self).finished,
        decreases fuel,
    {
        if fuel == 0 {
            self.queue.push(Event::Error {
                code: ErrorCode::Unclosed,
                span: Span { start: end, end },
            });
            return (end, true);
        }
        let p = skip_spaces_x(&self.arena.input, k, end);
        if p >= end {
            self.queue.push(Event::Error {
                code: ErrorCode::Unclosed,
                span: Span { start: end, end },
            });
            return (end, true);
        }
        if self.arena.input[p] == 125 {
            return (p + 1, false);
        }
        if !byte_is_name_start(self.arena.input[p]) {
            self.queue.push(err_at_x(p, end, at_eof));
            return (p, true);
        }
        let kend = name_end_x(&self.arena.input, p, end);
        self.queue.push(Event::Attribute {
            key: ChunkSlice { in_copies: false, start: p, len: kend - p },
            span: Span { start: p, end: kend },
        });
        let after_next: usize;
        if kend < end && self.arena.input[kend] == 58 {
            let q = skip_spaces_x(&self.arena.input, kend + 1, end);
            let (vnext, vfailed) = self.exec_value(q, end, at_eof, end - q + 2);
            if vfailed {
                return (vnext, true);
            }
            after_next = vnext;
        } else {
            after_next = kend;
        }
        let r2 = skip_spaces_x(&self.arena.input, after_next, end);
        if r2 >= end {
            self.queue.push(Event::Error {
                code: ErrorCode::Unclosed,
                span: Span { start: end, end },
            });
            return (end, true);
        }
        if self.arena.input[r2] == 44 {
            return self.exec_attrs(r2 + 1, end, at_eof, fuel - 1);
        }
        if self.arena.input[r2] == 125 {
            return (r2 + 1, false);
        }
        self.queue.push(err_at_x(r2, end, at_eof));
        (r2, true)
    }

    /// One-shot parsing: feeds the bytes once, finishes, and hands back
    /// the full event sequence together with the arena its slices point
    /// into.
    pub fn parse_all(bytes: &[u8]) -> (r: (Vec<Event>, ChunkArena))
        requires
            bytes@.len() <= usize::MAX - 8,
        ensures
            r.0@ == doc_events(bytes@),
            r.1.input@ == bytes@,
    {
        let hint = bytes.len() / 50;
        let capacity = if hint > 64 { hint } else { 64 };
        let mut p = StreamingParser::new(capacity);
        proof {
            assert(Seq::<u8>::empty() + bytes@ =~= bytes@);
        }
        p.feed(bytes);
        p.finish();
        proof {
            assert(p.queue@ =~= doc_events(bytes@));
        }
        let StreamingParser { arena, queue, .. } = p;
        (queue, arena)
    }

    /// Emits the End event matching an open construct's kind.
    fn push_end_event(&mut self, kind: OpenKind, at: usize)
        ensures
            final(self).queue@ == old(self).queue@ + seq![end_event(kind, at as int)],
            final(self).stack@ == old(self).stack@,
            final(self).mode == old(self).mode,
            final(self).faulted == old(self).faulted,
            final(self).arena == old(self).arena,
            final(self).pos == old(self).pos,
            final(self).read_pos == old(self).read_pos,
            final(self).finished == old(self).finished,
    {
        let span = Span { start: at, end: at };
        let ev = match kind {
            OpenKind::Element => Event::ElementEnd { span },
            OpenKind::Embedded => Event::EmbeddedEnd { span },
            OpenKind::Directive => Event::DirectiveEnd { span },
        };
        self.queue.push(ev);
    }
}

} // verus!
