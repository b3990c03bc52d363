//! The library's laws.
//!
//! The central one is chunking invariance: feeding an input in two pieces
//! yields exactly the state — and so exactly the event sequence — that
//! feeding it whole yields.  It rests on a family of lemmas showing every
//! piece of the line semantics reads nothing at or past its end bound, so
//! appending bytes never changes what an earlier region scans to.

use vstd::prelude::*;
use crate::event::Event;
use crate::scan::{
    all_digits, bare_end, digits_val, dot_run_end, find_byte, find_nl, has_esc, int_lit_val,
    is_digit, is_dotrun_char, is_int_lit, is_name_char, is_space, lemma_all_digits_append,
    lemma_bare_end_append, lemma_bare_end_bounds, lemma_digits_val_append, lemma_dot_run_end_append,
    lemma_dot_run_end_bounds, lemma_find_byte_append, lemma_find_byte_bounds, lemma_find_nl_append,
    lemma_find_nl_bounds, lemma_has_esc_append, lemma_name_end_append, lemma_name_end_bounds,
    lemma_quote_end_append, lemma_quote_end_bounds, lemma_skip_spaces_append,
    lemma_skip_spaces_bounds, lemma_unescape_append, name_end, quote_end, skip_spaces, unescape,
};
use crate::semantics::{
    array_rest, attrs_rest, bare_value_event, digits_end, do_directive, do_element, do_interp,
    do_line, do_marker, do_value_line, doc_events, dotrun_valid, element_opener, err_at,
    finish_step, init_state, is_complex_body, is_fence, is_float_lit, is_kw_false, is_kw_nil,
    is_kw_true, is_num_lit, is_rational_lit, parse_value, process, rational_sep, sign_split,
    LineOut, Run, ScanState, ValOut,
};
use crate::driver::{feed_spec, finish_spec, init_view, read_spec, DriverView};
use crate::parser::lemma_digits_end_all;

verus! {

// ---------------------------------------------------------------------
// append stability of the numeric classifiers
// ---------------------------------------------------------------------

pub proof fn lemma_digits_end_append(s: Seq<u8>, t: Seq<u8>, i: int, end: int)
    requires
        0 <= i,
        end <= s.len(),
    ensures
        digits_end(s + t, i, end) == digits_end(s, i, end),
    decreases end - i,
{
    if i < end {
        assert((s + t)[i] == s[i]);
        if is_digit(s[i]) {
            lemma_digits_end_append(s, t, i + 1, end);
        }
    }
}

pub proof fn lemma_sign_split_append(s: Seq<u8>, t: Seq<u8>, i: int, end: int)
    requires
        0 <= i,
        end <= s.len(),
    ensures
        sign_split(s + t, i, end) == sign_split(s, i, end),
    decreases end - i,
{
    if !(end - 1 <= i) {
        assert((s + t)[end - 1] == s[end - 1]);
        assert((s + t)[end - 2] == s[end - 2]);
        if !((s[end - 1] == 43 || s[end - 1] == 45) && s[end - 2] != 101 && s[end - 2] != 69) {
            lemma_sign_split_append(s, t, i, end - 1);
        }
    }
}

pub proof fn lemma_is_int_lit_append(s: Seq<u8>, t: Seq<u8>, i: int, end: int)
    requires
        0 <= i,
        end <= s.len(),
    ensures
        is_int_lit(s + t, i, end) == is_int_lit(s, i, end),
        int_lit_val(s + t, i, end) == int_lit_val(s, i, end),
{
    if i < end {
        assert((s + t)[i] == s[i]);
    }
    let d = if i < end && s[i] == 45 { i + 1 } else { i };
    lemma_all_digits_append(s, t, d, end);
    lemma_digits_val_append(s, t, d, end);
    lemma_digits_val_append(s, t, i, end);
}

pub proof fn lemma_is_float_lit_append(s: Seq<u8>, t: Seq<u8>, i: int, end: int)
    requires
        0 <= i <= end <= s.len(),
    ensures
        is_float_lit(s + t, i, end) == is_float_lit(s, i, end),
{
    if i < end {
        assert((s + t)[i] == s[i]);
    }
    let a = if i < end && s[i] == 45 { i + 1 } else { i };
    lemma_digits_end_append(s, t, a, end);
    lemma_digits_end_all(s, a, end);
    let d1 = digits_end(s, a, end);
    if d1 < end {
        assert((s + t)[d1] == s[d1]);
    }
    let has_dot = d1 < end && s[d1] == 46;
    if has_dot {
        lemma_digits_end_append(s, t, d1 + 1, end);
        lemma_digits_end_all(s, d1 + 1, end);
    }
    let d2 = if has_dot { digits_end(s, d1 + 1, end) } else { d1 };
    if d2 < end {
        assert((s + t)[d2] == s[d2]);
    }
    let has_exp = d2 < end && (s[d2] == 101 || s[d2] == 69);
    if has_exp {
        if d2 + 1 < end {
            assert((s + t)[d2 + 1] == s[d2 + 1]);
        }
        let e0 = if d2 + 1 < end && (s[d2 + 1] == 43 || s[d2 + 1] == 45) { d2 + 2 } else { d2 + 1 };
        lemma_digits_end_append(s, t, e0, end);
    }
}

pub proof fn lemma_is_num_lit_append(s: Seq<u8>, t: Seq<u8>, i: int, end: int)
    requires
        0 <= i <= end <= s.len(),
    ensures
        is_num_lit(s + t, i, end) == is_num_lit(s, i, end),
{
    lemma_is_int_lit_append(s, t, i, end);
    lemma_is_float_lit_append(s, t, i, end);
}

pub proof fn lemma_is_complex_body_append(s: Seq<u8>, t: Seq<u8>, i: int, end: int)
    requires
        0 <= i <= end <= s.len(),
    ensures
        is_complex_body(s + t, i, end) == is_complex_body(s, i, end),
{
    lemma_sign_split_append(s, t, i, end);
    lemma_sign_split_bounds(s, i, end);
    let m = sign_split(s, i, end);
    if m >= 0 {
        lemma_is_num_lit_append(s, t, i, m);
        lemma_is_num_lit_append(s, t, m + 1, end);
    } else if i < end {
        lemma_is_num_lit_append(s, t, i, end);
    }
}

pub proof fn lemma_sign_split_bounds(s: Seq<u8>, i: int, end: int)
    requires
        0 <= i,
    ensures
        sign_split(s, i, end) == -1 || (i < sign_split(s, i, end) < end),
    decreases end - i,
{
    if !(end - 1 <= i || end > s.len()) {
        if !((s[end - 1] == 43 || s[end - 1] == 45) && s[end - 2] != 101 && s[end - 2] != 69) {
            lemma_sign_split_bounds(s, i, end - 1);
        }
    }
}

pub proof fn lemma_bare_value_event_append(s: Seq<u8>, t: Seq<u8>, k: int, te: int)
    requires
        0 <= k < te <= s.len(),
    ensures
        bare_value_event(s + t, k, te) == bare_value_event(s, k, te),
{
    assert forall|x: int| k <= x < te implies (s + t)[x] == s[x] by {}
    assert(is_kw_nil(s + t, k, te) == is_kw_nil(s, k, te));
    assert(is_kw_true(s + t, k, te) == is_kw_true(s, k, te));
    assert(is_kw_false(s + t, k, te) == is_kw_false(s, k, te));
    lemma_find_byte_append(s, t, k, te, 47);
    lemma_find_byte_bounds(s, k, te, 47);
    let d = rational_sep(s, k, te);
    lemma_is_int_lit_append(s, t, k, d);
    lemma_is_int_lit_append(s, t, d + 1, te);
    lemma_is_complex_body_append(s, t, k, te - 1);
    lemma_sign_split_append(s, t, k, te - 1);
    lemma_sign_split_bounds(s, k, te - 1);
    lemma_is_float_lit_append(s, t, k, te);
    lemma_is_int_lit_append(s, t, k, te);
}

// ---------------------------------------------------------------------
// bounds and append stability of values, arrays, attribute groups
// ---------------------------------------------------------------------

pub proof fn lemma_parse_value_bounds(
    s: Seq<u8>,
    k: int,
    end: int,
    copies: Seq<u8>,
    at_eof: bool,
    fuel: nat,
)
    requires
        0 <= k <= end,
    ensures
        ({
            let v = parse_value(s, k, end, copies, at_eof, fuel);
            0 <= v.next <= end
        }),
    decreases fuel, 1nat,
{
    let v = parse_value(s, k, end, copies, at_eof, fuel);
    if fuel > 0 && k < end {
        if s[k] == 34 {
            lemma_quote_end_bounds(s, k + 1, end);
        } else if s[k] == 91 {
            lemma_array_rest_bounds(s, k + 1, end, copies, at_eof, (fuel - 1) as nat);
        } else {
            lemma_bare_end_bounds(s, k, end);
        }
    }
}

pub proof fn lemma_array_rest_bounds(
    s: Seq<u8>,
    k: int,
    end: int,
    copies: Seq<u8>,
    at_eof: bool,
    fuel: nat,
)
    requires
        0 <= k <= end,
    ensures
        ({
            let v = array_rest(s, k, end, copies, at_eof, fuel);
            0 <= v.next <= end
        }),
    decreases fuel, 0nat,
{
    if fuel > 0 {
        lemma_skip_spaces_bounds(s, k, end);
        let p = skip_spaces(s, k, end);
        if p < end && s[p] != 93 {
            lemma_parse_value_bounds(s, p, end, copies, at_eof, (fuel - 1) as nat);
            let v = parse_value(s, p, end, copies, at_eof, (fuel - 1) as nat);
            if !v.failed {
                lemma_skip_spaces_bounds(s, v.next, end);
                let q = skip_spaces(s, v.next, end);
                let k2 = if q < end && s[q] == 44 { q + 1 } else { q };
                lemma_array_rest_bounds(s, k2, end, v.copies, at_eof, (fuel - 1) as nat);
            }
        }
    }
}

pub proof fn lemma_parse_value_append(
    s: Seq<u8>,
    t: Seq<u8>,
    k: int,
    end: int,
    copies: Seq<u8>,
    at_eof: bool,
    fuel: nat,
)
    requires
        0 <= k <= end <= s.len(),
    ensures
        parse_value(s + t, k, end, copies, at_eof, fuel) == parse_value(
            s,
            k,
            end,
            copies,
            at_eof,
            fuel,
        ),
    decreases fuel, 1nat,
{
    if fuel > 0 && k < end {
        assert((s + t)[k] == s[k]);
        if s[k] == 34 {
            lemma_quote_end_append(s, t, k + 1, end);
            lemma_quote_end_bounds(s, k + 1, end);
            let qe = quote_end(s, k + 1, end);
            if qe < end {
                lemma_has_esc_append(s, t, k + 1, qe);
                lemma_unescape_append(s, t, k + 1, qe);
            }
        } else if s[k] == 91 {
            lemma_array_rest_append(s, t, k + 1, end, copies, at_eof, (fuel - 1) as nat);
        } else {
            lemma_bare_end_append(s, t, k, end);
            lemma_bare_end_bounds(s, k, end);
            let te = bare_end(s, k, end);
            if te > k {
                lemma_bare_value_event_append(s, t, k, te);
            }
        }
    }
}

pub proof fn lemma_array_rest_append(
    s: Seq<u8>,
    t: Seq<u8>,
    k: int,
    end: int,
    copies: Seq<u8>,
    at_eof: bool,
    fuel: nat,
)
    requires
        0 <= k <= end <= s.len(),
    ensures
        array_rest(s + t, k, end, copies, at_eof, fuel) == array_rest(
            s,
            k,
            end,
            copies,
            at_eof,
            fuel,
        ),
    decreases fuel, 0nat,
{
    if fuel > 0 {
        lemma_skip_spaces_append(s, t, k, end);
        lemma_skip_spaces_bounds(s, k, end);
        let p = skip_spaces(s, k, end);
        if p < end {
            assert((s + t)[p] == s[p]);
            if s[p] != 93 {
                lemma_parse_value_append(s, t, p, end, copies, at_eof, (fuel - 1) as nat);
                lemma_parse_value_bounds(s, p, end, copies, at_eof, (fuel - 1) as nat);
                let v = parse_value(s, p, end, copies, at_eof, (fuel - 1) as nat);
                if !v.failed {
                    lemma_skip_spaces_append(s, t, v.next, end);
                    lemma_skip_spaces_bounds(s, v.next, end);
                    let q = skip_spaces(s, v.next, end);
                    if q < end {
                        assert((s + t)[q] == s[q]);
                    }
                    let k2 = if q < end && s[q] == 44 { q + 1 } else { q };
                    lemma_array_rest_append(
                        s,
                        t,
                        k2,
                        end,
                        v.copies,
                        at_eof,
                        (fuel - 1) as nat,
                    );
                }
            }
        }
    }
}

pub proof fn lemma_attrs_rest_append(
    s: Seq<u8>,
    t: Seq<u8>,
    k: int,
    end: int,
    copies: Seq<u8>,
    at_eof: bool,
    fuel: nat,
)
    requires
        0 <= k <= end <= s.len(),
    ensures
        attrs_rest(s + t, k, end, copies, at_eof, fuel) == attrs_rest(
            s,
            k,
            end,
            copies,
            at_eof,
            fuel,
        ),
    decreases fuel,
{
    if fuel > 0 {
        lemma_skip_spaces_append(s, t, k, end);
        lemma_skip_spaces_bounds(s, k, end);
        let p = skip_spaces(s, k, end);
        if p < end {
            assert((s + t)[p] == s[p]);
            if s[p] != 125 && is_name_start_at(s, p) {
                lemma_name_end_append(s, t, p, end);
                lemma_name_end_bounds(s, p, end);
                let kend = name_end(s, p, end);
                if kend < end {
                    assert((s + t)[kend] == s[kend]);
                }
                let after = if kend < end && s[kend] == 58 {
                    lemma_skip_spaces_append(s, t, kend + 1, end);
                    lemma_skip_spaces_bounds(s, kend + 1, end);
                    let q = skip_spaces(s, kend + 1, end);
                    lemma_parse_value_append(s, t, q, end, copies, at_eof, (end - q + 2) as nat);
                    lemma_parse_value_bounds(s, q, end, copies, at_eof, (end - q + 2) as nat);
                    parse_value(s, q, end, copies, at_eof, (end - q + 2) as nat)
                } else {
                    ValOut { events: Seq::empty(), next: kend, copies, failed: false }
                };
                if !after.failed {
                    lemma_skip_spaces_append(s, t, after.next, end);
                    lemma_skip_spaces_bounds(s, after.next, end);
                    let r = skip_spaces(s, after.next, end);
                    if r < end {
                        assert((s + t)[r] == s[r]);
                        if s[r] == 44 {
                            lemma_attrs_rest_append(
                                s,
                                t,
                                r + 1,
                                end,
                                after.copies,
                                at_eof,
                                (fuel - 1) as nat,
                            );
                        }
                    }
                }
            }
        }
    }
}

/// Shorthand for the guard `attrs_rest` branches on.
pub open spec fn is_name_start_at(s: Seq<u8>, p: int) -> bool {
    crate::scan::is_name_start(s[p])
}

// ---------------------------------------------------------------------
// append stability of the line forms
// ---------------------------------------------------------------------

pub proof fn lemma_dotrun_valid_append(s: Seq<u8>, t: Seq<u8>, k: int, ce: int)
    requires
        0 <= k,
        ce <= s.len(),
    ensures
        dotrun_valid(s + t, k, ce) == dotrun_valid(s, k, ce),
{
    assert forall|x: int| k <= x < ce implies (s + t)[x] == s[x] by {}
    if dotrun_valid(s, k, ce) {
        assert forall|m: int| k <= m < ce && #[trigger] (s + t)[m] == 46 implies m + 1 < ce
            && is_name_char((s + t)[m + 1]) by {
            assert(s[m] == 46);
        }
    }
    if dotrun_valid(s + t, k, ce) {
        assert forall|m: int| k <= m < ce && #[trigger] s[m] == 46 implies m + 1 < ce
            && is_name_char(s[m + 1]) by {
            assert((s + t)[m] == 46);
        }
    }
}

pub proof fn lemma_element_opener_append(
    s: Seq<u8>,
    t: Seq<u8>,
    j: int,
    end: int,
    copies: Seq<u8>,
    at_eof: bool,
)
    requires
        0 <= j < end <= s.len(),
    ensures
        element_opener(s + t, j, end, copies, at_eof) == element_opener(s, j, end, copies, at_eof),
        0 <= element_opener(s, j, end, copies, at_eof).next <= end,
{
    assert((s + t)[j] == s[j]);
    lemma_name_end_append(s, t, j, end);
    lemma_name_end_bounds(s, j, end);
    let k0 = if crate::scan::is_name_start(s[j]) { name_end(s, j, end) } else { j };
    if k0 < end {
        assert((s + t)[k0] == s[k0]);
    }
    if k0 < end && s[k0] == 35 {
        lemma_name_end_append(s, t, k0 + 1, end);
        lemma_name_end_bounds(s, k0 + 1, end);
    }
    let k1 = if k0 < end && s[k0] == 35 { name_end(s, k0 + 1, end) } else { k0 };
    if k1 < end {
        assert((s + t)[k1] == s[k1]);
    }
    lemma_dot_run_end_append(s, t, k1, end);
    lemma_dot_run_end_bounds(s, k1, end);
    lemma_dotrun_valid_append(s, t, k1, dot_run_end(s, k1, end));
    let k2 = if k1 < end && s[k1] == 46 { dot_run_end(s, k1, end) } else { k1 };
    if k2 < end {
        assert((s + t)[k2] == s[k2]);
    }
}

pub proof fn lemma_do_element_append(
    s: Seq<u8>,
    t: Seq<u8>,
    j: int,
    end: int,
    indent: int,
    st: ScanState,
    at_eof: bool,
)
    requires
        0 <= j < end <= s.len(),
    ensures
        do_element(s + t, j, end, indent, st, at_eof) == do_element(s, j, end, indent, st, at_eof),
{
    lemma_element_opener_append(s, t, j, end, st.copies, at_eof);
    let o = element_opener(s, j, end, st.copies, at_eof);
    if !o.failed {
        let k3 = o.next;
        if k3 < end {
            assert((s + t)[k3] == s[k3]);
        }
        if k3 < end && s[k3] == 123 {
            lemma_attrs_rest_append(s, t, k3 + 1, end, st.copies, at_eof, (end - k3 + 2) as nat);
            let a = attrs_rest(s, k3 + 1, end, st.copies, at_eof, (end - k3 + 2) as nat);
            if !a.failed {
                lemma_attrs_rest_next_bounds(s, k3 + 1, end, st.copies, at_eof, (end - k3 + 2) as nat);
                lemma_skip_spaces_append(s, t, a.next, end);
            }
        } else {
            lemma_skip_spaces_append(s, t, k3, end);
        }
    }
}

pub proof fn lemma_attrs_rest_next_bounds(
    s: Seq<u8>,
    k: int,
    end: int,
    copies: Seq<u8>,
    at_eof: bool,
    fuel: nat,
)
    requires
        0 <= k <= end,
    ensures
        0 <= attrs_rest(s, k, end, copies, at_eof, fuel).next <= end,
    decreases fuel,
{
    if fuel > 0 {
        lemma_skip_spaces_bounds(s, k, end);
        let p = skip_spaces(s, k, end);
        if p < end && s[p] != 125 && is_name_start_at(s, p) {
            lemma_name_end_bounds(s, p, end);
            let kend = name_end(s, p, end);
            let after = if kend < end && s[kend] == 58 {
                lemma_skip_spaces_bounds(s, kend + 1, end);
                let q = skip_spaces(s, kend + 1, end);
                lemma_parse_value_bounds(s, q, end, copies, at_eof, (end - q + 2) as nat);
                parse_value(s, q, end, copies, at_eof, (end - q + 2) as nat)
            } else {
                ValOut { events: Seq::empty(), next: kend, copies, failed: false }
            };
            if !after.failed {
                lemma_skip_spaces_bounds(s, after.next, end);
                let r = skip_spaces(s, after.next, end);
                if r < end && s[r] == 44 {
                    lemma_attrs_rest_next_bounds(
                        s,
                        r + 1,
                        end,
                        after.copies,
                        at_eof,
                        (fuel - 1) as nat,
                    );
                }
            }
        }
    }
}

pub proof fn lemma_do_directive_append(
    s: Seq<u8>,
    t: Seq<u8>,
    j: int,
    end: int,
    indent: int,
    st: ScanState,
    at_eof: bool,
)
    requires
        0 <= j < end <= s.len(),
    ensures
        do_directive(s + t, j, end, indent, st, at_eof) == do_directive(
            s,
            j,
            end,
            indent,
            st,
            at_eof,
        ),
{
    if j + 1 < end {
        assert((s + t)[j + 1] == s[j + 1]);
    }
    let raw = j + 1 < end && s[j + 1] == 33;
    let a = if raw { j + 2 } else { j + 1 };
    lemma_name_end_append(s, t, a, end);
    lemma_name_end_bounds(s, a, end);
    let n1 = name_end(s, a, end);
    if n1 < end {
        assert((s + t)[n1] == s[n1]);
    }
    let has_ns = n1 < end && s[n1] == 58;
    if has_ns {
        lemma_name_end_append(s, t, n1 + 1, end);
        lemma_name_end_bounds(s, n1 + 1, end);
    }
    let nend = if has_ns { name_end(s, n1 + 1, end) } else { n1 };
    if nend < end {
        assert((s + t)[nend] == s[nend]);
    }
    if nend < end && s[nend] == 40 {
        lemma_find_byte_append(s, t, nend + 1, end, 41);
        lemma_find_byte_bounds(s, nend + 1, end, 41);
        let close = find_byte(s, nend + 1, end, 41);
        lemma_skip_spaces_append(s, t, close + 1, end);
    }
    lemma_skip_spaces_append(s, t, nend, end);
}

pub proof fn lemma_do_marker_append(
    s: Seq<u8>,
    t: Seq<u8>,
    j: int,
    end: int,
    indent: int,
    st: ScanState,
    at_eof: bool,
)
    requires
        0 <= j < end <= s.len(),
    ensures
        do_marker(s + t, j, end, indent, st, at_eof) == do_marker(s, j, end, indent, st, at_eof),
{
    assert((s + t)[j] == s[j]);
    lemma_name_end_append(s, t, j + 1, end);
    lemma_name_end_bounds(s, j + 1, end);
    let idend = name_end(s, j + 1, end);
    lemma_skip_spaces_append(s, t, idend, end);
}

pub proof fn lemma_do_interp_append(
    s: Seq<u8>,
    t: Seq<u8>,
    j: int,
    end: int,
    st: ScanState,
    at_eof: bool,
)
    requires
        0 <= j < end <= s.len(),
    ensures
        do_interp(s + t, j, end, st, at_eof) == do_interp(s, j, end, st, at_eof),
{
    if j + 1 < end {
        assert((s + t)[j + 1] == s[j + 1]);
    }
    if j + 1 < end && s[j + 1] == 40 {
        lemma_find_byte_append(s, t, j + 2, end, 41);
        lemma_find_byte_bounds(s, j + 2, end, 41);
        let close = find_byte(s, j + 2, end, 41);
        lemma_skip_spaces_append(s, t, close + 1, end);
    }
}

pub proof fn lemma_do_value_line_append(
    s: Seq<u8>,
    t: Seq<u8>,
    j: int,
    end: int,
    st: ScanState,
    at_eof: bool,
)
    requires
        0 <= j < end <= s.len(),
    ensures
        do_value_line(s + t, j, end, st, at_eof) == do_value_line(s, j, end, st, at_eof),
{
    lemma_parse_value_append(s, t, j, end, st.copies, at_eof, (end - j + 2) as nat);
    lemma_parse_value_bounds(s, j, end, st.copies, at_eof, (end - j + 2) as nat);
    let v = parse_value(s, j, end, st.copies, at_eof, (end - j + 2) as nat);
    lemma_skip_spaces_append(s, t, v.next, end);
}

pub proof fn lemma_is_fence_append(s: Seq<u8>, t: Seq<u8>, j: int, end: int)
    requires
        0 <= j,
        end <= s.len(),
    ensures
        is_fence(s + t, j, end) == is_fence(s, j, end),
{
    if end - j == 3 {
        assert((s + t)[j] == s[j]);
        assert((s + t)[j + 1] == s[j + 1]);
        assert((s + t)[j + 2] == s[j + 2]);
    }
}

/// The line semantics reads nothing at or past `end`: appending input
/// leaves every earlier line's events and state unchanged.
pub proof fn lemma_do_line_append(
    s: Seq<u8>,
    t: Seq<u8>,
    start: int,
    end: int,
    st: ScanState,
    at_eof: bool,
)
    requires
        0 <= start <= end <= s.len(),
    ensures
        do_line(s + t, start, end, st, at_eof) == do_line(s, start, end, st, at_eof),
{
    reveal(do_line);
    if !st.faulted {
        if st.mode is Freeform {
            lemma_is_fence_append(s, t, start, end);
        } else {
            lemma_skip_spaces_append(s, t, start, end);
            lemma_skip_spaces_bounds(s, start, end);
            let j = skip_spaces(s, start, end);
            if j < end {
                assert((s + t)[j] == s[j]);
                let b = s[j];
                if b == 9 {
                } else if b == 59 {
                } else if b == 39 {
                    lemma_is_fence_append(s, t, j, end);
                } else if b == 64 {
                    lemma_do_directive_append(s, t, j, end, j - start, close_st(st, j - start, j), at_eof);
                } else if b == 33 || b == 42 || b == 38 {
                    lemma_do_marker_append(s, t, j, end, j - start, close_st(st, j - start, j), at_eof);
                } else if b == 36 {
                    lemma_do_interp_append(s, t, j, end, close_st(st, j - start, j), at_eof);
                } else if crate::scan::is_name_start(b) || b == 35 || b == 46 {
                    lemma_do_element_append(s, t, j, end, j - start, close_st(st, j - start, j), at_eof);
                } else if b == 34 || is_digit(b) || b == 45 || b == 91 {
                    lemma_do_value_line_append(s, t, j, end, close_st(st, j - start, j), at_eof);
                }
            }
        }
    }
}

/// The scanner state after the dedent closing at the head of a line.
pub open spec fn close_st(st: ScanState, indent: int, at: int) -> ScanState {
    ScanState { stack: crate::semantics::close_ge(st.stack, indent, at).stack, ..st }
}

// ---------------------------------------------------------------------
// chunking invariance
// ---------------------------------------------------------------------

/// Processing decomposes over an append: the lines wholly inside `s` give
/// the same events, and what remains is processed from where `s` left
/// off.
#[verifier::rlimit(100)]
#[verifier::spinoff_prover]
pub proof fn lemma_process_append(s: Seq<u8>, t: Seq<u8>, p: int, st: ScanState)
    requires
        0 <= p <= s.len(),
    ensures
        ({
            let r1 = process(s, p, st);
            let r2 = process(s + t, r1.pos, r1.st);
            process(s + t, p, st) == Run {
                events: r1.events + r2.events,
                pos: r2.pos,
                st: r2.st,
            }
        }),
    decreases s.len() - p,
{
    let r1 = process(s, p, st);
    if st.faulted || p >= s.len() {
        assert(r1 == Run { events: Seq::<Event>::empty(), pos: p, st });
        let r2 = process(s + t, p, st);
        assert(r1.events + r2.events =~= r2.events);
        assert(process(s + t, p, st) =~= Run {
            events: r1.events + r2.events,
            pos: r2.pos,
            st: r2.st,
        });
    } else {
        lemma_find_nl_bounds(s, p);
        let nl = find_nl(s, p);
        if nl >= s.len() {
            assert(r1 == Run { events: Seq::<Event>::empty(), pos: p, st });
            let r2 = process(s + t, p, st);
            assert(r1.events + r2.events =~= r2.events);
        } else {
            lemma_find_nl_append(s, t, p);
            lemma_do_line_append(s, t, p, nl, st, false);
            let lo = do_line(s, p, nl, st, false);
            if lo.st.faulted {
                assert(r1 == Run { events: lo.events, pos: nl + 1, st: lo.st });
                let r2 = process(s + t, nl + 1, lo.st);
                assert(r2 == Run { events: Seq::<Event>::empty(), pos: nl + 1, st: lo.st });
                assert(r1.events + r2.events =~= lo.events);
            } else {
                lemma_process_append(s, t, nl + 1, lo.st);
                let q1 = process(s, nl + 1, lo.st);
                let q2 = process(s + t, q1.pos, q1.st);
                assert(process(s + t, nl + 1, lo.st) == Run {
                    events: q1.events + q2.events,
                    pos: q2.pos,
                    st: q2.st,
                });
                assert(lo.events + (q1.events + q2.events)
                    =~= (lo.events + q1.events) + q2.events);
            }
        }
    }
}

/// A driver view whose cursor lies inside its input.
pub open spec fn view_wf(v: DriverView) -> bool {
    0 <= v.pos <= v.input.len()
}

/// Feeding in two pieces is feeding the concatenation: the driver states
/// are equal, not merely the queues.
#[verifier::rlimit(100)]
#[verifier::spinoff_prover]
pub proof fn lemma_feed_split(v: DriverView, a: Seq<u8>, b: Seq<u8>)
    requires
        view_wf(v),
    ensures
        feed_spec(feed_spec(v, a), b) == feed_spec(v, a + b),
{
    if !v.finished {
        let s1 = v.input + a;
        let r1 = process(s1, v.pos, v.scan);
        let v1 = feed_spec(v, a);
        assert(v1.input == s1 && v1.pos == r1.pos && v1.scan == r1.st);
        lemma_process_append(s1, b, v.pos, v.scan);
        let r2 = process(s1 + b, r1.pos, r1.st);
        assert(process(s1 + b, v.pos, v.scan) == Run {
            events: r1.events + r2.events,
            pos: r2.pos,
            st: r2.st,
        });
        assert(s1 + b =~= v.input + (a + b));
        assert((v.queue + r1.events) + r2.events =~= v.queue + (r1.events + r2.events));
        assert(feed_spec(feed_spec(v, a), b) =~= feed_spec(v, a + b));
    }
}

/// Chunking invariance: for any split of the input into two chunks, feed
/// of both pieces followed by finish yields exactly the state — and so
/// exactly the event sequence — of feeding the whole input at once.
pub proof fn theorem_chunking_invariance(v: DriverView, a: Seq<u8>, b: Seq<u8>)
    requires
        view_wf(v),
    ensures
        finish_spec(feed_spec(feed_spec(v, a), b)) == finish_spec(feed_spec(v, a + b)),
        feed_spec(feed_spec(v, a), b).queue == feed_spec(v, a + b).queue,
{
    lemma_feed_split(v, a, b);
}

/// The one-shot form of chunking invariance: from a fresh parser, the
/// split feed denotes exactly the document's event sequence.
pub proof fn theorem_chunking_invariance_fresh(a: Seq<u8>, b: Seq<u8>)
    ensures
        finish_spec(feed_spec(feed_spec(init_view(), a), b)).queue == doc_events(a + b),
{
    lemma_feed_split(init_view(), a, b);
    assert(Seq::<u8>::empty() + (a + b) =~= a + b);
    let r = process(a + b, 0, init_state());
    assert(finish_spec(feed_spec(init_view(), a + b)).queue
        =~= r.events + finish_step(a + b, r.pos, r.st).events);
}

// ---------------------------------------------------------------------
// read idempotence
// ---------------------------------------------------------------------

/// Reading from an empty queue returns nothing and changes nothing, so
/// repeated reads after exhaustion return nothing forever and no event is
/// delivered twice.
pub proof fn law_read_idempotent(v: DriverView)
    requires
        v.read_pos >= v.queue.len(),
    ensures
        read_spec(v).0 is None,
        read_spec(v).1 == v,
{
}

// ---------------------------------------------------------------------
// slice round-trip for quoted strings
// ---------------------------------------------------------------------

/// A closed quoted string yields exactly one QuotedStringValue whose
/// slice resolves to the span's interior bytes — unescaped when the
/// interior holds escapes and copied to the copies region, verbatim and
/// zero-copy otherwise.
pub proof fn law_quoted_value_roundtrip(
    s: Seq<u8>,
    k: int,
    end: int,
    copies: Seq<u8>,
    at_eof: bool,
    fuel: nat,
)
    requires
        0 <= k < end <= s.len(),
        s.len() <= usize::MAX,
        copies.len() + s.len() <= usize::MAX,
        s[k] == 34,
        fuel > 0,
        quote_end(s, k + 1, end) < end,
    ensures
        ({
            let v = parse_value(s, k, end, copies, at_eof, fuel);
            let qe = quote_end(s, k + 1, end);
            &&& !v.failed
            &&& v.events.len() == 1
            &&& v.events[0] matches Event::QuotedStringValue { value, span }
                && span == crate::semantics::mk_span(k, qe + 1)
                && if has_esc(s, k + 1, qe) {
                    &&& value.in_copies
                    &&& v.copies == copies + unescape(s, k + 1, qe)
                    &&& value.start == copies.len()
                    &&& value.len == unescape(s, k + 1, qe).len()
                } else {
                    &&& !value.in_copies
                    &&& value.start == k + 1
                    &&& value.len == qe - (k + 1)
                    &&& v.copies == copies
                }
        }),
{
    lemma_quote_end_bounds(s, k + 1, end);
    let qe = quote_end(s, k + 1, end);
    crate::scan::lemma_unescape_len(s, k + 1, qe);
}

} // verus!
