//! Executable token classification: the scalar-value classifier and its
//! helpers, each proved to return exactly what the semantics denotes.

use vstd::prelude::*;
use crate::arena::Span;
use crate::event::Event;
use crate::scan::{
    all_digits, bare_end, byte_is_digit, byte_is_name_char, digits_val, digits_val_x, find_byte,
    find_byte_x, int_lit_val, is_digit, is_int_lit,
};
use crate::semantics::{
    bare_value_event, digits_end, in_slice, is_complex_body, is_float_lit, is_kw_false, is_kw_nil,
    is_kw_true, is_num_lit, is_rational_lit, mk_span, rational_sep, sign_split,
};

verus! {

pub fn digits_end_x(data: &Vec<u8>, i: usize, end: usize) -> (r: usize)
    requires
        i <= end <= data@.len(),
    ensures
        r == digits_end(data@, i as int, end as int),
        i <= r <= end,
{
    let mut j: usize = i;
    while j < end && byte_is_digit(data[j])
        invariant
            i <= j <= end,
            end <= data@.len(),
            digits_end(data@, i as int, end as int) == digits_end(data@, j as int, end as int),
        decreases end - j,
    {
        j = j + 1;
    }
    j
}

/// A digit run reaches `end` exactly when every byte of it is a digit.
pub proof fn lemma_digits_end_all(s: Seq<u8>, i: int, end: int)
    requires
        0 <= i <= end <= s.len(),
    ensures
        i <= digits_end(s, i, end) <= end,
        (digits_end(s, i, end) == end) == all_digits(s, i, end),
    decreases end - i,
{
    if i < end && is_digit(s[i]) {
        lemma_digits_end_all(s, i + 1, end);
        assert(all_digits(s, i, end) == all_digits(s, i + 1, end));
    } else if i < end {
        assert(!all_digits(s, i, end));
    }
}

pub fn is_int_lit_x(data: &Vec<u8>, i: usize, end: usize) -> (r: bool)
    requires
        i <= end <= data@.len(),
    ensures
        r == is_int_lit(data@, i as int, end as int),
{
    let d: usize = if i < end && data[i] == 45 { i + 1 } else { i };
    proof {
        lemma_digits_end_all(data@, d as int, end as int);
    }
    let de = digits_end_x(data, d, end);
    1 <= end - d && end - d <= 18 && de == end
}

/// Reads an integer literal as an `i64`; every literal the classifier
/// admits fits.
pub fn int_lit_val_x(data: &Vec<u8>, i: usize, end: usize) -> (r: i64)
    requires
        i <= end <= data@.len(),
        is_int_lit(data@, i as int, end as int),
    ensures
        r as int == int_lit_val(data@, i as int, end as int),
{
    if data[i] == 45 {
        let v = digits_val_x(data, i + 1, end);
        -v
    } else {
        digits_val_x(data, i, end)
    }
}

pub fn is_float_lit_x(data: &Vec<u8>, i: usize, end: usize) -> (r: bool)
    requires
        i <= end <= data@.len(),
    ensures
        r == is_float_lit(data@, i as int, end as int),
{
    let a: usize = if i < end && data[i] == 45 { i + 1 } else { i };
    let d1 = digits_end_x(data, a, end);
    let has_dot = d1 < end && data[d1] == 46;
    let d2: usize = if has_dot { digits_end_x(data, d1 + 1, end) } else { d1 };
    let has_digit = d1 > a || (has_dot && d2 > d1 + 1);
    let has_exp = d2 < end && (data[d2] == 101 || data[d2] == 69);
    if has_exp {
        let e0: usize = if d2 + 1 < end && (data[d2 + 1] == 43 || data[d2 + 1] == 45) {
            d2 + 2
        } else {
            d2 + 1
        };
        let d3 = digits_end_x(data, e0, end);
        has_digit && d3 == end && d3 > e0
    } else {
        has_digit && d2 == end && has_dot
    }
}

pub fn is_num_lit_x(data: &Vec<u8>, i: usize, end: usize) -> (r: bool)
    requires
        i <= end <= data@.len(),
    ensures
        r == is_num_lit(data@, i as int, end as int),
{
    is_int_lit_x(data, i, end) || is_float_lit_x(data, i, end)
}

pub fn sign_split_x(data: &Vec<u8>, i: usize, end: usize) -> (r: Option<usize>)
    requires
        i <= end <= data@.len(),
    ensures
        match r {
            Some(m) => m as int == sign_split(data@, i as int, end as int) && i < m < end,
            None => sign_split(data@, i as int, end as int) == -1,
        },
    decreases end - i,
{
    if end <= i || end - i == 1 {
        None
    } else if (data[end - 1] == 43 || data[end - 1] == 45) && data[end - 2] != 101
        && data[end - 2] != 69 {
        Some(end - 1)
    } else {
        sign_split_x(data, i, end - 1)
    }
}

pub fn is_complex_body_x(data: &Vec<u8>, i: usize, end: usize) -> (r: bool)
    requires
        i <= end <= data@.len(),
    ensures
        r == is_complex_body(data@, i as int, end as int),
{
    match sign_split_x(data, i, end) {
        Some(m) => is_num_lit_x(data, i, m) && is_num_lit_x(data, m + 1, end),
        None => i < end && is_num_lit_x(data, i, end),
    }
}

pub fn err_at_x(p: usize, end: usize, at_eof: bool) -> (e: Event)
    ensures
        e == crate::semantics::err_at(p as int, end as int, at_eof),
{
    let code = if at_eof && p >= end {
        crate::event::ErrorCode::UnexpectedEof
    } else {
        crate::event::ErrorCode::UnexpectedChar
    };
    let span = if p < end {
        Span { start: p, end: p + 1 }
    } else {
        Span { start: p, end: p }
    };
    Event::Error { code, span }
}

pub fn dotrun_valid_x(data: &Vec<u8>, k: usize, ce: usize) -> (r: bool)
    requires
        k <= ce <= data@.len(),
    ensures
        r == crate::semantics::dotrun_valid(data@, k as int, ce as int),
{
    let mut m: usize = k;
    while m < ce
        invariant
            k <= m <= ce,
            ce <= data@.len(),
            forall|q: int| k <= q < m && #[trigger] data@[q] == 46
                ==> q + 1 < ce && crate::scan::is_name_char(data@[q + 1]),
        decreases ce - m,
    {
        if data[m] == 46 && !(m + 1 < ce && byte_is_name_char(data[m + 1])) {
            return false;
        }
        m = m + 1;
    }
    true
}

pub fn is_fence_x(data: &Vec<u8>, j: usize, end: usize) -> (r: bool)
    requires
        j <= end <= data@.len(),
    ensures
        r == crate::semantics::is_fence(data@, j as int, end as int),
{
    end - j == 3 && data[j] == 39 && data[j + 1] == 39 && data[j + 2] == 39
}

/// The scalar event a bare token denotes, in classification priority
/// order: keyword, rational, complex, float, integer, bare string.
pub fn bare_event_x(data: &Vec<u8>, k: usize, te: usize) -> (e: Event)
    requires
        k < te <= data@.len(),
    ensures
        e == bare_value_event(data@, k as int, te as int),
{
    let span = Span { start: k, end: te };
    if te - k == 3 && data[k] == 110 && data[k + 1] == 105 && data[k + 2] == 108 {
        Event::NilValue { span }
    } else if te - k == 4 && data[k] == 116 && data[k + 1] == 114 && data[k + 2] == 117
        && data[k + 3] == 101 {
        Event::BoolValue { value: true, span }
    } else if te - k == 5 && data[k] == 102 && data[k + 1] == 97 && data[k + 2] == 108
        && data[k + 3] == 115 && data[k + 4] == 101 {
        Event::BoolValue { value: false, span }
    } else {
        let d = find_byte_x(data, k, te, 47);
        if d < te && is_int_lit_x(data, k, d) && is_int_lit_x(data, d + 1, te) {
            let numerator = int_lit_val_x(data, k, d);
            let denominator = int_lit_val_x(data, d + 1, te);
            Event::RationalValue { numerator, denominator, span }
        } else if te - 1 > k && data[te - 1] == 105 && is_complex_body_x(data, k, te - 1) {
            match sign_split_x(data, k, te - 1) {
                Some(m) => Event::ComplexValue {
                    real: crate::arena::ChunkSlice { in_copies: false, start: k, len: m - k },
                    imag: crate::arena::ChunkSlice {
                        in_copies: false,
                        start: m,
                        len: te - 1 - m,
                    },
                    span,
                },
                None => Event::ComplexValue {
                    real: crate::arena::ChunkSlice { in_copies: false, start: k, len: 0 },
                    imag: crate::arena::ChunkSlice {
                        in_copies: false,
                        start: k,
                        len: te - 1 - k,
                    },
                    span,
                },
            }
        } else if is_float_lit_x(data, k, te) {
            Event::FloatValue {
                value: crate::arena::ChunkSlice { in_copies: false, start: k, len: te - k },
                span,
            }
        } else if is_int_lit_x(data, k, te) {
            let value = int_lit_val_x(data, k, te);
            Event::IntegerValue { value, span }
        } else {
            Event::StringValue {
                value: crate::arena::ChunkSlice { in_copies: false, start: k, len: te - k },
                span,
            }
        }
    }
}

} // verus!
