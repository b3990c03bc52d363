//! Byte-level scanning: character classes, token-end scanners, escape
//! rewriting and integer-literal reading, each as a specification function
//! with a matching executable scanner, plus the lemmas showing every
//! scanner reads only the bytes below its end bound (so appending input
//! never changes what an earlier region scans to).

use vstd::prelude::*;

verus! {

// ---------------------------------------------------------------------
// character classes
// ---------------------------------------------------------------------

pub open spec fn is_space(b: u8) -> bool {
    b == 32
}

pub open spec fn is_digit(b: u8) -> bool {
    48 <= b <= 57
}

pub open spec fn is_name_start(b: u8) -> bool {
    (97 <= b <= 122) || (65 <= b <= 90) || b == 95
}

pub open spec fn is_name_char(b: u8) -> bool {
    is_name_start(b) || is_digit(b) || b == 45
}

/// Bytes a bare (unquoted) value token may contain: anything up to a
/// delimiter (space, comma, closing brace or bracket, newline).
pub open spec fn is_bare_char(b: u8) -> bool {
    !(b == 32 || b == 44 || b == 125 || b == 93 || b == 10)
}

/// Bytes of an element's dotted class run: class names and the dots
/// between them.
pub open spec fn is_dotrun_char(b: u8) -> bool {
    is_name_char(b) || b == 46
}

pub fn byte_is_digit(b: u8) -> (r: bool)
    ensures
        r == is_digit(b),
{
    48 <= b && b <= 57
}

pub fn byte_is_name_start(b: u8) -> (r: bool)
    ensures
        r == is_name_start(b),
{
    (97 <= b && b <= 122) || (65 <= b && b <= 90) || b == 95
}

pub fn byte_is_name_char(b: u8) -> (r: bool)
    ensures
        r == is_name_char(b),
{
    byte_is_name_start(b) || byte_is_digit(b) || b == 45
}

pub fn byte_is_bare_char(b: u8) -> (r: bool)
    ensures
        r == is_bare_char(b),
{
    !(b == 32 || b == 44 || b == 125 || b == 93 || b == 10)
}

pub fn byte_is_dotrun_char(b: u8) -> (r: bool)
    ensures
        r == is_dotrun_char(b),
{
    byte_is_name_char(b) || b == 46
}

// ---------------------------------------------------------------------
// token-end scanners, specification level
// ---------------------------------------------------------------------

/// The index of the first newline at or after `i`, or `s.len()` if none.
pub open spec fn find_nl(s: Seq<u8>, i: int) -> int
    decreases s.len() - i,
{
    if i < 0 || i >= s.len() {
        s.len() as int
    } else if s[i] == 10 {
        i
    } else {
        find_nl(s, i + 1)
    }
}

/// The first index in `[i, end)` holding a byte other than a space.
pub open spec fn skip_spaces(s: Seq<u8>, i: int, end: int) -> int
    decreases end - i,
{
    if i < end && is_space(s[i]) {
        skip_spaces(s, i + 1, end)
    } else {
        i
    }
}

/// The end of the name token starting at `i`, bounded by `end`.
pub open spec fn name_end(s: Seq<u8>, i: int, end: int) -> int
    decreases end - i,
{
    if i < end && is_name_char(s[i]) {
        name_end(s, i + 1, end)
    } else {
        i
    }
}

/// The end of the bare value token starting at `i`.
pub open spec fn bare_end(s: Seq<u8>, i: int, end: int) -> int
    decreases end - i,
{
    if i < end && is_bare_char(s[i]) {
        bare_end(s, i + 1, end)
    } else {
        i
    }
}

/// The end of a dotted class run starting at `i`.
pub open spec fn dot_run_end(s: Seq<u8>, i: int, end: int) -> int
    decreases end - i,
{
    if i < end && is_dotrun_char(s[i]) {
        dot_run_end(s, i + 1, end)
    } else {
        i
    }
}

/// The index of the closing double quote of a quoted string whose
/// interior starts at `i`, honouring backslash escapes; `end` when the
/// string is not closed within `[i, end)`.
pub open spec fn quote_end(s: Seq<u8>, i: int, end: int) -> int
    decreases end - i,
{
    if i < 0 || i >= end {
        end
    } else if s[i] == 34 {
        i
    } else if s[i] == 92 {
        if i + 2 <= end {
            quote_end(s, i + 2, end)
        } else {
            end
        }
    } else {
        quote_end(s, i + 1, end)
    }
}

/// The index of the first byte equal to `b` in `[i, end)`, or `end`.
pub open spec fn find_byte(s: Seq<u8>, i: int, end: int, b: u8) -> int
    decreases end - i,
{
    if i < end && s[i] != b {
        find_byte(s, i + 1, end, b)
    } else {
        i
    }
}

/// Whether the interior `[i, end)` holds a backslash, i.e. whether the
/// quoted string needs rewriting.
pub open spec fn has_esc(s: Seq<u8>, i: int, end: int) -> bool {
    exists|k: int| i <= k < end && s[k] == 92
}

/// What a backslash escape rewrites to.
pub open spec fn esc_byte(b: u8) -> u8 {
    if b == 110 {
        10
    } else if b == 116 {
        9
    } else if b == 114 {
        13
    } else {
        b
    }
}

/// The unescaped bytes of a quoted-string interior.
pub open spec fn unescape(s: Seq<u8>, i: int, end: int) -> Seq<u8>
    decreases end - i,
{
    if i < 0 || i >= end {
        Seq::empty()
    } else if s[i] == 92 && i + 1 < end {
        seq![esc_byte(s[i + 1])] + unescape(s, i + 2, end)
    } else {
        seq![s[i]] + unescape(s, i + 1, end)
    }
}

// ---------------------------------------------------------------------
// integer literals
// ---------------------------------------------------------------------

pub open spec fn all_digits(s: Seq<u8>, i: int, end: int) -> bool {
    forall|k: int| i <= k < end ==> is_digit(#[trigger] s[k])
}

/// The value of the digit run `[i, end)`, most significant first.
pub open spec fn digits_val(s: Seq<u8>, i: int, end: int) -> int
    decreases end - i,
{
    if i >= end {
        0
    } else {
        digits_val(s, i, end - 1) * 10 + (s[end - 1] - 48)
    }
}

/// An integer literal: an optional leading minus, then one to eighteen
/// digits (the bound keeps every such literal inside `i64`).
pub open spec fn is_int_lit(s: Seq<u8>, i: int, end: int) -> bool {
    let d = if i < end && s[i] == 45 { i + 1 } else { i };
    1 <= end - d <= 18 && all_digits(s, d, end)
}

/// The signed value of an integer literal.
pub open spec fn int_lit_val(s: Seq<u8>, i: int, end: int) -> int {
    if i < end && s[i] == 45 {
        -digits_val(s, i + 1, end)
    } else {
        digits_val(s, i, end)
    }
}

// ---------------------------------------------------------------------
// append stability: every bounded scanner ignores bytes at or past `end`
// ---------------------------------------------------------------------

pub proof fn lemma_find_nl_append(s: Seq<u8>, t: Seq<u8>, i: int)
    requires
        find_nl(s, i) < s.len(),
    ensures
        find_nl(s + t, i) == find_nl(s, i),
    decreases s.len() - i,
{
    if 0 <= i < s.len() {
        assert((s + t)[i] == s[i]);
        if s[i] != 10 {
            lemma_find_nl_append(s, t, i + 1);
        }
    }
}

pub proof fn lemma_skip_spaces_append(s: Seq<u8>, t: Seq<u8>, i: int, end: int)
    requires
        0 <= i,
        end <= s.len(),
    ensures
        skip_spaces(s + t, i, end) == skip_spaces(s, i, end),
    decreases end - i,
{
    if i < end {
        assert((s + t)[i] == s[i]);
        if is_space(s[i]) {
            lemma_skip_spaces_append(s, t, i + 1, end);
        }
    }
}

pub proof fn lemma_name_end_append(s: Seq<u8>, t: Seq<u8>, i: int, end: int)
    requires
        0 <= i,
        end <= s.len(),
    ensures
        name_end(s + t, i, end) == name_end(s, i, end),
    decreases end - i,
{
    if i < end {
        assert((s + t)[i] == s[i]);
        if is_name_char(s[i]) {
            lemma_name_end_append(s, t, i + 1, end);
        }
    }
}

pub proof fn lemma_bare_end_append(s: Seq<u8>, t: Seq<u8>, i: int, end: int)
    requires
        0 <= i,
        end <= s.len(),
    ensures
        bare_end(s + t, i, end) == bare_end(s, i, end),
    decreases end - i,
{
    if i < end {
        assert((s + t)[i] == s[i]);
        if is_bare_char(s[i]) {
            lemma_bare_end_append(s, t, i + 1, end);
        }
    }
}

pub proof fn lemma_dot_run_end_append(s: Seq<u8>, t: Seq<u8>, i: int, end: int)
    requires
        0 <= i,
        end <= s.len(),
    ensures
        dot_run_end(s + t, i, end) == dot_run_end(s, i, end),
    decreases end - i,
{
    if i < end {
        assert((s + t)[i] == s[i]);
        if is_dotrun_char(s[i]) {
            lemma_dot_run_end_append(s, t, i + 1, end);
        }
    }
}

pub proof fn lemma_quote_end_append(s: Seq<u8>, t: Seq<u8>, i: int, end: int)
    requires
        0 <= i,
        end <= s.len(),
    ensures
        quote_end(s + t, i, end) == quote_end(s, i, end),
    decreases end - i,
{
    if i < end {
        assert((s + t)[i] == s[i]);
        if s[i] == 34 {
        } else if s[i] == 92 {
            if i + 2 <= end {
                lemma_quote_end_append(s, t, i + 2, end);
            }
        } else {
            lemma_quote_end_append(s, t, i + 1, end);
        }
    }
}

pub proof fn lemma_find_byte_append(s: Seq<u8>, t: Seq<u8>, i: int, end: int, b: u8)
    requires
        0 <= i,
        end <= s.len(),
    ensures
        find_byte(s + t, i, end, b) == find_byte(s, i, end, b),
    decreases end - i,
{
    if i < end {
        assert((s + t)[i] == s[i]);
        if s[i] != b {
            lemma_find_byte_append(s, t, i + 1, end, b);
        }
    }
}

pub proof fn lemma_has_esc_append(s: Seq<u8>, t: Seq<u8>, i: int, end: int)
    requires
        0 <= i,
        end <= s.len(),
    ensures
        has_esc(s + t, i, end) == has_esc(s, i, end),
{
    assert forall|k: int| i <= k < end implies (s + t)[k] == s[k] by {}
    if has_esc(s, i, end) {
        let k = choose|k: int| i <= k < end && s[k] == 92;
        assert((s + t)[k] == 92);
    }
    if has_esc(s + t, i, end) {
        let k = choose|k: int| i <= k < end && (s + t)[k] == 92;
        assert(s[k] == 92);
    }
}

pub proof fn lemma_unescape_append(s: Seq<u8>, t: Seq<u8>, i: int, end: int)
    requires
        0 <= i,
        end <= s.len(),
    ensures
        unescape(s + t, i, end) == unescape(s, i, end),
    decreases end - i,
{
    if i < end {
        assert((s + t)[i] == s[i]);
        if s[i] == 92 && i + 1 < end {
            assert((s + t)[i + 1] == s[i + 1]);
            lemma_unescape_append(s, t, i + 2, end);
        } else {
            lemma_unescape_append(s, t, i + 1, end);
        }
    }
}

pub proof fn lemma_unescape_len(s: Seq<u8>, i: int, end: int)
    ensures
        unescape(s, i, end).len() <= if end - i >= 0 { end - i } else { 0 },
    decreases end - i,
{
    if 0 <= i < end {
        if s[i] == 92 && i + 1 < end {
            lemma_unescape_len(s, i + 2, end);
        } else {
            lemma_unescape_len(s, i + 1, end);
        }
    }
}

pub proof fn lemma_all_digits_append(s: Seq<u8>, t: Seq<u8>, i: int, end: int)
    requires
        0 <= i,
        end <= s.len(),
    ensures
        all_digits(s + t, i, end) == all_digits(s, i, end),
{
    assert forall|k: int| i <= k < end implies (s + t)[k] == s[k] by {}
}

pub proof fn lemma_digits_val_append(s: Seq<u8>, t: Seq<u8>, i: int, end: int)
    requires
        0 <= i,
        end <= s.len(),
    ensures
        digits_val(s + t, i, end) == digits_val(s, i, end),
    decreases end - i,
{
    if i < end {
        assert((s + t)[end - 1] == s[end - 1]);
        lemma_digits_val_append(s, t, i, end - 1);
    }
}

// ---------------------------------------------------------------------
// simple bounds the scanners obey
// ---------------------------------------------------------------------

pub proof fn lemma_skip_spaces_bounds(s: Seq<u8>, i: int, end: int)
    requires
        i <= end,
    ensures
        i <= skip_spaces(s, i, end) <= end,
    decreases end - i,
{
    if i < end && is_space(s[i]) {
        lemma_skip_spaces_bounds(s, i + 1, end);
    }
}

pub proof fn lemma_name_end_bounds(s: Seq<u8>, i: int, end: int)
    requires
        i <= end,
    ensures
        i <= name_end(s, i, end) <= end,
    decreases end - i,
{
    if i < end && is_name_char(s[i]) {
        lemma_name_end_bounds(s, i + 1, end);
    }
}

pub proof fn lemma_bare_end_bounds(s: Seq<u8>, i: int, end: int)
    requires
        i <= end,
    ensures
        i <= bare_end(s, i, end) <= end,
    decreases end - i,
{
    if i < end && is_bare_char(s[i]) {
        lemma_bare_end_bounds(s, i + 1, end);
    }
}

pub proof fn lemma_dot_run_end_bounds(s: Seq<u8>, i: int, end: int)
    requires
        i <= end,
    ensures
        i <= dot_run_end(s, i, end) <= end,
    decreases end - i,
{
    if i < end && is_dotrun_char(s[i]) {
        lemma_dot_run_end_bounds(s, i + 1, end);
    }
}

pub proof fn lemma_quote_end_bounds(s: Seq<u8>, i: int, end: int)
    requires
        i <= end,
    ensures
        i <= quote_end(s, i, end) <= end,
    decreases end - i,
{
    if 0 <= i < end {
        if s[i] == 34 {
        } else if s[i] == 92 {
            if i + 2 <= end {
                lemma_quote_end_bounds(s, i + 2, end);
            }
        } else {
            lemma_quote_end_bounds(s, i + 1, end);
        }
    }
}

pub proof fn lemma_find_byte_bounds(s: Seq<u8>, i: int, end: int, b: u8)
    requires
        i <= end,
    ensures
        i <= find_byte(s, i, end, b) <= end,
    decreases end - i,
{
    if i < end && s[i] != b {
        lemma_find_byte_bounds(s, i + 1, end, b);
    }
}

pub proof fn lemma_find_nl_bounds(s: Seq<u8>, i: int)
    requires
        0 <= i <= s.len(),
    ensures
        i <= find_nl(s, i) <= s.len(),
        find_nl(s, i) < s.len() ==> s[find_nl(s, i)] == 10,
    decreases s.len() - i,
{
    if i < s.len() && s[i] != 10 {
        lemma_find_nl_bounds(s, i + 1);
    }
}

// ---------------------------------------------------------------------
// executable scanners
// ---------------------------------------------------------------------

pub fn find_nl_from(data: &Vec<u8>, i: usize) -> (r: usize)
    requires
        i <= data@.len(),
    ensures
        r == find_nl(data@, i as int),
        i <= r <= data@.len(),
    decreases data@.len() - i,
{
    let mut j: usize = i;
    while j < data.len() && data[j] != 10
        invariant
            i <= j <= data@.len(),
            find_nl(data@, i as int) == find_nl(data@, j as int),
        decreases data@.len() - j,
    {
        j = j + 1;
    }
    j
}

pub fn skip_spaces_x(data: &Vec<u8>, i: usize, end: usize) -> (r: usize)
    requires
        i <= end <= data@.len(),
    ensures
        r == skip_spaces(data@, i as int, end as int),
        i <= r <= end,
{
    let mut j: usize = i;
    while j < end && data[j] == 32
        invariant
            i <= j <= end,
            end <= data@.len(),
            skip_spaces(data@, i as int, end as int) == skip_spaces(data@, j as int, end as int),
        decreases end - j,
    {
        j = j + 1;
    }
    j
}

pub fn name_end_x(data: &Vec<u8>, i: usize, end: usize) -> (r: usize)
    requires
        i <= end <= data@.len(),
    ensures
        r == name_end(data@, i as int, end as int),
        i <= r <= end,
{
    let mut j: usize = i;
    while j < end && byte_is_name_char(data[j])
        invariant
            i <= j <= end,
            end <= data@.len(),
            name_end(data@, i as int, end as int) == name_end(data@, j as int, end as int),
        decreases end - j,
    {
        j = j + 1;
    }
    j
}

pub fn bare_end_x(data: &Vec<u8>, i: usize, end: usize) -> (r: usize)
    requires
        i <= end <= data@.len(),
    ensures
        r == bare_end(data@, i as int, end as int),
        i <= r <= end,
{
    let mut j: usize = i;
    while j < end && byte_is_bare_char(data[j])
        invariant
            i <= j <= end,
            end <= data@.len(),
            bare_end(data@, i as int, end as int) == bare_end(data@, j as int, end as int),
        decreases end - j,
    {
        j = j + 1;
    }
    j
}

pub fn dot_run_end_x(data: &Vec<u8>, i: usize, end: usize) -> (r: usize)
    requires
        i <= end <= data@.len(),
    ensures
        r == dot_run_end(data@, i as int, end as int),
        i <= r <= end,
{
    let mut j: usize = i;
    while j < end && byte_is_dotrun_char(data[j])
        invariant
            i <= j <= end,
            end <= data@.len(),
            dot_run_end(data@, i as int, end as int) == dot_run_end(data@, j as int, end as int),
        decreases end - j,
    {
        j = j + 1;
    }
    j
}

pub fn quote_end_x(data: &Vec<u8>, i: usize, end: usize) -> (r: usize)
    requires
        i <= end <= data@.len(),
    ensures
        r == quote_end(data@, i as int, end as int),
        i <= r <= end,
    decreases end - i,
{
    proof {
        lemma_quote_end_bounds(data@, i as int, end as int);
    }
    if i >= end {
        end
    } else if data[i] == 34 {
        i
    } else if data[i] == 92 {
        if end - i >= 2 {
            quote_end_x(data, i + 2, end)
        } else {
            end
        }
    } else {
        quote_end_x(data, i + 1, end)
    }
}

pub fn find_byte_x(data: &Vec<u8>, i: usize, end: usize, b: u8) -> (r: usize)
    requires
        i <= end <= data@.len(),
    ensures
        r == find_byte(data@, i as int, end as int, b),
        i <= r <= end,
{
    let mut j: usize = i;
    while j < end && data[j] != b
        invariant
            i <= j <= end,
            end <= data@.len(),
            find_byte(data@, i as int, end as int, b) == find_byte(data@, j as int, end as int, b),
        decreases end - j,
    {
        j = j + 1;
    }
    j
}

pub fn has_esc_x(data: &Vec<u8>, i: usize, end: usize) -> (r: bool)
    requires
        i <= end <= data@.len(),
    ensures
        r == has_esc(data@, i as int, end as int),
{
    let mut j: usize = i;
    while j < end
        invariant
            i <= j <= end,
            end <= data@.len(),
            forall|k: int| i <= k < j ==> data@[k] != 92,
        decreases end - j,
    {
        if data[j] == 92 {
            return true;
        }
        j = j + 1;
    }
    false
}

pub fn unescape_x(data: &Vec<u8>, i: usize, end: usize) -> (r: Vec<u8>)
    requires
        i <= end <= data@.len(),
    ensures
        r@ == unescape(data@, i as int, end as int),
    decreases end - i,
{
    let mut out: Vec<u8> = Vec::new();
    let mut j: usize = i;
    while j < end
        invariant
            i <= j <= end,
            end <= data@.len(),
            out@ + unescape(data@, j as int, end as int)
                == unescape(data@, i as int, end as int),
        decreases end - j,
    {
        if data[j] == 92 && j + 1 < end {
            out.push(esc_byte_x(data[j + 1]));
            j = j + 2;
        } else {
            out.push(data[j]);
            j = j + 1;
        }
    }
    proof {
        assert(out@ + unescape(data@, end as int, end as int) =~= out@);
    }
    out
}

pub fn esc_byte_x(b: u8) -> (r: u8)
    ensures
        r == esc_byte(b),
{
    if b == 110 {
        10
    } else if b == 116 {
        9
    } else if b == 114 {
        13
    } else {
        b
    }
}

/// Reads the digit run `[i, end)` as an `i64`; at most eighteen digits
/// always fit.
pub fn digits_val_x(data: &Vec<u8>, i: usize, end: usize) -> (r: i64)
    requires
        i <= end <= data@.len(),
        end - i <= 18,
        all_digits(data@, i as int, end as int),
    ensures
        r == digits_val(data@, i as int, end as int),
        0 <= r,
{
    let mut v: i64 = 0;
    let mut j: usize = i;
    while j < end
        invariant
            i <= j <= end,
            end <= data@.len(),
            end - i <= 18,
            all_digits(data@, i as int, end as int),
            v == digits_val(data@, i as int, j as int),
            0 <= v < pow10((j - i) as nat),
        decreases end - j,
    {
        proof {
            lemma_pow10_mono((j - i) as nat, 17);
            lemma_pow10_17();
            assert(is_digit(data@[j as int]));
        }
        v = v * 10 + ((data[j] - 48) as i64);
        j = j + 1;
        proof {
            assert(digits_val(data@, i as int, j as int)
                == digits_val(data@, i as int, j - 1) * 10 + (data@[j - 1] - 48));
        }
    }
    v
}

/// An upper bound used to show digit accumulation cannot overflow.
pub open spec fn pow10(n: nat) -> int
    decreases n,
{
    if n == 0 {
        1
    } else {
        10 * pow10((n - 1) as nat)
    }
}

pub proof fn lemma_pow10_mono(a: nat, b: nat)
    requires
        a <= b,
    ensures
        pow10(a) <= pow10(b),
        0 < pow10(a),
    decreases b,
{
    if a == b {
        lemma_pow10_pos(a);
    } else {
        lemma_pow10_mono(a, (b - 1) as nat);
    }
}

pub proof fn lemma_pow10_17()
    ensures
        pow10(17) == 100000000000000000,
{
    reveal_with_fuel(pow10, 20);
}

pub proof fn lemma_pow10_pos(n: nat)
    ensures
        0 < pow10(n),
    decreases n,
{
    if n > 0 {
        lemma_pow10_pos((n - 1) as nat);
    }
}

} // verus!
