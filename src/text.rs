//! Character classes and spans of the raw report text.
//!
//! The whole text is held as one sequence of characters; lines, fields and
//! names are spans `[a, b)` of it.
use vstd::prelude::*;
use vstd::std_specs::iter::IteratorSpec;

verus! {

pub open spec fn is_ws(c: char) -> bool {
    c == ' ' || c == '\t' || c == '\r' || c == '\n'
}

pub open spec fn is_digit(c: char) -> bool {
    '0' <= c && c <= '9'
}

/// Grouping separators that the tools put between groups of three digits.
pub open spec fn is_group_sep(c: char) -> bool {
    c == ',' || c == '.'
}

pub open spec fn digit_value(c: char) -> nat {
    (c as u32 - '0' as u32) as nat
}

/// The end of the line that starts at `i`: the next newline, or the end of the text.
pub open spec fn line_end(s: Seq<char>, i: int) -> int
    decreases s.len() - i,
{
    if i >= s.len() || s[i] == '\n' {
        i
    } else {
        line_end(s, i + 1)
    }
}

/// The first position at or after `i` (and before `e`) that is not white space.
pub open spec fn skip_ws(s: Seq<char>, i: int, e: int) -> int
    decreases e - i,
{
    if i < e && is_ws(s[i]) {
        skip_ws(s, i + 1, e)
    } else {
        i
    }
}

/// The end of the field that starts at `i`: the next white space, or `e`.
pub open spec fn field_end(s: Seq<char>, i: int, e: int) -> int
    decreases e - i,
{
    if i < e && !is_ws(s[i]) {
        field_end(s, i + 1, e)
    } else {
        i
    }
}

/// The span `[a, e)` with its trailing white space cut off.
pub open spec fn trim_end(s: Seq<char>, a: int, e: int) -> int
    decreases e - a,
{
    if a < e && is_ws(s[e - 1]) {
        trim_end(s, a, e - 1)
    } else {
        e
    }
}

/// A numeric field: a digit, then digits and grouping separators.
pub open spec fn is_number(s: Seq<char>, a: int, b: int) -> bool {
    &&& 0 <= a < b <= s.len()
    &&& is_digit(s[a])
    &&& forall|k: int| a <= k < b ==> is_digit(#[trigger] s[k]) || is_group_sep(s[k])
}

/// The digits of `[a, b)` read in base ten; separators carry no value.
pub open spec fn digits_value(s: Seq<char>, a: int, b: int) -> nat
    decreases b - a,
{
    if b <= a {
        0
    } else if is_digit(s[b - 1]) {
        digits_value(s, a, b - 1) * 10 + digit_value(s[b - 1])
    } else {
        digits_value(s, a, b - 1)
    }
}

/// A percentage annotation such as `(24.3%)`, which is shown beside a count
/// and carries no count of its own.
pub open spec fn is_percent(s: Seq<char>, a: int, b: int) -> bool {
    &&& 0 <= a && a + 2 < b <= s.len()
    &&& s[a] == '('
    &&& s[b - 2] == '%'
    &&& s[b - 1] == ')'
}

/// A call count in parentheses, such as `(12)`.
pub open spec fn is_call_count(s: Seq<char>, a: int, b: int) -> bool {
    &&& 0 <= a && b <= s.len()
    &&& s[a] == '('
    &&& s[b - 1] == ')'
    &&& is_number(s, a + 1, b - 1)
}

/// A rule line of the report: only dashes and equal signs.
pub open spec fn is_rule(s: Seq<char>, a: int, b: int) -> bool {
    &&& 0 <= a < b <= s.len()
    &&& forall|k: int| a <= k < b ==> (#[trigger] s[k] == '-' || s[k] == '=')
}

pub proof fn lemma_digits_value_monotone(s: Seq<char>, a: int, k: int, b: int)
    requires
        a <= k <= b,
    ensures
        digits_value(s, a, k) <= digits_value(s, a, b),
    decreases b - k,
{
    if k < b {
        lemma_digits_value_monotone(s, a, k, b - 1);
    }
}

pub fn find_line_end(s: &Vec<char>, i: usize) -> (r: usize)
    requires
        i <= s@.len(),
    ensures
        r == line_end(s@, i as int),
        i <= r <= s@.len(),
{
    let mut j: usize = i;
    while j < s.len() && s[j] != '\n'
        invariant
            i <= j <= s@.len(),
            line_end(s@, j as int) == line_end(s@, i as int),
        decreases s@.len() - j,
    {
        j += 1;
    }
    j
}

pub fn skip_spaces(s: &Vec<char>, i: usize, e: usize) -> (r: usize)
    requires
        i <= e <= s@.len(),
    ensures
        r == skip_ws(s@, i as int, e as int),
        i <= r <= e,
{
    let mut j: usize = i;
    while j < e && (s[j] == ' ' || s[j] == '\t' || s[j] == '\r' || s[j] == '\n')
        invariant
            i <= j <= e <= s@.len(),
            skip_ws(s@, j as int, e as int) == skip_ws(s@, i as int, e as int),
        decreases e - j,
    {
        j += 1;
    }
    j
}

pub fn find_field_end(s: &Vec<char>, i: usize, e: usize) -> (r: usize)
    requires
        i <= e <= s@.len(),
    ensures
        r == field_end(s@, i as int, e as int),
        i <= r <= e,
{
    let mut j: usize = i;
    while j < e && !(s[j] == ' ' || s[j] == '\t' || s[j] == '\r' || s[j] == '\n')
        invariant
            i <= j <= e <= s@.len(),
            field_end(s@, j as int, e as int) == field_end(s@, i as int, e as int),
        decreases e - j,
    {
        j += 1;
    }
    j
}

pub fn trim_span_end(s: &Vec<char>, a: usize, e: usize) -> (r: usize)
    requires
        a <= e <= s@.len(),
    ensures
        r == trim_end(s@, a as int, e as int),
        a <= r <= e,
{
    let mut j: usize = e;
    while a < j && (s[j - 1] == ' ' || s[j - 1] == '\t' || s[j - 1] == '\r' || s[j - 1] == '\n')
        invariant
            a <= j <= e <= s@.len(),
            trim_end(s@, a as int, j as int) == trim_end(s@, a as int, e as int),
        decreases j - a,
    {
        j -= 1;
    }
    j
}

pub fn check_number(s: &Vec<char>, a: usize, b: usize) -> (r: bool)
    requires
        a <= b <= s@.len(),
    ensures
        r == is_number(s@, a as int, b as int),
{
    if a == b || !('0' <= s[a] && s[a] <= '9') {
        return false;
    }
    let mut k: usize = a;
    while k < b
        invariant
            a <= k <= b <= s@.len(),
            forall|j: int| a <= j < k ==> is_digit(#[trigger] s@[j]) || is_group_sep(s@[j]),
        decreases b - k,
    {
        let c = s[k];
        if !(('0' <= c && c <= '9') || c == ',' || c == '.') {
            return false;
        }
        k += 1;
    }
    true
}

/// The value of a numeric field, or `None` where it does not fit in 64 bits.
pub fn number_value(s: &Vec<char>, a: usize, b: usize) -> (r: Option<u64>)
    requires
        a <= b <= s@.len(),
    ensures
        r == (if digits_value(s@, a as int, b as int) <= u64::MAX {
            Some(digits_value(s@, a as int, b as int) as u64)
        } else {
            None::<u64>
        }),
{
    let mut acc: u64 = 0;
    let mut k: usize = a;
    while k < b
        invariant
            a <= k <= b <= s@.len(),
            acc as nat == digits_value(s@, a as int, k as int),
        decreases b - k,
    {
        let c = s[k];
        proof {
            lemma_digits_value_monotone(s@, a as int, k as int + 1, b as int);
        }
        if '0' <= c && c <= '9' {
            let d = (c as u32 - '0' as u32) as u64;
            if acc > (u64::MAX - d) / 10 {
                proof {
                    assert(digits_value(s@, a as int, k as int + 1) == acc * 10 + d);
                    assert(acc * 10 + d > u64::MAX) by (nonlinear_arith)
                        requires
                            acc > (u64::MAX - d) / 10,
                            d <= 9,
                    ;
                }
                return None;
            }
            proof {
                assert(acc * 10 + d <= u64::MAX) by (nonlinear_arith)
                    requires
                        acc <= (u64::MAX - d) / 10,
                        d <= 9,
                ;
            }
            acc = acc * 10 + d;
        }
        k += 1;
    }
    Some(acc)
}

pub fn check_rule(s: &Vec<char>, a: usize, b: usize) -> (r: bool)
    requires
        a <= b <= s@.len(),
    ensures
        r == is_rule(s@, a as int, b as int),
{
    if a == b {
        return false;
    }
    let mut k: usize = a;
    while k < b
        invariant
            a <= k <= b <= s@.len(),
            forall|j: int| a <= j < k ==> (#[trigger] s@[j] == '-' || s@[j] == '='),
        decreases b - k,
    {
        if !(s[k] == '-' || s[k] == '=') {
            return false;
        }
        k += 1;
    }
    true
}

pub fn check_percent(s: &Vec<char>, a: usize, b: usize) -> (r: bool)
    requires
        a <= b <= s@.len(),
    ensures
        r == is_percent(s@, a as int, b as int),
{
    b - a > 2 && s[a] == '(' && s[b - 2] == '%' && s[b - 1] == ')'
}

pub fn check_call_count(s: &Vec<char>, a: usize, b: usize) -> (r: bool)
    requires
        a <= b <= s@.len(),
    ensures
        r == is_call_count(s@, a as int, b as int),
{
    if b - a < 2 || s[a] != '(' || s[b - 1] != ')' {
        return false;
    }
    check_number(s, a + 1, b - 1)
}

} // verus!

verus! {

/// Whether the span `[a, b)` of `s` holds exactly the characters of `lit`.
pub fn span_equals(s: &Vec<char>, a: usize, b: usize, lit: &[char]) -> (r: bool)
    requires
        a <= b <= s@.len(),
    ensures
        r == (s@.subrange(a as int, b as int) == lit@),
{
    if b - a != lit.len() {
        proof {
            assert(s@.subrange(a as int, b as int).len() != lit@.len());
        }
        return false;
    }
    let mut k: usize = 0;
    while k < lit.len()
        invariant
            a <= b <= s@.len(),
            b - a == lit@.len(),
            k <= lit@.len(),
            forall|j: int| 0 <= j < k ==> s@[a + j] == #[trigger] lit@[j],
        decreases lit@.len() - k,
    {
        if s[a + k] != lit[k] {
            proof {
                assert(s@.subrange(a as int, b as int)[k as int] != lit@[k as int]);
            }
            return false;
        }
        k += 1;
    }
    proof {
        assert(s@.subrange(a as int, b as int) =~= lit@);
    }
    true
}

/// The characters of `s`, in order.
pub fn chars_of(s: &str) -> (r: Vec<char>)
    ensures
        r@ == s@,
{
    broadcast use vstd::string::axiom_spec_iter, vstd::string::next_postcondition;

    let mut it = s.chars();
    let mut v: Vec<char> = Vec::new();
    loop
        invariant
            it.obeys_prophetic_iter_laws(),
            v@ + it.remaining() == s@,
            it.decrease() is Some,
        decreases it.decrease()->0,
    {
        match it.next() {
            Some(c) => {
                v.push(c);
            },
            None => {
                assert(v@ + it.remaining() =~= v@);
                return v;
            },
        }
    }
}

/// Relies on `FromIterator<char>` for `String`: the characters of `v`, in order.
#[verifier::external_body]
pub(crate) fn string_of(v: &Vec<char>) -> (r: String)
    ensures
        r@ == v@,
{
    v.iter().collect()
}

} // verus!
