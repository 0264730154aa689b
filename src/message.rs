//! Normalisation of human-readable messages.

use vstd::prelude::*;
use crate::source::chars_of;
use crate::text::push_char;

verus! {

/// Whether `c` has the Unicode `Uppercase` property.
pub uninterp spec fn is_uppercase_char(c: char) -> bool;

/// Relies on `char::is_uppercase`: whether `c` has the Unicode `Uppercase` property.
#[verifier::external_body]
fn is_uppercase(c: char) -> (r: bool)
    ensures
        r == is_uppercase_char(c),
{
    c.is_uppercase()
}

/// Whether `c` has the Unicode `White_Space` property.
pub open spec fn is_white_space(c: char) -> bool {
    let u = c as u32;
    ||| 0x09 <= u <= 0x0d
    ||| u == 0x20 ||| u == 0x85 ||| u == 0xa0 ||| u == 0x1680
    ||| 0x2000 <= u <= 0x200a
    ||| u == 0x2028 ||| u == 0x2029 ||| u == 0x202f ||| u == 0x205f ||| u == 0x3000
}

fn white_space(c: char) -> (r: bool)
    ensures
        r == is_white_space(c),
{
    let u = c as u32;
    (0x09 <= u && u <= 0x0d) || u == 0x20 || u == 0x85 || u == 0xa0 || u == 0x1680 || (0x2000 <= u && u
        <= 0x200a) || u == 0x2028 || u == 0x2029 || u == 0x202f || u == 0x205f || u == 0x3000
}

/// Whether `c` is one of the ASCII punctuation characters.
pub open spec fn is_ascii_punctuation(c: char) -> bool {
    let u = c as u32;
    ||| 0x21 <= u <= 0x2f
    ||| 0x3a <= u <= 0x40
    ||| 0x5b <= u <= 0x60
    ||| 0x7b <= u <= 0x7e
}

fn ascii_punctuation(c: char) -> (r: bool)
    ensures
        r == is_ascii_punctuation(c),
{
    let u = c as u32;
    (0x21 <= u && u <= 0x2f) || (0x3a <= u && u <= 0x40) || (0x5b <= u && u <= 0x60) || (0x7b <= u && u
        <= 0x7e)
}

/// `c` with an ASCII capital letter made small.
pub open spec fn ascii_lowercase(c: char) -> char {
    if 'A' as u32 <= c as u32 <= 'Z' as u32 {
        ((c as u32) + 32) as char
    } else {
        c
    }
}

fn to_ascii_lowercase(c: char) -> (r: char)
    ensures
        r == ascii_lowercase(c),
{
    if 'A' <= c && c <= 'Z' {
        ((c as u8) + 32) as char
    } else {
        c
    }
}

/// The index of the first character at or after `i` that is not white space.
pub open spec fn skip_forward(s: Seq<char>, i: int) -> int
    decreases s.len() - i,
{
    if 0 <= i < s.len() && is_white_space(s[i]) {
        skip_forward(s, i + 1)
    } else {
        i
    }
}

/// The end left after dropping, from `j` backwards, white space (or, with
/// `punctuation`, ASCII punctuation and white space).
pub open spec fn skip_backward(s: Seq<char>, j: int, punctuation: bool) -> int
    decreases j,
{
    if 0 < j <= s.len() && (is_white_space(s[j - 1]) || (punctuation && is_ascii_punctuation(s[j - 1]))) {
        skip_backward(s, j - 1, punctuation)
    } else {
        j
    }
}

/// `s` without leading and trailing white space.
pub open spec fn trimmed(s: Seq<char>) -> Seq<char> {
    let a = skip_forward(s, 0);
    let b = skip_backward(s, s.len() as int, false);
    if a < b {
        s.subrange(a, b)
    } else {
        Seq::empty()
    }
}

/// The first two characters of `t`, given whether each is a capital: a
/// capital followed by a character that is not one is made small, so that
/// acronyms keep their case.
pub open spec fn head_given(t: Seq<char>, first_upper: bool, second_upper: bool) -> Seq<char> {
    if t.len() >= 2 && first_upper && !second_upper {
        seq![ascii_lowercase(t[0]), t[1]]
    } else if t.len() >= 2 {
        t.take(2)
    } else {
        t
    }
}

/// The first two characters of `t` with the case rule applied, then the rest.
pub open spec fn joined_given(t: Seq<char>, first_upper: bool, second_upper: bool) -> Seq<char> {
    head_given(t, first_upper, second_upper) + if t.len() > 2 {
        t.skip(2)
    } else {
        Seq::empty()
    }
}

/// `x` without trailing ASCII punctuation and white space.
pub open spec fn without_trailing_punctuation(x: Seq<char>) -> Seq<char> {
    x.take(skip_backward(x, x.len() as int, true))
}

/// A message normalised, given whether the first two characters of the
/// trimmed message are capitals.
pub open spec fn normalized_given(m: Seq<char>, first_upper: bool, second_upper: bool) -> Seq<char> {
    trimmed(without_trailing_punctuation(joined_given(trimmed(m), first_upper, second_upper)))
}

/// A message trimmed, starting in lower case unless it is an acronym, and
/// without trailing punctuation.
pub open spec fn normalized_message(m: Seq<char>) -> Seq<char> {
    let t = trimmed(m);
    if t.len() >= 2 {
        normalized_given(m, is_uppercase_char(t[0]), is_uppercase_char(t[1]))
    } else {
        normalized_given(m, false, false)
    }
}

fn trim_bounds(s: &Vec<char>) -> (r: (usize, usize))
    ensures
        r.0 == skip_forward(s@, 0),
        r.1 == skip_backward(s@, s@.len() as int, false),
        r.0 <= s@.len(),
        r.1 <= s@.len(),
{
    let mut a: usize = 0;
    while a < s.len() && white_space(s[a])
        invariant
            a <= s@.len(),
            skip_forward(s@, a as int) == skip_forward(s@, 0),
        decreases s@.len() - a,
    {
        a = a + 1;
    }
    let mut b: usize = s.len();
    while b > 0 && white_space(s[b - 1])
        invariant
            b <= s@.len(),
            skip_backward(s@, b as int, false) == skip_backward(s@, s@.len() as int, false),
        decreases b,
    {
        b = b - 1;
    }
    (a, b)
}

/// `s` without leading and trailing white space.
fn trim(s: &Vec<char>) -> (r: Vec<char>)
    ensures
        r@ == trimmed(s@),
{
    let (a, b) = trim_bounds(s);
    let mut out: Vec<char> = Vec::new();
    if a < b {
        let mut k = a;
        while k < b
            invariant
                a <= k <= b,
                b <= s@.len(),
                out@ == s@.subrange(a as int, k as int),
            decreases b - k,
        {
            out.push(s[k]);
            k = k + 1;
            assert(out@ =~= s@.subrange(a as int, k as int));
        }
    }
    assert(out@ =~= trimmed(s@));
    out
}

/// Normalize an error message:
/// * starts with a lowercase character unless followed by an uppercase character;
/// * does not end with any punctuation;
/// * has no surrounding white space.
pub fn normalize_message(message: &str) -> (r: String)
    ensures
        r@ == normalized_message(message@),
{
    let chars = chars_of(message);
    let t = trim(&chars);
    let (first_upper, second_upper) = if t.len() >= 2 {
        (is_uppercase(t[0]), is_uppercase(t[1]))
    } else {
        (false, false)
    };
    normalize_message_given(message, first_upper, second_upper)
}

/// Normalize an error message, given whether the first two characters of the
/// trimmed message are capitals.
pub fn normalize_message_given(message: &str, first_upper: bool, second_upper: bool) -> (r: String)
    ensures
        r@ == normalized_given(message@, first_upper, second_upper),
{
    let chars = chars_of(message);
    let t = trim(&chars);
    let mut joined: Vec<char> = Vec::new();
    if t.len() >= 2 && first_upper && !second_upper {
        joined.push(to_ascii_lowercase(t[0]));
        joined.push(t[1]);
    } else {
        if t.len() >= 1 {
            joined.push(t[0]);
        }
        if t.len() >= 2 {
            joined.push(t[1]);
        }
    }
    assert(joined@ =~= head_given(t@, first_upper, second_upper));
    if t.len() > 2 {
        let ghost head = joined@;
        let mut k: usize = 2;
        while k < t.len()
            invariant
                2 <= k <= t@.len(),
                joined@ == head + t@.subrange(2, k as int),
            decreases t@.len() - k,
        {
            joined.push(t[k]);
            k = k + 1;
            assert(joined@ =~= head + t@.subrange(2, k as int));
        }
        assert(t@.subrange(2, k as int) =~= t@.skip(2));
    }
    assert(joined@ =~= joined_given(t@, first_upper, second_upper));
    let mut end: usize = joined.len();
    while end > 0 && (white_space(joined[end - 1]) || ascii_punctuation(joined[end - 1]))
        invariant
            end <= joined@.len(),
            skip_backward(joined@, end as int, true) == skip_backward(joined@, joined@.len() as int, true),
        decreases end,
    {
        end = end - 1;
    }
    let mut kept: Vec<char> = Vec::new();
    let mut k: usize = 0;
    while k < end
        invariant
            k <= end <= joined@.len(),
            kept@ == joined@.take(k as int),
        decreases end - k,
    {
        kept.push(joined[k]);
        k = k + 1;
        assert(kept@ =~= joined@.take(k as int));
    }
    assert(kept@ =~= without_trailing_punctuation(joined@));
    let out = trim(&kept);
    let mut r = String::new();
    let mut i: usize = 0;
    while i < out.len()
        invariant
            i <= out@.len(),
            r@ == out@.take(i as int),
        decreases out@.len() - i,
    {
        push_char(&mut r, out[i]);
        i = i + 1;
        assert(r@ =~= out@.take(i as int));
    }
    assert(out@.take(i as int) =~= out@);
    r
}

proof fn lemma_skip_backward_stop(s: Seq<char>, j: int, punctuation: bool)
    requires
        0 <= j <= s.len(),
    ensures
        0 <= skip_backward(s, j, punctuation) <= j,
        skip_backward(s, j, punctuation) > 0 ==> !is_white_space(s[skip_backward(s, j, punctuation) - 1]) && !(
        punctuation && is_ascii_punctuation(s[skip_backward(s, j, punctuation) - 1])),
    decreases j,
{
    if 0 < j && (is_white_space(s[j - 1]) || (punctuation && is_ascii_punctuation(s[j - 1]))) {
        lemma_skip_backward_stop(s, j - 1, punctuation);
    }
}

proof fn lemma_skip_forward_stop(s: Seq<char>, i: int)
    requires
        0 <= i <= s.len(),
    ensures
        i <= skip_forward(s, i) <= s.len(),
        skip_forward(s, i) < s.len() ==> !is_white_space(s[skip_forward(s, i)]),
    decreases s.len() - i,
{
    if i < s.len() && is_white_space(s[i]) {
        lemma_skip_forward_stop(s, i + 1);
    }
}

/// A normalised message neither starts nor ends with white space, and does
/// not end with ASCII punctuation.
pub proof fn lemma_normalized_ends_clean(m: Seq<char>, first_upper: bool, second_upper: bool)
    ensures
        ({
            let r = normalized_given(m, first_upper, second_upper);
            r.len() == 0 || (!is_white_space(r[0]) && !is_white_space(r.last()) && !is_ascii_punctuation(
                r.last(),
            ))
        }),
{
    let x = joined_given(trimmed(m), first_upper, second_upper);
    let b = skip_backward(x, x.len() as int, true);
    lemma_skip_backward_stop(x, x.len() as int, true);
    let w = without_trailing_punctuation(x);
    assert(w.len() == b);
    if b > 0 {
        assert(w[b - 1] == x[b - 1]);
        assert(skip_backward(w, w.len() as int, false) == w.len());
    }
    lemma_skip_forward_stop(w, 0);
    let r = normalized_given(m, first_upper, second_upper);
    if r.len() > 0 {
        let a = skip_forward(w, 0);
        assert(r == w.subrange(a, w.len() as int));
        assert(r[0] == w[a]);
        assert(r.last() == w[b - 1]);
    }
}

} // verus!
