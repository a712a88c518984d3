//! Recognition of numeric tokens.
//!
//! Face-vertex indices are signed decimal integers; attribute values are
//! floating-point tokens. Attribute values are carried through the model as
//! their source text, so only the shape of a float token matters here: the
//! grammar below is the one `f32` parsing accepts (an optional sign, then
//! `inf`, `infinity` or `nan` in any case, or a decimal number with optional
//! fraction and exponent).

use vstd::prelude::*;
use vstd::string::StrSliceExecFns;

use crate::text::count_while;
use crate::text::is_digit_char;
use crate::text::lemma_count_while;

verus! {

pub open spec fn is_sign_char(c: char) -> bool {
    c == '+' || c == '-'
}

pub open spec fn digit_pred() -> spec_fn(char) -> bool {
    |c: char| is_digit_char(c)
}

pub open spec fn all_digits(s: Seq<char>) -> bool {
    forall|i: int| 0 <= i < s.len() ==> is_digit_char(s[i])
}

/// The value of a sequence of decimal digits.
pub open spec fn digits_val(s: Seq<char>) -> int
    decreases s.len(),
{
    if s.len() == 0 {
        0
    } else {
        digits_val(s.drop_last()) * 10 + (s.last() as u32 - 48)
    }
}

/// The value of a signed decimal integer token, or `None` when the token is
/// not of the form `sign? digit+`.
pub open spec fn signed_val(s: Seq<char>) -> Option<int> {
    let m = if s.len() > 0 && is_sign_char(s[0]) {
        s.drop_first()
    } else {
        s
    };
    if m.len() >= 1 && all_digits(m) {
        if s.len() > 0 && s[0] == '-' {
            Some(-digits_val(m))
        } else {
            Some(digits_val(m))
        }
    } else {
        None
    }
}

/// What parsing an index token yields: the value of a well-formed signed
/// decimal token when it fits the machine's signed word, `None` otherwise.
pub open spec fn parse_int(s: Seq<char>) -> Option<int> {
    match signed_val(s) {
        Some(v) => if isize::MIN <= v <= isize::MAX {
            Some(v)
        } else {
            None
        },
        None => None,
    }
}

proof fn lemma_digits_val_nonneg(s: Seq<char>)
    requires
        all_digits(s),
    ensures
        digits_val(s) >= 0,
    decreases s.len(),
{
    if s.len() > 0 {
        lemma_digits_val_nonneg(s.drop_last());
    }
}

/// Appending digits never shrinks the value of the digit string.
proof fn lemma_digits_val_mono(s: Seq<char>, i: int)
    requires
        all_digits(s),
        0 <= i <= s.len(),
    ensures
        digits_val(s.take(i)) <= digits_val(s),
    decreases s.len() - i,
{
    if i < s.len() {
        assert(all_digits(s.drop_last()));
        assert(s.take(i) =~= s.drop_last().take(i));
        lemma_digits_val_mono(s.drop_last(), i);
        lemma_digits_val_nonneg(s.drop_last());
    } else {
        assert(s.take(i) =~= s);
    }
}

/// Parses a signed decimal index token, exactly as [`parse_int`] describes.
pub fn parse_signed(s: &str) -> (r: Option<isize>)
    ensures
        match parse_int(s@) {
            Some(v) => r is Some && r->Some_0 as int == v,
            None => r is None,
        },
{
    let n = s.unicode_len();
    let mut start: usize = 0;
    let mut neg = false;
    if n > 0 {
        let c = s.get_char(0);
        if c == '+' || c == '-' {
            neg = c == '-';
            start = 1;
        }
    }
    if start >= n {
        return None;
    }
    let ghost m = s@.skip(start as int);
    proof {
        if start == 1 {
            assert(m =~= s@.drop_first());
        } else {
            assert(m =~= s@);
        }
    }
    let limit: u128 = if neg {
        (isize::MAX as u128) + 1
    } else {
        isize::MAX as u128
    };
    let mut acc: u128 = 0;
    let mut i = start;
    while i < n
        invariant
            start <= i <= n,
            n == s@.len(),
            start <= 1,
            m == s@.skip(start as int),
            forall|j: int| start <= j < i ==> is_digit_char(s@[j]),
            acc <= limit,
            limit <= (isize::MAX as u128) + 1,
            acc as int == digits_val(m.take(i - start)),
        decreases n - i,
    {
        let c = s.get_char(i);
        let u = c as u32;
        if !(48 <= u && u <= 57) {
            assert(!all_digits(m)) by {
                assert(m[i - start] == s@[i as int]);
            }
            return None;
        }
        acc = acc * 10 + ((u - 48) as u128);
        proof {
            let p = m.take(i + 1 - start);
            assert(p.drop_last() =~= m.take(i - start));
            assert(p.last() == s@[i as int]);
        }
        if acc > limit {
            proof {
                assert(forall|j: int| 0 <= j < m.len() ==> m[j] == s@[start + j]);
                if all_digits(m) {
                    lemma_digits_val_mono(m, i + 1 - start);
                    assert(digits_val(m) > limit);
                    assert(isize::MIN as int == -(isize::MAX as int) - 1);
                }
            }
            return None;
        }
        i += 1;
    }
    proof {
        assert(m.take(n - start) =~= m);
        assert(all_digits(m)) by {
            assert(forall|j: int| 0 <= j < m.len() ==> m[j] == s@[start + j]);
        }
        assert(isize::MIN as int == -(isize::MAX as int) - 1);
    }
    let mag: i128 = acc as i128;
    let v: i128 = if neg {
        -mag
    } else {
        mag
    };
    proof {
        assert(isize::MIN as int <= v as int <= isize::MAX as int);
    }
    Some(v as isize)
}

/// Case-insensitive match of one character against a lower-case letter.
pub open spec fn lower_eq(c: char, l: char) -> bool {
    c == l || c as u32 + 32 == l as u32
}

/// Case-insensitive equality with a fixed lower-case word.
pub open spec fn ci_eq(s: Seq<char>, t: Seq<char>) -> bool {
    s.len() == t.len() && forall|i: int| 0 <= i < s.len() ==> lower_eq(s[i], t[i])
}

/// The non-finite float spellings: `inf`, `infinity` and `nan`, any case.
pub open spec fn is_special(s: Seq<char>) -> bool {
    ci_eq(s, seq!['i', 'n', 'f']) || ci_eq(s, seq!['i', 'n', 'f', 'i', 'n', 'i', 't', 'y'])
        || ci_eq(s, seq!['n', 'a', 'n'])
}

/// A float mantissa: `digit+`, `digit+ . digit*` or `. digit+`.
pub open spec fn is_mantissa(m: Seq<char>) -> bool {
    let d = count_while(m, digit_pred()) as int;
    if d == m.len() {
        d >= 1
    } else if m[d] == '.' {
        (d >= 1 || m.len() - d - 1 >= 1) && all_digits(m.skip(d + 1))
    } else {
        false
    }
}

pub open spec fn is_exp_char(c: char) -> bool {
    c == 'e' || c == 'E'
}

/// What may follow the exponent marker: `sign? digit+`.
pub open spec fn is_exp_part(t: Seq<char>) -> bool {
    if t.len() > 0 && is_sign_char(t[0]) {
        t.len() >= 2 && all_digits(t.drop_first())
    } else {
        t.len() >= 1 && all_digits(t)
    }
}

/// A float number: a mantissa, optionally followed by an exponent.
pub open spec fn is_number(b: Seq<char>) -> bool {
    is_mantissa(b) || exists|k: int|
        0 <= k < b.len() && is_exp_char(b[k]) && is_mantissa(b.take(k)) && is_exp_part(
            b.skip(k + 1),
        )
}

/// Whether a token is accepted as a floating-point attribute value.
pub open spec fn is_float_token(s: Seq<char>) -> bool {
    let b = if s.len() > 0 && is_sign_char(s[0]) {
        s.drop_first()
    } else {
        s
    };
    is_special(b) || is_number(b)
}

/// A mantissa holds only digits and `.`, so never an exponent marker.
proof fn lemma_mantissa_no_e(m: Seq<char>, j: int)
    requires
        is_mantissa(m),
        0 <= j < m.len(),
    ensures
        !is_exp_char(m[j]),
{
    let d = count_while(m, digit_pred()) as int;
    lemma_count_while(m, digit_pred());
    if j < d {
        assert(is_digit_char(m[j]));
    } else if j == d {
    } else {
        assert(m.skip(d + 1)[j - d - 1] == m[j]);
    }
}

fn digit_ch(c: char) -> (r: bool)
    ensures
        r == is_digit_char(c),
{
    let u = c as u32;
    48 <= u && u <= 57
}

fn exp_ch(c: char) -> (r: bool)
    ensures
        r == is_exp_char(c),
{
    c == 'e' || c == 'E'
}

fn lc(s: &str, i: usize, l: char) -> (r: bool)
    requires
        i < s@.len(),
    ensures
        r == lower_eq(s@[i as int], l),
{
    let c = s.get_char(i);
    c == l || (c as u32) + 32 == (l as u32)
}

fn special_check(s: &str, start: usize) -> (r: bool)
    requires
        start <= s@.len(),
    ensures
        r == is_special(s@.skip(start as int)),
{
    let ghost b = s@.skip(start as int);
    let n = s.unicode_len();
    let m = n - start;
    if m == 3 {
        let inf = lc(s, start, 'i') && lc(s, start + 1, 'n') && lc(s, start + 2, 'f');
        let nan = lc(s, start, 'n') && lc(s, start + 1, 'a') && lc(s, start + 2, 'n');
        proof {
            assert(b[0] == s@[start as int]);
            assert(b[1] == s@[start + 1]);
            assert(b[2] == s@[start + 2]);
            if inf {
                assert forall|i: int| 0 <= i < 3 implies lower_eq(b[i], seq!['i', 'n', 'f'][i]) by {
                    if i == 0 {
                    } else if i == 1 {
                    } else {
                    }
                }
            }
            if nan {
                assert forall|i: int| 0 <= i < 3 implies lower_eq(b[i], seq!['n', 'a', 'n'][i]) by {
                    if i == 0 {
                    } else if i == 1 {
                    } else {
                    }
                }
            }
            if !inf && !nan {
                assert(!ci_eq(b, seq!['i', 'n', 'f']));
                assert(!ci_eq(b, seq!['n', 'a', 'n']));
            }
        }
        inf || nan
    } else if m == 8 {
        let ghost w = seq!['i', 'n', 'f', 'i', 'n', 'i', 't', 'y'];
        let r = lc(s, start, 'i') && lc(s, start + 1, 'n') && lc(s, start + 2, 'f') && lc(
            s,
            start + 3,
            'i',
        ) && lc(s, start + 4, 'n') && lc(s, start + 5, 'i') && lc(s, start + 6, 't') && lc(
            s,
            start + 7,
            'y',
        );
        proof {
            assert(forall|i: int| 0 <= i < 8 ==> b[i] == s@[start + i]);
            if r {
                assert forall|i: int| 0 <= i < 8 implies lower_eq(b[i], w[i]) by {
                    if i == 0 {
                    } else if i == 1 {
                    } else if i == 2 {
                    } else if i == 3 {
                    } else if i == 4 {
                    } else if i == 5 {
                    } else if i == 6 {
                    } else {
                    }
                }
            } else {
                assert(!ci_eq(b, w));
            }
        }
        r
    } else {
        false
    }
}

/// The first index in `from..to` holding a non-digit, or `to`.
fn digits_end(s: &str, from: usize, to: usize) -> (j: usize)
    requires
        from <= to <= s@.len(),
    ensures
        from <= j <= to,
        j - from == count_while(s@.subrange(from as int, to as int), digit_pred()),
{
    let mut j = from;
    while j < to && digit_ch(s.get_char(j))
        invariant
            from <= j <= to,
            to <= s@.len(),
            forall|i: int| from <= i < j ==> is_digit_char(s@[i]),
        decreases to - j,
    {
        j += 1;
    }
    proof {
        crate::text::lemma_count_while_is(
            s@.subrange(from as int, to as int),
            digit_pred(),
            j - from,
        );
    }
    j
}

fn all_digits_range(s: &str, from: usize, to: usize) -> (r: bool)
    requires
        from <= to <= s@.len(),
    ensures
        r == all_digits(s@.subrange(from as int, to as int)),
{
    let j = digits_end(s, from, to);
    proof {
        lemma_count_while(s@.subrange(from as int, to as int), digit_pred());
    }
    j == to
}

fn mantissa_check(s: &str, from: usize, to: usize) -> (r: bool)
    requires
        from <= to <= s@.len(),
    ensures
        r == is_mantissa(s@.subrange(from as int, to as int)),
{
    let ghost m = s@.subrange(from as int, to as int);
    let d = digits_end(s, from, to);
    if d == to {
        return to > from;
    }
    let c = s.get_char(d);
    proof {
        assert(m[d - from] == s@[d as int]);
    }
    if c != '.' {
        return false;
    }
    let rest_ok = all_digits_range(s, d + 1, to);
    proof {
        assert(m.skip(d - from + 1) =~= s@.subrange(d + 1, to as int));
    }
    rest_ok && (d > from || to - d - 1 >= 1)
}

fn exp_check(s: &str, from: usize, to: usize) -> (r: bool)
    requires
        from <= to <= s@.len(),
    ensures
        r == is_exp_part(s@.subrange(from as int, to as int)),
{
    let ghost t = s@.subrange(from as int, to as int);
    if from >= to {
        return false;
    }
    let c = s.get_char(from);
    proof {
        assert(t[0] == s@[from as int]);
    }
    if c == '+' || c == '-' {
        proof {
            assert(t.drop_first() =~= s@.subrange(from + 1, to as int));
        }
        to - from >= 2 && all_digits_range(s, from + 1, to)
    } else {
        all_digits_range(s, from, to)
    }
}

/// Decides whether a token would parse as a floating-point value, exactly as
/// [`is_float_token`] describes.
pub fn is_float(s: &str) -> (r: bool)
    ensures
        r == is_float_token(s@),
{
    let n = s.unicode_len();
    let mut start: usize = 0;
    if n > 0 {
        let c = s.get_char(0);
        if c == '+' || c == '-' {
            start = 1;
        }
    }
    let ghost b = s@.skip(start as int);
    proof {
        if start == 1 {
            assert(b =~= s@.drop_first());
        } else {
            assert(b =~= s@);
        }
    }
    if special_check(s, start) {
        return true;
    }
    // find the first exponent marker
    let mut k = start;
    while k < n && !exp_ch(s.get_char(k))
        invariant
            start <= k <= n,
            n == s@.len(),
            forall|i: int| start <= i < k ==> !is_exp_char(s@[i]),
        decreases n - k,
    {
        k += 1;
    }
    proof {
        assert(forall|i: int| 0 <= i < b.len() ==> b[i] == s@[start + i]);
    }
    if k == n {
        // no exponent marker anywhere in the body
        let r = mantissa_check(s, start, n);
        proof {
            assert(b =~= s@.subrange(start as int, n as int));
            assert(forall|j: int| 0 <= j < b.len() ==> !is_exp_char(b[j]));
        }
        r
    } else {
        let m_ok = mantissa_check(s, start, k);
        let e_ok = if m_ok {
            exp_check(s, k + 1, n)
        } else {
            false
        };
        proof {
            let kb = k - start;
            assert(b.take(kb) =~= s@.subrange(start as int, k as int));
            assert(b.skip(kb + 1) =~= s@.subrange(k + 1, n as int));
            assert(is_exp_char(b[kb]));
            if m_ok && e_ok {
                assert(is_number(b));
            } else {
                // the first marker fails, and any other split point either
                // lies before it (not a marker) or puts the first marker
                // inside the would-be mantissa
                assert forall|j: int|
                    0 <= j < b.len() && is_exp_char(b[j]) implies !(is_mantissa(b.take(j))
                    && is_exp_part(b.skip(j + 1))) by {
                    if j < kb {
                        assert(!is_exp_char(s@[start + j]));
                    } else if j > kb {
                        if is_mantissa(b.take(j)) {
                            lemma_mantissa_no_e(b.take(j), kb);
                        }
                    }
                }
                if is_mantissa(b) {
                    lemma_mantissa_no_e(b, kb);
                }
                assert(!is_number(b));
            }
        }
        m_ok && e_ok
    }
}

} // verus!
