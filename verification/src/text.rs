//! Character classes and line tokenization.
//!
//! Lines are modelled as sequences of characters. A line is split into
//! whitespace-separated tokens, and a face-vertex token is further split on
//! `/` into sub-fields (empty sub-fields are kept, since they mean "absent").

use vstd::prelude::*;
use vstd::string::StrSliceExecFns;
use vstd::string::StringExecFns;

verus! {

/// The ASCII whitespace characters that separate the tokens of a line.
pub open spec fn is_ws_char(c: char) -> bool {
    c == ' ' || c == '\t' || c == '\n' || c == '\r' || c == '\x0c'
}

/// An ASCII decimal digit.
pub open spec fn is_digit_char(c: char) -> bool {
    48 <= c as u32 && c as u32 <= 57
}

/// A character allowed in an object or group name.
pub open spec fn is_name_char(c: char) -> bool {
    (97 <= c as u32 && c as u32 <= 122) || (65 <= c as u32 && c as u32 <= 90)
        || is_digit_char(c) || c == '.' || c == '_'
}

/// A name is valid when every character is ASCII alphanumeric, `.` or `_`.
pub open spec fn valid_name(s: Seq<char>) -> bool {
    forall|i: int| 0 <= i < s.len() ==> is_name_char(s[i])
}

/// The predicate satisfied by the characters of a whitespace-separated token.
pub open spec fn non_ws_pred() -> spec_fn(char) -> bool {
    |c: char| !is_ws_char(c)
}

/// The predicate satisfied by the characters of a `/`-separated sub-field.
pub open spec fn non_slash_pred() -> spec_fn(char) -> bool {
    |c: char| c != '/'
}

/// How many leading characters of `s` satisfy `pred`.
pub open spec fn count_while(s: Seq<char>, pred: spec_fn(char) -> bool) -> nat
    decreases s.len(),
{
    if s.len() == 0 || !pred(s[0]) {
        0
    } else {
        (1 + count_while(s.drop_first(), pred)) as nat
    }
}

pub proof fn lemma_count_while(s: Seq<char>, pred: spec_fn(char) -> bool)
    ensures
        count_while(s, pred) <= s.len(),
        forall|i: int| 0 <= i < count_while(s, pred) ==> pred(s[i]),
        count_while(s, pred) < s.len() ==> !pred(s[count_while(s, pred) as int]),
    decreases s.len(),
{
    if s.len() == 0 || !pred(s[0]) {
    } else {
        lemma_count_while(s.drop_first(), pred);
        assert forall|i: int| 0 <= i < count_while(s, pred) implies pred(s[i]) by {
            if i > 0 {
                assert(pred(s.drop_first()[i - 1]));
            }
        }
    }
}

pub proof fn lemma_count_while_is(s: Seq<char>, pred: spec_fn(char) -> bool, k: int)
    requires
        0 <= k <= s.len(),
        forall|i: int| 0 <= i < k ==> pred(s[i]),
        k < s.len() ==> !pred(s[k]),
    ensures
        count_while(s, pred) == k,
    decreases s.len(),
{
    if k == 0 {
    } else {
        lemma_count_while_is(s.drop_first(), pred, k - 1);
    }
}

/// The whitespace-separated tokens of a line, in order.
pub open spec fn tokens_of(s: Seq<char>) -> Seq<Seq<char>>
    decreases s.len(),
    via tokens_of_decreases
{
    if s.len() == 0 {
        Seq::empty()
    } else if is_ws_char(s[0]) {
        tokens_of(s.drop_first())
    } else {
        let k = count_while(s, non_ws_pred()) as int;
        seq![s.take(k)] + tokens_of(s.skip(k))
    }
}

#[via_fn]
proof fn tokens_of_decreases(s: Seq<char>) {
    if s.len() > 0 && !is_ws_char(s[0]) {
        lemma_count_while(s, non_ws_pred());
        assert(non_ws_pred()(s[0]));
        assert(count_while(s, non_ws_pred()) >= 1);
    }
}

/// The `/`-separated sub-fields of a token, in order, empties kept.
pub open spec fn fields_of(s: Seq<char>) -> Seq<Seq<char>>
    decreases s.len(),
    via fields_of_decreases
{
    let k = count_while(s, non_slash_pred()) as int;
    if k == s.len() {
        seq![s]
    } else {
        seq![s.take(k)] + fields_of(s.skip(k + 1))
    }
}

#[via_fn]
proof fn fields_of_decreases(s: Seq<char>) {
    lemma_count_while(s, non_slash_pred());
}

/// Whether `c` is one of the token-separating whitespace characters.
pub fn ws_char(c: char) -> (r: bool)
    ensures
        r == is_ws_char(c),
{
    c == ' ' || c == '\t' || c == '\n' || c == '\r' || c == '\x0c'
}

/// Equality of two string slices, character by character.
pub fn str_eq(a: &str, b: &str) -> (r: bool)
    ensures
        r == (a@ == b@),
{
    let an = a.unicode_len();
    let bn = b.unicode_len();
    if an != bn {
        return false;
    }
    let mut i: usize = 0;
    while i < an
        invariant
            i <= an,
            forall|j: int| 0 <= j < i ==> a@[j] == b@[j],
        decreases an - i,
    {
        if a.get_char(i) != b.get_char(i) {
            return false;
        }
        i += 1;
    }
    proof {
        assert(a@ =~= b@);
    }
    true
}

/// The index of the first character at or after `start` that ends a token.
fn token_end(s: &str, start: usize) -> (j: usize)
    requires
        start <= s@.len(),
    ensures
        start <= j <= s@.len(),
        j - start == count_while(s@.skip(start as int), non_ws_pred()),
{
    let n = s.unicode_len();
    let mut j = start;
    while j < n && !ws_char(s.get_char(j))
        invariant
            start <= j <= n,
            forall|i: int| start <= i < j ==> !is_ws_char(s@[i]),
        decreases n - j,
    {
        j += 1;
    }
    proof {
        lemma_count_while_is(s@.skip(start as int), non_ws_pred(), j - start);
    }
    j
}

/// The index of the first `/` at or after `start`, or the end of the string.
fn field_end(s: &str, start: usize) -> (j: usize)
    requires
        start <= s@.len(),
    ensures
        start <= j <= s@.len(),
        j - start == count_while(s@.skip(start as int), non_slash_pred()),
{
    let n = s.unicode_len();
    let mut j = start;
    while j < n && s.get_char(j) != '/'
        invariant
            start <= j <= n,
            forall|i: int| start <= i < j ==> s@[i] != '/',
        decreases n - j,
    {
        j += 1;
    }
    proof {
        lemma_count_while_is(s@.skip(start as int), non_slash_pred(), j - start);
    }
    j
}

/// Splits a line into its whitespace-separated tokens.
pub fn tokenize(s: &str) -> (toks: Vec<String>)
    ensures
        toks@.map_values(|t: String| t@) == tokens_of(s@),
{
    let n = s.unicode_len();
    let mut toks: Vec<String> = Vec::new();
    let mut i: usize = 0;
    proof {
        assert(s@.skip(0) =~= s@);
        assert(toks@.map_values(|t: String| t@) + tokens_of(s@) =~= tokens_of(s@));
    }
    while i < n
        invariant
            i <= n,
            tokens_of(s@) == toks@.map_values(|t: String| t@) + tokens_of(s@.skip(i as int)),
        decreases n - i,
    {
        if ws_char(s.get_char(i)) {
            proof {
                assert(s@.skip(i as int).drop_first() =~= s@.skip(i + 1));
            }
            i += 1;
        } else {
            let j = token_end(s, i);
            proof {
                let suf = s@.skip(i as int);
                let k = count_while(suf, non_ws_pred()) as int;
                assert(k == j - i);
                assert(suf.take(k) =~= s@.subrange(i as int, j as int));
                assert(suf.skip(k) =~= s@.skip(j as int));
            }
            let t = String::from_str(s.substring_char(i, j));
            toks.push(t);
            proof {
                assert(toks@.map_values(|t: String| t@) =~= toks@.drop_last().map_values(
                    |t: String| t@,
                ).push(s@.subrange(i as int, j as int)));
            }
            i = j;
        }
    }
    proof {
        assert(s@.skip(n as int) =~= Seq::<char>::empty());
        assert(toks@.map_values(|t: String| t@) =~= tokens_of(s@));
    }
    toks
}

/// Splits a face-vertex token into its `/`-separated sub-fields.
pub fn split_fields(s: &str) -> (fields: Vec<String>)
    ensures
        fields@.map_values(|t: String| t@) == fields_of(s@),
        fields@.len() >= 1,
{
    let n = s.unicode_len();
    let mut fields: Vec<String> = Vec::new();
    let mut i: usize = 0;
    proof {
        assert(s@.skip(0) =~= s@);
        assert(fields@.map_values(|t: String| t@) + fields_of(s@) =~= fields_of(s@));
    }
    loop
        invariant
            i <= n,
            n == s@.len(),
            fields_of(s@) == fields@.map_values(|t: String| t@) + fields_of(s@.skip(i as int)),
        decreases n - i,
    {
        let j = field_end(s, i);
        let t = String::from_str(s.substring_char(i, j));
        fields.push(t);
        proof {
            let suf = s@.skip(i as int);
            let k = count_while(suf, non_slash_pred()) as int;
            assert(k == j - i);
            assert(suf.take(k) =~= s@.subrange(i as int, j as int));
            assert(fields@.map_values(|t: String| t@) =~= fields@.drop_last().map_values(
                |t: String| t@,
            ).push(s@.subrange(i as int, j as int)));
        }
        if j == n {
            proof {
                let suf = s@.skip(i as int);
                assert(suf.take(suf.len() as int) =~= suf);
                assert(fields@.map_values(|t: String| t@) =~= fields_of(s@));
            }
            return fields;
        }
        proof {
            let suf = s@.skip(i as int);
            let k = count_while(suf, non_slash_pred()) as int;
            assert(suf.skip(k + 1) =~= s@.skip(j + 1));
        }
        i = j + 1;
    }
}

} // verus!
