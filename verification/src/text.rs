//! Small verified text utilities shared by the rest of the crate: character
//! tests, decimal rendering of integers, and string comparison helpers.

use vstd::prelude::*;

verus! {

/// Relies on String::push: appends the given character to the end of the string.
#[verifier::external_body]
pub fn push_char(s: &mut String, c: char)
    ensures
        final(s)@ == old(s)@.push(c),
{
    s.push(c);
}

/// A one-character string.
pub fn char_to_string(c: char) -> (r: String)
    ensures
        r@ == seq![c],
{
    let mut s = String::new();
    push_char(&mut s, c);
    proof {
        assert(Seq::<char>::empty().push(c) =~= seq![c]);
    }
    s
}

/// Character-wise string equality, phrased over the views.
pub fn str_eq(a: &str, b: &str) -> (r: bool)
    ensures
        r == (a@ == b@),
{
    let la = a.unicode_len();
    let lb = b.unicode_len();
    if la != lb {
        return false;
    }
    let mut i: usize = 0;
    while i < la
        invariant
            la == a@.len(),
            lb == b@.len(),
            la == lb,
            i <= la,
            forall|j: int| 0 <= j < i ==> a@[j] == b@[j],
        decreases la - i,
    {
        if a.get_char(i) != b.get_char(i) {
            return false;
        }
        i = i + 1;
    }
    proof {
        assert(a@ =~= b@);
    }
    true
}

pub open spec fn spec_digit_char(d: nat) -> char {
    if d == 0 {
        '0'
    } else if d == 1 {
        '1'
    } else if d == 2 {
        '2'
    } else if d == 3 {
        '3'
    } else if d == 4 {
        '4'
    } else if d == 5 {
        '5'
    } else if d == 6 {
        '6'
    } else if d == 7 {
        '7'
    } else if d == 8 {
        '8'
    } else {
        '9'
    }
}

pub fn digit_char(d: u64) -> (c: char)
    requires
        d < 10,
    ensures
        c == spec_digit_char(d as nat),
{
    if d == 0 {
        '0'
    } else if d == 1 {
        '1'
    } else if d == 2 {
        '2'
    } else if d == 3 {
        '3'
    } else if d == 4 {
        '4'
    } else if d == 5 {
        '5'
    } else if d == 6 {
        '6'
    } else if d == 7 {
        '7'
    } else if d == 8 {
        '8'
    } else {
        '9'
    }
}

/// The usual decimal digit sequence of a natural number, most significant
/// digit first, with no leading zeros (except for zero itself).
pub open spec fn spec_dec_digits(n: nat) -> Seq<char>
    decreases n,
{
    if n < 10 {
        seq![spec_digit_char(n)]
    } else {
        spec_dec_digits(n / 10).push(spec_digit_char(n % 10))
    }
}

/// Decimal rendering of an integer: a minus sign for negative values,
/// then the digits of the magnitude.
pub open spec fn spec_int_str(v: int) -> Seq<char> {
    if v < 0 {
        seq!['-'] + spec_dec_digits((-v) as nat)
    } else {
        spec_dec_digits(v as nat)
    }
}

pub fn u64_to_string(n: u64) -> (r: String)
    ensures
        r@ == spec_dec_digits(n as nat),
    decreases n,
{
    if n < 10 {
        char_to_string(digit_char(n))
    } else {
        proof {
            assert(n / 10 < n) by (nonlinear_arith)
                requires
                    n >= 10,
            ;
        }
        let mut s = u64_to_string(n / 10);
        push_char(&mut s, digit_char(n % 10));
        s
    }
}

pub fn i64_to_string(v: i64) -> (r: String)
    ensures
        r@ == spec_int_str(v as int),
{
    if v < 0 {
        let mag: u64 = if v == i64::MIN {
            9223372036854775808u64
        } else {
            (-v) as u64
        };
        let mut s = char_to_string('-');
        let digits = u64_to_string(mag);
        s.append(digits.as_str());
        proof {
            assert(seq!['-'] + spec_dec_digits(mag as nat) =~= spec_int_str(v as int));
        }
        s
    } else {
        u64_to_string(v as u64)
    }
}




/// Whitespace characters recognised by the trimming helpers.
pub open spec fn spec_is_ws(c: char) -> bool {
    c == ' ' || c == '\t' || c == '\n' || c == '\r' || c == '\u{000b}' || c == '\u{000c}'
}

pub fn is_ws_char(c: char) -> (r: bool)
    ensures
        r == spec_is_ws(c),
{
    c == ' ' || c == '\t' || c == '\n' || c == '\r' || c == '\u{000b}' || c == '\u{000c}'
}

/// Number of leading whitespace characters.
pub open spec fn spec_lead_ws(s: Seq<char>) -> int
    decreases s.len(),
{
    if s.len() == 0 {
        0
    } else if spec_is_ws(s[0]) {
        1 + spec_lead_ws(s.skip(1))
    } else {
        0
    }
}

/// Number of trailing whitespace characters.
pub open spec fn spec_trail_ws(s: Seq<char>) -> int
    decreases s.len(),
{
    if s.len() == 0 {
        0
    } else if spec_is_ws(s.last()) {
        1 + spec_trail_ws(s.drop_last())
    } else {
        0
    }
}

pub proof fn lemma_lead_ws_bound(s: Seq<char>)
    ensures
        0 <= spec_lead_ws(s) <= s.len(),
        forall|j: int| 0 <= j < spec_lead_ws(s) ==> spec_is_ws(s[j]),
        spec_lead_ws(s) < s.len() ==> !spec_is_ws(s[spec_lead_ws(s)]),
    decreases s.len(),
{
    if s.len() > 0 && spec_is_ws(s[0]) {
        lemma_lead_ws_bound(s.skip(1));
        assert forall|j: int| 0 <= j < spec_lead_ws(s) implies spec_is_ws(s[j]) by {
            if j > 0 {
                assert(s[j] == s.skip(1)[j - 1]);
            }
        }
        if spec_lead_ws(s) < s.len() {
            assert(s[spec_lead_ws(s)] == s.skip(1)[spec_lead_ws(s) - 1]);
        }
    }
}

pub proof fn lemma_trail_ws_bound(s: Seq<char>)
    ensures
        0 <= spec_trail_ws(s) <= s.len(),
        forall|j: int| s.len() - spec_trail_ws(s) <= j < s.len() ==> spec_is_ws(s[j]),
        spec_trail_ws(s) < s.len() ==> !spec_is_ws(s[s.len() - spec_trail_ws(s) - 1]),
    decreases s.len(),
{
    if s.len() > 0 && spec_is_ws(s.last()) {
        lemma_trail_ws_bound(s.drop_last());
        assert forall|j: int| s.len() - spec_trail_ws(s) <= j < s.len() implies spec_is_ws(s[j]) by {
            if j < s.len() - 1 {
                assert(s[j] == s.drop_last()[j]);
            }
        }
        if spec_trail_ws(s) < s.len() {
            assert(s[s.len() - spec_trail_ws(s) - 1] == s.drop_last()[s.len() - spec_trail_ws(s) - 1]);
        }
    }
}

/// The string with leading and trailing whitespace removed.
pub open spec fn spec_trim(s: Seq<char>) -> Seq<char> {
    let l = spec_lead_ws(s);
    if l == s.len() {
        Seq::empty()
    } else {
        s.subrange(l, s.len() - spec_trail_ws(s))
    }
}

pub fn count_lead_ws(s: &str) -> (r: usize)
    ensures
        r == spec_lead_ws(s@),
{
    let n = s.unicode_len();
    let mut i: usize = 0;
    proof {
        lemma_lead_ws_bound(s@);
    }
    while i < n
        invariant
            n == s@.len(),
            0 <= i <= n,
            forall|j: int| 0 <= j < i ==> spec_is_ws(s@[j]),
            i <= spec_lead_ws(s@),
        decreases n - i,
    {
        proof {
            lemma_lead_ws_bound(s@);
        }
        if !is_ws_char(s.get_char(i)) {
            proof {
                lemma_ws_prefix(s@, i as int);
            }
            return i;
        }
        proof {
            lemma_ws_prefix_more(s@, i as int);
        }
        i = i + 1;
    }
    proof {
        lemma_lead_ws_bound(s@);
    }
    i
}

/// If the first i characters are whitespace and s[i] is not, the leading
/// whitespace count is exactly i.
pub proof fn lemma_ws_prefix(s: Seq<char>, i: int)
    requires
        0 <= i < s.len(),
        forall|j: int| 0 <= j < i ==> spec_is_ws(s[j]),
        !spec_is_ws(s[i]),
    ensures
        spec_lead_ws(s) == i,
    decreases i,
{
    lemma_lead_ws_bound(s);
    if i > 0 {
        assert forall|j: int| 0 <= j < i - 1 implies spec_is_ws(s.skip(1)[j]) by {
            assert(s.skip(1)[j] == s[j + 1]);
        }
        assert(s.skip(1)[i - 1] == s[i]);
        lemma_ws_prefix(s.skip(1), i - 1);
    }
}

/// If the first i+1 characters are whitespace, the leading count is above i.
pub proof fn lemma_ws_prefix_more(s: Seq<char>, i: int)
    requires
        0 <= i < s.len(),
        forall|j: int| 0 <= j <= i ==> spec_is_ws(s[j]),
    ensures
        spec_lead_ws(s) >= i + 1,
    decreases i,
{
    lemma_lead_ws_bound(s.skip(1));
    if i > 0 {
        assert forall|j: int| 0 <= j <= i - 1 implies spec_is_ws(s.skip(1)[j]) by {
            assert(s.skip(1)[j] == s[j + 1]);
        }
        lemma_ws_prefix_more(s.skip(1), i - 1);
    }
}

pub proof fn lemma_ws_suffix(s: Seq<char>, i: int)
    requires
        0 <= i < s.len(),
        forall|j: int| s.len() - i <= j < s.len() ==> spec_is_ws(s[j]),
        !spec_is_ws(s[s.len() - i - 1]),
    ensures
        spec_trail_ws(s) == i,
    decreases i,
{
    lemma_trail_ws_bound(s);
    if i > 0 {
        assert forall|j: int| s.drop_last().len() - (i - 1) <= j < s.drop_last().len()
            implies spec_is_ws(s.drop_last()[j]) by {
            assert(s.drop_last()[j] == s[j]);
        }
        assert(s.drop_last()[s.drop_last().len() - (i - 1) - 1] == s[s.len() - i - 1]);
        lemma_ws_suffix(s.drop_last(), i - 1);
    }
}

pub proof fn lemma_ws_suffix_more(s: Seq<char>, i: int)
    requires
        0 <= i < s.len(),
        forall|j: int| s.len() - i - 1 <= j < s.len() ==> spec_is_ws(s[j]),
    ensures
        spec_trail_ws(s) >= i + 1,
    decreases i,
{
    lemma_trail_ws_bound(s.drop_last());
    if i > 0 {
        assert forall|j: int| s.drop_last().len() - (i - 1) - 1 <= j < s.drop_last().len()
            implies spec_is_ws(s.drop_last()[j]) by {
            assert(s.drop_last()[j] == s[j]);
        }
        lemma_ws_suffix_more(s.drop_last(), i - 1);
    }
}

pub fn count_trail_ws(s: &str) -> (r: usize)
    ensures
        r == spec_trail_ws(s@),
{
    let n = s.unicode_len();
    let mut i: usize = 0;
    proof {
        lemma_trail_ws_bound(s@);
    }
    while i < n
        invariant
            n == s@.len(),
            0 <= i <= n,
            forall|j: int| n - i <= j < n ==> spec_is_ws(s@[j]),
            i <= spec_trail_ws(s@),
        decreases n - i,
    {
        proof {
            lemma_trail_ws_bound(s@);
        }
        if !is_ws_char(s.get_char(n - 1 - i)) {
            proof {
                lemma_ws_suffix(s@, i as int);
            }
            return i;
        }
        proof {
            lemma_ws_suffix_more(s@, i as int);
        }
        i = i + 1;
    }
    proof {
        lemma_trail_ws_bound(s@);
    }
    i
}

/// Copy of a substring, by character positions.
pub fn substring_copy(s: &str, from: usize, to: usize) -> (r: String)
    requires
        from <= to <= s@.len(),
    ensures
        r@ == s@.subrange(from as int, to as int),
{
    let sub = s.substring_char(from, to);
    sub.to_owned()
}

/// The string with surrounding whitespace removed.
pub fn trim_string(s: &str) -> (r: String)
    ensures
        r@ == spec_trim(s@),
{
    let n = s.unicode_len();
    let l = count_lead_ws(s);
    proof {
        lemma_lead_ws_bound(s@);
        lemma_trail_ws_bound(s@);
    }
    if l == n {
        proof {
            assert(spec_trim(s@) =~= Seq::<char>::empty());
        }
        String::new()
    } else {
        let t = count_trail_ws(s);
        proof {
            if n - t < l {
                assert(spec_is_ws(s@[l as int]));
            }
        }
        substring_copy(s, l, n - t)
    }
}

pub fn is_blank(s: &str) -> (r: bool)
    ensures
        r == (spec_trim(s@).len() == 0),
{
    let n = s.unicode_len();
    let l = count_lead_ws(s);
    proof {
        lemma_lead_ws_bound(s@);
        lemma_trail_ws_bound(s@);
        if l < n {
            if spec_trim(s@).len() == 0 {
                assert(spec_trim(s@) == s@.subrange(l as int, s@.len() - spec_trail_ws(s@)));
                if s@.len() - spec_trail_ws(s@) <= l {
                    assert(spec_is_ws(s@[l as int]));
                }
            }
        }
    }
    l == n
}

/// Does pat occur in s at position i?
pub fn match_at(s: &str, i: usize, pat: &str) -> (r: bool)
    requires
        i + pat@.len() <= s@.len(),
    ensures
        r == (s@.subrange(i as int, i + pat@.len()) == pat@),
{
    let n = s.unicode_len();
    let plen = pat.unicode_len();
    let mut k: usize = 0;
    while k < plen
        invariant
            n == s@.len(),
            plen == pat@.len(),
            i + plen <= s@.len(),
            0 <= k <= plen,
            forall|j: int| 0 <= j < k ==> s@[i + j] == pat@[j],
        decreases plen - k,
    {
        if s.get_char(i + k) != pat.get_char(k) {
            proof {
                assert(s@.subrange(i as int, i + pat@.len())[k as int] == s@[i + k]);
            }
            return false;
        }
        k = k + 1;
    }
    proof {
        assert(s@.subrange(i as int, i + pat@.len()) =~= pat@);
    }
    true
}

pub open spec fn spec_starts_with(s: Seq<char>, p: Seq<char>) -> bool {
    p.len() <= s.len() && s.subrange(0, p.len() as int) == p
}

pub open spec fn spec_ends_with(s: Seq<char>, p: Seq<char>) -> bool {
    p.len() <= s.len() && s.subrange(s.len() - p.len(), s.len() as int) == p
}

pub fn starts_with_str(s: &str, p: &str) -> (r: bool)
    ensures
        r == spec_starts_with(s@, p@),
{
    let n = s.unicode_len();
    let plen = p.unicode_len();
    if plen > n {
        return false;
    }
    match_at(s, 0, p)
}

pub fn ends_with_str(s: &str, p: &str) -> (r: bool)
    ensures
        r == spec_ends_with(s@, p@),
{
    let n = s.unicode_len();
    let plen = p.unicode_len();
    if plen > n {
        return false;
    }
    match_at(s, n - plen, p)
}

pub fn contains_char(s: &str, c: char) -> (r: bool)
    ensures
        r == s@.contains(c),
{
    let n = s.unicode_len();
    let mut i: usize = 0;
    while i < n
        invariant
            n == s@.len(),
            0 <= i <= n,
            forall|j: int| 0 <= j < i ==> s@[j] != c,
        decreases n - i,
    {
        if s.get_char(i) == c {
            return true;
        }
        i = i + 1;
    }
    false
}

/// Position of the first occurrence of pat in s, if any.
pub open spec fn spec_find(s: Seq<char>, pat: Seq<char>) -> Option<int>
    decreases s.len(),
{
    if pat.len() == 0 {
        Option::Some(0)
    } else if s.len() < pat.len() {
        Option::None
    } else if s.subrange(0, pat.len() as int) == pat {
        Option::Some(0)
    } else {
        match spec_find(s.skip(1), pat) {
            Option::Some(i) => Option::Some(i + 1),
            Option::None => Option::None,
        }
    }
}

pub proof fn lemma_find_none_step(s: Seq<char>, pat: Seq<char>, i: int)
    requires
        pat.len() > 0,
        0 <= i,
        i + pat.len() <= s.len(),
        forall|j: int| 0 <= j < i ==> #[trigger] s.subrange(j, j + pat.len()) != pat,
        s.subrange(i, i + pat.len()) == pat,
    ensures
        spec_find(s, pat) == Option::<int>::Some(i),
    decreases i,
{
    if i == 0 {
    } else {
        let j0: int = 0;
        assert(s.subrange(j0, j0 + pat.len()) != pat);
        assert forall|j: int| 0 <= j < i - 1 implies #[trigger] s.skip(1).subrange(j, j + pat.len()) != pat by {
            assert(s.skip(1).subrange(j, j + pat.len()) =~= s.subrange(j + 1, j + 1 + pat.len()));
        }
        assert(s.skip(1).subrange(i - 1, i - 1 + pat.len()) =~= s.subrange(i, i + pat.len()));
        lemma_find_none_step(s.skip(1), pat, i - 1);
    }
}

pub proof fn lemma_find_none(s: Seq<char>, pat: Seq<char>)
    requires
        pat.len() > 0,
        forall|j: int| 0 <= j <= s.len() - pat.len() ==> #[trigger] s.subrange(j, j + pat.len()) != pat,
    ensures
        spec_find(s, pat) is None,
    decreases s.len(),
{
    if s.len() >= pat.len() {
        let j0: int = 0;
        assert(s.subrange(j0, j0 + pat.len()) != pat);
        assert forall|j: int| 0 <= j <= s.skip(1).len() - pat.len()
            implies #[trigger] s.skip(1).subrange(j, j + pat.len()) != pat by {
            assert(s.skip(1).subrange(j, j + pat.len()) =~= s.subrange(j + 1, j + 1 + pat.len()));
        }
        lemma_find_none(s.skip(1), pat);
    }
}

pub fn find_str(s: &str, pat: &str) -> (r: Option<usize>)
    requires
        pat@.len() > 0,
    ensures
        match r {
            Option::Some(i) => spec_find(s@, pat@) == Option::<int>::Some(i as int),
            Option::None => spec_find(s@, pat@) is None,
        },
{
    let n = s.unicode_len();
    let plen = pat.unicode_len();
    if plen > n {
        proof {
            lemma_find_none(s@, pat@);
        }
        return Option::None;
    }
    let mut i: usize = 0;
    while i <= n - plen
        invariant
            n == s@.len(),
            plen == pat@.len(),
            plen > 0,
            plen <= n,
            0 <= i <= n + 1 - plen,
            forall|j: int| 0 <= j < i ==> #[trigger] s@.subrange(j, j + pat@.len()) != pat@,
        decreases n - i,
    {
        if match_at(s, i, pat) {
            proof {
                lemma_find_none_step(s@, pat@, i as int);
            }
            return Option::Some(i);
        }
        i = i + 1;
    }
    proof {
        lemma_find_none(s@, pat@);
    }
    Option::None
}

/// Replacement of every (non-overlapping, left to right) occurrence of pat by rep.
pub open spec fn spec_replace_all(s: Seq<char>, pat: Seq<char>, rep: Seq<char>) -> Seq<char>
    decreases s.len(),
{
    if pat.len() == 0 {
        s
    } else if s.len() < pat.len() {
        s
    } else if s.subrange(0, pat.len() as int) == pat {
        rep + spec_replace_all(s.skip(pat.len() as int), pat, rep)
    } else {
        seq![s[0]] + spec_replace_all(s.skip(1), pat, rep)
    }
}

pub fn replace_all(s: &str, pat: &str, rep: &str) -> (r: String)
    requires
        pat@.len() > 0,
    ensures
        r@ == spec_replace_all(s@, pat@, rep@),
{
    let n = s.unicode_len();
    let plen = pat.unicode_len();
    let mut r = String::new();
    let mut i: usize = 0;
    proof {
        assert(s@.skip(0) =~= s@);
        assert(r@ + spec_replace_all(s@, pat@, rep@) =~= spec_replace_all(s@, pat@, rep@));
    }
    while i < n
        invariant
            n == s@.len(),
            plen == pat@.len(),
            plen > 0,
            0 <= i <= n,
            spec_replace_all(s@, pat@, rep@) == r@ + spec_replace_all(
                s@.skip(i as int),
                pat@,
                rep@,
            ),
        decreases n - i,
    {
        let ghost pre = r@;
        if plen <= n - i && match_at(s, i, pat) {
            proof {
                assert(s@.skip(i as int).subrange(0, pat@.len() as int) =~= s@.subrange(
                    i as int,
                    i + pat@.len(),
                ));
                assert(s@.skip(i as int).skip(pat@.len() as int) =~= s@.skip(i + pat@.len()));
            }
            r.append(rep);
            i = i + plen;
            proof {
                assert(r@ + spec_replace_all(s@.skip(i as int), pat@, rep@) =~= pre
                    + spec_replace_all(s@.skip(i - plen), pat@, rep@));
            }
        } else {
            proof {
                if i + plen <= n {
                    assert(s@.skip(i as int).subrange(0, pat@.len() as int) =~= s@.subrange(
                        i as int,
                        i + pat@.len(),
                    ));
                } else {
                    assert(s@.skip(i as int).len() < pat@.len());
                }
                assert(s@.skip(i as int).skip(1) =~= s@.skip(i + 1));
                assert(s@.skip(i as int)[0] == s@[i as int]);
            }
            push_char(&mut r, s.get_char(i));
            i = i + 1;
            proof {
                if i - 1 + plen <= n {
                    assert(r@ + spec_replace_all(s@.skip(i as int), pat@, rep@) =~= pre + (seq![
                        s@[i - 1],
                    ] + spec_replace_all(s@.skip(i as int), pat@, rep@)));
                } else {
                    assert(spec_replace_all(s@.skip(i - 1), pat@, rep@) == s@.skip(i - 1));
                    assert(spec_replace_all(s@.skip(i as int), pat@, rep@) == s@.skip(i as int));
                    assert(r@ + spec_replace_all(s@.skip(i as int), pat@, rep@) =~= pre + s@.skip(
                        i - 1,
                    ));
                }
            }
        }
    }
    proof {
        assert(s@.skip(n as int) =~= Seq::<char>::empty());
        assert(spec_replace_all(Seq::<char>::empty(), pat@, rep@) == Seq::<char>::empty());
        assert(r@ + Seq::<char>::empty() =~= r@);
    }
    r
}

/// The parts of s between (non-overlapping, left to right) occurrences of delim.
pub open spec fn spec_split(s: Seq<char>, delim: Seq<char>) -> Seq<Seq<char>>
    decreases s.len(),
{
    if delim.len() == 0 {
        seq![s]
    } else {
        match spec_find(s, delim) {
            Option::None => seq![s],
            Option::Some(i) => {
                if 0 <= i && i + delim.len() <= s.len() {
                    seq![s.subrange(0, i)] + spec_split(s.skip(i + delim.len()), delim)
                } else {
                    seq![s]
                }
            },
        }
    }
}

pub proof fn lemma_find_in_range(s: Seq<char>, pat: Seq<char>)
    requires
        pat.len() > 0,
        spec_find(s, pat) is Some,
    ensures
        0 <= spec_find(s, pat)->Some_0,
        spec_find(s, pat)->Some_0 + pat.len() <= s.len(),
        s.subrange(spec_find(s, pat)->Some_0, spec_find(s, pat)->Some_0 + pat.len()) == pat,
    decreases s.len(),
{
    if s.len() >= pat.len() && s.subrange(0, pat.len() as int) != pat {
        lemma_find_in_range(s.skip(1), pat);
        let i = spec_find(s, pat)->Some_0;
        assert(s.skip(1).subrange(i - 1, i - 1 + pat.len()) =~= s.subrange(i, i + pat.len()));
    }
}

pub fn split_str(s: &str, delim: &str) -> (r: Vec<String>)
    requires
        delim@.len() > 0,
    ensures
        r@.map_values(|x: String| x@) == spec_split(s@, delim@),
    decreases s@.len(),
{
    match find_str(s, delim) {
        Option::None => {
            let mut r: Vec<String> = Vec::new();
            r.push(s.to_owned());
            proof {
                assert(r@.map_values(|x: String| x@) =~= spec_split(s@, delim@));
            }
            r
        },
        Option::Some(i) => {
            proof {
                lemma_find_in_range(s@, delim@);
            }
            let dlen = delim.unicode_len();
            let n = s.unicode_len();
            let head = substring_copy(s, 0, i);
            let rest = s.substring_char(i + dlen, n);
            proof {
                assert(rest@ =~= s@.skip(i + delim@.len()));
            }
            let mut r = split_str(rest, delim);
            let mut out: Vec<String> = Vec::new();
            out.push(head);
            let mut k: usize = 0;
            let rn = r.len();
            while k < rn
                invariant
                    rn == r@.len(),
                    0 <= k <= rn,
                    out@.len() == k + 1,
                    out@[0]@ == s@.subrange(0, spec_find(s@, delim@)->Some_0),
                    forall|j: int| 0 <= j < k ==> out@[j + 1] == r@[j],
                decreases rn - k,
            {
                let item = r[k].clone();
                out.push(item);
                k = k + 1;
            }
            proof {
                assert(out@.map_values(|x: String| x@) =~= spec_split(s@, delim@));
            }
            out
        },
    }
}

/// s repeated n times.
pub open spec fn spec_repeat(s: Seq<char>, n: nat) -> Seq<char>
    decreases n,
{
    if n == 0 {
        Seq::empty()
    } else {
        spec_repeat(s, (n - 1) as nat) + s
    }
}

pub fn repeat_str(s: &str, n: usize) -> (r: String)
    ensures
        r@ == spec_repeat(s@, n as nat),
{
    let mut r = String::new();
    let mut i: usize = 0;
    proof {
        assert(r@ =~= spec_repeat(s@, 0));
    }
    while i < n
        invariant
            0 <= i <= n,
            r@ == spec_repeat(s@, i as nat),
        decreases n - i,
    {
        r.append(s);
        i = i + 1;
    }
    r
}

/// The elements joined with sep between them.
pub open spec fn spec_join(v: Seq<Seq<char>>, sep: Seq<char>) -> Seq<char>
    decreases v.len(),
{
    if v.len() == 0 {
        Seq::empty()
    } else if v.len() == 1 {
        v[0]
    } else {
        v[0] + sep + spec_join(v.skip(1), sep)
    }
}

pub proof fn lemma_join_push(v: Seq<Seq<char>>, sep: Seq<char>, x: Seq<char>)
    ensures
        v.len() == 0 ==> spec_join(v.push(x), sep) == x,
        v.len() > 0 ==> spec_join(v.push(x), sep) == spec_join(v, sep) + sep + x,
    decreases v.len(),
{
    if v.len() == 0 {
        assert(v.push(x)[0] == x);
        assert(spec_join(v.push(x), sep) == x);
    } else {
        lemma_join_push(v.skip(1), sep, x);
        assert(v.push(x).skip(1) =~= v.skip(1).push(x));
        assert(v.push(x)[0] == v[0]);
        if v.len() == 1 {
            assert(spec_join(v.push(x), sep) == v[0] + sep + spec_join(v.skip(1).push(x), sep));
            assert(spec_join(v.skip(1).push(x), sep) == x);
        } else {
            assert(spec_join(v.push(x), sep) == v[0] + sep + spec_join(v.skip(1).push(x), sep));
            assert(spec_join(v.skip(1).push(x), sep) == spec_join(v.skip(1), sep) + sep + x);
            assert(v[0] + sep + (spec_join(v.skip(1), sep) + sep + x) =~= (v[0] + sep + spec_join(
                v.skip(1),
                sep,
            )) + sep + x);
        }
    }
}

pub fn join_strings(v: &Vec<String>, sep: &str) -> (r: String)
    ensures
        r@ == spec_join(v@.map_values(|x: String| x@), sep@),
{
    let n = v.len();
    if n == 0 {
        proof {
            assert(v@.map_values(|x: String| x@) =~= Seq::<Seq<char>>::empty());
        }
        return String::new();
    }
    let mut r = v[0].clone();
    let mut i: usize = 1;
    proof {
        assert(v@.take(1).map_values(|x: String| x@) =~= seq![v@[0]@]);
    }
    while i < n
        invariant
            n == v@.len(),
            1 <= i <= n,
            r@ == spec_join(v@.take(i as int).map_values(|x: String| x@), sep@),
        decreases n - i,
    {
        r.append(sep);
        r.append(v[i].as_str());
        proof {
            let m = v@.take(i as int).map_values(|x: String| x@);
            lemma_join_push(m, sep@, v@[i as int]@);
            assert(v@.take(i + 1).map_values(|x: String| x@) =~= m.push(v@[i as int]@));
            assert(m.len() > 0);
        }
        i = i + 1;
    }
    proof {
        assert(v@.take(n as int) =~= v@);
    }
    r
}

/// ASCII lower-casing of one character.
pub open spec fn spec_lower_char(c: char) -> char {
    if 'A' <= c && c <= 'Z' {
        ((c as u8) + 32) as char
    } else {
        c
    }
}

pub open spec fn spec_ascii_lower(s: Seq<char>) -> Seq<char> {
    s.map_values(|c: char| spec_lower_char(c))
}

pub fn ascii_lower(s: &str) -> (r: String)
    ensures
        r@ == spec_ascii_lower(s@),
{
    let n = s.unicode_len();
    let mut r = String::new();
    let mut i: usize = 0;
    proof {
        assert(r@ =~= spec_ascii_lower(s@.take(0)));
    }
    while i < n
        invariant
            n == s@.len(),
            0 <= i <= n,
            r@ == spec_ascii_lower(s@.take(i as int)),
        decreases n - i,
    {
        let c = s.get_char(i);
        let l = if 'A' <= c && c <= 'Z' {
            ((c as u8) + 32) as char
        } else {
            c
        };
        push_char(&mut r, l);
        proof {
            assert(spec_ascii_lower(s@.take(i + 1)) =~= spec_ascii_lower(s@.take(i as int)).push(
                spec_lower_char(s@[i as int]),
            ));
        }
        i = i + 1;
    }
    proof {
        assert(s@.take(n as int) =~= s@);
    }
    r
}

pub open spec fn spec_is_digit(c: char) -> bool {
    '0' <= c && c <= '9'
}

pub open spec fn spec_digit_val(c: char) -> int {
    c as int - 48
}

/// Value of a digit string, most significant digit first.
pub open spec fn spec_digits_val(s: Seq<char>) -> int
    decreases s.len(),
{
    if s.len() == 0 {
        0
    } else {
        spec_digits_val(s.drop_last()) * 10 + spec_digit_val(s.last())
    }
}

pub open spec fn spec_all_digits(s: Seq<char>) -> bool {
    forall|j: int| 0 <= j < s.len() ==> spec_is_digit(#[trigger] s[j])
}

/// The value of an optionally signed decimal integer, or None when the
/// string is not of that shape or the value leaves the i64 range.
/// This matches what str::parse::<i64> accepts.
pub open spec fn spec_parse_i64(s: Seq<char>) -> Option<i64> {
    let digits = if s.len() > 0 && (s[0] == '-' || s[0] == '+') {
        s.skip(1)
    } else {
        s
    };
    let neg = s.len() > 0 && s[0] == '-';
    if digits.len() == 0 || !spec_all_digits(digits) {
        Option::None
    } else {
        let v = if neg {
            -spec_digits_val(digits)
        } else {
            spec_digits_val(digits)
        };
        if i64::MIN <= v <= i64::MAX {
            Option::Some(v as i64)
        } else {
            Option::None
        }
    }
}

pub proof fn lemma_digits_val_nonneg(s: Seq<char>)
    requires
        spec_all_digits(s),
    ensures
        spec_digits_val(s) >= 0,
        s.len() > 0 ==> spec_digits_val(s) >= spec_digit_val(s.last()),
    decreases s.len(),
{
    if s.len() > 0 {
        assert forall|j: int| 0 <= j < s.drop_last().len() implies spec_is_digit(
            #[trigger] s.drop_last()[j],
        ) by {
            assert(s.drop_last()[j] == s[j]);
        }
        lemma_digits_val_nonneg(s.drop_last());
        assert(spec_digits_val(s.drop_last()) * 10 >= 0) by (nonlinear_arith)
            requires
                spec_digits_val(s.drop_last()) >= 0,
        ;
    }
}

/// Parses the digit part (no sign), returning its value capped detection:
/// None when the value exceeds max.
fn parse_digits_u64(s: &str, from: usize, max: u64) -> (r: Option<u64>)
    requires
        from <= s@.len(),
        s@.len() <= usize::MAX,
    ensures
        ({
            let digits = s@.skip(from as int);
            if digits.len() == 0 || !spec_all_digits(digits) {
                r is None
            } else if spec_digits_val(digits) > max {
                r is None
            } else {
                r == Option::Some(spec_digits_val(digits) as u64)
            }
        }),
{
    let n = s.unicode_len();
    if from == n {
        proof {
            assert(s@.skip(from as int).len() == 0);
        }
        return Option::None;
    }
    let mut acc: u64 = 0;
    let mut i: usize = from;
    while i < n
        invariant
            n == s@.len(),
            from <= i <= n,
            from < n,
            spec_all_digits(s@.subrange(from as int, i as int)),
            acc == spec_digits_val(s@.subrange(from as int, i as int)),
            acc <= max,
        decreases n - i,
    {
        let c = s.get_char(i);
        if !('0' <= c && c <= '9') {
            proof {
                let digits = s@.skip(from as int);
                assert(digits[i - from] == s@[i as int]);
                assert(!spec_all_digits(digits));
            }
            return Option::None;
        }
        let d: u64 = (c as u32 as u64) - 48;
        if acc > max / 10 || (acc == max / 10 && d > max % 10) {
            proof {
                lemma_acc_exceeds(s@, from as int, i as int, max as int);
            }
            return Option::None;
        }
        proof {
            assert(acc * 10 + d <= max) by (nonlinear_arith)
                requires
                    0 <= acc,
                    0 <= d <= 9,
                    acc < max / 10 || (acc == max / 10 && d <= max % 10),
                    max >= 0,
            ;
            assert(s@.subrange(from as int, i + 1).drop_last() =~= s@.subrange(
                from as int,
                i as int,
            ));
            assert(s@.subrange(from as int, i + 1).last() == s@[i as int]);
        }
        acc = acc * 10 + d;
        i = i + 1;
    }
    proof {
        assert(s@.subrange(from as int, n as int) =~= s@.skip(from as int));
    }
    Option::Some(acc)
}

/// If the digits seen so far already exceed max / 10 (or equal it with a
/// too-large next digit), the full digit string's value exceeds max.
proof fn lemma_acc_exceeds(s: Seq<char>, from: int, i: int, max: int)
    requires
        0 <= from <= i < s.len(),
        max >= 0,
        spec_all_digits(s.subrange(from, i)),
        spec_is_digit(s[i]),
        spec_digits_val(s.subrange(from, i)) * 10 + spec_digit_val(s[i]) > max,
    ensures
        spec_all_digits(s.skip(from)) ==> spec_digits_val(s.skip(from)) > max,
    decreases s.len() - i,
{
    if spec_all_digits(s.skip(from)) {
        assert(s.subrange(from, i + 1).drop_last() =~= s.subrange(from, i));
        assert(s.subrange(from, i + 1).last() == s[i]);
        assert(spec_digits_val(s.subrange(from, i + 1)) == spec_digits_val(s.subrange(from, i))
            * 10 + spec_digit_val(s[i]));
        lemma_digits_prefix_grows(s, from, i + 1, max);
    }
}

/// Digit strings only grow: if a prefix of the digits already exceeds max,
/// the whole digit string does.
proof fn lemma_digits_prefix_grows(s: Seq<char>, from: int, k: int, max: int)
    requires
        0 <= from < k <= s.len(),
        max >= 0,
        spec_all_digits(s.skip(from)),
        spec_digits_val(s.subrange(from, k)) > max,
    ensures
        spec_digits_val(s.skip(from)) > max,
    decreases s.len() - k,
{
    if k == s.len() {
        assert(s.subrange(from, k) =~= s.skip(from));
    } else {
        let pre = s.subrange(from, k);
        let nxt = s.subrange(from, k + 1);
        assert(nxt.drop_last() =~= pre);
        assert(nxt.last() == s[k]);
        assert(spec_is_digit(s[k])) by {
            assert(s.skip(from)[k - from] == s[k]);
        }
        lemma_digits_val_nonneg_sub(s, from, k);
        assert(spec_digits_val(nxt) == spec_digits_val(pre) * 10 + spec_digit_val(s[k]));
        assert(spec_digits_val(pre) * 10 >= spec_digits_val(pre) + 9) by (nonlinear_arith)
            requires
                spec_digits_val(pre) >= 1,
        ;
        assert(spec_digits_val(pre) >= 1);
        lemma_digits_prefix_grows(s, from, k + 1, max);
    }
}

proof fn lemma_digits_val_nonneg_sub(s: Seq<char>, from: int, k: int)
    requires
        0 <= from <= k <= s.len(),
        spec_all_digits(s.skip(from)),
    ensures
        spec_digits_val(s.subrange(from, k)) >= 0,
{
    assert forall|j: int| 0 <= j < s.subrange(from, k).len() implies spec_is_digit(
        #[trigger] s.subrange(from, k)[j],
    ) by {
        assert(s.subrange(from, k)[j] == s.skip(from)[j]);
    }
    lemma_digits_val_nonneg(s.subrange(from, k));
}

/// str::parse::<i64>, verified: sign handling plus digit accumulation.
pub fn parse_i64(s: &str) -> (r: Option<i64>)
    ensures
        r == spec_parse_i64(s@),
{
    let n = s.unicode_len();
    if n == 0 {
        return Option::None;
    }
    let first = s.get_char(0);
    let neg = first == '-';
    let signed = neg || first == '+';
    let from: usize = if signed {
        1
    } else {
        0
    };
    let max: u64 = if neg {
        9223372036854775808u64
    } else {
        9223372036854775807u64
    };
    let ghost digits = if signed {
        s@.skip(1)
    } else {
        s@
    };
    proof {
        if !signed {
            assert(s@.skip(0) =~= s@);
        }
    }
    match parse_digits_u64(s, from, max) {
        Option::None => {
            proof {
                if digits.len() > 0 && spec_all_digits(digits) {
                    lemma_digits_val_nonneg(digits);
                }
            }
            Option::None
        },
        Option::Some(v) => {
            proof {
                lemma_digits_val_nonneg(digits);
            }
            if neg {
                if v == 9223372036854775808u64 {
                    Option::Some(i64::MIN)
                } else {
                    Option::Some(-(v as i64))
                }
            } else {
                Option::Some(v as i64)
            }
        },
    }
}

/// str::parse::<usize>, verified, for small counts such as heading levels.
pub fn parse_usize(s: &str) -> (r: Option<usize>)
    ensures
        ({
            let ok = s@.len() > 0 && spec_all_digits(s@) && spec_digits_val(s@) <= usize::MAX;
            if ok {
                r == Option::Some(spec_digits_val(s@) as usize)
            } else {
                r is None
            }
        }),
{
    let n = s.unicode_len();
    if n == 0 {
        return Option::None;
    }
    proof {
        assert(s@.skip(0) =~= s@);
        if s@.len() > 0 && spec_all_digits(s@) {
            lemma_digits_val_nonneg(s@);
        }
    }
    match parse_digits_u64(s, 0, usize::MAX as u64) {
        Option::None => Option::None,
        Option::Some(v) => Option::Some(v as usize),
    }
}

/// An equal copy of a vector of strings.
pub fn clone_string_vec(v: &Vec<String>) -> (r: Vec<String>)
    ensures
        r@ == v@,
{
    let mut r: Vec<String> = Vec::new();
    let n = v.len();
    let mut i: usize = 0;
    while i < n
        invariant
            n == v@.len(),
            0 <= i <= n,
            r@ == v@.take(i as int),
        decreases n - i,
    {
        r.push(v[i].clone());
        proof {
            assert(v@.take(i + 1) =~= v@.take(i as int).push(v@[i as int]));
        }
        i = i + 1;
    }
    proof {
        assert(v@.take(n as int) =~= v@);
    }
    r
}

/// An equal copy of a vector of string pairs.
pub fn clone_pair_vec(v: &Vec<(String, String)>) -> (r: Vec<(String, String)>)
    ensures
        r@ == v@,
{
    let mut r: Vec<(String, String)> = Vec::new();
    let n = v.len();
    let mut i: usize = 0;
    while i < n
        invariant
            n == v@.len(),
            0 <= i <= n,
            r@ == v@.take(i as int),
        decreases n - i,
    {
        let a = v[i].0.clone();
        let b = v[i].1.clone();
        r.push((a, b));
        proof {
            assert(v@.take(i + 1) =~= v@.take(i as int).push(v@[i as int]));
        }
        i = i + 1;
    }
    proof {
        assert(v@.take(n as int) =~= v@);
    }
    r
}

} // verus!
