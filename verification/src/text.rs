//! Character-sequence utilities: delimiter splitting, substring search,
//! whitespace trimming, tokenising and decimal parsing, each specified
//! over `Seq<char>`.
use vstd::prelude::*;
use vstd::string::*;

verus! {

/// Index of the first occurrence of `d` in `s`; `s.len()` if `d` is absent.
pub open spec fn first_ix(s: Seq<char>, d: char) -> int
    decreases s.len(),
{
    if s.len() == 0 {
        0
    } else if s[0] == d {
        0
    } else {
        1 + first_ix(s.drop_first(), d)
    }
}

/// A scan that saw no occurrence of `d` before `i`, and one at `i` when
/// `i` is in range, has found exactly `first_ix`.
pub proof fn lemma_first_ix_is(s: Seq<char>, d: char, i: int)
    requires
        0 <= i <= s.len(),
        forall|k: int| 0 <= k < i ==> s[k] != d,
        i < s.len() ==> s[i] == d,
    ensures
        first_ix(s, d) == i,
    decreases i,
{
    if i == 0 {
    } else {
        assert(s[0] != d);
        assert(forall|k: int| 0 <= k < i - 1 ==> #[trigger] s.drop_first()[k] != d);
        lemma_first_ix_is(s.drop_first(), d, i - 1);
    }
}

/// The maximal `d`-free segments of `s`, in order: splitting on every
/// occurrence of `d`, so that `n` occurrences yield `n + 1` fields.
pub open spec fn split_on(s: Seq<char>, d: char) -> Seq<Seq<char>>
    decreases s.len(),
{
    let i = first_ix(s, d);
    if i < 0 || i >= s.len() {
        seq![s]
    } else {
        seq![s.take(i)] + split_on(s.skip(i + 1), d)
    }
}

/// Scan forward from `from` for the next occurrence of `d`; returns `s@.len()`
/// when there is none at or after `from`.
pub fn find_char_from(s: &str, d: char, from: usize, len: usize) -> (r: usize)
    requires
        from <= len,
        len == s@.len(),
    ensures
        from <= r <= s@.len(),
        r - from == first_ix(s@.skip(from as int), d),
{
    let mut j: usize = from;
    loop
        invariant
            from <= j <= len,
            len == s@.len(),
            forall|k: int| from <= k < j ==> s@[k] != d,
        ensures
            from <= j <= len,
            forall|k: int| from <= k < j ==> s@[k] != d,
            j < len ==> s@[j as int] == d,
        decreases len - j,
    {
        if j == len {
            break;
        }
        if s.get_char(j) == d {
            break;
        }
        j = j + 1;
    }
    proof {
        let t = s@.skip(from as int);
        assert(forall|k: int| 0 <= k < j - from ==> #[trigger] t[k] != d);
        assert(j < len ==> t[j - from] == d);
        lemma_first_ix_is(t, d, j - from);
    }
    j
}

/// Splits `s` on every occurrence of `d`; the result always has at least
/// one (possibly empty) field.
pub fn split_all(s: &str, d: char) -> (r: Vec<String>)
    ensures
        r.deep_view() == split_on(s@, d),
{
    let len: usize = s.unicode_len();
    let mut out: Vec<String> = Vec::new();
    let mut p: usize = 0;
    proof {
        assert(s@.skip(0) =~= s@);
        assert(out.deep_view() + split_on(s@, d) =~= split_on(s@, d));
    }
    loop
        invariant_except_break
            len == s@.len(),
            p <= len,
            split_on(s@, d) == out.deep_view() + split_on(s@.skip(p as int), d),
        ensures
            out.deep_view() == split_on(s@, d),
        decreases len - p,
    {
        let j = find_char_from(s, d, p, len);
        let ghost rest = s@.skip(p as int);
        let field = String::from_str(s.substring_char(p, j));
        proof {
            assert(field@ =~= rest.take(j - p as int));
        }
        let ghost pre = out.deep_view();
        out.push(field);
        proof {
            assert(out.deep_view() =~= pre.push(field@));
        }
        if j == len {
            proof {
                assert(first_ix(rest, d) == rest.len());
                assert(split_on(rest, d) == seq![rest]);
                assert(field@ =~= rest);
                assert(pre + split_on(rest, d) =~= out.deep_view());
                assert(out.deep_view() == split_on(s@, d));
            }
            break;
        } else {
            proof {
                assert(first_ix(rest, d) == j - p);
                assert(split_on(rest, d) == seq![rest.take(j - p as int)] + split_on(
                    rest.skip(j - p as int + 1),
                    d,
                ));
                assert(rest.skip(j - p as int + 1) =~= s@.skip(j + 1));
                assert(pre + split_on(rest, d) =~= out.deep_view() + split_on(s@.skip(j + 1), d));
            }
            p = j + 1;
        }
    }
    out
}

/// The lines of `s`: split on every newline, except that a final newline
/// ends the last line rather than opening an empty one.  A carriage
/// return is an ordinary character here: the host files this tool reads
/// end their lines with a bare newline.
pub open spec fn lines_spec(s: Seq<char>) -> Seq<Seq<char>> {
    if s.len() == 0 {
        seq![]
    } else if s.last() == '\n' {
        split_on(s.drop_last(), '\n')
    } else {
        split_on(s, '\n')
    }
}

pub fn lines_of(s: &str) -> (r: Vec<String>)
    ensures
        r.deep_view() == lines_spec(s@),
{
    let len: usize = s.unicode_len();
    if len == 0 {
        let r: Vec<String> = Vec::new();
        proof {
            assert(r.deep_view() =~= lines_spec(s@));
        }
        r
    } else if s.get_char(len - 1) == '\n' {
        let body = s.substring_char(0, len - 1);
        proof {
            assert(body@ =~= s@.drop_last());
        }
        split_all(body, '\n')
    } else {
        split_all(s, '\n')
    }
}

/// Whitespace, for trimming and tokenising.
pub open spec fn is_ws(c: char) -> bool {
    c == ' ' || c == '\t' || c == '\n' || c == '\r'
}

pub fn is_ws_char(c: char) -> (r: bool)
    ensures
        r == is_ws(c),
{
    c == ' ' || c == '\t' || c == '\n' || c == '\r'
}

/// Index of the first non-whitespace character; `s.len()` if all whitespace.
pub open spec fn ws_prefix(s: Seq<char>) -> int
    decreases s.len(),
{
    if s.len() == 0 {
        0
    } else if !is_ws(s[0]) {
        0
    } else {
        1 + ws_prefix(s.drop_first())
    }
}

pub proof fn lemma_ws_prefix_is(s: Seq<char>, i: int)
    requires
        0 <= i <= s.len(),
        forall|k: int| 0 <= k < i ==> is_ws(s[k]),
        i < s.len() ==> !is_ws(s[i]),
    ensures
        ws_prefix(s) == i,
    decreases i,
{
    if i > 0 {
        assert(forall|k: int| 0 <= k < i - 1 ==> is_ws(#[trigger] s.drop_first()[k]));
        lemma_ws_prefix_is(s.drop_first(), i - 1);
    }
}

/// Index of the first whitespace character; `s.len()` if there is none.
pub open spec fn ws_next(s: Seq<char>) -> int
    decreases s.len(),
{
    if s.len() == 0 {
        0
    } else if is_ws(s[0]) {
        0
    } else {
        1 + ws_next(s.drop_first())
    }
}

pub proof fn lemma_ws_next_is(s: Seq<char>, i: int)
    requires
        0 <= i <= s.len(),
        forall|k: int| 0 <= k < i ==> !is_ws(s[k]),
        i < s.len() ==> is_ws(s[i]),
    ensures
        ws_next(s) == i,
    decreases i,
{
    if i > 0 {
        assert(forall|k: int| 0 <= k < i - 1 ==> !is_ws(#[trigger] s.drop_first()[k]));
        lemma_ws_next_is(s.drop_first(), i - 1);
    }
}

/// One past the last non-whitespace character; `0` if all whitespace.
pub open spec fn ws_suffix(s: Seq<char>) -> int
    decreases s.len(),
{
    if s.len() == 0 {
        0
    } else if is_ws(s.last()) {
        ws_suffix(s.drop_last())
    } else {
        s.len() as int
    }
}

pub proof fn lemma_ws_suffix_is(s: Seq<char>, b: int)
    requires
        0 <= b <= s.len(),
        forall|k: int| b <= k < s.len() ==> is_ws(s[k]),
        b > 0 ==> !is_ws(s[b - 1]),
    ensures
        ws_suffix(s) == b,
    decreases s.len(),
{
    if b < s.len() {
        assert(is_ws(s.last()));
        assert(forall|k: int| b <= k < s.len() - 1 ==> is_ws(#[trigger] s.drop_last()[k]));
        lemma_ws_suffix_is(s.drop_last(), b);
    }
}

/// `s` with leading and trailing whitespace removed.
pub open spec fn trim_spec(s: Seq<char>) -> Seq<char> {
    if ws_suffix(s) <= ws_prefix(s) {
        Seq::empty()
    } else {
        s.subrange(ws_prefix(s), ws_suffix(s))
    }
}

pub fn trim_str(s: &str) -> (r: String)
    ensures
        r@ == trim_spec(s@),
{
    let len: usize = s.unicode_len();
    let mut a: usize = 0;
    loop
        invariant
            a <= len,
            len == s@.len(),
            forall|k: int| 0 <= k < a ==> is_ws(s@[k]),
        ensures
            a <= len,
            forall|k: int| 0 <= k < a ==> is_ws(s@[k]),
            a < len ==> !is_ws(s@[a as int]),
        decreases len - a,
    {
        if a == len {
            break;
        }
        if !is_ws_char(s.get_char(a)) {
            break;
        }
        a = a + 1;
    }
    proof {
        lemma_ws_prefix_is(s@, a as int);
    }
    let mut b: usize = len;
    loop
        invariant
            a <= b <= len,
            len == s@.len(),
            forall|k: int| b <= k < len ==> is_ws(s@[k]),
        ensures
            a <= b <= len,
            forall|k: int| b <= k < len ==> is_ws(s@[k]),
            b > a ==> !is_ws(s@[b - 1]),
        decreases b,
    {
        if b == a {
            break;
        }
        if !is_ws_char(s.get_char(b - 1)) {
            break;
        }
        b = b - 1;
    }
    if b <= a {
        proof {
            assert(forall|k: int| 0 <= k < len ==> is_ws(s@[k]));
            lemma_ws_suffix_is(s@, 0);
            assert(trim_spec(s@) =~= Seq::<char>::empty());
        }
        String::new()
    } else {
        proof {
            lemma_ws_suffix_is(s@, b as int);
        }
        String::from_str(s.substring_char(a, b))
    }
}

/// The first whitespace-separated token of `s`, if any.
pub open spec fn first_token_spec(s: Seq<char>) -> Option<Seq<char>> {
    let a = ws_prefix(s);
    if a >= s.len() {
        None
    } else {
        Some(s.subrange(a, a + ws_next(s.skip(a))))
    }
}

pub fn first_token_of(s: &str) -> (r: Option<String>)
    ensures
        r matches Some(t) ==> first_token_spec(s@) == Some(t@),
        r is None ==> first_token_spec(s@) is None,
{
    let len: usize = s.unicode_len();
    let mut a: usize = 0;
    loop
        invariant
            a <= len,
            len == s@.len(),
            forall|k: int| 0 <= k < a ==> is_ws(s@[k]),
        ensures
            a <= len,
            forall|k: int| 0 <= k < a ==> is_ws(s@[k]),
            a < len ==> !is_ws(s@[a as int]),
        decreases len - a,
    {
        if a == len {
            break;
        }
        if !is_ws_char(s.get_char(a)) {
            break;
        }
        a = a + 1;
    }
    proof {
        lemma_ws_prefix_is(s@, a as int);
    }
    if a == len {
        return None;
    }
    let mut b: usize = a;
    loop
        invariant
            a <= b <= len,
            len == s@.len(),
            forall|k: int| a <= k < b ==> !is_ws(s@[k]),
        ensures
            a <= b <= len,
            forall|k: int| a <= k < b ==> !is_ws(s@[k]),
            b < len ==> is_ws(s@[b as int]),
        decreases len - b,
    {
        if b == len {
            break;
        }
        if is_ws_char(s.get_char(b)) {
            break;
        }
        b = b + 1;
    }
    proof {
        let t = s@.skip(a as int);
        assert(forall|k: int| 0 <= k < b - a ==> !is_ws(#[trigger] t[k]));
        assert(b < len ==> is_ws(t[b - a]));
        lemma_ws_next_is(t, b - a);
    }
    Some(String::from_str(s.substring_char(a, b)))
}

/// Decimal digits.
pub open spec fn is_digit(c: char) -> bool {
    '0' as int <= c as int && c as int <= '9' as int
}

pub open spec fn digit_of(c: char) -> nat {
    (c as int - '0' as int) as nat
}

pub open spec fn all_digits(s: Seq<char>) -> bool {
    forall|i: int| 0 <= i < s.len() ==> is_digit(#[trigger] s[i])
}

/// The number a string of decimal digits denotes.
pub open spec fn digits_val(s: Seq<char>) -> nat
    decreases s.len(),
{
    if s.len() == 0 {
        0
    } else {
        digits_val(s.drop_last()) * 10 + digit_of(s.last())
    }
}

/// The denoted number only grows as more digits are taken.
pub proof fn lemma_digits_val_mono(s: Seq<char>, i: int, j: int)
    requires
        0 <= i <= j <= s.len(),
    ensures
        digits_val(s.take(i)) <= digits_val(s.take(j)),
    decreases j - i,
{
    if i < j {
        lemma_digits_val_mono(s, i, j - 1);
        assert(s.take(j).drop_last() =~= s.take(j - 1));
        assert(digits_val(s.take(j)) == digits_val(s.take(j - 1)) * 10 + digit_of(s.take(j).last()));
    }
}

/// What `parse_u64` returns: the denoted number, when `s` is a non-empty
/// all-digit string whose value fits in a `u64`, and nothing otherwise.
pub open spec fn parse_u64_spec(s: Seq<char>) -> Option<u64> {
    if s.len() > 0 && all_digits(s) && digits_val(s) <= u64::MAX {
        Some(digits_val(s) as u64)
    } else {
        None
    }
}

pub fn parse_u64(s: &str) -> (r: Option<u64>)
    ensures
        r == parse_u64_spec(s@),
{
    let len: usize = s.unicode_len();
    if len == 0 {
        return None;
    }
    let mut v: u64 = 0;
    let mut i: usize = 0;
    while i < len
        invariant
            i <= len,
            len == s@.len(),
            all_digits(s@.take(i as int)),
            v == digits_val(s@.take(i as int)),
        decreases len - i,
    {
        let c = s.get_char(i);
        let cu: u32 = c as u32;
        if cu < 48 || cu > 57 {
            proof {
                assert(!is_digit(s@[i as int]));
            }
            return None;
        }
        let d: u64 = (cu - 48) as u64;
        if v > (u64::MAX - d) / 10 {
            proof {
                assert(v * 10 + d > u64::MAX) by (nonlinear_arith)
                    requires
                        v > (u64::MAX - d) / 10,
                        d <= u64::MAX,
                ;
                assert(s@.take(i + 1).drop_last() =~= s@.take(i as int));
                assert(digits_val(s@.take(i + 1)) == v * 10 + d);
                lemma_digits_val_mono(s@, i + 1, s@.len() as int);
                assert(s@.take(s@.len() as int) =~= s@);
                assert(digits_val(s@) > u64::MAX);
            }
            return None;
        }
        proof {
            assert(v * 10 + d <= u64::MAX) by (nonlinear_arith)
                requires
                    v <= (u64::MAX - d) / 10,
                    d <= 9,
            ;
            assert(s@.take(i + 1).drop_last() =~= s@.take(i as int));
            assert(digits_val(s@.take(i + 1)) == v * 10 + d);
        }
        v = v * 10 + d;
        i = i + 1;
    }
    proof {
        assert(s@.take(len as int) =~= s@);
    }
    Some(v)
}

/// Splitting always yields at least one (possibly empty) field.
pub proof fn lemma_split_len_pos(s: Seq<char>, d: char)
    ensures
        split_on(s, d).len() >= 1,
{
    let i = first_ix(s, d);
    if i < 0 || i >= s.len() {
        assert(split_on(s, d) == seq![s]);
    } else {
        assert(split_on(s, d) == seq![s.take(i)] + split_on(s.skip(i + 1), d));
    }
}

/// True when every character of `s` is a decimal digit.
pub fn str_all_digits(s: &str) -> (r: bool)
    ensures
        r == all_digits(s@),
{
    let len: usize = s.unicode_len();
    let mut i: usize = 0;
    while i < len
        invariant
            i <= len,
            len == s@.len(),
            forall|k: int| 0 <= k < i ==> is_digit(#[trigger] s@[k]),
        decreases len - i,
    {
        let cu: u32 = s.get_char(i) as u32;
        if cu < 48 || cu > 57 {
            proof {
                assert(!is_digit(s@[i as int]));
            }
            return false;
        }
        i = i + 1;
    }
    true
}

/// True when `pat` occurs as a contiguous run of characters in `s`.
pub open spec fn has_sub(s: Seq<char>, pat: Seq<char>) -> bool {
    exists|i: int| 0 <= i && i + pat.len() <= s.len() && #[trigger] s.subrange(i, i + pat.len())
        == pat
}

pub fn contains_sub(s: &str, pat: &str) -> (r: bool)
    ensures
        r == has_sub(s@, pat@),
{
    let n: usize = s.unicode_len();
    let m: usize = pat.unicode_len();
    if m > n {
        proof {
            assert(!has_sub(s@, pat@));
        }
        return false;
    }
    let mut i: usize = 0;
    while i <= n - m
        invariant
            m <= n,
            i <= n - m + 1,
            n == s@.len(),
            m == pat@.len(),
            forall|q: int|
                0 <= q < i ==> #[trigger] s@.subrange(q, q + pat@.len()) != pat@,
        decreases n - m + 1 - i,
    {
        let mut j: usize = 0;
        loop
            invariant_except_break
                i + m <= n,
                j <= m,
                n == s@.len(),
                m == pat@.len(),
                forall|k: int| 0 <= k < j ==> s@[i + k] == pat@[k],
            ensures
                j <= m,
                j == m ==> forall|k: int| 0 <= k < m ==> s@[i + k] == pat@[k],
                j < m ==> s@[i + j] != pat@[j as int],
            decreases m - j,
        {
            if j == m {
                break;
            }
            if s.get_char(i + j) != pat.get_char(j) {
                break;
            }
            j = j + 1;
        }
        if j == m {
            proof {
                assert(s@.subrange(i as int, i + pat@.len()) =~= pat@);
            }
            return true;
        }
        proof {
            assert(s@.subrange(i as int, i + pat@.len())[j as int] != pat@[j as int]);
            assert(s@.subrange(i as int, i + pat@.len()) != pat@);
        }
        i = i + 1;
    }
    proof {
        assert forall|q: int| 0 <= q && q + pat@.len() <= s@.len() implies #[trigger] s@.subrange(
            q,
            q + pat@.len(),
        ) != pat@ by {
            assert(q < i);
        }
    }
    false
}

/// True when `a` and `b` hold the same characters.
pub fn str_eq(a: &str, b: &str) -> (r: bool)
    ensures
        r == (a@ == b@),
{
    let la = a.unicode_len();
    let lb = b.unicode_len();
    if la != lb {
        proof {
            assert(a@ != b@);
        }
        return false;
    }
    let mut i: usize = 0;
    while i < la
        invariant
            i <= la,
            la == a@.len(),
            la == b@.len(),
            forall|k: int| 0 <= k < i ==> a@[k] == b@[k],
        decreases la - i,
    {
        if a.get_char(i) != b.get_char(i) {
            proof {
                assert(a@ != b@);
            }
            return false;
        }
        i = i + 1;
    }
    proof {
        assert(a@ =~= b@);
    }
    true
}

} // verus!
