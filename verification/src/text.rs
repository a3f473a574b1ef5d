//! Character-level text utilities: whitespace tokenization, line splitting,
//! decimal parsing, and substring search, each with an exact specification
//! over the `Seq<char>` view of the input.
use vstd::prelude::*;
use vstd::string::*;

verus! {

/// ASCII whitespace, the separators that occur in index files.
pub open spec fn is_space(c: char) -> bool {
    c == ' ' || c == '\t' || c == '\r' || c == '\n'
}

/// ASCII decimal digit.
pub open spec fn is_digit(c: char) -> bool {
    48 <= c as u32 && c as u32 <= 57
}

/// Numeric value of one decimal digit.
pub open spec fn digit_val(c: char) -> nat {
    (c as u32 - 48) as nat
}

/// Every character of `s` is a decimal digit.
pub open spec fn all_digits(s: Seq<char>) -> bool {
    forall|k: int| 0 <= k < s.len() ==> is_digit(#[trigger] s[k])
}

/// Value of `s` read as a decimal numeral.
pub open spec fn digits_val(s: Seq<char>) -> nat
    decreases s.len(),
{
    if s.len() == 0 {
        0
    } else {
        digits_val(s.drop_last()) * 10 + digit_val(s.last())
    }
}

/// The value of a numeral prefix never exceeds the value of the whole
/// numeral.
pub proof fn lemma_digits_val_take_le(s: Seq<char>, j: int)
    requires
        0 <= j <= s.len(),
    ensures
        digits_val(s.take(j)) <= digits_val(s),
    decreases s.len(),
{
    if j < s.len() {
        assert(s.drop_last().take(j) =~= s.take(j));
        lemma_digits_val_take_le(s.drop_last(), j);
    } else {
        assert(s.take(j) =~= s);
    }
}

/// First position at or after `i` holding a non-space character, or the end.
pub open spec fn spec_skip_ws(s: Seq<char>, i: int) -> int
    decreases s.len() - i
        when 0 <= i <= s.len()
{
    if i < s.len() && is_space(s[i]) {
        spec_skip_ws(s, i + 1)
    } else {
        i
    }
}

pub proof fn lemma_skip_ws_props(s: Seq<char>, i: int)
    requires
        0 <= i <= s.len(),
    ensures
        i <= spec_skip_ws(s, i) <= s.len(),
        spec_skip_ws(s, i) < s.len() ==> !is_space(s[spec_skip_ws(s, i)]),
    decreases s.len() - i,
{
    if i < s.len() && is_space(s[i]) {
        lemma_skip_ws_props(s, i + 1);
    }
}

/// First position at or after `i` holding a space character, or the end.
pub open spec fn spec_token_end(s: Seq<char>, i: int) -> int
    decreases s.len() - i
        when 0 <= i <= s.len()
{
    if i < s.len() && !is_space(s[i]) {
        spec_token_end(s, i + 1)
    } else {
        i
    }
}

pub proof fn lemma_token_end_props(s: Seq<char>, i: int)
    requires
        0 <= i <= s.len(),
    ensures
        i <= spec_token_end(s, i) <= s.len(),
        spec_token_end(s, i) < s.len() ==> is_space(s[spec_token_end(s, i)]),
    decreases s.len() - i,
{
    if i < s.len() && !is_space(s[i]) {
        lemma_token_end_props(s, i + 1);
    }
}

/// First `'\n'` at or after `i`, or the end.
pub open spec fn spec_find_newline(s: Seq<char>, i: int) -> int
    decreases s.len() - i
        when 0 <= i <= s.len()
{
    if i < s.len() && s[i] != '\n' {
        spec_find_newline(s, i + 1)
    } else {
        i
    }
}

pub proof fn lemma_find_newline_props(s: Seq<char>, i: int)
    requires
        0 <= i <= s.len(),
    ensures
        i <= spec_find_newline(s, i) <= s.len(),
        spec_find_newline(s, i) < s.len() ==> s[spec_find_newline(s, i)] == '\n',
    decreases s.len() - i,
{
    if i < s.len() && s[i] != '\n' {
        lemma_find_newline_props(s, i + 1);
    }
}

/// First `' '` at or after `i`, or the end.
pub open spec fn spec_find_space(s: Seq<char>, i: int) -> int
    decreases s.len() - i
        when 0 <= i <= s.len()
{
    if i < s.len() && s[i] != ' ' {
        spec_find_space(s, i + 1)
    } else {
        i
    }
}

/// The whitespace-separated tokens of `s`, in order, starting at `i`.
pub open spec fn spec_tokens_from(s: Seq<char>, i: int) -> Seq<Seq<char>>
    decreases s.len() - i
        when 0 <= i <= s.len()
{
    let j = spec_skip_ws(s, i);
    if j >= s.len() {
        Seq::empty()
    } else {
        let k = spec_token_end(s, j);
        proof {
            lemma_skip_ws_props(s, i);
            lemma_token_end_props(s, j);
        }
        seq![s.subrange(j, k)] + spec_tokens_from(s, k)
    }
}

/// The whitespace-separated tokens of the whole of `s`.
pub open spec fn spec_tokens(s: Seq<char>) -> Seq<Seq<char>> {
    spec_tokens_from(s, 0)
}

/// A line with one trailing carriage return removed.
pub open spec fn strip_cr(l: Seq<char>) -> Seq<char> {
    if l.len() > 0 && l.last() == '\r' {
        l.drop_last()
    } else {
        l
    }
}

/// The lines of `s` starting at `i`: split at `'\n'`, one trailing `'\r'`
/// removed from each piece, no empty piece after a final `'\n'`.
pub open spec fn spec_lines_from(s: Seq<char>, i: int) -> Seq<Seq<char>>
    decreases s.len() - i
        when 0 <= i <= s.len()
{
    if i >= s.len() {
        Seq::empty()
    } else {
        let j = spec_find_newline(s, i);
        proof {
            lemma_find_newline_props(s, i);
        }
        let line = strip_cr(s.subrange(i, j));
        if j >= s.len() {
            seq![line]
        } else {
            seq![line] + spec_lines_from(s, j + 1)
        }
    }
}

/// The lines of the whole of `s`, as `str::lines` yields them.
pub open spec fn spec_lines(s: Seq<char>) -> Seq<Seq<char>> {
    spec_lines_from(s, 0)
}

/// `n` occurs as a contiguous run of characters inside `h`.
pub open spec fn spec_contains(h: Seq<char>, n: Seq<char>) -> bool {
    exists|i: int| 0 <= i && i + n.len() <= h.len() && #[trigger] h.subrange(i, i + n.len()) == n
}

/// Executable test for [`is_digit`].
pub fn is_digit_char(c: char) -> (r: bool)
    ensures
        r == is_digit(c),
{
    let v: u32 = c as u32;
    48 <= v && v <= 57
}

/// Executable test for [`is_space`].
pub fn is_space_char(c: char) -> (r: bool)
    ensures
        r == is_space(c),
{
    c == ' ' || c == '\t' || c == '\r' || c == '\n'
}

/// Advances past ASCII whitespace, landing on [`spec_skip_ws`].
pub fn skip_ws_from(s: &str, i: usize) -> (j: usize)
    requires
        i <= s@.len(),
    ensures
        j == spec_skip_ws(s@, i as int),
        i <= j <= s@.len(),
{
    let n: usize = s.unicode_len();
    let mut j: usize = i;
    while j < n && is_space_char(s.get_char(j))
        invariant
            i <= j <= n,
            n == s@.len(),
            spec_skip_ws(s@, i as int) == spec_skip_ws(s@, j as int),
        decreases n - j,
    {
        j = j + 1;
    }
    j
}

/// Advances to the first `' '`, landing on [`spec_find_space`].
pub fn find_space_from(s: &str, i: usize) -> (j: usize)
    requires
        i <= s@.len(),
    ensures
        j == spec_find_space(s@, i as int),
        i <= j <= s@.len(),
{
    let n: usize = s.unicode_len();
    let mut j: usize = i;
    while j < n && s.get_char(j) != ' '
        invariant
            i <= j <= n,
            n == s@.len(),
            spec_find_space(s@, i as int) == spec_find_space(s@, j as int),
        decreases n - j,
    {
        j = j + 1;
    }
    j
}

/// Reads `s` as an unsigned decimal numeral.  Returns the value exactly when
/// `s` is non-empty, all digits, and the value fits in `usize`.
pub fn parse_usize(s: &str) -> (r: Option<usize>)
    ensures
        r is Some <==> (s@.len() > 0 && all_digits(s@) && digits_val(s@) <= usize::MAX),
        r is Some ==> r->0 == digits_val(s@),
{
    let n: usize = s.unicode_len();
    if n == 0 {
        return None;
    }
    let mut acc: usize = 0;
    let mut k: usize = 0;
    while k < n
        invariant
            k <= n,
            n == s@.len(),
            all_digits(s@.take(k as int)),
            acc == digits_val(s@.take(k as int)),
        decreases n - k,
    {
        let c = s.get_char(k);
        let v: u32 = c as u32;
        if v < 48 || v > 57 {
            assert(!all_digits(s@)) by {
                assert(!is_digit(s@[k as int]));
            }
            return None;
        }
        let d: usize = (v - 48) as usize;
        proof {
            assert(s@.take(k + 1).drop_last() =~= s@.take(k as int));
            assert(s@.take(k + 1).last() == s@[k as int]);
            assert(digits_val(s@.take(k + 1)) == acc * 10 + d);
        }
        let step = match acc.checked_mul(10) {
            Some(m) => m.checked_add(d),
            None => None,
        };
        match step {
            Some(t) => {
                acc = t;
            },
            None => {
                proof {
                    assert(digits_val(s@.take(k + 1)) > usize::MAX);
                    if all_digits(s@) {
                        lemma_digits_val_take_le(s@, k + 1);
                    }
                }
                return None;
            },
        }
        k = k + 1;
    }
    proof {
        assert(s@.take(n as int) =~= s@);
    }
    Some(acc)
}

/// Character-for-character equality of two string slices.
pub fn str_eq_str(a: &str, b: &str) -> (r: bool)
    ensures
        r == (a@ == b@),
{
    let an: usize = a.unicode_len();
    let bn: usize = b.unicode_len();
    if an != bn {
        return false;
    }
    let mut k: usize = 0;
    while k < an
        invariant
            k <= an,
            an == a@.len() && an == b@.len(),
            forall|m: int| 0 <= m < k ==> a@[m] == b@[m],
        decreases an - k,
    {
        if a.get_char(k) != b.get_char(k) {
            return false;
        }
        k = k + 1;
    }
    proof {
        assert(a@ =~= b@);
    }
    true
}

/// Whether `needle` matches `hay` starting at position `i`.
fn matches_at(hay: &str, i: usize, needle: &str) -> (r: bool)
    requires
        i + needle@.len() <= hay@.len(),
    ensures
        r == (hay@.subrange(i as int, i + needle@.len()) == needle@),
{
    let hn: usize = hay.unicode_len();
    let nn: usize = needle.unicode_len();
    let mut j: usize = 0;
    while j < nn
        invariant
            j <= nn,
            nn == needle@.len(),
            hn == hay@.len(),
            i + nn <= hn,
            forall|m: int| 0 <= m < j ==> hay@[i + m] == needle@[m],
        decreases nn - j,
    {
        if hay.get_char(i + j) != needle.get_char(j) {
            assert(hay@.subrange(i as int, i + needle@.len())[j as int] == hay@[i + j]);
            return false;
        }
        j = j + 1;
    }
    proof {
        assert(hay@.subrange(i as int, i + needle@.len()) =~= needle@);
    }
    true
}

/// Substring search: whether `needle` occurs anywhere inside `hay`.
pub fn str_contains(hay: &str, needle: &str) -> (r: bool)
    ensures
        r == spec_contains(hay@, needle@),
{
    let hn: usize = hay.unicode_len();
    let nn: usize = needle.unicode_len();
    if nn > hn {
        return false;
    }
    if nn == 0 {
        assert(spec_contains(hay@, needle@)) by {
            assert(hay@.subrange(0, 0 + needle@.len() as int) =~= needle@);
        }
        return true;
    }
    let mut i: usize = 0;
    while i < hn - nn + 1
        invariant
            1 <= nn <= hn,
            hn == hay@.len() && nn == needle@.len(),
            i <= hn - nn + 1,
            forall|p: int|
                0 <= p < i ==> #[trigger] hay@.subrange(p, p + needle@.len()) != needle@,
        decreases hn - i,
    {
        if matches_at(hay, i, needle) {
            return true;
        }
        i = i + 1;
    }
    false
}

/// Splits `s` at ASCII whitespace into its maximal non-space tokens.
pub fn split_whitespace_tokens(s: &str) -> (r: Vec<String>)
    ensures
        r@.map_values(|t: String| t@) == spec_tokens(s@),
{
    let n: usize = s.unicode_len();
    let mut out: Vec<String> = Vec::new();
    let mut i: usize = 0;
    while i < n
        invariant
            i <= n,
            n == s@.len(),
            spec_tokens(s@) == out@.map_values(|t: String| t@) + spec_tokens_from(s@, i as int),
        decreases n - i,
    {
        let mut j: usize = i;
        while j < n && is_space_char(s.get_char(j))
            invariant
                i <= j <= n,
                n == s@.len(),
                spec_skip_ws(s@, i as int) == spec_skip_ws(s@, j as int),
            decreases n - j,
        {
            j = j + 1;
        }
        assert(spec_skip_ws(s@, i as int) == j);
        if j == n {
            assert(spec_tokens_from(s@, i as int) =~= Seq::<Seq<char>>::empty());
            i = j;
        } else {
            let mut k: usize = j;
            while k < n && !is_space_char(s.get_char(k))
                invariant
                    j <= k <= n,
                    n == s@.len(),
                    spec_token_end(s@, j as int) == spec_token_end(s@, k as int),
                decreases n - k,
            {
                k = k + 1;
            }
            assert(spec_token_end(s@, j as int) == k);
            let tok = String::from_str(s.substring_char(j, k));
            proof {
                assert(spec_tokens_from(s@, i as int) == seq![s@.subrange(j as int, k as int)]
                    + spec_tokens_from(s@, k as int));
            }
            out.push(tok);
            proof {
                assert(out@.map_values(|t: String| t@) =~= out@.drop_last().map_values(
                    |t: String| t@,
                ).push(s@.subrange(j as int, k as int)));
            }
            i = k;
        }
    }
    proof {
        assert(spec_tokens_from(s@, n as int) =~= Seq::<Seq<char>>::empty());
        assert(out@.map_values(|t: String| t@) =~= spec_tokens(s@));
    }
    out
}

/// Splits `s` into lines as `str::lines` does.
pub fn split_lines(s: &str) -> (r: Vec<String>)
    ensures
        r@.map_values(|t: String| t@) == spec_lines(s@),
{
    let n: usize = s.unicode_len();
    let mut out: Vec<String> = Vec::new();
    let mut i: usize = 0;
    while i < n
        invariant
            i <= n,
            n == s@.len(),
            spec_lines(s@) == out@.map_values(|t: String| t@) + spec_lines_from(s@, i as int),
        decreases n - i,
    {
        let mut j: usize = i;
        while j < n && s.get_char(j) != '\n'
            invariant
                i <= j <= n,
                n == s@.len(),
                spec_find_newline(s@, i as int) == spec_find_newline(s@, j as int),
            decreases n - j,
        {
            j = j + 1;
        }
        assert(spec_find_newline(s@, i as int) == j);
        let line = if j > i && s.get_char(j - 1) == '\r' {
            String::from_str(s.substring_char(i, j - 1))
        } else {
            String::from_str(s.substring_char(i, j))
        };
        proof {
            assert(s@.subrange(i as int, j as int).len() == j - i);
            if j > i {
                assert(s@.subrange(i as int, j as int).last() == s@[j - 1]);
                assert(s@.subrange(i as int, j as int).drop_last() =~= s@.subrange(
                    i as int,
                    j - 1,
                ));
            }
            assert(line@ == strip_cr(s@.subrange(i as int, j as int)));
        }
        out.push(line);
        proof {
            assert(out@.map_values(|t: String| t@) =~= out@.drop_last().map_values(
                |t: String| t@,
            ).push(strip_cr(s@.subrange(i as int, j as int))));
        }
        if j == n {
            i = n;
        } else {
            i = j + 1;
        }
    }
    proof {
        assert(spec_lines_from(s@, n as int) =~= Seq::<Seq<char>>::empty());
        assert(out@.map_values(|t: String| t@) =~= spec_lines(s@));
    }
    out
}

} // verus!
