//! A verified scanner for the flat JSON objects that CDX metadata is written
//! in: one object whose values are double-quoted strings (without escape
//! sequences), unsigned decimal numbers, or `null`.
use vstd::prelude::*;
use vstd::string::*;

use crate::text::{
    all_digits, digits_val, is_digit, is_digit_char, parse_usize, skip_ws_from, spec_skip_ws,
    lemma_skip_ws_props,
};

verus! {

/// Why a metadata object was rejected by the scanner.
#[derive(Clone, Copy, Debug, PartialEq, Eq, Structural)]
pub enum JsonError {
    /// The text is not one object of string, number or `null` values.
    Syntax,
    /// A numeric value does not fit in `usize`.
    NumberTooLarge,
}

/// One JSON value of the restricted grammar.
pub enum JsonScalar {
    Text(String),
    Num(usize),
    Null,
}

/// Mathematical content of a [`JsonScalar`].
pub enum JsonScalarView {
    Text(Seq<char>),
    Num(nat),
    Null,
}

impl View for JsonScalar {
    type V = JsonScalarView;

    open spec fn view(&self) -> JsonScalarView {
        match self {
            JsonScalar::Text(s) => JsonScalarView::Text(s@),
            JsonScalar::Num(n) => JsonScalarView::Num(*n as nat),
            JsonScalar::Null => JsonScalarView::Null,
        }
    }
}

/// The key/value views of a member list.
pub open spec fn member_views(ms: Seq<(String, JsonScalar)>) -> Seq<(Seq<char>, JsonScalarView)> {
    ms.map_values(|m: (String, JsonScalar)| (m.0@, m.1@))
}

/// How many members of `ms` carry the key `k`.
pub open spec fn key_count(ms: Seq<(Seq<char>, JsonScalarView)>, k: Seq<char>) -> nat
    decreases ms.len(),
{
    if ms.len() == 0 {
        0
    } else {
        key_count(ms.drop_last(), k) + if ms.last().0 == k {
            1nat
        } else {
            0nat
        }
    }
}

/// The value of the first member of `ms` carrying the key `k`.
pub open spec fn spec_get(ms: Seq<(Seq<char>, JsonScalarView)>, k: Seq<char>) -> Option<
    JsonScalarView,
>
    decreases ms.len(),
{
    if ms.len() == 0 {
        None
    } else {
        match spec_get(ms.drop_last(), k) {
            Some(v) => Some(v),
            None => if ms.last().0 == k {
                Some(ms.last().1)
            } else {
                None
            },
        }
    }
}

/// A key occurs iff looking it up finds a value.
pub proof fn lemma_count_get(ms: Seq<(Seq<char>, JsonScalarView)>, k: Seq<char>)
    ensures
        (key_count(ms, k) > 0) <==> (spec_get(ms, k) is Some),
    decreases ms.len(),
{
    if ms.len() > 0 {
        lemma_count_get(ms.drop_last(), k);
    }
}

/// A copy of one scalar value, equal in content.
pub fn clone_scalar(v: &JsonScalar) -> (r: JsonScalar)
    ensures
        r@ == v@,
{
    match v {
        JsonScalar::Text(t) => JsonScalar::Text(t.clone()),
        JsonScalar::Num(n) => JsonScalar::Num(*n),
        JsonScalar::Null => JsonScalar::Null,
    }
}

/// Counts the members carrying `key` and hands back the first such value.
pub fn find_field(ms: &Vec<(String, JsonScalar)>, key: &str) -> (r: (usize, Option<JsonScalar>))
    ensures
        r.0 == key_count(member_views(ms@), key@),
        match spec_get(member_views(ms@), key@) {
            Some(v) => r.1 matches Some(x) && x@ == v,
            None => r.1 is None,
        },
{
    let ghost views = member_views(ms@);
    let n = ms.len();
    let mut count: usize = 0;
    let mut found: Option<JsonScalar> = None;
    proof {
        assert(views.take(0) =~= Seq::<(Seq<char>, JsonScalarView)>::empty());
    }
    let mut i: usize = 0;
    while i < n
        invariant
            i <= n,
            n == ms@.len(),
            views == member_views(ms@),
            count == key_count(views.take(i as int), key@),
            count <= i,
            match spec_get(views.take(i as int), key@) {
                Some(v) => found matches Some(x) && x@ == v,
                None => found is None,
            },
        decreases n - i,
    {
        proof {
            assert(views.take(i + 1).drop_last() =~= views.take(i as int));
            assert(views.take(i + 1).last() == views[i as int]);
            assert(views[i as int] == (ms@[i as int].0@, ms@[i as int].1@));
        }
        if crate::text::str_eq_str(ms[i].0.as_str(), key) {
            count = count + 1;
            if found.is_none() {
                found = Some(clone_scalar(&ms[i].1));
            }
        }
        i = i + 1;
    }
    proof {
        assert(views.take(n as int) =~= views);
    }
    (count, found)
}

/// First position at or after `i` that ends a string body: a quote, a
/// backslash, or the end of the text.
pub open spec fn spec_scan_string_end(s: Seq<char>, i: int) -> int
    decreases s.len() - i
        when 0 <= i <= s.len()
{
    if i < s.len() && s[i] != '"' && s[i] != '\\' {
        spec_scan_string_end(s, i + 1)
    } else {
        i
    }
}

pub proof fn lemma_scan_string_end_props(s: Seq<char>, i: int)
    requires
        0 <= i <= s.len(),
    ensures
        i <= spec_scan_string_end(s, i) <= s.len(),
    decreases s.len() - i,
{
    if i < s.len() && s[i] != '"' && s[i] != '\\' {
        lemma_scan_string_end_props(s, i + 1);
    }
}

/// First position at or after `i` holding a non-digit, or the end.
pub open spec fn spec_scan_digits_end(s: Seq<char>, i: int) -> int
    decreases s.len() - i
        when 0 <= i <= s.len()
{
    if i < s.len() && is_digit(s[i]) {
        spec_scan_digits_end(s, i + 1)
    } else {
        i
    }
}

pub proof fn lemma_scan_digits_end_props(s: Seq<char>, i: int)
    requires
        0 <= i <= s.len(),
    ensures
        i <= spec_scan_digits_end(s, i) <= s.len(),
        forall|m: int| i <= m < spec_scan_digits_end(s, i) ==> is_digit(#[trigger] s[m]),
    decreases s.len() - i,
{
    if i < s.len() && is_digit(s[i]) {
        lemma_scan_digits_end_props(s, i + 1);
    }
}

/// What parsing one scalar value at `i` (after optional whitespace) yields,
/// together with the position just past it.
pub open spec fn spec_parse_scalar(s: Seq<char>, i: int) -> Result<(JsonScalarView, int), JsonError> {
    let j = spec_skip_ws(s, i);
    if j >= s.len() {
        Err(JsonError::Syntax)
    } else if s[j] == '"' {
        let k = spec_scan_string_end(s, j + 1);
        if k < s.len() && s[k] == '"' {
            Ok((JsonScalarView::Text(s.subrange(j + 1, k)), k + 1))
        } else {
            Err(JsonError::Syntax)
        }
    } else if is_digit(s[j]) {
        let k = spec_scan_digits_end(s, j);
        let t = s.subrange(j, k);
        if digits_val(t) <= usize::MAX {
            Ok((JsonScalarView::Num(digits_val(t)), k))
        } else {
            Err(JsonError::NumberTooLarge)
        }
    } else if s[j] == 'n' {
        if j + 4 <= s.len() && s[j + 1] == 'u' && s[j + 2] == 'l' && s[j + 3] == 'l' {
            Ok((JsonScalarView::Null, j + 4))
        } else {
            Err(JsonError::Syntax)
        }
    } else {
        Err(JsonError::Syntax)
    }
}

/// A parsed scalar always ends strictly past where it began, within the text.
pub proof fn lemma_parse_scalar_bounds(s: Seq<char>, i: int)
    requires
        0 <= i <= s.len(),
    ensures
        spec_parse_scalar(s, i) matches Ok(vp) ==> i < vp.1 <= s.len(),
{
    lemma_skip_ws_props(s, i);
    let j = spec_skip_ws(s, i);
    if j < s.len() {
        if s[j] == '"' {
            lemma_scan_string_end_props(s, j + 1);
        } else if is_digit(s[j]) {
            assert(spec_scan_digits_end(s, j) == spec_scan_digits_end(s, j + 1));
            lemma_scan_digits_end_props(s, j + 1);
        }
    }
}

/// A parsed member list always ends strictly past where it began, within
/// the text.
pub proof fn lemma_parse_members_bounds(s: Seq<char>, i: int)
    requires
        0 <= i <= s.len(),
    ensures
        spec_parse_members(s, i) matches Ok(mp) ==> i < mp.1 <= s.len(),
    decreases s.len() - i,
{
    lemma_skip_ws_props(s, i);
    let j = spec_skip_ws(s, i);
    if j < s.len() && s[j] == '"' {
        lemma_scan_string_end_props(s, j + 1);
        let k = spec_scan_string_end(s, j + 1);
        if k < s.len() && s[k] == '"' {
            lemma_skip_ws_props(s, k + 1);
            let c = spec_skip_ws(s, k + 1);
            if c < s.len() && s[c] == ':' {
                lemma_parse_scalar_bounds(s, c + 1);
                if spec_parse_scalar(s, c + 1) is Ok {
                    let p = spec_parse_scalar(s, c + 1)->Ok_0.1;
                    lemma_skip_ws_props(s, p);
                    let q = spec_skip_ws(s, p);
                    if q < s.len() && s[q] == ',' {
                        lemma_parse_members_bounds(s, q + 1);
                    }
                }
            }
        }
    }
}

/// What parsing the members of an object yields, starting just after `{` or
/// after a `,`: the members in textual order and the position just past the
/// closing `}`.
pub open spec fn spec_parse_members(s: Seq<char>, i: int) -> Result<
    (Seq<(Seq<char>, JsonScalarView)>, int),
    JsonError,
>
    decreases s.len() - i
        when 0 <= i <= s.len()
{
    let j = spec_skip_ws(s, i);
    if j >= s.len() || s[j] != '"' {
        Err(JsonError::Syntax)
    } else {
        let k = spec_scan_string_end(s, j + 1);
        if !(k < s.len() && s[k] == '"') {
            Err(JsonError::Syntax)
        } else {
            let key = s.subrange(j + 1, k);
            let c = spec_skip_ws(s, k + 1);
            if c >= s.len() || s[c] != ':' {
                Err(JsonError::Syntax)
            } else {
                match spec_parse_scalar(s, c + 1) {
                    Err(e) => Err(e),
                    Ok((v, p)) => {
                        let q = spec_skip_ws(s, p);
                        if q >= s.len() {
                            Err(JsonError::Syntax)
                        } else if s[q] == '}' {
                            Ok((seq![(key, v)], q + 1))
                        } else if s[q] == ',' {
                            proof {
                                lemma_skip_ws_props(s, i);
                                lemma_scan_string_end_props(s, j + 1);
                                lemma_skip_ws_props(s, k + 1);
                                lemma_parse_scalar_bounds(s, c + 1);
                                lemma_skip_ws_props(s, p);
                            }
                            match spec_parse_members(s, q + 1) {
                                Err(e) => Err(e),
                                Ok((rest, e2)) => Ok((seq![(key, v)] + rest, e2)),
                            }
                        } else {
                            Err(JsonError::Syntax)
                        }
                    },
                }
            }
        }
    }
}

/// What parsing one whole object at `i` yields: its members and the position
/// just past the closing `}`.
pub open spec fn spec_parse_object(s: Seq<char>, i: int) -> Result<
    (Seq<(Seq<char>, JsonScalarView)>, int),
    JsonError,
> {
    let j = spec_skip_ws(s, i);
    if j >= s.len() || s[j] != '{' {
        Err(JsonError::Syntax)
    } else {
        let q = spec_skip_ws(s, j + 1);
        if q < s.len() && s[q] == '}' {
            Ok((Seq::empty(), q + 1))
        } else {
            spec_parse_members(s, j + 1)
        }
    }
}

/// What parsing `s` as one object with nothing but whitespace after it
/// yields.
pub open spec fn spec_parse_json(s: Seq<char>) -> Result<
    Seq<(Seq<char>, JsonScalarView)>,
    JsonError,
> {
    match spec_parse_object(s, 0) {
        Err(e) => Err(e),
        Ok((ms, p)) => if spec_skip_ws(s, p) >= s.len() {
            Ok(ms)
        } else {
            Err(JsonError::Syntax)
        },
    }
}

/// Advances to the end of a string body, landing on [`spec_scan_string_end`].
fn scan_string_end(s: &str, i: usize) -> (j: usize)
    requires
        i <= s@.len(),
    ensures
        j == spec_scan_string_end(s@, i as int),
        i <= j <= s@.len(),
{
    let n: usize = s.unicode_len();
    let mut j: usize = i;
    while j < n && s.get_char(j) != '"' && s.get_char(j) != '\\'
        invariant
            i <= j <= n,
            n == s@.len(),
            spec_scan_string_end(s@, i as int) == spec_scan_string_end(s@, j as int),
        decreases n - j,
    {
        j = j + 1;
    }
    j
}

/// Advances past decimal digits, landing on [`spec_scan_digits_end`].
fn scan_digits_end(s: &str, i: usize) -> (j: usize)
    requires
        i <= s@.len(),
    ensures
        j == spec_scan_digits_end(s@, i as int),
        i <= j <= s@.len(),
{
    let n: usize = s.unicode_len();
    let mut j: usize = i;
    while j < n && is_digit_char(s.get_char(j))
        invariant
            i <= j <= n,
            n == s@.len(),
            spec_scan_digits_end(s@, i as int) == spec_scan_digits_end(s@, j as int),
        decreases n - j,
    {
        j = j + 1;
    }
    j
}

/// Parses one scalar value at `i`, as [`spec_parse_scalar`] describes.
fn parse_scalar(s: &str, i: usize) -> (r: Result<(JsonScalar, usize), JsonError>)
    requires
        i <= s@.len(),
    ensures
        match spec_parse_scalar(s@, i as int) {
            Ok(vp) => r matches Ok(rv) && rv.0@ == vp.0 && rv.1 == vp.1,
            Err(e) => r matches Err(e2) && e2 == e,
        },
{
    let n: usize = s.unicode_len();
    let j = skip_ws_from(s, i);
    if j == n {
        return Err(JsonError::Syntax);
    }
    let c = s.get_char(j);
    if c == '"' {
        let k = scan_string_end(s, j + 1);
        if k < n && s.get_char(k) == '"' {
            let content = String::from_str(s.substring_char(j + 1, k));
            Ok((JsonScalar::Text(content), k + 1))
        } else {
            Err(JsonError::Syntax)
        }
    } else if 48 <= (c as u32) && (c as u32) <= 57 {
        let k = scan_digits_end(s, j);
        proof {
            assert(is_digit(s@[j as int]));
            assert(spec_scan_digits_end(s@, j as int) == spec_scan_digits_end(s@, j + 1));
            lemma_scan_digits_end_props(s@, j + 1);
            lemma_scan_digits_end_props(s@, j as int);
            assert(all_digits(s@.subrange(j as int, k as int)));
            assert(s@.subrange(j as int, k as int).len() > 0);
        }
        match parse_usize(s.substring_char(j, k)) {
            Some(v) => Ok((JsonScalar::Num(v), k)),
            None => Err(JsonError::NumberTooLarge),
        }
    } else if c == 'n' {
        if n - j >= 4 && s.get_char(j + 1) == 'u' && s.get_char(j + 2) == 'l' && s.get_char(j + 3)
            == 'l' {
            Ok((JsonScalar::Null, j + 4))
        } else {
            Err(JsonError::Syntax)
        }
    } else {
        Err(JsonError::Syntax)
    }
}

/// Parses the members of an object, as [`spec_parse_members`] describes.
fn parse_members(s: &str, i: usize) -> (r: Result<(Vec<(String, JsonScalar)>, usize), JsonError>)
    requires
        i <= s@.len(),
    ensures
        match spec_parse_members(s@, i as int) {
            Ok(mp) => r matches Ok(rv) && member_views(rv.0@) == mp.0 && rv.1 == mp.1,
            Err(e) => r matches Err(e2) && e2 == e,
        },
    decreases s@.len() - i,
{
    let n: usize = s.unicode_len();
    let j = skip_ws_from(s, i);
    if j == n || s.get_char(j) != '"' {
        return Err(JsonError::Syntax);
    }
    let k = scan_string_end(s, j + 1);
    if !(k < n && s.get_char(k) == '"') {
        return Err(JsonError::Syntax);
    }
    let key = String::from_str(s.substring_char(j + 1, k));
    let c = skip_ws_from(s, k + 1);
    if c == n || s.get_char(c) != ':' {
        return Err(JsonError::Syntax);
    }
    let (v, p) = match parse_scalar(s, c + 1) {
        Ok(vp) => vp,
        Err(e) => {
            return Err(e);
        },
    };
    proof {
        lemma_parse_scalar_bounds(s@, c + 1);
    }
    let q = skip_ws_from(s, p);
    if q == n {
        Err(JsonError::Syntax)
    } else if s.get_char(q) == '}' {
        let mut items: Vec<(String, JsonScalar)> = Vec::new();
        items.push((key, v));
        proof {
            assert(member_views(items@) =~= seq![(items@[0].0@, items@[0].1@)]);
        }
        Ok((items, q + 1))
    } else if s.get_char(q) == ',' {
        let (mut rest, e2) = match parse_members(s, q + 1) {
            Ok(rv) => rv,
            Err(e) => {
                return Err(e);
            },
        };
        let ghost rest_views = member_views(rest@);
        let mut items: Vec<(String, JsonScalar)> = Vec::new();
        items.push((key, v));
        let ghost head = (items@[0].0@, items@[0].1@);
        items.append(&mut rest);
        proof {
            assert(member_views(items@) =~= seq![head] + rest_views);
        }
        Ok((items, e2))
    } else {
        Err(JsonError::Syntax)
    }
}

/// Parses `s` as one flat JSON object, yielding its members in textual
/// order, exactly as [`spec_parse_json`] describes.
pub fn parse_json(s: &str) -> (r: Result<Vec<(String, JsonScalar)>, JsonError>)
    ensures
        match spec_parse_json(s@) {
            Ok(ms) => r matches Ok(rv) && member_views(rv@) == ms,
            Err(e) => r matches Err(e2) && e2 == e,
        },
{
    let n: usize = s.unicode_len();
    let j = skip_ws_from(s, 0);
    if j == n || s.get_char(j) != '{' {
        return Err(JsonError::Syntax);
    }
    let q = skip_ws_from(s, j + 1);
    let (ms, p) = if q < n && s.get_char(q) == '}' {
        (Vec::new(), q + 1)
    } else {
        match parse_members(s, j + 1) {
            Ok(rv) => {
                proof {
                    lemma_parse_members_bounds(s@, j + 1);
                }
                rv
            },
            Err(e) => {
                return Err(e);
            },
        }
    };
    proof {
        if q < n && s@[q as int] == '}' {
            assert(member_views(Seq::empty()) =~= Seq::<(Seq<char>, JsonScalarView)>::empty());
        }
    }
    let t = skip_ws_from(s, p);
    if t == n {
        Ok(ms)
    } else {
        Err(JsonError::Syntax)
    }
}

} // verus!
