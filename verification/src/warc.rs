//! A verified parser for WARC-style archive buffers: a sequence of records,
//! each a `WARC/…` version line, header lines up to an empty line, a body of
//! `Content-Length` bytes, and a closing double CRLF.  Header names are
//! matched exactly as the crawl writes them.
use vstd::prelude::*;

verus! {

/// Why an archive buffer was rejected: a record that does not follow the
/// framing above is fatal for the whole buffer.
#[derive(Clone, Copy, Debug, PartialEq, Eq, Structural)]
pub enum WarcError {
    Malformed,
}

/// One archive record: its type, its target URI when present, and its raw
/// body bytes.
#[derive(Debug)]
pub struct ArchiveRecord {
    pub record_type: Vec<u8>,
    pub target_uri: Option<Vec<u8>>,
    pub body: Vec<u8>,
}

/// Mathematical content of an [`ArchiveRecord`].
pub struct ArchiveRecordView {
    pub record_type: Seq<u8>,
    pub target_uri: Option<Seq<u8>>,
    pub body: Seq<u8>,
}

impl View for ArchiveRecord {
    type V = ArchiveRecordView;

    open spec fn view(&self) -> ArchiveRecordView {
        ArchiveRecordView {
            record_type: self.record_type@,
            target_uri: match self.target_uri {
                Some(u) => Some(u@),
                None => None,
            },
            body: self.body@,
        }
    }
}

/// The views of a sequence of records.
pub open spec fn record_views(s: Seq<ArchiveRecord>) -> Seq<ArchiveRecordView> {
    s.map_values(|r: ArchiveRecord| r@)
}

/// ASCII decimal digit, as a byte.
pub open spec fn is_digit_b(b: u8) -> bool {
    48 <= b && b <= 57
}

/// Every byte of `s` is a decimal digit.
pub open spec fn all_digits_b(s: Seq<u8>) -> bool {
    forall|k: int| 0 <= k < s.len() ==> is_digit_b(#[trigger] s[k])
}

/// Value of `s` read as a decimal numeral of bytes.
pub open spec fn digits_val_b(s: Seq<u8>) -> nat
    decreases s.len(),
{
    if s.len() == 0 {
        0
    } else {
        digits_val_b(s.drop_last()) * 10 + (s.last() - 48) as nat
    }
}

/// The value of a numeral prefix never exceeds the value of the whole
/// numeral.
pub proof fn lemma_digits_val_b_take_le(s: Seq<u8>, j: int)
    requires
        0 <= j <= s.len(),
        all_digits_b(s),
    ensures
        digits_val_b(s.take(j)) <= digits_val_b(s),
    decreases s.len(),
{
    if j < s.len() {
        assert(s.drop_last().take(j) =~= s.take(j));
        lemma_digits_val_b_take_le(s.drop_last(), j);
    } else {
        assert(s.take(j) =~= s);
    }
}

/// First carriage return at or after `i`, or the end.
pub open spec fn spec_find_cr(s: Seq<u8>, i: int) -> int
    decreases s.len() - i
        when 0 <= i <= s.len()
{
    if i < s.len() && s[i] != 13 {
        spec_find_cr(s, i + 1)
    } else {
        i
    }
}

pub proof fn lemma_find_cr_props(s: Seq<u8>, i: int)
    requires
        0 <= i <= s.len(),
    ensures
        i <= spec_find_cr(s, i) <= s.len(),
        spec_find_cr(s, i) < s.len() ==> s[spec_find_cr(s, i)] == 13,
    decreases s.len() - i,
{
    if i < s.len() && s[i] != 13 {
        lemma_find_cr_props(s, i + 1);
    }
}

/// First colon at or after `i`, or the end.
pub open spec fn spec_find_colon(s: Seq<u8>, i: int) -> int
    decreases s.len() - i
        when 0 <= i <= s.len()
{
    if i < s.len() && s[i] != 58 {
        spec_find_colon(s, i + 1)
    } else {
        i
    }
}

pub proof fn lemma_find_colon_props(s: Seq<u8>, i: int)
    requires
        0 <= i <= s.len(),
    ensures
        i <= spec_find_colon(s, i) <= s.len(),
    decreases s.len() - i,
{
    if i < s.len() && s[i] != 58 {
        lemma_find_colon_props(s, i + 1);
    }
}

/// First position at or after `i` holding neither a space nor a tab, or the
/// end.
pub open spec fn spec_skip_sp(s: Seq<u8>, i: int) -> int
    decreases s.len() - i
        when 0 <= i <= s.len()
{
    if i < s.len() && (s[i] == 32 || s[i] == 9) {
        spec_skip_sp(s, i + 1)
    } else {
        i
    }
}

pub proof fn lemma_skip_sp_props(s: Seq<u8>, i: int)
    requires
        0 <= i <= s.len(),
    ensures
        i <= spec_skip_sp(s, i) <= s.len(),
    decreases s.len() - i,
{
    if i < s.len() && (s[i] == 32 || s[i] == 9) {
        lemma_skip_sp_props(s, i + 1);
    }
}

/// The header name `Content-Length`.
pub open spec fn content_length_name() -> Seq<u8> {
    seq![67u8, 111u8, 110u8, 116u8, 101u8, 110u8, 116u8, 45u8, 76u8, 101u8, 110u8, 103u8, 116u8, 104u8]
}

/// The header name `WARC-Type`.
pub open spec fn warc_type_name() -> Seq<u8> {
    seq![87u8, 65u8, 82u8, 67u8, 45u8, 84u8, 121u8, 112u8, 101u8]
}

/// The header name `WARC-Target-URI`.
pub open spec fn warc_target_uri_name() -> Seq<u8> {
    seq![87u8, 65u8, 82u8, 67u8, 45u8, 84u8, 97u8, 114u8, 103u8, 101u8, 116u8, 45u8, 85u8, 82u8, 73u8]
}

/// The value of the first header of `hs` carrying the name `k`.
pub open spec fn spec_header_get(hs: Seq<(Seq<u8>, Seq<u8>)>, k: Seq<u8>) -> Option<Seq<u8>>
    decreases hs.len(),
{
    if hs.len() == 0 {
        None
    } else {
        match spec_header_get(hs.drop_last(), k) {
            Some(v) => Some(v),
            None => if hs.last().0 == k {
                Some(hs.last().1)
            } else {
                None
            },
        }
    }
}

/// What parsing the header block at `i` yields: the headers in order and
/// the position just past the empty line that ends them.  Each header line
/// is `name: value` followed by CRLF; spaces and tabs after the colon are
/// not part of the value.
pub open spec fn spec_parse_headers(s: Seq<u8>, i: int) -> Option<(Seq<(Seq<u8>, Seq<u8>)>, int)>
    decreases s.len() - i
        when 0 <= i <= s.len()
{
    if i + 2 <= s.len() && s[i] == 13 && s[i + 1] == 10 {
        Some((Seq::empty(), i + 2))
    } else {
        let c = spec_find_colon(s, i);
        let r = spec_find_cr(s, i);
        if !(c < r && r + 1 < s.len() && s[r + 1] == 10) {
            None
        } else {
            let name = s.subrange(i, c);
            proof {
                lemma_find_colon_props(s, i);
                lemma_find_cr_props(s, i);
                lemma_skip_sp_props(s, c + 1);
            }
            let v = spec_skip_sp(s, c + 1);
            let vstart = if v <= r {
                v
            } else {
                r
            };
            let value = s.subrange(vstart, r);
            match spec_parse_headers(s, r + 2) {
                None => None,
                Some((rest, e)) => Some((seq![(name, value)] + rest, e)),
            }
        }
    }
}

/// A parsed header block ends strictly past where it began, within the
/// text.
pub proof fn lemma_parse_headers_bounds(s: Seq<u8>, i: int)
    requires
        0 <= i <= s.len(),
    ensures
        spec_parse_headers(s, i) matches Some(he) ==> i < he.1 <= s.len(),
    decreases s.len() - i,
{
    if !(i + 2 <= s.len() && s[i] == 13 && s[i + 1] == 10) {
        let c = spec_find_colon(s, i);
        let r = spec_find_cr(s, i);
        lemma_find_colon_props(s, i);
        lemma_find_cr_props(s, i);
        if c < r && r + 1 < s.len() && s[r + 1] == 10 {
            lemma_parse_headers_bounds(s, r + 2);
        }
    }
}

/// What parsing one record at `i` yields: the record and the position just
/// past its closing double CRLF.  A record must carry a `WARC/` version
/// line, a numeric `Content-Length`, and a `WARC-Type` header.
pub open spec fn spec_parse_record(s: Seq<u8>, i: int) -> Option<(ArchiveRecordView, int)> {
    let r = spec_find_cr(s, i);
    if !(r + 1 < s.len() && s[r + 1] == 10) {
        None
    } else if !(i + 5 <= r && s[i] == 87 && s[i + 1] == 65 && s[i + 2] == 82 && s[i + 3] == 67
        && s[i + 4] == 47) {
        None
    } else {
        match spec_parse_headers(s, r + 2) {
            None => None,
            Some((hs, b)) => match spec_header_get(hs, content_length_name()) {
                None => None,
                Some(clv) => if !(clv.len() > 0 && all_digits_b(clv) && digits_val_b(clv)
                    <= usize::MAX) {
                    None
                } else {
                    let cl = digits_val_b(clv) as int;
                    if !(b + cl + 4 <= s.len() && s[b + cl] == 13 && s[b + cl + 1] == 10 && s[b + cl
                        + 2] == 13 && s[b + cl + 3] == 10) {
                        None
                    } else {
                        match spec_header_get(hs, warc_type_name()) {
                            None => None,
                            Some(t) => Some(
                                (
                                    ArchiveRecordView {
                                        record_type: t,
                                        target_uri: spec_header_get(hs, warc_target_uri_name()),
                                        body: s.subrange(b, b + cl),
                                    },
                                    b + cl + 4,
                                ),
                            ),
                        }
                    }
                },
            },
        }
    }
}

/// A parsed record ends strictly past where it began, within the text.
pub proof fn lemma_parse_record_bounds(s: Seq<u8>, i: int)
    requires
        0 <= i <= s.len(),
    ensures
        spec_parse_record(s, i) matches Some(re) ==> i < re.1 <= s.len(),
{
    lemma_find_cr_props(s, i);
    let r = spec_find_cr(s, i);
    if r + 1 < s.len() && s[r + 1] == 10 {
        lemma_parse_headers_bounds(s, r + 2);
    }
}

/// What parsing the whole buffer from `i` yields: all records in order, or
/// nothing if any record is malformed.
pub open spec fn spec_parse_records(s: Seq<u8>, i: int) -> Option<Seq<ArchiveRecordView>>
    decreases s.len() - i
        when 0 <= i <= s.len()
{
    if i >= s.len() {
        Some(Seq::empty())
    } else {
        match spec_parse_record(s, i) {
            None => None,
            Some((rec, j)) => {
                proof {
                    lemma_parse_record_bounds(s, i);
                }
                match spec_parse_records(s, j) {
                    None => None,
                    Some(rest) => Some(seq![rec] + rest),
                }
            },
        }
    }
}

/// The views of a header list.
pub open spec fn header_views(hs: Seq<(Vec<u8>, Vec<u8>)>) -> Seq<(Seq<u8>, Seq<u8>)> {
    hs.map_values(|h: (Vec<u8>, Vec<u8>)| (h.0@, h.1@))
}

/// The header names the parser reads.
pub enum HeaderName {
    ContentLength,
    WarcType,
    TargetUri,
}

/// The byte spelling of a header name.
pub open spec fn name_seq(h: HeaderName) -> Seq<u8> {
    match h {
        HeaderName::ContentLength => content_length_name(),
        HeaderName::WarcType => warc_type_name(),
        HeaderName::TargetUri => warc_target_uri_name(),
    }
}

/// Executable match of a header name against one of the known spellings.
fn name_matches(name: &Vec<u8>, h: &HeaderName) -> (r: bool)
    ensures
        r == (name@ == name_seq(*h)),
{
    match h {
        HeaderName::ContentLength => {
            let r = name.len() == 14 && name[0] == 67 && name[1] == 111 && name[2] == 110
                && name[3] == 116 && name[4] == 101 && name[5] == 110 && name[6] == 116 && name[7]
                == 45 && name[8] == 76 && name[9] == 101 && name[10] == 110 && name[11] == 103
                && name[12] == 116 && name[13] == 104;
            proof {
                if r {
                    assert(name@ =~= content_length_name());
                }
            }
            r
        },
        HeaderName::WarcType => {
            let r = name.len() == 9 && name[0] == 87 && name[1] == 65 && name[2] == 82 && name[3]
                == 67 && name[4] == 45 && name[5] == 84 && name[6] == 121 && name[7] == 112
                && name[8] == 101;
            proof {
                if r {
                    assert(name@ =~= warc_type_name());
                }
            }
            r
        },
        HeaderName::TargetUri => {
            let r = name.len() == 15 && name[0] == 87 && name[1] == 65 && name[2] == 82 && name[3]
                == 67 && name[4] == 45 && name[5] == 84 && name[6] == 97 && name[7] == 114
                && name[8] == 103 && name[9] == 101 && name[10] == 116 && name[11] == 45
                && name[12] == 85 && name[13] == 82 && name[14] == 73;
            proof {
                if r {
                    assert(name@ =~= warc_target_uri_name());
                }
            }
            r
        },
    }
}

/// A copy of the byte range `a..b` of the buffer.
pub fn copy_range(buf: &Vec<u8>, a: usize, b: usize) -> (r: Vec<u8>)
    requires
        a <= b <= buf@.len(),
    ensures
        r@ == buf@.subrange(a as int, b as int),
{
    let mut out: Vec<u8> = Vec::new();
    let mut k: usize = a;
    while k < b
        invariant
            a <= k <= b <= buf@.len(),
            out@ == buf@.subrange(a as int, k as int),
        decreases b - k,
    {
        out.push(buf[k]);
        proof {
            assert(out@ =~= buf@.subrange(a as int, k + 1));
        }
        k = k + 1;
    }
    proof {
        assert(out@ =~= buf@.subrange(a as int, b as int));
    }
    out
}

/// Reads a byte vector as an unsigned decimal numeral.
fn parse_usize_bytes(v: &Vec<u8>) -> (r: Option<usize>)
    ensures
        r is Some <==> (v@.len() > 0 && all_digits_b(v@) && digits_val_b(v@) <= usize::MAX),
        r is Some ==> r->0 == digits_val_b(v@),
{
    let n = v.len();
    if n == 0 {
        return None;
    }
    let mut acc: usize = 0;
    let mut k: usize = 0;
    while k < n
        invariant
            k <= n,
            n == v@.len(),
            all_digits_b(v@.take(k as int)),
            acc == digits_val_b(v@.take(k as int)),
        decreases n - k,
    {
        let b = v[k];
        if b < 48 || b > 57 {
            assert(!all_digits_b(v@)) by {
                assert(!is_digit_b(v@[k as int]));
            }
            return None;
        }
        let d: usize = (b - 48) as usize;
        proof {
            assert(v@.take(k + 1).drop_last() =~= v@.take(k as int));
            assert(v@.take(k + 1).last() == v@[k as int]);
            assert(digits_val_b(v@.take(k + 1)) == acc * 10 + d);
        }
        let step = match acc.checked_mul(10) {
            Some(m) => m.checked_add(d),
            None => None,
        };
        match step {
            Some(t) => {
                acc = t;
            },
            None => {
                proof {
                    assert(digits_val_b(v@.take(k + 1)) > usize::MAX);
                    if all_digits_b(v@) {
                        lemma_digits_val_b_take_le(v@, k + 1);
                    }
                }
                return None;
            },
        }
        k = k + 1;
    }
    proof {
        assert(v@.take(n as int) =~= v@);
    }
    Some(acc)
}

/// Looks up a header by name and hands back a copy of its value, as
/// [`spec_header_get`] describes.
fn header_get(hs: &Vec<(Vec<u8>, Vec<u8>)>, h: HeaderName) -> (r: Option<Vec<u8>>)
    ensures
        match spec_header_get(header_views(hs@), name_seq(h)) {
            Some(v) => r matches Some(x) && x@ == v,
            None => r is None,
        },
{
    let ghost views = header_views(hs@);
    let n = hs.len();
    let mut found: Option<Vec<u8>> = None;
    proof {
        assert(views.take(0) =~= Seq::<(Seq<u8>, Seq<u8>)>::empty());
    }
    let mut i: usize = 0;
    while i < n
        invariant
            i <= n,
            n == hs@.len(),
            views == header_views(hs@),
            match spec_header_get(views.take(i as int), name_seq(h)) {
                Some(v) => found matches Some(x) && x@ == v,
                None => found is None,
            },
        decreases n - i,
    {
        proof {
            assert(views.take(i + 1).drop_last() =~= views.take(i as int));
            assert(views.take(i + 1).last() == views[i as int]);
            assert(views[i as int] == (hs@[i as int].0@, hs@[i as int].1@));
        }
        if found.is_none() && name_matches(&hs[i].0, &h) {
            let value = copy_range(&hs[i].1, 0, hs[i].1.len());
            proof {
                let hv = hs@[i as int].1@;
                assert(hv.subrange(0, hv.len() as int) =~= hv);
            }
            found = Some(value);
        }
        i = i + 1;
    }
    proof {
        assert(views.take(n as int) =~= views);
    }
    found
}

/// Advances to the first carriage return, landing on [`spec_find_cr`].
fn find_cr(buf: &Vec<u8>, i: usize) -> (j: usize)
    requires
        i <= buf@.len(),
    ensures
        j == spec_find_cr(buf@, i as int),
        i <= j <= buf@.len(),
{
    let n = buf.len();
    let mut j: usize = i;
    while j < n && buf[j] != 13
        invariant
            i <= j <= n,
            n == buf@.len(),
            spec_find_cr(buf@, i as int) == spec_find_cr(buf@, j as int),
        decreases n - j,
    {
        j = j + 1;
    }
    j
}

/// Advances to the first colon, landing on [`spec_find_colon`].
fn find_colon(buf: &Vec<u8>, i: usize) -> (j: usize)
    requires
        i <= buf@.len(),
    ensures
        j == spec_find_colon(buf@, i as int),
        i <= j <= buf@.len(),
{
    let n = buf.len();
    let mut j: usize = i;
    while j < n && buf[j] != 58
        invariant
            i <= j <= n,
            n == buf@.len(),
            spec_find_colon(buf@, i as int) == spec_find_colon(buf@, j as int),
        decreases n - j,
    {
        j = j + 1;
    }
    j
}

/// Advances past spaces and tabs, landing on [`spec_skip_sp`].
fn skip_sp(buf: &Vec<u8>, i: usize) -> (j: usize)
    requires
        i <= buf@.len(),
    ensures
        j == spec_skip_sp(buf@, i as int),
        i <= j <= buf@.len(),
{
    let n = buf.len();
    let mut j: usize = i;
    while j < n && (buf[j] == 32 || buf[j] == 9)
        invariant
            i <= j <= n,
            n == buf@.len(),
            spec_skip_sp(buf@, i as int) == spec_skip_sp(buf@, j as int),
        decreases n - j,
    {
        j = j + 1;
    }
    j
}

/// Parses the header block at `i`, as [`spec_parse_headers`] describes.
fn parse_headers(buf: &Vec<u8>, i: usize) -> (r: Result<(Vec<(Vec<u8>, Vec<u8>)>, usize), WarcError>)
    requires
        i <= buf@.len(),
    ensures
        match spec_parse_headers(buf@, i as int) {
            Some(he) => r matches Ok(rv) && header_views(rv.0@) == he.0 && rv.1 == he.1,
            None => r matches Err(e) && e == WarcError::Malformed,
        },
    decreases buf@.len() - i,
{
    let n = buf.len();
    if n - i >= 2 && buf[i] == 13 && buf[i + 1] == 10 {
        let empty: Vec<(Vec<u8>, Vec<u8>)> = Vec::new();
        proof {
            assert(header_views(empty@) =~= Seq::<(Seq<u8>, Seq<u8>)>::empty());
        }
        return Ok((empty, i + 2));
    }
    let c = find_colon(buf, i);
    let r = find_cr(buf, i);
    if !(c < r && n - r >= 2 && buf[r + 1] == 10) {
        return Err(WarcError::Malformed);
    }
    let name = copy_range(buf, i, c);
    let v = skip_sp(buf, c + 1);
    let vstart = if v <= r {
        v
    } else {
        r
    };
    let value = copy_range(buf, vstart, r);
    match parse_headers(buf, r + 2) {
        Err(e) => Err(e),
        Ok((mut rest, e2)) => {
            let ghost rest_views = header_views(rest@);
            let mut items: Vec<(Vec<u8>, Vec<u8>)> = Vec::new();
            items.push((name, value));
            let ghost head = (items@[0].0@, items@[0].1@);
            items.append(&mut rest);
            proof {
                assert(header_views(items@) =~= seq![head] + rest_views);
            }
            Ok((items, e2))
        },
    }
}

/// Parses one record at `i`, as [`spec_parse_record`] describes.
fn parse_record(buf: &Vec<u8>, i: usize) -> (res: Result<(ArchiveRecord, usize), WarcError>)
    requires
        i <= buf@.len(),
    ensures
        match spec_parse_record(buf@, i as int) {
            Some(re) => res matches Ok(rv) && rv.0@ == re.0 && rv.1 == re.1,
            None => res matches Err(e) && e == WarcError::Malformed,
        },
{
    let n = buf.len();
    let r = find_cr(buf, i);
    if !(n - r >= 2 && buf[r + 1] == 10) {
        return Err(WarcError::Malformed);
    }
    if !(r - i >= 5 && buf[i] == 87 && buf[i + 1] == 65 && buf[i + 2] == 82 && buf[i + 3] == 67
        && buf[i + 4] == 47) {
        return Err(WarcError::Malformed);
    }
    let (hs, b) = match parse_headers(buf, r + 2) {
        Ok(he) => he,
        Err(e) => {
            return Err(e);
        },
    };
    proof {
        lemma_parse_headers_bounds(buf@, r + 2);
    }
    let clv = match header_get(&hs, HeaderName::ContentLength) {
        Some(v) => v,
        None => {
            return Err(WarcError::Malformed);
        },
    };
    let cl = match parse_usize_bytes(&clv) {
        Some(v) => v,
        None => {
            return Err(WarcError::Malformed);
        },
    };
    if !(n - b >= 4 && n - b - 4 >= cl) {
        return Err(WarcError::Malformed);
    }
    if !(buf[b + cl] == 13 && buf[b + cl + 1] == 10 && buf[b + cl + 2] == 13 && buf[b + cl + 3]
        == 10) {
        return Err(WarcError::Malformed);
    }
    let record_type = match header_get(&hs, HeaderName::WarcType) {
        Some(t) => t,
        None => {
            return Err(WarcError::Malformed);
        },
    };
    let target_uri = header_get(&hs, HeaderName::TargetUri);
    let body = copy_range(buf, b, b + cl);
    Ok((ArchiveRecord { record_type, target_uri, body }, b + cl + 4))
}

/// Parses a decompressed archive buffer into its records, in order, as
/// [`spec_parse_records`] describes; any malformed record is fatal for the
/// buffer.
pub fn parse_warc_records(buf: &Vec<u8>) -> (r: Result<Vec<ArchiveRecord>, WarcError>)
    ensures
        match spec_parse_records(buf@, 0) {
            Some(rs) => r matches Ok(rv) && record_views(rv@) == rs,
            None => r matches Err(e) && e == WarcError::Malformed,
        },
{
    let n = buf.len();
    let mut out: Vec<ArchiveRecord> = Vec::new();
    let mut i: usize = 0;
    proof {
        assert(record_views(out@) =~= Seq::<ArchiveRecordView>::empty());
    }
    while i < n
        invariant
            i <= n,
            n == buf@.len(),
            match spec_parse_records(buf@, i as int) {
                Some(rest) => spec_parse_records(buf@, 0) == Some(record_views(out@) + rest),
                None => spec_parse_records(buf@, 0) is None,
            },
        decreases n - i,
    {
        let (rec, j) = match parse_record(buf, i) {
            Ok(rv) => rv,
            Err(e) => {
                return Err(e);
            },
        };
        proof {
            lemma_parse_record_bounds(buf@, i as int);
        }
        let ghost prev = out@;
        let ghost rv = rec@;
        out.push(rec);
        proof {
            assert(record_views(prev).len() == prev.len());
            assert(out@ == prev.push(out@.last()));
            assert(record_views(out@) =~= record_views(prev).push(rv));
            if spec_parse_records(buf@, j as int) is Some {
                let rest2 = spec_parse_records(buf@, j as int)->Some_0;
                assert(record_views(prev) + (seq![rv] + rest2) =~= record_views(out@) + rest2);
            }
        }
        i = j;
    }
    proof {
        assert(spec_parse_records(buf@, n as int) == Some(Seq::<ArchiveRecordView>::empty()));
        assert(record_views(out@) + Seq::<ArchiveRecordView>::empty() =~= record_views(out@));
    }
    Ok(out)
}

} // verus!
