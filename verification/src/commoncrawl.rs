//! Crawl-index data structures and their parsers: cluster-index lines, which
//! point at byte ranges of CDX shards, and CDX lines, which describe one
//! crawled URL each.
use vstd::prelude::*;
use vstd::string::*;

use crate::json::{
    find_field, key_count, lemma_count_get, member_views, parse_json, spec_get, spec_parse_json,
    JsonError, JsonScalar, JsonScalarView,
};
use crate::text::{
    all_digits, digits_val, find_space_from, parse_usize, spec_find_space, spec_lines,
    spec_tokens, split_lines, split_whitespace_tokens,
};

verus! {

/// Why a cluster-index line was rejected outright.
#[derive(Clone, Copy, Debug, PartialEq, Eq, Structural)]
pub enum ClusterIdxError {
    /// A line had six fields, but its offset or length was not an unsigned
    /// decimal number that fits the platform.
    BadNumber,
}

/// One line of the top-level cluster index: which byte range of which CDX
/// shard covers a range of SURT URLs.
#[derive(Debug)]
pub struct ClusterIdxEntry {
    _surt_url: String,
    _timestamp: String,
    pub cdx_filename: String,
    pub cdx_offset: usize,
    pub cdx_length: usize,
    _cluster_id: String,
}

/// Mathematical content of a [`ClusterIdxEntry`].
pub struct ClusterIdxEntryView {
    pub surt_url: Seq<char>,
    pub timestamp: Seq<char>,
    pub cdx_filename: Seq<char>,
    pub cdx_offset: nat,
    pub cdx_length: nat,
    pub cluster_id: Seq<char>,
}

impl View for ClusterIdxEntry {
    type V = ClusterIdxEntryView;

    closed spec fn view(&self) -> ClusterIdxEntryView {
        ClusterIdxEntryView {
            surt_url: self._surt_url@,
            timestamp: self._timestamp@,
            cdx_filename: self.cdx_filename@,
            cdx_offset: self.cdx_offset as nat,
            cdx_length: self.cdx_length as nat,
            cluster_id: self._cluster_id@,
        }
    }
}

/// A token is an unsigned decimal numeral whose value fits in `usize`.
pub open spec fn is_usize_numeral(t: Seq<char>) -> bool {
    t.len() > 0 && all_digits(t) && digits_val(t) <= usize::MAX
}

/// What parsing one cluster-index line yields: the entry, `None` for a line
/// with fewer than six fields (skipped, not fatal), or an error for a line
/// whose offset or length is not numeric.
pub open spec fn spec_parse_cluster_idx(s: Seq<char>) -> Result<
    Option<ClusterIdxEntryView>,
    ClusterIdxError,
> {
    let t = spec_tokens(s);
    if t.len() < 6 {
        Ok(None)
    } else if !is_usize_numeral(t[3]) || !is_usize_numeral(t[4]) {
        Err(ClusterIdxError::BadNumber)
    } else {
        Ok(
            Some(
                ClusterIdxEntryView {
                    surt_url: t[0],
                    timestamp: t[1],
                    cdx_filename: t[2],
                    cdx_offset: digits_val(t[3]),
                    cdx_length: digits_val(t[4]),
                    cluster_id: t[5],
                },
            ),
        )
    }
}

/// Parses one cluster-index line: six whitespace-separated fields, of which
/// the fourth and fifth are the byte offset and length into the CDX shard.
/// A line with fewer than six fields is skipped (`Ok(None)`); a line whose
/// offset or length is not a `usize` numeral is an error.
pub fn parse_cluster_idx(line: &str) -> (r: Result<Option<ClusterIdxEntry>, ClusterIdxError>)
    ensures
        match spec_parse_cluster_idx(line@) {
            Ok(Some(v)) => r matches Ok(Some(e)) && e@ == v,
            Ok(None) => r matches Ok(None),
            Err(err) => r matches Err(e2) && e2 == err,
        },
{
    let tokens = split_whitespace_tokens(line);
    if tokens.len() < 6 {
        return Ok(None);
    }
    let offset = match parse_usize(tokens[3].as_str()) {
        Some(v) => v,
        None => {
            return Err(ClusterIdxError::BadNumber);
        },
    };
    let length = match parse_usize(tokens[4].as_str()) {
        Some(v) => v,
        None => {
            return Err(ClusterIdxError::BadNumber);
        },
    };
    let mut tokens = tokens;
    let cluster_id = tokens.remove(5);
    let cdx_filename = tokens.remove(2);
    let timestamp = tokens.remove(1);
    let surt_url = tokens.remove(0);
    Ok(
        Some(
            ClusterIdxEntry {
                _surt_url: surt_url,
                _timestamp: timestamp,
                cdx_filename,
                cdx_offset: offset,
                cdx_length: length,
                _cluster_id: cluster_id,
            },
        ),
    )
}

/// Why a CDX line was rejected.
#[derive(Clone, Copy, Debug, PartialEq, Eq, Structural)]
pub enum CdxParseError {
    /// The line does not hold two spaces separating URL, timestamp and
    /// metadata.
    MissingSeparator,
    /// The metadata is not a well-formed object of the restricted grammar.
    Json(JsonError),
    /// A required metadata field is absent.
    MissingField,
    /// A metadata field occurs twice.
    DuplicateField,
    /// A metadata field holds a value of the wrong kind.
    WrongType,
    /// A numeric field is written as a string that is not a `usize` numeral.
    BadNumber,
}

/// Metadata of one crawled URL.  The numeric fields arrive on the wire as
/// either JSON numbers or JSON strings and are normalized to integers here.
#[derive(Debug)]
pub struct CdxMetadata {
    pub url: String,
    pub status: usize,
    pub length: usize,
    pub offset: usize,
    pub filename: String,
    pub languages: Option<String>,
}

/// Mathematical content of a [`CdxMetadata`].
pub struct CdxMetadataView {
    pub url: Seq<char>,
    pub status: nat,
    pub length: nat,
    pub offset: nat,
    pub filename: Seq<char>,
    pub languages: Option<Seq<char>>,
}

impl View for CdxMetadata {
    type V = CdxMetadataView;

    open spec fn view(&self) -> CdxMetadataView {
        CdxMetadataView {
            url: self.url@,
            status: self.status as nat,
            length: self.length as nat,
            offset: self.offset as nat,
            filename: self.filename@,
            languages: match self.languages {
                Some(l) => Some(l@),
                None => None,
            },
        }
    }
}

/// One line of a CDX shard: one unit of work.
#[derive(Debug)]
pub struct CdxEntry {
    pub surt_url: String,
    pub timestamp: String,
    pub metadata: CdxMetadata,
}

/// Mathematical content of a [`CdxEntry`].
pub struct CdxEntryView {
    pub surt_url: Seq<char>,
    pub timestamp: Seq<char>,
    pub metadata: CdxMetadataView,
}

impl View for CdxEntry {
    type V = CdxEntryView;

    open spec fn view(&self) -> CdxEntryView {
        CdxEntryView { surt_url: self.surt_url@, timestamp: self.timestamp@, metadata: self.metadata@ }
    }
}

/// A required field whose value must be a string.
pub open spec fn spec_req_text(ms: Seq<(Seq<char>, JsonScalarView)>, k: Seq<char>) -> Result<
    Seq<char>,
    CdxParseError,
> {
    if key_count(ms, k) == 0 {
        Err(CdxParseError::MissingField)
    } else if key_count(ms, k) > 1 {
        Err(CdxParseError::DuplicateField)
    } else {
        match spec_get(ms, k) {
            Some(JsonScalarView::Text(t)) => Ok(t),
            Some(_) => Err(CdxParseError::WrongType),
            None => Err(CdxParseError::MissingField),
        }
    }
}

/// A required field whose value must be a number, written either as a JSON
/// number or as a string holding a decimal numeral.
pub open spec fn spec_req_nat(ms: Seq<(Seq<char>, JsonScalarView)>, k: Seq<char>) -> Result<
    nat,
    CdxParseError,
> {
    if key_count(ms, k) == 0 {
        Err(CdxParseError::MissingField)
    } else if key_count(ms, k) > 1 {
        Err(CdxParseError::DuplicateField)
    } else {
        match spec_get(ms, k) {
            Some(JsonScalarView::Num(v)) => Ok(v),
            Some(JsonScalarView::Text(t)) => if is_usize_numeral(t) {
                Ok(digits_val(t))
            } else {
                Err(CdxParseError::BadNumber)
            },
            Some(JsonScalarView::Null) => Err(CdxParseError::WrongType),
            None => Err(CdxParseError::MissingField),
        }
    }
}

/// An optional field whose value, if present and not `null`, must be a
/// string.
pub open spec fn spec_opt_text(ms: Seq<(Seq<char>, JsonScalarView)>, k: Seq<char>) -> Result<
    Option<Seq<char>>,
    CdxParseError,
> {
    if key_count(ms, k) == 0 {
        Ok(None)
    } else if key_count(ms, k) > 1 {
        Err(CdxParseError::DuplicateField)
    } else {
        match spec_get(ms, k) {
            Some(JsonScalarView::Text(t)) => Ok(Some(t)),
            Some(JsonScalarView::Null) => Ok(None),
            Some(JsonScalarView::Num(_)) => Err(CdxParseError::WrongType),
            None => Err(CdxParseError::MissingField),
        }
    }
}

/// What assembling [`CdxMetadataView`] from the members of the metadata
/// object yields: required `url`, `status`, `length`, `offset`, `filename`;
/// optional `languages`; unknown keys ignored.
pub open spec fn spec_metadata_of(ms: Seq<(Seq<char>, JsonScalarView)>) -> Result<
    CdxMetadataView,
    CdxParseError,
> {
    match spec_req_text(ms, "url"@) {
        Err(e) => Err(e),
        Ok(url) => match spec_req_nat(ms, "status"@) {
            Err(e) => Err(e),
            Ok(status) => match spec_req_nat(ms, "length"@) {
                Err(e) => Err(e),
                Ok(length) => match spec_req_nat(ms, "offset"@) {
                    Err(e) => Err(e),
                    Ok(offset) => match spec_req_text(ms, "filename"@) {
                        Err(e) => Err(e),
                        Ok(filename) => match spec_opt_text(ms, "languages"@) {
                            Err(e) => Err(e),
                            Ok(languages) => Ok(
                                CdxMetadataView { url, status, length, offset, filename, languages },
                            ),
                        },
                    },
                },
            },
        },
    }
}

/// What parsing one CDX line yields: the text up to the first space is the
/// SURT URL, up to the second space the timestamp, and the rest one JSON
/// metadata object.
pub open spec fn spec_parse_cdx_line(s: Seq<char>) -> Result<CdxEntryView, CdxParseError> {
    let a = spec_find_space(s, 0);
    if a >= s.len() {
        Err(CdxParseError::MissingSeparator)
    } else {
        let b = spec_find_space(s, a + 1);
        if b >= s.len() {
            Err(CdxParseError::MissingSeparator)
        } else {
            match spec_parse_json(s.subrange(b + 1, s.len() as int)) {
                Err(e) => Err(CdxParseError::Json(e)),
                Ok(ms) => match spec_metadata_of(ms) {
                    Err(e) => Err(e),
                    Ok(m) => Ok(
                        CdxEntryView {
                            surt_url: s.subrange(0, a),
                            timestamp: s.subrange(a + 1, b),
                            metadata: m,
                        },
                    ),
                },
            }
        }
    }
}

/// A numeric metadata field is normalized regardless of its wire encoding:
/// if one object carries the key as the JSON number `digits_val(t)` and
/// another carries it as the JSON string `t` (a numeral), both parse to the
/// same integer.
pub proof fn lemma_numeric_field_encoding_irrelevant(
    ms1: Seq<(Seq<char>, JsonScalarView)>,
    ms2: Seq<(Seq<char>, JsonScalarView)>,
    k: Seq<char>,
    t: Seq<char>,
)
    requires
        key_count(ms1, k) == 1,
        key_count(ms2, k) == 1,
        spec_get(ms1, k) == Some(JsonScalarView::Num(digits_val(t))),
        spec_get(ms2, k) == Some(JsonScalarView::Text(t)),
        is_usize_numeral(t),
    ensures
        spec_req_nat(ms1, k) == spec_req_nat(ms2, k),
        spec_req_nat(ms1, k) == Ok::<nat, CdxParseError>(digits_val(t)),
{
}

/// Looks up a required string field, as [`spec_req_text`] describes.
fn req_text(ms: &Vec<(String, JsonScalar)>, key: &str) -> (r: Result<String, CdxParseError>)
    ensures
        match spec_req_text(member_views(ms@), key@) {
            Ok(t) => r matches Ok(x) && x@ == t,
            Err(e) => r matches Err(e2) && e2 == e,
        },
{
    let (count, found) = find_field(ms, key);
    if count == 0 {
        return Err(CdxParseError::MissingField);
    }
    if count > 1 {
        return Err(CdxParseError::DuplicateField);
    }
    proof {
        lemma_count_get(member_views(ms@), key@);
    }
    match found {
        Some(JsonScalar::Text(t)) => Ok(t),
        Some(_) => Err(CdxParseError::WrongType),
        None => Err(CdxParseError::MissingField),
    }
}

/// Looks up a required numeric field, as [`spec_req_nat`] describes.
fn req_num(ms: &Vec<(String, JsonScalar)>, key: &str) -> (r: Result<usize, CdxParseError>)
    ensures
        match spec_req_nat(member_views(ms@), key@) {
            Ok(v) => r matches Ok(x) && x as nat == v,
            Err(e) => r matches Err(e2) && e2 == e,
        },
{
    let (count, found) = find_field(ms, key);
    if count == 0 {
        return Err(CdxParseError::MissingField);
    }
    if count > 1 {
        return Err(CdxParseError::DuplicateField);
    }
    proof {
        lemma_count_get(member_views(ms@), key@);
    }
    match found {
        Some(JsonScalar::Num(v)) => Ok(v),
        Some(JsonScalar::Text(t)) => match parse_usize(t.as_str()) {
            Some(v) => Ok(v),
            None => Err(CdxParseError::BadNumber),
        },
        Some(JsonScalar::Null) => Err(CdxParseError::WrongType),
        None => Err(CdxParseError::MissingField),
    }
}

/// Looks up an optional string field, as [`spec_opt_text`] describes.
fn opt_text(ms: &Vec<(String, JsonScalar)>, key: &str) -> (r: Result<
    Option<String>,
    CdxParseError,
>)
    ensures
        match spec_opt_text(member_views(ms@), key@) {
            Ok(Some(t)) => r matches Ok(x) && x matches Some(y) && y@ == t,
            Ok(None) => r matches Ok(x) && x is None,
            Err(e) => r matches Err(e2) && e2 == e,
        },
{
    let (count, found) = find_field(ms, key);
    if count == 0 {
        return Ok(None);
    }
    if count > 1 {
        return Err(CdxParseError::DuplicateField);
    }
    proof {
        lemma_count_get(member_views(ms@), key@);
    }
    match found {
        Some(JsonScalar::Text(t)) => Ok(Some(t)),
        Some(JsonScalar::Null) => Ok(None),
        Some(JsonScalar::Num(_)) => Err(CdxParseError::WrongType),
        None => Ok(None),
    }
}

/// Assembles the metadata struct from parsed members, as
/// [`spec_metadata_of`] describes.
fn metadata_of_members(ms: &Vec<(String, JsonScalar)>) -> (r: Result<CdxMetadata, CdxParseError>)
    ensures
        match spec_metadata_of(member_views(ms@)) {
            Ok(m) => r matches Ok(x) && x@ == m,
            Err(e) => r matches Err(e2) && e2 == e,
        },
{
    let url = match req_text(ms, "url") {
        Ok(t) => t,
        Err(e) => {
            return Err(e);
        },
    };
    let status = match req_num(ms, "status") {
        Ok(v) => v,
        Err(e) => {
            return Err(e);
        },
    };
    let length = match req_num(ms, "length") {
        Ok(v) => v,
        Err(e) => {
            return Err(e);
        },
    };
    let offset = match req_num(ms, "offset") {
        Ok(v) => v,
        Err(e) => {
            return Err(e);
        },
    };
    let filename = match req_text(ms, "filename") {
        Ok(t) => t,
        Err(e) => {
            return Err(e);
        },
    };
    let languages = match opt_text(ms, "languages") {
        Ok(l) => l,
        Err(e) => {
            return Err(e);
        },
    };
    Ok(CdxMetadata { url, status, length, offset, filename, languages })
}

/// Parses one CDX line: SURT URL, timestamp, and one JSON metadata object,
/// separated by the line's first two spaces.  Numeric metadata arrives as
/// either a JSON number or a numeral in a JSON string.
pub fn parse_cdx_line(line: &str) -> (r: Result<CdxEntry, CdxParseError>)
    ensures
        match spec_parse_cdx_line(line@) {
            Ok(v) => r matches Ok(e) && e@ == v,
            Err(err) => r matches Err(e2) && e2 == err,
        },
{
    let n: usize = line.unicode_len();
    let a = find_space_from(line, 0);
    if a == n {
        return Err(CdxParseError::MissingSeparator);
    }
    let b = find_space_from(line, a + 1);
    if b == n {
        return Err(CdxParseError::MissingSeparator);
    }
    let json_part = line.substring_char(b + 1, n);
    let ms = match parse_json(json_part) {
        Ok(ms) => ms,
        Err(e) => {
            return Err(CdxParseError::Json(e));
        },
    };
    let metadata = match metadata_of_members(&ms) {
        Ok(m) => m,
        Err(e) => {
            return Err(e);
        },
    };
    let surt_url = String::from_str(line.substring_char(0, a));
    let timestamp = String::from_str(line.substring_char(a + 1, b));
    Ok(CdxEntry { surt_url, timestamp, metadata })
}

impl CdxMetadata {
    /// A copy of this metadata, equal in content.
    pub fn duplicate(&self) -> (r: CdxMetadata)
        ensures
            r@ == self@,
    {
        CdxMetadata {
            url: self.url.clone(),
            status: self.status,
            length: self.length,
            offset: self.offset,
            filename: self.filename.clone(),
            languages: match &self.languages {
                Some(l) => Some(l.clone()),
                None => None,
            },
        }
    }
}

impl CdxEntry {
    /// A copy of this entry, equal in content.
    pub fn duplicate(&self) -> (r: CdxEntry)
        ensures
            r@ == self@,
    {
        CdxEntry {
            surt_url: self.surt_url.clone(),
            timestamp: self.timestamp.clone(),
            metadata: self.metadata.duplicate(),
        }
    }
}

/// What parsing a sequence of cluster-index lines yields: the entries of the
/// well-formed lines in order, short lines skipped, or the error of the first
/// malformed numeric field.
pub open spec fn spec_parse_cluster_lines(lines: Seq<Seq<char>>) -> Result<
    Seq<ClusterIdxEntryView>,
    ClusterIdxError,
>
    decreases lines.len(),
{
    if lines.len() == 0 {
        Ok(Seq::empty())
    } else {
        match spec_parse_cluster_lines(lines.drop_last()) {
            Ok(pre) => match spec_parse_cluster_idx(lines.last()) {
                Ok(Some(v)) => Ok(pre.push(v)),
                Ok(None) => Ok(pre),
                Err(e) => Err(e),
            },
            Err(e) => Err(e),
        }
    }
}

/// The whole cluster-index file, parsed line by line.
pub open spec fn spec_parse_cluster_index(s: Seq<char>) -> Result<
    Seq<ClusterIdxEntryView>,
    ClusterIdxError,
> {
    spec_parse_cluster_lines(spec_lines(s))
}

/// An erring prefix makes the whole fold err.
proof fn lemma_cluster_fold_err(lines: Seq<Seq<char>>, j: int)
    requires
        0 <= j <= lines.len(),
        spec_parse_cluster_lines(lines.take(j)) is Err,
    ensures
        spec_parse_cluster_lines(lines) is Err,
    decreases lines.len() - j,
{
    if j < lines.len() {
        assert(lines.take(j + 1).drop_last() =~= lines.take(j));
        lemma_cluster_fold_err(lines, j + 1);
    } else {
        assert(lines.take(j) =~= lines);
    }
}

/// Parses a whole cluster-index file: the entries of its well-formed lines
/// in file order.  Lines with fewer than six fields are skipped; a
/// non-numeric offset or length is an error.
pub fn parse_cluster_index(text: &str) -> (r: Result<Vec<ClusterIdxEntry>, ClusterIdxError>)
    ensures
        match spec_parse_cluster_index(text@) {
            Ok(vs) => r matches Ok(es) && es@.map_values(|e: ClusterIdxEntry| e@) == vs,
            Err(err) => r matches Err(e2) && e2 == err,
        },
{
    let lines = split_lines(text);
    let n = lines.len();
    let mut out: Vec<ClusterIdxEntry> = Vec::new();
    let ghost lvs = lines@.map_values(|t: String| t@);
    proof {
        assert(lvs.take(0) =~= Seq::<Seq<char>>::empty());
        assert(out@.map_values(|e: ClusterIdxEntry| e@) =~= Seq::<ClusterIdxEntryView>::empty());
    }
    let mut i: usize = 0;
    while i < n
        invariant
            i <= n,
            n == lines@.len(),
            lvs == lines@.map_values(|t: String| t@),
            lvs == spec_lines(text@),
            spec_parse_cluster_lines(lvs.take(i as int)) == Ok::<_, ClusterIdxError>(
                out@.map_values(|e: ClusterIdxEntry| e@),
            ),
        decreases n - i,
    {
        proof {
            assert(lvs.take(i + 1).drop_last() =~= lvs.take(i as int));
            assert(lvs.take(i + 1).last() == lvs[i as int]);
            assert(lvs[i as int] == lines@[i as int]@);
        }
        let ghost prev = out@;
        match parse_cluster_idx(lines[i].as_str()) {
            Ok(Some(e)) => {
                out.push(e);
                proof {
                    assert(out@.map_values(|e2: ClusterIdxEntry| e2@) =~= prev.map_values(
                        |e2: ClusterIdxEntry| e2@,
                    ).push(out@.last()@));
                }
            },
            Ok(None) => {},
            Err(e) => {
                proof {
                    lemma_cluster_fold_err(lvs, i + 1);
                }
                return Err(e);
            },
        }
        i = i + 1;
    }
    proof {
        assert(lvs.take(n as int) =~= lvs);
    }
    Ok(out)
}

} // verus!
