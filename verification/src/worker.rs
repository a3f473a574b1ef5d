//! The worker's computation: which archive ranges a delivered batch asks
//! for, which records of a fetched archive buffer reach text extraction,
//! and when the whole batch may be acknowledged.
use vstd::prelude::*;

use crate::commoncrawl::CdxEntry;
use crate::warc::{copy_range, record_views, ArchiveRecord, ArchiveRecordView};

verus! {

/// One byte range of one archive file that the worker must fetch.
#[derive(Debug)]
pub struct FetchRequest {
    pub filename: String,
    pub offset: usize,
    pub length: usize,
}

/// One piece of work for the text extractor: the record's target URI and
/// the bytes from the blank-line separator on.
#[derive(Debug)]
pub struct ExtractionTask {
    pub target_uri: Option<Vec<u8>>,
    pub html: Vec<u8>,
}

/// Mathematical content of an [`ExtractionTask`].
pub struct ExtractionTaskView {
    pub target_uri: Option<Seq<u8>>,
    pub html: Seq<u8>,
}

impl View for ExtractionTask {
    type V = ExtractionTaskView;

    open spec fn view(&self) -> ExtractionTaskView {
        ExtractionTaskView {
            target_uri: match self.target_uri {
                Some(u) => Some(u@),
                None => None,
            },
            html: self.html@,
        }
    }
}

/// The views of a sequence of tasks.
pub open spec fn task_views(s: Seq<ExtractionTask>) -> Seq<ExtractionTaskView> {
    s.map_values(|t: ExtractionTask| t@)
}

/// First position at or after `i` where two line feeds stand next to each
/// other; the length of `s` when there is none.
pub open spec fn spec_find_2lf(s: Seq<u8>, i: int) -> int
    decreases s.len() - i
        when 0 <= i <= s.len()
{
    if i + 2 > s.len() {
        s.len() as int
    } else if s[i] == 10 && s[i + 1] == 10 {
        i
    } else {
        spec_find_2lf(s, i + 1)
    }
}

/// The part of a record body handed to extraction: everything from the
/// first blank line (two line feeds) on, or nothing when the body has no
/// blank line.
pub open spec fn spec_html_of(body: Seq<u8>) -> Option<Seq<u8>> {
    let f = spec_find_2lf(body, 0);
    if f + 2 <= body.len() {
        Some(body.skip(f))
    } else {
        None
    }
}

/// The record type `response`.
pub open spec fn response_name() -> Seq<u8> {
    seq![114u8, 101u8, 115u8, 112u8, 111u8, 110u8, 115u8, 101u8]
}

/// Whether a record is an HTTP response capture.
pub open spec fn spec_is_response(r: ArchiveRecordView) -> bool {
    r.record_type == response_name()
}

/// Executable test for [`spec_is_response`].
pub fn is_response_record(r: &ArchiveRecord) -> (b: bool)
    ensures
        b == spec_is_response(r@),
{
    let t = &r.record_type;
    let b = t.len() == 8 && t[0] == 114 && t[1] == 101 && t[2] == 115 && t[3] == 112 && t[4] == 111
        && t[5] == 110 && t[6] == 115 && t[7] == 101;
    proof {
        if b {
            assert(t@ =~= response_name());
        }
    }
    b
}

/// The extraction tasks of a record sequence: one per response record whose
/// body holds a blank-line separator, in order.
pub open spec fn spec_tasks(rs: Seq<ArchiveRecordView>) -> Seq<ExtractionTaskView>
    decreases rs.len(),
{
    if rs.len() == 0 {
        Seq::empty()
    } else {
        let pre = spec_tasks(rs.drop_last());
        let r = rs.last();
        if spec_is_response(r) {
            match spec_html_of(r.body) {
                Some(h) => pre.push(ExtractionTaskView { target_uri: r.target_uri, html: h }),
                None => pre,
            }
        } else {
            pre
        }
    }
}

/// How many response records lack a blank-line separator and are skipped.
pub open spec fn spec_no_separator_count(rs: Seq<ArchiveRecordView>) -> nat
    decreases rs.len(),
{
    if rs.len() == 0 {
        0
    } else {
        spec_no_separator_count(rs.drop_last()) + {
            let r = rs.last();
            if spec_is_response(r) && spec_html_of(r.body) is None {
                1nat
            } else {
                0nat
            }
        }
    }
}

/// Finds the blank-line separator of a record body: the position of the
/// first two adjacent line feeds, or `None` when there is none.
pub fn find_blank_line(body: &Vec<u8>) -> (r: Option<usize>)
    ensures
        (r is Some) <==> spec_find_2lf(body@, 0) + 2 <= body@.len(),
        r is Some ==> r->0 == spec_find_2lf(body@, 0),
{
    let n = body.len();
    let mut i: usize = 0;
    while n - i >= 2 && !(body[i] == 10 && body[i + 1] == 10)
        invariant
            i <= n,
            n == body@.len(),
            spec_find_2lf(body@, 0) == spec_find_2lf(body@, i as int),
        decreases n - i,
    {
        i = i + 1;
    }
    if n - i >= 2 {
        Some(i)
    } else {
        None
    }
}

/// Plans one entry's worth of extraction: from the records of one fetched
/// archive buffer, the tasks for its response records with a separator, and
/// the count of response records skipped for want of one.  Records of other
/// types are passed over, and a skipped record never aborts the rest.
pub fn plan_extractions(records: &Vec<ArchiveRecord>) -> (r: (Vec<ExtractionTask>, usize))
    ensures
        task_views(r.0@) == spec_tasks(record_views(records@)),
        r.1 == spec_no_separator_count(record_views(records@)),
{
    let ghost rvs = record_views(records@);
    let n = records.len();
    let mut tasks: Vec<ExtractionTask> = Vec::new();
    let mut skipped: usize = 0;
    proof {
        assert(rvs.take(0) =~= Seq::<ArchiveRecordView>::empty());
        assert(task_views(tasks@) =~= Seq::<ExtractionTaskView>::empty());
    }
    let mut i: usize = 0;
    while i < n
        invariant
            i <= n,
            n == records@.len(),
            rvs == record_views(records@),
            task_views(tasks@) == spec_tasks(rvs.take(i as int)),
            skipped == spec_no_separator_count(rvs.take(i as int)),
            skipped <= i,
        decreases n - i,
    {
        proof {
            assert(rvs.take(i + 1).drop_last() =~= rvs.take(i as int));
            assert(rvs.take(i + 1).last() == rvs[i as int]);
            assert(rvs[i as int] == records@[i as int]@);
        }
        let rec = &records[i];
        if is_response_record(rec) {
            match find_blank_line(&rec.body) {
                Some(f) => {
                    let html = copy_range(&rec.body, f, rec.body.len());
                    proof {
                        assert(rec.body@.subrange(f as int, rec.body@.len() as int) =~= rec.body@.skip(
                            f as int,
                        ));
                    }
                    let target_uri = match &rec.target_uri {
                        Some(u) => {
                            let c = copy_range(u, 0, u.len());
                            proof {
                                assert(u@.subrange(0, u@.len() as int) =~= u@);
                            }
                            Some(c)
                        },
                        None => None,
                    };
                    let ghost prev = tasks@;
                    let task = ExtractionTask { target_uri, html };
                    proof {
                        assert(task@ == ExtractionTaskView {
                            target_uri: rvs[i as int].target_uri,
                            html: spec_html_of(rvs[i as int].body)->Some_0,
                        });
                    }
                    tasks.push(task);
                    proof {
                        assert(task_views(prev).len() == prev.len());
                        assert(tasks@ == prev.push(tasks@.last()));
                        assert(task_views(tasks@) =~= task_views(prev).push(tasks@.last()@));
                    }
                },
                None => {
                    skipped = skipped + 1;
                },
            }
        }
        i = i + 1;
    }
    proof {
        assert(rvs.take(n as int) =~= rvs);
    }
    (tasks, skipped)
}

/// Plans the archive fetches of one delivered batch: one byte-range request
/// per entry, in batch order, taken from each entry's metadata.
pub fn plan_batch_fetches(batch: &Vec<CdxEntry>) -> (r: Vec<FetchRequest>)
    ensures
        r@.len() == batch@.len(),
        forall|k: int|
            0 <= k < batch@.len() ==> {
                &&& (#[trigger] r@[k]).filename@ == batch@[k].metadata.filename@
                &&& r@[k].offset == batch@[k].metadata.offset
                &&& r@[k].length == batch@[k].metadata.length
            },
{
    let n = batch.len();
    let mut out: Vec<FetchRequest> = Vec::new();
    let mut i: usize = 0;
    while i < n
        invariant
            i <= n,
            n == batch@.len(),
            out@.len() == i,
            forall|k: int|
                0 <= k < i ==> {
                    &&& (#[trigger] out@[k]).filename@ == batch@[k].metadata.filename@
                    &&& out@[k].offset == batch@[k].metadata.offset
                    &&& out@[k].length == batch@[k].metadata.length
                },
        decreases n - i,
    {
        let e = &batch[i];
        out.push(
            FetchRequest {
                filename: e.metadata.filename.clone(),
                offset: e.metadata.offset,
                length: e.metadata.length,
            },
        );
        i = i + 1;
    }
    out
}

/// The acknowledgement rule: a delivered batch is acknowledged exactly when
/// every one of its entries has been attempted, and not before.
pub fn should_acknowledge(attempted: usize, total: usize) -> (r: bool)
    requires
        attempted <= total,
    ensures
        r == (attempted == total),
{
    attempted == total
}

} // verus!
