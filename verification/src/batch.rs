//! The batcher's computation: filtering parsed CDX entries and chunking the
//! survivors into bounded, order-preserving batches.
use vstd::prelude::*;
use vstd::arithmetic::div_mod::{lemma_basic_div, lemma_div_plus_one};

use crate::commoncrawl::{parse_cdx_line, spec_parse_cdx_line, CdxEntry, CdxEntryView};
use crate::text::{spec_contains, spec_lines, split_lines, str_contains};

verus! {

/// The views of a sequence of entries.
pub open spec fn entry_views(s: Seq<CdxEntry>) -> Seq<CdxEntryView> {
    s.map_values(|e: CdxEntry| e@)
}

/// The views of a sequence of batches of entries.
pub open spec fn batch_views(s: Seq<Vec<CdxEntry>>) -> Seq<Seq<CdxEntryView>> {
    s.map_values(|c: Vec<CdxEntry>| entry_views(c@))
}

/// The filter the batcher applies: the record has a known language tag list
/// containing "eng", and was fetched with HTTP status 200.
pub open spec fn spec_passes_filter(e: CdxEntryView) -> bool {
    match e.metadata.languages {
        Some(l) => spec_contains(l, "eng"@) && e.metadata.status == 200,
        None => false,
    }
}

/// Executable test for [`spec_passes_filter`].
pub fn passes_filter(e: &CdxEntry) -> (r: bool)
    ensures
        r == spec_passes_filter(e@),
{
    match &e.metadata.languages {
        Some(l) => str_contains(l.as_str(), "eng") && e.metadata.status == 200,
        None => false,
    }
}

/// The entries that pass the filter, in their original order.
pub open spec fn spec_filter_entries(s: Seq<CdxEntryView>) -> Seq<CdxEntryView> {
    s.filter(|e: CdxEntryView| spec_passes_filter(e))
}

/// The contiguous chunks of `s` of size `b`, in order; only the last chunk
/// may be shorter.
pub open spec fn spec_chunks<T>(s: Seq<T>, b: int) -> Seq<Seq<T>>
    decreases s.len()
        when b >= 1
{
    if s.len() == 0 {
        Seq::empty()
    } else if s.len() <= b {
        seq![s]
    } else {
        seq![s.take(b)] + spec_chunks(s.skip(b), b)
    }
}

/// Chunking yields exactly the ceiling of `len / b` chunks.
pub proof fn lemma_chunks_count<T>(s: Seq<T>, b: int)
    requires
        b >= 1,
    ensures
        spec_chunks(s, b).len() == (s.len() + b - 1) / b,
    decreases s.len(),
{
    if s.len() == 0 {
        lemma_basic_div(b - 1, b);
    } else if s.len() <= b {
        lemma_basic_div(s.len() - 1, b);
        lemma_div_plus_one(s.len() - 1, b);
    } else {
        lemma_chunks_count(s.skip(b), b);
        lemma_div_plus_one(s.len() - 1, b);
    }
}

/// Every chunk holds between one and `b` elements, and every chunk except
/// the last holds exactly `b`.
pub proof fn lemma_chunks_sizes<T>(s: Seq<T>, b: int)
    requires
        b >= 1,
    ensures
        forall|i: int|
            0 <= i < spec_chunks(s, b).len() ==> {
                &&& 1 <= (#[trigger] spec_chunks(s, b)[i]).len() <= b
                &&& (i < spec_chunks(s, b).len() - 1 ==> spec_chunks(s, b)[i].len() == b)
            },
    decreases s.len(),
{
    if s.len() > b {
        lemma_chunks_sizes(s.skip(b), b);
        assert forall|i: int| 0 <= i < spec_chunks(s, b).len() implies {
            &&& 1 <= (#[trigger] spec_chunks(s, b)[i]).len() <= b
            &&& (i < spec_chunks(s, b).len() - 1 ==> spec_chunks(s, b)[i].len() == b)
        } by {
            if i > 0 {
                assert(spec_chunks(s, b)[i] == spec_chunks(s.skip(b), b)[i - 1]);
            }
        }
    }
}

/// Concatenating the chunks reproduces the original sequence exactly.
pub proof fn lemma_chunks_flatten<T>(s: Seq<T>, b: int)
    requires
        b >= 1,
    ensures
        spec_chunks(s, b).flatten() == s,
    decreases s.len(),
{
    let c = spec_chunks(s, b);
    if s.len() == 0 {
        assert(c.flatten() =~= s);
    } else if s.len() <= b {
        assert(c.len() == 1);
        assert(c[0] == s);
        assert(c.drop_first() =~= Seq::<Seq<T>>::empty());
        assert(c.flatten() == s + Seq::<Seq<T>>::empty().flatten());
        assert(c.flatten() =~= s);
    } else {
        lemma_chunks_flatten(s.skip(b), b);
        assert(c == seq![s.take(b)] + spec_chunks(s.skip(b), b));
        assert(c[0] == s.take(b));
        assert(c.drop_first() =~= spec_chunks(s.skip(b), b));
        assert(c.flatten() == s.take(b) + spec_chunks(s.skip(b), b).flatten());
        assert(s.take(b) + s.skip(b) =~= s);
    }
}

/// The entries of the well-formed CDX lines, in order; malformed lines are
/// skipped.
pub open spec fn spec_parse_cdx_lines(lines: Seq<Seq<char>>) -> Seq<CdxEntryView>
    decreases lines.len(),
{
    if lines.len() == 0 {
        Seq::empty()
    } else {
        let pre = spec_parse_cdx_lines(lines.drop_last());
        match spec_parse_cdx_line(lines.last()) {
            Ok(v) => pre.push(v),
            Err(_) => pre,
        }
    }
}

/// How many CDX lines are malformed and therefore skipped.
pub open spec fn spec_cdx_skipped(lines: Seq<Seq<char>>) -> nat
    decreases lines.len(),
{
    if lines.len() == 0 {
        0
    } else {
        spec_cdx_skipped(lines.drop_last()) + if spec_parse_cdx_line(lines.last()) is Err {
            1nat
        } else {
            0nat
        }
    }
}

/// What one shard's decompressed text becomes: its lines parsed, the
/// surviving entries filtered, and the result cut into batches of at most
/// [`crate::BATCH_SIZE`] entries.
pub open spec fn spec_shard_batches(t: Seq<char>) -> Seq<Seq<CdxEntryView>> {
    spec_chunks(spec_filter_entries(spec_parse_cdx_lines(spec_lines(t))), crate::BATCH_SIZE as int)
}

/// Copies `s` into contiguous chunks of at most `b` entries, preserving
/// order, as [`spec_chunks`] describes.
pub fn chunk_entries(s: &Vec<CdxEntry>, b: usize) -> (r: Vec<Vec<CdxEntry>>)
    requires
        b >= 1,
    ensures
        batch_views(r@) == spec_chunks(entry_views(s@), b as int),
{
    let ghost es = entry_views(s@);
    let n = s.len();
    let mut out: Vec<Vec<CdxEntry>> = Vec::new();
    let mut i: usize = 0;
    proof {
        assert(es.skip(0) =~= es);
        assert(batch_views(out@) =~= Seq::<Seq<CdxEntryView>>::empty());
        assert(batch_views(out@) + spec_chunks(es, b as int) =~= spec_chunks(es, b as int));
    }
    while i < n
        invariant
            i <= n,
            n == s@.len(),
            b >= 1,
            es == entry_views(s@),
            spec_chunks(es, b as int) == batch_views(out@) + spec_chunks(
                es.skip(i as int),
                b as int,
            ),
        decreases n - i,
    {
        let m: usize = if n - i < b {
            n - i
        } else {
            b
        };
        let mut chunk: Vec<CdxEntry> = Vec::new();
        let mut j: usize = 0;
        proof {
            assert(entry_views(chunk@) =~= es.subrange(i as int, i as int));
        }
        while j < m
            invariant
                j <= m,
                i + m <= n,
                n == s@.len(),
                es == entry_views(s@),
                entry_views(chunk@) == es.subrange(i as int, i + j),
            decreases m - j,
        {
            let ghost prev_chunk = chunk@;
            let e = s[i + j].duplicate();
            proof {
                assert(e@ == es[i + j]);
            }
            chunk.push(e);
            proof {
                assert(entry_views(prev_chunk).len() == prev_chunk.len());
                assert(prev_chunk.len() == j);
                assert(chunk@ == prev_chunk.push(e));
                assert forall|k: int| 0 <= k < j + 1 implies entry_views(chunk@)[k] == es[i + k] by {
                    if k < j {
                        assert(entry_views(prev_chunk)[k] == es.subrange(i as int, i + j)[k]);
                    }
                }
                assert(entry_views(chunk@) =~= es.subrange(i as int, i + j + 1));
            }
            j = j + 1;
        }
        let ghost prev = out@;
        out.push(chunk);
        proof {
            assert(batch_views(out@) =~= batch_views(prev).push(es.subrange(i as int, i + m)));
            let rest = es.skip(i as int);
            if n - i <= b {
                assert(es.subrange(i as int, i + m) =~= rest);
                assert(spec_chunks(rest, b as int) == seq![rest]);
                assert(batch_views(prev) + spec_chunks(rest, b as int) =~= batch_views(
                    prev,
                ).push(rest));
                assert(es.skip(i + m) =~= Seq::<CdxEntryView>::empty());
                assert(batch_views(out@) + spec_chunks(es.skip(i + m), b as int) =~= batch_views(
                    out@,
                ));
            } else {
                assert(es.subrange(i as int, i + m) =~= rest.take(b as int));
                assert(rest.skip(b as int) =~= es.skip(i + b));
                assert(spec_chunks(rest, b as int) == seq![rest.take(b as int)] + spec_chunks(
                    es.skip(i + b),
                    b as int,
                ));
                assert(batch_views(prev) + spec_chunks(rest, b as int) =~= batch_views(
                    prev,
                ).push(rest.take(b as int)) + spec_chunks(es.skip(i + b), b as int));
                assert(batch_views(out@) + spec_chunks(es.skip(i + m), b as int) =~= batch_views(
                    prev,
                ) + spec_chunks(rest, b as int));
            }
        }
        i = i + m;
    }
    proof {
        assert(es.skip(n as int) =~= Seq::<CdxEntryView>::empty());
        assert(batch_views(out@) + spec_chunks(es.skip(n as int), b as int) =~= batch_views(out@));
    }
    out
}

/// Turns one shard's decompressed text into batches: parse each line, skip
/// and count the malformed ones, keep the entries that pass the filter, and
/// chunk the survivors in order into batches of at most
/// [`crate::BATCH_SIZE`].  The skipped-line count is returned beside the
/// batches.
pub fn process_shard(text: &str) -> (r: (Vec<Vec<CdxEntry>>, usize))
    ensures
        batch_views(r.0@) == spec_shard_batches(text@),
        r.1 == spec_cdx_skipped(spec_lines(text@)),
{
    let lines = split_lines(text);
    let ghost lvs = lines@.map_values(|t: String| t@);
    let n = lines.len();
    let mut filtered: Vec<CdxEntry> = Vec::new();
    let mut skipped: usize = 0;
    proof {
        assert(lvs.take(0) =~= Seq::<Seq<char>>::empty());
        assert(entry_views(filtered@) =~= Seq::<CdxEntryView>::empty());
        assert(spec_filter_entries(spec_parse_cdx_lines(lvs.take(0))) =~= Seq::<
            CdxEntryView,
        >::empty());
    }
    let mut i: usize = 0;
    while i < n
        invariant
            i <= n,
            n == lines@.len(),
            lvs == lines@.map_values(|t: String| t@),
            lvs == spec_lines(text@),
            entry_views(filtered@) == spec_filter_entries(spec_parse_cdx_lines(lvs.take(i as int))),
            skipped == spec_cdx_skipped(lvs.take(i as int)),
            skipped <= i,
        decreases n - i,
    {
        proof {
            assert(lvs.take(i + 1).drop_last() =~= lvs.take(i as int));
            assert(lvs.take(i + 1).last() == lvs[i as int]);
            assert(lvs[i as int] == lines@[i as int]@);
        }
        let ghost parsed_pre = spec_parse_cdx_lines(lvs.take(i as int));
        match parse_cdx_line(lines[i].as_str()) {
            Ok(e) => {
                proof {
                    assert(spec_parse_cdx_lines(lvs.take(i + 1)) == parsed_pre.push(e@));
                    assert(parsed_pre.push(e@).drop_last() =~= parsed_pre);
                    assert(parsed_pre.push(e@).last() == e@);
                }
                let ghost prev = filtered@;
                let ghost ev = e@;
                proof {
                    reveal_with_fuel(Seq::filter, 2);
                    assert(parsed_pre.push(ev).drop_last() =~= parsed_pre);
                    assert(spec_filter_entries(parsed_pre.push(ev)) == (if spec_passes_filter(ev) {
                        spec_filter_entries(parsed_pre).push(ev)
                    } else {
                        spec_filter_entries(parsed_pre)
                    }));
                }
                if passes_filter(&e) {
                    filtered.push(e);
                    proof {
                        assert(entry_views(prev).len() == prev.len());
                        assert(filtered@ == prev.push(filtered@.last()));
                        assert(entry_views(filtered@) =~= entry_views(prev).push(ev));
                    }
                }
            },
            Err(_) => {
                skipped = skipped + 1;
            },
        }
        i = i + 1;
    }
    proof {
        assert(lvs.take(n as int) =~= lvs);
    }
    let batches = chunk_entries(&filtered, crate::BATCH_SIZE);
    (batches, skipped)
}

/// The batcher is idempotent: the batches are a function of the index text
/// alone, so processing an unchanged shard twice yields identical batch
/// contents, entry for entry and in the same order.
pub proof fn lemma_batcher_idempotent(
    t: Seq<char>,
    r1: Seq<Seq<CdxEntryView>>,
    r2: Seq<Seq<CdxEntryView>>,
)
    requires
        r1 == spec_shard_batches(t),
        r2 == spec_shard_batches(t),
    ensures
        r1 == r2,
{
}

} // verus!
