use vstd::prelude::*;

use crate::decimal::{dec_val, parse_rank, spec_rank};
use crate::model::{AnnotatedRecord, PullRecord};

verus! {

/// The numeric value of a record's vendor-assigned identifier.
pub open spec fn record_id_val(r: PullRecord) -> int {
    dec_val(r.id@)
}

/// Record identifiers strictly decrease along the sequence
/// (reverse-chronological order, as the vendor returns pages).
pub open spec fn ids_decreasing(s: Seq<PullRecord>) -> bool {
    forall|i: int, j: int|
        0 <= i < j < s.len() ==> record_id_val(#[trigger] s[i]) > record_id_val(#[trigger] s[j])
}

/// Record identifiers strictly increase along the sequence
/// (true chronological order).
pub open spec fn ids_increasing(s: Seq<PullRecord>) -> bool {
    forall|i: int, j: int|
        0 <= i < j < s.len() ==> record_id_val(#[trigger] s[i]) < record_id_val(#[trigger] s[j])
}

/// Whether a record is of the top rarity tier `top`.
pub open spec fn is_top(r: PullRecord, top: u64) -> bool {
    spec_rank(r.rank_type@) == Some(top as int)
}

/// The chronological stream a sequence of fetched pages denotes: pages in
/// reverse fetch order, the records of each page reversed, concatenated.
/// Pages are fetched newest-first and records are newest-first within a page,
/// so this is the history oldest-first.
pub open spec fn chron_of(pages: Seq<Seq<PullRecord>>) -> Seq<PullRecord>
    decreases pages.len(),
{
    if pages.len() == 0 {
        Seq::empty()
    } else {
        pages.last().reverse() + chron_of(pages.drop_last())
    }
}

/// The 1-based pity counter of the record at 0-based chronological position
/// `i`: the count of pulls since the most recent top-rarity pull, restarting
/// at 1 on the record right after a top-rarity one.
pub open spec fn spec_pity(s: Seq<PullRecord>, top: u64, i: int) -> int
    decreases i,
{
    if i <= 0 {
        1
    } else if is_top(s[i - 1], top) {
        1
    } else {
        spec_pity(s, top, i - 1) + 1
    }
}

/// The 1-based position of the most recent top-rarity record strictly before
/// 0-based position `i`, or 0 when there is none.
pub open spec fn last_top_pos(s: Seq<PullRecord>, top: u64, i: int) -> int
    decreases i,
{
    if i <= 0 {
        0
    } else if is_top(s[i - 1], top) {
        i
    } else {
        last_top_pos(s, top, i - 1)
    }
}

/// The greatest rarity value that any record of `s` denotes, or nothing when
/// no record carries a readable rarity.
pub open spec fn top_of(s: Seq<PullRecord>) -> Option<int>
    decreases s.len(),
{
    if s.len() == 0 {
        None
    } else {
        let prev = top_of(s.drop_last());
        match spec_rank(s.last().rank_type@) {
            None => prev,
            Some(v) => match prev {
                None => Some(v),
                Some(m) => if v > m {
                    Some(v)
                } else {
                    Some(m)
                },
            },
        }
    }
}

/// The top rarity tier of `s` as a machine value, 0 when none is readable.
pub open spec fn top_or_zero(s: Seq<PullRecord>) -> u64 {
    match top_of(s) {
        Some(v) => v as u64,
        None => 0,
    }
}

/// Reversing a concatenation concatenates the reversals, swapped.
pub proof fn lemma_reverse_add<A>(a: Seq<A>, b: Seq<A>)
    ensures
        (a + b).reverse() =~= b.reverse() + a.reverse(),
{
}

/// Dropping the front element of a suffix before reversing is the same as
/// appending that element after reversing.
pub proof fn lemma_reverse_skip_step<A>(s: Seq<A>, k: int)
    requires
        0 < k <= s.len(),
    ensures
        s.skip(k - 1).reverse() =~= s.skip(k).reverse().push(s[k - 1]),
{
}

/// The chronological stream is the reversal of the pages flattened in fetch
/// order.
pub proof fn lemma_chron_is_reverse_flatten(pages: Seq<Seq<PullRecord>>)
    ensures
        chron_of(pages) == pages.flatten().reverse(),
    decreases pages.len(),
{
    pages.lemma_flatten_and_flatten_alt_are_equivalent();
    if pages.len() == 0 {
        assert(chron_of(pages) =~= pages.flatten().reverse());
    } else {
        lemma_chron_is_reverse_flatten(pages.drop_last());
        pages.drop_last().lemma_flatten_and_flatten_alt_are_equivalent();
        lemma_reverse_add(pages.drop_last().flatten_alt(), pages.last());
        assert(chron_of(pages) =~= pages.flatten().reverse());
    }
}

/// Chronological reconstruction: when the vendor's record identifiers
/// strictly decrease over the pages as fetched, they strictly increase over
/// the chronological stream.
pub proof fn lemma_chronological_increasing(pages: Seq<Seq<PullRecord>>)
    requires
        ids_decreasing(pages.flatten()),
    ensures
        ids_increasing(chron_of(pages)),
{
    lemma_chron_is_reverse_flatten(pages);
    let f = pages.flatten();
    let n = f.len() as int;
    assert forall|i: int, j: int|
        0 <= i < j < chron_of(pages).len() implies record_id_val(#[trigger] chron_of(pages)[i])
        < record_id_val(#[trigger] chron_of(pages)[j]) by {
        assert(chron_of(pages)[i] == f[n - 1 - i]);
        assert(chron_of(pages)[j] == f[n - 1 - j]);
        assert(record_id_val(f[n - 1 - j]) > record_id_val(f[n - 1 - i]));
    }
}

/// Pity reset law: the pity counter at 0-based chronological position `i`
/// equals the 1-based position of that record minus the 1-based position of
/// the most recent strictly-earlier top-rarity record (or minus nothing when
/// none exists), and it is exactly 1 right after any top-rarity record.
pub proof fn lemma_pity_reset_law(s: Seq<PullRecord>, top: u64, i: int)
    requires
        0 <= i < s.len(),
    ensures
        spec_pity(s, top, i) == i + 1 - last_top_pos(s, top, i),
        i > 0 && is_top(s[i - 1], top) ==> spec_pity(s, top, i) == 1,
    decreases i,
{
    if i > 0 && !is_top(s[i - 1], top) {
        lemma_pity_reset_law(s, top, i - 1);
    }
}

/// The pity counter is at least 1 and at most the 1-based position.
pub proof fn lemma_pity_bound(s: Seq<PullRecord>, top: u64, i: int)
    requires
        0 <= i,
    ensures
        1 <= spec_pity(s, top, i) <= i + 1,
    decreases i,
{
    if i > 0 && !is_top(s[i - 1], top) {
        lemma_pity_bound(s, top, i - 1);
    }
}

/// Replays fetched pages into the chronological stream: last page first,
/// each page's records reversed.
pub fn chronological(pages: Vec<Vec<PullRecord>>) -> (out: Vec<PullRecord>)
    ensures
        out@ == chron_of(pages@.map_values(|p: Vec<PullRecord>| p@)),
{
    let ghost orig = pages@.map_values(|p: Vec<PullRecord>| p@);
    let mut pages = pages;
    let mut out: Vec<PullRecord> = Vec::new();
    while pages.len() > 0
        invariant
            out@ + chron_of(pages@.map_values(|p: Vec<PullRecord>| p@)) == chron_of(orig),
        decreases pages.len(),
    {
        let ghost views_before = pages@.map_values(|p: Vec<PullRecord>| p@);
        let mut page = pages.pop().unwrap();
        proof {
            assert(pages@.map_values(|p: Vec<PullRecord>| p@) =~= views_before.drop_last());
            assert(views_before.last() == page@);
        }
        let ghost out_start = out@;
        let ghost p0 = page@;
        while page.len() > 0
            invariant
                page@.len() <= p0.len(),
                page@ =~= p0.take(page@.len() as int),
                out@ =~= out_start + p0.skip(page@.len() as int).reverse(),
            decreases page.len(),
        {
            let ghost k = page@.len() as int;
            let rec = page.pop().unwrap();
            proof {
                assert(rec == p0[k - 1]);
                assert(page@ =~= p0.take(k - 1));
                lemma_reverse_skip_step(p0, k);
            }
            out.push(rec);
        }
        proof {
            assert(p0.skip(0) =~= p0);
            assert(out@ =~= out_start + p0.reverse());
            assert(chron_of(views_before) == p0.reverse() + chron_of(views_before.drop_last()));
            assert(out@ + chron_of(views_before.drop_last()) =~= out_start + chron_of(
                views_before,
            ));
        }
    }
    proof {
        assert(pages@.map_values(|p: Vec<PullRecord>| p@) =~= Seq::<Seq<PullRecord>>::empty());
        assert(chron_of(pages@.map_values(|p: Vec<PullRecord>| p@)) =~= Seq::<
            PullRecord,
        >::empty());
        assert(out@ =~= out@ + Seq::<PullRecord>::empty());
    }
    out
}

/// The greatest rarity value among the records whose rank string is
/// readable, or nothing when no record has one.
pub fn top_rarity(records: &Vec<PullRecord>) -> (r: Option<u64>)
    ensures
        match r {
            Some(v) => top_of(records@) == Some(v as int),
            None => top_of(records@) is None,
        },
{
    let mut best: Option<u64> = None;
    let mut i: usize = 0;
    while i < records.len()
        invariant
            0 <= i <= records@.len(),
            match best {
                Some(v) => top_of(records@.take(i as int)) == Some(v as int),
                None => top_of(records@.take(i as int)) is None,
            },
        decreases records@.len() - i,
    {
        proof {
            assert(records@.take(i + 1).drop_last() =~= records@.take(i as int));
            assert(records@.take(i + 1).last() == records@[i as int]);
        }
        match parse_rank(records[i].rank_type.as_str()) {
            Some(v) => {
                best = match best {
                    Some(m) => if v > m {
                        Some(v)
                    } else {
                        Some(m)
                    },
                    None => Some(v),
                };
            },
            None => {},
        }
        i = i + 1;
    }
    proof {
        assert(records@.take(records@.len() as int) =~= records@);
    }
    best
}

/// Annotates a chronological record stream with both counters: the sequence
/// index enumerates the stream 1..N with no gaps or repeats, and the pity
/// counter restarts at 1 right after each record of rarity `top`.
pub fn annotate(records: Vec<PullRecord>, top: u64) -> (out: Vec<AnnotatedRecord>)
    ensures
        out@.len() == records@.len(),
        forall|i: int|
            0 <= i < records@.len() ==> {
                &&& (#[trigger] out@[i]).record == records@[i]
                &&& out@[i].sequence_index == i + 1
                &&& out@[i].pity_index == spec_pity(records@, top, i)
            },
{
    let ghost orig = records@;
    let n = records.len();
    // Reverse the stream so that records can be taken in order by moving
    // them out from the back.
    let mut input = records;
    let mut rev: Vec<PullRecord> = Vec::new();
    while input.len() > 0
        invariant
            input@.len() <= orig.len(),
            input@ =~= orig.take(input@.len() as int),
            rev@ =~= orig.skip(input@.len() as int).reverse(),
        decreases input.len(),
    {
        let ghost k = input@.len() as int;
        let rec = input.pop().unwrap();
        proof {
            assert(rec == orig[k - 1]);
            assert(input@ =~= orig.take(k - 1));
            lemma_reverse_skip_step(orig, k);
        }
        rev.push(rec);
    }
    proof {
        assert(orig.skip(0) =~= orig);
    }
    let mut out: Vec<AnnotatedRecord> = Vec::new();
    let mut prev_top: bool = false;
    let mut prev_pity: u64 = 0;
    while rev.len() > 0
        invariant
            out@.len() + rev@.len() == orig.len() == n,
            rev@ =~= orig.skip(out@.len() as int).reverse(),
            out@.len() > 0 ==> {
                &&& prev_top == is_top(orig[out@.len() - 1], top)
                &&& prev_pity == spec_pity(orig, top, out@.len() - 1)
                &&& prev_pity <= out@.len()
            },
            forall|i: int|
                0 <= i < out@.len() ==> {
                    &&& (#[trigger] out@[i]).record == orig[i]
                    &&& out@[i].sequence_index == i + 1
                    &&& out@[i].pity_index == spec_pity(orig, top, i)
                },
        decreases rev.len(),
    {
        let ghost j = out@.len() as int;
        let rec = rev.pop().unwrap();
        proof {
            assert(orig.skip(j).reverse().last() == orig.skip(j)[0]);
            assert(rec == orig[j]);
            assert(rev@ =~= orig.skip(j).reverse().drop_last());
            lemma_reverse_skip_step(orig, j + 1);
            assert(orig.skip(j).reverse() =~= orig.skip(j + 1).reverse().push(orig[j]));
            assert(rev@ =~= orig.skip(j + 1).reverse());
        }
        let seq_index: u64 = (out.len() as u64) + 1;
        let cur_pity: u64 = if out.len() == 0 {
            1
        } else if prev_top {
            1
        } else {
            proof {
                lemma_pity_bound(orig, top, j - 1);
            }
            prev_pity + 1
        };
        assert(cur_pity == spec_pity(orig, top, j));
        let top_hit = match parse_rank(rec.rank_type.as_str()) {
            Some(v) => v == top,
            None => false,
        };
        assert(top_hit == is_top(orig[j], top));
        out.push(
            AnnotatedRecord { record: rec, sequence_index: seq_index, pity_index: cur_pity },
        );
        prev_top = top_hit;
        prev_pity = cur_pity;
    }
    out
}

/// The full per-category aggregation: fetched pages in, annotated
/// chronological stream out, with the top rarity taken as the greatest
/// readable rarity value of the stream.
pub fn annotate_history(pages: Vec<Vec<PullRecord>>) -> (out: Vec<AnnotatedRecord>)
    ensures
        ({
            let chron = chron_of(pages@.map_values(|p: Vec<PullRecord>| p@));
            let top = top_or_zero(chron);
            &&& out@.len() == chron.len()
            &&& forall|i: int|
                0 <= i < chron.len() ==> {
                    &&& (#[trigger] out@[i]).record == chron[i]
                    &&& out@[i].sequence_index == i + 1
                    &&& out@[i].pity_index == spec_pity(chron, top, i)
                }
        }),
{
    let chron = chronological(pages);
    let top = match top_rarity(&chron) {
        Some(v) => v,
        None => 0,
    };
    annotate(chron, top)
}

/// Reorders annotated records for display: newest first, the reverse of the
/// chronological order the counters were computed in.
pub fn display_order(rows: Vec<AnnotatedRecord>) -> (out: Vec<AnnotatedRecord>)
    ensures
        out@ == rows@.reverse(),
{
    let ghost orig = rows@;
    let mut input = rows;
    let mut out: Vec<AnnotatedRecord> = Vec::new();
    while input.len() > 0
        invariant
            input@.len() <= orig.len(),
            input@ =~= orig.take(input@.len() as int),
            out@ =~= orig.skip(input@.len() as int).reverse(),
        decreases input.len(),
    {
        let ghost k = input@.len() as int;
        let rec = input.pop().unwrap();
        proof {
            assert(rec == orig[k - 1]);
            assert(input@ =~= orig.take(k - 1));
            lemma_reverse_skip_step(orig, k);
        }
        out.push(rec);
    }
    proof {
        assert(orig.skip(0) =~= orig);
    }
    out
}

} // verus!
