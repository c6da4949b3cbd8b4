use vstd::prelude::*;
use crate::pipeline::{count_true, key_counts, ok_rows, select, stats_sum, Pipeline, StatsView};
use crate::source::{chunk_at, chunks_from, chunks_of_sources, csv_rows, lemma_chunk_at_bounds, RowView, DELIMITER};

verus! {

/// The rows that parse in two stretches of rows are those of the first, then
/// those of the second.
pub proof fn lemma_ok_rows_concat(a: Seq<RowView>, b: Seq<RowView>)
    ensures
        ok_rows(a + b) == ok_rows(a) + ok_rows(b),
    decreases b.len(),
{
    if b.len() == 0 {
        assert(a + b =~= a);
        assert(ok_rows(a) + ok_rows(b) =~= ok_rows(a));
    } else {
        lemma_ok_rows_concat(a, b.drop_last());
        assert((a + b).drop_last() =~= a + b.drop_last());
        match b.last() {
            Ok(r) => {
                assert(ok_rows(a) + ok_rows(b) =~= (ok_rows(a) + ok_rows(b.drop_last())).push(r));
            },
            Err(_) => {},
        }
    }
}

/// A chunk holds exactly the rows that parse in the stretch it consumed.
pub proof fn lemma_chunk_at_is_ok_rows(rows: Seq<RowView>, pos: int, size: nat)
    requires
        0 <= pos <= rows.len(),
    ensures
        chunk_at(rows, pos, size).0 == ok_rows(rows.subrange(pos, chunk_at(rows, pos, size).1)),
    decreases size,
{
    if size == 0 || pos >= rows.len() {
        assert(rows.subrange(pos, pos) =~= Seq::<RowView>::empty());
    } else {
        let single = rows.subrange(pos, pos + 1);
        assert(single.drop_last() =~= Seq::<RowView>::empty());
        assert(single.last() == rows[pos]);
        assert(ok_rows(Seq::<RowView>::empty()) =~= Seq::empty());
        match rows[pos] {
            Ok(r) => {
                let rest = chunk_at(rows, pos + 1, (size - 1) as nat);
                lemma_chunk_at_is_ok_rows(rows, pos + 1, (size - 1) as nat);
                lemma_chunk_at_bounds(rows, pos + 1, (size - 1) as nat);
                assert(rows.subrange(pos, rest.1) =~= single + rows.subrange(pos + 1, rest.1));
                lemma_ok_rows_concat(single, rows.subrange(pos + 1, rest.1));
                assert(ok_rows(single) =~= seq![r]);
            },
            Err(_) => {},
        }
    }
}

/// Chunked reading of rows that all parse yields every row once, in the
/// order that reading the whole source at once gives, in chunks of between
/// one and `size` rows.
pub proof fn lemma_chunked_matches_whole(rows: Seq<RowView>, pos: int, size: nat)
    requires
        size > 0,
        0 <= pos <= rows.len(),
        forall|i: int| pos <= i < rows.len() ==> (#[trigger] rows[i]) is Ok,
    ensures
        chunks_from(rows, pos, size).flatten() == ok_rows(rows.subrange(pos, rows.len() as int)),
        forall|j: int|
            0 <= j < chunks_from(rows, pos, size).len() ==> 0 < (#[trigger] chunks_from(rows, pos, size)[j]).len()
                <= size,
    decreases rows.len() - pos,
{
    let c = chunk_at(rows, pos, size);
    lemma_chunk_at_bounds(rows, pos, size);
    lemma_chunk_at_is_ok_rows(rows, pos, size);
    if pos == rows.len() {
        assert(rows.subrange(pos, pos) =~= Seq::<RowView>::empty());
    } else {
        assert(c.0.len() > 0) by {
            assert(rows[pos] is Ok);
            let rest = chunk_at(rows, pos + 1, (size - 1) as nat);
            assert(c.0 == seq![rows[pos]->Ok_0] + rest.0);
        }
        lemma_chunked_matches_whole(rows, c.1, size);
        let rest = chunks_from(rows, c.1, size);
        assert(chunks_from(rows, pos, size) == seq![c.0] + rest);
        assert((seq![c.0] + rest).drop_first() =~= rest);
        assert(rows.subrange(pos, rows.len() as int) =~= rows.subrange(pos, c.1) + rows.subrange(
            c.1,
            rows.len() as int,
        ));
        lemma_ok_rows_concat(rows.subrange(pos, c.1), rows.subrange(c.1, rows.len() as int));
        assert forall|j: int| 0 <= j < chunks_from(rows, pos, size).len() implies 0 < (
        #[trigger] chunks_from(rows, pos, size)[j]).len() <= size by {
            if j > 0 {
                assert(chunks_from(rows, pos, size)[j] == rest[j - 1]);
            }
        }
    }
}

/// Reading a text in chunks (`CsvReader::new`, then `next` until `None`)
/// and extracting it whole (`Pipeline::extract`) agree when every row
/// parses: the chunks, joined, are the extracted rows in the same order, so
/// their lengths add up to the extracted count.
pub proof fn lemma_streaming_matches_extract(text: Seq<u8>, size: nat)
    requires
        size > 0,
        forall|i: int| 0 <= i < csv_rows(text, DELIMITER).len() ==> (#[trigger] csv_rows(text, DELIMITER)[i]) is Ok,
    ensures
        chunks_from(csv_rows(text, DELIMITER), 0, size).flatten() == ok_rows(csv_rows(text, DELIMITER)),
        chunks_from(csv_rows(text, DELIMITER), 0, size).flatten().len() == ok_rows(csv_rows(text, DELIMITER)).len(),
{
    let rows = csv_rows(text, DELIMITER);
    lemma_chunked_matches_whole(rows, 0, size);
    assert(rows.subrange(0, rows.len() as int) =~= rows);
}

/// Merging is associative: merging `a` with `b` and then `c` gives the same
/// elements and statistics as merging `a` with the merge of `b` and `c`.
pub proof fn lemma_merge_associative<T>(a: Pipeline<T>, b: Pipeline<T>, c: Pipeline<T>)
    ensures
        (a.data@ + b.data@) + c.data@ == a.data@ + (b.data@ + c.data@),
        stats_sum(stats_sum(a.stats@, b.stats@), c.stats@) == stats_sum(a.stats@, stats_sum(b.stats@, c.stats@)),
{
    assert((a.data@ + b.data@) + c.data@ =~= a.data@ + (b.data@ + c.data@));
    assert(stats_sum(stats_sum(a.stats@, b.stats@), c.stats@).errors =~= stats_sum(
        a.stats@,
        stats_sum(b.stats@, c.stats@),
    ).errors);
}

/// Merging adds the lengths of the two sequences.
pub proof fn lemma_merge_len<T>(a: Pipeline<T>, b: Pipeline<T>)
    ensures
        (a.data@ + b.data@).len() == a.data@.len() + b.data@.len(),
{
}

/// Statistics sums are associative, and commutative in every counter; the
/// error lists of the two orders hold the same texts, each as often.
pub proof fn lemma_stats_sum_laws(a: StatsView, b: StatsView, c: StatsView)
    ensures
        stats_sum(stats_sum(a, b), c) == stats_sum(a, stats_sum(b, c)),
        stats_sum(a, b).extracted == stats_sum(b, a).extracted,
        stats_sum(a, b).transformed == stats_sum(b, a).transformed,
        stats_sum(a, b).filtered == stats_sum(b, a).filtered,
        stats_sum(a, b).errors.to_multiset() == stats_sum(b, a).errors.to_multiset(),
{
    assert(stats_sum(stats_sum(a, b), c).errors =~= stats_sum(a, stats_sum(b, c)).errors);
    vstd::seq_lib::lemma_multiset_commutative(a.errors, b.errors);
    vstd::seq_lib::lemma_multiset_commutative(b.errors, a.errors);
}

/// A key occurs in a sequence at most as often as the sequence is long.
pub proof fn lemma_count_le_len<K>(s: Seq<K>, k: K)
    ensures
        s.to_multiset().count(k) <= s.len(),
    decreases s.len(),
{
    broadcast use vstd::seq_lib::group_to_multiset_ensures;
    if s.len() == 0 {
        vstd::multiset::lemma_multiset_empty_len(s.to_multiset());
    } else {
        lemma_count_le_len(s.drop_last(), k);
        assert(s.drop_last().push(s.last()) =~= s);
        vstd::seq_lib::to_multiset_build(s.drop_last(), s.last());
    }
}

/// The counts add up to the number of keys: counting a sequence of keys
/// gives each key its number of occurrences, and these occurrences together
/// are as many as the keys.
pub proof fn lemma_counts_total<K>(keys: Seq<K>)
    ensures
        keys.to_multiset().len() == keys.len(),
        forall|k: K| key_counts(keys).contains_key(k) <==> keys.to_multiset().count(k) > 0,
        keys.len() <= usize::MAX ==> forall|k: K|
            key_counts(keys).contains_key(k) ==> key_counts(keys)[k] == keys.to_multiset().count(k),
{
    broadcast use vstd::seq_lib::group_to_multiset_ensures;
    assert forall|k: K| keys.len() <= usize::MAX && key_counts(keys).contains_key(k) implies key_counts(
        keys,
    )[k] == keys.to_multiset().count(k) by {
        lemma_count_le_len(keys, k);
    }
}

/// Counts of two parts summed key by key.
pub open spec fn sum_counts<K>(a: Map<K, usize>, b: Map<K, usize>) -> Map<K, usize> {
    Map::new(
        |k: K| a.contains_key(k) || b.contains_key(k),
        |k: K|
            ((if a.contains_key(k) { a[k] as int } else { 0 }) + (if b.contains_key(k) {
                b[k] as int
            } else {
                0
            })) as usize,
    )
}

/// Counting does not depend on how the keys are split among workers:
/// counting two parts separately and summing the counts gives the counts of
/// the whole.
pub proof fn lemma_counts_split<K>(a: Seq<K>, b: Seq<K>)
    requires
        a.len() + b.len() <= usize::MAX,
    ensures
        key_counts(a + b) == sum_counts(key_counts(a), key_counts(b)),
{
    broadcast use vstd::seq_lib::group_to_multiset_ensures;
    vstd::seq_lib::lemma_multiset_commutative(a, b);
    assert forall|k: K| #[trigger] key_counts(a + b).contains_key(k) implies key_counts(a + b)[k] == sum_counts(
        key_counts(a),
        key_counts(b),
    )[k] by {
        lemma_count_le_len(a, k);
        lemma_count_le_len(b, k);
    }
    assert(key_counts(a + b) =~= sum_counts(key_counts(a), key_counts(b)));
}

/// The rows that parse in sources `idx` onwards, source after source.
pub open spec fn ok_rows_of_sources(sources: Seq<Seq<RowView>>, idx: int) -> Seq<Seq<Seq<char>>>
    decreases sources.len() - idx,
{
    if idx < 0 || idx >= sources.len() {
        Seq::empty()
    } else {
        ok_rows(sources[idx]) + ok_rows_of_sources(sources, idx + 1)
    }
}

/// Chunked reading of several sources whose rows all parse yields every row
/// once, source after source and in each source's order, as reading each
/// source whole and joining the results does.
pub proof fn lemma_multi_chunked_matches_whole(sources: Seq<Seq<RowView>>, idx: int, size: nat)
    requires
        size > 0,
        0 <= idx <= sources.len(),
        forall|i: int, j: int| idx <= i < sources.len() && 0 <= j < sources[i].len() ==> (#[trigger] sources[i][j]) is Ok,
    ensures
        chunks_of_sources(sources, idx, 0, size).flatten() == ok_rows_of_sources(sources, idx),
    decreases sources.len() - idx,
{
    if idx < sources.len() {
        let src = sources[idx];
        assert forall|j: int| 0 <= j < src.len() implies (#[trigger] src[j]) is Ok by {
            assert(sources[idx][j] is Ok);
        }
        lemma_chunked_matches_whole(src, 0, size);
        assert(src.subrange(0, src.len() as int) =~= src);
        lemma_multi_chunked_matches_whole(sources, idx + 1, size);
        vstd::seq_lib::lemma_flatten_concat(
            chunks_from(src, 0, size),
            chunks_of_sources(sources, idx + 1, 0, size),
        );
    }
}

/// The positions whose flag in `keep` is set, in increasing order.
pub open spec fn kept_positions(keep: Seq<bool>) -> Seq<int>
    decreases keep.len(),
{
    if keep.len() == 0 {
        Seq::empty()
    } else {
        let rest = kept_positions(keep.drop_last());
        if keep.last() {
            rest.push(keep.len() - 1)
        } else {
            rest
        }
    }
}

/// Filtering keeps the relative order of what it keeps: the result is the
/// elements at the flagged positions, taken in increasing order of position,
/// and every flagged position is taken, as many as there are flags.
pub proof fn lemma_select_keeps_order<T>(s: Seq<T>, keep: Seq<bool>)
    requires
        keep.len() == s.len(),
    ensures
        select(s, keep).len() == kept_positions(keep).len(),
        select(s, keep).len() == count_true(keep),
        forall|j: int| 0 <= j < kept_positions(keep).len() ==> {
            let p = #[trigger] kept_positions(keep)[j];
            &&& 0 <= p < s.len()
            &&& keep[p]
            &&& select(s, keep)[j] == s[p]
        },
        forall|j1: int, j2: int|
            0 <= j1 < j2 < kept_positions(keep).len() ==> kept_positions(keep)[j1] < kept_positions(keep)[j2],
        forall|p: int| 0 <= p < s.len() && keep[p] ==> kept_positions(keep).contains(p),
    decreases s.len(),
{
    crate::pipeline::lemma_select_len(s, keep);
    if s.len() > 0 {
        let k0 = keep.subrange(0, s.len() - 1);
        assert(k0 =~= keep.drop_last());
        lemma_select_keeps_order(s.drop_last(), k0);
        let rest = kept_positions(k0);
        assert forall|p: int| 0 <= p < s.len() && keep[p] implies kept_positions(keep).contains(p) by {
            if p < s.len() - 1 {
                assert(k0[p]);
                assert(rest.contains(p));
                let w = choose|w: int| 0 <= w < rest.len() && rest[w] == p;
                if keep.last() {
                    assert(kept_positions(keep)[w] == p);
                }
            } else {
                assert(kept_positions(keep).last() == p);
            }
        }
    }
}

/// Filtering never keeps more than it is given: after a transform sets the
/// transformed count to the length, a filter sets the filtered count to at
/// most that.
pub proof fn lemma_filtered_within_transformed<T>(s: Seq<T>, keep: Seq<bool>)
    requires
        keep.len() == s.len(),
    ensures
        select(s, keep).len() <= s.len(),
    decreases s.len(),
{
    if s.len() > 0 {
        lemma_filtered_within_transformed(s.drop_last(), keep.subrange(0, s.len() - 1));
    }
}

/// What counting the parts one by one and summing the counts gives.
pub open spec fn counts_of_parts<K>(parts: Seq<Seq<K>>) -> Map<K, usize>
    decreases parts.len(),
{
    if parts.len() == 0 {
        Map::empty()
    } else {
        sum_counts(counts_of_parts(parts.drop_last()), key_counts(parts.last()))
    }
}

/// However the keys are split among any number of workers, counting each
/// part and summing the counts gives the counts of the whole.
pub proof fn lemma_counts_any_partition<K>(parts: Seq<Seq<K>>)
    requires
        parts.flatten().len() <= usize::MAX,
    ensures
        key_counts(parts.flatten()) == counts_of_parts(parts),
    decreases parts.len(),
{
    broadcast use vstd::seq_lib::group_to_multiset_ensures;
    parts.lemma_flatten_and_flatten_alt_are_equivalent();
    if parts.len() == 0 {
        vstd::multiset::lemma_multiset_empty_len(parts.flatten().to_multiset());
        assert(key_counts(parts.flatten()) =~= Map::<K, usize>::empty());
    } else {
        let init = parts.drop_last();
        init.lemma_flatten_and_flatten_alt_are_equivalent();
        assert(parts.flatten_alt() == init.flatten_alt() + parts.last());
        lemma_counts_any_partition(init);
        lemma_counts_split(init.flatten(), parts.last());
    }
}

/// Every chunk that reading from `pos` yields holds at least one row.
pub proof fn lemma_chunks_nonempty(rows: Seq<RowView>, pos: int, size: nat)
    ensures
        forall|j: int| 0 <= j < chunks_from(rows, pos, size).len() ==> (#[trigger] chunks_from(rows, pos, size)[j]).len() > 0,
    decreases rows.len() - pos,
{
    let c = chunk_at(rows, pos, size);
    if !(c.0.len() == 0 || c.1 <= pos || c.1 > rows.len()) {
        lemma_chunks_nonempty(rows, c.1, size);
        let rest = chunks_from(rows, c.1, size);
        assert forall|j: int| 0 <= j < chunks_from(rows, pos, size).len() implies (#[trigger] chunks_from(rows, pos, size)[j]).len() > 0 by {
            if j > 0 {
                assert(chunks_from(rows, pos, size)[j] == rest[j - 1]);
            }
        }
    }
}

/// Reading several sources never yields an empty chunk, and a source with
/// no rows adds no chunk: the chunks are those of the following sources.
pub proof fn lemma_sources_chunks_nonempty(sources: Seq<Seq<RowView>>, idx: int, pos: int, size: nat)
    ensures
        forall|j: int|
            0 <= j < chunks_of_sources(sources, idx, pos, size).len() ==> (#[trigger] chunks_of_sources(
                sources,
                idx,
                pos,
                size,
            )[j]).len() > 0,
        0 <= idx < sources.len() && sources[idx].len() == 0 ==> chunks_of_sources(sources, idx, pos, size)
            == chunks_of_sources(sources, idx + 1, 0, size),
    decreases sources.len() - idx,
{
    if 0 <= idx < sources.len() {
        lemma_chunks_nonempty(sources[idx], pos, size);
        lemma_sources_chunks_nonempty(sources, idx + 1, 0, size);
        let a = chunks_from(sources[idx], pos, size);
        let b = chunks_of_sources(sources, idx + 1, 0, size);
        assert forall|j: int| 0 <= j < (a + b).len() implies (#[trigger] (a + b)[j]).len() > 0 by {
            if j >= a.len() {
                assert((a + b)[j] == b[j - a.len()]);
            }
        }
        if sources[idx].len() == 0 {
            assert(chunk_at(sources[idx], pos, size).0.len() == 0);
            assert(a + b =~= b);
        }
    }
}

} // verus!
