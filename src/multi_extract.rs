use vstd::prelude::*;
use crate::pipeline::{error_texts, ok_rows, Pipeline, PipelineStats, StatsView};
use crate::record::Record;
use crate::source::{csv_rows, records_view, MultiCsvReader, DELIMITER};
use crate::stream::StreamingPipeline;

verus! {

/// Why extraction over several sources could not start.
#[derive(Debug, Clone, Copy, PartialEq, Eq)]
pub enum ExtractError {
    NoSources,
}

pub open spec fn texts_view(texts: Seq<Vec<u8>>) -> Seq<Seq<u8>> {
    texts.map_values(|t: Vec<u8>| t@)
}

/// The rows that parse in each `;`-separated text, text after text.
pub open spec fn all_ok_rows(texts: Seq<Seq<u8>>) -> Seq<Seq<Seq<char>>>
    decreases texts.len(),
{
    if texts.len() == 0 {
        Seq::empty()
    } else {
        all_ok_rows(texts.drop_last()) + ok_rows(csv_rows(texts.last(), DELIMITER))
    }
}

/// The parse error texts of each `;`-separated text, text after text.
pub open spec fn all_error_texts(texts: Seq<Seq<u8>>) -> Seq<Seq<char>>
    decreases texts.len(),
{
    if texts.len() == 0 {
        Seq::empty()
    } else {
        all_error_texts(texts.drop_last()) + error_texts(csv_rows(texts.last(), DELIMITER))
    }
}

/// Extracts every text and joins the results in the given order, statistics
/// added up.
pub fn multi_extract(sources: &[Vec<u8>]) -> (r: Result<Pipeline<Record>, ExtractError>)
    ensures
        r is Err <==> sources@.len() == 0,
        r is Ok ==> records_view(r->Ok_0.data@) == all_ok_rows(texts_view(sources@)),
        r is Ok ==> r->Ok_0.stats@ == (StatsView {
            extracted: r->Ok_0.data@.len(),
            transformed: 0,
            filtered: 0,
            errors: all_error_texts(texts_view(sources@)),
        }),
{
    if sources.len() == 0 {
        return Err(ExtractError::NoSources);
    }
    let ghost tv = texts_view(sources@);
    let first = Pipeline::extract(sources[0].as_slice());
    let mut data = first.data;
    let mut stats = first.stats;
    let mut i: usize = 1;
    assert(tv.subrange(0, 1).drop_last() =~= Seq::<Seq<u8>>::empty());
    assert(tv.subrange(0, 1).last() == sources@[0]@);
    assert(all_ok_rows(Seq::<Seq<u8>>::empty()) =~= Seq::empty());
    assert(all_error_texts(Seq::<Seq<u8>>::empty()) =~= Seq::empty());
    assert(all_ok_rows(tv.subrange(0, 1)) =~= ok_rows(csv_rows(sources@[0]@, DELIMITER)));
    assert(all_error_texts(tv.subrange(0, 1)) =~= error_texts(csv_rows(sources@[0]@, DELIMITER)));
    while i < sources.len()
        invariant
            tv == texts_view(sources@),
            1 <= i <= sources@.len(),
            records_view(data@) == all_ok_rows(tv.subrange(0, i as int)),
            stats@ == (StatsView {
                extracted: data@.len(),
                transformed: 0,
                filtered: 0,
                errors: all_error_texts(tv.subrange(0, i as int)),
            }),
        decreases sources@.len() - i,
    {
        let mut next = Pipeline::extract(sources[i].as_slice());
        let ghost d0 = data@;
        let ghost d1 = next.data@;
        data.append(&mut next.data);
        let total = data.len();
        stats = stats.combine(next.stats);
        assert(tv.subrange(0, i + 1).drop_last() =~= tv.subrange(0, i as int));
        assert(records_view(data@) =~= records_view(d0) + records_view(d1));
        i += 1;
    }
    assert(tv.subrange(0, sources@.len() as int) =~= tv);
    Ok(Pipeline { data, stats })
}

/// A streaming pipeline over the `;`-separated texts, read one after the
/// other in chunks of at most `chunk_size` rows.
pub fn multi_extract_streaming(sources: &[Vec<u8>], chunk_size: usize) -> (r: Result<
    StreamingPipeline<MultiCsvReader>,
    ExtractError,
>)
    requires
        chunk_size > 0,
    ensures
        r is Err <==> sources@.len() == 0,
        r is Ok ==> {
            let p = r->Ok_0;
            &&& p.chunks.wf()
            &&& p.chunks.sources().len() == sources@.len()
            &&& forall|i: int| 0 <= i < sources@.len() ==> p.chunks.sources()[i] == csv_rows(#[trigger] sources@[i]@, DELIMITER)
            &&& p.chunks.current_index() == 0
            &&& p.chunks.pos() == 0
            &&& p.chunks.chunk_size() == chunk_size
            &&& p.stats@ == (StatsView { extracted: 0, transformed: 0, filtered: 0, errors: Seq::empty() })
        },
{
    if sources.len() == 0 {
        return Err(ExtractError::NoSources);
    }
    let chunks = MultiCsvReader::new(sources, chunk_size);
    Ok(StreamingPipeline { chunks, stats: PipelineStats::new() })
}

} // verus!
