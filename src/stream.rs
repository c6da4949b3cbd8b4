use vstd::prelude::*;
use crate::pipeline::{select, PipelineStats, StatsView};
use crate::record::Record;
use crate::source::{lemma_chunk_at_bounds, records_view, CsvReader, MultiCsvReader, DELIMITER};

verus! {

/// The views of a sequence of values.
pub open spec fn views<T: View>(s: Seq<T>) -> Seq<T::V> {
    s.map_values(|x: T| x@)
}

/// How many elements the chunks hold together.
pub open spec fn total_len<V>(chunks: Seq<Seq<V>>) -> nat {
    chunks.flatten().len()
}

/// A single-pass sequence of chunks, pulled one at a time.
pub trait ChunkSource {
    type Item: View;

    /// The source can be pulled from.
    spec fn ready(&self) -> bool;

    /// The chunks still to come, as views, in order.
    spec fn pending(&self) -> Seq<Seq<<Self::Item as View>::V>>;

    /// The next chunk, or `None` at the end.
    fn next_chunk(&mut self) -> (r: Option<Vec<Self::Item>>)
        requires
            old(self).ready(),
        ensures
            final(self).ready(),
            r is None <==> old(self).pending().len() == 0,
            r is None ==> final(self).pending().len() == 0,
            r is Some ==> views(r->Some_0@) == old(self).pending()[0] && final(self).pending()
                == old(self).pending().drop_first(),
    ;
}

impl ChunkSource for CsvReader {
    type Item = Record;

    open spec fn ready(&self) -> bool {
        self.wf()
    }

    open spec fn pending(&self) -> Seq<Seq<Seq<Seq<char>>>> {
        CsvReader::pending(self)
    }

    fn next_chunk(&mut self) -> (r: Option<Vec<Record>>) {
        proof {
            lemma_chunk_at_bounds(self.rows(), self.pos(), self.chunk_size());
        }
        let r = self.next();
        proof {
            if r is Some {
                assert(views(r->Some_0@) =~= records_view(r->Some_0@));
            }
        }
        r
    }
}

impl ChunkSource for MultiCsvReader {
    type Item = Record;

    open spec fn ready(&self) -> bool {
        self.wf()
    }

    open spec fn pending(&self) -> Seq<Seq<Seq<Seq<char>>>> {
        MultiCsvReader::pending(self)
    }

    fn next_chunk(&mut self) -> (r: Option<Vec<Record>>) {
        let r = self.next();
        proof {
            if r is Some {
                assert(views(r->Some_0@) =~= records_view(r->Some_0@));
            }
        }
        r
    }
}

/// What `f` makes of an element with view `v`, as a view.
pub open spec fn image_view<T: View, U: View, F: Fn(T) -> U>(f: F, v: T::V) -> U::V {
    (choose|xy: (T, U)| xy.0@ == v && #[trigger] f.ensures((xy.0,), xy.1)).1@
}

/// What `f` returns depends on the view of its argument alone, as a view.
pub open spec fn view_deterministic<T: View, U: View, F: Fn(T) -> U>(f: F) -> bool {
    forall|x1: T, x2: T, y1: U, y2: U|
        #![trigger f.ensures((x1,), y1), f.ensures((x2,), y2)]
        x1@ == x2@ && f.ensures((x1,), y1) && f.ensures((x2,), y2) ==> y1@ == y2@
}

/// Whether `p` holds of an element with view `v`.
pub open spec fn holds_view<T: View, P: Fn(&T) -> bool>(p: P, v: T::V) -> bool {
    exists|x: T| x@ == v && #[trigger] p.ensures((&x,), true)
}

/// What `p` returns depends on the view of its argument alone.
pub open spec fn pred_deterministic<T: View, P: Fn(&T) -> bool>(p: P) -> bool {
    forall|x1: T, x2: T, b1: bool, b2: bool|
        #![trigger p.ensures((&x1,), b1), p.ensures((&x2,), b2)]
        x1@ == x2@ && p.ensures((&x1,), b1) && p.ensures((&x2,), b2) ==> b1 == b2
}

pub proof fn lemma_image_view<T: View, U: View, F: Fn(T) -> U>(f: F, x: T, y: U)
    requires
        view_deterministic(f),
        f.ensures((x,), y),
    ensures
        image_view(f, x@) == y@,
{
    let xy0 = (x, y);
    assert(xy0.0@ == x@ && f.ensures((xy0.0,), xy0.1));
    let xy = choose|xy: (T, U)| xy.0@ == x@ && #[trigger] f.ensures((xy.0,), xy.1);
    assert(f.ensures((xy.0,), xy.1) && f.ensures((x,), y));
}

pub proof fn lemma_holds_view<T: View, P: Fn(&T) -> bool>(p: P, x: T, b: bool)
    requires
        pred_deterministic(p),
        p.ensures((&x,), b),
    ensures
        holds_view(p, x@) == b,
{
    if holds_view(p, x@) {
        let x1 = choose|x1: T| x1@ == x@ && #[trigger] p.ensures((&x1,), true);
        assert(p.ensures((&x1,), true) && p.ensures((&x,), b));
    }
}

/// Viewing the selected elements is selecting among the views.
pub proof fn lemma_views_select<T: View>(s: Seq<T>, keep: Seq<bool>)
    requires
        keep.len() == s.len(),
    ensures
        views(select(s, keep)) == select(views(s), keep),
    decreases s.len(),
{
    if s.len() > 0 {
        lemma_views_select(s.drop_last(), keep.subrange(0, s.len() - 1));
        assert(views(s.drop_last()) =~= views(s).drop_last());
        let rest = select(s.drop_last(), keep.subrange(0, s.len() - 1));
        if keep[s.len() - 1] {
            assert(views(rest.push(s.last())) =~= views(rest).push(s.last()@));
        }
    }
}

/// The flags that `p` gives the elements of a chunk of views.
pub open spec fn flags_view<T: View, P: Fn(&T) -> bool>(p: P, c: Seq<T::V>) -> Seq<bool> {
    Seq::new(c.len(), |i: int| holds_view::<T, P>(p, c[i]))
}

/// Applies `f` to each element of a chunk, in order.
pub fn map_chunk<T, U, F: Fn(T) -> U>(chunk: Vec<T>, f: &F) -> (r: Vec<U>)
    requires
        forall|i: int| 0 <= i < chunk@.len() ==> f.requires((chunk@[i],)),
    ensures
        r@.len() == chunk@.len(),
        forall|i: int| 0 <= i < chunk@.len() ==> f.ensures((chunk@[i],), #[trigger] r@[i]),
{
    let ghost all = chunk@;
    let mut out: Vec<U> = Vec::new();
    for x in it: chunk.into_iter()
        invariant
            it.seq() == all,
            out@.len() == it.index(),
            forall|i: int| 0 <= i < all.len() ==> f.requires((all[i],)),
            forall|i: int| 0 <= i < out@.len() ==> f.ensures((all[i],), #[trigger] out@[i]),
    {
        out.push(f(x));
    }
    out
}

/// Keeps the elements of a chunk on which `p` holds, in order.
pub fn filter_chunk<T, P: Fn(&T) -> bool>(chunk: Vec<T>, p: &P) -> (r: Vec<T>)
    requires
        forall|i: int| 0 <= i < chunk@.len() ==> p.requires((&chunk@[i],)),
    ensures
        exists|keep: Seq<bool>|
            {
                &&& keep.len() == chunk@.len()
                &&& forall|i: int| 0 <= i < keep.len() ==> p.ensures((&chunk@[i],), #[trigger] keep[i])
                &&& r@ == select(chunk@, keep)
            },
{
    let ghost all = chunk@;
    let ghost mut keep: Seq<bool> = Seq::empty();
    let mut out: Vec<T> = Vec::new();
    for x in it: chunk.into_iter()
        invariant
            it.seq() == all,
            keep.len() == it.index(),
            forall|i: int| 0 <= i < all.len() ==> p.requires((&all[i],)),
            forall|i: int| 0 <= i < keep.len() ==> p.ensures((&all[i],), #[trigger] keep[i]),
            out@ == select(all.subrange(0, keep.len() as int), keep),
    {
        let ghost pre = all.subrange(0, keep.len() as int);
        let b = p(&x);
        assert(all.subrange(0, keep.len() as int + 1).drop_last() =~= pre);
        let ghost k0 = keep;
        proof {
            keep = keep.push(b);
        }
        assert(keep.subrange(0, k0.len() as int) =~= k0);
        if b {
            out.push(x);
        }
    }
    assert(all.subrange(0, all.len() as int) =~= all);
    out
}

/// A source whose chunks are those of `inner`, each element mapped by `f`.
pub struct MapChunks<S, F> {
    pub inner: S,
    pub f: F,
}

impl<S: ChunkSource, U: View, F: Fn(S::Item) -> U> ChunkSource for MapChunks<S, F> {
    type Item = U;

    open spec fn ready(&self) -> bool {
        &&& self.inner.ready()
        &&& forall|x: S::Item| self.f.requires((x,))
        &&& view_deterministic(self.f)
    }

    open spec fn pending(&self) -> Seq<Seq<U::V>> {
        self.inner.pending().map_values(
            |c: Seq<<S::Item as View>::V>| c.map_values(|v: <S::Item as View>::V| image_view::<S::Item, U, F>(self.f, v)),
        )
    }

    fn next_chunk(&mut self) -> (r: Option<Vec<U>>) {
        match self.inner.next_chunk() {
            Some(chunk) => {
                let ghost c = chunk@;
                let out = map_chunk(chunk, &self.f);
                proof {
                    assert forall|i: int| 0 <= i < c.len() implies image_view::<S::Item, U, F>(self.f, c[i]@)
                        == #[trigger] out@[i]@ by {
                        lemma_image_view(self.f, c[i], out@[i]);
                    }
                    assert(views(out@) =~= views(c).map_values(|v: <S::Item as View>::V| image_view::<S::Item, U, F>(self.f, v)));
                }
                Some(out)
            },
            None => None,
        }
    }
}

/// A source whose chunks are those of `inner`, keeping the elements on which
/// `predicate` holds.
pub struct FilterChunks<S, P> {
    pub inner: S,
    pub predicate: P,
}

impl<S: ChunkSource, P: Fn(&S::Item) -> bool> ChunkSource for FilterChunks<S, P> {
    type Item = S::Item;

    open spec fn ready(&self) -> bool {
        &&& self.inner.ready()
        &&& forall|x: &S::Item| self.predicate.requires((x,))
        &&& pred_deterministic(self.predicate)
    }

    open spec fn pending(&self) -> Seq<Seq<<S::Item as View>::V>> {
        self.inner.pending().map_values(
            |c: Seq<<S::Item as View>::V>| select(c, flags_view::<S::Item, P>(self.predicate, c)),
        )
    }

    fn next_chunk(&mut self) -> (r: Option<Vec<S::Item>>) {
        match self.inner.next_chunk() {
            Some(chunk) => {
                let ghost c = chunk@;
                let out = filter_chunk(chunk, &self.predicate);
                proof {
                    let keep = choose|keep: Seq<bool>|
                        {
                            &&& keep.len() == c.len()
                            &&& forall|i: int| 0 <= i < keep.len() ==> self.predicate.ensures((&c[i],), #[trigger] keep[i])
                            &&& out@ == select(c, keep)
                        };
                    assert forall|i: int| 0 <= i < c.len() implies #[trigger] keep[i] == holds_view::<S::Item, P>(
                        self.predicate,
                        views(c)[i],
                    ) by {
                        lemma_holds_view(self.predicate, c[i], keep[i]);
                    }
                    assert(keep =~= flags_view::<S::Item, P>(self.predicate, views(c)));
                    lemma_views_select(c, keep);
                }
                Some(out)
            },
            None => None,
        }
    }
}

/// The entries of a log that came after its first `before.len()` ones.
pub open spec fn calls_after<V>(before: Seq<V>, after: Seq<V>) -> Seq<V> {
    after.subrange(before.len() as int, after.len() as int)
}

/// What a write call answered: `None` where it accepted the chunk, the
/// error text where it refused it.
pub open spec fn write_outcome(r: Result<(), String>) -> Option<Seq<char>> {
    match r {
        Ok(_) => None,
        Err(e) => Some(e@),
    }
}

/// Where finished elements are written, a chunk at a time.
pub trait OutputPort<T> {
    fn write(&mut self, data: &[T]) -> Result<(), String>;

    fn finalize(&mut self) -> Result<(), String> {
        Ok(())
    }
}

/// An output port and the log of the calls made on it through this value:
/// each chunk handed to `write`, as views, with what the port answered.
pub struct LoggedPort<T: View, O: OutputPort<T>> {
    pub port: O,
    calls: Ghost<Seq<(Seq<T::V>, Option<Seq<char>>)>>,
}

impl<T: View, O: OutputPort<T>> LoggedPort<T, O> {
    /// Every call of `write` so far, oldest first.
    pub closed spec fn calls(&self) -> Seq<(Seq<T::V>, Option<Seq<char>>)> {
        self.calls@
    }

    /// The port that calls are passed on to.
    pub closed spec fn inner(&self) -> O {
        self.port
    }

    /// `port`, with no call logged yet.
    pub fn new(port: O) -> (r: LoggedPort<T, O>)
        ensures
            r.inner() == port,
            r.calls() == Seq::<(Seq<T::V>, Option<Seq<char>>)>::empty(),
    {
        LoggedPort { port, calls: Ghost(Seq::empty()) }
    }

    /// Hands `data` to the port and logs the call with the port's answer.
    pub fn write(&mut self, data: &[T]) -> (r: Result<(), String>)
        ensures
            final(self).calls() == old(self).calls().push((views(data@), write_outcome(r))),
    {
        let r = self.port.write(data);
        self.calls = Ghost(self.calls@.push((views(data@), write_outcome(r))));
        r
    }

    /// The port itself.
    pub fn into_port(self) -> (r: O)
        ensures
            r == self.inner(),
    {
        self.port
    }
}

/// Why a streaming load stopped.
#[derive(Debug, Clone, PartialEq, Eq)]
pub enum LoadError {
    /// The sink refused a chunk; the chunks written before it stay written.
    Sink(String),
    /// The count of loaded elements no longer fits in a `usize`.
    CountOverflow,
}

/// A chunk source and the statistics threaded through its stages.
pub struct StreamingPipeline<S> {
    pub chunks: S,
    pub stats: PipelineStats,
}

impl StreamingPipeline<CsvReader> {
    /// A pipeline over the rows of a `;`-separated text with a header line.
    pub fn extract_streaming(text: &[u8], chunk_size: usize) -> (r: StreamingPipeline<CsvReader>)
        requires
            chunk_size > 0,
        ensures
            r.chunks.wf(),
            r.chunks.rows() == crate::source::csv_rows(text@, DELIMITER),
            r.chunks.pos() == 0,
            r.chunks.chunk_size() == chunk_size,
            r.stats@ == (StatsView { extracted: 0, transformed: 0, filtered: 0, errors: Seq::empty() }),
    {
        StreamingPipeline { chunks: CsvReader::new(text, chunk_size), stats: PipelineStats::new() }
    }
}

impl<S: ChunkSource> StreamingPipeline<S> {
    /// Each chunk, when pulled, has `f` applied to every element.
    pub fn transform<U: View, F: Fn(S::Item) -> U>(self, f: F) -> (r: StreamingPipeline<MapChunks<S, F>>)
        requires
            self.chunks.ready(),
            forall|x: S::Item| f.requires((x,)),
            view_deterministic(f),
        ensures
            r.chunks.inner == self.chunks,
            r.chunks.f == f,
            r.chunks.ready(),
            r.chunks.pending() == self.chunks.pending().map_values(
                |c: Seq<<S::Item as View>::V>| c.map_values(|v: <S::Item as View>::V| image_view::<S::Item, U, F>(f, v)),
            ),
            r.stats@ == self.stats@,
    {
        StreamingPipeline { chunks: MapChunks { inner: self.chunks, f }, stats: self.stats }
    }

    /// Each chunk, when pulled, keeps the elements on which `predicate` holds.
    pub fn filter<P: Fn(&S::Item) -> bool>(self, predicate: P) -> (r: StreamingPipeline<FilterChunks<S, P>>)
        requires
            self.chunks.ready(),
            forall|x: &S::Item| predicate.requires((x,)),
            pred_deterministic(predicate),
        ensures
            r.chunks.inner == self.chunks,
            r.chunks.predicate == predicate,
            r.chunks.ready(),
            r.chunks.pending() == self.chunks.pending().map_values(
                |c: Seq<<S::Item as View>::V>| select(c, flags_view::<S::Item, P>(predicate, c)),
            ),
            r.stats@ == self.stats@,
    {
        StreamingPipeline { chunks: FilterChunks { inner: self.chunks, predicate }, stats: self.stats }
    }

    /// Pulls every chunk in order and writes it to `out` before pulling the
    /// next, counting the elements written as filtered. Stops at the first
    /// chunk that `out` refuses, with its error; what was written before
    /// stays written and nothing else is called on `out`.
    pub fn load<O: OutputPort<S::Item>>(self, out: &mut LoggedPort<S::Item, O>) -> (r: Result<PipelineStats, LoadError>)
        requires
            self.chunks.ready(),
        ensures
            old(out).calls().len() <= final(out).calls().len(),
            final(out).calls().subrange(0, old(out).calls().len() as int) == old(out).calls(),
            calls_after(old(out).calls(), final(out).calls()).len() <= self.chunks.pending().len(),
            forall|j: int|
                0 <= j < calls_after(old(out).calls(), final(out).calls()).len() ==> (#[trigger] calls_after(
                    old(out).calls(),
                    final(out).calls(),
                )[j]).0 == self.chunks.pending()[j],
            forall|j: int|
                0 <= j < calls_after(old(out).calls(), final(out).calls()).len() - 1 ==> (#[trigger] calls_after(
                    old(out).calls(),
                    final(out).calls(),
                )[j]).1 is None,
            self.chunks.pending().len() == 0 ==> r is Ok && r->Ok_0@ == self.stats@,
            calls_after(old(out).calls(), final(out).calls()).len() == self.chunks.pending().len() && (forall|j: int|
                0 <= j < calls_after(old(out).calls(), final(out).calls()).len() ==> (#[trigger] calls_after(
                    old(out).calls(),
                    final(out).calls(),
                )[j]).1 is None) && self.stats@.filtered + total_len(self.chunks.pending()) <= usize::MAX ==> r is Ok,
            r is Ok ==> calls_after(old(out).calls(), final(out).calls()).len() == self.chunks.pending().len(),
            r is Ok ==> forall|j: int|
                0 <= j < calls_after(old(out).calls(), final(out).calls()).len() ==> (#[trigger] calls_after(
                    old(out).calls(),
                    final(out).calls(),
                )[j]).1 is None,
            r is Ok ==> r->Ok_0@ == (StatsView {
                filtered: self.stats@.filtered + total_len(self.chunks.pending()),
                ..self.stats@
            }),
            r is Err && r->Err_0 is Sink ==> calls_after(old(out).calls(), final(out).calls()).len() > 0
                && calls_after(old(out).calls(), final(out).calls()).last().1 == Some(r->Err_0->Sink_0@),
            r == Err::<PipelineStats, LoadError>(LoadError::CountOverflow) ==> calls_after(
                old(out).calls(),
                final(out).calls(),
            ).len() > 0 && calls_after(old(out).calls(), final(out).calls()).last().1 is None
                && self.stats@.filtered + total_len(
                self.chunks.pending().take(calls_after(old(out).calls(), final(out).calls()).len() as int),
            ) > usize::MAX,
    {
        let ghost pending = self.chunks.pending();
        let ghost before = out.calls();
        let ghost mut k: int = 0;
        let mut chunks = self.chunks;
        let mut stats = self.stats;
        proof {
            assert(pending.take(0).flatten() =~= Seq::empty());
            assert(pending.skip(0) =~= pending);
            assert(out.calls().subrange(before.len() as int, out.calls().len() as int) =~= Seq::empty());
            assert(out.calls().subrange(0, before.len() as int) =~= before);
        }
        loop
            invariant
                before == old(out).calls(),
                pending == self.chunks.pending(),
                chunks.ready(),
                0 <= k <= pending.len(),
                chunks.pending() == pending.skip(k),
                before.len() + k == out.calls().len(),
                out.calls().subrange(0, before.len() as int) == before,
                forall|j: int| 0 <= j < k ==> (#[trigger] out.calls()[before.len() + j]).0 == pending[j],
                forall|j: int| 0 <= j < k ==> (#[trigger] out.calls()[before.len() + j]).1 is None,
                stats@ == (StatsView { filtered: self.stats@.filtered + total_len(pending.take(k)), ..self.stats@ }),
            decreases chunks.pending().len(),
        {
            let ghost w = out.calls();
            match chunks.next_chunk() {
                None => {
                    proof {
                        assert(pending.take(k) =~= pending);
                        let after = out.calls();
                        let sent = after.subrange(before.len() as int, after.len() as int);
                        assert forall|j: int| 0 <= j < sent.len() implies (#[trigger] sent[j]).0 == pending[j] && sent[j].1 is None by {
                            assert(sent[j] == after[before.len() + j]);
                        }
                    }
                    return Ok(stats);
                },
                Some(chunk) => {
                    proof {
                        assert(pending.skip(k)[0] == pending[k]);
                        assert(pending.skip(k).drop_first() =~= pending.skip(k + 1));
                        assert(pending.take(k + 1) =~= pending.take(k) + seq![pending[k]]);
                        vstd::seq_lib::lemma_flatten_concat(pending.take(k), seq![pending[k]]);
                        seq![pending[k]].lemma_flatten_one_element();
                        assert(views(chunk@).len() == chunk@.len());
                    }
                    let res = out.write(chunk.as_slice());
                    proof {
                        let after = out.calls();
                        assert(after.subrange(0, before.len() as int) =~= before) by {
                            assert(w.subrange(0, before.len() as int) == before);
                        }
                        let sent = after.subrange(before.len() as int, after.len() as int);
                        assert forall|j: int| 0 <= j < sent.len() implies (#[trigger] sent[j]).0 == pending[j] && (j < sent.len() - 1 ==> sent[j].1 is None) by {
                            assert(sent[j] == after[before.len() + j]);
                            if j < k {
                                assert(after[before.len() + j] == w[before.len() + j]);
                            }
                        }
                        assert(sent.last() == after[before.len() + k]);
                    }
                    match res {
                        Ok(()) => {},
                        Err(e) => {
                            return Err(LoadError::Sink(e));
                        },
                    }
                    if !stats.add_filtered(chunk.len()) {
                        proof {
                            if k + 1 == pending.len() {
                                assert(pending.take(k + 1) =~= pending);
                            }
                        }
                        return Err(LoadError::CountOverflow);
                    }
                    proof {
                        let after = out.calls();
                        assert forall|j: int| 0 <= j < k + 1 implies (#[trigger] after[before.len() + j]).1 is None by {
                            if j < k {
                                assert(after[before.len() + j] == w[before.len() + j]);
                            }
                        }
                        assert forall|j: int| 0 <= j < k + 1 implies (#[trigger] after[before.len() + j]).0 == pending[j] by {
                            if j < k {
                                assert(after[before.len() + j] == w[before.len() + j]);
                            }
                        }
                        k = k + 1;
                    }
                },
            }
        }
    }
}

} // verus!
