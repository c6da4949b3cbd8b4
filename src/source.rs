use vstd::prelude::*;
use crate::record::Record;

verus! {

/// The outcome of reading one row of a source: the row, or why it could not
/// be parsed.
#[derive(Debug, Clone)]
pub enum ReadOutcome {
    Row(Record),
    Failed(String),
}

/// A row as fields of text, or the text of its parse error.
pub type RowView = Result<Seq<Seq<char>>, Seq<char>>;

pub open spec fn outcome_view(o: ReadOutcome) -> RowView {
    match o {
        ReadOutcome::Row(r) => Ok(r@),
        ReadOutcome::Failed(e) => Err(e@),
    }
}

pub open spec fn outcomes_view(s: Seq<ReadOutcome>) -> Seq<RowView> {
    s.map_values(|o: ReadOutcome| outcome_view(o))
}

pub open spec fn records_view(s: Seq<Record>) -> Seq<Seq<Seq<char>>> {
    s.map_values(|r: Record| r@)
}

/// The byte between the fields of a row: `;`.
pub const DELIMITER: u8 = 59;

/// The rows that the csv reader finds in `text`, with `delimiter` between
/// fields and the first line taken as a header.
pub uninterp spec fn csv_rows(text: Seq<u8>, delimiter: u8) -> Seq<RowView>;

/// Relies on csv::ReaderBuilder::from_reader and Reader::records: each data
/// row of the text in order, its fields, or the reader's error for that row.
#[verifier::external_body]
pub(crate) fn parse_rows(text: &[u8], delimiter: u8) -> (r: Vec<ReadOutcome>)
    ensures
        outcomes_view(r@) == csv_rows(text@, delimiter),
{
    let mut reader = csv::ReaderBuilder::new().delimiter(delimiter).from_reader(text);
    reader.records().map(|res| match res {
        Ok(rec) => ReadOutcome::Row(Record { fields: rec.iter().map(|f| f.to_string()).collect() }),
        Err(e) => ReadOutcome::Failed(e.to_string()),
    }).collect()
}

/// The chunk read from position `pos` with room for `size` more rows, and
/// the position after it: rows are taken until the room is used up, the
/// rows end, or a row fails (that row is consumed and dropped).
pub open spec fn chunk_at(rows: Seq<RowView>, pos: int, size: nat) -> (Seq<Seq<Seq<char>>>, int)
    decreases size,
{
    if size == 0 || pos < 0 || pos >= rows.len() {
        (Seq::empty(), pos)
    } else {
        match rows[pos] {
            Ok(r) => {
                let rest = chunk_at(rows, pos + 1, (size - 1) as nat);
                (seq![r] + rest.0, rest.1)
            },
            Err(_) => (Seq::empty(), pos + 1),
        }
    }
}

/// Every chunk that reading from `pos` yields, up to the first empty one.
pub open spec fn chunks_from(rows: Seq<RowView>, pos: int, size: nat) -> Seq<Seq<Seq<Seq<char>>>>
    decreases rows.len() - pos,
{
    let c = chunk_at(rows, pos, size);
    if c.0.len() == 0 || c.1 <= pos || c.1 > rows.len() {
        Seq::empty()
    } else {
        seq![c.0] + chunks_from(rows, c.1, size)
    }
}

pub proof fn lemma_chunk_at_bounds(rows: Seq<RowView>, pos: int, size: nat)
    requires
        0 <= pos <= rows.len(),
    ensures
        pos <= chunk_at(rows, pos, size).1 <= rows.len(),
        chunk_at(rows, pos, size).0.len() <= size,
        chunk_at(rows, pos, size).0.len() > 0 ==> chunk_at(rows, pos, size).1 > pos,
    decreases size,
{
    if size > 0 && pos < rows.len() {
        lemma_chunk_at_bounds(rows, pos + 1, (size - 1) as nat);
    }
}

/// Reads the next chunk of `rows` from `pos`; returns it and the position
/// after it.
fn fill_chunk(rows: &Vec<ReadOutcome>, pos: usize, size: usize) -> (r: (Vec<Record>, usize))
    requires
        pos <= rows@.len(),
    ensures
        records_view(r.0@) == chunk_at(outcomes_view(rows@), pos as int, size as nat).0,
        r.1 as int == chunk_at(outcomes_view(rows@), pos as int, size as nat).1,
{
    let ghost rv = outcomes_view(rows@);
    let mut chunk: Vec<Record> = Vec::new();
    let mut p: usize = pos;
    let mut k: usize = 0;
    while k < size && p < rows.len()
        invariant
            rv == outcomes_view(rows@),
            pos <= p <= rows@.len(),
            k <= size,
            chunk_at(rv, pos as int, size as nat).0 == records_view(chunk@) + chunk_at(
                rv,
                p as int,
                (size - k) as nat,
            ).0,
            chunk_at(rv, pos as int, size as nat).1 == chunk_at(rv, p as int, (size - k) as nat).1,
        decreases size - k,
    {
        match &rows[p] {
            ReadOutcome::Row(rec) => {
                let ghost before = chunk@;
                chunk.push(rec.duplicate());
                assert(records_view(chunk@) =~= records_view(before) + seq![rec@]);
                assert(chunk_at(rv, p as int, (size - k) as nat).0 =~= seq![rec@] + chunk_at(
                    rv,
                    p + 1,
                    (size - k - 1) as nat,
                ).0);
                p += 1;
                k += 1;
            },
            ReadOutcome::Failed(_) => {
                p += 1;
                assert(records_view(chunk@) + chunk_at(rv, p - 1, (size - k) as nat).0 =~= records_view(chunk@));
                return (chunk, p);
            },
        }
    }
    assert(records_view(chunk@) + chunk_at(rv, p as int, (size - k) as nat).0 =~= records_view(chunk@));
    (chunk, p)
}

/// A source read as a sequence of chunks of at most `chunk_size` rows.
pub struct CsvReader {
    rows: Vec<ReadOutcome>,
    pos: usize,
    chunk_size: usize,
}

impl CsvReader {
    pub closed spec fn rows(&self) -> Seq<RowView> {
        outcomes_view(self.rows@)
    }

    pub closed spec fn pos(&self) -> int {
        self.pos as int
    }

    pub closed spec fn chunk_size(&self) -> nat {
        self.chunk_size as nat
    }

    pub open spec fn wf(&self) -> bool {
        0 <= self.pos() <= self.rows().len() && self.chunk_size() > 0
    }

    /// The chunks still to come, up to the first empty one.
    pub open spec fn pending(&self) -> Seq<Seq<Seq<Seq<char>>>> {
        chunks_from(self.rows(), self.pos(), self.chunk_size())
    }

    /// A reader over the rows of a `;`-separated text with a header line.
    pub fn new(text: &[u8], chunk_size: usize) -> (r: CsvReader)
        requires
            chunk_size > 0,
        ensures
            r.wf(),
            r.rows() == csv_rows(text@, DELIMITER),
            r.pos() == 0,
            r.chunk_size() == chunk_size,
    {
        let rows = parse_rows(text, DELIMITER);
        CsvReader { rows, pos: 0, chunk_size }
    }

    /// The next chunk: rows are taken until `chunk_size` are in it, the rows
    /// end, or a row fails to parse (that row is dropped and ends the chunk).
    /// An empty chunk is never returned: `None` stands for it, and ends the
    /// reader: every later call returns `None` too.
    pub fn next(&mut self) -> (r: Option<Vec<Record>>)
        requires
            old(self).wf(),
        ensures
            final(self).wf(),
            final(self).rows() == old(self).rows(),
            final(self).chunk_size() == old(self).chunk_size(),
            r is Some ==> final(self).pos() == chunk_at(old(self).rows(), old(self).pos(), old(self).chunk_size()).1,
            r is None ==> final(self).pos() == final(self).rows().len(),
            r is None <==> chunk_at(old(self).rows(), old(self).pos(), old(self).chunk_size()).0.len() == 0,
            r is None ==> final(self).pending().len() == 0,
            r is Some ==> records_view(r->Some_0@) == chunk_at(
                old(self).rows(),
                old(self).pos(),
                old(self).chunk_size(),
            ).0,
    {
        proof {
            lemma_chunk_at_bounds(self.rows(), self.pos(), self.chunk_size());
        }
        let (chunk, p) = fill_chunk(&self.rows, self.pos, self.chunk_size);
        if chunk.len() == 0 {
            self.pos = self.rows.len();
            assert(chunk_at(self.rows(), self.pos(), self.chunk_size()).0.len() == 0);
            None
        } else {
            self.pos = p;
            Some(chunk)
        }
    }
}

/// Every chunk of sources `idx` onwards, the source at `idx` read from `pos`
/// and each later one from its start, in source order.
pub open spec fn chunks_of_sources(
    sources: Seq<Seq<RowView>>,
    idx: int,
    pos: int,
    size: nat,
) -> Seq<Seq<Seq<Seq<char>>>>
    decreases sources.len() - idx,
{
    if idx < 0 || idx >= sources.len() {
        Seq::empty()
    } else {
        chunks_from(sources[idx], pos, size) + chunks_of_sources(sources, idx + 1, 0, size)
    }
}

/// The rows not yet read: those of source `idx` from `pos`, and all of the
/// later sources.
pub open spec fn rows_left(sources: Seq<Seq<RowView>>, idx: int, pos: int) -> nat
    decreases sources.len() - idx,
{
    if idx < 0 || idx >= sources.len() {
        0
    } else {
        (if pos <= sources[idx].len() { (sources[idx].len() - pos) as nat } else { 0 })
            + rows_left(sources, idx + 1, 0)
    }
}

/// Several sources read one after the other as one sequence of chunks.
pub struct MultiCsvReader {
    sources: Vec<Vec<ReadOutcome>>,
    chunk_size: usize,
    current_index: usize,
    pos: usize,
}

impl MultiCsvReader {
    pub closed spec fn sources(&self) -> Seq<Seq<RowView>> {
        self.sources@.map_values(|v: Vec<ReadOutcome>| outcomes_view(v@))
    }

    pub closed spec fn current_index(&self) -> int {
        self.current_index as int
    }

    pub closed spec fn pos(&self) -> int {
        self.pos as int
    }

    pub closed spec fn chunk_size(&self) -> nat {
        self.chunk_size as nat
    }

    pub open spec fn wf(&self) -> bool {
        &&& self.chunk_size() > 0
        &&& 0 <= self.current_index() <= self.sources().len()
        &&& self.current_index() < self.sources().len() ==> 0 <= self.pos()
            <= self.sources()[self.current_index()].len()
    }

    /// The chunks still to come, in order.
    pub open spec fn pending(&self) -> Seq<Seq<Seq<Seq<char>>>> {
        chunks_of_sources(self.sources(), self.current_index(), self.pos(), self.chunk_size())
    }

    pub open spec fn rows_left(&self) -> nat {
        rows_left(self.sources(), self.current_index(), self.pos())
    }

    /// A reader over the `;`-separated texts, in the given order.
    pub fn new(texts: &[Vec<u8>], chunk_size: usize) -> (r: MultiCsvReader)
        requires
            chunk_size > 0,
        ensures
            r.wf(),
            r.sources().len() == texts@.len(),
            forall|i: int| 0 <= i < texts@.len() ==> r.sources()[i] == csv_rows(#[trigger] texts@[i]@, DELIMITER),
            r.current_index() == 0,
            r.pos() == 0,
            r.chunk_size() == chunk_size,
    {
        let mut sources: Vec<Vec<ReadOutcome>> = Vec::new();
        let mut i: usize = 0;
        while i < texts.len()
            invariant
                i <= texts@.len(),
                sources@.len() == i,
                forall|j: int| 0 <= j < i ==> outcomes_view(#[trigger] sources@[j]@) == csv_rows(texts@[j]@, DELIMITER),
            decreases texts@.len() - i,
        {
            sources.push(parse_rows(texts[i].as_slice(), DELIMITER));
            i += 1;
        }
        MultiCsvReader { sources, chunk_size, current_index: 0, pos: 0 }
    }

    /// The next chunk of the current source; a source with nothing more to
    /// give is left for the next one.
    pub fn next(&mut self) -> (r: Option<Vec<Record>>)
        requires
            old(self).wf(),
        ensures
            final(self).wf(),
            final(self).sources() == old(self).sources(),
            final(self).chunk_size() == old(self).chunk_size(),
            r is None <==> old(self).pending().len() == 0,
            r is None ==> final(self).pending().len() == 0,
            r is Some ==> records_view(r->Some_0@) == old(self).pending()[0]
                && final(self).pending() == old(self).pending().drop_first()
                && final(self).rows_left() < old(self).rows_left(),
    {
        let ghost all = self.pending();
        let ghost left = self.rows_left();
        while self.current_index < self.sources.len()
            invariant
                self.wf(),
                self.sources() == old(self).sources(),
                self.chunk_size() == old(self).chunk_size(),
                self.pending() == all,
                self.rows_left() <= left,
                left == old(self).rows_left(),
                all == old(self).pending(),
            decreases self.sources@.len() - self.current_index,
        {
            let ghost src = self.sources()[self.current_index()];
            assert(self.sources@[self.current_index as int]@.map_values(|o: ReadOutcome| outcome_view(o)) == src);
            proof {
                lemma_chunk_at_bounds(src, self.pos(), self.chunk_size());
            }
            let (chunk, p) = fill_chunk(&self.sources[self.current_index], self.pos, self.chunk_size);
            if chunk.len() > 0 {
                self.pos = p;
                assert(all =~= seq![records_view(chunk@)] + self.pending());
                return Some(chunk);
            }
            self.current_index = self.current_index + 1;
            self.pos = 0;
        }
        None
    }
}

} // verus!
