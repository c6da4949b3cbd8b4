use vstd::prelude::*;
use std::collections::HashMap;
use vstd::std_specs::hash::obeys_key_model;
use rayon::iter::{IntoParallelIterator, IntoParallelRefIterator, ParallelIterator};
use crate::record::Record;
use crate::source::{parse_rows, csv_rows, outcomes_view, records_view, ReadOutcome, RowView, DELIMITER};

verus! {

/// Running counters of a pipeline and the parse errors met on the way.
#[derive(Debug, Clone)]
pub struct PipelineStats {
    pub total_extracted: usize,
    pub total_transformed: usize,
    pub total_filtered: usize,
    errors: Vec<String>,
}

/// The counters and error texts of a `PipelineStats`.
pub struct StatsView {
    pub extracted: nat,
    pub transformed: nat,
    pub filtered: nat,
    pub errors: Seq<Seq<char>>,
}

impl View for PipelineStats {
    type V = StatsView;

    closed spec fn view(&self) -> StatsView {
        StatsView {
            extracted: self.total_extracted as nat,
            transformed: self.total_transformed as nat,
            filtered: self.total_filtered as nat,
            errors: self.errors@.map_values(|e: String| e@),
        }
    }
}

/// Two sets of statistics added up: counters summed, error lists joined.
pub open spec fn stats_sum(a: StatsView, b: StatsView) -> StatsView {
    StatsView {
        extracted: a.extracted + b.extracted,
        transformed: a.transformed + b.transformed,
        filtered: a.filtered + b.filtered,
        errors: a.errors + b.errors,
    }
}

/// Every counter of the sum fits in a `usize`.
pub open spec fn stats_sum_fits(a: StatsView, b: StatsView) -> bool {
    &&& a.extracted + b.extracted <= usize::MAX
    &&& a.transformed + b.transformed <= usize::MAX
    &&& a.filtered + b.filtered <= usize::MAX
}

impl PipelineStats {
    /// Statistics with every counter at zero and no errors.
    pub fn new() -> (r: PipelineStats)
        ensures
            r@ == (StatsView { extracted: 0, transformed: 0, filtered: 0, errors: Seq::empty() }),
    {
        let r = PipelineStats { total_extracted: 0, total_transformed: 0, total_filtered: 0, errors: Vec::new() };
        assert(r@.errors =~= Seq::<Seq<char>>::empty());
        r
    }

    /// The parse errors recorded so far, in order.
    pub fn errors(&self) -> (r: &Vec<String>)
        ensures
            r@.map_values(|e: String| e@) == self@.errors,
    {
        &self.errors
    }

    /// Adds `n` to the filtered count; leaves everything as it was and
    /// returns false where the sum does not fit.
    pub fn add_filtered(&mut self, n: usize) -> (ok: bool)
        ensures
            ok <==> old(self)@.filtered + n <= usize::MAX,
            ok ==> final(self)@ == (StatsView { filtered: old(self)@.filtered + n as nat, ..old(self)@ }),
            !ok ==> final(self)@ == old(self)@,
    {
        match self.total_filtered.checked_add(n) {
            Some(t) => {
                self.total_filtered = t;
                true
            },
            None => false,
        }
    }

    /// `self` and `other` added up: counters summed, errors of `self` first.
    pub fn combine(self, other: PipelineStats) -> (r: PipelineStats)
        requires
            stats_sum_fits(self@, other@),
        ensures
            r@ == stats_sum(self@, other@),
    {
        let mut errors = self.errors;
        let mut more = other.errors;
        errors.append(&mut more);
        let r = PipelineStats {
            total_extracted: self.total_extracted + other.total_extracted,
            total_transformed: self.total_transformed + other.total_transformed,
            total_filtered: self.total_filtered + other.total_filtered,
            errors,
        };
        assert(r@.errors =~= self@.errors + other@.errors);
        r
    }
}

/// The decimal digits of `n`, most significant first.
pub open spec fn decimal(n: nat) -> Seq<char>
    decreases n,
{
    let digit = seq!['0', '1', '2', '3', '4', '5', '6', '7', '8', '9'][(n % 10) as int];
    if n < 10 {
        seq![digit]
    } else {
        decimal(n / 10).push(digit)
    }
}

/// The text recorded for a row at `index` that failed with `message`.
pub open spec fn parse_error_text(index: nat, message: Seq<char>) -> Seq<char> {
    decimal(index) + " record parse error: "@ + message
}

/// Relies on std's `format!`: an index written in decimal, then the message.
#[verifier::external_body]
fn format_parse_error(index: usize, message: &String) -> (r: String)
    ensures
        r@ == parse_error_text(index as nat, message@),
{
    format!("{} record parse error: {}", index, message)
}

/// The rows that parsed, in order.
pub open spec fn ok_rows(rows: Seq<RowView>) -> Seq<Seq<Seq<char>>>
    decreases rows.len(),
{
    if rows.len() == 0 {
        Seq::empty()
    } else {
        let rest = ok_rows(rows.drop_last());
        match rows.last() {
            Ok(r) => rest.push(r),
            Err(_) => rest,
        }
    }
}

/// One error text for each row that failed, with the row's position.
pub open spec fn error_texts(rows: Seq<RowView>) -> Seq<Seq<char>>
    decreases rows.len(),
{
    if rows.len() == 0 {
        Seq::empty()
    } else {
        let rest = error_texts(rows.drop_last());
        match rows.last() {
            Ok(_) => rest,
            Err(e) => rest.push(parse_error_text((rows.len() - 1) as nat, e)),
        }
    }
}

/// An ordered sequence of elements and the statistics gathered so far.
#[derive(Debug)]
pub struct Pipeline<T> {
    pub data: Vec<T>,
    pub stats: PipelineStats,
}

impl Pipeline<Record> {
    /// Reads every row of a `;`-separated text with a header line. Rows that
    /// fail to parse are left out and recorded in the errors with their
    /// position; the rows kept are counted as extracted.
    pub fn extract(text: &[u8]) -> (r: Pipeline<Record>)
        ensures
            records_view(r.data@) == ok_rows(csv_rows(text@, DELIMITER)),
            r.stats@ == (StatsView {
                extracted: r.data@.len(),
                transformed: 0,
                filtered: 0,
                errors: error_texts(csv_rows(text@, DELIMITER)),
            }),
    {
        let rows = parse_rows(text, DELIMITER);
        let ghost rv = outcomes_view(rows@);
        let mut data: Vec<Record> = Vec::new();
        let mut errors: Vec<String> = Vec::new();
        let mut i: usize = 0;
        while i < rows.len()
            invariant
                rv == outcomes_view(rows@),
                i <= rows@.len(),
                records_view(data@) == ok_rows(rv.subrange(0, i as int)),
                errors@.map_values(|e: String| e@) == error_texts(rv.subrange(0, i as int)),
            decreases rows@.len() - i,
        {
            let ghost pre = rv.subrange(0, i as int);
            let ghost d0 = data@;
            let ghost e0 = errors@;
            assert(rv.subrange(0, i + 1).drop_last() =~= pre);
            match &rows[i] {
                ReadOutcome::Row(rec) => {
                    data.push(rec.duplicate());
                    assert(records_view(data@) =~= records_view(d0).push(rv[i as int]->Ok_0));
                },
                ReadOutcome::Failed(e) => {
                    errors.push(format_parse_error(i, e));
                    assert(errors@.map_values(|e: String| e@) =~= e0.map_values(|e: String| e@).push(
                        parse_error_text(i as nat, rv[i as int]->Err_0),
                    ));
                },
            }
            i += 1;
        }
        assert(rv.subrange(0, rows@.len() as int) =~= rv);
        let count = data.len();
        let stats = PipelineStats { total_extracted: count, total_transformed: 0, total_filtered: 0, errors };
        Pipeline { data, stats }
    }
}

/// Relies on rayon's `into_par_iter().map(f).collect()` on a `Vec`: the
/// collected vector holds `f` of each element, at the element's position.
#[verifier::external_body]
fn par_map<T: Send, U: Send, F: Fn(T) -> U + Sync + Send>(items: Vec<T>, f: F) -> (r: Vec<U>)
    requires
        forall|i: int| 0 <= i < items@.len() ==> f.requires((items@[i],)),
    ensures
        r@.len() == items@.len(),
        forall|i: int| 0 <= i < items@.len() ==> f.ensures((items@[i],), #[trigger] r@[i]),
{
    items.into_par_iter().map(f).collect()
}

/// Relies on rayon's `par_iter().map(f).collect()` on a `Vec`: the collected
/// vector holds `f` of a reference to each element, at the element's position.
#[verifier::external_body]
fn par_map_ref<T: Sync, U: Send, F: Fn(&T) -> U + Sync + Send>(items: &Vec<T>, f: F) -> (r: Vec<U>)
    requires
        forall|i: int| 0 <= i < items@.len() ==> f.requires((&items@[i],)),
    ensures
        r@.len() == items@.len(),
        forall|i: int| 0 <= i < items@.len() ==> f.ensures((&items@[i],), #[trigger] r@[i]),
{
    items.par_iter().map(f).collect()
}

/// The elements of `s` whose flag in `keep` is set, in their order.
pub open spec fn select<T>(s: Seq<T>, keep: Seq<bool>) -> Seq<T>
    decreases s.len(),
{
    if s.len() == 0 {
        Seq::empty()
    } else {
        let rest = select(s.drop_last(), keep.subrange(0, s.len() - 1));
        if keep[s.len() - 1] {
            rest.push(s.last())
        } else {
            rest
        }
    }
}

/// How many flags of `keep` are set.
pub open spec fn count_true(keep: Seq<bool>) -> nat
    decreases keep.len(),
{
    if keep.len() == 0 {
        0
    } else {
        count_true(keep.drop_last()) + if keep.last() { 1nat } else { 0nat }
    }
}

pub proof fn lemma_select_len<T>(s: Seq<T>, keep: Seq<bool>)
    requires
        keep.len() == s.len(),
    ensures
        select(s, keep).len() == count_true(keep),
    decreases s.len(),
{
    if s.len() > 0 {
        lemma_select_len(s.drop_last(), keep.subrange(0, s.len() - 1));
        assert(keep.subrange(0, s.len() - 1) =~= keep.drop_last());
    }
}

/// Moves the flagged elements of `items` into a new vector, in order.
fn select_flagged<T>(items: Vec<T>, keep: &Vec<bool>) -> (r: Vec<T>)
    requires
        keep@.len() == items@.len(),
    ensures
        r@ == select(items@, keep@),
{
    let ghost all = items@;
    let mut out: Vec<T> = Vec::new();
    let n: usize = keep.len();
    let mut i: usize = 0;
    for x in it: items.into_iter()
        invariant
            n == keep@.len(),
            it.seq() == all,
            i == it.index(),
            i <= all.len(),
            keep@.len() == all.len(),
            out@ == select(all.subrange(0, i as int), keep@.subrange(0, i as int)),
    {
        assert(all.subrange(0, i + 1).drop_last() =~= all.subrange(0, i as int));
        assert(keep@.subrange(0, i + 1).subrange(0, i as int) =~= keep@.subrange(0, i as int));
        if keep[i] {
            out.push(x);
        }
        i += 1;
    }
    assert(all.subrange(0, all.len() as int) =~= all);
    assert(keep@.subrange(0, all.len() as int) =~= keep@);
    out
}

/// Each key of `keys` mapped to its number of occurrences.
pub open spec fn key_counts<K>(keys: Seq<K>) -> Map<K, usize> {
    Map::new(|k: K| keys.to_multiset().count(k) > 0, |k: K| keys.to_multiset().count(k) as usize)
}

/// Counts the occurrences of each key.
pub fn count_keys<K: Eq + std::hash::Hash>(keys: Vec<K>) -> (r: HashMap<K, usize>)
    requires
        obeys_key_model::<K>(),
    ensures
        r@ == key_counts(keys@),
{
    broadcast use vstd::seq_lib::group_to_multiset_ensures;
    let ghost all = keys@;
    proof {
        assert(all.subrange(0, 0) =~= Seq::<K>::empty());
        vstd::multiset::lemma_multiset_empty_len(all.subrange(0, 0).to_multiset());
    }
    let n: usize = keys.len();
    let mut counts: HashMap<K, usize> = HashMap::new();
    let mut i: usize = 0;
    for k in it: keys.into_iter()
        invariant
            it.seq() == all,
            i == it.index(),
            n == all.len(),
            obeys_key_model::<K>(),
            forall|x: K| #[trigger] counts@.contains_key(x) <==> all.subrange(0, i as int).to_multiset().count(x) > 0,
            forall|x: K| counts@.contains_key(x) ==> #[trigger] counts@[x] == all.subrange(0, i as int).to_multiset().count(x),
            forall|x: K| #[trigger] all.subrange(0, i as int).to_multiset().count(x) <= i,
    {
        let ghost pre = all.subrange(0, i as int);
        assert(all.subrange(0, i + 1) =~= pre.push(k));
        let prev = counts.remove(&k);
        let c: usize = match prev {
            Some(c) => c,
            None => 0,
        };
        counts.insert(k, c + 1);
        proof {
            vstd::seq_lib::to_multiset_build(pre, k);
        }
        i += 1;
    }
    assert(all.subrange(0, n as int) =~= all);
    assert(counts@ =~= key_counts(all));
    counts
}

impl<T: Send + Sync> Pipeline<T> {
    /// Applies `f` to every element in parallel; element `i` of the result is
    /// `f` of element `i`. The result's length is the transformed count.
    pub fn transform<U: Send + Sync, F: Fn(T) -> U + Sync + Send>(self, f: F) -> (r: Pipeline<U>)
        requires
            forall|i: int| 0 <= i < self.data@.len() ==> f.requires((self.data@[i],)),
        ensures
            r.data@.len() == self.data@.len(),
            forall|i: int| 0 <= i < self.data@.len() ==> f.ensures((self.data@[i],), #[trigger] r.data@[i]),
            r.stats@ == (StatsView { transformed: r.data@.len(), ..self.stats@ }),
    {
        let data = par_map(self.data, f);
        let count = data.len();
        let mut stats = self.stats;
        stats.total_transformed = count;
        Pipeline { data, stats }
    }

    /// Keeps the elements on which `predicate` holds, in their order; the
    /// predicate is evaluated in parallel. The kept count is the filtered count.
    pub fn filter<F: Fn(&T) -> bool + Sync + Send>(self, predicate: F) -> (r: Pipeline<T>)
        requires
            forall|i: int| 0 <= i < self.data@.len() ==> predicate.requires((&self.data@[i],)),
        ensures
            exists|keep: Seq<bool>|
                {
                    &&& keep.len() == self.data@.len()
                    &&& forall|i: int| 0 <= i < keep.len() ==> predicate.ensures((&self.data@[i],), #[trigger] keep[i])
                    &&& r.data@ == select(self.data@, keep)
                    &&& r.data@.len() == count_true(keep)
                },
            r.stats@ == (StatsView { filtered: r.data@.len(), ..self.stats@ }),
    {
        let keep = par_map_ref(&self.data, predicate);
        let data = select_flagged(self.data, &keep);
        proof {
            lemma_select_len(self.data@, keep@);
        }
        let count = data.len();
        let mut stats = self.stats;
        stats.total_filtered = count;
        Pipeline { data, stats }
    }

    /// Counts the elements by the key that `key_fn` gives them; the keys are
    /// computed in parallel. Every key met is in the map, with its number of
    /// occurrences, and no other.
    pub fn aggregate<K: Eq + std::hash::Hash + Send, F: Fn(&T) -> K + Sync + Send>(self, key_fn: F) -> (r: HashMap<K, usize>)
        requires
            obeys_key_model::<K>(),
            forall|i: int| 0 <= i < self.data@.len() ==> key_fn.requires((&self.data@[i],)),
        ensures
            exists|keys: Seq<K>|
                {
                    &&& keys.len() == self.data@.len()
                    &&& forall|i: int| 0 <= i < keys.len() ==> key_fn.ensures((&self.data@[i],), #[trigger] keys[i])
                    &&& r@ == key_counts(keys)
                },
    {
        let keys = par_map_ref(&self.data, key_fn);
        let r = count_keys(keys);
        r
    }

    /// The elements of `self` followed by those of `other`; statistics added up.
    pub fn merge(self, other: Pipeline<T>) -> (r: Pipeline<T>)
        requires
            stats_sum_fits(self.stats@, other.stats@),
        ensures
            r.data@ == self.data@ + other.data@,
            r.stats@ == stats_sum(self.stats@, other.stats@),
    {
        let mut data = self.data;
        let mut more = other.data;
        data.append(&mut more);
        let stats = self.stats.combine(other.stats);
        Pipeline { data, stats }
    }
}

} // verus!
