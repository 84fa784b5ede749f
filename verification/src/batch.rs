//! Sentence records and the accumulator that gathers them into batches.
//!
//! The accumulator decides; it performs nothing. Each step hands back the
//! batches that are due, in the order in which they are to be persisted.

use vstd::prelude::*;
use vstd::arithmetic::div_mod::lemma_fundamental_div_mod_converse;
use crate::normalizer::{normalize, normalized};
use crate::segmenter::{
    is_kept_sentence, kept_sentence, lemma_sentences_kept, sentences, split_into_sentences,
};

verus! {

/// The batch size used where none is configured.
pub const DEFAULT_BATCH_SIZE: usize = 1000;

/// One sentence with its provenance.
pub struct SentenceRecord {
    pub text: String,
    pub source_file: String,
    pub line_number: usize,
}

/// What a record holds, as plain values.
pub struct RecordModel {
    pub text: Seq<char>,
    pub source_file: Seq<char>,
    pub line_number: nat,
}

impl View for SentenceRecord {
    type V = RecordModel;

    open spec fn view(&self) -> RecordModel {
        RecordModel {
            text: self.text@,
            source_file: self.source_file@,
            line_number: self.line_number as nat,
        }
    }
}

impl RecordModel {
    /// The text is a trimmed, valid sentence and lines count from one.
    pub open spec fn well_formed(self) -> bool {
        kept_sentence(self.text) && self.line_number >= 1
    }
}

impl SentenceRecord {
    /// A record of `text`, where `text` is a trimmed, valid sentence and
    /// `line_number` is one or more; else none.
    pub fn new(text: &str, source_file: &str, line_number: usize) -> (made: Option<Self>)
        ensures
            made is Some <==> kept_sentence(text@) && line_number >= 1,
            made is Some ==> made->0@ == (RecordModel {
                text: text@,
                source_file: source_file@,
                line_number: line_number as nat,
            }),
    {
        if line_number >= 1 && is_kept_sentence(text) {
            Some(
                SentenceRecord {
                    text: text.to_owned(),
                    source_file: source_file.to_owned(),
                    line_number,
                },
            )
        } else {
            None
        }
    }
}

/// Every record of the sequence is well formed.
pub open spec fn all_well_formed(records: Seq<SentenceRecord>) -> bool {
    forall|k: int| 0 <= k < records.len() ==> (#[trigger] records[k])@.well_formed()
}

/// The models of a sequence of records.
pub open spec fn models(records: Seq<SentenceRecord>) -> Seq<RecordModel> {
    records.map_values(|r: SentenceRecord| r@)
}

/// The records that one line gives: one for each sentence of its normal
/// form, in order, each with the line's provenance.
pub open spec fn line_records(line: Seq<char>, source_file: Seq<char>, line_number: nat) -> Seq<
    RecordModel,
> {
    sentences(normalized(line)).map_values(
        |t: Seq<char>| RecordModel { text: t, source_file, line_number },
    )
}

/// What a run of appends leaves: the batches flushed, in order, and the
/// items still pending.
pub struct Dispatch<T> {
    pub flushed: Seq<Seq<T>>,
    pub pending: Seq<T>,
}

/// Appends `items` one by one to `pending`. Whenever the pending items reach
/// `threshold`, they leave as a batch and the pending items start empty.
pub open spec fn dispatch<T>(pending: Seq<T>, items: Seq<T>, threshold: nat) -> Dispatch<T>
    decreases items.len(),
{
    if items.len() == 0 {
        Dispatch { flushed: Seq::empty(), pending }
    } else {
        let before = dispatch(pending, items.drop_last(), threshold);
        let grown = before.pending.push(items.last());
        if grown.len() >= threshold {
            Dispatch { flushed: before.flushed.push(grown), pending: Seq::empty() }
        } else {
            Dispatch { flushed: before.flushed, pending: grown }
        }
    }
}

/// Every batch in order, the terminal one included: the pending items leave
/// as a last batch where there are any.
pub open spec fn all_batches<T>(run: Dispatch<T>) -> Seq<Seq<T>> {
    if run.pending.len() > 0 {
        run.flushed.push(run.pending)
    } else {
        run.flushed
    }
}

/// Starting empty, a flush happens exactly at every `threshold`-th item: the
/// batches are the consecutive stretches of `threshold` items, and what is
/// pending is the remainder, shorter than `threshold`. So the terminal flush
/// carries `items.len() % threshold` items, and there is none where that is
/// zero.
pub proof fn lemma_dispatch_partitions<T>(items: Seq<T>, threshold: nat)
    requires
        threshold >= 1,
    ensures
        ({
            let run = dispatch(Seq::<T>::empty(), items, threshold);
            let full = run.flushed.len() as int;
            &&& full == items.len() as int / threshold as int
            &&& run.pending.len() == items.len() as int % threshold as int
            &&& full * threshold + run.pending.len() == items.len()
            &&& forall|i: int|
                0 <= i < full ==> #[trigger] run.flushed[i] == items.subrange(
                    i * threshold,
                    i * threshold + threshold,
                )
            &&& run.pending == items.subrange(full * threshold, items.len() as int)
            &&& all_batches(run).len() == full + if items.len() as int % threshold as int == 0 {
                0int
            } else {
                1int
            }
        }),
    decreases items.len(),
{
    let t = threshold as int;
    let run = dispatch(Seq::<T>::empty(), items, threshold);
    let full = run.flushed.len() as int;
    if items.len() == 0 {
        assert(run.pending =~= items.subrange(0, 0));
        assert(full * t == 0);
    } else {
        let front = items.drop_last();
        lemma_dispatch_partitions(front, threshold);
        let before = dispatch(Seq::<T>::empty(), front, threshold);
        let q = before.flushed.len() as int;
        let grown = before.pending.push(items.last());
        assert((q + 1) * t == q * t + t) by (nonlinear_arith);
        assert(grown =~= items.subrange(q * t, items.len() as int));
        assert forall|i: int| 0 <= i < full implies #[trigger] run.flushed[i] == items.subrange(
            i * t,
            i * t + t,
        ) by {
            if i < q {
                assert(i * t + t <= q * t) by (nonlinear_arith)
                    requires
                        0 <= i < q,
                        t >= 1,
                ;
                assert(front.subrange(i * t, i * t + t) =~= items.subrange(i * t, i * t + t));
            }
        }
        assert(run.pending =~= items.subrange(full * t, items.len() as int));
    }
    lemma_fundamental_div_mod_converse(items.len() as int, t, full, run.pending.len() as int);
}

/// One append: the item joins the pending ones, and they leave as a batch
/// where that makes `threshold` of them.
pub proof fn lemma_dispatch_single<T>(pending: Seq<T>, item: T, threshold: nat)
    ensures
        pending.len() + 1 >= threshold ==> dispatch(pending, seq![item], threshold) == (Dispatch {
            flushed: seq![pending.push(item)],
            pending: Seq::empty(),
        }),
        pending.len() + 1 < threshold ==> dispatch(pending, seq![item], threshold) == (Dispatch {
            flushed: Seq::empty(),
            pending: pending.push(item),
        }),
{
    let one = seq![item];
    assert(one.drop_last() =~= Seq::<T>::empty());
    assert(one.last() == item);
    let before = dispatch(pending, one.drop_last(), threshold);
    assert(before.pending == pending);
    assert(before.flushed.push(pending.push(item)) =~= seq![pending.push(item)]);
}

/// Feeding `first` and then `second` is feeding both at once: what the
/// first run flushed comes first, and the second run goes on from what the
/// first left pending.
pub proof fn lemma_dispatch_resumes<T>(
    pending: Seq<T>,
    first: Seq<T>,
    second: Seq<T>,
    threshold: nat,
)
    ensures
        ({
            let head = dispatch(pending, first, threshold);
            let tail = dispatch(head.pending, second, threshold);
            let whole = dispatch(pending, first + second, threshold);
            whole.flushed == head.flushed + tail.flushed && whole.pending == tail.pending
        }),
    decreases second.len(),
{
    let head = dispatch(pending, first, threshold);
    let tail = dispatch(head.pending, second, threshold);
    let whole = dispatch(pending, first + second, threshold);
    if second.len() == 0 {
        assert(first + second =~= first);
        assert(whole.flushed =~= head.flushed + tail.flushed);
    } else {
        lemma_dispatch_resumes(pending, first, second.drop_last(), threshold);
        assert((first + second).drop_last() =~= first + second.drop_last());
        assert((first + second).last() == second.last());
        assert(whole.flushed =~= head.flushed + tail.flushed);
    }
}

/// Every record that a line gives is well formed.
pub proof fn lemma_line_records_well_formed(
    line: Seq<char>,
    source_file: Seq<char>,
    line_number: nat,
)
    requires
        line_number >= 1,
    ensures
        forall|k: int|
            0 <= k < line_records(line, source_file, line_number).len() ==> (
            #[trigger] line_records(line, source_file, line_number)[k]).well_formed(),
{
    lemma_sentences_kept(normalized(line));
    assert forall|k: int| 0 <= k < line_records(line, source_file, line_number).len() implies (
    #[trigger] line_records(line, source_file, line_number)[k]).well_formed() by {
        assert(kept_sentence(sentences(normalized(line))[k]));
    }
}

/// Collects records, in arrival order, into batches of a configured size.
pub struct BatchAccumulator {
    capacity: usize,
    pending: Vec<SentenceRecord>,
}

impl BatchAccumulator {
    /// The configured batch size.
    pub closed spec fn limit(&self) -> nat {
        self.capacity as nat
    }

    /// The records that wait for the next flush, oldest first.
    pub closed spec fn held(&self) -> Seq<SentenceRecord> {
        self.pending@
    }

    /// The number of pending records at which a flush is due. A configured
    /// size of zero flushes at every record, as a size of one does.
    pub open spec fn threshold(&self) -> nat {
        if self.limit() == 0 {
            1
        } else {
            self.limit()
        }
    }

    /// Fewer records are pending than a batch takes, and each of them is
    /// well formed.
    pub open spec fn well_formed(&self) -> bool {
        self.held().len() < self.threshold() && all_well_formed(self.held())
    }

    /// An empty accumulator for batches of `capacity` records.
    pub fn new(capacity: usize) -> (acc: Self)
        ensures
            acc.well_formed(),
            acc.limit() == capacity,
            acc.held() == Seq::<SentenceRecord>::empty(),
    {
        BatchAccumulator { capacity, pending: Vec::new() }
    }

    /// An empty accumulator for batches of the default size.
    pub fn with_default_size() -> (acc: Self)
        ensures
            acc.well_formed(),
            acc.limit() == DEFAULT_BATCH_SIZE,
            acc.held() == Seq::<SentenceRecord>::empty(),
    {
        BatchAccumulator::new(DEFAULT_BATCH_SIZE)
    }

    /// The configured batch size.
    pub fn capacity(&self) -> (n: usize)
        ensures
            n == self.limit(),
    {
        self.capacity
    }

    /// The number of records that wait for the next flush.
    pub fn pending_len(&self) -> (n: usize)
        ensures
            n == self.held().len(),
    {
        self.pending.len()
    }

    /// Adds `record` behind the pending ones. Where that fills the batch, the
    /// batch is handed out for persisting and nothing is left pending.
    pub fn append(&mut self, record: SentenceRecord) -> (flushed: Option<Vec<SentenceRecord>>)
        requires
            old(self).well_formed(),
            record@.well_formed(),
        ensures
            final(self).well_formed(),
            final(self).limit() == old(self).limit(),
            flushed is Some <==> old(self).held().len() + 1 >= old(self).threshold(),
            flushed is Some ==> flushed->0@ == old(self).held().push(record) && final(self).held()
                == Seq::<SentenceRecord>::empty(),
            flushed is None ==> final(self).held() == old(self).held().push(record),
            flushed is Some ==> all_well_formed(flushed->0@),
    {
        self.pending.push(record);
        if self.pending.len() >= self.capacity {
            let mut batch: Vec<SentenceRecord> = Vec::new();
            std::mem::swap(&mut self.pending, &mut batch);
            Some(batch)
        } else {
            None
        }
    }

    /// The terminal flush: hands out what is pending, where anything is, and
    /// leaves nothing pending.
    pub fn finish(&mut self) -> (flushed: Option<Vec<SentenceRecord>>)
        requires
            old(self).well_formed(),
        ensures
            final(self).well_formed(),
            final(self).limit() == old(self).limit(),
            final(self).held() == Seq::<SentenceRecord>::empty(),
            flushed is Some <==> old(self).held().len() > 0,
            flushed is Some ==> flushed->0@ == old(self).held(),
            flushed is Some ==> all_well_formed(flushed->0@),
    {
        if self.pending.len() == 0 {
            None
        } else {
            let mut batch: Vec<SentenceRecord> = Vec::new();
            std::mem::swap(&mut self.pending, &mut batch);
            Some(batch)
        }
    }

    /// Takes one raw line through the whole pipeline: normalizes it, cuts it
    /// into sentences, and appends one record for each. Hands back the
    /// batches that became due on the way, in the order in which they are to
    /// be persisted.
    pub fn ingest_line(&mut self, line: &str, source_file: &str, line_number: usize) -> (out: Vec<
        Vec<SentenceRecord>,
    >)
        requires
            old(self).well_formed(),
            line_number >= 1,
        ensures
            final(self).well_formed(),
            final(self).limit() == old(self).limit(),
            ({
                let run = dispatch(
                    models(old(self).held()),
                    line_records(line@, source_file@, line_number as nat),
                    old(self).threshold(),
                );
                &&& out.len() == run.flushed.len()
                &&& forall|i: int| 0 <= i < out.len() ==> models((#[trigger] out[i])@) == run.flushed[i]
                &&& models(final(self).held()) == run.pending
            }),
            forall|i: int| 0 <= i < out.len() ==> all_well_formed((#[trigger] out[i])@),
    {
        let clean = normalize(line);
        let found = split_into_sentences(clean.as_str());
        let ghost start = models(self.held());
        let ghost recs = line_records(line@, source_file@, line_number as nat);
        let ghost threshold = self.threshold();
        let ghost limit = self.limit();
        let mut out: Vec<Vec<SentenceRecord>> = Vec::new();
        let mut j: usize = 0;
        proof {
            assert(recs.take(0) =~= Seq::<RecordModel>::empty());
            lemma_line_records_well_formed(line@, source_file@, line_number as nat);
        }
        while j < found.len()
            invariant
                j <= found.len(),
                found.len() == recs.len(),
                recs == line_records(line@, source_file@, line_number as nat),
                forall|k: int| 0 <= k < found.len() ==> (#[trigger] found[k])@ == sentences(normalized(line@))[k],
                self.well_formed(),
                forall|k: int| 0 <= k < recs.len() ==> (#[trigger] recs[k]).well_formed(),
                forall|i: int| 0 <= i < out.len() ==> all_well_formed((#[trigger] out[i])@),
                self.limit() == limit,
                self.threshold() == threshold,
                out.len() == dispatch(start, recs.take(j as int), threshold).flushed.len(),
                forall|i: int|
                    0 <= i < out.len() ==> models((#[trigger] out[i])@) == dispatch(
                        start,
                        recs.take(j as int),
                        threshold,
                    ).flushed[i],
                models(self.held()) == dispatch(start, recs.take(j as int), threshold).pending,
            decreases found.len() - j,
        {
            let record = SentenceRecord {
                text: found[j].clone(),
                source_file: source_file.to_owned(),
                line_number,
            };
            let ghost held = self.held();
            proof {
                assert(recs.take(j + 1).drop_last() =~= recs.take(j as int));
                assert(recs.take(j + 1).last() == recs[j as int]);
                assert(record@ == recs[j as int]);
                assert(models(held.push(record)) =~= models(held).push(record@));
            }
            match self.append(record) {
                Some(batch) => {
                    out.push(batch);
                },
                None => {},
            }
            j += 1;
        }
        proof {
            assert(recs.take(found.len() as int) =~= recs);
        }
        out
    }
}

} // verus!
