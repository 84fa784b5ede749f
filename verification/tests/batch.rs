use sentence_segmenter::{BatchAccumulator, SentenceRecord, DEFAULT_BATCH_SIZE};

fn record(text: &str, line_number: usize) -> SentenceRecord {
    SentenceRecord::new(text, "corpus.txt", line_number).expect("a valid sentence")
}

fn texts(batch: &[SentenceRecord]) -> Vec<String> {
    batch.iter().map(|r| r.text.clone()).collect()
}

#[test]
fn third_sentence_leaves_with_the_terminal_flush() {
    let mut acc = BatchAccumulator::new(2);
    assert!(acc.append(record("The cat sat.", 1)).is_none());
    let first = acc.append(record("The dog ran.", 1)).expect("a full batch");
    assert_eq!(texts(&first), vec!["The cat sat.", "The dog ran."]);
    assert_eq!(acc.pending_len(), 0);
    assert!(acc.append(record("The bird flew away!", 2)).is_none());
    assert_eq!(acc.pending_len(), 1);
    let last = acc.finish().expect("a terminal batch");
    assert_eq!(texts(&last), vec!["The bird flew away!"]);
    assert_eq!(last[0].line_number, 2);
    assert_eq!(last[0].source_file, "corpus.txt");
    assert_eq!(acc.pending_len(), 0);
}

#[test]
fn no_terminal_flush_without_a_remainder() {
    let mut acc = BatchAccumulator::new(2);
    assert!(acc.finish().is_none());
    assert!(acc.append(record("The cat sat.", 1)).is_none());
    assert!(acc.append(record("The dog ran.", 2)).is_some());
    assert!(acc.finish().is_none());
}

#[test]
fn a_flush_comes_at_every_full_batch() {
    let mut acc = BatchAccumulator::new(3);
    let mut flushed = 0;
    for i in 1..=10 {
        match acc.append(record("One two three four.", i)) {
            Some(batch) => {
                assert_eq!(i % 3, 0);
                assert_eq!(batch.len(), 3);
                assert_eq!(batch[0].line_number, i - 2);
                assert_eq!(batch[2].line_number, i);
                flushed += 1;
            }
            None => assert_ne!(i % 3, 0),
        }
    }
    assert_eq!(flushed, 10 / 3);
    assert_eq!(acc.pending_len(), 10 % 3);
    let last = acc.finish().expect("a terminal batch");
    assert_eq!(last.len(), 1);
    assert_eq!(last[0].line_number, 10);
}

#[test]
fn size_one_flushes_every_record() {
    let mut acc = BatchAccumulator::new(1);
    assert_eq!(acc.append(record("The cat sat.", 1)).map(|b| b.len()), Some(1));
    assert_eq!(acc.append(record("The dog ran.", 2)).map(|b| b.len()), Some(1));
    assert!(acc.finish().is_none());
}

#[test]
fn size_zero_flushes_every_record() {
    let mut acc = BatchAccumulator::new(0);
    assert_eq!(acc.capacity(), 0);
    assert_eq!(acc.append(record("The cat sat.", 1)).map(|b| b.len()), Some(1));
    assert_eq!(acc.pending_len(), 0);
}

#[test]
fn default_size_is_one_thousand() {
    assert_eq!(DEFAULT_BATCH_SIZE, 1000);
    let mut acc = BatchAccumulator::with_default_size();
    assert_eq!(acc.capacity(), 1000);
    for i in 1..1000 {
        assert!(acc.append(record("One two three four.", i)).is_none());
    }
    assert_eq!(acc.pending_len(), 999);
    let batch = acc.append(record("One two three four.", 1000)).expect("a full batch");
    assert_eq!(batch.len(), 1000);
    assert_eq!(batch[999].line_number, 1000);
}

#[test]
fn a_line_is_cleaned_cut_and_batched() {
    let mut acc = BatchAccumulator::new(2);
    let out = acc.ingest_line("## The cat sat. The dog (ran). The bird flew away!", "corpus.txt", 7);
    assert_eq!(out.len(), 1);
    assert_eq!(texts(&out[0]), vec!["The cat sat.", "The dog ran."]);
    assert_eq!(out[0][0].source_file, "corpus.txt");
    assert_eq!(out[0][1].line_number, 7);
    assert_eq!(acc.pending_len(), 1);
    let last = acc.finish().expect("a terminal batch");
    assert_eq!(texts(&last), vec!["The bird flew away!"]);
    assert_eq!(last[0].line_number, 7);
}

#[test]
fn batches_run_on_across_lines() {
    let mut acc = BatchAccumulator::new(2);
    assert!(acc.ingest_line("The cat sat.", "a.txt", 1).is_empty());
    let out = acc.ingest_line("The dog ran. The bird flew away! We all went home.", "a.txt", 2);
    assert_eq!(out.len(), 2);
    assert_eq!(texts(&out[0]), vec!["The cat sat.", "The dog ran."]);
    assert_eq!(out[0][0].line_number, 1);
    assert_eq!(out[0][1].line_number, 2);
    assert_eq!(texts(&out[1]), vec!["The bird flew away!", "We all went home."]);
    assert!(acc.finish().is_none());
}

#[test]
fn a_line_of_noise_appends_nothing() {
    let mut acc = BatchAccumulator::new(1);
    assert!(acc.ingest_line("@@@###", "corpus.txt", 1).is_empty());
    assert_eq!(acc.pending_len(), 0);
    assert!(acc.finish().is_none());
}

#[test]
fn a_record_holds_what_it_was_made_of() {
    let r = SentenceRecord::new("The cat sat.", "corpus.txt", 3).expect("a valid sentence");
    assert_eq!(r.text, "The cat sat.");
    assert_eq!(r.source_file, "corpus.txt");
    assert_eq!(r.line_number, 3);
}

#[test]
fn no_record_of_an_invalid_sentence() {
    assert!(SentenceRecord::new("ok.", "corpus.txt", 1).is_none());
    assert!(SentenceRecord::new("", "corpus.txt", 1).is_none());
    assert!(SentenceRecord::new("3.14159265358979", "corpus.txt", 1).is_none());
}

#[test]
fn no_record_of_an_untrimmed_sentence() {
    assert!(SentenceRecord::new(" The cat sat.", "corpus.txt", 1).is_none());
    assert!(SentenceRecord::new("The cat sat.\t", "corpus.txt", 1).is_none());
}

#[test]
fn no_record_for_line_zero() {
    assert!(SentenceRecord::new("The cat sat.", "corpus.txt", 0).is_none());
}
