use keylayout::counter::{count_text, pack_bigram, pack_trigram, CountOutcome, NGramTracker};

#[test]
fn pairs_and_triples_are_packed_high_byte_first() {
    assert_eq!(pack_bigram([b'a', b'b']), 0x6162);
    assert_eq!(pack_bigram([0, 0]), 0);
    assert_eq!(pack_bigram([0xff, 0xff]), 0xffff);
    assert_eq!(pack_trigram([b'a', b'b', b'c']), 0x616263);
    assert_eq!(pack_trigram([0xff, 0, 1]), 0xff0001);
}

#[test]
fn adding_counts_by_one() {
    let mut counts = CountOutcome::default();
    counts.add_letter([b'x']);
    counts.add_letter([b'x']);
    counts.add_letter([b'y']);
    counts.add_bigram([b'x', b'y']);
    counts.add_trigram([b'x', b'y', b'z']);
    counts.add_trigram([b'x', b'y', b'z']);
    assert_eq!(counts.letter.len(), 2);
    assert_eq!(counts.letter[&b'x'], 2);
    assert_eq!(counts.letter[&b'y'], 1);
    assert_eq!(counts.bigrams.len(), 1);
    assert_eq!(counts.bigrams[&pack_bigram([b'x', b'y'])], 1);
    assert_eq!(counts.trigrams[&pack_trigram([b'x', b'y', b'z'])], 2);
}

#[test]
fn tracker_counts_runs() {
    let mut counts = CountOutcome::default();
    let mut tracker = NGramTracker::default();
    for c in *b"abab" {
        tracker.apply(&mut counts, c);
    }
    assert_eq!(counts.letter[&b'a'], 2);
    assert_eq!(counts.letter[&b'b'], 2);
    assert_eq!(counts.bigrams[&pack_bigram([b'a', b'b'])], 2);
    assert_eq!(counts.bigrams[&pack_bigram([b'b', b'a'])], 1);
    assert_eq!(counts.bigrams.len(), 2);
    assert_eq!(counts.trigrams[&pack_trigram([b'a', b'b', b'a'])], 1);
    assert_eq!(counts.trigrams[&pack_trigram([b'b', b'a', b'b'])], 1);
    assert_eq!(counts.trigrams.len(), 2);
}

#[test]
fn clearing_breaks_the_run() {
    let mut counts = CountOutcome::default();
    let mut tracker = NGramTracker::default();
    tracker.apply(&mut counts, b'a');
    tracker.apply(&mut counts, b'b');
    tracker.clear();
    tracker.apply(&mut counts, b'c');
    tracker.apply(&mut counts, b'd');
    assert_eq!(counts.letter.len(), 4);
    assert_eq!(counts.bigrams.len(), 2);
    assert!(counts.bigrams.contains_key(&pack_bigram([b'a', b'b'])));
    assert!(counts.bigrams.contains_key(&pack_bigram([b'c', b'd'])));
    assert!(counts.trigrams.is_empty());
}

#[test]
fn shift_keeps_the_last_two() {
    let mut counts = CountOutcome::default();
    let mut tracker = NGramTracker::default();
    tracker.shift(b'x');
    tracker.shift(b'y');
    tracker.shift(b'z');
    tracker.apply(&mut counts, b'!');
    assert_eq!(counts.letter[&b'!'], 1);
    assert_eq!(counts.bigrams[&pack_bigram([b'z', b'!'])], 1);
    assert_eq!(counts.trigrams[&pack_trigram([b'y', b'z', b'!'])], 1);
}

#[test]
fn scan_counts_runs_of_the_alphabet() {
    let text: Vec<char> = "ab\n  cd".chars().collect();
    let mut counts = CountOutcome::default();
    count_text(&mut counts, &text);
    // the line feed takes the blanks and the `c` with it, and counts as tab and line feed
    let mut letters: Vec<u8> = counts.letter.keys().copied().collect();
    letters.sort();
    assert_eq!(letters, vec![b'\t', b'\n', b'a', b'b', b'd']);
    assert!(counts.letter.values().all(|n| *n == 1));
    let mut pairs: Vec<u16> = counts.bigrams.keys().copied().collect();
    pairs.sort();
    let mut expected = vec![
        pack_bigram([b'a', b'b']),
        pack_bigram([b'b', b'\t']),
        pack_bigram([b'\t', b'\n']),
        pack_bigram([b'\n', b'd']),
    ];
    expected.sort();
    assert_eq!(pairs, expected);
    assert_eq!(counts.trigrams.len(), 3);
    assert_eq!(counts.trigrams[&pack_trigram([b'\t', b'\n', b'd'])], 1);
}

#[test]
fn scan_passes_over_carriage_returns_and_breaks_at_strangers() {
    let mut counts = CountOutcome::default();
    count_text(&mut counts, &"a\rb".chars().collect::<Vec<char>>());
    assert_eq!(counts.bigrams[&pack_bigram([b'a', b'b'])], 1);
    // a character outside the alphabet breaks the run
    count_text(&mut counts, &"a\u{e9}b\u{20ac}a\0b".chars().collect::<Vec<char>>());
    assert_eq!(counts.letter[&b'a'], 3);
    assert_eq!(counts.letter[&b'b'], 3);
    assert_eq!(counts.bigrams.len(), 1);
    assert_eq!(counts.bigrams[&pack_bigram([b'a', b'b'])], 1);
    assert!(counts.trigrams.is_empty());
    // a line feed at the very end, and an empty text
    count_text(&mut counts, &['\n']);
    count_text(&mut counts, &[]);
    assert_eq!(counts.letter[&b'\n'], 1);
    assert_eq!(counts.letter[&b'\t'], 1);
    assert_eq!(counts.bigrams[&pack_bigram([b'\t', b'\n'])], 1);
}
