//! Counting of characters, pairs and triples of characters in a text.

use std::collections::HashMap;
use vstd::prelude::*;
use crate::alphabet::in_alphabet;
use crate::alphabet::in_alphabet_spec;

verus! {

/// Occurrences of each character.
pub type Letters = HashMap<u8, u32>;

/// Occurrences of each pair of characters, under [`bigram_key`].
pub type Bigrams = HashMap<u16, u32>;

/// Occurrences of each triple of characters, under [`trigram_key`].
pub type Trigrams = HashMap<u32, u32>;

/// The number under which a pair of characters is counted: the first character as the
/// high byte, the second as the low byte.
pub open spec fn bigram_key(bigram: [u8; 2]) -> u16 {
    (bigram@[0] * 256 + bigram@[1]) as u16
}

/// The number under which a triple of characters is counted: the characters as the
/// three low bytes, the first highest.
pub open spec fn trigram_key(trigram: [u8; 3]) -> u32 {
    (trigram@[0] * 65536 + trigram@[1] * 256 + trigram@[2]) as u32
}

/// Pairs of different characters are counted under different numbers.
pub proof fn lemma_bigram_key_injective(a: [u8; 2], b: [u8; 2])
    requires
        bigram_key(a) == bigram_key(b),
    ensures
        a@ == b@,
{
    assert(a@ =~= b@);
}

/// Triples of different characters are counted under different numbers.
pub proof fn lemma_trigram_key_injective(a: [u8; 3], b: [u8; 3])
    requires
        trigram_key(a) == trigram_key(b),
    ensures
        a@ == b@,
{
    assert(a@ =~= b@);
}

/// The number under which a pair of characters is counted.
pub fn pack_bigram(bigram: [u8; 2]) -> (r: u16)
    ensures
        r == bigram_key(bigram),
{
    (bigram[0] as u16) * 256 + (bigram[1] as u16)
}

/// The number under which a triple of characters is counted.
pub fn pack_trigram(trigram: [u8; 3]) -> (r: u32)
    ensures
        r == trigram_key(trigram),
{
    (trigram[0] as u32) * 65536 + (trigram[1] as u32) * 256 + (trigram[2] as u32)
}

/// How often `key` was counted in `counts`.
pub open spec fn count_of<K>(counts: Map<K, u32>, key: K) -> nat {
    if counts.contains_key(key) {
        counts[key] as nat
    } else {
        0
    }
}

/// The counts of a text.
#[derive(Debug)]
pub struct CountOutcome {
    pub letter: Letters,
    pub bigrams: Bigrams,
    pub trigrams: Trigrams,
}

impl Default for CountOutcome {
    fn default() -> (r: Self)
        ensures
            r.letter@ == Map::<u8, u32>::empty(),
            r.bigrams@ == Map::<u16, u32>::empty(),
            r.trigrams@ == Map::<u32, u32>::empty(),
    {
        CountOutcome { letter: HashMap::new(), bigrams: HashMap::new(), trigrams: HashMap::new() }
    }
}

impl CountOutcome {
    /// Counts one more occurrence of a character.
    pub fn add_letter(&mut self, letter: [u8; 1])
        requires
            count_of(old(self).letter@, letter@[0]) < u32::MAX,
        ensures
            final(self).letter@ == old(self).letter@.insert(
                letter@[0],
                (count_of(old(self).letter@, letter@[0]) + 1) as u32,
            ),
            final(self).bigrams@ == old(self).bigrams@,
            final(self).trigrams@ == old(self).trigrams@,
    {
        broadcast use vstd::std_specs::hash::group_hash_axioms;

        let key = letter[0];
        let count: u32 = match self.letter.get(&key) {
            Some(n) => *n,
            None => 0,
        };
        self.letter.insert(key, count + 1);
    }

    /// Counts one more occurrence of a pair of characters.
    pub fn add_bigram(&mut self, bigram: [u8; 2])
        requires
            count_of(old(self).bigrams@, bigram_key(bigram)) < u32::MAX,
        ensures
            final(self).bigrams@ == old(self).bigrams@.insert(
                bigram_key(bigram),
                (count_of(old(self).bigrams@, bigram_key(bigram)) + 1) as u32,
            ),
            final(self).letter@ == old(self).letter@,
            final(self).trigrams@ == old(self).trigrams@,
    {
        broadcast use vstd::std_specs::hash::group_hash_axioms;

        let key = pack_bigram(bigram);
        let count: u32 = match self.bigrams.get(&key) {
            Some(n) => *n,
            None => 0,
        };
        self.bigrams.insert(key, count + 1);
    }

    /// Counts one more occurrence of a triple of characters.
    pub fn add_trigram(&mut self, trigram: [u8; 3])
        requires
            count_of(old(self).trigrams@, trigram_key(trigram)) < u32::MAX,
        ensures
            final(self).trigrams@ == old(self).trigrams@.insert(
                trigram_key(trigram),
                (count_of(old(self).trigrams@, trigram_key(trigram)) + 1) as u32,
            ),
            final(self).letter@ == old(self).letter@,
            final(self).bigrams@ == old(self).bigrams@,
    {
        broadcast use vstd::std_specs::hash::group_hash_axioms;

        let key = pack_trigram(trigram);
        let count: u32 = match self.trigrams.get(&key) {
            Some(n) => *n,
            None => 0,
        };
        self.trigrams.insert(key, count + 1);
    }
}

/// The two characters last seen in an unbroken run, the older first.
#[derive(Debug)]
pub struct NGramTracker {
    last: [Option<u8>; 2],
}

impl Default for NGramTracker {
    fn default() -> (r: Self)
        ensures
            r.recent() == seq![None::<u8>, None::<u8>],
    {
        let r = NGramTracker { last: [None, None] };
        assert(r.last@ =~= seq![None::<u8>, None::<u8>]);
        r
    }
}

impl NGramTracker {
    /// The two characters last seen, the older first.
    pub closed spec fn recent(&self) -> Seq<Option<u8>> {
        self.last@
    }

    /// Forgets what was seen: the run is broken.
    pub fn clear(&mut self)
        ensures
            final(self).recent() == seq![None::<u8>, None::<u8>],
    {
        self.last = [None, None];
        assert(self.last@ =~= seq![None::<u8>, None::<u8>]);
    }

    /// Notes `x` as the character last seen.
    pub fn shift(&mut self, x: u8)
        ensures
            final(self).recent() == seq![old(self).recent()[1], Some(x)],
    {
        let b = self.last[1];
        self.last = [b, Some(x)];
        assert(self.last@ =~= seq![old(self).recent()[1], Some(x)]);
    }

    /// Whether every count that seeing `c` next would raise has room to be raised.
    pub open spec fn has_room(&self, counter: &CountOutcome, c: u8) -> bool {
        &&& count_of(counter.letter@, c) < u32::MAX
        &&& self.recent()[1] matches Some(b) ==> count_of(counter.bigrams@, bigram_key([b, c])) < u32::MAX
        &&& (self.recent()[1] is Some && self.recent()[0] is Some) ==> count_of(
            counter.trigrams@,
            trigram_key([self.recent()[0]->0, self.recent()[1]->0, c]),
        ) < u32::MAX
    }

    /// Counts `c` as the next character of the run: the character itself, the pair it
    /// forms with the character before it, and the triple it forms with the two before.
    pub fn apply(&mut self, counter: &mut CountOutcome, c: u8)
        requires
            old(self).has_room(old(counter), c),
        ensures
            final(self).recent() == seq![old(self).recent()[1], Some(c)],
            final(counter).letter@ == old(counter).letter@.insert(
                c,
                (count_of(old(counter).letter@, c) + 1) as u32,
            ),
            final(counter).bigrams@ == (match old(self).recent()[1] {
                Some(b) => old(counter).bigrams@.insert(
                    bigram_key([b, c]),
                    (count_of(old(counter).bigrams@, bigram_key([b, c])) + 1) as u32,
                ),
                None => old(counter).bigrams@,
            }),
            final(counter).trigrams@ == (match (old(self).recent()[0], old(self).recent()[1]) {
                (Some(a), Some(b)) => old(counter).trigrams@.insert(
                    trigram_key([a, b, c]),
                    (count_of(old(counter).trigrams@, trigram_key([a, b, c])) + 1) as u32,
                ),
                _ => old(counter).trigrams@,
            }),
    {
        let a = self.last[0];
        let b = self.last[1];
        counter.add_letter([c]);
        if let Some(b) = b {
            counter.add_bigram([b, c]);
            if let Some(a) = a {
                counter.add_trigram([a, b, c]);
            }
        }
        self.shift(c);
    }
}

/// The counts of a text together with the two characters last seen, as plain data.
pub struct Tally {
    pub letter: Map<u8, u32>,
    pub bigrams: Map<u16, u32>,
    pub trigrams: Map<u32, u32>,
    pub recent: Seq<Option<u8>>,
}

/// `counts` with one more occurrence of `key`.
pub open spec fn raised<K>(counts: Map<K, u32>, key: K) -> Map<K, u32> {
    counts.insert(key, (count_of(counts, key) + 1) as u32)
}

impl Tally {
    /// The tally after one more step of a scan: a character is counted together with
    /// the pair and the triple that it completes, and becomes the character last seen;
    /// anything else breaks the run.
    pub open spec fn step(self, event: Option<u8>) -> Tally {
        match event {
            None => Tally { recent: seq![None::<u8>, None::<u8>], ..self },
            Some(c) => Tally {
                letter: raised(self.letter, c),
                bigrams: match self.recent[1] {
                    Some(b) => raised(self.bigrams, bigram_key([b, c])),
                    None => self.bigrams,
                },
                trigrams: match (self.recent[0], self.recent[1]) {
                    (Some(a), Some(b)) => raised(self.trigrams, trigram_key([a, b, c])),
                    _ => self.trigrams,
                },
                recent: seq![self.recent[1], Some(c)],
            },
        }
    }

    /// The tally after the steps of `events`, in their order.
    pub open spec fn run(self, events: Seq<Option<u8>>) -> Tally
        decreases events.len(),
    {
        if events.len() == 0 {
            self
        } else {
            self.step(events[0]).run(events.drop_first())
        }
    }

    /// Whether every count can be raised `n` more times.
    pub open spec fn room(self, n: int) -> bool {
        &&& forall|k: u8| count_of(self.letter, k) + n <= u32::MAX
        &&& forall|k: u16| count_of(self.bigrams, k) + n <= u32::MAX
        &&& forall|k: u32| count_of(self.trigrams, k) + n <= u32::MAX
    }
}

/// The character of the alphabet that `ch` is, if it is one.
pub open spec fn letter_of(ch: char) -> Option<u8> {
    if ch as u32 <= 0xff && in_alphabet_spec((ch as u32) as u8) {
        Some((ch as u32) as u8)
    } else {
        None
    }
}

/// The place of the first character from `i` on that is not a blank; the length of the
/// text if there is none.
pub open spec fn skip_blanks(text: Seq<char>, i: int) -> int
    decreases text.len() - i,
{
    if 0 <= i < text.len() && text[i] == ' ' {
        skip_blanks(text, i + 1)
    } else {
        i
    }
}

/// The place at which the scan goes on after a line feed at `i`: the blanks that follow
/// the line feed are passed over, and so is the character after them.
pub open spec fn after_line_feed(text: Seq<char>, i: int) -> int {
    let j = skip_blanks(text, i + 1);
    if j < text.len() {
        j + 1
    } else {
        j
    }
}

/// The steps of the scan of `text` from place `i` on. A carriage return is passed
/// over. A line feed counts as a tab followed by the line feed, and takes the blanks
/// after it and one more character with it. Any other character of the alphabet is
/// counted, and any other character breaks the run.
pub open spec fn scan_events(text: Seq<char>, i: int) -> Seq<Option<u8>>
    decreases text.len() - i,
{
    if i < 0 || i >= text.len() {
        Seq::empty()
    } else if text[i] == '\r' {
        scan_events(text, i + 1)
    } else if text[i] == '\n' {
        if i < after_line_feed(text, i) <= text.len() {
            seq![Some(9u8), Some(10u8)] + scan_events(text, after_line_feed(text, i))
        } else {
            Seq::empty()
        }
    } else {
        seq![letter_of(text[i])] + scan_events(text, i + 1)
    }
}

/// The blanks are passed over forwards, and not beyond the end of the text.
pub proof fn lemma_skip_blanks_bounds(text: Seq<char>, i: int)
    requires
        0 <= i <= text.len(),
    ensures
        i <= skip_blanks(text, i) <= text.len(),
    decreases text.len() - i,
{
    if i < text.len() && text[i] == ' ' {
        lemma_skip_blanks_bounds(text, i + 1);
    }
}

/// After a line feed the scan goes on further along, and within the text.
pub proof fn lemma_after_line_feed(text: Seq<char>, i: int)
    requires
        0 <= i < text.len(),
    ensures
        i < after_line_feed(text, i) <= text.len(),
{
    lemma_skip_blanks_bounds(text, i + 1);
}

/// Running the steps of two lists one after the other is running the steps of the
/// joined list.
pub proof fn lemma_run_concat(t: Tally, a: Seq<Option<u8>>, b: Seq<Option<u8>>)
    ensures
        t.run(a + b) == t.run(a).run(b),
    decreases a.len(),
{
    if a.len() == 0 {
        assert(a + b =~= b);
    } else {
        assert((a + b)[0] == a[0]);
        assert((a + b).drop_first() =~= a.drop_first() + b);
        lemma_run_concat(t.step(a[0]), a.drop_first(), b);
    }
}

impl CountOutcome {
    /// The counts with the two characters last seen by `tracker`, as plain data.
    pub open spec fn tally(&self, tracker: &NGramTracker) -> Tally {
        Tally { letter: self.letter@, bigrams: self.bigrams@, trigrams: self.trigrams@, recent: tracker.recent() }
    }
}

/// Raising one count uses up one unit of room.
proof fn lemma_step_room(t: Tally, event: Option<u8>, n: int)
    requires
        t.room(n),
    ensures
        t.step(event).room(n - 1),
{
    let next = t.step(event);
    assert forall|k: u8| count_of(next.letter, k) + (n - 1) <= u32::MAX by {
        assert(count_of(t.letter, k) + n <= u32::MAX);
        if let Some(c) = event {
            assert(count_of(t.letter, c) + n <= u32::MAX);
        }
    }
    assert forall|k: u16| count_of(next.bigrams, k) + (n - 1) <= u32::MAX by {
        assert(count_of(t.bigrams, k) + n <= u32::MAX);
        if let Some(c) = event {
            if let Some(b) = t.recent[1] {
                assert(count_of(t.bigrams, bigram_key([b, c])) + n <= u32::MAX);
            }
        }
    }
    assert forall|k: u32| count_of(next.trigrams, k) + (n - 1) <= u32::MAX by {
        assert(count_of(t.trigrams, k) + n <= u32::MAX);
        if let Some(c) = event {
            if let (Some(a), Some(b)) = (t.recent[0], t.recent[1]) {
                assert(count_of(t.trigrams, trigram_key([a, b, c])) + n <= u32::MAX);
            }
        }
    }
}

/// With room for one more, every count that seeing `c` would raise can be raised.
proof fn lemma_room_has_room(counter: &CountOutcome, tracker: &NGramTracker, c: u8, n: int)
    requires
        n >= 1,
        counter.tally(tracker).room(n),
    ensures
        tracker.has_room(counter, c),
{
    let t = counter.tally(tracker);
    assert(count_of(t.letter, c) + n <= u32::MAX);
    if let Some(b) = tracker.recent()[1] {
        assert(count_of(t.bigrams, bigram_key([b, c])) + n <= u32::MAX);
        if let Some(a) = tracker.recent()[0] {
            assert(count_of(t.trigrams, trigram_key([a, b, c])) + n <= u32::MAX);
        }
    }
}

/// Counts the characters, pairs and triples of `text` into `result`.
///
/// The scan goes through the text once; see [`scan_events`] for what it does with each
/// character. Runs do not reach across texts: the scan starts with nothing seen.
pub fn count_text(result: &mut CountOutcome, text: &[char])
    requires
        (Tally {
            letter: old(result).letter@,
            bigrams: old(result).bigrams@,
            trigrams: old(result).trigrams@,
            recent: seq![None::<u8>, None::<u8>],
        }).room(2 * (text@.len() as int)),
    ensures
        ({
            let end = (Tally {
                letter: old(result).letter@,
                bigrams: old(result).bigrams@,
                trigrams: old(result).trigrams@,
                recent: seq![None::<u8>, None::<u8>],
            }).run(scan_events(text@, 0));
            &&& final(result).letter@ == end.letter
            &&& final(result).bigrams@ == end.bigrams
            &&& final(result).trigrams@ == end.trigrams
        }),
{
    let ghost goal = (Tally {
        letter: result.letter@,
        bigrams: result.bigrams@,
        trigrams: result.trigrams@,
        recent: seq![None::<u8>, None::<u8>],
    }).run(scan_events(text@, 0));
    let mut tracker = NGramTracker::default();
    let len = text.len();
    let mut i: usize = 0;
    while i < len
        invariant
            i <= len,
            len == text@.len(),
            result.tally(&tracker).run(scan_events(text@, i as int)) == goal,
            result.tally(&tracker).room(2 * (len - i)),
        decreases len - i,
    {
        let ch = text[i];
        let ghost before = result.tally(&tracker);
        if ch == '\r' {
            i += 1;
        } else if ch == '\n' {
            let mut j: usize = i + 1;
            while j < len && text[j] == ' '
                invariant
                    i < j <= len,
                    len == text@.len(),
                    skip_blanks(text@, j as int) == skip_blanks(text@, i + 1),
                decreases len - j,
            {
                j += 1;
            }
            if j < len {
                j += 1;
            }
            proof {
                assert(j == after_line_feed(text@, i as int));
                lemma_room_has_room(result, &tracker, 9, 2 * (len - i));
                lemma_step_room(before, Some(9u8), 2 * (len - i));
            }
            tracker.apply(result, 9);
            proof {
                assert(result.tally(&tracker) == before.step(Some(9u8)));
                lemma_room_has_room(result, &tracker, 10, 2 * (len - i) - 1);
                lemma_step_room(before.step(Some(9u8)), Some(10u8), 2 * (len - i) - 1);
            }
            tracker.apply(result, 10);
            proof {
                let rest = scan_events(text@, j as int);
                let two = seq![Some(9u8), Some(10u8)];
                assert(result.tally(&tracker) == before.step(Some(9u8)).step(Some(10u8)));
                assert(scan_events(text@, i as int) == two + rest);
                lemma_run_concat(before, two, rest);
                reveal_with_fuel(Tally::run, 3);
                assert(two.drop_first() =~= seq![Some(10u8)]);
                assert(two.drop_first().drop_first() =~= Seq::<Option<u8>>::empty());
                assert(before.run(two) == before.step(Some(9u8)).step(Some(10u8)));
            }
            i = j;
        } else {
            let code = ch as u32;
            let event: Option<u8> = if code <= 0xff && in_alphabet(code as u8) {
                Some(code as u8)
            } else {
                None
            };
            proof {
                assert(event == letter_of(ch));
                lemma_step_room(before, event, 2 * (len - i));
            }
            match event {
                Some(c) => {
                    proof {
                        lemma_room_has_room(result, &tracker, c, 2 * (len - i));
                    }
                    tracker.apply(result, c);
                },
                None => {
                    tracker.clear();
                },
            }
            proof {
                let rest = scan_events(text@, i + 1);
                let one = seq![event];
                assert(result.tally(&tracker) == before.step(event));
                assert(scan_events(text@, i as int) == one + rest);
                lemma_run_concat(before, one, rest);
                reveal_with_fuel(Tally::run, 2);
                assert(one.drop_first() =~= Seq::<Option<u8>>::empty());
                assert(before.run(one) == before.step(event));
            }
            i += 1;
        }
    }
    proof {
        assert(scan_events(text@, len as int) =~= Seq::<Option<u8>>::empty());
    }
}

} // verus!
