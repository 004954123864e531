//! The countable part of the cost of typing: which finger is where for a
//! combination, how many fingers have to move between two combinations, how many
//! modifiers change, and which fingers of a hand are stretched against each other.

use vstd::arithmetic::div_mod::lemma_fundamental_div_mod_converse;
use vstd::prelude::*;
use crate::evaluate::KeyCombo;
use crate::evaluate::KeyboardLayout;
use crate::evaluate::produces;
use crate::layout::LayoutView;
use crate::keyboard::Finger;
use crate::keyboard::Hand;
use crate::keyboard::HandFinger;
use crate::keyboard::Key;
use crate::keyboard::Keyboard;
use crate::keyboard::Position;

verus! {

/// What one finger does in a combination: where it presses, and whether it holds a
/// modifier there rather than tapping.
pub type Press = (Position, bool);

/// The press of the finger with ordinal `f` in `combo`: that of the layer key if it
/// is this finger's, else of the shift key, else of the tapped key, else none.
pub open spec fn press_of(kb: Seq<Key>, combo: KeyCombo, f: int) -> Option<Press> {
    if combo.layer is Some && kb[combo.layer->0 as int].finger().ordinal() == f {
        Some((kb[combo.layer->0 as int].pos(), true))
    } else if combo.shift is Some && kb[combo.shift->0 as int].finger().ordinal() == f {
        Some((kb[combo.shift->0 as int].pos(), true))
    } else if kb[combo.key as int].finger().ordinal() == f {
        Some((kb[combo.key as int].pos(), false))
    } else {
        None
    }
}

/// Whether every key of `combo` is a key of the board.
pub open spec fn on_board(kb: Seq<Key>, combo: KeyCombo) -> bool {
    &&& combo.key < kb.len()
    &&& combo.shift matches Some(s) ==> s < kb.len()
    &&& combo.layer matches Some(l) ==> l < kb.len()
}

/// Every way of typing a character on a layout that the board has a key for each slot
/// of uses keys of the board only.
pub proof fn lemma_ways_on_board(lv: LayoutView, kb: Seq<Key>, c: u8, combo: KeyCombo)
    requires
        lv.size() <= kb.len(),
        produces(lv, kb, c, combo),
    ensures
        on_board(kb, combo),
{
}

/// The press of each finger in `combo` on the board `keyboard`, by the finger's ordinal.
pub fn finger_presses(keyboard: &Keyboard, combo: &KeyCombo) -> (r: [Option<Press>; 10])
    requires
        on_board(keyboard@, *combo),
    ensures
        forall|f: int| 0 <= f < 10 ==> #[trigger] r@[f] == press_of(keyboard@, *combo, f),
{
    let mut position: [Option<Press>; 10] = [None, None, None, None, None, None, None, None, None, None];
    let key = keyboard.key(combo.key);
    position[key.finger().index()] = Some((key.pos(), false));
    if let Some(s) = combo.shift {
        let key = keyboard.key(s);
        position[key.finger().index()] = Some((key.pos(), true));
    }
    if let Some(l) = combo.layer {
        let key = keyboard.key(l);
        position[key.finger().index()] = Some((key.pos(), true));
    }
    position
}

/// The press of each finger in `combo` on the board of `info`, by the finger's ordinal.
pub fn convert_fingers(info: &KeyboardLayout, combo: &KeyCombo) -> (r: [Option<Press>; 10])
    requires
        on_board(info.board(), *combo),
    ensures
        forall|f: int| 0 <= f < 10 ==> #[trigger] r@[f] == press_of(info.board(), *combo, f),
{
    finger_presses(info.keyboard(), combo)
}

/// 1 if a finger is used in both of two combinations but at different positions, else 0.
pub open spec fn moves(a: Option<Press>, b: Option<Press>) -> int {
    match (a, b) {
        (Some(x), Some(y)) => if x.0 != y.0 { 1int } else { 0int },
        _ => 0int,
    }
}

/// Number of the first `n` fingers that are used in both combinations at different
/// positions.
pub open spec fn same_finger_count(h1: Seq<Option<Press>>, h2: Seq<Option<Press>>, n: int) -> int
    decreases n,
{
    if n <= 0 {
        0
    } else {
        same_finger_count(h1, h2, n - 1) + moves(h1[n - 1], h2[n - 1])
    }
}

/// Number of fingers that press in both combinations, at different positions.
pub fn same_finger_bigrams(h1: &[Option<Press>; 10], h2: &[Option<Press>; 10]) -> (r: u8)
    ensures
        r == same_finger_count(h1@, h2@, 10),
        r <= 10,
{
    let mut count: u8 = 0;
    let mut f: usize = 0;
    while f < 10
        invariant
            f <= 10,
            count == same_finger_count(h1@, h2@, f as int),
            count <= f,
        decreases 10 - f,
    {
        if let (Some(x), Some(y)) = (h1[f], h2[f]) {
            if x.0 != y.0 {
                count += 1;
            }
        }
        f += 1;
    }
    count
}

/// Number of modifiers that change between two combinations: 1 if the layer key is
/// not the same, plus 1 if the shift key is not the same.
pub open spec fn staccato_spec(c1: KeyCombo, c2: KeyCombo) -> int {
    (if c1.layer != c2.layer { 1int } else { 0int }) + (if c1.shift != c2.shift { 1int } else { 0int })
}

/// Number of modifiers that change between two combinations.
pub fn staccato(c1: &KeyCombo, c2: &KeyCombo) -> (r: u8)
    ensures
        r == staccato_spec(*c1, *c2),
{
    let s1: u8 = if c1.layer != c2.layer { 1 } else { 0 };
    let s2: u8 = if c1.shift != c2.shift { 1 } else { 0 };
    s1 + s2
}

/// Whether the fingers with ordinals `a` and `b` are stretched against each other:
/// both press, they belong to the same hand, `a` is nearer the thumb, and no finger
/// between them presses.
pub open spec fn is_stretch_pair(h: Seq<Option<Press>>, a: int, b: int) -> bool {
    &&& 0 <= a < b < 10
    &&& a / 5 == b / 5
    &&& h[a] is Some
    &&& h[b] is Some
    &&& forall|g: int| a < g < b ==> h[g] is None
}

/// The pairs of neighbouring pressing fingers of each hand, left hand first and from
/// the thumb outwards.
pub fn stretch_pairs(h: &[Option<Press>; 10]) -> (pairs: Vec<(HandFinger, HandFinger)>)
    ensures
        forall|k: int|
            0 <= k < pairs@.len() ==> is_stretch_pair(
                h@,
                (#[trigger] pairs@[k]).0.ordinal(),
                pairs@[k].1.ordinal(),
            ),
        forall|a: HandFinger, b: HandFinger|
            is_stretch_pair(h@, a.ordinal(), b.ordinal()) ==> #[trigger] pairs@.contains((a, b)),
        forall|i: int, j: int|
            0 <= i < j < pairs@.len() ==> (#[trigger] pairs@[i]).1.ordinal() < (#[trigger] pairs@[j]).1.ordinal(),
{
    let mut pairs: Vec<(HandFinger, HandFinger)> = Vec::new();
    let mut hi: usize = 0;
    while hi < 2
        invariant
            hi <= 2,
            forall|k: int|
                0 <= k < pairs@.len() ==> is_stretch_pair(
                    h@,
                    (#[trigger] pairs@[k]).0.ordinal(),
                    pairs@[k].1.ordinal(),
                ) && pairs@[k].1.ordinal() < 5 * hi,
            forall|a: HandFinger, b: HandFinger|
                is_stretch_pair(h@, a.ordinal(), b.ordinal()) && b.ordinal() < 5 * hi ==> #[trigger] pairs@.contains(
                    (a, b),
                ),
            forall|i: int, j: int|
                0 <= i < j < pairs@.len() ==> (#[trigger] pairs@[i]).1.ordinal() < (
                #[trigger] pairs@[j]).1.ordinal(),
        decreases 2 - hi,
    {
        let hand = Hand::ALL[hi];
        let mut last: Option<Finger> = None;
        let mut fi: usize = 0;
        while fi < 5
            invariant
                fi <= 5,
                hi < 2,
                hand == Hand::ALL@[hi as int],
                hand.ordinal() == hi,
                match last {
                    Some(a) => a.ordinal() < fi && h@[5 * hi + a.ordinal()] is Some && forall|g: int|
                        5 * hi + a.ordinal() < g < 5 * hi + fi ==> h@[g] is None,
                    None => forall|g: int| 5 * hi <= g < 5 * hi + fi ==> h@[g] is None,
                },
                forall|k: int|
                    0 <= k < pairs@.len() ==> is_stretch_pair(
                        h@,
                        (#[trigger] pairs@[k]).0.ordinal(),
                        pairs@[k].1.ordinal(),
                    ) && pairs@[k].1.ordinal() < 5 * hi + fi,
                forall|a: HandFinger, b: HandFinger|
                    is_stretch_pair(h@, a.ordinal(), b.ordinal()) && b.ordinal() < 5 * hi + fi
                        ==> #[trigger] pairs@.contains((a, b)),
                forall|i: int, j: int|
                    0 <= i < j < pairs@.len() ==> (#[trigger] pairs@[i]).1.ordinal() < (
                    #[trigger] pairs@[j]).1.ordinal(),
            decreases 5 - fi,
        {
            let finger = Finger::ALL[fi];
            let hf = HandFinger::new(hand, finger);
            let ghost before = pairs@;
            let ghost last0 = last;
            assert(finger.ordinal() == fi);
            if h[hf.index()].is_some() {
                if let Some(prev) = last {
                    pairs.push((HandFinger::new(hand, prev), hf));
                }
                last = Some(finger);
            }
            proof {
                let here = 5 * hi + fi;
                assert forall|a: HandFinger, b: HandFinger|
                    is_stretch_pair(h@, a.ordinal(), b.ordinal()) && b.ordinal() < here + 1
                        implies #[trigger] pairs@.contains((a, b)) by {
                    crate::keyboard::lemma_ordinal_injective(b, hf);
                    if b.ordinal() < here {
                        assert(before.contains((a, b)));
                        let k = choose|k: int| 0 <= k < before.len() && before[k] == (a, b);
                        assert(pairs@[k] == (a, b));
                    } else {
                        assert(b == hf);
                        match last0 {
                            Some(prev) => {
                                let p = HandFinger { hand, finger: prev };
                                crate::keyboard::lemma_ordinal_injective(a, p);
                                if a.ordinal() < p.ordinal() {
                                    assert(h@[p.ordinal()] is Some);
                                }
                                if a.ordinal() > p.ordinal() {
                                    assert(h@[a.ordinal()] is None);
                                }
                                assert(a == p);
                                assert(pairs@[pairs@.len() - 1] == (a, b));
                            },
                            None => {
                                assert(h@[a.ordinal()] is None);
                            },
                        }
                    }
                }
                assert forall|k: int| 0 <= k < pairs@.len() implies is_stretch_pair(
                    h@,
                    (#[trigger] pairs@[k]).0.ordinal(),
                    pairs@[k].1.ordinal(),
                ) && pairs@[k].1.ordinal() < here + 1 by {
                    if k < before.len() {
                        assert(pairs@[k] == before[k]);
                    } else {
                        let prev = last0->0;
                        assert(pairs@[k] == (HandFinger { hand, finger: prev }, hf));
                    }
                }
                assert forall|i: int, j: int| 0 <= i < j < pairs@.len() implies (#[trigger] pairs@[i]).1.ordinal()
                    < (#[trigger] pairs@[j]).1.ordinal() by {
                    assert(pairs@[i] == before[i]);
                    if j < before.len() {
                        assert(pairs@[j] == before[j]);
                    }
                }
            }
            fi += 1;
        }
        hi += 1;
    }
    pairs
}

/// Two plain taps move one finger when their keys belong to the same finger and lie
/// at different positions, and none otherwise.
pub proof fn lemma_plain_taps(kb: Seq<Key>, k1: usize, k2: usize, h1: Seq<Option<Press>>, h2: Seq<Option<Press>>)
    requires
        h1.len() == 10,
        h2.len() == 10,
        forall|f: int|
            0 <= f < 10 ==> #[trigger] h1[f] == press_of(kb, KeyCombo { shift: None, layer: None, key: k1 }, f),
        forall|f: int|
            0 <= f < 10 ==> #[trigger] h2[f] == press_of(kb, KeyCombo { shift: None, layer: None, key: k2 }, f),
    ensures
        same_finger_count(h1, h2, 10) == (if kb[k1 as int].finger() == kb[k2 as int].finger() && kb[k1 as int].pos()
            != kb[k2 as int].pos() {
            1int
        } else {
            0int
        }),
{
    let f1 = kb[k1 as int].finger();
    let f2 = kb[k2 as int].finger();
    crate::keyboard::lemma_ordinal_injective(f1, f2);
    assert forall|f: int| 0 <= f < 10 implies moves(h1[f], h2[f]) == (if f == f1.ordinal() && f1 == f2
        && kb[k1 as int].pos() != kb[k2 as int].pos() {
        1int
    } else {
        0int
    }) by {
        assert(h1[f] == press_of(kb, KeyCombo { shift: None, layer: None, key: k1 }, f));
        assert(h2[f] == press_of(kb, KeyCombo { shift: None, layer: None, key: k2 }, f));
    }
    reveal_with_fuel(same_finger_count, 11);
}

/// Whether `accs` are the values of a running reduction of `items`: each item is
/// reduced into the value before it, and gives the value after it.
pub open spec fn reduces<T, Re: Fn(T, T) -> T>(reduce: Re, accs: Seq<T>, items: Seq<T>) -> bool {
    &&& accs.len() == items.len() + 1
    &&& forall|i: int| 0 <= i < items.len() ==> call_ensures(reduce, (accs[i], #[trigger] items[i]), accs[i + 1])
}

/// Reduces what `op` makes of each combination of a character into `init`, in the
/// order of the character's resolution.
pub fn one_letter_any<T, Op: Fn(&KeyboardLayout, [&KeyCombo; 1]) -> T, Re: Fn(T, T) -> T>(
    info: &KeyboardLayout,
    init: T,
    op: Op,
    reduce: Re,
    letter: [u8; 1],
) -> (r: T)
    requires
        info.table().contains_key(letter@[0]),
        forall|i: &KeyboardLayout, c: [&KeyCombo; 1]| call_requires(op, (i, c)),
        forall|a: T, b: T| call_requires(reduce, (a, b)),
    ensures
        exists|accs: Seq<T>, items: Seq<T>|
            {
                &&& #[trigger] reduces(reduce, accs, items)
                &&& accs[0] == init
                &&& accs[items.len() as int] == r
                &&& items.len() == info.table()[letter@[0]].len()
                &&& forall|k: int|
                    0 <= k < items.len() ==> call_ensures(
                        op,
                        (info, [&info.table()[letter@[0]][k]]),
                        #[trigger] items[k],
                    )
            },
{
    let combo1 = info.key(letter[0]);
    let mut result = init;
    let ghost mut accs: Seq<T> = seq![init];
    let ghost mut items: Seq<T> = Seq::empty();
    let mut i: usize = 0;
    while i < combo1.len()
        invariant
            i <= combo1@.len(),
            combo1@ == info.table()[letter@[0]],
            forall|i: &KeyboardLayout, c: [&KeyCombo; 1]| call_requires(op, (i, c)),
            forall|a: T, b: T| call_requires(reduce, (a, b)),
            reduces(reduce, accs, items),
            items.len() == i,
            accs[0] == init,
            accs[i as int] == result,
            forall|k: int|
                0 <= k < i ==> call_ensures(op, (info, [&combo1@[k]]), #[trigger] items[k]),
        decreases combo1@.len() - i,
    {
        let this = op(info, [&combo1[i]]);
        let ghost before = result;
        let ghost item = this;
        result = reduce(result, this);
        proof {
            let accs2 = accs.push(result);
            let items2 = items.push(item);
            assert forall|k: int| 0 <= k < items2.len() implies call_ensures(
                reduce,
                (accs2[k], #[trigger] items2[k]),
                accs2[k + 1],
            ) by {
                if k < items.len() {
                    assert(items2[k] == items[k]);
                    assert(call_ensures(reduce, (accs[k], items[k]), accs[k + 1]));
                }
            }
            assert forall|k: int| 0 <= k < i + 1 implies call_ensures(
                op,
                (info, [&combo1@[k]]),
                #[trigger] items2[k],
            ) by {
                if k < i {
                    assert(items2[k] == items[k]);
                }
            }
            accs = accs2;
            items = items2;
        }
        i += 1;
    }
    result
}

/// Reduces what `op` makes of each pair of combinations of two characters into
/// `init`: for each combination of the first character in turn, each combination of
/// the second.
pub fn one_bigram_any<T, Op: Fn(&KeyboardLayout, [&KeyCombo; 2]) -> T, Re: Fn(T, T) -> T>(
    info: &KeyboardLayout,
    init: T,
    op: Op,
    reduce: Re,
    bigram: [u8; 2],
) -> (r: T)
    requires
        info.table().contains_key(bigram@[0]),
        info.table().contains_key(bigram@[1]),
        forall|i: &KeyboardLayout, c: [&KeyCombo; 2]| call_requires(op, (i, c)),
        forall|a: T, b: T| call_requires(reduce, (a, b)),
    ensures
        exists|accs: Seq<T>, items: Seq<T>|
            {
                let first = info.table()[bigram@[0]];
                let second = info.table()[bigram@[1]];
                &&& #[trigger] reduces(reduce, accs, items)
                &&& accs[0] == init
                &&& accs[items.len() as int] == r
                &&& items.len() == first.len() * second.len()
                &&& forall|k: int|
                    0 <= k < items.len() ==> call_ensures(
                        op,
                        (info, [&first[k / (second.len() as int)], &second[k % (second.len() as int)]]),
                        #[trigger] items[k],
                    )
            },
{
    let combo1 = info.key(bigram[0]);
    let combo2 = info.key(bigram[1]);
    let ghost n2 = combo2@.len() as int;
    let mut result = init;
    let ghost mut accs: Seq<T> = seq![init];
    let ghost mut items: Seq<T> = Seq::empty();
    let mut i: usize = 0;
    while i < combo1.len()
        invariant
            i <= combo1@.len(),
            n2 == combo2@.len(),
            combo1@ == info.table()[bigram@[0]],
            combo2@ == info.table()[bigram@[1]],
            forall|i: &KeyboardLayout, c: [&KeyCombo; 2]| call_requires(op, (i, c)),
            forall|a: T, b: T| call_requires(reduce, (a, b)),
            reduces(reduce, accs, items),
            items.len() == i * n2,
            accs[0] == init,
            accs[items.len() as int] == result,
            forall|k: int|
                0 <= k < items.len() ==> call_ensures(
                    op,
                    (info, [&combo1@[k / n2], &combo2@[k % n2]]),
                    #[trigger] items[k],
                ),
        decreases combo1@.len() - i,
    {
        let mut j: usize = 0;
        while j < combo2.len()
            invariant
                i < combo1@.len(),
                j <= combo2@.len(),
                n2 == combo2@.len(),
                combo1@ == info.table()[bigram@[0]],
                combo2@ == info.table()[bigram@[1]],
                forall|i: &KeyboardLayout, c: [&KeyCombo; 2]| call_requires(op, (i, c)),
                forall|a: T, b: T| call_requires(reduce, (a, b)),
                reduces(reduce, accs, items),
                items.len() == i * n2 + j,
                accs[0] == init,
                accs[items.len() as int] == result,
                forall|k: int|
                    0 <= k < items.len() ==> call_ensures(
                        op,
                        (info, [&combo1@[k / n2], &combo2@[k % n2]]),
                        #[trigger] items[k],
                    ),
            decreases combo2@.len() - j,
        {
            let this = op(info, [&combo1[i], &combo2[j]]);
            let ghost item = this;
            result = reduce(result, this);
            proof {
                let accs2 = accs.push(result);
                let items2 = items.push(item);
                let here = items.len() as int;
                lemma_fundamental_div_mod_converse(here, n2, i as int, j as int);
                assert forall|k: int| 0 <= k < items2.len() implies call_ensures(
                    reduce,
                    (accs2[k], #[trigger] items2[k]),
                    accs2[k + 1],
                ) by {
                    if k < items.len() {
                        assert(items2[k] == items[k]);
                        assert(call_ensures(reduce, (accs[k], items[k]), accs[k + 1]));
                    }
                }
                assert forall|k: int| 0 <= k < items2.len() implies call_ensures(
                    op,
                    (info, [&combo1@[k / n2], &combo2@[k % n2]]),
                    #[trigger] items2[k],
                ) by {
                    if k < items.len() {
                        assert(items2[k] == items[k]);
                    }
                }
                accs = accs2;
                items = items2;
                assert(i * n2 + j + 1 == i * n2 + (j + 1));
            }
            j += 1;
        }
        proof {
            assert(i * n2 + n2 == (i + 1) * n2) by (nonlinear_arith);
        }
        i += 1;
    }
    result
}

/// Reduces what `op` makes of each triple of combinations of three characters into
/// `init`: for each combination of the first character in turn, each combination of
/// the second, and for each of those each combination of the third.
pub fn one_trigram_any<T, Op: Fn(&KeyboardLayout, [&KeyCombo; 3]) -> T, Re: Fn(T, T) -> T>(
    info: &KeyboardLayout,
    init: T,
    op: Op,
    reduce: Re,
    trigram: [u8; 3],
) -> (r: T)
    requires
        info.table().contains_key(trigram@[0]),
        info.table().contains_key(trigram@[1]),
        info.table().contains_key(trigram@[2]),
        forall|i: &KeyboardLayout, c: [&KeyCombo; 3]| call_requires(op, (i, c)),
        forall|a: T, b: T| call_requires(reduce, (a, b)),
    ensures
        exists|accs: Seq<T>, items: Seq<T>|
            {
                let first = info.table()[trigram@[0]];
                let second = info.table()[trigram@[1]];
                let third = info.table()[trigram@[2]];
                let n2 = second.len() as int;
                let n3 = third.len() as int;
                &&& #[trigger] reduces(reduce, accs, items)
                &&& accs[0] == init
                &&& accs[items.len() as int] == r
                &&& items.len() == first.len() * second.len() * third.len()
                &&& forall|k: int|
                    0 <= k < items.len() ==> call_ensures(
                        op,
                        (info, [&first[(k / n3) / n2], &second[(k / n3) % n2], &third[k % n3]]),
                        #[trigger] items[k],
                    )
            },
{
    let combo1 = info.key(trigram[0]);
    let combo2 = info.key(trigram[1]);
    let combo3 = info.key(trigram[2]);
    let ghost n2 = combo2@.len() as int;
    let ghost n3 = combo3@.len() as int;
    let mut result = init;
    let ghost mut accs: Seq<T> = seq![init];
    let ghost mut items: Seq<T> = Seq::empty();
    let mut i: usize = 0;
    proof {
        assert(0 * n2 * n3 == 0) by (nonlinear_arith);
    }
    while i < combo1.len()
        invariant
            i <= combo1@.len(),
            n2 == combo2@.len(),
            n3 == combo3@.len(),
            combo1@ == info.table()[trigram@[0]],
            combo2@ == info.table()[trigram@[1]],
            combo3@ == info.table()[trigram@[2]],
            forall|i: &KeyboardLayout, c: [&KeyCombo; 3]| call_requires(op, (i, c)),
            forall|a: T, b: T| call_requires(reduce, (a, b)),
            reduces(reduce, accs, items),
            items.len() == i * n2 * n3,
            accs[0] == init,
            accs[items.len() as int] == result,
            forall|k: int|
                0 <= k < items.len() ==> call_ensures(
                    op,
                    (info, [&combo1@[(k / n3) / n2], &combo2@[(k / n3) % n2], &combo3@[k % n3]]),
                    #[trigger] items[k],
                ),
        decreases combo1@.len() - i,
    {
        let mut j: usize = 0;
        proof {
            assert(i * n2 * n3 == (i * n2 + 0) * n3) by (nonlinear_arith);
        }
        while j < combo2.len()
            invariant
                i < combo1@.len(),
                j <= combo2@.len(),
                n2 == combo2@.len(),
                n3 == combo3@.len(),
                combo1@ == info.table()[trigram@[0]],
                combo2@ == info.table()[trigram@[1]],
                combo3@ == info.table()[trigram@[2]],
                forall|i: &KeyboardLayout, c: [&KeyCombo; 3]| call_requires(op, (i, c)),
                forall|a: T, b: T| call_requires(reduce, (a, b)),
                reduces(reduce, accs, items),
                items.len() == (i * n2 + j) * n3,
                accs[0] == init,
                accs[items.len() as int] == result,
                forall|k: int|
                    0 <= k < items.len() ==> call_ensures(
                        op,
                        (info, [&combo1@[(k / n3) / n2], &combo2@[(k / n3) % n2], &combo3@[k % n3]]),
                        #[trigger] items[k],
                    ),
            decreases combo2@.len() - j,
        {
            let mut l: usize = 0;
            while l < combo3.len()
                invariant
                    i < combo1@.len(),
                    j < combo2@.len(),
                    l <= combo3@.len(),
                    n2 == combo2@.len(),
                    n3 == combo3@.len(),
                    combo1@ == info.table()[trigram@[0]],
                    combo2@ == info.table()[trigram@[1]],
                    combo3@ == info.table()[trigram@[2]],
                    forall|i: &KeyboardLayout, c: [&KeyCombo; 3]| call_requires(op, (i, c)),
                    forall|a: T, b: T| call_requires(reduce, (a, b)),
                    reduces(reduce, accs, items),
                    items.len() == (i * n2 + j) * n3 + l,
                    accs[0] == init,
                    accs[items.len() as int] == result,
                    forall|k: int|
                        0 <= k < items.len() ==> call_ensures(
                            op,
                            (info, [&combo1@[(k / n3) / n2], &combo2@[(k / n3) % n2], &combo3@[k % n3]]),
                            #[trigger] items[k],
                        ),
                decreases combo3@.len() - l,
            {
                let this = op(info, [&combo1[i], &combo2[j], &combo3[l]]);
                let ghost item = this;
                result = reduce(result, this);
                proof {
                    let accs2 = accs.push(result);
                    let items2 = items.push(item);
                    let here = items.len() as int;
                    lemma_fundamental_div_mod_converse(here, n3, i * n2 + j, l as int);
                    lemma_fundamental_div_mod_converse(i * n2 + j, n2, i as int, j as int);
                    assert forall|k: int| 0 <= k < items2.len() implies call_ensures(
                        reduce,
                        (accs2[k], #[trigger] items2[k]),
                        accs2[k + 1],
                    ) by {
                        if k < items.len() {
                            assert(items2[k] == items[k]);
                            assert(call_ensures(reduce, (accs[k], items[k]), accs[k + 1]));
                        }
                    }
                    assert forall|k: int| 0 <= k < items2.len() implies call_ensures(
                        op,
                        (info, [&combo1@[(k / n3) / n2], &combo2@[(k / n3) % n2], &combo3@[k % n3]]),
                        #[trigger] items2[k],
                    ) by {
                        if k < items.len() {
                            assert(items2[k] == items[k]);
                        }
                    }
                    accs = accs2;
                    items = items2;
                }
                l += 1;
            }
            proof {
                assert((i * n2 + j) * n3 + n3 == (i * n2 + (j + 1)) * n3) by (nonlinear_arith);
            }
            j += 1;
        }
        proof {
            assert((i * n2 + n2) * n3 == (i + 1) * n2 * n3) by (nonlinear_arith);
        }
        i += 1;
    }
    result
}

} // verus!
