//! Key-access resolution: every way of producing each required character on a
//! layout, given which finger presses which key.

use std::collections::HashMap;
use std::collections::HashSet;
use rustc_hash::FxBuildHasher;
use vstd::prelude::*;
use crate::alphabet::ALPHABET;
use crate::alphabet::in_alphabet_spec;
use crate::keyboard::HandFinger;
use crate::keyboard::Key;
use crate::keyboard::Keyboard;
use crate::keyboard::Position;
use crate::keyboard::is_home_key;
use crate::usage::KeySet;
use crate::layout::Behavior;
use crate::layout::KeyLoc;
use crate::layout::Layout;
use crate::layout::LayoutView;
use crate::resolve::lists_holds;
use crate::resolve::resolve;
use crate::resolve::slots_holding;

verus! {

/// One way of typing a character: the slot that is tapped, the base-layer slot held to
/// reach the tapped slot's layer, and the base-layer slot held for shift.
#[derive(Debug, Clone, Copy, PartialEq, Eq, Structural)]
pub struct KeyCombo {
    pub shift: Option<usize>,
    pub layer: Option<usize>,
    pub key: usize,
}

impl KeyCombo {
    pub fn new(shift: Option<usize>, layer: Option<usize>, key: usize) -> (r: Self)
        ensures
            r == (KeyCombo { shift, layer, key }),
    {
        Self { shift, layer, key }
    }
}

/// The glyph that is tapped to produce `c`: the lower-case letter for a capital, the
/// slash for a question mark, and `c` itself otherwise.
pub open spec fn real_key(c: u8) -> u8 {
    if 0x41 <= c <= 0x5a {
        (c + 0x20) as u8
    } else if c == 0x3f {
        0x2f
    } else {
        c
    }
}

/// The glyph that is tapped to produce `c`.
pub fn unshifted(c: u8) -> (r: u8)
    ensures
        r == real_key(c),
{
    if 0x41 <= c && c <= 0x5a {
        c + 0x20
    } else if c == 0x3f {
        0x2f
    } else {
        c
    }
}

/// Whether `c` is produced by tapping its glyph while shift is held.
pub open spec fn needs_shift(c: u8) -> bool {
    c != real_key(c)
}

/// Place of an optional slot in slot order, with "no slot" before every slot.
pub open spec fn slot_rank(slot: Option<usize>) -> int {
    match slot {
        Some(s) => s as int,
        None => -1,
    }
}

/// Whether `slot` can serve as the shift key for `c`: a base-layer slot whose hold
/// behaviour is shift when `c` needs shift, and no slot at all when it does not.
pub open spec fn valid_shift(lv: LayoutView, c: u8, slot: Option<usize>) -> bool {
    match slot {
        Some(s) => needs_shift(c) && s < lv.size() && lv.base_hold[s as int] == Some(Behavior::Shift),
        None => !needs_shift(c),
    }
}

/// Whether `slot` can serve as the layer key for a tap on layer `k`: a base-layer slot
/// whose hold behaviour activates layer `k` when `k` is not the base layer, and no slot
/// at all when it is.
pub open spec fn valid_layer(lv: LayoutView, k: u8, slot: Option<usize>) -> bool {
    match slot {
        Some(l) => k != 0 && l < lv.size() && lv.base_hold[l as int] == Some(Behavior::Layer(k)),
        None => k == 0,
    }
}

/// The layer on which the tapped slot of `combo` is read, if its layer key is one.
pub open spec fn target_layer(lv: LayoutView, combo: KeyCombo) -> Option<u8> {
    match combo.layer {
        None => Some(0u8),
        Some(l) => if l < lv.size() {
            match lv.base_hold[l as int] {
                Some(Behavior::Layer(k)) => if k != 0 { Some(k) } else { None },
                _ => None,
            }
        } else {
            None
        },
    }
}

/// Whether the keys of `combo` can be pressed together: a combination that holds both
/// a layer key and a shift key is refused when the shift key's slot carries a tap
/// character on the base layer, and no two of its keys may belong to the same finger.
pub open spec fn holdable(lv: LayoutView, kb: Seq<Key>, combo: KeyCombo) -> bool {
    let tap = kb[combo.key as int].finger();
    &&& (combo.layer is Some && combo.shift is Some ==> lv.layers[0][combo.shift->0 as int] is None)
    &&& combo.layer matches Some(l) ==> kb[l as int].finger() != tap
    &&& combo.shift matches Some(s) ==> kb[s as int].finger() != tap
    &&& (combo.layer is Some && combo.shift is Some) ==> kb[combo.layer->0 as int].finger()
        != kb[combo.shift->0 as int].finger()
}

/// Whether `combo` is a way of typing `c` on layout `lv` with the keys `kb`.
pub open spec fn produces(lv: LayoutView, kb: Seq<Key>, c: u8, combo: KeyCombo) -> bool {
    &&& combo.key < lv.size()
    &&& target_layer(lv, combo) matches Some(k) && k < lv.layers.len() && lv.layers[k as int][combo.key as int]
        == Some(real_key(c))
    &&& valid_shift(lv, c, combo.shift)
    &&& holdable(lv, kb, combo)
}

/// The slot that `combo` taps, with its layer.
pub open spec fn tapped(lv: LayoutView, combo: KeyCombo) -> KeyLoc {
    KeyLoc { layer: target_layer(lv, combo).unwrap_or(0), index: combo.key }
}

/// Whether `combo` comes before the point `(at, lr, sr)` of the resolution order:
/// before tapped slot `at`, or on it with a layer key of rank below `lr`, or on it with
/// a layer key of rank `lr` and a shift key of rank below `sr`. Everything comes
/// before the end, which is `at == None`.
pub open spec fn before(lv: LayoutView, combo: KeyCombo, at: Option<KeyLoc>, lr: int, sr: int) -> bool {
    match at {
        None => true,
        Some(f) => {
            ||| tapped(lv, combo).precedes(f)
            ||| tapped(lv, combo) == f && slot_rank(combo.layer) < lr
            ||| tapped(lv, combo) == f && slot_rank(combo.layer) == lr && slot_rank(combo.shift) < sr
        },
    }
}

/// Order of two combinations: by tapped slot, layer by layer; then by layer key; then
/// by shift key.
pub open spec fn combo_precedes(lv: LayoutView, a: KeyCombo, b: KeyCombo) -> bool {
    before(lv, a, Some(tapped(lv, b)), slot_rank(b.layer), slot_rank(b.shift))
}

/// The ways of typing `c` on layout `lv` with the keys `kb`.
pub open spec fn ways(lv: LayoutView, kb: Seq<Key>, c: u8) -> Set<KeyCombo> {
    Set::new(|combo: KeyCombo| produces(lv, kb, c, combo))
}

/// Whether `combos` holds exactly the members of `wanted`, each once, in the order of
/// [`combo_precedes`].
pub open spec fn lists_in_order(lv: LayoutView, combos: Seq<KeyCombo>, wanted: Set<KeyCombo>) -> bool {
    &&& forall|i: int| 0 <= i < combos.len() ==> wanted.contains(#[trigger] combos[i])
    &&& forall|combo: KeyCombo| #[trigger] wanted.contains(combo) ==> combos.contains(combo)
    &&& forall|i: int, j: int|
        0 <= i < j < combos.len() ==> combo_precedes(lv, #[trigger] combos[i], #[trigger] combos[j])
}

/// Whether `combos` is the resolution of `c`: exactly the ways of typing it, each
/// once, ordered by tapped slot, then layer key, then shift key.
pub open spec fn is_resolution(lv: LayoutView, kb: Seq<Key>, c: u8, combos: Seq<KeyCombo>) -> bool {
    lists_in_order(lv, combos, ways(lv, kb, c))
}

/// [`combo_precedes`] never holds both ways round, nor of a combination and itself.
pub proof fn lemma_precedes_order(lv: LayoutView)
    ensures
        forall|a: KeyCombo, b: KeyCombo|
            #[trigger] combo_precedes(lv, a, b) ==> !combo_precedes(lv, b, a) && a != b,
{
}

/// Two ordered listings of the same set are the same list.
pub proof fn lemma_listing_unique(
    lv: LayoutView,
    a: Seq<KeyCombo>,
    b: Seq<KeyCombo>,
    wanted: Set<KeyCombo>,
)
    requires
        lists_in_order(lv, a, wanted),
        lists_in_order(lv, b, wanted),
    ensures
        a == b,
    decreases a.len(),
{
    lemma_precedes_order(lv);
    if a.len() == 0 {
        if b.len() > 0 {
            assert(wanted.contains(b[0]));
            assert(a.contains(b[0]));
        }
        assert(a =~= b);
    } else {
        let x = a[a.len() - 1];
        assert(wanted.contains(x));
        assert(b.contains(x));
        let j = choose|j: int| 0 <= j < b.len() && b[j] == x;
        if j < b.len() - 1 {
            // whatever followed `x` in `b` would have to come before it in `a`
            let y = b[b.len() - 1];
            assert(combo_precedes(lv, b[j], y));
            assert(wanted.contains(y));
            assert(a.contains(y));
            let i = choose|i: int| 0 <= i < a.len() && a[i] == y;
            if i < a.len() - 1 {
                assert(combo_precedes(lv, a[i], a[a.len() - 1]));
            }
            assert(false);
        }
        let a0 = a.drop_last();
        let b0 = b.drop_last();
        let rest = wanted.remove(x);
        assert forall|i: int| 0 <= i < a0.len() implies rest.contains(#[trigger] a0[i]) by {
            assert(combo_precedes(lv, a[i], a[a.len() - 1]));
        }
        assert forall|i: int| 0 <= i < b0.len() implies rest.contains(#[trigger] b0[i]) by {
            assert(combo_precedes(lv, b[i], b[b.len() - 1]));
        }
        assert forall|combo: KeyCombo| #[trigger] rest.contains(combo) implies a0.contains(combo)
            && b0.contains(combo) by {
            assert(wanted.contains(combo));
            assert(a.contains(combo));
            let i = choose|i: int| 0 <= i < a.len() && a[i] == combo;
            assert(a0[i] == combo);
            assert(b.contains(combo));
            let k = choose|k: int| 0 <= k < b.len() && b[k] == combo;
            assert(b0[k] == combo);
        }
        assert forall|i: int, j: int| 0 <= i < j < a0.len() implies combo_precedes(
            lv,
            #[trigger] a0[i],
            #[trigger] a0[j],
        ) by {
            assert(combo_precedes(lv, a[i], a[j]));
        }
        assert forall|i: int, j: int| 0 <= i < j < b0.len() implies combo_precedes(
            lv,
            #[trigger] b0[i],
            #[trigger] b0[j],
        ) by {
            assert(combo_precedes(lv, b[i], b[j]));
        }
        lemma_listing_unique(lv, a0, b0, rest);
        assert(a =~= a0.push(x));
        assert(b =~= b0.push(x));
    }
}

/// A character has one resolution only: resolving is a function of the layout, the
/// keys and the character.
pub proof fn lemma_resolution_unique(
    lv: LayoutView,
    kb: Seq<Key>,
    c: u8,
    a: Seq<KeyCombo>,
    b: Seq<KeyCombo>,
)
    requires
        is_resolution(lv, kb, c, a),
        is_resolution(lv, kb, c, b),
    ensures
        a == b,
{
    lemma_listing_unique(lv, a, b, ways(lv, kb, c));
}

/// The hasher of the table of resolutions; nothing is read from it.
#[verifier::external_type_specification]
#[verifier::external_body]
pub struct ExFxBuildHasher(FxBuildHasher);

/// `HashMap::insert` on a map hashed by `FxBuildHasher`: afterwards `key` maps to
/// `combos` and every other key to what it mapped to before. The hasher is
/// deterministic and bytes are compared by value, so the map behaves as a map.
#[verifier::external_body]
fn table_insert(table: &mut HashMap<u8, Vec<KeyCombo>, FxBuildHasher>, key: u8, combos: Vec<KeyCombo>)
    ensures
        final(table)@ == old(table)@.insert(key, combos),
{
    table.insert(key, combos);
}

/// `Index::index` of a `HashMap` hashed by `FxBuildHasher`, for a key that the map
/// holds: the value stored under that key. For a key that it does not hold the call
/// is refused.
#[verifier::external_body]
fn table_get(table: &HashMap<u8, Vec<KeyCombo>, FxBuildHasher>, key: u8) -> (r: &Vec<KeyCombo>)
    requires
        table@.contains_key(key),
    ensures
        *r == table@[key],
{
    &table[&key]
}

/// Whether some combination types `c`.
pub open spec fn reachable(lv: LayoutView, kb: Seq<Key>, c: u8) -> bool {
    exists|combo: KeyCombo| produces(lv, kb, c, combo)
}

/// Place in the alphabet of the first character from `from` on that no combination
/// types; 97 if there is none.
pub open spec fn first_unreachable(lv: LayoutView, kb: Seq<Key>, from: int) -> int
    decreases 97 - from,
{
    if from < 0 || from >= 97 {
        97
    } else if reachable(lv, kb, ALPHABET@[from]) {
        first_unreachable(lv, kb, from + 1)
    } else {
        from
    }
}

/// The slots tapped by the combinations that type the first `n` characters of the
/// alphabet.
pub open spec fn tapped_by(lv: LayoutView, kb: Seq<Key>, n: int) -> Set<KeyLoc> {
    Set::new(
        |loc: KeyLoc|
            exists|j: int, combo: KeyCombo|
                0 <= j < n && #[trigger] produces(lv, kb, ALPHABET@[j], combo) && tapped(lv, combo) == loc,
    )
}

/// The base-layer slots held, for shift or for a layer, by the combinations that type
/// the first `n` characters of the alphabet.
pub open spec fn held_by(lv: LayoutView, kb: Seq<Key>, n: int) -> Set<usize> {
    Set::new(
        |s: usize|
            exists|j: int, combo: KeyCombo|
                0 <= j < n && #[trigger] produces(lv, kb, ALPHABET@[j], combo) && (combo.shift == Some(s)
                    || combo.layer == Some(s)),
    )
}

/// Whether `p` is the home position of finger `f` among the first `n` keys: the
/// position of the last of them that is marked as its resting place, if one is.
pub open spec fn home_among(kb: Seq<Key>, n: int, f: HandFinger, p: Option<Position>) -> bool {
    match p {
        None => forall|i: int| 0 <= i < n ==> !is_home_key(kb, i, f),
        Some(pos) => exists|i: int|
            #![trigger is_home_key(kb, i, f)]
            0 <= i < n && is_home_key(kb, i, f) && kb[i].pos() == pos && forall|j: int|
                0 <= j < n && is_home_key(kb, j, f) ==> j <= i,
    }
}

/// Whether `p` is the home position of finger `f` on the board `kb`.
pub open spec fn home_position(kb: Seq<Key>, f: HandFinger, p: Option<Position>) -> bool {
    home_among(kb, kb.len() as int, f, p)
}

/// The slots that the combinations of `combos` tap.
pub open spec fn taps_of(lv: LayoutView, combos: Seq<KeyCombo>) -> Set<KeyLoc> {
    Set::new(|loc: KeyLoc| exists|k: int| 0 <= k < combos.len() && tapped(lv, #[trigger] combos[k]) == loc)
}

/// The base-layer slots that the combinations of `combos` hold.
pub open spec fn holds_of(combos: Seq<KeyCombo>) -> Set<usize> {
    Set::new(
        |s: usize|
            exists|k: int|
                0 <= k < combos.len() && ((#[trigger] combos[k]).shift == Some(s) || combos[k].layer == Some(
                    s,
                )),
    )
}

/// The slot that `combo` taps, with its layer.
fn tap_of(layout: &Layout, combo: &KeyCombo) -> (r: KeyLoc)
    ensures
        r == tapped(layout@, *combo),
{
    let mut layer: u8 = 0;
    if let Some(l) = combo.layer {
        let hold = layout.base_hold();
        if l < hold.len() {
            if let Some(Behavior::Layer(k)) = hold[l] {
                layer = k;
            }
        }
    }
    KeyLoc::new(layer, combo.key)
}

/// Notes what the combinations of `combos` tap and hold.
fn record(layout: &Layout, combos: &Vec<KeyCombo>, taps: &mut Vec<KeyLoc>, holds: &mut Vec<usize>)
    ensures
        final(taps)@.to_set() == old(taps)@.to_set().union(taps_of(layout@, combos@)),
        final(holds)@.to_set() == old(holds)@.to_set().union(holds_of(combos@)),
{
    let ghost lv = layout@;
    let mut k: usize = 0;
    proof {
        assert(taps@.to_set() =~= old(taps)@.to_set().union(taps_of(lv, combos@.take(0))));
        assert(holds@.to_set() =~= old(holds)@.to_set().union(holds_of(combos@.take(0))));
    }
    while k < combos.len()
        invariant
            k <= combos@.len(),
            lv == layout@,
            taps@.to_set() == old(taps)@.to_set().union(taps_of(lv, combos@.take(k as int))),
            holds@.to_set() == old(holds)@.to_set().union(holds_of(combos@.take(k as int))),
        decreases combos@.len() - k,
    {
        let combo = combos[k];
        let ghost taps0 = taps@;
        let ghost holds0 = holds@;
        let loc = tap_of(layout, &combo);
        taps.push(loc);
        if let Some(s) = combo.shift {
            holds.push(s);
        }
        let ghost holds1 = holds@;
        if let Some(l) = combo.layer {
            holds.push(l);
        }
        proof {
            let done = combos@.take(k as int);
            let more = combos@.take(k + 1);
            assert(more == done.push(combo));
            assert forall|x: KeyLoc| taps_of(lv, more).contains(x) <==> taps_of(lv, done).contains(x) || x
                == loc by {
                if taps_of(lv, done).contains(x) {
                    let j = choose|j: int| 0 <= j < done.len() && tapped(lv, #[trigger] done[j]) == x;
                    assert(more[j] == done[j]);
                }
                if x == loc {
                    assert(tapped(lv, more[k as int]) == x);
                }
                if taps_of(lv, more).contains(x) {
                    let j = choose|j: int| 0 <= j < more.len() && tapped(lv, #[trigger] more[j]) == x;
                    if j < k {
                        assert(done[j] == more[j]);
                    }
                }
            }
            taps0.lemma_push_to_set_commute(loc);
            assert(taps@ == taps0.push(loc));
            assert(taps@.to_set() =~= old(taps)@.to_set().union(taps_of(lv, more)));
            assert forall|x: usize| holds_of(more).contains(x) <==> holds_of(done).contains(x) || combo.shift
                == Some(x) || combo.layer == Some(x) by {
                if holds_of(done).contains(x) {
                    let j = choose|j: int|
                        0 <= j < done.len() && ((#[trigger] done[j]).shift == Some(x) || done[j].layer == Some(
                            x,
                        ));
                    assert(more[j] == done[j]);
                }
                if combo.shift == Some(x) || combo.layer == Some(x) {
                    assert(more[k as int] == combo);
                }
                if holds_of(more).contains(x) {
                    let j = choose|j: int|
                        0 <= j < more.len() && ((#[trigger] more[j]).shift == Some(x) || more[j].layer == Some(
                            x,
                        ));
                    if j < k {
                        assert(done[j] == more[j]);
                    }
                }
            }
            if let Some(x) = combo.shift {
                holds0.lemma_push_to_set_commute(x);
                assert(holds1 == holds0.push(x));
            }
            if let Some(x) = combo.layer {
                holds1.lemma_push_to_set_commute(x);
                assert(holds@ == holds1.push(x));
            }
            assert(holds@.to_set() =~= old(holds)@.to_set().union(holds_of(more)));
        }
        k += 1;
    }
    proof {
        assert(combos@.take(k as int) == combos@);
    }
}

/// Adds the slots of `from` to `into`.
fn merge_keys(into: &mut KeySet, from: &Vec<KeyLoc>)
    requires
        old(into).well_formed(),
    ensures
        final(into).well_formed(),
        final(into)@ == old(into)@.union(from@.to_set()),
{
    let mut k: usize = 0;
    proof {
        assert(into@ =~= old(into)@.union(from@.take(0).to_set()));
    }
    while k < from.len()
        invariant
            k <= from@.len(),
            into.well_formed(),
            into@ == old(into)@.union(from@.take(k as int).to_set()),
        decreases from@.len() - k,
    {
        into.insert(from[k]);
        proof {
            lemma_take_to_set(from@, k as int);
            assert(into@ =~= old(into)@.union(from@.take(k + 1).to_set()));
        }
        k += 1;
    }
    proof {
        assert(from@.take(k as int) == from@);
    }
}

/// Adds the slots of `from` to `into`.
fn merge_holds(into: &mut HashSet<usize>, from: &Vec<usize>)
    ensures
        final(into)@ == old(into)@.union(from@.to_set()),
{
    let mut k: usize = 0;
    proof {
        assert(into@ =~= old(into)@.union(from@.take(0).to_set()));
    }
    while k < from.len()
        invariant
            k <= from@.len(),
            into@ == old(into)@.union(from@.take(k as int).to_set()),
        decreases from@.len() - k,
    {
        into.insert(from[k]);
        proof {
            lemma_take_to_set(from@, k as int);
            assert(into@ =~= old(into)@.union(from@.take(k + 1).to_set()));
        }
        k += 1;
    }
    proof {
        assert(from@.take(k as int) == from@);
    }
}

/// The members of one more element of a list are those of the elements before it and
/// that element.
proof fn lemma_take_to_set<T>(s: Seq<T>, k: int)
    requires
        0 <= k < s.len(),
    ensures
        s.take(k + 1).to_set() == s.take(k).to_set().insert(s[k]),
{
    let a = s.take(k);
    let b = s.take(k + 1);
    assert forall|x: T| b.contains(x) <==> a.contains(x) || x == s[k] by {
        if a.contains(x) {
            let j = choose|j: int| 0 <= j < a.len() && a[j] == x;
            assert(b[j] == x);
        }
        if x == s[k] {
            assert(b[k] == x);
        }
        if b.contains(x) {
            let j = choose|j: int| 0 <= j < b.len() && b[j] == x;
            if j < k {
                assert(a[j] == x);
            }
        }
    }
    assert(b.to_set() =~= a.to_set().insert(s[k]));
}

/// Home position of each finger, by the finger's ordinal.
fn home_positions(keyboard: &Keyboard) -> (base: [Option<Position>; 10])
    ensures
        forall|f: HandFinger| home_position(keyboard@, f, #[trigger] base@[f.ordinal()]),
{
    let mut base: [Option<Position>; 10] = [None, None, None, None, None, None, None, None, None, None];
    let ghost kb = keyboard@;
    let n = keyboard.len();
    let mut i: usize = 0;
    while i < n
        invariant
            i <= n,
            n == kb.len(),
            kb == keyboard@,
            forall|f: HandFinger| home_among(kb, i as int, f, #[trigger] base@[f.ordinal()]),
        decreases n - i,
    {
        let key = keyboard.key(i);
        let ghost before = base@;
        if key.is_base() {
            base[key.finger().index()] = Some(key.pos());
        }
        proof {
            assert forall|f: HandFinger| home_among(kb, i + 1, f, #[trigger] base@[f.ordinal()]) by {
                crate::keyboard::lemma_ordinal_injective(f, key.finger());
                assert(home_among(kb, i as int, f, before[f.ordinal()]));
                if key.is_base() && key.finger() == f {
                    assert(is_home_key(kb, i as int, f));
                } else {
                    assert(!is_home_key(kb, i as int, f));
                    assert(base@[f.ordinal()] == before[f.ordinal()]);
                    if let Some(pos) = before[f.ordinal()] {
                        let w = choose|w: int|
                            #![trigger is_home_key(kb, w, f)]
                            0 <= w < i && is_home_key(kb, w, f) && kb[w].pos() == pos && forall|j: int|
                                0 <= j < i && is_home_key(kb, j, f) ==> j <= w;
                        assert(is_home_key(kb, w, f));
                    }
                }
            }
        }
        i += 1;
    }
    base
}

/// The resolutions of the characters of the alphabet, in the order of the alphabet, as
/// far as the first character that cannot be typed; `taps` and `holds` receive what
/// the listed combinations tap and hold.
fn resolve_all(layout: &Layout, keyboard: &Keyboard, taps: &mut Vec<KeyLoc>, holds: &mut Vec<usize>) -> (r:
    Result<HashMap<u8, Vec<KeyCombo>, FxBuildHasher>, u8>)
    requires
        layout@.well_formed(),
        layout@.size() <= keyboard@.len(),
    ensures
        match r {
            Ok(keys) => {
                &&& first_unreachable(layout@, keyboard@, 0) == 97
                &&& forall|c: u8| keys@.contains_key(c) <==> in_alphabet_spec(c)
                &&& forall|c: u8|
                    #[trigger] keys@.contains_key(c) ==> is_resolution(layout@, keyboard@, c, keys@[c]@)
                        && keys@[c]@.len() > 0
            },
            Err(c) => {
                let stop = first_unreachable(layout@, keyboard@, 0);
                0 <= stop < 97 && c == ALPHABET@[stop]
            },
        },
        final(taps)@.to_set() == old(taps)@.to_set().union(
            tapped_by(layout@, keyboard@, first_unreachable(layout@, keyboard@, 0)),
        ),
        final(holds)@.to_set() == old(holds)@.to_set().union(
            held_by(layout@, keyboard@, first_unreachable(layout@, keyboard@, 0)),
        ),
{
    let ghost lv = layout@;
    let ghost kb = keyboard@;
    let shift_keys = slots_holding(layout, Behavior::Shift);
    let mut keys: HashMap<u8, Vec<KeyCombo>, FxBuildHasher> = HashMap::default();
    let mut i: usize = 0;
    proof {
        assert(taps@.to_set() =~= old(taps)@.to_set().union(tapped_by(lv, kb, 0)));
        assert(holds@.to_set() =~= old(holds)@.to_set().union(held_by(lv, kb, 0)));
    }
    while i < 97
        invariant
            i <= 97,
            lv == layout@,
            kb == keyboard@,
            lv.well_formed(),
            lv.size() <= kb.len(),
            lists_holds(lv, Behavior::Shift, shift_keys@),
            first_unreachable(lv, kb, 0) == first_unreachable(lv, kb, i as int),
            forall|c: u8| keys@.contains_key(c) <==> exists|j: int| 0 <= j < i && #[trigger] ALPHABET@[j] == c,
            forall|c: u8|
                #[trigger] keys@.contains_key(c) ==> is_resolution(lv, kb, c, keys@[c]@) && keys@[c]@.len() > 0,
            taps@.to_set() == old(taps)@.to_set().union(tapped_by(lv, kb, i as int)),
            holds@.to_set() == old(holds)@.to_set().union(held_by(lv, kb, i as int)),
        decreases 97 - i,
    {
        let c = ALPHABET[i];
        let combos = resolve(layout, keyboard, c, &shift_keys);
        if combos.len() == 0 {
            proof {
                assert forall|combo: KeyCombo| !produces(lv, kb, c, combo) by {
                    if produces(lv, kb, c, combo) {
                        assert(ways(lv, kb, c).contains(combo));
                        assert(combos@.contains(combo));
                    }
                }
            }
            return Err(c);
        }
        proof {
            assert(ways(lv, kb, c).contains(combos@[0]));
            assert(produces(lv, kb, c, combos@[0]));
            lemma_usage_step(lv, kb, i as int, combos@);
        }
        let ghost keys0 = keys@;
        record(layout, &combos, taps, holds);
        table_insert(&mut keys, c, combos);
        proof {
            assert forall|x: u8| keys@.contains_key(x) <==> exists|j: int|
                0 <= j < i + 1 && #[trigger] ALPHABET@[j] == x by {
                if keys0.contains_key(x) {
                    let j = choose|j: int| 0 <= j < i && #[trigger] ALPHABET@[j] == x;
                    assert(0 <= j < i + 1 && ALPHABET@[j] == x);
                }
                if x == c {
                    assert(ALPHABET@[i as int] == x);
                }
            }
            assert(taps@.to_set() =~= old(taps)@.to_set().union(tapped_by(lv, kb, i + 1)));
            assert(holds@.to_set() =~= old(holds)@.to_set().union(held_by(lv, kb, i + 1)));
        }
        i += 1;
    }
    proof {
        crate::alphabet::lemma_alphabet_members();
    }
    Ok(keys)
}

/// One more character of the alphabet adds to the slots in use what its resolution
/// taps and holds.
proof fn lemma_usage_step(lv: LayoutView, kb: Seq<Key>, i: int, combos: Seq<KeyCombo>)
    requires
        0 <= i < 97,
        is_resolution(lv, kb, ALPHABET@[i], combos),
    ensures
        tapped_by(lv, kb, i + 1) == tapped_by(lv, kb, i).union(taps_of(lv, combos)),
        held_by(lv, kb, i + 1) == held_by(lv, kb, i).union(holds_of(combos)),
{
    let c = ALPHABET@[i];
    assert forall|loc: KeyLoc| tapped_by(lv, kb, i + 1).contains(loc) <==> tapped_by(lv, kb, i).contains(loc)
        || taps_of(lv, combos).contains(loc) by {
        if tapped_by(lv, kb, i + 1).contains(loc) {
            let (j, combo) = choose|j: int, combo: KeyCombo|
                0 <= j < i + 1 && #[trigger] produces(lv, kb, ALPHABET@[j], combo) && tapped(lv, combo) == loc;
            if j == i {
                assert(ways(lv, kb, c).contains(combo));
                assert(combos.contains(combo));
                let k = choose|k: int| 0 <= k < combos.len() && combos[k] == combo;
                assert(tapped(lv, combos[k]) == loc);
            } else {
                assert(0 <= j < i && produces(lv, kb, ALPHABET@[j], combo) && tapped(lv, combo) == loc);
            }
        }
        if tapped_by(lv, kb, i).contains(loc) {
            let (j, combo) = choose|j: int, combo: KeyCombo|
                0 <= j < i && #[trigger] produces(lv, kb, ALPHABET@[j], combo) && tapped(lv, combo) == loc;
            assert(0 <= j < i + 1 && produces(lv, kb, ALPHABET@[j], combo) && tapped(lv, combo) == loc);
        }
        if taps_of(lv, combos).contains(loc) {
            let k = choose|k: int| 0 <= k < combos.len() && tapped(lv, #[trigger] combos[k]) == loc;
            assert(ways(lv, kb, c).contains(combos[k]));
            assert(0 <= i < i + 1 && produces(lv, kb, ALPHABET@[i], combos[k]) && tapped(lv, combos[k]) == loc);
        }
    }
    assert(tapped_by(lv, kb, i + 1) =~= tapped_by(lv, kb, i).union(taps_of(lv, combos)));
    assert forall|s: usize| held_by(lv, kb, i + 1).contains(s) <==> held_by(lv, kb, i).contains(s)
        || holds_of(combos).contains(s) by {
        if held_by(lv, kb, i + 1).contains(s) {
            let (j, combo) = choose|j: int, combo: KeyCombo|
                0 <= j < i + 1 && #[trigger] produces(lv, kb, ALPHABET@[j], combo) && (combo.shift == Some(s)
                    || combo.layer == Some(s));
            if j == i {
                assert(ways(lv, kb, c).contains(combo));
                assert(combos.contains(combo));
                let k = choose|k: int| 0 <= k < combos.len() && combos[k] == combo;
                assert(combos[k].shift == Some(s) || combos[k].layer == Some(s));
            } else {
                assert(0 <= j < i && produces(lv, kb, ALPHABET@[j], combo) && (combo.shift == Some(s)
                    || combo.layer == Some(s)));
            }
        }
        if held_by(lv, kb, i).contains(s) {
            let (j, combo) = choose|j: int, combo: KeyCombo|
                0 <= j < i && #[trigger] produces(lv, kb, ALPHABET@[j], combo) && (combo.shift == Some(s)
                    || combo.layer == Some(s));
            assert(0 <= j < i + 1 && produces(lv, kb, ALPHABET@[j], combo) && (combo.shift == Some(s)
                || combo.layer == Some(s)));
        }
        if holds_of(combos).contains(s) {
            let k = choose|k: int|
                0 <= k < combos.len() && ((#[trigger] combos[k]).shift == Some(s) || combos[k].layer == Some(s));
            assert(ways(lv, kb, c).contains(combos[k]));
            assert(0 <= i < i + 1 && produces(lv, kb, ALPHABET@[i], combos[k]) && (combos[k].shift == Some(s)
                || combos[k].layer == Some(s)));
        }
    }
    assert(held_by(lv, kb, i + 1) =~= held_by(lv, kb, i).union(holds_of(combos)));
}

/// The resolution of every character of the alphabet on one layout and board.
pub struct KeyboardLayout<'a> {
    keys: HashMap<u8, Vec<KeyCombo>, FxBuildHasher>,
    base: [Option<Position>; 10],
    kb: &'a Keyboard,
}

impl<'a> KeyboardLayout<'a> {
    /// The resolution stored for each character.
    pub closed spec fn table(&self) -> Map<u8, Seq<KeyCombo>> {
        Map::new(|c: u8| self.keys@.contains_key(c), |c: u8| self.keys@[c]@)
    }

    /// Home position of each finger, by the finger's ordinal.
    pub closed spec fn homes(&self) -> Seq<Option<Position>> {
        self.base@
    }

    /// The keys of the board.
    pub closed spec fn board(&self) -> Seq<Key> {
        self.kb@
    }

    /// Whether this is the resolution of the whole alphabet on `lv` and `kb`.
    pub open spec fn resolves(&self, lv: LayoutView, kb: Seq<Key>) -> bool {
        &&& self.board() == kb
        &&& forall|c: u8| self.table().contains_key(c) <==> in_alphabet_spec(c)
        &&& forall|c: u8|
            in_alphabet_spec(c) ==> is_resolution(lv, kb, c, #[trigger] self.table()[c]) && self.table()[c].len()
                > 0
        &&& self.homes().len() == 10
        &&& forall|f: HandFinger| home_position(kb, f, #[trigger] self.homes()[f.ordinal()])
    }

    /// The resolution of the alphabet, or the first character of the alphabet that
    /// cannot be typed.
    pub fn generate(layout: &'a Layout, keyboard: &'a Keyboard) -> (r: Result<Self, u8>)
        requires
            layout@.well_formed(),
            layout@.size() <= keyboard@.len(),
        ensures
            match r {
                Ok(info) => first_unreachable(layout@, keyboard@, 0) == 97 && info.resolves(
                    layout@,
                    keyboard@,
                ),
                Err(c) => {
                    let stop = first_unreachable(layout@, keyboard@, 0);
                    0 <= stop < 97 && c == ALPHABET@[stop]
                },
            },
    {
        Self::generate_with_usage(layout, keyboard, None, None)
    }

    /// As [`Self::generate`], and adds to `used_keys` every slot that some listed
    /// combination taps and to `used_holds` every slot that one holds.
    ///
    /// On failure the sets have received what the characters before the failing one use.
    pub fn generate_with_usage(
        layout: &'a Layout,
        keyboard: &'a Keyboard,
        used_keys: Option<&mut KeySet>,
        used_holds: Option<&mut HashSet<usize>>,
    ) -> (r: Result<Self, u8>)
        requires
            layout@.well_formed(),
            layout@.size() <= keyboard@.len(),
            used_keys matches Some(u) ==> u.well_formed(),
        ensures
            match r {
                Ok(info) => first_unreachable(layout@, keyboard@, 0) == 97 && info.resolves(
                    layout@,
                    keyboard@,
                ),
                Err(c) => {
                    let stop = first_unreachable(layout@, keyboard@, 0);
                    0 <= stop < 97 && c == ALPHABET@[stop]
                },
            },
            used_keys matches Some(u) ==> final(u).well_formed() && final(u)@ == u@.union(
                tapped_by(layout@, keyboard@, first_unreachable(layout@, keyboard@, 0)),
            ),
            used_holds matches Some(u) ==> final(u)@ == u@.union(
                held_by(layout@, keyboard@, first_unreachable(layout@, keyboard@, 0)),
            ),
    {
        let mut taps: Vec<KeyLoc> = Vec::new();
        let mut holds: Vec<usize> = Vec::new();
        let resolved = resolve_all(layout, keyboard, &mut taps, &mut holds);
        proof {
            assert(taps@.to_set() =~= tapped_by(layout@, keyboard@, first_unreachable(layout@, keyboard@, 0)));
            assert(holds@.to_set() =~= held_by(layout@, keyboard@, first_unreachable(layout@, keyboard@, 0)));
        }
        if let Some(u) = used_keys {
            merge_keys(u, &taps);
        }
        if let Some(u) = used_holds {
            merge_holds(u, &holds);
        }
        match resolved {
            Ok(keys) => {
                let info = Self { keys, base: home_positions(keyboard), kb: keyboard };
                proof {
                    assert forall|c: u8| in_alphabet_spec(c) implies is_resolution(
                        layout@,
                        keyboard@,
                        c,
                        #[trigger] info.table()[c],
                    ) && info.table()[c].len() > 0 by {
                        assert(info.keys@.contains_key(c));
                    }
                }
                Ok(info)
            },
            Err(c) => Err(c),
        }
    }

    /// The board that the resolution was made for.
    pub fn keyboard(&self) -> (r: &Keyboard)
        ensures
            r@ == self.board(),
    {
        self.kb
    }

    /// Home position of finger `f`, if a key is marked as its resting place.
    pub fn home(&self, f: HandFinger) -> (r: Option<Position>)
        ensures
            self.homes().len() == 10,
            r == self.homes()[f.ordinal()],
    {
        self.base[f.index()]
    }

    /// The resolution of `x`.
    pub fn key(&self, x: u8) -> (r: &[KeyCombo])
        requires
            self.table().contains_key(x),
        ensures
            r@ == self.table()[x],
    {
        table_get(&self.keys, x).as_slice()
    }
}

} // verus!
