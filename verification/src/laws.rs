//! General facts about resolution that follow from its definition.

use vstd::prelude::*;
use crate::alphabet::ALPHABET;
use crate::evaluate::KeyCombo;
use crate::evaluate::KeyboardLayout;
use crate::evaluate::home_position;
use crate::evaluate::lemma_resolution_unique;
use crate::keyboard::HandFinger;
use crate::keyboard::Position;
use crate::keyboard::is_home_key;
use crate::evaluate::first_unreachable;
use crate::evaluate::is_resolution;
use crate::evaluate::needs_shift;
use crate::evaluate::produces;
use crate::evaluate::reachable;
use crate::evaluate::real_key;
use crate::evaluate::ways;
use crate::keyboard::Key;
use crate::layout::Behavior;
use crate::layout::KeyLoc;
use crate::layout::LayoutView;

verus! {

/// A character that needs no shift and whose glyph stands on one layer only, a layer
/// that no slot but `s` activates, is typed by exactly these combinations: hold `s`
/// and tap a slot of that layer that carries the glyph and belongs to another finger
/// than `s`.
pub proof fn lemma_single_layer_key(
    lv: LayoutView,
    kb: Seq<Key>,
    c: u8,
    layer: u8,
    s: usize,
    combos: Seq<KeyCombo>,
)
    requires
        lv.well_formed(),
        !needs_shift(c),
        layer != 0,
        forall|loc: KeyLoc| lv.has_loc(loc) && #[trigger] lv.tap(loc) == Some(real_key(c)) ==> loc.layer == layer,
        forall|l: int|
            0 <= l < lv.size() && #[trigger] lv.base_hold[l] == Some(Behavior::Layer(layer)) ==> l == s,
        is_resolution(lv, kb, c, combos),
    ensures
        forall|i: int|
            0 <= i < combos.len() ==> {
                &&& (#[trigger] combos[i]).layer == Some(s)
                &&& combos[i].shift is None
                &&& kb[combos[i].key as int].finger() != kb[s as int].finger()
            },
        forall|key: usize|
            {
                &&& s < lv.size()
                &&& lv.base_hold[s as int] == Some(Behavior::Layer(layer))
                &&& layer < lv.layers.len()
                &&& key < lv.size()
                &&& lv.layers[layer as int][key as int] == Some(real_key(c))
                &&& kb[key as int].finger() != kb[s as int].finger()
            } ==> #[trigger] combos.contains(KeyCombo { shift: None, layer: Some(s), key }),
{
    assert forall|i: int| 0 <= i < combos.len() implies {
        &&& (#[trigger] combos[i]).layer == Some(s)
        &&& combos[i].shift is None
        &&& kb[combos[i].key as int].finger() != kb[s as int].finger()
    } by {
        let combo = combos[i];
        assert(ways(lv, kb, c).contains(combo));
        let loc = crate::evaluate::tapped(lv, combo);
        assert(lv.has_loc(loc));
        assert(lv.tap(loc) == Some(real_key(c)));
    }
    assert forall|key: usize|
        {
            &&& s < lv.size()
            &&& lv.base_hold[s as int] == Some(Behavior::Layer(layer))
            &&& layer < lv.layers.len()
            &&& key < lv.size()
            &&& lv.layers[layer as int][key as int] == Some(real_key(c))
            &&& kb[key as int].finger() != kb[s as int].finger()
        } implies #[trigger] combos.contains(KeyCombo { shift: None, layer: Some(s), key }) by {
        let combo = KeyCombo { shift: None, layer: Some(s), key };
        assert(produces(lv, kb, c, combo));
        assert(ways(lv, kb, c).contains(combo));
    }
}

/// Whether `after` is `before` with every tap character `x` taken out and nothing
/// else changed.
pub open spec fn without_glyph(before: LayoutView, after: LayoutView, x: u8) -> bool {
    &&& after.base_hold == before.base_hold
    &&& after.layers.len() == before.layers.len()
    &&& forall|l: int|
        0 <= l < before.layers.len() ==> (#[trigger] after.layers[l]).len() == before.layers[l].len()
    &&& forall|l: int, i: int|
        0 <= l < before.layers.len() && 0 <= i < before.layers[l].len() ==> #[trigger] after.layers[l][i] == (
        if before.layers[l][i] == Some(x) {
            None
        } else {
            before.layers[l][i]
        })
}

/// Before its own place in the alphabet no character is typed by tapping the
/// unshifted glyph `x`.
proof fn lemma_glyph_first(i: int, j: int)
    requires
        0 <= j < i < 97,
        real_key(ALPHABET@[i]) == ALPHABET@[i],
    ensures
        real_key(ALPHABET@[j]) != ALPHABET@[i],
{
}

/// Taking a glyph out of a layout leaves every character typed by another glyph as
/// reachable as it was.
proof fn lemma_other_glyphs_stay(before: LayoutView, after: LayoutView, kb: Seq<Key>, x: u8, c: u8)
    requires
        before.well_formed(),
        without_glyph(before, after, x),
        real_key(c) != x,
        reachable(before, kb, c),
    ensures
        reachable(after, kb, c),
{
    let combo = choose|combo: KeyCombo| produces(before, kb, c, combo);
    assert(produces(after, kb, c, combo));
}

/// The first unreachable character from `from` on is at `i` when every character
/// from `from` up to `i` is reachable and the one at `i` is not.
proof fn lemma_first_unreachable_at(lv: LayoutView, kb: Seq<Key>, from: int, i: int)
    requires
        0 <= from <= i < 97,
        forall|j: int| from <= j < i ==> reachable(lv, kb, #[trigger] ALPHABET@[j]),
        !reachable(lv, kb, ALPHABET@[i]),
    ensures
        first_unreachable(lv, kb, from) == i,
    decreases i - from,
{
    if from < i {
        assert(reachable(lv, kb, ALPHABET@[from]));
        lemma_first_unreachable_at(lv, kb, from + 1, i);
    }
}

/// Taking every occurrence of an unshifted glyph out of a layout, and changing
/// nothing else, makes resolution fail at that glyph's character, provided the
/// characters before it in the alphabet could be typed.
pub proof fn lemma_removed_glyph_fails(before: LayoutView, after: LayoutView, kb: Seq<Key>, i: int)
    requires
        before.well_formed(),
        0 <= i < 97,
        real_key(ALPHABET@[i]) == ALPHABET@[i],
        without_glyph(before, after, ALPHABET@[i]),
        forall|j: int| 0 <= j < i ==> reachable(before, kb, #[trigger] ALPHABET@[j]),
    ensures
        after.well_formed(),
        first_unreachable(after, kb, 0) == i,
{
    let x = ALPHABET@[i];
    assert forall|j: int| 0 <= j < i implies reachable(after, kb, #[trigger] ALPHABET@[j]) by {
        lemma_glyph_first(i, j);
        lemma_other_glyphs_stay(before, after, kb, x, ALPHABET@[j]);
    }
    assert forall|combo: KeyCombo| !produces(after, kb, x, combo) by {
        if produces(after, kb, x, combo) {
            let k = crate::evaluate::target_layer(after, combo)->0;
            assert(after.layers[k as int][combo.key as int] == Some(x));
        }
    }
    lemma_first_unreachable_at(after, kb, 0, i);
}

/// A finger has one home position at most.
pub proof fn lemma_home_position_unique(kb: Seq<Key>, f: HandFinger, p: Option<Position>, q: Option<Position>)
    requires
        home_position(kb, f, p),
        home_position(kb, f, q),
    ensures
        p == q,
{
    let n = kb.len() as int;
    if let Some(a) = p {
        let i = choose|i: int|
            #![trigger is_home_key(kb, i, f)]
            0 <= i < n && is_home_key(kb, i, f) && kb[i].pos() == a && forall|j: int|
                0 <= j < n && is_home_key(kb, j, f) ==> j <= i;
        assert(is_home_key(kb, i, f));
        if let Some(b) = q {
            let k = choose|k: int|
                #![trigger is_home_key(kb, k, f)]
                0 <= k < n && is_home_key(kb, k, f) && kb[k].pos() == b && forall|j: int|
                    0 <= j < n && is_home_key(kb, j, f) ==> j <= k;
            assert(is_home_key(kb, k, f));
            assert(i == k);
        }
    } else if let Some(b) = q {
        let k = choose|k: int|
            #![trigger is_home_key(kb, k, f)]
            0 <= k < n && is_home_key(kb, k, f) && kb[k].pos() == b && forall|j: int|
                0 <= j < n && is_home_key(kb, j, f) ==> j <= k;
        assert(is_home_key(kb, k, f));
    }
}

/// Resolving is a function of the layout and the board: two resolutions of the same
/// layout on the same board hold the same combinations for every character, in the
/// same order, and the same home positions.
pub proof fn lemma_resolution_deterministic(a: KeyboardLayout, b: KeyboardLayout, lv: LayoutView, kb: Seq<Key>)
    requires
        a.resolves(lv, kb),
        b.resolves(lv, kb),
    ensures
        a.table() == b.table(),
        a.homes() == b.homes(),
        a.board() == b.board(),
{
    assert forall|c: u8| a.table().contains_key(c) == b.table().contains_key(c) by {
        assert(a.table().contains_key(c) <==> crate::alphabet::in_alphabet_spec(c));
        assert(b.table().contains_key(c) <==> crate::alphabet::in_alphabet_spec(c));
    }
    assert forall|c: u8| a.table().contains_key(c) implies a.table()[c] == b.table()[c] by {
        assert(a.table().contains_key(c) <==> crate::alphabet::in_alphabet_spec(c));
        assert(b.table().contains_key(c));
        assert(is_resolution(lv, kb, c, a.table()[c]));
        assert(is_resolution(lv, kb, c, b.table()[c]));
        lemma_resolution_unique(lv, kb, c, a.table()[c], b.table()[c]);
    }
    assert(a.table() =~= b.table());
    assert forall|i: int| 0 <= i < 10 implies a.homes()[i] == b.homes()[i] by {
        let f = finger_of(i);
        lemma_home_position_unique(kb, f, a.homes()[f.ordinal()], b.homes()[f.ordinal()]);
    }
    assert(a.homes() =~= b.homes());
}

/// The finger with ordinal `i`.
pub open spec fn finger_of(i: int) -> HandFinger {
    HandFinger {
        hand: if i < 5 { crate::keyboard::Hand::Left } else { crate::keyboard::Hand::Right },
        finger: if i % 5 == 0 {
            crate::keyboard::Finger::Thumb
        } else if i % 5 == 1 {
            crate::keyboard::Finger::Index
        } else if i % 5 == 2 {
            crate::keyboard::Finger::Middle
        } else if i % 5 == 3 {
            crate::keyboard::Finger::Ring
        } else {
            crate::keyboard::Finger::Pinky
        },
    }
}

} // verus!
