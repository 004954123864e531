//! Seed layouts for the 34-key split board: ten columns of three keys, listed column
//! by column, and four thumb keys.

use vstd::prelude::*;
use crate::layout::Behavior;
use crate::layout::Layout;
use crate::layout::LayoutLayer;
use crate::layout::LayoutView;
use crate::layout::layer_views;

verus! {

/// Hold behaviour of each slot, as character codes: 83 (`S`) for shift, a digit for the
/// layer it activates, 32 (blank) for none. Shift sits on slots 1 and 28, layers 1 and 2 on
/// slots 10 and 19, and layers 3, 4, 4, 3 on the thumb keys.
pub const MODS: [u8; 34] = [
    32, 83, 32, 32, 32, 32, 32, 32, 32, 32, 49, 32, 32, 32, 32, 32, 32, 32, 32, 50, 32, 32, 32,
    32, 32, 32, 32, 32, 83, 32, 51, 52, 52, 51,
];

/// Layer 1, as character codes: symbols.
pub const LAY1: [u8; 30] = [
    32, 94, 32, 32, 42, 32, 32, 38, 32, 32, 32, 32, 32, 32, 32, 32, 35, 32, 95, 126, 45, 124,
    47, 92, 39, 34, 96, 32, 36, 32,
];

/// Layer 2, as character codes: brackets and punctuation.
pub const LAY2: [u8; 30] = [
    32, 123, 32, 58, 125, 33, 60, 40, 91, 62, 41, 93, 59, 64, 32, 32, 32, 32, 32, 32, 32, 32,
    61, 44, 32, 43, 46, 32, 37, 32,
];

/// Layer 3, as character codes: `%`, `:`, `/`, the line feed and `!`.
pub const LAY3: [u8; 30] = [
    32, 32, 32, 32, 37, 32, 58, 47, 32, 32, 10, 33, 32, 32, 32, 32, 32, 32, 32, 32, 32, 32, 32,
    32, 32, 32, 32, 32, 32, 32,
];

/// Layer 4, as character codes: the digits, on the top key of each column.
pub const LAY4: [u8; 30] = [
    49, 32, 32, 50, 32, 32, 51, 32, 32, 52, 32, 32, 53, 32, 32, 54, 32, 32, 55, 32, 32, 56, 32,
    32, 57, 32, 32, 48, 32, 32,
];

/// The base layer of the QWERTY arrangement, as character codes.
pub const QWERTY: [u8; 30] = [
    113, 97, 122, 119, 115, 120, 101, 100, 99, 114, 102, 118, 116, 103, 98, 121, 104, 110, 117,
    106, 109, 105, 107, 44, 111, 108, 46, 112, 59, 47,
];

/// The base layer of the Colemak-DH arrangement, as character codes.
pub const COLEMAK_DH: [u8; 30] = [
    113, 97, 122, 119, 114, 120, 102, 115, 99, 112, 116, 100, 98, 103, 118, 106, 109, 107, 108,
    110, 104, 117, 101, 44, 121, 105, 46, 59, 111, 47,
];

/// The base layer of the Canary arrangement, as character codes.
pub const CANARY: [u8; 30] = [
    119, 99, 113, 108, 114, 106, 121, 115, 118, 112, 116, 100, 98, 103, 107, 122, 109, 120, 102,
    110, 104, 111, 101, 47, 117, 105, 44, 59, 97, 46,
];

/// Number of slots of the board.
pub const SLOTS: usize = 34;

/// A tap character that is known not to be the character with code 0.
pub fn u(x: u8) -> (r: u8)
    requires
        x != 0,
    ensures
        r == x,
{
    x
}

/// The hold behaviour that a character code stands for: `S` for shift, a digit for the
/// layer it activates, anything else for none.
pub open spec fn code_hold(c: u8) -> Option<Behavior> {
    if c == 0x53 {
        Some(Behavior::Shift)
    } else if 0x30 <= c <= 0x39 {
        Some(Behavior::Layer((c - 0x30) as u8))
    } else {
        None
    }
}

/// The tap character that a character code stands for: none for the blank and for
/// code 0, the character itself otherwise.
pub open spec fn code_key(c: u8) -> Option<u8> {
    if c == 0x20 || c == 0 {
        None
    } else {
        Some(c)
    }
}

/// The hold behaviours that 34 character codes stand for.
pub fn make_hold(mods: &[u8; 34]) -> (r: Vec<Option<Behavior>>)
    requires
        forall|i: int| 0 <= i < 34 ==> mods@[i] != 0x30,
    ensures
        r@.len() == 34,
        forall|i: int| 0 <= i < 34 ==> #[trigger] r@[i] == code_hold(mods@[i]),
{
    let mut base_hold: Vec<Option<Behavior>> = Vec::with_capacity(34);
    let mut i: usize = 0;
    while i < 34
        invariant
            i <= 34,
            base_hold@.len() == i,
            forall|k: int| 0 <= k < 34 ==> mods@[k] != 0x30,
            forall|k: int| 0 <= k < i ==> #[trigger] base_hold@[k] == code_hold(mods@[k]),
        decreases 34 - i,
    {
        let m = mods[i];
        let hold = if m == 0x53 {
            Some(Behavior::Shift)
        } else if 0x30 <= m && m <= 0x39 {
            Some(Behavior::Layer(u(m - 0x30)))
        } else {
            None
        };
        base_hold.push(hold);
        i += 1;
    }
    base_hold
}

/// The layer that character codes stand for: one slot per code, filled up with empty
/// slots to the 34 of the board.
pub open spec fn simple_layer(lay: Seq<u8>) -> Seq<Option<u8>> {
    Seq::new(
        if lay.len() < 34 { 34 } else { lay.len() },
        |i: int| if i < lay.len() { code_key(lay[i]) } else { None },
    )
}

/// The layer that character codes stand for.
pub fn layer_simple(lay: &[u8]) -> (r: LayoutLayer)
    ensures
        r@ == simple_layer(lay@),
{
    let mut layer1: Vec<Option<u8>> = Vec::with_capacity(34);
    let mut i: usize = 0;
    while i < lay.len()
        invariant
            i <= lay@.len(),
            layer1@.len() == i,
            forall|k: int| 0 <= k < i ==> #[trigger] layer1@[k] == code_key(lay@[k]),
        decreases lay@.len() - i,
    {
        let key = lay[i];
        let tap = if key == 0x20 || key == 0 { None } else { Some(key) };
        layer1.push(tap);
        i += 1;
    }
    while layer1.len() < 34
        invariant
            lay@.len() <= layer1@.len(),
            layer1@.len() <= 34 || layer1@.len() == lay@.len(),
            forall|k: int| 0 <= k < lay@.len() ==> #[trigger] layer1@[k] == code_key(lay@[k]),
            forall|k: int| lay@.len() <= k < layer1@.len() ==> #[trigger] layer1@[k] is None,
        decreases 34 - layer1@.len(),
    {
        layer1.push(None);
    }
    proof {
        assert(layer1@ =~= simple_layer(lay@));
    }
    LayoutLayer::new(layer1)
}

/// The seed layout with the given base layer: the fixed hold behaviours, the base
/// layer with the space on the two inner thumb keys, the symbol and punctuation
/// layers, the third layer with the tab on a thumb key, and the digit layer.
pub open spec fn seed_layout(base: Seq<u8>) -> LayoutView {
    LayoutView {
        base_hold: Seq::new(34, |i: int| code_hold(MODS@[i])),
        layers: seq![
            simple_layer(base).update(31, Some(0x20u8)).update(32, Some(0x20u8)),
            simple_layer(LAY1@),
            simple_layer(LAY2@),
            simple_layer(LAY3@).update(31, Some(0x09u8)),
            simple_layer(LAY4@),
        ],
    }
}

/// The seed layout with the given base layer.
pub fn layout_any(base: &[u8; 30]) -> (r: Layout)
    ensures
        r@ == seed_layout(base@),
        r@.well_formed(),
        r@.size() == 34,
        r@.layers.len() == 5,
{
    let mods = MODS;
    let base_hold = make_hold(&mods);
    let mut layer0 = layer_simple(base.as_slice());
    layer0.set_key(31, Some(u(0x20)));
    layer0.set_key(32, Some(u(0x20)));
    let lay1 = LAY1;
    let layer1 = layer_simple(lay1.as_slice());
    let lay2 = LAY2;
    let layer2 = layer_simple(lay2.as_slice());
    let lay3 = LAY3;
    let mut layer3 = layer_simple(lay3.as_slice());
    layer3.set_key(31, Some(u(0x09)));
    let lay4 = LAY4;
    let layer4 = layer_simple(lay4.as_slice());
    let mut layers: Vec<LayoutLayer> = Vec::with_capacity(5);
    layers.push(layer0);
    layers.push(layer1);
    layers.push(layer2);
    layers.push(layer3);
    layers.push(layer4);
    proof {
        assert(base_hold@ =~= seed_layout(base@).base_hold);
        assert(layer_views(layers@) =~= seed_layout(base@).layers);
    }
    Layout::new(base_hold, layers)
}

/// The QWERTY arrangement.
pub fn qwerty() -> (r: Layout)
    ensures
        r@ == seed_layout(QWERTY@),
        r@.well_formed(),
        r@.size() == 34,
{
    let keys = QWERTY;
    layout_any(&keys)
}

/// The Colemak-DH arrangement.
pub fn colemak_dh() -> (r: Layout)
    ensures
        r@ == seed_layout(COLEMAK_DH@),
        r@.well_formed(),
        r@.size() == 34,
{
    let keys = COLEMAK_DH;
    layout_any(&keys)
}

/// The Canary arrangement.
pub fn canary() -> (r: Layout)
    ensures
        r@ == seed_layout(CANARY@),
        r@.well_formed(),
        r@.size() == 34,
{
    let keys = CANARY;
    layout_any(&keys)
}

/// The slot that mirrors slot `i` across the middle of the board: the same row of the
/// column as far from the other edge, or the thumb key as far from the other end.
pub open spec fn mirror(i: int) -> int {
    if i < 30 {
        (9 - i / 3) * 3 + i % 3
    } else {
        63 - i
    }
}

/// The mirror slot of each slot.
pub const NEW_SHAPE: [usize; 34] = [
    27, 28, 29, 24, 25, 26, 21, 22, 23, 18, 19, 20, 15, 16, 17, 12, 13, 14, 9, 10, 11, 6, 7, 8, 3, 4,
    5, 0, 1, 2, 33, 32, 31, 30,
];

/// The first 34 entries of `buffer`, each at its mirror slot.
pub open spec fn mirrored<T>(buffer: Seq<T>) -> Seq<T> {
    Seq::new(34, |i: int| buffer[mirror(i)])
}

/// Mirroring a slot twice gives the slot.
pub proof fn lemma_mirror_involution(i: int)
    requires
        0 <= i < 34,
    ensures
        0 <= mirror(i) < 34,
        mirror(mirror(i)) == i,
{
}

/// Mirroring 34 entries twice gives the entries.
pub proof fn lemma_mirrored_twice<T>(buffer: Seq<T>)
    requires
        buffer.len() == 34,
    ensures
        mirrored(mirrored(buffer)) == buffer,
{
    assert forall|i: int| 0 <= i < 34 implies mirrored(mirrored(buffer))[i] == buffer[i] by {
        lemma_mirror_involution(i);
    }
    assert(mirrored(mirrored(buffer)) =~= buffer);
}

/// The first 34 entries of `buffer`, each at its mirror slot.
pub fn flip_internal<T: Copy>(buffer: &[T]) -> (r: Vec<T>)
    requires
        buffer@.len() >= 34,
    ensures
        r@ == mirrored(buffer@),
{
    let shape = NEW_SHAPE;
    let mut out: Vec<T> = Vec::with_capacity(34);
    let mut i: usize = 0;
    while i < 34
        invariant
            i <= 34,
            buffer@.len() >= 34,
            shape@ == NEW_SHAPE@,
            out@.len() == i,
            forall|k: int| 0 <= k < i ==> #[trigger] out@[k] == buffer@[mirror(k)],
        decreases 34 - i,
    {
        assert(shape@[i as int] == mirror(i as int));
        out.push(buffer[shape[i]]);
        i += 1;
    }
    proof {
        assert(out@ =~= mirrored(buffer@));
    }
    out
}

/// `lv` with left and right exchanged.
pub open spec fn flipped(lv: LayoutView) -> LayoutView {
    LayoutView {
        base_hold: mirrored(lv.base_hold),
        layers: Seq::new(lv.layers.len(), |l: int| mirrored(lv.layers[l])),
    }
}

/// `layout` with left and right exchanged.
pub fn flip_layout(layout: &Layout) -> (r: Layout)
    requires
        layout@.size() >= 34,
        forall|l: int| 0 <= l < layout@.layers.len() ==> (#[trigger] layout@.layers[l]).len() >= 34,
    ensures
        r@ == flipped(layout@),
{
    let layers = layout.layers();
    let mut flipped_layers: Vec<LayoutLayer> = Vec::with_capacity(layers.len());
    let mut l: usize = 0;
    while l < layers.len()
        invariant
            l <= layers@.len(),
            layer_views(layers@) == layout@.layers,
            forall|k: int| 0 <= k < layout@.layers.len() ==> (#[trigger] layout@.layers[k]).len() >= 34,
            flipped_layers@.len() == l,
            forall|k: int| 0 <= k < l ==> (#[trigger] flipped_layers@[k])@ == mirrored(layout@.layers[k]),
        decreases layers@.len() - l,
    {
        assert(layers@[l as int]@ == layout@.layers[l as int]);
        flipped_layers.push(LayoutLayer::new(flip_internal(layers[l].keys())));
        l += 1;
    }
    proof {
        assert(layer_views(flipped_layers@) =~= flipped(layout@).layers);
    }
    Layout::new(flip_internal(layout.base_hold()), flipped_layers)
}

/// Exchanging left and right twice gives back a layout of 34 slots.
pub proof fn lemma_flip_twice(lv: LayoutView)
    requires
        lv.size() == 34,
        forall|l: int| 0 <= l < lv.layers.len() ==> (#[trigger] lv.layers[l]).len() == 34,
    ensures
        flipped(flipped(lv)) == lv,
{
    lemma_mirrored_twice(lv.base_hold);
    assert forall|l: int| 0 <= l < lv.layers.len() implies flipped(flipped(lv)).layers[l] == lv.layers[l] by {
        lemma_mirrored_twice(lv.layers[l]);
    }
    assert(flipped(flipped(lv)).layers =~= lv.layers);
}

} // verus!
