//! The walk that lists every way of typing one character, and why the list it makes
//! is the character's resolution.

use vstd::prelude::*;
use vstd::std_specs::iter::IteratorSpec;
use crate::evaluate::KeyCombo;
use crate::evaluate::before;
use crate::evaluate::combo_precedes;
use crate::evaluate::holdable;
use crate::evaluate::is_resolution;
use crate::evaluate::produces;
use crate::evaluate::real_key;
use crate::evaluate::slot_rank;
use crate::evaluate::tapped;
use crate::evaluate::unshifted;
use crate::evaluate::valid_layer;
use crate::evaluate::valid_shift;
use crate::iter::OneIter;
use crate::keyboard::Key;
use crate::keyboard::Keyboard;
use crate::layout::Behavior;
use crate::layout::KeyLoc;
use crate::layout::Layout;
use crate::layout::LayoutView;

verus! {

/// Whether `found` lists, in slot order, exactly the base-layer slots whose hold
/// behaviour is `b`.
pub open spec fn lists_holds(lv: LayoutView, b: Behavior, found: Seq<KeyLoc>) -> bool {
    &&& forall|i: int| 0 <= i < found.len() ==> (#[trigger] found[i]).layer == 0 && found[i].index < lv.size()
    &&& forall|i: int, j: int| 0 <= i < j < found.len() ==> found[i].index < found[j].index
    &&& forall|s: int|
        0 <= s < lv.size() ==> (found.contains(KeyLoc { layer: 0, index: s as usize }) <==> (
        #[trigger] lv.base_hold[s]) == Some(b))
}

/// The base-layer slots whose hold behaviour is `b`, in slot order.
pub(crate) fn slots_holding(layout: &Layout, b: Behavior) -> (found: Vec<KeyLoc>)
    ensures
        lists_holds(layout@, b, found@),
{
    let same = |x: Behavior| -> (r: bool)
        ensures
            r == (x == b),
        { x == b };
    layout.find_on_base(same)
}

/// The passes over an optional run of slots: one pass without a slot where none is
/// needed, and one pass per slot found where one is.
fn passes(needed: bool, found: &Vec<KeyLoc>) -> (opts: Vec<Option<usize>>)
    ensures
        !needed ==> opts@ == seq![None::<usize>],
        needed ==> opts@.len() == found@.len() && forall|i: int|
            0 <= i < found@.len() ==> #[trigger] opts@[i] == Some(found@[i].index),
{
    let mut opts: Vec<Option<usize>> = Vec::new();
    let inner = if needed { Some(found.as_slice().iter()) } else { None };
    let mut it = OneIter::new(inner);
    let ghost total = found@.len();
    loop
        invariant
            total == found@.len(),
            match it {
                OneIter::One(left) => !needed && opts@ == (if left {
                    Seq::<Option<usize>>::empty()
                } else {
                    seq![None::<usize>]
                }),
                OneIter::Iter(i) => {
                    &&& needed
                    &&& opts@.len() + i.remaining().len() == total
                    &&& forall|k: int| 0 <= k < opts@.len() ==> #[trigger] opts@[k] == Some(found@[k].index)
                    &&& forall|k: int|
                        0 <= k < i.remaining().len() ==> *(#[trigger] i.remaining()[k]) == found@[opts@.len() + k]
                },
            },
        ensures
            !needed ==> opts@ == seq![None::<usize>],
            needed ==> opts@.len() == found@.len() && forall|i: int|
                0 <= i < found@.len() ==> #[trigger] opts@[i] == Some(found@[i].index),
        decreases
            (match it {
                OneIter::One(left) => if left { 1int } else { 0int },
                OneIter::Iter(_) => total - opts@.len(),
            }),
    {
        match it.next() {
            Some(Some(loc)) => {
                opts.push(Some(loc.index()));
            },
            Some(None) => {
                opts.push(None);
            },
            None => {
                break;
            },
        }
    }
    opts
}

/// Whether the tap on `final_key` can be combined with the given layer and shift keys.
fn admissible(
    layout: &Layout,
    keyboard: &Keyboard,
    final_key: usize,
    layer_key: Option<usize>,
    shift_key: Option<usize>,
) -> (r: bool)
    requires
        layout@.well_formed(),
        layout@.size() <= keyboard@.len(),
        final_key < layout@.size(),
        layer_key matches Some(l) ==> l < layout@.size(),
        shift_key matches Some(s) ==> s < layout@.size(),
    ensures
        r == holdable(layout@, keyboard@, KeyCombo { shift: shift_key, layer: layer_key, key: final_key }),
{
    if let (Some(_), Some(s)) = (layer_key, shift_key) {
        let overlap = layout.key(0, s);
        if overlap.is_some() {
            return false;
        }
    }
    let mut fingers: [bool; 10] = [false, false, false, false, false, false, false, false, false, false];
    fingers[keyboard.key(final_key).finger().index()] = true;
    if let Some(l) = layer_key {
        let f = keyboard.key(l).finger().index();
        if fingers[f] {
            return false;
        }
        fingers[f] = true;
    }
    if let Some(s) = shift_key {
        let f = keyboard.key(s).finger().index();
        if fingers[f] {
            return false;
        }
        fingers[f] = true;
    }
    proof {
        crate::keyboard::lemma_ordinal_injective(
            keyboard@[final_key as int].finger(),
            keyboard@[final_key as int].finger(),
        );
    }
    true
}

/// Whether `opts` lists, in slot order, exactly the shift keys that serve for `c`.
pub open spec fn lists_shift_passes(lv: LayoutView, c: u8, opts: Seq<Option<usize>>) -> bool {
    &&& forall|i: int| 0 <= i < opts.len() ==> valid_shift(lv, c, #[trigger] opts[i])
    &&& forall|o: Option<usize>| #[trigger] valid_shift(lv, c, o) ==> opts.contains(o)
    &&& forall|i: int, j: int| 0 <= i < j < opts.len() ==> slot_rank(opts[i]) < slot_rank(opts[j])
}

/// Whether `opts` lists, in slot order, exactly the layer keys that serve for layer `k`.
pub open spec fn lists_layer_passes(lv: LayoutView, k: u8, opts: Seq<Option<usize>>) -> bool {
    &&& forall|i: int| 0 <= i < opts.len() ==> valid_layer(lv, k, #[trigger] opts[i])
    &&& forall|o: Option<usize>| #[trigger] valid_layer(lv, k, o) ==> opts.contains(o)
    &&& forall|i: int, j: int| 0 <= i < j < opts.len() ==> slot_rank(opts[i]) < slot_rank(opts[j])
}

/// Whether `finals` lists, layer by layer and in slot order, exactly the slots whose
/// tap character is `glyph`.
pub open spec fn lists_taps(lv: LayoutView, glyph: u8, finals: Seq<KeyLoc>) -> bool {
    &&& forall|i: int| 0 <= i < finals.len() ==> lv.has_loc(#[trigger] finals[i]) && lv.tap(finals[i]) == Some(glyph)
    &&& forall|loc: KeyLoc| lv.has_loc(loc) && #[trigger] lv.tap(loc) == Some(glyph) ==> finals.contains(loc)
    &&& forall|i: int, j: int| 0 <= i < j < finals.len() ==> finals[i].precedes(finals[j])
}

/// Rank of pass `i` of `opts`; past the last pass it is `end`.
pub open spec fn rank_at(opts: Seq<Option<usize>>, i: int, end: int) -> int {
    if 0 <= i < opts.len() {
        slot_rank(opts[i])
    } else {
        end
    }
}

/// Tapped slot `i` of `finals`; past the last there is none.
pub open spec fn loc_at(finals: Seq<KeyLoc>, i: int) -> Option<KeyLoc> {
    if 0 <= i < finals.len() {
        Some(finals[i])
    } else {
        None
    }
}

/// Whether `combos` is the resolution of `c` as far as the point `(at, lr, sr)`:
/// exactly the ways of typing `c` that come before it, in order.
pub open spec fn resolved_up_to(
    lv: LayoutView,
    kb: Seq<Key>,
    c: u8,
    combos: Seq<KeyCombo>,
    at: Option<KeyLoc>,
    lr: int,
    sr: int,
) -> bool {
    &&& forall|i: int|
        0 <= i < combos.len() ==> produces(lv, kb, c, #[trigger] combos[i]) && before(
            lv,
            combos[i],
            at,
            lr,
            sr,
        )
    &&& forall|combo: KeyCombo|
        #[trigger] produces(lv, kb, c, combo) && before(lv, combo, at, lr, sr) ==> combos.contains(combo)
    &&& forall|i: int, j: int|
        0 <= i < j < combos.len() ==> combo_precedes(lv, #[trigger] combos[i], #[trigger] combos[j])
}

/// The slots whose tap character is `glyph`, layer by layer and in slot order.
fn slots_tapping(layout: &Layout, glyph: u8) -> (finals: Vec<KeyLoc>)
    requires
        layout@.well_formed(),
    ensures
        lists_taps(layout@, glyph, finals@),
{
    let same = |k: u8| -> (r: bool)
        ensures
            r == (k == glyph),
        { k == glyph };
    let finals = layout.find_all_key(same);
    proof {
        assert forall|i: int| 0 <= i < finals@.len() implies layout@.tap(#[trigger] finals@[i]) == Some(
            glyph,
        ) by {
            let loc = finals@[i];
            assert(layout@.has_loc(loc));
            assert(finals@.contains(loc));
            assert(layout@.tap(loc) is Some);
        }
    }
    finals
}

/// The shift keys to try for `c`, given the base-layer slots that shift when held.
fn shift_passes(layout: &Layout, c: u8, shift_keys: &Vec<KeyLoc>) -> (opts: Vec<Option<usize>>)
    requires
        lists_holds(layout@, Behavior::Shift, shift_keys@),
    ensures
        lists_shift_passes(layout@, c, opts@),
{
    let do_shift = c != unshifted(c);
    let opts = passes(do_shift, shift_keys);
    proof {
        let lv = layout@;
        let found = shift_keys@;
        if do_shift {
            assert forall|i: int| 0 <= i < opts@.len() implies valid_shift(lv, c, #[trigger] opts@[i]) by {
                assert(found.contains(found[i]));
                assert(found[i] == KeyLoc { layer: 0, index: found[i].index });
            }
            assert forall|o: Option<usize>| #[trigger] valid_shift(lv, c, o) implies opts@.contains(o) by {
                let loc = KeyLoc { layer: 0, index: o->0 };
                assert(found.contains(loc));
                let i = choose|i: int| 0 <= i < found.len() && found[i] == loc;
                assert(opts@[i] == o);
            }
        } else {
            assert(opts@[0] == None::<usize>);
        }
    }
    opts
}

/// The layer keys to try for a tap on layer `k`.
fn layer_passes(layout: &Layout, k: u8) -> (opts: Vec<Option<usize>>)
    ensures
        lists_layer_passes(layout@, k, opts@),
{
    let found = if k != 0 {
        slots_holding(layout, Behavior::Layer(k))
    } else {
        Vec::new()
    };
    let opts = passes(k != 0, &found);
    proof {
        let lv = layout@;
        if k != 0 {
            assert forall|i: int| 0 <= i < opts@.len() implies valid_layer(lv, k, #[trigger] opts@[i]) by {
                assert(found@.contains(found@[i]));
                assert(found@[i] == KeyLoc { layer: 0, index: found@[i].index });
            }
            assert forall|o: Option<usize>| #[trigger] valid_layer(lv, k, o) implies opts@.contains(o) by {
                let loc = KeyLoc { layer: 0, index: o->0 };
                assert(found@.contains(loc));
                let i = choose|i: int| 0 <= i < found@.len() && found@[i] == loc;
                assert(opts@[i] == o);
            }
        } else {
            assert(opts@[0] == None::<usize>);
        }
    }
    opts
}

/// What every way of typing `c` has: a tapped slot that carries the glyph of `c`, and
/// a layer key and a shift key that serve for it.
proof fn lemma_produces_parts(lv: LayoutView, kb: Seq<Key>, c: u8, combo: KeyCombo)
    requires
        lv.well_formed(),
        produces(lv, kb, c, combo),
    ensures
        lv.has_loc(tapped(lv, combo)),
        lv.tap(tapped(lv, combo)) == Some(real_key(c)),
        valid_layer(lv, tapped(lv, combo).layer, combo.layer),
        valid_shift(lv, c, combo.shift),
        -1 <= slot_rank(combo.layer) < lv.size(),
        -1 <= slot_rank(combo.shift) < lv.size(),
{
}

/// In a list in slot order, no listed slot ranks strictly between two neighbours, below
/// the first, or above the last.
proof fn lemma_rank_gap(opts: Seq<Option<usize>>, o: Option<usize>, i: int, end: int)
    requires
        forall|a: int, b: int| 0 <= a < b < opts.len() ==> slot_rank(opts[a]) < slot_rank(opts[b]),
        opts.contains(o),
        0 <= i <= opts.len(),
        slot_rank(o) < end,
        slot_rank(o) < rank_at(opts, i, end),
    ensures
        i > 0,
        slot_rank(o) <= rank_at(opts, i - 1, end),
{
    let k = choose|k: int| 0 <= k < opts.len() && opts[k] == o;
    if k >= i {
        if k > i {
            assert(slot_rank(opts[i]) < slot_rank(opts[k]));
        }
        assert(false);
    }
    if k < i - 1 {
        assert(slot_rank(opts[k]) < slot_rank(opts[i - 1]));
    }
}

/// In a list of slots in layer and slot order, no listed slot lies strictly between
/// two neighbours, before the first, or after the last.
proof fn lemma_loc_gap(finals: Seq<KeyLoc>, loc: KeyLoc, i: int)
    requires
        forall|a: int, b: int| 0 <= a < b < finals.len() ==> finals[a].precedes(finals[b]),
        finals.contains(loc),
        0 <= i <= finals.len(),
        i < finals.len() ==> loc.precedes(finals[i]),
    ensures
        i > 0,
        loc == finals[i - 1] || loc.precedes(finals[i - 1]),
{
    let k = choose|k: int| 0 <= k < finals.len() && finals[k] == loc;
    if k >= i {
        if k > i {
            assert(finals[i].precedes(finals[k]));
        }
        assert(false);
    }
    if k < i - 1 {
        assert(finals[k].precedes(finals[i - 1]));
    }
}

/// Moving the point forward over a stretch that holds no way of typing `c` keeps the
/// list resolved up to the point.
proof fn lemma_advance(
    lv: LayoutView,
    kb: Seq<Key>,
    c: u8,
    combos: Seq<KeyCombo>,
    at: Option<KeyLoc>,
    lr: int,
    sr: int,
    at2: Option<KeyLoc>,
    lr2: int,
    sr2: int,
)
    requires
        resolved_up_to(lv, kb, c, combos, at, lr, sr),
        forall|combo: KeyCombo|
            #[trigger] produces(lv, kb, c, combo) ==> (before(lv, combo, at, lr, sr) <==> before(
                lv,
                combo,
                at2,
                lr2,
                sr2,
            )),
    ensures
        resolved_up_to(lv, kb, c, combos, at2, lr2, sr2),
{
}

/// Before the first tapped slot nothing is to be listed.
proof fn lemma_begin(lv: LayoutView, kb: Seq<Key>, c: u8, finals: Seq<KeyLoc>)
    requires
        lv.well_formed(),
        lists_taps(lv, real_key(c), finals),
    ensures
        resolved_up_to(lv, kb, c, Seq::<KeyCombo>::empty(), loc_at(finals, 0), -1, -1),
{
    assert forall|combo: KeyCombo|
        #[trigger] produces(lv, kb, c, combo) && before(lv, combo, loc_at(finals, 0), -1, -1) implies false by {
        lemma_produces_parts(lv, kb, c, combo);
        assert(finals.contains(tapped(lv, combo)));
        lemma_loc_gap(finals, tapped(lv, combo), 0);
    }
}

/// On arriving at a tapped slot, nothing is to be listed before its first layer key.
proof fn lemma_enter_layer(
    lv: LayoutView,
    kb: Seq<Key>,
    c: u8,
    combos: Seq<KeyCombo>,
    f: KeyLoc,
    lopts: Seq<Option<usize>>,
)
    requires
        lv.well_formed(),
        lists_layer_passes(lv, f.layer, lopts),
        resolved_up_to(lv, kb, c, combos, Some(f), -1, -1),
    ensures
        resolved_up_to(lv, kb, c, combos, Some(f), rank_at(lopts, 0, lv.size() as int), -1),
{
    let n = lv.size() as int;
    assert forall|combo: KeyCombo| #[trigger] produces(lv, kb, c, combo) implies (before(
        lv,
        combo,
        Some(f),
        -1,
        -1,
    ) <==> before(lv, combo, Some(f), rank_at(lopts, 0, n), -1)) by {
        lemma_produces_parts(lv, kb, c, combo);
        if tapped(lv, combo) == f && slot_rank(combo.layer) < rank_at(lopts, 0, n) {
            assert(lopts.contains(combo.layer));
            lemma_rank_gap(lopts, combo.layer, 0, n);
        }
    }
    lemma_advance(lv, kb, c, combos, Some(f), -1, -1, Some(f), rank_at(lopts, 0, n), -1);
}

/// On arriving at a layer key, nothing is to be listed before its first shift key.
proof fn lemma_enter_shift(
    lv: LayoutView,
    kb: Seq<Key>,
    c: u8,
    combos: Seq<KeyCombo>,
    f: KeyLoc,
    lr: int,
    sopts: Seq<Option<usize>>,
)
    requires
        lv.well_formed(),
        lists_shift_passes(lv, c, sopts),
        resolved_up_to(lv, kb, c, combos, Some(f), lr, -1),
    ensures
        resolved_up_to(lv, kb, c, combos, Some(f), lr, rank_at(sopts, 0, lv.size() as int)),
{
    let n = lv.size() as int;
    assert forall|combo: KeyCombo| #[trigger] produces(lv, kb, c, combo) implies (before(
        lv,
        combo,
        Some(f),
        lr,
        -1,
    ) <==> before(lv, combo, Some(f), lr, rank_at(sopts, 0, n))) by {
        lemma_produces_parts(lv, kb, c, combo);
        if slot_rank(combo.shift) < rank_at(sopts, 0, n) {
            assert(sopts.contains(combo.shift));
            lemma_rank_gap(sopts, combo.shift, 0, n);
        }
    }
    lemma_advance(lv, kb, c, combos, Some(f), lr, -1, Some(f), lr, rank_at(sopts, 0, n));
}

/// One pass of the innermost loop: the combination at the point is listed exactly when
/// its keys can be pressed together, and the point moves to the next shift key.
proof fn lemma_step_shift(
    lv: LayoutView,
    kb: Seq<Key>,
    c: u8,
    combos: Seq<KeyCombo>,
    f: KeyLoc,
    lopt: Option<usize>,
    sopts: Seq<Option<usize>>,
    si: int,
)
    requires
        lv.well_formed(),
        lists_shift_passes(lv, c, sopts),
        lv.has_loc(f),
        lv.tap(f) == Some(real_key(c)),
        valid_layer(lv, f.layer, lopt),
        0 <= si < sopts.len(),
        resolved_up_to(lv, kb, c, combos, Some(f), slot_rank(lopt), slot_rank(sopts[si])),
    ensures
        ({
            let x = KeyCombo { shift: sopts[si], layer: lopt, key: f.index };
            let next = if holdable(lv, kb, x) { combos.push(x) } else { combos };
            resolved_up_to(lv, kb, c, next, Some(f), slot_rank(lopt), rank_at(sopts, si + 1, lv.size() as int))
        }),
{
    let n = lv.size() as int;
    let x = KeyCombo { shift: sopts[si], layer: lopt, key: f.index };
    let next = if holdable(lv, kb, x) { combos.push(x) } else { combos };
    let lr = slot_rank(lopt);
    let sr = slot_rank(sopts[si]);
    let sr2 = rank_at(sopts, si + 1, n);
    assert(valid_shift(lv, c, sopts[si]));
    assert(tapped(lv, x) == f);
    assert(produces(lv, kb, c, x) == holdable(lv, kb, x));
    assert(sr < sr2) by {
        if si + 1 < sopts.len() {
            assert(slot_rank(sopts[si]) < slot_rank(sopts[si + 1]));
        }
    }
    assert forall|i: int| 0 <= i < next.len() implies produces(lv, kb, c, #[trigger] next[i]) && before(
        lv,
        next[i],
        Some(f),
        lr,
        sr2,
    ) by {
        if i < combos.len() {
            assert(next[i] == combos[i]);
        }
    }
    assert forall|combo: KeyCombo|
        #[trigger] produces(lv, kb, c, combo) && before(lv, combo, Some(f), lr, sr2) implies next.contains(
        combo,
    ) by {
        lemma_produces_parts(lv, kb, c, combo);
        if before(lv, combo, Some(f), lr, sr) {
            assert(combos.contains(combo));
            let i = choose|i: int| 0 <= i < combos.len() && combos[i] == combo;
            assert(next[i] == combo);
        } else {
            assert(sopts.contains(combo.shift));
            lemma_rank_gap(sopts, combo.shift, si + 1, n);
            assert(slot_rank(combo.shift) == sr);
            assert(combo.shift == sopts[si]);
            assert(combo.layer == lopt);
            assert(combo == x);
            assert(next[next.len() - 1] == x);
        }
    }
    assert forall|i: int, j: int| 0 <= i < j < next.len() implies combo_precedes(
        lv,
        #[trigger] next[i],
        #[trigger] next[j],
    ) by {
        assert(next[i] == combos[i]);
        if j < combos.len() {
            assert(next[j] == combos[j]);
        } else {
            assert(before(lv, combos[i], Some(f), lr, sr));
        }
    }
}

/// After the last shift key of a layer key, nothing is to be listed before the next
/// layer key.
proof fn lemma_leave_shift(
    lv: LayoutView,
    kb: Seq<Key>,
    c: u8,
    combos: Seq<KeyCombo>,
    f: KeyLoc,
    lopts: Seq<Option<usize>>,
    li: int,
)
    requires
        lv.well_formed(),
        lists_layer_passes(lv, f.layer, lopts),
        0 <= li < lopts.len(),
        resolved_up_to(lv, kb, c, combos, Some(f), slot_rank(lopts[li]), lv.size() as int),
    ensures
        resolved_up_to(lv, kb, c, combos, Some(f), rank_at(lopts, li + 1, lv.size() as int), -1),
{
    let n = lv.size() as int;
    let lr = slot_rank(lopts[li]);
    let lr2 = rank_at(lopts, li + 1, n);
    assert(valid_layer(lv, f.layer, lopts[li]));
    assert(lr < lr2) by {
        if li + 1 < lopts.len() {
            assert(slot_rank(lopts[li]) < slot_rank(lopts[li + 1]));
        }
    }
    assert forall|combo: KeyCombo| #[trigger] produces(lv, kb, c, combo) implies (before(
        lv,
        combo,
        Some(f),
        lr,
        n,
    ) <==> before(lv, combo, Some(f), lr2, -1)) by {
        lemma_produces_parts(lv, kb, c, combo);
        if tapped(lv, combo) == f && slot_rank(combo.layer) < lr2 {
            assert(lopts.contains(combo.layer));
            lemma_rank_gap(lopts, combo.layer, li + 1, n);
        }
    }
    lemma_advance(lv, kb, c, combos, Some(f), lr, n, Some(f), lr2, -1);
}

/// After the last layer key of a tapped slot, nothing is to be listed before the next
/// tapped slot.
proof fn lemma_leave_layer(
    lv: LayoutView,
    kb: Seq<Key>,
    c: u8,
    combos: Seq<KeyCombo>,
    finals: Seq<KeyLoc>,
    fi: int,
)
    requires
        lv.well_formed(),
        lists_taps(lv, real_key(c), finals),
        0 <= fi < finals.len(),
        resolved_up_to(lv, kb, c, combos, Some(finals[fi]), lv.size() as int, -1),
    ensures
        resolved_up_to(lv, kb, c, combos, loc_at(finals, fi + 1), -1, -1),
{
    let n = lv.size() as int;
    assert forall|combo: KeyCombo| #[trigger] produces(lv, kb, c, combo) implies (before(
        lv,
        combo,
        Some(finals[fi]),
        n,
        -1,
    ) <==> before(lv, combo, loc_at(finals, fi + 1), -1, -1)) by {
        lemma_produces_parts(lv, kb, c, combo);
        let loc = tapped(lv, combo);
        assert(finals.contains(loc));
        if fi + 1 < finals.len() {
            assert(finals[fi].precedes(finals[fi + 1]));
        }
        if before(lv, combo, loc_at(finals, fi + 1), -1, -1) {
            lemma_loc_gap(finals, loc, fi + 1);
        }
    }
    lemma_advance(lv, kb, c, combos, Some(finals[fi]), n, -1, loc_at(finals, fi + 1), -1, -1);
}

/// Every way of typing `c`, given the base-layer slots that shift when held.
///
/// Tapped slots are visited layer by layer, for each of them the layer keys in slot
/// order, and for each of those the shift keys in slot order.
pub(crate) fn resolve(layout: &Layout, keyboard: &Keyboard, c: u8, shift_keys: &Vec<KeyLoc>) -> (combos: Vec<KeyCombo>)
    requires
        layout@.well_formed(),
        layout@.size() <= keyboard@.len(),
        lists_holds(layout@, Behavior::Shift, shift_keys@),
    ensures
        is_resolution(layout@, keyboard@, c, combos@),
{
    let ghost lv = layout@;
    let ghost kb = keyboard@;
    let ghost n = layout@.size() as int;
    let shifts = shift_passes(layout, c, shift_keys);
    let finals = slots_tapping(layout, unshifted(c));
    let mut combos: Vec<KeyCombo> = Vec::new();
    proof {
        lemma_begin(lv, kb, c, finals@);
        assert(combos@ =~= Seq::<KeyCombo>::empty());
    }
    let mut fi: usize = 0;
    while fi < finals.len()
        invariant
            fi <= finals@.len(),
            lv == layout@,
            kb == keyboard@,
            n == lv.size(),
            lv.well_formed(),
            lv.size() <= kb.len(),
            lists_taps(lv, real_key(c), finals@),
            lists_shift_passes(lv, c, shifts@),
            resolved_up_to(lv, kb, c, combos@, loc_at(finals@, fi as int), -1, -1),
        decreases finals@.len() - fi,
    {
        let final_key = finals[fi];
        let layers = layer_passes(layout, final_key.layer());
        proof {
            lemma_enter_layer(lv, kb, c, combos@, final_key, layers@);
        }
        let mut li: usize = 0;
        while li < layers.len()
            invariant
                li <= layers@.len(),
                fi < finals@.len(),
                final_key == finals@[fi as int],
                lv == layout@,
                kb == keyboard@,
                n == lv.size(),
                lv.well_formed(),
                lv.size() <= kb.len(),
                lists_taps(lv, real_key(c), finals@),
                lists_shift_passes(lv, c, shifts@),
                lists_layer_passes(lv, final_key.layer, layers@),
                resolved_up_to(lv, kb, c, combos@, Some(final_key), rank_at(layers@, li as int, n), -1),
            decreases layers@.len() - li,
        {
            let layer_key = layers[li];
            proof {
                lemma_enter_shift(lv, kb, c, combos@, final_key, slot_rank(layer_key), shifts@);
            }
            let mut si: usize = 0;
            while si < shifts.len()
                invariant
                    si <= shifts@.len(),
                    li < layers@.len(),
                    layer_key == layers@[li as int],
                    fi < finals@.len(),
                    final_key == finals@[fi as int],
                    lv == layout@,
                    kb == keyboard@,
                    n == lv.size(),
                    lv.well_formed(),
                    lv.size() <= kb.len(),
                    lists_taps(lv, real_key(c), finals@),
                    lists_shift_passes(lv, c, shifts@),
                    lists_layer_passes(lv, final_key.layer, layers@),
                    resolved_up_to(
                        lv,
                        kb,
                        c,
                        combos@,
                        Some(final_key),
                        slot_rank(layer_key),
                        rank_at(shifts@, si as int, n),
                    ),
                decreases shifts@.len() - si,
            {
                let shift_key = shifts[si];
                proof {
                    assert(valid_layer(lv, final_key.layer, layer_key));
                    assert(valid_shift(lv, c, shift_key));
                    lemma_step_shift(lv, kb, c, combos@, final_key, layer_key, shifts@, si as int);
                }
                if admissible(layout, keyboard, final_key.index(), layer_key, shift_key) {
                    combos.push(KeyCombo::new(shift_key, layer_key, final_key.index()));
                }
                si += 1;
            }
            proof {
                lemma_leave_shift(lv, kb, c, combos@, final_key, layers@, li as int);
            }
            li += 1;
        }
        proof {
            lemma_leave_layer(lv, kb, c, combos@, finals@, fi as int);
        }
        fi += 1;
    }
    combos
}

} // verus!
