//! Random changes to a layout, and the bookkeeping of a search that tries them.

use std::collections::HashSet;
use rand::rngs::SmallRng;
use rand::Rng;
use vstd::prelude::*;
use crate::alphabet::ALPHABET;
use crate::evaluate::KeyboardLayout;
use crate::evaluate::first_unreachable;
use crate::evaluate::held_by;
use crate::evaluate::tapped_by;
use crate::keyboard::Keyboard;
use crate::layout::KeyLoc;
use crate::usage::KeySet;
use crate::layout::Behavior;
use crate::layout::Layout;
use crate::layout::LayoutView;

verus! {

/// The random number generator of the search; nothing is read from it but its draws.
#[verifier::external_type_specification]
#[verifier::external_body]
pub struct ExSmallRng(SmallRng);

/// `Rng::random_ratio`: a coin that shows `true` with chance `numerator` in
/// `denominator`. It always shows `true` when the two are equal and never when the
/// numerator is 0; the call is refused for a zero denominator or a numerator above it.
#[verifier::external_body]
fn random_ratio(rng: &mut SmallRng, numerator: u32, denominator: u32) -> (r: bool)
    requires
        0 < denominator,
        numerator <= denominator,
    ensures
        numerator == denominator ==> r,
        numerator == 0 ==> !r,
{
    rng.random_ratio(numerator, denominator)
}

/// `Rng::random_range` on a half-open range of numbers: some number of the range. The
/// call is refused for an empty range.
#[verifier::external_body]
fn random_slot(rng: &mut SmallRng, low: usize, high: usize) -> (r: usize)
    requires
        low < high,
    ensures
        low <= r < high,
{
    rng.random_range(low..high)
}

/// A layer number drawn from a half-open range.
fn random_layer(rng: &mut SmallRng, low: u8, high: u8) -> (r: u8)
    requires
        low < high,
    ensures
        low <= r < high,
{
    random_slot(rng, low as usize, high as usize) as u8
}

/// One random change, as the draws that decide it. Each part that is present is
/// carried out, in the order of the fields.
#[derive(Debug, Clone, Copy)]
pub struct Mutation {
    /// Give a slot a new hold behaviour: the slot, and the layer it is to activate, where
    /// 0 stands for shift.
    pub new_hold: Option<(usize, u8)>,
    /// Put a character of the alphabet on a slot: the layer, the slot, and the
    /// character's place in the alphabet.
    pub new_key: Option<(u8, usize, usize)>,
    /// Exchange the hold behaviours of two slots.
    pub hold_swap: Option<(usize, usize)>,
    /// Exchange the tap characters of two slots of a layer: the layer and the slots.
    pub key_swap: Option<(u8, usize, usize)>,
    /// Exchange the tap character of a slot between two different layers: the layers
    /// and the slot.
    pub vertical_swap: Option<(u8, u8, usize)>,
}

/// The hold behaviour that activates `layer`, with 0 standing for shift.
pub open spec fn hold_for(layer: u8) -> Behavior {
    if layer == 0 {
        Behavior::Shift
    } else {
        Behavior::Layer(layer)
    }
}

impl Mutation {
    /// Whether every slot and layer that the change names exists in `lv`, and the two
    /// layers of a vertical swap differ.
    pub open spec fn fits(self, lv: LayoutView) -> bool {
        &&& self.new_hold matches Some((i, layer)) ==> i < lv.size() && layer < lv.layers.len()
        &&& self.new_key matches Some((layer, i, ch)) ==> layer < lv.layers.len() && i < lv.size() && ch < 97
        &&& self.hold_swap matches Some((i, j)) ==> i < lv.size() && j < lv.size()
        &&& self.key_swap matches Some((layer, i, j)) ==> layer < lv.layers.len() && i < lv.size() && j
            < lv.size()
        &&& self.vertical_swap matches Some((a, b, i)) ==> a < lv.layers.len() && b < lv.layers.len() && a != b
            && i < lv.size()
    }

    /// `lv` after the change.
    pub open spec fn applied(self, lv: LayoutView) -> LayoutView {
        let v1 = match self.new_hold {
            Some((i, layer)) => lv.with_hold(i as int, Some(hold_for(layer))),
            None => lv,
        };
        let v2 = match self.new_key {
            Some((layer, i, ch)) => v1.with_tap(layer as int, i as int, Some(ALPHABET@[ch as int])),
            None => v1,
        };
        let v3 = match self.hold_swap {
            Some((i, j)) => v2.with_holds_swapped(i as int, j as int),
            None => v2,
        };
        let v4 = match self.key_swap {
            Some((layer, i, j)) => v3.with_keys_swapped(layer as int, i as int, j as int),
            None => v3,
        };
        match self.vertical_swap {
            Some((a, b, i)) => v4.with_layers_swapped(a as int, b as int, i as int),
            None => v4,
        }
    }

    /// Carries the change out on `layout`.
    pub fn apply(&self, layout: &mut Layout)
        requires
            old(layout)@.well_formed(),
            self.fits(old(layout)@),
        ensures
            final(layout)@ == self.applied(old(layout)@),
            final(layout)@.well_formed(),
            final(layout)@.size() == old(layout)@.size(),
            final(layout)@.layers.len() == old(layout)@.layers.len(),
    {
        if let Some((i, layer)) = self.new_hold {
            let behavior = if layer == 0 { Behavior::Shift } else { Behavior::Layer(layer) };
            layout.set_hold(i, Some(behavior));
        }
        if let Some((layer, i, ch)) = self.new_key {
            layout.set_tap(layer, i, Some(ALPHABET[ch]));
        }
        if let Some((i, j)) = self.hold_swap {
            layout.swap_holds(i, j);
        }
        if let Some((layer, i, j)) = self.key_swap {
            layout.swap_keys(layer, i, j);
        }
        if let Some((a, b, i)) = self.vertical_swap {
            layout.swap_between_layers(a, b, i);
        }
    }
}

/// Chance, in hundredths, of giving a slot a new hold behaviour.
pub const NEW_HOLD: u32 = 0;

/// Chance, in hundredths, of putting a new character on a slot.
pub const NEW_KEY: u32 = 1;

/// Chance, in hundredths, of exchanging two hold behaviours.
pub const HOLD_SWAP: u32 = 100;

/// Chance, in hundredths, of exchanging two tap characters within a layer.
pub const KEY_SWAP: u32 = 100;

/// Chance, in hundredths, of exchanging a tap character between two layers.
pub const VERTICAL_SWAP: u32 = 80;

/// Whether a part with the given chance, in hundredths, may be present or absent as
/// it is: a part that is certain is present, one that is impossible is absent.
pub open spec fn may_be(chance: u32, present: bool) -> bool {
    (chance == 100 ==> present) && (chance == 0 ==> !present)
}

/// Whether the parts of `m` are present and absent as the chances allow.
pub open spec fn drawable(m: Mutation) -> bool {
    &&& may_be(NEW_HOLD, m.new_hold is Some)
    &&& may_be(NEW_KEY, m.new_key is Some)
    &&& may_be(HOLD_SWAP, m.hold_swap is Some)
    &&& may_be(KEY_SWAP, m.key_swap is Some)
    &&& may_be(VERTICAL_SWAP, m.vertical_swap is Some)
}

/// Draws a random change that fits a layout of `size` slots and `layer_count` layers.
pub fn draw(rng: &mut SmallRng, size: usize, layer_count: u8) -> (m: Mutation)
    requires
        size > 0,
        layer_count >= 2,
    ensures
        m.new_hold matches Some((i, layer)) ==> i < size && layer < layer_count,
        m.new_key matches Some((layer, i, ch)) ==> layer < layer_count && i < size && ch < 97,
        m.hold_swap matches Some((i, j)) ==> i < size && j < size,
        m.key_swap matches Some((layer, i, j)) ==> layer < layer_count && i < size && j < size,
        m.vertical_swap matches Some((a, b, i)) ==> a < layer_count && b < layer_count && a != b && i < size,
        drawable(m),
{
    let mut m = Mutation { new_hold: None, new_key: None, hold_swap: None, key_swap: None, vertical_swap: None };
    if random_ratio(rng, NEW_HOLD, 100) {
        let i = random_slot(rng, 0, size);
        let layer = random_layer(rng, 0, layer_count);
        m.new_hold = Some((i, layer));
    }
    if random_ratio(rng, NEW_KEY, 100) {
        let layer = random_layer(rng, 0, layer_count);
        let i = random_slot(rng, 0, size);
        let ch = random_slot(rng, 0, 97);
        m.new_key = Some((layer, i, ch));
    }
    if random_ratio(rng, HOLD_SWAP, 100) {
        let i1 = random_slot(rng, 0, size);
        let i2 = random_slot(rng, 0, size);
        m.hold_swap = Some((i1, i2));
    }
    if random_ratio(rng, KEY_SWAP, 100) {
        let layer = random_layer(rng, 0, layer_count);
        let i1 = random_slot(rng, 0, size);
        let i2 = random_slot(rng, 0, size);
        m.key_swap = Some((layer, i1, i2));
    }
    if random_ratio(rng, VERTICAL_SWAP, 100) {
        let layer1 = random_layer(rng, 0, layer_count);
        let mut layer2 = random_layer(rng, 1, layer_count);
        if layer2 <= layer1 {
            layer2 -= 1;
        }
        let index = random_slot(rng, 0, size);
        m.vertical_swap = Some((layer1, layer2, index));
    }
    m
}

/// Changes `layout` at random: some change that fits it is drawn and carried out.
pub fn mutate(rng: &mut SmallRng, layout: &mut Layout)
    requires
        old(layout)@.well_formed(),
        old(layout)@.size() > 0,
        old(layout)@.layers.len() >= 2,
    ensures
        exists|m: Mutation|
            #[trigger] m.fits(old(layout)@) && drawable(m) && final(layout)@ == m.applied(old(layout)@),
        final(layout)@.well_formed(),
        final(layout)@.size() == old(layout)@.size(),
        final(layout)@.layers.len() == old(layout)@.layers.len(),
{
    let layer_count = layout.layer_count();
    let size = layout.layer_size();
    let m = draw(rng, size, layer_count);
    assert(m.fits(layout@));
    m.apply(layout);
}

/// Whether `key` is a lower-case letter.
pub open spec fn is_letter(key: Option<u8>) -> bool {
    key matches Some(k) && 0x61 <= k <= 0x7a
}

/// Whether `key` is a digit.
pub open spec fn is_digit(key: Option<u8>) -> bool {
    key matches Some(k) && 0x30 <= k <= 0x39
}

/// Whether some slot of `keys` carries a lower-case letter.
pub open spec fn has_letter(keys: Seq<Option<u8>>) -> bool {
    exists|i: int| 0 <= i < keys.len() && is_letter(#[trigger] keys[i])
}

/// Whether some slot of `keys` carries a digit.
pub open spec fn has_digit(keys: Seq<Option<u8>>) -> bool {
    exists|i: int| 0 <= i < keys.len() && is_digit(#[trigger] keys[i])
}

/// Whether a lower-case letter stands on a layer other than the base layer.
pub open spec fn letter_off_base(lv: LayoutView) -> bool {
    exists|l: int| 1 <= l < lv.layers.len() && has_letter(#[trigger] lv.layers[l])
}

/// Whether digits stand on more than one layer.
pub open spec fn digits_spread(lv: LayoutView) -> bool {
    exists|a: int, b: int|
        0 <= a < b < lv.layers.len() && has_digit(#[trigger] lv.layers[a]) && has_digit(#[trigger] lv.layers[b])
}

/// Why a layout is not scored.
#[derive(Debug, Clone, Copy, PartialEq, Eq, Structural)]
pub enum Infeasible {
    /// A lower-case letter stands on a layer other than the base layer.
    LetterOffBase,
    /// Digits stand on more than one layer.
    DigitsSpread,
    /// This character of the alphabet cannot be typed.
    Unreachable(u8),
}

/// What a feasible layout hands to scoring: its resolution, the slots that some
/// combination taps, and the base-layer slots that some combination holds.
pub struct Feasible<'a> {
    pub info: KeyboardLayout<'a>,
    pub used_keys: KeySet,
    pub used_holds: HashSet<usize>,
}

/// Whether some slot of `keys` carries a lower-case letter.
fn layer_has_letter(keys: &[Option<u8>]) -> (r: bool)
    ensures
        r == has_letter(keys@),
{
    let mut i: usize = 0;
    while i < keys.len()
        invariant
            i <= keys@.len(),
            forall|j: int| 0 <= j < i ==> !is_letter(#[trigger] keys@[j]),
        decreases keys@.len() - i,
    {
        if let Some(k) = keys[i] {
            if 0x61 <= k && k <= 0x7a {
                assert(is_letter(keys@[i as int]));
                return true;
            }
        }
        i += 1;
    }
    false
}

/// Whether some slot of `keys` carries a digit.
fn layer_has_digit(keys: &[Option<u8>]) -> (r: bool)
    ensures
        r == has_digit(keys@),
{
    let mut i: usize = 0;
    while i < keys.len()
        invariant
            i <= keys@.len(),
            forall|j: int| 0 <= j < i ==> !is_digit(#[trigger] keys@[j]),
        decreases keys@.len() - i,
    {
        if let Some(k) = keys[i] {
            if 0x30 <= k && k <= 0x39 {
                assert(is_digit(keys@[i as int]));
                return true;
            }
        }
        i += 1;
    }
    false
}

/// Whether `layout` keeps its letters on the base layer and its digits on one layer.
pub fn well_placed(layout: &Layout) -> (r: Result<(), Infeasible>)
    requires
        layout@.layers.len() <= u8::MAX,
    ensures
        r == (if letter_off_base(layout@) {
            Err::<(), Infeasible>(Infeasible::LetterOffBase)
        } else if digits_spread(layout@) {
            Err(Infeasible::DigitsSpread)
        } else {
            Ok(())
        }),
{
    let ghost lv = layout@;
    let layers = layout.layers();
    let mut any_other_alphabetic = false;
    let mut layers_with_numbers: u8 = 0;
    let ghost mut first: int = -1;
    let ghost mut second: int = -1;
    let mut l: usize = 0;
    while l < layers.len()
        invariant
            l <= layers@.len(),
            layers@.len() == lv.layers.len(),
            crate::layout::layer_views(layers@) == lv.layers,
            lv.layers.len() <= u8::MAX,
            any_other_alphabetic == (exists|k: int| 1 <= k < l && has_letter(#[trigger] lv.layers[k])),
            layers_with_numbers <= l,
            layers_with_numbers == 0 ==> forall|k: int| 0 <= k < l ==> !has_digit(#[trigger] lv.layers[k]),
            layers_with_numbers == 1 ==> 0 <= first < l && has_digit(lv.layers[first]) && forall|k: int|
                0 <= k < l && k != first ==> !has_digit(#[trigger] lv.layers[k]),
            layers_with_numbers >= 2 ==> 0 <= first < second < l && has_digit(lv.layers[first]) && has_digit(
                lv.layers[second],
            ),
        decreases layers@.len() - l,
    {
        let keys = layers[l].keys();
        assert(keys@ == lv.layers[l as int]);
        if l >= 1 && layer_has_letter(keys) {
            any_other_alphabetic = true;
        }
        if layer_has_digit(keys) {
            proof {
                if layers_with_numbers == 0 {
                    first = l as int;
                } else if layers_with_numbers == 1 {
                    second = l as int;
                }
            }
            layers_with_numbers += 1;
        }
        l += 1;
    }
    if any_other_alphabetic {
        Err(Infeasible::LetterOffBase)
    } else if layers_with_numbers > 1 {
        Err(Infeasible::DigitsSpread)
    } else {
        Ok(())
    }
}

/// Checks `layout` for scoring: its letters stand on the base layer only, its digits on
/// one layer only, and every character of the alphabet can be typed.
pub fn feasibility<'a>(layout: &'a Layout, keyboard: &'a Keyboard) -> (r: Result<Feasible<'a>, Infeasible>)
    requires
        layout@.well_formed(),
        layout@.size() <= keyboard@.len(),
    ensures
        match r {
            Ok(f) => {
                &&& !letter_off_base(layout@)
                &&& !digits_spread(layout@)
                &&& first_unreachable(layout@, keyboard@, 0) == 97
                &&& f.info.resolves(layout@, keyboard@)
                &&& f.used_keys.well_formed()
                &&& f.used_keys@ == tapped_by(layout@, keyboard@, 97)
                &&& f.used_holds@ == held_by(layout@, keyboard@, 97)
            },
            Err(Infeasible::LetterOffBase) => letter_off_base(layout@),
            Err(Infeasible::DigitsSpread) => !letter_off_base(layout@) && digits_spread(layout@),
            Err(Infeasible::Unreachable(c)) => {
                let stop = first_unreachable(layout@, keyboard@, 0);
                &&& !letter_off_base(layout@)
                &&& !digits_spread(layout@)
                &&& 0 <= stop < 97
                &&& c == ALPHABET@[stop]
            },
        },
{
    match well_placed(layout) {
        Err(e) => {
            return Err(e);
        },
        Ok(_) => {},
    }
    let mut used_keys = KeySet::new();
    let mut used_holds: HashSet<usize> = HashSet::new();
    let resolved = KeyboardLayout::generate_with_usage(
        layout,
        keyboard,
        Some(&mut used_keys),
        Some(&mut used_holds),
    );
    match resolved {
        Ok(info) => {
            proof {
                assert(used_keys@ =~= tapped_by(layout@, keyboard@, 97));
                assert(used_holds@ =~= held_by(layout@, keyboard@, 97));
            }
            Ok(Feasible { info, used_keys, used_holds })
        },
        Err(c) => Err(Infeasible::Unreachable(c)),
    }
}

/// Whether `after` is `before` with nothing changed but some hold behaviours outside
/// `used_holds` and some tap characters outside `used_keys`, which were taken away.
pub open spec fn pruned(before: LayoutView, after: LayoutView, used_keys: Set<KeyLoc>, used_holds: Set<usize>) -> bool {
    &&& after.base_hold.len() == before.base_hold.len()
    &&& after.layers.len() == before.layers.len()
    &&& forall|i: int|
        0 <= i < before.base_hold.len() ==> #[trigger] after.base_hold[i] == before.base_hold[i] || (
        after.base_hold[i] is None && !used_holds.contains(i as usize))
    &&& forall|l: int|
        0 <= l < before.layers.len() ==> (#[trigger] after.layers[l]).len() == before.layers[l].len()
    &&& forall|l: int, i: int|
        0 <= l < before.layers.len() && 0 <= i < before.layers[l].len() ==> #[trigger] after.layers[l][i]
            == before.layers[l][i] || (after.layers[l][i] is None && !used_keys.contains(
            KeyLoc { layer: l as u8, index: i as usize },
        ))
}

/// Clears, at random, parts of the layout that no combination uses: a marking that
/// spares what is in use is drawn by [`draw_pruning`] and carried out by [`Pruning::apply`].
pub fn prune_unused(rng: &mut SmallRng, layout: &mut Layout, used_keys: &KeySet, used_holds: &HashSet<usize>)
    requires
        old(layout)@.well_formed(),
    ensures
        exists|p: Pruning|
            #[trigger] p.fits(old(layout)@) && p.spares(used_keys@, used_holds@) && final(layout)@ == p.applied(
                old(layout)@,
            ),
        pruned(old(layout)@, final(layout)@, used_keys@, used_holds@),
        final(layout)@.well_formed(),
{
    let size = layout.layer_size();
    let count = layout.layer_count();
    let p = draw_pruning(rng, size, count, used_keys, used_holds);
    proof {
        assert(p.fits(layout@));
        lemma_pruning_prunes(p, layout@, used_keys@, used_holds@);
    }
    p.apply(layout);
}

/// Which parts of a layout to clear.
///
/// The marks say nothing of what the parts hold: a marked part that is empty already
/// stays empty, and an unmarked part stays as it is. Which parts are marked is for
/// whoever makes the marking to decide; [`draw_pruning`] leaves it to chance, within
/// what is not in use.
#[derive(Debug)]
pub struct Pruning {
    /// For each slot, whether its hold behaviour on the base layer goes.
    pub holds: Vec<bool>,
    /// For each layer, and for each slot of that layer, whether the tap character
    /// goes. The layers are in the order of the layout, the base layer first.
    pub keys: Vec<Vec<bool>>,
}

impl Pruning {
    /// Whether the marks have the shape of `lv`: one mark per slot for the hold
    /// behaviours, one row of marks per layer, and in each row one mark per slot of
    /// that layer.
    pub open spec fn fits(&self, lv: LayoutView) -> bool {
        &&& self.holds@.len() == lv.base_hold.len()
        &&& self.keys@.len() == lv.layers.len()
        &&& forall|l: int| 0 <= l < lv.layers.len() ==> (#[trigger] self.keys@[l])@.len() == lv.layers[l].len()
    }

    /// Whether nothing is marked that is in use: no hold behaviour of a slot in
    /// `used_holds`, and no tap character of a slot in `used_keys`. What is not in
    /// use may be marked or not.
    pub open spec fn spares(&self, used_keys: Set<KeyLoc>, used_holds: Set<usize>) -> bool {
        &&& forall|i: int| 0 <= i < self.holds@.len() && #[trigger] self.holds@[i] ==> !used_holds.contains(i as usize)
        &&& forall|l: int, i: int|
            0 <= l < self.keys@.len() && 0 <= i < self.keys@[l]@.len() && #[trigger] self.keys@[l]@[i]
                ==> !used_keys.contains(KeyLoc { layer: l as u8, index: i as usize })
    }

    /// `lv` with every marked hold behaviour and every marked tap character taken
    /// away: a marked part is empty afterwards, and every other part is what it was.
    /// The number of slots and of layers stays.
    pub open spec fn applied(&self, lv: LayoutView) -> LayoutView {
        LayoutView {
            base_hold: Seq::new(
                lv.base_hold.len(),
                |i: int| if self.holds@[i] { None } else { lv.base_hold[i] },
            ),
            layers: Seq::new(
                lv.layers.len(),
                |l: int|
                    Seq::new(
                        lv.layers[l].len(),
                        |i: int| if self.keys@[l]@[i] { None } else { lv.layers[l][i] },
                    ),
            ),
        }
    }
}

/// How a proposed layout fared.
#[derive(Debug, Clone, Copy, PartialEq, Eq, Structural)]
pub enum Verdict {
    /// It cannot be scored; another proposal is due for the same step.
    Infeasible,
    /// It was scored and turned down.
    Rejected,
    /// It was scored and takes the place of the current layout.
    Accepted,
}

/// The state of a search by annealing: the current layout and how many of the steps
/// are done. Scores and temperatures are the caller's.
pub struct Annealer {
    current: Layout,
    iters: u32,
    step: u32,
}

impl Annealer {
    /// The current layout.
    pub closed spec fn layout(&self) -> LayoutView {
        self.current@
    }

    /// Number of steps asked for.
    pub closed spec fn total(&self) -> u32 {
        self.iters
    }

    /// Number of steps done.
    pub closed spec fn done(&self) -> u32 {
        self.step
    }

    /// A search of `iters` steps that starts from `layout`.
    pub fn new(layout: Layout, iters: u32) -> (r: Self)
        ensures
            r.layout() == layout@,
            r.total() == iters,
            r.done() == 0,
    {
        Annealer { current: layout, iters, step: 0 }
    }

    /// Whether every step is done.
    pub fn finished(&self) -> (r: bool)
        ensures
            r == (self.done() >= self.total()),
    {
        self.step >= self.iters
    }

    /// The number of the step that is due, and the number of steps asked for.
    pub fn progress(&self) -> (r: (u32, u32))
        ensures
            r == (self.done(), self.total()),
    {
        (self.step, self.iters)
    }

    /// The current layout.
    pub fn current(&self) -> (r: &Layout)
        ensures
            r@ == self.layout(),
    {
        &self.current
    }

    /// A proposal for the step that is due: the current layout after a random change.
    pub fn propose(&self, rng: &mut SmallRng) -> (r: Layout)
        requires
            self.layout().well_formed(),
            self.layout().size() > 0,
            self.layout().layers.len() >= 2,
        ensures
            exists|m: Mutation| #[trigger] m.fits(self.layout()) && drawable(m) && r@ == m.applied(self.layout()),
            r@.well_formed(),
            r@.size() == self.layout().size(),
            r@.layers.len() == self.layout().layers.len(),
    {
        let mut candidate = self.current.clone();
        mutate(rng, &mut candidate);
        candidate
    }

    /// Takes note of how `candidate` fared. A proposal that cannot be scored leaves
    /// everything as it is; a scored one ends the step, and takes the place of the
    /// current layout if it was accepted.
    pub fn settle(&mut self, candidate: Layout, verdict: Verdict)
        requires
            old(self).done() < old(self).total(),
        ensures
            final(self).total() == old(self).total(),
            final(self).done() == (if verdict == Verdict::Infeasible {
                old(self).done()
            } else {
                (old(self).done() + 1) as u32
            }),
            final(self).layout() == (if verdict == Verdict::Accepted {
                candidate@
            } else {
                old(self).layout()
            }),
    {
        match verdict {
            Verdict::Infeasible => {},
            Verdict::Rejected => {
                self.step = self.step + 1;
            },
            Verdict::Accepted => {
                self.current = candidate;
                self.step = self.step + 1;
            },
        }
    }

    /// Clears, at random, parts of the current layout that no combination uses; see
    /// [`prune_unused`]. The count of steps stays.
    pub fn relax(&mut self, rng: &mut SmallRng, used_keys: &KeySet, used_holds: &HashSet<usize>)
        requires
            old(self).layout().well_formed(),
        ensures
            exists|p: Pruning|
                #[trigger] p.fits(old(self).layout()) && p.spares(used_keys@, used_holds@) && final(self).layout()
                    == p.applied(old(self).layout()),
            pruned(old(self).layout(), final(self).layout(), used_keys@, used_holds@),
            final(self).layout().well_formed(),
            final(self).total() == old(self).total(),
            final(self).done() == old(self).done(),
    {
        prune_unused(rng, &mut self.current, used_keys, used_holds);
    }

    /// The layout that the search ends with: the current one, which need not be the
    /// best that was seen.
    pub fn into_layout(self) -> (r: Layout)
        ensures
            r@ == self.layout(),
    {
        self.current
    }
}

/// Clearing parts that are not in use leaves every part as it was or takes it away,
/// and takes nothing away that is in use.
pub proof fn lemma_pruning_prunes(p: Pruning, lv: LayoutView, used_keys: Set<KeyLoc>, used_holds: Set<usize>)
    requires
        p.fits(lv),
        p.spares(used_keys, used_holds),
    ensures
        pruned(lv, p.applied(lv), used_keys, used_holds),
        lv.well_formed() ==> p.applied(lv).well_formed(),
{
    let after = p.applied(lv);
    assert forall|i: int| 0 <= i < lv.base_hold.len() implies #[trigger] after.base_hold[i] == lv.base_hold[i] || (
    after.base_hold[i] is None && !used_holds.contains(i as usize)) by {
        if p.holds@[i] {
        }
    }
    assert forall|l: int, i: int| 0 <= l < lv.layers.len() && 0 <= i < lv.layers[l].len() implies #[trigger] after.layers[l][i]
        == lv.layers[l][i] || (after.layers[l][i] is None && !used_keys.contains(
        KeyLoc { layer: l as u8, index: i as usize },
    )) by {
        if p.keys@[l]@[i] {
        }
    }
}

/// Marks for clearing, at random, parts of a layout of `size` slots and `layer_count`
/// layers that no combination uses: each hold behaviour outside `used_holds` with an
/// even chance, each tap character outside `used_keys` with a chance of seven in ten.
/// What is in use is never marked.
pub fn draw_pruning(
    rng: &mut SmallRng,
    size: usize,
    layer_count: u8,
    used_keys: &KeySet,
    used_holds: &HashSet<usize>,
) -> (p: Pruning)
    ensures
        p.holds@.len() == size,
        p.keys@.len() == layer_count,
        forall|l: int| 0 <= l < layer_count ==> (#[trigger] p.keys@[l])@.len() == size,
        p.spares(used_keys@, used_holds@),
{
    broadcast use vstd::std_specs::hash::group_hash_axioms;

    let mut holds: Vec<bool> = Vec::with_capacity(size);
    let mut i: usize = 0;
    while i < size
        invariant
            i <= size,
            holds@.len() == i,
            forall|k: int| 0 <= k < i && #[trigger] holds@[k] ==> !used_holds@.contains(k as usize),
        decreases size - i,
    {
        let mark = !used_holds.contains(&i) && random_ratio(rng, 1, 2);
        holds.push(mark);
        i += 1;
    }
    let mut keys: Vec<Vec<bool>> = Vec::new();
    let mut li: u8 = 0;
    while li < layer_count
        invariant
            li <= layer_count,
            keys@.len() == li,
            forall|l: int| 0 <= l < li ==> (#[trigger] keys@[l])@.len() == size,
            forall|l: int, k: int|
                0 <= l < li && 0 <= k < keys@[l]@.len() && #[trigger] keys@[l]@[k] ==> !used_keys@.contains(
                    KeyLoc { layer: l as u8, index: k as usize },
                ),
        decreases layer_count - li,
    {
        let mut row: Vec<bool> = Vec::with_capacity(size);
        let mut i: usize = 0;
        while i < size
            invariant
                i <= size,
                li < layer_count,
                row@.len() == i,
                forall|k: int|
                    0 <= k < i && #[trigger] row@[k] ==> !used_keys@.contains(
                        KeyLoc { layer: li, index: k as usize },
                    ),
            decreases size - i,
        {
            let loc = KeyLoc::new(li, i);
            let mark = !used_keys.contains(&loc) && random_ratio(rng, 7, 10);
            row.push(mark);
            i += 1;
        }
        let ghost before = keys@;
        keys.push(row);
        proof {
            assert forall|l: int, k: int|
                0 <= l < li + 1 && 0 <= k < keys@[l]@.len() && #[trigger] keys@[l]@[k] implies !used_keys@.contains(
                KeyLoc { layer: l as u8, index: k as usize },
            ) by {
                if l < li {
                    assert(keys@[l] == before[l]);
                }
            }
            assert forall|l: int| 0 <= l < li + 1 implies (#[trigger] keys@[l])@.len() == size by {
                if l < li {
                    assert(keys@[l] == before[l]);
                }
            }
        }
        li += 1;
    }
    Pruning { holds, keys }
}

impl Pruning {
    /// Takes every marked hold behaviour and every marked tap character away.
    pub fn apply(&self, layout: &mut Layout)
        requires
            old(layout)@.layers.len() <= u8::MAX,
            self.fits(old(layout)@),
        ensures
            final(layout)@ == self.applied(old(layout)@),
    {
        let ghost start = layout@;
        let size = self.holds.len();
        let mut i: usize = 0;
        while i < size
            invariant
                i <= size,
                size == self.holds@.len(),
                self.fits(start),
                layout@.layers == start.layers,
                layout@.base_hold.len() == start.base_hold.len(),
                forall|k: int| 0 <= k < i ==> #[trigger] layout@.base_hold[k] == self.applied(start).base_hold[k],
                forall|k: int| i <= k < size ==> #[trigger] layout@.base_hold[k] == start.base_hold[k],
            decreases size - i,
        {
            if self.holds[i] {
                layout.set_hold(i, None);
            }
            i += 1;
        }
        proof {
            assert(layout@.base_hold =~= self.applied(start).base_hold);
        }
        let count = self.keys.len();
        let mut l: usize = 0;
        while l < count
            invariant
                l <= count,
                count == self.keys@.len(),
                count <= u8::MAX,
                self.fits(start),
                layout@.base_hold == self.applied(start).base_hold,
                layout@.layers.len() == start.layers.len(),
                forall|k: int| 0 <= k < l ==> #[trigger] layout@.layers[k] == self.applied(start).layers[k],
                forall|k: int| l <= k < count ==> #[trigger] layout@.layers[k] == start.layers[k],
            decreases count - l,
        {
            let marks = &self.keys[l];
            let width = marks.len();
            let ghost row = start.layers[l as int];
            let mut i: usize = 0;
            while i < width
                invariant
                    i <= width,
                    l < count,
                    count == self.keys@.len(),
                    count <= u8::MAX,
                    *marks == self.keys@[l as int],
                    width == marks@.len(),
                    width == row.len(),
                    row == start.layers[l as int],
                    self.fits(start),
                    layout@.base_hold == self.applied(start).base_hold,
                    layout@.layers.len() == start.layers.len(),
                    layout@.layers[l as int].len() == row.len(),
                    forall|k: int| 0 <= k < l ==> #[trigger] layout@.layers[k] == self.applied(start).layers[k],
                    forall|k: int| l < k < count ==> #[trigger] layout@.layers[k] == start.layers[k],
                    forall|k: int|
                        0 <= k < i ==> #[trigger] layout@.layers[l as int][k] == self.applied(start).layers[l as int][k],
                    forall|k: int| i <= k < width ==> #[trigger] layout@.layers[l as int][k] == row[k],
                decreases width - i,
            {
                if marks[i] {
                    layout.set_tap(l as u8, i, None);
                }
                i += 1;
            }
            proof {
                assert(layout@.layers[l as int] =~= self.applied(start).layers[l as int]);
            }
            l += 1;
        }
        proof {
            assert(layout@.layers =~= self.applied(start).layers);
        }
    }
}

} // verus!
