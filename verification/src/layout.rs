//! The logical layout: what each slot does when held on the base layer, and which
//! character each slot of each layer produces when tapped.

use vstd::prelude::*;

verus! {

/// What a base-layer slot does while it is held down.
#[derive(Debug, Clone, Copy, PartialEq, Eq, Structural)]
pub enum Behavior {
    Shift,
    /// Activates the layer with this number; layer 0 is the base layer.
    Layer(u8),
}

/// A slot of a layer.
#[derive(Debug, Clone, Copy, PartialEq, Eq, Structural, Hash)]
pub struct KeyLoc {
    pub layer: u8,
    pub index: usize,
}

impl KeyLoc {
    pub fn new(layer: u8, index: usize) -> (r: Self)
        ensures
            r == (KeyLoc { layer, index }),
    {
        Self { layer, index }
    }

    pub fn layer(&self) -> (r: u8)
        ensures
            r == self.layer,
    {
        self.layer
    }

    pub fn index(&self) -> (r: usize)
        ensures
            r == self.index,
    {
        self.index
    }

    /// Layer-major, slot-minor order of two slots.
    pub open spec fn precedes(self, other: KeyLoc) -> bool {
        self.layer < other.layer || (self.layer == other.layer && self.index < other.index)
    }
}

/// The tap characters of one layer, by slot.
#[derive(Debug)]
pub struct LayoutLayer {
    keys: Vec<Option<u8>>,
}

impl View for LayoutLayer {
    type V = Seq<Option<u8>>;

    closed spec fn view(&self) -> Seq<Option<u8>> {
        self.keys@
    }
}

impl Clone for LayoutLayer {
    fn clone(&self) -> (r: Self)
        ensures
            r@ == self@,
    {
        let keys = self.keys.clone();
        assert(keys@ =~= self.keys@);
        LayoutLayer { keys }
    }
}

impl LayoutLayer {
    pub fn new(keys: Vec<Option<u8>>) -> (r: Self)
        ensures
            r@ == keys@,
    {
        Self { keys }
    }

    pub fn into_keys(self) -> (r: Vec<Option<u8>>)
        ensures
            r@ == self@,
    {
        self.keys
    }

    pub fn set_key(&mut self, index: usize, key: Option<u8>)
        requires
            index < old(self)@.len(),
        ensures
            final(self)@ == old(self)@.update(index as int, key),
    {
        self.keys[index] = key;
    }

    pub fn keys(&self) -> (r: &[Option<u8>])
        ensures
            r@ == self@,
    {
        self.keys.as_slice()
    }

    pub fn keys_mut(&mut self) -> (r: &mut Vec<Option<u8>>)
        ensures
            r@ == old(self)@,
            final(self)@ == final(r)@,
    {
        &mut self.keys
    }

    pub fn len(&self) -> (r: usize)
        ensures
            r == self@.len(),
    {
        self.keys.len()
    }

    pub fn key_mut(&mut self, index: usize) -> (r: &mut Option<u8>)
        requires
            index < old(self)@.len(),
        ensures
            *r == old(self)@[index as int],
            final(self)@ == old(self)@.update(index as int, *final(r)),
    {
        &mut self.keys[index]
    }
}

/// The views of a run of layers.
pub open spec fn layer_views(layers: Seq<LayoutLayer>) -> Seq<Seq<Option<u8>>> {
    Seq::new(layers.len(), |i: int| layers[i]@)
}

/// A layout as plain data.
pub struct LayoutView {
    /// Hold behaviour of each slot on the base layer.
    pub base_hold: Seq<Option<Behavior>>,
    /// Tap character of each slot of each layer; layer 0 is the base layer.
    pub layers: Seq<Seq<Option<u8>>>,
}

impl LayoutView {
    /// Number of slots.
    pub open spec fn size(self) -> nat {
        self.base_hold.len()
    }

    /// Every layer has one entry per slot, there is a base layer, and layer numbers fit a byte.
    pub open spec fn well_formed(self) -> bool {
        &&& 0 < self.layers.len() <= u8::MAX
        &&& forall|l: int| 0 <= l < self.layers.len() ==> (#[trigger] self.layers[l]).len() == self.size()
    }

    /// This layout with the hold behaviours of slots `i` and `j` exchanged.
    pub open spec fn with_holds_swapped(self, i: int, j: int) -> LayoutView {
        LayoutView {
            base_hold: self.base_hold.update(i, self.base_hold[j]).update(j, self.base_hold[i]),
            layers: self.layers,
        }
    }

    /// This layout with the tap character of slot `index` of layer `layer` replaced.
    pub open spec fn with_tap(self, layer: int, index: int, key: Option<u8>) -> LayoutView {
        LayoutView {
            base_hold: self.base_hold,
            layers: self.layers.update(layer, self.layers[layer].update(index, key)),
        }
    }

    /// This layout with the hold behaviour of slot `index` replaced.
    pub open spec fn with_hold(self, index: int, hold: Option<Behavior>) -> LayoutView {
        LayoutView { base_hold: self.base_hold.update(index, hold), layers: self.layers }
    }

    /// This layout with the tap characters of slots `i` and `j` of layer `layer` exchanged.
    pub open spec fn with_keys_swapped(self, layer: int, i: int, j: int) -> LayoutView {
        let keys = self.layers[layer];
        LayoutView {
            base_hold: self.base_hold,
            layers: self.layers.update(layer, keys.update(i, keys[j]).update(j, keys[i])),
        }
    }

    /// This layout with the tap characters of slot `index` exchanged between layers `a`
    /// and `b`.
    pub open spec fn with_layers_swapped(self, a: int, b: int, index: int) -> LayoutView {
        LayoutView {
            base_hold: self.base_hold,
            layers: self.layers.update(a, self.layers[a].update(index, self.layers[b][index])).update(
                b,
                self.layers[b].update(index, self.layers[a][index]),
            ),
        }
    }

    /// Whether `loc` names a slot of a layer of this layout.
    pub open spec fn has_loc(self, loc: KeyLoc) -> bool {
        loc.layer < self.layers.len() && loc.index < self.layers[loc.layer as int].len()
    }

    /// The tap character at `loc`.
    pub open spec fn tap(self, loc: KeyLoc) -> Option<u8> {
        self.layers[loc.layer as int][loc.index as int]
    }
}

/// Hold behaviours of the base layer together with the tap characters of all layers.
#[derive(Debug)]
pub struct Layout {
    base_hold: Vec<Option<Behavior>>,
    layers: Vec<LayoutLayer>,
}

impl View for Layout {
    type V = LayoutView;

    closed spec fn view(&self) -> LayoutView {
        LayoutView { base_hold: self.base_hold@, layers: layer_views(self.layers@) }
    }
}

impl Clone for Layout {
    fn clone(&self) -> (r: Self)
        ensures
            r@ == self@,
    {
        let base_hold = self.base_hold.clone();
        assert(base_hold@ =~= self.base_hold@);
        let mut layers: Vec<LayoutLayer> = Vec::with_capacity(self.layers.len());
        let mut i: usize = 0;
        while i < self.layers.len()
            invariant
                i <= self.layers@.len(),
                layers@.len() == i,
                forall|j: int| 0 <= j < i ==> (#[trigger] layers@[j])@ == self.layers@[j]@,
            decreases self.layers@.len() - i,
        {
            layers.push(self.layers[i].clone());
            i += 1;
        }
        assert(layer_views(layers@) =~= layer_views(self.layers@));
        Layout { base_hold, layers }
    }
}

impl Layout {
    /// A layout with the given hold behaviours and layers.
    pub fn new(base_hold: Vec<Option<Behavior>>, layers: Vec<LayoutLayer>) -> (r: Self)
        requires
            forall|l: int| 0 <= l < layers@.len() ==> (#[trigger] layers@[l])@.len() == base_hold@.len(),
        ensures
            r@ == (LayoutView { base_hold: base_hold@, layers: layer_views(layers@) }),
    {
        Self { base_hold, layers }
    }

    pub fn layers(&self) -> (r: &[LayoutLayer])
        ensures
            layer_views(r@) == self@.layers,
    {
        self.layers.as_slice()
    }

    pub fn layers_mut(&mut self) -> (r: &mut Vec<LayoutLayer>)
        ensures
            layer_views(r@) == old(self)@.layers,
            final(self)@ == (LayoutView {
                base_hold: old(self)@.base_hold,
                layers: layer_views(final(r)@),
            }),
    {
        &mut self.layers
    }

    pub fn layer(&self, layer: u8) -> (r: &LayoutLayer)
        requires
            layer < self@.layers.len(),
        ensures
            r@ == self@.layers[layer as int],
    {
        &self.layers[layer as usize]
    }

    pub fn layer_mut(&mut self, layer: u8) -> (r: &mut LayoutLayer)
        requires
            layer < old(self)@.layers.len(),
        ensures
            r@ == old(self)@.layers[layer as int],
            final(self)@ == (LayoutView {
                base_hold: old(self)@.base_hold,
                layers: old(self)@.layers.update(layer as int, final(r)@),
            }),
    {
        let ghost before = self.layers@;
        let r = &mut self.layers[layer as usize];
        proof {
            assert(layer_views(before.update(layer as int, *final(r))) =~= layer_views(
                before,
            ).update(layer as int, final(r)@));
        }
        r
    }

    /// Number of layers, as far as a byte can count them.
    pub fn layer_count(&self) -> (r: u8)
        ensures
            r == self@.layers.len() % 256,
    {
        (self.layers.len() % 256) as u8
    }

    /// Number of slots of the base layer.
    pub fn layer_size(&self) -> (r: usize)
        requires
            self@.layers.len() > 0,
        ensures
            r == self@.layers[0].len(),
    {
        self.layers[0].len()
    }

    /// The tap character of slot `index` of layer `layer`.
    pub fn key(&self, layer: u8, index: usize) -> (r: Option<u8>)
        requires
            layer < self@.layers.len(),
            index < self@.layers[layer as int].len(),
        ensures
            r == self@.layers[layer as int][index as int],
    {
        self.layers[layer as usize].keys[index]
    }

    pub fn first_layer(&self) -> (r: &LayoutLayer)
        requires
            self@.layers.len() > 0,
        ensures
            r@ == self@.layers[0],
    {
        &self.layers[0]
    }

    /// The base-layer slots whose hold behaviour `func` accepts, in slot order.
    ///
    /// A slot with a behaviour is listed exactly when `func` answered `true` for it;
    /// a slot without one is never listed.
    pub fn find_on_base<F: Fn(Behavior) -> bool>(&self, func: F) -> (r: Vec<KeyLoc>)
        requires
            forall|b: Behavior| call_requires(func, (b,)),
        ensures
            forall|i: int|
                0 <= i < r@.len() ==> (#[trigger] r@[i]).layer == 0 && r@[i].index < self@.size(),
            forall|i: int, j: int| 0 <= i < j < r@.len() ==> r@[i].index < r@[j].index,
            forall|s: int|
                0 <= s < self@.size() ==> match #[trigger] self@.base_hold[s] {
                    Some(b) => call_ensures(
                        func,
                        (b,),
                        r@.contains(KeyLoc { layer: 0, index: s as usize }),
                    ),
                    None => !r@.contains(KeyLoc { layer: 0, index: s as usize }),
                },
    {
        let mut found: Vec<KeyLoc> = Vec::new();
        let n = self.base_hold.len();
        let mut i: usize = 0;
        while i < n
            invariant
                i <= n,
                n == self.base_hold@.len(),
                self@.base_hold == self.base_hold@,
                forall|b: Behavior| call_requires(func, (b,)),
                forall|k: int|
                    0 <= k < found@.len() ==> (#[trigger] found@[k]).layer == 0 && found@[k].index < i,
                forall|k: int, j: int| 0 <= k < j < found@.len() ==> found@[k].index < found@[j].index,
                forall|s: int|
                    0 <= s < i ==> match #[trigger] self.base_hold@[s] {
                        Some(b) => call_ensures(
                            func,
                            (b,),
                            found@.contains(KeyLoc { layer: 0, index: s as usize }),
                        ),
                        None => !found@.contains(KeyLoc { layer: 0, index: s as usize }),
                    },
            decreases n - i,
        {
            let ghost before = found@;
            let here = KeyLoc::new(0, i);
            let mut hit = false;
            if let Some(b) = self.base_hold[i] {
                hit = func(b);
            }
            if hit {
                found.push(here);
            }
            proof {
                assert(!before.contains(here));
                assert forall|loc: KeyLoc| loc != here implies found@.contains(loc)
                    == before.contains(loc) by {
                    if hit {
                        if before.contains(loc) {
                            let k = choose|k: int| 0 <= k < before.len() && before[k] == loc;
                            assert(found@[k] == loc);
                        }
                        if found@.contains(loc) {
                            let k = choose|k: int| 0 <= k < found@.len() && found@[k] == loc;
                            assert(k < before.len());
                            assert(before[k] == loc);
                        }
                    }
                }
                if hit {
                    assert(found@[found@.len() - 1] == here);
                }
            }
            i += 1;
        }
        found
    }

    /// The slots of all layers whose tap character `func` accepts, layer by layer and
    /// in slot order within a layer.
    ///
    /// A slot with a character is listed exactly when `func` answered `true` for it;
    /// an empty slot is never listed.
    pub fn find_all_key<F: Fn(u8) -> bool>(&self, func: F) -> (r: Vec<KeyLoc>)
        requires
            self@.layers.len() <= u8::MAX + 1,
            forall|k: u8| call_requires(func, (k,)),
        ensures
            forall|i: int| 0 <= i < r@.len() ==> self@.has_loc(#[trigger] r@[i]),
            forall|i: int, j: int| 0 <= i < j < r@.len() ==> r@[i].precedes(r@[j]),
            forall|loc: KeyLoc|
                self@.has_loc(loc) ==> match #[trigger] self@.tap(loc) {
                    Some(k) => call_ensures(func, (k,), r@.contains(loc)),
                    None => !r@.contains(loc),
                },
    {
        let mut found: Vec<KeyLoc> = Vec::new();
        let count = self.layers.len();
        let mut li: usize = 0;
        while li < count
            invariant
                li <= count,
                count == self.layers@.len(),
                count <= u8::MAX + 1,
                self@.layers == layer_views(self.layers@),
                forall|k: u8| call_requires(func, (k,)),
                forall|k: int|
                    0 <= k < found@.len() ==> self@.has_loc(#[trigger] found@[k]) && found@[k].layer < li,
                forall|k: int, j: int| 0 <= k < j < found@.len() ==> found@[k].precedes(found@[j]),
                forall|loc: KeyLoc|
                    self@.has_loc(loc) && loc.layer < li ==> match #[trigger] self@.tap(loc) {
                        Some(k) => call_ensures(func, (k,), found@.contains(loc)),
                        None => !found@.contains(loc),
                    },
            decreases count - li,
        {
            let layer = &self.layers[li];
            let n = layer.len();
            let mut i: usize = 0;
            while i < n
                invariant
                    i <= n,
                    li < count,
                    count == self.layers@.len(),
                    count <= u8::MAX + 1,
                    self@.layers == layer_views(self.layers@),
                    *layer == self.layers@[li as int],
                    n == layer@.len(),
                    forall|k: u8| call_requires(func, (k,)),
                    forall|k: int|
                        0 <= k < found@.len() ==> self@.has_loc(#[trigger] found@[k]) && (found@[k].layer
                            < li || (found@[k].layer == li && found@[k].index < i)),
                    forall|k: int, j: int| 0 <= k < j < found@.len() ==> found@[k].precedes(found@[j]),
                    forall|loc: KeyLoc|
                        self@.has_loc(loc) && (loc.layer < li || (loc.layer == li && loc.index < i))
                            ==> match #[trigger] self@.tap(loc) {
                            Some(k) => call_ensures(func, (k,), found@.contains(loc)),
                            None => !found@.contains(loc),
                        },
                decreases n - i,
            {
                let ghost before = found@;
                let here = KeyLoc::new(li as u8, i);
                let mut hit = false;
                if let Some(k) = layer.keys[i] {
                    hit = func(k);
                }
                if hit {
                    found.push(here);
                }
                proof {
                    assert(!before.contains(here));
                    assert(self@.has_loc(here));
                    assert(self@.tap(here) == layer@[i as int]);
                    assert forall|loc: KeyLoc| loc != here implies found@.contains(loc)
                        == before.contains(loc) by {
                        if hit {
                            if before.contains(loc) {
                                let k = choose|k: int| 0 <= k < before.len() && before[k] == loc;
                                assert(found@[k] == loc);
                            }
                            if found@.contains(loc) {
                                let k = choose|k: int| 0 <= k < found@.len() && found@[k] == loc;
                                assert(k < before.len());
                                assert(before[k] == loc);
                            }
                        }
                    }
                    if hit {
                        assert(found@[found@.len() - 1] == here);
                    }
                }
                i += 1;
            }
            li += 1;
        }
        found
    }

    /// Replaces the hold behaviour of slot `index`.
    pub fn set_hold(&mut self, index: usize, hold: Option<Behavior>)
        requires
            index < old(self)@.size(),
        ensures
            final(self)@ == old(self)@.with_hold(index as int, hold),
    {
        self.base_hold[index] = hold;
    }

    /// Replaces the tap character of slot `index` of layer `layer`.
    pub fn set_tap(&mut self, layer: u8, index: usize, key: Option<u8>)
        requires
            layer < old(self)@.layers.len(),
            index < old(self)@.layers[layer as int].len(),
        ensures
            final(self)@ == old(self)@.with_tap(layer as int, index as int, key),
    {
        let ghost before = self.layers@;
        self.layers[layer as usize].set_key(index, key);
        proof {
            assert(layer_views(self.layers@) =~= layer_views(before).update(
                layer as int,
                before[layer as int]@.update(index as int, key),
            ));
        }
    }

    /// Exchanges the hold behaviours of two slots of the base layer.
    pub fn swap_holds(&mut self, i: usize, j: usize)
        requires
            i < old(self)@.size(),
            j < old(self)@.size(),
        ensures
            final(self)@ == old(self)@.with_holds_swapped(i as int, j as int),
    {
        let a = self.base_hold[i];
        let b = self.base_hold[j];
        self.base_hold[i] = b;
        self.base_hold[j] = a;
    }

    /// Exchanges the tap characters of two slots of one layer.
    pub fn swap_keys(&mut self, layer: u8, i: usize, j: usize)
        requires
            layer < old(self)@.layers.len(),
            i < old(self)@.layers[layer as int].len(),
            j < old(self)@.layers[layer as int].len(),
        ensures
            final(self)@ == old(self)@.with_keys_swapped(layer as int, i as int, j as int),
    {
        let a = self.key(layer, i);
        let b = self.key(layer, j);
        self.set_tap(layer, i, b);
        self.set_tap(layer, j, a);
        proof {
            assert(final(self)@.layers =~~= old(self)@.with_keys_swapped(layer as int, i as int, j as int).layers);
        }
    }

    /// Exchanges the tap character of one slot between two layers.
    pub fn swap_between_layers(&mut self, a: u8, b: u8, index: usize)
        requires
            a < old(self)@.layers.len(),
            b < old(self)@.layers.len(),
            index < old(self)@.layers[a as int].len(),
            index < old(self)@.layers[b as int].len(),
        ensures
            final(self)@ == old(self)@.with_layers_swapped(a as int, b as int, index as int),
    {
        let x = self.key(a, index);
        let y = self.key(b, index);
        self.set_tap(a, index, y);
        self.set_tap(b, index, x);
        proof {
            assert(final(self)@.layers =~~= old(self)@.with_layers_swapped(a as int, b as int, index as int).layers);
        }
    }

    pub fn base_hold(&self) -> (r: &[Option<Behavior>])
        ensures
            r@ == self@.base_hold,
    {
        self.base_hold.as_slice()
    }

    pub fn base_hold_mut(&mut self) -> (r: &mut Vec<Option<Behavior>>)
        ensures
            r@ == old(self)@.base_hold,
            final(self)@ == (LayoutView { base_hold: final(r)@, layers: old(self)@.layers }),
    {
        &mut self.base_hold
    }
}

} // verus!
