//! The text form of a layout: one character per slot for the hold behaviours and for
//! each layer.

use vstd::prelude::*;
use crate::layout::Behavior;
use crate::layout::Layout;
use crate::layout::LayoutLayer;
use crate::layout::LayoutView;
use crate::layout::layer_views;

verus! {

/// `String::push`: the text with `c` appended.
#[verifier::external_body]
pub(crate) fn push_char(text: &mut String, c: char)
    ensures
        final(text)@ == old(text)@.push(c),
{
    text.push(c);
}

/// The character that stands for a hold behaviour: a blank for none, `S` for shift,
/// and the digit of the layer for a layer.
pub open spec fn behavior_tag(hold: Option<Behavior>) -> char {
    match hold {
        None => ' ',
        Some(Behavior::Shift) => 'S',
        Some(Behavior::Layer(l)) => ((0x30 + l) as u8) as char,
    }
}

/// The hold behaviour that a character stands for, if it stands for one: a blank for
/// none, `S` for shift, a digit from 1 to 9 for that layer.
pub open spec fn tag_behavior(c: char) -> Option<Option<Behavior>> {
    if c == ' ' {
        Some(None)
    } else if c == 'S' {
        Some(Some(Behavior::Shift))
    } else if '1' <= c <= '9' {
        Some(Some(Behavior::Layer((c as u32 - 0x30) as u8)))
    } else {
        None
    }
}

/// Whether a hold behaviour has a text form: the layer of a layer behaviour, added to
/// the code of `0`, must fit a byte.
pub open spec fn taggable(hold: Option<Behavior>) -> bool {
    hold matches Some(Behavior::Layer(l)) ==> l <= 0xff - 0x30
}

/// The text form of hold behaviours.
pub open spec fn behaviors_text(hold: Seq<Option<Behavior>>) -> Seq<char> {
    Seq::new(hold.len(), |i: int| behavior_tag(hold[i]))
}

/// The hold behaviours that `text` stands for, if every character stands for one.
pub open spec fn text_behaviors(text: Seq<char>) -> Option<Seq<Option<Behavior>>> {
    if forall|i: int| 0 <= i < text.len() ==> (#[trigger] tag_behavior(text[i])) is Some {
        Some(Seq::new(text.len(), |i: int| tag_behavior(text[i])->0))
    } else {
        None
    }
}

/// Writes hold behaviours as text, one character per slot.
pub fn encode_behaviors(hold: &[Option<Behavior>]) -> (r: String)
    requires
        forall|i: int| 0 <= i < hold@.len() ==> taggable(#[trigger] hold@[i]),
    ensures
        r@ == behaviors_text(hold@),
{
    let mut text = String::new();
    let mut i: usize = 0;
    while i < hold.len()
        invariant
            i <= hold@.len(),
            forall|k: int| 0 <= k < hold@.len() ==> taggable(#[trigger] hold@[k]),
            text@ == behaviors_text(hold@.take(i as int)),
        decreases hold@.len() - i,
    {
        assert(taggable(hold@[i as int]));
        let c: char = match hold[i] {
            None => ' ',
            Some(Behavior::Shift) => 'S',
            Some(Behavior::Layer(l)) => (0x30 + l) as char,
        };
        push_char(&mut text, c);
        proof {
            assert(text@ =~= behaviors_text(hold@.take(i + 1)));
        }
        i += 1;
    }
    proof {
        assert(hold@.take(i as int) == hold@);
    }
    text
}

/// Reads hold behaviours from text, one character per slot; `None` if some character
/// stands for no hold behaviour.
pub fn decode_behaviors(text: &str) -> (r: Option<Vec<Option<Behavior>>>)
    ensures
        match r {
            Some(hold) => text_behaviors(text@) == Some(hold@),
            None => text_behaviors(text@) is None,
        },
{
    let mut hold: Vec<Option<Behavior>> = Vec::new();
    for c in it: text.chars()
        invariant
            it.seq() == text@,
            hold@.len() == it.index(),
            forall|k: int| 0 <= k < it.index() ==> tag_behavior(text@[k]) == Some(#[trigger] hold@[k]),
    {
        if c == ' ' {
            hold.push(None);
        } else if c == 'S' {
            hold.push(Some(Behavior::Shift));
        } else if '1' <= c && c <= '9' {
            hold.push(Some(Behavior::Layer((c as u32 - 0x30) as u8)));
        } else {
            assert(tag_behavior(text@[it.index() as int]) is None);
            return None;
        }
    }
    proof {
        assert(hold@.len() == text@.len());
        assert forall|i: int| 0 <= i < text@.len() implies (#[trigger] tag_behavior(text@[i])) == Some(
            hold@[i],
        ) by {
            let x = hold@[i];
        }
        assert(hold@ =~= text_behaviors(text@)->0);
    }
    Some(hold)
}

/// The character that stands for a tap character: a blank for none, `S` for the
/// space, and otherwise the character with that code.
pub open spec fn key_char(key: Option<u8>) -> char {
    match key {
        None => ' ',
        Some(k) => if k == 0x20 { 'S' } else { k as char },
    }
}

/// The tap character that a character stands for, if it stands for one: `S` for the
/// space, a blank or the character with code 0 for none, and any other character with
/// a code below 256 for the tap character with that code.
pub open spec fn char_key(c: char) -> Option<Option<u8>> {
    if c == 'S' {
        Some(Some(0x20u8))
    } else if c == ' ' || c as u32 == 0 {
        Some(None)
    } else if c as u32 <= 0xff {
        Some(Some((c as u32) as u8))
    } else {
        None
    }
}

/// The text form of the tap characters of a layer.
pub open spec fn keys_text(keys: Seq<Option<u8>>) -> Seq<char> {
    Seq::new(keys.len(), |i: int| key_char(keys[i]))
}

/// The tap characters that `text` stands for, if every character stands for one.
pub open spec fn text_keys(text: Seq<char>) -> Option<Seq<Option<u8>>> {
    if forall|i: int| 0 <= i < text.len() ==> (#[trigger] char_key(text[i])) is Some {
        Some(Seq::new(text.len(), |i: int| char_key(text[i])->0))
    } else {
        None
    }
}

/// Writes the tap characters of a layer as text, one character per slot.
pub fn encode_layer(layer: &LayoutLayer) -> (r: String)
    ensures
        r@ == keys_text(layer@),
{
    let keys = layer.keys();
    let mut text = String::new();
    let mut i: usize = 0;
    while i < keys.len()
        invariant
            i <= keys@.len(),
            keys@ == layer@,
            text@ == keys_text(keys@.take(i as int)),
        decreases keys@.len() - i,
    {
        let c: char = match keys[i] {
            None => ' ',
            Some(k) => if k == 0x20 { 'S' } else { k as char },
        };
        push_char(&mut text, c);
        proof {
            assert(text@ =~= keys_text(keys@.take(i + 1)));
        }
        i += 1;
    }
    proof {
        assert(keys@.take(i as int) == keys@);
    }
    text
}

/// Reads the tap characters of a layer from text, one character per slot; `None` if
/// some character stands for no tap character.
pub fn decode_layer(text: &str) -> (r: Option<LayoutLayer>)
    ensures
        match r {
            Some(layer) => text_keys(text@) == Some(layer@),
            None => text_keys(text@) is None,
        },
{
    let mut keys: Vec<Option<u8>> = Vec::new();
    for c in it: text.chars()
        invariant
            it.seq() == text@,
            keys@.len() == it.index(),
            forall|k: int| 0 <= k < it.index() ==> char_key(text@[k]) == Some(#[trigger] keys@[k]),
    {
        let code = c as u32;
        if c == 'S' {
            keys.push(Some(0x20));
        } else if c == ' ' || code == 0 {
            keys.push(None);
        } else if code <= 0xff {
            keys.push(Some(code as u8));
        } else {
            assert(char_key(text@[it.index() as int]) is None);
            return None;
        }
    }
    proof {
        assert(keys@.len() == text@.len());
        assert forall|i: int| 0 <= i < text@.len() implies (#[trigger] char_key(text@[i])) == Some(keys@[i]) by {
            let x = keys@[i];
        }
        assert(keys@ =~= text_keys(text@)->0);
    }
    Some(LayoutLayer::new(keys))
}

/// Whether a hold behaviour comes back from its text form: a layer behaviour must name
/// a layer from 1 to 9.
pub open spec fn plain_hold(hold: Option<Behavior>) -> bool {
    hold matches Some(Behavior::Layer(l)) ==> 1 <= l <= 9
}

/// Whether a tap character comes back from its text form: it is neither the character
/// with code 0 nor the capital `S`, whose place in the text is taken by the space.
pub open spec fn plain_key(key: Option<u8>) -> bool {
    key matches Some(k) ==> k != 0 && k != 0x53
}

/// Hold behaviours that name layers from 1 to 9 only are read back from their text
/// form as they were.
pub proof fn lemma_behaviors_round_trip(hold: Seq<Option<Behavior>>)
    requires
        forall|i: int| 0 <= i < hold.len() ==> plain_hold(#[trigger] hold[i]),
    ensures
        text_behaviors(behaviors_text(hold)) == Some(hold),
{
    let text = behaviors_text(hold);
    assert forall|i: int| 0 <= i < text.len() implies (#[trigger] tag_behavior(text[i])) == Some(hold[i]) by {
        assert(plain_hold(hold[i]));
    }
    assert(text_behaviors(text)->0 =~= hold);
}

/// Tap characters other than the character with code 0 and the capital `S` are read
/// back from their text form as they were.
pub proof fn lemma_keys_round_trip(keys: Seq<Option<u8>>)
    requires
        forall|i: int| 0 <= i < keys.len() ==> plain_key(#[trigger] keys[i]),
    ensures
        text_keys(keys_text(keys)) == Some(keys),
{
    let text = keys_text(keys);
    assert forall|i: int| 0 <= i < text.len() implies (#[trigger] char_key(text[i])) == Some(keys[i]) by {
        assert(plain_key(keys[i]));
    }
    assert(text_keys(text)->0 =~= keys);
}

/// A layout as text: the number of slots, the hold behaviours, and each layer.
#[derive(Debug)]
pub struct LayoutText {
    pub size: usize,
    pub base_hold: String,
    pub layers: Vec<String>,
}

/// The text of each layer.
pub open spec fn layer_texts(layers: Seq<String>) -> Seq<Seq<char>> {
    Seq::new(layers.len(), |l: int| layers[l]@)
}

/// The text form of each layer of a layout.
pub open spec fn layers_text(layers: Seq<Seq<Option<u8>>>) -> Seq<Seq<char>> {
    Seq::new(layers.len(), |l: int| keys_text(layers[l]))
}

/// The layout that the texts stand for: every character must stand for a hold
/// behaviour or a tap character, and every layer must have one character per slot.
pub open spec fn text_layout(hold: Seq<char>, layers: Seq<Seq<char>>) -> Option<LayoutView> {
    if text_behaviors(hold) is Some && forall|l: int|
        0 <= l < layers.len() ==> text_keys(#[trigger] layers[l]) is Some && layers[l].len() == hold.len() {
        Some(
            LayoutView {
                base_hold: text_behaviors(hold)->0,
                layers: Seq::new(layers.len(), |l: int| text_keys(layers[l])->0),
            },
        )
    } else {
        None
    }
}

/// Writes a layout as text.
pub fn encode_layout(layout: &Layout) -> (r: LayoutText)
    requires
        forall|i: int| 0 <= i < layout@.size() ==> taggable(#[trigger] layout@.base_hold[i]),
    ensures
        r.size == layout@.size(),
        r.base_hold@ == behaviors_text(layout@.base_hold),
        layer_texts(r.layers@) == layers_text(layout@.layers),
{
    let hold = layout.base_hold();
    let base_hold = encode_behaviors(hold);
    let layers = layout.layers();
    let mut texts: Vec<String> = Vec::new();
    let mut l: usize = 0;
    while l < layers.len()
        invariant
            l <= layers@.len(),
            layer_views(layers@) == layout@.layers,
            texts@.len() == l,
            forall|k: int| 0 <= k < l ==> (#[trigger] texts@[k])@ == keys_text(layout@.layers[k]),
        decreases layers@.len() - l,
    {
        assert(layers@[l as int]@ == layout@.layers[l as int]);
        texts.push(encode_layer(&layers[l]));
        l += 1;
    }
    proof {
        assert(layer_texts(texts@) =~= layers_text(layout@.layers));
    }
    LayoutText { size: hold.len(), base_hold, layers: texts }
}

/// Reads a layout from text; `None` if some character stands for nothing or some
/// layer does not have one character per slot. The number of slots is taken from the
/// hold behaviours.
pub fn decode_layout(text: &LayoutText) -> (r: Option<Layout>)
    ensures
        match r {
            Some(layout) => text_layout(text.base_hold@, layer_texts(text.layers@)) == Some(layout@),
            None => text_layout(text.base_hold@, layer_texts(text.layers@)) is None,
        },
{
    let ghost lt = layer_texts(text.layers@);
    let hold = match decode_behaviors(text.base_hold.as_str()) {
        Some(hold) => hold,
        None => {
            return None;
        },
    };
    let mut layers: Vec<LayoutLayer> = Vec::new();
    let mut l: usize = 0;
    while l < text.layers.len()
        invariant
            l <= text.layers@.len(),
            lt == layer_texts(text.layers@),
            text_behaviors(text.base_hold@) == Some(hold@),
            layers@.len() == l,
            forall|k: int|
                0 <= k < l ==> text_keys(#[trigger] lt[k]) == Some(layers@[k]@) && lt[k].len() == text.base_hold@.len(),
            forall|k: int| 0 <= k < l ==> (#[trigger] layers@[k])@.len() == hold@.len(),
        decreases text.layers@.len() - l,
    {
        assert(lt[l as int] == text.layers@[l as int]@);
        match decode_layer(text.layers[l].as_str()) {
            Some(layer) => {
                proof {
                    assert(layer@.len() == lt[l as int].len());
                    assert(hold@.len() == text.base_hold@.len());
                }
                if layer.len() != hold.len() {
                    return None;
                }
                layers.push(layer);
            },
            None => {
                return None;
            },
        }
        l += 1;
    }
    proof {
        assert(layer_views(layers@) =~= text_layout(text.base_hold@, lt)->0.layers);
    }
    Some(Layout::new(hold, layers))
}

/// A layout whose layers have one entry per slot, whose hold behaviours name layers
/// from 1 to 9 only, and whose tap characters are neither the character with code 0
/// nor the capital `S`, is read back from its text form as it was.
pub proof fn lemma_layout_round_trip(lv: LayoutView)
    requires
        forall|l: int| 0 <= l < lv.layers.len() ==> (#[trigger] lv.layers[l]).len() == lv.size(),
        forall|i: int| 0 <= i < lv.size() ==> plain_hold(#[trigger] lv.base_hold[i]),
        forall|l: int, i: int|
            0 <= l < lv.layers.len() && 0 <= i < lv.layers[l].len() ==> plain_key(#[trigger] lv.layers[l][i]),
    ensures
        text_layout(behaviors_text(lv.base_hold), layers_text(lv.layers)) == Some(lv),
{
    let hold = behaviors_text(lv.base_hold);
    let layers = layers_text(lv.layers);
    lemma_behaviors_round_trip(lv.base_hold);
    assert forall|l: int| 0 <= l < layers.len() implies text_keys(#[trigger] layers[l]) == Some(lv.layers[l])
        && layers[l].len() == hold.len() by {
        assert(lv.layers[l].len() == lv.size());
        lemma_keys_round_trip(lv.layers[l]);
    }
    assert(text_layout(hold, layers)->0.layers =~= lv.layers);
}

} // verus!
