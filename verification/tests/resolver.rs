use std::collections::HashSet;

use keylayout::alphabet::ALPHABET;
use keylayout::evaluate::{unshifted, KeyCombo, KeyboardLayout};
use keylayout::ferris::{canary, colemak_dh, qwerty};
use keylayout::keyboard::{Finger, Hand, HandFinger, Key, Keyboard, Position};
use keylayout::layout::{Behavior, KeyLoc, Layout, LayoutLayer};
use keylayout::usage::KeySet;

fn combo(shift: Option<usize>, layer: Option<usize>, key: usize) -> KeyCombo {
    KeyCombo::new(shift, layer, key)
}

#[test]
fn unshifted_glyphs() {
    assert_eq!(unshifted(b'a'), b'a');
    assert_eq!(unshifted(b'A'), b'a');
    assert_eq!(unshifted(b'Z'), b'z');
    assert_eq!(unshifted(b'?'), b'/');
    assert_eq!(unshifted(b'/'), b'/');
    assert_eq!(unshifted(b'@'), b'@');
    assert_eq!(unshifted(b'['), b'[');
    assert_eq!(unshifted(b'1'), b'1');
}

#[test]
fn seed_layouts_resolve() {
    let kb = Keyboard::ferris_sweep();
    for layout in [qwerty(), colemak_dh(), canary()] {
        let info = KeyboardLayout::generate(&layout, &kb).ok().unwrap();
        for c in ALPHABET {
            assert!(!info.key(c).is_empty());
        }
    }
}

#[test]
fn qwerty_plain_letter_has_one_way() {
    let kb = Keyboard::ferris_sweep();
    let layout = qwerty();
    let info = KeyboardLayout::generate(&layout, &kb).ok().unwrap();
    assert_eq!(info.key(b'a'), &[combo(None, None, 1)]);
    assert_eq!(info.key(b'q'), &[combo(None, None, 0)]);
    assert_eq!(info.key(b' '), &[combo(None, None, 31), combo(None, None, 32)]);
}

#[test]
fn qwerty_capital_needs_shift_on_another_finger() {
    let kb = Keyboard::ferris_sweep();
    let layout = qwerty();
    let info = KeyboardLayout::generate(&layout, &kb).ok().unwrap();
    // `a` is under the left pinky, and so is the shift key of slot 1
    assert_eq!(info.key(b'A'), &[combo(Some(28), None, 1)]);
    // `p` is under the right pinky, and so is the shift key of slot 28
    assert_eq!(info.key(b'P'), &[combo(Some(1), None, 27)]);
    // `f` is under neither
    assert_eq!(info.key(b'F'), &[combo(Some(1), None, 10), combo(Some(28), None, 10)]);
}

#[test]
fn qwerty_slash_is_listed_layer_by_layer() {
    let kb = Keyboard::ferris_sweep();
    let layout = qwerty();
    let info = KeyboardLayout::generate(&layout, &kb).ok().unwrap();
    assert_eq!(
        info.key(b'/'),
        &[combo(None, None, 29), combo(None, Some(10), 22), combo(None, Some(30), 7), combo(None, Some(33), 7)]
    );
    // with shift and a layer key together the shift slot must be empty on the base layer
    assert_eq!(info.key(b'?'), &[combo(Some(1), None, 29)]);
}

#[test]
fn qwerty_layer_keys_of_the_same_finger_are_left_out() {
    let kb = Keyboard::ferris_sweep();
    let layout = qwerty();
    let info = KeyboardLayout::generate(&layout, &kb).ok().unwrap();
    assert_eq!(info.key(b'1'), &[combo(None, Some(31), 0), combo(None, Some(32), 0)]);
    assert_eq!(info.key(b'\n'), &[combo(None, Some(30), 10), combo(None, Some(33), 10)]);
    // the tab sits under the left thumb: only the right thumb can hold its layer
    assert_eq!(info.key(b'\t'), &[combo(None, Some(33), 31)]);
}

#[test]
fn home_positions_of_the_board() {
    let kb = Keyboard::ferris_sweep();
    let layout = qwerty();
    let info = KeyboardLayout::generate(&layout, &kb).ok().unwrap();
    assert_eq!(info.keyboard().len(), 34);
    assert_eq!(info.home(HandFinger::new(Hand::Left, Finger::Pinky)), Some(Position { x: 0, y: 72 }));
    assert_eq!(info.home(HandFinger::new(Hand::Left, Finger::Index)), Some(Position { x: 108, y: 45 }));
    assert_eq!(info.home(HandFinger::new(Hand::Left, Finger::Thumb)), Some(Position { x: 144, y: 118 }));
    assert_eq!(info.home(HandFinger::new(Hand::Right, Finger::Thumb)), Some(Position { x: 180, y: 118 }));
    assert_eq!(info.home(HandFinger::new(Hand::Right, Finger::Middle)), Some(Position { x: 252, y: 34 }));
}

#[test]
fn missing_home_key_gives_no_home_position() {
    // a board on which only the left pinky has a resting place, marked twice: the later one counts
    let mut keys = Vec::new();
    for i in 0..34 {
        keys.push(Key::new(
            Position { x: i, y: 0 },
            Keyboard::ferris_sweep().key(i as usize).finger(),
            i == 0 || i == 2,
        ));
    }
    let kb = Keyboard::new(keys);
    let layout = qwerty();
    let info = KeyboardLayout::generate(&layout, &kb).ok().unwrap();
    assert_eq!(info.home(HandFinger::new(Hand::Left, Finger::Pinky)), Some(Position { x: 2, y: 0 }));
    assert_eq!(info.home(HandFinger::new(Hand::Left, Finger::Ring)), None);
    assert_eq!(info.home(HandFinger::new(Hand::Right, Finger::Thumb)), None);
}

#[test]
fn removing_a_glyph_names_its_character() {
    let kb = Keyboard::ferris_sweep();
    let mut layout = qwerty();
    layout.set_tap(0, 1, None);
    assert_eq!(KeyboardLayout::generate(&layout, &kb).err(), Some(b'a'));

    let mut layout = qwerty();
    layout.set_tap(0, 29, None);
    layout.set_tap(1, 22, None);
    layout.set_tap(3, 7, None);
    assert_eq!(KeyboardLayout::generate(&layout, &kb).err(), Some(b'/'));
}

#[test]
fn removing_one_of_several_occurrences_keeps_the_character() {
    let kb = Keyboard::ferris_sweep();
    let mut layout = qwerty();
    layout.set_tap(1, 22, None);
    layout.set_tap(3, 7, None);
    let info = KeyboardLayout::generate(&layout, &kb).ok().unwrap();
    assert_eq!(info.key(b'/'), &[combo(None, None, 29)]);
    // the question mark needs the slash of the base layer
    let mut layout = qwerty();
    layout.set_tap(0, 29, None);
    assert_eq!(KeyboardLayout::generate(&layout, &kb).err(), Some(b'?'));
}

#[test]
fn the_first_unreachable_character_is_named() {
    let kb = Keyboard::ferris_sweep();
    let mut layout = qwerty();
    // `z` and `c` both go; `c` comes first in the alphabet
    layout.set_tap(0, 2, None);
    layout.set_tap(0, 8, None);
    assert_eq!(KeyboardLayout::generate(&layout, &kb).err(), Some(b'c'));
    // without shift keys the first capital is named
    let mut layout = qwerty();
    layout.set_hold(1, None);
    layout.set_hold(28, None);
    assert_eq!(KeyboardLayout::generate(&layout, &kb).err(), Some(b'A'));
}

#[test]
fn character_behind_a_single_layer_key() {
    // `#` stands on layer 1 only, and slot 10 is the only key that activates layer 1
    let kb = Keyboard::ferris_sweep();
    let mut layout = qwerty();
    let info = KeyboardLayout::generate(&layout, &kb).ok().unwrap();
    assert_eq!(info.key(b'#'), &[combo(None, Some(10), 16)]);
    // a second `#` on layer 1 under the finger of the layer key is left out,
    // one under another finger is listed
    layout.set_tap(1, 9, Some(b'#'));
    layout.set_tap(1, 12, Some(b'#'));
    layout.set_tap(1, 0, Some(b'#'));
    let info = KeyboardLayout::generate(&layout, &kb).ok().unwrap();
    assert_eq!(info.key(b'#'), &[combo(None, Some(10), 0), combo(None, Some(10), 16)]);
    for c in info.key(b'#') {
        assert_eq!(c.layer, Some(10));
        assert_eq!(c.shift, None);
        assert_ne!(kb.key(c.key).finger(), kb.key(10).finger());
    }
}

#[test]
fn shift_with_layer_needs_an_empty_shift_slot() {
    let kb = Keyboard::ferris_sweep();
    let mut layout = qwerty();
    // take the slash off the base layer and empty the base-layer slot of the left shift key
    layout.set_tap(0, 29, None);
    layout.set_tap(0, 1, None);
    layout.set_tap(0, 30, Some(b'a'));
    let info = KeyboardLayout::generate(&layout, &kb).ok().unwrap();
    assert_eq!(
        info.key(b'?'),
        &[combo(Some(1), Some(10), 22), combo(Some(1), Some(30), 7), combo(Some(1), Some(33), 7)]
    );
    assert_eq!(info.key(b'a'), &[combo(None, None, 30)]);
}

#[test]
fn usage_collects_tapped_and_held_slots() {
    let kb = Keyboard::ferris_sweep();
    let layout = qwerty();
    let mut keys = KeySet::new();
    let mut holds: HashSet<usize> = HashSet::new();
    holds.insert(99);
    let info = KeyboardLayout::generate_with_usage(&layout, &kb, Some(&mut keys), Some(&mut holds));
    assert!(info.is_ok());
    let expected: HashSet<usize> = [1, 10, 19, 28, 30, 31, 32, 33, 99].into_iter().collect();
    assert_eq!(holds, expected);
    assert_eq!(keys.len(), 79);
    assert!(keys.contains(&KeyLoc::new(0, 0)));
    assert!(keys.contains(&KeyLoc::new(4, 27)));
    assert!(keys.contains(&KeyLoc::new(3, 31)));
    assert!(!keys.contains(&KeyLoc::new(0, 30)));
    assert!(!keys.contains(&KeyLoc::new(1, 0)));
}

#[test]
fn usage_stops_at_the_failing_character() {
    let kb = Keyboard::ferris_sweep();
    let mut layout = qwerty();
    layout.set_tap(0, 8, None); // no `c`
    let mut keys = KeySet::new();
    let mut holds: HashSet<usize> = HashSet::new();
    let r = KeyboardLayout::generate_with_usage(&layout, &kb, Some(&mut keys), Some(&mut holds));
    assert_eq!(r.err(), Some(b'c'));
    // `a` and `b` were resolved, nothing else
    assert_eq!(keys.len(), 2);
    assert!(keys.contains(&KeyLoc::new(0, 1)));
    assert!(keys.contains(&KeyLoc::new(0, 14)));
    assert!(holds.is_empty());
    // one of the two sets may be left out
    let mut only: HashSet<usize> = HashSet::new();
    let seed = qwerty();
    let r = KeyboardLayout::generate_with_usage(&seed, &kb, None, Some(&mut only));
    assert!(r.is_ok());
    assert_eq!(only.len(), 8);
}

#[test]
fn key_set_counts_each_slot_once() {
    let mut set = KeySet::new();
    assert_eq!(set.len(), 0);
    assert!(set.insert(KeyLoc::new(1, 2)));
    assert!(!set.insert(KeyLoc::new(1, 2)));
    assert!(set.insert(KeyLoc::new(2, 1)));
    assert_eq!(set.len(), 2);
    assert!(set.contains(&KeyLoc::new(2, 1)));
    assert!(!set.contains(&KeyLoc::new(1, 1)));
}

#[test]
fn tiny_layout_without_the_alphabet_fails_at_a() {
    let kb = Keyboard::new(vec![
        Key::new(Position { x: 0, y: 0 }, HandFinger::new(Hand::Left, Finger::Index), true),
        Key::new(Position { x: 36, y: 0 }, HandFinger::new(Hand::Left, Finger::Middle), true),
    ]);
    let layout = Layout::new(
        vec![None, Some(Behavior::Shift)],
        vec![LayoutLayer::new(vec![Some(b'b'), Some(b'c')])],
    );
    assert_eq!(KeyboardLayout::generate(&layout, &kb).err(), Some(b'a'));
}

#[test]
fn resolving_twice_gives_the_same_resolution() {
    let kb = Keyboard::ferris_sweep();
    let layout = canary();
    let copy = layout.clone();
    let a = KeyboardLayout::generate(&layout, &kb).ok().unwrap();
    let b = KeyboardLayout::generate(&copy, &kb).ok().unwrap();
    for c in ALPHABET {
        assert_eq!(a.key(c), b.key(c));
    }
    for f in 0..10 {
        let hf = HandFinger::new(Hand::ALL[f / 5], Finger::ALL[f % 5]);
        assert_eq!(a.home(hf), b.home(hf));
    }
}
