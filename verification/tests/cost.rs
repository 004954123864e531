use keylayout::cost::{convert_fingers, finger_presses, same_finger_bigrams, staccato, stretch_pairs, Press};
use keylayout::evaluate::{KeyCombo, KeyboardLayout};
use keylayout::ferris::qwerty;
use keylayout::keyboard::{Finger, Hand, HandFinger, Key, Keyboard, Position};

fn two_keys(second: Finger, x: i32) -> Keyboard {
    Keyboard::new(vec![
        Key::new(Position { x: 0, y: 0 }, HandFinger::new(Hand::Left, Finger::Index), true),
        Key::new(Position { x, y: 0 }, HandFinger::new(Hand::Left, second), false),
    ])
}

#[test]
fn bigram_on_different_fingers_moves_no_finger() {
    let kb = two_keys(Finger::Middle, 36);
    let a = finger_presses(&kb, &KeyCombo::new(None, None, 0));
    let b = finger_presses(&kb, &KeyCombo::new(None, None, 1));
    assert_eq!(same_finger_bigrams(&a, &b), 0);
    assert_eq!(same_finger_bigrams(&b, &a), 0);
}

#[test]
fn bigram_on_the_same_finger_moves_one_finger() {
    let kb = two_keys(Finger::Index, 36);
    let a = finger_presses(&kb, &KeyCombo::new(None, None, 0));
    let b = finger_presses(&kb, &KeyCombo::new(None, None, 1));
    assert_eq!(same_finger_bigrams(&a, &b), 1);
    // weighted by a frequency of 7
    assert_eq!(u32::from(same_finger_bigrams(&a, &b)) * 7, 7);
    // the same key twice moves nothing
    assert_eq!(same_finger_bigrams(&a, &a), 0);
}

#[test]
fn same_finger_at_the_same_position_does_not_count() {
    // two slots of one finger that lie on top of each other
    let kb = two_keys(Finger::Index, 0);
    let a = finger_presses(&kb, &KeyCombo::new(None, None, 0));
    let b = finger_presses(&kb, &KeyCombo::new(None, None, 1));
    assert_eq!(same_finger_bigrams(&a, &b), 0);
}

#[test]
fn presses_tell_taps_from_holds() {
    let kb = Keyboard::ferris_sweep();
    // shift under the right pinky, layer key under the left thumb, tap under the left middle finger
    let presses = finger_presses(&kb, &KeyCombo::new(Some(28), Some(30), 7));
    let mut expected: [Option<Press>; 10] = [None; 10];
    expected[0] = Some((Position { x: 108, y: 118 }, true));
    expected[2] = Some((Position { x: 72, y: 34 }, false));
    expected[9] = Some((Position { x: 324, y: 72 }, true));
    assert_eq!(presses, expected);
}

#[test]
fn convert_fingers_uses_the_board_of_the_resolution() {
    let kb = Keyboard::ferris_sweep();
    let layout = qwerty();
    let info = KeyboardLayout::generate(&layout, &kb).ok().unwrap();
    for c in [b'a', b'A', b'/', b'?', b'1', b'\t'] {
        for combo in info.key(c) {
            assert_eq!(convert_fingers(&info, combo), finger_presses(&kb, combo));
        }
    }
    let a = convert_fingers(&info, &info.key(b'a')[0]);
    assert_eq!(a[4], Some((Position { x: 0, y: 72 }, false)));
    assert_eq!(a.iter().filter(|p| p.is_some()).count(), 1);
}

#[test]
fn several_fingers_can_move_at_once() {
    let kb = Keyboard::ferris_sweep();
    // `Q` with the right shift, then `P` with the left shift: both pinkies move
    let q = finger_presses(&kb, &KeyCombo::new(Some(28), None, 0));
    let p = finger_presses(&kb, &KeyCombo::new(Some(1), None, 27));
    assert_eq!(same_finger_bigrams(&q, &p), 2);
    // a tapped key that is then held in place does not move its finger
    let tap = finger_presses(&kb, &KeyCombo::new(None, None, 28));
    let hold = finger_presses(&kb, &KeyCombo::new(Some(28), None, 0));
    assert_eq!(same_finger_bigrams(&tap, &hold), 0);
}

#[test]
fn staccato_counts_changed_modifiers() {
    let plain = KeyCombo::new(None, None, 3);
    let shifted = KeyCombo::new(Some(1), None, 3);
    let layered = KeyCombo::new(None, Some(10), 3);
    let both = KeyCombo::new(Some(1), Some(10), 5);
    let other = KeyCombo::new(Some(28), Some(30), 5);
    assert_eq!(staccato(&plain, &plain), 0);
    assert_eq!(staccato(&plain, &shifted), 1);
    assert_eq!(staccato(&plain, &layered), 1);
    assert_eq!(staccato(&plain, &both), 2);
    assert_eq!(staccato(&shifted, &both), 1);
    assert_eq!(staccato(&both, &both), 0);
    assert_eq!(staccato(&both, &other), 2);
}

#[test]
fn stretch_pairs_are_neighbouring_pressing_fingers() {
    let p: Option<Press> = Some((Position { x: 0, y: 0 }, false));
    let mut h: [Option<Press>; 10] = [None; 10];
    assert!(stretch_pairs(&h).is_empty());
    h[1] = p;
    assert!(stretch_pairs(&h).is_empty());
    h[3] = p;
    assert_eq!(
        stretch_pairs(&h),
        vec![(HandFinger::new(Hand::Left, Finger::Index), HandFinger::new(Hand::Left, Finger::Ring))]
    );
    h[0] = p;
    h[6] = p;
    // thumb-index and index-ring on the left; one finger alone on the right
    assert_eq!(
        stretch_pairs(&h),
        vec![
            (HandFinger::new(Hand::Left, Finger::Thumb), HandFinger::new(Hand::Left, Finger::Index)),
            (HandFinger::new(Hand::Left, Finger::Index), HandFinger::new(Hand::Left, Finger::Ring)),
        ]
    );
    h[9] = p;
    assert_eq!(stretch_pairs(&h).len(), 3);
    assert_eq!(
        stretch_pairs(&h)[2],
        (HandFinger::new(Hand::Right, Finger::Index), HandFinger::new(Hand::Right, Finger::Pinky))
    );
}
