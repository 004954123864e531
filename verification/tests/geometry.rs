use keylayout::alphabet::{in_alphabet, ALPHABET};
use keylayout::iter::{OneIter, Range, Step};
use keylayout::keyboard::{Finger, Hand, HandFinger, Key, Keyboard, Position};

#[test]
fn alphabet_has_97_distinct_members() {
    assert_eq!(ALPHABET.len(), 97);
    for (i, a) in ALPHABET.iter().enumerate() {
        assert!(in_alphabet(*a));
        for b in ALPHABET.iter().skip(i + 1) {
            assert_ne!(a, b);
        }
    }
}

#[test]
fn alphabet_is_printable_ascii_with_tab_and_line_feed() {
    let mut members = 0;
    for x in 0..=255u8 {
        let expected = (0x20..=0x7e).contains(&x) || x == b'\t' || x == b'\n';
        assert_eq!(in_alphabet(x), expected, "code {}", x);
        if expected {
            members += 1;
            assert!(ALPHABET.contains(&x));
        }
    }
    assert_eq!(members, 97);
    assert!(!in_alphabet(0));
    assert!(!in_alphabet(b'\r'));
    assert!(!in_alphabet(0x7f));
}

#[test]
fn alphabet_starts_with_lower_case_letters() {
    assert_eq!(ALPHABET[0], b'a');
    assert_eq!(ALPHABET[25], b'z');
    assert_eq!(ALPHABET[26], b'A');
    assert_eq!(ALPHABET[52], b'0');
    assert_eq!(ALPHABET[62], b' ');
    assert_eq!(ALPHABET[96], b'~');
}

#[test]
fn finger_index_counts_left_hand_first() {
    assert_eq!(HandFinger::new(Hand::Left, Finger::Thumb).index(), 0);
    assert_eq!(HandFinger::new(Hand::Left, Finger::Pinky).index(), 4);
    assert_eq!(HandFinger::new(Hand::Right, Finger::Thumb).index(), 5);
    assert_eq!(HandFinger::new(Hand::Right, Finger::Ring).index(), 8);
    assert_eq!(HandFinger::new(Hand::Right, Finger::Pinky).index(), 9);
}

#[test]
fn finger_walk_yields_all_ten_in_order() {
    let mut walk = HandFinger::iter();
    for expected in 0..10 {
        let hf = walk.next().unwrap();
        assert_eq!(hf.index(), expected);
    }
    assert!(walk.next().is_none());
    assert!(walk.next().is_none());
}

#[test]
fn hands_and_fingers_default_to_the_first() {
    assert_eq!(Hand::default(), Hand::Left);
    assert_eq!(Finger::default(), Finger::Thumb);
    assert_eq!(Hand::ALL, [Hand::Left, Hand::Right]);
    assert_eq!(Finger::ALL.len(), 5);
}

#[test]
fn finger_successor_runs_from_thumb_to_pinky() {
    assert_eq!(Finger::Thumb.next_element(), Some(Finger::Index));
    assert_eq!(Finger::Ring.next_element(), Some(Finger::Pinky));
    assert_eq!(Finger::Pinky.next_element(), None);
}

#[test]
fn range_stops_before_its_bound() {
    let mut range = Range::new(Finger::Thumb, Finger::Ring);
    assert_eq!(range.next(), Some(Finger::Thumb));
    assert_eq!(range.next(), Some(Finger::Index));
    assert_eq!(range.next(), Some(Finger::Middle));
    assert_eq!(range.next(), None);
    assert_eq!(range.next(), None);
}

#[test]
fn range_runs_off_the_end_when_the_bound_is_behind() {
    let mut range = Range::new(Finger::Ring, Finger::Thumb);
    assert_eq!(range.next(), Some(Finger::Ring));
    assert_eq!(range.next(), Some(Finger::Pinky));
    assert_eq!(range.next(), None);
}

#[test]
fn one_iter_without_inner_makes_one_empty_pass() {
    let mut it: OneIter<std::vec::IntoIter<u8>> = OneIter::new(None);
    assert_eq!(it.next(), Some(None));
    assert_eq!(it.next(), None);
    assert_eq!(it.next(), None);
}

#[test]
fn one_iter_with_inner_passes_its_items() {
    let mut it = OneIter::new(Some(vec![7u8, 9].into_iter()));
    assert_eq!(it.next(), Some(Some(7)));
    assert_eq!(it.next(), Some(Some(9)));
    assert_eq!(it.next(), None);
    let mut empty = OneIter::new(Some(Vec::<u8>::new().into_iter()));
    assert_eq!(empty.next(), None);
}

#[test]
fn key_keeps_what_it_was_made_with() {
    let key = Key::new(Position { x: 3, y: -4 }, HandFinger::new(Hand::Right, Finger::Ring), true);
    assert_eq!(key.pos(), Position { x: 3, y: -4 });
    assert_eq!(key.finger(), HandFinger::new(Hand::Right, Finger::Ring));
    assert!(key.is_base());
}

#[test]
fn ferris_sweep_has_34_keys_in_columns() {
    let kb = Keyboard::ferris_sweep();
    assert_eq!(kb.len(), 34);
    assert_eq!(kb.keys().len(), 34);
    // first column: left pinky, staggered by 19 mm, rows 17 mm apart
    assert_eq!(kb.key(0).pos(), Position { x: 0, y: 38 });
    assert_eq!(kb.key(1).pos(), Position { x: 0, y: 72 });
    assert_eq!(kb.key(2).pos(), Position { x: 0, y: 106 });
    assert_eq!(kb.key(0).finger(), HandFinger::new(Hand::Left, Finger::Pinky));
    // ring column: staggered by 7 mm, 18 mm to the right
    assert_eq!(kb.key(3).pos(), Position { x: 36, y: 14 });
    assert_eq!(kb.key(3).finger(), HandFinger::new(Hand::Left, Finger::Ring));
    // index column: staggered by 5.5 mm
    assert_eq!(kb.key(9).pos(), Position { x: 108, y: 11 });
    assert_eq!(kb.key(9).finger(), HandFinger::new(Hand::Left, Finger::Index));
    // inner index column
    assert_eq!(kb.key(12).pos(), Position { x: 144, y: 16 });
    assert_eq!(kb.key(12).finger(), HandFinger::new(Hand::Left, Finger::Index));
    assert_eq!(kb.key(15).finger(), HandFinger::new(Hand::Right, Finger::Index));
    assert_eq!(kb.key(15).pos(), Position { x: 180, y: 16 });
    assert_eq!(kb.key(29).pos(), Position { x: 324, y: 38 + 68 });
    assert_eq!(kb.key(29).finger(), HandFinger::new(Hand::Right, Finger::Pinky));
    // thumbs
    assert_eq!(kb.key(30).pos(), Position { x: 108, y: 118 });
    assert_eq!(kb.key(33).pos(), Position { x: 216, y: 118 });
    assert_eq!(kb.key(31).finger(), HandFinger::new(Hand::Left, Finger::Thumb));
    assert_eq!(kb.key(32).finger(), HandFinger::new(Hand::Right, Finger::Thumb));
}

#[test]
fn ferris_sweep_has_one_home_key_per_finger() {
    let kb = Keyboard::ferris_sweep();
    let mut homes = [0usize; 10];
    let mut slots = [usize::MAX; 10];
    for (i, key) in kb.keys().iter().enumerate() {
        if key.is_base() {
            homes[key.finger().index()] += 1;
            slots[key.finger().index()] = i;
        }
    }
    assert_eq!(homes, [1; 10]);
    // left thumb, index, middle, ring, pinky; then the right hand
    assert_eq!(slots, [31, 10, 7, 4, 1, 32, 19, 22, 25, 28]);
}

#[test]
fn keyboard_new_keeps_the_keys() {
    let keys = vec![
        Key::new(Position { x: 0, y: 0 }, HandFinger::new(Hand::Left, Finger::Index), true),
        Key::new(Position { x: 36, y: 0 }, HandFinger::new(Hand::Left, Finger::Middle), false),
    ];
    let kb = Keyboard::new(keys);
    assert_eq!(kb.len(), 2);
    assert_eq!(kb.key(1).pos(), Position { x: 36, y: 0 });
    assert!(!kb.key(1).is_base());
}
