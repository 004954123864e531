use keylayout::ferris::qwerty;
use keylayout::layout::{Behavior, Layout, LayoutLayer};
use keylayout::qmk::{decimal_text, ExportError, KeyCode, QmkKey, QmkKeymap};

#[test]
fn key_codes_cover_the_alphabet_without_capitals() {
    let mut count = 0;
    for n in 0..=255u8 {
        let expected =
            n == 0 || n == b'\t' || n == b'\n' || ((0x20..=0x7e).contains(&n) && !n.is_ascii_uppercase());
        match KeyCode::try_from_primitive(n) {
            Some(code) => {
                assert!(expected, "code {}", n);
                assert_eq!(code.code(), n);
                count += 1;
            }
            None => assert!(!expected, "code {}", n),
        }
    }
    assert_eq!(count, 72);
}

#[test]
fn key_code_names() {
    assert_eq!(KeyCode::Null.as_str(), "_______");
    assert_eq!(KeyCode::A.as_str(), "KC_A");
    assert_eq!(KeyCode::N0.as_str(), "KC_0");
    assert_eq!(KeyCode::Enter.as_str(), "KC_ENT");
    assert_eq!(KeyCode::try_from_primitive(b'?').unwrap().as_str(), "KC_QUES");
    assert_eq!(KeyCode::try_from_primitive(b'\\').unwrap().as_str(), "KC_BSLS");
    assert_eq!(KeyCode::try_from_primitive(b' ').unwrap(), KeyCode::Space);
}

#[test]
fn decimal_numerals() {
    assert_eq!(decimal_text(0), "0");
    assert_eq!(decimal_text(7), "7");
    assert_eq!(decimal_text(10), "10");
    assert_eq!(decimal_text(99), "99");
    assert_eq!(decimal_text(100), "100");
    assert_eq!(decimal_text(205), "205");
    assert_eq!(decimal_text(255), "255");
}

#[test]
fn key_actions_as_text() {
    assert_eq!(QmkKey::Direct(KeyCode::Q).to_string(), "KC_Q");
    assert_eq!(QmkKey::ModTapShift(KeyCode::A).to_string(), "LSFT_T(KC_A)");
    assert_eq!(QmkKey::ModTapLayer(KeyCode::F, 1).to_string(), "LT(1,KC_F)");
    assert_eq!(QmkKey::ModTapLayer(KeyCode::Null, 12).to_string(), "LT(12,_______)");
}

#[test]
fn seed_layout_exports() {
    let map = QmkKeymap::from_layout(qwerty()).ok().unwrap();
    assert_eq!(map.version, 1);
    assert_eq!(map.notes, "");
    assert_eq!(map.documentation, "");
    assert_eq!(map.keyboard, "ferris/sweep");
    assert_eq!(map.keymap, "optimized");
    assert_eq!(map.layout, "LAYOUT_split_3x5_2");
    assert_eq!(map.author, "JsonJ__");
    assert_eq!(map.layers.len(), 5);
    for layer in &map.layers {
        assert_eq!(layer.keys.len(), 34);
    }
    let base = &map.layers[0].keys;
    assert_eq!(base[0], QmkKey::Direct(KeyCode::Q));
    assert_eq!(base[1], QmkKey::ModTapShift(KeyCode::A));
    assert_eq!(base[10], QmkKey::ModTapLayer(KeyCode::F, 1));
    assert_eq!(base[19], QmkKey::ModTapLayer(KeyCode::J, 2));
    assert_eq!(base[28], QmkKey::ModTapShift(KeyCode::Semicolon));
    assert_eq!(base[30], QmkKey::ModTapLayer(KeyCode::Null, 3));
    assert_eq!(base[31], QmkKey::ModTapLayer(KeyCode::Space, 4));
    assert_eq!(base[31].to_string(), "LT(4,KC_SPC)");
    assert_eq!(map.layers[4].keys[0], QmkKey::Direct(KeyCode::N1));
    assert_eq!(map.layers[4].keys[1], QmkKey::Direct(KeyCode::Null));
    assert_eq!(map.layers[3].keys[31], QmkKey::Direct(KeyCode::Tab));
    assert_eq!(map.layers[1].keys[22].to_string(), "KC_SLSH");
}

#[test]
fn capital_letters_are_not_exported() {
    let mut layout = qwerty();
    layout.set_tap(2, 5, Some(b'Z'));
    layout.set_tap(1, 7, Some(b'A'));
    layout.set_tap(1, 9, Some(0x80));
    // the first offending slot, layer by layer, is reported
    assert_eq!(QmkKeymap::from_layout(layout).err(), Some(ExportError::Unsupported(b'A')));
    let mut layout = qwerty();
    layout.set_tap(0, 33, Some(0x7f));
    layout.set_tap(0, 2, Some(b'Q'));
    assert_eq!(QmkKeymap::from_layout(layout).err(), Some(ExportError::Unsupported(b'Q')));
}

#[test]
fn export_of_an_empty_layout() {
    let layout = Layout::new(vec![], vec![]);
    let map = QmkKeymap::from_layout(layout).ok().unwrap();
    assert!(map.layers.is_empty());
    let layout = Layout::new(
        vec![Some(Behavior::Layer(2)), None],
        vec![LayoutLayer::new(vec![None, Some(b'-')]), LayoutLayer::new(vec![Some(b'_'), None])],
    );
    let map = QmkKeymap::from_layout(layout).ok().unwrap();
    assert_eq!(map.layers[0].keys, vec![QmkKey::ModTapLayer(KeyCode::Null, 2), QmkKey::Direct(KeyCode::Minus)]);
    assert_eq!(map.layers[1].keys, vec![QmkKey::Direct(KeyCode::Underscore), QmkKey::Direct(KeyCode::Null)]);
}
