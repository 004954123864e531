use keylayout::ferris::{make_hold, qwerty, MODS};
use keylayout::layout::{Behavior, Layout, LayoutLayer};
use keylayout::text::{decode_behaviors, decode_layer, decode_layout, encode_behaviors, encode_layer, encode_layout, LayoutText};

#[test]
fn behaviors_are_written_one_character_per_slot() {
    let hold = make_hold(&MODS);
    assert_eq!(encode_behaviors(&hold), " S        1        2        S 3443");
    assert_eq!(encode_behaviors(&[]), "");
    assert_eq!(encode_behaviors(&[Some(Behavior::Layer(9)), None, Some(Behavior::Shift)]), "9 S");
}

#[test]
fn behaviors_are_read_back() {
    assert_eq!(decode_behaviors(" S        1        2        S 3443"), Some(make_hold(&MODS)));
    assert_eq!(decode_behaviors(""), Some(vec![]));
    assert_eq!(
        decode_behaviors("1 9S"),
        Some(vec![Some(Behavior::Layer(1)), None, Some(Behavior::Layer(9)), Some(Behavior::Shift)])
    );
}

#[test]
fn unknown_behavior_tags_are_refused() {
    assert_eq!(decode_behaviors("0"), None);
    assert_eq!(decode_behaviors(" s"), None);
    assert_eq!(decode_behaviors("S:"), None);
    assert_eq!(decode_behaviors("\u{663}"), None);
}

#[test]
fn layers_above_nine_do_not_come_back() {
    // layer 10 is written as the character after `9`, which stands for nothing
    let text = encode_behaviors(&[Some(Behavior::Layer(10))]);
    assert_eq!(text, ":");
    assert_eq!(decode_behaviors(&text), None);
    let text = encode_behaviors(&[Some(Behavior::Layer(0))]);
    assert_eq!(text, "0");
    assert_eq!(decode_behaviors(&text), None);
}

#[test]
fn layer_text_writes_space_as_capital_s() {
    let layout = qwerty();
    assert_eq!(encode_layer(layout.layer(0)), "qazwsxedcrfvtgbyhnujmik,ol.p;/ SS ");
    assert_eq!(encode_layer(layout.layer(4)), "1  2  3  4  5  6  7  8  9  0      ");
    assert_eq!(encode_layer(layout.layer(3)), "    % :/  \n!                   \t  ");
    assert_eq!(encode_layer(&LayoutLayer::new(vec![Some(0xe9), Some(0xff)])), "\u{e9}\u{ff}");
}

#[test]
fn layer_text_is_read_back() {
    let layer = decode_layer("aS \0\u{e9}~").unwrap();
    assert_eq!(layer.keys(), &[Some(b'a'), Some(b' '), None, None, Some(0xe9), Some(b'~')]);
    assert_eq!(decode_layer("").unwrap().len(), 0);
    assert!(decode_layer("ab\u{100}").is_none());
    assert!(decode_layer("\u{20ac}").is_none());
}

#[test]
fn seed_layout_round_trips() {
    let layout = qwerty();
    let text = encode_layout(&layout);
    assert_eq!(text.size, 34);
    assert_eq!(text.base_hold, " S        1        2        S 3443");
    assert_eq!(text.layers.len(), 5);
    let back = decode_layout(&text).unwrap();
    assert_eq!(back.base_hold(), layout.base_hold());
    assert_eq!(back.layer_count(), 5);
    for l in 0..5u8 {
        assert_eq!(back.layer(l).keys(), layout.layer(l).keys());
    }
}

#[test]
fn capital_s_comes_back_as_space() {
    let layer = LayoutLayer::new(vec![Some(b'S'), Some(b's')]);
    let text = encode_layer(&layer);
    assert_eq!(text, "Ss");
    assert_eq!(decode_layer(&text).unwrap().keys(), &[Some(b' '), Some(b's')]);
}

#[test]
fn ragged_or_unreadable_layouts_are_refused() {
    let good = LayoutText { size: 2, base_hold: " S".to_string(), layers: vec!["ab".to_string(), "  ".to_string()] };
    let layout = decode_layout(&good).unwrap();
    assert_eq!(layout.layer_size(), 2);
    assert_eq!(layout.key(0, 1), Some(b'b'));
    assert_eq!(layout.key(1, 1), None);
    let ragged = LayoutText { size: 2, base_hold: " S".to_string(), layers: vec!["ab".to_string(), "abc".to_string()] };
    assert!(decode_layout(&ragged).is_none());
    let bad_hold = LayoutText { size: 2, base_hold: " x".to_string(), layers: vec!["ab".to_string()] };
    assert!(decode_layout(&bad_hold).is_none());
    let bad_key = LayoutText { size: 2, base_hold: " S".to_string(), layers: vec!["a\u{100}".to_string()] };
    assert!(decode_layout(&bad_key).is_none());
    // the stated size is not consulted
    let odd = LayoutText { size: 7, base_hold: "".to_string(), layers: vec![] };
    let empty: Layout = decode_layout(&odd).unwrap();
    assert_eq!(empty.layer_count(), 0);
}
