use keylayout::ferris::{canary, colemak_dh, flip_internal, flip_layout, layer_simple, layout_any, make_hold, qwerty, u, MODS, QWERTY};
use keylayout::layout::{Behavior, KeyLoc, Layout, LayoutLayer};

fn small() -> Layout {
    let hold = vec![Some(Behavior::Shift), None, Some(Behavior::Layer(1)), None];
    let base = LayoutLayer::new(vec![Some(b'a'), Some(b'b'), None, Some(b'a')]);
    let upper = LayoutLayer::new(vec![None, Some(b'1'), Some(b'a'), None]);
    Layout::new(hold, vec![base, upper])
}

#[test]
fn layer_accessors_agree() {
    let mut layer = LayoutLayer::new(vec![Some(b'x'), None, Some(b'y')]);
    assert_eq!(layer.len(), 3);
    assert_eq!(layer.keys(), &[Some(b'x'), None, Some(b'y')]);
    layer.set_key(1, Some(b'q'));
    assert_eq!(layer.keys()[1], Some(b'q'));
    *layer.key_mut(0) = None;
    assert_eq!(layer.keys()[0], None);
    layer.keys_mut().swap(1, 2);
    assert_eq!(layer.clone().into_keys(), vec![None, Some(b'y'), Some(b'q')]);
}

#[test]
fn layout_accessors_agree() {
    let layout = small();
    assert_eq!(layout.layer_count(), 2);
    assert_eq!(layout.layer_size(), 4);
    assert_eq!(layout.layers().len(), 2);
    assert_eq!(layout.key(0, 1), Some(b'b'));
    assert_eq!(layout.key(1, 1), Some(b'1'));
    assert_eq!(layout.key(1, 0), None);
    assert_eq!(layout.first_layer().keys(), layout.layer(0).keys());
    assert_eq!(layout.layer(1).keys(), &[None, Some(b'1'), Some(b'a'), None]);
    assert_eq!(layout.base_hold(), &[Some(Behavior::Shift), None, Some(Behavior::Layer(1)), None]);
}

#[test]
fn layout_mut_accessors_write_through() {
    let mut layout = small();
    *layout.layer_mut(1).key_mut(0) = Some(b'z');
    assert_eq!(layout.key(1, 0), Some(b'z'));
    layout.base_hold_mut()[1] = Some(Behavior::Layer(1));
    assert_eq!(layout.base_hold()[1], Some(Behavior::Layer(1)));
    layout.layers_mut()[0].set_key(2, Some(b'c'));
    assert_eq!(layout.key(0, 2), Some(b'c'));
    // the clone is independent
    let copy = layout.clone();
    layout.set_tap(0, 2, None);
    assert_eq!(copy.key(0, 2), Some(b'c'));
    assert_eq!(layout.key(0, 2), None);
}

#[test]
fn find_on_base_lists_matching_slots_in_order() {
    let layout = small();
    assert_eq!(layout.find_on_base(|b| b == Behavior::Shift), vec![KeyLoc::new(0, 0)]);
    assert_eq!(layout.find_on_base(|b| b == Behavior::Layer(1)), vec![KeyLoc::new(0, 2)]);
    assert_eq!(layout.find_on_base(|b| b == Behavior::Layer(2)), vec![]);
    assert_eq!(layout.find_on_base(|_| true), vec![KeyLoc::new(0, 0), KeyLoc::new(0, 2)]);
}

#[test]
fn find_all_key_lists_matching_slots_layer_by_layer() {
    let layout = small();
    assert_eq!(
        layout.find_all_key(|k| k == b'a'),
        vec![KeyLoc::new(0, 0), KeyLoc::new(0, 3), KeyLoc::new(1, 2)]
    );
    assert_eq!(layout.find_all_key(|k| k == b'1'), vec![KeyLoc::new(1, 1)]);
    assert_eq!(layout.find_all_key(|k| k == b'?'), vec![]);
    assert_eq!(layout.find_all_key(|_| true).len(), 5);
}

#[test]
fn key_loc_getters() {
    let loc = KeyLoc::new(3, 17);
    assert_eq!(loc.layer(), 3);
    assert_eq!(loc.index(), 17);
}

#[test]
fn swaps_exchange_and_nothing_else() {
    let mut layout = small();
    layout.swap_holds(0, 3);
    assert_eq!(layout.base_hold(), &[None, None, Some(Behavior::Layer(1)), Some(Behavior::Shift)]);
    layout.swap_keys(0, 1, 2);
    assert_eq!(layout.layer(0).keys(), &[Some(b'a'), None, Some(b'b'), Some(b'a')]);
    assert_eq!(layout.layer(1).keys(), &[None, Some(b'1'), Some(b'a'), None]);
    layout.swap_between_layers(0, 1, 1);
    assert_eq!(layout.layer(0).keys(), &[Some(b'a'), Some(b'1'), Some(b'b'), Some(b'a')]);
    assert_eq!(layout.layer(1).keys(), &[None, None, Some(b'a'), None]);
    // a slot exchanged with itself stays
    layout.swap_keys(1, 2, 2);
    layout.swap_between_layers(1, 1, 2);
    layout.swap_holds(2, 2);
    assert_eq!(layout.layer(1).keys(), &[None, None, Some(b'a'), None]);
    assert_eq!(layout.base_hold()[2], Some(Behavior::Layer(1)));
    layout.set_hold(0, Some(Behavior::Layer(1)));
    assert_eq!(layout.base_hold()[0], Some(Behavior::Layer(1)));
}

#[test]
fn make_hold_reads_the_codes() {
    let hold = make_hold(&MODS);
    assert_eq!(hold.len(), 34);
    for (i, h) in hold.iter().enumerate() {
        let expected = match i {
            1 | 28 => Some(Behavior::Shift),
            10 => Some(Behavior::Layer(1)),
            19 => Some(Behavior::Layer(2)),
            30 | 33 => Some(Behavior::Layer(3)),
            31 | 32 => Some(Behavior::Layer(4)),
            _ => None,
        };
        assert_eq!(*h, expected, "slot {}", i);
    }
}

#[test]
fn layer_simple_pads_to_34() {
    let layer = layer_simple(b"a b\0");
    assert_eq!(layer.len(), 34);
    assert_eq!(&layer.keys()[..5], &[Some(b'a'), None, Some(b'b'), None, None]);
    assert!(layer.keys()[4..].iter().all(|k| k.is_none()));
    let long = layer_simple(&[b'x'; 40]);
    assert_eq!(long.len(), 40);
    assert_eq!(u(b' '), b' ');
}

#[test]
fn qwerty_is_the_seed_layout() {
    let layout = qwerty();
    assert_eq!(layout.layer_count(), 5);
    assert_eq!(layout.layer_size(), 34);
    for i in 0..30 {
        assert_eq!(layout.key(0, i), Some(QWERTY[i]));
    }
    assert_eq!(layout.key(0, 30), None);
    assert_eq!(layout.key(0, 31), Some(b' '));
    assert_eq!(layout.key(0, 32), Some(b' '));
    assert_eq!(layout.key(0, 33), None);
    assert_eq!(layout.key(1, 1), Some(b'^'));
    assert_eq!(layout.key(1, 23), Some(b'\\'));
    assert_eq!(layout.key(2, 1), Some(b'{'));
    assert_eq!(layout.key(3, 10), Some(b'\n'));
    assert_eq!(layout.key(3, 31), Some(b'\t'));
    assert_eq!(layout.key(4, 0), Some(b'1'));
    assert_eq!(layout.key(4, 27), Some(b'0'));
    assert_eq!(layout.key(4, 1), None);
    assert_eq!(layout.base_hold(), make_hold(&MODS).as_slice());
}

#[test]
fn seeds_differ_in_the_base_layer_only() {
    let a = layout_any(b"qazwrxfscptdbgvjmklnhue,yi.;o/");
    let b = colemak_dh();
    let c = canary();
    for l in 0..5u8 {
        assert_eq!(a.layer(l).keys(), b.layer(l).keys());
        if l > 0 {
            assert_eq!(b.layer(l).keys(), c.layer(l).keys());
        }
    }
    assert_eq!(c.key(0, 0), Some(b'w'));
    assert_eq!(c.key(0, 29), Some(b'.'));
    assert_eq!(b.key(0, 4), Some(b'r'));
}

#[test]
fn flip_internal_mirrors_columns_and_thumbs() {
    let buffer: Vec<usize> = (0..34).collect();
    let flipped = flip_internal(&buffer);
    assert_eq!(
        flipped,
        vec![
            27, 28, 29, 24, 25, 26, 21, 22, 23, 18, 19, 20, 15, 16, 17, 12, 13, 14, 9, 10, 11, 6, 7, 8, 3, 4,
            5, 0, 1, 2, 33, 32, 31, 30
        ]
    );
    assert_eq!(flip_internal(&flipped), buffer);
    // what lies beyond the board is dropped
    let long: Vec<usize> = (0..40).collect();
    assert_eq!(flip_internal(&long), flipped);
}

#[test]
fn flip_layout_twice_is_the_layout() {
    let layout = qwerty();
    let once = flip_layout(&layout);
    assert_eq!(once.key(0, 27), Some(b'q'));
    assert_eq!(once.key(0, 0), Some(b'p'));
    assert_eq!(once.base_hold()[19], Some(Behavior::Layer(1)));
    assert_eq!(once.base_hold()[10], Some(Behavior::Layer(2)));
    assert_eq!(once.base_hold()[30], Some(Behavior::Layer(3)));
    let twice = flip_layout(&once);
    assert_eq!(twice.base_hold(), layout.base_hold());
    for l in 0..5u8 {
        assert_eq!(twice.layer(l).keys(), layout.layer(l).keys());
    }
}
