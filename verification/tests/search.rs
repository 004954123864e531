use std::collections::HashSet;

use keylayout::alphabet::ALPHABET;
use keylayout::cost::{finger_presses, same_finger_bigrams, staccato};
use keylayout::ferris::qwerty;
use keylayout::keyboard::Keyboard;
use keylayout::layout::{Behavior, KeyLoc, Layout};
use keylayout::optimization::{
    draw, draw_pruning, feasibility, mutate, prune_unused, well_placed, Annealer, Infeasible, Mutation, Pruning,
    Verdict,
};
use keylayout::usage::KeySet;
use rand::rngs::SmallRng;
use rand::{Rng, SeedableRng};

fn same_layout(a: &Layout, b: &Layout) -> bool {
    a.base_hold() == b.base_hold()
        && a.layers().len() == b.layers().len()
        && a.layers().iter().zip(b.layers()).all(|(x, y)| x.keys() == y.keys())
}

fn sorted_holds(layout: &Layout) -> Vec<u16> {
    let mut v: Vec<u16> = layout
        .base_hold()
        .iter()
        .map(|h| match h {
            None => 0,
            Some(Behavior::Shift) => 1,
            Some(Behavior::Layer(l)) => 2 + u16::from(*l),
        })
        .collect();
    v.sort();
    v
}

#[test]
fn a_drawn_change_fits_the_layout() {
    let mut rng = SmallRng::seed_from_u64(11);
    for _ in 0..500 {
        let m = draw(&mut rng, 34, 5);
        assert!(m.new_hold.is_none());
        let (i, j) = m.hold_swap.unwrap();
        assert!(i < 34 && j < 34);
        let (layer, i, j) = m.key_swap.unwrap();
        assert!(layer < 5 && i < 34 && j < 34);
        if let Some((a, b, i)) = m.vertical_swap {
            assert!(a < 5 && b < 5 && a != b && i < 34);
        }
        if let Some((layer, i, ch)) = m.new_key {
            assert!(layer < 5 && i < 34 && ch < 97);
        }
    }
}

#[test]
fn applying_a_change_does_each_part_in_order() {
    let mut layout = qwerty();
    let m = Mutation {
        new_hold: Some((0, 0)),
        new_key: Some((1, 0, 26)),
        hold_swap: Some((0, 2)),
        key_swap: Some((1, 0, 1)),
        vertical_swap: Some((1, 4, 1)),
    };
    m.apply(&mut layout);
    // slot 0 was given shift, which then moved to slot 2
    assert_eq!(layout.base_hold()[0], None);
    assert_eq!(layout.base_hold()[2], Some(Behavior::Shift));
    assert_eq!(layout.base_hold()[1], Some(Behavior::Shift));
    // `A` was put on slot 0 of layer 1, moved to slot 1, and then down to layer 4
    assert_eq!(layout.key(1, 0), Some(b'^'));
    assert_eq!(layout.key(1, 1), None);
    assert_eq!(layout.key(4, 1), Some(ALPHABET[26]));
    assert_eq!(layout.key(4, 1), Some(b'A'));

    let mut layout = qwerty();
    let m = Mutation { new_hold: Some((5, 3)), new_key: None, hold_swap: None, key_swap: None, vertical_swap: None };
    m.apply(&mut layout);
    assert_eq!(layout.base_hold()[5], Some(Behavior::Layer(3)));
    let untouched = qwerty();
    for l in 0..5u8 {
        assert_eq!(layout.layer(l).keys(), untouched.layer(l).keys());
    }
}

#[test]
fn mutation_keeps_the_shape_and_the_hold_behaviours() {
    let mut rng = SmallRng::seed_from_u64(3);
    let start = qwerty();
    let mut layout = start.clone();
    let mut holds_moved = false;
    let mut upper_layer_changed = false;
    for _ in 0..60 {
        mutate(&mut rng, &mut layout);
        assert_eq!(layout.layer_count(), 5);
        assert_eq!(layout.base_hold().len(), 34);
        for l in 0..5u8 {
            assert_eq!(layout.layer(l).len(), 34);
        }
        assert_eq!(sorted_holds(&layout), sorted_holds(&start));
        holds_moved |= layout.base_hold() != start.base_hold();
        upper_layer_changed |= (2..5u8).any(|l| layout.layer(l).keys() != start.layer(l).keys());
    }
    assert!(holds_moved);
    assert!(upper_layer_changed);
}

#[test]
fn seed_layout_is_feasible() {
    let kb = Keyboard::ferris_sweep();
    let layout = qwerty();
    assert_eq!(well_placed(&layout), Ok(()));
    let f = feasibility(&layout, &kb).ok().unwrap();
    assert_eq!(f.used_keys.len(), 79);
    assert_eq!(f.used_holds.len(), 8);
    assert_eq!(f.info.key(b'a').len(), 1);
}

#[test]
fn letters_off_the_base_layer_are_infeasible() {
    let kb = Keyboard::ferris_sweep();
    let mut layout = qwerty();
    layout.set_tap(2, 0, Some(b'e'));
    assert_eq!(well_placed(&layout), Err(Infeasible::LetterOffBase));
    assert_eq!(feasibility(&layout, &kb).err(), Some(Infeasible::LetterOffBase));
    // a capital letter is no lower-case letter
    let mut layout = qwerty();
    layout.set_tap(2, 0, Some(b'E'));
    assert_eq!(well_placed(&layout), Ok(()));
    // a letter off base outranks spread digits
    let mut layout = qwerty();
    layout.set_tap(1, 0, Some(b'7'));
    layout.set_tap(3, 0, Some(b'z'));
    assert_eq!(well_placed(&layout), Err(Infeasible::LetterOffBase));
}

#[test]
fn digits_on_two_layers_are_infeasible() {
    let kb = Keyboard::ferris_sweep();
    let mut layout = qwerty();
    layout.set_tap(1, 0, Some(b'7'));
    assert_eq!(well_placed(&layout), Err(Infeasible::DigitsSpread));
    assert_eq!(feasibility(&layout, &kb).err(), Some(Infeasible::DigitsSpread));
    // the base layer counts as a layer
    let mut layout = qwerty();
    layout.set_tap(0, 30, Some(b'0'));
    assert_eq!(well_placed(&layout), Err(Infeasible::DigitsSpread));
    // several digits on one layer are fine
    let mut layout = qwerty();
    layout.set_tap(4, 1, Some(b'7'));
    assert_eq!(well_placed(&layout), Ok(()));
}

#[test]
fn an_unreachable_character_is_infeasible() {
    let kb = Keyboard::ferris_sweep();
    let mut layout = qwerty();
    layout.set_tap(4, 27, None);
    assert_eq!(feasibility(&layout, &kb).err(), Some(Infeasible::Unreachable(b'0')));
}

#[test]
fn pruning_clears_unused_parts_only() {
    let kb = Keyboard::ferris_sweep();
    let start = qwerty();
    let f = feasibility(&start, &kb).ok().unwrap();
    let mut rng = SmallRng::seed_from_u64(5);
    let mut layout = start.clone();
    prune_unused(&mut rng, &mut layout, &f.used_keys, &f.used_holds);
    // every hold and every character of the seed layout is in use
    assert!(same_layout(&layout, &start));

    // with nothing marked as used, each part stays or goes
    let none_k = KeySet::new();
    let none_h: HashSet<usize> = HashSet::new();
    let mut cleared_holds = 0;
    let mut cleared_keys = 0;
    let mut kept_keys = 0;
    prune_unused(&mut rng, &mut layout, &none_k, &none_h);
    for i in 0..34 {
        if layout.base_hold()[i] != start.base_hold()[i] {
            assert_eq!(layout.base_hold()[i], None);
            cleared_holds += 1;
        }
        for l in 0..5u8 {
            if layout.key(l, i) != start.key(l, i) {
                assert_eq!(layout.key(l, i), None);
                cleared_keys += 1;
            } else if start.key(l, i).is_some() {
                kept_keys += 1;
            }
        }
    }
    assert!(cleared_holds > 0);
    assert!(cleared_keys > 0);
    assert!(kept_keys > 0);

    // what is marked stays, whatever the draws
    let mut layout = start.clone();
    let mut only = KeySet::new();
    only.insert(KeyLoc::new(0, 1));
    let mut hold_1: HashSet<usize> = HashSet::new();
    hold_1.insert(1);
    for _ in 0..20 {
        prune_unused(&mut rng, &mut layout, &only, &hold_1);
    }
    assert_eq!(layout.key(0, 1), Some(b'a'));
    assert_eq!(layout.base_hold()[1], Some(Behavior::Shift));
    assert_eq!(layout.base_hold()[28], None);
    assert_eq!(layout.key(0, 0), None);
}

#[test]
fn a_search_of_no_steps_returns_the_layout() {
    let start = qwerty();
    let annealer = Annealer::new(start.clone(), 0);
    assert!(annealer.finished());
    assert_eq!(annealer.progress(), (0, 0));
    assert!(same_layout(annealer.current(), &start));
    let end = annealer.into_layout();
    assert!(same_layout(&end, &start));
}

#[test]
fn verdicts_move_the_search_on() {
    let start = qwerty();
    let mut rng = SmallRng::seed_from_u64(1);
    let mut annealer = Annealer::new(start.clone(), 2);
    assert!(!annealer.finished());
    let candidate = annealer.propose(&mut rng);
    assert!(!same_layout(&candidate, &start));
    annealer.settle(candidate.clone(), Verdict::Infeasible);
    assert_eq!(annealer.progress(), (0, 2));
    assert!(same_layout(annealer.current(), &start));
    annealer.settle(candidate.clone(), Verdict::Rejected);
    assert_eq!(annealer.progress(), (1, 2));
    assert!(same_layout(annealer.current(), &start));
    annealer.settle(candidate.clone(), Verdict::Accepted);
    assert_eq!(annealer.progress(), (2, 2));
    assert!(annealer.finished());
    assert!(same_layout(annealer.current(), &candidate));
    let none_k = KeySet::new();
    let none_h: HashSet<usize> = HashSet::new();
    annealer.relax(&mut rng, &none_k, &none_h);
    assert_eq!(annealer.progress(), (2, 2));
    assert_eq!(annealer.into_layout().layer_count(), 5);
}

/// A small cost: same-finger moves and modifier changes over a few frequent pairs,
/// each taken at its first combination.
fn cost(layout: &Layout, kb: &Keyboard) -> Option<f64> {
    let f = feasibility(layout, kb).ok()?;
    let pairs: [(&[u8; 2], f64); 6] =
        [(b"th", 30.0), (b"he", 25.0), (b"in", 20.0), (b"er", 18.0), (b"de", 9.0), (b"()", 5.0)];
    let mut total = 0.0;
    for (pair, freq) in pairs {
        let a = f.info.key(pair[0])[0];
        let b = f.info.key(pair[1])[0];
        let moves = same_finger_bigrams(&finger_presses(kb, &a), &finger_presses(kb, &b));
        total += freq * (f64::from(moves) + 0.5 * f64::from(staccato(&a, &b)));
    }
    Some(total)
}

#[test]
fn cold_annealing_does_not_worsen_the_layout() {
    let kb = Keyboard::ferris_sweep();
    let start = qwerty();
    let initial = cost(&start, &kb).unwrap();
    // `de` is a same-finger pair on the seed layout
    assert_eq!(initial, 9.0);
    let mut sum = 0.0;
    let runs = 8;
    for seed in 0..runs {
        let mut rng = SmallRng::seed_from_u64(seed);
        let mut annealer = Annealer::new(start.clone(), 40);
        let mut current = initial;
        while !annealer.finished() {
            let (step, total) = annealer.progress();
            let temperature = 1e-6 * (1.0 - f64::from(step) / f64::from(total)) + 1e-9;
            let mut tries = 0;
            let (candidate, score) = loop {
                let candidate = annealer.propose(&mut rng);
                tries += 1;
                match cost(&candidate, &kb) {
                    Some(score) => break (candidate, Some(score)),
                    None if tries >= 500 => break (candidate, None),
                    None => annealer.settle(candidate, Verdict::Infeasible),
                }
            };
            let Some(score) = score else {
                annealer.settle(candidate, Verdict::Rejected);
                continue;
            };
            let accept = if score < current { 1.0 } else { ((current - score) / temperature).exp() };
            if rng.random_bool(accept) {
                annealer.settle(candidate, Verdict::Accepted);
                current = score;
            } else {
                annealer.settle(candidate, Verdict::Rejected);
            }
        }
        let end = annealer.into_layout();
        assert_eq!(cost(&end, &kb), Some(current));
        sum += current;
    }
    assert!(sum / runs as f64 <= initial);
}

#[test]
fn a_pruning_clears_what_it_marks_and_nothing_else() {
    let start = qwerty();
    let mut holds = vec![false; 34];
    holds[1] = true;
    holds[5] = true; // empty already
    let mut keys = vec![vec![false; 34]; 5];
    keys[0][0] = true;
    keys[4][27] = true;
    keys[2][0] = true; // empty already
    let pruning = Pruning { holds, keys };
    let mut layout = start.clone();
    pruning.apply(&mut layout);
    for i in 0..34 {
        let expected = if i == 1 { None } else { start.base_hold()[i] };
        assert_eq!(layout.base_hold()[i], expected);
        for l in 0..5u8 {
            let expected = if (l, i) == (0, 0) || (l, i) == (4, 27) { None } else { start.key(l, i) };
            assert_eq!(layout.key(l, i), expected);
        }
    }
    assert_eq!(layout.base_hold()[28], Some(Behavior::Shift));
    assert_eq!(layout.key(0, 1), Some(b'a'));

    // a marking of nothing changes nothing
    let nothing = Pruning { holds: vec![false; 34], keys: vec![vec![false; 34]; 5] };
    let mut layout = start.clone();
    nothing.apply(&mut layout);
    assert!(same_layout(&layout, &start));

    // a marking of everything empties the layout
    let all = Pruning { holds: vec![true; 34], keys: vec![vec![true; 34]; 5] };
    all.apply(&mut layout);
    assert!(layout.base_hold().iter().all(|h| h.is_none()));
    assert!(layout.layers().iter().all(|layer| layer.keys().iter().all(|k| k.is_none())));
    assert_eq!(layout.layer_count(), 5);
    assert_eq!(layout.layer_size(), 34);
}

#[test]
fn a_drawn_pruning_spares_what_is_in_use() {
    let mut rng = SmallRng::seed_from_u64(9);
    let mut used_keys = KeySet::new();
    used_keys.insert(KeyLoc::new(0, 3));
    used_keys.insert(KeyLoc::new(2, 33));
    let used_holds: HashSet<usize> = [0, 7].into_iter().collect();
    let mut marked_holds = 0;
    let mut marked_keys = 0;
    for _ in 0..20 {
        let p = draw_pruning(&mut rng, 34, 3, &used_keys, &used_holds);
        assert_eq!(p.holds.len(), 34);
        assert_eq!(p.keys.len(), 3);
        assert!(p.keys.iter().all(|row| row.len() == 34));
        assert!(!p.holds[0] && !p.holds[7]);
        assert!(!p.keys[0][3] && !p.keys[2][33]);
        marked_holds += p.holds.iter().filter(|m| **m).count();
        marked_keys += p.keys.iter().flatten().filter(|m| **m).count();
    }
    // 640 unused holds at one in two, 2000 unused characters at seven in ten
    assert!((200..440).contains(&marked_holds));
    assert!((1200..1600).contains(&marked_keys));
    // with everything in use nothing is marked
    let every_hold: HashSet<usize> = (0..4).collect();
    let mut every_key = KeySet::new();
    for i in 0..4 {
        every_key.insert(KeyLoc::new(0, i));
    }
    let p = draw_pruning(&mut rng, 4, 1, &every_key, &every_hold);
    assert_eq!(p.holds, vec![false; 4]);
    assert_eq!(p.keys, vec![vec![false; 4]]);
    let empty = draw_pruning(&mut rng, 0, 0, &every_key, &every_hold);
    assert!(empty.holds.is_empty() && empty.keys.is_empty());
}
