//! Physical geometry: hands, fingers, and the keys each finger is responsible for.

use vstd::prelude::*;
use vstd::std_specs::cmp::PartialEqSpecImpl;
use crate::iter::Step;

verus! {

#[derive(Debug, Clone, Copy, Eq)]
pub enum Hand {
    Left,
    Right,
}

impl Hand {
    pub const ALL: [Hand; 2] = [Hand::Left, Hand::Right];

    /// Position of the hand in [`Hand::ALL`].
    pub open spec fn ordinal(self) -> int {
        match self {
            Hand::Left => 0,
            Hand::Right => 1,
        }
    }
}

impl PartialEq for Hand {
    fn eq(&self, other: &Self) -> (r: bool) {
        match (*self, *other) {
            (Hand::Left, Hand::Left) => true,
            (Hand::Right, Hand::Right) => true,
            _ => false,
        }
    }
}

impl PartialEqSpecImpl for Hand {
    open spec fn obeys_eq_spec() -> bool {
        true
    }

    open spec fn eq_spec(&self, other: &Self) -> bool {
        *self == *other
    }
}

impl Default for Hand {
    fn default() -> (r: Self)
        ensures
            r == Hand::Left,
    {
        Hand::Left
    }
}

#[derive(Debug, Clone, Copy, Eq)]
pub enum Finger {
    Thumb,
    Index,
    Middle,
    Ring,
    Pinky,
}

impl Finger {
    pub const ALL: [Finger; 5] = [
        Finger::Thumb,
        Finger::Index,
        Finger::Middle,
        Finger::Ring,
        Finger::Pinky,
    ];

    /// Position of the finger in [`Finger::ALL`], counted from the thumb outwards.
    pub open spec fn ordinal(self) -> int {
        match self {
            Finger::Thumb => 0,
            Finger::Index => 1,
            Finger::Middle => 2,
            Finger::Ring => 3,
            Finger::Pinky => 4,
        }
    }
}

impl PartialEq for Finger {
    fn eq(&self, other: &Self) -> (r: bool) {
        match (*self, *other) {
            (Finger::Thumb, Finger::Thumb) => true,
            (Finger::Index, Finger::Index) => true,
            (Finger::Middle, Finger::Middle) => true,
            (Finger::Ring, Finger::Ring) => true,
            (Finger::Pinky, Finger::Pinky) => true,
            _ => false,
        }
    }
}

impl PartialEqSpecImpl for Finger {
    open spec fn obeys_eq_spec() -> bool {
        true
    }

    open spec fn eq_spec(&self, other: &Self) -> bool {
        *self == *other
    }
}

impl Default for Finger {
    fn default() -> (r: Self)
        ensures
            r == Finger::Thumb,
    {
        Finger::Thumb
    }
}

impl Step for Finger {
    open spec fn successor(self) -> Option<Self> {
        match self {
            Finger::Thumb => Some(Finger::Index),
            Finger::Index => Some(Finger::Middle),
            Finger::Middle => Some(Finger::Ring),
            Finger::Ring => Some(Finger::Pinky),
            Finger::Pinky => None,
        }
    }

    fn next_element(self) -> (r: Option<Self>) {
        match self {
            Finger::Thumb => Some(Finger::Index),
            Finger::Index => Some(Finger::Middle),
            Finger::Middle => Some(Finger::Ring),
            Finger::Ring => Some(Finger::Pinky),
            Finger::Pinky => None,
        }
    }
}

/// One finger of one hand.
#[derive(Debug, Clone, Copy, Eq)]
pub struct HandFinger {
    pub hand: Hand,
    pub finger: Finger,
}

impl PartialEq for HandFinger {
    fn eq(&self, other: &Self) -> (r: bool) {
        self.hand == other.hand && self.finger == other.finger
    }
}

impl PartialEqSpecImpl for HandFinger {
    open spec fn obeys_eq_spec() -> bool {
        true
    }

    open spec fn eq_spec(&self, other: &Self) -> bool {
        *self == *other
    }
}

/// Number of fingers over both hands.
pub const FINGER_COUNT: usize = 10;

impl HandFinger {
    pub fn new(hand: Hand, finger: Finger) -> (r: Self)
        ensures
            r == (HandFinger { hand, finger }),
    {
        Self { hand, finger }
    }

    /// The finger's place among all ten: left hand first, thumb first.
    pub open spec fn ordinal(self) -> int {
        5 * self.hand.ordinal() + self.finger.ordinal()
    }

    /// The finger's place among all ten, for use as an array index.
    pub fn index(self) -> (r: usize)
        ensures
            r == self.ordinal(),
            r < FINGER_COUNT,
    {
        let h: usize = match self.hand {
            Hand::Left => 0,
            Hand::Right => 1,
        };
        let f: usize = match self.finger {
            Finger::Thumb => 0,
            Finger::Index => 1,
            Finger::Middle => 2,
            Finger::Ring => 3,
            Finger::Pinky => 4,
        };
        5 * h + f
    }

    /// A fresh pass over all ten fingers.
    pub fn iter() -> (r: HandFingerIter)
        ensures
            r.position() == 0,
    {
        HandFingerIter::default()
    }
}

/// Two fingers are the same exactly when they have the same place among the ten.
pub proof fn lemma_ordinal_injective(a: HandFinger, b: HandFinger)
    ensures
        0 <= a.ordinal() < 10,
        a.ordinal() == b.ordinal() <==> a == b,
{
}

/// Walks the ten fingers in the order of their ordinals.
#[derive(Debug, Clone)]
pub struct HandFingerIter {
    done: bool,
    hand: Hand,
    finger: Finger,
}

impl Default for HandFingerIter {
    fn default() -> (r: Self)
        ensures
            r.position() == 0,
    {
        HandFingerIter { done: false, hand: Hand::Left, finger: Finger::Thumb }
    }
}

impl HandFingerIter {
    /// How many fingers have been yielded so far; 10 once the walk is over.
    pub closed spec fn position(self) -> int {
        if self.done {
            10
        } else {
            5 * self.hand.ordinal() + self.finger.ordinal()
        }
    }

    /// Yields the finger whose ordinal is the current position, or `None` after the tenth.
    pub fn next(&mut self) -> (r: Option<HandFinger>)
        ensures
            0 <= old(self).position() <= 10,
            old(self).position() < 10 ==> {
                &&& r matches Some(hf)
                &&& hf.ordinal() == old(self).position()
                &&& final(self).position() == old(self).position() + 1
            },
            old(self).position() == 10 ==> r is None && final(self).position() == 10,
    {
        if self.done {
            return None;
        }
        let current = HandFinger { hand: self.hand, finger: self.finger };

        let (next_finger, next_hand) = match self.finger {
            Finger::Thumb => (Finger::Index, false),
            Finger::Index => (Finger::Middle, false),
            Finger::Middle => (Finger::Ring, false),
            Finger::Ring => (Finger::Pinky, false),
            Finger::Pinky => (Finger::Thumb, true),
        };

        let (next_hand, alive) = match (self.hand, next_hand) {
            (Hand::Left, true) => (Hand::Right, true),
            (Hand::Left, false) => (Hand::Left, true),
            (Hand::Right, true) => (Hand::Right, false),
            (Hand::Right, false) => (Hand::Right, true),
        };

        self.finger = next_finger;
        self.hand = next_hand;

        if !alive {
            self.done = true;
        }
        Some(current)
    }
}

/// A point on the board, in half millimetres, so that a column staggered by half a
/// millimetre still has whole coordinates.
#[derive(Debug, Clone, Copy, PartialEq, Eq, Structural)]
pub struct Position {
    pub x: i32,
    pub y: i32,
}

/// One physical key: where it is, which finger presses it, and whether that finger rests on it.
#[derive(Debug, Clone, Copy)]
pub struct Key {
    pos: Position,
    finger: HandFinger,
    is_base: bool,
}

impl Key {
    pub closed spec fn spec_pos(&self) -> Position {
        self.pos
    }

    pub closed spec fn spec_finger(&self) -> HandFinger {
        self.finger
    }

    pub closed spec fn spec_is_base(&self) -> bool {
        self.is_base
    }

    pub fn new(pos: Position, finger: HandFinger, is_base: bool) -> (r: Self)
        ensures
            r.pos() == pos,
            r.finger() == finger,
            r.is_base() == is_base,
    {
        Key { pos, finger, is_base }
    }

    #[verifier::when_used_as_spec(spec_pos)]
    pub fn pos(&self) -> (r: Position)
        ensures
            r == self.pos(),
    {
        self.pos
    }

    #[verifier::when_used_as_spec(spec_finger)]
    pub fn finger(&self) -> (r: HandFinger)
        ensures
            r == self.finger(),
    {
        self.finger
    }

    #[verifier::when_used_as_spec(spec_is_base)]
    pub fn is_base(&self) -> (r: bool)
        ensures
            r == self.is_base(),
    {
        self.is_base
    }

    /// Keys are equal when position, finger and home flag are.
    pub proof fn lemma_ext(a: Key, b: Key)
        requires
            a.pos() == b.pos(),
            a.finger() == b.finger(),
            a.is_base() == b.is_base(),
        ensures
            a == b,
    {
    }
}

/// Whether key `i` of `keys` is the resting place of finger `f`.
pub open spec fn is_home_key(keys: Seq<Key>, i: int, f: HandFinger) -> bool {
    0 <= i < keys.len() && keys[i].is_base() && keys[i].finger() == f
}

/// Whether finger `f` rests on exactly one key of `keys`.
pub open spec fn has_one_home(keys: Seq<Key>, f: HandFinger) -> bool {
    exists|i: int|
        #![trigger is_home_key(keys, i, f)]
        is_home_key(keys, i, f) && forall|j: int| is_home_key(keys, j, f) ==> j == i
}

/// The keys of a board, by slot.
#[derive(Debug, Clone)]
pub struct Keyboard {
    keys: Vec<Key>,
}

impl View for Keyboard {
    type V = Seq<Key>;

    closed spec fn view(&self) -> Seq<Key> {
        self.keys@
    }
}

impl Keyboard {
    pub fn new(keys: Vec<Key>) -> (r: Self)
        ensures
            r@ == keys@,
    {
        Self { keys }
    }

    pub fn keys(&self) -> (r: &[Key])
        ensures
            r@ == self@,
    {
        self.keys.as_slice()
    }

    /// The key at slot `index`.
    pub fn key(&self, index: usize) -> (r: Key)
        requires
            index < self@.len(),
        ensures
            r == self@[index as int],
    {
        self.keys[index]
    }

    /// Number of slots.
    pub fn len(&self) -> (r: usize)
        ensures
            r == self@.len(),
    {
        self.keys.len()
    }

    /// Every finger rests on exactly one key.
    pub open spec fn well_formed(&self) -> bool {
        forall|f: HandFinger| #[trigger] has_one_home(self@, f)
    }

    /// Key `i` of the 34-key split board: ten columns of three keys, column by column
    /// from the left and top to bottom, then four thumb keys from left to right.
    pub open spec fn ferris_key(i: int) -> (Position, HandFinger, bool) {
        if i < 30 {
            let ix = i / 3;
            let iy = i % 3;
            let hand = if ix < 5 { Hand::Left } else { Hand::Right };
            let from_edge = if ix < 5 { ix } else { 9 - ix };
            let finger = if from_edge == 0 {
                Finger::Pinky
            } else if from_edge == 1 {
                Finger::Ring
            } else if from_edge == 2 {
                Finger::Middle
            } else {
                Finger::Index
            };
            let stagger: int = if from_edge == 0 {
                38
            } else if from_edge == 1 {
                14
            } else if from_edge == 2 {
                0
            } else if from_edge == 3 {
                11
            } else {
                16
            };
            (
                Position { x: (36 * ix) as i32, y: (stagger + 34 * iy) as i32 },
                HandFinger { hand, finger },
                iy == 1 && ix != 4 && ix != 5,
            )
        } else {
            let t = i - 30;
            (
                Position { x: (36 * (t + 3)) as i32, y: 118 },
                HandFinger { hand: if t < 2 { Hand::Left } else { Hand::Right }, finger: Finger::Thumb },
                t == 1 || t == 2,
            )
        }
    }

    /// Whether `keys` are those of the 34-key split board.
    pub open spec fn is_ferris_sweep(keys: Seq<Key>) -> bool {
        &&& keys.len() == 34
        &&& forall|i: int|
            0 <= i < 34 ==> (#[trigger] keys[i].pos(), keys[i].finger(), keys[i].is_base())
                == Self::ferris_key(i)
    }

    /// The 34-key split board.
    pub fn ferris_sweep() -> (r: Self)
        ensures
            Self::is_ferris_sweep(r@),
            r.well_formed(),
    {
        let mut keys: Vec<Key> = Vec::with_capacity(34);
        let mut ix: usize = 0;
        while ix < 10
            invariant
                ix <= 10,
                keys@.len() == 3 * ix,
                forall|i: int|
                    0 <= i < keys@.len() ==> (#[trigger] keys@[i].pos(), keys@[i].finger(), keys@[i].is_base())
                        == Self::ferris_key(i),
            decreases 10 - ix,
        {
            let hand = if ix < 5 { Hand::Left } else { Hand::Right };
            let from_edge: usize = if ix < 5 { ix } else { 9 - ix };
            let finger = if from_edge == 0 {
                Finger::Pinky
            } else if from_edge == 1 {
                Finger::Ring
            } else if from_edge == 2 {
                Finger::Middle
            } else {
                Finger::Index
            };
            let stagger: i32 = if from_edge == 0 {
                38
            } else if from_edge == 1 {
                14
            } else if from_edge == 2 {
                0
            } else if from_edge == 3 {
                11
            } else {
                16
            };
            let x: i32 = 36 * (ix as i32);
            let mut iy: usize = 0;
            while iy < 3
                invariant
                    ix < 10,
                    iy <= 3,
                    x == 36 * ix,
                    from_edge == (if ix < 5 { ix as int } else { 9 - ix }),
                    hand == (if ix < 5 { Hand::Left } else { Hand::Right }),
                    finger == Self::ferris_key(3 * ix).1.finger,
                    stagger == Self::ferris_key(3 * ix).0.y,
                    keys@.len() == 3 * ix + iy,
                    forall|i: int|
                        0 <= i < keys@.len() ==> (#[trigger] keys@[i].pos(), keys@[i].finger(), keys@[i].is_base())
                            == Self::ferris_key(i),
                decreases 3 - iy,
            {
                let y: i32 = stagger + 34 * (iy as i32);
                keys.push(Key::new(
                    Position { x, y },
                    HandFinger::new(hand, finger),
                    iy == 1 && ix != 4 && ix != 5,
                ));
                iy += 1;
            }
            ix += 1;
        }
        let mut t: usize = 0;
        while t < 4
            invariant
                t <= 4,
                keys@.len() == 30 + t,
                forall|i: int|
                    0 <= i < keys@.len() ==> (#[trigger] keys@[i].pos(), keys@[i].finger(), keys@[i].is_base())
                        == Self::ferris_key(i),
            decreases 4 - t,
        {
            keys.push(Key::new(
                Position { x: 36 * ((t as i32) + 3), y: 118 },
                HandFinger::new(if t < 2 { Hand::Left } else { Hand::Right }, Finger::Thumb),
                t == 1 || t == 2,
            ));
            t += 1;
        }
        let r = Self::new(keys);
        proof {
            Self::lemma_ferris_well_formed(r);
        }
        r
    }

    /// Slot on which finger `f` rests on the 34-key split board.
    pub open spec fn ferris_home(f: HandFinger) -> int {
        match (f.hand, f.finger) {
            (Hand::Left, Finger::Pinky) => 1,
            (Hand::Left, Finger::Ring) => 4,
            (Hand::Left, Finger::Middle) => 7,
            (Hand::Left, Finger::Index) => 10,
            (Hand::Left, Finger::Thumb) => 31,
            (Hand::Right, Finger::Thumb) => 32,
            (Hand::Right, Finger::Index) => 19,
            (Hand::Right, Finger::Middle) => 22,
            (Hand::Right, Finger::Ring) => 25,
            (Hand::Right, Finger::Pinky) => 28,
        }
    }

    /// On the 34-key split board every finger has exactly one home key.
    pub proof fn lemma_ferris_well_formed(kb: Keyboard)
        requires
            Self::is_ferris_sweep(kb@),
        ensures
            kb.well_formed(),
            forall|f: HandFinger| is_home_key(kb@, Self::ferris_home(f), f),
    {
        assert forall|f: HandFinger| is_home_key(kb@, Self::ferris_home(f), f) by {
            let i = Self::ferris_home(f);
            assert((kb@[i].pos(), kb@[i].finger(), kb@[i].is_base()) == Self::ferris_key(i));
        }
        assert forall|f: HandFinger| #[trigger] has_one_home(kb@, f) by {
            let i = Self::ferris_home(f);
            assert(is_home_key(kb@, i, f));
            assert forall|j: int| is_home_key(kb@, j, f) implies j == i by {
                assert((kb@[j].pos(), kb@[j].finger(), kb@[j].is_base()) == Self::ferris_key(j));
            }
        }
    }
}

} // verus!
