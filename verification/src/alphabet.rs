//! The fixed set of characters every layout has to be able to produce.

use vstd::prelude::*;

verus! {

/// Number of characters in the alphabet.
pub const ALPHABET_LEN: usize = 97;

/// The required characters, in the order in which they are resolved.
pub const ALPHABET: [u8; 97] = [
    97, 98, 99, 100, 101, 102, 103, 104, 105, 106, 107, 108, 109,
    110, 111, 112, 113, 114, 115, 116, 117, 118, 119, 120, 121, 122,
    65, 66, 67, 68, 69, 70, 71, 72, 73, 74, 75, 76, 77,
    78, 79, 80, 81, 82, 83, 84, 85, 86, 87, 88, 89, 90,
    48, 49, 50, 51, 52, 53, 54, 55, 56, 57,
    32, 9, 10, 92, 34, 60, 62, 40, 41, 123, 125, 91, 93, 58, 33, 59, 46, 44,
    47, 63, 61, 43, 38, 42, 94, 37, 64, 35, 95, 124, 39, 96, 36, 45, 126,
];

/// Membership in the alphabet: the printable ASCII characters, tab and line feed.
pub open spec fn in_alphabet_spec(x: u8) -> bool {
    (0x20 <= x <= 0x7e) || x == 9 || x == 10
}

/// Every entry of [`ALPHABET`] is a member, and every member has an entry.
pub proof fn lemma_alphabet_members()
    ensures
        forall|i: int| 0 <= i < 97 ==> in_alphabet_spec(#[trigger] ALPHABET@[i]),
        forall|x: u8| in_alphabet_spec(x) ==> exists|i: int| 0 <= i < 97 && #[trigger] ALPHABET@[i] == x,
{
}

#[verifier::when_used_as_spec(in_alphabet_spec)]
pub fn in_alphabet(x: u8) -> (r: bool)
    ensures
        r == in_alphabet_spec(x),
{
    (0x20 <= x && x <= 0x7e) || x == 9 || x == 10
}

} // verus!
