//! Four-character codes: box types, brands and item types.

use vstd::prelude::*;

verus! {

/// The bytes of the four-character code `a b c d`.
pub open spec fn fourcc(a: char, b: char, c: char, d: char) -> Seq<u8> {
    seq![a as u8, b as u8, c as u8, d as u8]
}

/// Whether `code` is the four-character code `a b c d`.
pub fn is_fourcc(code: &[u8], a: char, b: char, c: char, d: char) -> (yes: bool)
    ensures
        yes == (code@ == fourcc(a, b, c, d)),
{
    let yes = code.len() == 4 && code[0] == a as u8 && code[1] == b as u8 && code[2] == c as u8
        && code[3] == d as u8;
    proof {
        if yes {
            assert(code@ =~= fourcc(a, b, c, d));
        }
    }
    yes
}

} // verus!
