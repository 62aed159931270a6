//! The frames of the braille spinner shown while work runs.

use vstd::prelude::*;

verus! {

/// The ten braille spinner frames, in order.
pub open spec fn frames() -> Seq<Seq<char>> {
    seq!["⠋"@, "⠙"@, "⠹"@, "⠸"@, "⠼"@, "⠴"@, "⠦"@, "⠧"@, "⠇"@, "⠏"@]
}

/// The spinner glyph for animation step `tick`: the frames repeat.
pub fn frame(tick: usize) -> (r: &'static str)
    ensures
        r@ == frames()[(tick % 10) as int],
{
    let i = tick % 10;
    if i == 0 {
        "⠋"
    } else if i == 1 {
        "⠙"
    } else if i == 2 {
        "⠹"
    } else if i == 3 {
        "⠸"
    } else if i == 4 {
        "⠼"
    } else if i == 5 {
        "⠴"
    } else if i == 6 {
        "⠦"
    } else if i == 7 {
        "⠧"
    } else if i == 8 {
        "⠇"
    } else {
        "⠏"
    }
}

} // verus!
