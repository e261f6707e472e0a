use vstd::prelude::*;

verus! {

/// Startup configuration: the board's dimensions, and whether a graphical
/// front end was requested instead of the character display.
#[derive(Clone, Copy, Debug, Default)]
pub struct Args {
    pub gui: bool,
    pub row: usize,
    pub col: usize,
}

} // verus!
