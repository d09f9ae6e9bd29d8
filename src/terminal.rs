//! The size of the terminal that the screen draws on.
use vstd::prelude::*;

verus! {

/// Relies on `term_size::dimensions`: `None` when no standard stream is a
/// terminal, else `Some((width, height))`; on Unix it returns `None` rather
/// than a zero width or height.
#[verifier::external_body]
fn terminal_size() -> (r: Option<(usize, usize)>)
    ensures
        r matches Some(d) ==> d.0 > 0 && d.1 > 0,
{
    term_size::dimensions()
}

/// The size to draw at, given what the terminal reported: 80 by 24 when it
/// reported nothing.
pub fn dimensions_or_default(reported: Option<(usize, usize)>) -> (r: (usize, usize))
    ensures
        r == (match reported {
            Some(d) => d,
            None => (80usize, 24usize),
        }),
{
    match reported {
        Some(d) => d,
        None => (80, 24),
    }
}

/// The terminal's width and height in cells, or 80 by 24 when they cannot
/// be had.
pub fn get_dimensions() -> (r: (usize, usize))
    ensures
        r.0 > 0,
        r.1 > 0,
{
    dimensions_or_default(terminal_size())
}

} // verus!
