//! How far ahead a walk up one author's stream asks at a time.
//!
//! A walk starts by asking for one height, and doubles what it asks for after
//! every answered request, up to [`WINDOW`] heights at once: a stream that
//! ends soon wastes little, and a long one is read with requests that overlap.
//! Fetching, opening and checking what comes back are the program's; the
//! rule for where the next request starts and how wide it is, is here.

use vstd::prelude::*;

verus! {

/// The most heights one walk asks for at once: a constant number of drops held
/// at once, whatever the height of the stream.
pub const WINDOW: usize = 8;

/// How wide the request after one of `width` heights is: twice as wide, but
/// never wider than [`WINDOW`].
pub open spec fn wider(width: usize) -> usize {
    if 2 * width > WINDOW {
        WINDOW
    } else {
        (2 * width) as usize
    }
}

/// Where the request after the one for `width` heights from `index` starts, and
/// how wide it is; [`None`] when the heights it would start at are past what a
/// `u64` counts, which ends the walk rather than failing it.
pub fn next_window(index: u64, width: usize) -> (next: Option<(u64, usize)>)
    ensures
        index + width > u64::MAX ==> next is None,
        index + width <= u64::MAX ==> next == Some(((index + width) as u64, wider(width))),
        next matches Some((start, then)) ==> start == index + width && then <= 8 && (width >= 1 ==> 1 <= then) && (width <= 4 ==> then
            == 2 * width) && (width >= 4 ==> then == 8) && (width == 0 ==> then == 0),
{
    let start = match index.checked_add(width as u64) {
        Some(start) => start,
        None => return None,
    };
    let doubled = match width.checked_mul(2) {
        Some(doubled) => doubled,
        None => usize::MAX,
    };
    let width = if doubled > WINDOW {
        WINDOW
    } else {
        doubled
    };
    Some((start, width))
}

/// A walk that starts by asking for one height never asks for none and never
/// for more than [`WINDOW`], and each request is at least as wide as the one
/// before it.
pub proof fn lemma_window_stays_bounded(width: usize)
    requires
        1 <= width <= WINDOW,
    ensures
        1 <= wider(width) <= WINDOW,
        width <= wider(width),
        width == WINDOW ==> wider(width) == WINDOW,
        WINDOW == 8,
        wider(1) == 2 && wider(2) == 4 && wider(4) == 8 && wider(8) == 8,
        width < 8 ==> width < wider(width),
{
}

} // verus!
