//! Padding between panes that stand side by side.

use vstd::prelude::*;

verus! {

/// Keeps one column free to the right of a view that needs no scrolling, so
/// that the texts of two neighbours do not touch. A view that scrolls gets no
/// padding: its scrollbar parts it from its neighbour.
pub struct ScrollPad<V> {
    pub inner: V,
}

/// The size to ask for, as width and height, for a view that itself asks for
/// `needed` where `offered` is to be had: one column more where the view fits
/// in the height.
pub open spec fn padded(needed: (usize, usize), offered: (usize, usize)) -> (int, int) {
    if needed.1 <= offered.1 {
        (needed.0 + 1, needed.1 as int)
    } else {
        (needed.0 as int, needed.1 as int)
    }
}

impl<V> ScrollPad<V> {
    /// The padding around a view.
    pub fn new(inner: V) -> (r: Self)
        ensures
            r.inner == inner,
    {
        Self { inner }
    }

    /// The size to ask for where the wrapped view asks for `needed` and
    /// `offered` is to be had.
    pub fn wrap_required_size(&self, needed: (usize, usize), offered: (usize, usize)) -> (r: (
        usize,
        usize,
    ))
        requires
            needed.0 < usize::MAX,
        ensures
            (r.0 as int, r.1 as int) == padded(needed, offered),
    {
        if needed.1 <= offered.1 {
            (needed.0 + 1, needed.1)
        } else {
            needed
        }
    }
}

} // verus!
