use vstd::prelude::*;

verus! {

/// A polygon given by its points relative to an anchor, and the position of
/// that anchor once the shape has been placed.
#[derive(Clone, Debug)]
pub struct Shape<C> {
    pub x: Option<C>,
    pub y: Option<C>,
    pub is_placed: bool,
    pub points: Vec<(C, C)>,
}

impl<C> Shape<C> {
    /// This shape with its anchor and placed flag set as given, its points kept.
    pub open spec fn anchored(self, x: Option<C>, y: Option<C>, is_placed: bool) -> Shape<C> {
        Shape { x, y, is_placed, points: self.points }
    }

    /// The shape has no anchor and is not placed.
    pub open spec fn is_unplaced(self) -> bool {
        self.x is None && self.y is None && !self.is_placed
    }
}

impl<C: Copy> Shape<C> {
    /// A shape that has not been placed yet.
    pub fn new(points: Vec<(C, C)>) -> (s: Shape<C>)
        ensures
            s.is_unplaced(),
            s.points == points,
    {
        Shape { x: None, y: None, is_placed: false, points }
    }

    /// Takes the shape off the strip again.
    pub fn remove(&mut self)
        ensures
            *final(self) == old(self).anchored(None, None, false),
            final(self).is_unplaced(),
    {
        self.x = None;
        self.y = None;
        self.is_placed = false;
    }

    /// Puts the shape's anchor at `(x, y)`.
    pub fn place(&mut self, x: C, y: C)
        ensures
            *final(self) == old(self).anchored(Some(x), Some(y), true),
    {
        self.x = Some(x);
        self.y = Some(y);
        self.is_placed = true;
    }
}

/// Taking a shape off the strip undoes placing it: an unplaced shape that is
/// placed anywhere and then removed is the shape it was.
pub proof fn lemma_remove_undoes_place<C>(s: Shape<C>, x: C, y: C)
    requires
        s.is_unplaced(),
    ensures
        s.anchored(Some(x), Some(y), true).anchored(None, None, false) == s,
{
}

} // verus!
