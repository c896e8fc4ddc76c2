use vstd::prelude::*;
use crate::shape::Shape;

verus! {

/// A corner of the outline on which shapes are set down. Each corner links to
/// the corner that comes before it; the chain ends at a corner without `prev`.
#[derive(Debug)]
pub struct Corner<C> {
    pub prev: Option<Box<Corner<C>>>,
    pub x: C,
    pub y: C,
}

/// The points of a chain that may be empty, from its first corner onwards.
pub open spec fn chain_of<C>(link: Option<Box<Corner<C>>>) -> Seq<(C, C)>
    decreases link,
{
    match link {
        None => Seq::empty(),
        Some(b) => seq![(b.x, b.y)] + chain_of(b.prev),
    }
}

impl<C> View for Corner<C> {
    type V = Seq<(C, C)>;

    /// The points of the chain that starts at this corner.
    open spec fn view(&self) -> Seq<(C, C)> {
        seq![(self.x, self.y)] + chain_of(self.prev)
    }
}

impl<C: Copy> Corner<C> {
    /// A corner at `(x, y)` with nothing before it.
    pub fn new(x: C, y: C) -> (c: Corner<C>)
        ensures
            c.prev is None,
            c.x == x,
            c.y == y,
            c@ == seq![(x, y)],
    {
        Corner { prev: None, x, y }
    }

    /// Links this corner to `prev`, or to nothing.
    pub fn set_prev_box_opt(&mut self, prev: Option<Box<Corner<C>>>)
        ensures
            final(self).prev == prev,
            final(self).x == old(self).x,
            final(self).y == old(self).y,
            final(self)@ == seq![(old(self).x, old(self).y)] + chain_of(prev),
    {
        self.prev = prev;
    }

    /// Links this corner to the boxed corner `prev`.
    pub fn set_prev_rc(&mut self, prev: Box<Corner<C>>)
        ensures
            final(self).prev == Some(prev),
            final(self).x == old(self).x,
            final(self).y == old(self).y,
            final(self)@ == seq![(old(self).x, old(self).y)] + prev@,
    {
        self.prev = Some(prev);
    }

    /// Links this corner to `prev`.
    pub fn set_prev(&mut self, prev: Corner<C>)
        ensures
            final(self).prev == Some(Box::new(prev)),
            final(self).x == old(self).x,
            final(self).y == old(self).y,
            final(self)@ == seq![(old(self).x, old(self).y)] + prev@,
    {
        self.prev = Some(Box::new(prev));
    }

    /// The points of the chain that starts at this corner, in chain order.
    pub fn points(&self) -> (v: Vec<(C, C)>)
        ensures
            v@ == self@,
    {
        let mut v: Vec<(C, C)> = Vec::new();
        v.push((self.x, self.y));
        let mut link: &Option<Box<Corner<C>>> = &self.prev;
        while link.is_some()
            invariant
                v@ + chain_of(*link) == self@,
            decreases chain_of(*link).len(),
        {
            match link {
                Some(b) => {
                    assert(chain_of(*link) == seq![(b.x, b.y)] + chain_of(b.prev));
                    v.push((b.x, b.y));
                    link = &b.prev;
                },
                None => {},
            }
        }
        v
    }

    /// Walks the chain looking for a corner to drop. The walk keeps no
    /// successor corner while it goes, so no corner is ever relinked: the
    /// chain is left exactly as it was, whatever `shapes` holds.
    pub fn clean_up(&mut self, shapes: &Vec<Shape<C>>)
        ensures
            *final(self) == *old(self),
    {
        let mut link: &Option<Box<Corner<C>>> = &self.prev;
        while link.is_some()
            decreases chain_of(*link).len(),
        {
            match link {
                Some(b) => {
                    assert(chain_of(*link) == seq![(b.x, b.y)] + chain_of(b.prev));
                    link = &b.prev;
                },
                None => {},
            }
        }
    }

    /// Links the given points in front of `prev`, each point to the one
    /// before it, and this corner to the last of them: the chain after this
    /// corner reads the points backwards, then `prev`.
    pub fn attach_points(&mut self, points: &Vec<(C, C)>, prev: Option<Box<Corner<C>>>)
        ensures
            final(self).x == old(self).x,
            final(self).y == old(self).y,
            chain_of(final(self).prev) == points@.reverse() + chain_of(prev),
            final(self)@ == seq![(old(self).x, old(self).y)] + points@.reverse() + chain_of(prev),
    {
        let ghost base = chain_of(prev);
        let mut link = prev;
        let mut i: usize = 0;
        while i < points.len()
            invariant
                i <= points.len(),
                chain_of(link) == points@.take(i as int).reverse() + base,
            decreases points.len() - i,
        {
            let (px, py) = points[i];
            let mut corner = Corner::new(px, py);
            corner.set_prev_box_opt(link);
            link = Some(Box::new(corner));
            assert(points@.take(i + 1).reverse() =~= seq![points@[i as int]] + points@.take(
                i as int,
            ).reverse());
            i += 1;
        }
        assert(points@.take(points.len() as int) =~= points@);
        self.set_prev_box_opt(link);
        assert(self@ =~= seq![(old(self).x, old(self).y)] + points@.reverse() + base);
    }

    /// Replaces the corner that follows the corner at position `k` of the
    /// chain (position 0 is this corner) by the given points, linked as
    /// `attach_points` links them.
    pub fn relink_after(&mut self, k: usize, points: &Vec<(C, C)>)
        requires
            k + 1 < old(self)@.len(),
        ensures
            final(self)@ == old(self)@.take(k + 1) + points@.reverse() + old(self)@.skip(k + 2),
        decreases k,
    {
        let ghost before = self@;
        if k == 0 {
            let next = self.prev.take();
            let after = match next {
                Some(b) => {
                    let c = *b;
                    c.prev
                },
                None => None,
            };
            self.attach_points(points, after);
            assert(self@ =~= before.take(1) + points@.reverse() + before.skip(2));
        } else {
            match self.prev.take() {
                Some(mut b) => {
                    b.relink_after(k - 1, points);
                    self.prev = Some(b);
                    assert(self@ =~= before.take(k + 1) + points@.reverse() + before.skip(
                        k + 2,
                    ));
                },
                None => {},
            }
        }
    }

    /// A copy of the whole chain that starts at this corner.
    pub fn duplicate(&self) -> (c: Corner<C>)
        ensures
            c == *self,
        decreases self,
    {
        let prev = match &self.prev {
            None => None,
            Some(b) => Some(Box::new(b.duplicate())),
        };
        Corner { prev, x: self.x, y: self.y }
    }

    /// A copy of the chain that comes before this corner.
    pub fn prev(&mut self) -> (p: Option<Box<Corner<C>>>)
        ensures
            p == old(self).prev,
            *final(self) == *old(self),
    {
        match &self.prev {
            None => None,
            Some(b) => Some(Box::new(b.duplicate())),
        }
    }
}

/// The corners that close a gap no shape fits into, in the order they are
/// linked (each to the one before): none when the gap is both too narrow
/// and too flat, the diagonal corner alone when it is one of the two, and
/// otherwise the corner above, the diagonal one and the one to the right.
pub fn gap_corners<C: Copy>(narrow: bool, flat: bool, up: (C, C), diagonal: (C, C), right: (C, C)) -> (pts: Vec<(C, C)>)
    ensures
        pts@ == (if narrow && flat {
            Seq::empty()
        } else if narrow || flat {
            seq![diagonal]
        } else {
            seq![up, diagonal, right]
        }),
{
    let mut pts: Vec<(C, C)> = Vec::new();
    if narrow && flat {
    } else if narrow || flat {
        pts.push(diagonal);
    } else {
        pts.push(up);
        pts.push(diagonal);
        pts.push(right);
    }
    assert(pts@ =~= (if narrow && flat {
        Seq::empty()
    } else if narrow || flat {
        seq![diagonal]
    } else {
        seq![up, diagonal, right]
    }));
    pts
}

impl<C: Copy> Clone for Corner<C> {
    fn clone(&self) -> (c: Self)
        ensures
            c == *self,
    {
        self.duplicate()
    }
}

} // verus!
