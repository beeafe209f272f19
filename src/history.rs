//! The ordered store of finished strokes.
use vstd::prelude::*;
use crate::stroke::{Stroke, StrokeView};

verus! {

/// The views of a sequence of strokes.
pub open spec fn strokes_view(v: Seq<Stroke>) -> Seq<StrokeView> {
    v.map_values(|s: Stroke| s@)
}

/// The history after pushing `s`.
pub open spec fn pushed(h: Seq<StrokeView>, s: StrokeView) -> Seq<StrokeView> {
    h.push(s)
}

/// The history after an undo: the most recent stroke is gone, if any.
pub open spec fn undone(h: Seq<StrokeView>) -> Seq<StrokeView> {
    if h.len() > 0 {
        h.drop_last()
    } else {
        h
    }
}

/// Finished strokes, oldest first.
#[derive(Debug)]
pub struct CanvasHistory {
    pub strokes: Vec<Stroke>,
}

impl View for CanvasHistory {
    type V = Seq<StrokeView>;

    open spec fn view(&self) -> Seq<StrokeView> {
        strokes_view(self.strokes@)
    }
}

impl CanvasHistory {
    /// Every stored stroke has at least one point and a positive width.
    pub open spec fn wf(&self) -> bool {
        forall|i: int|
            0 <= i < self@.len() ==> (#[trigger] self@[i]).points.len() > 0 && self@[i].width > 0
    }

    pub fn new() -> (h: CanvasHistory)
        ensures
            h@ == Seq::<StrokeView>::empty(),
            h.wf(),
    {
        let h = CanvasHistory { strokes: Vec::new() };
        assert(h@ =~= Seq::<StrokeView>::empty());
        h
    }

    /// Appends a finished stroke as the most recent one.
    pub fn push(&mut self, stroke: Stroke)
        requires
            old(self).wf(),
            stroke.points@.len() > 0,
            stroke.width > 0,
        ensures
            final(self)@ == pushed(old(self)@, stroke@),
            final(self).wf(),
    {
        let ghost s = stroke@;
        self.strokes.push(stroke);
        assert(self@ =~= pushed(old(self)@, s));
    }

    /// Removes and returns the most recent stroke; does nothing when empty.
    pub fn undo(&mut self) -> (r: Option<Stroke>)
        requires
            old(self).wf(),
        ensures
            final(self)@ == undone(old(self)@),
            final(self).wf(),
            r is Some <==> old(self)@.len() > 0,
            r is Some ==> r->0@ == old(self)@.last(),
    {
        let r = self.strokes.pop();
        assert(self@ =~= undone(old(self)@));
        r
    }

    /// Removes every stroke.
    pub fn clear(&mut self)
        ensures
            final(self)@ == Seq::<StrokeView>::empty(),
            final(self).wf(),
    {
        self.strokes.clear();
        assert(self@ =~= Seq::<StrokeView>::empty());
    }

    /// The number of finished strokes.
    pub fn len(&self) -> (n: usize)
        ensures
            n == self@.len(),
    {
        self.strokes.len()
    }

    /// The finished strokes, oldest first.
    pub fn strokes(&self) -> (r: &Vec<Stroke>)
        ensures
            strokes_view(r@) == self@,
    {
        &self.strokes
    }
}

/// An undo right after a push gives back the history as it was.
pub proof fn lemma_undo_reverses_push(h: Seq<StrokeView>, s: StrokeView)
    ensures
        undone(pushed(h, s)) == h,
{
    assert(undone(pushed(h, s)) =~= h);
}

} // verus!
