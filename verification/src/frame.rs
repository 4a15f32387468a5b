//! Per-frame fragment collection.
//!
//! A `FragmentSink` owns the frame's z-buffer and the list of fragments
//! emitted so far. Each candidate pixel is submitted with its interpolated
//! depth key and shaded color; exactly the submissions that survive the depth
//! test append a fragment, in submission order. The buffer remains
//! authoritative for occlusion, and emission order is the tie-break
//! downstream, so earlier fragments for a pixel are superseded by later ones.

use vstd::prelude::*;

use crate::color::Rgb;
use crate::depth::DepthBuffer;
use crate::depth::depth_accepts;
use crate::depth::depth_update;

verus! {

/// One output pixel of a rendered frame.
#[derive(Clone, Copy, Debug, PartialEq, Eq, Structural)]
pub struct Fragment {
    pub x: i32,
    pub y: i32,
    pub color: Rgb,
}

/// The frame driver's mutable per-frame state: the z-buffer and the emitted
/// fragments, discarded together once the frame's pixel list is taken.
pub struct FragmentSink {
    depth: DepthBuffer,
    fragments: Vec<Fragment>,
}

impl FragmentSink {
    /// The current z-buffer contents, row-major.
    pub closed spec fn depths(self) -> Seq<u32> {
        self.depth.depths()
    }

    /// The fragments emitted so far, in emission order.
    pub closed spec fn frags(self) -> Seq<Fragment> {
        self.fragments@
    }

    pub closed spec fn width_spec(self) -> int {
        self.depth.width_spec()
    }

    pub closed spec fn height_spec(self) -> int {
        self.depth.height_spec()
    }

    pub open spec fn wf(self) -> bool {
        self.depths().len() == self.width_spec() * self.height_spec()
    }

    pub open spec fn index_at(self, x: int, y: int) -> int {
        y * self.width_spec() + x
    }

    pub open spec fn in_viewport(self, x: int, y: int) -> bool {
        &&& 0 <= x < self.width_spec()
        &&& 0 <= y < self.height_spec()
    }

    /// A fresh frame: no fragments yet, every depth at the farthest key
    /// `far`. Fails exactly when `width * height` overflows `usize`.
    pub fn new(width: usize, height: usize, far: u32) -> (r: Option<FragmentSink>)
        ensures
            r is Some <==> width * height <= usize::MAX,
            r matches Some(s) ==> {
                &&& s.wf()
                &&& s.width_spec() == width
                &&& s.height_spec() == height
                &&& s.frags() =~= Seq::<Fragment>::empty()
                &&& s.depths().len() == width * height
                &&& forall|i: int| 0 <= i < s.depths().len() ==> s.depths()[i] == far
            },
    {
        match DepthBuffer::new(width, height, far) {
            Some(depth) => Some(FragmentSink { depth, fragments: Vec::new() }),
            None => None,
        }
    }

    /// Submits one candidate pixel. Exactly the candidates that survive the
    /// depth test (inside the viewport, strictly nearer than the stored key)
    /// are appended as fragments; the z-buffer is updated at once, so a later
    /// equal-depth candidate for the pixel is rejected.
    pub fn submit(&mut self, x: i32, y: i32, key: u32, color: Rgb) -> (accepted: bool)
        requires
            old(self).wf(),
        ensures
            final(self).wf(),
            final(self).width_spec() == old(self).width_spec(),
            final(self).height_spec() == old(self).height_spec(),
            accepted == (old(self).in_viewport(x as int, y as int) && depth_accepts(
                old(self).depths(),
                old(self).index_at(x as int, y as int),
                key,
            )),
            old(self).in_viewport(x as int, y as int) ==> final(self).depths() == depth_update(
                old(self).depths(),
                old(self).index_at(x as int, y as int),
                key,
            ),
            !old(self).in_viewport(x as int, y as int) ==> final(self).depths() == old(
                self,
            ).depths(),
            accepted ==> final(self).frags() == old(self).frags().push(
                Fragment { x, y, color },
            ),
            !accepted ==> final(self).frags() == old(self).frags(),
    {
        let accepted = self.depth.test_and_set(x, y, key);
        if accepted {
            self.fragments.push(Fragment { x, y, color });
        }
        accepted
    }

    pub fn width(&self) -> (w: usize)
        ensures
            w == self.width_spec(),
    {
        self.depth.width()
    }

    pub fn height(&self) -> (h: usize)
        ensures
            h == self.height_spec(),
    {
        self.depth.height()
    }

    /// Hands out the frame's pixel list, in emission order.
    pub fn into_fragments(self) -> (r: Vec<Fragment>)
        ensures
            r@ == self.frags(),
    {
        self.fragments
    }

    /// The number of fragments emitted so far.
    pub fn fragment_count(&self) -> (n: usize)
        ensures
            n == self.frags().len(),
    {
        self.fragments.len()
    }
}

} // verus!
