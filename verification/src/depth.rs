//! The per-frame z-buffer.
//!
//! Depths are kept as `u32` keys under an order-preserving encoding chosen by
//! the caller (smaller key means nearer to the camera; the presentation layer
//! uses the bit pattern of a positive IEEE 754 single, whose unsigned order
//! agrees with the numeric order). The buffer starts every pixel at a
//! caller-supplied farthest key and only ever moves a pixel strictly nearer:
//! a submission is accepted exactly when its key is strictly smaller than the
//! stored one, so the first writer at equal depth is never overwritten.

use vstd::prelude::*;

verus! {

/// Whether a submission with key `key` for pixel index `idx` survives the
/// depth test against the buffer contents `s`.
pub open spec fn depth_accepts(s: Seq<u32>, idx: int, key: u32) -> bool {
    &&& 0 <= idx < s.len()
    &&& key < s[idx]
}

/// The buffer contents after one submission: the stored key at `idx` is
/// replaced exactly when the new key is strictly nearer.
pub open spec fn depth_update(s: Seq<u32>, idx: int, key: u32) -> Seq<u32> {
    if depth_accepts(s, idx, key) {
        s.update(idx, key)
    } else {
        s
    }
}

/// A freshly allocated z-buffer, one depth key per screen pixel, row-major.
pub struct DepthBuffer {
    width: usize,
    height: usize,
    data: Vec<u32>,
}

impl DepthBuffer {
    /// The stored depth keys, row-major.
    pub closed spec fn depths(self) -> Seq<u32> {
        self.data@
    }

    pub closed spec fn width_spec(self) -> int {
        self.width as int
    }

    pub closed spec fn height_spec(self) -> int {
        self.height as int
    }

    /// Well-formed: exactly one key per pixel of the viewport.
    pub open spec fn wf(self) -> bool {
        self.depths().len() == self.width_spec() * self.height_spec()
    }

    /// The row-major index of the pixel `(x, y)`.
    pub open spec fn index_at(self, x: int, y: int) -> int {
        y * self.width_spec() + x
    }

    pub open spec fn in_viewport(self, x: int, y: int) -> bool {
        &&& 0 <= x < self.width_spec()
        &&& 0 <= y < self.height_spec()
    }

    /// Allocates a fresh buffer with every pixel at the farthest key `far`
    /// (the encoding of positive infinity). Fails exactly when the pixel
    /// count `width * height` does not fit in `usize`.
    pub fn new(width: usize, height: usize, far: u32) -> (r: Option<DepthBuffer>)
        ensures
            r is Some <==> width * height <= usize::MAX,
            r matches Some(b) ==> {
                &&& b.wf()
                &&& b.width_spec() == width
                &&& b.height_spec() == height
                &&& b.depths().len() == width * height
                &&& forall|i: int| 0 <= i < b.depths().len() ==> b.depths()[i] == far
            },
    {
        match width.checked_mul(height) {
            Some(n) => {
                let mut data: Vec<u32> = Vec::new();
                let mut i: usize = 0;
                while i < n
                    invariant
                        i <= n,
                        data@.len() == i,
                        forall|j: int| 0 <= j < i ==> data@[j] == far,
                    decreases n - i,
                {
                    data.push(far);
                    i = i + 1;
                }
                Some(DepthBuffer { width, height, data })
            },
            None => None,
        }
    }

    pub fn width(&self) -> (w: usize)
        ensures
            w == self.width_spec(),
    {
        self.width
    }

    pub fn height(&self) -> (h: usize)
        ensures
            h == self.height_spec(),
    {
        self.height
    }

    /// The stored key at `(x, y)`, or nothing outside the viewport.
    pub fn depth_at(&self, x: i32, y: i32) -> (r: Option<u32>)
        requires
            self.wf(),
        ensures
            r is Some <==> self.in_viewport(x as int, y as int),
            r matches Some(d) ==> d == self.depths()[self.index_at(x as int, y as int)],
    {
        if x < 0 || y < 0 {
            return None;
        }
        let xu = x as usize;
        let yu = y as usize;
        if xu >= self.width || yu >= self.height {
            return None;
        }
        let w = self.width;
        let h = self.height;
        let n = self.data.len();
        assert(yu * w + xu < n) by (nonlinear_arith)
            requires
                yu < h,
                xu < w,
                n == w * h,
        ;
        let idx = yu * w + xu;
        Some(self.data[idx])
    }

    /// The depth test with immediate update: accepts the submission exactly
    /// when `(x, y)` lies in the viewport and `key` is strictly nearer than
    /// the stored key, in which case the stored key becomes `key`. A stored
    /// depth never increases.
    pub fn test_and_set(&mut self, x: i32, y: i32, key: u32) -> (accepted: bool)
        requires
            old(self).wf(),
        ensures
            final(self).wf(),
            final(self).width_spec() == old(self).width_spec(),
            final(self).height_spec() == old(self).height_spec(),
            accepted == (old(self).in_viewport(x as int, y as int) && depth_accepts(
                old(self).depths(),
                old(self).index_at(x as int, y as int),
                key,
            )),
            old(self).in_viewport(x as int, y as int) ==> final(self).depths() == depth_update(
                old(self).depths(),
                old(self).index_at(x as int, y as int),
                key,
            ),
            !old(self).in_viewport(x as int, y as int) ==> final(self).depths() == old(
                self,
            ).depths(),
            forall|i: int|
                0 <= i < old(self).depths().len() ==> #[trigger] final(self).depths()[i] <= old(
                    self,
                ).depths()[i],
    {
        if x < 0 || y < 0 {
            return false;
        }
        let xu = x as usize;
        let yu = y as usize;
        if xu >= self.width || yu >= self.height {
            return false;
        }
        let w = self.width;
        let h = self.height;
        let n = self.data.len();
        assert(yu * w + xu < n) by (nonlinear_arith)
            requires
                yu < h,
                xu < w,
                n == w * h,
        ;
        let idx = yu * w + xu;
        if key < self.data[idx] {
            self.data.set(idx, key);
            true
        } else {
            false
        }
    }
}

/// Nearest wins, whatever the submission order: submitting a nearer and a
/// farther key for one pixel leaves the same buffer either way; the nearer
/// submission survives the depth test in both orders whenever it survives
/// against the initial contents, and the farther one never overwrites it.
pub proof fn lemma_depth_order_invariant(s: Seq<u32>, idx: int, near: u32, far: u32)
    requires
        0 <= idx < s.len(),
        near < far,
    ensures
        depth_update(depth_update(s, idx, near), idx, far) =~= depth_update(
            depth_update(s, idx, far),
            idx,
            near,
        ),
        depth_accepts(s, idx, near) ==> depth_accepts(depth_update(s, idx, far), idx, near),
        depth_accepts(s, idx, near) ==> depth_update(depth_update(s, idx, far), idx, near)[idx]
            == near,
        !depth_accepts(depth_update(s, idx, near), idx, far),
{
}

/// A stored depth only ever decreases: one submission never moves any pixel
/// of the buffer farther away.
pub proof fn lemma_depth_monotone(s: Seq<u32>, idx: int, key: u32)
    ensures
        depth_update(s, idx, key).len() == s.len(),
        forall|i: int| 0 <= i < s.len() ==> #[trigger] depth_update(s, idx, key)[i] <= s[i],
{
}

} // verus!
