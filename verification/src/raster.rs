//! Triangle scan conversion over integer screen coordinates.
//!
//! A projected triangle is given by three screen points. A pixel is covered
//! when the three edge functions (signed areas against each directed edge)
//! all share one sign, which makes the test independent of winding order.
//! `triangle_coverage` enumerates the covered pixels of the viewport-clipped
//! bounding box in row-major order, together with the exact edge values that
//! the caller needs to form barycentric weights.

use vstd::prelude::*;

verus! {

/// A projected vertex, truncated to integer screen coordinates.
#[derive(Clone, Copy, Debug, PartialEq, Eq, Structural)]
pub struct ScreenPt {
    pub x: i32,
    pub y: i32,
}

/// The edge function: twice the signed area of the triangle `(a, b, (x, y))`.
/// Positive on one side of the directed edge `a -> b`, negative on the other,
/// zero on the edge's carrier line.
pub open spec fn edge_at(a: ScreenPt, b: ScreenPt, x: int, y: int) -> int {
    (x - a.x) * (b.y - a.y) - (y - a.y) * (b.x - a.x)
}

/// Twice the signed area of the whole triangle; zero exactly for degenerate
/// (colinear) triangles.
pub open spec fn area_of(p0: ScreenPt, p1: ScreenPt, p2: ScreenPt) -> int {
    edge_at(p0, p1, p2.x as int, p2.y as int)
}

/// The winding-agnostic coverage test: the pixel `(x, y)` is covered when the
/// three edge values share one sign (all at least zero, or all at most zero).
pub open spec fn covered_at(p0: ScreenPt, p1: ScreenPt, p2: ScreenPt, x: int, y: int) -> bool {
    let w0 = edge_at(p1, p2, x, y);
    let w1 = edge_at(p2, p0, x, y);
    let w2 = edge_at(p0, p1, x, y);
    (w0 >= 0 && w1 >= 0 && w2 >= 0) || (w0 <= 0 && w1 <= 0 && w2 <= 0)
}

/// Computes one edge value exactly. Coordinate differences stay below `2^32`
/// and their products below `2^64`, so `i128` arithmetic is exact.
pub fn edge(a: ScreenPt, b: ScreenPt, p: ScreenPt) -> (w: i128)
    ensures
        w == edge_at(a, b, p.x as int, p.y as int),
{
    let dpx: i128 = p.x as i128 - a.x as i128;
    let dpy: i128 = p.y as i128 - a.y as i128;
    let dbx: i128 = b.x as i128 - a.x as i128;
    let dby: i128 = b.y as i128 - a.y as i128;
    assert(dpx * dby < 0x1_0000_0000_0000_0000 && dpx * dby > -0x1_0000_0000_0000_0000)
        by (nonlinear_arith)
        requires
            -0x1_0000_0000 < dpx < 0x1_0000_0000,
            -0x1_0000_0000 < dby < 0x1_0000_0000,
    ;
    assert(dpy * dbx < 0x1_0000_0000_0000_0000 && dpy * dbx > -0x1_0000_0000_0000_0000)
        by (nonlinear_arith)
        requires
            -0x1_0000_0000 < dpy < 0x1_0000_0000,
            -0x1_0000_0000 < dbx < 0x1_0000_0000,
    ;
    dpx * dby - dpy * dbx
}

/// Twice the signed area of the projected triangle, computed exactly.
pub fn signed_area(p0: ScreenPt, p1: ScreenPt, p2: ScreenPt) -> (area: i128)
    ensures
        area == area_of(p0, p1, p2),
{
    edge(p0, p1, p2)
}

/// One covered pixel, carrying the exact edge values so that the caller can
/// normalize them by the triangle area into barycentric weights.
#[derive(Clone, Copy, Debug, PartialEq, Eq, Structural)]
pub struct CoveredPixel {
    pub x: i32,
    pub y: i32,
    pub w0: i128,
    pub w1: i128,
    pub w2: i128,
}

/// The least of three coordinates.
pub open spec fn lo3(a: int, b: int, c: int) -> int {
    if a <= b && a <= c {
        a
    } else if b <= c {
        b
    } else {
        c
    }
}

/// The greatest of three coordinates.
pub open spec fn hi3(a: int, b: int, c: int) -> int {
    if a >= b && a >= c {
        a
    } else if b >= c {
        b
    } else {
        c
    }
}

/// Lower edge of the bounding box, clipped to the viewport.
pub open spec fn clip_lo(a: int, b: int, c: int) -> int {
    if lo3(a, b, c) < 0 {
        0
    } else {
        lo3(a, b, c)
    }
}

/// Upper edge of the bounding box, clipped to the viewport of size `limit`.
pub open spec fn clip_hi(a: int, b: int, c: int, limit: int) -> int {
    if hi3(a, b, c) > limit - 1 {
        limit - 1
    } else {
        hi3(a, b, c)
    }
}

/// Whether `(x, y)` lies in the triangle's bounding box clipped to a
/// `width` by `height` viewport.
pub open spec fn in_clip(
    p0: ScreenPt,
    p1: ScreenPt,
    p2: ScreenPt,
    width: int,
    height: int,
    x: int,
    y: int,
) -> bool {
    &&& clip_lo(p0.x as int, p1.x as int, p2.x as int) <= x
    &&& x <= clip_hi(p0.x as int, p1.x as int, p2.x as int, width)
    &&& clip_lo(p0.y as int, p1.y as int, p2.y as int) <= y
    &&& y <= clip_hi(p0.y as int, p1.y as int, p2.y as int, height)
}

/// A well-formed entry of a coverage list: a covered pixel of the clipped
/// bounding box, with the exact edge values of the three directed edges.
pub open spec fn frag_ok(
    p0: ScreenPt,
    p1: ScreenPt,
    p2: ScreenPt,
    width: int,
    height: int,
    f: CoveredPixel,
) -> bool {
    &&& in_clip(p0, p1, p2, width, height, f.x as int, f.y as int)
    &&& covered_at(p0, p1, p2, f.x as int, f.y as int)
    &&& f.w0 == edge_at(p1, p2, f.x as int, f.y as int)
    &&& f.w1 == edge_at(p2, p0, f.x as int, f.y as int)
    &&& f.w2 == edge_at(p0, p1, f.x as int, f.y as int)
}

/// Whether the coverage list holds an entry for the pixel `(x, y)`.
pub open spec fn has_pixel(s: Seq<CoveredPixel>, x: int, y: int) -> bool {
    exists|i: int| 0 <= i < s.len() && s[i].x == x && s[i].y == y
}

/// Screen order of two covered pixels: by row from the top, then by column
/// from the left.
pub open spec fn pos_lt(f: CoveredPixel, g: CoveredPixel) -> bool {
    f.y < g.y || (f.y == g.y && f.x < g.x)
}

/// Row-major emission order: rows from top to bottom, pixels left to right.
/// In particular no pixel appears twice.
pub open spec fn row_major(s: Seq<CoveredPixel>) -> bool {
    forall|i: int, j: int| 0 <= i < j < s.len() ==> pos_lt(#[trigger] s[i], #[trigger] s[j])
}

/// Whether the three projected points lie on one line.
pub open spec fn colinear(p0: ScreenPt, p1: ScreenPt, p2: ScreenPt) -> bool {
    (p1.x - p0.x) * (p2.y - p0.y) == (p1.y - p0.y) * (p2.x - p0.x)
}

proof fn lemma_edge_antisym(a: ScreenPt, b: ScreenPt, x: int, y: int)
    ensures
        edge_at(a, b, x, y) == -edge_at(b, a, x, y),
{
    assert((x - a.x) * (b.y - a.y) - (y - a.y) * (b.x - a.x) == -((x - b.x) * (a.y - b.y) - (y
        - b.y) * (a.x - b.x))) by (nonlinear_arith);
}

/// The coverage test is winding-order-agnostic: swapping two vertices of the
/// triangle leaves every pixel's coverage unchanged, and the clipped bounding
/// box is the same, so both windings rasterize to the identical set of
/// covered pixels.
pub proof fn lemma_winding_invariance(
    p0: ScreenPt,
    p1: ScreenPt,
    p2: ScreenPt,
    width: int,
    height: int,
    x: int,
    y: int,
)
    ensures
        covered_at(p0, p1, p2, x, y) == covered_at(p0, p2, p1, x, y),
        in_clip(p0, p1, p2, width, height, x, y) == in_clip(p0, p2, p1, width, height, x, y),
{
    lemma_edge_antisym(p1, p2, x, y);
    lemma_edge_antisym(p0, p1, x, y);
    lemma_edge_antisym(p2, p0, x, y);
}

/// Row-major emission implies that no pixel appears twice in a coverage
/// list: two distinct entries differ in position.
pub proof fn lemma_row_major_unique(s: Seq<CoveredPixel>, i: int, j: int)
    requires
        row_major(s),
        0 <= i < s.len(),
        0 <= j < s.len(),
        i != j,
    ensures
        s[i].x != s[j].x || s[i].y != s[j].y,
{
}

/// The three edge values of any pixel sum to the triangle's signed area;
/// normalizing them by the area therefore yields barycentric weights that
/// sum to one.
pub proof fn lemma_edges_sum_to_area(p0: ScreenPt, p1: ScreenPt, p2: ScreenPt, x: int, y: int)
    ensures
        edge_at(p1, p2, x, y) + edge_at(p2, p0, x, y) + edge_at(p0, p1, x, y) == area_of(
            p0,
            p1,
            p2,
        ),
{
    lemma_edge_sum_raw(x, y, p0.x as int, p0.y as int, p1.x as int, p1.y as int, p2.x as int, p2.y as int);
}

proof fn lemma_mul_expand(u: int, v: int, s: int, t: int)
    ensures
        (u - v) * (s - t) == u * s - u * t - v * s + v * t,
{
    assert((u - v) * (s - t) == u * s - u * t - v * s + v * t) by (nonlinear_arith);
}

proof fn lemma_mul_expand_swapped(u: int, v: int, s: int, t: int)
    ensures
        (u - v) * (s - t) == s * u - t * u - s * v + t * v,
{
    assert((u - v) * (s - t) == s * u - t * u - s * v + t * v) by (nonlinear_arith);
}

proof fn lemma_edge_sum_raw(
    x: int,
    y: int,
    x0: int,
    y0: int,
    x1: int,
    y1: int,
    x2: int,
    y2: int,
)
    ensures
        ((x - x1) * (y2 - y1) - (y - y1) * (x2 - x1)) + ((x - x2) * (y0 - y2) - (y - y2) * (x0
            - x2)) + ((x - x0) * (y1 - y0) - (y - y0) * (x1 - x0)) == (x2 - x0) * (y1 - y0) - (y2
            - y0) * (x1 - x0),
{
    // expand every product into monomials with the column coordinate first,
    // so that equal monomials cancel linearly
    lemma_mul_expand(x, x1, y2, y1);
    lemma_mul_expand_swapped(y, y1, x2, x1);
    lemma_mul_expand(x, x2, y0, y2);
    lemma_mul_expand_swapped(y, y2, x0, x2);
    lemma_mul_expand(x, x0, y1, y0);
    lemma_mul_expand_swapped(y, y0, x1, x0);
    lemma_mul_expand(x2, x0, y1, y0);
    lemma_mul_expand_swapped(y2, y0, x1, x0);
}

/// Swapping two vertices negates the signed area; in particular a triangle
/// is degenerate in one winding exactly when it is in the other.
pub proof fn lemma_area_swap(p0: ScreenPt, p1: ScreenPt, p2: ScreenPt)
    ensures
        area_of(p0, p2, p1) == -area_of(p0, p1, p2),
{
    assert((p1.x - p0.x) * (p2.y - p0.y) - (p1.y - p0.y) * (p2.x - p0.x) == -((p2.x - p0.x) * (p1.y
        - p0.y) - (p2.y - p0.y) * (p1.x - p0.x))) by (nonlinear_arith);
}

/// A triangle and its reverse winding rasterize to the identical pixel list:
/// coverage lists that meet `triangle_coverage`'s contract for `(p0, p1, p2)`
/// and for `(p0, p2, p1)` agree pixel for pixel.
pub proof fn lemma_winding_coverage_equal(
    p0: ScreenPt,
    p1: ScreenPt,
    p2: ScreenPt,
    width: int,
    height: int,
    ca: Seq<CoveredPixel>,
    cb: Seq<CoveredPixel>,
)
    requires
        forall|i: int| 0 <= i < ca.len() ==> frag_ok(p0, p1, p2, width, height, #[trigger] ca[i]),
        forall|x: int, y: int|
            #[trigger] in_clip(p0, p1, p2, width, height, x, y) && covered_at(p0, p1, p2, x, y)
                ==> has_pixel(ca, x, y),
        row_major(ca),
        forall|i: int| 0 <= i < cb.len() ==> frag_ok(p0, p2, p1, width, height, #[trigger] cb[i]),
        forall|x: int, y: int|
            #[trigger] in_clip(p0, p2, p1, width, height, x, y) && covered_at(p0, p2, p1, x, y)
                ==> has_pixel(cb, x, y),
        row_major(cb),
    ensures
        ca.len() == cb.len(),
        forall|i: int| 0 <= i < ca.len() ==> (#[trigger] ca[i]).x == cb[i].x && ca[i].y == cb[i].y,
{
    assert forall|x: int, y: int|
        #![trigger has_pixel(ca, x, y)]
        #![trigger has_pixel(cb, x, y)]
        has_pixel(ca, x, y) == has_pixel(cb, x, y) by {
        lemma_winding_invariance(p0, p1, p2, width, height, x, y);
        if has_pixel(ca, x, y) {
            let i = choose|i: int| 0 <= i < ca.len() && ca[i].x == x && ca[i].y == y;
            assert(frag_ok(p0, p1, p2, width, height, ca[i]));
            assert(in_clip(p0, p2, p1, width, height, x, y) && covered_at(p0, p2, p1, x, y));
        }
        if has_pixel(cb, x, y) {
            let i = choose|i: int| 0 <= i < cb.len() && cb[i].x == x && cb[i].y == y;
            assert(frag_ok(p0, p2, p1, width, height, cb[i]));
            assert(in_clip(p0, p1, p2, width, height, x, y) && covered_at(p0, p1, p2, x, y));
        }
    }
    lemma_row_major_same_members_equal(ca, cb);
}

/// Three projected points are colinear exactly when the triangle's signed
/// area vanishes; together with the coverage contract, a degenerate triangle
/// therefore produces no fragments.
pub proof fn lemma_degenerate_area(p0: ScreenPt, p1: ScreenPt, p2: ScreenPt)
    ensures
        colinear(p0, p1, p2) <==> area_of(p0, p1, p2) == 0,
{
    assert(((p2.x - p0.x) * (p1.y - p0.y) - (p2.y - p0.y) * (p1.x - p0.x) == 0) <==> ((p1.x - p0.x)
        * (p2.y - p0.y) == (p1.y - p0.y) * (p2.x - p0.x))) by (nonlinear_arith);
}

proof fn lemma_row_major_tail(s: Seq<CoveredPixel>)
    requires
        row_major(s),
        s.len() > 0,
    ensures
        row_major(s.subrange(1, s.len() as int)),
{
    let t = s.subrange(1, s.len() as int);
    assert forall|i: int, j: int| 0 <= i < j < t.len() implies pos_lt(
        #[trigger] t[i],
        #[trigger] t[j],
    ) by {
        assert(t[i] == s[i + 1]);
        assert(t[j] == s[j + 1]);
    }
}

proof fn lemma_has_pixel_tail(s: Seq<CoveredPixel>, x: int, y: int)
    requires
        row_major(s),
        s.len() > 0,
    ensures
        has_pixel(s.subrange(1, s.len() as int), x, y) <==> (has_pixel(s, x, y) && !(s[0].x == x
            && s[0].y == y)),
{
    let t = s.subrange(1, s.len() as int);
    if has_pixel(t, x, y) {
        let i = choose|i: int| 0 <= i < t.len() && t[i].x == x && t[i].y == y;
        assert(t[i] == s[i + 1]);
        assert(has_pixel(s, x, y));
        assert(pos_lt(s[0], s[i + 1]));
    }
    if has_pixel(s, x, y) && !(s[0].x == x && s[0].y == y) {
        let i = choose|i: int| 0 <= i < s.len() && s[i].x == x && s[i].y == y;
        assert(t[i - 1] == s[i]);
        assert(has_pixel(t, x, y));
    }
}

/// Two row-major coverage lists that hold the same pixels are equal pixel
/// for pixel: the emission order is determined by the covered set alone.
pub proof fn lemma_row_major_same_members_equal(ca: Seq<CoveredPixel>, cb: Seq<CoveredPixel>)
    requires
        row_major(ca),
        row_major(cb),
        forall|x: int, y: int|
            #![trigger has_pixel(ca, x, y)]
            #![trigger has_pixel(cb, x, y)]
            has_pixel(ca, x, y) == has_pixel(cb, x, y),
    ensures
        ca.len() == cb.len(),
        forall|i: int| 0 <= i < ca.len() ==> (#[trigger] ca[i]).x == cb[i].x && ca[i].y == cb[i].y,
    decreases ca.len(),
{
    if ca.len() == 0 {
        if cb.len() > 0 {
            assert(has_pixel(cb, cb[0].x as int, cb[0].y as int));
            assert(has_pixel(ca, cb[0].x as int, cb[0].y as int));
            let i = choose|i: int|
                0 <= i < ca.len() && ca[i].x == cb[0].x as int && ca[i].y == cb[0].y as int;
            assert(false);
        }
    } else {
        if cb.len() == 0 {
            assert(has_pixel(ca, ca[0].x as int, ca[0].y as int));
            assert(has_pixel(cb, ca[0].x as int, ca[0].y as int));
            let i = choose|i: int|
                0 <= i < cb.len() && cb[i].x == ca[0].x as int && cb[i].y == ca[0].y as int;
            assert(false);
        }
        // the first entries agree: each head is the least pixel of the
        // shared set in screen order
        assert(has_pixel(ca, ca[0].x as int, ca[0].y as int));
        assert(has_pixel(cb, cb[0].x as int, cb[0].y as int));
        assert(has_pixel(cb, ca[0].x as int, ca[0].y as int));
        assert(has_pixel(ca, cb[0].x as int, cb[0].y as int));
        let j = choose|j: int|
            0 <= j < cb.len() && cb[j].x == ca[0].x as int && cb[j].y == ca[0].y as int;
        let i = choose|i: int|
            0 <= i < ca.len() && ca[i].x == cb[0].x as int && ca[i].y == cb[0].y as int;
        if j > 0 {
            assert(pos_lt(cb[0], cb[j]));
        }
        if i > 0 {
            assert(pos_lt(ca[0], ca[i]));
        }
        assert(ca[0].x == cb[0].x && ca[0].y == cb[0].y);
        let ta = ca.subrange(1, ca.len() as int);
        let tb = cb.subrange(1, cb.len() as int);
        lemma_row_major_tail(ca);
        lemma_row_major_tail(cb);
        assert forall|x: int, y: int|
            #![trigger has_pixel(ta, x, y)]
            #![trigger has_pixel(tb, x, y)]
            has_pixel(ta, x, y) == has_pixel(tb, x, y) by {
            lemma_has_pixel_tail(ca, x, y);
            lemma_has_pixel_tail(cb, x, y);
        }
        lemma_row_major_same_members_equal(ta, tb);
        assert forall|k: int| 0 <= k < ca.len() implies (#[trigger] ca[k]).x == cb[k].x && ca[k].y
            == cb[k].y by {
            if k > 0 {
                assert(ta[k - 1] == ca[k]);
                assert(tb[k - 1] == cb[k]);
            }
        }
    }
}

fn min3(a: i32, b: i32, c: i32) -> (m: i32)
    ensures
        m == lo3(a as int, b as int, c as int),
{
    let mut m = a;
    if b < m {
        m = b;
    }
    if c < m {
        m = c;
    }
    m
}

fn max3(a: i32, b: i32, c: i32) -> (m: i32)
    ensures
        m == hi3(a as int, b as int, c as int),
{
    let mut m = a;
    if b > m {
        m = b;
    }
    if c > m {
        m = c;
    }
    m
}

proof fn lemma_has_pixel_push(s: Seq<CoveredPixel>, f: CoveredPixel)
    ensures
        forall|xx: int, yy: int| #[trigger] has_pixel(s, xx, yy) ==> has_pixel(s.push(f), xx, yy),
        has_pixel(s.push(f), f.x as int, f.y as int),
{
    assert forall|xx: int, yy: int| #[trigger] has_pixel(s, xx, yy) implies has_pixel(
        s.push(f),
        xx,
        yy,
    ) by {
        let i = choose|i: int| 0 <= i < s.len() && s[i].x == xx && s[i].y == yy;
        assert(s.push(f)[i] == s[i]);
    }
    assert(s.push(f)[s.len() as int] == f);
}

/// Enumerates the covered pixels of the triangle `(p0, p1, p2)` inside a
/// `width` by `height` viewport, in row-major order, with the exact edge
/// values of each pixel. A degenerate (zero-area) triangle contributes no
/// pixels, so the caller never divides by a zero area.
#[verifier::loop_isolation(false)]
pub fn triangle_coverage(
    p0: ScreenPt,
    p1: ScreenPt,
    p2: ScreenPt,
    width: usize,
    height: usize,
) -> (cov: Vec<CoveredPixel>)
    ensures
        area_of(p0, p1, p2) == 0 ==> cov@.len() == 0,
        forall|i: int|
            0 <= i < cov@.len() ==> frag_ok(
                p0,
                p1,
                p2,
                width as int,
                height as int,
                #[trigger] cov@[i],
            ),
        area_of(p0, p1, p2) != 0 ==> forall|x: int, y: int|
            #[trigger] in_clip(p0, p1, p2, width as int, height as int, x, y) && covered_at(
                p0,
                p1,
                p2,
                x,
                y,
            ) ==> has_pixel(cov@, x, y),
        row_major(cov@),
{
    let area = signed_area(p0, p1, p2);
    let mut cov: Vec<CoveredPixel> = Vec::new();
    if area == 0 {
        return cov;
    }
    let lo_x: i64 = {
        let m = min3(p0.x, p1.x, p2.x);
        if m < 0 {
            0
        } else {
            m as i64
        }
    };
    let lo_y: i64 = {
        let m = min3(p0.y, p1.y, p2.y);
        if m < 0 {
            0
        } else {
            m as i64
        }
    };
    let hi_x: i64 = {
        let m = max3(p0.x, p1.x, p2.x) as i64;
        let cap: i64 = if width > i32::MAX as usize {
            i32::MAX as i64
        } else {
            width as i64 - 1
        };
        if m > cap {
            cap
        } else {
            m
        }
    };
    let hi_y: i64 = {
        let m = max3(p0.y, p1.y, p2.y) as i64;
        let cap: i64 = if height > i32::MAX as usize {
            i32::MAX as i64
        } else {
            height as i64 - 1
        };
        if m > cap {
            cap
        } else {
            m
        }
    };
    assert(lo_x == clip_lo(p0.x as int, p1.x as int, p2.x as int));
    assert(lo_y == clip_lo(p0.y as int, p1.y as int, p2.y as int));
    assert(hi_x == clip_hi(p0.x as int, p1.x as int, p2.x as int, width as int));
    assert(hi_y == clip_hi(p0.y as int, p1.y as int, p2.y as int, height as int));
    if lo_x <= hi_x && lo_y <= hi_y {
        let mut y: i64 = lo_y;
        while y <= hi_y
            invariant
                lo_y <= y <= hi_y + 1,
                forall|i: int|
                    0 <= i < cov@.len() ==> frag_ok(
                        p0,
                        p1,
                        p2,
                        width as int,
                        height as int,
                        #[trigger] cov@[i],
                    ),
                forall|i: int| 0 <= i < cov@.len() ==> (#[trigger] cov@[i]).y < y,
                row_major(cov@),
                forall|xx: int, yy: int|
                    #[trigger] in_clip(p0, p1, p2, width as int, height as int, xx, yy) && yy < y
                        && covered_at(p0, p1, p2, xx, yy) ==> has_pixel(cov@, xx, yy),
            decreases hi_y + 1 - y,
        {
            let mut x: i64 = lo_x;
            while x <= hi_x
                invariant
                    lo_x <= x <= hi_x + 1,
                    lo_y <= y <= hi_y,
                    forall|i: int|
                        0 <= i < cov@.len() ==> frag_ok(
                            p0,
                            p1,
                            p2,
                            width as int,
                            height as int,
                            #[trigger] cov@[i],
                        ),
                    forall|i: int|
                        0 <= i < cov@.len() ==> (#[trigger] cov@[i]).y < y || (cov@[i].y == y
                            && cov@[i].x < x),
                    row_major(cov@),
                    forall|xx: int, yy: int|
                        #[trigger] in_clip(p0, p1, p2, width as int, height as int, xx, yy) && yy
                            < y && covered_at(p0, p1, p2, xx, yy) ==> has_pixel(cov@, xx, yy),
                    forall|xx: int|
                        lo_x <= xx < x && #[trigger] covered_at(p0, p1, p2, xx, y as int)
                            ==> has_pixel(cov@, xx, y as int),
                decreases hi_x + 1 - x,
            {
                let pt = ScreenPt { x: x as i32, y: y as i32 };
                assert(pt.x as int == x as int && pt.y as int == y as int);
                let w0 = edge(p1, p2, pt);
                let w1 = edge(p2, p0, pt);
                let w2 = edge(p0, p1, pt);
                if (w0 >= 0 && w1 >= 0 && w2 >= 0) || (w0 <= 0 && w1 <= 0 && w2 <= 0) {
                    assert(covered_at(p0, p1, p2, x as int, y as int));
                    let f = CoveredPixel { x: pt.x, y: pt.y, w0, w1, w2 };
                    proof {
                        lemma_has_pixel_push(cov@, f);
                    }
                    cov.push(f);
                    assert(has_pixel(cov@, x as int, y as int));
                } else {
                    assert(!covered_at(p0, p1, p2, x as int, y as int));
                }
                x = x + 1;
            }
            y = y + 1;
        }
    }
    cov
}

} // verus!
