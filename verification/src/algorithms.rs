//! The Ramer-Douglas-Peucker polyline simplifier. Distances are compared
//! through exact integer cross products — squared deviation against
//! squared tolerance times squared chord length — so no division occurs
//! and a degenerate chord whose endpoints coincide simply counts every
//! interior point as lying on it.
use vstd::prelude::*;
use crate::consts::{COORD_LIMIT, EPSILON_LIMIT};
use crate::fixed::iabs;

verus! {

/// Twice the signed area of the triangle spanned by the chord from point
/// `f` to point `l` and the point `i`: its magnitude equals the chord
/// length times the perpendicular distance of point `i` from the chord
/// line.
pub open spec fn spec_cross(x: Seq<i64>, y: Seq<i64>, f: int, l: int, i: int) -> int {
    (x[l] - x[f]) * (y[f] - y[i]) - (x[f] - x[i]) * (y[l] - y[f])
}

/// Squared length of the chord from point `f` to point `l`.
pub open spec fn spec_chord2(x: Seq<i64>, y: Seq<i64>, f: int, l: int) -> int {
    (x[l] - x[f]) * (x[l] - x[f]) + (y[l] - y[f]) * (y[l] - y[f])
}

/// Index of the interior point farthest from the chord `f..l` together
/// with its squared cross product, scanning indices from `i` up to `l`
/// and keeping the earliest strict maximum over the running best
/// `(bi, bc)`.
pub open spec fn spec_scan(
    x: Seq<i64>,
    y: Seq<i64>,
    f: int,
    l: int,
    i: int,
    bi: int,
    bc: int,
) -> (int, int)
    decreases l - i,
{
    if i >= l {
        (bi, bc)
    } else {
        let c = spec_cross(x, y, f, l, i);
        if c * c > bc {
            spec_scan(x, y, f, l, i + 1, i, c * c)
        } else {
            spec_scan(x, y, f, l, i + 1, bi, bc)
        }
    }
}

/// The interior indices the simplifier keeps strictly between `f` and
/// `l`, in ascending order: when the farthest interior point deviates
/// beyond the tolerance it is kept and both sides are simplified
/// recursively, otherwise the whole open range is dropped.
pub open spec fn spec_rdp(x: Seq<i64>, y: Seq<i64>, eps: int, f: int, l: int) -> Seq<int>
    decreases l - f,
{
    if l <= f + 1 {
        Seq::empty()
    } else {
        let sc = spec_scan(x, y, f, l, f + 1, 0, 0);
        if sc.1 > eps * eps * spec_chord2(x, y, f, l) && f < sc.0 && sc.0 < l {
            spec_rdp(x, y, eps, f, sc.0) + seq![sc.0] + spec_rdp(x, y, eps, sc.0, l)
        } else {
            Seq::empty()
        }
    }
}

/// All indices the simplifier keeps: the first point, the kept interior
/// points, and the last point.
pub open spec fn spec_rdp_kept(x: Seq<i64>, y: Seq<i64>, eps: int) -> Seq<int> {
    seq![0int] + spec_rdp(x, y, eps, 0, x.len() - 1) + seq![x.len() - 1]
}

/// The flat encoding the simplifier returns: the number of kept points,
/// then their x values, then their y values.
pub open spec fn spec_rdp_flat(x: Seq<i64>, y: Seq<i64>, eps: int) -> Seq<i64> {
    let kept = spec_rdp_kept(x, y, eps);
    seq![kept.len() as i64]
        + kept.map_values(|i: int| x[i])
        + kept.map_values(|i: int| y[i])
}

/// Well-formed simplifier input: two equal-length sequences of at least
/// two points whose coordinates the exact `i128` arithmetic accepts.
pub open spec fn spec_polyline_ok(x: Seq<i64>, y: Seq<i64>) -> bool {
    &&& x.len() == y.len()
    &&& 2 <= x.len() <= 0x7fff_ffff
    &&& forall|i: int| 0 <= i < x.len() ==> iabs(#[trigger] x[i] as int) <= COORD_LIMIT as int
    &&& forall|i: int| 0 <= i < y.len() ==> iabs(#[trigger] y[i] as int) <= COORD_LIMIT as int
}

/// A sequence of indices into a vector, as unbounded integers.
pub open spec fn spec_to_ints(s: Seq<usize>) -> Seq<int> {
    s.map_values(|v: usize| v as int)
}

proof fn lemma_mul_bounds(a: int, b: int, ma: int, mb: int)
    requires
        -ma <= a <= ma,
        -mb <= b <= mb,
        0 <= ma,
        0 <= mb,
    ensures
        -(ma * mb) <= a * b <= ma * mb,
{
    assert(-(ma * mb) <= a * b <= ma * mb) by (nonlinear_arith)
        requires
            -ma <= a <= ma,
            -mb <= b <= mb,
            0 <= ma,
            0 <= mb,
    {}
}

fn cross_at(x: &Vec<i64>, y: &Vec<i64>, f: usize, l: usize, i: usize) -> (c: i128)
    requires
        spec_polyline_ok(x@, y@),
        f < x@.len(),
        l < x@.len(),
        i < x@.len(),
    ensures
        c as int == spec_cross(x@, y@, f as int, l as int, i as int),
        iabs(c as int) <= 0x8000_0000_0000_0000,
{
    let dxl: i128 = x[l] as i128 - x[f] as i128;
    let dyf: i128 = y[f] as i128 - y[i] as i128;
    let dxf: i128 = x[f] as i128 - x[i] as i128;
    let dyl: i128 = y[l] as i128 - y[f] as i128;
    proof {
        lemma_mul_bounds(dxl as int, dyf as int, 0x8000_0000, 0x8000_0000);
        lemma_mul_bounds(dxf as int, dyl as int, 0x8000_0000, 0x8000_0000);
    }
    let a: i128 = dxl * dyf;
    let b: i128 = dxf * dyl;
    a - b
}

fn chord2_at(x: &Vec<i64>, y: &Vec<i64>, f: usize, l: usize) -> (c2: i128)
    requires
        spec_polyline_ok(x@, y@),
        f < x@.len(),
        l < x@.len(),
    ensures
        c2 as int == spec_chord2(x@, y@, f as int, l as int),
        0 <= c2 <= 0x8000_0000_0000_0000,
{
    let dx: i128 = x[l] as i128 - x[f] as i128;
    let dy: i128 = y[l] as i128 - y[f] as i128;
    proof {
        lemma_mul_bounds(dx as int, dx as int, 0x8000_0000, 0x8000_0000);
        lemma_mul_bounds(dy as int, dy as int, 0x8000_0000, 0x8000_0000);
        assert(dx as int * dx as int >= 0) by (nonlinear_arith) {}
        assert(dy as int * dy as int >= 0) by (nonlinear_arith) {}
    }
    dx * dx + dy * dy
}

fn rdp_step(x: &Vec<i64>, y: &Vec<i64>, first: usize, last: usize, epsilon: i64, keep: &mut Vec<usize>)
    requires
        spec_polyline_ok(x@, y@),
        first < last,
        last < x@.len(),
        0 <= epsilon <= EPSILON_LIMIT,
    ensures
        spec_to_ints(final(keep)@) == spec_to_ints(old(keep)@)
            + spec_rdp(x@, y@, epsilon as int, first as int, last as int),
    decreases last - first,
{
    let ghost s = spec_rdp(x@, y@, epsilon as int, first as int, last as int);
    if last <= first + 1 {
        assert(s =~= Seq::<int>::empty());
        assert(spec_to_ints(keep@) =~= spec_to_ints(keep@) + s);
        return;
    }
    let mut idx: usize = 0;
    let mut best: i128 = 0;
    let mut i: usize = first + 1;
    while i < last
        invariant
            spec_polyline_ok(x@, y@),
            first < last,
            last < x@.len(),
            first + 1 <= i <= last,
            0 <= best,
            best == 0 ==> idx == 0,
            best > 0 ==> first < idx < last,
            spec_scan(x@, y@, first as int, last as int, i as int, idx as int, best as int)
                == spec_scan(x@, y@, first as int, last as int, first as int + 1, 0, 0),
        decreases last - i,
    {
        let c = cross_at(x, y, first, last, i);
        proof {
            lemma_mul_bounds(c as int, c as int,
                0x8000_0000_0000_0000, 0x8000_0000_0000_0000);
            assert(c as int * c as int >= 0) by (nonlinear_arith) {}
        }
        let c2: i128 = c * c;
        if c2 > best {
            idx = i;
            best = c2;
        }
        i = i + 1;
    }
    let ch = chord2_at(x, y, first, last);
    proof {
        lemma_mul_bounds(epsilon as int, epsilon as int,
            EPSILON_LIMIT as int, EPSILON_LIMIT as int);
        assert(epsilon as int * epsilon as int >= 0) by (nonlinear_arith) {}
    }
    let e2: i128 = epsilon as i128 * epsilon as i128;
    proof {
        lemma_mul_bounds(e2 as int, ch as int,
            12_250_000_000_000_000_000, 0x8000_0000_0000_0000);
        assert(e2 as int * ch as int >= 0) by (nonlinear_arith)
            requires
                e2 >= 0,
                ch >= 0,
        {}
    }
    let thr: i128 = e2 * ch;
    if best > thr {
        let ghost a = spec_rdp(x@, y@, epsilon as int, first as int, idx as int);
        let ghost b = spec_rdp(x@, y@, epsilon as int, idx as int, last as int);
        assert(s == a + seq![idx as int] + b);
        let ghost keep0 = spec_to_ints(keep@);
        if idx > first + 1 {
            rdp_step(x, y, first, idx, epsilon, keep);
        } else {
            assert(a =~= Seq::<int>::empty());
            assert(spec_to_ints(keep@) =~= keep0 + a);
        }
        let ghost keep1 = spec_to_ints(keep@);
        keep.push(idx);
        assert(spec_to_ints(keep@) =~= keep1 + seq![idx as int]);
        let ghost keep2 = spec_to_ints(keep@);
        if last > idx + 1 {
            rdp_step(x, y, idx, last, epsilon, keep);
        } else {
            assert(b =~= Seq::<int>::empty());
            assert(spec_to_ints(keep@) =~= keep2 + b);
        }
        assert(spec_to_ints(keep@) =~= keep0 + s);
    } else {
        assert(s =~= Seq::<int>::empty());
        assert(spec_to_ints(keep@) =~= spec_to_ints(keep@) + s);
    }
}


/// The kept interior indices of any range lie strictly inside it, are
/// strictly increasing, and number fewer than the interior points.
pub proof fn lemma_rdp_sorted(x: Seq<i64>, y: Seq<i64>, eps: int, f: int, l: int)
    requires
        f < l,
    ensures
        ({
            let s = spec_rdp(x, y, eps, f, l);
            &&& s.len() <= l - f - 1
            &&& forall|j: int| 0 <= j < s.len() ==> f < #[trigger] s[j] < l
            &&& forall|a: int, b: int| 0 <= a < b < s.len() ==> s[a] < s[b]
        }),
    decreases l - f,
{
    let s = spec_rdp(x, y, eps, f, l);
    if l <= f + 1 {
    } else {
        let sc = spec_scan(x, y, f, l, f + 1, 0, 0);
        let idx = sc.0;
        if sc.1 > eps * eps * spec_chord2(x, y, f, l) && f < idx && idx < l {
            let a = spec_rdp(x, y, eps, f, idx);
            let b = spec_rdp(x, y, eps, idx, l);
            lemma_rdp_sorted(x, y, eps, f, idx);
            lemma_rdp_sorted(x, y, eps, idx, l);
            assert(s == a + seq![idx] + b);
            assert(s.len() == a.len() + 1 + b.len());
            assert forall|j: int| 0 <= j < s.len() implies f < #[trigger] s[j] < l by {
                if j < a.len() {
                    assert(s[j] == a[j]);
                } else if j == a.len() {
                    assert(s[j] == idx);
                } else {
                    assert(s[j] == b[j - a.len() - 1]);
                }
            }
            assert forall|p: int, q: int| 0 <= p < q < s.len() implies s[p] < s[q] by {
                if q < a.len() {
                    assert(s[p] == a[p] && s[q] == a[q]);
                } else if p < a.len() && q == a.len() {
                    assert(s[p] == a[p] && s[q] == idx);
                } else if p < a.len() {
                    assert(s[p] == a[p] && s[q] == b[q - a.len() - 1]);
                } else if p == a.len() {
                    assert(s[p] == idx && s[q] == b[q - a.len() - 1]);
                } else {
                    assert(s[p] == b[p - a.len() - 1] && s[q] == b[q - a.len() - 1]);
                }
            }
        }
    }
}

/// Law: the simplifier keeps at least the two endpoints and at most
/// every input point; the kept indices strictly increase from the first
/// input index to the last.
pub proof fn lemma_simplify_kept_shape(x: Seq<i64>, y: Seq<i64>, eps: int)
    requires
        2 <= x.len(),
    ensures
        ({
            let kept = spec_rdp_kept(x, y, eps);
            &&& 2 <= kept.len() <= x.len()
            &&& kept[0] == 0
            &&& kept[kept.len() - 1] == x.len() - 1
            &&& forall|j: int| 0 <= j < kept.len() ==> 0 <= #[trigger] kept[j] <= x.len() - 1
            &&& forall|a: int, b: int| 0 <= a < b < kept.len() ==> kept[a] < kept[b]
        }),
{
    let s = spec_rdp(x, y, eps, 0, x.len() - 1);
    let kept = spec_rdp_kept(x, y, eps);
    lemma_rdp_sorted(x, y, eps, 0, x.len() - 1);
    assert(kept.len() == s.len() + 2);
    assert(kept[0] == 0);
    assert(kept[kept.len() - 1] == x.len() - 1);
    assert forall|j: int| 0 <= j < kept.len() implies 0 <= #[trigger] kept[j] <= x.len() - 1 by {
        if j == 0 {
        } else if j == kept.len() - 1 {
        } else {
            assert(kept[j] == s[j - 1]);
        }
    }
    assert forall|a: int, b: int| 0 <= a < b < kept.len() implies kept[a] < kept[b] by {
        if a == 0 && b == kept.len() - 1 {
        } else if a == 0 {
            assert(kept[b] == s[b - 1]);
        } else if b == kept.len() - 1 {
            assert(kept[a] == s[a - 1]);
        } else {
            assert(kept[a] == s[a - 1] && kept[b] == s[b - 1]);
        }
    }
}

/// Law: on input whose x values strictly increase, the x values at the
/// kept indices strictly increase as well — the simplified polyline is a
/// strict subsequence of the input, endpoints included.
pub proof fn lemma_simplify_x_strictly_increasing(x: Seq<i64>, y: Seq<i64>, eps: int)
    requires
        2 <= x.len(),
        forall|i: int, j: int| 0 <= i < j < x.len() ==> x[i] < x[j],
    ensures
        ({
            let kept = spec_rdp_kept(x, y, eps);
            forall|a: int, b: int| 0 <= a < b < kept.len() ==> x[kept[a]] < x[kept[b]]
        }),
{
    let kept = spec_rdp_kept(x, y, eps);
    lemma_simplify_kept_shape(x, y, eps);
    assert forall|a: int, b: int| 0 <= a < b < kept.len() implies x[kept[a]] < x[kept[b]] by {
        assert(kept[a] < kept[b]);
        assert(0 <= kept[a] && kept[b] <= x.len() - 1);
    }
}

proof fn lemma_scan_bound(
    x: Seq<i64>,
    y: Seq<i64>,
    f: int,
    l: int,
    i: int,
    bi: int,
    bc: int,
    m: int,
)
    requires
        bc <= m,
        forall|q: int| i <= q < l ==>
            #[trigger] (spec_cross(x, y, f, l, q) * spec_cross(x, y, f, l, q)) <= m,
    ensures
        spec_scan(x, y, f, l, i, bi, bc).1 <= m,
    decreases l - i,
{
    if i >= l {
    } else {
        let c = spec_cross(x, y, f, l, i);
        if c * c > bc {
            lemma_scan_bound(x, y, f, l, i + 1, i, c * c, m);
        } else {
            lemma_scan_bound(x, y, f, l, i + 1, bi, bc, m);
        }
    }
}

proof fn lemma_lagrange(a: int, b: int, cx: int, cy: int)
    ensures
        (a * cy - cx * b) * (a * cy - cx * b) <= (a * a + b * b) * (cx * cx + cy * cy),
{
    let u = a * cy;
    let v = cx * b;
    let w = a * cx;
    let z = b * cy;
    assert(u * v == w * z) by (nonlinear_arith)
        requires
            u == a * cy,
            v == cx * b,
            w == a * cx,
            z == b * cy,
    {}
    let p = a * a;
    let q = b * b;
    let r = cx * cx;
    let t = cy * cy;
    assert((p + q) * (r + t) == p * r + p * t + q * r + q * t) by (nonlinear_arith) {}
    assert(p * r == w * w) by (nonlinear_arith)
        requires
            p == a * a,
            r == cx * cx,
            w == a * cx,
    {}
    assert(p * t == u * u) by (nonlinear_arith)
        requires
            p == a * a,
            t == cy * cy,
            u == a * cy,
    {}
    assert(q * r == v * v) by (nonlinear_arith)
        requires
            q == b * b,
            r == cx * cx,
            v == cx * b,
    {}
    assert(q * t == z * z) by (nonlinear_arith)
        requires
            q == b * b,
            t == cy * cy,
            z == b * cy,
    {}
    assert((a * a + b * b) * (cx * cx + cy * cy) == u * u + v * v + w * w + z * z);
    assert((u - v) * (u - v) == u * u - 2 * (u * v) + v * v) by (nonlinear_arith) {}
    assert((w + z) * (w + z) == w * w + 2 * (w * z) + z * z) by (nonlinear_arith) {}
    assert((w + z) * (w + z) >= 0) by (nonlinear_arith) {}
    assert((u - v) * (u - v) <= u * u + v * v + w * w + z * z);
}

proof fn lemma_cross_within(x: Seq<i64>, y: Seq<i64>, f: int, l: int, i: int)
    requires
        0 <= f < x.len(),
        0 <= l < x.len(),
        0 <= i < x.len(),
        x.len() == y.len(),
        iabs(x[f] as int) <= COORD_LIMIT as int,
        iabs(x[l] as int) <= COORD_LIMIT as int,
        iabs(x[i] as int) <= COORD_LIMIT as int,
        iabs(y[f] as int) <= COORD_LIMIT as int,
        iabs(y[l] as int) <= COORD_LIMIT as int,
        iabs(y[i] as int) <= COORD_LIMIT as int,
    ensures
        spec_cross(x, y, f, l, i) * spec_cross(x, y, f, l, i)
            <= spec_chord2(x, y, f, l) * (8 * (COORD_LIMIT as int) * (COORD_LIMIT as int)),
{
    let a = x[l] - x[f];
    let b = y[l] - y[f];
    let cx = x[f] - x[i];
    let cy = y[f] - y[i];
    let cl = COORD_LIMIT as int;
    lemma_lagrange(a, b, cx, cy);
    assert(cx * cx <= 4 * cl * cl && cy * cy <= 4 * cl * cl) by (nonlinear_arith)
        requires
            -2 * cl <= cx <= 2 * cl,
            -2 * cl <= cy <= 2 * cl,
            0 <= cl,
    {}
    assert(a * a >= 0 && b * b >= 0) by (nonlinear_arith) {}
    assert((a * a + b * b) * (cx * cx + cy * cy) <= (a * a + b * b) * (8 * cl * cl))
        by (nonlinear_arith)
        requires
            0 <= a * a + b * b,
            cx * cx + cy * cy <= 8 * cl * cl,
    {}
}

/// Law: with a tolerance of at least three times the coordinate bound no
/// interior point of any chord can deviate beyond it, so exactly the two
/// endpoints survive.
pub proof fn lemma_simplify_epsilon_wide(x: Seq<i64>, y: Seq<i64>, eps: int)
    requires
        spec_polyline_ok(x, y),
        eps >= 3 * COORD_LIMIT as int,
    ensures
        spec_rdp_kept(x, y, eps) == seq![0int, x.len() - 1],
{
    let f = 0int;
    let l = x.len() - 1;
    let cl = COORD_LIMIT as int;
    let ch = spec_chord2(x, y, f, l);
    let m = eps * eps * ch;
    assert(ch >= 0) by {
        let a = x[l] - x[f];
        let b = y[l] - y[f];
        assert(a * a >= 0 && b * b >= 0) by (nonlinear_arith) {}
    }
    assert(ch * (8 * cl * cl) <= m) by (nonlinear_arith)
        requires
            0 <= ch,
            0 <= cl,
            eps >= 3 * cl,
            m == eps * eps * ch,
    {}
    assert forall|q: int| f + 1 <= q < l implies
        #[trigger] (spec_cross(x, y, f, l, q) * spec_cross(x, y, f, l, q)) <= m by {
        lemma_cross_within(x, y, f, l, q);
    }
    if l > f + 1 {
        assert(m >= 0);
        lemma_scan_bound(x, y, f, l, f + 1, 0, 0, m);
        assert(spec_rdp(x, y, eps, f, l) =~= Seq::<int>::empty());
    } else {
        assert(spec_rdp(x, y, eps, f, l) =~= Seq::<int>::empty());
    }
    assert(spec_rdp_kept(x, y, eps) =~= seq![0int, x.len() - 1]);
}

/// Simplify the polyline given by equal-length coordinate vectors `x`
/// and `y` under the nonnegative tolerance `epsilon`, returning the flat
/// encoding of the kept points: their number, then their x values, then
/// their y values. The first and last input points are always kept, and
/// interior points survive exactly where the recursive subdivision finds
/// a deviation beyond the tolerance.
pub fn ramer_douglas_peucker(x: &Vec<i64>, y: &Vec<i64>, epsilon: i64) -> (r: Vec<i64>)
    requires
        spec_polyline_ok(x@, y@),
        0 <= epsilon <= EPSILON_LIMIT,
    ensures
        ({
            let kept = spec_rdp_kept(x@, y@, epsilon as int);
            &&& r@.len() == 1 + 2 * kept.len()
            &&& r@[0] as int == kept.len()
            &&& forall|j: int| 0 <= j < kept.len() ==> r@[1 + j] == x@[#[trigger] kept[j]]
            &&& forall|j: int| 0 <= j < kept.len()
                ==> r@[1 + kept.len() + j] == y@[#[trigger] kept[j]]
            &&& r@ == spec_rdp_flat(x@, y@, epsilon as int)
        }),
{
    let ghost kept = spec_rdp_kept(x@, y@, epsilon as int);
    proof {
        lemma_rdp_sorted(x@, y@, epsilon as int, 0, x@.len() - 1);
        lemma_simplify_kept_shape(x@, y@, epsilon as int);
    }
    let last: usize = x.len() - 1;
    let mut keep: Vec<usize> = Vec::new();
    keep.push(0);
    assert(spec_to_ints(keep@) =~= seq![0int]);
    let ghost k0 = spec_to_ints(keep@);
    rdp_step(x, y, 0, last, epsilon, &mut keep);
    let ghost k1 = spec_to_ints(keep@);
    keep.push(last);
    assert(spec_to_ints(keep@) =~= k1 + seq![last as int]);
    assert(spec_to_ints(keep@) =~= kept);
    let count: usize = keep.len();
    assert(count as int == kept.len());
    let mut out: Vec<i64> = Vec::new();
    out.push(count as i64);
    let mut j: usize = 0;
    while j < count
        invariant
            spec_polyline_ok(x@, y@),
            j <= count,
            keep@.len() == count,
            count as int == kept.len(),
            kept.len() <= x@.len(),
            spec_to_ints(keep@) == kept,
            forall|q: int| 0 <= q < kept.len() ==> 0 <= #[trigger] kept[q] <= x@.len() - 1,
            out@.len() == 1 + j,
            out@[0] as int == kept.len(),
            forall|q: int| 0 <= q < j ==> out@[1 + q] == x@[#[trigger] kept[q]],
        decreases count - j,
    {
        let ki: usize = keep[j];
        assert(ki as int == kept[j as int]);
        out.push(x[ki]);
        j = j + 1;
    }
    let mut j2: usize = 0;
    while j2 < count
        invariant
            spec_polyline_ok(x@, y@),
            j2 <= count,
            keep@.len() == count,
            count as int == kept.len(),
            kept.len() <= x@.len(),
            spec_to_ints(keep@) == kept,
            forall|q: int| 0 <= q < kept.len() ==> 0 <= #[trigger] kept[q] <= x@.len() - 1,
            out@.len() == 1 + count + j2,
            out@[0] as int == kept.len(),
            forall|q: int| 0 <= q < kept.len() ==> out@[1 + q] == x@[#[trigger] kept[q]],
            forall|q: int| 0 <= q < j2 ==> out@[1 + count + q] == y@[#[trigger] kept[q]],
        decreases count - j2,
    {
        let ki: usize = keep[j2];
        assert(ki as int == kept[j2 as int]);
        out.push(y[ki]);
        j2 = j2 + 1;
    }
    proof {
        assert(out@ =~= spec_rdp_flat(x@, y@, epsilon as int));
    }
    out
}


/// Whether some pair of neighboring entries of `full` brackets `j` and
/// the deviation of point `j` from their chord lies within the
/// tolerance, in the exact squared-cross-product sense.
pub open spec fn spec_within_pair(
    x: Seq<i64>,
    y: Seq<i64>,
    eps: int,
    full: Seq<int>,
    j: int,
) -> bool {
    exists|k: int|
        0 <= k < full.len() - 1 && full[k] < j < full[k + 1] && #[trigger] (spec_cross(
            x,
            y,
            full[k],
            full[k + 1],
            j,
        ) * spec_cross(x, y, full[k], full[k + 1], j)) <= eps * eps * spec_chord2(
            x,
            y,
            full[k],
            full[k + 1],
        )
}

proof fn lemma_scan_covers(x: Seq<i64>, y: Seq<i64>, f: int, l: int, i: int, bi: int, bc: int)
    ensures
        bc <= spec_scan(x, y, f, l, i, bi, bc).1,
        forall|q: int|
            i <= q < l ==> #[trigger] (spec_cross(x, y, f, l, q) * spec_cross(x, y, f, l, q))
                <= spec_scan(x, y, f, l, i, bi, bc).1,
    decreases l - i,
{
    if i >= l {
    } else {
        let c = spec_cross(x, y, f, l, i);
        if c * c > bc {
            lemma_scan_covers(x, y, f, l, i + 1, i, c * c);
        } else {
            lemma_scan_covers(x, y, f, l, i + 1, bi, bc);
        }
    }
}

proof fn lemma_scan_found(x: Seq<i64>, y: Seq<i64>, f: int, l: int, i: int, bi: int, bc: int)
    ensures
        spec_scan(x, y, f, l, i, bi, bc) == (bi, bc) || (bc < spec_scan(x, y, f, l, i, bi, bc).1
            && i <= spec_scan(x, y, f, l, i, bi, bc).0 < l),
    decreases l - i,
{
    if i >= l {
    } else {
        let c = spec_cross(x, y, f, l, i);
        if c * c > bc {
            lemma_scan_found(x, y, f, l, i + 1, i, c * c);
        } else {
            lemma_scan_found(x, y, f, l, i + 1, bi, bc);
        }
    }
}

proof fn lemma_rdp_within(x: Seq<i64>, y: Seq<i64>, eps: int, f: int, l: int)
    requires
        f < l,
    ensures
        ({
            let full = seq![f] + spec_rdp(x, y, eps, f, l) + seq![l];
            forall|j: int|
                f < j < l && !spec_rdp(x, y, eps, f, l).contains(j) ==> #[trigger] spec_within_pair(
                    x,
                    y,
                    eps,
                    full,
                    j,
                )
        }),
    decreases l - f,
{
    let s = spec_rdp(x, y, eps, f, l);
    let full = seq![f] + s + seq![l];
    if l <= f + 1 {
    } else {
        let sc = spec_scan(x, y, f, l, f + 1, 0, 0);
        let idx = sc.0;
        let thr = eps * eps * spec_chord2(x, y, f, l);
        if sc.1 > thr && f < idx && idx < l {
            let a = spec_rdp(x, y, eps, f, idx);
            let b = spec_rdp(x, y, eps, idx, l);
            lemma_rdp_within(x, y, eps, f, idx);
            lemma_rdp_within(x, y, eps, idx, l);
            let full_a = seq![f] + a + seq![idx];
            let full_b = seq![idx] + b + seq![l];
            assert(s == a + seq![idx] + b);
            assert forall|k: int| 0 <= k < full_a.len() implies full[k] == #[trigger] full_a[k] by {
                if k == 0 {
                } else if k <= a.len() {
                    assert(full[k] == s[k - 1]);
                    assert(s[k - 1] == a[k - 1]);
                } else {
                    assert(full[k] == s[a.len() as int]);
                }
            }
            assert forall|k: int| 0 <= k < full_b.len() implies full[a.len() + 1 + k]
                == #[trigger] full_b[k] by {
                if k == 0 {
                    assert(full[a.len() as int + 1] == s[a.len() as int]);
                } else if k <= b.len() {
                    assert(full[a.len() + 1 + k] == s[a.len() + k]);
                    assert(s[a.len() + k] == b[k - 1]);
                } else {
                    assert(full[a.len() + 1 + k] == l);
                }
            }
            assert forall|j: int| f < j < l && !s.contains(j) implies spec_within_pair(
                x,
                y,
                eps,
                full,
                j,
            ) by {
                assert(s[a.len() as int] == idx);
                assert(s.contains(idx));
                if j < idx {
                    assert(!a.contains(j)) by {
                        if a.contains(j) {
                            let i0 = choose|i0: int| 0 <= i0 < a.len() && a[i0] == j;
                            assert(s[i0] == j);
                            assert(s.contains(j));
                        }
                    }
                    assert(spec_within_pair(x, y, eps, full_a, j));
                    let k = choose|k: int|
                        0 <= k < full_a.len() - 1 && full_a[k] < j < full_a[k + 1] && #[trigger] (
                        spec_cross(x, y, full_a[k], full_a[k + 1], j) * spec_cross(
                            x,
                            y,
                            full_a[k],
                            full_a[k + 1],
                            j,
                        )) <= eps * eps * spec_chord2(x, y, full_a[k], full_a[k + 1]);
                    assert(full[k] == full_a[k] && full[k + 1] == full_a[k + 1]);
                    assert(spec_within_pair(x, y, eps, full, j));
                } else if j > idx {
                    assert(!b.contains(j)) by {
                        if b.contains(j) {
                            let i0 = choose|i0: int| 0 <= i0 < b.len() && b[i0] == j;
                            assert(s[a.len() + 1 + i0] == j);
                            assert(s.contains(j));
                        }
                    }
                    assert(spec_within_pair(x, y, eps, full_b, j));
                    let k = choose|k: int|
                        0 <= k < full_b.len() - 1 && full_b[k] < j < full_b[k + 1] && #[trigger] (
                        spec_cross(x, y, full_b[k], full_b[k + 1], j) * spec_cross(
                            x,
                            y,
                            full_b[k],
                            full_b[k + 1],
                            j,
                        )) <= eps * eps * spec_chord2(x, y, full_b[k], full_b[k + 1]);
                    let k2 = a.len() + 1 + k;
                    assert(full[k2] == full_b[k] && full[k2 + 1] == full_b[k + 1]);
                    assert(spec_within_pair(x, y, eps, full, j));
                }
            }
        } else {
            lemma_scan_covers(x, y, f, l, f + 1, 0, 0);
            lemma_scan_found(x, y, f, l, f + 1, 0, 0);
            assert(s =~= Seq::<int>::empty());
            assert(thr >= 0) by {
                let dx = x[l] - x[f];
                let dy = y[l] - y[f];
                assert(dx * dx >= 0 && dy * dy >= 0 && eps * eps >= 0) by (nonlinear_arith) {}
                assert(eps * eps * (dx * dx + dy * dy) >= 0) by (nonlinear_arith)
                    requires
                        eps * eps >= 0,
                        dx * dx + dy * dy >= 0,
                {}
            }
            assert(sc.1 <= thr);
            assert forall|j: int| f < j < l && !s.contains(j) implies spec_within_pair(
                x,
                y,
                eps,
                full,
                j,
            ) by {
                assert(full[0] == f && full[1] == l && full.len() == 2);
                assert(spec_cross(x, y, f, l, j) * spec_cross(x, y, f, l, j) <= sc.1);
                assert(spec_within_pair(x, y, eps, full, j));
            }
        }
    }
}

/// Law: every input point the simplifier drops lies within the tolerance
/// of the chord connecting some pair of neighboring kept points; with a
/// zero tolerance, a dropped point is exactly collinear with that chord.
pub proof fn lemma_simplify_deviation_bounded(x: Seq<i64>, y: Seq<i64>, eps: int)
    requires
        2 <= x.len(),
    ensures
        forall|j: int|
            0 < j < x.len() - 1 && !spec_rdp_kept(x, y, eps).contains(j)
                ==> #[trigger] spec_within_pair(x, y, eps, spec_rdp_kept(x, y, eps), j),
{
    let s = spec_rdp(x, y, eps, 0, x.len() - 1);
    let kept = spec_rdp_kept(x, y, eps);
    lemma_rdp_within(x, y, eps, 0, x.len() - 1);
    assert(kept == seq![0int] + s + seq![x.len() - 1]);
    assert forall|j: int| 0 < j < x.len() - 1 && !kept.contains(j) implies #[trigger] spec_within_pair(
        x,
        y,
        eps,
        kept,
        j,
    ) by {
        assert(!s.contains(j)) by {
            if s.contains(j) {
                let i0 = choose|i0: int| 0 <= i0 < s.len() && s[i0] == j;
                assert(kept[i0 + 1] == j);
                assert(kept.contains(j));
            }
        }
    }
}


/// The ascending run of integers from `a` up to, but excluding, `b`.
pub open spec fn spec_idseq(a: int, b: int) -> Seq<int> {
    Seq::new(if b > a { (b - a) as nat } else { 0 }, |i: int| a + i)
}

proof fn lemma_scan_exact(x: Seq<i64>, y: Seq<i64>, f: int, l: int, i: int, bi: int, bc: int)
    requires
        bi < i,
    ensures
        ({
            let rr = spec_scan(x, y, f, l, i, bi, bc);
            &&& bc <= rr.1
            &&& (rr == (bi, bc) || (i <= rr.0 < l && bc < rr.1 && rr.1 == spec_cross(x, y, f, l, rr.0)
                * spec_cross(x, y, f, l, rr.0)))
            &&& forall|p: int|
                i <= p < l && p < rr.0 ==> #[trigger] (spec_cross(x, y, f, l, p) * spec_cross(
                    x,
                    y,
                    f,
                    l,
                    p,
                )) < rr.1
            &&& forall|p: int|
                i <= p < l && p > rr.0 ==> #[trigger] (spec_cross(x, y, f, l, p) * spec_cross(
                    x,
                    y,
                    f,
                    l,
                    p,
                )) <= rr.1
        }),
    decreases l - i,
{
    if i >= l {
    } else {
        let c = spec_cross(x, y, f, l, i);
        if c * c > bc {
            lemma_scan_exact(x, y, f, l, i + 1, i, c * c);
        } else {
            lemma_scan_exact(x, y, f, l, i + 1, bi, bc);
        }
    }
}

proof fn lemma_scan_below(x: Seq<i64>, y: Seq<i64>, f: int, l: int, i: int, bi: int, bc: int)
    requires
        forall|p: int|
            i <= p < l ==> #[trigger] (spec_cross(x, y, f, l, p) * spec_cross(x, y, f, l, p)) <= bc,
    ensures
        spec_scan(x, y, f, l, i, bi, bc) == (bi, bc),
    decreases l - i,
{
    if i >= l {
    } else {
        lemma_scan_below(x, y, f, l, i + 1, bi, bc);
    }
}

proof fn lemma_scan_approach(
    x: Seq<i64>,
    y: Seq<i64>,
    f: int,
    l: int,
    i: int,
    bi: int,
    bc: int,
    wi: int,
    m: int,
)
    requires
        i <= wi < l,
        bc < m,
        m == spec_cross(x, y, f, l, wi) * spec_cross(x, y, f, l, wi),
        forall|p: int|
            i <= p < wi ==> #[trigger] (spec_cross(x, y, f, l, p) * spec_cross(x, y, f, l, p)) < m,
        forall|p: int|
            wi < p < l ==> #[trigger] (spec_cross(x, y, f, l, p) * spec_cross(x, y, f, l, p)) <= m,
    ensures
        spec_scan(x, y, f, l, i, bi, bc) == (wi, m),
    decreases l - i,
{
    let c = spec_cross(x, y, f, l, i);
    if i == wi {
        lemma_scan_below(x, y, f, l, i + 1, wi, m);
    } else {
        if c * c > bc {
            lemma_scan_approach(x, y, f, l, i + 1, i, c * c, wi, m);
        } else {
            lemma_scan_approach(x, y, f, l, i + 1, bi, bc, wi, m);
        }
    }
}


proof fn lemma_rdp_rerun(
    x: Seq<i64>,
    y: Seq<i64>,
    xs: Seq<i64>,
    ys: Seq<i64>,
    eps: int,
    f: int,
    l: int,
    fp: int,
)
    requires
        0 <= f < l,
        0 <= fp,
        ({
            let kk = seq![f] + spec_rdp(x, y, eps, f, l) + seq![l];
            forall|q: int|
                0 <= q < kk.len() ==> xs[fp + q] == x[#[trigger] kk[q]] && ys[fp + q] == y[kk[q]]
        }),
    ensures
        ({
            let kk = seq![f] + spec_rdp(x, y, eps, f, l) + seq![l];
            spec_rdp(xs, ys, eps, fp, fp + kk.len() - 1) == spec_idseq(
                fp + 1,
                fp + kk.len() - 1,
            )
        }),
    decreases l - f,
{
    let s = spec_rdp(x, y, eps, f, l);
    let kk = seq![f] + s + seq![l];
    let r = kk.len() - 1;
    let lp = fp + r;
    assert(kk[0] == f && kk[r] == l);
    assert(xs[fp] == x[f] && ys[fp] == y[f]);
    assert(xs[lp] == x[l] && ys[lp] == y[l]);
    if l <= f + 1 {
        assert(s =~= Seq::<int>::empty());
        assert(r == 1);
        assert(spec_rdp(xs, ys, eps, fp, fp + 1) =~= spec_idseq(fp + 1, fp + 1));
    } else {
        let sc = spec_scan(x, y, f, l, f + 1, 0, 0);
        let idx = sc.0;
        let bc = sc.1;
        let thr = eps * eps * spec_chord2(x, y, f, l);
        assert(thr >= 0) by {
            let dx = x[l] - x[f];
            let dy = y[l] - y[f];
            assert(dx * dx >= 0 && dy * dy >= 0 && eps * eps >= 0) by (nonlinear_arith) {}
            assert(eps * eps * (dx * dx + dy * dy) >= 0) by (nonlinear_arith)
                requires
                    eps * eps >= 0,
                    dx * dx + dy * dy >= 0,
            {}
        }
        if bc > thr && f < idx && idx < l {
            let a = spec_rdp(x, y, eps, f, idx);
            let b = spec_rdp(x, y, eps, idx, l);
            lemma_rdp_sorted(x, y, eps, f, idx);
            lemma_rdp_sorted(x, y, eps, idx, l);
            assert(s == a + seq![idx] + b);
            let na = a.len() as int;
            let nb = b.len() as int;
            let aa = na + 1;
            assert(s[na] == idx);
            assert(kk[aa] == idx);
            assert(r == na + nb + 2);
            lemma_scan_exact(x, y, f, l, f + 1, 0, 0);
            assert(bc == spec_cross(x, y, f, l, idx) * spec_cross(x, y, f, l, idx));
            assert(spec_chord2(xs, ys, fp, lp) == spec_chord2(x, y, f, l));
            let pa = fp + aa;
            assert forall|p: int|
                fp + 1 <= p < pa implies #[trigger] (spec_cross(xs, ys, fp, lp, p) * spec_cross(
                xs,
                ys,
                fp,
                lp,
                p,
            )) < bc by {
                let q = p - fp;
                assert(kk[q] == s[q - 1]);
                assert(s[q - 1] == a[q - 1]);
                assert(f < kk[q] < idx);
                assert(xs[fp + q] == x[kk[q]] && ys[fp + q] == y[kk[q]]);
                assert(spec_cross(xs, ys, fp, lp, p) == spec_cross(x, y, f, l, kk[q]));
            }
            assert forall|p: int|
                pa < p < lp implies #[trigger] (spec_cross(xs, ys, fp, lp, p) * spec_cross(
                xs,
                ys,
                fp,
                lp,
                p,
            )) <= bc by {
                let q = p - fp;
                assert(kk[q] == s[q - 1]);
                assert(s[q - 1] == b[q - 1 - aa]);
                assert(idx < kk[q] < l);
                assert(xs[fp + q] == x[kk[q]] && ys[fp + q] == y[kk[q]]);
                assert(spec_cross(xs, ys, fp, lp, p) == spec_cross(x, y, f, l, kk[q]));
            }
            assert(xs[pa] == x[idx] && ys[pa] == y[idx]);
            assert(spec_cross(xs, ys, fp, lp, pa) == spec_cross(x, y, f, l, idx));
            lemma_scan_approach(xs, ys, fp, lp, fp + 1, 0, 0, pa, bc);
            assert(spec_scan(xs, ys, fp, lp, fp + 1, 0, 0) == (pa, bc));
            assert(spec_rdp(xs, ys, eps, fp, lp) == spec_rdp(xs, ys, eps, fp, pa) + seq![pa]
                + spec_rdp(xs, ys, eps, pa, lp));
            let kkl = seq![f] + a + seq![idx];
            assert forall|q: int| 0 <= q < kkl.len() implies xs[fp + q] == x[#[trigger] kkl[q]]
                && ys[fp + q] == y[kkl[q]] by {
                assert(kkl[q] == kk[q]) by {
                    if q == 0 {
                    } else if q <= na {
                        assert(kkl[q] == a[q - 1]);
                        assert(kk[q] == s[q - 1]);
                        assert(s[q - 1] == a[q - 1]);
                    } else {
                        assert(kkl[q] == idx);
                    }
                }
            }
            lemma_rdp_rerun(x, y, xs, ys, eps, f, idx, fp);
            assert(fp + kkl.len() - 1 == pa);
            assert(spec_rdp(xs, ys, eps, fp, pa) == spec_idseq(fp + 1, pa));
            let kkr = seq![idx] + b + seq![l];
            assert forall|q: int| 0 <= q < kkr.len() implies xs[pa + q] == x[#[trigger] kkr[q]]
                && ys[pa + q] == y[kkr[q]] by {
                assert(kkr[q] == kk[aa + q]) by {
                    if q == 0 {
                        assert(kk[aa] == idx);
                    } else if q <= nb {
                        assert(kkr[q] == b[q - 1]);
                        assert(kk[aa + q] == s[aa + q - 1]);
                        assert(s[na + q] == b[q - 1]);
                    } else {
                        assert(kkr[q] == l);
                        assert(kk[aa + q] == l);
                    }
                }
                assert(xs[fp + (aa + q)] == x[kk[aa + q]] && ys[fp + (aa + q)] == y[kk[aa + q]]);
            }
            lemma_rdp_rerun(x, y, xs, ys, eps, idx, l, pa);
            assert(pa + kkr.len() - 1 == lp);
            assert(spec_rdp(xs, ys, eps, pa, lp) == spec_idseq(pa + 1, lp));
            assert(spec_rdp(xs, ys, eps, fp, lp) =~= spec_idseq(fp + 1, lp));
        } else {
            assert(s =~= Seq::<int>::empty());
            assert(r == 1);
            assert(spec_rdp(xs, ys, eps, fp, fp + 1) =~= spec_idseq(fp + 1, fp + 1));
        }
    }
}

/// Law: simplifying the simplifier's own output under the same tolerance
/// keeps every point, so a second run returns the same polyline
/// unchanged.
pub proof fn lemma_simplify_idempotent(x: Seq<i64>, y: Seq<i64>, eps: int)
    requires
        2 <= x.len(),
    ensures
        ({
            let kept = spec_rdp_kept(x, y, eps);
            let xs = kept.map_values(|i: int| x[i]);
            let ys = kept.map_values(|i: int| y[i]);
            &&& spec_rdp_kept(xs, ys, eps) == spec_idseq(0, kept.len() as int)
            &&& spec_rdp_kept(xs, ys, eps).map_values(|i: int| xs[i]) == xs
            &&& spec_rdp_kept(xs, ys, eps).map_values(|i: int| ys[i]) == ys
        }),
{
    let kept = spec_rdp_kept(x, y, eps);
    let xs = kept.map_values(|i: int| x[i]);
    let ys = kept.map_values(|i: int| y[i]);
    let n = x.len() as int;
    let s = spec_rdp(x, y, eps, 0, n - 1);
    assert(kept == seq![0int] + s + seq![n - 1]);
    assert forall|q: int| 0 <= q < kept.len() implies xs[0 + q] == x[#[trigger] kept[q]] && ys[0
        + q] == y[kept[q]] by {
        assert(xs[q] == x[kept[q]]);
        assert(ys[q] == y[kept[q]]);
    }
    lemma_rdp_rerun(x, y, xs, ys, eps, 0, n - 1, 0);
    let m = kept.len() as int;
    assert(xs.len() == m && ys.len() == m);
    assert(spec_rdp_kept(xs, ys, eps) =~= spec_idseq(0, m));
    assert(spec_rdp_kept(xs, ys, eps).map_values(|i: int| xs[i]) =~= xs);
    assert(spec_rdp_kept(xs, ys, eps).map_values(|i: int| ys[i]) =~= ys);
}

} // verus!
