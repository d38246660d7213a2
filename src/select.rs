//! Contact selection: which vertex, edge or axis a collision test settles on.
//!
//! Every quantity here is an order key (see `order`): the geometry is computed
//! by the caller, and these functions decide which candidate wins, so that the
//! tie-breaking rules of each test are stated and proved once.
use vstd::prelude::*;

use crate::order::SIGN_BIT;

verus! {

/// The order key of `0.0`.
pub const ZERO_KEY: u32 = SIGN_BIT;

/// `i` holds the first greatest value of `s`, and that value exceeds `floor`.
pub open spec fn is_first_max_above(s: Seq<u32>, floor: u32, i: int) -> bool {
    &&& 0 <= i < s.len()
    &&& s[i] > floor
    &&& forall|j: int| 0 <= j < s.len() ==> s[j] <= s[i]
    &&& forall|j: int| 0 <= j < i ==> s[j] < s[i]
}

/// The deepest-penetrating vertex along one axis (the support point).
///
/// `penetration[k]` is the key of how far vertex `k` lies behind the axis. The
/// result is the first vertex of greatest penetration, provided it exceeds
/// `floor`; `None` when no vertex does.
pub fn support_index(penetration: &Vec<u32>, floor: u32) -> (r: Option<usize>)
    ensures
        r is None <==> (forall|j: int| 0 <= j < penetration@.len() ==> penetration@[j] <= floor),
        r matches Some(i) ==> is_first_max_above(penetration@, floor, i as int),
{
    let mut best: Option<usize> = None;
    let mut deepest: u32 = floor;
    let mut k: usize = 0;
    while k < penetration.len()
        invariant
            k <= penetration@.len(),
            best is None ==> deepest == floor,
            best is None ==> forall|j: int| 0 <= j < k ==> penetration@[j] <= floor,
            best matches Some(b) ==> {
                &&& b < k
                &&& deepest == penetration@[b as int]
                &&& deepest > floor
                &&& forall|j: int| 0 <= j < b ==> penetration@[j] < deepest
            },
            forall|j: int| 0 <= j < k ==> penetration@[j] <= deepest,
        decreases penetration@.len() - k,
    {
        if penetration[k] > deepest {
            deepest = penetration[k];
            best = Some(k);
        }
        k = k + 1;
    }
    best
}

/// The depth an axis reports, or `0` where it found no support point.
pub open spec fn depth(o: Option<u32>) -> u32 {
    match o {
        Some(d) => d,
        None => 0,
    }
}

/// Some axis found no support point: the shapes are apart along it.
pub open spec fn has_separating_axis(axes: Seq<Option<u32>>) -> bool {
    exists|j: int| 0 <= j < axes.len() && axes[j] is None
}

/// `i` is the first axis of least depth, and that depth is under `ceiling`.
pub open spec fn is_shallowest(axes: Seq<Option<u32>>, ceiling: u32, i: int) -> bool {
    &&& 0 <= i < axes.len()
    &&& axes[i] is Some
    &&& depth(axes[i]) < ceiling
    &&& forall|j: int| 0 <= j < axes.len() ==> depth(axes[i]) <= depth(axes[j])
    &&& forall|j: int| 0 <= j < i ==> depth(axes[i]) < depth(axes[j])
}

/// The axis of least penetration, unless some axis separates the shapes or
/// no depth is under `ceiling`.
pub open spec fn shallowest_of(axes: Seq<Option<u32>>, ceiling: u32) -> Option<int> {
    if !has_separating_axis(axes) && exists|i: int| is_shallowest(axes, ceiling, i) {
        Some(choose|i: int| is_shallowest(axes, ceiling, i))
    } else {
        None
    }
}

/// At most one axis is the shallowest.
pub proof fn lemma_shallowest_unique(axes: Seq<Option<u32>>, ceiling: u32, i: int, k: int)
    requires
        is_shallowest(axes, ceiling, i),
        is_shallowest(axes, ceiling, k),
    ensures
        i == k,
{
    if i < k {
        assert(depth(axes[k]) < depth(axes[i]));
    } else if k < i {
        assert(depth(axes[i]) < depth(axes[k]));
    }
}

/// What `shallowest_of` returns is the shallowest axis.
pub proof fn lemma_shallowest_of(axes: Seq<Option<u32>>, ceiling: u32)
    ensures
        shallowest_of(axes, ceiling) matches Some(i) ==> is_shallowest(axes, ceiling, i),
{
}

/// The axis of minimum penetration among one polygon's edge normals.
///
/// `axes[k]` is the key of the support point's penetration along edge normal
/// `k`, or `None` where no vertex of the other shape lies behind that edge.
/// One such edge separates the shapes and the result is `None`; otherwise it
/// is the first axis of least depth under `ceiling` (the key of `f32::MAX`).
pub fn shallowest_axis(axes: &Vec<Option<u32>>, ceiling: u32) -> (r: Option<usize>)
    ensures
        r == (match shallowest_of(axes@, ceiling) {
            Some(i) => Some(i as usize),
            None => None::<usize>,
        }),
        r matches Some(i) ==> is_shallowest(axes@, ceiling, i as int),
{
    let mut best: Option<usize> = None;
    let mut least: u32 = ceiling;
    let mut k: usize = 0;
    while k < axes.len()
        invariant
            k <= axes@.len(),
            forall|j: int| 0 <= j < k ==> axes@[j] is Some,
            forall|j: int| 0 <= j < k ==> least <= depth(axes@[j]),
            best is None ==> least == ceiling,
            best matches Some(b) ==> {
                &&& b < k
                &&& axes@[b as int] is Some
                &&& least == depth(axes@[b as int])
                &&& least < ceiling
                &&& forall|j: int| 0 <= j < b ==> least < depth(axes@[j])
            },
        decreases axes@.len() - k,
    {
        match axes[k] {
            None => {
                assert(has_separating_axis(axes@));
                return None;
            },
            Some(d) => {
                if d < least {
                    least = d;
                    best = Some(k);
                }
            },
        }
        k = k + 1;
    }
    assert(!has_separating_axis(axes@));
    match best {
        Some(b) => {
            assert(is_shallowest(axes@, ceiling, b as int));
            proof {
                let c = choose|i: int| is_shallowest(axes@, ceiling, i);
                lemma_shallowest_unique(axes@, ceiling, b as int, c);
            }
        },
        None => {
            assert forall|i: int| !is_shallowest(axes@, ceiling, i) by {
                if is_shallowest(axes@, ceiling, i) {
                    assert(least <= depth(axes@[i]));
                }
            }
        },
    }
    best
}

/// Which of the two axis searches a polygon–polygon contact comes from.
#[derive(Clone, Copy, Debug, PartialEq, Eq, Structural)]
pub enum PolygonContact {
    /// Axis `i` of the first polygon, reported as found.
    FromFirst(usize),
    /// Axis `k` of the second polygon, negated to read from the first.
    FromSecondNegated(usize),
}

/// `a` comes after `b` in the lexicographic order of `(x, y)` key pairs.
pub open spec fn lex_greater(a: (u32, u32), b: (u32, u32)) -> bool {
    a.0 > b.0 || (a.0 == b.0 && a.1 > b.1)
}

/// `k` is where two pair sequences first part: the first index at which
/// their items differ, or the length of the shorter one.
pub open spec fn is_first_difference(a: Seq<(u32, u32)>, b: Seq<(u32, u32)>, k: int) -> bool {
    &&& 0 <= k <= a.len()
    &&& k <= b.len()
    &&& forall|j: int| 0 <= j < k ==> a[j] == b[j]
    &&& (k == a.len() || k == b.len() || a[k] != b[k])
}

/// `a` comes after `b` in the lexicographic order of pair sequences, in which
/// a proper prefix comes first.
pub open spec fn seq_lex_greater(a: Seq<(u32, u32)>, b: Seq<(u32, u32)>) -> bool {
    exists|k: int|
        is_first_difference(a, b, k) && k < a.len() && (k == b.len() || lex_greater(a[k], b[k]))
}

/// Two sequences that agree below `k` part at some index from `k` on.
proof fn lemma_first_difference_from(a: Seq<(u32, u32)>, b: Seq<(u32, u32)>, k: int) -> (d: int)
    requires
        0 <= k <= a.len(),
        k <= b.len(),
        forall|j: int| 0 <= j < k ==> a[j] == b[j],
    ensures
        is_first_difference(a, b, d),
    decreases a.len() - k,
{
    if k == a.len() || k == b.len() || a[k] != b[k] {
        k
    } else {
        lemma_first_difference_from(a, b, k + 1)
    }
}

/// Where two sequences first part decides their lexicographic order.
proof fn lemma_seq_lex_at(a: Seq<(u32, u32)>, b: Seq<(u32, u32)>, k: int)
    requires
        is_first_difference(a, b, k),
    ensures
        seq_lex_greater(a, b) == (k < a.len() && (k == b.len() || lex_greater(a[k], b[k]))),
{
    assert forall|d: int| is_first_difference(a, b, d) implies d == k by {
        if d < k {
            assert(a[d] == b[d]);
        } else if k < d {
            assert(a[k] == b[k]);
        }
    }
}

/// Of two different pair sequences, exactly one comes after the other.
pub proof fn lemma_seq_lex_total(a: Seq<(u32, u32)>, b: Seq<(u32, u32)>)
    requires
        a != b,
    ensures
        seq_lex_greater(a, b) != seq_lex_greater(b, a),
{
    let k = lemma_first_difference_from(a, b, 0);
    assert(is_first_difference(b, a, k));
    lemma_seq_lex_at(a, b, k);
    lemma_seq_lex_at(b, a, k);
    if k == a.len() && k == b.len() {
        assert(a =~= b);
    }
}

/// Whether the pair sequence `a` comes after `b` lexicographically.
pub fn seq_after(a: &Vec<(u32, u32)>, b: &Vec<(u32, u32)>) -> (r: bool)
    ensures
        r == seq_lex_greater(a@, b@),
{
    let mut k: usize = 0;
    while k < a.len() && k < b.len()
        invariant
            k <= a@.len(),
            k <= b@.len(),
            forall|j: int| 0 <= j < k ==> a@[j] == b@[j],
        decreases a@.len() - k,
    {
        let (ax, ay) = a[k];
        let (bx, by) = b[k];
        if ax != bx || ay != by {
            proof {
                lemma_seq_lex_at(a@, b@, k as int);
            }
            return ax > bx || (ax == bx && ay > by);
        }
        k = k + 1;
    }
    proof {
        lemma_seq_lex_at(a@, b@, k as int);
    }
    k < a.len()
}

/// One polygon's side of a separating-axis test, as keys.
pub struct AxisSearch {
    /// Per edge normal of this polygon, the support depth of the other
    /// polygon's vertices behind it, or `None` where none lies behind.
    pub depths: Vec<Option<u32>>,
    /// Per edge normal, the keys of its x and y components.
    pub normals: Vec<(u32, u32)>,
    /// The keys of the x and y components of this polygon's vertices.
    pub vertices: Vec<(u32, u32)>,
}

/// What an `AxisSearch` holds.
pub struct AxisSearchView {
    pub depths: Seq<Option<u32>>,
    pub normals: Seq<(u32, u32)>,
    pub vertices: Seq<(u32, u32)>,
}

impl View for AxisSearch {
    type V = AxisSearchView;

    open spec fn view(&self) -> AxisSearchView {
        AxisSearchView { depths: self.depths@, normals: self.normals@, vertices: self.vertices@ }
    }
}

/// Axis `i` of the first search beats axis `k` of the second: it is
/// shallower; on equal depth its normal comes later in key order; on equal
/// normals the first polygon's vertices come later in key order.
pub open spec fn first_wins(a: AxisSearchView, b: AxisSearchView, i: int, k: int) -> bool {
    ||| depth(a.depths[i]) < depth(b.depths[k])
    ||| (depth(a.depths[i]) == depth(b.depths[k]) && lex_greater(a.normals[i], b.normals[k]))
    ||| (depth(a.depths[i]) == depth(b.depths[k]) && a.normals[i] == b.normals[k]
        && seq_lex_greater(a.vertices, b.vertices))
}

/// The separating-axis decision for two polygons: both searches must find an
/// axis, and of the two the one that `first_wins` picks is the contact, so
/// that the decision does not depend on which polygon is named first.
pub open spec fn polygon_contact_of(
    first: AxisSearchView,
    second: AxisSearchView,
    ceiling: u32,
) -> Option<PolygonContact> {
    match (shallowest_of(first.depths, ceiling), shallowest_of(second.depths, ceiling)) {
        (Some(i), Some(k)) => if first_wins(first, second, i, k) {
            Some(PolygonContact::FromFirst(i as usize))
        } else {
            Some(PolygonContact::FromSecondNegated(k as usize))
        },
        _ => None,
    }
}

/// The same contact, seen from the other polygon.
pub open spec fn mirrored(c: PolygonContact) -> PolygonContact {
    match c {
        PolygonContact::FromFirst(i) => PolygonContact::FromSecondNegated(i),
        PolygonContact::FromSecondNegated(k) => PolygonContact::FromFirst(k),
    }
}

/// The depth a polygon–polygon contact reports.
pub open spec fn contact_depth(
    first: AxisSearchView,
    second: AxisSearchView,
    c: PolygonContact,
) -> u32 {
    match c {
        PolygonContact::FromFirst(i) => depth(first.depths[i as int]),
        PolygonContact::FromSecondNegated(k) => depth(second.depths[k as int]),
    }
}

/// Picks the contact of two polygons from their two axis searches: `first`
/// tests the edge normals of the first polygon against the vertices of the
/// second, `second` the other way round.
pub fn polygon_contact(first: &AxisSearch, second: &AxisSearch, ceiling: u32) -> (r: Option<
    PolygonContact,
>)
    requires
        first.normals@.len() == first.depths@.len(),
        second.normals@.len() == second.depths@.len(),
    ensures
        r == polygon_contact_of(first@, second@, ceiling),
{
    let a = match shallowest_axis(&first.depths, ceiling) {
        Some(i) => i,
        None => return None,
    };
    let b = match shallowest_axis(&second.depths, ceiling) {
        Some(k) => k,
        None => return None,
    };
    let da = match first.depths[a] {
        Some(d) => d,
        None => 0,
    };
    let db = match second.depths[b] {
        Some(d) => d,
        None => 0,
    };
    let (nax, nay) = first.normals[a];
    let (nbx, nby) = second.normals[b];
    let wins = if da != db {
        da < db
    } else if nax != nbx || nay != nby {
        nax > nbx || (nax == nbx && nay > nby)
    } else {
        seq_after(&first.vertices, &second.vertices)
    };
    if wins {
        Some(PolygonContact::FromFirst(a))
    } else {
        Some(PolygonContact::FromSecondNegated(b))
    }
}

/// Polygon–polygon contact is symmetric: for two different polygons, testing
/// B against A finds a contact exactly when testing A against B does, and
/// settles on the same edge normal of the same polygon, negated in one of the
/// two results, with the same depth.
pub proof fn lemma_polygon_contact_symmetric(a: AxisSearchView, b: AxisSearchView, ceiling: u32)
    requires
        a.depths.len() <= usize::MAX,
        b.depths.len() <= usize::MAX,
        a.vertices != b.vertices,
    ensures
        polygon_contact_of(a, b, ceiling) is None <==> polygon_contact_of(b, a, ceiling) is None,
        polygon_contact_of(a, b, ceiling) matches Some(c) ==> {
            &&& polygon_contact_of(b, a, ceiling) == Some(mirrored(c))
            &&& contact_depth(a, b, c) == contact_depth(b, a, mirrored(c))
        },
{
    lemma_shallowest_of(a.depths, ceiling);
    lemma_shallowest_of(b.depths, ceiling);
    lemma_seq_lex_total(a.vertices, b.vertices);
}

/// Where a circle's center stands relative to one polygon edge, as keys.
#[derive(Clone, Copy, Debug, PartialEq, Eq, Structural)]
pub struct EdgeProjection {
    /// The center, seen from the edge's start, projected on the unit edge direction.
    pub along: u32,
    /// The edge's length.
    pub length: u32,
    /// The center, seen from the edge's start, projected on the outward normal.
    pub across: u32,
}

/// The center's foot falls strictly inside the edge, on its outer side.
pub open spec fn in_edge_region(e: EdgeProjection) -> bool {
    ZERO_KEY < e.along && e.along < e.length && ZERO_KEY <= e.across
}

impl EdgeProjection {
    /// Whether the edge is a candidate for the edge-region test.
    pub fn in_region(&self) -> (r: bool)
        ensures
            r == in_edge_region(*self),
    {
        ZERO_KEY < self.along && self.along < self.length && ZERO_KEY <= self.across
    }
}

/// `i` is the last edge in whose region the center stands.
pub open spec fn is_last_in_region(edges: Seq<EdgeProjection>, i: int) -> bool {
    &&& 0 <= i < edges.len()
    &&& in_edge_region(edges[i])
    &&& forall|j: int| i < j < edges.len() ==> !in_edge_region(edges[j])
}

/// The last edge in whose region the center stands, if any.
pub open spec fn last_in_region_of(edges: Seq<EdgeProjection>) -> Option<int> {
    if exists|i: int| is_last_in_region(edges, i) {
        Some(choose|i: int| is_last_in_region(edges, i))
    } else {
        None
    }
}

/// `i` is the first vertex closer than the radius: `dist2[i]` and `radius2`
/// are keys of squared lengths.
pub open spec fn is_first_within(dist2: Seq<u32>, radius2: u32, i: int) -> bool {
    &&& 0 <= i < dist2.len()
    &&& dist2[i] < radius2
    &&& forall|j: int| 0 <= j < i ==> dist2[j] >= radius2
}

/// The first vertex closer than the radius, if any.
pub open spec fn first_within_of(dist2: Seq<u32>, radius2: u32) -> Option<int> {
    if exists|i: int| is_first_within(dist2, radius2, i) {
        Some(choose|i: int| is_first_within(dist2, radius2, i))
    } else {
        None
    }
}

/// The last edge in whose region the circle's center stands; later edges
/// win over earlier ones.
pub fn last_edge_in_region(edges: &Vec<EdgeProjection>) -> (r: Option<usize>)
    ensures
        r == (match last_in_region_of(edges@) {
            Some(i) => Some(i as usize),
            None => None::<usize>,
        }),
        r is None <==> forall|j: int| 0 <= j < edges@.len() ==> !in_edge_region(edges@[j]),
        r matches Some(i) ==> is_last_in_region(edges@, i as int),
{
    let mut found: Option<usize> = None;
    let mut k: usize = 0;
    while k < edges.len()
        invariant
            k <= edges@.len(),
            found is None ==> forall|j: int| 0 <= j < k ==> !in_edge_region(edges@[j]),
            found matches Some(f) ==> {
                &&& f < k
                &&& in_edge_region(edges@[f as int])
                &&& forall|j: int| f < j < k ==> !in_edge_region(edges@[j])
            },
        decreases edges@.len() - k,
    {
        if edges[k].in_region() {
            found = Some(k);
        }
        k = k + 1;
    }
    proof {
        if let Some(f) = found {
            let c = choose|i: int| is_last_in_region(edges@, i);
            assert(is_last_in_region(edges@, f as int));
            if c < f {
                assert(!in_edge_region(edges@[f as int]));
            } else if f < c {
                assert(!in_edge_region(edges@[c]));
            }
        } else {
            assert forall|i: int| !is_last_in_region(edges@, i) by {
                if is_last_in_region(edges@, i) {
                    assert(!in_edge_region(edges@[i]));
                }
            }
        }
    }
    found
}

/// The first vertex closer to the circle's center than its radius:
/// `dist2[k]` is the key of vertex `k`'s squared distance, `radius2` that of
/// the squared radius.
pub fn first_vertex_within(dist2: &Vec<u32>, radius2: u32) -> (r: Option<usize>)
    ensures
        r == (match first_within_of(dist2@, radius2) {
            Some(i) => Some(i as usize),
            None => None::<usize>,
        }),
        r is None <==> forall|j: int| 0 <= j < dist2@.len() ==> dist2@[j] >= radius2,
        r matches Some(i) ==> is_first_within(dist2@, radius2, i as int),
{
    let mut k: usize = 0;
    while k < dist2.len()
        invariant
            k <= dist2@.len(),
            forall|j: int| 0 <= j < k ==> dist2@[j] >= radius2,
        decreases dist2@.len() - k,
    {
        if dist2[k] < radius2 {
            proof {
                let c = choose|i: int| is_first_within(dist2@, radius2, i);
                assert(is_first_within(dist2@, radius2, k as int));
                if c < k {
                    assert(dist2@[c] >= radius2);
                } else if k < c {
                    assert(dist2@[k as int] >= radius2);
                }
            }
            return Some(k);
        }
        k = k + 1;
    }
    assert forall|i: int| !is_first_within(dist2@, radius2, i) by {
        if is_first_within(dist2@, radius2, i) {
            assert(dist2@[i] >= radius2);
        }
    }
    None
}

/// What a circle touches of a polygon.
#[derive(Clone, Copy, Debug, PartialEq, Eq, Structural)]
pub enum CircleContact {
    /// The circle overlaps edge `i`, along its outward normal.
    Edge(usize),
    /// The circle holds vertex `k`.
    Vertex(usize),
}

/// The two-phase circle–polygon decision. Where the center stands in some
/// edge's region, the last such edge decides alone: contact iff the center
/// lies less than `radius` outside it. Only where no edge qualifies, the
/// first vertex closer than the radius is the contact.
pub open spec fn circle_contact_of(
    edges: Seq<EdgeProjection>,
    radius: u32,
    dist2: Seq<u32>,
    radius2: u32,
) -> Option<CircleContact> {
    match last_in_region_of(edges) {
        Some(i) => if edges[i].across < radius {
            Some(CircleContact::Edge(i as usize))
        } else {
            None
        },
        None => match first_within_of(dist2, radius2) {
            Some(k) => Some(CircleContact::Vertex(k as usize)),
            None => None,
        },
    }
}

/// Decides how a circle meets a polygon: `edges[i]` places the center
/// relative to edge `i`, `radius` is the key of the radius, `dist2[k]` the key
/// of the squared distance from the center to vertex `k`, and `radius2` that
/// of the squared radius.
pub fn circle_polygon_contact(
    edges: &Vec<EdgeProjection>,
    radius: u32,
    dist2: &Vec<u32>,
    radius2: u32,
) -> (r: Option<CircleContact>)
    ensures
        r == circle_contact_of(edges@, radius, dist2@, radius2),
{
    match last_edge_in_region(edges) {
        Some(i) => if edges[i].across < radius {
            Some(CircleContact::Edge(i))
        } else {
            None
        },
        None => match first_vertex_within(dist2, radius2) {
            Some(k) => Some(CircleContact::Vertex(k)),
            None => None,
        },
    }
}

/// The edge-region boundary: where the last qualifying edge places the center
/// exactly `radius` outside it, the depth is zero and there is no contact;
/// anywhere closer, that edge is the contact.
pub proof fn lemma_edge_contact_boundary(
    edges: Seq<EdgeProjection>,
    radius: u32,
    dist2: Seq<u32>,
    radius2: u32,
    i: int,
)
    requires
        edges.len() <= usize::MAX,
        is_last_in_region(edges, i),
    ensures
        edges[i].across == radius ==> circle_contact_of(edges, radius, dist2, radius2) is None,
        edges[i].across < radius ==> circle_contact_of(edges, radius, dist2, radius2) == Some(
            CircleContact::Edge(i as usize),
        ),
{
    let c = choose|k: int| is_last_in_region(edges, k);
    if c < i {
        assert(!in_edge_region(edges[i]));
    } else if i < c {
        assert(!in_edge_region(edges[c]));
    }
}

} // verus!
