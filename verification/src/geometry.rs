//! Hit testing: which hoverable element of a frame lies under the
//! pointer. Every geometric predicate is exact integer arithmetic over
//! screen-space coordinates in the engine's working range; elements are
//! tested topmost (last declared) first, and text never takes part.

use vstd::prelude::*;
use crate::scene::{Pos, Rect, Shape, Text, Element, Frame, Frames};
use crate::transform::{Transform, COORD_MAX, clamp_coord, clamp, spec_scale_len};
use vstd::arithmetic::div_mod::{lemma_small_mod, lemma_mod_multiples_vanish};

verus! {

/// The hover threshold for open paths: ten screen units, in subunits.
pub const HIT_DIST: i64 = 10 * 256;

/// A point clamped componentwise into the working range.
pub open spec fn clamp_pos(p: Pos) -> Pos {
    Pos { x: clamp_coord(p.x as int) as i64, y: clamp_coord(p.y as int) as i64 }
}

// ---------------------------------------------------------------------------
// The region predicates, per hover kind.
// ---------------------------------------------------------------------------

/// The open-path segment test: the pointer projects onto the segment
/// (both dot products point inward), and the perpendicular distance to
/// the segment line is below the threshold. A point beyond either
/// endpoint, or any point against a zero-length segment, never hits.
pub open spec fn spec_seg_hit(a1: Pos, a2: Pos, p: Pos) -> bool {
    let dx = a2.x - a1.x;
    let dy = a2.y - a1.y;
    let wx = p.x - a1.x;
    let wy = p.y - a1.y;
    let ux = p.x - a2.x;
    let uy = p.y - a2.y;
    let len2 = dx * dx + dy * dy;
    let cross = dx * wy - dy * wx;
    &&& len2 > 0
    &&& dx * wx + dy * wy >= 0
    &&& dx * ux + dy * uy <= 0
    &&& cross * cross < (HIT_DIST * HIT_DIST) * len2
}

/// Some segment of the transformed polyline is hit.
pub open spec fn spec_path_hit(path: Seq<Pos>, p: Pos, t: Transform) -> bool {
    exists|i: int| #![trigger path[i]]
        1 <= i < path.len() && spec_seg_hit(
            t.spec_apply(path[i - 1]),
            t.spec_apply(path[i]),
            p,
        )
}

/// Axis-aligned containment in the transformed rectangle: inclusive on
/// the min edge, exclusive on the max edge.
pub open spec fn spec_rect_hit(rect: Rect, p: Pos, t: Transform) -> bool {
    let qmin = t.spec_apply(rect.min);
    let qmax = t.spec_apply(rect.max);
    qmin.x <= p.x < qmax.x && qmin.y <= p.y < qmax.y
}

/// Whether `p1` lies strictly on the negative side of the edge from
/// `p2`-to-`p3`'s supporting line (a negative 2D cross product).
pub open spec fn spec_cross_neg(p1: Pos, p2: Pos, p3: Pos) -> bool {
    (p1.x - p3.x) * (p2.y - p3.y) - (p2.x - p3.x) * (p1.y - p3.y) < 0
}

/// The closed-path containment rule: some wrapping vertex triple gives
/// the pointer the same orientation against all three of its edges.
pub open spec fn spec_closed_hit(path: Seq<Pos>, p: Pos, t: Transform) -> bool {
    exists|i: int| #![trigger path[i]]
        0 <= i < path.len() && ({
            let n = path.len() as int;
            let v1 = t.spec_apply(path[i]);
            let v2 = t.spec_apply(path[(i + 1) % n]);
            let v3 = t.spec_apply(path[(i + 2) % n]);
            let b1 = spec_cross_neg(p, v1, v2);
            let b2 = spec_cross_neg(p, v2, v3);
            let b3 = spec_cross_neg(p, v3, v1);
            b1 == b2 && b2 == b3
        })
}

/// The ellipse test: the offset from the transformed center, normalized
/// per axis by the radius scaled along that axis, has squared length at
/// most one. A degenerate scaled radius never hits.
pub open spec fn spec_circle_hit(center: Pos, radius: i64, p: Pos, t: Transform) -> bool {
    let q = t.spec_apply(center);
    let rx = spec_scale_len(radius as int, t.to.max.x - t.to.min.x, t.from.max.x - t.from.min.x);
    let ry = spec_scale_len(radius as int, t.to.max.y - t.to.min.y, t.from.max.y - t.from.min.y);
    let vx = q.x - p.x;
    let vy = q.y - p.y;
    rx > 0 && ry > 0 && (vx * ry) * (vx * ry) + (vy * rx) * (vy * rx) <= (rx * ry) * (rx * ry)
}

// ---------------------------------------------------------------------------
// The hover kinds and their executable tests.
// ---------------------------------------------------------------------------

/// The geometric hover region of an element, keyed by the shape that
/// produced it.
#[derive(Clone, Debug, PartialEq)]
pub enum HoverCondition {
    Rect(Rect),
    Path(Vec<Pos>),
    ClosedPath(Vec<Pos>),
    Circle(Pos, i64),
}

/// The mathematical value of a [`HoverCondition`].
pub enum HoverConditionView {
    Rect(Rect),
    Path(Seq<Pos>),
    ClosedPath(Seq<Pos>),
    Circle(Pos, i64),
}

impl View for HoverCondition {
    type V = HoverConditionView;

    open spec fn view(&self) -> HoverConditionView {
        match self {
            HoverCondition::Rect(r) => HoverConditionView::Rect(*r),
            HoverCondition::Path(v) => HoverConditionView::Path(v@),
            HoverCondition::ClosedPath(v) => HoverConditionView::ClosedPath(v@),
            HoverCondition::Circle(c, r) => HoverConditionView::Circle(*c, *r),
        }
    }
}

/// Whether the (clamped) pointer falls in the region, in screen space.
pub open spec fn spec_cond_hit(c: HoverConditionView, p: Pos, t: Transform) -> bool {
    let pc = clamp_pos(p);
    match c {
        HoverConditionView::Rect(r) => spec_rect_hit(r, pc, t),
        HoverConditionView::Path(v) => spec_path_hit(v, pc, t),
        HoverConditionView::ClosedPath(v) => spec_closed_hit(v, pc, t),
        HoverConditionView::Circle(center, radius) => spec_circle_hit(center, radius, pc, t),
    }
}

/// `|a * b| <= bound_a * bound_b` when the factors are bounded.
proof fn lemma_abs_mul(a: int, b: int, ba: int, bb: int)
    requires
        -ba <= a <= ba,
        -bb <= b <= bb,
        0 <= ba,
        0 <= bb,
    ensures
        -(ba * bb) <= a * b <= ba * bb,
{
    assert(-(ba * bb) <= a * b <= ba * bb) by (nonlinear_arith)
        requires
            -ba <= a <= ba,
            -bb <= b <= bb,
            0 <= ba,
            0 <= bb,
    ;
}

/// The executable segment test, exact over `i128` intermediates.
fn seg_hit(a1: Pos, a2: Pos, p: Pos) -> (r: bool)
    requires
        -COORD_MAX <= a1.x <= COORD_MAX,
        -COORD_MAX <= a1.y <= COORD_MAX,
        -COORD_MAX <= a2.x <= COORD_MAX,
        -COORD_MAX <= a2.y <= COORD_MAX,
        -COORD_MAX <= p.x <= COORD_MAX,
        -COORD_MAX <= p.y <= COORD_MAX,
    ensures
        r == spec_seg_hit(a1, a2, p),
{
    let dx = (a2.x - a1.x) as i128;
    let dy = (a2.y - a1.y) as i128;
    let wx = (p.x - a1.x) as i128;
    let wy = (p.y - a1.y) as i128;
    let ux = (p.x - a2.x) as i128;
    let uy = (p.y - a2.y) as i128;
    proof {
        let b: int = 0x8000_0000;
        lemma_abs_mul(dx as int, dx as int, b, b);
        lemma_abs_mul(dy as int, dy as int, b, b);
        lemma_abs_mul(dx as int, wx as int, b, b);
        lemma_abs_mul(dy as int, wy as int, b, b);
        lemma_abs_mul(dx as int, ux as int, b, b);
        lemma_abs_mul(dy as int, uy as int, b, b);
        lemma_abs_mul(dx as int, wy as int, b, b);
        lemma_abs_mul(dy as int, wx as int, b, b);
    }
    let len2 = dx * dx + dy * dy;
    let cross = dx * wy - dy * wx;
    proof {
        let b2: int = 0x8000_0000int * 0x8000_0000int;
        lemma_abs_mul(cross as int, cross as int, 2 * b2, 2 * b2);
        lemma_abs_mul((HIT_DIST * HIT_DIST) as int, len2 as int, 0x640000, 2 * b2);
    }
    let th = (HIT_DIST as i128) * (HIT_DIST as i128);
    len2 > 0 && dx * wx + dy * wy >= 0 && dx * ux + dy * uy <= 0 && cross * cross < th * len2
}

/// The executable orientation test.
fn cross_neg(p1: Pos, p2: Pos, p3: Pos) -> (r: bool)
    requires
        -COORD_MAX <= p1.x <= COORD_MAX,
        -COORD_MAX <= p1.y <= COORD_MAX,
        -COORD_MAX <= p2.x <= COORD_MAX,
        -COORD_MAX <= p2.y <= COORD_MAX,
        -COORD_MAX <= p3.x <= COORD_MAX,
        -COORD_MAX <= p3.y <= COORD_MAX,
    ensures
        r == spec_cross_neg(p1, p2, p3),
{
    let e1 = (p1.x - p3.x) as i128;
    let e2 = (p2.y - p3.y) as i128;
    let e3 = (p2.x - p3.x) as i128;
    let e4 = (p1.y - p3.y) as i128;
    proof {
        let b: int = 0x8000_0000;
        lemma_abs_mul(e1 as int, e2 as int, b, b);
        lemma_abs_mul(e3 as int, e4 as int, b, b);
    }
    e1 * e2 - e3 * e4 < 0
}

impl HoverCondition {
    /// Whether the pointer (screen space) falls inside this region when
    /// the region's canvas-space geometry is mapped through `to_screen`.
    pub fn check(&self, p: Pos, to_screen: &Transform) -> (r: bool)
        requires
            to_screen.wf(),
        ensures
            r == spec_cond_hit(self@, p, *to_screen),
    {
        let pc = Pos { x: clamp(p.x), y: clamp(p.y) };
        match self {
            HoverCondition::Rect(rect) => {
                let qmin = to_screen.apply(rect.min);
                let qmax = to_screen.apply(rect.max);
                qmin.x <= pc.x && pc.x < qmax.x && qmin.y <= pc.y && pc.y < qmax.y
            }
            HoverCondition::Path(path) => {
                let mut ok = false;
                let n = path.len();
                let ghost pv = path@;
                let mut i: usize = 1;
                while i < n
                    invariant
                        to_screen.wf(),
                        n == pv.len(),
                        1 <= i,
                        i <= n || i == 1,
                        pv == path@,
                        -COORD_MAX <= pc.x <= COORD_MAX,
                        -COORD_MAX <= pc.y <= COORD_MAX,
                        pc == clamp_pos(p),
                        ok == exists|j: int| #![trigger pv[j]]
                            1 <= j < i && spec_seg_hit(
                                to_screen.spec_apply(pv[j - 1]),
                                to_screen.spec_apply(pv[j]),
                                pc,
                            ),
                    decreases n - i,
                {
                    let a1 = to_screen.apply(path[i - 1]);
                    let a2 = to_screen.apply(path[i]);
                    let hit = seg_hit(a1, a2, pc);
                    proof {
                        if hit {
                            assert(spec_seg_hit(
                                to_screen.spec_apply(pv[i - 1]),
                                to_screen.spec_apply(pv[i as int]),
                                pc,
                            ));
                        }
                    }
                    ok = ok || hit;
                    i = i + 1;
                }
                ok
            }
            HoverCondition::ClosedPath(path) => {
                let mut ok = false;
                let n = path.len();
                let ghost pv = path@;
                let mut i: usize = 0;
                while i < n
                    invariant
                        to_screen.wf(),
                        n == pv.len(),
                        i <= n,
                        pv == path@,
                        -COORD_MAX <= pc.x <= COORD_MAX,
                        -COORD_MAX <= pc.y <= COORD_MAX,
                        pc == clamp_pos(p),
                        ok == exists|j: int| #![trigger pv[j]]
                            0 <= j < i && ({
                                let m = pv.len() as int;
                                let v1 = to_screen.spec_apply(pv[j]);
                                let v2 = to_screen.spec_apply(pv[(j + 1) % m]);
                                let v3 = to_screen.spec_apply(pv[(j + 2) % m]);
                                let b1 = spec_cross_neg(pc, v1, v2);
                                let b2 = spec_cross_neg(pc, v2, v3);
                                let b3 = spec_cross_neg(pc, v3, v1);
                                b1 == b2 && b2 == b3
                            }),
                    decreases n - i,
                {
                    let i1 = if i + 1 == n {
                        0
                    } else {
                        i + 1
                    };
                    let i2 = if i1 + 1 == n {
                        0
                    } else {
                        i1 + 1
                    };
                    proof {
                        let m = n as int;
                        let gi = i as int;
                        let g1 = i1 as int;
                        let g2 = i2 as int;
                        let c1: bool = (g1 == 0 && gi + 1 == m) || (g1 == gi + 1 && gi + 1 < m);
                        let c2: bool = (g2 == 0 && g1 + 1 == m) || (g2 == g1 + 1 && g1 + 1 < m);
                        assert(c1);
                        assert(c2);
                        if gi + 1 == m {
                            lemma_mod_multiples_vanish(1, 0, m);
                            lemma_small_mod(0, m as nat);
                        } else {
                            lemma_small_mod((gi + 1) as nat, m as nat);
                        }
                        if gi + 2 == m {
                            lemma_mod_multiples_vanish(1, 0, m);
                            lemma_small_mod(0, m as nat);
                        } else if gi + 2 == m + 1 {
                            lemma_mod_multiples_vanish(1, 1, m);
                            if m == 1 {
                                lemma_mod_multiples_vanish(1, 0, 1);
                                lemma_small_mod(0, 1);
                            } else {
                                lemma_small_mod(1, m as nat);
                            }
                        } else {
                            lemma_small_mod((gi + 2) as nat, m as nat);
                        }
                        assert(g1 == (gi + 1) % m);
                        assert(g2 == (gi + 2) % m);
                    }
                    let v1 = to_screen.apply(path[i]);
                    let v2 = to_screen.apply(path[i1]);
                    let v3 = to_screen.apply(path[i2]);
                    let b1 = cross_neg(pc, v1, v2);
                    let b2 = cross_neg(pc, v2, v3);
                    let b3 = cross_neg(pc, v3, v1);
                    let hit = b1 == b2 && b2 == b3;
                    ok = ok || hit;
                    i = i + 1;
                }
                ok
            }
            HoverCondition::Circle(center, radius) => {
                let q = to_screen.apply(*center);
                let rx = to_screen.scale_len_x(*radius);
                let ry = to_screen.scale_len_y(*radius);
                if rx == 0 || ry == 0 {
                    false
                } else {
                    let vx = (q.x - pc.x) as i128;
                    let vy = (q.y - pc.y) as i128;
                    proof {
                        let b: int = 0x8000_0000;
                        let cm: int = 0x4000_0000;
                        lemma_abs_mul(vx as int, ry as int, b, cm);
                        lemma_abs_mul(vy as int, rx as int, b, cm);
                        lemma_abs_mul(rx as int, ry as int, cm, cm);
                        lemma_abs_mul(vx as int * ry as int, vx as int * ry as int, b * cm, b * cm);
                        lemma_abs_mul(vy as int * rx as int, vy as int * rx as int, b * cm, b * cm);
                        lemma_abs_mul(rx as int * ry as int, rx as int * ry as int, cm * cm, cm * cm);
                    }
                    let sx = vx * (ry as i128);
                    let sy = vy * (rx as i128);
                    let rr = (rx as i128) * (ry as i128);
                    sx * sx + sy * sy <= rr * rr
                }
            }
        }
    }
}

// ---------------------------------------------------------------------------
// The boundary laws of the region predicates.
// ---------------------------------------------------------------------------

/// A pointer on a segment's supporting line but beyond an endpoint (its
/// projection parameter falls outside the segment) never hits, however
/// close to the line it is: the endpoints do not act as round caps.
pub proof fn lemma_segment_no_hit_beyond_endpoints(a1: Pos, a2: Pos, p: Pos)
    requires
        ({
            let dx = a2.x - a1.x;
            let dy = a2.y - a1.y;
            let wx = p.x - a1.x;
            let wy = p.y - a1.y;
            let ux = p.x - a2.x;
            let uy = p.y - a2.y;
            dx * wx + dy * wy < 0 || dx * ux + dy * uy > 0
        }),
    ensures
        !spec_seg_hit(a1, a2, p),
{
}

/// The rectangle edge rule: with the pointer's y strictly inside the
/// transformed band, a pointer exactly on the min edge hits, and one
/// exactly on the max edge does not.
pub proof fn lemma_rect_hit_boundary(rect: Rect, t: Transform, y: i64)
    requires
        ({
            let qmin = t.spec_apply(rect.min);
            let qmax = t.spec_apply(rect.max);
            qmin.x < qmax.x && qmin.y <= y < qmax.y
        }),
    ensures
        spec_rect_hit(rect, Pos { x: t.spec_apply(rect.min).x, y }, t),
        !spec_rect_hit(rect, Pos { x: t.spec_apply(rect.max).x, y }, t),
{
}

// ---------------------------------------------------------------------------
// The viewer-facing frame: elements with hover regions, and hit testing.
// ---------------------------------------------------------------------------

/// A hover region together with its tooltip text.
#[derive(Clone, Debug, PartialEq)]
pub struct Hover {
    pub hover_cond: HoverCondition,
    pub msg: String,
}

/// The mathematical value of a [`Hover`].
#[verifier::ext_equal]
pub struct HoverView {
    pub hover_cond: HoverConditionView,
    pub msg: Seq<char>,
}

impl View for Hover {
    type V = HoverView;

    open spec fn view(&self) -> HoverView {
        HoverView { hover_cond: self.hover_cond@, msg: self.msg@ }
    }
}

impl Hover {
    /// Whether the pointer falls in this hover's region.
    pub fn check(&self, p: Pos, to_screen: &Transform) -> (r: bool)
        requires
            to_screen.wf(),
        ensures
            r == spec_cond_hit(self@.hover_cond, p, *to_screen),
    {
        self.hover_cond.check(p, to_screen)
    }
}

/// What a frame element draws: a geometric shape or a text item.
#[derive(Clone, Debug, PartialEq)]
pub enum ElementKind {
    Shape(Shape),
    Text(Text),
}

/// The mathematical value of an [`ElementKind`].
pub enum ElementKindView {
    Shape(crate::scene::ShapeView),
    Text(crate::scene::TextView),
}

impl View for ElementKind {
    type V = ElementKindView;

    open spec fn view(&self) -> ElementKindView {
        match self {
            ElementKind::Shape(s) => ElementKindView::Shape(s@),
            ElementKind::Text(t) => ElementKindView::Text(t@),
        }
    }
}

/// One drawable element of a paint frame, with its optional hover
/// region.
#[derive(Clone, Debug, PartialEq)]
pub struct FrameElement {
    pub shape: ElementKind,
    pub hover: Option<Hover>,
}

/// The mathematical value of a [`FrameElement`].
#[verifier::ext_equal]
pub struct FrameElementView {
    pub shape: ElementKindView,
    pub hover: Option<HoverView>,
}

impl View for FrameElement {
    type V = FrameElementView;

    open spec fn view(&self) -> FrameElementView {
        FrameElementView {
            shape: self.shape@,
            hover: match &self.hover {
                Some(h) => Some(h@),
                None => None,
            },
        }
    }
}

impl DeepView for FrameElement {
    type V = FrameElementView;

    open spec fn deep_view(&self) -> FrameElementView {
        self.view()
    }
}

/// One scene ready for the viewer: drawable elements in paint order and
/// the frame's normalized bounds rectangle.
#[derive(Clone, Debug, PartialEq)]
pub struct PaintFrame {
    pub elems: Vec<FrameElement>,
    pub rect: Rect,
}

/// The mathematical value of a [`PaintFrame`].
#[verifier::ext_equal]
pub struct PaintFrameView {
    pub elems: Seq<FrameElementView>,
    pub rect: Rect,
}

impl View for PaintFrame {
    type V = PaintFrameView;

    open spec fn view(&self) -> PaintFrameView {
        PaintFrameView { elems: self.elems.deep_view(), rect: self.rect }
    }
}

impl DeepView for PaintFrame {
    type V = PaintFrameView;

    open spec fn deep_view(&self) -> PaintFrameView {
        self.view()
    }
}

impl Default for PaintFrame {
    /// No elements, sentinel bounds.
    fn default() -> (r: Self)
        ensures
            r@.elems == Seq::<FrameElementView>::empty(),
            r@.rect == Rect::spec_nothing(),
    {
        let r = PaintFrame { elems: Vec::new(), rect: Rect::nothing() };
        proof {
            assert(r@.elems =~= Seq::<FrameElementView>::empty());
        }
        r
    }
}

/// The hit-test result over the topmost `k` elements of a frame: the
/// last-declared element whose hover region contains the pointer wins;
/// text and unlabeled elements never match.
pub open spec fn spec_hit_from(
    elems: Seq<FrameElementView>,
    k: int,
    p: Pos,
    t: Transform,
) -> Option<Seq<char>>
    decreases k,
{
    if k <= 0 {
        None
    } else {
        match elems[k - 1].hover {
            Some(h) => if spec_cond_hit(h.hover_cond, p, t) {
                Some(h.msg)
            } else {
                spec_hit_from(elems, k - 1, p, t)
            },
            None => spec_hit_from(elems, k - 1, p, t),
        }
    }
}

/// The hit test over a whole frame.
pub open spec fn spec_hit_test(f: PaintFrameView, p: Pos, t: Transform) -> Option<Seq<char>> {
    spec_hit_from(f.elems, f.elems.len() as int, p, t)
}

impl PaintFrame {
    /// Resolves the pointer to the tooltip of the topmost hoverable
    /// element under it, or nothing: elements are scanned in reverse
    /// declaration order and the first containing region wins.
    pub fn hit_test(&self, p: Pos, to_screen: &Transform) -> (r: Option<String>)
        requires
            to_screen.wf(),
        ensures
            match r {
                Some(m) => spec_hit_test(self@, p, *to_screen) == Some(m@),
                None => spec_hit_test(self@, p, *to_screen) is None,
            },
    {
        let mut k = self.elems.len();
        proof {
            assert(spec_hit_test(self@, p, *to_screen) == spec_hit_from(
                self@.elems,
                k as int,
                p,
                *to_screen,
            ));
        }
        while k > 0
            invariant
                to_screen.wf(),
                k <= self.elems.len(),
                self@.elems.len() == self.elems.len(),
                spec_hit_test(self@, p, *to_screen) == spec_hit_from(
                    self@.elems,
                    k as int,
                    p,
                    *to_screen,
                ),
            decreases k,
        {
            match &self.elems[k - 1].hover {
                Some(h) => {
                    if h.check(p, to_screen) {
                        return Some(h.msg.clone());
                    }
                }
                None => {}
            }
            k = k - 1;
        }
        None
    }
}

/// The paint frame at `idx` of a list, or the default frame when `idx`
/// is out of range: an out-of-range request never fails.
pub fn paint_frame_at(frames: &Vec<PaintFrame>, idx: usize) -> (f: PaintFrame)
    ensures
        idx < frames.deep_view().len() ==> f@ == frames.deep_view()[idx as int],
        idx >= frames.deep_view().len() ==> f@ == (PaintFrameView {
            elems: Seq::<FrameElementView>::empty(),
            rect: Rect::spec_nothing(),
        }),
{
    if idx < frames.len() {
        copy_paint_frame(&frames[idx])
    } else {
        let f = PaintFrame::default();
        proof {
            assert(f@ =~= (PaintFrameView {
                elems: Seq::<FrameElementView>::empty(),
                rect: Rect::spec_nothing(),
            }));
        }
        f
    }
}

/// An exact duplicate of a hover region.
fn copy_hover_cond(c: &HoverCondition) -> (r: HoverCondition)
    ensures
        r@ == c@,
{
    match c {
        HoverCondition::Rect(rc) => HoverCondition::Rect(*rc),
        HoverCondition::Path(v) => HoverCondition::Path(v.clone()),
        HoverCondition::ClosedPath(v) => HoverCondition::ClosedPath(v.clone()),
        HoverCondition::Circle(cc, rr) => HoverCondition::Circle(*cc, *rr),
    }
}

/// An exact duplicate of a frame element.
fn copy_frame_element(e: &FrameElement) -> (r: FrameElement)
    ensures
        r@ == e@,
{
    FrameElement {
        shape: match &e.shape {
            ElementKind::Shape(s) => ElementKind::Shape(crate::scene::copy_shape(s)),
            ElementKind::Text(t) => ElementKind::Text(Text {
                text: t.text.clone(),
                size: t.size,
                pos: t.pos,
                color: t.color,
            }),
        },
        hover: match &e.hover {
            Some(h) => Some(
                Hover { hover_cond: copy_hover_cond(&h.hover_cond), msg: h.msg.clone() },
            ),
            None => None,
        },
    }
}

/// An exact duplicate of a paint frame.
pub fn copy_paint_frame(f: &PaintFrame) -> (r: PaintFrame)
    ensures
        r@ == f@,
{
    let mut elems: Vec<FrameElement> = Vec::new();
    let n = f.elems.len();
    for i in 0..n
        invariant
            n == f.elems.len(),
            elems.deep_view() =~= f@.elems.subrange(0, i as int),
    {
        let ghost prev = elems.deep_view();
        let e = copy_frame_element(&f.elems[i]);
        let ghost ev = e.deep_view();
        elems.push(e);
        proof {
            assert(elems.deep_view() =~= prev.push(ev));
            assert(elems.deep_view() =~= f@.elems.subrange(0, i + 1));
        }
    }
    proof {
        assert(f@.elems.subrange(0, n as int) =~= f@.elems);
    }
    let r = PaintFrame { elems, rect: f.rect };
    proof {
        assert(r@ =~= f@);
    }
    r
}

// ---------------------------------------------------------------------------
// Preparing decoded scenes for the viewer.
// ---------------------------------------------------------------------------

/// How one scene element becomes a drawable element: a filled path is
/// closed (its hover region wraps around), an unfilled path is an open
/// polyline, a circle gets an elliptical region, text gets none; a hover
/// region exists exactly when the element carries a label.
pub open spec fn spec_elem_to_paint(e: crate::scene::ElementView) -> FrameElementView {
    match e.shape {
        crate::scene::ShapeView::Path(pa) => FrameElementView {
            shape: ElementKindView::Shape(crate::scene::ShapeView::Path(pa)),
            hover: match e.msg {
                Some(m) => Some(
                    HoverView {
                        hover_cond: if pa.fill is Some {
                            HoverConditionView::ClosedPath(pa.vp)
                        } else {
                            HoverConditionView::Path(pa.vp)
                        },
                        msg: m,
                    },
                ),
                None => None,
            },
        },
        crate::scene::ShapeView::Circle(c) => FrameElementView {
            shape: ElementKindView::Shape(crate::scene::ShapeView::Circle(c)),
            hover: match e.msg {
                Some(m) => Some(
                    HoverView {
                        hover_cond: HoverConditionView::Circle(c.center, c.radius),
                        msg: m,
                    },
                ),
                None => None,
            },
        },
        crate::scene::ShapeView::Text(t) => FrameElementView {
            shape: ElementKindView::Text(t),
            hover: None,
        },
    }
}

/// How one scene frame becomes a paint frame: elements in order, bounds
/// normalized.
pub open spec fn spec_frame_to_paint(f: crate::scene::FrameView) -> PaintFrameView {
    PaintFrameView {
        elems: f.elems.map_values(|e: crate::scene::ElementView| spec_elem_to_paint(e)),
        rect: crate::scene::spec_rect_from_two_pos(f.p1, f.p2),
    }
}

/// How a whole scene sequence becomes paint frames.
pub open spec fn spec_from_frames(v: crate::scene::FramesView) -> Seq<PaintFrameView> {
    v.frames.map_values(|f: crate::scene::FrameView| spec_frame_to_paint(f))
}

fn elem_to_paint(e: Element) -> (r: FrameElement)
    ensures
        r@ == spec_elem_to_paint(e@),
{
    match e.shape {
        Shape::Path(pa) => {
            let hover = match e.msg {
                Some(m) => Some(
                    Hover {
                        hover_cond: if pa.fill.is_some() {
                            HoverCondition::ClosedPath(pa.vp.clone())
                        } else {
                            HoverCondition::Path(pa.vp.clone())
                        },
                        msg: m,
                    },
                ),
                None => None,
            };
            FrameElement { shape: ElementKind::Shape(Shape::Path(pa)), hover }
        }
        Shape::Circle(c) => {
            let hover = match e.msg {
                Some(m) => Some(
                    Hover { hover_cond: HoverCondition::Circle(c.center, c.radius), msg: m },
                ),
                None => None,
            };
            FrameElement { shape: ElementKind::Shape(Shape::Circle(c)), hover }
        }
        Shape::Text(t) => FrameElement { shape: ElementKind::Text(t), hover: None },
    }
}

fn frame_to_paint(f: Frame) -> (r: PaintFrame)
    ensures
        r@ == spec_frame_to_paint(f@),
{
    let ghost fv = f@;
    let rect = crate::scene::rect_from_two_pos(f.p1, f.p2);
    let mut elems: Vec<FrameElement> = Vec::new();
    let mut src = f.elems;
    let n = src.len();
    proof {
        assert(src.deep_view() == fv.elems);
    }
    let mut i: usize = 0;
    while i < n
        invariant
            i <= n,
            n == src.len(),
            src.deep_view() == fv.elems,
            elems.deep_view() =~= fv.elems.subrange(0, i as int).map_values(
                |e: crate::scene::ElementView| spec_elem_to_paint(e),
            ),
        decreases n - i,
    {
        let ghost prev = elems.deep_view();
        let e = crate::scene::copy_element(&src[i]);
        let pe = elem_to_paint(e);
        let ghost pev = pe.deep_view();
        elems.push(pe);
        proof {
            assert(elems.deep_view() =~= prev.push(pev));
            assert(elems.deep_view() =~= fv.elems.subrange(0, i + 1).map_values(
                |e: crate::scene::ElementView| spec_elem_to_paint(e),
            ));
        }
        i = i + 1;
    }
    proof {
        assert(fv.elems.subrange(0, n as int) =~= fv.elems);
    }
    let r = PaintFrame { elems, rect };
    proof {
        assert(r@ =~= spec_frame_to_paint(fv));
    }
    r
}

impl PaintFrame {
    /// Turns a decoded scene sequence into viewer-ready paint frames,
    /// one per scene frame, in order.
    pub fn from_frames(frames: Frames) -> (r: Vec<PaintFrame>)
        ensures
            r.deep_view() == spec_from_frames(frames@),
    {
        let ghost vv = frames@;
        let mut out: Vec<PaintFrame> = Vec::new();
        let mut src = frames.frames;
        proof {
            assert(src.deep_view() == vv.frames);
        }
        let n = src.len();
        let mut i: usize = 0;
        while i < n
            invariant
                i <= n,
                n == src.len(),
                src.deep_view() == vv.frames,
                out.deep_view() =~= vv.frames.subrange(0, i as int).map_values(
                    |f: crate::scene::FrameView| spec_frame_to_paint(f),
                ),
            decreases n - i,
        {
            let ghost prev = out.deep_view();
            let f = crate::scene::copy_frame(&src[i]);
            let pf = frame_to_paint(f);
            let ghost pfv = pf.deep_view();
            out.push(pf);
            proof {
                assert(out.deep_view() =~= prev.push(pfv));
                assert(out.deep_view() =~= vv.frames.subrange(0, i + 1).map_values(
                    |f: crate::scene::FrameView| spec_frame_to_paint(f),
                ));
            }
            i = i + 1;
        }
        proof {
            assert(vv.frames.subrange(0, n as int) =~= vv.frames);
            assert(out.deep_view() =~= spec_from_frames(vv));
        }
        out
    }
}

} // verus!
