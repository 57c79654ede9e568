//! The scene data model: positions, colors, shapes, elements, frames.
//!
//! Values are built once through the constructors and builder methods here
//! and are immutable afterwards. Coordinates, radii, stroke widths and text
//! sizes are fixed-point: `UNIT` subunits make one canvas (or screen) unit.

use vstd::prelude::*;

verus! {

/// Subunits per one canvas or screen unit.
pub const UNIT: i64 = 256;

/// A plain 2D point in fixed-point subunits.
#[derive(Clone, Copy, Debug, PartialEq, Eq, Structural)]
pub struct Pos {
    pub x: i64,
    pub y: i64,
}

/// Builds a point from its two fixed-point coordinates.
pub fn pos(x: i64, y: i64) -> (p: Pos)
    ensures
        p == (Pos { x, y }),
{
    Pos { x, y }
}

impl Default for Pos {
    fn default() -> (r: Self)
        ensures
            r == (Pos { x: 0, y: 0 }),
    {
        Pos { x: 0, y: 0 }
    }
}

/// An RGBA color; alpha defaults to fully opaque.
#[derive(Clone, Copy, Debug, PartialEq, Eq, Structural)]
pub struct Color {
    pub r: u8,
    pub g: u8,
    pub b: u8,
    pub a: u8,
}

impl Color {
    /// An opaque color from its three channels.
    pub fn new(r: u8, g: u8, b: u8) -> (c: Self)
        ensures
            c == (Color { r, g, b, a: 255u8 }),
    {
        Color { r, g, b, a: 255 }
    }

    /// The fully transparent color.
    pub fn none() -> (c: Self)
        ensures
            c == (Color { r: 0u8, g: 0u8, b: 0u8, a: 0u8 }),
    {
        Color { r: 0, g: 0, b: 0, a: 0 }
    }
}

impl Default for Color {
    fn default() -> (r: Self)
        ensures
            r == (Color { r: 0u8, g: 0u8, b: 0u8, a: 255u8 }),
    {
        Color { r: 0, g: 0, b: 0, a: 255 }
    }
}

/// A stroke: color plus a nonnegative fixed-point width.
#[derive(Clone, Copy, Debug, PartialEq, Eq, Structural)]
pub struct Stroke {
    pub color: Color,
    pub width: i64,
}

impl Default for Stroke {
    /// Black, one unit wide.
    fn default() -> (r: Self)
        ensures
            r == (Stroke { color: Color { r: 0u8, g: 0u8, b: 0u8, a: 255u8 }, width: UNIT }),
    {
        Stroke { color: Color { r: 0, g: 0, b: 0, a: 255 }, width: UNIT }
    }
}

/// An axis-aligned rectangle with normalized corners (`min <= max` holds
/// componentwise for every rectangle built by [`rect_from_two_pos`]).
#[derive(Clone, Copy, Debug, PartialEq, Eq, Structural)]
pub struct Rect {
    pub min: Pos,
    pub max: Pos,
}

impl Rect {
    /// The sentinel for empty or undefined bounds: an inverted rectangle
    /// that no normalization produced. It must be replaced by a concrete
    /// rectangle before a transform is built from it.
    pub fn nothing() -> (r: Self)
        ensures
            r == Self::spec_nothing(),
    {
        Rect { min: Pos { x: i64::MAX, y: i64::MAX }, max: Pos { x: i64::MIN, y: i64::MIN } }
    }

    /// The sentinel value of [`Rect::nothing`].
    pub open spec fn spec_nothing() -> Self {
        Rect { min: Pos { x: i64::MAX, y: i64::MAX }, max: Pos { x: i64::MIN, y: i64::MIN } }
    }
}

/// The normalized rectangle spanned by two arbitrary corner points.
pub open spec fn spec_rect_from_two_pos(p1: Pos, p2: Pos) -> Rect {
    Rect {
        min: Pos { x: if p1.x <= p2.x { p1.x } else { p2.x }, y: if p1.y <= p2.y { p1.y } else { p2.y } },
        max: Pos { x: if p1.x <= p2.x { p2.x } else { p1.x }, y: if p1.y <= p2.y { p2.y } else { p1.y } },
    }
}

/// Normalizes two corner points into a rectangle with componentwise
/// `min <= max`.
pub fn rect_from_two_pos(p1: Pos, p2: Pos) -> (r: Rect)
    ensures
        r == spec_rect_from_two_pos(p1, p2),
        r.min.x <= r.max.x,
        r.min.y <= r.max.y,
{
    let minx: i64 = if p1.x <= p2.x { p1.x } else { p2.x };
    let maxx: i64 = if p1.x <= p2.x { p2.x } else { p1.x };
    let miny: i64 = if p1.y <= p2.y { p1.y } else { p2.y };
    let maxy: i64 = if p1.y <= p2.y { p2.y } else { p1.y };
    Rect { min: Pos { x: minx, y: miny }, max: Pos { x: maxx, y: maxy } }
}

/// An open polyline or closed filled polygon: a present `fill` means the
/// path is closed (the last vertex connects back to the first).
#[derive(Clone, Debug, PartialEq, Eq)]
pub struct Path {
    pub vp: Vec<Pos>,
    pub fill: Option<Color>,
    pub stroke: Stroke,
}

/// The mathematical value of a [`Path`].
#[verifier::ext_equal]
pub struct PathView {
    pub vp: Seq<Pos>,
    pub fill: Option<Color>,
    pub stroke: Stroke,
}

impl View for Path {
    type V = PathView;

    open spec fn view(&self) -> PathView {
        PathView { vp: self.vp@, fill: self.fill, stroke: self.stroke }
    }
}

impl Path {
    /// An empty open path with the default stroke.
    pub fn new() -> (p: Self)
        ensures
            p@.vp == Seq::<Pos>::empty(),
            p@.fill is None,
            p@.stroke == (Stroke { color: Color { r: 0u8, g: 0u8, b: 0u8, a: 255u8 }, width: UNIT }),
    {
        Path { vp: Vec::new(), fill: None, stroke: Stroke::default() }
    }

    /// An open path over the given vertices, with the default stroke.
    pub fn from_vertices(vp: Vec<Pos>) -> (p: Self)
        ensures
            p@.vp == vp@,
            p@.fill is None,
            p@.stroke == (Stroke { color: Color { r: 0u8, g: 0u8, b: 0u8, a: 255u8 }, width: UNIT }),
    {
        Path { vp, fill: None, stroke: Stroke::default() }
    }

    /// Appends one vertex.
    pub fn add_pos(self, p: Pos) -> (r: Self)
        ensures
            r@.vp == self@.vp.push(p),
            r@.fill == self@.fill,
            r@.stroke == self@.stroke,
    {
        let mut vp = self.vp;
        vp.push(p);
        Path { vp, fill: self.fill, stroke: self.stroke }
    }

    /// Closes the path with a fill color.
    pub fn close(self, fill: Color) -> (r: Self)
        ensures
            r@.vp == self@.vp,
            r@.fill == Some(fill),
            r@.stroke == self@.stroke,
    {
        Path { vp: self.vp, fill: Some(fill), stroke: self.stroke }
    }

    /// Replaces the stroke; the width is in fixed-point subunits.
    pub fn stroke(self, color: Color, width: i64) -> (r: Self)
        requires
            width >= 0,
        ensures
            r@.vp == self@.vp,
            r@.fill == self@.fill,
            r@.stroke == (Stroke { color, width }),
    {
        Path { vp: self.vp, fill: self.fill, stroke: Stroke { color, width } }
    }

    /// Wraps the path as an element without a hover label.
    pub fn element(self) -> (e: Element)
        ensures
            e@.shape == ShapeView::Path(self@),
            e@.msg is None,
    {
        Element { shape: Shape::Path(self), msg: None }
    }
}

/// A circle; under anisotropic zoom it is rendered and hit-tested as an
/// ellipse with per-axis radii.
#[derive(Clone, Copy, Debug, PartialEq, Eq, Structural)]
pub struct Circle {
    pub center: Pos,
    pub radius: i64,
    pub fill: Option<Color>,
    pub stroke: Option<Stroke>,
}

impl Circle {
    /// A circle with neither fill nor stroke; the radius is nonnegative.
    pub fn new(center: Pos, radius: i64) -> (c: Self)
        requires
            radius >= 0,
        ensures
            c == (Circle { center, radius, fill: None, stroke: None }),
    {
        Circle { center, radius, fill: None, stroke: None }
    }

    /// Sets the fill color.
    pub fn fill(self, fill: Color) -> (r: Self)
        ensures
            r == (Circle { fill: Some(fill), ..self }),
    {
        Circle { fill: Some(fill), ..self }
    }

    /// Sets the stroke; the width is in fixed-point subunits.
    pub fn stroke(self, color: Color, width: i64) -> (r: Self)
        requires
            width >= 0,
        ensures
            r == (Circle { stroke: Some(Stroke { color, width }), ..self }),
    {
        Circle { stroke: Some(Stroke { color, width }), ..self }
    }

    /// Wraps the circle as an element without a hover label.
    pub fn element(self) -> (e: Element)
        ensures
            e@.shape == ShapeView::Circle(self),
            e@.msg is None,
    {
        Element { shape: Shape::Circle(self), msg: None }
    }
}

/// A text item anchored at a point; text never takes part in hit testing.
#[derive(Clone, Debug, PartialEq, Eq)]
pub struct Text {
    pub text: String,
    pub size: i64,
    pub pos: Pos,
    pub color: Color,
}

/// The mathematical value of a [`Text`].
#[verifier::ext_equal]
pub struct TextView {
    pub text: Seq<char>,
    pub size: i64,
    pub pos: Pos,
    pub color: Color,
}

impl View for Text {
    type V = TextView;

    open spec fn view(&self) -> TextView {
        TextView { text: self.text@, size: self.size, pos: self.pos, color: self.color }
    }
}

impl Text {
    /// Black text of the given size (in fixed-point subunits) at `pos`.
    pub fn new(text: String, size: i64, pos: Pos) -> (t: Self)
        requires
            size >= 0,
        ensures
            t@.text == text@,
            t@.size == size,
            t@.pos == pos,
            t@.color == (Color { r: 0u8, g: 0u8, b: 0u8, a: 255u8 }),
    {
        Text { text, size, pos, color: Color { r: 0, g: 0, b: 0, a: 255 } }
    }

    /// Replaces the text color.
    pub fn color(self, color: Color) -> (r: Self)
        ensures
            r@.text == self@.text,
            r@.size == self@.size,
            r@.pos == self@.pos,
            r@.color == color,
    {
        Text { color, ..self }
    }

    /// Wraps the text as an element without a hover label.
    pub fn element(self) -> (e: Element)
        ensures
            e@.shape == ShapeView::Text(self@),
            e@.msg is None,
    {
        Element { shape: Shape::Text(self), msg: None }
    }
}

/// The closed set of shape variants.
#[derive(Clone, Debug, PartialEq, Eq)]
pub enum Shape {
    Path(Path),
    Circle(Circle),
    Text(Text),
}

/// The mathematical value of a [`Shape`].
#[verifier::ext_equal]
pub enum ShapeView {
    Path(PathView),
    Circle(Circle),
    Text(TextView),
}

impl View for Shape {
    type V = ShapeView;

    open spec fn view(&self) -> ShapeView {
        match self {
            Shape::Path(p) => ShapeView::Path(p@),
            Shape::Circle(c) => ShapeView::Circle(*c),
            Shape::Text(t) => ShapeView::Text(t@),
        }
    }
}

/// A shape with an optional hover label; a present label makes the element
/// hoverable and supplies the tooltip text.
#[derive(Clone, Debug, PartialEq, Eq)]
pub struct Element {
    pub shape: Shape,
    pub msg: Option<String>,
}

/// The mathematical value of an [`Element`].
#[verifier::ext_equal]
pub struct ElementView {
    pub shape: ShapeView,
    pub msg: Option<Seq<char>>,
}

impl View for Element {
    type V = ElementView;

    open spec fn view(&self) -> ElementView {
        ElementView {
            shape: self.shape@,
            msg: match &self.msg {
                Some(m) => Some(m@),
                None => None,
            },
        }
    }
}

impl Element {
    /// Attaches a hover label.
    pub fn with_msg(self, msg: String) -> (r: Self)
        ensures
            r@.shape == self@.shape,
            r@.msg == Some(msg@),
    {
        Element { shape: self.shape, msg: Some(msg) }
    }
}

/// One scene: ordered elements plus two (unordered) bounds corners.
/// Later elements draw on top and are hit-tested first.
#[derive(Clone, Debug, PartialEq, Eq)]
pub struct Frame {
    pub elems: Vec<Element>,
    pub p1: Pos,
    pub p2: Pos,
}

/// The mathematical value of a [`Frame`].
#[verifier::ext_equal]
pub struct FrameView {
    pub elems: Seq<ElementView>,
    pub p1: Pos,
    pub p2: Pos,
}

impl View for Frame {
    type V = FrameView;

    open spec fn view(&self) -> FrameView {
        FrameView { elems: self.elems.deep_view(), p1: self.p1, p2: self.p2 }
    }
}

impl DeepView for Element {
    type V = ElementView;

    open spec fn deep_view(&self) -> ElementView {
        self.view()
    }
}

impl Frame {
    /// An empty frame with the given bounds corners.
    pub fn new(p1: Pos, p2: Pos) -> (f: Self)
        ensures
            f@.elems == Seq::<ElementView>::empty(),
            f@.p1 == p1,
            f@.p2 == p2,
    {
        Frame { elems: Vec::new(), p1, p2 }
    }

    /// Appends one element; it draws on top of the earlier ones.
    pub fn add_element(self, elem: Element) -> (r: Self)
        ensures
            r@.elems == self@.elems.push(elem@),
            r@.p1 == self@.p1,
            r@.p2 == self@.p2,
    {
        let ghost before = self.elems.deep_view();
        let mut elems = self.elems;
        elems.push(elem);
        proof {
            assert(elems.deep_view() =~= before.push(elem.deep_view()));
        }
        Frame { elems, p1: self.p1, p2: self.p2 }
    }
}

/// The top-level persisted unit: an ordered sequence of frames.
#[derive(Clone, Debug, PartialEq, Eq)]
pub struct Frames {
    pub frames: Vec<Frame>,
}

/// The mathematical value of a [`Frames`].
#[verifier::ext_equal]
pub struct FramesView {
    pub frames: Seq<FrameView>,
}

impl View for Frames {
    type V = FramesView;

    open spec fn view(&self) -> FramesView {
        FramesView { frames: self.frames.deep_view() }
    }
}

impl DeepView for Frame {
    type V = FrameView;

    open spec fn deep_view(&self) -> FrameView {
        self.view()
    }
}

/// An exact duplicate of a shape. Verus learns nothing from a derived
/// `Clone` on a type with heap fields, so the library copies explicitly.
pub fn copy_shape(s: &Shape) -> (r: Shape)
    ensures
        r@ == s@,
{
    match s {
        Shape::Path(p) => Shape::Path(Path { vp: p.vp.clone(), fill: p.fill, stroke: p.stroke }),
        Shape::Circle(c) => Shape::Circle(*c),
        Shape::Text(t) => Shape::Text(Text {
            text: t.text.clone(),
            size: t.size,
            pos: t.pos,
            color: t.color,
        }),
    }
}

/// An exact duplicate of an element.
pub fn copy_element(e: &Element) -> (r: Element)
    ensures
        r@ == e@,
{
    Element {
        shape: copy_shape(&e.shape),
        msg: match &e.msg {
            Some(m) => Some(m.clone()),
            None => None,
        },
    }
}

/// An exact duplicate of a frame.
pub fn copy_frame(f: &Frame) -> (r: Frame)
    ensures
        r@ == f@,
{
    let mut elems: Vec<Element> = Vec::new();
    let n = f.elems.len();
    for i in 0..n
        invariant
            n == f.elems.len(),
            elems.deep_view() =~= f@.elems.subrange(0, i as int),
    {
        let ghost prev = elems.deep_view();
        let e = copy_element(&f.elems[i]);
        let ghost ev = e.deep_view();
        elems.push(e);
        proof {
            assert(elems.deep_view() =~= prev.push(ev));
            assert(elems.deep_view() =~= f@.elems.subrange(0, i + 1));
        }
    }
    proof {
        assert(f@.elems.subrange(0, n as int) =~= f@.elems);
    }
    let r = Frame { elems, p1: f.p1, p2: f.p2 };
    proof {
        assert(r@.elems =~= f@.elems);
    }
    r
}

impl Frames {
    /// No frames at all.
    pub fn new() -> (f: Self)
        ensures
            f@.frames == Seq::<FrameView>::empty(),
    {
        Frames { frames: Vec::new() }
    }

    /// Appends one frame.
    pub fn add_frame(self, frame: Frame) -> (r: Self)
        ensures
            r@.frames == self@.frames.push(frame@),
    {
        let ghost before = self.frames.deep_view();
        let mut frames = self.frames;
        frames.push(frame);
        proof {
            assert(frames.deep_view() =~= before.push(frame.deep_view()));
        }
        Frames { frames }
    }

    /// The frame at `idx`, or an empty frame with sentinel bounds when
    /// `idx` is out of range: an out-of-range request never fails.
    pub fn frame_at(&self, idx: usize) -> (f: Frame)
        ensures
            idx < self@.frames.len() ==> f@ == self@.frames[idx as int],
            idx >= self@.frames.len() ==> f@ == (FrameView {
                elems: Seq::<ElementView>::empty(),
                p1: Pos { x: i64::MAX, y: i64::MAX },
                p2: Pos { x: i64::MIN, y: i64::MIN },
            }),
    {
        if idx < self.frames.len() {
            copy_frame(&self.frames[idx])
        } else {
            let n = Rect::nothing();
            let f = Frame { elems: Vec::new(), p1: n.min, p2: n.max };
            proof {
                assert(f@.elems =~= Seq::<ElementView>::empty());
            }
            f
        }
    }
}

} // verus!
