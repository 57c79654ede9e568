use visualizer_shapes::scene::{
    pos, rect_from_two_pos, Color, Circle, Element, Frame, Frames, Path, Pos, Rect, Shape, Stroke,
    Text, UNIT,
};
use visualizer_shapes::codec::DecodeError;
use visualizer_shapes::color::FP_ONE;
use visualizer_shapes::geometry::{
    paint_frame_at, ElementKind, Hover, HoverCondition, PaintFrame,
};
use visualizer_shapes::transform::{zoom_rect, pan_rect, shape_transform, ScreenShape, Transform};

fn demo_frames() -> Frames {
    Frames::new()
        .add_frame(
            Frame::new(pos(-10 * UNIT, -10 * UNIT), pos(100 * UNIT, 100 * UNIT))
                .add_element(
                    Path::from_vertices(vec![pos(10 * UNIT, 10 * UNIT), pos(90 * UNIT, 90 * UNIT)])
                        .stroke(Color::new(122, 0, 122), 2 * UNIT)
                        .element(),
                )
                .add_element(
                    Path::from_vertices(vec![pos(90 * UNIT, 10 * UNIT), pos(10 * UNIT, 90 * UNIT)])
                        .element()
                        .with_msg("cross".to_string()),
                )
                .add_element(
                    Path::from_vertices(vec![
                        pos(40 * UNIT, 40 * UNIT),
                        pos(40 * UNIT, 50 * UNIT),
                        pos(50 * UNIT, 50 * UNIT),
                        pos(50 * UNIT, 40 * UNIT),
                    ])
                    .close(Color::new(0, 122, 122))
                    .element()
                    .with_msg("box".to_string()),
                )
                .add_element(
                    Circle::new(pos(10 * UNIT, 40 * UNIT), 10 * UNIT)
                        .stroke(Color::new(0, 0, 0), UNIT)
                        .element()
                        .with_msg("circle".to_string()),
                ),
        )
        .add_frame(
            Frame::new(pos(0, 0), pos(100 * UNIT, 100 * UNIT)).add_element(
                Text::new("héllo".to_string(), 5 * UNIT, pos(3 * UNIT, 4 * UNIT))
                    .color(Color::new(255, 255, 255))
                    .element(),
            ),
        )
}

#[test]
fn round_trip_demo_scene() {
    let frames = demo_frames();
    let encoded = frames.encode();
    let decoded = Frames::decode(encoded).expect("decode must succeed");
    assert_eq!(decoded, frames);
}

#[test]
fn round_trip_empty() {
    let frames = Frames::new();
    let encoded = frames.encode();
    assert_eq!(encoded, vec![0u8; 8]);
    let decoded = Frames::decode(encoded).expect("decode must succeed");
    assert_eq!(decoded, frames);
}

#[test]
fn decode_truncated_is_unexpected_end() {
    assert_eq!(Frames::decode(vec![]), Err(DecodeError::UnexpectedEnd));
    assert_eq!(
        Frames::decode(vec![1, 0, 0, 0, 0, 0, 0, 0]),
        Err(DecodeError::UnexpectedEnd)
    );
}

#[test]
fn decode_trailing_bytes_is_error() {
    assert_eq!(Frames::decode(vec![0u8; 9]), Err(DecodeError::TrailingBytes));
}

#[test]
fn decode_bad_shape_tag_is_error() {
    // one frame, one element, shape tag 9
    let mut bytes = vec![1, 0, 0, 0, 0, 0, 0, 0];
    bytes.extend_from_slice(&[1, 0, 0, 0, 0, 0, 0, 0]);
    bytes.push(9);
    assert_eq!(Frames::decode(bytes), Err(DecodeError::BadTag));
}

#[test]
fn decode_bad_utf8_is_error() {
    // one frame, one element, text shape whose one string byte is 0xFF
    let mut bytes = vec![1, 0, 0, 0, 0, 0, 0, 0];
    bytes.extend_from_slice(&[1, 0, 0, 0, 0, 0, 0, 0]);
    bytes.push(2);
    bytes.extend_from_slice(&[1, 0, 0, 0, 0, 0, 0, 0]);
    bytes.push(0xff);
    assert_eq!(Frames::decode(bytes), Err(DecodeError::BadUtf8));
}

#[test]
fn tag_is_deterministic() {
    let a = Color::tag(5);
    let b = Color::tag(5);
    assert_eq!(a, b);
    for i in 0..10usize {
        assert_eq!(Color::tag(i), Color::tag(i));
    }
}

#[test]
fn tags_zero_to_nine_pairwise_distinct() {
    let colors: Vec<Color> = (0..10usize).map(Color::tag).collect();
    for i in 0..10 {
        for j in 0..10 {
            if i != j {
                assert_ne!(colors[i], colors[j], "tags {} and {} collide", i, j);
            }
        }
    }
}

#[test]
fn turbo_endpoints_and_clamping() {
    assert_eq!(Color::turbo(0), Color { r: 32, g: 16, b: 64, a: 255 });
    assert_eq!(Color::turbo(-77), Color::turbo(0));
    assert_eq!(Color::turbo(UNIT), Color { r: 128, g: 16, b: 16, a: 255 });
    assert_eq!(Color::turbo(UNIT + 999), Color::turbo(UNIT));
    assert_eq!(Color::turbo(UNIT / 2), Color { r: 160, g: 208, b: 64, a: 255 });
}

#[test]
fn ratio_truncates_channels() {
    assert_eq!(Color::ratio(FP_ONE, 0, FP_ONE / 2), Color { r: 255, g: 0, b: 127, a: 255 });
}

#[test]
fn grammar_example_single_rect_frame() {
    let doc = "# (0,0) (10,10)\nr (1,1) (2,2) {{a}}\n";
    let frames = PaintFrame::multi_parse(doc).expect("document must parse");
    assert_eq!(frames.len(), 1);
    let f = &frames[0];
    assert_eq!(f.rect, rect_from_two_pos(pos(0, 0), pos(10 * UNIT, 10 * UNIT)));
    assert_eq!(f.elems.len(), 1);
    let e = &f.elems[0];
    match &e.hover {
        Some(h) => {
            assert_eq!(h.msg, "a");
            match &h.hover_cond {
                HoverCondition::Rect(r) => {
                    assert_eq!(*r, rect_from_two_pos(pos(UNIT, UNIT), pos(2 * UNIT, 2 * UNIT)));
                }
                other => panic!("wrong hover kind: {:?}", other),
            }
        }
        None => panic!("rect must be hoverable"),
    }
    match &e.shape {
        ElementKind::Shape(Shape::Path(p)) => {
            assert_eq!(p.vp.len(), 5);
            assert!(p.fill.is_none());
            assert_eq!(p.stroke, Stroke { color: Color::new(0, 0, 0), width: UNIT });
        }
        other => panic!("wrong shape: {:?}", other),
    }
}

#[test]
fn grammar_header_normalizes_bounds() {
    let doc = "# (10, -2) (-4, 7)\n";
    let frames = PaintFrame::multi_parse(doc).expect("document must parse");
    assert_eq!(frames.len(), 1);
    assert_eq!(
        frames[0].rect,
        Rect { min: pos(-4 * UNIT, -2 * UNIT), max: pos(10 * UNIT, 7 * UNIT) }
    );
}

#[test]
fn grammar_numbers_round_to_subunits() {
    let doc = "# (1.5, -0.5) (0.1, 2.)\n";
    let frames = PaintFrame::multi_parse(doc).expect("document must parse");
    let r = frames[0].rect;
    // 1.5 -> 384, -0.5 -> -128, 0.1 -> 26 (rounded), 2. -> 512
    assert_eq!(r.min, pos(26, -128));
    assert_eq!(r.max, pos(384, 512));
}

#[test]
fn grammar_without_header_gives_implicit_frame() {
    let doc = "r (0,0) (1,1)\n";
    let frames = PaintFrame::multi_parse(doc).expect("document must parse");
    assert_eq!(frames.len(), 1);
    assert_eq!(frames[0].rect, Rect::nothing());
    assert_eq!(frames[0].elems.len(), 1);
}

#[test]
fn grammar_empty_document_gives_one_empty_frame() {
    let frames = PaintFrame::multi_parse("").expect("document must parse");
    assert_eq!(frames.len(), 1);
    assert_eq!(frames[0].elems.len(), 0);
    assert_eq!(frames[0].rect, Rect::nothing());
}

#[test]
fn grammar_rejects_unknown_statement() {
    assert!(PaintFrame::multi_parse("# (0,0) (1,1)\nz (0,0)\n").is_err());
}

#[test]
fn grammar_rejects_trailing_input() {
    assert!(PaintFrame::multi_parse("# (0,0) (1,1)\nr (0,0) (1,1)").is_err());
}

#[test]
fn grammar_multiple_frames_in_order() {
    let doc = "# (0,0) (1,1)\n# (2,2) (3,3)\nr (2,2) (3,3)\n";
    let frames = PaintFrame::multi_parse(doc).expect("document must parse");
    assert_eq!(frames.len(), 2);
    assert_eq!(frames[0].elems.len(), 0);
    assert_eq!(frames[1].elems.len(), 1);
}

#[test]
fn grammar_path_and_labels() {
    let doc = "p [(0,0), (4,0), (4,4)] {{zig}}\n";
    let frames = PaintFrame::multi_parse(doc).expect("document must parse");
    let e = &frames[0].elems[0];
    match &e.hover {
        Some(h) => {
            assert_eq!(h.msg, "zig");
            match &h.hover_cond {
                HoverCondition::Path(v) => assert_eq!(v.len(), 3),
                other => panic!("wrong hover kind: {:?}", other),
            }
        }
        None => panic!("labeled path must be hoverable"),
    }
}

#[test]
fn grammar_color_literals() {
    let doc = "rf (0,0) (1,1) named(red)\nrf (0,0) (1,1) none()\nrf (0,0) (1,1) tag(3)\nrf (0,0) (1,1) turbo(0.5)\n";
    let frames = PaintFrame::multi_parse(doc).expect("document must parse");
    let fills: Vec<Color> = frames[0]
        .elems
        .iter()
        .map(|e| match &e.shape {
            ElementKind::Shape(Shape::Path(p)) => p.fill.expect("filled rect must have fill"),
            other => panic!("wrong shape: {:?}", other),
        })
        .collect();
    assert_eq!(fills[0], Color { r: 255, g: 0, b: 0, a: 255 });
    assert_eq!(fills[1], Color { r: 0, g: 0, b: 0, a: 0 });
    assert_eq!(fills[2], Color::tag(3));
    assert_eq!(fills[3], Color::turbo(UNIT / 2));
}

#[test]
fn grammar_unknown_color_name_is_black() {
    let doc = "rf (0,0) (1,1) named(zzqqy)\n";
    let frames = PaintFrame::multi_parse(doc).expect("document must parse");
    match &frames[0].elems[0].shape {
        ElementKind::Shape(Shape::Path(p)) => {
            assert_eq!(p.fill, Some(Color { r: 0, g: 0, b: 0, a: 255 }));
        }
        other => panic!("wrong shape: {:?}", other),
    }
}

fn identity_transform() -> Transform {
    let r = Rect { min: pos(0, 0), max: pos(100 * UNIT, 100 * UNIT) };
    Transform::from_to(r, r)
}

#[test]
fn rect_hit_min_edge_inclusive_max_edge_exclusive() {
    let t = identity_transform();
    let cond = HoverCondition::Rect(rect_from_two_pos(pos(UNIT, UNIT), pos(2 * UNIT, 2 * UNIT)));
    assert!(cond.check(pos(UNIT, UNIT), &t), "min corner is inside");
    assert!(cond.check(pos(UNIT + 128, UNIT + 128), &t), "center is inside");
    assert!(!cond.check(pos(2 * UNIT, UNIT + 128), &t), "max x edge is outside");
    assert!(!cond.check(pos(UNIT + 128, 2 * UNIT), &t), "max y edge is outside");
}

#[test]
fn segment_hit_beyond_endpoints_never_hits() {
    let t = identity_transform();
    let cond = HoverCondition::Path(vec![pos(0, 0), pos(10 * UNIT, 0)]);
    // On the infinite line, past the right endpoint, well within the
    // ten-unit threshold of the line itself.
    assert!(!cond.check(pos(10 * UNIT + 5, 0), &t));
    assert!(!cond.check(pos(-5, 0), &t));
    // Between the endpoints the threshold applies.
    assert!(cond.check(pos(5 * UNIT, 9 * UNIT), &t));
    assert!(!cond.check(pos(5 * UNIT, 10 * UNIT), &t), "distance ten is not below ten");
}

#[test]
fn zero_length_segment_never_hits() {
    let t = identity_transform();
    let cond = HoverCondition::Path(vec![pos(UNIT, UNIT), pos(UNIT, UNIT)]);
    assert!(!cond.check(pos(UNIT, UNIT), &t));
}

#[test]
fn circle_hit_is_inclusive_on_the_rim() {
    let t = identity_transform();
    let cond = HoverCondition::Circle(pos(0, 0), 10 * UNIT);
    assert!(cond.check(pos(10 * UNIT, 0), &t));
    assert!(cond.check(pos(0, -10 * UNIT), &t));
    assert!(!cond.check(pos(10 * UNIT + 1, 0), &t));
}

#[test]
fn closed_path_hit_inside_square() {
    let t = identity_transform();
    let square = vec![
        pos(UNIT, UNIT),
        pos(3 * UNIT, UNIT),
        pos(3 * UNIT, 3 * UNIT),
        pos(UNIT, 3 * UNIT),
    ];
    let cond = HoverCondition::ClosedPath(square);
    assert!(cond.check(pos(2 * UNIT, 2 * UNIT), &t));
    assert!(!cond.check(pos(5 * UNIT, 5 * UNIT), &t));
}

#[test]
fn hit_test_prefers_topmost_element() {
    let doc = "# (0,0) (100,100)\nrf (0,0) (10,10) none() {{below}}\nrf (5,5) (15,15) none() {{above}}\n";
    let frames = PaintFrame::multi_parse(doc).expect("document must parse");
    let t = identity_transform();
    let hit = frames[0].hit_test(pos(7 * UNIT, 7 * UNIT), &t);
    assert_eq!(hit.as_deref(), Some("above"));
    let hit2 = frames[0].hit_test(pos(2 * UNIT, 2 * UNIT), &t);
    assert_eq!(hit2.as_deref(), Some("below"));
    let miss = frames[0].hit_test(pos(50 * UNIT, 50 * UNIT), &t);
    assert_eq!(miss, None);
}

#[test]
fn transform_inverse_returns_point_within_tolerance() {
    let from = Rect { min: pos(0, 0), max: pos(1000, 1000) };
    let to = Rect { min: pos(0, 0), max: pos(333, 333) };
    let t = Transform::from_to(from, to);
    let inv = t.inverse();
    for &x in &[0i64, 1, 17, 500, 999, 1000] {
        let p = pos(x, x);
        let q = t.apply(p);
        let p2 = inv.apply(q);
        assert!(p2.x <= p.x && (p.x - p2.x) * 333 <= 1000 + 333, "x round trip off: {} -> {}", p.x, p2.x);
        assert!(p2.y <= p.y && (p.y - p2.y) * 333 <= 1000 + 333, "y round trip off: {} -> {}", p.y, p2.y);
    }
    // A zoomed-in mapping inverts exactly on multiples.
    let t2 = Transform::from_to(
        Rect { min: pos(0, 0), max: pos(1000, 1000) },
        Rect { min: pos(0, 0), max: pos(3000, 3000) },
    );
    let q = t2.apply(pos(500, 500));
    assert_eq!(q, pos(1500, 1500));
    assert_eq!(t2.inverse().apply(q), pos(500, 500));
}

#[test]
fn out_of_range_frame_index_yields_default_frame() {
    let frames = demo_frames();
    let f = frames.frame_at(99);
    assert_eq!(f.elems.len(), 0);
    assert_eq!(f.p1, Pos { x: i64::MAX, y: i64::MAX });
    assert_eq!(f.p2, Pos { x: i64::MIN, y: i64::MIN });
    let in_range = frames.frame_at(1);
    assert_eq!(in_range.elems.len(), 1);

    let paints = PaintFrame::from_frames(frames);
    let pf = paint_frame_at(&paints, 7);
    assert_eq!(pf.elems.len(), 0);
    assert_eq!(pf.rect, Rect::nothing());
    let pf0 = paint_frame_at(&paints, 0);
    assert_eq!(pf0.elems.len(), 4);
}

#[test]
fn from_frames_assigns_hover_kinds() {
    let paints = PaintFrame::from_frames(demo_frames());
    assert_eq!(paints.len(), 2);
    let f = &paints[0];
    assert!(f.elems[0].hover.is_none(), "unlabeled path has no hover");
    match &f.elems[1].hover {
        Some(Hover { hover_cond: HoverCondition::Path(_), msg }) => assert_eq!(msg, "cross"),
        other => panic!("open path must give a path hover: {:?}", other),
    }
    match &f.elems[2].hover {
        Some(Hover { hover_cond: HoverCondition::ClosedPath(_), msg }) => assert_eq!(msg, "box"),
        other => panic!("filled path must give a closed hover: {:?}", other),
    }
    match &f.elems[3].hover {
        Some(Hover { hover_cond: HoverCondition::Circle(c, r), msg }) => {
            assert_eq!(msg, "circle");
            assert_eq!(*c, pos(10 * UNIT, 40 * UNIT));
            assert_eq!(*r, 10 * UNIT);
        }
        other => panic!("circle must give a circle hover: {:?}", other),
    }
    assert!(paints[1].elems[0].hover.is_none(), "text never hovers");
    assert_eq!(f.rect, rect_from_two_pos(pos(-10 * UNIT, -10 * UNIT), pos(100 * UNIT, 100 * UNIT)));
}

#[test]
fn shape_transform_scales_circle_into_ellipse() {
    let t = Transform::from_to(
        Rect { min: pos(0, 0), max: pos(100, 100) },
        Rect { min: pos(0, 0), max: pos(200, 400) },
    );
    let c = Circle::new(pos(50, 50), 10);
    match shape_transform(&Shape::Circle(c), &t) {
        ScreenShape::Ellipse { center, radius_x, radius_y, .. } => {
            assert_eq!(center, pos(100, 200));
            assert_eq!(radius_x, 20);
            assert_eq!(radius_y, 40);
        }
        other => panic!("circle must map to an ellipse: {:?}", other),
    }
}

#[test]
fn zoom_rect_shrinks_around_anchor() {
    let r = Rect { min: pos(0, 0), max: pos(100, 100) };
    // Zoom in by a factor of two around the center on both axes.
    let z = zoom_rect(r, pos(50, 50), 2, 1, 2, 1);
    assert_eq!(z, Rect { min: pos(25, 25), max: pos(75, 75) });
    // Axis-locked zoom only narrows x.
    let zx = zoom_rect(r, pos(50, 50), 2, 1, 1, 1);
    assert_eq!(zx, Rect { min: pos(25, 0), max: pos(75, 100) });
}

#[test]
fn element_construction_defaults() {
    let e = Path::new().add_pos(pos(1, 2)).element();
    assert!(e.msg.is_none());
    let e2 = e.with_msg("m".to_string());
    assert_eq!(e2.msg.as_deref(), Some("m"));
    assert_eq!(Stroke::default(), Stroke { color: Color::new(0, 0, 0), width: UNIT });
    assert_eq!(Color::new(1, 2, 3), Color { r: 1, g: 2, b: 3, a: 255 });
    assert_eq!(Color::none().a, 0);
}

#[test]
fn number_with_too_many_integer_digits_is_rejected() {
    assert!(PaintFrame::multi_parse("# (1234567890123456,0) (1,1)\n").is_err());
    assert!(PaintFrame::multi_parse("# (123456789012345,0) (1,1)\n").is_ok());
}

#[test]
fn pan_rect_translates_by_canvas_delta() {
    // Canvas 0..100 maps onto screen 0..200: dragging the pointer by
    // +20 screen units moves the view window by -10 canvas units.
    let t = Transform::from_to(
        Rect { min: pos(0, 0), max: pos(100, 100) },
        Rect { min: pos(0, 0), max: pos(200, 200) },
    );
    let r = Rect { min: pos(0, 0), max: pos(100, 100) };
    let panned = pan_rect(r, &t, pos(40, 40), pos(60, 60));
    assert_eq!(panned, Rect { min: pos(-10, -10), max: pos(90, 90) });
}

#[test]
fn text_size_scales_by_combined_magnitude() {
    // x doubles, y quadruples: sizes scale by sqrt(2 * 4) ~ 2.82.
    let t = Transform::from_to(
        Rect { min: pos(0, 0), max: pos(100, 100) },
        Rect { min: pos(0, 0), max: pos(200, 400) },
    );
    let text = Text::new("t".to_string(), 100, pos(0, 0));
    match shape_transform(&Shape::Text(text), &t) {
        ScreenShape::Text { size, .. } => {
            // sqrt(200 * 400) = sqrt(80000), floor = 282
            assert_eq!(size, 282);
        }
        other => panic!("text must stay text: {:?}", other),
    }
}
