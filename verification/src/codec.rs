//! The binary encoding of [`Frames`]: a deterministic, self-describing
//! layout in which every sequence carries an explicit count, every shape
//! variant an explicit tag, and every numeric field a fixed width
//! (little-endian). Decoding is specified as the exact inverse; the
//! round-trip law is proved in [`lemma_round_trip`].

use vstd::prelude::*;
use vstd::utf8::{valid_utf8, decode_utf8, encode_utf8};
use crate::scene::{
    Pos, Color, Stroke, Circle, Shape, Path, Text, Element, Frame, Frames, FramesView, FrameView,
    ElementView, ShapeView, PathView, TextView,
};

verus! {

/// Why a byte string failed to decode.
#[derive(Clone, Copy, Debug, PartialEq, Eq, Structural)]
pub enum DecodeError {
    /// The input ended before the field that was announced.
    UnexpectedEnd,
    /// A shape or option tag byte holds an unknown value.
    BadTag,
    /// A string field does not hold valid UTF-8.
    BadUtf8,
    /// Well-formed frames were followed by leftover bytes.
    TrailingBytes,
}

// ---------------------------------------------------------------------------
// Serialization: the byte string of each model value.
// ---------------------------------------------------------------------------

/// The eight little-endian bytes of a 64-bit integer.
pub open spec fn ser_u64(v: u64) -> Seq<u8> {
    seq![
        (v & 0xff) as u8,
        ((v >> 8) & 0xff) as u8,
        ((v >> 16) & 0xff) as u8,
        ((v >> 24) & 0xff) as u8,
        ((v >> 32) & 0xff) as u8,
        ((v >> 40) & 0xff) as u8,
        ((v >> 48) & 0xff) as u8,
        ((v >> 56) & 0xff) as u8,
    ]
}

/// A signed coordinate is stored as its two's-complement bit pattern.
pub open spec fn ser_i64(v: i64) -> Seq<u8> {
    ser_u64(v as u64)
}

pub open spec fn ser_pos(p: Pos) -> Seq<u8> {
    ser_i64(p.x) + ser_i64(p.y)
}

pub open spec fn ser_color(c: Color) -> Seq<u8> {
    seq![c.r, c.g, c.b, c.a]
}

pub open spec fn ser_opt_color(o: Option<Color>) -> Seq<u8> {
    match o {
        None => seq![0u8],
        Some(c) => seq![1u8] + ser_color(c),
    }
}

pub open spec fn ser_stroke(s: Stroke) -> Seq<u8> {
    ser_color(s.color) + ser_i64(s.width)
}

pub open spec fn ser_opt_stroke(o: Option<Stroke>) -> Seq<u8> {
    match o {
        None => seq![0u8],
        Some(s) => seq![1u8] + ser_stroke(s),
    }
}

/// A string is its UTF-8 byte count followed by its UTF-8 bytes.
pub open spec fn ser_string(s: Seq<char>) -> Seq<u8> {
    ser_u64(encode_utf8(s).len() as u64) + encode_utf8(s)
}

pub open spec fn ser_opt_string(o: Option<Seq<char>>) -> Seq<u8> {
    match o {
        None => seq![0u8],
        Some(s) => seq![1u8] + ser_string(s),
    }
}

pub open spec fn ser_pos_seq(vs: Seq<Pos>) -> Seq<u8>
    decreases vs.len(),
{
    if vs.len() == 0 {
        Seq::<u8>::empty()
    } else {
        ser_pos(vs[0]) + ser_pos_seq(vs.drop_first())
    }
}

pub open spec fn ser_shape(s: ShapeView) -> Seq<u8> {
    match s {
        ShapeView::Path(p) => seq![0u8] + ser_u64(p.vp.len() as u64) + ser_pos_seq(p.vp)
            + ser_opt_color(p.fill) + ser_stroke(p.stroke),
        ShapeView::Circle(c) => seq![1u8] + ser_pos(c.center) + ser_i64(c.radius)
            + ser_opt_color(c.fill) + ser_opt_stroke(c.stroke),
        ShapeView::Text(t) => seq![2u8] + ser_string(t.text) + ser_i64(t.size) + ser_pos(t.pos)
            + ser_color(t.color),
    }
}

pub open spec fn ser_element(e: ElementView) -> Seq<u8> {
    ser_shape(e.shape) + ser_opt_string(e.msg)
}

pub open spec fn ser_element_seq(es: Seq<ElementView>) -> Seq<u8>
    decreases es.len(),
{
    if es.len() == 0 {
        Seq::<u8>::empty()
    } else {
        ser_element(es[0]) + ser_element_seq(es.drop_first())
    }
}

pub open spec fn ser_frame(f: FrameView) -> Seq<u8> {
    ser_u64(f.elems.len() as u64) + ser_element_seq(f.elems) + ser_pos(f.p1) + ser_pos(f.p2)
}

pub open spec fn ser_frame_seq(fs: Seq<FrameView>) -> Seq<u8>
    decreases fs.len(),
{
    if fs.len() == 0 {
        Seq::<u8>::empty()
    } else {
        ser_frame(fs[0]) + ser_frame_seq(fs.drop_first())
    }
}

/// The full byte string of a scene sequence.
pub open spec fn ser_frames(v: FramesView) -> Seq<u8> {
    ser_u64(v.frames.len() as u64) + ser_frame_seq(v.frames)
}

// ---------------------------------------------------------------------------
// Well-formedness: every count fits the 64-bit field that carries it.
// Every value built through the exec model constructors satisfies this.
// ---------------------------------------------------------------------------

pub open spec fn wf_string(s: Seq<char>) -> bool {
    encode_utf8(s).len() < 0x1_0000_0000_0000_0000
}

pub open spec fn wf_shape(s: ShapeView) -> bool {
    match s {
        ShapeView::Path(p) => p.vp.len() < 0x1_0000_0000_0000_0000,
        ShapeView::Circle(_) => true,
        ShapeView::Text(t) => wf_string(t.text),
    }
}

pub open spec fn wf_element(e: ElementView) -> bool {
    wf_shape(e.shape) && match e.msg {
        Some(m) => wf_string(m),
        None => true,
    }
}

pub open spec fn wf_frame(f: FrameView) -> bool {
    f.elems.len() < 0x1_0000_0000_0000_0000 && forall|i: int|
        0 <= i < f.elems.len() ==> wf_element(#[trigger] f.elems[i])
}

pub open spec fn wf_frames(v: FramesView) -> bool {
    v.frames.len() < 0x1_0000_0000_0000_0000 && forall|i: int|
        0 <= i < v.frames.len() ==> wf_frame(#[trigger] v.frames[i])
}

// ---------------------------------------------------------------------------
// Parsing: the exact inverse, defined over a byte string and a cursor.
// Each parser yields the value and the cursor after it, or the error.
// ---------------------------------------------------------------------------

pub open spec fn parse_u8(b: Seq<u8>, i: int) -> Result<(u8, int), DecodeError> {
    if 0 <= i && i + 1 <= b.len() {
        Ok((b[i], i + 1))
    } else {
        Err(DecodeError::UnexpectedEnd)
    }
}

pub open spec fn parse_u64(b: Seq<u8>, i: int) -> Result<(u64, int), DecodeError> {
    if 0 <= i && i + 8 <= b.len() {
        Ok(
            (
                ((b[i] as u64) | ((b[i + 1] as u64) << 8) | ((b[i + 2] as u64) << 16)
                    | ((b[i + 3] as u64) << 24) | ((b[i + 4] as u64) << 32)
                    | ((b[i + 5] as u64) << 40) | ((b[i + 6] as u64) << 48)
                    | ((b[i + 7] as u64) << 56)) as u64,
                i + 8,
            ),
        )
    } else {
        Err(DecodeError::UnexpectedEnd)
    }
}

pub open spec fn parse_i64(b: Seq<u8>, i: int) -> Result<(i64, int), DecodeError> {
    match parse_u64(b, i) {
        Ok((v, j)) => Ok((v as i64, j)),
        Err(e) => Err(e),
    }
}

pub open spec fn parse_pos(b: Seq<u8>, i: int) -> Result<(Pos, int), DecodeError> {
    match parse_i64(b, i) {
        Ok((x, j)) => match parse_i64(b, j) {
            Ok((y, k)) => Ok((Pos { x, y }, k)),
            Err(e) => Err(e),
        },
        Err(e) => Err(e),
    }
}

pub open spec fn parse_color(b: Seq<u8>, i: int) -> Result<(Color, int), DecodeError> {
    if 0 <= i && i + 4 <= b.len() {
        Ok((Color { r: b[i], g: b[i + 1], b: b[i + 2], a: b[i + 3] }, i + 4))
    } else {
        Err(DecodeError::UnexpectedEnd)
    }
}

pub open spec fn parse_opt_color(b: Seq<u8>, i: int) -> Result<(Option<Color>, int), DecodeError> {
    match parse_u8(b, i) {
        Ok((t, j)) => if t == 0 {
            Ok((None, j))
        } else if t == 1 {
            match parse_color(b, j) {
                Ok((c, k)) => Ok((Some(c), k)),
                Err(e) => Err(e),
            }
        } else {
            Err(DecodeError::BadTag)
        },
        Err(e) => Err(e),
    }
}

pub open spec fn parse_stroke(b: Seq<u8>, i: int) -> Result<(Stroke, int), DecodeError> {
    match parse_color(b, i) {
        Ok((c, j)) => match parse_i64(b, j) {
            Ok((w, k)) => Ok((Stroke { color: c, width: w }, k)),
            Err(e) => Err(e),
        },
        Err(e) => Err(e),
    }
}

pub open spec fn parse_opt_stroke(b: Seq<u8>, i: int) -> Result<
    (Option<Stroke>, int),
    DecodeError,
> {
    match parse_u8(b, i) {
        Ok((t, j)) => if t == 0 {
            Ok((None, j))
        } else if t == 1 {
            match parse_stroke(b, j) {
                Ok((s, k)) => Ok((Some(s), k)),
                Err(e) => Err(e),
            }
        } else {
            Err(DecodeError::BadTag)
        },
        Err(e) => Err(e),
    }
}

pub open spec fn parse_string(b: Seq<u8>, i: int) -> Result<(Seq<char>, int), DecodeError> {
    match parse_u64(b, i) {
        Ok((n, j)) => if j + n <= b.len() {
            let bytes = b.subrange(j, j + n);
            if valid_utf8(bytes) {
                Ok((decode_utf8(bytes), j + n))
            } else {
                Err(DecodeError::BadUtf8)
            }
        } else {
            Err(DecodeError::UnexpectedEnd)
        },
        Err(e) => Err(e),
    }
}

pub open spec fn parse_opt_string(b: Seq<u8>, i: int) -> Result<
    (Option<Seq<char>>, int),
    DecodeError,
> {
    match parse_u8(b, i) {
        Ok((t, j)) => if t == 0 {
            Ok((None, j))
        } else if t == 1 {
            match parse_string(b, j) {
                Ok((s, k)) => Ok((Some(s), k)),
                Err(e) => Err(e),
            }
        } else {
            Err(DecodeError::BadTag)
        },
        Err(e) => Err(e),
    }
}

pub open spec fn parse_pos_seq(b: Seq<u8>, i: int, count: nat) -> Result<
    (Seq<Pos>, int),
    DecodeError,
>
    decreases count,
{
    if count == 0 {
        Ok((Seq::<Pos>::empty(), i))
    } else {
        match parse_pos(b, i) {
            Ok((p, j)) => match parse_pos_seq(b, j, (count - 1) as nat) {
                Ok((rest, k)) => Ok((seq![p] + rest, k)),
                Err(e) => Err(e),
            },
            Err(e) => Err(e),
        }
    }
}

pub open spec fn parse_shape(b: Seq<u8>, i: int) -> Result<(ShapeView, int), DecodeError> {
    match parse_u8(b, i) {
        Ok((t, j)) => if t == 0 {
            match parse_u64(b, j) {
                Ok((n, j1)) => match parse_pos_seq(b, j1, n as nat) {
                    Ok((vp, j2)) => match parse_opt_color(b, j2) {
                        Ok((fill, j3)) => match parse_stroke(b, j3) {
                            Ok((stroke, j4)) => Ok(
                                (ShapeView::Path(PathView { vp, fill, stroke }), j4),
                            ),
                            Err(e) => Err(e),
                        },
                        Err(e) => Err(e),
                    },
                    Err(e) => Err(e),
                },
                Err(e) => Err(e),
            }
        } else if t == 1 {
            match parse_pos(b, j) {
                Ok((center, j1)) => match parse_i64(b, j1) {
                    Ok((radius, j2)) => match parse_opt_color(b, j2) {
                        Ok((fill, j3)) => match parse_opt_stroke(b, j3) {
                            Ok((stroke, j4)) => Ok(
                                (ShapeView::Circle(Circle { center, radius, fill, stroke }), j4),
                            ),
                            Err(e) => Err(e),
                        },
                        Err(e) => Err(e),
                    },
                    Err(e) => Err(e),
                },
                Err(e) => Err(e),
            }
        } else if t == 2 {
            match parse_string(b, j) {
                Ok((text, j1)) => match parse_i64(b, j1) {
                    Ok((size, j2)) => match parse_pos(b, j2) {
                        Ok((pos, j3)) => match parse_color(b, j3) {
                            Ok((color, j4)) => Ok(
                                (ShapeView::Text(TextView { text, size, pos, color }), j4),
                            ),
                            Err(e) => Err(e),
                        },
                        Err(e) => Err(e),
                    },
                    Err(e) => Err(e),
                },
                Err(e) => Err(e),
            }
        } else {
            Err(DecodeError::BadTag)
        },
        Err(e) => Err(e),
    }
}

pub open spec fn parse_element(b: Seq<u8>, i: int) -> Result<(ElementView, int), DecodeError> {
    match parse_shape(b, i) {
        Ok((shape, j)) => match parse_opt_string(b, j) {
            Ok((msg, k)) => Ok((ElementView { shape, msg }, k)),
            Err(e) => Err(e),
        },
        Err(e) => Err(e),
    }
}

pub open spec fn parse_element_seq(b: Seq<u8>, i: int, count: nat) -> Result<
    (Seq<ElementView>, int),
    DecodeError,
>
    decreases count,
{
    if count == 0 {
        Ok((Seq::<ElementView>::empty(), i))
    } else {
        match parse_element(b, i) {
            Ok((e, j)) => match parse_element_seq(b, j, (count - 1) as nat) {
                Ok((rest, k)) => Ok((seq![e] + rest, k)),
                Err(er) => Err(er),
            },
            Err(er) => Err(er),
        }
    }
}

pub open spec fn parse_frame(b: Seq<u8>, i: int) -> Result<(FrameView, int), DecodeError> {
    match parse_u64(b, i) {
        Ok((n, j)) => match parse_element_seq(b, j, n as nat) {
            Ok((elems, j1)) => match parse_pos(b, j1) {
                Ok((p1, j2)) => match parse_pos(b, j2) {
                    Ok((p2, j3)) => Ok((FrameView { elems, p1, p2 }, j3)),
                    Err(e) => Err(e),
                },
                Err(e) => Err(e),
            },
            Err(e) => Err(e),
        },
        Err(e) => Err(e),
    }
}

pub open spec fn parse_frame_seq(b: Seq<u8>, i: int, count: nat) -> Result<
    (Seq<FrameView>, int),
    DecodeError,
>
    decreases count,
{
    if count == 0 {
        Ok((Seq::<FrameView>::empty(), i))
    } else {
        match parse_frame(b, i) {
            Ok((f, j)) => match parse_frame_seq(b, j, (count - 1) as nat) {
                Ok((rest, k)) => Ok((seq![f] + rest, k)),
                Err(e) => Err(e),
            },
            Err(e) => Err(e),
        }
    }
}

/// What decoding a whole byte string means: parse a frame sequence from
/// the start and insist that every byte is consumed.
pub open spec fn spec_decode(b: Seq<u8>) -> Result<FramesView, DecodeError> {
    match parse_u64(b, 0) {
        Ok((n, j)) => match parse_frame_seq(b, j, n as nat) {
            Ok((frames, k)) => if k == b.len() {
                Ok(FramesView { frames })
            } else {
                Err(DecodeError::TrailingBytes)
            },
            Err(e) => Err(e),
        },
        Err(e) => Err(e),
    }
}

// ---------------------------------------------------------------------------
// The round trip: parsing a serialization yields the value it came from.
// ---------------------------------------------------------------------------

/// `s` occurs in `b` starting at `i`.
pub open spec fn contains_at(b: Seq<u8>, i: int, s: Seq<u8>) -> bool {
    0 <= i && i + s.len() <= b.len() && b.subrange(i, i + s.len()) == s
}

proof fn lemma_contains_split(b: Seq<u8>, i: int, s1: Seq<u8>, s2: Seq<u8>)
    requires
        contains_at(b, i, s1 + s2),
    ensures
        contains_at(b, i, s1),
        contains_at(b, i + s1.len(), s2),
{
    let l1 = s1.len() as int;
    let l2 = s2.len() as int;
    assert forall|k: int| 0 <= k < l1 implies b.subrange(i, i + l1)[k] == s1[k] by {
        assert(b.subrange(i, i + l1 + l2)[k] == (s1 + s2)[k]);
    }
    assert(b.subrange(i, i + l1) =~= s1);
    assert forall|k: int| 0 <= k < l2 implies b.subrange(i + l1, i + l1 + l2)[k] == s2[k] by {
        assert(b.subrange(i, i + l1 + l2)[l1 + k] == (s1 + s2)[l1 + k]);
    }
    assert(b.subrange(i + l1, i + l1 + l2) =~= s2);
}

proof fn lemma_parse_ser_u64(b: Seq<u8>, i: int, v: u64)
    requires
        contains_at(b, i, ser_u64(v)),
    ensures
        parse_u64(b, i) == Ok::<(u64, int), DecodeError>((v, i + 8)),
{
    assert forall|k: int| 0 <= k < 8 implies b[i + k] == ser_u64(v)[k] by {
        assert(b.subrange(i, i + 8)[k] == ser_u64(v)[k]);
    }
    assert(b[i + 0] == (v & 0xff) as u8);
    assert(((((v & 0xff) as u8) as u64) | ((((v >> 8) & 0xff) as u8) as u64) << 8 | ((((v >> 16)
        & 0xff) as u8) as u64) << 16 | ((((v >> 24) & 0xff) as u8) as u64) << 24 | ((((v >> 32)
        & 0xff) as u8) as u64) << 32 | ((((v >> 40) & 0xff) as u8) as u64) << 40 | ((((v >> 48)
        & 0xff) as u8) as u64) << 48 | ((((v >> 56) & 0xff) as u8) as u64) << 56) == v)
        by (bit_vector);
}

proof fn lemma_parse_ser_i64(b: Seq<u8>, i: int, v: i64)
    requires
        contains_at(b, i, ser_i64(v)),
    ensures
        parse_i64(b, i) == Ok::<(i64, int), DecodeError>((v, i + 8)),
{
    lemma_parse_ser_u64(b, i, v as u64);
    assert(((v as u64) as i64) == v) by (bit_vector);
}

proof fn lemma_parse_ser_tag(b: Seq<u8>, i: int, t: u8)
    requires
        contains_at(b, i, seq![t]),
    ensures
        parse_u8(b, i) == Ok::<(u8, int), DecodeError>((t, i + 1)),
{
    assert(b.subrange(i, i + 1)[0] == seq![t][0]);
}

proof fn lemma_parse_ser_color(b: Seq<u8>, i: int, c: Color)
    requires
        contains_at(b, i, ser_color(c)),
    ensures
        parse_color(b, i) == Ok::<(Color, int), DecodeError>((c, i + 4)),
{
    assert forall|k: int| 0 <= k < 4 implies b[i + k] == ser_color(c)[k] by {
        assert(b.subrange(i, i + 4)[k] == ser_color(c)[k]);
    }
}

proof fn lemma_parse_ser_pos(b: Seq<u8>, i: int, p: Pos)
    requires
        contains_at(b, i, ser_pos(p)),
    ensures
        parse_pos(b, i) == Ok::<(Pos, int), DecodeError>((p, i + 16)),
{
    lemma_contains_split(b, i, ser_i64(p.x), ser_i64(p.y));
    lemma_parse_ser_i64(b, i, p.x);
    lemma_parse_ser_i64(b, i + 8, p.y);
}

proof fn lemma_parse_ser_stroke(b: Seq<u8>, i: int, s: Stroke)
    requires
        contains_at(b, i, ser_stroke(s)),
    ensures
        parse_stroke(b, i) == Ok::<(Stroke, int), DecodeError>((s, i + 12)),
{
    lemma_contains_split(b, i, ser_color(s.color), ser_i64(s.width));
    lemma_parse_ser_color(b, i, s.color);
    lemma_parse_ser_i64(b, i + 4, s.width);
}

proof fn lemma_parse_ser_opt_color(b: Seq<u8>, i: int, o: Option<Color>)
    requires
        contains_at(b, i, ser_opt_color(o)),
    ensures
        parse_opt_color(b, i) == Ok::<(Option<Color>, int), DecodeError>(
            (o, i + ser_opt_color(o).len()),
        ),
{
    match o {
        None => {
            lemma_parse_ser_tag(b, i, 0);
        }
        Some(c) => {
            lemma_contains_split(b, i, seq![1u8], ser_color(c));
            lemma_parse_ser_tag(b, i, 1);
            lemma_parse_ser_color(b, i + 1, c);
        }
    }
}

proof fn lemma_parse_ser_opt_stroke(b: Seq<u8>, i: int, o: Option<Stroke>)
    requires
        contains_at(b, i, ser_opt_stroke(o)),
    ensures
        parse_opt_stroke(b, i) == Ok::<(Option<Stroke>, int), DecodeError>(
            (o, i + ser_opt_stroke(o).len()),
        ),
{
    match o {
        None => {
            lemma_parse_ser_tag(b, i, 0);
        }
        Some(s) => {
            lemma_contains_split(b, i, seq![1u8], ser_stroke(s));
            lemma_parse_ser_tag(b, i, 1);
            lemma_parse_ser_stroke(b, i + 1, s);
        }
    }
}

proof fn lemma_parse_ser_string(b: Seq<u8>, i: int, s: Seq<char>)
    requires
        contains_at(b, i, ser_string(s)),
        wf_string(s),
    ensures
        parse_string(b, i) == Ok::<(Seq<char>, int), DecodeError>((s, i + ser_string(s).len())),
{
    let bytes = encode_utf8(s);
    let n = bytes.len() as u64;
    lemma_contains_split(b, i, ser_u64(n), bytes);
    lemma_parse_ser_u64(b, i, n);
    assert(b.subrange(i + 8, i + 8 + n as int) == bytes);
    vstd::utf8::encode_utf8_valid_utf8(s);
    vstd::utf8::encode_utf8_decode_utf8(s);
}

proof fn lemma_parse_ser_opt_string(b: Seq<u8>, i: int, o: Option<Seq<char>>)
    requires
        contains_at(b, i, ser_opt_string(o)),
        o matches Some(s) ==> wf_string(s),
    ensures
        parse_opt_string(b, i) == Ok::<(Option<Seq<char>>, int), DecodeError>(
            (o, i + ser_opt_string(o).len()),
        ),
{
    match o {
        None => {
            lemma_parse_ser_tag(b, i, 0);
        }
        Some(s) => {
            lemma_contains_split(b, i, seq![1u8], ser_string(s));
            lemma_parse_ser_tag(b, i, 1);
            lemma_parse_ser_string(b, i + 1, s);
        }
    }
}

proof fn lemma_parse_ser_pos_seq(b: Seq<u8>, i: int, vs: Seq<Pos>)
    requires
        contains_at(b, i, ser_pos_seq(vs)),
    ensures
        parse_pos_seq(b, i, vs.len()) == Ok::<(Seq<Pos>, int), DecodeError>(
            (vs, i + ser_pos_seq(vs).len()),
        ),
    decreases vs.len(),
{
    if vs.len() == 0 {
        assert(vs =~= Seq::<Pos>::empty());
    } else {
        lemma_contains_split(b, i, ser_pos(vs[0]), ser_pos_seq(vs.drop_first()));
        lemma_parse_ser_pos(b, i, vs[0]);
        lemma_parse_ser_pos_seq(b, i + 16, vs.drop_first());
        assert(seq![vs[0]] + vs.drop_first() =~= vs);
    }
}

#[verifier::rlimit(80)]
proof fn lemma_parse_ser_shape(b: Seq<u8>, i: int, s: ShapeView)
    requires
        contains_at(b, i, ser_shape(s)),
        wf_shape(s),
    ensures
        parse_shape(b, i) == Ok::<(ShapeView, int), DecodeError>((s, i + ser_shape(s).len())),
{
    match s {
        ShapeView::Path(p) => {
            let n = p.vp.len() as u64;
            let s1 = seq![0u8];
            let s2 = ser_u64(n);
            let s3 = ser_pos_seq(p.vp);
            let s4 = ser_opt_color(p.fill);
            let s5 = ser_stroke(p.stroke);
            assert(ser_shape(s) =~= s1 + (s2 + (s3 + (s4 + s5))));
            lemma_contains_split(b, i, s1, s2 + (s3 + (s4 + s5)));
            lemma_contains_split(b, i + 1, s2, s3 + (s4 + s5));
            lemma_contains_split(b, i + 1 + 8, s3, s4 + s5);
            lemma_contains_split(b, i + 1 + 8 + s3.len(), s4, s5);
            lemma_parse_ser_tag(b, i, 0);
            lemma_parse_ser_u64(b, i + 1, n);
            lemma_parse_ser_pos_seq(b, i + 9, p.vp);
            lemma_parse_ser_opt_color(b, i + 9 + s3.len(), p.fill);
            lemma_parse_ser_stroke(b, i + 9 + s3.len() + s4.len(), p.stroke);
            assert(s == ShapeView::Path(PathView { vp: p.vp, fill: p.fill, stroke: p.stroke }));
        }
        ShapeView::Circle(c) => {
            let s1 = seq![1u8];
            let s2 = ser_pos(c.center);
            let s3 = ser_i64(c.radius);
            let s4 = ser_opt_color(c.fill);
            let s5 = ser_opt_stroke(c.stroke);
            assert(ser_shape(s) =~= s1 + (s2 + (s3 + (s4 + s5))));
            lemma_contains_split(b, i, s1, s2 + (s3 + (s4 + s5)));
            lemma_contains_split(b, i + 1, s2, s3 + (s4 + s5));
            lemma_contains_split(b, i + 17, s3, s4 + s5);
            lemma_contains_split(b, i + 25, s4, s5);
            lemma_parse_ser_tag(b, i, 1);
            lemma_parse_ser_pos(b, i + 1, c.center);
            lemma_parse_ser_i64(b, i + 17, c.radius);
            lemma_parse_ser_opt_color(b, i + 25, c.fill);
            lemma_parse_ser_opt_stroke(b, i + 25 + s4.len(), c.stroke);
            assert(s == ShapeView::Circle(
                Circle { center: c.center, radius: c.radius, fill: c.fill, stroke: c.stroke },
            ));
        }
        ShapeView::Text(t) => {
            let s1 = seq![2u8];
            let s2 = ser_string(t.text);
            let s3 = ser_i64(t.size);
            let s4 = ser_pos(t.pos);
            let s5 = ser_color(t.color);
            assert(ser_shape(s) =~= s1 + (s2 + (s3 + (s4 + s5))));
            lemma_contains_split(b, i, s1, s2 + (s3 + (s4 + s5)));
            lemma_contains_split(b, i + 1, s2, s3 + (s4 + s5));
            lemma_contains_split(b, i + 1 + s2.len(), s3, s4 + s5);
            lemma_contains_split(b, i + 1 + s2.len() + 8, s4, s5);
            lemma_parse_ser_tag(b, i, 2);
            lemma_parse_ser_string(b, i + 1, t.text);
            lemma_parse_ser_i64(b, i + 1 + s2.len(), t.size);
            lemma_parse_ser_pos(b, i + 1 + s2.len() + 8, t.pos);
            lemma_parse_ser_color(b, i + 1 + s2.len() + 24, t.color);
            assert(s == ShapeView::Text(
                TextView { text: t.text, size: t.size, pos: t.pos, color: t.color },
            ));
        }
    }
}

proof fn lemma_parse_ser_element(b: Seq<u8>, i: int, e: ElementView)
    requires
        contains_at(b, i, ser_element(e)),
        wf_element(e),
    ensures
        parse_element(b, i) == Ok::<(ElementView, int), DecodeError>(
            (e, i + ser_element(e).len()),
        ),
{
    lemma_contains_split(b, i, ser_shape(e.shape), ser_opt_string(e.msg));
    lemma_parse_ser_shape(b, i, e.shape);
    lemma_parse_ser_opt_string(b, i + ser_shape(e.shape).len(), e.msg);
    assert(e == (ElementView { shape: e.shape, msg: e.msg }));
}

proof fn lemma_parse_ser_element_seq(b: Seq<u8>, i: int, es: Seq<ElementView>)
    requires
        contains_at(b, i, ser_element_seq(es)),
        forall|k: int| 0 <= k < es.len() ==> wf_element(#[trigger] es[k]),
    ensures
        parse_element_seq(b, i, es.len()) == Ok::<(Seq<ElementView>, int), DecodeError>(
            (es, i + ser_element_seq(es).len()),
        ),
    decreases es.len(),
{
    if es.len() == 0 {
        assert(es =~= Seq::<ElementView>::empty());
    } else {
        lemma_contains_split(b, i, ser_element(es[0]), ser_element_seq(es.drop_first()));
        lemma_parse_ser_element(b, i, es[0]);
        lemma_parse_ser_element_seq(b, i + ser_element(es[0]).len(), es.drop_first());
        assert(seq![es[0]] + es.drop_first() =~= es);
    }
}

proof fn lemma_parse_ser_frame(b: Seq<u8>, i: int, f: FrameView)
    requires
        contains_at(b, i, ser_frame(f)),
        wf_frame(f),
    ensures
        parse_frame(b, i) == Ok::<(FrameView, int), DecodeError>((f, i + ser_frame(f).len())),
{
    let n = f.elems.len() as u64;
    let s1 = ser_u64(n);
    let s2 = ser_element_seq(f.elems);
    let s3 = ser_pos(f.p1);
    let s4 = ser_pos(f.p2);
    assert(ser_frame(f) =~= s1 + (s2 + (s3 + s4)));
    lemma_contains_split(b, i, s1, s2 + (s3 + s4));
    lemma_contains_split(b, i + 8, s2, s3 + s4);
    lemma_contains_split(b, i + 8 + s2.len(), s3, s4);
    lemma_parse_ser_u64(b, i, n);
    lemma_parse_ser_element_seq(b, i + 8, f.elems);
    lemma_parse_ser_pos(b, i + 8 + s2.len(), f.p1);
    lemma_parse_ser_pos(b, i + 8 + s2.len() + 16, f.p2);
    assert(f == (FrameView { elems: f.elems, p1: f.p1, p2: f.p2 }));
}

proof fn lemma_parse_ser_frame_seq(b: Seq<u8>, i: int, fs: Seq<FrameView>)
    requires
        contains_at(b, i, ser_frame_seq(fs)),
        forall|k: int| 0 <= k < fs.len() ==> wf_frame(#[trigger] fs[k]),
    ensures
        parse_frame_seq(b, i, fs.len()) == Ok::<(Seq<FrameView>, int), DecodeError>(
            (fs, i + ser_frame_seq(fs).len()),
        ),
    decreases fs.len(),
{
    if fs.len() == 0 {
        assert(fs =~= Seq::<FrameView>::empty());
    } else {
        lemma_contains_split(b, i, ser_frame(fs[0]), ser_frame_seq(fs.drop_first()));
        lemma_parse_ser_frame(b, i, fs[0]);
        lemma_parse_ser_frame_seq(b, i + ser_frame(fs[0]).len(), fs.drop_first());
        assert(seq![fs[0]] + fs.drop_first() =~= fs);
    }
}

/// The round-trip law: decoding the serialization of any well-formed
/// scene sequence yields exactly that scene sequence — the same frame and
/// element counts, the same shape kinds, and every field bit for bit.
#[verifier::rlimit(100)]
#[verifier::spinoff_prover]
pub proof fn lemma_round_trip(v: FramesView)
    requires
        wf_frames(v),
    ensures
        spec_decode(ser_frames(v)) == Ok::<FramesView, DecodeError>(v),
{
    let b = ser_frames(v);
    let n = v.frames.len() as u64;
    let s1 = ser_u64(n);
    let s2 = ser_frame_seq(v.frames);
    assert(contains_at(b, 0, s1)) by {
        assert(b.subrange(0, 8) =~= s1);
    }
    assert(contains_at(b, 8, s2)) by {
        assert(b.subrange(8, 8 + s2.len() as int) =~= s2);
    }
    lemma_parse_ser_u64(b, 0, n);
    lemma_parse_ser_frame_seq(b, 8, v.frames);
    assert(n as nat == v.frames.len());
    assert(parse_frame_seq(b, 8, n as nat) == Ok::<(Seq<FrameView>, int), DecodeError>(
        (v.frames, b.len() as int),
    ));
    assert(v =~= (FramesView { frames: v.frames }));
}

// ---------------------------------------------------------------------------
// Encoding: executable writers, each appending exactly its field's bytes.
// ---------------------------------------------------------------------------

proof fn lemma_concat_assoc(a: Seq<u8>, b: Seq<u8>, c: Seq<u8>)
    ensures
        (a + b) + c == a + (b + c),
{
    assert((a + b) + c =~= a + (b + c));
}

proof fn lemma_ser_pos_seq_snoc(vs: Seq<Pos>, p: Pos)
    ensures
        ser_pos_seq(vs.push(p)) == ser_pos_seq(vs) + ser_pos(p),
    decreases vs.len(),
{
    let s = vs.push(p);
    if vs.len() == 0 {
        assert(s.drop_first() =~= Seq::<Pos>::empty());
        assert(s[0] == p);
        assert(ser_pos_seq(s) == ser_pos(p) + ser_pos_seq(Seq::<Pos>::empty()));
        assert(ser_pos(p) + Seq::<u8>::empty() =~= Seq::<u8>::empty() + ser_pos(p));
    } else {
        assert(s.drop_first() =~= vs.drop_first().push(p));
        lemma_ser_pos_seq_snoc(vs.drop_first(), p);
        assert(s[0] == vs[0]);
        assert(ser_pos_seq(s) == ser_pos(vs[0]) + (ser_pos_seq(vs.drop_first()) + ser_pos(p)));
        lemma_concat_assoc(ser_pos(vs[0]), ser_pos_seq(vs.drop_first()), ser_pos(p));
    }
}

proof fn lemma_ser_element_seq_snoc(es: Seq<ElementView>, e: ElementView)
    ensures
        ser_element_seq(es.push(e)) == ser_element_seq(es) + ser_element(e),
    decreases es.len(),
{
    let s = es.push(e);
    if es.len() == 0 {
        assert(s.drop_first() =~= Seq::<ElementView>::empty());
        assert(s[0] == e);
        assert(ser_element_seq(s) == ser_element(e) + ser_element_seq(Seq::<ElementView>::empty()));
        assert(ser_element(e) + Seq::<u8>::empty() =~= Seq::<u8>::empty() + ser_element(e));
    } else {
        assert(s.drop_first() =~= es.drop_first().push(e));
        lemma_ser_element_seq_snoc(es.drop_first(), e);
        assert(s[0] == es[0]);
        assert(ser_element_seq(s) == ser_element(es[0]) + (ser_element_seq(es.drop_first())
            + ser_element(e)));
        lemma_concat_assoc(ser_element(es[0]), ser_element_seq(es.drop_first()), ser_element(e));
    }
}

proof fn lemma_ser_frame_seq_snoc(fs: Seq<FrameView>, f: FrameView)
    ensures
        ser_frame_seq(fs.push(f)) == ser_frame_seq(fs) + ser_frame(f),
    decreases fs.len(),
{
    let s = fs.push(f);
    if fs.len() == 0 {
        assert(s.drop_first() =~= Seq::<FrameView>::empty());
        assert(s[0] == f);
        assert(ser_frame_seq(s) == ser_frame(f) + ser_frame_seq(Seq::<FrameView>::empty()));
        assert(ser_frame(f) + Seq::<u8>::empty() =~= Seq::<u8>::empty() + ser_frame(f));
    } else {
        assert(s.drop_first() =~= fs.drop_first().push(f));
        lemma_ser_frame_seq_snoc(fs.drop_first(), f);
        assert(s[0] == fs[0]);
        assert(ser_frame_seq(s) == ser_frame(fs[0]) + (ser_frame_seq(fs.drop_first())
            + ser_frame(f)));
        lemma_concat_assoc(ser_frame(fs[0]), ser_frame_seq(fs.drop_first()), ser_frame(f));
    }
}

fn push_u64(out: &mut Vec<u8>, v: u64)
    ensures
        final(out)@ == old(out)@ + ser_u64(v),
{
    out.push((v & 0xff) as u8);
    out.push(((v >> 8) & 0xff) as u8);
    out.push(((v >> 16) & 0xff) as u8);
    out.push(((v >> 24) & 0xff) as u8);
    out.push(((v >> 32) & 0xff) as u8);
    out.push(((v >> 40) & 0xff) as u8);
    out.push(((v >> 48) & 0xff) as u8);
    out.push(((v >> 56) & 0xff) as u8);
    proof {
        assert(out@ =~= old(out)@ + ser_u64(v));
    }
}

fn push_i64(out: &mut Vec<u8>, v: i64)
    ensures
        final(out)@ == old(out)@ + ser_i64(v),
{
    push_u64(out, v as u64);
}

fn push_color(out: &mut Vec<u8>, c: Color)
    ensures
        final(out)@ == old(out)@ + ser_color(c),
{
    out.push(c.r);
    out.push(c.g);
    out.push(c.b);
    out.push(c.a);
    proof {
        assert(out@ =~= old(out)@ + ser_color(c));
    }
}

fn push_pos(out: &mut Vec<u8>, p: Pos)
    ensures
        final(out)@ == old(out)@ + ser_pos(p),
{
    push_i64(out, p.x);
    push_i64(out, p.y);
    proof {
        assert(out@ =~= old(out)@ + ser_pos(p));
    }
}

fn push_opt_color(out: &mut Vec<u8>, o: Option<Color>)
    ensures
        final(out)@ == old(out)@ + ser_opt_color(o),
{
    match o {
        None => {
            out.push(0);
            proof {
                assert(out@ =~= old(out)@ + ser_opt_color(o));
            }
        }
        Some(c) => {
            out.push(1);
            push_color(out, c);
            proof {
                assert(out@ =~= old(out)@ + ser_opt_color(o));
            }
        }
    }
}

fn push_stroke(out: &mut Vec<u8>, s: Stroke)
    ensures
        final(out)@ == old(out)@ + ser_stroke(s),
{
    push_color(out, s.color);
    push_i64(out, s.width);
    proof {
        assert(out@ =~= old(out)@ + ser_stroke(s));
    }
}

fn push_opt_stroke(out: &mut Vec<u8>, o: Option<Stroke>)
    ensures
        final(out)@ == old(out)@ + ser_opt_stroke(o),
{
    match o {
        None => {
            out.push(0);
            proof {
                assert(out@ =~= old(out)@ + ser_opt_stroke(o));
            }
        }
        Some(s) => {
            out.push(1);
            push_stroke(out, s);
            proof {
                assert(out@ =~= old(out)@ + ser_opt_stroke(o));
            }
        }
    }
}

fn push_string(out: &mut Vec<u8>, s: &String)
    ensures
        final(out)@ == old(out)@ + ser_string(s@),
{
    let mut bytes = s.as_str().as_bytes_vec();
    push_u64(out, bytes.len() as u64);
    out.append(&mut bytes);
    proof {
        assert(out@ =~= old(out)@ + ser_string(s@));
    }
}

fn push_opt_string(out: &mut Vec<u8>, o: &Option<String>)
    ensures
        final(out)@ == old(out)@ + ser_opt_string(o.deep_view()),
{
    match o {
        None => {
            out.push(0);
            proof {
                assert(out@ =~= old(out)@ + ser_opt_string(o.deep_view()));
            }
        }
        Some(s) => {
            out.push(1);
            push_string(out, s);
            proof {
                assert(out@ =~= old(out)@ + ser_opt_string(o.deep_view()));
            }
        }
    }
}

fn push_pos_seq(out: &mut Vec<u8>, vs: &Vec<Pos>)
    ensures
        final(out)@ == old(out)@ + ser_pos_seq(vs@),
{
    let n = vs.len();
    for i in 0..n
        invariant
            n == vs.len(),
            out@ == old(out)@ + ser_pos_seq(vs@.subrange(0, i as int)),
    {
        let ghost done = vs@.subrange(0, i as int);
        push_pos(out, vs[i]);
        proof {
            lemma_ser_pos_seq_snoc(done, vs@[i as int]);
            assert(done.push(vs@[i as int]) =~= vs@.subrange(0, i + 1));
            assert(out@ =~= old(out)@ + ser_pos_seq(vs@.subrange(0, i + 1)));
        }
    }
    proof {
        assert(vs@.subrange(0, n as int) =~= vs@);
    }
}

fn push_shape(out: &mut Vec<u8>, s: &Shape)
    ensures
        final(out)@ == old(out)@ + ser_shape(s@),
{
    match s {
        Shape::Path(p) => {
            out.push(0);
            push_u64(out, p.vp.len() as u64);
            push_pos_seq(out, &p.vp);
            push_opt_color(out, p.fill);
            push_stroke(out, p.stroke);
            proof {
                assert(out@ =~= old(out)@ + ser_shape(s@));
            }
        }
        Shape::Circle(c) => {
            out.push(1);
            push_pos(out, c.center);
            push_i64(out, c.radius);
            push_opt_color(out, c.fill);
            push_opt_stroke(out, c.stroke);
            proof {
                assert(out@ =~= old(out)@ + ser_shape(s@));
            }
        }
        Shape::Text(t) => {
            out.push(2);
            push_string(out, &t.text);
            push_i64(out, t.size);
            push_pos(out, t.pos);
            push_color(out, t.color);
            proof {
                assert(out@ =~= old(out)@ + ser_shape(s@));
            }
        }
    }
}

fn push_element(out: &mut Vec<u8>, e: &Element)
    ensures
        final(out)@ == old(out)@ + ser_element(e@),
{
    push_shape(out, &e.shape);
    push_opt_string(out, &e.msg);
    proof {
        assert(out@ =~= old(out)@ + ser_element(e@));
    }
}

fn push_frame(out: &mut Vec<u8>, f: &Frame)
    ensures
        final(out)@ == old(out)@ + ser_frame(f@),
{
    push_u64(out, f.elems.len() as u64);
    let n = f.elems.len();
    for i in 0..n
        invariant
            n == f.elems.len(),
            out@ == old(out)@ + ser_u64(f@.elems.len() as u64) + ser_element_seq(
                f@.elems.subrange(0, i as int),
            ),
    {
        let ghost done = f@.elems.subrange(0, i as int);
        push_element(out, &f.elems[i]);
        proof {
            lemma_ser_element_seq_snoc(done, f@.elems[i as int]);
            assert(done.push(f@.elems[i as int]) =~= f@.elems.subrange(0, i + 1));
            assert(out@ =~= old(out)@ + ser_u64(f@.elems.len() as u64) + ser_element_seq(
                f@.elems.subrange(0, i + 1),
            ));
        }
    }
    push_pos(out, f.p1);
    push_pos(out, f.p2);
    proof {
        assert(f@.elems.subrange(0, n as int) =~= f@.elems);
        assert(out@ =~= old(out)@ + ser_frame(f@));
    }
}

impl Frames {
    /// Encodes the scene sequence into its binary byte string.
    pub fn encode(&self) -> (out: Vec<u8>)
        ensures
            out@ == ser_frames(self@),
    {
        let mut out: Vec<u8> = Vec::new();
        push_u64(&mut out, self.frames.len() as u64);
        let n = self.frames.len();
        for i in 0..n
            invariant
                n == self.frames.len(),
                out@ == ser_u64(self@.frames.len() as u64) + ser_frame_seq(
                    self@.frames.subrange(0, i as int),
                ),
        {
            let ghost done = self@.frames.subrange(0, i as int);
            push_frame(&mut out, &self.frames[i]);
            proof {
                lemma_ser_frame_seq_snoc(done, self@.frames[i as int]);
                assert(done.push(self@.frames[i as int]) =~= self@.frames.subrange(0, i + 1));
                assert(out@ =~= ser_u64(self@.frames.len() as u64) + ser_frame_seq(
                    self@.frames.subrange(0, i + 1),
                ));
            }
        }
        proof {
            assert(self@.frames.subrange(0, n as int) =~= self@.frames);
            assert(out@ =~= ser_frames(self@));
        }
        out
    }
}

// ---------------------------------------------------------------------------
// Decoding: executable readers, each matching its parsing function exactly.
// ---------------------------------------------------------------------------

/// Relies on String::from_utf8: it succeeds exactly on valid UTF-8 input
/// and yields the characters those bytes encode.
#[verifier::external_body]
fn string_from_utf8(bytes: Vec<u8>) -> (r: Option<String>)
    ensures
        match r {
            Some(s) => valid_utf8(bytes@) && s@ == decode_utf8(bytes@),
            None => !valid_utf8(bytes@),
        },
{
    match String::from_utf8(bytes) {
        Ok(s) => Some(s),
        Err(_) => None,
    }
}

fn read_u8(b: &Vec<u8>, i: usize) -> (r: Result<(u8, usize), DecodeError>)
    requires
        i <= b@.len(),
    ensures
        match r {
            Ok(p) => parse_u8(b@, i as int) == Ok::<(u8, int), DecodeError>((p.0, p.1 as int))
                && i < p.1 <= b@.len(),
            Err(e) => parse_u8(b@, i as int) == Err::<(u8, int), DecodeError>(e),
        },
{
    if b.len() - i >= 1 {
        Ok((b[i], i + 1))
    } else {
        Err(DecodeError::UnexpectedEnd)
    }
}

fn read_u64(b: &Vec<u8>, i: usize) -> (r: Result<(u64, usize), DecodeError>)
    requires
        i <= b@.len(),
    ensures
        match r {
            Ok(p) => parse_u64(b@, i as int) == Ok::<(u64, int), DecodeError>((p.0, p.1 as int))
                && i < p.1 <= b@.len(),
            Err(e) => parse_u64(b@, i as int) == Err::<(u64, int), DecodeError>(e),
        },
{
    if b.len() - i >= 8 {
        let v = (b[i] as u64) | ((b[i + 1] as u64) << 8) | ((b[i + 2] as u64) << 16) | ((b[i
            + 3] as u64) << 24) | ((b[i + 4] as u64) << 32) | ((b[i + 5] as u64) << 40) | ((b[i
            + 6] as u64) << 48) | ((b[i + 7] as u64) << 56);
        Ok((v, i + 8))
    } else {
        Err(DecodeError::UnexpectedEnd)
    }
}

fn read_i64(b: &Vec<u8>, i: usize) -> (r: Result<(i64, usize), DecodeError>)
    requires
        i <= b@.len(),
    ensures
        match r {
            Ok(p) => parse_i64(b@, i as int) == Ok::<(i64, int), DecodeError>((p.0, p.1 as int))
                && i < p.1 <= b@.len(),
            Err(e) => parse_i64(b@, i as int) == Err::<(i64, int), DecodeError>(e),
        },
{
    match read_u64(b, i) {
        Ok((v, j)) => Ok((v as i64, j)),
        Err(e) => Err(e),
    }
}

fn read_pos(b: &Vec<u8>, i: usize) -> (r: Result<(Pos, usize), DecodeError>)
    requires
        i <= b@.len(),
    ensures
        match r {
            Ok(p) => parse_pos(b@, i as int) == Ok::<(Pos, int), DecodeError>((p.0, p.1 as int))
                && i < p.1 <= b@.len(),
            Err(e) => parse_pos(b@, i as int) == Err::<(Pos, int), DecodeError>(e),
        },
{
    match read_i64(b, i) {
        Ok((x, j)) => match read_i64(b, j) {
            Ok((y, k)) => Ok((Pos { x, y }, k)),
            Err(e) => Err(e),
        },
        Err(e) => Err(e),
    }
}

fn read_color(b: &Vec<u8>, i: usize) -> (r: Result<(Color, usize), DecodeError>)
    requires
        i <= b@.len(),
    ensures
        match r {
            Ok(p) => parse_color(b@, i as int) == Ok::<(Color, int), DecodeError>(
                (p.0, p.1 as int),
            ) && i < p.1 <= b@.len(),
            Err(e) => parse_color(b@, i as int) == Err::<(Color, int), DecodeError>(e),
        },
{
    if b.len() - i >= 4 {
        Ok((Color { r: b[i], g: b[i + 1], b: b[i + 2], a: b[i + 3] }, i + 4))
    } else {
        Err(DecodeError::UnexpectedEnd)
    }
}

fn read_opt_color(b: &Vec<u8>, i: usize) -> (r: Result<(Option<Color>, usize), DecodeError>)
    requires
        i <= b@.len(),
    ensures
        match r {
            Ok(p) => parse_opt_color(b@, i as int) == Ok::<(Option<Color>, int), DecodeError>(
                (p.0, p.1 as int),
            ) && i < p.1 <= b@.len(),
            Err(e) => parse_opt_color(b@, i as int) == Err::<(Option<Color>, int), DecodeError>(e),
        },
{
    match read_u8(b, i) {
        Ok((t, j)) => {
            if t == 0 {
                Ok((None, j))
            } else if t == 1 {
                match read_color(b, j) {
                    Ok((c, k)) => Ok((Some(c), k)),
                    Err(e) => Err(e),
                }
            } else {
                Err(DecodeError::BadTag)
            }
        }
        Err(e) => Err(e),
    }
}

fn read_stroke(b: &Vec<u8>, i: usize) -> (r: Result<(Stroke, usize), DecodeError>)
    requires
        i <= b@.len(),
    ensures
        match r {
            Ok(p) => parse_stroke(b@, i as int) == Ok::<(Stroke, int), DecodeError>(
                (p.0, p.1 as int),
            ) && i < p.1 <= b@.len(),
            Err(e) => parse_stroke(b@, i as int) == Err::<(Stroke, int), DecodeError>(e),
        },
{
    match read_color(b, i) {
        Ok((c, j)) => match read_i64(b, j) {
            Ok((w, k)) => Ok((Stroke { color: c, width: w }, k)),
            Err(e) => Err(e),
        },
        Err(e) => Err(e),
    }
}

fn read_opt_stroke(b: &Vec<u8>, i: usize) -> (r: Result<(Option<Stroke>, usize), DecodeError>)
    requires
        i <= b@.len(),
    ensures
        match r {
            Ok(p) => parse_opt_stroke(b@, i as int) == Ok::<(Option<Stroke>, int), DecodeError>(
                (p.0, p.1 as int),
            ) && i < p.1 <= b@.len(),
            Err(e) => parse_opt_stroke(b@, i as int) == Err::<
                (Option<Stroke>, int),
                DecodeError,
            >(e),
        },
{
    match read_u8(b, i) {
        Ok((t, j)) => {
            if t == 0 {
                Ok((None, j))
            } else if t == 1 {
                match read_stroke(b, j) {
                    Ok((s, k)) => Ok((Some(s), k)),
                    Err(e) => Err(e),
                }
            } else {
                Err(DecodeError::BadTag)
            }
        }
        Err(e) => Err(e),
    }
}

fn read_string(b: &Vec<u8>, i: usize) -> (r: Result<(String, usize), DecodeError>)
    requires
        i <= b@.len(),
    ensures
        match r {
            Ok(p) => parse_string(b@, i as int) == Ok::<(Seq<char>, int), DecodeError>(
                (p.0@, p.1 as int),
            ) && i < p.1 <= b@.len(),
            Err(e) => parse_string(b@, i as int) == Err::<(Seq<char>, int), DecodeError>(e),
        },
{
    match read_u64(b, i) {
        Ok((n, j)) => {
            if n <= (b.len() - j) as u64 {
                let nn = n as usize;
                let mut bytes: Vec<u8> = Vec::new();
                for k in 0..nn
                    invariant
                        j + nn <= b@.len(),
                        j + nn <= usize::MAX,
                        bytes@ =~= b@.subrange(j as int, j + k),
                {
                    bytes.push(b[j + k]);
                    proof {
                        assert(bytes@ =~= b@.subrange(j as int, j + k + 1));
                    }
                }
                proof {
                    assert(bytes@ =~= b@.subrange(j as int, j + n));
                }
                match string_from_utf8(bytes) {
                    Some(s) => Ok((s, j + nn)),
                    None => Err(DecodeError::BadUtf8),
                }
            } else {
                Err(DecodeError::UnexpectedEnd)
            }
        }
        Err(e) => Err(e),
    }
}

fn read_opt_string(b: &Vec<u8>, i: usize) -> (r: Result<(Option<String>, usize), DecodeError>)
    requires
        i <= b@.len(),
    ensures
        match r {
            Ok(p) => parse_opt_string(b@, i as int) == Ok::<(Option<Seq<char>>, int), DecodeError>(
                (p.0.deep_view(), p.1 as int),
            ) && i < p.1 <= b@.len(),
            Err(e) => parse_opt_string(b@, i as int) == Err::<
                (Option<Seq<char>>, int),
                DecodeError,
            >(e),
        },
{
    match read_u8(b, i) {
        Ok((t, j)) => {
            if t == 0 {
                Ok((None, j))
            } else if t == 1 {
                match read_string(b, j) {
                    Ok((s, k)) => Ok((Some(s), k)),
                    Err(e) => Err(e),
                }
            } else {
                Err(DecodeError::BadTag)
            }
        }
        Err(e) => Err(e),
    }
}

/// How a partial vertex parse continues: the elements already read,
/// followed by whatever a parse of the remaining count yields.
spec fn pos_seq_continue(b: Seq<u8>, acc: Seq<Pos>, cur: int, rem: nat) -> Result<
    (Seq<Pos>, int),
    DecodeError,
> {
    match parse_pos_seq(b, cur, rem) {
        Ok((rest, j)) => Ok((acc + rest, j)),
        Err(e) => Err(e),
    }
}

fn read_pos_seq(b: &Vec<u8>, i: usize, count: u64) -> (r: Result<(Vec<Pos>, usize), DecodeError>)
    requires
        i <= b@.len(),
    ensures
        match r {
            Ok(p) => parse_pos_seq(b@, i as int, count as nat) == Ok::<
                (Seq<Pos>, int),
                DecodeError,
            >((p.0@, p.1 as int)) && i <= p.1 <= b@.len(),
            Err(e) => parse_pos_seq(b@, i as int, count as nat) == Err::<
                (Seq<Pos>, int),
                DecodeError,
            >(e),
        },
{
    let mut acc: Vec<Pos> = Vec::new();
    let mut cur: usize = i;
    let mut k: u64 = 0;
    while k < count
        invariant
            i <= cur <= b@.len(),
            k <= count,
            parse_pos_seq(b@, i as int, count as nat) == pos_seq_continue(
                b@,
                acc@,
                cur as int,
                (count - k) as nat,
            ),
        decreases count - k,
    {
        let ghost rem = (count - k) as nat;
        match read_pos(b, cur) {
            Ok((p, nxt)) => {
                proof {
                    match parse_pos_seq(b@, nxt as int, (rem - 1) as nat) {
                        Ok(pr) => {
                            assert(acc@ + (seq![p] + pr.0) =~= acc@.push(p) + pr.0);
                        }
                        Err(_) => {}
                    }
                }
                acc.push(p);
                cur = nxt;
                k = k + 1;
            }
            Err(e) => {
                return Err(e);
            }
        }
    }
    proof {
        assert(acc@ + Seq::<Pos>::empty() =~= acc@);
    }
    Ok((acc, cur))
}

#[verifier::rlimit(80)]
fn read_shape(b: &Vec<u8>, i: usize) -> (r: Result<(Shape, usize), DecodeError>)
    requires
        i <= b@.len(),
    ensures
        match r {
            Ok(p) => parse_shape(b@, i as int) == Ok::<(ShapeView, int), DecodeError>(
                (p.0@, p.1 as int),
            ) && i < p.1 <= b@.len(),
            Err(e) => parse_shape(b@, i as int) == Err::<(ShapeView, int), DecodeError>(e),
        },
{
    match read_u8(b, i) {
        Ok((t, j)) => {
            if t == 0 {
                match read_u64(b, j) {
                    Ok((n, j1)) => match read_pos_seq(b, j1, n) {
                        Ok((vp, j2)) => match read_opt_color(b, j2) {
                            Ok((fill, j3)) => match read_stroke(b, j3) {
                                Ok((stroke, j4)) => Ok((Shape::Path(Path { vp, fill, stroke }), j4)),
                                Err(e) => Err(e),
                            },
                            Err(e) => Err(e),
                        },
                        Err(e) => Err(e),
                    },
                    Err(e) => Err(e),
                }
            } else if t == 1 {
                match read_pos(b, j) {
                    Ok((center, j1)) => match read_i64(b, j1) {
                        Ok((radius, j2)) => match read_opt_color(b, j2) {
                            Ok((fill, j3)) => match read_opt_stroke(b, j3) {
                                Ok((stroke, j4)) => Ok(
                                    (Shape::Circle(Circle { center, radius, fill, stroke }), j4),
                                ),
                                Err(e) => Err(e),
                            },
                            Err(e) => Err(e),
                        },
                        Err(e) => Err(e),
                    },
                    Err(e) => Err(e),
                }
            } else if t == 2 {
                match read_string(b, j) {
                    Ok((text, j1)) => match read_i64(b, j1) {
                        Ok((size, j2)) => match read_pos(b, j2) {
                            Ok((pos, j3)) => match read_color(b, j3) {
                                Ok((color, j4)) => Ok(
                                    (Shape::Text(Text { text, size, pos, color }), j4),
                                ),
                                Err(e) => Err(e),
                            },
                            Err(e) => Err(e),
                        },
                        Err(e) => Err(e),
                    },
                    Err(e) => Err(e),
                }
            } else {
                Err(DecodeError::BadTag)
            }
        }
        Err(e) => Err(e),
    }
}

fn read_element(b: &Vec<u8>, i: usize) -> (r: Result<(Element, usize), DecodeError>)
    requires
        i <= b@.len(),
    ensures
        match r {
            Ok(p) => parse_element(b@, i as int) == Ok::<(ElementView, int), DecodeError>(
                (p.0@, p.1 as int),
            ) && i < p.1 <= b@.len(),
            Err(e) => parse_element(b@, i as int) == Err::<(ElementView, int), DecodeError>(e),
        },
{
    match read_shape(b, i) {
        Ok((shape, j)) => match read_opt_string(b, j) {
            Ok((msg, k)) => Ok((Element { shape, msg }, k)),
            Err(e) => Err(e),
        },
        Err(e) => Err(e),
    }
}

/// How a partial element parse continues.
spec fn element_seq_continue(b: Seq<u8>, acc: Seq<ElementView>, cur: int, rem: nat) -> Result<
    (Seq<ElementView>, int),
    DecodeError,
> {
    match parse_element_seq(b, cur, rem) {
        Ok((rest, j)) => Ok((acc + rest, j)),
        Err(e) => Err(e),
    }
}

#[verifier::rlimit(80)]
fn read_element_seq(b: &Vec<u8>, i: usize, count: u64) -> (r: Result<
    (Vec<Element>, usize),
    DecodeError,
>)
    requires
        i <= b@.len(),
    ensures
        match r {
            Ok(p) => parse_element_seq(b@, i as int, count as nat) == Ok::<
                (Seq<ElementView>, int),
                DecodeError,
            >((p.0.deep_view(), p.1 as int)) && i <= p.1 <= b@.len(),
            Err(e) => parse_element_seq(b@, i as int, count as nat) == Err::<
                (Seq<ElementView>, int),
                DecodeError,
            >(e),
        },
{
    let mut acc: Vec<Element> = Vec::new();
    let mut cur: usize = i;
    let mut k: u64 = 0;
    while k < count
        invariant
            i <= cur <= b@.len(),
            k <= count,
            parse_element_seq(b@, i as int, count as nat) == element_seq_continue(
                b@,
                acc.deep_view(),
                cur as int,
                (count - k) as nat,
            ),
        decreases count - k,
    {
        let ghost rem = (count - k) as nat;
        let ghost prev = acc.deep_view();
        match read_element(b, cur) {
            Ok((e, nxt)) => {
                let ghost ev = e.deep_view();
                proof {
                    match parse_element_seq(b@, nxt as int, (rem - 1) as nat) {
                        Ok(pr) => {
                            assert(prev + (seq![ev] + pr.0) =~= prev.push(ev) + pr.0);
                        }
                        Err(_) => {}
                    }
                }
                acc.push(e);
                proof {
                    assert(acc.deep_view() =~= prev.push(ev));
                }
                cur = nxt;
                k = k + 1;
            }
            Err(e) => {
                return Err(e);
            }
        }
    }
    proof {
        assert(acc.deep_view() + Seq::<ElementView>::empty() =~= acc.deep_view());
    }
    Ok((acc, cur))
}

fn read_frame(b: &Vec<u8>, i: usize) -> (r: Result<(Frame, usize), DecodeError>)
    requires
        i <= b@.len(),
    ensures
        match r {
            Ok(p) => parse_frame(b@, i as int) == Ok::<(FrameView, int), DecodeError>(
                (p.0@, p.1 as int),
            ) && i < p.1 <= b@.len(),
            Err(e) => parse_frame(b@, i as int) == Err::<(FrameView, int), DecodeError>(e),
        },
{
    match read_u64(b, i) {
        Ok((n, j)) => match read_element_seq(b, j, n) {
            Ok((elems, j1)) => match read_pos(b, j1) {
                Ok((p1, j2)) => match read_pos(b, j2) {
                    Ok((p2, j3)) => Ok((Frame { elems, p1, p2 }, j3)),
                    Err(e) => Err(e),
                },
                Err(e) => Err(e),
            },
            Err(e) => Err(e),
        },
        Err(e) => Err(e),
    }
}

/// How a partial frame parse continues.
spec fn frame_seq_continue(b: Seq<u8>, acc: Seq<FrameView>, cur: int, rem: nat) -> Result<
    (Seq<FrameView>, int),
    DecodeError,
> {
    match parse_frame_seq(b, cur, rem) {
        Ok((rest, j)) => Ok((acc + rest, j)),
        Err(e) => Err(e),
    }
}

#[verifier::rlimit(80)]
fn read_frame_seq(b: &Vec<u8>, i: usize, count: u64) -> (r: Result<
    (Vec<Frame>, usize),
    DecodeError,
>)
    requires
        i <= b@.len(),
    ensures
        match r {
            Ok(p) => parse_frame_seq(b@, i as int, count as nat) == Ok::<
                (Seq<FrameView>, int),
                DecodeError,
            >((p.0.deep_view(), p.1 as int)) && i <= p.1 <= b@.len(),
            Err(e) => parse_frame_seq(b@, i as int, count as nat) == Err::<
                (Seq<FrameView>, int),
                DecodeError,
            >(e),
        },
{
    let mut acc: Vec<Frame> = Vec::new();
    let mut cur: usize = i;
    let mut k: u64 = 0;
    while k < count
        invariant
            i <= cur <= b@.len(),
            k <= count,
            parse_frame_seq(b@, i as int, count as nat) == frame_seq_continue(
                b@,
                acc.deep_view(),
                cur as int,
                (count - k) as nat,
            ),
        decreases count - k,
    {
        let ghost rem = (count - k) as nat;
        let ghost prev = acc.deep_view();
        match read_frame(b, cur) {
            Ok((f, nxt)) => {
                let ghost fv = f.deep_view();
                proof {
                    match parse_frame_seq(b@, nxt as int, (rem - 1) as nat) {
                        Ok(pr) => {
                            assert(prev + (seq![fv] + pr.0) =~= prev.push(fv) + pr.0);
                        }
                        Err(_) => {}
                    }
                }
                acc.push(f);
                proof {
                    assert(acc.deep_view() =~= prev.push(fv));
                }
                cur = nxt;
                k = k + 1;
            }
            Err(e) => {
                return Err(e);
            }
        }
    }
    proof {
        assert(acc.deep_view() + Seq::<FrameView>::empty() =~= acc.deep_view());
    }
    Ok((acc, cur))
}

impl Frames {
    /// Decodes a byte string produced by [`Frames::encode`]. Succeeds
    /// exactly when the bytes parse as a frame sequence with nothing left
    /// over, and then returns exactly the parsed scenes.
    pub fn decode(encoded: Vec<u8>) -> (r: Result<Self, DecodeError>)
        ensures
            match r {
                Ok(f) => spec_decode(encoded@) == Ok::<FramesView, DecodeError>(f@),
                Err(e) => spec_decode(encoded@) == Err::<FramesView, DecodeError>(e),
            },
    {
        match read_u64(&encoded, 0) {
            Ok((n, j)) => match read_frame_seq(&encoded, j, n) {
                Ok((frames, k)) => {
                    if k == encoded.len() {
                        Ok(Frames { frames })
                    } else {
                        Err(DecodeError::TrailingBytes)
                    }
                }
                Err(e) => Err(e),
            },
            Err(e) => Err(e),
        }
    }
}

} // verus!
