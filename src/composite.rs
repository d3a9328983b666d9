//! Audit-image compositing: which boxes are drawn in which colour, and how
//! the drawn overlay is laid over the source pixels.
use crate::codec::{DetectError, Detection, Label};
use crate::geometry::BoundingBox;
use vstd::prelude::*;

verus! {

/// Outline width of a drawn box, in pixels.
pub const STROKE_WIDTH: u32 = 4;

/// A straight (non-premultiplied) RGBA colour.
#[derive(Clone, Copy, Debug, PartialEq, Eq, Structural)]
pub struct Color {
    pub r: u8,
    pub g: u8,
    pub b: u8,
    pub a: u8,
}

/// A box to outline, and the colour of its outline.
#[derive(Clone, Copy, Debug, PartialEq, Eq, Structural)]
pub struct Stroke {
    pub bbox: BoundingBox,
    pub color: Color,
}

pub open spec fn label_color(l: Label) -> Option<Color> {
    match l {
        Label::Nailong => Some(Color { r: 255, g: 0, b: 0, a: 255 }),
        Label::Xiong => None,
        Label::Other(_) => Some(Color { r: 0x80, g: 0x10, b: 0x40, a: 0x80 }),
    }
}

/// Outline colour of a label: opaque red for the forbidden pattern, a
/// half-transparent muted purple for other classes, and nothing for the
/// auxiliary class, which is not drawn.
pub fn color_for(l: Label) -> (r: Option<Color>)
    ensures
        r == label_color(l),
{
    match l {
        Label::Nailong => Some(Color { r: 255, g: 0, b: 0, a: 255 }),
        Label::Xiong => None,
        Label::Other(_) => Some(Color { r: 0x80, g: 0x10, b: 0x40, a: 0x80 }),
    }
}

/// The outlines to draw for `dets`, in order, skipping undrawn labels.
pub open spec fn strokes_of(dets: Seq<Detection>) -> Seq<Stroke>
    decreases dets.len(),
{
    if dets.len() == 0 {
        Seq::empty()
    } else {
        let prev = strokes_of(dets.drop_last());
        match label_color(dets.last().label) {
            Some(c) => prev.push(Stroke { bbox: dets.last().bbox, color: c }),
            None => prev,
        }
    }
}

/// Highest confidence among drawn detections, zero when none is drawn.
pub open spec fn drawn_max_confidence(dets: Seq<Detection>) -> u32
    decreases dets.len(),
{
    if dets.len() == 0 {
        0
    } else {
        let prev = drawn_max_confidence(dets.drop_last());
        let d = dets.last();
        if label_color(d.label) is Some && d.confidence > prev {
            d.confidence
        } else {
            prev
        }
    }
}

pub(crate) proof fn lemma_drawn_max_upper(t: Seq<Detection>, b: u32)
    requires
        forall|i: int| 0 <= i < t.len() ==> (#[trigger] t[i]).confidence <= b,
    ensures
        drawn_max_confidence(t) <= b,
    decreases t.len(),
{
    if t.len() > 0 {
        lemma_drawn_max_upper(t.drop_last(), b);
    }
}

pub(crate) proof fn lemma_drawn_max_lower(t: Seq<Detection>)
    requires
        forall|i: int| 0 <= i < t.len() ==> (#[trigger] t[i]).label == Label::Nailong,
    ensures
        forall|i: int| 0 <= i < t.len() ==> (#[trigger] t[i]).confidence <= drawn_max_confidence(t),
    decreases t.len(),
{
    if t.len() > 0 {
        lemma_drawn_max_lower(t.drop_last());
        assert forall|i: int| 0 <= i < t.len() implies (#[trigger] t[i]).confidence
            <= drawn_max_confidence(t) by {
            if i < t.len() - 1 {
                assert(t[i] == t.drop_last()[i]);
            }
        }
    }
}

/// The outlines to draw for the final detections, and the highest confidence
/// among the drawn ones (zero when none is drawn).
pub fn plan_strokes(dets: &Vec<Detection>) -> (r: (Vec<Stroke>, u32))
    ensures
        r.0@ == strokes_of(dets@),
        r.1 == drawn_max_confidence(dets@),
{
    let mut strokes: Vec<Stroke> = Vec::new();
    let mut best: u32 = 0;
    let mut i: usize = 0;
    while i < dets.len()
        invariant
            i <= dets.len(),
            strokes@ == strokes_of(dets@.subrange(0, i as int)),
            best == drawn_max_confidence(dets@.subrange(0, i as int)),
        decreases dets.len() - i,
    {
        assert(dets@.subrange(0, i + 1).drop_last() =~= dets@.subrange(0, i as int));
        assert(dets@.subrange(0, i + 1).last() == dets@[i as int]);
        let d = dets[i];
        match color_for(d.label) {
            Some(c) => {
                if d.confidence > best {
                    best = d.confidence;
                }
                strokes.push(Stroke { bbox: d.bbox, color: c });
            },
            None => {},
        }
        i = i + 1;
    }
    assert(dets@.subrange(0, dets.len() as int) =~= dets@);
    (strokes, best)
}

/// Channel `c` (0 red, 1 green, 2 blue, 3 alpha) of a pixel packed as
/// `0xAARRGGBB`.
pub open spec fn argb_channel(v: u32, c: int) -> u8 {
    if c == 0 {
        ((v / 65536) % 256) as u8
    } else if c == 1 {
        ((v / 256) % 256) as u8
    } else if c == 2 {
        (v % 256) as u8
    } else {
        (v / 16777216) as u8
    }
}

/// Byte `c` of pixel `p` of the composite, always opaque: the overlay's
/// colour where the overlay has any alpha, else the source colour.
pub open spec fn merged_byte(orig: Seq<u8>, v: u32, p: int, c: int) -> u8 {
    if c == 3 {
        255
    } else if v / 16777216 > 0 {
        argb_channel(v, c)
    } else {
        orig[4 * p + c]
    }
}

/// Lays a drawn overlay (one `0xAARRGGBB` value per pixel) over an RGBA
/// image of the same size: where the overlay has non-zero alpha its colour
/// wins, elsewhere the source pixel shows; every pixel comes out opaque. Fails with
/// `InvalidImage` when the two sizes differ.
pub fn merge_overlay(orig: &Vec<u8>, overlay: &Vec<u32>) -> (r: Result<Vec<u8>, DetectError>)
    ensures
        r is Err <==> orig.len() != 4 * overlay.len(),
        r is Err ==> r == Err::<Vec<u8>, DetectError>(DetectError::InvalidImage),
        r is Ok ==> r.unwrap().len() == orig.len() && forall|p: int, c: int|
            0 <= p < overlay.len() && 0 <= c < 4 ==> #[trigger] r.unwrap()[4 * p + c]
                == merged_byte(orig@, #[trigger] overlay[p], p, c),
{
    if orig.len() / 4 != overlay.len() || orig.len() % 4 != 0 {
        return Err(DetectError::InvalidImage);
    }
    let mut out: Vec<u8> = Vec::new();
    let mut p: usize = 0;
    while p < overlay.len()
        invariant
            p <= overlay.len(),
            orig.len() == 4 * overlay.len(),
            out.len() == 4 * p,
            forall|q: int, c: int|
                0 <= q < p && 0 <= c < 4 ==> #[trigger] out[4 * q + c] == merged_byte(
                    orig@,
                    #[trigger] overlay[q],
                    q,
                    c,
                ),
        decreases overlay.len() - p,
    {
        let v = overlay[p];
        let ghost before = out@;
        if v / 16777216 > 0 {
            out.push(((v / 65536) % 256) as u8);
            out.push(((v / 256) % 256) as u8);
            out.push((v % 256) as u8);
            out.push(255);
        } else {
            out.push(orig[4 * p]);
            out.push(orig[4 * p + 1]);
            out.push(orig[4 * p + 2]);
            out.push(255);
        }
        proof {
            assert forall|q: int, c: int| 0 <= q < p + 1 && 0 <= c < 4 implies #[trigger] out[4 * q
                + c] == merged_byte(orig@, #[trigger] overlay[q], q, c) by {
                if q < p {
                    assert(out[4 * q + c] == before[4 * q + c]);
                }
            }
        }
        p = p + 1;
    }
    Ok(out)
}

} // verus!
