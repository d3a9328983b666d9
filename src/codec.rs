//! Tensor codec: pixels to a planar model input, and raw detector rows to
//! candidate detections in source-image coordinates.
use crate::geometry::{coord_ok, BoundingBox};
use vstd::prelude::*;

verus! {

/// Side of the square model input, in pixels.
pub const MODEL_SIZE: u32 = 640;

/// Confidences are integers in parts per million: `1_000_000` is certainty.
pub const CONFIDENCE_SCALE: u32 = 1000000;

/// Rows whose best class score is below this (0.3) are not candidates.
pub const SCORE_FLOOR: u32 = 300000;

/// What a class of the detector stands for.
#[derive(Clone, Copy, Debug, PartialEq, Eq, Structural)]
pub enum Label {
    /// The forbidden pattern itself: drawn in red and counted.
    Nailong,
    /// An auxiliary class that is neither drawn nor counted.
    Xiong,
    /// Any other class: drawn in a muted colour, never counted.
    Other(u32),
}

/// Errors of the detection pipeline.
#[derive(Clone, Copy, Debug, PartialEq, Eq, Structural)]
pub enum DetectError {
    /// Corrupt bytes, zero dimensions, or a missing frame.
    InvalidImage,
    /// The inference engine failed.
    InferenceFailure,
    /// A temporary file could not be written or removed.
    ArtifactIoFailure,
    /// The image could not be downloaded.
    TransportFailure,
}

/// One detection: a box, what it shows, and how sure the model is.
#[derive(Clone, Copy, Debug, PartialEq, Eq, Structural)]
pub struct Detection {
    pub bbox: BoundingBox,
    pub label: Label,
    /// Parts per million.
    pub confidence: u32,
}

/// One row of the detector's output: centre and size in thousandths of a
/// model-input pixel, then one score (parts per million) per class.
#[derive(Debug)]
pub struct RawRow {
    pub cx: i32,
    pub cy: i32,
    pub w: i32,
    pub h: i32,
    pub scores: Vec<u32>,
}

/// Index of the first maximum of `s`.
pub open spec fn argmax(s: Seq<u32>) -> int
    decreases s.len(),
{
    if s.len() <= 1 {
        0
    } else {
        let a = argmax(s.drop_last());
        if s.last() > s[a] {
            s.len() - 1
        } else {
            a
        }
    }
}

pub(crate) proof fn lemma_argmax_in_range(s: Seq<u32>)
    requires
        s.len() >= 1,
    ensures
        0 <= argmax(s) < s.len(),
    decreases s.len(),
{
    if s.len() > 1 {
        lemma_argmax_in_range(s.drop_last());
    }
}

/// Every class of the detector is the forbidden pattern.
pub open spec fn single_class(labels: Seq<Label>) -> bool {
    forall|i: int| 0 <= i < labels.len() ==> #[trigger] labels[i] == Label::Nailong
}

/// A source coordinate, in thousandths of a source pixel, of the model-space
/// value `num / 2` (thousandths of a model pixel) on an axis of `dim` pixels.
pub open spec fn rescale(num: int, dim: int) -> int {
    (num * dim) / 1280
}

pub open spec fn row_best(r: RawRow) -> u32 {
    r.scores@[argmax(r.scores@)]
}

pub open spec fn row_kept(r: RawRow) -> bool {
    row_best(r) >= SCORE_FLOOR
}

/// The detection a row stands for, for a source image of `width x height`.
pub open spec fn decode_row(r: RawRow, width: u32, height: u32, labels: Seq<Label>) -> Detection {
    Detection {
        bbox: BoundingBox {
            x1: rescale(2 * r.cx - r.w, width as int) as i64,
            y1: rescale(2 * r.cy - r.h, height as int) as i64,
            x2: rescale(2 * r.cx + r.w, width as int) as i64,
            y2: rescale(2 * r.cy + r.h, height as int) as i64,
        },
        label: labels[argmax(r.scores@)],
        confidence: row_best(r),
    }
}

/// The detections of the rows that clear the score floor, in row order.
pub open spec fn decoded(rows: Seq<RawRow>, width: u32, height: u32, labels: Seq<Label>) -> Seq<
    Detection,
>
    decreases rows.len(),
{
    if rows.len() == 0 {
        Seq::empty()
    } else {
        let prev = decoded(rows.drop_last(), width, height, labels);
        if row_kept(rows.last()) {
            prev.push(decode_row(rows.last(), width, height, labels))
        } else {
            prev
        }
    }
}

pub open spec fn rows_ok(rows: Seq<RawRow>, labels: Seq<Label>) -> bool {
    forall|i: int|
        0 <= i < rows.len() ==> 1 <= #[trigger] rows[i].scores@.len() <= labels.len()
}

/// Index of the first highest score.
pub fn best_class(scores: &Vec<u32>) -> (r: usize)
    requires
        scores.len() >= 1,
    ensures
        r == argmax(scores@),
        r < scores.len(),
{
    let mut best: usize = 0;
    let mut j: usize = 1;
    while j < scores.len()
        invariant
            1 <= j <= scores.len(),
            best == argmax(scores@.subrange(0, j as int)),
            best < j,
        decreases scores.len() - j,
    {
        let ghost pre = scores@.subrange(0, j as int);
        assert(scores@.subrange(0, j + 1).drop_last() =~= pre);
        if scores[j] > scores[best] {
            best = j;
        }
        j = j + 1;
    }
    assert(scores@.subrange(0, scores.len() as int) =~= scores@);
    best
}

fn rescale_exec(num: i64, dim: u32) -> (r: i64)
    requires
        -6442450944 <= num <= 6442450944,
    ensures
        r == rescale(num as int, dim as int),
        coord_ok(r),
{
    assert(-6442450944 * 4294967295 <= num * dim <= 6442450944 * 4294967295) by (nonlinear_arith)
        requires
            -6442450944 <= num <= 6442450944,
            0 <= dim <= 4294967295,
    ;
    let n: i128 = (num as i128) * (dim as i128);
    let q: i128 = if n >= 0 {
        n / 1280
    } else {
        -((-n + 1279) / 1280)
    };
    assert(q == n / 1280);
    q as i64
}

/// The candidate for one row, assuming it clears the floor.
fn decode_one(r: &RawRow, width: u32, height: u32, labels: &Vec<Label>) -> (d: Detection)
    requires
        1 <= r.scores@.len() <= labels@.len(),
    ensures
        d == decode_row(*r, width, height, labels@),
        d.bbox.wf(),
{
    let k = best_class(&r.scores);
    let cx = r.cx as i64;
    let cy = r.cy as i64;
    let w = r.w as i64;
    let h = r.h as i64;
    let bbox = BoundingBox {
        x1: rescale_exec(2 * cx - w, width),
        y1: rescale_exec(2 * cy - h, height),
        x2: rescale_exec(2 * cx + w, width),
        y2: rescale_exec(2 * cy + h, height),
    };
    Detection { bbox, label: labels[k], confidence: r.scores[k] }
}

/// Candidate detections from raw rows: for each row, the first best class
/// and its score; rows below the floor are dropped; centre and size are
/// scaled from the model square back to `width x height` and turned into
/// corners.
pub fn decode_detections(rows: &Vec<RawRow>, width: u32, height: u32, labels: &Vec<Label>) -> (r:
    Vec<Detection>)
    requires
        rows_ok(rows@, labels@),
    ensures
        r@ == decoded(rows@, width, height, labels@),
        forall|i: int| 0 <= i < r.len() ==> (#[trigger] r[i]).bbox.wf(),
{
    let mut out: Vec<Detection> = Vec::new();
    let mut i: usize = 0;
    while i < rows.len()
        invariant
            i <= rows.len(),
            rows_ok(rows@, labels@),
            out@ == decoded(rows@.subrange(0, i as int), width, height, labels@),
            forall|j: int| 0 <= j < out.len() ==> (#[trigger] out[j]).bbox.wf(),
        decreases rows.len() - i,
    {
        assert(rows@.subrange(0, i + 1).drop_last() =~= rows@.subrange(0, i as int));
        assert(rows@.subrange(0, i + 1).last() == rows@[i as int]);
        let row = &rows[i];
        assert(1 <= rows@[i as int].scores@.len());
        let k = best_class(&row.scores);
        if row.scores[k] >= SCORE_FLOOR {
            let d = decode_one(row, width, height, labels);
            out.push(d);
        }
        i = i + 1;
    }
    assert(rows@.subrange(0, rows.len() as int) =~= rows@);
    out
}

/// Highest score among rows that clear the score floor and whose best class
/// is the forbidden pattern, or zero when there is none.
pub open spec fn max_target_score(rows: Seq<RawRow>, labels: Seq<Label>) -> u32
    decreases rows.len(),
{
    if rows.len() == 0 {
        0
    } else {
        let prev = max_target_score(rows.drop_last(), labels);
        let r = rows.last();
        if row_kept(r) && labels[argmax(r.scores@)] == Label::Nailong && row_best(r) > prev {
            row_best(r)
        } else {
            prev
        }
    }
}

/// Highest confidence of the forbidden pattern over the rows that clear the
/// score floor; zero when no such row's best class is the pattern.
pub fn max_target_confidence(rows: &Vec<RawRow>, labels: &Vec<Label>) -> (r: u32)
    requires
        rows_ok(rows@, labels@),
    ensures
        r == max_target_score(rows@, labels@),
{
    let mut best: u32 = 0;
    let mut i: usize = 0;
    while i < rows.len()
        invariant
            i <= rows.len(),
            rows_ok(rows@, labels@),
            best == max_target_score(rows@.subrange(0, i as int), labels@),
        decreases rows.len() - i,
    {
        assert(rows@.subrange(0, i + 1).drop_last() =~= rows@.subrange(0, i as int));
        assert(rows@.subrange(0, i + 1).last() == rows@[i as int]);
        let row = &rows[i];
        assert(1 <= rows@[i as int].scores@.len());
        let k = best_class(&row.scores);
        if row.scores[k] >= SCORE_FLOOR && labels[k] == Label::Nailong && row.scores[k] > best {
            best = row.scores[k];
        }
        i = i + 1;
    }
    assert(rows@.subrange(0, rows.len() as int) =~= rows@);
    best
}

/// The three colour planes of an RGBA image, channel first: all red values
/// in pixel order, then all green, then all blue.
pub open spec fn is_planar_of(t: Seq<u8>, rgba: Seq<u8>, n: int) -> bool {
    &&& t.len() == 3 * n
    &&& forall|p: int|
        0 <= p < n ==> #[trigger] t[p] == rgba[4 * p] && t[n + p] == rgba[4 * p + 1] && t[2 * n + p]
            == rgba[4 * p + 2]
}

/// Planar model input from a `width x height` RGBA buffer (row-major,
/// four bytes per pixel). Fails with `InvalidImage` on a zero dimension or
/// a buffer of the wrong length.
pub fn encode_planar(width: u32, height: u32, rgba: &Vec<u8>) -> (r: Result<Vec<u8>, DetectError>)
    ensures
        (width == 0 || height == 0 || rgba.len() != 4 * width * height) <==> r is Err,
        r is Err ==> r == Err::<Vec<u8>, DetectError>(DetectError::InvalidImage),
        r is Ok ==> is_planar_of(r.unwrap()@, rgba@, width * height),
{
    assert(0 <= width * height <= 4294967295 * 4294967295) by (nonlinear_arith)
        requires
            0 <= width <= 4294967295,
            0 <= height <= 4294967295,
    ;
    let need: u128 = (width as u128) * (height as u128) * 4;
    assert(need == 4 * width * height) by (nonlinear_arith)
        requires
            need == width * height * 4,
    ;
    if width == 0 || height == 0 || (rgba.len() as u128) != need {
        return Err(DetectError::InvalidImage);
    }
    let n: usize = rgba.len() / 4;
    assert(n == width * height);
    let mut red: Vec<u8> = Vec::new();
    let mut green: Vec<u8> = Vec::new();
    let mut blue: Vec<u8> = Vec::new();
    let mut p: usize = 0;
    while p < n
        invariant
            p <= n,
            n * 4 == rgba.len(),
            red.len() == p,
            green.len() == p,
            blue.len() == p,
            forall|q: int|
                0 <= q < p ==> red[q] == rgba[4 * q] && green[q] == rgba[4 * q + 1] && blue[q]
                    == rgba[4 * q + 2],
        decreases n - p,
    {
        red.push(rgba[4 * p]);
        green.push(rgba[4 * p + 1]);
        blue.push(rgba[4 * p + 2]);
        p = p + 1;
    }
    let mut out = red;
    out.append(&mut green);
    out.append(&mut blue);
    Ok(out)
}

/// Relies on `image::imageops::resize` with `FilterType::CatmullRom`: the
/// result has the requested size, four bytes per pixel, and is a copy when
/// the size is unchanged. `from_raw` accepts a buffer of exactly the size.
/// The resampled values themselves are left open: the filter computes in
/// floating point with `powi`, whose precision std does not fix.
#[verifier::external_body]
fn resize_to_model(width: u32, height: u32, rgba: &Vec<u8>) -> (r: Vec<u8>)
    requires
        width > 0,
        height > 0,
        rgba.len() == 4 * width * height,
    ensures
        r.len() == 4 * MODEL_SIZE * MODEL_SIZE,
        width == MODEL_SIZE && height == MODEL_SIZE ==> r@ == rgba@,
{
    let img = image::RgbaImage::from_raw(width, height, rgba.clone()).unwrap();
    let filter = image::imageops::FilterType::CatmullRom;
    image::imageops::resize(&img, MODEL_SIZE, MODEL_SIZE, filter).into_raw()
}

/// Model input for a `width x height` RGBA image: resized to the model
/// square (no aspect ratio kept), then split into planes. Fails with
/// `InvalidImage` on a zero dimension or a buffer of the wrong length.
pub fn model_tensor(width: u32, height: u32, rgba: &Vec<u8>) -> (r: Result<Vec<u8>, DetectError>)
    ensures
        (width == 0 || height == 0 || rgba.len() != 4 * width * height) <==> r is Err,
        r is Err ==> r == Err::<Vec<u8>, DetectError>(DetectError::InvalidImage),
        r is Ok ==> r.unwrap().len() == 3 * MODEL_SIZE * MODEL_SIZE,
        r is Ok && width == MODEL_SIZE && height == MODEL_SIZE ==> is_planar_of(
            r.unwrap()@,
            rgba@,
            MODEL_SIZE * MODEL_SIZE,
        ),
{
    assert(0 <= width * height <= 4294967295 * 4294967295) by (nonlinear_arith)
        requires
            0 <= width <= 4294967295,
            0 <= height <= 4294967295,
    ;
    let need: u128 = (width as u128) * (height as u128) * 4;
    assert(need == 4 * width * height) by (nonlinear_arith)
        requires
            need == width * height * 4,
    ;
    if width == 0 || height == 0 || (rgba.len() as u128) != need {
        return Err(DetectError::InvalidImage);
    }
    let resized = resize_to_model(width, height, rgba);
    encode_planar(MODEL_SIZE, MODEL_SIZE, &resized)
}

/// Decoding the model square's full extent gives the full source image.
pub proof fn lemma_full_square_decodes_to_full_image(
    width: u32,
    height: u32,
    labels: Seq<Label>,
    r: RawRow,
)
    requires
        r.cx == 320000,
        r.cy == 320000,
        r.w == 640000,
        r.h == 640000,
    ensures
        decode_row(r, width, height, labels).bbox == (BoundingBox {
            x1: 0,
            y1: 0,
            x2: (width * 1000) as i64,
            y2: (height * 1000) as i64,
        }),
{
    assert((0 * (width as int)) / 1280 == 0) by (nonlinear_arith);
    assert((0 * (height as int)) / 1280 == 0) by (nonlinear_arith);
    assert((1280000 * (width as int)) / 1280 == 1000 * width) by (nonlinear_arith);
    assert((1280000 * (height as int)) / 1280 == 1000 * height) by (nonlinear_arith);
}

} // verus!
