//! Keyframe scan results and the sprite manifest that maps every keyframe
//! to a time span, a sheet and a tile.

use vstd::prelude::*;
use crate::clock::{format_human_time, human_time};
use crate::layout::{
    lemma_tile_bounds, lemma_u32_product, sheet_count, sheet_file_name, sheet_planned, tile_x, tile_y,
    tiles_on_sheet, SheetPlan,
};
use crate::text::{
    decimal, digits_value, lemma_decimal_value, lemma_zero_padded_value, push_char, push_decimal,
    push_padded, push_str, zero_padded,
};

verus! {

/// One keyframe: its time in milliseconds and its clock text.
#[derive(Clone, Debug)]
pub struct KeyframeInfo {
    pub time_ms: i64,
    pub time_human: String,
}

/// All keyframes of a video, in stream order, with their count.
#[derive(Clone, Debug)]
pub struct KeyframeScanResult {
    pub total_keyframes: usize,
    pub keyframes: Vec<KeyframeInfo>,
}

impl KeyframeScanResult {
    /// Wraps a keyframe list; the count is the list's length.
    pub fn new(keyframes: Vec<KeyframeInfo>) -> (res: Self)
        ensures
            res.keyframes@ == keyframes@,
            res.total_keyframes == keyframes@.len(),
    {
        let total_keyframes = keyframes.len();
        KeyframeScanResult { total_keyframes, keyframes }
    }
}

/// One manifest entry: the span a thumbnail stands for and where it sits.
#[derive(Clone, Debug)]
pub struct SpriteInfo {
    pub time_start_ms: i64,
    pub time_end_ms: i64,
    pub time_display: String,
    pub sheet_file: String,
    pub xywh: String,
}

/// Mathematical view of a manifest entry.
pub struct SpriteEntry {
    pub time_start: int,
    pub time_end: int,
    pub time_display: Seq<char>,
    pub sheet_file: Seq<char>,
    pub xywh: Seq<char>,
}

impl View for SpriteInfo {
    type V = SpriteEntry;

    open spec fn view(&self) -> SpriteEntry {
        SpriteEntry {
            time_start: self.time_start_ms as int,
            time_end: self.time_end_ms as int,
            time_display: self.time_display@,
            sheet_file: self.sheet_file@,
            xywh: self.xywh@,
        }
    }
}

/// `x,y,w,h` in decimal.
pub open spec fn xywh_text(x: nat, y: nat, w: nat, h: nat) -> Seq<char> {
    decimal(x) + seq![','] + decimal(y) + seq![','] + decimal(w) + seq![','] + decimal(h)
}

/// End of the span of keyframe `i`: the next keyframe's time, or two
/// seconds after the last keyframe.
pub open spec fn span_end(frames: Seq<KeyframeInfo>, i: int) -> int {
    if i + 1 < frames.len() {
        frames[i + 1].time_ms as int
    } else {
        frames[i].time_ms + 2000
    }
}

/// The manifest entry of keyframe `i`.
pub open spec fn manifest_entry(
    frames: Seq<KeyframeInfo>,
    i: int,
    rows: nat,
    cols: nat,
    thumb_width: nat,
    thumb_height: nat,
) -> SpriteEntry {
    let per = rows * cols;
    let slot = (i % (per as int)) as nat;
    let end = span_end(frames, i);
    SpriteEntry {
        time_start: frames[i].time_ms as int,
        time_end: end,
        time_display: frames[i].time_human@ + " --> "@ + human_time(end),
        sheet_file: sheet_file_name((i / (per as int) + 1) as nat),
        xywh: xywh_text(
            tile_x(slot, cols, thumb_width),
            tile_y(slot, cols, thumb_height),
            thumb_width,
            thumb_height,
        ),
    }
}

pub open spec fn min_nat(a: nat, b: nat) -> nat {
    if a <= b {
        a
    } else {
        b
    }
}

/// Inputs on which the manifest can be built without the grid arithmetic
/// leaving `u32`, a division by zero, or the last span end leaving `i64`.
pub open spec fn manifest_fits(
    frames: Seq<KeyframeInfo>,
    rows: u32,
    cols: u32,
    thumb_width: u32,
    thumb_height: u32,
) -> bool {
    let n = frames.len();
    let per = rows * cols;
    &&& per <= u32::MAX
    &&& n > 0 ==> {
        &&& per > 0
        &&& (min_nat(n, cols as nat) - 1) * thumb_width <= u32::MAX
        &&& ((min_nat(n, per as nat) - 1) / (cols as int)) * thumb_height <= u32::MAX
        &&& frames[n - 1].time_ms + 2000 <= i64::MAX
    }
}

proof fn lemma_entry_fits(
    i: nat,
    n: nat,
    rows: nat,
    cols: nat,
    w: nat,
    h: nat,
)
    requires
        i < n,
        rows * cols > 0,
        (min_nat(n, cols) - 1) * w <= u32::MAX,
        ((min_nat(n, rows * cols) - 1) / (cols as int)) * h <= u32::MAX,
    ensures
        tile_x(i % (rows * cols), cols, w) <= u32::MAX,
        tile_y(i % (rows * cols), cols, h) <= u32::MAX,
        i % (rows * cols) < rows * cols,
{
    let per = rows * cols;
    assert(cols > 0) by (nonlinear_arith)
        requires
            rows * cols > 0,
    ;
    assert(i % per < per && i % per <= i) by (nonlinear_arith)
        requires
            per > 0,
    ;
    let slot = i % per;
    lemma_tile_bounds(slot, rows, cols, w, h);
    assert(slot % cols <= slot) by (nonlinear_arith)
        requires
            cols > 0,
    ;
    let a = slot % cols;
    assert(a <= min_nat(n, cols) - 1);
    assert(a * w <= (min_nat(n, cols) - 1) * w) by (nonlinear_arith)
        requires
            a <= min_nat(n, cols) - 1,
    ;
    let m = (min_nat(n, per) - 1) as nat;
    assert(slot <= m);
    assert(slot / cols <= m / cols) by (nonlinear_arith)
        requires
            slot <= m,
            cols > 0,
    ;
    let b = slot / cols;
    assert(b * h <= (m / cols) * h) by (nonlinear_arith)
        requires
            b <= m / cols,
    ;
}

fn xywh_string(x: u32, y: u32, w: u32, h: u32) -> (res: String)
    ensures
        res@ == xywh_text(x as nat, y as nat, w as nat, h as nat),
{
    let mut s = String::new();
    push_decimal(&mut s, x as u64);
    push_char(&mut s, ',');
    push_decimal(&mut s, y as u64);
    push_char(&mut s, ',');
    push_decimal(&mut s, w as u64);
    push_char(&mut s, ',');
    push_decimal(&mut s, h as u64);
    assert(s@ =~= xywh_text(x as nat, y as nat, w as nat, h as nat));
    s
}

fn sheet_file_string(number: u64) -> (res: String)
    ensures
        res@ == sheet_file_name(number as nat),
{
    let mut s = String::new();
    push_str(&mut s, "sprite_sheet_");
    push_decimal(&mut s, number);
    push_str(&mut s, ".jpg");
    assert(s@ =~= sheet_file_name(number as nat));
    s
}

/// Builds the sprite manifest: one entry per keyframe, in order. Keyframe
/// `i` spans from its own time to the next keyframe's time (two seconds for
/// the last one), lands on sheet `i / (rows * cols) + 1`, and sits at the
/// tile of slot `i % (rows * cols)`, filled row by row.
pub fn generate_sprite_manifest(
    scan_result: &KeyframeScanResult,
    rows: u32,
    cols: u32,
    thumb_width: u32,
    thumb_height: u32,
) -> (manifest: Vec<SpriteInfo>)
    requires
        manifest_fits(scan_result.keyframes@, rows, cols, thumb_width, thumb_height),
    ensures
        manifest@.len() == scan_result.keyframes@.len(),
        forall|i: int|
            0 <= i < manifest@.len() ==> (#[trigger] manifest@[i])@ == manifest_entry(
                scan_result.keyframes@,
                i,
                rows as nat,
                cols as nat,
                thumb_width as nat,
                thumb_height as nat,
            ),
{
    let frames = &scan_result.keyframes;
    let n = frames.len();
    let per_sheet = rows * cols;
    let frames_per_sheet = per_sheet as usize;
    let mut manifest: Vec<SpriteInfo> = Vec::new();
    let mut i: usize = 0;
    while i < n
        invariant
            n == frames@.len(),
            frames == &scan_result.keyframes,
            manifest_fits(frames@, rows, cols, thumb_width, thumb_height),
            per_sheet == rows * cols,
            frames_per_sheet == rows * cols,
            i <= n,
            manifest@.len() == i,
            forall|t: int|
                0 <= t < i ==> (#[trigger] manifest@[t])@ == manifest_entry(
                    frames@,
                    t,
                    rows as nat,
                    cols as nat,
                    thumb_width as nat,
                    thumb_height as nat,
                ),
        decreases n - i,
    {
        proof {
            lemma_entry_fits(
                i as nat,
                n as nat,
                rows as nat,
                cols as nat,
                thumb_width as nat,
                thumb_height as nat,
            );
        }
        let frame = &frames[i];
        let sheet_index = i / frames_per_sheet + 1;
        let index_in_sheet = (i % frames_per_sheet) as u32;
        let x = (index_in_sheet % cols) * thumb_width;
        let y = (index_in_sheet / cols) * thumb_height;
        let next_time = if i + 1 < n {
            frames[i + 1].time_ms
        } else {
            frame.time_ms + 2000
        };
        let mut time_display = frame.time_human.clone();
        push_str(&mut time_display, " --> ");
        let end_text = format_human_time(next_time);
        push_str(&mut time_display, end_text.as_str());
        let entry = SpriteInfo {
            time_start_ms: frame.time_ms,
            time_end_ms: next_time,
            time_display,
            sheet_file: sheet_file_string(sheet_index as u64),
            xywh: xywh_string(x, y, thumb_width, thumb_height),
        };
        assert(entry@.time_display =~= manifest_entry(
            frames@,
            i as int,
            rows as nat,
            cols as nat,
            thumb_width as nat,
            thumb_height as nat,
        ).time_display);
        manifest.push(entry);
        i = i + 1;
    }
    manifest
}

/// The manifest's spans tile the timeline: every entry but the last ends
/// exactly where the next one starts.
pub proof fn manifest_spans_are_contiguous(
    frames: Seq<KeyframeInfo>,
    rows: nat,
    cols: nat,
    thumb_width: nat,
    thumb_height: nat,
    i: int,
)
    requires
        0 <= i,
        i + 1 < frames.len(),
    ensures
        manifest_entry(frames, i, rows, cols, thumb_width, thumb_height).time_end
            == manifest_entry(frames, i + 1, rows, cols, thumb_width, thumb_height).time_start,
{
}

/// The manifest and the sheet plan agree: keyframe `i`'s entry names the
/// sheet that the plan puts it on, and its `x,y,w,h` is the tile the plan
/// gives it.
pub proof fn manifest_agrees_with_sheet_plan(
    frames: Seq<KeyframeInfo>,
    plan: Seq<SheetPlan>,
    rows: nat,
    cols: nat,
    thumb_width: nat,
    thumb_height: nat,
    i: int,
)
    requires
        rows * cols > 0,
        0 <= i < frames.len(),
        plan.len() == sheet_count(frames.len(), rows * cols),
        forall|k: int|
            0 <= k < plan.len() ==> sheet_planned(
                #[trigger] plan[k],
                frames.len(),
                rows,
                cols,
                thumb_width,
                thumb_height,
                k as nat,
            ),
    ensures
        ({
            let per = rows * cols;
            let k = i / (per as int);
            let j = i % (per as int);
            let entry = manifest_entry(frames, i, rows, cols, thumb_width, thumb_height);
            &&& 0 <= k < plan.len()
            &&& 0 <= j < plan[k].tiles@.len()
            &&& plan[k].tiles@[j].frame_index == i
            &&& entry.sheet_file == plan[k].file_name@
            &&& entry.xywh == xywh_text(
                plan[k].tiles@[j].x as nat,
                plan[k].tiles@[j].y as nat,
                thumb_width,
                thumb_height,
            )
        }),
{
    let n = frames.len();
    let per = rows * cols;
    let k = i / (per as int);
    let j = i % (per as int);
    assert(k * per + j == i && 0 <= j < per && k >= 0) by (nonlinear_arith)
        requires
            per > 0,
            i >= 0,
            k == i / (per as int),
            j == i % (per as int),
    ;
    assert(k < (n + per - 1) / (per as int)) by (nonlinear_arith)
        requires
            per > 0,
            k * per + j == i,
            0 <= j,
            i < n,
    ;
    assert(plan[k].tiles@.len() == tiles_on_sheet(n, per, k as nat));
    assert(j < tiles_on_sheet(n, per, k as nat));
    assert(plan[k].tiles@[j].frame_index == k * per + j);
}

/// File name of the extracted keyframe image with the given index.
pub open spec fn keyframe_image_name(index: nat) -> Seq<char> {
    "frame_"@ + zero_padded(index, 5) + ".png"@
}

/// Names the image of keyframe `index`: `frame_` and the index padded to
/// five digits, then `.png`.
pub fn keyframe_image_file_name(index: u64) -> (name: String)
    ensures
        name@ == keyframe_image_name(index as nat),
{
    let mut name = String::new();
    push_str(&mut name, "frame_");
    push_padded(&mut name, index, 5);
    push_str(&mut name, ".png");
    assert(name@ =~= keyframe_image_name(index as nat));
    name
}

/// Distinct keyframes get distinct image names, so no extracted image
/// overwrites another.
pub proof fn keyframe_image_names_are_distinct(a: nat, b: nat)
    requires
        a != b,
    ensures
        keyframe_image_name(a) != keyframe_image_name(b),
{
    reveal_strlit("frame_");
    reveal_strlit(".png");
    let na = keyframe_image_name(a);
    let nb = keyframe_image_name(b);
    if na == nb {
        let pa = zero_padded(a, 5);
        let pb = zero_padded(b, 5);
        assert(na.subrange(6, na.len() - 4) =~= pa);
        assert(nb.subrange(6, nb.len() - 4) =~= pb);
        lemma_zero_padded_value(a, 5);
        lemma_zero_padded_value(b, 5);
        assert(digits_value(pa) == digits_value(pb));
    }
}

/// Distinct sheets get distinct file names.
pub proof fn sheet_file_names_are_distinct(a: nat, b: nat)
    requires
        a != b,
    ensures
        sheet_file_name(a) != sheet_file_name(b),
{
    reveal_strlit("sprite_sheet_");
    reveal_strlit(".jpg");
    let na = sheet_file_name(a);
    let nb = sheet_file_name(b);
    if na == nb {
        assert(na.subrange(13, na.len() - 4) =~= decimal(a));
        assert(nb.subrange(13, nb.len() - 4) =~= decimal(b));
        lemma_decimal_value(a);
        lemma_decimal_value(b);
    }
}

/// Whether `manifest_fits` holds, so that the manifest can be built.
pub fn manifest_inputs_fit(
    scan_result: &KeyframeScanResult,
    rows: u32,
    cols: u32,
    thumb_width: u32,
    thumb_height: u32,
) -> (ok: bool)
    ensures
        ok == manifest_fits(scan_result.keyframes@, rows, cols, thumb_width, thumb_height),
{
    let frames = &scan_result.keyframes;
    proof {
        lemma_u32_product(rows, cols);
    }
    let per = (rows as u64) * (cols as u64);
    if per > 0xffff_ffff {
        return false;
    }
    let n = frames.len();
    if n == 0 {
        return true;
    }
    if per == 0 {
        return false;
    }
    let n64 = n as u64;
    let across = if n64 <= cols as u64 {
        n64
    } else {
        cols as u64
    };
    let slots = if n64 <= per {
        n64
    } else {
        per
    };
    assert((across - 1) * thumb_width <= 0xffff_ffff * 0xffff_ffff) by (nonlinear_arith)
        requires
            across <= 0xffff_ffff,
            thumb_width <= 0xffff_ffff,
    ;
    assert(((slots - 1) / (cols as int)) * thumb_height <= 0xffff_ffff * 0xffff_ffff)
        by (nonlinear_arith)
        requires
            slots <= 0xffff_ffff,
            cols > 0,
            thumb_height <= 0xffff_ffff,
    ;
    let x_ok = (across - 1) * (thumb_width as u64) <= 0xffff_ffff;
    let y_ok = ((slots - 1) / (cols as u64)) * (thumb_height as u64) <= 0xffff_ffff;
    let t_ok = frames[n - 1].time_ms <= i64::MAX - 2000;
    x_ok && y_ok && t_ok
}

} // verus!
