//! Geometry of sprite sheets: which sheet a frame lands on, where its tile
//! sits, and the plan of every sheet to assemble.

use vstd::prelude::*;
use crate::text::{decimal, push_decimal, push_str};

verus! {

/// File name of the sheet with the given 1-based number.
pub open spec fn sheet_file_name(number: nat) -> Seq<char> {
    "sprite_sheet_"@ + decimal(number) + ".jpg"@
}

/// Number of sheets needed for `n` frames, `per_sheet` per sheet.
pub open spec fn sheet_count(n: nat, per_sheet: nat) -> nat {
    if per_sheet == 0 {
        0
    } else {
        ((n + per_sheet - 1) / (per_sheet as int)) as nat
    }
}

/// Frames on the 0-based sheet `k`.
pub open spec fn tiles_on_sheet(n: nat, per_sheet: nat, k: nat) -> nat {
    if k * per_sheet >= n {
        0
    } else if n - k * per_sheet >= per_sheet {
        per_sheet
    } else {
        (n - k * per_sheet) as nat
    }
}

/// Left edge of the tile in slot `slot` of a sheet with `cols` columns.
pub open spec fn tile_x(slot: nat, cols: nat, thumb_width: nat) -> nat {
    (slot % cols) * thumb_width
}

/// Top edge of the tile in slot `slot` of a sheet with `cols` columns.
pub open spec fn tile_y(slot: nat, cols: nat, thumb_height: nat) -> nat {
    (slot / cols) * thumb_height
}

/// The place of one frame on a sheet.
#[derive(Clone, Copy, Debug, PartialEq, Eq)]
pub struct TilePlacement {
    pub frame_index: usize,
    pub x: u32,
    pub y: u32,
}

/// One sprite sheet to assemble: its file name, pixel size and tiles.
#[derive(Clone, Debug)]
pub struct SheetPlan {
    pub file_name: String,
    pub width: u32,
    pub height: u32,
    pub tiles: Vec<TilePlacement>,
}

/// Sheet `k` of the plan for `n` frames on a `rows` x `cols` grid of
/// `thumb_width` x `thumb_height` tiles: consecutive frames fill the sheet
/// row by row.
pub open spec fn sheet_planned(
    sheet: SheetPlan,
    n: nat,
    rows: nat,
    cols: nat,
    thumb_width: nat,
    thumb_height: nat,
    k: nat,
) -> bool {
    let per = rows * cols;
    &&& sheet.file_name@ == sheet_file_name(k + 1)
    &&& sheet.width == cols * thumb_width
    &&& sheet.height == rows * thumb_height
    &&& sheet.tiles@.len() == tiles_on_sheet(n, per, k)
    &&& forall|j: int|
        #![trigger sheet.tiles@[j]]
        0 <= j < sheet.tiles@.len() ==> {
            &&& sheet.tiles@[j].frame_index == k * per + j
            &&& sheet.tiles@[j].x == tile_x(j as nat, cols, thumb_width)
            &&& sheet.tiles@[j].y == tile_y(j as nat, cols, thumb_height)
        }
}

/// Conditions under which the grid arithmetic stays within `u32`.
pub open spec fn grid_fits(rows: u32, cols: u32, thumb_width: u32, thumb_height: u32) -> bool {
    &&& rows * cols <= u32::MAX
    &&& rows * cols > 0
    &&& cols * thumb_width <= u32::MAX
    &&& rows * thumb_height <= u32::MAX
}

pub proof fn lemma_tile_bounds(slot: nat, rows: nat, cols: nat, w: nat, h: nat)
    requires
        slot < rows * cols,
        cols > 0,
    ensures
        tile_x(slot, cols, w) + w <= cols * w,
        tile_y(slot, cols, h) + h <= rows * h,
        slot % cols < cols,
        slot / cols < rows,
{
    assert(slot % cols < cols) by (nonlinear_arith)
        requires
            cols > 0,
    ;
    assert(slot / cols < rows) by (nonlinear_arith)
        requires
            cols > 0,
            slot < rows * cols,
    ;
    let a = slot % cols;
    let b = slot / cols;
    assert(a * w + w <= cols * w) by (nonlinear_arith)
        requires
            a < cols,
    ;
    assert(b * h + h <= rows * h) by (nonlinear_arith)
        requires
            b < rows,
    ;
}

proof fn lemma_sheet_count(n: nat, per: nat, k: nat)
    requires
        per > 0,
        n <= k * per,
        k == 0 || (k - 1) * per < n,
    ensures
        sheet_count(n, per) == k,
{
    if k == 0 {
        assert(n == 0) by (nonlinear_arith)
            requires
                n <= k * per,
                k == 0,
        ;
        assert((per - 1) / (per as int) == 0) by (nonlinear_arith)
            requires
                per > 0,
        ;
    } else {
        let km = (k - 1) as nat;
        assert(km * per + per == k * per) by (nonlinear_arith)
            requires
                km == k - 1,
        ;
        assert((n + per - 1) / (per as int) == k as int) by (nonlinear_arith)
            requires
                per > 0,
                n <= k * per,
                km * per < n,
                km * per + per == k * per,
        ;
    }
}

/// Plans the sheets that hold `frame_count` frames: consecutive runs of
/// `rows * cols` frames, each placed row by row at its tile.
pub fn plan_sprite_sheets(
    frame_count: usize,
    rows: u32,
    cols: u32,
    thumb_width: u32,
    thumb_height: u32,
) -> (plan: Vec<SheetPlan>)
    requires
        grid_fits(rows, cols, thumb_width, thumb_height),
    ensures
        plan@.len() == sheet_count(frame_count as nat, (rows * cols) as nat),
        forall|k: int|
            0 <= k < plan@.len() ==> sheet_planned(
                #[trigger] plan@[k],
                frame_count as nat,
                rows as nat,
                cols as nat,
                thumb_width as nat,
                thumb_height as nat,
                k as nat,
            ),
{
    let per_sheet = rows * cols;
    let sheet_width = cols * thumb_width;
    let sheet_height = rows * thumb_height;
    let per = per_sheet as usize;
    let n = frame_count;
    let mut plan: Vec<SheetPlan> = Vec::new();
    let mut start: usize = 0;
    let mut k: usize = 0;
    while start < n
        invariant
            grid_fits(rows, cols, thumb_width, thumb_height),
            per == rows * cols,
            per > 0,
            per_sheet == rows * cols,
            sheet_width == cols * thumb_width,
            sheet_height == rows * thumb_height,
            start <= n,
            start <= k * per,
            start == n || start == k * per,
            k == 0 || (k - 1) * per < start,
            plan@.len() == k,
            forall|s: int|
                0 <= s < k ==> sheet_planned(
                    #[trigger] plan@[s],
                    n as nat,
                    rows as nat,
                    cols as nat,
                    thumb_width as nat,
                    thumb_height as nat,
                    s as nat,
                ),
        decreases n - start,
    {
        assert(start == k * per);
        assert(k <= k * per) by (nonlinear_arith)
            requires
                per > 0,
        ;
        let count = if n - start > per {
            per
        } else {
            n - start
        };
        assert(count == tiles_on_sheet(n as nat, per as nat, k as nat));
        let mut tiles: Vec<TilePlacement> = Vec::new();
        let mut j: usize = 0;
        while j < count
            invariant
                grid_fits(rows, cols, thumb_width, thumb_height),
                per == rows * cols,
                count <= per,
                start + count <= n,
                j <= count,
                tiles@.len() == j,
                forall|t: int|
                    0 <= t < j ==> {
                        &&& #[trigger] tiles@[t].frame_index == start + t
                        &&& tiles@[t].x == tile_x(t as nat, cols as nat, thumb_width as nat)
                        &&& tiles@[t].y == tile_y(t as nat, cols as nat, thumb_height as nat)
                    },
            decreases count - j,
        {
            let slot = j as u32;
            proof {
                lemma_tile_bounds(
                    slot as nat,
                    rows as nat,
                    cols as nat,
                    thumb_width as nat,
                    thumb_height as nat,
                );
            }
            let x = (slot % cols) * thumb_width;
            let y = (slot / cols) * thumb_height;
            tiles.push(TilePlacement { frame_index: start + j, x, y });
            j = j + 1;
        }
        let mut file_name = String::new();
        push_str(&mut file_name, "sprite_sheet_");
        push_decimal(&mut file_name, (k as u64) + 1);
        push_str(&mut file_name, ".jpg");
        let sheet = SheetPlan { file_name, width: sheet_width, height: sheet_height, tiles };
        assert(sheet.file_name@ =~= sheet_file_name((k + 1) as nat));
        assert(sheet_planned(
            sheet,
            n as nat,
            rows as nat,
            cols as nat,
            thumb_width as nat,
            thumb_height as nat,
            k as nat,
        ));
        plan.push(sheet);
        proof {
            assert((k + 1) * per == k * per + per) by (nonlinear_arith);
        }
        start = start + count;
        k = k + 1;
    }
    proof {
        lemma_sheet_count(n as nat, per as nat, k as nat);
    }
    plan
}

/// The product of two `u32` values fits in a `u64`.
pub proof fn lemma_u32_product(a: u32, b: u32)
    ensures
        a * b <= u64::MAX,
{
    assert(a * b <= 0xffff_ffff * 0xffff_ffff) by (nonlinear_arith)
        requires
            a <= 0xffff_ffff,
            b <= 0xffff_ffff,
    ;
}

/// Whether `grid_fits` holds, so that a plan can be made on this grid.
pub fn grid_inputs_fit(rows: u32, cols: u32, thumb_width: u32, thumb_height: u32) -> (ok: bool)
    ensures
        ok == grid_fits(rows, cols, thumb_width, thumb_height),
{
    proof {
        lemma_u32_product(rows, cols);
        lemma_u32_product(cols, thumb_width);
        lemma_u32_product(rows, thumb_height);
    }
    let per = (rows as u64) * (cols as u64);
    let width = (cols as u64) * (thumb_width as u64);
    let height = (rows as u64) * (thumb_height as u64);
    per <= 0xffff_ffff && per > 0 && width <= 0xffff_ffff && height <= 0xffff_ffff
}

/// Every tile of a planned sheet lies wholly inside the sheet, and no two
/// tiles of a sheet share a cell.
pub proof fn planned_tiles_lie_inside_their_sheet(
    sheet: SheetPlan,
    n: nat,
    rows: nat,
    cols: nat,
    thumb_width: nat,
    thumb_height: nat,
    k: nat,
)
    requires
        rows * cols > 0,
        sheet_planned(sheet, n, rows, cols, thumb_width, thumb_height, k),
    ensures
        forall|j: int|
            0 <= j < sheet.tiles@.len() ==> #[trigger] sheet.tiles@[j].x + thumb_width
                <= sheet.width && sheet.tiles@[j].y + thumb_height <= sheet.height,
        thumb_width > 0 && thumb_height > 0 ==> forall|a: int, b: int|
            0 <= a < sheet.tiles@.len() && 0 <= b < sheet.tiles@.len() && a != b ==> (
            #[trigger] sheet.tiles@[a].x != #[trigger] sheet.tiles@[b].x || sheet.tiles@[a].y
                != sheet.tiles@[b].y),
{
    let per = rows * cols;
    assert(cols > 0) by (nonlinear_arith)
        requires
            rows * cols > 0,
    ;
    assert(sheet.tiles@.len() <= per);
    assert forall|j: int| 0 <= j < sheet.tiles@.len() implies #[trigger] sheet.tiles@[j].x
        + thumb_width <= sheet.width && sheet.tiles@[j].y + thumb_height <= sheet.height by {
        assert(sheet.tiles@[j].frame_index == k * per + j);
        lemma_tile_bounds(j as nat, rows, cols, thumb_width, thumb_height);
    }
    if thumb_width > 0 && thumb_height > 0 {
        assert forall|a: int, b: int|
            0 <= a < sheet.tiles@.len() && 0 <= b < sheet.tiles@.len() && a != b implies (
            #[trigger] sheet.tiles@[a].x != #[trigger] sheet.tiles@[b].x || sheet.tiles@[a].y
                != sheet.tiles@[b].y) by {
            assert(sheet.tiles@[a].frame_index == k * per + a);
            assert(sheet.tiles@[b].frame_index == k * per + b);
            let (xa, xb) = (a % (cols as int), b % (cols as int));
            let (ya, yb) = (a / (cols as int), b / (cols as int));
            if sheet.tiles@[a].x == sheet.tiles@[b].x && sheet.tiles@[a].y == sheet.tiles@[b].y {
                assert(xa == xb) by (nonlinear_arith)
                    requires
                        xa * thumb_width == xb * thumb_width,
                        thumb_width > 0,
                ;
                assert(ya == yb) by (nonlinear_arith)
                    requires
                        ya * thumb_height == yb * thumb_height,
                        thumb_height > 0,
                ;
                assert(a == b) by (nonlinear_arith)
                    requires
                        cols > 0,
                        xa == a % (cols as int),
                        xb == b % (cols as int),
                        ya == a / (cols as int),
                        yb == b / (cols as int),
                        xa == xb,
                        ya == yb,
                ;
            }
        }
    }
}

} // verus!
