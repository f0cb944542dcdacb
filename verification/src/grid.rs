//! Geometric composition: bordering one thumbnail, concatenating bitmaps
//! horizontally and vertically, arranging thumbnails into a ragged row-major
//! grid, and stacking a header over the grid on a uniform background.
use vstd::prelude::*;
use vstd::string::StringExecFns;
use crate::bitmap::{
    bg_color, bg_pixel, filled_bm, lemma_bm_ext, lemma_filled_bm_pix, lemma_overlay_bm_pix,
    lemma_rowmajor, lemma_xy_index_bounds, overlay_bm, Bitmap, BitmapView, Pixel,
};
use crate::error::ThumbsdownError;

verus! {

/// The models of a sequence of executable bitmaps.
pub open spec fn views_of(s: Seq<Bitmap>) -> Seq<BitmapView> {
    s.map_values(|b: Bitmap| b@)
}

/// Every bitmap in the sequence is well formed.
pub open spec fn all_wf(s: Seq<BitmapView>) -> bool {
    forall|i: int| 0 <= i < s.len() ==> s[i].wf()
}

/// The larger of two naturals.
pub open spec fn nat_max(a: nat, b: nat) -> nat {
    if a >= b {
        a
    } else {
        b
    }
}

/// Width of the horizontal concatenation: the sum of the widths.
pub open spec fn hcat_width(s: Seq<BitmapView>) -> nat
    decreases s.len(),
{
    if s.len() == 0 {
        0
    } else {
        s[0].width + hcat_width(s.drop_first())
    }
}

/// Height of the horizontal concatenation: the tallest member, 0 if empty.
pub open spec fn hcat_height(s: Seq<BitmapView>) -> nat
    decreases s.len(),
{
    if s.len() == 0 {
        0
    } else {
        nat_max(s[0].height, hcat_height(s.drop_first()))
    }
}

/// The pixel of the horizontal concatenation at `(x, y)`: each member is
/// anchored at the top, with background below members shorter than the row.
pub open spec fn hcat_pix(s: Seq<BitmapView>, x: int, y: int) -> Pixel
    decreases s.len(),
{
    if s.len() == 0 {
        bg_color()
    } else if x < s[0].width {
        if y < s[0].height {
            s[0].pix(x, y)
        } else {
            bg_color()
        }
    } else {
        hcat_pix(s.drop_first(), x - s[0].width, y)
    }
}

/// The horizontal concatenation, left to right, top-anchored.
pub open spec fn hcat_bm(s: Seq<BitmapView>) -> BitmapView {
    BitmapView {
        width: hcat_width(s),
        height: hcat_height(s),
        data: Seq::new(
            hcat_width(s) * hcat_height(s),
            |i: int| hcat_pix(s, i % (hcat_width(s) as int), i / (hcat_width(s) as int)),
        ),
    }
}

/// Width of the vertical concatenation: the widest member, 0 if empty.
pub open spec fn vcat_width(s: Seq<BitmapView>) -> nat
    decreases s.len(),
{
    if s.len() == 0 {
        0
    } else {
        nat_max(s[0].width, vcat_width(s.drop_first()))
    }
}

/// Height of the vertical concatenation: the sum of the heights.
pub open spec fn vcat_height(s: Seq<BitmapView>) -> nat
    decreases s.len(),
{
    if s.len() == 0 {
        0
    } else {
        s[0].height + vcat_height(s.drop_first())
    }
}

/// The pixel of the vertical concatenation at `(x, y)`: each member is
/// anchored at the left, with background beside members narrower than the
/// canvas.
pub open spec fn vcat_pix(s: Seq<BitmapView>, x: int, y: int) -> Pixel
    decreases s.len(),
{
    if s.len() == 0 {
        bg_color()
    } else if y < s[0].height {
        if x < s[0].width {
            s[0].pix(x, y)
        } else {
            bg_color()
        }
    } else {
        vcat_pix(s.drop_first(), x, y - s[0].height)
    }
}

/// The vertical concatenation, top to bottom, left-anchored.
pub open spec fn vcat_bm(s: Seq<BitmapView>) -> BitmapView {
    BitmapView {
        width: vcat_width(s),
        height: vcat_height(s),
        data: Seq::new(
            vcat_width(s) * vcat_height(s),
            |i: int| vcat_pix(s, i % (vcat_width(s) as int), i / (vcat_width(s) as int)),
        ),
    }
}

/// `hcat_bm` is well formed and its in-range pixels are `hcat_pix`.
pub proof fn lemma_hcat_bm_pix(s: Seq<BitmapView>, x: int, y: int)
    requires
        0 <= x < hcat_width(s),
        0 <= y < hcat_height(s),
    ensures
        hcat_bm(s).wf(),
        hcat_bm(s).pix(x, y) == hcat_pix(s, x, y),
{
    lemma_xy_index_bounds(hcat_width(s) as int, hcat_height(s) as int, x, y);
    lemma_rowmajor(hcat_width(s) as int, x, y);
}

/// `vcat_bm` is well formed and its in-range pixels are `vcat_pix`.
pub proof fn lemma_vcat_bm_pix(s: Seq<BitmapView>, x: int, y: int)
    requires
        0 <= x < vcat_width(s),
        0 <= y < vcat_height(s),
    ensures
        vcat_bm(s).wf(),
        vcat_bm(s).pix(x, y) == vcat_pix(s, x, y),
{
    lemma_xy_index_bounds(vcat_width(s) as int, vcat_height(s) as int, x, y);
    lemma_rowmajor(vcat_width(s) as int, x, y);
}

/// Horizontal concatenation of `images[from..to]`, left to right.
fn concat_horizontal_range(images: &Vec<Bitmap>, from: usize, to: usize) -> (r: Bitmap)
    requires
        from <= to <= images@.len(),
        all_wf(views_of(images@)),
        hcat_width(views_of(images@).subrange(from as int, to as int)) <= u32::MAX,
        hcat_height(views_of(images@).subrange(from as int, to as int)) <= u32::MAX,
        hcat_width(views_of(images@).subrange(from as int, to as int)) * hcat_height(
            views_of(images@).subrange(from as int, to as int),
        ) <= usize::MAX,
    ensures
        r.wf(),
        r@ == hcat_bm(views_of(images@).subrange(from as int, to as int)),
{
    let ghost s = views_of(images@).subrange(from as int, to as int);
    let ghost gw = hcat_width(s);
    let ghost gh = hcat_height(s);
    proof {
        assert(s.skip(0) =~= s);
    }
    // Total width of the row.
    let mut total_w: u32 = 0;
    let mut i = from;
    while i < to
        invariant
            from <= i <= to <= images@.len(),
            s == views_of(images@).subrange(from as int, to as int),
            total_w + hcat_width(s.skip(i - from)) == gw,
            gw <= u32::MAX,
        decreases to - i,
    {
        proof {
            assert(s.skip(i - from).drop_first() =~= s.skip(i - from + 1));
            assert(s.skip(i - from)[0] == images@[i as int]@);
        }
        total_w = total_w + images[i].width;
        i = i + 1;
    }
    proof {
        assert(s.skip(to - from) =~= Seq::<BitmapView>::empty());
        assert(total_w == gw);
    }
    // Height of the tallest member.
    let mut max_h: u32 = 0;
    let mut i = from;
    while i < to
        invariant
            from <= i <= to <= images@.len(),
            s == views_of(images@).subrange(from as int, to as int),
            nat_max(max_h as nat, hcat_height(s.skip(i - from))) == gh,
            gh <= u32::MAX,
            max_h <= gh,
        decreases to - i,
    {
        proof {
            assert(s.skip(i - from).drop_first() =~= s.skip(i - from + 1));
            assert(s.skip(i - from)[0] == images@[i as int]@);
        }
        if images[i].height > max_h {
            max_h = images[i].height;
        }
        i = i + 1;
    }
    proof {
        assert(s.skip(to - from) =~= Seq::<BitmapView>::empty());
        assert(max_h == gh);
    }
    let mut canvas = Bitmap::filled(total_w, max_h, bg_pixel());
    proof {
        assert forall|x: int, y: int| 0 <= x < gw && 0 <= y < gh implies canvas@.pix(x, y)
            == bg_color() by {
            lemma_filled_bm_pix(gw, gh, bg_color(), x, y);
        }
    }
    // Paint each member at its horizontal offset.
    let mut xoff: u32 = 0;
    let mut i = from;
    while i < to
        invariant
            from <= i <= to <= images@.len(),
            s == views_of(images@).subrange(from as int, to as int),
            all_wf(s),
            canvas.wf(),
            canvas@.width == gw,
            canvas@.height == gh,
            xoff + hcat_width(s.skip(i - from)) == gw,
            hcat_height(s.skip(i - from)) <= gh,
            forall|x: int, y: int|
                0 <= x < xoff && 0 <= y < gh ==> canvas@.pix(x, y) == hcat_pix(s, x, y),
            forall|x: int, y: int|
                xoff <= x < gw && 0 <= y < gh ==> canvas@.pix(x, y) == bg_color(),
            forall|x: int, y: int|
                xoff <= x ==> hcat_pix(s, x, y) == hcat_pix(s.skip(i - from), x - xoff, y),
        decreases to - i,
    {
        let ghost k = i - from;
        let ghost rem = s.skip(k);
        let ghost prev = canvas@;
        proof {
            assert(rem.drop_first() =~= s.skip(k + 1));
            assert(rem[0] == images@[i as int]@);
            assert(views_of(images@)[i as int] == images@[i as int]@);
        }
        canvas.overlay(&images[i], xoff, 0);
        proof {
            let iw = rem[0].width;
            let ih = rem[0].height;
            assert forall|x: int, y: int| 0 <= x < gw && 0 <= y < gh implies canvas@.pix(x, y) == (
            if x < xoff + iw {
                hcat_pix(s, x, y)
            } else {
                bg_color()
            }) by {
                lemma_overlay_bm_pix(prev, rem[0], xoff as int, 0, x, y);
                if xoff <= x < xoff + iw {
                    assert(hcat_pix(s, x, y) == hcat_pix(rem, x - xoff, y));
                }
            }
        }
        xoff = xoff + images[i].width;
        i = i + 1;
        proof {
            assert forall|x: int, y: int| xoff <= x implies hcat_pix(s, x, y) == hcat_pix(
                s.skip(i - from),
                x - xoff,
                y,
            ) by {
                assert(hcat_pix(s, x, y) == hcat_pix(rem, x - (xoff - rem[0].width), y));
            }
        }
    }
    proof {
        assert(s.skip(to - from) =~= Seq::<BitmapView>::empty());
        assert(xoff == gw);
        assert forall|x: int, y: int| 0 <= x < gw && 0 <= y < gh implies canvas@.pix(x, y)
            == hcat_bm(s).pix(x, y) by {
            lemma_hcat_bm_pix(s, x, y);
        }
        assert(hcat_bm(s).wf());
        lemma_bm_ext(canvas@, hcat_bm(s));
    }
    canvas
}

/// Horizontal concatenation of all of `images`, left to right, each anchored
/// at the top; the canvas is as wide as the sum of the widths and as tall as
/// the tallest member, background-filled below shorter members.
pub fn concat_horizontal(images: &Vec<Bitmap>) -> (r: Bitmap)
    requires
        all_wf(views_of(images@)),
        hcat_width(views_of(images@)) <= u32::MAX,
        hcat_height(views_of(images@)) <= u32::MAX,
        hcat_width(views_of(images@)) * hcat_height(views_of(images@)) <= usize::MAX,
    ensures
        r.wf(),
        r@ == hcat_bm(views_of(images@)),
{
    proof {
        assert(views_of(images@).subrange(0, images@.len() as int) =~= views_of(images@));
    }
    concat_horizontal_range(images, 0, images.len())
}

/// Vertical concatenation of all of `images`, top to bottom, each anchored at
/// the left; the canvas is as tall as the sum of the heights and as wide as
/// the widest member, background-filled beside narrower members.
pub fn concat_vertical(images: &Vec<Bitmap>) -> (r: Bitmap)
    requires
        all_wf(views_of(images@)),
        vcat_width(views_of(images@)) <= u32::MAX,
        vcat_height(views_of(images@)) <= u32::MAX,
        vcat_width(views_of(images@)) * vcat_height(views_of(images@)) <= usize::MAX,
    ensures
        r.wf(),
        r@ == vcat_bm(views_of(images@)),
{
    let ghost s = views_of(images@);
    let ghost gw = vcat_width(s);
    let ghost gh = vcat_height(s);
    let n = images.len();
    proof {
        assert(s.skip(0) =~= s);
    }
    let mut total_h: u32 = 0;
    let mut i: usize = 0;
    while i < n
        invariant
            i <= n == images@.len(),
            s == views_of(images@),
            total_h + vcat_height(s.skip(i as int)) == gh,
            gh <= u32::MAX,
        decreases n - i,
    {
        proof {
            assert(s.skip(i as int).drop_first() =~= s.skip(i + 1));
            assert(s.skip(i as int)[0] == images@[i as int]@);
        }
        total_h = total_h + images[i].height;
        i = i + 1;
    }
    proof {
        assert(s.skip(n as int) =~= Seq::<BitmapView>::empty());
        assert(total_h == gh);
    }
    let mut max_w: u32 = 0;
    let mut i: usize = 0;
    while i < n
        invariant
            i <= n == images@.len(),
            s == views_of(images@),
            nat_max(max_w as nat, vcat_width(s.skip(i as int))) == gw,
            gw <= u32::MAX,
            max_w <= gw,
        decreases n - i,
    {
        proof {
            assert(s.skip(i as int).drop_first() =~= s.skip(i + 1));
            assert(s.skip(i as int)[0] == images@[i as int]@);
        }
        if images[i].width > max_w {
            max_w = images[i].width;
        }
        i = i + 1;
    }
    proof {
        assert(s.skip(n as int) =~= Seq::<BitmapView>::empty());
        assert(max_w == gw);
    }
    let mut canvas = Bitmap::filled(max_w, total_h, bg_pixel());
    proof {
        assert forall|x: int, y: int| 0 <= x < gw && 0 <= y < gh implies canvas@.pix(x, y)
            == bg_color() by {
            lemma_filled_bm_pix(gw, gh, bg_color(), x, y);
        }
    }
    let mut yoff: u32 = 0;
    let mut i: usize = 0;
    while i < n
        invariant
            i <= n == images@.len(),
            s == views_of(images@),
            all_wf(s),
            canvas.wf(),
            canvas@.width == gw,
            canvas@.height == gh,
            yoff + vcat_height(s.skip(i as int)) == gh,
            vcat_width(s.skip(i as int)) <= gw,
            forall|x: int, y: int|
                0 <= x < gw && 0 <= y < yoff ==> canvas@.pix(x, y) == vcat_pix(s, x, y),
            forall|x: int, y: int|
                0 <= x < gw && yoff <= y < gh ==> canvas@.pix(x, y) == bg_color(),
            forall|x: int, y: int|
                yoff <= y ==> vcat_pix(s, x, y) == vcat_pix(s.skip(i as int), x, y - yoff),
        decreases n - i,
    {
        let ghost rem = s.skip(i as int);
        let ghost prev = canvas@;
        proof {
            assert(rem.drop_first() =~= s.skip(i + 1));
            assert(rem[0] == images@[i as int]@);
        }
        canvas.overlay(&images[i], 0, yoff);
        proof {
            let iw = rem[0].width;
            let ih = rem[0].height;
            assert forall|x: int, y: int| 0 <= x < gw && 0 <= y < gh implies canvas@.pix(x, y) == (
            if y < yoff + ih {
                vcat_pix(s, x, y)
            } else {
                bg_color()
            }) by {
                lemma_overlay_bm_pix(prev, rem[0], 0, yoff as int, x, y);
                if yoff <= y < yoff + ih {
                    assert(vcat_pix(s, x, y) == vcat_pix(rem, x, y - yoff));
                }
            }
        }
        yoff = yoff + images[i].height;
        i = i + 1;
        proof {
            assert forall|x: int, y: int| yoff <= y implies vcat_pix(s, x, y) == vcat_pix(
                s.skip(i as int),
                x,
                y - yoff,
            ) by {
                assert(vcat_pix(s, x, y) == vcat_pix(rem, x, y - (yoff - rem[0].height)));
            }
        }
    }
    proof {
        assert(s.skip(n as int) =~= Seq::<BitmapView>::empty());
        assert(yoff == gh);
        assert forall|x: int, y: int| 0 <= x < gw && 0 <= y < gh implies canvas@.pix(x, y)
            == vcat_bm(s).pix(x, y) by {
            lemma_vcat_bm_pix(s, x, y);
        }
        assert(vcat_bm(s).wf());
        lemma_bm_ext(canvas@, vcat_bm(s));
    }
    canvas
}

/// The thumbnail sequence split into row groups of `c`, the last group
/// possibly shorter (ragged, never padded).
pub open spec fn chunk_rows(s: Seq<BitmapView>, c: nat) -> Seq<Seq<BitmapView>>
    decreases s.len(),
{
    if c == 0 || s.len() == 0 {
        Seq::empty()
    } else if s.len() <= c {
        seq![s]
    } else {
        seq![s.take(c as int)] + chunk_rows(s.skip(c as int), c)
    }
}

/// Each row group rendered as one horizontal strip.
pub open spec fn grid_rows(s: Seq<BitmapView>, c: nat) -> Seq<BitmapView> {
    chunk_rows(s, c).map_values(|row: Seq<BitmapView>| hcat_bm(row))
}

/// The full grid: the row strips stacked top to bottom.
pub open spec fn grid_bm(s: Seq<BitmapView>, c: nat) -> BitmapView {
    vcat_bm(grid_rows(s, c))
}

/// Arranges the thumbnails into a row-major grid of `columns` columns: rows
/// are horizontal concatenations of consecutive thumbnails, the last row may
/// be shorter, and the rows are stacked vertically, each left-anchored.
pub fn compose_grid(thumbnails: &Vec<Bitmap>, columns: u32) -> (r: Bitmap)
    requires
        columns >= 1,
        all_wf(views_of(thumbnails@)),
        grid_bm(views_of(thumbnails@), columns as nat).width <= u32::MAX,
        grid_bm(views_of(thumbnails@), columns as nat).height <= u32::MAX,
        grid_bm(views_of(thumbnails@), columns as nat).width * grid_bm(
            views_of(thumbnails@),
            columns as nat,
        ).height <= usize::MAX,
    ensures
        r.wf(),
        r@ == grid_bm(views_of(thumbnails@), columns as nat),
{
    let ghost s = views_of(thumbnails@);
    let ghost c = columns as nat;
    let ghost rows_all = grid_rows(s, c);
    let ghost gw = grid_bm(s, c).width;
    let ghost gh = grid_bm(s, c).height;
    let n = thumbnails.len();
    let mut rows: Vec<Bitmap> = Vec::new();
    let mut pos: usize = 0;
    proof {
        assert(s.skip(0) =~= s);
    }
    while pos < n
        invariant
            pos <= n == thumbnails@.len(),
            s == views_of(thumbnails@),
            c == columns as nat,
            c >= 1,
            all_wf(s),
            all_wf(views_of(rows@)),
            gw == grid_bm(s, c).width,
            gh == grid_bm(s, c).height,
            gw <= u32::MAX,
            gh <= u32::MAX,
            gw * gh <= usize::MAX,
            rows_all == views_of(rows@) + grid_rows(s.skip(pos as int), c),
            vcat_width(grid_rows(s.skip(pos as int), c)) <= gw,
            vcat_height(grid_rows(s.skip(pos as int), c)) <= gh,
        decreases n - pos,
    {
        let end = if n - pos > columns as usize {
            pos + columns as usize
        } else {
            n
        };
        let ghost rem = s.skip(pos as int);
        let ghost row_chunk = if rem.len() <= c {
            rem
        } else {
            rem.take(c as int)
        };
        proof {
            assert(row_chunk =~= s.subrange(pos as int, end as int));
            if rem.len() <= c {
                assert(s.skip(end as int) =~= Seq::<BitmapView>::empty());
                assert(chunk_rows(rem, c) =~= seq![row_chunk] + chunk_rows(s.skip(end as int), c));
            } else {
                assert(rem.skip(c as int) =~= s.skip(end as int));
                assert(chunk_rows(rem, c) =~= seq![row_chunk] + chunk_rows(s.skip(end as int), c));
            }
            assert(grid_rows(rem, c) =~= seq![hcat_bm(row_chunk)] + grid_rows(s.skip(end as int), c));
            assert(grid_rows(rem, c)[0] == hcat_bm(row_chunk));
            assert(grid_rows(rem, c).drop_first() =~= grid_rows(s.skip(end as int), c));
            // Bounds for this row, from the grid-level bounds.
            assert(vcat_width(grid_rows(rem, c)) == nat_max(
                hcat_width(row_chunk),
                vcat_width(grid_rows(s.skip(end as int), c)),
            ));
            assert(vcat_height(grid_rows(rem, c)) == hcat_height(row_chunk) + vcat_height(
                grid_rows(s.skip(end as int), c),
            ));
            assert(hcat_width(row_chunk) * hcat_height(row_chunk) <= gw * gh) by (nonlinear_arith)
                requires
                    hcat_width(row_chunk) <= gw,
                    hcat_height(row_chunk) <= gh,
            ;
        }
        let row = concat_horizontal_range(thumbnails, pos, end);
        let ghost prev_rows = views_of(rows@);
        rows.push(row);
        proof {
            assert(views_of(rows@) =~= prev_rows.push(row@));
            assert(rows_all =~= views_of(rows@) + grid_rows(s.skip(end as int), c));
        }
        pos = end;
    }
    proof {
        assert(s.skip(n as int) =~= Seq::<BitmapView>::empty());
        assert(grid_rows(s.skip(n as int), c) =~= Seq::<BitmapView>::empty());
        assert(rows_all =~= views_of(rows@));
        assert(rows_all == views_of(rows@));
    }
    concat_vertical(&rows)
}

/// The bordered bitmap: the original content offset by `b` in both
/// directions inside a background-colored canvas grown by `2 b` each way.
pub open spec fn border_bm(v: BitmapView, b: nat) -> BitmapView {
    overlay_bm(
        filled_bm((v.width + 2 * b) as nat, (v.height + 2 * b) as nat, bg_color()),
        v,
        b as int,
        b as int,
    )
}

/// Adds a uniform background-colored border of `border` pixels on all four
/// sides; the content is preserved unscaled at offset `(border, border)`.
pub fn add_border(img: &Bitmap, border: u32) -> (r: Bitmap)
    requires
        img.wf(),
        img@.width + 2 * (border as nat) <= u32::MAX,
        img@.height + 2 * (border as nat) <= u32::MAX,
        (img@.width + 2 * (border as nat)) * (img@.height + 2 * (border as nat)) <= usize::MAX,
    ensures
        r.wf(),
        r@ == border_bm(img@, border as nat),
        r@.width == img@.width + 2 * (border as nat),
        r@.height == img@.height + 2 * (border as nat),
{
    let new_w = img.width + 2 * border;
    let new_h = img.height + 2 * border;
    let mut canvas = Bitmap::filled(new_w, new_h, bg_pixel());
    canvas.overlay(img, border, border);
    canvas
}

/// Bordering grows each dimension by twice the border width, keeps every
/// original pixel at its offset position, and fills the border frame with
/// the background color.
pub proof fn lemma_border_bm_pix(v: BitmapView, b: nat, x: int, y: int)
    requires
        0 <= x < v.width + 2 * b,
        0 <= y < v.height + 2 * b,
    ensures
        border_bm(v, b).wf(),
        border_bm(v, b).width == v.width + 2 * b,
        border_bm(v, b).height == v.height + 2 * b,
        border_bm(v, b).pix(x, y) == (if b <= x < b + v.width && b <= y < b + v.height {
            v.pix(x - b, y - b)
        } else {
            bg_color()
        }),
{
    let canvas = filled_bm((v.width + 2 * b) as nat, (v.height + 2 * b) as nat, bg_color());
    lemma_overlay_bm_pix(canvas, v, b as int, b as int, x, y);
    if !(b <= x < b + v.width && b <= y < b + v.height) {
        lemma_filled_bm_pix((v.width + 2 * b) as nat, (v.height + 2 * b) as nat, bg_color(), x, y);
    }
}

/// The clamped centering offset of an element of width `inner` in a canvas of
/// width `outer`: floor division, never negative.
pub open spec fn center_x(outer: nat, inner: nat) -> nat {
    if inner >= outer {
        0
    } else {
        (((outer - inner) as nat) / 2) as nat
    }
}

/// The final sheet: header stacked above grid, each centered horizontally in
/// a canvas as wide as the wider of the two, on a uniform background.
pub open spec fn assemble_bm(header: BitmapView, grid: BitmapView) -> BitmapView {
    let w = nat_max(header.width, grid.width);
    let h = header.height + grid.height;
    overlay_bm(
        overlay_bm(filled_bm(w, h, bg_color()), header, center_x(w, header.width) as int, 0),
        grid,
        center_x(w, grid.width) as int,
        header.height as int,
    )
}

/// Stacks `header` above `grid`, horizontally centering each in a canvas of
/// width `max(header.width, grid.width)` and height `header.height +
/// grid.height`, with background filling any uncovered area.
pub fn assemble_final(header: &Bitmap, grid: &Bitmap) -> (r: Bitmap)
    requires
        header.wf(),
        grid.wf(),
        header@.height + grid@.height <= u32::MAX,
        nat_max(header@.width, grid@.width) * (header@.height + grid@.height) <= usize::MAX,
    ensures
        r.wf(),
        r@ == assemble_bm(header@, grid@),
        r@.width == nat_max(header@.width, grid@.width),
        r@.height == header@.height + grid@.height,
{
    let width = if header.width >= grid.width {
        header.width
    } else {
        grid.width
    };
    let height = header.height + grid.height;
    let mut canvas = Bitmap::filled(width, height, bg_pixel());
    let hx = (width - header.width) / 2;
    canvas.overlay(header, hx, 0);
    let gx = (width - grid.width) / 2;
    canvas.overlay(grid, gx, header.height);
    canvas
}

/// Assembly places the header centered at the top and the grid centered
/// right below it, each at its clamped centering offset, with background
/// everywhere neither covers.
pub proof fn lemma_assemble_bm_pix(header: BitmapView, grid: BitmapView, x: int, y: int)
    requires
        0 <= x < nat_max(header.width, grid.width),
        0 <= y < header.height + grid.height,
    ensures
        assemble_bm(header, grid).wf(),
        assemble_bm(header, grid).width == nat_max(header.width, grid.width),
        assemble_bm(header, grid).height == header.height + grid.height,
        assemble_bm(header, grid).pix(x, y) == ({
            let w = nat_max(header.width, grid.width);
            let hx = center_x(w, header.width) as int;
            let gx = center_x(w, grid.width) as int;
            if hx <= x < hx + header.width && y < header.height {
                header.pix(x - hx, y)
            } else if gx <= x < gx + grid.width && header.height <= y {
                grid.pix(x - gx, y - header.height)
            } else {
                bg_color()
            }
        }),
{
    let w = nat_max(header.width, grid.width);
    let h = (header.height + grid.height) as nat;
    let hx = center_x(w, header.width) as int;
    let gx = center_x(w, grid.width) as int;
    let canvas = filled_bm(w, h, bg_color());
    let with_header = overlay_bm(canvas, header, hx, 0);
    lemma_overlay_bm_pix(with_header, grid, gx, header.height as int, x, y);
    lemma_overlay_bm_pix(canvas, header, hx, 0, x, y);
    lemma_filled_bm_pix(w, h, bg_color(), x, y);
}

/// Composing the same ordered thumbnail sequence and the same header twice
/// yields identical final bitmaps: grid composition and assembly are pure
/// functions of the thumbnail sequence, the column count and the header.
pub proof fn lemma_composition_deterministic(
    thumbs: Seq<BitmapView>,
    columns: nat,
    header: BitmapView,
    r1: BitmapView,
    r2: BitmapView,
)
    requires
        r1 == assemble_bm(header, grid_bm(thumbs, columns)),
        r2 == assemble_bm(header, grid_bm(thumbs, columns)),
    ensures
        r1 == r2,
{
}

/// What the image codec makes of a byte string: the decoded bitmap, or
/// nothing when the bytes are no image it can decode. Decoding is a function
/// of the bytes alone.
pub uninterp spec fn decoded_image(bytes: Seq<u8>) -> Option<BitmapView>;

/// What the Lanczos3 resampler makes of a bitmap scaled to fit the given
/// width: a function of the source pixels and the bound alone, for any one
/// build of the resampler (its float kernel may fuse operations differently
/// under other compilation targets).
pub uninterp spec fn resized_image(img: BitmapView, target_width: nat) -> BitmapView;

/// Relies on image::load_from_memory: decoding is a function of the encoded
/// bytes alone, and a decoded image's pixel buffer covers its dimensions
/// exactly. The failure text is carried along; nothing is assumed of it.
#[verifier::external_body]
fn decode_image(data: &Vec<u8>) -> (r: Result<Bitmap, String>)
    ensures
        r is Ok <==> decoded_image(data@) is Some,
        r matches Ok(b) ==> decoded_image(data@) == Some(b@) && b@.wf(),
{
    match image::load_from_memory(data.as_slice()) {
        Ok(img) => {
            let rgb = img.to_rgb8();
            let pixels = rgb.pixels().map(|p| Pixel { r: p.0[0], g: p.0[1], b: p.0[2] }).collect();
            Ok(Bitmap { width: rgb.width(), height: rgb.height(), pixels })
        },
        Err(e) => Err(e.to_string()),
    }
}

/// A bound the resampled height never exceeds: the ideal scaled height
/// `h * tw / w` plus rounding slack, clamped to what one dimension holds.
pub open spec fn resize_height_bound(w: nat, h: nat, tw: nat) -> nat {
    let ideal = (h * tw) / w + 2;
    if ideal <= u32::MAX {
        ideal
    } else {
        u32::MAX as nat
    }
}

/// Do the resampler's working buffers for this source and target width fit
/// the machine: the intermediate holds four float channels per pixel of
/// source width by output height, the output three channels per pixel of
/// output width by output height.
pub open spec fn resizable(v: BitmapView, tw: nat) -> bool {
    &&& 4 * v.width * resize_height_bound(v.width, v.height, tw) <= usize::MAX
    &&& 3 * (if tw == 0 {
        1nat
    } else {
        tw
    }) * resize_height_bound(v.width, v.height, tw) <= usize::MAX
}

/// Relies on image::DynamicImage::resize with the Lanczos3 filter: the image
/// is scaled, aspect ratio preserved, to the largest size that fits within
/// `target_width` columns (unconstrained height). The chosen output width
/// never exceeds the target (or one pixel) and the output height never
/// exceeds the ideal scaled height plus rounding slack, so under `resizable`
/// the buffer lengths the resampler checks fit a usize and the call returns
/// rather than panics. The result is a function of the source pixels and
/// the bound alone for any one build of the resampler; each dimension is at
/// least one pixel, and when no rounding clamp interferes the width is
/// exactly the target.
#[verifier::external_body]
fn resize_to_width(img: &Bitmap, target_width: u32) -> (r: Bitmap)
    requires
        img.wf(),
        img@.width >= 1,
        img@.height >= 1,
        resizable(img@, target_width as nat),
    ensures
        r@ == resized_image(img@, target_width as nat),
        r.wf(),
        r@.width >= 1,
        r@.height >= 1,
        target_width >= 1 && (target_width as nat) * img@.height <= (u32::MAX as nat)
            * img@.width ==> r@.width == target_width as nat,
{
    let raw: Vec<u8> = img.pixels.iter().flat_map(|p| [p.r, p.g, p.b]).collect();
    let buf = image::RgbImage::from_raw(img.width, img.height, raw).unwrap();
    let filter = image::imageops::FilterType::Lanczos3;
    let resized = image::DynamicImage::ImageRgb8(buf).resize(target_width, u32::MAX, filter);
    let rgb = resized.to_rgb8();
    let pixels = rgb.pixels().map(|p| Pixel { r: p.0[0], g: p.0[1], b: p.0[2] }).collect();
    Bitmap { width: rgb.width(), height: rgb.height(), pixels }
}

/// Can a bitmap take a border of `b` on all sides within the machine's
/// limits, with at least one pixel each way?
pub open spec fn borderable(v: BitmapView, b: nat) -> bool {
    &&& v.width + 2 * b <= u32::MAX
    &&& v.height + 2 * b <= u32::MAX
    &&& (v.width + 2 * b) * (v.height + 2 * b) <= usize::MAX
    &&& v.width + 2 * b >= 1
    &&& v.height + 2 * b >= 1
}

/// Normalizes one captured frame: decodes it, adds a uniform border of
/// `border_size` pixels, and resizes the bordered image so its width fits
/// `target_width`, height scaled proportionally. Succeeds exactly when the
/// bytes decode, the bordered image fits the machine's limits, and the
/// resampler's working buffers do too; every check runs before any pixel
/// work.
pub fn process_thumbnail(frame_data: &Vec<u8>, target_width: u32, border_size: u32) -> (r: Result<
    Bitmap,
    ThumbsdownError,
>)
    ensures
        r is Ok <==> (decoded_image(frame_data@) matches Some(v) && borderable(
            v,
            border_size as nat,
        ) && resizable(border_bm(v, border_size as nat), target_width as nat)),
        r matches Ok(b) ==> ({
            let v = decoded_image(frame_data@)->0;
            &&& b@ == resized_image(border_bm(v, border_size as nat), target_width as nat)
            &&& b.wf()
            &&& b@.width >= 1
            &&& b@.height >= 1
            &&& (target_width >= 1 && (target_width as nat) * (v.height + 2 * (border_size as nat))
                <= (u32::MAX as nat) * (v.width + 2 * (border_size as nat)) ==> b@.width
                == target_width as nat)
        }),
        r matches Err(e) ==> e matches ThumbsdownError::ImageError(_),
{
    let img = match decode_image(frame_data) {
        Ok(b) => b,
        Err(m) => {
            return Err(ThumbsdownError::ImageError(m));
        },
    };
    if border_size > (u32::MAX - img.width) / 2 || border_size > (u32::MAX - img.height) / 2 {
        return Err(ThumbsdownError::ImageError(String::from_str("image too large to border")));
    }
    let bw = img.width + 2 * border_size;
    let bh = img.height + 2 * border_size;
    if bw == 0 || bh == 0 {
        return Err(ThumbsdownError::ImageError(String::from_str("image is empty")));
    }
    proof {
        assert((bw as int) * (bh as int) <= (u32::MAX as int) * (u32::MAX as int))
            by (nonlinear_arith)
            requires
                0 <= bw <= u32::MAX,
                0 <= bh <= u32::MAX,
        ;
    }
    if (bw as u64) * (bh as u64) > (usize::MAX as u64) {
        return Err(ThumbsdownError::ImageError(String::from_str("image too large to border")));
    }
    // The resampler's working buffers must fit a usize as well.
    proof {
        assert((bh as int) * (target_width as int) <= (u32::MAX as int) * (u32::MAX as int))
            by (nonlinear_arith)
            requires
                0 <= bh <= u32::MAX,
                0 <= target_width <= u32::MAX,
        ;
    }
    let ideal: u128 = ((bh as u128) * (target_width as u128)) / (bw as u128) + 2;
    let hbound: u128 = if ideal > (u32::MAX as u128) {
        u32::MAX as u128
    } else {
        ideal
    };
    let wfac: u128 = if target_width == 0 {
        1
    } else {
        target_width as u128
    };
    proof {
        assert(hbound as nat == resize_height_bound(bw as nat, bh as nat, target_width as nat));
        assert(4 * (bw as int) * (hbound as int) <= (u128::MAX as int)) by (nonlinear_arith)
            requires
                0 <= bw <= u32::MAX,
                0 <= hbound <= u32::MAX,
        ;
        assert(3 * (wfac as int) * (hbound as int) <= (u128::MAX as int)) by (nonlinear_arith)
            requires
                0 <= wfac <= u32::MAX,
                0 <= hbound <= u32::MAX,
        ;
    }
    if 4 * (bw as u128) * hbound > (usize::MAX as u128) || 3 * wfac * hbound > (usize::MAX
        as u128) {
        return Err(ThumbsdownError::ImageError(
            String::from_str("thumbnail too large to resize"),
        ));
    }
    let bordered = add_border(&img, border_size);
    let resized = resize_to_width(&bordered, target_width);
    Ok(resized)
}

} // verus!
