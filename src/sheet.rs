//! Sprite sheets: a texture cut into a grid of equal cells.

use vstd::prelude::*;
use vstd::arithmetic::div_mod::{lemma_fundamental_div_mod, lemma_fundamental_div_mod_converse};
use crate::error::LoadError;
use crate::names::{parse_sheet_file_name, parse_sheet_name};

verus! {

/// An axis-aligned rectangle in texture pixels.
#[derive(Debug, Clone, Copy, PartialEq, Eq, Structural)]
pub struct Rect {
    pub x: i32,
    pub y: i32,
    pub width: i32,
    pub height: i32,
}

impl Rect {
    /// The rectangle is nonempty and lies inside a texture of `tex_w`×`tex_h` pixels.
    pub open spec fn inside(&self, tex_w: int, tex_h: int) -> bool {
        &&& 0 <= self.x
        &&& 0 <= self.y
        &&& self.width > 0
        &&& self.height > 0
        &&& self.x + self.width <= tex_w
        &&& self.y + self.height <= tex_h
    }
}

/// What the catalog reads of a texture that the graphics backend decoded:
/// its identity and its size in pixels.
#[derive(Debug, Clone, Copy, PartialEq, Eq, Structural)]
pub struct TextureInfo {
    pub id: u32,
    pub width: i32,
    pub height: i32,
}

/// A texture and its cells, in row-major order.
#[derive(Debug)]
pub struct SpriteSheet {
    pub texture: TextureInfo,
    pub sprites: Vec<Rect>,
}

/// How many whole cells of `cell` pixels fit in `extent` pixels.
pub open spec fn cells_across(extent: int, cell: int) -> int {
    if extent > 0 {
        extent / cell
    } else {
        0
    }
}

/// `r` is cell `i` of a grid of `cols` columns of `w`×`h` cells.
pub open spec fn is_cell(r: Rect, i: int, cols: int, w: int, h: int) -> bool {
    &&& r.x == (i % cols) * w
    &&& r.y == (i / cols) * h
    &&& r.width == w
    &&& r.height == h
}

/// `s` holds, in row-major order, every whole `w`×`h` cell of a texture of
/// `tex_w`×`tex_h` pixels.
pub open spec fn is_grid(s: Seq<Rect>, tex_w: int, tex_h: int, w: int, h: int) -> bool {
    let cols = cells_across(tex_w, w);
    let rows = cells_across(tex_h, h);
    &&& s.len() == cols * rows
    &&& forall|i: int| 0 <= i < s.len() ==> is_cell(#[trigger] s[i], i, cols, w, h)
}

/// Every rectangle of `s` is nonempty and lies inside a texture of
/// `tex_w`×`tex_h` pixels.
pub open spec fn all_inside(s: Seq<Rect>, tex_w: int, tex_h: int) -> bool {
    forall|i: int| 0 <= i < s.len() ==> #[trigger] s[i].inside(tex_w, tex_h)
}

impl SpriteSheet {
    /// The sheet holds every whole `w`×`h` cell of its texture.
    pub open spec fn sliced(&self, w: int, h: int) -> bool {
        is_grid(self.sprites@, self.texture.width as int, self.texture.height as int, w, h)
    }
}

proof fn lemma_cell_fits(c: int, extent: int, cell: int)
    requires
        cell > 0,
        0 <= c < cells_across(extent, cell),
    ensures
        0 <= c * cell,
        c * cell + cell <= extent,
{
    lemma_fundamental_div_mod(extent, cell);
    let q = extent / cell;
    let m = extent % cell;
    assert(0 <= m) by {
        vstd::arithmetic::div_mod::lemma_mod_pos_bound(extent, cell);
    }
    assert(c * cell + cell <= extent) by (nonlinear_arith)
        requires
            extent == cell * q + m,
            0 <= m,
            c + 1 <= q,
            cell > 0,
    ;
    assert(0 <= c * cell) by (nonlinear_arith)
        requires
            c >= 0,
            cell > 0,
    ;
}

/// Cuts a texture of `tex_w`×`tex_h` pixels into `w`×`h` cells, row by row;
/// pixels left over at the right and bottom edges form no cell.
pub fn slice_grid(tex_w: i32, tex_h: i32, w: i32, h: i32) -> (r: Vec<Rect>)
    requires
        w > 0,
        h > 0,
    ensures
        is_grid(r@, tex_w as int, tex_h as int, w as int, h as int),
        all_inside(r@, tex_w as int, tex_h as int),
{
    let cols: i32 = if tex_w > 0 { tex_w / w } else { 0 };
    let rows: i32 = if tex_h > 0 { tex_h / h } else { 0 };
    let mut sprites: Vec<Rect> = Vec::new();
    let mut y: i32 = 0;
    while y < rows
        invariant
            w > 0,
            h > 0,
            cols == cells_across(tex_w as int, w as int),
            rows == cells_across(tex_h as int, h as int),
            cols >= 0,
            0 <= y <= rows,
            sprites@.len() == y * cols,
            forall|i: int|
                0 <= i < sprites@.len() ==> is_cell(#[trigger] sprites@[i], i, cols as int, w as int, h as int),
            all_inside(sprites@, tex_w as int, tex_h as int),
        decreases rows - y,
    {
        proof {
            lemma_cell_fits(y as int, tex_h as int, h as int);
        }
        let mut x: i32 = 0;
        while x < cols
            invariant
                w > 0,
                h > 0,
                cols == cells_across(tex_w as int, w as int),
                rows == cells_across(tex_h as int, h as int),
                0 <= y < rows,
                0 <= x <= cols,
                0 <= y * h,
                y * h + h <= tex_h,
                sprites@.len() == y * cols + x,
                forall|i: int|
                    0 <= i < sprites@.len() ==> is_cell(#[trigger] sprites@[i], i, cols as int, w as int, h as int),
                all_inside(sprites@, tex_w as int, tex_h as int),
            decreases cols - x,
        {
            proof {
                lemma_cell_fits(x as int, tex_w as int, w as int);
                lemma_fundamental_div_mod_converse(y * cols + x, cols as int, y as int, x as int);
            }
            let cell = Rect { x: x * w, y: y * h, width: w, height: h };
            sprites.push(cell);
            x = x + 1;
        }
        assert((y + 1) * cols == y * cols + cols) by (nonlinear_arith);
        y = y + 1;
    }
    assert(sprites@.len() == cols * rows) by (nonlinear_arith)
        requires
            sprites@.len() == y * cols,
            y == rows,
    ;
    sprites
}

/// Builds the sheet of a decoded image from its file name, which encodes the
/// cell size (`tiles_10x10.png`); returns the sheet key with the sheet.
pub fn load_sprite_sheet(file_name: &str, texture: TextureInfo) -> (r: Result<(String, SpriteSheet), LoadError>)
    ensures
        match parse_sheet_name(file_name@) {
            Ok((key, w, h)) => r matches Ok((k, sheet)) && k@ == key && sheet.texture == texture
                && sheet.sliced(w, h) && all_inside(
                sheet.sprites@,
                texture.width as int,
                texture.height as int,
            ),
            Err(e) => r matches Err(re) && re == e,
        },
{
    match parse_sheet_file_name(file_name) {
        Ok((key, w, h)) => {
            let sprites = slice_grid(texture.width, texture.height, w, h);
            Ok((key, SpriteSheet { texture, sprites }))
        },
        Err(e) => Err(e),
    }
}

} // verus!
