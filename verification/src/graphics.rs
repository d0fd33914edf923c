use vstd::prelude::*;
use crate::board::{Shape, spec_shape_color};

verus! {

/// The textures a frame is drawn from.
#[derive(Clone, Copy, Debug, PartialEq, Eq, Structural)]
pub enum Sprite {
    /// The playing-field background picture.
    Background,
    /// The picture of one tile, tinted per piece.
    Block,
}

/// A screen rectangle: its top-left corner and its size, in pixels.
#[derive(Clone, Copy, Debug, PartialEq, Eq, Structural)]
pub struct Rect {
    pub x: i32,
    pub y: i32,
    pub w: u32,
    pub h: u32,
}

/// One step of drawing a frame on the canvas.
#[derive(Clone, Copy, Debug, PartialEq, Eq, Structural)]
pub enum DrawCommand {
    /// Clear the canvas.
    Clear,
    /// Tint the block texture with this colour.
    ColorMod(u8, u8, u8),
    /// Copy the whole of a texture into a rectangle.
    Copy(Sprite, Rect),
    /// Show what was drawn.
    Present,
}

/// A piece as it is drawn: its colour, the x of its four tiles and then the
/// y of its four tiles, in pixels.
#[derive(Clone, Copy, Debug)]
pub struct Blocks {
    pub color: (u8, u8, u8),
    pub block_pos: (i32, i32, i32, i32, i32, i32, i32, i32),
}

pub open spec fn rect(x: int, y: int, w: u32, h: u32) -> Rect {
    Rect { x: x as i32, y: y as i32, w, h }
}

/// A board tile at `(x, y)`.
pub open spec fn tile(x: int, y: int) -> DrawCommand {
    DrawCommand::Copy(Sprite::Block, rect(x, y, 26, 26))
}

/// The piece of the given shape, drawn with its top at `pos`.
pub open spec fn spec_screen_block(shape: Shape, pos: int) -> Blocks {
    let p = pos as i32;
    let p26 = (pos + 26) as i32;
    let p52 = (pos + 52) as i32;
    let p78 = (pos + 78) as i32;
    match shape {
        Shape::RLBLOCK => Blocks { color: (255, 100, 0), block_pos: (28, 28, 28, 54, p, p26, p52, p52) },
        Shape::SQBLOCK => Blocks { color: (255, 255, 50), block_pos: (28, 54, 28, 54, p, p, p26, p26) },
        Shape::LBLOCK => Blocks { color: (0, 0, 255), block_pos: (28, 54, 54, 54, p52, p52, p26, p) },
        Shape::ZBLOCK => Blocks { color: (255, 0, 0), block_pos: (28, 54, 54, 80, p26, p26, p, p) },
        Shape::RZBLOCK => Blocks { color: (0, 255, 0), block_pos: (28, 54, 54, 80, p, p, p26, p26) },
        Shape::TBLOCK => Blocks { color: (255, 0, 255), block_pos: (28, 54, 54, 80, p26, p26, p, p26) },
        Shape::IBLOCK => Blocks { color: (0, 255, 255), block_pos: (28, 28, 28, 28, p, p26, p52, p78) },
    }
}

/// Drawing a piece: tint the block texture with its colour, then one tile
/// per pair `(x_k, y_k)`.
pub open spec fn spec_blit_block(block: Blocks) -> Seq<DrawCommand> {
    let (x0, x1, x2, x3, y0, y1, y2, y3) = block.block_pos;
    seq![
        DrawCommand::ColorMod(block.color.0, block.color.1, block.color.2),
        tile(x0 as int, y0 as int),
        tile(x1 as int, y1 as int),
        tile(x2 as int, y2 as int),
        tile(x3 as int, y3 as int),
    ]
}

/// The preview of the next piece, in yellow, at the top right.
pub open spec fn spec_preview() -> Seq<DrawCommand> {
    seq![
        DrawCommand::ColorMod(255, 255, 50),
        DrawCommand::Copy(Sprite::Block, rect(313, 53, 13, 13)),
        DrawCommand::Copy(Sprite::Block, rect(326, 53, 13, 13)),
        DrawCommand::Copy(Sprite::Block, rect(339, 53, 13, 13)),
        DrawCommand::Copy(Sprite::Block, rect(313, 66, 13, 13)),
    ]
}

/// A frame: the background over the whole window, the falling piece (a Z
/// piece) with its top at `pos`, the preview, then presenting.
pub open spec fn spec_update(pos: int) -> Seq<DrawCommand> {
    seq![DrawCommand::Clear, DrawCommand::Copy(Sprite::Background, rect(0, 0, 800, 600))]
        + spec_blit_block(spec_screen_block(Shape::ZBLOCK, pos))
        + spec_preview()
        + seq![DrawCommand::Present]
}

/// How far below its top the lowest tile of a piece of the given shape
/// starts, in pixels.
pub open spec fn shape_depth(shape: Shape) -> int {
    match shape {
        Shape::RLBLOCK => 52,
        Shape::LBLOCK => 52,
        Shape::IBLOCK => 78,
        _ => 26,
    }
}

/// The piece of the given shape, drawn with its top at `pos`.
pub fn screen_block(shape: Shape, pos: i32) -> (b: Blocks)
    requires
        pos + shape_depth(shape) <= i32::MAX,
    ensures
        b == spec_screen_block(shape, pos as int),
{
    match shape {
        Shape::RLBLOCK => Blocks { color: (255, 100, 0), block_pos: (28, 28, 28, 54, pos, pos + 26, pos + 52, pos + 52) },
        Shape::SQBLOCK => Blocks { color: (255, 255, 50), block_pos: (28, 54, 28, 54, pos, pos, pos + 26, pos + 26) },
        Shape::LBLOCK => Blocks { color: (0, 0, 255), block_pos: (28, 54, 54, 54, pos + 52, pos + 52, pos + 26, pos) },
        Shape::ZBLOCK => Blocks { color: (255, 0, 0), block_pos: (28, 54, 54, 80, pos + 26, pos + 26, pos, pos) },
        Shape::RZBLOCK => Blocks { color: (0, 255, 0), block_pos: (28, 54, 54, 80, pos, pos, pos + 26, pos + 26) },
        Shape::TBLOCK => Blocks { color: (255, 0, 255), block_pos: (28, 54, 54, 80, pos + 26, pos + 26, pos, pos + 26) },
        Shape::IBLOCK => Blocks { color: (0, 255, 255), block_pos: (28, 28, 28, 28, pos, pos + 26, pos + 52, pos + 78) },
    }
}

/// Appends the drawing of `block` to `out`: the tint, then its four tiles.
pub fn blit_block(block: Blocks, out: &mut Vec<DrawCommand>)
    ensures
        final(out)@ == old(out)@ + spec_blit_block(block),
{
    let (x0, x1, x2, x3, y0, y1, y2, y3) = block.block_pos;
    out.push(DrawCommand::ColorMod(block.color.0, block.color.1, block.color.2));
    out.push(DrawCommand::Copy(Sprite::Block, Rect { x: x0, y: y0, w: 26, h: 26 }));
    out.push(DrawCommand::Copy(Sprite::Block, Rect { x: x1, y: y1, w: 26, h: 26 }));
    out.push(DrawCommand::Copy(Sprite::Block, Rect { x: x2, y: y2, w: 26, h: 26 }));
    out.push(DrawCommand::Copy(Sprite::Block, Rect { x: x3, y: y3, w: 26, h: 26 }));
    proof {
        assert(final(out)@ =~= old(out)@ + spec_blit_block(block));
    }
}

/// The drawing of one frame with the falling piece's top at `pos`, in
/// order (see `spec_update`). The animation step `i` does not change the
/// frame: two calls with the same `pos` give the same list whatever `i`.
pub fn update_commands(i: u8, pos: i32) -> (cmds: Vec<DrawCommand>)
    requires
        pos + 26 <= i32::MAX,
    ensures
        cmds@ == spec_update(pos as int),
{
    let _step = i;
    let mut cmds: Vec<DrawCommand> = Vec::new();
    cmds.push(DrawCommand::Clear);
    cmds.push(DrawCommand::Copy(Sprite::Background, Rect { x: 0, y: 0, w: 800, h: 600 }));
    let block = screen_block(Shape::ZBLOCK, pos);
    blit_block(block, &mut cmds);
    cmds.push(DrawCommand::ColorMod(255, 255, 50));
    cmds.push(DrawCommand::Copy(Sprite::Block, Rect { x: 313, y: 40 + 13, w: 13, h: 13 }));
    cmds.push(DrawCommand::Copy(Sprite::Block, Rect { x: 313 + 13, y: 40 + 13, w: 13, h: 13 }));
    cmds.push(DrawCommand::Copy(Sprite::Block, Rect { x: 313 + 2 * 13, y: 40 + 13, w: 13, h: 13 }));
    cmds.push(DrawCommand::Copy(Sprite::Block, Rect { x: 313, y: 40 + 26, w: 13, h: 13 }));
    cmds.push(DrawCommand::Present);
    proof {
        assert(cmds@ =~= spec_update(pos as int));
    }
    cmds
}

/// Whether the unit cell at column `c` and row `r` (counted from the top
/// left) belongs to the figure of the shape: I a column of four, RL a column
/// of three with a foot to the right, L a column of three on the right with
/// a foot to the left, the square two by two, Z the upper row shifted right,
/// RZ the lower row shifted right, and T a row of three with a stem above the
/// middle.
pub open spec fn in_figure(shape: Shape, c: int, r: int) -> bool {
    match shape {
        Shape::IBLOCK => c == 0 && 0 <= r <= 3,
        Shape::RLBLOCK => (c == 0 && 0 <= r <= 2) || (c == 1 && r == 2),
        Shape::LBLOCK => (c == 1 && 0 <= r <= 2) || (c == 0 && r == 2),
        Shape::SQBLOCK => 0 <= c <= 1 && 0 <= r <= 1,
        Shape::ZBLOCK => (r == 0 && 1 <= c <= 2) || (r == 1 && 0 <= c <= 1),
        Shape::RZBLOCK => (r == 0 && 0 <= c <= 1) || (r == 1 && 1 <= c <= 2),
        Shape::TBLOCK => (r == 1 && 0 <= c <= 2) || (r == 0 && c == 1),
    }
}

/// The `k`-th tile of a drawn piece, `k` from 0 to 3.
pub open spec fn tile_of(b: Blocks, k: int) -> (int, int) {
    let (x0, x1, x2, x3, y0, y1, y2, y3) = b.block_pos;
    if k == 0 {
        (x0 as int, y0 as int)
    } else if k == 1 {
        (x1 as int, y1 as int)
    } else if k == 2 {
        (x2 as int, y2 as int)
    } else {
        (x3 as int, y3 as int)
    }
}

/// A piece is drawn as its figure: its four tiles are four different cells
/// of the 26-pixel grid whose top left is `(28, pos)`, and each lies in the
/// shape's figure (see `in_figure`), which has four cells; so the tiles
/// cover the figure exactly.
pub proof fn lemma_screen_block_is_figure(shape: Shape, pos: int)
    requires
        i32::MIN <= pos,
        pos + 78 <= i32::MAX,
    ensures
        forall|k: int|
            0 <= k < 4 ==> {
                let (x, y) = #[trigger] tile_of(spec_screen_block(shape, pos), k);
                &&& (x - 28) % 26 == 0
                &&& (y - pos) % 26 == 0
                &&& in_figure(shape, (x - 28) / 26, (y - pos) / 26)
            },
        forall|j: int, k: int|
            0 <= j < k < 4 ==> tile_of(spec_screen_block(shape, pos), j) != tile_of(
                spec_screen_block(shape, pos),
                k,
            ),
{
    let b = spec_screen_block(shape, pos);
    assert(tile_of(b, 0).1 - pos == (b.block_pos.4 as int) - pos);
}

/// A piece is drawn in the colour it has on the board.
pub proof fn lemma_screen_colour_is_piece_colour(shape: Shape, pos: int)
    ensures
        spec_screen_block(shape, pos).color == spec_shape_color(shape),
{
}

} // verus!
