use vstd::prelude::*;
use crate::graphics::{rect, DrawCommand, Rect, Sprite};

verus! {

/// The demo frame for animation step `i`: the background over the whole
/// window, then three pieces of four tiles, red, green and blue, hanging `i`
/// pixels below row 200 (the second green tile only half as far), then
/// presenting.
pub open spec fn spec_demo_update(i: u8) -> Seq<DrawCommand> {
    let f = i as int;
    let t = |x: int, y: int| DrawCommand::Copy(Sprite::Block, rect(x, y, 26, 26));
    seq![
        DrawCommand::Clear,
        DrawCommand::Copy(Sprite::Background, rect(0, 0, 800, 600)),
        DrawCommand::ColorMod(255, 0, 0),
        t(28, f + 200),
        t(28, f + 226),
        t(28, f + 252),
        t(54, f + 200),
        DrawCommand::ColorMod(50, 255, 50),
        t(128, f + 200),
        t(154, f / 2 + 200),
        t(180, f + 200),
        t(128, f + 226),
        DrawCommand::ColorMod(50, 50, 255),
        t(228, f + 200),
        t(228, f + 226),
        t(228, f + 252),
        t(254, f + 200),
        DrawCommand::Present,
    ]
}

fn tile_at(x: i32, y: i32) -> (c: DrawCommand)
    ensures
        c == DrawCommand::Copy(Sprite::Block, rect(x as int, y as int, 26, 26)),
{
    DrawCommand::Copy(Sprite::Block, Rect { x, y, w: 26, h: 26 })
}

/// The demo frame for animation step `i`, in order (see
/// `spec_demo_update`).
pub fn update_commands(i: u8) -> (cmds: Vec<DrawCommand>)
    ensures
        cmds@ == spec_demo_update(i),
{
    let f = i as i32;
    let mut cmds: Vec<DrawCommand> = Vec::new();
    cmds.push(DrawCommand::Clear);
    cmds.push(DrawCommand::Copy(Sprite::Background, Rect { x: 0, y: 0, w: 800, h: 600 }));
    cmds.push(DrawCommand::ColorMod(255, 0, 0));
    cmds.push(tile_at(28, f + 200));
    cmds.push(tile_at(28, f + 226));
    cmds.push(tile_at(28, f + 252));
    cmds.push(tile_at(54, f + 200));
    cmds.push(DrawCommand::ColorMod(50, 255, 50));
    cmds.push(tile_at(128, f + 200));
    cmds.push(tile_at(154, f / 2 + 200));
    cmds.push(tile_at(180, f + 200));
    cmds.push(tile_at(128, f + 226));
    cmds.push(DrawCommand::ColorMod(50, 50, 255));
    cmds.push(tile_at(228, f + 200));
    cmds.push(tile_at(228, f + 226));
    cmds.push(tile_at(228, f + 252));
    cmds.push(tile_at(254, f + 200));
    cmds.push(DrawCommand::Present);
    proof {
        assert(cmds@ =~= spec_demo_update(i));
    }
    cmds
}

} // verus!
