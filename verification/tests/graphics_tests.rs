use tetris::board::Shape;
use tetris::graphics::{blit_block, screen_block, update_commands, DrawCommand, Rect, Sprite};

fn tile(x: i32, y: i32) -> DrawCommand {
    DrawCommand::Copy(Sprite::Block, Rect { x, y, w: 26, h: 26 })
}

fn small(x: i32, y: i32) -> DrawCommand {
    DrawCommand::Copy(Sprite::Block, Rect { x, y, w: 13, h: 13 })
}

#[test]
fn screen_blocks_per_shape() {
    let b = screen_block(Shape::ZBLOCK, 40);
    assert_eq!(b.color, (255, 0, 0));
    assert_eq!(b.block_pos, (28, 54, 54, 80, 66, 66, 40, 40));
    let b = screen_block(Shape::IBLOCK, 100);
    assert_eq!(b.color, (0, 255, 255));
    assert_eq!(b.block_pos, (28, 28, 28, 28, 100, 126, 152, 178));
    let b = screen_block(Shape::LBLOCK, 0);
    assert_eq!(b.block_pos, (28, 54, 54, 54, 52, 52, 26, 0));
}

#[test]
fn blit_appends_tint_and_four_tiles() {
    let mut out = vec![DrawCommand::Clear];
    blit_block(screen_block(Shape::SQBLOCK, 10), &mut out);
    assert_eq!(
        out,
        vec![
            DrawCommand::Clear,
            DrawCommand::ColorMod(255, 255, 50),
            tile(28, 10),
            tile(54, 10),
            tile(28, 36),
            tile(54, 36),
        ]
    );
}

#[test]
fn frame_draw_list() {
    let cmds = update_commands(7, 40);
    assert_eq!(update_commands(200, 40), cmds);
    assert_eq!(
        cmds,
        vec![
            DrawCommand::Clear,
            DrawCommand::Copy(Sprite::Background, Rect { x: 0, y: 0, w: 800, h: 600 }),
            DrawCommand::ColorMod(255, 0, 0),
            tile(28, 66),
            tile(54, 66),
            tile(54, 40),
            tile(80, 40),
            DrawCommand::ColorMod(255, 255, 50),
            small(313, 53),
            small(326, 53),
            small(339, 53),
            small(313, 66),
            DrawCommand::Present,
        ]
    );
}

#[test]
fn demo_draw_list() {
    let cmds = tetris::game::graphics::update_commands(11);
    assert_eq!(cmds.len(), 18);
    assert_eq!(cmds[0], DrawCommand::Clear);
    assert_eq!(cmds[2], DrawCommand::ColorMod(255, 0, 0));
    assert_eq!(cmds[3], tile(28, 211));
    assert_eq!(cmds[5], tile(28, 263));
    assert_eq!(cmds[9], tile(154, 205));
    assert_eq!(cmds[12], DrawCommand::ColorMod(50, 50, 255));
    assert_eq!(cmds[16], tile(254, 211));
    assert_eq!(cmds[17], DrawCommand::Present);
}
