use crosscut::display::{
    must_reset, next_frame_action, tile_color, tiles_to_frame, FrameAction, TileLayout,
};
use crosscut::program::{ProgramState, SourceLocation};

fn pixel(frame: &[u8], pixels_per_axis: usize, x: usize, y: usize) -> &[u8] {
    let i = 4 * (y * pixels_per_axis + x);
    &frame[i..i + 4]
}

#[test]
fn empty_tiles_are_black_and_others_white() {
    assert_eq!(tile_color(0), [0, 0, 0, 0]);
    assert_eq!(tile_color(1), [255, 255, 255, 255]);
    assert_eq!(tile_color(200), [255, 255, 255, 255]);
}

#[test]
fn each_pixel_has_the_color_of_its_tile() {
    let layout = TileLayout {
        tiles_per_axis: 2,
        pixels_per_tile_axis: 2,
        tiles_offset_in_memory: 1,
    };
    let mem = [9, 0, 5, 0, 7];

    let frame = tiles_to_frame(&mem, layout);

    assert_eq!(frame.len(), 4 * 4 * 4);
    for y in 0..4 {
        for x in 0..4 {
            let tile = mem[1 + (y / 2) * 2 + x / 2];
            let expected = if tile == 0 { [0; 4] } else { [255; 4] };
            assert_eq!(pixel(&frame, 4, x, y), expected);
        }
    }
    assert_eq!(pixel(&frame, 4, 3, 0), [255; 4]);
    assert_eq!(pixel(&frame, 4, 0, 3), [0; 4]);
}

#[test]
fn no_tiles_make_an_empty_frame() {
    let layout = TileLayout {
        tiles_per_axis: 0,
        pixels_per_tile_axis: 3,
        tiles_offset_in_memory: 0,
    };
    assert!(tiles_to_frame(&[], layout).is_empty());
}

#[test]
fn frame_loop_resets_finished_programs_and_draws_when_not_running() {
    assert!(must_reset(&ProgramState::Finished));
    assert!(!must_reset(&ProgramState::Running));

    assert_eq!(next_frame_action(&ProgramState::Running, false), FrameAction::Continue);
    assert_eq!(next_frame_action(&ProgramState::Running, true), FrameAction::Halt);
    assert_eq!(next_frame_action(&ProgramState::Finished, false), FrameAction::Draw);
    let paused = ProgramState::Paused {
        location: SourceLocation {
            function: String::from("main"),
            index: 0,
        },
    };
    assert!(!must_reset(&paused));
    assert_eq!(next_frame_action(&paused, true), FrameAction::Draw);
}
