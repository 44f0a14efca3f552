//! Displaying a program's memory: a square of tiles, each a byte of memory,
//! drawn as a square of pixels.

use vstd::prelude::*;

use crate::program::ProgramState;

verus! {

/// # How the tiles lie in memory, and how large they are drawn
#[derive(Clone, Copy, Debug)]
pub struct TileLayout {
    /// The number of tiles along each axis
    pub tiles_per_axis: usize,
    /// The number of pixels along each axis of a tile
    pub pixels_per_tile_axis: usize,
    /// The address in memory of the first tile
    pub tiles_offset_in_memory: usize,
}

impl TileLayout {
    /// The number of pixels along each axis of the display
    pub open spec fn pixels_per_axis(self) -> int {
        self.tiles_per_axis * self.pixels_per_tile_axis
    }

    /// The address in memory of the tile that holds the pixel at `(x, y)`
    pub open spec fn tile_address(self, x: int, y: int) -> int {
        self.tiles_offset_in_memory + (y / self.pixels_per_tile_axis as int) * self.tiles_per_axis
            + x / self.pixels_per_tile_axis as int
    }

    /// Whether the layout can be drawn from a memory of the given size: the
    /// tiles lie within it, and the frame's size fits in `usize`
    pub open spec fn fits(self, memory_size: int) -> bool {
        &&& self.pixels_per_tile_axis > 0
        &&& 4 * self.pixels_per_axis() * self.pixels_per_axis() <= usize::MAX
        &&& self.tiles_offset_in_memory + self.tiles_per_axis * self.tiles_per_axis <= memory_size
    }
}

/// The value of each channel of a tile's pixels: black where the tile is
/// `0`, white otherwise
pub open spec fn channel_of(tile: u8) -> u8 {
    if tile == 0 {
        0
    } else {
        255
    }
}

/// The color of a tile's pixels, in four channels
pub fn tile_color(tile: u8) -> (color: [u8; 4])
    ensures
        forall|c: int| 0 <= c < 4 ==> color@[c] == channel_of(tile),
{
    if tile == 0 {
        [0, 0, 0, 0]
    } else {
        [255, 255, 255, 255]
    }
}

/// The tile of a pixel lies within the tiles
proof fn lemma_tile_address(layout: TileLayout, x: int, y: int)
    requires
        layout.pixels_per_tile_axis > 0,
        0 <= x < layout.pixels_per_axis(),
        0 <= y < layout.pixels_per_axis(),
    ensures
        layout.tiles_offset_in_memory <= layout.tile_address(x, y) < layout.tiles_offset_in_memory
            + layout.tiles_per_axis * layout.tiles_per_axis,
        0 <= (y / (layout.pixels_per_tile_axis as int)) * layout.tiles_per_axis
            <= (y / (layout.pixels_per_tile_axis as int)) * layout.tiles_per_axis + x / (
        layout.pixels_per_tile_axis as int) < layout.tiles_per_axis * layout.tiles_per_axis,
{
    let t = layout.tiles_per_axis as int;
    let p = layout.pixels_per_tile_axis as int;
    let tx = x / p;
    let ty = y / p;
    assert(0 <= tx < t) by (nonlinear_arith)
        requires
            0 <= x < t * p,
            p > 0,
            tx == x / p,
    ;
    assert(0 <= ty < t) by (nonlinear_arith)
        requires
            0 <= y < t * p,
            p > 0,
            ty == y / p,
    ;
    assert(0 <= ty * t + tx < t * t) by (nonlinear_arith)
        requires
            0 <= tx < t,
            0 <= ty < t,
    ;
}

/// # Draw the tiles into a frame
///
/// The frame holds the display's pixels row by row, each in four channels.
/// Every pixel has the color of the tile it lies in.
pub fn tiles_to_frame(mem: &[u8], layout: TileLayout) -> (frame: Vec<u8>)
    requires
        layout.fits(mem@.len() as int),
    ensures
        frame@.len() == 4 * layout.pixels_per_axis() * layout.pixels_per_axis(),
        forall|x: int, y: int, c: int|
            0 <= x < layout.pixels_per_axis() && 0 <= y < layout.pixels_per_axis() && 0 <= c < 4
                ==> #[trigger] frame@[4 * (y * layout.pixels_per_axis() + x) + c] == channel_of(
                mem@[layout.tile_address(x, y)],
            ),
{
    let ghost n = layout.pixels_per_axis();
    let t = layout.tiles_per_axis;
    let p = layout.pixels_per_tile_axis;
    proof {
        assert(0 <= n * n <= 4 * n * n) by (nonlinear_arith)
            requires
                n >= 0,
        ;
        assert(n <= n * n || n == 0) by (nonlinear_arith)
            requires
                n >= 0,
        ;
    }
    let size = t * p;
    let memory_size = mem.len();
    let mut frame: Vec<u8> = Vec::new();
    let mut y: usize = 0;
    while y < size
        invariant
            n == layout.pixels_per_axis(),
            size == n,
            t == layout.tiles_per_axis,
            p == layout.pixels_per_tile_axis,
            layout.fits(mem@.len() as int),
            memory_size == mem@.len(),
            y <= n,
            frame@.len() == 4 * (y * n),
            forall|x2: int, y2: int, c: int|
                0 <= x2 < n && 0 <= y2 < y && 0 <= c < 4 ==> #[trigger] frame@[4 * (y2 * n + x2)
                    + c] == channel_of(mem@[layout.tile_address(x2, y2)]),
        decreases n - y,
    {
        let mut x: usize = 0;
        while x < size
            invariant
                n == layout.pixels_per_axis(),
                size == n,
                t == layout.tiles_per_axis,
                p == layout.pixels_per_tile_axis,
                layout.fits(mem@.len() as int),
                memory_size == mem@.len(),
                y < n,
                x <= n,
                frame@.len() == 4 * (y * n + x),
                forall|x2: int, y2: int, c: int|
                    0 <= x2 < n && 0 <= y2 < y && 0 <= c < 4 ==> #[trigger] frame@[4 * (y2 * n
                        + x2) + c] == channel_of(mem@[layout.tile_address(x2, y2)]),
                forall|x2: int, c: int|
                    0 <= x2 < x && 0 <= c < 4 ==> #[trigger] frame@[4 * (y * n + x2) + c]
                        == channel_of(mem@[layout.tile_address(x2, y as int)]),
            decreases n - x,
        {
            proof {
                lemma_tile_address(layout, x as int, y as int);
                assert((y / p) * t + x / p < t * t);
                assert(layout.tiles_offset_in_memory + t * t <= memory_size);
                assert(4 * (y * n + x) + 4 <= 4 * n * n) by (nonlinear_arith)
                    requires
                        0 <= x < n,
                        0 <= y < n,
                ;
            }
            let row = (y / p) * t;
            let address = layout.tiles_offset_in_memory + row + x / p;
            let color = tile_color(mem[address]);
            let ghost before = frame@;
            let ghost at = 4 * (y * n + x);
            frame.push(color[0]);
            frame.push(color[1]);
            frame.push(color[2]);
            frame.push(color[3]);
            proof {
                assert forall|x2: int, y2: int, c: int|
                    0 <= x2 < n && 0 <= y2 < y && 0 <= c < 4 implies #[trigger] frame@[4 * (y2 * n
                        + x2) + c] == channel_of(mem@[layout.tile_address(x2, y2)]) by {
                    assert(4 * (y2 * n + x2) + c < 4 * (y * n)) by (nonlinear_arith)
                        requires
                            0 <= x2 < n,
                            0 <= y2 < y,
                            0 <= c < 4,
                    ;
                    assert(frame@[4 * (y2 * n + x2) + c] == before[4 * (y2 * n + x2) + c]);
                }
                assert forall|x2: int, c: int|
                    0 <= x2 < x + 1 && 0 <= c < 4 implies #[trigger] frame@[4 * (y * n + x2) + c]
                        == channel_of(mem@[layout.tile_address(x2, y as int)]) by {
                    if x2 < x {
                        assert(frame@[4 * (y * n + x2) + c] == before[4 * (y * n + x2) + c]);
                    } else {
                        assert(4 * (y * n + x2) + c == at + c);
                        assert(frame@[at + c] == color@[c]);
                    }
                }
            }
            x = x + 1;
        }
        proof {
            assert(4 * (y * n + n) == 4 * ((y + 1) * n)) by (nonlinear_arith);
            assert forall|x2: int, y2: int, c: int|
                0 <= x2 < n && 0 <= y2 < y + 1 && 0 <= c < 4 implies #[trigger] frame@[4 * (y2 * n
                    + x2) + c] == channel_of(mem@[layout.tile_address(x2, y2)]) by {
                if y2 == y {
                    assert(frame@[4 * (y * n + x2) + c] == channel_of(
                        mem@[layout.tile_address(x2, y as int)],
                    ));
                }
            }
        }
        y = y + 1;
    }
    assert(4 * (n * n) == 4 * n * n) by (nonlinear_arith);
    frame
}

/// # What the run loop of a frame does after the program took a step
#[derive(Clone, Copy, Debug, PartialEq, Eq, Structural)]
pub enum FrameAction {
    /// Take the debugger's events, then the next step
    Continue,
    /// The frame's time is up: halt the program, then go on
    Halt,
    /// Leave the loop, and draw the frame
    Draw,
}

/// # Whether the program must be reset before its next step
///
/// A finished program starts over, with its arguments pushed anew.
pub fn must_reset(state: &ProgramState) -> (result: bool)
    ensures
        result == (*state is Finished),
{
    match state {
        ProgramState::Finished => true,
        _ => false,
    }
}

/// # What the run loop of a frame does after a step
///
/// It goes on while the program runs, and halts it once the frame's time is
/// up. Where the program paused, finished or failed, the frame is drawn.
pub fn next_frame_action(state: &ProgramState, timed_out: bool) -> (action: FrameAction)
    ensures
        action == (match state {
            ProgramState::Running => if timed_out {
                FrameAction::Halt
            } else {
                FrameAction::Continue
            },
            _ => FrameAction::Draw,
        }),
{
    match state {
        ProgramState::Running => {
            if timed_out {
                FrameAction::Halt
            } else {
                FrameAction::Continue
            }
        },
        _ => FrameAction::Draw,
    }
}

} // verus!
