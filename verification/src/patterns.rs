//! Test patterns for the displays.

use vstd::prelude::*;

use crate::display::{on_screen, pixel, spare_bit, Display, BUF_SIZE, HEIGHT, WIDTH};

verus! {

/// Gray level of the test gradient: dark to fully lit from left to right, or
/// the other way round.
pub open spec fn gradient_gray(x: int, invert: bool) -> int {
    if invert {
        31 - x * 31 / 254
    } else {
        x * 31 / 254
    }
}

/// Whether two framebuffers agree on the bits that belong to no pixel.
pub open spec fn same_spare_bits(a: Seq<u8>, b: Seq<u8>) -> bool {
    a.len() == BUF_SIZE && forall|k: int|
        0 <= k < 5440 ==> #[trigger] spare_bit(a, k) == spare_bit(b, k)
}

/// Draw the test gradient. Only pixels change.
pub fn draw_gradient(disp: &mut Display, invert: bool)
    ensures
        forall|x: int, y: int|
            on_screen(x, y) ==> #[trigger] pixel(final(disp)@, x, y) == gradient_gray(x, invert),
        same_spare_bits(final(disp)@, old(disp)@),
{
    proof {
        disp.law_buffer_is_whole();
    }
    let mut y: usize = 0;
    while y < HEIGHT
        invariant
            y <= HEIGHT,
            same_spare_bits(disp@, old(disp)@),
            forall|px: int, py: int|
                on_screen(px, py) && py < y ==> #[trigger] pixel(disp@, px, py) == gradient_gray(
                    px,
                    invert,
                ),
        decreases HEIGHT - y,
    {
        let mut x: usize = 0;
        while x < WIDTH
            invariant
                x <= WIDTH,
                y < HEIGHT,
                same_spare_bits(disp@, old(disp)@),
                forall|px: int, py: int|
                    on_screen(px, py) && (py < y || (py == y && px < x)) ==> #[trigger] pixel(
                        disp@,
                        px,
                        py,
                    ) == gradient_gray(px, invert),
            decreases WIDTH - x,
        {
            let level: usize = x * 31 / (WIDTH - 1);
            assert(level == x * 31 / 254 && level <= 31);
            let g: u8 = level as u8;
            let gray: u8 = if invert {
                31 - g
            } else {
                g
            };
            disp.set_pixel(x, y, gray);
            x += 1;
        }
        y += 1;
    }
}

/// Gray level of the horizontal gradient.
pub open spec fn ramp_gray(x: int) -> int {
    x * 32 / 255
}

/// Gray level of the checkerboard: squares of eight pixels.
pub open spec fn checker_gray(x: int, y: int) -> int {
    if (x / 8 + y / 8) % 2 == 0 {
        31
    } else {
        4
    }
}

/// Draw a horizontal gradient on the left and a checkerboard on the right.
/// Only pixels change.
pub fn test_pattern(left: &mut Display, right: &mut Display)
    ensures
        forall|x: int, y: int|
            on_screen(x, y) ==> #[trigger] pixel(final(left)@, x, y) == ramp_gray(x),
        forall|x: int, y: int|
            on_screen(x, y) ==> #[trigger] pixel(final(right)@, x, y) == checker_gray(x, y),
        same_spare_bits(final(left)@, old(left)@),
        same_spare_bits(final(right)@, old(right)@),
{
    proof {
        left.law_buffer_is_whole();
        right.law_buffer_is_whole();
    }
    let mut y: usize = 0;
    while y < HEIGHT
        invariant
            y <= HEIGHT,
            same_spare_bits(left@, old(left)@),
            same_spare_bits(right@, old(right)@),
            forall|px: int, py: int|
                on_screen(px, py) && py < y ==> #[trigger] pixel(left@, px, py) == ramp_gray(px),
            forall|px: int, py: int|
                on_screen(px, py) && py < y ==> #[trigger] pixel(right@, px, py) == checker_gray(
                    px,
                    py,
                ),
        decreases HEIGHT - y,
    {
        let mut x: usize = 0;
        while x < WIDTH
            invariant
                x <= WIDTH,
                y < HEIGHT,
                same_spare_bits(left@, old(left)@),
                same_spare_bits(right@, old(right)@),
                forall|px: int, py: int|
                    on_screen(px, py) && (py < y || (py == y && px < x)) ==> #[trigger] pixel(
                        left@,
                        px,
                        py,
                    ) == ramp_gray(px),
                forall|px: int, py: int|
                    on_screen(px, py) && (py < y || (py == y && px < x)) ==> #[trigger] pixel(
                        right@,
                        px,
                        py,
                    ) == checker_gray(px, py),
            decreases WIDTH - x,
        {
            let level: usize = x * 32 / WIDTH;
            assert(level == ramp_gray(x as int) && level < 32);
            left.set_pixel(x, y, level as u8);
            right.set_pixel(
                x,
                y,
                if (x / 8 + y / 8) % 2 == 0 {
                    31
                } else {
                    4
                },
            );
            x += 1;
        }
        y += 1;
    }
}

/// The gradient runs over all gray levels from the left edge to the right one
/// and never back, and the inverted one is its mirror image in brightness.
pub proof fn law_gradient_covers_all_grays(x: int, invert: bool)
    requires
        0 <= x < 255,
    ensures
        0 <= gradient_gray(x, invert) <= 31,
        gradient_gray(x, true) + gradient_gray(x, false) == 31,
        x < 254 ==> 0 <= gradient_gray(x + 1, false) - gradient_gray(x, false) <= 1,
        gradient_gray(0, false) == 0,
        gradient_gray(254, false) == 31,
{
}

/// The ramp runs over all gray levels, and the checkerboard changes from each
/// square of eight pixels to the next, across and down, and nowhere else.
pub proof fn law_test_patterns(x: int, y: int)
    requires
        0 <= x < 255,
        0 <= y < 64,
    ensures
        ramp_gray(0) == 0,
        ramp_gray(254) == 31,
        x < 254 ==> 0 <= ramp_gray(x + 1) - ramp_gray(x) <= 1,
        checker_gray(x, y) == 31 || checker_gray(x, y) == 4,
        checker_gray(x, y) == checker_gray(x / 8 * 8, y / 8 * 8),
        checker_gray(x, y) != checker_gray(x + 8, y),
        checker_gray(x, y) != checker_gray(x, y + 8),
        checker_gray(0, 0) == 31,
{
}

} // verus!
