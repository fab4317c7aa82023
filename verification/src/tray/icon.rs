//! The pixels of the tray icon: a square RGBA image, and the dot that is
//! drawn into its corner when an update waits.

use vstd::prelude::*;

verus! {

/// The width and height of the icon, in pixels.
pub const ICON_SIZE: u32 = 64;

/// The radius of the notification dot, in pixels.
pub const DOT_RADIUS: i32 = 8;

/// The largest image side for which the dot is drawn.
pub const MAX_SIZE: u32 = 0x4000;

/// The colour of the notification dot: red, green, blue, alpha.
pub fn dot_color() -> (r: [u8; 4])
    ensures
        r@ == seq![230u8, 150u8, 0u8, 255u8],
{
    let c: [u8; 4] = [230, 150, 0, 255];
    assert(c@ =~= seq![230u8, 150u8, 0u8, 255u8]);
    c
}

/// The point `(x, y)` lies in the disc around `(cx, cy)` whose radius has
/// the square `radius_sq`.
pub open spec fn within_dot(x: int, y: int, cx: int, cy: int, radius_sq: int) -> bool {
    (x - cx) * (x - cx) + (y - cy) * (y - cy) <= radius_sq
}

/// Whether the point `(x, y)` lies in the disc around `(cx, cy)` whose
/// radius has the square `radius_sq`.
pub fn is_within_dot(x: i32, y: i32, cx: i32, cy: i32, radius_sq: i32) -> (r: bool)
    ensures
        r == within_dot(x as int, y as int, cx as int, cy as int, radius_sq as int),
{
    let dx: i128 = x as i128 - cx as i128;
    let dy: i128 = y as i128 - cy as i128;
    assert(dx * dx <= 0x4_0000_0000_0000_0000 && dx * dx >= 0) by (nonlinear_arith)
        requires
            -0x1_0000_0000 <= dx <= 0x1_0000_0000,
    ;
    assert(dy * dy <= 0x4_0000_0000_0000_0000 && dy * dy >= 0) by (nonlinear_arith)
        requires
            -0x1_0000_0000 <= dy <= 0x1_0000_0000,
    ;
    dx * dx + dy * dy <= radius_sq as i128
}

/// Where the pixel `(x, y)` of a square image of side `size` begins in its
/// RGBA bytes.
pub open spec fn pixel_index(x: int, y: int, size: int) -> int {
    (y * size + x) * 4
}

/// `after` is `before` with the pixel `(x, y)` set to `color`.
pub open spec fn pixel_set(before: Seq<u8>, after: Seq<u8>, x: int, y: int, size: int, color: Seq<u8>) -> bool {
    &&& after.len() == before.len()
    &&& forall|k: int|
        0 <= k < before.len() ==> #[trigger] after[k] == if pixel_index(x, y, size) <= k
            < pixel_index(x, y, size) + 4 {
            color[k - pixel_index(x, y, size)]
        } else {
            before[k]
        }
}

/// Sets the pixel `(x, y)` of the square image `data` of side `size` to `color`.
pub fn set_pixel(data: &mut Vec<u8>, x: u32, y: u32, size: u32, color: [u8; 4])
    requires
        x < size,
        y < size,
        old(data)@.len() == 4 * size * size,
    ensures
        pixel_set(old(data)@, final(data)@, x as int, y as int, size as int, color@),
{
    let len = data.len();
    proof {
        lemma_pixel_in_range(x as int, y as int, size as int);
        assert(size * size <= 4 * size * size) by (nonlinear_arith);
        assert(data@.len() <= usize::MAX);
        assert((y * size + x) * 4 + 4 <= 4 * size * size);
    }
    let row: usize = y as usize * size as usize;
    let idx: usize = (row + x as usize) * 4;
    data.set(idx, color[0]);
    data.set(idx + 1, color[1]);
    data.set(idx + 2, color[2]);
    data.set(idx + 3, color[3]);
}

/// A pixel of the image lies inside the bytes of the image.
pub proof fn lemma_pixel_in_range(x: int, y: int, size: int)
    requires
        0 <= x < size,
        0 <= y < size,
    ensures
        0 <= y * size,
        y * size + x < size * size,
        0 <= pixel_index(x, y, size),
        pixel_index(x, y, size) + 4 <= 4 * size * size,
{
    assert(y * size + x < size * size && 0 <= y * size) by (nonlinear_arith)
        requires
            0 <= x < size,
            0 <= y < size,
    ;
    assert(4 * (size * size) == 4 * size * size) by (nonlinear_arith);
}

/// Two different pixels have bytes that do not overlap.
pub proof fn lemma_pixels_apart(x: int, y: int, u: int, v: int, size: int)
    requires
        0 <= x < size,
        0 <= y < size,
        0 <= u < size,
        0 <= v < size,
        x != u || y != v,
    ensures
        pixel_index(x, y, size) + 4 <= pixel_index(u, v, size) || pixel_index(u, v, size) + 4
            <= pixel_index(x, y, size),
{
    assert(y * size + x != v * size + u) by (nonlinear_arith)
        requires
            0 <= x < size,
            0 <= y < size,
            0 <= u < size,
            0 <= v < size,
            x != u || y != v,
    ;
}

/// The centre of the dot in an image of side `size`: `DOT_RADIUS + 2`
/// pixels from the right and from the top.
pub open spec fn dot_center(size: int) -> (int, int) {
    (size - DOT_RADIUS - 2, DOT_RADIUS + 2)
}

/// The pixel `(x, y)` belongs to the dot of an image of side `size`.
pub open spec fn in_dot(x: int, y: int, size: int) -> bool {
    within_dot(x, y, dot_center(size).0, dot_center(size).1, DOT_RADIUS * DOT_RADIUS)
}

/// The byte `k` of the image `after` is what drawing the dot makes of the
/// image `before`, for the pixels before row `rows` and, in row `rows`,
/// before column `cols`.
pub open spec fn drawn_upto(before: Seq<u8>, after: Seq<u8>, size: int, rows: int, cols: int) -> bool {
    &&& after.len() == before.len()
    &&& forall|x: int, y: int, c: int|
        #![trigger after[pixel_index(x, y, size) + c]]
        0 <= x < size && 0 <= y < size && 0 <= c < 4 ==> after[pixel_index(x, y, size) + c] == if (y
            < rows || (y == rows && x < cols)) && in_dot(x, y, size) {
            seq![230u8, 150u8, 0u8, 255u8][c]
        } else {
            before[pixel_index(x, y, size) + c]
        }
}

/// Draws the notification dot into the square RGBA image `data` of side
/// `size`: every pixel of the dot gets the dot's colour, and every other
/// pixel stays as it is.
pub fn add_notification_dot(data: &mut Vec<u8>, size: u32)
    requires
        size <= MAX_SIZE,
        old(data)@.len() == 4 * size * size,
    ensures
        drawn_upto(old(data)@, final(data)@, size as int, size as int, 0),
{
    let center_x: i32 = (size as i32) - DOT_RADIUS - 2;
    let center_y: i32 = DOT_RADIUS + 2;
    let radius_sq: i32 = DOT_RADIUS * DOT_RADIUS;
    let color = dot_color();
    let mut y: u32 = 0;
    while y < size
        invariant
            y <= size <= MAX_SIZE,
            data@.len() == 4 * size * size,
            center_x == size - DOT_RADIUS - 2,
            center_y == DOT_RADIUS + 2,
            radius_sq == DOT_RADIUS * DOT_RADIUS,
            color@ == seq![230u8, 150u8, 0u8, 255u8],
            drawn_upto(old(data)@, data@, size as int, y as int, 0),
        decreases size - y,
    {
        let mut x: u32 = 0;
        while x < size
            invariant
                x <= size <= MAX_SIZE,
                y < size,
                data@.len() == 4 * size * size,
                center_x == size - DOT_RADIUS - 2,
                center_y == DOT_RADIUS + 2,
                radius_sq == DOT_RADIUS * DOT_RADIUS,
                color@ == seq![230u8, 150u8, 0u8, 255u8],
                drawn_upto(old(data)@, data@, size as int, y as int, x as int),
            decreases size - x,
        {
            let ghost before = data@;
            let inside = is_within_dot(x as i32, y as i32, center_x, center_y, radius_sq);
            if inside {
                set_pixel(data, x, y, size, color);
            }
            proof {
                assert forall|u: int, v: int, c: int|
                    0 <= u < size && 0 <= v < size && 0 <= c < 4 implies #[trigger] data@[pixel_index(
                    u,
                    v,
                    size as int,
                ) + c] == if (v < y || (v == y && u < x + 1)) && in_dot(u, v, size as int) {
                    seq![230u8, 150u8, 0u8, 255u8][c]
                } else {
                    old(data)@[pixel_index(u, v, size as int) + c]
                } by {
                    lemma_pixel_in_range(u, v, size as int);
                    lemma_pixel_in_range(x as int, y as int, size as int);
                    let k = pixel_index(u, v, size as int) + c;
                    if u == x && v == y {
                        if inside {
                            assert(data@[k] == color@[c]);
                        }
                    } else {
                        lemma_pixels_apart(u, v, x as int, y as int, size as int);
                        assert(data@[k] == before[k]);
                    }
                }
            }
            x += 1;
        }
        y += 1;
    }
}

} // verus!
