//! The mathematical model of the packed pixel canvas.
//!
//! A canvas is a row-major byte sequence, one bit per pixel, the most
//! significant bit of a byte being its leftmost pixel. A cleared bit is a
//! foreground ("colored") pixel, a set bit a background pixel. The rotation
//! mode maps drawing coordinates to buffer coordinates before a pixel is
//! packed; it never changes the buffer's dimensions.

use vstd::prelude::*;

verus! {

pub const ROTATE_0: u8 = 0;

pub const ROTATE_90: u8 = 1;

pub const ROTATE_180: u8 = 2;

pub const ROTATE_270: u8 = 3;

pub const COLORED: bool = true;

pub const UNCOLORED: bool = false;

/// Where the rotation mode `mode` sends the drawing coordinate `(x, y)` on a
/// buffer of `width` by `height` pixels. A mode other than the four known ones
/// leaves the coordinate as it is.
pub open spec fn rotate_point(mode: u8, width: int, height: int, x: int, y: int) -> (int, int) {
    if mode == ROTATE_90 {
        (width - y - 1, x)
    } else if mode == ROTATE_180 {
        (width - x - 1, height - y - 1)
    } else if mode == ROTATE_270 {
        (y, height - x - 1)
    } else {
        (x, y)
    }
}

/// The bit of its byte that holds the pixel in buffer column `px`.
pub open spec fn bit_mask(px: int) -> u8 {
    0x80u8 >> ((px % 8) as u8)
}

/// The byte that fills a buffer of one color.
pub open spec fn fill_byte(colored: bool) -> u8 {
    if colored {
        0x00
    } else {
        0xFF
    }
}

/// `byte` with the pixel under `mask` given the color.
pub open spec fn painted_byte(byte: u8, mask: u8, colored: bool) -> u8 {
    if colored {
        byte & !mask
    } else {
        byte | mask
    }
}

/// The state of a canvas: its packed buffer, its dimensions in pixels and its
/// rotation mode.
pub struct Canvas {
    pub image: Seq<u8>,
    pub width: int,
    pub height: int,
    pub rotate: u8,
}

impl Canvas {
    /// The all-background canvas of the given dimensions.
    pub open spec fn blank(width: int, height: int) -> Canvas {
        Canvas {
            image: Seq::new((width * height / 8) as nat, |i: int| 0xFFu8),
            width,
            height,
            rotate: ROTATE_0,
        }
    }

    /// The buffer has one bit for each pixel and rows start on byte boundaries.
    pub open spec fn well_formed(self) -> bool {
        &&& 0 <= self.width
        &&& 0 <= self.height
        &&& self.width % 8 == 0
        &&& self.image.len() == self.width * self.height / 8
    }

    /// Where the rotation mode sends the drawing coordinate `(x, y)`.
    pub open spec fn rotated(self, x: int, y: int) -> (int, int) {
        rotate_point(self.rotate, self.width, self.height, x, y)
    }

    pub open spec fn in_bounds(self, px: int, py: int) -> bool {
        0 <= px < self.width && 0 <= py < self.height
    }

    /// The index of the byte that holds the buffer pixel `(px, py)`.
    pub open spec fn addr(self, px: int, py: int) -> int {
        px / 8 + py * (self.width / 8)
    }

    /// Whether the buffer pixel `(px, py)` lies inside the dimensions and its
    /// byte inside the buffer.
    pub open spec fn addressable(self, px: int, py: int) -> bool {
        self.in_bounds(px, py) && self.addr(px, py) < self.image.len()
    }

    /// The canvas with the buffer pixel `(px, py)` given the color.
    pub open spec fn put(self, px: int, py: int, colored: bool) -> Canvas {
        let at = self.addr(px, py);
        Canvas {
            image: self.image.update(at, painted_byte(self.image[at], bit_mask(px), colored)),
            ..self
        }
    }

    /// The canvas after one pixel is drawn at the drawing coordinate `(x, y)`:
    /// the coordinate is rotated, and a pixel that is not addressable is dropped.
    pub open spec fn plot(self, x: int, y: int, colored: bool) -> Canvas {
        let (px, py) = self.rotated(x, y);
        if self.addressable(px, py) {
            self.put(px, py, colored)
        } else {
            self
        }
    }

    /// The canvas after the pixels at `points` are drawn one after the other.
    pub open spec fn plot_all(self, points: Seq<(int, int)>, colored: bool) -> Canvas
        decreases points.len(),
    {
        if points.len() == 0 {
            self
        } else {
            let last = points.last();
            self.plot_all(points.drop_last(), colored).plot(last.0, last.1, colored)
        }
    }

    /// Whether the buffer pixel `(px, py)` shows the foreground color.
    pub open spec fn is_colored(self, px: int, py: int) -> bool {
        self.image[self.addr(px, py)] & bit_mask(px) == 0
    }

    /// The canvas with every byte of the buffer set to the fill byte of the color.
    pub open spec fn cleared(self, colored: bool) -> Canvas {
        Canvas {
            image: Seq::new(self.image.len(), |i: int| fill_byte(colored)),
            ..self
        }
    }

    /// The canvas with another rotation mode.
    pub open spec fn turned(self, rotate: u8) -> Canvas {
        Canvas { rotate, ..self }
    }
}

/// Setting or clearing a bit shows when the bit is read back.
pub proof fn lemma_painted_bit(byte: u8, shift: u8, colored: bool)
    requires
        shift < 8,
    ensures
        (painted_byte(byte, 0x80u8 >> shift, colored) & (0x80u8 >> shift) == 0) == colored,
{
    assert((byte & !(0x80u8 >> shift)) & (0x80u8 >> shift) == 0) by (bit_vector)
        requires
            shift < 8,
    ;
    assert((byte | (0x80u8 >> shift)) & (0x80u8 >> shift) != 0) by (bit_vector)
        requires
            shift < 8,
    ;
}

/// Setting or clearing a bit leaves the other bits of the byte alone.
pub proof fn lemma_painted_other_bit(byte: u8, shift: u8, other: u8, colored: bool)
    requires
        shift < 8,
        other < 8,
        shift != other,
    ensures
        painted_byte(byte, 0x80u8 >> shift, colored) & (0x80u8 >> other) == byte & (0x80u8
            >> other),
{
    assert((byte & !(0x80u8 >> shift)) & (0x80u8 >> other) == byte & (0x80u8 >> other))
        by (bit_vector)
        requires
            shift < 8,
            other < 8,
            shift != other,
    ;
    assert((byte | (0x80u8 >> shift)) & (0x80u8 >> other) == byte & (0x80u8 >> other))
        by (bit_vector)
        requires
            shift < 8,
            other < 8,
            shift != other,
    ;
}

/// On a well-formed canvas every pixel inside the dimensions has its byte in
/// the buffer.
pub proof fn lemma_in_bounds_addressable(canvas: Canvas, px: int, py: int)
    requires
        canvas.well_formed(),
        canvas.in_bounds(px, py),
    ensures
        0 <= canvas.addr(px, py) < canvas.image.len(),
        canvas.addressable(px, py),
{
    let stride = canvas.width / 8;
    assert(canvas.width == 8 * stride);
    assert(0 <= px / 8 < stride);
    assert(py * stride <= (canvas.height - 1) * stride) by (nonlinear_arith)
        requires
            py <= canvas.height - 1,
            0 <= stride,
    ;
    assert(0 <= py * stride) by (nonlinear_arith)
        requires
            0 <= py,
            0 <= stride,
    ;
    assert((canvas.height - 1) * stride == canvas.height * stride - stride)
        by (nonlinear_arith);
    assert(canvas.width * canvas.height == 8 * (canvas.height * stride)) by (nonlinear_arith)
        requires
            canvas.width == 8 * stride,
    ;
    assert(canvas.width * canvas.height / 8 == canvas.height * stride);
}

/// On a well-formed canvas two pixels inside the dimensions that share a byte
/// and a bit are the same pixel.
pub proof fn lemma_pixels_apart(canvas: Canvas, px: int, py: int, qx: int, qy: int)
    requires
        canvas.well_formed(),
        canvas.in_bounds(px, py),
        canvas.in_bounds(qx, qy),
        canvas.addr(px, py) == canvas.addr(qx, qy),
        px % 8 == qx % 8,
    ensures
        px == qx,
        py == qy,
{
    let stride = canvas.width / 8;
    assert(canvas.width == 8 * stride);
    assert(0 <= px / 8 < stride);
    assert(0 <= qx / 8 < stride);
    assert(py == qy) by (nonlinear_arith)
        requires
            px / 8 + py * stride == qx / 8 + qy * stride,
            0 <= px / 8 < stride,
            0 <= qx / 8 < stride,
    {
        if py < qy {
            assert((qy - py) * stride >= stride);
        } else if qy < py {
            assert((py - qy) * stride >= stride);
        }
    }
    assert(px / 8 == qx / 8);
}

/// A pixel drawn inside the dimensions of a well-formed canvas reads back with
/// the color it was drawn in, whatever the rotation mode.
pub proof fn lemma_plot_sets_pixel(canvas: Canvas, x: int, y: int, colored: bool)
    requires
        canvas.well_formed(),
        canvas.in_bounds(canvas.rotated(x, y).0, canvas.rotated(x, y).1),
    ensures
        canvas.plot(x, y, colored).is_colored(canvas.rotated(x, y).0, canvas.rotated(x, y).1)
            == colored,
{
    let (px, py) = canvas.rotated(x, y);
    lemma_in_bounds_addressable(canvas, px, py);
    lemma_painted_bit(canvas.image[canvas.addr(px, py)], (px % 8) as u8, colored);
}

/// A pixel drawn outside the dimensions leaves the canvas as it was.
pub proof fn lemma_plot_outside(canvas: Canvas, x: int, y: int, colored: bool)
    requires
        !canvas.in_bounds(canvas.rotated(x, y).0, canvas.rotated(x, y).1),
    ensures
        canvas.plot(x, y, colored) == canvas,
{
}

/// Drawing a pixel on a well-formed canvas changes no other pixel.
pub proof fn lemma_plot_keeps_other_pixels(
    canvas: Canvas,
    x: int,
    y: int,
    colored: bool,
    qx: int,
    qy: int,
)
    requires
        canvas.well_formed(),
        canvas.in_bounds(qx, qy),
        canvas.rotated(x, y) != (qx, qy),
    ensures
        canvas.plot(x, y, colored).is_colored(qx, qy) == canvas.is_colored(qx, qy),
{
    let (px, py) = canvas.rotated(x, y);
    if canvas.addressable(px, py) {
        lemma_in_bounds_addressable(canvas, qx, qy);
        if canvas.addr(px, py) == canvas.addr(qx, qy) {
            if px % 8 == qx % 8 {
                lemma_pixels_apart(canvas, px, py, qx, qy);
            }
            lemma_painted_other_bit(
                canvas.image[canvas.addr(px, py)],
                (px % 8) as u8,
                (qx % 8) as u8,
                colored,
            );
        }
    }
}

/// Drawing pixels changes neither the dimensions, nor the rotation mode, nor
/// the length of the buffer.
pub proof fn lemma_plot_all_keeps_shape(canvas: Canvas, points: Seq<(int, int)>, colored: bool)
    ensures
        canvas.plot_all(points, colored).width == canvas.width,
        canvas.plot_all(points, colored).height == canvas.height,
        canvas.plot_all(points, colored).rotate == canvas.rotate,
        canvas.plot_all(points, colored).image.len() == canvas.image.len(),
        canvas.well_formed() ==> canvas.plot_all(points, colored).well_formed(),
    decreases points.len(),
{
    if points.len() > 0 {
        lemma_plot_all_keeps_shape(canvas, points.drop_last(), colored);
    }
}

/// Drawing no pixel leaves the canvas as it was.
pub proof fn lemma_plot_all_none(canvas: Canvas, colored: bool)
    ensures
        canvas.plot_all(Seq::empty(), colored) == canvas,
{
}

/// Drawing the pixels of `points.push(p)` is drawing those of `points` and then `p`.
pub proof fn lemma_plot_all_push(canvas: Canvas, points: Seq<(int, int)>, p: (int, int), colored: bool)
    ensures
        canvas.plot_all(points.push(p), colored) == canvas.plot_all(points, colored).plot(
            p.0,
            p.1,
            colored,
        ),
{
    assert(points.push(p).drop_last() =~= points);
}

/// Drawing the pixels of two sequences joined is drawing the first and then
/// the second.
pub proof fn lemma_plot_all_add(
    canvas: Canvas,
    first: Seq<(int, int)>,
    second: Seq<(int, int)>,
    colored: bool,
)
    ensures
        canvas.plot_all(first + second, colored) == canvas.plot_all(first, colored).plot_all(
            second,
            colored,
        ),
    decreases second.len(),
{
    if second.len() == 0 {
        assert(first + second =~= first);
    } else {
        lemma_plot_all_add(canvas, first, second.drop_last(), colored);
        assert((first + second).drop_last() =~= first + second.drop_last());
    }
}

/// What a buffer pixel of a well-formed canvas shows after the pixels at
/// `points` were drawn: the drawing color where one of them landed on it, and
/// what it showed before elsewhere.
pub proof fn lemma_plot_all_pixel(
    canvas: Canvas,
    points: Seq<(int, int)>,
    colored: bool,
    qx: int,
    qy: int,
)
    requires
        canvas.well_formed(),
        canvas.in_bounds(qx, qy),
    ensures
        canvas.plot_all(points, colored).is_colored(qx, qy) == (if exists|i: int|
            0 <= i < points.len() && canvas.rotated(points[i].0, points[i].1) == (qx, qy) {
            colored
        } else {
            canvas.is_colored(qx, qy)
        }),
    decreases points.len(),
{
    let hit = |pts: Seq<(int, int)>|
        exists|i: int| 0 <= i < pts.len() && canvas.rotated(pts[i].0, pts[i].1) == (qx, qy);
    if points.len() > 0 {
        let before = points.drop_last();
        let last = points.last();
        let mid = canvas.plot_all(before, colored);
        lemma_plot_all_pixel(canvas, before, colored, qx, qy);
        lemma_plot_all_keeps_shape(canvas, before, colored);
        assert(mid.rotated(last.0, last.1) == canvas.rotated(last.0, last.1));
        if canvas.rotated(last.0, last.1) == (qx, qy) {
            lemma_plot_sets_pixel(mid, last.0, last.1, colored);
            assert(0 <= points.len() - 1 < points.len() && canvas.rotated(
                points[points.len() - 1].0,
                points[points.len() - 1].1,
            ) == (qx, qy));
            assert(hit(points));
        } else {
            lemma_plot_keeps_other_pixels(mid, last.0, last.1, colored, qx, qy);
            if hit(before) {
                let i = choose|i: int|
                    0 <= i < before.len() && canvas.rotated(before[i].0, before[i].1) == (qx, qy);
                assert(points[i] == before[i]);
                assert(hit(points));
            } else {
                if hit(points) {
                    let i = choose|i: int|
                        0 <= i < points.len() && canvas.rotated(points[i].0, points[i].1) == (
                            qx,
                            qy,
                        );
                    assert(i < before.len());
                    assert(points[i] == before[i]);
                    assert(false);
                }
            }
        }
    }
}

/// A rotation mode sends no two drawing coordinates to the same place.
pub proof fn lemma_rotation_one_to_one(
    mode: u8,
    width: int,
    height: int,
    a: (int, int),
    b: (int, int),
)
    requires
        rotate_point(mode, width, height, a.0, a.1) == rotate_point(mode, width, height, b.0, b.1),
    ensures
        a == b,
{
}

/// What the pixel at the drawing coordinate `(x, y)` of a well-formed canvas
/// shows after the pixels at `points` were drawn, if it lies inside the
/// dimensions: the drawing color where `(x, y)` is one of the points, and
/// what it showed before where it is none.
pub proof fn lemma_plot_all_drawn(
    canvas: Canvas,
    points: Seq<(int, int)>,
    colored: bool,
    x: int,
    y: int,
)
    requires
        canvas.well_formed(),
        canvas.in_bounds(canvas.rotated(x, y).0, canvas.rotated(x, y).1),
    ensures
        canvas.plot_all(points, colored).is_colored(canvas.rotated(x, y).0, canvas.rotated(x, y).1)
            == (if points.contains((x, y)) {
            colored
        } else {
            canvas.is_colored(canvas.rotated(x, y).0, canvas.rotated(x, y).1)
        }),
{
    let (qx, qy) = canvas.rotated(x, y);
    lemma_plot_all_pixel(canvas, points, colored, qx, qy);
    if points.contains((x, y)) {
        let i = choose|i: int| 0 <= i < points.len() && points[i] == (x, y);
        assert(canvas.rotated(points[i].0, points[i].1) == (qx, qy));
    }
    if exists|i: int|
        0 <= i < points.len() && canvas.rotated(points[i].0, points[i].1) == (qx, qy) {
        let i = choose|i: int|
            0 <= i < points.len() && canvas.rotated(points[i].0, points[i].1) == (qx, qy);
        lemma_rotation_one_to_one(canvas.rotate, canvas.width, canvas.height, points[i], (x, y));
        assert(points[i] == (x, y));
    }
}

/// Four quarter turns bring a coordinate back to where it was.
pub proof fn lemma_four_quarter_turns(width: int, height: int, x: int, y: int)
    ensures
        ({
            let a = rotate_point(ROTATE_90, width, height, x, y);
            let b = rotate_point(ROTATE_90, width, height, a.0, a.1);
            let c = rotate_point(ROTATE_90, width, height, b.0, b.1);
            rotate_point(ROTATE_90, width, height, c.0, c.1)
        }) == (x, y),
{
}

/// On a square buffer a three-quarter turn followed by a quarter turn brings a
/// coordinate back to where it was.
pub proof fn lemma_three_quarter_then_quarter_turn(side: int, x: int, y: int)
    ensures
        ({
            let a = rotate_point(ROTATE_270, side, side, x, y);
            rotate_point(ROTATE_90, side, side, a.0, a.1)
        }) == (x, y),
{
}

/// Two half turns bring a coordinate back to where it was.
pub proof fn lemma_two_half_turns(width: int, height: int, x: int, y: int)
    ensures
        ({
            let a = rotate_point(ROTATE_180, width, height, x, y);
            rotate_point(ROTATE_180, width, height, a.0, a.1)
        }) == (x, y),
{
}

/// Clearing to the foreground and then to the background gives the buffer
/// that clearing to the background alone gives, clearing it once more changes
/// nothing, and on a canvas whose buffer has one bit per pixel that buffer is
/// the one of a blank canvas of the same dimensions.
pub proof fn lemma_clear_twice(canvas: Canvas)
    ensures
        canvas.cleared(COLORED).cleared(UNCOLORED) == canvas.cleared(UNCOLORED),
        canvas.cleared(UNCOLORED).cleared(UNCOLORED) == canvas.cleared(UNCOLORED),
        canvas.image.len() == canvas.width * canvas.height / 8 ==> canvas.cleared(COLORED).cleared(
            UNCOLORED,
        ).image == Canvas::blank(canvas.width, canvas.height).image,
{
    assert(canvas.cleared(COLORED).cleared(UNCOLORED).image =~= canvas.cleared(UNCOLORED).image);
    assert(canvas.cleared(UNCOLORED).cleared(UNCOLORED).image =~= canvas.cleared(
        UNCOLORED,
    ).image);
    if canvas.image.len() == canvas.width * canvas.height / 8 {
        assert(canvas.cleared(COLORED).cleared(UNCOLORED).image =~= Canvas::blank(
            canvas.width,
            canvas.height,
        ).image);
    }
}

} // verus!
