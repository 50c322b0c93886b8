//! The canvas: a packed pixel buffer with a rotation mode, and the drawing
//! primitives that write into it.

use vstd::prelude::*;
use crate::display::canvas::{
    fill_byte, lemma_plot_all_add, lemma_plot_all_push, Canvas, ROTATE_0, ROTATE_180, ROTATE_270,
    ROTATE_90,
};
use crate::display::shapes::{
    abs, arc_ends_at, arc_inv, arc_measure, arc_next, arc_state, circle_points,
    circle_points_upto, circle_step_points, disc_points_upto, disc_step_points,
    filled_circle_points, filled_rect_points, hline_points, lemma_arc_err_bound, lemma_arc_len,
    glyph_points, glyph_row_points, glyph_rows_points, lemma_arc_start, lemma_arc_step,
    line_points, line_rise, rect_points, rows_points, text_points, vline_points, ArcState,
};
use crate::fonts::Font;
use vstd::string::StrSliceExecFns;
use vstd::arithmetic::div_mod::lemma_fundamental_div_mod_converse;

verus! {

/// The largest coordinate or extent that the wide drawing primitives accept.
pub const REACH: i128 = 0x1_0000_0000_0000_0000_0000;

/// The largest coordinate at which a single pixel can be asked for.
pub const FAR: i128 = 0x1_0000_0000_0000_0000_0000_0000;

/// Whether `v` is a coordinate or an extent that the wide drawing primitives
/// accept. Every `i32` is, and so is every sum of a few of them.
pub open spec fn within_reach(v: int) -> bool {
    -REACH <= v <= REACH
}

/// Whether `v` is a coordinate at which a single pixel can be asked for.
pub open spec fn plottable(v: int) -> bool {
    -FAR <= v <= FAR
}

pub struct Paint {
    image: Vec<u8>,
    width: u32,
    height: u32,
    rotate: u8,
}

impl View for Paint {
    type V = Canvas;

    closed spec fn view(&self) -> Canvas {
        Canvas {
            image: self.image@,
            width: self.width as int,
            height: self.height as int,
            rotate: self.rotate,
        }
    }
}

impl Paint {
    /// A canvas of `width` by `height` pixels that shows the background everywhere.
    pub fn new(width: u32, height: u32) -> (paint: Self)
        requires
            width * height / 8 <= usize::MAX,
        ensures
            paint@ == Canvas::blank(width as int, height as int),
    {
        assert(width * height <= 0xffff_ffff * 0xffff_ffff) by (nonlinear_arith)
            requires
                width <= 0xffff_ffff,
                height <= 0xffff_ffff,
        ;
        let buffer_size = (width as u64 * height as u64 / 8) as usize;
        let image = vec![0xFFu8; buffer_size];
        assert(image@ =~= Canvas::blank(width as int, height as int).image);
        Self { image, width, height, rotate: ROTATE_0 }
    }

    /// A canvas over a buffer that the caller supplies. Nothing is asked of
    /// the buffer's length: pixels whose byte it does not hold are dropped.
    pub fn with_buffer(buffer: Vec<u8>, width: u32, height: u32) -> (paint: Self)
        ensures
            paint@ == (Canvas {
                image: buffer@,
                width: width as int,
                height: height as int,
                rotate: ROTATE_0,
            }),
    {
        Self { image: buffer, width, height, rotate: ROTATE_0 }
    }

    /// Fills the whole buffer with one color.
    pub fn clear(&mut self, colored: bool)
        ensures
            final(self)@ == old(self)@.cleared(colored),
    {
        let fill_value: u8 = if colored {
            0x00
        } else {
            0xFF
        };
        let n = self.image.len();
        let mut i: usize = 0;
        while i < n
            invariant
                i <= n,
                n == self.image@.len(),
                n == old(self).image@.len(),
                self.width == old(self).width,
                self.height == old(self).height,
                self.rotate == old(self).rotate,
                fill_value == fill_byte(colored),
                forall|j: int| 0 <= j < i ==> self.image@[j] == fill_value,
            decreases n - i,
        {
            self.image.set(i, fill_value);
            i += 1;
        }
        assert(self.image@ =~= old(self)@.cleared(colored).image);
    }

    pub fn get_width(&self) -> (width: u32)
        ensures
            width == self@.width,
    {
        self.width
    }

    pub fn get_height(&self) -> (height: u32)
        ensures
            height == self@.height,
    {
        self.height
    }

    pub fn set_rotate(&mut self, rotate: u8)
        ensures
            final(self)@ == old(self)@.turned(rotate),
    {
        self.rotate = rotate;
    }

    pub fn get_rotate(&self) -> (rotate: u8)
        ensures
            rotate == self@.rotate,
    {
        self.rotate
    }

    /// The packed buffer, as the display driver takes it.
    pub fn get_image(&self) -> (image: &[u8])
        ensures
            image@ == self@.image,
    {
        self.image.as_slice()
    }

    /// The dimensions of a canvas are those of a `u32`.
    pub proof fn lemma_dimensions(&self)
        ensures
            0 <= self@.width <= u32::MAX,
            0 <= self@.height <= u32::MAX,
    {
    }

    /// Gives the buffer pixel `(x, y)` the color, if it is addressable.
    fn draw_absolute_pixel(&mut self, x: i128, y: i128, colored: bool)
        ensures
            final(self)@ == (if old(self)@.addressable(x as int, y as int) {
                old(self)@.put(x as int, y as int, colored)
            } else {
                old(self)@
            }),
    {
        if x < 0 || x >= self.width as i128 || y < 0 || y >= self.height as i128 {
            return ;
        }
        let x_pos = x as u64;
        let y_pos = y as u64;
        let stride = (self.width / 8) as u64;
        assert(y_pos * stride <= 0xffff_ffff * 0x1fff_ffff) by (nonlinear_arith)
            requires
                y_pos <= 0xffff_ffff,
                stride <= 0x1fff_ffff,
        ;
        let addr = x_pos / 8 + y_pos * stride;
        if addr >= self.image.len() as u64 {
            return ;
        }
        let at = addr as usize;
        let mask: u8 = 0x80u8 >> ((x_pos % 8) as u8);
        let byte = self.image[at];
        let painted = if colored {
            byte & !mask
        } else {
            byte | mask
        };
        self.image.set(at, painted);
    }

    /// Where the rotation mode sends the drawing coordinate `(x, y)`.
    fn rotate_pixel(&self, x: i128, y: i128) -> (point: (i128, i128))
        requires
            plottable(x as int),
            plottable(y as int),
        ensures
            (point.0 as int, point.1 as int) == self@.rotated(x as int, y as int),
    {
        let (width, height) = (self.width as i128, self.height as i128);
        if self.rotate == ROTATE_90 {
            (width - y - 1, x)
        } else if self.rotate == ROTATE_180 {
            (width - x - 1, height - y - 1)
        } else if self.rotate == ROTATE_270 {
            (y, height - x - 1)
        } else {
            (x, y)
        }
    }

    /// Draws one pixel at a drawing coordinate that need not fit an `i32`.
    pub(crate) fn plot(&mut self, x: i128, y: i128, colored: bool)
        requires
            plottable(x as int),
            plottable(y as int),
        ensures
            final(self)@ == old(self)@.plot(x as int, y as int, colored),
    {
        let point = self.rotate_pixel(x, y);
        self.draw_absolute_pixel(point.0, point.1, colored);
    }

    /// Draws one pixel: the coordinate is rotated, and a pixel that falls
    /// outside the buffer is dropped.
    pub fn draw_pixel(&mut self, x: i32, y: i32, colored: bool)
        ensures
            final(self)@ == old(self)@.plot(x as int, y as int, colored),
    {
        self.plot(x as i128, y as i128, colored);
    }

    /// Draws a horizontal run of pixels whose coordinates need not fit an `i32`.
    pub(crate) fn hline(&mut self, x: i128, y: i128, width: i128, colored: bool)
        requires
            within_reach(x as int),
            within_reach(y as int),
            within_reach(width as int),
        ensures
            final(self)@ == old(self)@.plot_all(
                hline_points(x as int, y as int, width as int),
                colored,
            ),
    {
        let mut i: i128 = 0;
        while i < width
            invariant
                0 <= i,
                i <= width || (width < 0 && i == 0),
                within_reach(x as int),
                within_reach(y as int),
                within_reach(width as int),
                self@ == old(self)@.plot_all(hline_points(x as int, y as int, i as int), colored),
            decreases width - i,
        {
            self.plot(x + i, y, colored);
            proof {
                assert(hline_points(x as int, y as int, i + 1) =~= hline_points(
                    x as int,
                    y as int,
                    i as int,
                ).push((x + i, y as int)));
                lemma_plot_all_push(
                    old(self)@,
                    hline_points(x as int, y as int, i as int),
                    (x + i, y as int),
                    colored,
                );
            }
            i += 1;
        }
        assert(hline_points(x as int, y as int, i as int) =~= hline_points(
            x as int,
            y as int,
            width as int,
        ));
    }

    /// Draws a vertical run of pixels whose coordinates need not fit an `i32`.
    pub(crate) fn vline(&mut self, x: i128, y: i128, height: i128, colored: bool)
        requires
            within_reach(x as int),
            within_reach(y as int),
            within_reach(height as int),
        ensures
            final(self)@ == old(self)@.plot_all(
                vline_points(x as int, y as int, height as int),
                colored,
            ),
    {
        let mut i: i128 = 0;
        while i < height
            invariant
                0 <= i,
                i <= height || (height < 0 && i == 0),
                within_reach(x as int),
                within_reach(y as int),
                within_reach(height as int),
                self@ == old(self)@.plot_all(vline_points(x as int, y as int, i as int), colored),
            decreases height - i,
        {
            self.plot(x, y + i, colored);
            proof {
                assert(vline_points(x as int, y as int, i + 1) =~= vline_points(
                    x as int,
                    y as int,
                    i as int,
                ).push((x as int, y + i)));
                lemma_plot_all_push(
                    old(self)@,
                    vline_points(x as int, y as int, i as int),
                    (x as int, y + i),
                    colored,
                );
            }
            i += 1;
        }
        assert(vline_points(x as int, y as int, i as int) =~= vline_points(
            x as int,
            y as int,
            height as int,
        ));
    }

    /// Draws the outline of a rectangle whose corners need not fit an `i32`.
    pub(crate) fn outline(&mut self, x0: i128, y0: i128, x1: i128, y1: i128, colored: bool)
        requires
            within_reach(4 * x0),
            within_reach(4 * y0),
            within_reach(4 * x1),
            within_reach(4 * y1),
        ensures
            final(self)@ == old(self)@.plot_all(
                rect_points(x0 as int, y0 as int, x1 as int, y1 as int),
                colored,
            ),
    {
        let min_x = if x0 <= x1 {
            x0
        } else {
            x1
        };
        let max_x = if x0 >= x1 {
            x0
        } else {
            x1
        };
        let min_y = if y0 <= y1 {
            y0
        } else {
            y1
        };
        let max_y = if y0 >= y1 {
            y0
        } else {
            y1
        };
        let ghost top = hline_points(min_x as int, min_y as int, max_x - min_x + 1);
        let ghost bottom = hline_points(min_x as int, max_y as int, max_x - min_x + 1);
        let ghost left = vline_points(min_x as int, min_y as int, max_y - min_y + 1);
        let ghost right = vline_points(max_x as int, min_y as int, max_y - min_y + 1);
        self.hline(min_x, min_y, max_x - min_x + 1, colored);
        self.hline(min_x, max_y, max_x - min_x + 1, colored);
        self.vline(min_x, min_y, max_y - min_y + 1, colored);
        self.vline(max_x, min_y, max_y - min_y + 1, colored);
        proof {
            lemma_plot_all_add(old(self)@, top, bottom, colored);
            lemma_plot_all_add(old(self)@, top + bottom, left, colored);
            lemma_plot_all_add(old(self)@, top + bottom + left, right, colored);
        }
    }

    /// Fills a rectangle whose corners need not fit an `i32`.
    pub(crate) fn fill(&mut self, x0: i128, y0: i128, x1: i128, y1: i128, colored: bool)
        requires
            within_reach(4 * x0),
            within_reach(4 * y0),
            within_reach(4 * x1),
            within_reach(4 * y1),
        ensures
            final(self)@ == old(self)@.plot_all(
                filled_rect_points(x0 as int, y0 as int, x1 as int, y1 as int),
                colored,
            ),
    {
        let min_x = if x0 <= x1 {
            x0
        } else {
            x1
        };
        let max_x = if x0 >= x1 {
            x0
        } else {
            x1
        };
        let min_y = if y0 <= y1 {
            y0
        } else {
            y1
        };
        let max_y = if y0 >= y1 {
            y0
        } else {
            y1
        };
        let width = max_x - min_x + 1;
        let rows = max_y - min_y + 1;
        let mut row: i128 = 0;
        while row < rows
            invariant
                0 <= row <= rows,
                within_reach(4 * min_x),
                within_reach(4 * min_y),
                within_reach(width as int),
                within_reach(rows as int),
                within_reach(min_y + rows),
                self@ == old(self)@.plot_all(
                    rows_points(min_x as int, min_y as int, width as int, row as int),
                    colored,
                ),
            decreases rows - row,
        {
            self.hline(min_x, min_y + row, width, colored);
            proof {
                lemma_plot_all_add(
                    old(self)@,
                    rows_points(min_x as int, min_y as int, width as int, row as int),
                    hline_points(min_x as int, min_y + row, width as int),
                    colored,
                );
            }
            row += 1;
        }
    }

    /// Draws `width` pixels to the right of `(x, y)`, starting there.
    pub fn draw_horizontal_line(&mut self, x: i32, y: i32, width: i32, colored: bool)
        ensures
            final(self)@ == old(self)@.plot_all(
                hline_points(x as int, y as int, width as int),
                colored,
            ),
    {
        self.hline(x as i128, y as i128, width as i128, colored);
    }

    /// Draws `height` pixels downwards from `(x, y)`, starting there.
    pub fn draw_vertical_line(&mut self, x: i32, y: i32, height: i32, colored: bool)
        ensures
            final(self)@ == old(self)@.plot_all(
                vline_points(x as int, y as int, height as int),
                colored,
            ),
    {
        self.vline(x as i128, y as i128, height as i128, colored);
    }

    /// Draws the outline of the rectangle with the corners `(x0, y0)` and
    /// `(x1, y1)`, given in any order.
    pub fn draw_rectangle(&mut self, x0: i32, y0: i32, x1: i32, y1: i32, colored: bool)
        ensures
            final(self)@ == old(self)@.plot_all(
                rect_points(x0 as int, y0 as int, x1 as int, y1 as int),
                colored,
            ),
    {
        self.outline(x0 as i128, y0 as i128, x1 as i128, y1 as i128, colored);
    }

    /// Fills the rectangle with the corners `(x0, y0)` and `(x1, y1)`, given
    /// in any order.
    pub fn draw_filled_rectangle(&mut self, x0: i32, y0: i32, x1: i32, y1: i32, colored: bool)
        ensures
            final(self)@ == old(self)@.plot_all(
                filled_rect_points(x0 as int, y0 as int, x1 as int, y1 as int),
                colored,
            ),
    {
        self.fill(x0 as i128, y0 as i128, x1 as i128, y1 as i128, colored);
    }

    /// Draws the line from `(x0, y0)` to `(x1, y1)`, one pixel for each step
    /// along the axis on which the line is longer.
    pub fn draw_line(&mut self, x0: i32, y0: i32, x1: i32, y1: i32, colored: bool)
        ensures
            final(self)@ == old(self)@.plot_all(
                line_points(x0 as int, y0 as int, x1 as int, y1 as int),
                colored,
            ),
    {
        let rise_y = if y1 >= y0 {
            y1 as i128 - y0 as i128
        } else {
            y0 as i128 - y1 as i128
        };
        let rise_x = if x1 >= x0 {
            x1 as i128 - x0 as i128
        } else {
            x0 as i128 - x1 as i128
        };
        // A steep line is walked along y: its coordinates are transposed.
        let steep = rise_y > rise_x;
        let (u0, v0, u1, v1) = if steep {
            (y0 as i128, x0 as i128, y1 as i128, x1 as i128)
        } else {
            (x0 as i128, y0 as i128, x1 as i128, y1 as i128)
        };
        // The walk goes from the smaller major coordinate to the larger one.
        let (a0, b0, a1, b1) = if u0 > u1 {
            (u1, v1, u0, v0)
        } else {
            (u0, v0, u1, v1)
        };
        let dx = a1 - a0;
        let dy = if b1 >= b0 {
            b1 - b0
        } else {
            b0 - b1
        };
        let upwards = b0 < b1;
        let mut err = dx / 2;
        let mut y = b0;
        let mut x = a0;
        let ghost points = line_points(x0 as int, y0 as int, x1 as int, y1 as int);
        let ghost mut steps: int = 0;
        let ghost mut steps_dy: int = 0;
        let ghost mut rose: int = 0;
        let ghost mut rose_dx: int = 0;
        assert(points.len() == dx + 1);
        assert(points.take(0) =~= Seq::<(int, int)>::empty());
        while x <= a1
            invariant
                points == line_points(x0 as int, y0 as int, x1 as int, y1 as int),
                points.len() == dx + 1,
                steep == (abs(y1 - y0) > abs(x1 - x0)),
                (a0 as int, b0 as int, a1 as int, b1 as int) == (if steep {
                    if y0 > y1 {
                        (y1 as int, x1 as int, y0 as int, x0 as int)
                    } else {
                        (y0 as int, x0 as int, y1 as int, x1 as int)
                    }
                } else {
                    if x0 > x1 {
                        (x1 as int, y1 as int, x0 as int, y0 as int)
                    } else {
                        (x0 as int, y0 as int, x1 as int, y1 as int)
                    }
                }),
                dx == a1 - a0,
                dy == abs(b1 - b0),
                0 <= dy <= dx,
                upwards == (b0 < b1),
                x == a0 + steps,
                0 <= steps <= dx + 1,
                0 <= rose <= steps,
                y == (if upwards {
                    b0 + rose
                } else {
                    b0 - rose
                }),
                steps_dy == steps * dy,
                rose_dx == rose * dx,
                err + steps_dy == dx / 2 + rose_dx,
                dx > 0 ==> 0 <= err < dx,
                dx == 0 ==> err == 0,
                self@ == old(self)@.plot_all(points.take(steps), colored),
            decreases a1 - x + 1,
        {
            proof {
                if dx > 0 {
                    lemma_fundamental_div_mod_converse(
                        steps * dy + (dx - 1 - dx / 2),
                        dx as int,
                        rose,
                        dx - 1 - err,
                    );
                }
                assert(rose == line_rise(dx as int, dy as int, steps));
                assert(points[steps] == (if steep {
                    (y as int, x as int)
                } else {
                    (x as int, y as int)
                }));
                assert(points.take(steps + 1) =~= points.take(steps).push(points[steps]));
                lemma_plot_all_push(old(self)@, points.take(steps), points[steps], colored);
            }
            if steep {
                self.plot(y, x, colored);
            } else {
                self.plot(x, y, colored);
            }
            err -= dy;
            proof {
                assert((steps + 1) * dy == steps * dy + dy) by (nonlinear_arith);
                steps = steps + 1;
                steps_dy = steps_dy + dy;
            }
            if err < 0 {
                if upwards {
                    y += 1;
                } else {
                    y -= 1;
                }
                err += dx;
                proof {
                    assert((rose + 1) * dx == rose * dx + dx) by (nonlinear_arith);
                    rose = rose + 1;
                    rose_dx = rose_dx + dx;
                }
            }
            x += 1;
        }
        assert(points.take(steps) =~= points);
    }

    /// Draws the outline of the circle around `(x, y)`: a walk along one
    /// quadrant, each of its points mirrored into the other three.
    pub fn draw_circle(&mut self, x: i32, y: i32, radius: i32, colored: bool)
        ensures
            final(self)@ == old(self)@.plot_all(
                circle_points(x as int, y as int, radius as int),
                colored,
            ),
    {
        let cx = x as i128;
        let cy = y as i128;
        let r = radius as i128;
        let mut x_pos: i128 = -r;
        let mut y_pos: i128 = 0;
        let mut err: i128 = 2 - 2 * r;
        let ghost mut k: nat = 0;
        proof {
            lemma_arc_start(r as int);
        }
        loop
            invariant_except_break
                x_pos <= 0 || k == 0,
            invariant
                cx == x,
                cy == y,
                r == radius,
                (ArcState { x: x_pos as int, y: y_pos as int, err: err as int }) == arc_state(
                    r as int,
                    k,
                ),
                arc_inv(r as int, arc_state(r as int, k)),
                forall|j: nat| 1 <= j < k ==> (#[trigger] arc_state(r as int, j)).x <= 0,
                self@ == old(self)@.plot_all(
                    circle_points_upto(cx as int, cy as int, r as int, k),
                    colored,
                ),
            ensures
                arc_ends_at(r as int, k),
            decreases arc_measure(r as int, arc_state(r as int, k)),
        {
            let ghost state = arc_state(r as int, k);
            proof {
                lemma_arc_step(r as int, state);
                lemma_arc_err_bound(r as int, state);
                lemma_arc_err_bound(r as int, arc_next(state));
                assert(arc_state(r as int, k + 1) == arc_next(state));
            }
            let ghost before = self@;
            self.plot(cx - x_pos, cy + y_pos, colored);
            self.plot(cx + x_pos, cy + y_pos, colored);
            self.plot(cx + x_pos, cy - y_pos, colored);
            self.plot(cx - x_pos, cy - y_pos, colored);
            proof {
                let four = circle_step_points(cx as int, cy as int, state);
                let empty = Seq::<(int, int)>::empty();
                assert(four =~= empty.push(four[0]).push(four[1]).push(four[2]).push(four[3]));
                lemma_plot_all_push(before, empty, four[0], colored);
                lemma_plot_all_push(before, empty.push(four[0]), four[1], colored);
                lemma_plot_all_push(before, empty.push(four[0]).push(four[1]), four[2], colored);
                lemma_plot_all_push(
                    before,
                    empty.push(four[0]).push(four[1]).push(four[2]),
                    four[3],
                    colored,
                );
                lemma_plot_all_add(
                    old(self)@,
                    circle_points_upto(cx as int, cy as int, r as int, k),
                    four,
                    colored,
                );
            }
            let radius_err = err;
            if radius_err <= y_pos {
                y_pos += 1;
                err += y_pos * 2 + 1;
            }
            if radius_err > x_pos || err > y_pos {
                x_pos += 1;
                err += x_pos * 2 + 1;
            }
            proof {
                k = k + 1;
            }
            if x_pos > 0 {
                break ;
            }
        }
        proof {
            lemma_arc_len(r as int, k);
        }
    }

    /// Fills the circle around `(x, y)`: a walk along one quadrant, each of
    /// its points giving one horizontal span above the centre and one below.
    /// Nothing is drawn for a negative radius.
    pub fn draw_filled_circle(&mut self, x: i32, y: i32, radius: i32, colored: bool)
        ensures
            final(self)@ == old(self)@.plot_all(
                filled_circle_points(x as int, y as int, radius as int),
                colored,
            ),
    {
        let cx = x as i128;
        let cy = y as i128;
        let r = radius as i128;
        let mut x_pos: i128 = -r;
        let mut y_pos: i128 = 0;
        let mut err: i128 = 2 - 2 * r;
        let ghost mut k: nat = 0;
        proof {
            lemma_arc_start(r as int);
        }
        while x_pos <= 0
            invariant
                cx == x,
                cy == y,
                r == radius,
                (ArcState { x: x_pos as int, y: y_pos as int, err: err as int }) == arc_state(
                    r as int,
                    k,
                ),
                arc_inv(r as int, arc_state(r as int, k)),
                forall|j: nat| 1 <= j < k ==> (#[trigger] arc_state(r as int, j)).x <= 0,
                k == 0 || r >= 0,
                self@ == old(self)@.plot_all(
                    disc_points_upto(cx as int, cy as int, r as int, k),
                    colored,
                ),
            decreases arc_measure(r as int, arc_state(r as int, k)),
        {
            let ghost state = arc_state(r as int, k);
            proof {
                lemma_arc_step(r as int, state);
                lemma_arc_err_bound(r as int, state);
                lemma_arc_err_bound(r as int, arc_next(state));
                assert(arc_state(r as int, k + 1) == arc_next(state));
            }
            let ghost before = self@;
            self.hline(cx + x_pos, cy - y_pos, -2 * x_pos + 1, colored);
            self.hline(cx + x_pos, cy + y_pos, -2 * x_pos + 1, colored);
            proof {
                lemma_plot_all_add(
                    before,
                    hline_points(cx + x_pos, cy - y_pos, -2 * x_pos + 1),
                    hline_points(cx + x_pos, cy + y_pos, -2 * x_pos + 1),
                    colored,
                );
                lemma_plot_all_add(
                    old(self)@,
                    disc_points_upto(cx as int, cy as int, r as int, k),
                    disc_step_points(cx as int, cy as int, state),
                    colored,
                );
            }
            let radius_err = err;
            if radius_err <= y_pos {
                y_pos += 1;
                err += y_pos * 2 + 1;
            }
            if radius_err > x_pos || err > y_pos {
                x_pos += 1;
                err += x_pos * 2 + 1;
            }
            proof {
                k = k + 1;
            }
        }
        proof {
            if r >= 0 {
                lemma_arc_len(r as int, k);
            }
        }
    }

    /// Draws the glyph of `c` with its top left corner at a coordinate that
    /// need not fit an `i32`.
    pub(crate) fn blit_char(&mut self, x: i128, y: i128, c: char, font: &Font, colored: bool)
        requires
            within_reach(x as int),
            within_reach(y as int),
        ensures
            final(self)@ == old(self)@.plot_all(
                glyph_points(*font, c, x as int, y as int),
                colored,
            ),
    {
        if !font.has_char(c) {
            return ;
        }
        let char_offset = font.get_char_offset(c);
        let char_width = font.width;
        let char_height = font.height;
        let mut row: u8 = 0;
        while row < char_height
            invariant
                row <= char_height,
                char_width == font.width,
                char_height == font.height,
                char_offset == font.glyph_offset(c),
                char_offset <= 94 * 255,
                within_reach(x as int),
                within_reach(y as int),
                self@ == old(self)@.plot_all(
                    glyph_rows_points(*font, c, x as int, y as int, row as int),
                    colored,
                ),
            decreases char_height - row,
        {
            let ghost above = glyph_rows_points(*font, c, x as int, y as int, row as int);
            let char_data = font.get_data_at(char_offset + row as usize);
            let mut col: u8 = 0;
            while col < char_width
                invariant
                    col <= char_width,
                    row < char_height,
                    char_width == font.width,
                    char_data == font.byte_at(font.glyph_offset(c) + row),
                    within_reach(x as int),
                    within_reach(y as int),
                    self@ == old(self)@.plot_all(
                        above + glyph_row_points(
                            *font,
                            c,
                            x as int,
                            y as int,
                            row as int,
                            col as int,
                        ),
                        colored,
                    ),
                decreases char_width - col,
            {
                let ghost so_far = glyph_row_points(
                    *font,
                    c,
                    x as int,
                    y as int,
                    row as int,
                    col as int,
                );
                let pixel_colored = col < 8 && (char_data & (0x80u8 >> col)) != 0;
                if pixel_colored {
                    self.plot(x + col as i128, y + row as i128, colored);
                    proof {
                        assert(above + so_far.push((x + col, y + row)) =~= (above + so_far).push(
                            (x + col, y + row),
                        ));
                        lemma_plot_all_push(
                            old(self)@,
                            above + so_far,
                            (x + col, y + row),
                            colored,
                        );
                    }
                }
                col += 1;
            }
            row += 1;
        }
    }

    /// Writes `text` from a coordinate that need not fit an `i32`, one glyph
    /// width per character.
    pub(crate) fn blit_text(&mut self, x: i128, y: i128, text: &str, font: &Font, colored: bool)
        requires
            within_reach(4 * x),
            within_reach(y as int),
        ensures
            final(self)@ == old(self)@.plot_all(
                text_points(*font, text@, x as int, y as int),
                colored,
            ),
    {
        // The cursor stays in reach because the number of characters fits a `usize`.
        let count = text.unicode_len();
        let char_width = font.width as i128;
        let mut cursor_x = x;
        assert(text@.take(0) =~= Seq::<char>::empty());
        for c in it: text.chars()
            invariant
                it.seq() == text@,
                count == text@.len(),
                char_width == font.width,
                cursor_x == x + it.index() * char_width,
                within_reach(4 * x),
                within_reach(y as int),
                self@ == old(self)@.plot_all(
                    text_points(*font, text@.take(it.index()), x as int, y as int),
                    colored,
                ),
        {
            let ghost i = it.index();
            proof {
                assert(0 <= i * char_width <= count * 255) by (nonlinear_arith)
                    requires
                        0 <= i < count,
                        0 <= char_width <= 255,
                ;
                assert((i + 1) * char_width == i * char_width + char_width) by (nonlinear_arith);
                assert(text@.take(i + 1).drop_last() =~= text@.take(i));
                assert(text@.take(i + 1).last() == c);
                lemma_plot_all_add(
                    old(self)@,
                    text_points(*font, text@.take(i), x as int, y as int),
                    glyph_points(*font, c, cursor_x as int, y as int),
                    colored,
                );
            }
            self.blit_char(cursor_x, y, c, font, colored);
            cursor_x += char_width;
        }
        assert(text@.take(text@.len() as int) =~= text@);
    }

    /// Draws the glyph of `ascii_char` with its top left corner at `(x, y)`.
    /// Nothing is drawn for a character the font has no glyph for.
    pub fn draw_char_at(&mut self, x: i32, y: i32, ascii_char: char, font: &Font, colored: bool)
        ensures
            final(self)@ == old(self)@.plot_all(
                glyph_points(*font, ascii_char, x as int, y as int),
                colored,
            ),
    {
        self.blit_char(x as i128, y as i128, ascii_char, font, colored);
    }

    /// Writes `text` from `(x, y)` to the right. The cursor moves on by one
    /// glyph width for every character, whether the font has a glyph for it or
    /// not; there is no kerning and no line wrapping.
    pub fn draw_string_at(&mut self, x: i32, y: i32, text: &str, font: &Font, colored: bool)
        ensures
            final(self)@ == old(self)@.plot_all(
                text_points(*font, text@, x as int, y as int),
                colored,
            ),
    {
        self.blit_text(x as i128, y as i128, text, font, colored);
    }
}

} // verus!
