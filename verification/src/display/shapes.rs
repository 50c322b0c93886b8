//! The pixels of each shape, in the order in which they are drawn.

use vstd::prelude::*;
use crate::fonts::Font;
use vstd::arithmetic::div_mod::lemma_fundamental_div_mod_converse;

verus! {

pub open spec fn abs(v: int) -> int {
    if v < 0 {
        -v
    } else {
        v
    }
}

pub open spec fn min(a: int, b: int) -> int {
    if a <= b {
        a
    } else {
        b
    }
}

pub open spec fn max(a: int, b: int) -> int {
    if a >= b {
        a
    } else {
        b
    }
}

/// `width` pixels to the right of `(x, y)`, starting there; none for a width
/// that is not positive.
pub open spec fn hline_points(x: int, y: int, width: int) -> Seq<(int, int)> {
    Seq::new(max(width, 0) as nat, |i: int| (x + i, y))
}

/// `height` pixels downwards from `(x, y)`, starting there; none for a height
/// that is not positive.
pub open spec fn vline_points(x: int, y: int, height: int) -> Seq<(int, int)> {
    Seq::new(max(height, 0) as nat, |i: int| (x, y + i))
}

/// The outline of the rectangle with the corners `(x0, y0)` and `(x1, y1)`,
/// given in any order: top edge, bottom edge, left edge, right edge.
pub open spec fn rect_points(x0: int, y0: int, x1: int, y1: int) -> Seq<(int, int)> {
    let left = min(x0, x1);
    let right = max(x0, x1);
    let top = min(y0, y1);
    let bottom = max(y0, y1);
    hline_points(left, top, right - left + 1) + hline_points(left, bottom, right - left + 1)
        + vline_points(left, top, bottom - top + 1) + vline_points(right, top, bottom - top + 1)
}

/// The first `rows` rows of `width` pixels each below and to the right of `(x, y)`.
pub open spec fn rows_points(x: int, y: int, width: int, rows: int) -> Seq<(int, int)>
    decreases rows,
{
    if rows <= 0 {
        Seq::empty()
    } else {
        rows_points(x, y, width, rows - 1) + hline_points(x, y + rows - 1, width)
    }
}

/// Every pixel of the rectangle with the corners `(x0, y0)` and `(x1, y1)`,
/// given in any order, row by row.
pub open spec fn filled_rect_points(x0: int, y0: int, x1: int, y1: int) -> Seq<(int, int)> {
    let left = min(x0, x1);
    let right = max(x0, x1);
    let top = min(y0, y1);
    let bottom = max(y0, y1);
    rows_points(left, top, right - left + 1, bottom - top + 1)
}

/// How far a line that covers `run` steps along its major axis and `rise`
/// steps along its minor axis has moved along the minor axis after `i` steps
/// along the major one: `i * rise / run`, rounded to the nearest step, a tie
/// going to the lower one.
pub open spec fn line_rise(run: int, rise: int, i: int) -> int {
    if run == 0 {
        0
    } else {
        (i * rise + (run - 1 - run / 2)) / run
    }
}

/// The pixels of the line from `(x0, y0)` to `(x1, y1)`. The major axis is the
/// one along which the line is longer (x where both are equal); the line has
/// one pixel for each step along it, drawn from the end with the smaller major
/// coordinate.
pub open spec fn line_points(x0: int, y0: int, x1: int, y1: int) -> Seq<(int, int)> {
    let steep = abs(y1 - y0) > abs(x1 - x0);
    let (a0, b0, a1, b1) = if steep {
        (y0, x0, y1, x1)
    } else {
        (x0, y0, x1, y1)
    };
    let (a0, b0, a1, b1) = if a0 > a1 {
        (a1, b1, a0, b0)
    } else {
        (a0, b0, a1, b1)
    };
    let run = a1 - a0;
    let rise = abs(b1 - b0);
    Seq::new(
        (run + 1) as nat,
        |i: int|
            {
                let b = if b0 < b1 {
                    b0 + line_rise(run, rise, i)
                } else {
                    b0 - line_rise(run, rise, i)
                };
                if steep {
                    (b, a0 + i)
                } else {
                    (a0 + i, b)
                }
            },
    )
}

/// A state of the walk along one quadrant of a circle: the offset from the
/// centre, and the error term that decides the next step.
pub struct ArcState {
    pub x: int,
    pub y: int,
    pub err: int,
}

/// The walk starts at the leftmost point of the circle.
pub open spec fn arc_start(radius: int) -> ArcState {
    ArcState { x: -radius, y: 0, err: 2 - 2 * radius }
}

/// One step of the walk: down, to the right, or both, whichever keeps the
/// error term closest to zero.
pub open spec fn arc_next(s: ArcState) -> ArcState {
    let down = s.err <= s.y;
    let y = if down {
        s.y + 1
    } else {
        s.y
    };
    let err = if down {
        s.err + 2 * y + 1
    } else {
        s.err
    };
    let right = s.err > s.x || err > y;
    if right {
        ArcState { x: s.x + 1, y, err: err + 2 * (s.x + 1) + 1 }
    } else {
        ArcState { x: s.x, y, err }
    }
}

/// The state of the walk after `k` steps.
pub open spec fn arc_state(radius: int, k: nat) -> ArcState
    decreases k,
{
    if k == 0 {
        arc_start(radius)
    } else {
        arc_next(arc_state(radius, (k - 1) as nat))
    }
}

/// The walk is over after `n` steps: that is the first step, the start not
/// counted, that leaves it to the right of the centre.
pub open spec fn arc_ends_at(radius: int, n: nat) -> bool {
    &&& n >= 1
    &&& arc_state(radius, n).x > 0
    &&& forall|k: nat| 1 <= k < n ==> (#[trigger] arc_state(radius, k)).x <= 0
}

/// The number of steps of the walk.
pub open spec fn arc_len(radius: int) -> nat {
    choose|n: nat| arc_ends_at(radius, n)
}

/// What holds of every state of the walk: the error term is the squared
/// distance of the next diagonal point from the circle, and the walk stays
/// inside the circle's box.
pub open spec fn arc_inv(radius: int, s: ArcState) -> bool {
    &&& s.err == (s.x + 1) * (s.x + 1) + (s.y + 1) * (s.y + 1) - radius * radius
    &&& 0 <= s.y <= abs(radius)
    &&& -abs(radius) <= s.x <= abs(radius) + 1
}

/// How many steps the walk can still take at most.
pub open spec fn arc_measure(radius: int, s: ArcState) -> int {
    (1 - s.x) + (abs(radius) - s.y)
}

/// The walk starts in a state of which the invariant holds.
pub proof fn lemma_arc_start(radius: int)
    ensures
        arc_inv(radius, arc_start(radius)),
{
    let s = arc_start(radius);
    assert(s.err == (s.x + 1) * (s.x + 1) + (s.y + 1) * (s.y + 1) - radius * radius)
        by (nonlinear_arith)
        requires
            s.x == -radius,
            s.y == 0,
            s.err == 2 - 2 * radius,
    ;
}

/// A step of the walk keeps the invariant and brings the walk nearer its end.
pub proof fn lemma_arc_step(radius: int, s: ArcState)
    requires
        arc_inv(radius, s),
        s.x <= 0 || s == arc_start(radius),
    ensures
        arc_inv(radius, arc_next(s)),
        arc_measure(radius, arc_next(s)) < arc_measure(radius, s),
        arc_next(s).x <= 0 ==> arc_measure(radius, arc_next(s)) >= 0,
        s.x <= arc_next(s).x <= s.x + 1,
{
    let down = s.err <= s.y;
    if down {
        assert(s.y < abs(radius)) by (nonlinear_arith)
            requires
                s.err == (s.x + 1) * (s.x + 1) + (s.y + 1) * (s.y + 1) - radius * radius,
                s.err <= s.y,
                0 <= s.y,
        {
            assert((s.x + 1) * (s.x + 1) >= 0);
            assert(s.y * s.y + s.y + 1 <= radius * radius);
            if radius >= 0 {
                if s.y >= radius {
                    assert(s.y * s.y >= radius * radius);
                }
            } else {
                if s.y >= -radius {
                    assert(s.y * s.y >= radius * radius);
                }
            }
        }
    }
    let n = arc_next(s);
    assert(n.err == (n.x + 1) * (n.x + 1) + (n.y + 1) * (n.y + 1) - radius * radius)
        by (nonlinear_arith)
        requires
            s.err == (s.x + 1) * (s.x + 1) + (s.y + 1) * (s.y + 1) - radius * radius,
            n == arc_next(s),
    ;
}

/// The error term of a state of the walk is small enough to be computed with.
pub proof fn lemma_arc_err_bound(radius: int, s: ArcState)
    requires
        arc_inv(radius, s),
        -0x8000_0000 <= radius <= 0x8000_0000,
    ensures
        -0x1_0000_0000_0000_0000 <= s.err <= 0x1_0000_0000_0000_0000,
{
    assert(-0x1_0000_0000_0000_0000 <= s.err <= 0x1_0000_0000_0000_0000) by (nonlinear_arith)
        requires
            s.err == (s.x + 1) * (s.x + 1) + (s.y + 1) * (s.y + 1) - radius * radius,
            -0x8000_0000 <= radius <= 0x8000_0000,
            0 <= s.y <= 0x8000_0000,
            -0x8000_0000 <= s.x <= 0x8000_0001,
    {
        assert(0 <= radius * radius <= 0x8000_0000 * 0x8000_0000);
        assert(0 <= (s.x + 1) * (s.x + 1) <= 0x8000_0002 * 0x8000_0002);
        assert(0 <= (s.y + 1) * (s.y + 1) <= 0x8000_0001 * 0x8000_0001);
    }
}

/// The walk ends after one number of steps only.
pub proof fn lemma_arc_len(radius: int, n: nat)
    requires
        arc_ends_at(radius, n),
    ensures
        arc_len(radius) == n,
{
    let m = arc_len(radius);
    assert(arc_ends_at(radius, m));
    if m < n {
        assert(arc_state(radius, m).x <= 0);
    } else if n < m {
        assert(arc_state(radius, n).x <= 0);
    }
}

/// From a state that the walk has reached without having ended, it ends.
proof fn lemma_arc_walk(radius: int, k: nat)
    requires
        arc_inv(radius, arc_state(radius, k)),
        k == 0 || arc_state(radius, k).x <= 0,
        forall|j: nat| 1 <= j <= k ==> (#[trigger] arc_state(radius, j)).x <= 0,
    ensures
        exists|n: nat| arc_ends_at(radius, n),
    decreases arc_measure(radius, arc_state(radius, k)),
{
    let s = arc_state(radius, k);
    lemma_arc_step(radius, s);
    assert(arc_state(radius, k + 1) == arc_next(s));
    if arc_next(s).x > 0 {
        assert(arc_ends_at(radius, k + 1));
    } else {
        lemma_arc_walk(radius, k + 1);
    }
}

/// The walk ends, whatever the radius: its number of steps is that of a walk
/// that is over.
pub proof fn lemma_arc_ends(radius: int)
    ensures
        arc_ends_at(radius, arc_len(radius)),
{
    lemma_arc_start(radius);
    lemma_arc_walk(radius, 0);
}

/// No state of the walk is further from the centre than the radius, in
/// either direction.
pub proof fn lemma_arc_in_box(radius: int, k: nat)
    requires
        k < arc_len(radius),
    ensures
        arc_inv(radius, arc_state(radius, k)),
        k == 0 || arc_state(radius, k).x <= 0,
        -abs(radius) <= arc_state(radius, k).x <= abs(radius),
        0 <= arc_state(radius, k).y <= abs(radius),
    decreases k,
{
    lemma_arc_ends(radius);
    if k == 0 {
        lemma_arc_start(radius);
    } else {
        lemma_arc_in_box(radius, (k - 1) as nat);
        lemma_arc_step(radius, arc_state(radius, (k - 1) as nat));
        assert(arc_state(radius, k).x <= 0);
    }
}

/// The outline of a circle lies in the square around its centre that the
/// radius spans.
pub proof fn lemma_circle_in_box(cx: int, cy: int, radius: int, p: (int, int))
    requires
        circle_points(cx, cy, radius).contains(p),
    ensures
        cx - abs(radius) <= p.0 <= cx + abs(radius),
        cy - abs(radius) <= p.1 <= cy + abs(radius),
{
    lemma_circle_upto_in_box(cx, cy, radius, arc_len(radius), p);
}

/// The pixels of the first `n` states of the walk lie in the square around
/// the centre that the radius spans.
proof fn lemma_circle_upto_in_box(cx: int, cy: int, radius: int, n: nat, p: (int, int))
    requires
        n <= arc_len(radius),
        circle_points_upto(cx, cy, radius, n).contains(p),
    ensures
        cx - abs(radius) <= p.0 <= cx + abs(radius),
        cy - abs(radius) <= p.1 <= cy + abs(radius),
    decreases n,
{
    if n > 0 {
        let before = circle_points_upto(cx, cy, radius, (n - 1) as nat);
        let state = arc_state(radius, (n - 1) as nat);
        let four = circle_step_points(cx, cy, state);
        lemma_add_contains(before, four, p);
        if before.contains(p) {
            lemma_circle_upto_in_box(cx, cy, radius, (n - 1) as nat, p);
        } else {
            lemma_arc_in_box(radius, (n - 1) as nat);
            let i = choose|i: int| 0 <= i < four.len() && four[i] == p;
            assert(four[i] == p);
        }
    }
}

/// A filled circle lies in the square around its centre that the radius
/// spans.
pub proof fn lemma_filled_circle_in_box(cx: int, cy: int, radius: int, p: (int, int))
    requires
        filled_circle_points(cx, cy, radius).contains(p),
    ensures
        cx - abs(radius) <= p.0 <= cx + abs(radius),
        cy - abs(radius) <= p.1 <= cy + abs(radius),
{
    lemma_disc_upto_in_box(cx, cy, radius, arc_len(radius), p);
}

/// The spans of the first `n` states of the walk lie in the square around
/// the centre that the radius spans.
proof fn lemma_disc_upto_in_box(cx: int, cy: int, radius: int, n: nat, p: (int, int))
    requires
        radius >= 0,
        n <= arc_len(radius),
        disc_points_upto(cx, cy, radius, n).contains(p),
    ensures
        cx - abs(radius) <= p.0 <= cx + abs(radius),
        cy - abs(radius) <= p.1 <= cy + abs(radius),
    decreases n,
{
    if n > 0 {
        let before = disc_points_upto(cx, cy, radius, (n - 1) as nat);
        let state = arc_state(radius, (n - 1) as nat);
        lemma_add_contains(before, disc_step_points(cx, cy, state), p);
        if before.contains(p) {
            lemma_disc_upto_in_box(cx, cy, radius, (n - 1) as nat, p);
        } else {
            lemma_arc_in_box(radius, (n - 1) as nat);
            lemma_add_contains(
                hline_points(cx + state.x, cy - state.y, -2 * state.x + 1),
                hline_points(cx + state.x, cy + state.y, -2 * state.x + 1),
                p,
            );
            lemma_hline_covers(cx + state.x, cy - state.y, -2 * state.x + 1, p);
            lemma_hline_covers(cx + state.x, cy + state.y, -2 * state.x + 1, p);
        }
    }
}

/// The four mirror images of one state of the walk.
pub open spec fn circle_step_points(cx: int, cy: int, s: ArcState) -> Seq<(int, int)> {
    seq![(cx - s.x, cy + s.y), (cx + s.x, cy + s.y), (cx + s.x, cy - s.y), (cx - s.x, cy - s.y)]
}

/// The pixels of the first `n` states of the walk around `(cx, cy)`.
pub open spec fn circle_points_upto(cx: int, cy: int, radius: int, n: nat) -> Seq<(int, int)>
    decreases n,
{
    if n == 0 {
        Seq::empty()
    } else {
        circle_points_upto(cx, cy, radius, (n - 1) as nat) + circle_step_points(
            cx,
            cy,
            arc_state(radius, (n - 1) as nat),
        )
    }
}

/// The outline of the circle around `(cx, cy)`.
pub open spec fn circle_points(cx: int, cy: int, radius: int) -> Seq<(int, int)> {
    circle_points_upto(cx, cy, radius, arc_len(radius))
}

/// The two horizontal spans, above and below the centre, of one state of the walk.
pub open spec fn disc_step_points(cx: int, cy: int, s: ArcState) -> Seq<(int, int)> {
    hline_points(cx + s.x, cy - s.y, -2 * s.x + 1) + hline_points(
        cx + s.x,
        cy + s.y,
        -2 * s.x + 1,
    )
}

/// The spans of the first `n` states of the walk around `(cx, cy)`.
pub open spec fn disc_points_upto(cx: int, cy: int, radius: int, n: nat) -> Seq<(int, int)>
    decreases n,
{
    if n == 0 {
        Seq::empty()
    } else {
        disc_points_upto(cx, cy, radius, (n - 1) as nat) + disc_step_points(
            cx,
            cy,
            arc_state(radius, (n - 1) as nat),
        )
    }
}

/// Every pixel of the circle around `(cx, cy)`; none for a negative radius.
pub open spec fn filled_circle_points(cx: int, cy: int, radius: int) -> Seq<(int, int)> {
    if radius < 0 {
        Seq::empty()
    } else {
        disc_points_upto(cx, cy, radius, arc_len(radius))
    }
}

/// The set pixels among the first `cols` of row `row` of the glyph of `c`,
/// the glyph's top left corner being at `(x, y)`.
pub open spec fn glyph_row_points(font: Font, c: char, x: int, y: int, row: int, cols: int) -> Seq<
    (int, int),
>
    decreases cols,
{
    if cols <= 0 {
        Seq::empty()
    } else {
        let before = glyph_row_points(font, c, x, y, row, cols - 1);
        if font.glyph_bit(c, row, cols - 1) {
            before.push((x + cols - 1, y + row))
        } else {
            before
        }
    }
}

/// The set pixels of the first `rows` rows of the glyph of `c`.
pub open spec fn glyph_rows_points(font: Font, c: char, x: int, y: int, rows: int) -> Seq<
    (int, int),
>
    decreases rows,
{
    if rows <= 0 {
        Seq::empty()
    } else {
        glyph_rows_points(font, c, x, y, rows - 1) + glyph_row_points(
            font,
            c,
            x,
            y,
            rows - 1,
            font.width as int,
        )
    }
}

/// The set pixels of the glyph of `c` with its top left corner at `(x, y)`;
/// none for a character the font has no glyph for.
pub open spec fn glyph_points(font: Font, c: char, x: int, y: int) -> Seq<(int, int)> {
    if font.supports(c) {
        glyph_rows_points(font, c, x, y, font.height as int)
    } else {
        Seq::empty()
    }
}

/// The set pixels of `text` written from `(x, y)` to the right, each
/// character one glyph width after the one before.
pub open spec fn text_points(font: Font, text: Seq<char>, x: int, y: int) -> Seq<(int, int)>
    decreases text.len(),
{
    if text.len() == 0 {
        Seq::empty()
    } else {
        text_points(font, text.drop_last(), x, y) + glyph_points(
            font,
            text.last(),
            x + (text.len() - 1) * font.width,
            y,
        )
    }
}

/// A point is among those of two sequences joined where it is among those of
/// one of them.
pub proof fn lemma_add_contains(first: Seq<(int, int)>, second: Seq<(int, int)>, p: (int, int))
    ensures
        (first + second).contains(p) <==> first.contains(p) || second.contains(p),
{
    let both = first + second;
    if first.contains(p) {
        let i = choose|i: int| 0 <= i < first.len() && first[i] == p;
        assert(both[i] == p);
    }
    if second.contains(p) {
        let i = choose|i: int| 0 <= i < second.len() && second[i] == p;
        assert(both[first.len() + i] == p);
    }
    if both.contains(p) {
        let i = choose|i: int| 0 <= i < both.len() && both[i] == p;
        if i < first.len() {
            assert(first[i] == p);
        } else {
            assert(second[i - first.len()] == p);
        }
    }
}

/// A horizontal line covers the points of its row that are less than its
/// width to the right of its start.
pub proof fn lemma_hline_covers(x: int, y: int, width: int, p: (int, int))
    ensures
        hline_points(x, y, width).contains(p) <==> p.1 == y && x <= p.0 < x + width,
{
    let points = hline_points(x, y, width);
    if p.1 == y && x <= p.0 < x + width {
        assert(points[p.0 - x] == p);
    }
    if points.contains(p) {
        let i = choose|i: int| 0 <= i < points.len() && points[i] == p;
        assert(points[i] == (x + i, y));
    }
}

/// A vertical line covers the points of its column that are less than its
/// height below its start.
pub proof fn lemma_vline_covers(x: int, y: int, height: int, p: (int, int))
    ensures
        vline_points(x, y, height).contains(p) <==> p.0 == x && y <= p.1 < y + height,
{
    let points = vline_points(x, y, height);
    if p.0 == x && y <= p.1 < y + height {
        assert(points[p.1 - y] == p);
    }
    if points.contains(p) {
        let i = choose|i: int| 0 <= i < points.len() && points[i] == p;
        assert(points[i] == (x, y + i));
    }
}

/// Rows of pixels cover the points that are less than their width to the
/// right of their start and less than their number below it.
pub proof fn lemma_rows_cover(x: int, y: int, width: int, rows: int, p: (int, int))
    ensures
        rows_points(x, y, width, rows).contains(p) <==> x <= p.0 < x + width && y <= p.1 < y
            + rows,
    decreases rows,
{
    if rows > 0 {
        lemma_rows_cover(x, y, width, rows - 1, p);
        lemma_hline_covers(x, y + rows - 1, width, p);
        lemma_add_contains(
            rows_points(x, y, width, rows - 1),
            hline_points(x, y + rows - 1, width),
            p,
        );
    }
}

/// A filled rectangle covers the points between its corners, the corners'
/// rows and columns counted in.
pub proof fn lemma_filled_rect_covers(x0: int, y0: int, x1: int, y1: int, p: (int, int))
    ensures
        filled_rect_points(x0, y0, x1, y1).contains(p) <==> min(x0, x1) <= p.0 <= max(x0, x1)
            && min(y0, y1) <= p.1 <= max(y0, y1),
{
    lemma_rows_cover(
        min(x0, x1),
        min(y0, y1),
        max(x0, x1) - min(x0, x1) + 1,
        max(y0, y1) - min(y0, y1) + 1,
        p,
    );
}

/// The outline of a rectangle covers the points between its corners that lie
/// in the row or in the column of one of them.
pub proof fn lemma_rect_covers(x0: int, y0: int, x1: int, y1: int, p: (int, int))
    ensures
        rect_points(x0, y0, x1, y1).contains(p) <==> min(x0, x1) <= p.0 <= max(x0, x1) && min(
            y0,
            y1,
        ) <= p.1 <= max(y0, y1) && (p.0 == x0 || p.0 == x1 || p.1 == y0 || p.1 == y1),
{
    let left = min(x0, x1);
    let right = max(x0, x1);
    let top = min(y0, y1);
    let bottom = max(y0, y1);
    let upper = hline_points(left, top, right - left + 1);
    let lower = hline_points(left, bottom, right - left + 1);
    let near = vline_points(left, top, bottom - top + 1);
    let far = vline_points(right, top, bottom - top + 1);
    lemma_hline_covers(left, top, right - left + 1, p);
    lemma_hline_covers(left, bottom, right - left + 1, p);
    lemma_vline_covers(left, top, bottom - top + 1, p);
    lemma_vline_covers(right, top, bottom - top + 1, p);
    lemma_add_contains(upper, lower, p);
    lemma_add_contains(upper + lower, near, p);
    lemma_add_contains(upper + lower + near, far, p);
}

/// A line has one pixel for each step along its longer side, and it starts
/// and ends in the points that it was asked to join.
pub proof fn lemma_line_ends(x0: int, y0: int, x1: int, y1: int)
    ensures
        line_points(x0, y0, x1, y1).len() == max(abs(x1 - x0), abs(y1 - y0)) + 1,
        line_points(x0, y0, x1, y1).contains((x0, y0)),
        line_points(x0, y0, x1, y1).contains((x1, y1)),
{
    let points = line_points(x0, y0, x1, y1);
    let run = max(abs(x1 - x0), abs(y1 - y0));
    let rise = min(abs(x1 - x0), abs(y1 - y0));
    assert(points.len() == run + 1);
    if run == 0 {
        assert(points[0] == (x0, y0));
    } else {
        let slack = run - 1 - run / 2;
        assert(line_rise(run, rise, 0) == 0) by {
            assert(0 * rise == 0) by (nonlinear_arith);
            lemma_fundamental_div_mod_converse(slack, run, 0, slack);
        }
        assert(line_rise(run, rise, run) == rise) by {
            assert(run * rise + slack == rise * run + slack) by (nonlinear_arith);
            lemma_fundamental_div_mod_converse(run * rise + slack, run, rise, slack);
        }
        let first = points[0];
        let last = points[run];
        assert(first == (x0, y0) || first == (x1, y1));
        assert(last == (x0, y0) || last == (x1, y1));
        assert(first == (x0, y0) ==> last == (x1, y1));
        assert(first == (x1, y1) ==> last == (x0, y0));
    }
}

} // verus!
