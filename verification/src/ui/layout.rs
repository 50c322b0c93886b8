//! The container: it owns an ordered list of children and distributes its
//! space among them along one axis.
//!
//! Along the main axis a child whose size is positive keeps it; the children
//! whose size is not positive share what is left in equal parts. Where the
//! fixed children leave less than nothing, the share is negative: it is
//! handed on as it is, so that such a child ends before it starts. Across the
//! axis every child fills the container, less the padding. Positions and
//! sizes that do not fit an `i32` are moved to the nearest one that does.
//!
//! A layout looks at the sizes that its children have when it lays them out:
//! a child that was given a share once has a size of its own from then on,
//! until it is given a size that is not positive again.

use vstd::prelude::*;
use crate::display::canvas::Canvas;
use crate::display::paint::Paint;
use crate::ui::component::{Component, Content, Rect, UiError};
use crate::ui::label::Label;
use vstd::slice::slice_subrange;

verus! {

/// The axis along which a layout lines its children up.
#[derive(Debug, Clone, Copy)]
pub enum Orientation {
    Horizontal,
    Vertical,
}

pub struct Layout {
    bounds: Rect,
    children: Vec<Box<dyn Component>>,
    orientation: Orientation,
    spacing: i32,
    padding: i32,
}

/// The `i32` nearest to `v`.
pub open spec fn clamp_i32(v: int) -> int {
    if v < i32::MIN {
        i32::MIN as int
    } else if v > i32::MAX {
        i32::MAX as int
    } else {
        v
    }
}

/// The sizes `sizes` as integers.
pub open spec fn as_ints(sizes: Seq<i32>) -> Seq<int> {
    Seq::new(sizes.len(), |i: int| sizes[i] as int)
}

/// The sum of the sizes that are positive: those of the children that keep
/// their size.
pub open spec fn fixed_total(sizes: Seq<int>) -> int
    decreases sizes.len(),
{
    if sizes.len() == 0 {
        0
    } else if sizes.last() > 0 {
        fixed_total(sizes.drop_last()) + sizes.last()
    } else {
        fixed_total(sizes.drop_last())
    }
}

/// The number of sizes that are not positive: that of the children that share
/// what is left.
pub open spec fn flexible_count(sizes: Seq<int>) -> int
    decreases sizes.len(),
{
    if sizes.len() == 0 {
        0
    } else if sizes.last() > 0 {
        flexible_count(sizes.drop_last())
    } else {
        flexible_count(sizes.drop_last()) + 1
    }
}

/// The space that `count` children have between them in a container of size
/// `extent`: what the padding on both sides and the gaps between neighbours
/// leave.
pub open spec fn available(extent: int, padding: int, spacing: int, count: int) -> int {
    if count > 0 {
        extent - 2 * padding - spacing * (count - 1)
    } else {
        extent - 2 * padding
    }
}

/// `total` shared among `count` in equal parts, rounded towards zero.
pub open spec fn share(total: int, count: int) -> int {
    if total >= 0 {
        total / count
    } else {
        -((-total) / count)
    }
}

/// The size that each flexible child gets: an equal share of what the fixed
/// children leave, the remainder of the division being dropped. Where the
/// fixed children leave less than nothing, the share is negative.
pub open spec fn flex_size(extent: int, padding: int, spacing: int, sizes: Seq<int>) -> int {
    let rest = available(extent, padding, spacing, sizes.len() as int) - fixed_total(sizes);
    if flexible_count(sizes) > 0 {
        clamp_i32(share(rest, flexible_count(sizes)))
    } else {
        0
    }
}

/// The size of a child after the layout: its own where that is positive, the
/// flexible share otherwise.
pub open spec fn resolved(size: int, flex: int) -> int {
    if size > 0 {
        size
    } else {
        flex
    }
}

/// How far from the container's origin child `i` starts: after the padding,
/// the children before it, and one gap after each of them.
pub open spec fn offset_of(padding: int, spacing: int, sizes: Seq<int>, flex: int, i: int) -> int
    decreases i,
{
    if i <= 0 {
        padding
    } else {
        offset_of(padding, spacing, sizes, flex, i - 1) + resolved(sizes[i - 1], flex) + spacing
    }
}

/// The index of the first of the first `n` children that claims a tap at
/// `(x, y)`, if one of them does.
pub open spec fn first_claimer(children: Seq<Box<dyn Component>>, x: int, y: int, n: int) -> Option<
    int,
>
    decreases n,
{
    if n <= 0 {
        None
    } else {
        match first_claimer(children, x, y, n - 1) {
            Some(k) => Some(k),
            None => if children[n - 1].claims(x, y) {
                Some(n - 1)
            } else {
                None
            },
        }
    }
}

/// The index of the first of the first `n` children whose update fails, if
/// one of them does.
pub open spec fn first_failure(children: Seq<Box<dyn Component>>, n: int) -> Option<int>
    decreases n,
{
    if n <= 0 {
        None
    } else {
        match first_failure(children, n - 1) {
            Some(k) => Some(k),
            None => if children[n - 1].update_outcome() is Err {
                Some(n - 1)
            } else {
                None
            },
        }
    }
}

/// The canvas after the first `n` children were rendered on `canvas` one after
/// the other, and what rendering them returns: rendering stops at the first
/// child that fails.
pub open spec fn paint_children(children: Seq<Box<dyn Component>>, canvas: Canvas, n: int) -> (
    Canvas,
    Result<(), UiError>,
)
    decreases n,
{
    if n <= 0 {
        (canvas, Ok(()))
    } else {
        let (before, outcome) = paint_children(children, canvas, n - 1);
        if outcome is Err {
            (before, outcome)
        } else {
            (children[n - 1].painted(before), children[n - 1].render_outcome(before))
        }
    }
}

/// The state of a layout.
pub struct LayoutView {
    pub bounds: Rect,
    pub children: Seq<Box<dyn Component>>,
    pub orientation: Orientation,
    pub spacing: int,
    pub padding: int,
}

impl LayoutView {
    /// The size of `rect` along the main axis.
    pub open spec fn main_size(self, rect: Rect) -> int {
        match self.orientation {
            Orientation::Horizontal => rect.width as int,
            Orientation::Vertical => rect.height as int,
        }
    }

    /// The sizes of the children along the main axis.
    pub open spec fn sizes(self) -> Seq<int> {
        Seq::new(self.children.len(), |i: int| self.main_size(self.children[i].frame()))
    }

    /// What the children hold, in their order.
    pub open spec fn contents(self) -> Seq<Content> {
        Seq::new(self.children.len(), |i: int| self.children[i].content())
    }

    /// What the layout holds besides its bounds.
    pub open spec fn content(self) -> Content {
        Content::Layout {
            orientation: self.orientation,
            spacing: self.spacing,
            padding: self.padding,
            children: self.contents(),
        }
    }

    /// The size that each flexible child gets where the children have the
    /// sizes `sizes` along the main axis.
    pub open spec fn flex(self, sizes: Seq<int>) -> int {
        flex_size(self.main_size(self.bounds), self.padding, self.spacing, sizes)
    }

    /// The bounds that the layout gives child `i` where the children have the
    /// sizes `sizes` along the main axis.
    pub open spec fn slot(self, sizes: Seq<int>, i: int) -> Rect {
        let size = resolved(sizes[i], self.flex(sizes));
        let offset = offset_of(self.padding, self.spacing, sizes, self.flex(sizes), i);
        match self.orientation {
            Orientation::Horizontal => Rect {
                x: clamp_i32(self.bounds.x + offset) as i32,
                y: clamp_i32(self.bounds.y + self.padding) as i32,
                width: size as i32,
                height: clamp_i32(self.bounds.height - 2 * self.padding) as i32,
            },
            Orientation::Vertical => Rect {
                x: clamp_i32(self.bounds.x + self.padding) as i32,
                y: clamp_i32(self.bounds.y + offset) as i32,
                width: clamp_i32(self.bounds.width - 2 * self.padding) as i32,
                height: size as i32,
            },
        }
    }

    /// Whether `after` is this layout with children of the sizes `sizes`
    /// that hold `contents` laid out: nothing of the layout itself differs,
    /// there is one child for each size, in the order of the sizes, every
    /// child has the bounds of its slot, and it holds what it held.
    pub open spec fn arranged(self, sizes: Seq<int>, contents: Seq<Content>, after: LayoutView) -> bool {
        &&& after.bounds == self.bounds
        &&& after.orientation == self.orientation
        &&& after.spacing == self.spacing
        &&& after.padding == self.padding
        &&& after.children.len() == sizes.len()
        &&& contents.len() == sizes.len()
        &&& forall|i: int|
            0 <= i < sizes.len() ==> (#[trigger] after.children[i]).frame() == self.slot(sizes, i)
        &&& forall|i: int|
            0 <= i < sizes.len() ==> (#[trigger] after.children[i]).content() == contents[i]
    }

    /// Whether `after` is this layout moved by `(dx, dy)`: every child has
    /// moved by as much, and kept its size, its place among the children and
    /// what it holds.
    pub open spec fn shifted(self, dx: int, dy: int, after: LayoutView) -> bool {
        &&& after.bounds == (Rect {
            x: (self.bounds.x + dx) as i32,
            y: (self.bounds.y + dy) as i32,
            ..self.bounds
        })
        &&& after.orientation == self.orientation
        &&& after.spacing == self.spacing
        &&& after.padding == self.padding
        &&& after.children.len() == self.children.len()
        &&& forall|i: int|
            0 <= i < self.children.len() ==> (#[trigger] after.children[i]).frame() == (Rect {
                x: clamp_i32(self.children[i].frame().x + dx) as i32,
                y: clamp_i32(self.children[i].frame().y + dy) as i32,
                ..self.children[i].frame()
            })
        &&& forall|i: int|
            0 <= i < self.children.len() ==> (#[trigger] after.children[i]).content()
                == self.children[i].content()
    }

    /// The index of the last child that a tap at `(x, y)` is handed to: the
    /// first that claims it, or the last child where none does.
    pub open spec fn tap_reach(self, x: int, y: int) -> int {
        match first_claimer(self.children, x, y, self.children.len() as int) {
            Some(k) => k,
            None => self.children.len() - 1,
        }
    }

    /// The index of the last child that an update tick is handed to: the
    /// first whose update fails, or the last child where none fails.
    pub open spec fn update_reach(self) -> int {
        match first_failure(self.children, self.children.len() as int) {
            Some(k) => k,
            None => self.children.len() - 1,
        }
    }

    /// Whether one tap at `(x, y)` can leave the layout as `after`: nothing
    /// of the layout itself differs and no child has moved; each child up to
    /// the one that the tap reaches took the tap once, and the children after
    /// that one are as they were. A label or a button among the children
    /// that the tap reaches took it as labels and buttons do.
    pub open spec fn tapped(self, x: int, y: int, after: LayoutView) -> bool {
        &&& after.bounds == self.bounds
        &&& after.orientation == self.orientation
        &&& after.spacing == self.spacing
        &&& after.padding == self.padding
        &&& after.children.len() == self.children.len()
        &&& forall|j: int|
            0 <= j < self.children.len() ==> (#[trigger] after.children[j]).frame()
                == self.children[j].frame()
        &&& forall|j: int|
            0 <= j <= self.tap_reach(x, y) ==> self.children[j].tapped(
                x,
                y,
                (#[trigger] after.children[j]).content(),
            )
        &&& forall|j: int|
            self.tap_reach(x, y) < j < self.children.len() ==> #[trigger] after.children[j]
                == self.children[j]
        &&& forall|j: int|
            0 <= j <= self.tap_reach(x, y) && (#[trigger] self.children[j]).content().is_widget()
                ==> self.children[j].claims(x, y) == self.children[j].content().takes(
                self.children[j].frame(),
                x,
                y,
            )
        &&& forall|j: int|
            0 <= j <= self.tap_reach(x, y) && self.children[j].content().is_widget()
                ==> self.children[j].content().taken(
                self.children[j].frame(),
                x,
                y,
                (#[trigger] after.children[j]).content(),
            )
    }

    /// Whether one update tick can leave the layout as `after`: nothing of
    /// the layout itself differs; each child up to the one that the tick
    /// reaches was updated once, and the children after that one are as they
    /// were. A label or a button among the children that the tick reaches
    /// is as it was, and did not fail.
    pub open spec fn updated(self, after: LayoutView) -> bool {
        &&& after.bounds == self.bounds
        &&& after.orientation == self.orientation
        &&& after.spacing == self.spacing
        &&& after.padding == self.padding
        &&& after.children.len() == self.children.len()
        &&& forall|j: int|
            0 <= j <= self.update_reach() ==> self.children[j].updated(
                (#[trigger] after.children[j]).content(),
            )
        &&& forall|j: int|
            self.update_reach() < j < self.children.len() ==> #[trigger] after.children[j]
                == self.children[j]
        &&& forall|j: int|
            0 <= j <= self.update_reach() && (#[trigger] self.children[j]).content().is_widget()
                ==> self.children[j].update_outcome() is Ok
        &&& forall|j: int|
            0 <= j <= self.update_reach() && self.children[j].content().is_widget() ==> {
                &&& (#[trigger] after.children[j]).content() == self.children[j].content()
                &&& after.children[j].frame() == self.children[j].frame()
            }
    }

    /// Whether each label and each button among the children that rendering
    /// on `canvas` reaches renders there as labels and buttons do: it paints
    /// what it holds in its bounds, and does not fail.
    pub open spec fn renders_widgets(self, canvas: Canvas) -> bool {
        forall|k: int|
            0 <= k < self.children.len() && paint_children(self.children, canvas, k).1 is Ok && (
            #[trigger] self.children[k]).content().is_widget() ==> {
                let before = paint_children(self.children, canvas, k).0;
                &&& self.children[k].painted(before) == self.children[k].content().shown(
                    self.children[k].frame(),
                    before,
                )
                &&& self.children[k].render_outcome(before) is Ok
            }
    }

    /// Whether the layout or one of its children claims a tap at `(x, y)`.
    pub open spec fn takes(self, x: int, y: int) -> bool {
        first_claimer(self.children, x, y, self.children.len() as int) is Some
            || self.bounds.covers(x, y)
    }

    /// What an update tick returns: what the first child that fails returns.
    pub open spec fn update_outcome(self) -> Result<(), UiError> {
        match first_failure(self.children, self.children.len() as int) {
            Some(k) => self.children[k].update_outcome(),
            None => Ok(()),
        }
    }
}

impl View for Layout {
    type V = LayoutView;

    closed spec fn view(&self) -> LayoutView {
        LayoutView {
            bounds: self.bounds,
            children: self.children@,
            orientation: self.orientation,
            spacing: self.spacing as int,
            padding: self.padding as int,
        }
    }
}

/// The `i32` nearest to `v`.
fn saturate(v: i128) -> (nearest: i32)
    ensures
        nearest == clamp_i32(v as int),
{
    if v < i32::MIN as i128 {
        i32::MIN
    } else if v > i32::MAX as i128 {
        i32::MAX
    } else {
        v as i32
    }
}

/// The fixed sizes and the flexible children of a part of the children are
/// among those of all of them.
proof fn lemma_prefix_totals(sizes: Seq<int>, k: int)
    requires
        0 <= k <= sizes.len(),
    ensures
        0 <= fixed_total(sizes.take(k)) <= fixed_total(sizes),
        0 <= flexible_count(sizes.take(k)) <= flexible_count(sizes),
    decreases sizes.len() - k,
{
    if k == sizes.len() {
        assert(sizes.take(k) =~= sizes);
        lemma_totals_not_negative(sizes);
    } else {
        lemma_prefix_totals(sizes, k + 1);
        assert(sizes.take(k + 1).drop_last() =~= sizes.take(k));
        lemma_totals_not_negative(sizes.take(k));
    }
}

/// Neither the fixed sizes nor the number of flexible children add up to
/// less than nothing.
proof fn lemma_totals_not_negative(sizes: Seq<int>)
    ensures
        0 <= fixed_total(sizes),
        0 <= flexible_count(sizes),
    decreases sizes.len(),
{
    if sizes.len() > 0 {
        lemma_totals_not_negative(sizes.drop_last());
    }
}

/// Child `k` starts after the padding, the fixed sizes and the flexible shares
/// of the children before it, and one gap for each of them.
proof fn lemma_offset_sum(padding: int, spacing: int, sizes: Seq<int>, flex: int, k: int)
    requires
        0 <= k <= sizes.len(),
    ensures
        offset_of(padding, spacing, sizes, flex, k) == padding + fixed_total(sizes.take(k)) + flex
            * flexible_count(sizes.take(k)) + spacing * k,
    decreases k,
{
    if k == 0 {
        assert(sizes.take(0) =~= Seq::<int>::empty());
        assert(flex * 0 == 0) by (nonlinear_arith);
        assert(spacing * 0 == 0) by (nonlinear_arith);
    } else {
        lemma_offset_sum(padding, spacing, sizes, flex, k - 1);
        assert(sizes.take(k).drop_last() =~= sizes.take(k - 1));
        assert(sizes.take(k).last() == sizes[k - 1]);
        let count = flexible_count(sizes.take(k - 1));
        assert(flex * (count + 1) == flex * count + flex) by (nonlinear_arith);
        assert(spacing * k == spacing * (k - 1) + spacing) by (nonlinear_arith);
    }
}

/// Where the children have room, none of them reaches beyond the layout: with
/// a padding and a spacing that are not negative, in a layout whose space is
/// not less than its fixed children need and whose size across the axis,
/// less the padding, fits an `i32`, every slot ends before the layout does,
/// in both directions.
pub proof fn lemma_slots_inside(view: LayoutView, sizes: Seq<int>, i: int)
    requires
        0 <= i < sizes.len(),
        forall|j: int| 0 <= j < sizes.len() ==> #[trigger] sizes[j] <= i32::MAX,
        0 <= view.padding <= i32::MAX,
        0 <= view.spacing,
        available(view.main_size(view.bounds), view.padding, view.spacing, sizes.len() as int)
            >= fixed_total(sizes),
        view.bounds.width - 2 * view.padding >= i32::MIN,
        view.bounds.height - 2 * view.padding >= i32::MIN,
    ensures
        view.slot(sizes, i).x + view.slot(sizes, i).width <= view.bounds.x + view.bounds.width,
        view.slot(sizes, i).y + view.slot(sizes, i).height <= view.bounds.y + view.bounds.height,
{
    let n = sizes.len() as int;
    let flex = view.flex(sizes);
    let extent = view.main_size(view.bounds);
    let rest = available(extent, view.padding, view.spacing, n) - fixed_total(sizes);
    let count = flexible_count(sizes);
    lemma_offset_sum(view.padding, view.spacing, sizes, flex, i);
    lemma_offset_sum(view.padding, view.spacing, sizes, flex, i + 1);
    lemma_prefix_totals(sizes, i);
    lemma_prefix_totals(sizes, i + 1);
    lemma_totals_not_negative(sizes);
    // The flexible children take no more than what the fixed ones leave.
    assert(0 <= flex && flex * count <= rest) by {
        if count > 0 {
            assert(0 <= rest / count && (rest / count) * count <= rest) by (nonlinear_arith)
                requires
                    count > 0,
                    rest >= 0,
            ;
            assert(flex * count <= (rest / count) * count) by (nonlinear_arith)
                requires
                    0 <= flex <= rest / count,
                    count > 0,
            ;
        } else {
            assert(flex * count == 0) by (nonlinear_arith)
                requires
                    flex == 0,
            ;
        }
    }
    let before = flexible_count(sizes.take(i));
    let upto = flexible_count(sizes.take(i + 1));
    assert(0 <= flex * before && flex * upto <= flex * count) by (nonlinear_arith)
        requires
            0 <= flex,
            0 <= before,
            upto <= count,
    ;
    assert(0 <= view.spacing * i && view.spacing * i <= view.spacing * (n - 1))
        by (nonlinear_arith)
        requires
            0 <= view.spacing,
            0 <= i <= n - 1,
    ;
    let offset = offset_of(view.padding, view.spacing, sizes, flex, i);
    let size = resolved(sizes[i], flex);
    assert(offset_of(view.padding, view.spacing, sizes, flex, i + 1) == offset + size
        + view.spacing);
    assert(view.spacing * (i + 1) == view.spacing * i + view.spacing) by (nonlinear_arith);
    assert(available(extent, view.padding, view.spacing, n) == extent - 2 * view.padding
        - view.spacing * (n - 1));
    assert(offset + size <= extent - view.padding);
}

/// Where the children have room, a layout that was laid out holds every one
/// of them: under the conditions of `lemma_slots_inside`, a child's right
/// edge is not beyond the layout's, nor its bottom edge below the layout's.
pub proof fn lemma_arranged_inside(
    view: LayoutView,
    sizes: Seq<int>,
    contents: Seq<Content>,
    after: LayoutView,
    i: int,
)
    requires
        view.arranged(sizes, contents, after),
        0 <= i < sizes.len(),
        forall|j: int| 0 <= j < sizes.len() ==> #[trigger] sizes[j] <= i32::MAX,
        0 <= view.padding <= i32::MAX,
        0 <= view.spacing,
        available(view.main_size(view.bounds), view.padding, view.spacing, sizes.len() as int)
            >= fixed_total(sizes),
        view.bounds.width - 2 * view.padding >= i32::MIN,
        view.bounds.height - 2 * view.padding >= i32::MIN,
    ensures
        after.children[i].frame().x + after.children[i].frame().width <= after.bounds.x
            + after.bounds.width,
        after.children[i].frame().y + after.children[i].frame().height <= after.bounds.y
            + after.bounds.height,
{
    lemma_slots_inside(view, sizes, i);
}

/// Hit-test priority: the tap goes to the child that was added first among
/// those that claim it. Where one of the first `n` children claims a tap, the
/// first claimer claims it and no child before it does; where none of them
/// does, there is no first claimer.
pub proof fn lemma_first_claimer(children: Seq<Box<dyn Component>>, x: int, y: int, n: int)
    ensures
        match first_claimer(children, x, y, n) {
            Some(k) => 0 <= k < n && children[k].claims(x, y) && forall|j: int|
                0 <= j < k ==> !(#[trigger] children[j]).claims(x, y),
            None => forall|j: int| 0 <= j < n ==> !(#[trigger] children[j]).claims(x, y),
        },
    decreases n,
{
    if n > 0 {
        lemma_first_claimer(children, x, y, n - 1);
    }
}

/// The first failure is that of the child that was added first among those
/// whose update fails: no child before it fails; where none of the first `n`
/// children fails, there is no first failure.
pub proof fn lemma_first_failure(children: Seq<Box<dyn Component>>, n: int)
    ensures
        match first_failure(children, n) {
            Some(k) => 0 <= k < n && children[k].update_outcome() is Err && forall|j: int|
                0 <= j < k ==> (#[trigger] children[j]).update_outcome() is Ok,
            None => forall|j: int|
                0 <= j < n ==> (#[trigger] children[j]).update_outcome() is Ok,
        },
    decreases n,
{
    if n > 0 {
        lemma_first_failure(children, n - 1);
    }
}

/// Among the first `n` children, a first claimer stays the first claimer when
/// more children are looked at.
proof fn lemma_first_claimer_stays(
    children: Seq<Box<dyn Component>>,
    x: int,
    y: int,
    n: int,
    m: int,
)
    requires
        n <= m,
        first_claimer(children, x, y, n) is Some,
    ensures
        first_claimer(children, x, y, m) == first_claimer(children, x, y, n),
    decreases m - n,
{
    if n < m {
        lemma_first_claimer_stays(children, x, y, n, m - 1);
    }
}

/// Among the first `n` children, a first failure stays the first failure when
/// more children are looked at.
proof fn lemma_first_failure_stays(children: Seq<Box<dyn Component>>, n: int, m: int)
    requires
        n <= m,
        first_failure(children, n) is Some,
    ensures
        first_failure(children, m) == first_failure(children, n),
    decreases m - n,
{
    if n < m {
        lemma_first_failure_stays(children, n, m - 1);
    }
}

/// Once rendering has failed, the children that follow are not rendered.
proof fn lemma_paint_children_stops(
    children: Seq<Box<dyn Component>>,
    canvas: Canvas,
    n: int,
    m: int,
)
    requires
        n <= m,
        paint_children(children, canvas, n).1 is Err,
    ensures
        paint_children(children, canvas, m) == paint_children(children, canvas, n),
    decreases m - n,
{
    if n < m {
        lemma_paint_children_stops(children, canvas, n, m - 1);
    }
}

/// Keeps a place among the children of a layout until the child that is to
/// stand there takes it.
struct Vacancy {
    bounds: Rect,
}

impl Component for Vacancy {
    closed spec fn frame(&self) -> Rect {
        self.bounds
    }

    closed spec fn content(&self) -> Content {
        Content::Custom { marks: Seq::empty() }
    }

    closed spec fn painted(&self, canvas: Canvas) -> Canvas {
        canvas
    }

    closed spec fn render_outcome(&self, canvas: Canvas) -> Result<(), UiError> {
        Ok(())
    }

    closed spec fn claims(&self, x: int, y: int) -> bool {
        false
    }

    closed spec fn tapped(&self, x: int, y: int, after: Content) -> bool {
        after == self.content()
    }

    closed spec fn update_outcome(&self) -> Result<(), UiError> {
        Ok(())
    }

    closed spec fn updated(&self, after: Content) -> bool {
        after == self.content()
    }

    closed spec fn label_at(&self, path: Seq<usize>) -> Option<Label> {
        None
    }

    fn bounds(&self) -> (bounds: &Rect) {
        &self.bounds
    }

    fn set_position(&mut self, x: i32, y: i32) {
        self.bounds.x = x;
        self.bounds.y = y;
    }

    fn set_size(&mut self, width: i32, height: i32) {
        self.bounds.width = width;
        self.bounds.height = height;
    }

    fn render(&self, paint: &mut Paint) -> (outcome: Result<(), UiError>) {
        Ok(())
    }

    fn handle_tap(&mut self, x: i32, y: i32) -> (claimed: bool) {
        false
    }

    fn update(&mut self) -> (outcome: Result<(), UiError>) {
        Ok(())
    }

    fn label_at_mut(&mut self, path: &[usize]) -> (label: Option<&mut Label>) {
        None
    }

    fn set_enabled_at(&mut self, path: &[usize], enabled: bool) -> (found: bool) {
        false
    }

    fn set_caption_at(&mut self, path: &[usize], caption: &str) -> (found: bool) {
        false
    }
}

impl Layout {
    /// An empty layout with a spacing and a padding of 5 pixels.
    pub fn new(x: i32, y: i32, width: i32, height: i32, orientation: Orientation) -> (layout: Self)
        ensures
            layout@ == (LayoutView {
                bounds: Rect { x, y, width, height },
                children: Seq::empty(),
                orientation,
                spacing: 5,
                padding: 5,
            }),
    {
        Self {
            bounds: Rect::new(x, y, width, height),
            children: Vec::new(),
            orientation,
            spacing: 5,
            padding: 5,
        }
    }

    /// Sets the gap between neighbouring children and lays the children out.
    pub fn set_spacing(&mut self, spacing: i32)
        ensures
            (LayoutView { spacing: spacing as int, ..old(self)@ }).arranged(
                old(self)@.sizes(),
                old(self)@.contents(),
                final(self)@,
            ),
    {
        self.spacing = spacing;
        assert(self@.sizes() =~= old(self)@.sizes());
        assert(self@.contents() =~= old(self)@.contents());
        self.reflow();
        assert(self@.contents() =~= old(self)@.contents());
    }

    /// Sets the space between the layout's edges and its children and lays
    /// the children out.
    pub fn set_padding(&mut self, padding: i32)
        ensures
            (LayoutView { padding: padding as int, ..old(self)@ }).arranged(
                old(self)@.sizes(),
                old(self)@.contents(),
                final(self)@,
            ),
    {
        self.padding = padding;
        assert(self@.sizes() =~= old(self)@.sizes());
        assert(self@.contents() =~= old(self)@.contents());
        self.reflow();
        assert(self@.contents() =~= old(self)@.contents());
    }

    /// Takes `component` as the last child and lays the children out:
    /// those that the layout had, in their places, with the sizes that they
    /// had, and the new one after them, with the size that it comes with.
    pub fn add_child(&mut self, component: Box<dyn Component>)
        ensures
            old(self)@.arranged(
                old(self)@.sizes().push(old(self)@.main_size(component.frame())),
                old(self)@.contents().push(component.content()),
                final(self)@,
            ),
    {
        let mut sizes = self.measure();
        let size = match self.orientation {
            Orientation::Horizontal => component.bounds().width,
            Orientation::Vertical => component.bounds().height,
        };
        sizes.push(size);
        // The prover loses sight of a trait object that is moved into a
        // vector, and keeps it of one that takes the place of another: the
        // vector grows by a vacancy, and the child takes the vacancy's place.
        let n = self.children.len();
        let vacancy: Box<dyn Component> = Box::new(Vacancy { bounds: Rect::new(0, 0, 0, 0) });
        let ghost kept = vacancy;
        self.children.push(vacancy);
        proof {
            vstd::seq::axiom_seq_push_len(old(self).children@, kept);
            assert forall|j: int| 0 <= j < n implies self.children@[j] == old(self).children@[j] by {
                vstd::seq::axiom_seq_push_index_different(old(self).children@, kept, j);
            }
        }
        let mut component = component;
        std::mem::swap(&mut self.children[n], &mut component);
        proof {
            assert(as_ints(sizes@) =~= old(self)@.sizes().push(size as int));
            assert(self@.contents() =~= old(self)@.contents().push(
                self.children@[n as int].content(),
            ));
        }
        self.arrange(&sizes);
    }

    pub fn children(&self) -> (children: &[Box<dyn Component>])
        ensures
            children@ == self@.children,
    {
        self.children.as_slice()
    }

    /// The children, to be changed in place. The layout does not lay them out
    /// again by itself.
    pub fn children_mut(&mut self) -> (children: &mut [Box<dyn Component>])
        ensures
            children@ == old(self)@.children,
            final(self)@ == (LayoutView { children: final(children)@, ..old(self)@ }),
    {
        self.children.as_mut_slice()
    }

    /// Lays the children out, with the sizes that they have.
    fn reflow(&mut self)
        ensures
            old(self)@.arranged(old(self)@.sizes(), old(self)@.contents(), final(self)@),
    {
        let sizes = self.measure();
        self.arrange(&sizes);
    }

    /// The sizes of the children along the main axis.
    fn measure(&self) -> (sizes: Vec<i32>)
        ensures
            sizes@.len() == self@.children.len(),
            as_ints(sizes@) == self@.sizes(),
    {
        let n = self.children.len();
        let horizontal = match self.orientation {
            Orientation::Horizontal => true,
            Orientation::Vertical => false,
        };
        let mut sizes: Vec<i32> = Vec::new();
        let mut i: usize = 0;
        while i < n
            invariant
                i <= n,
                n == self.children@.len(),
                horizontal == (self.orientation is Horizontal),
                sizes@.len() == i,
                forall|j: int| 0 <= j < i ==> sizes@[j] == self@.sizes()[j],
            decreases n - i,
        {
            let child_bounds = self.children[i].bounds();
            let size = if horizontal {
                child_bounds.width
            } else {
                child_bounds.height
            };
            sizes.push(size);
            i += 1;
        }
        assert(as_ints(sizes@) =~= self@.sizes());
        sizes
    }

    /// Gives every child the bounds of its slot, the children counting with
    /// the sizes `sizes` along the main axis.
    fn arrange(&mut self, sizes: &Vec<i32>)
        requires
            sizes@.len() == old(self).children@.len(),
        ensures
            old(self)@.arranged(as_ints(sizes@), old(self)@.contents(), final(self)@),
    {
        let n = self.children.len();
        let horizontal = match self.orientation {
            Orientation::Horizontal => true,
            Orientation::Vertical => false,
        };
        let ghost view = self@;
        let ghost given = as_ints(sizes@);
        // What the children that keep their size take, and how many share the rest.
        let mut total_fixed: i128 = 0;
        let mut flex_components: i128 = 0;
        let mut i: usize = 0;
        assert(given.take(0) =~= Seq::<int>::empty());
        while i < n
            invariant
                i <= n,
                n == sizes@.len(),
                given == as_ints(sizes@),
                total_fixed == fixed_total(given.take(i as int)),
                flex_components == flexible_count(given.take(i as int)),
                0 <= total_fixed <= i * 0x7fff_ffff,
                0 <= flex_components <= i,
            decreases n - i,
        {
            let size = sizes[i];
            proof {
                assert(given.take(i + 1).drop_last() =~= given.take(i as int));
                assert(given.take(i + 1).last() == size);
            }
            if size > 0 {
                total_fixed += size as i128;
            } else {
                flex_components += 1;
            }
            i += 1;
        }
        assert(given.take(n as int) =~= given);
        let extent = if horizontal {
            self.bounds.width
        } else {
            self.bounds.height
        };
        let spacing = self.spacing as i128;
        let padding = self.padding as i128;
        let gaps = if n > 0 {
            assert(-0x8000_0000 * 0xffff_ffff_ffff_ffff <= spacing * (n - 1) <= 0x8000_0000
                * 0xffff_ffff_ffff_ffff) by (nonlinear_arith)
                requires
                    -0x8000_0000 <= spacing <= 0x8000_0000,
                    0 <= n - 1 <= 0xffff_ffff_ffff_ffff,
            ;
            spacing * (n as i128 - 1)
        } else {
            0
        };
        let rest = extent as i128 - 2 * padding - gaps - total_fixed;
        let flex_size: i32 = if flex_components > 0 {
            saturate(rest / flex_components)
        } else {
            0
        };
        assert(flex_size == view.flex(given));
        let (cross_position, cross_size) = if horizontal {
            (
                saturate(self.bounds.y as i128 + padding),
                saturate(self.bounds.height as i128 - 2 * padding),
            )
        } else {
            (
                saturate(self.bounds.x as i128 + padding),
                saturate(self.bounds.width as i128 - 2 * padding),
            )
        };
        let origin = if horizontal {
            self.bounds.x as i128
        } else {
            self.bounds.y as i128
        };
        // Each child starts where the one before it ended, one gap further.
        let mut current_offset: i128 = padding;
        let mut i: usize = 0;
        while i < n
            invariant
                i <= n,
                n == self.children@.len(),
                n == sizes@.len(),
                given == as_ints(sizes@),
                self.bounds == view.bounds,
                self.orientation == view.orientation,
                self.spacing == view.spacing,
                self.padding == view.padding,
                spacing == view.spacing,
                padding == view.padding,
                horizontal == (view.orientation is Horizontal),
                flex_size == view.flex(given),
                origin == (if horizontal {
                    view.bounds.x
                } else {
                    view.bounds.y
                }),
                cross_position == (if horizontal {
                    clamp_i32(view.bounds.y + view.padding)
                } else {
                    clamp_i32(view.bounds.x + view.padding)
                }),
                cross_size == (if horizontal {
                    clamp_i32(view.bounds.height - 2 * view.padding)
                } else {
                    clamp_i32(view.bounds.width - 2 * view.padding)
                }),
                current_offset == offset_of(
                    view.padding,
                    view.spacing,
                    given,
                    view.flex(given),
                    i as int,
                ),
                -0x8000_0000 - i * 0x1_0000_0000 <= current_offset <= 0x8000_0000 + i
                    * 0x1_0000_0000,
                forall|j: int|
                    0 <= j < i ==> (#[trigger] self.children@[j]).frame() == view.slot(given, j),
                forall|j: int|
                    0 <= j < n ==> (#[trigger] self.children@[j]).content()
                        == view.children[j].content(),
            decreases n - i,
        {
            let size = sizes[i];
            let main_size = if size > 0 {
                size
            } else {
                flex_size
            };
            let main_position = saturate(origin + current_offset);
            if horizontal {
                self.children[i].set_position(main_position, cross_position);
                self.children[i].set_size(main_size, cross_size);
            } else {
                self.children[i].set_position(cross_position, main_position);
                self.children[i].set_size(cross_size, main_size);
            }
            current_offset += main_size as i128 + spacing;
            i += 1;
        }
    }
}

impl Component for Layout {
    open spec fn frame(&self) -> Rect {
        self@.bounds
    }

    /// A layout draws nothing of its own: it renders its children in the
    /// order in which they were added.
    open spec fn painted(&self, canvas: Canvas) -> Canvas {
        paint_children(self@.children, canvas, self@.children.len() as int).0
    }

    open spec fn render_outcome(&self, canvas: Canvas) -> Result<(), UiError> {
        paint_children(self@.children, canvas, self@.children.len() as int).1
    }

    open spec fn claims(&self, x: int, y: int) -> bool {
        self@.takes(x, y)
    }

    open spec fn content(&self) -> Content {
        self@.content()
    }

    open spec fn tapped(&self, x: int, y: int, after: Content) -> bool {
        exists|next: LayoutView| #[trigger] self@.tapped(x, y, next) && after == next.content()
    }

    open spec fn update_outcome(&self) -> Result<(), UiError> {
        self@.update_outcome()
    }

    open spec fn updated(&self, after: Content) -> bool {
        exists|next: LayoutView| #[trigger] self@.updated(next) && after == next.content()
    }

    /// A path leads into a layout through the child that its first index
    /// names, and on from there by what is left of it.
    open spec fn label_at(&self, path: Seq<usize>) -> Option<Label> {
        if path.len() == 0 || path[0] >= self@.children.len() {
            None
        } else {
            self@.children[path[0] as int].label_at(path.subrange(1, path.len() as int))
        }
    }

    fn bounds(&self) -> (bounds: &Rect)
        ensures
            *bounds == self@.bounds,
    {
        &self.bounds
    }

    /// Moves the layout and every child by as much. The children are not
    /// laid out again.
    fn set_position(&mut self, x: i32, y: i32)
        ensures
            old(self)@.shifted(x - old(self)@.bounds.x, y - old(self)@.bounds.y, final(self)@),
    {
        let dx = x as i128 - self.bounds.x as i128;
        let dy = y as i128 - self.bounds.y as i128;
        self.bounds.x = x;
        self.bounds.y = y;
        let n = self.children.len();
        let mut i: usize = 0;
        while i < n
            invariant
                i <= n,
                n == self.children@.len(),
                n == old(self).children@.len(),
                dx == x - old(self).bounds.x,
                dy == y - old(self).bounds.y,
                self.bounds == (Rect { x, y, ..old(self).bounds }),
                self.orientation == old(self).orientation,
                self.spacing == old(self).spacing,
                self.padding == old(self).padding,
                forall|j: int| i <= j < n ==> self.children@[j] == old(self).children@[j],
                forall|j: int|
                    0 <= j < i ==> (#[trigger] self.children@[j]).frame() == (Rect {
                        x: clamp_i32(old(self).children@[j].frame().x + dx) as i32,
                        y: clamp_i32(old(self).children@[j].frame().y + dy) as i32,
                        ..old(self).children@[j].frame()
                    }),
                forall|j: int|
                    0 <= j < n ==> (#[trigger] self.children@[j]).content() == old(
                        self,
                    ).children@[j].content(),
            decreases n - i,
        {
            let child_bounds = self.children[i].bounds();
            let child_x = saturate(child_bounds.x as i128 + dx);
            let child_y = saturate(child_bounds.y as i128 + dy);
            self.children[i].set_position(child_x, child_y);
            i += 1;
        }
        assert(self@.contents() =~= old(self)@.contents());
    }

    /// Resizes the layout and lays the children out.
    fn set_size(&mut self, width: i32, height: i32)
        ensures
            (LayoutView { bounds: Rect { width, height, ..old(self)@.bounds }, ..old(self)@ }).arranged(
                old(self)@.sizes(),
                old(self)@.contents(),
                final(self)@,
            ),
    {
        self.bounds.width = width;
        self.bounds.height = height;
        assert(self@.sizes() =~= old(self)@.sizes());
        assert(self@.contents() =~= old(self)@.contents());
        self.reflow();
        assert(self@.contents() =~= old(self)@.contents());
    }

    fn render(&self, paint: &mut Paint) -> (outcome: Result<(), UiError>)
        ensures
            self@.renders_widgets(old(paint)@),
    {
        let n = self.children.len();
        let mut i: usize = 0;
        while i < n
            invariant
                i <= n,
                n == self.children@.len(),
                paint_children(self.children@, old(paint)@, i as int).0 == paint@,
                paint_children(self.children@, old(paint)@, i as int).1 == Ok::<(), UiError>(()),
                forall|k: int|
                    0 <= k < i && (#[trigger] self.children@[k]).content().is_widget() ==> {
                        let before = paint_children(self.children@, old(paint)@, k).0;
                        &&& self.children@[k].painted(before) == self.children@[k].content().shown(
                            self.children@[k].frame(),
                            before,
                        )
                        &&& self.children@[k].render_outcome(before) is Ok
                    },
            decreases n - i,
        {
            match self.children[i].render(paint) {
                Ok(done) => {
                    assert(done == ());
                },
                Err(error) => {
                    proof {
                        lemma_paint_children_stops(self.children@, old(paint)@, i + 1, n as int);
                        assert forall|k: int| i < k < n implies paint_children(
                            self.children@,
                            old(paint)@,
                            k,
                        ).1 is Err by {
                            lemma_paint_children_stops(self.children@, old(paint)@, i + 1, k);
                        }
                    }
                    return Err(error);
                },
            }
            i += 1;
        }
        Ok(())
    }

    /// Hands the tap to the children in the order in which they were added,
    /// up to the first that claims it; the children after that one are not
    /// asked. A tap that no child claims is the layout's if it falls in its
    /// bounds.
    fn handle_tap(&mut self, x: i32, y: i32) -> (claimed: bool)
        ensures
            old(self)@.tapped(x as int, y as int, final(self)@),
    {
        let n = self.children.len();
        let mut i: usize = 0;
        while i < n
            invariant
                i <= n,
                n == self.children@.len(),
                n == old(self).children@.len(),
                self.bounds == old(self).bounds,
                self.orientation == old(self).orientation,
                self.spacing == old(self).spacing,
                self.padding == old(self).padding,
                first_claimer(old(self).children@, x as int, y as int, i as int) is None,
                forall|j: int| i <= j < n ==> self.children@[j] == old(self).children@[j],
                forall|j: int|
                    0 <= j < n ==> (#[trigger] self.children@[j]).frame() == old(
                        self,
                    ).children@[j].frame(),
                forall|j: int|
                    0 <= j < i ==> old(self).children@[j].tapped(
                        x as int,
                        y as int,
                        (#[trigger] self.children@[j]).content(),
                    ),
                forall|j: int|
                    0 <= j < i && (#[trigger] old(self).children@[j]).content().is_widget()
                        ==> old(self).children@[j].claims(x as int, y as int) == old(
                        self,
                    ).children@[j].content().takes(
                        old(self).children@[j].frame(),
                        x as int,
                        y as int,
                    ),
                forall|j: int|
                    0 <= j < i && old(self).children@[j].content().is_widget() ==> old(
                        self,
                    ).children@[j].content().taken(
                        old(self).children@[j].frame(),
                        x as int,
                        y as int,
                        (#[trigger] self.children@[j]).content(),
                    ),
            decreases n - i,
        {
            if self.children[i].handle_tap(x, y) {
                proof {
                    lemma_first_claimer_stays(
                        old(self).children@,
                        x as int,
                        y as int,
                        i + 1,
                        n as int,
                    );
                    assert(old(self)@.tap_reach(x as int, y as int) == i);
                    assert(old(self)@.tapped(x as int, y as int, self@));
                }
                return true;
            }
            i += 1;
        }
        proof {
            assert(old(self)@.tap_reach(x as int, y as int) == n - 1);
            assert(old(self)@.tapped(x as int, y as int, self@));
        }
        self.bounds.contains(x, y)
    }

    /// Hands the tick to the children in the order in which they were added,
    /// up to the first that fails; the children after that one are not
    /// updated, and what it returned is returned.
    fn update(&mut self) -> (outcome: Result<(), UiError>)
        ensures
            old(self)@.updated(final(self)@),
    {
        let n = self.children.len();
        let mut i: usize = 0;
        while i < n
            invariant
                i <= n,
                n == self.children@.len(),
                n == old(self).children@.len(),
                self.bounds == old(self).bounds,
                self.orientation == old(self).orientation,
                self.spacing == old(self).spacing,
                self.padding == old(self).padding,
                first_failure(old(self).children@, i as int) is None,
                forall|j: int| i <= j < n ==> self.children@[j] == old(self).children@[j],
                forall|j: int|
                    0 <= j < i ==> old(self).children@[j].updated(
                        (#[trigger] self.children@[j]).content(),
                    ),
                forall|j: int|
                    0 <= j < i && (#[trigger] old(self).children@[j]).content().is_widget()
                        ==> old(self).children@[j].update_outcome() is Ok,
                forall|j: int|
                    0 <= j < i && old(self).children@[j].content().is_widget() ==> {
                        &&& (#[trigger] self.children@[j]).content() == old(
                            self,
                        ).children@[j].content()
                        &&& self.children@[j].frame() == old(self).children@[j].frame()
                    },
            decreases n - i,
        {
            match self.children[i].update() {
                Ok(()) => {},
                Err(error) => {
                    proof {
                        lemma_first_failure_stays(old(self).children@, i + 1, n as int);
                        assert(old(self)@.update_reach() == i);
                        assert(old(self)@.updated(self@));
                    }
                    return Err(error);
                },
            }
            i += 1;
        }
        proof {
            assert(old(self)@.update_reach() == n - 1);
            assert(old(self)@.updated(self@));
        }
        Ok(())
    }

    /// The label that `path` leads to: the one that the rest of the path
    /// leads to from the child that its first index names. Nothing but that
    /// child can change through it.
    fn label_at_mut(&mut self, path: &[usize]) -> (label: Option<&mut Label>)
        ensures
            final(self)@.bounds == old(self)@.bounds,
            final(self)@.orientation == old(self)@.orientation,
            final(self)@.spacing == old(self)@.spacing,
            final(self)@.padding == old(self)@.padding,
            final(self)@.children.len() == old(self)@.children.len(),
            forall|j: int|
                0 <= j < old(self)@.children.len() && (path@.len() == 0 || j != path@[0])
                    ==> #[trigger] final(self)@.children[j] == old(self)@.children[j],
            label is None ==> final(self)@.contents() == old(self)@.contents(),
            label is Some ==> path@.len() > 0 && path@[0] < old(self)@.children.len(),
    {
        if path.len() == 0 {
            return None;
        }
        let index = path[0];
        if index >= self.children.len() {
            return None;
        }
        proof {
            // Children that hold the same, one by one, hold the same together.
            assert forall|a: LayoutView, b: LayoutView|
                a.children.len() == b.children.len() && (forall|j: int|
                    0 <= j < a.children.len() ==> (#[trigger] a.children[j]).content()
                        == b.children[j].content()) implies #[trigger] a.contents()
                == #[trigger] b.contents() by {
                assert(a.contents() =~= b.contents());
            }
            assert forall|a: LayoutView, b: LayoutView, k: int, held: Content|
                a.children.len() == b.children.len() && 0 <= k < a.children.len()
                    && b.children[k].content() == held && (forall|j: int|
                    0 <= j < a.children.len() && j != k ==> (#[trigger] b.children[j]).content()
                        == a.children[j].content()) implies #[trigger] b.contents()
                == #[trigger] a.contents().update(k, held) by {
                assert(b.contents() =~= a.contents().update(k, held));
            }
        }
        self.children[index].label_at_mut(slice_subrange(path, 1, path.len()))
    }

    /// Enables or disables the button that `path` leads to: the one that the
    /// rest of the path leads to from the child that its first index names.
    /// Nothing but that child can change by it, and nothing moves.
    fn set_enabled_at(&mut self, path: &[usize], enabled: bool) -> (found: bool)
        ensures
            final(self)@.bounds == old(self)@.bounds,
            final(self)@.orientation == old(self)@.orientation,
            final(self)@.spacing == old(self)@.spacing,
            final(self)@.padding == old(self)@.padding,
            final(self)@.children.len() == old(self)@.children.len(),
            forall|j: int|
                0 <= j < old(self)@.children.len() ==> (#[trigger] final(self)@.children[j]).frame()
                    == old(self)@.children[j].frame(),
            forall|j: int|
                0 <= j < old(self)@.children.len() && (path@.len() == 0 || j != path@[0])
                    ==> #[trigger] final(self)@.children[j] == old(self)@.children[j],
    {
        if path.len() == 0 {
            return false;
        }
        let index = path[0];
        if index >= self.children.len() {
            return false;
        }
        let rest = slice_subrange(path, 1, path.len());
        let found = self.children[index].set_enabled_at(rest, enabled);
        proof {
            let before = old(self)@.contents();
            let child = self.children@[index as int].content();
            assert(self@.contents() =~= before.update(index as int, child));
            assert(before.update(index as int, before[index as int]) =~= before);
        }
        found
    }

    /// Gives the button that `path` leads to the caption `caption`: the one
    /// that the rest of the path leads to from the child that its first index
    /// names. Nothing but that child can change by it, and nothing moves.
    fn set_caption_at(&mut self, path: &[usize], caption: &str) -> (found: bool)
        ensures
            final(self)@.bounds == old(self)@.bounds,
            final(self)@.orientation == old(self)@.orientation,
            final(self)@.spacing == old(self)@.spacing,
            final(self)@.padding == old(self)@.padding,
            final(self)@.children.len() == old(self)@.children.len(),
            forall|j: int|
                0 <= j < old(self)@.children.len() ==> (#[trigger] final(self)@.children[j]).frame()
                    == old(self)@.children[j].frame(),
            forall|j: int|
                0 <= j < old(self)@.children.len() && (path@.len() == 0 || j != path@[0])
                    ==> #[trigger] final(self)@.children[j] == old(self)@.children[j],
    {
        if path.len() == 0 {
            return false;
        }
        let index = path[0];
        if index >= self.children.len() {
            return false;
        }
        let rest = slice_subrange(path, 1, path.len());
        let found = self.children[index].set_caption_at(rest, caption);
        proof {
            let before = old(self)@.contents();
            let child = self.children@[index as int].content();
            assert(self@.contents() =~= before.update(index as int, child));
            assert(before.update(index as int, before[index as int]) =~= before);
        }
        found
    }
}

} // verus!
