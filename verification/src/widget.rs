//! The widget tree: leaf and container widgets with a uniform capability
//! set — report a size, render into a [`Surface`], take pointer input and
//! answer with a [`Damage`] description.
//!
//! Containers own their children; a container's size is always the stated
//! function of its children's sizes plus its margin or frame, recomputed on
//! every query, so it can never go stale when a child is replaced.

use vstd::prelude::*;

verus! {

use crate::surface::Surface;
use crate::surface::TRANSPARENT;
use crate::surface::blit;
use crate::surface::fill;

/// The axis along which a [`Widget::List`] lays out its children.
#[derive(Clone, Copy, PartialEq, Eq, Structural)]
pub enum Orientation {
    Horizontal,
    Vertical,
}

/// One pointer event, dispatched into the tree at a position.
#[derive(Clone, Copy)]
pub enum Input {
    MouseClick { time: u32, button: u32, pressed: bool },
    Hover,
}

/// What a change did to the picture, driving partial or full redraw.
pub enum Damage {
    /// No visual effect.
    Nothing,
    /// Structural state changed: the owner must rebuild its tree and redraw
    /// everything. Widgets themselves never answer input with this.
    Own,
    /// A fully rendered patch to composite at `(x, y)` of the owner's frame;
    /// only that rectangle is dirty.
    Area { surface: Surface, x: u32, y: u32 },
    /// A fully rendered replacement for the whole frame.
    All { surface: Surface },
    /// Clear the frame to fully transparent (hide or teardown).
    Destroy,
}

/// A drawable widget. Leaves are solid rectangles; containers wrap children
/// and derive their own size from the children's sizes.
pub enum Widget {
    /// A solid `width` by `height` block of one color.
    Rectangle { width: u32, height: u32, color: u32 },
    /// One child framed by a `thickness`-wide colored border.
    Border { thickness: u32, color: u32, child: Box<Widget> },
    /// One child over a solid fill inset by `padding` on every side.
    Background { padding: u32, color: u32, child: Box<Widget> },
    /// A fixed-size box stacking `layers`, each drawn centered, later layers
    /// on top.
    Node { width: u32, height: u32, layers: Vec<Widget> },
    /// Children laid out along one axis, `margin` around and between them,
    /// over a solid fill.
    List { orientation: Orientation, margin: u32, color: u32, children: Vec<Widget> },
    /// One child that reacts to pointer clicks: while pressed it shows a
    /// solid `pressed_color` block; releasing it restores the child and
    /// fires the external action `action` (a tag mask to focus).
    Button { pressed: bool, pressed_color: u32, action: u32, child: Box<Widget> },
}

/// The mathematical shape of a widget: the same tree with ghost sequences
/// for children. All contracts speak of this view.
pub enum WidgetView {
    Rectangle { width: u32, height: u32, color: u32 },
    Border { thickness: u32, color: u32, child: Box<WidgetView> },
    Background { padding: u32, color: u32, child: Box<WidgetView> },
    Node { width: u32, height: u32, layers: Seq<WidgetView> },
    List { orientation: Orientation, margin: u32, color: u32, children: Seq<WidgetView> },
    Button { pressed: bool, pressed_color: u32, action: u32, child: Box<WidgetView> },
}

/// The view of a widget.
pub open spec fn view_of(w: Widget) -> WidgetView
    decreases w,
{
    match w {
        Widget::Rectangle { width, height, color } => WidgetView::Rectangle { width, height, color },
        Widget::Border { thickness, color, child } => WidgetView::Border {
            thickness,
            color,
            child: Box::new(view_of(*child)),
        },
        Widget::Background { padding, color, child } => WidgetView::Background {
            padding,
            color,
            child: Box::new(view_of(*child)),
        },
        Widget::Node { width, height, layers } => WidgetView::Node {
            width,
            height,
            layers: views_of(layers@),
        },
        Widget::List { orientation, margin, color, children } => WidgetView::List {
            orientation,
            margin,
            color,
            children: views_of(children@),
        },
        Widget::Button { pressed, pressed_color, action, child } => WidgetView::Button {
            pressed,
            pressed_color,
            action,
            child: Box::new(view_of(*child)),
        },
    }
}

/// The views of a sequence of widgets, element by element.
pub open spec fn views_of(s: Seq<Widget>) -> Seq<WidgetView>
    decreases s,
{
    if s.len() == 0 {
        Seq::empty()
    } else {
        views_of(s.drop_last()).push(view_of(s.last()))
    }
}

/// `views_of` maps element by element.
pub proof fn lemma_views_of(s: Seq<Widget>)
    ensures
        views_of(s).len() == s.len(),
        forall|i: int| 0 <= i < s.len() ==> views_of(s)[i] == view_of(s[i]),
    decreases s.len(),
{
    if s.len() > 0 {
        lemma_views_of(s.drop_last());
    }
}

/// The width a widget reports: a rectangle or node its own, a frame its
/// child's plus twice the frame, a horizontal list the sum of its children's
/// widths with a margin around and between them, a vertical list the widest
/// child plus the margin on both sides, a button its child's.
pub open spec fn spec_width(v: WidgetView) -> int
    decreases v,
{
    match v {
        WidgetView::Rectangle { width, .. } => width as int,
        WidgetView::Border { thickness, child, .. } => spec_width(*child) + 2 * thickness,
        WidgetView::Background { padding, child, .. } => spec_width(*child) + 2 * padding,
        WidgetView::Node { width, .. } => width as int,
        WidgetView::List { orientation, margin, children, .. } => match orientation {
            Orientation::Horizontal => sum_widths(children) + margin * (children.len() + 1),
            Orientation::Vertical => max_widths(children) + 2 * margin,
        },
        WidgetView::Button { child, .. } => spec_width(*child),
    }
}

/// The height a widget reports; the mirror image of [`spec_width`].
pub open spec fn spec_height(v: WidgetView) -> int
    decreases v,
{
    match v {
        WidgetView::Rectangle { height, .. } => height as int,
        WidgetView::Border { thickness, child, .. } => spec_height(*child) + 2 * thickness,
        WidgetView::Background { padding, child, .. } => spec_height(*child) + 2 * padding,
        WidgetView::Node { height, .. } => height as int,
        WidgetView::List { orientation, margin, children, .. } => match orientation {
            Orientation::Horizontal => max_heights(children) + 2 * margin,
            Orientation::Vertical => sum_heights(children) + margin * (children.len() + 1),
        },
        WidgetView::Button { child, .. } => spec_height(*child),
    }
}

pub open spec fn sum_widths(s: Seq<WidgetView>) -> int
    decreases s,
{
    if s.len() == 0 {
        0
    } else {
        sum_widths(s.drop_last()) + spec_width(s.last())
    }
}

pub open spec fn sum_heights(s: Seq<WidgetView>) -> int
    decreases s,
{
    if s.len() == 0 {
        0
    } else {
        sum_heights(s.drop_last()) + spec_height(s.last())
    }
}

pub open spec fn max_widths(s: Seq<WidgetView>) -> int
    decreases s,
{
    if s.len() == 0 {
        0
    } else if spec_width(s.last()) > max_widths(s.drop_last()) {
        spec_width(s.last())
    } else {
        max_widths(s.drop_last())
    }
}

pub open spec fn max_heights(s: Seq<WidgetView>) -> int
    decreases s,
{
    if s.len() == 0 {
        0
    } else if spec_height(s.last()) > max_heights(s.drop_last()) {
        spec_height(s.last())
    } else {
        max_heights(s.drop_last())
    }
}

/// A well-formed widget: every size the tree can report fits a `u32`, and
/// the layers of a node fit inside the node, so centering them never
/// overhangs.
pub open spec fn wf(v: WidgetView) -> bool
    decreases v,
{
    match v {
        WidgetView::Rectangle { .. } => true,
        WidgetView::Border { thickness, child, .. } => {
            &&& wf(*child)
            &&& spec_width(*child) + 2 * thickness <= u32::MAX
            &&& spec_height(*child) + 2 * thickness <= u32::MAX
        },
        WidgetView::Background { padding, child, .. } => {
            &&& wf(*child)
            &&& spec_width(*child) + 2 * padding <= u32::MAX
            &&& spec_height(*child) + 2 * padding <= u32::MAX
        },
        WidgetView::Node { width, height, layers } => {
            &&& wf_seq(layers)
            &&& forall|i: int|
                0 <= i < layers.len() ==> #[trigger] spec_width(layers[i]) <= width && spec_height(
                    layers[i],
                ) <= height
        },
        WidgetView::List { margin, children, .. } => {
            &&& wf_seq(children)
            &&& spec_width(v) <= u32::MAX
            &&& spec_height(v) <= u32::MAX
        },
        WidgetView::Button { child, .. } => wf(*child),
    }
}

pub open spec fn wf_seq(s: Seq<WidgetView>) -> bool
    decreases s,
{
    if s.len() == 0 {
        true
    } else {
        wf_seq(s.drop_last()) && wf(s.last())
    }
}

/// A well-formed sequence is well-formed element by element.
pub proof fn lemma_wf_seq(s: Seq<WidgetView>)
    requires
        wf_seq(s),
    ensures
        forall|i: int| 0 <= i < s.len() ==> wf(#[trigger] s[i]),
    decreases s.len(),
{
    if s.len() > 0 {
        lemma_wf_seq(s.drop_last());
        assert(forall|i: int| 0 <= i < s.len() - 1 ==> s[i] == s.drop_last()[i]);
    }
}

/// No widget reports a negative size, and no sum or maximum of sizes is
/// negative.
pub proof fn lemma_size_nonneg(v: WidgetView)
    ensures
        spec_width(v) >= 0,
        spec_height(v) >= 0,
    decreases v,
{
    match v {
        WidgetView::Border { child, .. } => lemma_size_nonneg(*child),
        WidgetView::Background { child, .. } => lemma_size_nonneg(*child),
        WidgetView::List { children, .. } => lemma_seq_sizes_nonneg(children),
        WidgetView::Button { child, .. } => lemma_size_nonneg(*child),
        _ => {},
    }
}

pub proof fn lemma_seq_sizes_nonneg(s: Seq<WidgetView>)
    ensures
        sum_widths(s) >= 0,
        sum_heights(s) >= 0,
        max_widths(s) >= 0,
        max_heights(s) >= 0,
        forall|i: int|
            0 <= i < s.len() ==> #[trigger] spec_width(s[i]) >= 0 && spec_height(s[i]) >= 0,
    decreases s,
{
    if s.len() > 0 {
        lemma_seq_sizes_nonneg(s.drop_last());
        lemma_size_nonneg(s.last());
        assert(forall|i: int| 0 <= i < s.len() - 1 ==> s[i] == s.drop_last()[i]);
    }
}

/// A well-formed widget reports sizes that fit a `u32`.
pub proof fn lemma_size_bounded(v: WidgetView)
    requires
        wf(v),
    ensures
        spec_width(v) <= u32::MAX,
        spec_height(v) <= u32::MAX,
    decreases v,
{
    match v {
        WidgetView::Button { child, .. } => {
            lemma_size_bounded(*child);
        },
        _ => {},
    }
}

/// Extending a prefix by one element grows its sum by that element's size
/// and its maximum to at least that element's size.
pub proof fn lemma_take_step(s: Seq<WidgetView>, i: int)
    requires
        0 <= i < s.len(),
    ensures
        sum_widths(s.take(i + 1)) == sum_widths(s.take(i)) + spec_width(s[i]),
        sum_heights(s.take(i + 1)) == sum_heights(s.take(i)) + spec_height(s[i]),
        max_widths(s.take(i + 1)) == if spec_width(s[i]) > max_widths(s.take(i)) {
            spec_width(s[i])
        } else {
            max_widths(s.take(i))
        },
        max_heights(s.take(i + 1)) == if spec_height(s[i]) > max_heights(s.take(i)) {
            spec_height(s[i])
        } else {
            max_heights(s.take(i))
        },
{
    assert(s.take(i + 1).drop_last() =~= s.take(i));
    assert(s.take(i + 1).last() == s[i]);
}

/// Every prefix sum is at most the whole sum, and every element is at most
/// the maximum; the whole sequence is its own `len`-prefix.
pub proof fn lemma_prefix_bounds(s: Seq<WidgetView>, i: int)
    requires
        0 <= i <= s.len(),
    ensures
        sum_widths(s.take(i)) <= sum_widths(s),
        sum_heights(s.take(i)) <= sum_heights(s),
        max_widths(s.take(i)) <= max_widths(s),
        max_heights(s.take(i)) <= max_heights(s),
    decreases s.len() - i,
{
    if i == s.len() {
        assert(s.take(i) =~= s);
    } else {
        lemma_take_step(s, i);
        lemma_seq_sizes_nonneg(s);
        lemma_prefix_bounds(s, i + 1);
    }
}

impl Widget {
    /// The width of this widget: the stated function of its own fields and
    /// its children's sizes, recomputed bottom-up on every call.
    pub fn get_width(&self) -> (w: u32)
        requires
            wf(view_of(*self)),
        ensures
            w == spec_width(view_of(*self)),
        decreases *self,
    {
        proof {
            lemma_size_nonneg(view_of(*self));
        }
        match self {
            Widget::Rectangle { width, .. } => *width,
            Widget::Border { thickness, child, .. } => {
                proof {
                    lemma_size_nonneg(view_of(**child));
                }
                child.get_width() + 2 * *thickness
            },
            Widget::Background { padding, child, .. } => {
                proof {
                    lemma_size_nonneg(view_of(**child));
                }
                child.get_width() + 2 * *padding
            },
            Widget::Node { width, .. } => *width,
            Widget::List { orientation, margin, children, .. } => {
                proof {
                    lemma_views_of(children@);
                }
                let ghost views = views_of(children@);
                let n = children.len();
                match orientation {
                    Orientation::Horizontal => {
                        let mut acc: u32 = *margin;
                        let mut i: usize = 0;
                        proof {
                            assert(views.take(0) =~= Seq::<WidgetView>::empty());
                        }
                        while i < n
                            invariant
                                wf(view_of(*self)),
                                self matches Widget::List { orientation: o2, margin: m2, children: c2, .. }
                                    && o2 == Orientation::Horizontal && m2 == *margin && c2@ == children@,
                                views == views_of(children@),
                                views.len() == n == children@.len(),
                                forall|j: int| 0 <= j < n ==> views[j] == view_of(children@[j]),
                                i <= n,
                                acc == sum_widths(views.take(i as int)) + margin * (i + 1),
                            decreases n - i,
                        {
                            proof {
                                lemma_wf_at(children@, i as int);
                                lemma_take_step(views, i as int);
                                lemma_prefix_bounds(views, i as int + 1);
                                lemma_seq_sizes_nonneg(views);
                                let m = *margin as int;
                                assert(spec_width(view_of(*self)) == sum_widths(views) + m
                                    * (n as int + 1));
                                assert(m * (i as int + 2) == m * (i as int + 1) + m)
                                    by (nonlinear_arith);
                                assert(m * (i as int + 2) <= m * (n as int + 1))
                                    by (nonlinear_arith)
                                    requires
                                        i as int + 2 <= n as int + 1,
                                        m >= 0,
                                ;
                                assert(acc + spec_width(views[i as int]) + *margin
                                    <= spec_width(view_of(*self)));
                            }
                            let cw = children[i].get_width();
                            acc = acc + cw + *margin;
                            i = i + 1;
                        }
                        proof {
                            assert(views.take(n as int) =~= views);
                        }
                        acc
                    },
                    Orientation::Vertical => {
                        let mut acc: u32 = 0;
                        let mut i: usize = 0;
                        proof {
                            assert(views.take(0) =~= Seq::<WidgetView>::empty());
                        }
                        while i < n
                            invariant
                                wf(view_of(*self)),
                                self matches Widget::List { orientation: o2, margin: m2, children: c2, .. }
                                    && o2 == Orientation::Vertical && m2 == *margin && c2@ == children@,
                                views == views_of(children@),
                                views.len() == n == children@.len(),
                                forall|j: int| 0 <= j < n ==> views[j] == view_of(children@[j]),
                                i <= n,
                                acc == max_widths(views.take(i as int)),
                            decreases n - i,
                        {
                            proof {
                                lemma_wf_at(children@, i as int);
                                lemma_take_step(views, i as int);
                                lemma_prefix_bounds(views, i as int + 1);
                                lemma_seq_sizes_nonneg(views);
                            }
                            let cw = children[i].get_width();
                            if cw > acc {
                                acc = cw;
                            }
                            i = i + 1;
                        }
                        proof {
                            assert(views.take(n as int) =~= views);
                        }
                        acc + 2 * *margin
                    },
                }
            },
            Widget::Button { child, .. } => child.get_width(),
        }
    }

    /// The height of this widget: the stated function of its own fields and
    /// its children's sizes, recomputed bottom-up on every call.
    pub fn get_height(&self) -> (h: u32)
        requires
            wf(view_of(*self)),
        ensures
            h == spec_height(view_of(*self)),
        decreases *self,
    {
        proof {
            lemma_size_nonneg(view_of(*self));
        }
        match self {
            Widget::Rectangle { height, .. } => *height,
            Widget::Border { thickness, child, .. } => {
                proof {
                    lemma_size_nonneg(view_of(**child));
                }
                child.get_height() + 2 * *thickness
            },
            Widget::Background { padding, child, .. } => {
                proof {
                    lemma_size_nonneg(view_of(**child));
                }
                child.get_height() + 2 * *padding
            },
            Widget::Node { height, .. } => *height,
            Widget::List { orientation, margin, children, .. } => {
                proof {
                    lemma_views_of(children@);
                }
                let ghost views = views_of(children@);
                let n = children.len();
                match orientation {
                    Orientation::Vertical => {
                        let mut acc: u32 = *margin;
                        let mut i: usize = 0;
                        proof {
                            assert(views.take(0) =~= Seq::<WidgetView>::empty());
                        }
                        while i < n
                            invariant
                                wf(view_of(*self)),
                                self matches Widget::List { orientation: o2, margin: m2, children: c2, .. }
                                    && o2 == Orientation::Vertical && m2 == *margin && c2@ == children@,
                                views == views_of(children@),
                                views.len() == n == children@.len(),
                                forall|j: int| 0 <= j < n ==> views[j] == view_of(children@[j]),
                                i <= n,
                                acc == sum_heights(views.take(i as int)) + margin * (i + 1),
                            decreases n - i,
                        {
                            proof {
                                lemma_wf_at(children@, i as int);
                                lemma_take_step(views, i as int);
                                lemma_prefix_bounds(views, i as int + 1);
                                lemma_seq_sizes_nonneg(views);
                                let m = *margin as int;
                                assert(spec_height(view_of(*self)) == sum_heights(views) + m
                                    * (n as int + 1));
                                assert(m * (i as int + 2) == m * (i as int + 1) + m)
                                    by (nonlinear_arith);
                                assert(m * (i as int + 2) <= m * (n as int + 1))
                                    by (nonlinear_arith)
                                    requires
                                        i as int + 2 <= n as int + 1,
                                        m >= 0,
                                ;
                                assert(acc + spec_height(views[i as int]) + *margin
                                    <= spec_height(view_of(*self)));
                            }
                            let ch = children[i].get_height();
                            acc = acc + ch + *margin;
                            i = i + 1;
                        }
                        proof {
                            assert(views.take(n as int) =~= views);
                        }
                        acc
                    },
                    Orientation::Horizontal => {
                        let mut acc: u32 = 0;
                        let mut i: usize = 0;
                        proof {
                            assert(views.take(0) =~= Seq::<WidgetView>::empty());
                        }
                        while i < n
                            invariant
                                wf(view_of(*self)),
                                self matches Widget::List { orientation: o2, margin: m2, children: c2, .. }
                                    && o2 == Orientation::Horizontal && m2 == *margin && c2@ == children@,
                                views == views_of(children@),
                                views.len() == n == children@.len(),
                                forall|j: int| 0 <= j < n ==> views[j] == view_of(children@[j]),
                                i <= n,
                                acc == max_heights(views.take(i as int)),
                            decreases n - i,
                        {
                            proof {
                                lemma_wf_at(children@, i as int);
                                lemma_take_step(views, i as int);
                                lemma_prefix_bounds(views, i as int + 1);
                                lemma_seq_sizes_nonneg(views);
                            }
                            let ch = children[i].get_height();
                            if ch > acc {
                                acc = ch;
                            }
                            i = i + 1;
                        }
                        proof {
                            assert(views.take(n as int) =~= views);
                        }
                        acc + 2 * *margin
                    },
                }
            },
            Widget::Button { child, .. } => child.get_height(),
        }
    }

    /// Dispatches one pointer event into the tree, the tree sitting at
    /// `(widget_x, widget_y)` and the pointer at `(x, y)`. Answers the
    /// damage the event caused — nothing, or an `Area` patch — and the
    /// external action to fire, if a button's release fired one. A widget
    /// never answers `Own`: only the owning application decides that a full
    /// rebuild is needed.
    pub fn contains(&mut self, widget_x: u32, widget_y: u32, x: u32, y: u32, event: Input) -> (r:
        (Damage, Option<u32>))
        requires
            wf(view_of(*old(self))),
            widget_x + spec_width(view_of(*old(self))) <= u32::MAX,
            widget_y + spec_height(view_of(*old(self))) <= u32::MAX,
            spec_width(view_of(*old(self))) * spec_height(view_of(*old(self))) <= usize::MAX,
        ensures
            view_of(*final(self)) == dispatch(
                view_of(*old(self)),
                widget_x as int,
                widget_y as int,
                x as int,
                y as int,
                event,
            ).0,
            hit_matches(
                r.0,
                r.1,
                dispatch(
                    view_of(*old(self)),
                    widget_x as int,
                    widget_y as int,
                    x as int,
                    y as int,
                    event,
                ).1,
            ),
            wf(view_of(*final(self))),
            spec_width(view_of(*final(self))) == spec_width(view_of(*old(self))),
            spec_height(view_of(*final(self))) == spec_height(view_of(*old(self))),
        decreases depth(view_of(*old(self))),
    {
        proof {
            lemma_size_nonneg(view_of(*old(self)));
            lemma_dispatch_preserves(
                view_of(*old(self)),
                widget_x as int,
                widget_y as int,
                x as int,
                y as int,
                event,
            );
        }
        match self {
            Widget::Rectangle { .. } => (Damage::Nothing, None),
            Widget::Border { thickness, child, .. } => {
                let t = *thickness;
                proof {
                    lemma_size_nonneg(view_of(**child));
                    lemma_area_mono(
                        spec_width(view_of(**child)),
                        spec_height(view_of(**child)),
                        spec_width(view_of(*old(self))),
                        spec_height(view_of(*old(self))),
                    );
                }
                child.contains(widget_x + t, widget_y + t, x, y, event)
            },
            Widget::Background { padding, child, .. } => {
                let t = *padding;
                proof {
                    lemma_size_nonneg(view_of(**child));
                    lemma_area_mono(
                        spec_width(view_of(**child)),
                        spec_height(view_of(**child)),
                        spec_width(view_of(*old(self))),
                        spec_height(view_of(*old(self))),
                    );
                }
                child.contains(widget_x + t, widget_y + t, x, y, event)
            },
            Widget::Button { pressed, pressed_color, action, child } => {
                proof {
                    lemma_size_nonneg(view_of(**child));
                }
                let cw = child.get_width();
                let ch = child.get_height();
                if x >= widget_x && x - widget_x < cw && y >= widget_y && y - widget_y < ch {
                    match event {
                        Input::MouseClick { pressed: down, .. } => {
                            if down {
                                let s = Surface::solid(cw, ch, *pressed_color);
                                *pressed = true;
                                (Damage::Area { surface: s, x: widget_x, y: widget_y }, None)
                            } else {
                                let was = *pressed;
                                *pressed = false;
                                let s = child.to_surface();
                                let act: Option<u32> = if was {
                                    Some(*action)
                                } else {
                                    None
                                };
                                (Damage::Area { surface: s, x: widget_x, y: widget_y }, act)
                            }
                        },
                        _ => (Damage::Nothing, None),
                    }
                } else {
                    (Damage::Nothing, None)
                }
            },
            Widget::Node { width, height, layers } => {
                let w0 = *width;
                let h0 = *height;
                let n = layers.len();
                let ghost views = views_of(layers@);
                let ghost lv0 = layers@;
                proof {
                    lemma_views_of(layers@);
                }
                let mut got: Option<(Damage, Option<u32>)> = None;
                let mut i: usize = n;
                while i > 0
                    invariant_except_break
                        wf(view_of(*old(self))),
                        view_of(*old(self)) == (WidgetView::Node { width: w0, height: h0, layers: views }),
                        widget_x + spec_width(view_of(*old(self))) <= u32::MAX,
                        widget_y + spec_height(view_of(*old(self))) <= u32::MAX,
                        spec_width(view_of(*old(self))) * spec_height(view_of(*old(self)))
                            <= usize::MAX,
                        layers@ == lv0,
                        views == views_of(layers@),
                        views.len() == n == layers@.len(),
                        forall|j: int| 0 <= j < n ==> views[j] == view_of(layers@[j]),
                        i <= n,
                        got is None,
                        dispatch_layers(
                            views,
                            i as int,
                            w0 as int,
                            h0 as int,
                            widget_x as int,
                            widget_y as int,
                            x as int,
                            y as int,
                            event,
                        ) == dispatch_layers(
                            views,
                            n as int,
                            w0 as int,
                            h0 as int,
                            widget_x as int,
                            widget_y as int,
                            x as int,
                            y as int,
                            event,
                        ),
                    ensures
                        ({
                            let dl = dispatch_layers(
                                views,
                                n as int,
                                w0 as int,
                                h0 as int,
                                widget_x as int,
                                widget_y as int,
                                x as int,
                                y as int,
                                event,
                            );
                            &&& got matches Some(r2) ==> views_of(layers@) == dl.0
                                && hit_matches(r2.0, r2.1, dl.1)
                            &&& got is None ==> layers@ == lv0 && dl == (views, Hit::Miss)
                        }),
                    decreases i,
                {
                    let li = i - 1;
                    proof {
                        lemma_wf_at(layers@, li as int);
                        lemma_depth_at(views, li as int);
                        lemma_area_mono(
                            spec_width(views[li as int]),
                            spec_height(views[li as int]),
                            w0 as int,
                            h0 as int,
                        );
                        lemma_area_mono(
                            w0 as int,
                            h0 as int,
                            spec_width(view_of(*old(self))),
                            spec_height(view_of(*old(self))),
                        );
                    }
                    let lw = layers[li].get_width();
                    let lh = layers[li].get_height();
                    let lx = widget_x + (w0 - lw) / 2;
                    let ly = widget_y + (h0 - lh) / 2;
                    if x >= lx && x - lx < lw && y >= ly && y - ly < lh {
                        let ghost before = layers@;
                        let c = &mut layers[li];
                        let r = c.contains(lx, ly, x, y, event);
                        proof {
                            lemma_views_update(before, li as int, layers@[li as int]);
                            assert(layers@ =~= before.update(li as int, layers@[li as int]));
                            assert(views_of(layers@) == views.update(
                                li as int,
                                view_of(layers@[li as int]),
                            ));
                        }
                        got = Some(r);
                        break;
                    }
                    i = li;
                }
                match got {
                    Some(r) => r,
                    None => (Damage::Nothing, None),
                }
            },
            Widget::List { orientation, margin, children, .. } => {
                let o = *orientation;
                let m = *margin;
                let n = children.len();
                let ghost views = views_of(children@);
                let ghost cv0 = children@;
                let ghost mi = m as int;
                proof {
                    lemma_views_of(children@);
                    assert(views.take(0) =~= Seq::<WidgetView>::empty());
                }
                let mut got: Option<(Damage, Option<u32>)> = None;
                let mut off: u32 = m;
                let mut i: usize = 0;
                while i < n
                    invariant_except_break
                        wf(view_of(*old(self))),
                        (view_of(*old(self))) matches WidgetView::List { color: col2, .. }
                            && view_of(*old(self)) == (WidgetView::List { orientation: o, margin: m, color: col2, children: views }),
                        widget_x + spec_width(view_of(*old(self))) <= u32::MAX,
                        widget_y + spec_height(view_of(*old(self))) <= u32::MAX,
                        spec_width(view_of(*old(self))) * spec_height(view_of(*old(self)))
                            <= usize::MAX,
                        children@ == cv0,
                        views == views_of(children@),
                        views.len() == n == children@.len(),
                        forall|j: int| 0 <= j < n ==> views[j] == view_of(children@[j]),
                        i <= n,
                        mi == m as int,
                        got is None,
                        o is Horizontal ==> off == sum_widths(views.take(i as int)) + mi * (i + 1),
                        o is Vertical ==> off == sum_heights(views.take(i as int)) + mi * (i + 1),
                        dispatch_children(
                            views,
                            i as int,
                            off as int,
                            mi,
                            o,
                            widget_x as int,
                            widget_y as int,
                            x as int,
                            y as int,
                            event,
                        ) == dispatch_children(
                            views,
                            0,
                            mi,
                            mi,
                            o,
                            widget_x as int,
                            widget_y as int,
                            x as int,
                            y as int,
                            event,
                        ),
                    ensures
                        ({
                            let dl = dispatch_children(
                                views,
                                0,
                                mi,
                                mi,
                                o,
                                widget_x as int,
                                widget_y as int,
                                x as int,
                                y as int,
                                event,
                            );
                            &&& got matches Some(r2) ==> views_of(children@) == dl.0
                                && hit_matches(r2.0, r2.1, dl.1)
                            &&& got is None ==> children@ == cv0 && dl == (views, Hit::Miss)
                        }),
                    decreases n - i,
                {
                    proof {
                        lemma_wf_at(children@, i as int);
                        lemma_depth_at(views, i as int);
                        lemma_elem_bounds(views, i as int);
                        lemma_take_step(views, i as int);
                        lemma_prefix_bounds(views, i as int + 1);
                        lemma_seq_sizes_nonneg(views);
                        assert(mi * (n as int + 1) >= 0) by (nonlinear_arith)
                            requires
                                mi >= 0,
                                n as int + 1 >= 0,
                        ;
                        assert(mi * (i as int + 2) == mi * (i as int + 1) + mi) by (nonlinear_arith);
                        assert(mi * (i as int + 2) <= mi * (n as int + 1)) by (nonlinear_arith)
                            requires
                                i as int + 2 <= n as int + 1,
                                mi >= 0,
                        ;
                        lemma_area_mono(
                            spec_width(views[i as int]),
                            spec_height(views[i as int]),
                            spec_width(view_of(*old(self))),
                            spec_height(view_of(*old(self))),
                        );
                    }
                    let cw = children[i].get_width();
                    let ch = children[i].get_height();
                    let cx = match o {
                        Orientation::Horizontal => widget_x + off,
                        Orientation::Vertical => widget_x + m,
                    };
                    let cy = match o {
                        Orientation::Horizontal => widget_y + m,
                        Orientation::Vertical => widget_y + off,
                    };
                    if x >= cx && x - cx < cw && y >= cy && y - cy < ch {
                        let ghost before = children@;
                        let c = &mut children[i];
                        let r = c.contains(cx, cy, x, y, event);
                        proof {
                            lemma_views_update(before, i as int, children@[i as int]);
                            assert(children@ =~= before.update(
                                i as int,
                                children@[i as int],
                            ));
                            assert(views_of(children@) == views.update(
                                i as int,
                                view_of(children@[i as int]),
                            ));
                        }
                        got = Some(r);
                        break;
                    }
                    let step = match o {
                        Orientation::Horizontal => cw,
                        Orientation::Vertical => ch,
                    };
                    off = off + step + m;
                    i = i + 1;
                }
                match got {
                    Some(r) => r,
                    None => (Damage::Nothing, None),
                }
            },
        }
    }

    /// Renders this widget into a fresh surface of exactly its own size.
    pub fn to_surface(&self) -> (s: Surface)
        requires
            wf(view_of(*self)),
            spec_width(view_of(*self)) * spec_height(view_of(*self)) <= usize::MAX,
        ensures
            s.wf(),
            s.width == spec_width(view_of(*self)),
            s.height == spec_height(view_of(*self)),
            s.pixels@ == render_spec(view_of(*self)),
        decreases *self,
    {
        proof {
            lemma_size_nonneg(view_of(*self));
        }
        match self {
            Widget::Rectangle { width, height, color } => Surface::solid(*width, *height, *color),
            Widget::Border { thickness, color, child } => {
                proof {
                    lemma_size_nonneg(view_of(**child));
                    lemma_area_mono(
                        spec_width(view_of(**child)),
                        spec_height(view_of(**child)),
                        spec_width(view_of(*self)),
                        spec_height(view_of(*self)),
                    );
                }
                let cs = child.to_surface();
                let w = cs.get_width() + 2 * *thickness;
                let h = cs.get_height() + 2 * *thickness;
                let mut s = Surface::solid(w, h, *color);
                s.composite(&cs, *thickness, *thickness);
                s
            },
            Widget::Background { padding, color, child } => {
                proof {
                    lemma_size_nonneg(view_of(**child));
                    lemma_area_mono(
                        spec_width(view_of(**child)),
                        spec_height(view_of(**child)),
                        spec_width(view_of(*self)),
                        spec_height(view_of(*self)),
                    );
                }
                let cs = child.to_surface();
                let w = cs.get_width() + 2 * *padding;
                let h = cs.get_height() + 2 * *padding;
                let mut s = Surface::solid(w, h, *color);
                s.composite(&cs, *padding, *padding);
                s
            },
            Widget::Node { width, height, layers } => {
                proof {
                    lemma_views_of(layers@);
                }
                let ghost views = views_of(layers@);
                let ghost target = render_spec(view_of(*self));
                let n = layers.len();
                let mut s = Surface::solid(*width, *height, TRANSPARENT);
                let mut i: usize = 0;
                proof {
                    assert(views.skip(0) =~= views);
                }
                while i < n
                    invariant
                        wf(view_of(*self)),
                        self matches Widget::Node { width: w2, height: h2, layers: l2 }
                            && w2 == *width && h2 == *height && l2@ == layers@,
                        views == views_of(layers@),
                        views.len() == n == layers@.len(),
                        forall|j: int| 0 <= j < n ==> views[j] == view_of(layers@[j]),
                        i <= n,
                        s.wf(),
                        s.width == *width,
                        s.height == *height,
                        target == render_spec(view_of(*self)),
                        render_layers(s.pixels@, *width as int, *height as int, views.skip(i as int))
                            == target,
                    decreases n - i,
                {
                    proof {
                        lemma_wf_at(layers@, i as int);
                        lemma_area_mono(
                            spec_width(views[i as int]),
                            spec_height(views[i as int]),
                            *width as int,
                            *height as int,
                        );
                    }
                    let ls = layers[i].to_surface();
                    let lw = ls.get_width();
                    let lh = ls.get_height();
                    let cx = (*width - lw) / 2;
                    let cy = (*height - lh) / 2;
                    let ghost before = s.pixels@;
                    s.composite(&ls, cx, cy);
                    proof {
                        assert(views.skip(i as int).first() == views[i as int]);
                        assert(views.skip(i as int).drop_first() =~= views.skip(i as int + 1));
                        assert(render_layers(before, *width as int, *height as int, views.skip(i as int))
                            == render_layers(s.pixels@, *width as int, *height as int, views.skip(i as int + 1)));
                    }
                    i = i + 1;
                }
                proof {
                    assert(views.skip(n as int) =~= Seq::<WidgetView>::empty());
                }
                s
            },
            Widget::List { orientation, margin, color, children } => {
                proof {
                    lemma_views_of(children@);
                }
                let ghost views = views_of(children@);
                let ghost target = render_spec(view_of(*self));
                let ghost m = *margin as int;
                let n = children.len();
                let w_total = self.get_width();
                let h_total = self.get_height();
                let mut s = Surface::solid(w_total, h_total, *color);
                let mut off: u32 = *margin;
                let mut i: usize = 0;
                proof {
                    assert(views.skip(0) =~= views);
                    assert(views.take(0) =~= Seq::<WidgetView>::empty());
                }
                while i < n
                    invariant
                        wf(view_of(*self)),
                        self matches Widget::List { orientation: o2, margin: m2, children: c2, .. }
                            && o2 == *orientation && m2 == *margin && c2@ == children@,
                        views == views_of(children@),
                        views.len() == n == children@.len(),
                        forall|j: int| 0 <= j < n ==> views[j] == view_of(children@[j]),
                        i <= n,
                        m == *margin as int,
                        s.wf(),
                        s.width == w_total == spec_width(view_of(*self)),
                        s.height == h_total == spec_height(view_of(*self)),
                        orientation is Horizontal ==> off == sum_widths(views.take(i as int)) + m
                            * (i + 1),
                        orientation is Vertical ==> off == sum_heights(views.take(i as int)) + m
                            * (i + 1),
                        target == render_spec(view_of(*self)),
                        render_children(
                            s.pixels@,
                            w_total as int,
                            views.skip(i as int),
                            off as int,
                            m,
                            *orientation,
                        ) == target,
                    decreases n - i,
                {
                    proof {
                        lemma_wf_at(children@, i as int);
                        lemma_elem_bounds(views, i as int);
                        lemma_take_step(views, i as int);
                        lemma_prefix_bounds(views, i as int + 1);
                        lemma_seq_sizes_nonneg(views);
                        assert(m * (n as int + 1) >= 0) by (nonlinear_arith)
                            requires
                                m >= 0,
                                n as int + 1 >= 0,
                        ;
                        assert(m * (i as int + 2) == m * (i as int + 1) + m) by (nonlinear_arith);
                        assert(m * (i as int + 2) <= m * (n as int + 1)) by (nonlinear_arith)
                            requires
                                i as int + 2 <= n as int + 1,
                                m >= 0,
                        ;
                        lemma_area_mono(
                            spec_width(views[i as int]),
                            spec_height(views[i as int]),
                            spec_width(view_of(*self)),
                            spec_height(view_of(*self)),
                        );
                    }
                    let cs = children[i].to_surface();
                    let cw = cs.get_width();
                    let ch = cs.get_height();
                    let cx = match orientation {
                        Orientation::Horizontal => off,
                        Orientation::Vertical => *margin,
                    };
                    let cy = match orientation {
                        Orientation::Horizontal => *margin,
                        Orientation::Vertical => off,
                    };
                    let ghost before = s.pixels@;
                    s.composite(&cs, cx, cy);
                    proof {
                        assert(views.skip(i as int).first() == views[i as int]);
                        assert(views.skip(i as int).drop_first() =~= views.skip(i as int + 1));
                        assert(render_children(
                            before,
                            w_total as int,
                            views.skip(i as int),
                            off as int,
                            m,
                            *orientation,
                        ) == render_children(
                            s.pixels@,
                            w_total as int,
                            views.skip(i as int + 1),
                            off as int + (if *orientation is Horizontal {
                                spec_width(views[i as int])
                            } else {
                                spec_height(views[i as int])
                            }) + m,
                            m,
                            *orientation,
                        ));
                    }
                    let step = match orientation {
                        Orientation::Horizontal => cw,
                        Orientation::Vertical => ch,
                    };
                    off = off + step + *margin;
                    i = i + 1;
                }
                proof {
                    assert(views.skip(n as int) =~= Seq::<WidgetView>::empty());
                }
                s
            },
            Widget::Button { pressed, pressed_color, child, .. } => {
                proof {
                    lemma_size_nonneg(view_of(**child));
                }
                if *pressed {
                    let cw = child.get_width();
                    let ch = child.get_height();
                    Surface::solid(cw, ch, *pressed_color)
                } else {
                    child.to_surface()
                }
            },
        }
    }
}

/// The nesting depth of a widget: how many containers stand between it and
/// its deepest leaf. Input dispatch recurses along this measure.
pub open spec fn depth(v: WidgetView) -> nat
    decreases v,
{
    match v {
        WidgetView::Rectangle { .. } => 0,
        WidgetView::Border { child, .. } => 1 + depth(*child),
        WidgetView::Background { child, .. } => 1 + depth(*child),
        WidgetView::Node { layers, .. } => 1 + depth_seq(layers),
        WidgetView::List { children, .. } => 1 + depth_seq(children),
        WidgetView::Button { child, .. } => 1 + depth(*child),
    }
}

pub open spec fn depth_seq(s: Seq<WidgetView>) -> nat
    decreases s,
{
    if s.len() == 0 {
        0
    } else if depth(s.last()) > depth_seq(s.drop_last()) {
        depth(s.last())
    } else {
        depth_seq(s.drop_last())
    }
}

/// No element of a sequence is deeper than the sequence.
pub proof fn lemma_depth_at(s: Seq<WidgetView>, i: int)
    requires
        0 <= i < s.len(),
    ensures
        depth(s[i]) <= depth_seq(s),
    decreases s.len(),
{
    if i < s.len() - 1 {
        lemma_depth_at(s.drop_last(), i);
    }
}

/// What dispatching one input into the tree produced: nothing, or a fully
/// rendered patch for the rectangle at `(x, y)`, possibly with an external
/// action to fire.
pub enum Hit {
    Miss,
    Patch { pixels: Seq<u32>, w: int, h: int, x: int, y: int, action: Option<u32> },
}

/// Where input dispatch left the tree and what it answered. The tree sits at
/// `(wx, wy)`; the pointer at `(px, py)`. Input travels depth-first into the
/// widget whose bounds contain the pointer: a list hands it to the child
/// whose strip contains it, a node to the topmost layer under it, a frame to
/// its child. Only a button reacts: pressing it shows its pressed block,
/// releasing it restores its child and fires its action — exactly when the
/// press landed on it first.
pub open spec fn dispatch(
    v: WidgetView,
    wx: int,
    wy: int,
    px: int,
    py: int,
    input: Input,
) -> (WidgetView, Hit)
    decreases v, 0int,
{
    match v {
        WidgetView::Rectangle { .. } => (v, Hit::Miss),
        WidgetView::Border { thickness, color, child } => {
            let r = dispatch(*child, wx + thickness, wy + thickness, px, py, input);
            (WidgetView::Border { thickness, color, child: Box::new(r.0) }, r.1)
        },
        WidgetView::Background { padding, color, child } => {
            let r = dispatch(*child, wx + padding, wy + padding, px, py, input);
            (WidgetView::Background { padding, color, child: Box::new(r.0) }, r.1)
        },
        WidgetView::Node { width, height, layers } => {
            let r = dispatch_layers(
                layers,
                layers.len() as int,
                width as int,
                height as int,
                wx,
                wy,
                px,
                py,
                input,
            );
            (WidgetView::Node { width, height, layers: r.0 }, r.1)
        },
        WidgetView::List { orientation, margin, color, children } => {
            let r = dispatch_children(
                children,
                0,
                margin as int,
                margin as int,
                orientation,
                wx,
                wy,
                px,
                py,
                input,
            );
            (WidgetView::List { orientation, margin, color, children: r.0 }, r.1)
        },
        WidgetView::Button { pressed, pressed_color, action, child } => {
            let cw = spec_width(*child);
            let ch = spec_height(*child);
            if wx <= px < wx + cw && wy <= py < wy + ch {
                match input {
                    Input::MouseClick { pressed: down, .. } => {
                        if down {
                            (
                                WidgetView::Button { pressed: true, pressed_color, action, child },
                                Hit::Patch {
                                    pixels: fill(cw, ch, pressed_color),
                                    w: cw,
                                    h: ch,
                                    x: wx,
                                    y: wy,
                                    action: None,
                                },
                            )
                        } else {
                            (
                                WidgetView::Button { pressed: false, pressed_color, action, child },
                                Hit::Patch {
                                    pixels: render_spec(*child),
                                    w: cw,
                                    h: ch,
                                    x: wx,
                                    y: wy,
                                    action: if pressed {
                                        Some(action)
                                    } else {
                                        None
                                    },
                                },
                            )
                        }
                    },
                    _ => (v, Hit::Miss),
                }
            } else {
                (v, Hit::Miss)
            }
        },
    }
}

/// Dispatch into the topmost of the first `i` layers of a `w` by `h` node at
/// `(wx, wy)` whose centered bounds contain the pointer.
pub open spec fn dispatch_layers(
    layers: Seq<WidgetView>,
    i: int,
    w: int,
    h: int,
    wx: int,
    wy: int,
    px: int,
    py: int,
    input: Input,
) -> (Seq<WidgetView>, Hit)
    decreases layers, i,
{
    if i <= 0 || i > layers.len() {
        (layers, Hit::Miss)
    } else {
        let l = layers[i - 1];
        let lx = wx + (w - spec_width(l)) / 2;
        let ly = wy + (h - spec_height(l)) / 2;
        if lx <= px < lx + spec_width(l) && ly <= py < ly + spec_height(l) {
            let r = dispatch(l, lx, ly, px, py, input);
            (layers.update(i - 1, r.0), r.1)
        } else {
            dispatch_layers(layers, i - 1, w, h, wx, wy, px, py, input)
        }
    }
}

/// Dispatch into the first of `children[i..]` whose strip contains the
/// pointer, the strip of `children[i]` starting `off` into the list's axis.
pub open spec fn dispatch_children(
    children: Seq<WidgetView>,
    i: int,
    off: int,
    margin: int,
    orientation: Orientation,
    wx: int,
    wy: int,
    px: int,
    py: int,
    input: Input,
) -> (Seq<WidgetView>, Hit)
    decreases children, children.len() - i,
{
    if i < 0 || i >= children.len() {
        (children, Hit::Miss)
    } else {
        let c = children[i];
        let cx = wx + if orientation is Horizontal {
            off
        } else {
            margin as int
        };
        let cy = wy + if orientation is Horizontal {
            margin as int
        } else {
            off
        };
        let step = if orientation is Horizontal {
            spec_width(c)
        } else {
            spec_height(c)
        };
        if cx <= px < cx + spec_width(c) && cy <= py < cy + spec_height(c) {
            let r = dispatch(c, cx, cy, px, py, input);
            (children.update(i, r.0), r.1)
        } else {
            dispatch_children(
                children,
                i + 1,
                off + step + margin,
                margin,
                orientation,
                wx,
                wy,
                px,
                py,
                input,
            )
        }
    }
}

/// The answer a widget's `contains` gave matches the outcome `dispatch`
/// describes: a miss answers no damage and no action; a hit answers an
/// `Area` patch holding exactly the described pixels, position and action.
pub open spec fn hit_matches(d: Damage, a: Option<u32>, hit: Hit) -> bool {
    match hit {
        Hit::Miss => d is Nothing && a is None,
        Hit::Patch { pixels, w, h, x, y, action } => {
            &&& d matches Damage::Area { surface, x: dx, y: dy } && surface.wf()
                && surface.pixels@ == pixels && surface.width == w && surface.height == h && dx == x
                && dy == y
            &&& a == action
        },
    }
}

/// Dispatch never changes a widget's footprint: the tree it leaves is
/// well-formed and reports the same width and height.
pub proof fn lemma_dispatch_preserves(
    v: WidgetView,
    wx: int,
    wy: int,
    px: int,
    py: int,
    input: Input,
)
    requires
        wf(v),
    ensures
        wf(dispatch(v, wx, wy, px, py, input).0),
        spec_width(dispatch(v, wx, wy, px, py, input).0) == spec_width(v),
        spec_height(dispatch(v, wx, wy, px, py, input).0) == spec_height(v),
    decreases v, 0int,
{
    match v {
        WidgetView::Border { thickness, color, child } => {
            lemma_dispatch_preserves(*child, wx + thickness, wy + thickness, px, py, input);
        },
        WidgetView::Background { padding, color, child } => {
            lemma_dispatch_preserves(*child, wx + padding, wy + padding, px, py, input);
        },
        WidgetView::Node { width, height, layers } => {
            lemma_dispatch_layers_preserves(
                layers,
                layers.len() as int,
                width as int,
                height as int,
                wx,
                wy,
                px,
                py,
                input,
            );
            let ns = dispatch_layers(
                layers,
                layers.len() as int,
                width as int,
                height as int,
                wx,
                wy,
                px,
                py,
                input,
            ).0;
            assert forall|j: int|
                0 <= j < ns.len() implies #[trigger] spec_width(ns[j]) <= width && spec_height(
                ns[j],
            ) <= height by {
                assert(spec_width(layers[j]) <= width && spec_height(layers[j]) <= height);
            }
        },
        WidgetView::List { orientation, margin, color, children } => {
            lemma_dispatch_children_preserves(
                children,
                0,
                margin as int,
                margin as int,
                orientation,
                wx,
                wy,
                px,
                py,
                input,
            );
            let ns = dispatch_children(
                children,
                0,
                margin as int,
                margin as int,
                orientation,
                wx,
                wy,
                px,
                py,
                input,
            ).0;
            lemma_sizes_pointwise(children, ns);
        },
        _ => {},
    }
}

/// Layer dispatch keeps every layer's footprint: the sequence it leaves is
/// well-formed, as long, and sizes match element by element.
pub proof fn lemma_dispatch_layers_preserves(
    layers: Seq<WidgetView>,
    i: int,
    w: int,
    h: int,
    wx: int,
    wy: int,
    px: int,
    py: int,
    input: Input,
)
    requires
        wf_seq(layers),
    ensures
        ({
            let ns = dispatch_layers(layers, i, w, h, wx, wy, px, py, input).0;
            &&& ns.len() == layers.len()
            &&& wf_seq(ns)
            &&& forall|j: int|
                0 <= j < layers.len() ==> #[trigger] spec_width(ns[j]) == spec_width(layers[j])
                    && spec_height(ns[j]) == spec_height(layers[j])
        }),
    decreases layers, i,
{
    if i <= 0 || i > layers.len() {
    } else {
        let l = layers[i - 1];
        let lx = wx + (w - spec_width(l)) / 2;
        let ly = wy + (h - spec_height(l)) / 2;
        if lx <= px < lx + spec_width(l) && ly <= py < ly + spec_height(l) {
            lemma_wf_seq(layers);
            lemma_dispatch_preserves(l, lx, ly, px, py, input);
            let nl = dispatch(l, lx, ly, px, py, input).0;
            lemma_wf_seq_update(layers, i - 1, nl);
        } else {
            lemma_dispatch_layers_preserves(layers, i - 1, w, h, wx, wy, px, py, input);
        }
    }
}

/// Child dispatch keeps every child's footprint: the sequence it leaves is
/// well-formed, as long, and sizes match element by element.
pub proof fn lemma_dispatch_children_preserves(
    children: Seq<WidgetView>,
    i: int,
    off: int,
    margin: int,
    orientation: Orientation,
    wx: int,
    wy: int,
    px: int,
    py: int,
    input: Input,
)
    requires
        wf_seq(children),
    ensures
        ({
            let ns = dispatch_children(
                children,
                i,
                off,
                margin,
                orientation,
                wx,
                wy,
                px,
                py,
                input,
            ).0;
            &&& ns.len() == children.len()
            &&& wf_seq(ns)
            &&& forall|j: int|
                0 <= j < children.len() ==> #[trigger] spec_width(ns[j]) == spec_width(children[j])
                    && spec_height(ns[j]) == spec_height(children[j])
        }),
    decreases children, children.len() - i,
{
    if i < 0 || i >= children.len() {
    } else {
        let c = children[i];
        let cx = wx + if orientation is Horizontal {
            off
        } else {
            margin as int
        };
        let cy = wy + if orientation is Horizontal {
            margin as int
        } else {
            off
        };
        let step = if orientation is Horizontal {
            spec_width(c)
        } else {
            spec_height(c)
        };
        if cx <= px < cx + spec_width(c) && cy <= py < cy + spec_height(c) {
            lemma_wf_seq(children);
            lemma_dispatch_preserves(c, cx, cy, px, py, input);
            let nc = dispatch(c, cx, cy, px, py, input).0;
            lemma_wf_seq_update(children, i, nc);
        } else {
            lemma_dispatch_children_preserves(
                children,
                i + 1,
                off + step + margin,
                margin,
                orientation,
                wx,
                wy,
                px,
                py,
                input,
            );
        }
    }
}

/// Replacing one element of a well-formed sequence by a well-formed widget
/// keeps the sequence well-formed.
pub proof fn lemma_wf_seq_update(s: Seq<WidgetView>, i: int, v: WidgetView)
    requires
        wf_seq(s),
        wf(v),
        0 <= i < s.len(),
    ensures
        wf_seq(s.update(i, v)),
    decreases s.len(),
{
    if i == s.len() - 1 {
        assert(s.update(i, v).drop_last() =~= s.drop_last());
        assert(s.update(i, v).last() == v);
    } else {
        lemma_wf_seq_update(s.drop_last(), i, v);
        assert(s.update(i, v).drop_last() =~= s.drop_last().update(i, v));
        assert(s.update(i, v).last() == s.last());
    }
}

/// Two sequences whose elements report the same sizes have the same sums
/// and maxima of sizes.
pub proof fn lemma_sizes_pointwise(s1: Seq<WidgetView>, s2: Seq<WidgetView>)
    requires
        s1.len() == s2.len(),
        forall|j: int|
            0 <= j < s1.len() ==> #[trigger] spec_width(s2[j]) == spec_width(s1[j]) && spec_height(
                s2[j],
            ) == spec_height(s1[j]),
    ensures
        sum_widths(s2) == sum_widths(s1),
        sum_heights(s2) == sum_heights(s1),
        max_widths(s2) == max_widths(s1),
        max_heights(s2) == max_heights(s1),
    decreases s1.len(),
{
    if s1.len() > 0 {
        assert(forall|j: int| 0 <= j < s1.len() - 1 ==> s1.drop_last()[j] == s1[j]);
        assert(forall|j: int| 0 <= j < s2.len() - 1 ==> s2.drop_last()[j] == s2[j]);
        lemma_sizes_pointwise(s1.drop_last(), s2.drop_last());
        assert(s1.last() == s1[s1.len() - 1] && s2.last() == s2[s1.len() - 1]);
        assert(spec_width(s2[s1.len() - 1]) == spec_width(s1[s1.len() - 1]) && spec_height(
            s2[s1.len() - 1],
        ) == spec_height(s1[s1.len() - 1]));
    }
}

/// Replacing one widget of a sequence replaces its view and no other.
pub proof fn lemma_views_update(s: Seq<Widget>, i: int, w: Widget)
    requires
        0 <= i < s.len(),
    ensures
        views_of(s.update(i, w)) == views_of(s).update(i, view_of(w)),
{
    lemma_views_of(s);
    lemma_views_of(s.update(i, w));
    assert(views_of(s.update(i, w)) =~= views_of(s).update(i, view_of(w)));
}

/// A list's reported size is always the stated function of its children's
/// sizes and its margin — the sum of their extents along the axis with a
/// margin around and between them, the maximum across it with the margin on
/// both sides — whatever children it holds: there is no cached size to go
/// stale when a child is replaced.
pub proof fn lemma_list_size(
    orientation: Orientation,
    margin: u32,
    color: u32,
    children: Seq<WidgetView>,
)
    ensures
        spec_width(WidgetView::List { orientation, margin, color, children })
            == if orientation is Horizontal {
            sum_widths(children) + margin * (children.len() + 1)
        } else {
            max_widths(children) + 2 * margin
        },
        spec_height(WidgetView::List { orientation, margin, color, children })
            == if orientation is Horizontal {
            max_heights(children) + 2 * margin
        } else {
            sum_heights(children) + margin * (children.len() + 1)
        },
{
}

/// A smaller rectangle has no more area than a larger one.
pub proof fn lemma_area_mono(w1: int, h1: int, w2: int, h2: int)
    requires
        0 <= w1 <= w2,
        0 <= h1 <= h2,
    ensures
        w1 * h1 <= w2 * h2,
{
    assert(w1 * h1 <= w2 * h2) by (nonlinear_arith)
        requires
            0 <= w1 <= w2,
            0 <= h1 <= h2,
    ;
}

/// Every element's width is at most the sum and the maximum of the widths,
/// and likewise for heights.
pub proof fn lemma_elem_bounds(s: Seq<WidgetView>, i: int)
    requires
        0 <= i < s.len(),
    ensures
        spec_width(s[i]) <= sum_widths(s),
        spec_width(s[i]) <= max_widths(s),
        spec_height(s[i]) <= sum_heights(s),
        spec_height(s[i]) <= max_heights(s),
    decreases s.len(),
{
    lemma_seq_sizes_nonneg(s);
    lemma_seq_sizes_nonneg(s.drop_last());
    if i == s.len() - 1 {
    } else {
        lemma_elem_bounds(s.drop_last(), i);
        lemma_size_nonneg(s.last());
    }
}

/// The rendering of a widget, row-major, `spec_width` columns by
/// `spec_height` rows: a rectangle is its color; a frame is its fill with
/// the child's rendering inside; a node stacks its layers centered over a
/// transparent ground, later layers on top; a list places its children along
/// its axis, each at the margin on the cross axis, over its fill; a button
/// shows a solid block of its pressed color while pressed, else its child.
pub open spec fn render_spec(v: WidgetView) -> Seq<u32>
    decreases v,
{
    match v {
        WidgetView::Rectangle { width, height, color } => fill(width as int, height as int, color),
        WidgetView::Border { thickness, color, child } => blit(
            fill(spec_width(v), spec_height(v), color),
            spec_width(v),
            render_spec(*child),
            spec_width(*child),
            spec_height(*child),
            thickness as int,
            thickness as int,
        ),
        WidgetView::Background { padding, color, child } => blit(
            fill(spec_width(v), spec_height(v), color),
            spec_width(v),
            render_spec(*child),
            spec_width(*child),
            spec_height(*child),
            padding as int,
            padding as int,
        ),
        WidgetView::Node { width, height, layers } => render_layers(
            fill(width as int, height as int, TRANSPARENT),
            width as int,
            height as int,
            layers,
        ),
        WidgetView::List { orientation, margin, color, children } => render_children(
            fill(spec_width(v), spec_height(v), color),
            spec_width(v),
            children,
            margin as int,
            margin as int,
            orientation,
        ),
        WidgetView::Button { pressed, pressed_color, child, .. } => if pressed {
            fill(spec_width(*child), spec_height(*child), pressed_color)
        } else {
            render_spec(*child)
        },
    }
}

/// `layers` composited in order onto `acc` (a `w` by `h` region), each
/// centered.
pub open spec fn render_layers(acc: Seq<u32>, w: int, h: int, layers: Seq<WidgetView>) -> Seq<u32>
    decreases layers,
{
    if layers.len() == 0 {
        acc
    } else {
        let l = layers.first();
        render_layers(
            blit(
                acc,
                w,
                render_spec(l),
                spec_width(l),
                spec_height(l),
                (w - spec_width(l)) / 2,
                (h - spec_height(l)) / 2,
            ),
            w,
            h,
            layers.drop_first(),
        )
    }
}

/// `children` composited in order onto `acc` (of row length `w`), laid out
/// along `orientation` starting at `off`, each at `margin` on the cross
/// axis, `margin` between one child and the next.
pub open spec fn render_children(
    acc: Seq<u32>,
    w: int,
    children: Seq<WidgetView>,
    off: int,
    margin: int,
    orientation: Orientation,
) -> Seq<u32>
    decreases children,
{
    if children.len() == 0 {
        acc
    } else {
        let c = children.first();
        let cx = if orientation is Horizontal { off } else { margin };
        let cy = if orientation is Horizontal { margin } else { off };
        let step = if orientation is Horizontal { spec_width(c) } else { spec_height(c) };
        render_children(
            blit(acc, w, render_spec(c), spec_width(c), spec_height(c), cx, cy),
            w,
            children.drop_first(),
            off + step + margin,
            margin,
            orientation,
        )
    }
}

impl Widget {
    /// A solid square of the given side.
    pub fn square(size: u32, color: u32) -> (r: Widget)
        ensures
            view_of(r) == (WidgetView::Rectangle { width: size, height: size, color }),
            wf(view_of(r)),
    {
        Widget::Rectangle { width: size, height: size, color }
    }

    /// A solid rectangle.
    pub fn rectangle(width: u32, height: u32, color: u32) -> (r: Widget)
        ensures
            view_of(r) == (WidgetView::Rectangle { width, height, color }),
            wf(view_of(r)),
    {
        Widget::Rectangle { width, height, color }
    }

    /// A node sized to `base`, with `base` as its only layer so far.
    pub fn node(base: Widget) -> (r: Widget)
        requires
            wf(view_of(base)),
        ensures
            view_of(r) == (WidgetView::Node {
                width: spec_width(view_of(base)) as u32,
                height: spec_height(view_of(base)) as u32,
                layers: seq![view_of(base)],
            }),
            wf(view_of(r)),
    {
        proof {
            lemma_size_nonneg(view_of(base));
        }
        let width = base.get_width();
        let height = base.get_height();
        let ghost bv = view_of(base);
        let mut layers: Vec<Widget> = Vec::new();
        layers.push(base);
        proof {
            assert(layers@.drop_last() =~= Seq::<Widget>::empty());
            assert(views_of(layers@.drop_last()) =~= Seq::<WidgetView>::empty());
            assert(layers@.last() == base);
            assert(views_of(layers@) =~= seq![bv]);
            assert(wf_seq(seq![bv])) by {
                assert(seq![bv].drop_last() =~= Seq::<WidgetView>::empty());
                assert(wf_seq(Seq::<WidgetView>::empty()));
                assert(seq![bv].last() == bv);
            }
            lemma_size_bounded(bv);
        }
        Widget::Node { width, height, layers }
    }

    /// Adds one more centered layer on top of a node. Fails, leaving the
    /// node as it was, exactly when this widget is no node or the layer
    /// would not fit inside it.
    pub fn center(&mut self, w: Widget) -> (r: Result<(), crate::Error>)
        requires
            wf(view_of(*old(self))),
            wf(view_of(w)),
        ensures
            r is Ok <==> ((view_of(*old(self))) matches WidgetView::Node { width, height, .. }
                && spec_width(view_of(w)) <= width && spec_height(view_of(w)) <= height),
            r is Ok ==> ((view_of(*old(self))) matches WidgetView::Node { width, height, layers }
                && view_of(*final(self)) == (WidgetView::Node {
                    width,
                    height,
                    layers: layers.push(view_of(w)),
                })),
            r is Err ==> view_of(*final(self)) == view_of(*old(self)) && r == Result::<
                (),
                crate::Error,
            >::Err(crate::Error::Oversize),
            wf(view_of(*final(self))),
    {
        proof {
            lemma_size_nonneg(view_of(w));
        }
        let ww = w.get_width();
        let wh = w.get_height();
        match self {
            Widget::Node { width, height, layers } => {
                if ww <= *width && wh <= *height {
                    let ghost before = layers@;
                    let ghost wv = view_of(w);
                    layers.push(w);
                    proof {
                        assert(layers@.drop_last() =~= before);
                        assert(views_of(layers@) == views_of(before).push(wv));
                        assert(wf_seq(views_of(before).push(wv))) by {
                            assert(views_of(before).push(wv).drop_last() =~= views_of(before));
                        }
                        lemma_views_of(before);
                    }
                    Ok(())
                } else {
                    Err(crate::Error::Oversize)
                }
            },
            _ => Err(crate::Error::Oversize),
        }
    }

    /// An empty list along `orientation`, with no margin and a transparent
    /// fill until [`Widget::set_margin`] and [`Widget::set_content`] say
    /// otherwise.
    pub fn list(orientation: Orientation) -> (r: Widget)
        ensures
            view_of(r) == (WidgetView::List {
                orientation,
                margin: 0,
                color: TRANSPARENT,
                children: Seq::empty(),
            }),
            wf(view_of(r)),
    {
        let children: Vec<Widget> = Vec::new();
        proof {
            assert(views_of(children@) =~= Seq::<WidgetView>::empty());
        }
        let r = Widget::List { orientation, margin: 0, color: TRANSPARENT, children };
        proof {
            assert(sum_widths(Seq::<WidgetView>::empty()) == 0);
            assert(max_widths(Seq::<WidgetView>::empty()) == 0);
            assert(sum_heights(Seq::<WidgetView>::empty()) == 0);
            assert(max_heights(Seq::<WidgetView>::empty()) == 0);
            assert(wf_seq(Seq::<WidgetView>::empty()));
        }
        r
    }

    /// Sets the margin of a list that has no children yet; anywhere else it
    /// does nothing.
    pub fn set_margin(&mut self, margin: u32)
        requires
            wf(view_of(*old(self))),
            margin <= u32::MAX / 2,
        ensures
            (view_of(*old(self))) matches WidgetView::List { orientation, color, children, .. }
                ==> (if children.len() == 0 {
                view_of(*final(self)) == (WidgetView::List {
                    orientation,
                    margin,
                    color,
                    children: Seq::<WidgetView>::empty(),
                })
            } else {
                view_of(*final(self)) == view_of(*old(self))
            }),
            !((view_of(*old(self))) is List) ==> view_of(*final(self)) == view_of(*old(self)),
            wf(view_of(*final(self))),
    {
        match self {
            Widget::List { margin: m2, children, .. } => {
                proof {
                    lemma_views_of(children@);
                }
                if children.len() == 0 {
                    *m2 = margin;
                    proof {
                        assert(views_of(children@) =~= Seq::<WidgetView>::empty());
                        assert(sum_widths(Seq::<WidgetView>::empty()) == 0);
                        assert(max_widths(Seq::<WidgetView>::empty()) == 0);
                        assert(sum_heights(Seq::<WidgetView>::empty()) == 0);
                        assert(max_heights(Seq::<WidgetView>::empty()) == 0);
                        assert(wf_seq(Seq::<WidgetView>::empty()));
                    }
                }
            },
            _ => {},
        }
    }

    /// Sets the fill color of a list; anywhere else it does nothing.
    pub fn set_content(&mut self, color: u32)
        requires
            wf(view_of(*old(self))),
        ensures
            (view_of(*old(self))) matches WidgetView::List { orientation, margin, children, .. }
                ==> view_of(*final(self)) == (WidgetView::List {
                orientation,
                margin,
                color,
                children,
            }),
            !((view_of(*old(self))) is List) ==> view_of(*final(self)) == view_of(*old(self)),
            wf(view_of(*final(self))),
    {
        match self {
            Widget::List { color: c2, .. } => {
                *c2 = color;
            },
            _ => {},
        }
    }

    /// Appends a child to a list. Fails, leaving the list as it was, exactly
    /// when this widget is no list or the grown list would report a size
    /// past `u32::MAX`.
    pub fn add(&mut self, w: Widget) -> (r: Result<(), crate::Error>)
        requires
            wf(view_of(*old(self))),
            wf(view_of(w)),
        ensures
            r is Ok <==> ((view_of(*old(self))) matches WidgetView::List {
                orientation,
                margin,
                children,
                ..
            } && spec_width(
                WidgetView::List {
                    orientation,
                    margin,
                    color: 0,
                    children: children.push(view_of(w)),
                },
            ) <= u32::MAX && spec_height(
                WidgetView::List {
                    orientation,
                    margin,
                    color: 0,
                    children: children.push(view_of(w)),
                },
            ) <= u32::MAX),
            r is Ok ==> ((view_of(*old(self))) matches WidgetView::List {
                orientation,
                margin,
                color,
                children,
            } && view_of(*final(self)) == (WidgetView::List {
                orientation,
                margin,
                color,
                children: children.push(view_of(w)),
            })),
            r is Err ==> view_of(*final(self)) == view_of(*old(self)) && r == Result::<
                (),
                crate::Error,
            >::Err(crate::Error::Oversize),
            wf(view_of(*final(self))),
    {
        proof {
            lemma_size_nonneg(view_of(w));
            lemma_size_nonneg(view_of(*old(self)));
        }
        let ww = w.get_width();
        let wh = w.get_height();
        let ow = self.get_width();
        let oh = self.get_height();
        match self {
            Widget::List { orientation, margin, children, .. } => {
                let ghost before = views_of(children@);
                let ghost wv = view_of(w);
                let ghost m = *margin as int;
                let ghost n = children@.len() as int;
                proof {
                    lemma_views_of(children@);
                    lemma_seq_sizes_nonneg(before);
                }
                proof {
                    if *orientation is Horizontal {
                        assert(ow as int == sum_widths(before) + m * (n + 1));
                        assert(oh as int == max_heights(before) + 2 * m);
                    } else {
                        assert(oh as int == sum_heights(before) + m * (n + 1));
                        assert(ow as int == max_widths(before) + 2 * m);
                    }
                }
                let fits: bool = match orientation {
                    Orientation::Horizontal => {
                        let new_w = (ow as u64) + (ww as u64) + (*margin as u64);
                        let new_h = if (wh as u64) + 2 * (*margin as u64) > (oh as u64) {
                            (wh as u64) + 2 * (*margin as u64)
                        } else {
                            oh as u64
                        };
                        proof {
                            assert(m * (n + 2) == m * (n + 1) + m) by (nonlinear_arith);
                        }
                        new_w <= u32::MAX as u64 && new_h <= u32::MAX as u64
                    },
                    Orientation::Vertical => {
                        let new_h = (oh as u64) + (wh as u64) + (*margin as u64);
                        let new_w = if (ww as u64) + 2 * (*margin as u64) > (ow as u64) {
                            (ww as u64) + 2 * (*margin as u64)
                        } else {
                            ow as u64
                        };
                        proof {
                            assert(m * (n + 2) == m * (n + 1) + m) by (nonlinear_arith);
                        }
                        new_w <= u32::MAX as u64 && new_h <= u32::MAX as u64
                    },
                };
                proof {
                    assert(before.push(wv).drop_last() =~= before);
                    assert(before.push(wv).last() == wv);
                    assert(sum_widths(before.push(wv)) == sum_widths(before) + spec_width(wv));
                    assert(sum_heights(before.push(wv)) == sum_heights(before) + spec_height(wv));
                    assert(max_widths(before.push(wv)) == if spec_width(wv) > max_widths(before) {
                        spec_width(wv)
                    } else {
                        max_widths(before)
                    });
                    assert(max_heights(before.push(wv)) == if spec_height(wv) > max_heights(
                        before,
                    ) {
                        spec_height(wv)
                    } else {
                        max_heights(before)
                    });
                    assert(m * (n + 2) == m * (n + 1) + m) by (nonlinear_arith);
                }
                if fits {
                    let ghost before_vec = children@;
                    children.push(w);
                    proof {
                        assert(children@.drop_last() =~= before_vec);
                        assert(children@.last() == w);
                        assert(views_of(children@) == views_of(before_vec).push(wv));
                        assert(views_of(children@) == before.push(wv));
                        assert(wf_seq(before.push(wv))) by {
                            assert(before.push(wv).drop_last() =~= before);
                        }
                    }
                    Ok(())
                } else {
                    Err(crate::Error::Oversize)
                }
            },
            _ => Err(crate::Error::Oversize),
        }
    }

    /// A button that reacts to clicks with `pressed_color` and fires the
    /// external action `action` when released.
    pub fn button(child: Widget, pressed_color: u32, action: u32) -> (r: Widget)
        requires
            wf(view_of(child)),
        ensures
            view_of(r) == (WidgetView::Button {
                pressed: false,
                pressed_color,
                action,
                child: Box::new(view_of(child)),
            }),
            wf(view_of(r)),
    {
        Widget::Button { pressed: false, pressed_color, action, child: Box::new(child) }
    }
}

/// `child` framed by a `thickness`-wide border of `color`.
pub fn border(child: Widget, thickness: u32, color: u32) -> (r: Widget)
    requires
        wf(view_of(child)),
        spec_width(view_of(child)) + 2 * thickness <= u32::MAX,
        spec_height(view_of(child)) + 2 * thickness <= u32::MAX,
    ensures
        view_of(r) == (WidgetView::Border { thickness, color, child: Box::new(view_of(child)) }),
        wf(view_of(r)),
{
    Widget::Border { thickness, color, child: Box::new(child) }
}

/// `child` over a solid `color` fill that extends `padding` past it on
/// every side.
pub fn background(child: Widget, padding: u32, color: u32) -> (r: Widget)
    requires
        wf(view_of(child)),
        spec_width(view_of(child)) + 2 * padding <= u32::MAX,
        spec_height(view_of(child)) + 2 * padding <= u32::MAX,
    ensures
        view_of(r) == (WidgetView::Background { padding, color, child: Box::new(view_of(child)) }),
        wf(view_of(r)),
{
    Widget::Background { padding, color, child: Box::new(child) }
}

/// Element `i` of a well-formed widget sequence is well-formed, its view is
/// element `i` of the sequence's views, and its sizes are those the view
/// reports.
pub proof fn lemma_wf_at(s: Seq<Widget>, i: int)
    requires
        wf_seq(views_of(s)),
        0 <= i < s.len(),
    ensures
        views_of(s).len() == s.len(),
        views_of(s)[i] == view_of(s[i]),
        wf(view_of(s[i])),
        spec_width(view_of(s[i])) >= 0,
        spec_height(view_of(s[i])) >= 0,
{
    lemma_views_of(s);
    lemma_wf_seq(views_of(s));
    lemma_size_nonneg(view_of(s[i]));
}

} // verus!
